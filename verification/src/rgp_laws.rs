//! What a graphics sequence asks for.

use crate::rgp::{
    color_of, content_of, decoded, flag_of, numbers_placed, operation_in, part_read, parts_read,
    real_of, request_of, FieldsModel, OperationModel, RequestModel, SourceModel, RGP_APC_START,
    RGP_NUMBERS,
};
use crate::text::{first_of, number_of};
use crate::text_laws::law_the_first_place_is_found;
use vstd::prelude::*;
use vstd::utf8::encode_utf8;

verus! {

/// What stands between the start of a sequence and its end, which is written in one byte or
/// in two, is its content.
pub proof fn law_sequences_hold_their_content(content: Seq<u8>)
    ensures
        ({
            let start = encode_utf8(RGP_APC_START@);
            &&& content_of(start + content + seq![0x9cu8]) == Some(content)
            &&& content_of(start + content + seq![0x1bu8, 0x5cu8]) == Some(content)
        }),
{
    let start = encode_utf8(RGP_APC_START@);
    let short = start + content + seq![0x9cu8];
    let long = start + content + seq![0x1bu8, 0x5cu8];
    assert(short.subrange(0, start.len() as int) =~= start);
    assert(long.subrange(0, start.len() as int) =~= start);
    assert(short.subrange(start.len() as int, short.len() - 1) =~= content);
    assert(long.subrange(start.len() as int, long.len() - 2) =~= content);
}

/// A part `key=value` sets the field of its key to its value, whatever it was, and no other
/// field.
pub proof fn law_parts_set_fields(
    fields: FieldsModel,
    register: bool,
    key: Seq<char>,
    value: Seq<char>,
)
    requires
        !fields.done,
        !key.contains('='),
    ensures
        ({
            let after = part_read(fields, register, key.push('=') + value);
            &&& key == "id"@ ==> after == (FieldsModel {
                id: number_of(value, u32::MAX as int),
                ..fields
            })
            &&& key == "fmt"@ ==> after == (FieldsModel { format: Some(value), ..fields })
            &&& key == "path"@ ==> after == (FieldsModel { path: Some(value), ..fields })
            &&& key == "source"@ ==> after == (FieldsModel { source: Some(value), ..fields })
            &&& key == "name"@ ==> after == (FieldsModel { name: Some(value), ..fields })
            &&& key == "more"@ ==> after == (FieldsModel { more: flag_of(value), ..fields })
            &&& key == "row"@ ==> after == (FieldsModel {
                row: number_of(value, u16::MAX as int),
                ..fields
            })
            &&& key == "col"@ ==> after == (FieldsModel {
                col: number_of(value, u16::MAX as int),
                ..fields
            })
            &&& key == "w"@ ==> after == (FieldsModel {
                width: number_of(value, u32::MAX as int),
                ..fields
            })
            &&& key == "h"@ ==> after == (FieldsModel {
                height: number_of(value, u32::MAX as int),
                ..fields
            })
            &&& key == "animate"@ ==> after == (FieldsModel { animate: flag_of(value), ..fields })
            &&& key == "normalize"@ ==> after == (FieldsModel { normalize: flag_of(value), ..fields })
            &&& key == "color"@ || key == "tint"@ ==> after == (FieldsModel {
                color: color_of(value),
                ..fields
            })
            &&& key == "scale"@ ==> after == with_number(fields, 0, value)
            &&& key == "depth"@ ==> after == with_number(fields, 1, value)
            &&& key == "brightness"@ ==> after == with_number(fields, 2, value)
            &&& key == "px"@ ==> after == with_number(fields, 3, value)
            &&& key == "py"@ ==> after == with_number(fields, 4, value)
            &&& key == "pz"@ ==> after == with_number(fields, 5, value)
            &&& key == "rx"@ ==> after == with_number(fields, 6, value)
            &&& key == "ry"@ ==> after == with_number(fields, 7, value)
            &&& key == "rz"@ ==> after == with_number(fields, 8, value)
            &&& key == "sx"@ ==> after == with_number(fields, 9, value)
            &&& key == "sy"@ ==> after == with_number(fields, 10, value)
            &&& key == "sz"@ ==> after == with_number(fields, 11, value)
        }),
{
    let part = key.push('=') + value;
    law_the_first_place_is_found(part, '=', 0);
    assert(part[key.len() as int] == '=');
    assert forall|k: int| 0 <= k < key.len() implies #[trigger] part[k] != '=' by {
        assert(part[k] == key[k]);
    }
    assert(first_of(part, '=', 0) == Some(key.len() as int));
    assert(part.subrange(0, key.len() as int) =~= key);
    assert(part.subrange(key.len() as int + 1, part.len() as int) =~= value);
    reveal_names();
}

/// With one of the numbers of a placement set.
pub open spec fn with_number(fields: FieldsModel, i: int, value: Seq<char>) -> FieldsModel {
    FieldsModel {
        numbers: fields.numbers.update(i, real_of(value)),
        ..fields
    }
}

/// What the names of fields are.
proof fn reveal_names()
    ensures
        "id"@.len() == 2 && "id"@[0] == 'i',
        "fmt"@.len() == 3 && "fmt"@[0] == 'f',
        "path"@.len() == 4 && "path"@[0] == 'p',
        "source"@.len() == 6 && "source"@[0] == 's' && "source"@[1] == 'o',
        "more"@.len() == 4 && "more"@[0] == 'm',
        "name"@.len() == 4 && "name"@[0] == 'n',
        "row"@.len() == 3 && "row"@[0] == 'r',
        "col"@.len() == 3 && "col"@[0] == 'c',
        "w"@.len() == 1 && "w"@[0] == 'w',
        "h"@.len() == 1 && "h"@[0] == 'h',
        "animate"@.len() == 7 && "animate"@[0] == 'a',
        "color"@.len() == 5 && "color"@[0] == 'c',
        "tint"@.len() == 4 && "tint"@[0] == 't',
        "normalize"@.len() == 9 && "normalize"@[0] == 'n',
        "scale"@.len() == 5 && "scale"@[0] == 's',
        "depth"@.len() == 5 && "depth"@[0] == 'd',
        "brightness"@.len() == 10 && "brightness"@[0] == 'b',
        "px"@.len() == 2 && "px"@[0] == 'p' && "px"@[1] == 'x',
        "py"@.len() == 2 && "py"@[0] == 'p' && "py"@[1] == 'y',
        "pz"@.len() == 2 && "pz"@[0] == 'p' && "pz"@[1] == 'z',
        "rx"@.len() == 2 && "rx"@[0] == 'r' && "rx"@[1] == 'x',
        "ry"@.len() == 2 && "ry"@[0] == 'r' && "ry"@[1] == 'y',
        "rz"@.len() == 2 && "rz"@[0] == 'r' && "rz"@[1] == 'z',
        "sx"@.len() == 2 && "sx"@[0] == 's' && "sx"@[1] == 'x',
        "sy"@.len() == 2 && "sy"@[0] == 's' && "sy"@[1] == 'y',
        "sz"@.len() == 2 && "sz"@[0] == 's' && "sz"@[1] == 'z',
{
    reveal_strlit("id");
    reveal_strlit("fmt");
    reveal_strlit("path");
    reveal_strlit("source");
    reveal_strlit("more");
    reveal_strlit("name");
    reveal_strlit("row");
    reveal_strlit("col");
    reveal_strlit("w");
    reveal_strlit("h");
    reveal_strlit("animate");
    reveal_strlit("color");
    reveal_strlit("tint");
    reveal_strlit("normalize");
    reveal_strlit("scale");
    reveal_strlit("depth");
    reveal_strlit("brightness");
    reveal_strlit("px");
    reveal_strlit("py");
    reveal_strlit("pz");
    reveal_strlit("rx");
    reveal_strlit("ry");
    reveal_strlit("rz");
    reveal_strlit("sx");
    reveal_strlit("sy");
    reveal_strlit("sz");
}

/// A flag is set by `1` and `true` and reset by `0` and `false`.
pub proof fn law_flags_are_read(value: Seq<char>)
    ensures
        flag_of(value) == Some(true) <==> value == "1"@ || value == "true"@,
        flag_of(value) == Some(false) <==> value == "0"@ || value == "false"@,
{
    reveal_strlit("1");
    reveal_strlit("true");
    reveal_strlit("0");
    reveal_strlit("false");
    assert("1"@[0] != "0"@[0]);
    assert("true"@.len() == 4 && "false"@.len() == 5);
}

/// A number that a placement does not give is one where it multiplies, which are the scale,
/// the brightness and the scale along each axis, and zero where it adds.
pub proof fn law_numbers_have_defaults(given: Seq<Option<Seq<char>>>, i: int)
    requires
        given.len() == RGP_NUMBERS,
        0 <= i < 12,
    ensures
        numbers_placed(given).len() == 12,
        given[i] matches Some(number) ==> numbers_placed(given)[i] == number,
        given[i] is None && (i == 0 || i == 2 || i == 9 || i == 10 || i == 11) ==> numbers_placed(
            given,
        )[i] == "1"@,
        given[i] is None && (i == 1 || 3 <= i <= 8) ==> numbers_placed(given)[i] == "0"@,
{
}

/// A verb asks for what it stands for, with the fields that it needs: `s` whether graphics
/// are supported, `r` to register, `p` to place, `u` to update and `d` to delete an object.
/// Without a field that it needs nothing is asked for.
pub proof fn law_verbs_ask_for_operations(verb: Seq<char>, fields: FieldsModel)
    ensures
        verb == "s"@ ==> request_of(verb, fields) == Some(
            RequestModel::Ready(OperationModel::SupportQuery),
        ),
        verb == "d"@ ==> {
            &&& request_of(verb, fields) matches Some(
                RequestModel::Ready(OperationModel::Delete { object_id }),
            ) && (fields.id is None <==> object_id is None)
                && (0 <= fields.id->0 <= u32::MAX && fields.id is Some ==> object_id->0
                == fields.id->0)
        },
        verb == "u"@ ==> (fields.id is None <==> request_of(verb, fields) is None),
        verb == "u"@ && fields.id is Some ==> (request_of(verb, fields) matches Some(
            RequestModel::Ready(OperationModel::Update { object_id, update }),
        ) && (0 <= fields.id->0 <= u32::MAX ==> object_id == fields.id->0) && update.animate
            == fields.animate && update.color == fields.color && update.numbers == fields.numbers),
        verb == "p"@ ==> (request_of(verb, fields) is None <==> fields.id is None || fields.row is None
            || fields.col is None || fields.width is None || fields.height is None),
        verb == "p"@ && request_of(verb, fields) is Some ==> (request_of(verb, fields) matches Some(
            RequestModel::Ready(OperationModel::Place { object_id, row, col, columns, rows, style }),
        ) && (0 <= fields.id->0 <= u32::MAX ==> object_id == fields.id->0) && (0 <= fields.row->0
            <= u16::MAX ==> row == fields.row->0) && (0 <= fields.col->0 <= u16::MAX ==> col
            == fields.col->0) && (0 <= fields.width->0 <= u32::MAX ==> columns == fields.width->0)
            && (0 <= fields.height->0 <= u32::MAX ==> rows == fields.height->0) && style.color
            == fields.color && (style.animate <==> fields.animate == Some(true)) && style.numbers
            == numbers_placed(fields.numbers)),
{
    reveal_verbs();
}

proof fn reveal_verbs()
    ensures
        "s"@ == seq!['s'],
        "r"@ == seq!['r'],
        "p"@ == seq!['p'],
        "u"@ == seq!['u'],
        "d"@ == seq!['d'],
        "s"@[0] == 's',
        "r"@[0] == 'r',
        "p"@[0] == 'p',
        "u"@[0] == 'u',
        "d"@[0] == 'd',
{
    reveal_strlit("s");
    reveal_strlit("r");
    reveal_strlit("p");
    reveal_strlit("u");
    reveal_strlit("d");
    assert("s"@ =~= seq!['s']);
    assert("r"@ =~= seq!['r']);
    assert("p"@ =~= seq!['p']);
    assert("u"@ =~= seq!['u']);
    assert("d"@ =~= seq!['d']);
}

/// A registration names its object and its format, and gives a path, or bytes: all of them,
/// or with more to come. An object is brought to a common size unless that is not wanted.
pub proof fn law_registrations_give_a_path_or_bytes(fields: FieldsModel, data: Option<Seq<u8>>)
    requires
        fields.id matches Some(id) && 0 <= id <= u32::MAX,
        fields.format is Some,
    ensures
        ({
            let request = request_of("r"@, fields);
            let wanted = fields.normalize != Some(false);
            &&& fields.path matches Some(path) ==> request == Some(
                RequestModel::Ready(
                    OperationModel::Register {
                        object_id: fields.id->0 as u32,
                        format: fields.format->0,
                        normalize: wanted,
                        source: SourceModel::Path(path),
                    },
                ),
            )
            &&& fields.path is None && fields.source == Some("payload"@) ==> request is Some
                && decoded(request->0, data) == (match data {
                Some(data) => Some(
                    OperationModel::Register {
                        object_id: fields.id->0 as u32,
                        format: fields.format->0,
                        normalize: wanted,
                        source: SourceModel::Payload {
                            name: fields.name,
                            more: fields.more == Some(true),
                            data,
                        },
                    },
                ),
                None => None,
            })
            &&& fields.path is None && fields.source != Some("payload"@) ==> request is None
        }),
{
    reveal_verbs();
}

proof fn lemma_parts_prefix(parts: Seq<Seq<char>>, part: Seq<char>, n: int)
    requires
        0 < parts.len(),
        n <= parts.len(),
    ensures
        parts_read(parts.push(part), n) == parts_read(parts, n),
    decreases n,
{
    if n > 1 {
        lemma_parts_prefix(parts, part, n - 1);
    }
}

/// The first part of a sequence is its verb and sets no field; each part behind it is read
/// after the parts before it.
pub proof fn law_parts_are_read_in_order(
    verb: Seq<char>,
    parts: Seq<Seq<char>>,
    part: Seq<char>,
    i: int,
)
    requires
        0 <= i < 16,
        parts.len() > 0,
    ensures
        ({
            let none = parts_read(seq![verb], 1);
            &&& none.id is None && none.format is None && none.path is None && none.source is None
            &&& none.name is None && none.payload is None && none.more is None
            &&& none.animate is None && none.normalize is None && none.color is None
            &&& none.row is None && none.col is None && none.width is None && none.height is None
            &&& !none.done
            &&& i < none.numbers.len() ==> none.numbers[i] is None
        }),
        parts_read(parts.push(part), parts.len() as int + 1) == part_read(
            parts_read(parts, parts.len() as int),
            parts[0] == "r"@,
            part,
        ),
{
    lemma_parts_prefix(parts, part, parts.len() as int);
    assert(parts.push(part)[0] == parts[0]);
}

/// A sequence with content that is text asks for what its parts between semicolons ask for,
/// and any other sequence for nothing. What it asks for without a payload is asked for as it
/// stands.
pub proof fn law_sequences_ask_for_operations(sequence: Seq<u8>, content: Seq<u8>)
    ensures
        content_of(sequence) is None ==> operation_in(sequence) is None,
        content_of(sequence) == Some(content) && !vstd::utf8::valid_utf8(content) ==> operation_in(
            sequence,
        ) is None,
        content_of(sequence) == Some(content) && vstd::utf8::valid_utf8(content) ==> {
            let parts = crate::text::pieces(vstd::utf8::decode_utf8(content), ';');
            let request = request_of(parts[0], parts_read(parts, parts.len() as int));
            &&& request is None ==> operation_in(sequence) is None
            &&& request matches Some(RequestModel::Ready(operation)) ==> operation_in(sequence)
                == Some(operation)
            &&& request matches Some(RequestModel::Encoded { payload, .. }) ==> operation_in(sequence)
                == decoded(request.unwrap(), crate::rgp::base64_bytes(payload))
        },
{
}

} // verus!

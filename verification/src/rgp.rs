//! Ratty Graphics Protocol parsing.

use crate::config::{hex_color, parse_hex_color};
use crate::decimal::{is_real, reads_as_real};
use crate::number::Number;
use crate::ratty_vt::term::push_str;
use crate::scene::TerminalPresentationMode;
use crate::text::{
    chars_of, decode_text, find, first_of, lists_view, number_of,
    parse_number, part_of, pieces, spells, split, string_of,
};
use base64::Engine;
use vstd::prelude::*;
use vstd::utf8::{decode_utf8, encode_utf8, valid_utf8};

verus! {

/// What every sequence of the protocol starts with.
pub const RGP_APC_START: &'static str = "\x1b_ratty;g;";

/// The numbers that a placement can have, by their keys: scale, depth,
/// brightness, and the three components of offset, rotation and scale.
pub const RGP_NUMBERS: usize = 12;

/// Placement style for an object. Numbers are as they were written, in the
/// order of their keys.
#[derive(Debug)]
pub struct RgpPlacementStyle {
    /// Enables default animation.
    pub animate: bool,
    /// Optional object color.
    pub color: Option<[u8; 3]>,
    /// The numbers, those that were not given too.
    pub numbers: Vec<String>,
}

/// Partial update for an object placement. Numbers are as they were written, in
/// the order of their keys.
#[derive(Debug)]
pub struct RgpPlacementUpdate {
    /// Updates the default animation flag.
    pub animate: Option<bool>,
    /// Updates the object color.
    pub color: Option<[u8; 3]>,
    /// The numbers that were given.
    pub numbers: Vec<Option<String>>,
}

/// Register source for an object.
#[derive(Debug)]
pub enum RgpRegisterSource {
    /// Path-based object registration: an asset path.
    Path { path: String },
    /// Payload-based object registration: an optional name, whether more chunks
    /// follow, and the decoded bytes.
    Payload { name: Option<String>, more: bool, data: Vec<u8> },
}

/// Registration-time object loading options.
#[derive(Debug, Clone, Copy, PartialEq, Eq, Structural)]
pub struct RgpRegisterOptions {
    /// Normalizes meshes into a centered unit-size coordinate space.
    pub normalize: bool,
}

impl Default for RgpRegisterOptions {
    fn default() -> (r: Self)
        ensures
            r.normalize,
    {
        RgpRegisterOptions { normalize: true }
    }
}

/// Anchor placement.
#[derive(Debug)]
pub struct RgpAnchor {
    /// Anchor row.
    pub row: u16,
    /// Anchor column.
    pub col: u16,
    /// Object width in cells.
    pub columns: u32,
    /// Object height in cells.
    pub rows: u32,
    /// Placement style.
    pub style: RgpPlacementStyle,
}

/// Parsed operation.
#[derive(Debug)]
#[allow(inconsistent_fields)]
pub enum RgpOperation {
    /// Support query.
    SupportQuery,
    /// Object registration: identifier, declared format, options and source.
    Register {
        object_id: u32,
        format: String,
        options: RgpRegisterOptions,
        source: RgpRegisterSource,
    },
    /// Object placement.
    Place { object_id: u32, anchor: RgpAnchor },
    /// Object update.
    Update { object_id: u32, update: RgpPlacementUpdate },
    /// Object deletion; of all objects without an identifier.
    Delete { object_id: Option<u32> },
    /// Camera update: the slot, whether it becomes the active one at once, and what is
    /// given of its settings.
    Camera { camera_slot: u8, switch_immediately: bool, settings: RgpCameraSettings },
    /// Ignored operation.
    Ignored,
}

/// What is given of the settings of a camera; angles are in radians.
#[derive(Debug, Clone, Copy)]
pub struct RgpCameraSettings {
    pub camera_type: Option<TerminalPresentationMode>,
    pub scale: Option<Number>,
    pub fov: Option<Number>,
    pub offset: [Option<Number>; 3],
    pub rotation: [Option<Number>; 3],
}

/// What an operation says.
#[allow(inconsistent_fields)]
pub enum OperationModel {
    SupportQuery,
    Register { object_id: u32, format: Seq<char>, normalize: bool, source: SourceModel },
    Place { object_id: u32, row: u16, col: u16, columns: u32, rows: u32, style: StyleModel },
    Update { object_id: u32, update: UpdateModel },
    Delete { object_id: Option<u32> },
    Camera { camera_slot: u8, switch_immediately: bool, settings: RgpCameraSettings },
    Ignored,
}

pub enum SourceModel {
    Path(Seq<char>),
    Payload { name: Option<Seq<char>>, more: bool, data: Seq<u8> },
}

pub struct StyleModel {
    pub animate: bool,
    pub color: Option<Seq<u8>>,
    pub numbers: Seq<Seq<char>>,
}

pub struct UpdateModel {
    pub animate: Option<bool>,
    pub color: Option<Seq<u8>>,
    pub numbers: Seq<Option<Seq<char>>>,
}

pub open spec fn option_text(text: Option<String>) -> Option<Seq<char>> {
    match text {
        Some(text) => Some(text@),
        None => None,
    }
}

pub open spec fn option_color(color: Option<[u8; 3]>) -> Option<Seq<u8>> {
    match color {
        Some(color) => Some(color@),
        None => None,
    }
}

pub open spec fn texts(texts: Seq<String>) -> Seq<Seq<char>> {
    Seq::new(texts.len(), |i: int| texts[i]@)
}

pub open spec fn option_texts(texts: Seq<Option<String>>) -> Seq<Option<Seq<char>>> {
    Seq::new(texts.len(), |i: int| option_text(texts[i]))
}

impl View for RgpOperation {
    type V = OperationModel;

    open spec fn view(&self) -> OperationModel {
        match self {
            RgpOperation::SupportQuery => OperationModel::SupportQuery,
            RgpOperation::Register { object_id, format, options, source } => OperationModel::Register {
                object_id: *object_id,
                format: format@,
                normalize: options.normalize,
                source: match source {
                    RgpRegisterSource::Path { path } => SourceModel::Path(path@),
                    RgpRegisterSource::Payload { name, more, data } => SourceModel::Payload {
                        name: option_text(*name),
                        more: *more,
                        data: data@,
                    },
                },
            },
            RgpOperation::Place { object_id, anchor } => OperationModel::Place {
                object_id: *object_id,
                row: anchor.row,
                col: anchor.col,
                columns: anchor.columns,
                rows: anchor.rows,
                style: StyleModel {
                    animate: anchor.style.animate,
                    color: option_color(anchor.style.color),
                    numbers: texts(anchor.style.numbers@),
                },
            },
            RgpOperation::Update { object_id, update } => OperationModel::Update {
                object_id: *object_id,
                update: UpdateModel {
                    animate: update.animate,
                    color: option_color(update.color),
                    numbers: option_texts(update.numbers@),
                },
            },
            RgpOperation::Delete { object_id } => OperationModel::Delete { object_id: *object_id },
            RgpOperation::Camera { camera_slot, switch_immediately, settings } => {
                OperationModel::Camera {
                    camera_slot: *camera_slot,
                    switch_immediately: *switch_immediately,
                    settings: *settings,
                }
            },
            RgpOperation::Ignored => OperationModel::Ignored,
        }
    }
}

/// The fields of a sequence, read so far.
pub struct FieldsModel {
    pub id: Option<int>,
    pub format: Option<Seq<char>>,
    pub path: Option<Seq<char>>,
    pub source: Option<Seq<char>>,
    pub name: Option<Seq<char>>,
    pub payload: Option<Seq<char>>,
    pub more: Option<bool>,
    pub animate: Option<bool>,
    pub normalize: Option<bool>,
    pub row: Option<int>,
    pub col: Option<int>,
    pub width: Option<int>,
    pub height: Option<int>,
    pub color: Option<Seq<u8>>,
    pub numbers: Seq<Option<Seq<char>>>,
    /// Whether the rest is a payload and not looked at.
    pub done: bool,
}

pub open spec fn no_fields() -> FieldsModel {
    FieldsModel {
        id: None,
        format: None,
        path: None,
        source: None,
        name: None,
        payload: None,
        more: None,
        animate: None,
        normalize: None,
        row: None,
        col: None,
        width: None,
        height: None,
        color: None,
        numbers: Seq::new(RGP_NUMBERS as nat, |i: int| None),
        done: false,
    }
}

/// The place of a number's key.
pub open spec fn number_key(key: Seq<char>) -> Option<int> {
    if key == "scale"@ {
        Some(0)
    } else if key == "depth"@ {
        Some(1)
    } else if key == "brightness"@ {
        Some(2)
    } else if key == "px"@ {
        Some(3)
    } else if key == "py"@ {
        Some(4)
    } else if key == "pz"@ {
        Some(5)
    } else if key == "rx"@ {
        Some(6)
    } else if key == "ry"@ {
        Some(7)
    } else if key == "rz"@ {
        Some(8)
    } else if key == "sx"@ {
        Some(9)
    } else if key == "sy"@ {
        Some(10)
    } else if key == "sz"@ {
        Some(11)
    } else {
        None
    }
}

/// A number as it was written, if it is one.
pub open spec fn real_of(value: Seq<char>) -> Option<Seq<char>> {
    if is_real(value) {
        Some(value)
    } else {
        None
    }
}

/// The number of a key that was not given: one for what multiplies, and zero for what
/// adds.
pub open spec fn default_number(key: int) -> Seq<char> {
    if key == 0 || key == 2 || 9 <= key {
        "1"@
    } else {
        "0"@
    }
}

/// Every number of a placement.
pub open spec fn numbers_placed(given: Seq<Option<Seq<char>>>) -> Seq<Seq<char>> {
    Seq::new(
        given.len(),
        |i: int|
            match given[i] {
                Some(number) => number,
                None => default_number(i),
            },
    )
}

/// The flag that `1`, `true`, `0` or `false` stands for.
pub open spec fn flag_of(value: Seq<char>) -> Option<bool> {
    if value == "1"@ || value == "true"@ {
        Some(true)
    } else if value == "0"@ || value == "false"@ {
        Some(false)
    } else {
        None
    }
}

/// The color of a field, if it is one.
pub open spec fn color_of(value: Seq<char>) -> Option<Seq<u8>> {
    match hex_color(encode_utf8(value)) {
        Ok(color) => Some(color),
        Err(_) => None,
    }
}

/// A field that was given once more: the last one counts.
pub open spec fn with_field(fields: FieldsModel, key: Seq<char>, value: Seq<char>) -> Option<FieldsModel> {
    if key == "id"@ {
        Some(FieldsModel { id: number_of(value, u32::MAX as int), ..fields })
    } else if key == "fmt"@ {
        Some(FieldsModel { format: Some(value), ..fields })
    } else if key == "path"@ {
        Some(FieldsModel { path: Some(value), ..fields })
    } else if key == "source"@ {
        Some(FieldsModel { source: Some(value), ..fields })
    } else if key == "more"@ {
        Some(FieldsModel { more: flag_of(value), ..fields })
    } else if key == "name"@ {
        Some(FieldsModel { name: Some(value), ..fields })
    } else if key == "row"@ {
        Some(FieldsModel { row: number_of(value, u16::MAX as int), ..fields })
    } else if key == "col"@ {
        Some(FieldsModel { col: number_of(value, u16::MAX as int), ..fields })
    } else if key == "w"@ {
        Some(FieldsModel { width: number_of(value, u32::MAX as int), ..fields })
    } else if key == "h"@ {
        Some(FieldsModel { height: number_of(value, u32::MAX as int), ..fields })
    } else if key == "animate"@ {
        Some(FieldsModel { animate: flag_of(value), ..fields })
    } else if key == "color"@ || key == "tint"@ {
        Some(FieldsModel { color: color_of(value), ..fields })
    } else if key == "normalize"@ {
        Some(FieldsModel { normalize: flag_of(value), ..fields })
    } else {
        match number_key(key) {
            Some(i) => Some(
                FieldsModel { numbers: fields.numbers.update(i, real_of(value)), ..fields },
            ),
            None => None,
        }
    }
}

/// One more part of a sequence read. In a registration by payload, the first
/// part that is no known field is the payload.
pub open spec fn part_read(fields: FieldsModel, register: bool, part: Seq<char>) -> FieldsModel {
    if fields.done || part.len() == 0 {
        fields
    } else {
        let known = match first_of(part, '=', 0) {
            Some(i) => with_field(
                fields,
                part.subrange(0, i),
                part.subrange(i + 1, part.len() as int),
            ),
            None => None,
        };
        match known {
            Some(fields) => fields,
            None => if register && fields.source == Some("payload"@) {
                FieldsModel { payload: Some(part), done: true, ..fields }
            } else {
                fields
            },
        }
    }
}

/// The parts `1..n` of a sequence read; the first part is the verb.
pub open spec fn parts_read(parts: Seq<Seq<char>>, n: int) -> FieldsModel
    decreases n,
{
    if n <= 1 {
        no_fields()
    } else {
        part_read(parts_read(parts, n - 1), parts[0] == "r"@, parts[n - 1])
    }
}

/// A request whose payload, if it has one, is still encoded.
pub enum RequestModel {
    /// An operation that needs no decoding.
    Ready(OperationModel),
    /// A registration by payload, and the encoded payload.
    Encoded {
        object_id: u32,
        format: Seq<char>,
        normalize: bool,
        name: Option<Seq<char>>,
        more: bool,
        payload: Seq<char>,
    },
}

pub open spec fn or_default(flag: Option<bool>, default: bool) -> bool {
    match flag {
        Some(flag) => flag,
        None => default,
    }
}

/// The request of a verb with its fields; `None` where a field is missing that
/// the verb needs.
pub open spec fn request_of(verb: Seq<char>, fields: FieldsModel) -> Option<RequestModel> {
    if verb == "s"@ {
        Some(RequestModel::Ready(OperationModel::SupportQuery))
    } else if verb == "r"@ {
        match (fields.id, fields.format) {
            (Some(id), Some(format)) => match fields.path {
                Some(path) => Some(
                    RequestModel::Ready(
                        OperationModel::Register {
                            object_id: id as u32,
                            format,
                            normalize: or_default(fields.normalize, true),
                            source: SourceModel::Path(path),
                        },
                    ),
                ),
                None => if fields.source == Some("payload"@) {
                    Some(
                        RequestModel::Encoded {
                            object_id: id as u32,
                            format,
                            normalize: or_default(fields.normalize, true),
                            name: fields.name,
                            more: or_default(fields.more, false),
                            payload: match fields.payload {
                                Some(payload) => payload,
                                None => Seq::empty(),
                            },
                        },
                    )
                } else {
                    None
                },
            },
            _ => None,
        }
    } else if verb == "p"@ {
        match (fields.id, fields.row, fields.col, fields.width, fields.height) {
            (Some(id), Some(row), Some(col), Some(width), Some(height)) => Some(
                RequestModel::Ready(
                    OperationModel::Place {
                        object_id: id as u32,
                        row: row as u16,
                        col: col as u16,
                        columns: width as u32,
                        rows: height as u32,
                        style: StyleModel {
                            animate: or_default(fields.animate, false),
                            color: fields.color,
                            numbers: numbers_placed(fields.numbers),
                        },
                    },
                ),
            ),
            _ => None,
        }
    } else if verb == "u"@ {
        match fields.id {
            Some(id) => Some(
                RequestModel::Ready(
                    OperationModel::Update {
                        object_id: id as u32,
                        update: UpdateModel {
                            animate: fields.animate,
                            color: fields.color,
                            numbers: fields.numbers,
                        },
                    },
                ),
            ),
            None => None,
        }
    } else if verb == "d"@ {
        Some(
            RequestModel::Ready(
                OperationModel::Delete {
                    object_id: match fields.id {
                        Some(id) => Some(id as u32),
                        None => None,
                    },
                },
            ),
        )
    } else {
        Some(RequestModel::Ready(OperationModel::Ignored))
    }
}

/// What stands between the start and the terminator of a sequence; `None` if it
/// lacks either.
pub open spec fn content_of(sequence: Seq<u8>) -> Option<Seq<u8>> {
    let start = encode_utf8(RGP_APC_START@);
    if !start.is_prefix_of(sequence) {
        None
    } else if sequence.last() == 0x9c {
        Some(sequence.subrange(start.len() as int, sequence.len() - 1))
    } else if sequence.len() >= 2 && sequence[sequence.len() - 2] == 0x1b && sequence.last() == 0x5c {
        Some(sequence.subrange(start.len() as int, sequence.len() - 2))
    } else {
        None
    }
}

/// The request that a sequence makes.
pub open spec fn request_in(sequence: Seq<u8>) -> Option<RequestModel> {
    match content_of(sequence) {
        Some(content) => if valid_utf8(content) {
            let parts = pieces(decode_utf8(content), ';');
            request_of(parts[0], parts_read(parts, parts.len() as int))
        } else {
            None
        },
        None => None,
    }
}

/// The bytes that base64 text stands for; `None` where it is malformed.
pub uninterp spec fn base64_bytes(text: Seq<char>) -> Option<Seq<u8>>;

/// Decodes by `base64`'s standard engine, which takes the standard alphabet
/// with padding and refuses everything else. What it answers depends on the
/// text alone.
#[verifier::external_body]
pub(crate) fn decode_base64(text: &str) -> (r: Option<Vec<u8>>)
    ensures
        match r {
            Some(bytes) => base64_bytes(text@) == Some(bytes@),
            None => base64_bytes(text@) is None,
        },
{
    base64::engine::general_purpose::STANDARD.decode(text).ok()
}

/// The operation of a request, with its payload decoded.
pub open spec fn decoded(request: RequestModel, payload: Option<Seq<u8>>) -> Option<OperationModel> {
    match request {
        RequestModel::Ready(operation) => Some(operation),
        RequestModel::Encoded { object_id, format, normalize, name, more, .. } => match payload {
            Some(data) => Some(
                OperationModel::Register {
                    object_id,
                    format,
                    normalize,
                    source: SourceModel::Payload { name, more, data },
                },
            ),
            None => None,
        },
    }
}

/// The encoded payload of a request.
pub open spec fn payload_of(request: RequestModel) -> Seq<char> {
    match request {
        RequestModel::Ready(_) => Seq::empty(),
        RequestModel::Encoded { payload, .. } => payload,
    }
}

/// The operation that a sequence asks for.
pub open spec fn operation_in(sequence: Seq<u8>) -> Option<OperationModel> {
    match request_in(sequence) {
        Some(request) => decoded(request, base64_bytes(payload_of(request))),
        None => None,
    }
}

/// The answer to a support query.
pub open spec fn support_answer() -> Seq<u8> {
    encode_utf8(
        "\x1b_ratty;g;s;v=1;fmt=obj|glb|stl;path=1;payload=1;chunk=1;anim=1;depth=1;color=1;brightness=1;transform=1;update=1;normalize=1\x1b\\"@,
    )
}

/// Returns the support reply sequence.
pub fn support_reply() -> (r: Vec<u8>)
    ensures
        r@ == support_answer(),
{
    let mut r: Vec<u8> = Vec::new();
    push_str(
        &mut r,
        "\x1b_ratty;g;s;v=1;fmt=obj|glb|stl;path=1;payload=1;chunk=1;anim=1;depth=1;color=1;brightness=1;transform=1;update=1;normalize=1\x1b\\",
    );
    assert(r@ =~= support_answer());
    r
}

/// The fields of a sequence, read so far.
struct Fields {
    id: Option<u32>,
    format: Option<String>,
    path: Option<String>,
    source: Option<String>,
    name: Option<String>,
    payload: Option<String>,
    more: Option<bool>,
    animate: Option<bool>,
    normalize: Option<bool>,
    row: Option<u32>,
    col: Option<u32>,
    width: Option<u32>,
    height: Option<u32>,
    color: Option<[u8; 3]>,
    numbers: Vec<Option<String>>,
    done: bool,
}

spec fn option_number(number: Option<u32>) -> Option<int> {
    match number {
        Some(number) => Some(number as int),
        None => None,
    }
}

fn read_number(value: &Vec<char>, max: u32) -> (r: Option<u32>)
    ensures
        option_number(r) == number_of(value@, max as int),
        r matches Some(number) ==> number <= max,
{
    match parse_number(value, max as u64) {
        Some(number) => Some(number as u32),
        None => None,
    }
}

/// Reads a flag.
pub fn parse_bool(value: &Vec<char>) -> (r: Option<bool>)
    ensures
        r == flag_of(value@),
{
    if spells(value, "1") || spells(value, "true") {
        Some(true)
    } else if spells(value, "0") || spells(value, "false") {
        Some(false)
    } else {
        None
    }
}

/// Reads a color in the format `#RRGGBB`; the number sign can be left out.
pub fn parse_color(value: &Vec<char>) -> (r: Option<[u8; 3]>)
    ensures
        option_color(r) == color_of(value@),
{
    match parse_hex_color(string_of(value).as_str()) {
        Ok(color) => Some(color),
        Err(_) => None,
    }
}

fn find_number_key(key: &Vec<char>) -> (r: Option<usize>)
    ensures
        match r {
            Some(i) => number_key(key@) == Some(i as int) && i < RGP_NUMBERS,
            None => number_key(key@) is None,
        },
{
    if spells(key, "scale") {
        Some(0)
    } else if spells(key, "depth") {
        Some(1)
    } else if spells(key, "brightness") {
        Some(2)
    } else if spells(key, "px") {
        Some(3)
    } else if spells(key, "py") {
        Some(4)
    } else if spells(key, "pz") {
        Some(5)
    } else if spells(key, "rx") {
        Some(6)
    } else if spells(key, "ry") {
        Some(7)
    } else if spells(key, "rz") {
        Some(8)
    } else if spells(key, "sx") {
        Some(9)
    } else if spells(key, "sy") {
        Some(10)
    } else if spells(key, "sz") {
        Some(11)
    } else {
        None
    }
}

impl Fields {
    spec fn model(self) -> FieldsModel {
        FieldsModel {
            id: option_number(self.id),
            format: option_text(self.format),
            path: option_text(self.path),
            source: option_text(self.source),
            name: option_text(self.name),
            payload: option_text(self.payload),
            more: self.more,
            animate: self.animate,
            normalize: self.normalize,
            row: option_number(self.row),
            col: option_number(self.col),
            width: option_number(self.width),
            height: option_number(self.height),
            color: option_color(self.color),
            numbers: option_texts(self.numbers@),
            done: self.done,
        }
    }

    spec fn wf(self) -> bool {
        &&& self.numbers@.len() == RGP_NUMBERS
        &&& self.row matches Some(row) ==> row <= u16::MAX
        &&& self.col matches Some(col) ==> col <= u16::MAX
    }

    fn new() -> (r: Self)
        ensures
            r.model() == no_fields(),
            r.wf(),
    {
        let mut numbers: Vec<Option<String>> = Vec::new();
        let mut i: usize = 0;
        while i < RGP_NUMBERS
            invariant
                i <= RGP_NUMBERS,
                numbers@.len() == i,
                forall|k: int| 0 <= k < i ==> #[trigger] numbers@[k] is None,
            decreases RGP_NUMBERS - i,
        {
            numbers.push(None);
            i = i + 1;
        }
        let r = Fields {
            id: None,
            format: None,
            path: None,
            source: None,
            name: None,
            payload: None,
            more: None,
            animate: None,
            normalize: None,
            row: None,
            col: None,
            width: None,
            height: None,
            color: None,
            numbers,
            done: false,
        };
        assert(r.model().numbers =~= no_fields().numbers);
        r
    }

    /// Takes a field. Returns whether it is one that is known.
    fn set(&mut self, key: &Vec<char>, value: &Vec<char>) -> (known: bool)
        requires
            old(self).wf(),
        ensures
            final(self).wf(),
            match with_field(old(self).model(), key@, value@) {
                Some(fields) => known && final(self).model() == fields,
                None => !known && final(self).model() == old(self).model(),
            },
    {
        if spells(key, "id") {
            self.id = read_number(value, u32::MAX);
        } else if spells(key, "fmt") {
            self.format = Some(string_of(value));
        } else if spells(key, "path") {
            self.path = Some(string_of(value));
        } else if spells(key, "source") {
            self.source = Some(string_of(value));
        } else if spells(key, "more") {
            self.more = parse_bool(value);
        } else if spells(key, "name") {
            self.name = Some(string_of(value));
        } else if spells(key, "row") {
            self.row = read_number(value, 65535);
        } else if spells(key, "col") {
            self.col = read_number(value, 65535);
        } else if spells(key, "w") {
            self.width = read_number(value, u32::MAX);
        } else if spells(key, "h") {
            self.height = read_number(value, u32::MAX);
        } else if spells(key, "animate") {
            self.animate = parse_bool(value);
        } else if spells(key, "color") || spells(key, "tint") {
            self.color = parse_color(value);
        } else if spells(key, "normalize") {
            self.normalize = parse_bool(value);
        } else {
            return self.set_number(key, value);
        }
        true
    }

    fn set_number(&mut self, key: &Vec<char>, value: &Vec<char>) -> (known: bool)
        requires
            old(self).wf(),
        ensures
            final(self).wf(),
            match number_key(key@) {
                Some(i) => known && final(self).model() == (FieldsModel {
                    numbers: old(self).model().numbers.update(i, real_of(value@)),
                    ..old(self).model()
                }),
                None => !known && final(self).model() == old(self).model(),
            },
    {
        match find_number_key(key) {
            Some(i) => {
                self.numbers[i] = if reads_as_real(value) {
                    Some(string_of(value))
                } else {
                    None
                };
                assert(self.model().numbers =~= old(self).model().numbers.update(
                    i as int,
                    real_of(value@),
                ));
                true
            },
            None => false,
        }
    }

    fn by_payload(&self) -> (r: bool)
        ensures
            r == (self.model().source == Some("payload"@)),
    {
        match &self.source {
            Some(source) => spells(&chars_of(source.as_str()), "payload"),
            None => false,
        }
    }

    /// Reads one more part.
    fn read(&mut self, register: bool, part: &Vec<char>)
        requires
            old(self).wf(),
        ensures
            final(self).wf(),
            final(self).model() == part_read(old(self).model(), register, part@),
    {
        if self.done || part.len() == 0 {
            return;
        }
        let known = match find(part, '=') {
            Some(i) => self.set(&part_of(part, 0, i), &part_of(part, i + 1, part.len())),
            None => false,
        };
        if !known && register && self.by_payload() {
            self.payload = Some(string_of(part));
            self.done = true;
        }
    }
}

/// A request whose payload, if it has one, is still encoded.
#[derive(Debug)]
pub enum RgpRequest {
    /// An operation that needs no decoding.
    Ready(RgpOperation),
    /// A registration by payload, and the encoded payload.
    Encoded {
        object_id: u32,
        format: String,
        normalize: bool,
        name: Option<String>,
        more: bool,
        payload: String,
    },
}

impl View for RgpRequest {
    type V = RequestModel;

    open spec fn view(&self) -> RequestModel {
        match self {
            RgpRequest::Ready(operation) => RequestModel::Ready(operation@),
            RgpRequest::Encoded { object_id, format, normalize, name, more, payload } => {
                RequestModel::Encoded {
                    object_id: *object_id,
                    format: format@,
                    normalize: *normalize,
                    name: option_text(*name),
                    more: *more,
                    payload: payload@,
                }
            },
        }
    }
}

pub open spec fn option_request(request: Option<RgpRequest>) -> Option<RequestModel> {
    match request {
        Some(request) => Some(request@),
        None => None,
    }
}

pub open spec fn option_operation(operation: Option<RgpOperation>) -> Option<OperationModel> {
    match operation {
        Some(operation) => Some(operation@),
        None => None,
    }
}

fn unwrap_flag(flag: Option<bool>, default: bool) -> (r: bool)
    ensures
        r == or_default(flag, default),
{
    match flag {
        Some(flag) => flag,
        None => default,
    }
}

/// The request of a registration.
fn register_request(fields: Fields) -> (r: Option<RgpRequest>)
    requires
        fields.wf(),
    ensures
        option_request(r) == request_of("r"@, fields.model()),
{
    proof {
        distinct_verbs();
    }
    let by_payload = fields.by_payload();
    let Fields { id, format, path, name, payload, more, normalize, .. } = fields;
    let object_id: u32 = match id {
        Some(id) => id,
        None => return None,
    };
    let format = match format {
        Some(format) => format,
        None => return None,
    };
    let normalize = unwrap_flag(normalize, true);
    match path {
        Some(path) => Some(
            RgpRequest::Ready(
                RgpOperation::Register {
                    object_id,
                    format,
                    options: RgpRegisterOptions { normalize },
                    source: RgpRegisterSource::Path { path },
                },
            ),
        ),
        None => {
            if !by_payload {
                return None;
            }
            let payload = match payload {
                Some(payload) => payload,
                None => String::new(),
            };
            Some(
                RgpRequest::Encoded {
                    object_id,
                    format,
                    normalize,
                    name,
                    more: unwrap_flag(more, false),
                    payload,
                },
            )
        },
    }
}

/// Gives every number of a placement.
fn place_numbers(given: Vec<Option<String>>) -> (r: Vec<String>)
    ensures
        texts(r@) == numbers_placed(option_texts(given@)),
{
    let mut given = given;
    let ghost all = given@;
    let mut r: Vec<String> = Vec::new();
    while r.len() < given.len()
        invariant
            r@.len() <= given@.len(),
            given@.len() == all.len(),
            forall|k: int| r@.len() <= k < all.len() ==> #[trigger] given@[k] == all[k],
            forall|k: int|
                0 <= k < r@.len() ==> (#[trigger] r@[k])@ == numbers_placed(option_texts(all))[k],
        decreases given@.len() - r@.len(),
    {
        let i: usize = r.len();
        let mut number: Option<String> = None;
        core::mem::swap(&mut given[i], &mut number);
        assert(number == all[i as int]);
        let text = match number {
            Some(text) => text,
            None => if i == 0 || i == 2 || 9 <= i {
                "1".to_string()
            } else {
                "0".to_string()
            },
        };
        r.push(text);
    }
    assert(texts(r@) =~= numbers_placed(option_texts(all)));
    r
}

/// The request of a placement.
fn place_request(fields: Fields) -> (r: Option<RgpRequest>)
    requires
        fields.wf(),
    ensures
        option_request(r) == request_of("p"@, fields.model()),
{
    proof {
        distinct_verbs();
    }
    match (fields.id, fields.row, fields.col, fields.width, fields.height) {
        (Some(object_id), Some(row), Some(col), Some(columns), Some(rows)) => Some(
            RgpRequest::Ready(
                RgpOperation::Place {
                    object_id,
                    anchor: RgpAnchor {
                        row: row as u16,
                        col: col as u16,
                        columns,
                        rows,
                        style: RgpPlacementStyle {
                            animate: unwrap_flag(fields.animate, false),
                            color: fields.color,
                            numbers: place_numbers(fields.numbers),
                        },
                    },
                },
            ),
        ),
        _ => None,
    }
}

/// The request of an update.
fn update_request(fields: Fields) -> (r: Option<RgpRequest>)
    requires
        fields.wf(),
    ensures
        option_request(r) == request_of("u"@, fields.model()),
{
    proof {
        distinct_verbs();
    }
    match fields.id {
        Some(object_id) => Some(
            RgpRequest::Ready(
                RgpOperation::Update {
                    object_id,
                    update: RgpPlacementUpdate {
                        animate: fields.animate,
                        color: fields.color,
                        numbers: fields.numbers,
                    },
                },
            ),
        ),
        None => None,
    }
}

proof fn distinct_verbs()
    ensures
        "s"@ != "r"@,
        "s"@ != "p"@,
        "r"@ != "p"@,
        "s"@ != "u"@,
        "r"@ != "u"@,
        "p"@ != "u"@,
{
    reveal_strlit("s");
    reveal_strlit("r");
    reveal_strlit("p");
    reveal_strlit("u");
    assert("s"@[0] == 's' && "r"@[0] == 'r' && "p"@[0] == 'p' && "u"@[0] == 'u');
}

/// The request of a verb with its fields.
fn request(verb: &Vec<char>, fields: Fields) -> (r: Option<RgpRequest>)
    requires
        fields.wf(),
    ensures
        option_request(r) == request_of(verb@, fields.model()),
{
    if spells(verb, "s") {
        Some(RgpRequest::Ready(RgpOperation::SupportQuery))
    } else if spells(verb, "r") {
        register_request(fields)
    } else if spells(verb, "p") {
        place_request(fields)
    } else if spells(verb, "u") {
        update_request(fields)
    } else if spells(verb, "d") {
        Some(RgpRequest::Ready(RgpOperation::Delete { object_id: fields.id }))
    } else {
        Some(RgpRequest::Ready(RgpOperation::Ignored))
    }
}

fn has_prefix(bytes: &[u8], prefix: &[u8]) -> (r: bool)
    ensures
        r == prefix@.is_prefix_of(bytes@),
{
    if bytes.len() < prefix.len() {
        return false;
    }
    let mut i: usize = 0;
    while i < prefix.len()
        invariant
            i <= prefix@.len() <= bytes@.len(),
            forall|k: int| 0 <= k < i ==> prefix@[k] == bytes@[k],
        decreases prefix@.len() - i,
    {
        if prefix[i] != bytes[i] {
            assert(prefix@[i as int] != bytes@.subrange(0, prefix@.len() as int)[i as int]);
            return false;
        }
        i = i + 1;
    }
    assert(prefix@ =~= bytes@.subrange(0, prefix@.len() as int));
    true
}

/// A sequence that starts as it must and ends in a terminator holds both one
/// after the other.
proof fn lemma_content_has_room(sequence: Seq<u8>)
    requires
        encode_utf8(RGP_APC_START@).is_prefix_of(sequence),
    ensures
        sequence.len() > 0,
        sequence.last() == 0x9c ==> encode_utf8(RGP_APC_START@).len() <= sequence.len() - 1,
        sequence.len() >= 2 && sequence[sequence.len() - 2] == 0x1b && sequence.last() == 0x5c
            ==> encode_utf8(RGP_APC_START@).len() <= sequence.len() - 2,
{
    let start = encode_utf8(RGP_APC_START@);
    reveal_strlit("\x1b_ratty;g;");
    let text = "\x1b_ratty;g;"@;
    assert(text.len() == 10);
    vstd::utf8::is_ascii_chars_encode_utf8(text);
    assert(vstd::utf8::is_ascii_chars(text));
    assert(start.len() == 10);
    assert(start[9] == ';' as u8);
    assert(start[8] == 'g' as u8);
    assert(sequence[9] == start[9]);
    assert(sequence[8] == start[8]);
}

/// Reads the request that a sequence makes. A payload stays encoded.
pub fn read_sequence(sequence: &[u8]) -> (r: Option<RgpRequest>)
    ensures
        option_request(r) == request_in(sequence@),
{
    let start = RGP_APC_START.as_bytes();
    if !has_prefix(sequence, start) {
        return None;
    }
    proof {
        lemma_content_has_room(sequence@);
    }
    let len: usize = sequence.len();
    let end: usize = if sequence[len - 1] == 0x9c {
        len - 1
    } else if len >= 2 && sequence[len - 2] == 0x1b && sequence[len - 1] == 0x5c {
        len - 2
    } else {
        return None;
    };
    let content = vstd::slice::slice_subrange(sequence, start.len(), end);
    let text = match decode_text(content) {
        Some(text) => text,
        None => return None,
    };
    let parts = split(&chars_of(text.as_str()), ';');
    let ghost model = lists_view(parts@);
    let register = spells(&parts[0], "r");
    let mut fields = Fields::new();
    let mut i: usize = 1;
    while i < parts.len()
        invariant
            1 <= i <= parts@.len(),
            model == lists_view(parts@),
            register == (model[0] == "r"@),
            fields.wf(),
            fields.model() == parts_read(model, i as int),
        decreases parts@.len() - i,
    {
        assert(model[i as int] == parts@[i as int]@);
        fields.read(register, &parts[i]);
        i = i + 1;
    }
    request(&parts[0], fields)
}

/// The operation of a request, given its decoded payload.
pub fn finish_request(request: RgpRequest, payload: Option<Vec<u8>>) -> (r: Option<RgpOperation>)
    ensures
        option_operation(r) == decoded(
            request@,
            match payload {
                Some(payload) => Some(payload@),
                None => None,
            },
        ),
{
    match request {
        RgpRequest::Ready(operation) => Some(operation),
        RgpRequest::Encoded { object_id, format, normalize, name, more, .. } => match payload {
            Some(data) => Some(
                RgpOperation::Register {
                    object_id,
                    format,
                    options: RgpRegisterOptions { normalize },
                    source: RgpRegisterSource::Payload { name, more, data },
                },
            ),
            None => None,
        },
    }
}

/// Consumes a sequence: reads the request that it makes and decodes its
/// payload.
pub fn consume_sequence(sequence: &[u8]) -> (r: Option<RgpOperation>)
    ensures
        option_operation(r) == operation_in(sequence@),
{
    let request = match read_sequence(sequence) {
        Some(request) => request,
        None => return None,
    };
    let payload = match &request {
        RgpRequest::Ready(_) => None,
        RgpRequest::Encoded { payload, .. } => decode_base64(payload.as_str()),
    };
    finish_request(request, payload)
}

} // verus!

//! What the texts of settings, of paths and of requests stand for.

use crate::capture::{decoded, unpadded};
use crate::config::{hex_color, HexColorError};
use crate::control::{is_error, ControlResponse, ErrorModel};
use crate::cursor_effects::default_stats;
use crate::decimal::is_real;
use crate::model::{
    asset_path, assets_at, behind_last, extension, format_of, has_names, joined_names,
    AssetPathError, ObjectPath, PathPart,
};
use crate::paths::{expanded, in_home, in_home_everywhere};
use crate::runtime::shell_program;
use crate::text::lowercase;
use vstd::prelude::*;
use vstd::utf8::encode_utf8;

verus! {

/// Whether a byte is a hexadecimal digit of some value, of either case.
pub open spec fn spells(b: u8, value: int) -> bool {
    ||| 0 <= value < 10 && b == '0' as int + value
    ||| 10 <= value < 16 && b == 'a' as int + value - 10
    ||| 10 <= value < 16 && b == 'A' as int + value - 10
}

pub open spec fn is_hex(b: u8) -> bool {
    exists|value: int| spells(b, value)
}

/// Two hexadecimal digits, or one behind a plus.
pub open spec fn is_component(first: u8, second: u8) -> bool {
    (is_hex(first) || first == '+' as u8) && is_hex(second)
}

proof fn lemma_hex(b: u8)
    ensures
        crate::config::hex_digit(b) is Some <==> is_hex(b),
        crate::config::hex_digit(b) matches Some(value) ==> spells(b, value),
        forall|value: int| spells(b, value) ==> crate::config::hex_digit(b) == Some(value),
{
    if crate::config::hex_digit(b) is Some {
        assert(spells(b, crate::config::hex_digit(b).unwrap()));
    }
}

/// A color is six hexadecimal digits, two for each of red, green and blue, with or without a
/// hash before them.
pub proof fn law_colors_are_written_in_hex(digits: Seq<u8>, values: Seq<int>)
    requires
        digits.len() == 6,
        values.len() == 6,
        forall|i: int| 0 <= i < 6 ==> spells(#[trigger] digits[i], values[i]),
    ensures
        hex_color(digits) == Ok::<Seq<u8>, HexColorError>(
            seq![
                (16 * values[0] + values[1]) as u8,
                (16 * values[2] + values[3]) as u8,
                (16 * values[4] + values[5]) as u8,
            ],
        ),
        hex_color(seq![35u8] + digits) == hex_color(digits),
{
    lemma_hex(digits[0]);
    lemma_hex(digits[1]);
    lemma_hex(digits[2]);
    lemma_hex(digits[3]);
    lemma_hex(digits[4]);
    lemma_hex(digits[5]);
    assert(spells(digits[0], values[0]) && spells(digits[1], values[1]) && spells(
        digits[2],
        values[2],
    ) && spells(digits[3], values[3]) && spells(digits[4], values[4]) && spells(
        digits[5],
        values[5],
    ));
    assert((seq![35u8] + digits).drop_first() =~= digits);
}

/// Anything else is no color, and what is said is the first thing wrong with it: its length,
/// its red, its green or its blue.
pub proof fn law_other_texts_are_no_colors(digits: Seq<u8>)
    requires
        digits.len() > 0 ==> digits[0] != 35,
    ensures
        hex_color(digits) == Err::<Seq<u8>, HexColorError>(HexColorError::Format) <==> digits.len()
            != 6,
        digits.len() == 6 ==> {
            let red = is_component(digits[0], digits[1]);
            let green = is_component(digits[2], digits[3]);
            let blue = is_component(digits[4], digits[5]);
            &&& hex_color(digits) is Ok <==> red && green && blue
            &&& hex_color(digits) == Err::<Seq<u8>, HexColorError>(HexColorError::Red) <==> !red
            &&& hex_color(digits) == Err::<Seq<u8>, HexColorError>(HexColorError::Green) <==> red
                && !green
            &&& hex_color(digits) == Err::<Seq<u8>, HexColorError>(HexColorError::Blue) <==> red
                && green && !blue
        },
{
    if digits.len() == 6 {
        lemma_hex(digits[0]);
        lemma_hex(digits[1]);
        lemma_hex(digits[2]);
        lemma_hex(digits[3]);
        lemma_hex(digits[4]);
        lemma_hex(digits[5]);
    }
}

/// In the text that is typed, a backslash with an `n`, an `r`, a `t` or a backslash stands for
/// a line feed, a carriage return, a tab or a backslash, one with any other character for
/// itself and that character, and one at the end for itself; any other character stands for
/// itself.
pub proof fn law_typed_text_is_decoded(text: Seq<char>, c: char)
    ensures
        decoded(Seq::empty()) == Seq::<u8>::empty(),
        decoded(seq!['\\', 'n'] + text) == seq![10u8] + decoded(text),
        decoded(seq!['\\', 'r'] + text) == seq![13u8] + decoded(text),
        decoded(seq!['\\', 't'] + text) == seq![9u8] + decoded(text),
        decoded(seq!['\\', '\\'] + text) == seq![92u8] + decoded(text),
        decoded(seq!['\\']) == seq![92u8],
        c != '\\' ==> decoded(seq![c] + text) == encode_utf8(seq![c]) + decoded(text),
        c != '\\' && c != 'n' && c != 'r' && c != 't' && c != 'x' ==> decoded(seq!['\\', c] + text)
            == seq![92u8] + encode_utf8(seq![c]) + decoded(text),
{
    let n = seq!['\\', 'n'] + text;
    let r = seq!['\\', 'r'] + text;
    let t = seq!['\\', 't'] + text;
    let b = seq!['\\', '\\'] + text;
    let o = seq!['\\', c] + text;
    let p = seq![c] + text;
    assert(n.skip(2) =~= text && r.skip(2) =~= text && t.skip(2) =~= text && b.skip(2) =~= text
        && o.skip(2) =~= text && p.skip(1) =~= text);
    assert(n[0] == '\\' && n[1] == 'n' && r[0] == '\\' && r[1] == 'r' && t[0] == '\\' && t[1] == 't'
        && b[0] == '\\' && b[1] == '\\' && o[0] == '\\' && o[1] == c && p[0] == c);
}

/// A backslash with an `x` and two hexadecimal digits stands for the byte with that value.
pub proof fn law_typed_bytes_are_decoded(text: Seq<char>, high: u8, low: u8, a: int, b: int)
    requires
        spells(high, a),
        spells(low, b),
    ensures
        decoded(seq!['\\', 'x', high as char, low as char] + text) == seq![(16 * a + b) as u8]
            + decoded(text),
{
    let whole = seq!['\\', 'x', high as char, low as char] + text;
    assert(whole.skip(4) =~= text);
    assert(whole.subrange(2, 4) =~= seq![high as char, low as char]);
    assert(whole[0] == '\\' && whole[1] == 'x');
}

/// The rows of an image without what fills them up are their first bytes, one row after the
/// other.
pub proof fn law_rows_lose_their_padding(
    data: Seq<u8>,
    row_bytes: int,
    stride: int,
    rows: int,
    row: int,
    i: int,
)
    requires
        0 <= row_bytes <= stride,
        0 <= row < rows,
        0 <= i < row_bytes,
        rows * stride <= data.len(),
    ensures
        unpadded(data, row_bytes, stride, rows).len() == rows * row_bytes,
        unpadded(data, row_bytes, stride, rows)[row * row_bytes + i] == data[row * stride + i],
    decreases rows,
{
    lemma_unpadded_len(data, row_bytes, stride, rows);
    assert((rows - 1) * stride + stride == rows * stride && 0 <= (rows - 1) * stride && (rows - 1)
        * row_bytes + row_bytes == rows * row_bytes && 0 <= row * row_bytes && (row + 1) * row_bytes
        == row * row_bytes + row_bytes) by (nonlinear_arith)
        requires
            0 <= row < rows,
            0 <= stride,
            0 <= row_bytes,
    ;
    lemma_unpadded_len(data, row_bytes, stride, rows - 1);
    if row < rows - 1 {
        law_rows_lose_their_padding(data, row_bytes, stride, rows - 1, row, i);
        assert((row + 1) * row_bytes <= (rows - 1) * row_bytes) by (nonlinear_arith)
            requires
                row + 1 <= rows - 1,
                0 <= row_bytes,
        ;
    }
}

proof fn lemma_unpadded_len(data: Seq<u8>, row_bytes: int, stride: int, rows: int)
    requires
        0 <= row_bytes <= stride,
        0 <= rows,
        rows * stride <= data.len(),
    ensures
        unpadded(data, row_bytes, stride, rows).len() == rows * row_bytes,
    decreases rows,
{
    if rows > 0 {
        assert((rows - 1) * stride + stride == rows * stride && 0 <= (rows - 1) * stride && (rows
            - 1) * row_bytes + row_bytes == rows * row_bytes) by (nonlinear_arith)
            requires
                0 < rows,
                0 <= stride,
        ;
        lemma_unpadded_len(data, row_bytes, stride, rows - 1);
    }
}

/// Whether some parts have one that is the directory of the assets.
pub open spec fn names_assets(part: PathPart) -> bool {
    part matches PathPart::Normal(name) && name@ == "assets"@
}

proof fn lemma_assets_at(parts: Seq<PathPart>, from: int, place: int)
    requires
        0 <= from <= place <= parts.len(),
        forall|i: int| from <= i < place ==> !names_assets(#[trigger] parts[i]),
        place < parts.len() ==> names_assets(parts[place]),
    ensures
        assets_at(parts, from) == if place < parts.len() {
            Some(place)
        } else {
            None
        },
    decreases place - from,
{
    if from < place {
        assert(!names_assets(parts[from]));
        lemma_assets_at(parts, from + 1, place);
    }
}

/// An object is named by what comes below the first directory of the assets in its path,
/// where there is a name.
pub proof fn law_objects_lie_below_the_assets(path: ObjectPath, place: int)
    requires
        0 <= place < path.parts@.len(),
        forall|i: int| 0 <= i < place ==> !names_assets(#[trigger] path.parts@[i]),
        names_assets(path.parts@[place]),
        exists|i: int| place < i < path.parts@.len() && #[trigger] path.parts@[i] is Normal,
    ensures
        asset_path(path) == Ok::<Seq<char>, AssetPathError>(
            joined_names(path.parts@.skip(place + 1)),
        ),
{
    lemma_assets_at(path.parts@, 0, place);
    let below = path.parts@.skip(place + 1);
    let i = choose|i: int| place < i < path.parts@.len() && #[trigger] path.parts@[i] is Normal;
    assert(below[i - place - 1] is Normal);
}

/// A path without such a directory is refused where it is absolute or no text. Any other one
/// names its object itself, with slashes for backslashes, and one of a single part names an
/// object among the objects.
pub proof fn law_other_paths_name_objects(path: ObjectPath)
    requires
        forall|i: int| 0 <= i < path.parts@.len() ==> !names_assets(#[trigger] path.parts@[i]),
    ensures
        path.absolute ==> asset_path(path) == Err::<Seq<char>, AssetPathError>(
            AssetPathError::OutsideAssets,
        ),
        !path.absolute && path.text is None ==> asset_path(path) == Err::<
            Seq<char>,
            AssetPathError,
        >(AssetPathError::NotText),
        !path.absolute && path.text is Some ==> {
            let text = path.text->0@;
            let named = if path.parts@.len() == 1 {
                "objects/"@ + text
            } else {
                text
            };
            &&& asset_path(path) matches Ok(said)
            &&& !("assets/"@.is_prefix_of(asset_path(path)->Ok_0)) ==> {
                let said = asset_path(path)->Ok_0;
                let cut = named.len() - said.len();
                &&& cut == 0 || cut == "assets/"@.len()
                &&& forall|i: int|
                    0 <= i < said.len() ==> #[trigger] said[i] == (if named[cut + i] == '\\' {
                        '/'
                    } else {
                        named[cut + i]
                    })
            }
        },
{
    lemma_assets_at(path.parts@, 0, path.parts@.len() as int);
    assert(!has_names(Seq::<PathPart>::empty()));
}

/// Names are joined by slashes, and parts that are no names are left out.
pub proof fn law_names_are_joined_by_slashes(parts: Seq<PathPart>, name: String, part: PathPart)
    ensures
        joined_names(Seq::empty()) == Seq::<char>::empty(),
        (exists|i: int| 0 <= i < parts.len() && #[trigger] parts[i] is Normal) ==> joined_names(
            parts.push(PathPart::Normal(name)),
        ) == joined_names(parts) + seq!['/'] + name@,
        !(exists|i: int| 0 <= i < parts.len() && #[trigger] parts[i] is Normal) ==> joined_names(
            parts.push(PathPart::Normal(name)),
        ) == name@,
        !(part is Normal) ==> joined_names(parts.push(part)) == joined_names(parts),
{
    assert(parts.push(PathPart::Normal(name)).drop_last() =~= parts);
    assert(parts.push(part).drop_last() =~= parts);
    assert(joined_names(parts).push('/') + name@ =~= joined_names(parts) + seq!['/'] + name@);
}

proof fn lemma_behind_last(text: Seq<char>, c: char, n: int, last: int)
    requires
        0 <= last < n <= text.len(),
        forall|i: int| last < i < n ==> #[trigger] text[i] != c,
        last > 0 ==> text[last] == c,
    ensures
        behind_last(text, c, n) == if last > 0 {
            Some(text.skip(last + 1))
        } else {
            None
        },
    decreases n,
{
    if n - 1 > last {
        lemma_behind_last(text, c, n - 1, last);
    }
}

/// The extension of a file name is what comes behind its last point, in lower case; a name
/// without a point, or with none but at its start, has no extension.
pub proof fn law_extensions_come_behind_points(stem: Seq<char>, rest: Seq<char>)
    requires
        forall|i: int| 0 <= i < rest.len() ==> #[trigger] rest[i] != '.',
    ensures
        stem.len() > 0 ==> extension(stem + seq!['.'] + rest) == lowercase(rest),
        extension(rest) == Seq::<char>::empty(),
        extension(seq!['.'] + rest) == Seq::<char>::empty(),
{
    let name = stem + seq!['.'] + rest;
    assert forall|i: int| stem.len() < i < name.len() implies #[trigger] name[i] != '.' by {
        assert(name[i] == rest[i - stem.len() - 1]);
    }
    assert(name.skip(stem.len() as int + 1) =~= rest);
    lemma_behind_last(name, '.', name.len() as int, stem.len() as int);
    if rest.len() > 0 {
        lemma_behind_last(rest, '.', rest.len() as int, 0);
    }
    let hidden = seq!['.'] + rest;
    assert forall|i: int| 0 < i < hidden.len() implies #[trigger] hidden[i] != '.' by {
        assert(hidden[i] == rest[i - 1]);
    }
    lemma_behind_last(hidden, '.', hidden.len() as int, 0);
}

/// Meshes come in `obj` files, and scenes in `glb` and `gltf` files.
pub proof fn law_formats_have_extensions(text: Seq<char>)
    ensures
        format_of(text) is Obj <==> text == "obj"@,
        format_of(text) is Gltf <==> text == "glb"@ || text == "gltf"@,
        format_of(text) is Unsupported <==> text != "obj"@ && text != "glb"@ && text != "gltf"@,
{
    reveal_strlit("obj");
    reveal_strlit("glb");
    reveal_strlit("gltf");
    assert("obj"@[0] != "glb"@[0] && "obj"@[0] != "gltf"@[0]);
}

/// The tilde at the start of a path becomes the home directory, where there is one.
pub proof fn law_tildes_become_the_home(rest: Seq<char>, home: Seq<char>)
    ensures
        expanded(seq!['~'] + rest, Some(home)) == home + rest,
        expanded(seq!['~'] + rest, None) == seq!['~'] + rest,
{
    assert((seq!['~'] + rest).drop_first() =~= rest);
}

/// Whether a text is made of digits alone.
pub open spec fn of_digits(text: Seq<char>) -> bool {
    forall|i: int| 0 <= i < text.len() ==> '0' <= #[trigger] text[i] && text[i] <= '9'
}

proof fn lemma_lower_digits(text: Seq<char>)
    requires
        forall|i: int|
            0 <= i < text.len() ==> !('A' <= #[trigger] text[i] && text[i] <= 'Z'),
    ensures
        lowercase(text) == text,
{
    assert(lowercase(text) =~= text);
}

/// Digits are a number, with a point at any place among them, with an exponent behind them,
/// and with a sign before them.
pub proof fn law_digits_are_numbers(whole: Seq<char>, fraction: Seq<char>, exponent: Seq<char>)
    requires
        of_digits(whole),
        of_digits(fraction),
        of_digits(exponent),
        whole.len() + fraction.len() > 0,
        exponent.len() > 0,
    ensures
        whole.len() > 0 ==> is_real(whole),
        is_real(whole + seq!['.'] + fraction),
        is_real(whole + seq!['.'] + fraction + seq!['e'] + exponent),
        is_real(seq!['-'] + (whole + seq!['.'] + fraction)),
        is_real(seq!['+'] + (whole + seq!['.'] + fraction)),
        !is_real(Seq::empty()),
{
    let m = whole + seq!['.'] + fraction;
    let e = m + seq!['e'] + exponent;
    assert forall|i: int| 0 <= i < e.len() implies !('A' <= #[trigger] e[i] && e[i] <= 'Z')
        && e[i] != '+' && e[i] != '-' by {
        if i < whole.len() {
            assert(e[i] == whole[i]);
        } else if whole.len() < i < m.len() {
            assert(e[i] == fraction[i - whole.len() - 1]);
        } else if i > m.len() {
            assert(e[i] == exponent[i - m.len() - 1]);
        }
    }
    assert forall|i: int| 0 <= i < m.len() implies #[trigger] m[i] == e[i] by {
    }
    lemma_lower_digits(e);
    lemma_lower_digits(m);
    lemma_lower_digits(whole);
    assert(m[whole.len() as int] == '.');
    assert(m.take(whole.len() as int) =~= whole);
    assert(m.skip(whole.len() as int + 1) =~= fraction);
    assert(crate::decimal::is_mantissa(m));
    assert(e[m.len() as int] == 'e');
    assert(e.take(m.len() as int) =~= m);
    assert(e.skip(m.len() as int + 1) =~= exponent);
    assert(crate::decimal::is_exponent(exponent));
    assert(crate::decimal::is_decimal(e));
    if whole.len() > 0 {
        assert(whole[0] == e[0]);
        assert(crate::decimal::is_mantissa(whole));
    }
    assert(m[0] == e[0]);
    assert((seq!['-'] + m).skip(1) =~= m);
    assert((seq!['+'] + m).skip(1) =~= m);
    let none = Seq::<char>::empty();
    assert(lowercase(none) =~= none);
    reveal_strlit("inf");
    reveal_strlit("infinity");
    reveal_strlit("nan");
}

/// A path is in the home directory where it is a tilde, or starts with one and a separator.
pub proof fn law_home_paths_start_with_a_tilde(rest: Seq<char>, c: char)
    ensures
        in_home(seq!['~']),
        in_home(seq!['~', '/'] + rest),
        in_home_everywhere(seq!['~', '/'] + rest),
        in_home_everywhere(seq!['~']),
        c != '/' && c != '\\' ==> !in_home(seq!['~', c] + rest),
        c != '~' ==> !in_home(seq![c] + rest),
        !in_home(Seq::empty()),
{
    let a = seq!['~', '/'] + rest;
    let b = seq!['~', c] + rest;
    let d = seq![c] + rest;
    assert(a[0] == '~' && a[1] == '/' && b[0] == '~' && b[1] == c && d[0] == c);
}

/// The shell is the one that is configured, or else that of the user, or else `/bin/sh`.
pub proof fn law_shells_are_chosen(configured: Seq<char>, users: Option<Seq<char>>, shell: Seq<char>)
    ensures
        shell_program(Some(configured), users) == configured,
        shell_program(None, Some(shell)) == shell,
        shell_program(None, None) == "/bin/sh"@,
{
}

/// An error is answered to the request that it is about, in the first version, without a
/// result.
pub proof fn law_errors_answer_requests<V>(
    response: ControlResponse<V>,
    request_id: u64,
    error: ErrorModel,
)
    ensures
        is_error(response, request_id, error) <==> {
            &&& response.protocol_version == 1
            &&& response.request_id == request_id
            &&& response.result is None
            &&& response.error is Some
            &&& response.error.unwrap().code@ == error.code
            &&& response.error.unwrap().message@ == error.message
        },
{
}

/// A missile starts at 1000 in a random direction, is never faster than 19000, and hits from
/// 40 on.
pub proof fn law_missiles_have_limits()
    ensures
        default_stats().initial_speed.bits == 0x447a_0000,
        default_stats().max_speed.bits == 0x4694_7000,
        default_stats().max_acceleration.bits == 0x4694_7000,
        default_stats().hit_radius.bits == 0x4220_0000,
        default_stats().hit_texture_scale.bits == 0x3f80_0000,
        default_stats().initial_velocity is Random,
{
}

} // verus!

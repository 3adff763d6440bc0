//! What a terminal answers to applications, and the state around its parser.

use crate::config::ShellConfig;
use crate::ratty_vt::callbacks::Callbacks;
use crate::ratty_vt::cell::same_text;
use crate::ratty_vt::clean_laws::law_output_keeps_screens_clean;
use crate::ratty_vt::event::{
    events_view, law_events_do_not_depend_on_splits, Event, EventModel, InputModel,
};
use crate::ratty_vt::grid::Size;
use crate::ratty_vt::grid_model::at_least_one;
use crate::ratty_vt::parser::{events_run, Parser};
use crate::ratty_vt::perform::{parts, Notice, NoticeModel};
use crate::ratty_vt::screen::{params_view, Screen};
use crate::ratty_vt::screen_model::ScreenModel;
use crate::ratty_vt::wide::{law_new_screens_are_whole, law_output_never_splits_a_wide_character};
use crate::ratty_vt::term::{decimal, extend_itoa, push_str};
use crate::snapshot::{number_text, push_number};
use crate::text::{chars_of, lists_view, number_of, parse_number, part_of, pieces, split};
use vstd::prelude::*;
use vstd::utf8::encode_utf8;

verus! {

/// The version of this terminal.
pub const VERSION: &'static str = "0.1.0";

/// What the terminal says that it can do: VT220 class with ANSI colors, and
/// nothing that it does not implement.
pub const PRIMARY_DEVICE_ATTRIBUTES: &'static str = "\x1b[?62;22c";

/// Text up to the last place of a character.
pub open spec fn before_last(text: Seq<char>, c: char) -> Option<Seq<char>>
    decreases text.len(),
{
    if text.len() == 0 {
        None
    } else if text.last() == c {
        Some(text.drop_last())
    } else {
        before_last(text.drop_last(), c)
    }
}

/// A version without what makes it a pre-release.
pub open spec fn release(version: Seq<char>) -> Seq<char> {
    match before_last(version, '-') {
        Some(release) => release,
        None => version,
    }
}

pub open spec fn hundred_to(n: nat) -> nat
    decreases n,
{
    if n == 0 {
        1
    } else {
        100 * hundred_to((n - 1) as nat)
    }
}

/// What a component counts by its place from the right; nothing where that is
/// too large a number.
pub open spec fn weight(place: nat) -> int {
    if hundred_to(place) <= usize::MAX {
        hundred_to(place) as int
    } else {
        0
    }
}

pub open spec fn at_most_max(n: int) -> int {
    if n > usize::MAX {
        usize::MAX as int
    } else {
        n
    }
}

/// What a component of a version counts: nothing where it is no number.
pub open spec fn component(text: Seq<char>) -> int {
    match number_of(text, usize::MAX as int) {
        Some(value) => value,
        None => 0,
    }
}

/// The last `n` components of a version as one number.
pub open spec fn components_number(components: Seq<Seq<char>>, n: nat) -> int
    decreases n,
{
    if n == 0 {
        0
    } else {
        at_most_max(
            components_number(components, (n - 1) as nat) + at_most_max(
                weight((n - 1) as nat) * component(components[components.len() - n]),
            ),
        )
    }
}

/// A version as one number: each component counts a hundred times the one behind
/// it.
pub open spec fn version_number(version: Seq<char>) -> int {
    let components = pieces(release(version), '.');
    components_number(components, components.len())
}

fn release_of(chars: &Vec<char>) -> (r: Vec<char>)
    ensures
        r@ == release(chars@),
{
    let mut n: usize = chars.len();
    assert(chars@.take(n as int) =~= chars@);
    while n > 0
        invariant
            n <= chars@.len(),
            before_last(chars@, '-') == before_last(chars@.take(n as int), '-'),
        decreases n,
    {
        assert(chars@.take(n as int).drop_last() =~= chars@.take(n - 1));
        if chars[n - 1] == '-' {
            let r = part_of(chars, 0, n - 1);
            assert(r@ =~= chars@.take(n - 1));
            return r;
        }
        n = n - 1;
    }
    let r = part_of(chars, 0, chars.len());
    assert(r@ =~= chars@);
    r
}

proof fn lemma_hundred_to_grows(n: nat)
    ensures
        hundred_to(n) >= 1,
        hundred_to(n + 1) == 100 * hundred_to(n),
    decreases n,
{
    if n > 0 {
        lemma_hundred_to_grows((n - 1) as nat);
    }
}

/// Encodes a version for the firmware field of a device attributes report.
pub fn encode_version(version: &str) -> (r: usize)
    ensures
        r == version_number(version@),
{
    let components = split(&release_of(&chars_of(version)), '.');
    let ghost model = lists_view(components@);
    let mut sum: usize = 0;
    let mut scale: Option<usize> = Some(1);
    let mut n: usize = 0;
    while n < components.len()
        invariant
            n <= components@.len(),
            model == lists_view(components@),
            sum == components_number(model, n as nat),
            match scale {
                Some(scale) => scale == hundred_to(n as nat),
                None => hundred_to(n as nat) > usize::MAX,
            },
        decreases components@.len() - n,
    {
        proof {
            lemma_hundred_to_grows(n as nat);
        }
        let value: usize = match parse_number(&components[components.len() - 1 - n], usize::MAX as u64) {
            Some(value) => value as usize,
            None => 0,
        };
        let weight: usize = match scale {
            Some(scale) => scale,
            None => 0,
        };
        assert(0 <= weight * value <= u64::MAX * u64::MAX) by (nonlinear_arith)
            requires
                0 <= weight <= u64::MAX,
                0 <= value <= u64::MAX,
        ;
        let product: u128 = (weight as u128) * (value as u128);
        let product: usize = if product > usize::MAX as u128 {
            usize::MAX
        } else {
            product as usize
        };
        assert(model[model.len() - (n + 1)] == components@[components@.len() - 1 - n]@);
        sum = sum.saturating_add(product);
        scale = match scale {
            Some(scale) => scale.checked_mul(100),
            None => None,
        };
        n = n + 1;
    }
    sum
}

/// Encodes this terminal's version for the firmware field of a device attributes
/// report.
pub fn encoded_version() -> (r: usize)
    ensures
        r == version_number(VERSION@),
{
    encode_version(VERSION)
}

/// What the listener of a terminal remembers.
pub struct CallbacksModel {
    /// Sequences that were warned of.
    pub seen_csi: Seq<Seq<char>>,
    pub seen_escape: Seq<Seq<char>>,
    /// What is still to be sent to the application.
    pub replies: Seq<Seq<u8>>,
    /// What is still to be written to the log.
    pub warnings: Seq<Seq<char>>,
}

/// The first part of the first parameter.
pub open spec fn first_param(params: Seq<Seq<u16>>) -> Option<u16> {
    if params.len() > 0 && params[0].len() > 0 {
        Some(params[0][0])
    } else {
        None
    }
}

/// Whether there is one parameter, of one part, at most.
pub open spec fn single(params: Seq<Seq<u16>>) -> bool {
    params.len() <= 1 && (params.len() == 1 ==> params[0].len() <= 1)
}

/// Whether the one parameter is zero or missing.
pub open spec fn zero_or_missing(params: Seq<Seq<u16>>) -> bool {
    single(params) && (first_param(params) matches Some(value) ==> value == 0)
}

/// What a control sequence asks of the terminal itself.
#[derive(Clone, Copy, Debug, PartialEq, Eq, Structural)]
pub enum CsiQuestion {
    /// What it can do.
    PrimaryAttributes,
    /// What it is.
    SecondaryAttributes,
    /// Whether it works.
    Status,
    /// Where its cursor is.
    CursorPosition,
    /// Its name and version.
    Version,
    /// The keyboard enhancement flags.
    KeyboardFlags,
    /// Line wrapping on or off, which is known and not modelled.
    LineWrapping,
    /// Something unknown.
    Unknown,
}

pub open spec fn question(
    i1: Option<u8>,
    i2: Option<u8>,
    params: Seq<Seq<u16>>,
    c: char,
) -> CsiQuestion {
    if i1 is None && i2 is None && c == 'c' && zero_or_missing(params) {
        CsiQuestion::PrimaryAttributes
    } else if i1 == Some(62u8) && i2 is None && c == 'c' && zero_or_missing(params) {
        CsiQuestion::SecondaryAttributes
    } else if i1 is None && i2 is None && c == 'n' && single(params) && first_param(params) == Some(
        5u16,
    ) {
        CsiQuestion::Status
    } else if i1 is None && i2 is None && c == 'n' && single(params) && first_param(params) == Some(
        6u16,
    ) {
        CsiQuestion::CursorPosition
    } else if i1 == Some(62u8) && i2 is None && c == 'q' && zero_or_missing(params) {
        CsiQuestion::Version
    } else if i1 == Some(63u8) && i2 is None && c == 'u' && zero_or_missing(params) {
        CsiQuestion::KeyboardFlags
    } else if i1 == Some(63u8) && i2 is None && (c == 'h' || c == 'l') && single(params)
        && first_param(params) == Some(7u16) {
        CsiQuestion::LineWrapping
    } else {
        CsiQuestion::Unknown
    }
}

/// What the terminal answers to a question.
pub open spec fn answer(question: CsiQuestion, screen: ScreenModel) -> Option<Seq<u8>> {
    match question {
        CsiQuestion::PrimaryAttributes => Some(encode_utf8(PRIMARY_DEVICE_ATTRIBUTES@)),
        CsiQuestion::SecondaryAttributes => Some(
            encode_utf8("\x1b[>0;"@) + decimal(version_number(VERSION@) as nat) + encode_utf8(
                ";1c"@,
            ),
        ),
        CsiQuestion::Status => Some(encode_utf8("\x1b[0n"@)),
        CsiQuestion::CursorPosition => Some(
            encode_utf8("\x1b["@) + decimal((screen.display_cursor().row + 1) as nat)
                + encode_utf8(";"@) + decimal((screen.display_cursor().col + 1) as nat)
                + encode_utf8("R"@),
        ),
        CsiQuestion::Version => Some(
            encode_utf8("\x1bP>|ratty "@) + encode_utf8(VERSION@) + encode_utf8("\x1b\\"@),
        ),
        CsiQuestion::KeyboardFlags => Some(
            encode_utf8("\x1b[?"@) + decimal(screen.keyboard_flags() as nat) + encode_utf8("u"@),
        ),
        CsiQuestion::LineWrapping | CsiQuestion::Unknown => None,
    }
}

pub open spec fn optional_char(byte: Option<u8>) -> Seq<char> {
    match byte {
        Some(byte) => seq![byte as char],
        None => Seq::empty(),
    }
}

/// The parts of a parameter, separated by colons.
pub open spec fn param_text(param: Seq<u16>) -> Seq<char>
    decreases param.len(),
{
    if param.len() == 0 {
        Seq::empty()
    } else if param.len() == 1 {
        number_text(param[0] as nat)
    } else {
        param_text(param.drop_last()).push(':') + number_text(param.last() as nat)
    }
}

/// Parameters, separated by semicolons.
pub open spec fn params_text(params: Seq<Seq<u16>>) -> Seq<char>
    decreases params.len(),
{
    if params.len() == 0 {
        Seq::empty()
    } else if params.len() == 1 {
        param_text(params[0])
    } else {
        params_text(params.drop_last()).push(';') + param_text(params.last())
    }
}

/// A control sequence as it is logged.
pub open spec fn csi_text(
    i1: Option<u8>,
    i2: Option<u8>,
    params: Seq<Seq<u16>>,
    c: char,
) -> Seq<char> {
    ("\x1b["@ + optional_char(i1) + optional_char(i2) + params_text(params)).push(c)
}

/// An escape sequence as it is logged.
pub open spec fn escape_text(i1: Option<u8>, i2: Option<u8>, b: u8) -> Seq<char> {
    ("\x1b"@ + optional_char(i1) + optional_char(i2)).push(b as char)
}

impl CallbacksModel {
    pub open spec fn fresh() -> CallbacksModel {
        CallbacksModel {
            seen_csi: Seq::empty(),
            seen_escape: Seq::empty(),
            replies: Seq::empty(),
            warnings: Seq::empty(),
        }
    }

    /// After a control sequence: a question is answered, and what is unknown is
    /// warned of once.
    pub open spec fn heard_csi(
        self,
        screen: ScreenModel,
        i1: Option<u8>,
        i2: Option<u8>,
        params: Seq<Seq<u16>>,
        c: char,
    ) -> CallbacksModel {
        let asked = question(i1, i2, params, c);
        let text = csi_text(i1, i2, params, c);
        match answer(asked, screen) {
            Some(reply) => CallbacksModel { replies: self.replies.push(reply), ..self },
            None => if asked == CsiQuestion::LineWrapping || self.seen_csi.contains(text) {
                self
            } else {
                CallbacksModel {
                    seen_csi: self.seen_csi.push(text),
                    warnings: self.warnings.push("unhandled terminal CSI sequence: "@ + text),
                    ..self
                }
            },
        }
    }

    /// After an escape sequence, which is warned of once.
    pub open spec fn heard_escape(self, i1: Option<u8>, i2: Option<u8>, b: u8) -> CallbacksModel {
        let text = escape_text(i1, i2, b);
        if self.seen_escape.contains(text) {
            self
        } else {
            CallbacksModel {
                seen_escape: self.seen_escape.push(text),
                warnings: self.warnings.push("unhandled terminal escape sequence: "@ + text),
                ..self
            }
        }
    }

    /// After a notice.
    pub open spec fn heard(self, screen: ScreenModel, notice: NoticeModel) -> CallbacksModel {
        match notice {
            NoticeModel::Csi(i1, i2, params, c) => self.heard_csi(screen, i1, i2, params, c),
            NoticeModel::Escape(i1, i2, b) => self.heard_escape(i1, i2, b),
            _ => self,
        }
    }
}

/// Texts, as sequences.
pub open spec fn texts_view(texts: Seq<String>) -> Seq<Seq<char>> {
    Seq::new(texts.len(), |i: int| texts[i]@)
}

/// Byte strings, as sequences.
pub open spec fn replies_view(replies: Seq<Vec<u8>>) -> Seq<Seq<u8>> {
    Seq::new(replies.len(), |i: int| replies[i]@)
}

/// Answers for the terminal what the screen leaves to it: device attributes,
/// status and cursor reports, the version and the keyboard flags.
#[derive(Debug)]
pub struct TerminalParserCallbacks {
    seen_csi: Vec<String>,
    seen_escape: Vec<String>,
    pending_replies: Vec<Vec<u8>>,
    pending_warnings: Vec<String>,
}

impl View for TerminalParserCallbacks {
    type V = CallbacksModel;

    closed spec fn view(&self) -> CallbacksModel {
        CallbacksModel {
            seen_csi: texts_view(self.seen_csi@),
            seen_escape: texts_view(self.seen_escape@),
            replies: replies_view(self.pending_replies@),
            warnings: texts_view(self.pending_warnings@),
        }
    }
}

impl Default for TerminalParserCallbacks {
    fn default() -> (r: Self)
        ensures
            r@ == CallbacksModel::fresh(),
    {
        let r = TerminalParserCallbacks {
            seen_csi: Vec::new(),
            seen_escape: Vec::new(),
            pending_replies: Vec::new(),
            pending_warnings: Vec::new(),
        };
        assert(r@.seen_csi =~= Seq::empty());
        assert(r@.seen_escape =~= Seq::empty());
        assert(r@.replies =~= Seq::empty());
        assert(r@.warnings =~= Seq::empty());
        r
    }
}

fn has_text(texts: &Vec<String>, text: &String) -> (r: bool)
    ensures
        r == texts_view(texts@).contains(text@),
{
    let mut i: usize = 0;
    while i < texts.len()
        invariant
            i <= texts@.len(),
            forall|k: int| 0 <= k < i ==> #[trigger] texts_view(texts@)[k] != text@,
        decreases texts@.len() - i,
    {
        if same_text(texts[i].as_str(), text.as_str()) {
            assert(texts_view(texts@)[i as int] == text@);
            return true;
        }
        i = i + 1;
    }
    false
}

/// The slices of a slice, as sequences.
pub open spec fn slices_view(params: Seq<&[u16]>) -> Seq<Seq<u16>> {
    Seq::new(params.len(), |i: int| params[i]@)
}

fn question_of(i1: Option<u8>, i2: Option<u8>, params: &[&[u16]], c: char) -> (r: CsiQuestion)
    ensures
        r == question(i1, i2, slices_view(params@), c),
{
    let ghost model = slices_view(params@);
    let first: Option<u16> = if params.len() > 0 && params[0].len() > 0 {
        Some(params[0][0])
    } else {
        None
    };
    assert(params@.len() > 0 ==> model[0] == params@[0]@);
    let single = params.len() == 0 || (params.len() == 1 && params[0].len() <= 1);
    let zero = single && match first {
        Some(value) => value == 0,
        None => true,
    };
    let five = single && match first {
        Some(value) => value == 5,
        None => false,
    };
    let six = single && match first {
        Some(value) => value == 6,
        None => false,
    };
    let seven = single && match first {
        Some(value) => value == 7,
        None => false,
    };
    if i2.is_some() {
        return CsiQuestion::Unknown;
    }
    match i1 {
        None => {
            if c == 'c' && zero {
                CsiQuestion::PrimaryAttributes
            } else if c == 'n' && five {
                CsiQuestion::Status
            } else if c == 'n' && six {
                CsiQuestion::CursorPosition
            } else {
                CsiQuestion::Unknown
            }
        },
        Some(first) => {
            if first == 62 && c == 'c' && zero {
                CsiQuestion::SecondaryAttributes
            } else if first == 62 && c == 'q' && zero {
                CsiQuestion::Version
            } else if first == 63 && c == 'u' && zero {
                CsiQuestion::KeyboardFlags
            } else if first == 63 && (c == 'h' || c == 'l') && seven {
                CsiQuestion::LineWrapping
            } else {
                CsiQuestion::Unknown
            }
        },
    }
}

fn push_decimal(bytes: &mut Vec<u8>, n: usize)
    ensures
        final(bytes)@ == old(bytes)@ + decimal(n as nat),
    decreases n,
{
    if n >= 10 {
        push_decimal(bytes, n / 10);
    }
    bytes.push(48 + (n % 10) as u8);
    assert(bytes@ =~= old(bytes)@ + decimal(n as nat));
}

fn answer_to(question: CsiQuestion, screen: &Screen) -> (r: Option<Vec<u8>>)
    requires
        screen@.wf(),
    ensures
        match r {
            Some(reply) => answer(question, screen@) == Some(reply@),
            None => answer(question, screen@) is None,
        },
{
    let mut reply: Vec<u8> = Vec::new();
    match question {
        CsiQuestion::PrimaryAttributes => {
            push_str(&mut reply, PRIMARY_DEVICE_ATTRIBUTES);
        },
        CsiQuestion::SecondaryAttributes => {
            push_str(&mut reply, "\x1b[>0;");
            push_decimal(&mut reply, encoded_version());
            push_str(&mut reply, ";1c");
        },
        CsiQuestion::Status => {
            push_str(&mut reply, "\x1b[0n");
        },
        CsiQuestion::CursorPosition => {
            let (row, col) = screen.display_cursor_position();
            push_str(&mut reply, "\x1b[");
            extend_itoa(&mut reply, row as u32 + 1);
            push_str(&mut reply, ";");
            extend_itoa(&mut reply, col as u32 + 1);
            push_str(&mut reply, "R");
        },
        CsiQuestion::Version => {
            push_str(&mut reply, "\x1bP>|ratty ");
            push_str(&mut reply, VERSION);
            push_str(&mut reply, "\x1b\\");
        },
        CsiQuestion::KeyboardFlags => {
            push_str(&mut reply, "\x1b[?");
            extend_itoa(&mut reply, screen.kitty_keyboard_flags() as u32);
            push_str(&mut reply, "u");
        },
        CsiQuestion::LineWrapping | CsiQuestion::Unknown => {
            return None;
        },
    }
    assert(answer(question, screen@) is Some);
    assert(reply@ =~= answer(question, screen@)->0);
    Some(reply)
}

fn push_optional(text: &mut String, byte: Option<u8>)
    ensures
        final(text)@ == old(text)@ + optional_char(byte),
{
    if let Some(byte) = byte {
        text.push(byte as char);
    }
    assert(text@ =~= old(text)@ + optional_char(byte));
}

fn push_param(text: &mut String, param: &[u16])
    ensures
        final(text)@ == old(text)@ + param_text(param@),
{
    let mut j: usize = 0;
    assert(param@.take(0) =~= Seq::<u16>::empty());
    assert(text@ =~= old(text)@ + param_text(param@.take(0)));
    while j < param.len()
        invariant
            j <= param@.len(),
            text@ == old(text)@ + param_text(param@.take(j as int)),
        decreases param@.len() - j,
    {
        assert(param@.take(j + 1).drop_last() =~= param@.take(j as int));
        if j > 0 {
            text.push(':');
        }
        push_number(text, param[j] as u64);
        assert(text@ =~= old(text)@ + param_text(param@.take(j + 1)));
        j = j + 1;
    }
    assert(param@.take(j as int) =~= param@);
}

fn text_of_csi(i1: Option<u8>, i2: Option<u8>, params: &[&[u16]], c: char) -> (r: String)
    ensures
        r@ == csi_text(i1, i2, slices_view(params@), c),
{
    let ghost model = slices_view(params@);
    let mut text = "\x1b[".to_string();
    push_optional(&mut text, i1);
    push_optional(&mut text, i2);
    let ghost start = text@;
    let mut i: usize = 0;
    assert(model.take(0) =~= Seq::<Seq<u16>>::empty());
    assert(text@ =~= start + params_text(model.take(0)));
    while i < params.len()
        invariant
            i <= params@.len(),
            model == slices_view(params@),
            text@ == start + params_text(model.take(i as int)),
        decreases params@.len() - i,
    {
        assert(model.take(i + 1).drop_last() =~= model.take(i as int));
        if i > 0 {
            text.push(';');
        }
        push_param(&mut text, params[i]);
        assert(text@ =~= start + params_text(model.take(i + 1)));
        i = i + 1;
    }
    assert(model.take(i as int) =~= model);
    text.push(c);
    text
}

fn text_of_escape(i1: Option<u8>, i2: Option<u8>, b: u8) -> (r: String)
    ensures
        r@ == escape_text(i1, i2, b),
{
    let mut text = "\x1b".to_string();
    push_optional(&mut text, i1);
    push_optional(&mut text, i2);
    text.push(b as char);
    text
}

fn warning(start: &str, text: &String) -> (r: String)
    ensures
        r@ == start@ + text@,
{
    let mut r = start.to_string();
    r.append(text.as_str());
    r
}

impl Callbacks for TerminalParserCallbacks {
    open spec fn touches_screen() -> bool {
        false
    }

    fn unhandled_csi(
        &mut self,
        screen: &mut Screen,
        i1: Option<u8>,
        i2: Option<u8>,
        params: &[&[u16]],
        c: char,
    )
        ensures
            final(self)@ == old(self)@.heard_csi(old(screen)@, i1, i2, slices_view(params@), c),
    {
        let asked = question_of(i1, i2, params, c);
        match answer_to(asked, screen) {
            Some(reply) => {
                self.pending_replies.push(reply);
                assert(self@.replies =~= old(self)@.heard_csi(
                    old(screen)@,
                    i1,
                    i2,
                    slices_view(params@),
                    c,
                ).replies);
            },
            None => {
                if asked == CsiQuestion::LineWrapping {
                    return ;
                }
                let text = text_of_csi(i1, i2, params, c);
                if !has_text(&self.seen_csi, &text) {
                    self.pending_warnings.push(
                        warning("unhandled terminal CSI sequence: ", &text),
                    );
                    self.seen_csi.push(text);
                    assert(self@.seen_csi =~= old(self)@.seen_csi.push(text@));
                    assert(self@.warnings =~= old(self)@.warnings.push(
                        "unhandled terminal CSI sequence: "@ + text@,
                    ));
                }
            },
        }
    }

    fn unhandled_escape(&mut self, screen: &mut Screen, i1: Option<u8>, i2: Option<u8>, b: u8)
        ensures
            final(self)@ == old(self)@.heard_escape(i1, i2, b),
    {
        let text = text_of_escape(i1, i2, b);
        if !has_text(&self.seen_escape, &text) {
            self.pending_warnings.push(warning("unhandled terminal escape sequence: ", &text));
            self.seen_escape.push(text);
            assert(self@.seen_escape =~= old(self)@.seen_escape.push(text@));
            assert(self@.warnings =~= old(self)@.warnings.push(
                "unhandled terminal escape sequence: "@ + text@,
            ));
        }
    }
}

impl TerminalParserCallbacks {
    /// Drains the replies that are still to be sent.
    pub fn take_replies(&mut self) -> (r: Vec<Vec<u8>>)
        ensures
            replies_view(r@) == old(self)@.replies,
            final(self)@ == (CallbacksModel { replies: Seq::empty(), ..old(self)@ }),
    {
        let mut taken: Vec<Vec<u8>> = Vec::new();
        core::mem::swap(&mut taken, &mut self.pending_replies);
        assert(self@.replies =~= Seq::empty());
        taken
    }

    /// Drains the warnings that are still to be logged.
    pub fn take_warnings(&mut self) -> (r: Vec<String>)
        ensures
            texts_view(r@) == old(self)@.warnings,
            final(self)@ == (CallbacksModel { warnings: Seq::empty(), ..old(self)@ }),
    {
        let mut taken: Vec<String> = Vec::new();
        core::mem::swap(&mut taken, &mut self.pending_warnings);
        assert(self@.warnings =~= Seq::empty());
        taken
    }
}

/// What an event makes of a screen and of those who listen for the terminal.
pub open spec fn event_heard(
    screen: ScreenModel,
    callbacks: CallbacksModel,
    event: EventModel,
    from: int,
) -> (ScreenModel, CallbacksModel)
    decreases parts(event) - from,
{
    let performed = screen.performed(event, from);
    let heard = match performed.notice {
        Some(notice) => callbacks.heard(performed.screen, notice),
        None => callbacks,
    };
    match performed.next {
        Some(next) => if from < next <= parts(event) {
            event_heard(performed.screen, heard, event, next)
        } else {
            (performed.screen, heard)
        },
        None => (performed.screen, heard),
    }
}

/// What events make of a screen and of those who listen for the terminal.
pub open spec fn events_heard(
    screen: ScreenModel,
    callbacks: CallbacksModel,
    events: Seq<EventModel>,
) -> (ScreenModel, CallbacksModel)
    decreases events.len(),
{
    if events.len() == 0 {
        (screen, callbacks)
    } else {
        let (before, heard) = events_heard(screen, callbacks, events.drop_last());
        event_heard(before, heard, events.last(), 0)
    }
}

proof fn lemma_event_heard_screen(
    screen: ScreenModel,
    callbacks: CallbacksModel,
    event: EventModel,
    from: int,
)
    ensures
        event_heard(screen, callbacks, event, from).0 == crate::ratty_vt::parser::event_run(
            screen,
            event,
            from,
        ).0,
    decreases parts(event) - from,
{
    let performed = screen.performed(event, from);
    let heard = match performed.notice {
        Some(notice) => callbacks.heard(performed.screen, notice),
        None => callbacks,
    };
    if let Some(next) = performed.next {
        if from < next <= parts(event) {
            lemma_event_heard_screen(performed.screen, heard, event, next);
        }
    }
}

/// Answering questions changes nothing on the screen.
pub proof fn law_answers_leave_the_screen_alone(
    screen: ScreenModel,
    callbacks: CallbacksModel,
    events: Seq<EventModel>,
)
    ensures
        events_heard(screen, callbacks, events).0 == events_run(screen, events).0,
    decreases events.len(),
{
    if events.len() > 0 {
        law_answers_leave_the_screen_alone(screen, callbacks, events.drop_last());
        let (before, heard) = events_heard(screen, callbacks, events.drop_last());
        lemma_event_heard_screen(before, heard, events.last(), 0);
    }
}

/// What two outputs ask for is answered one after the other: the second finds the screen
/// and the answers as the first left them.
pub proof fn law_answers_come_in_order(
    screen: ScreenModel,
    callbacks: CallbacksModel,
    first: Seq<EventModel>,
    second: Seq<EventModel>,
)
    ensures
        ({
            let (middle, heard) = events_heard(screen, callbacks, first);
            events_heard(screen, callbacks, first + second) == events_heard(middle, heard, second)
        }),
    decreases second.len(),
{
    if second.len() == 0 {
        assert(first + second =~= first);
    } else {
        law_answers_come_in_order(screen, callbacks, first, second.drop_last());
        assert((first + second).drop_last() =~= first + second.drop_last());
    }
}

/// Output that arrives in two reads is answered as it is in one, wherever it is split.
pub proof fn law_answers_do_not_depend_on_splits(
    screen: ScreenModel,
    callbacks: CallbacksModel,
    input: InputModel,
    first: Seq<u8>,
    second: Seq<u8>,
)
    ensures
        ({
            let (middle, heard) = events_heard(screen, callbacks, input.events(first));
            events_heard(screen, callbacks, input.events(first + second)) == events_heard(
                middle,
                heard,
                input.and(first).events(second),
            )
        }),
{
    law_events_do_not_depend_on_splits(input, first, second);
    law_answers_come_in_order(
        screen,
        callbacks,
        input.events(first),
        input.and(first).events(second),
    );
}

/// Where a digest starts.
pub const DIGEST_START: u64 = 0xcbf2_9ce4_8422_2325;
/// What a digest is multiplied by.
pub const DIGEST_FACTOR: u64 = 0x0000_0100_0000_01b3;

/// A digest after some more bytes.
pub open spec fn digested(digest: u64, bytes: Seq<u8>) -> u64
    decreases bytes.len(),
{
    if bytes.len() == 0 {
        digest
    } else {
        (digested(digest, bytes.drop_last()) ^ bytes.last() as u64).wrapping_mul(DIGEST_FACTOR)
    }
}

/// A digest does not depend on how the bytes were split.
pub proof fn law_digest_does_not_depend_on_splits(digest: u64, first: Seq<u8>, second: Seq<u8>)
    ensures
        digested(digest, first + second) == digested(digested(digest, first), second),
    decreases second.len(),
{
    if second.len() == 0 {
        assert(first + second =~= first);
    } else {
        law_digest_does_not_depend_on_splits(digest, first, second.drop_last());
        assert((first + second).drop_last() =~= first + second.drop_last());
    }
}

fn digest_bytes(digest: u64, bytes: &[u8]) -> (r: u64)
    ensures
        r == digested(digest, bytes@),
{
    let mut r: u64 = digest;
    let mut i: usize = 0;
    assert(bytes@.take(0) =~= Seq::<u8>::empty());
    while i < bytes.len()
        invariant
            i <= bytes@.len(),
            r == digested(digest, bytes@.take(i as int)),
        decreases bytes@.len() - i,
    {
        assert(bytes@.take(i + 1).drop_last() =~= bytes@.take(i as int));
        r = (r ^ bytes[i] as u64).wrapping_mul(DIGEST_FACTOR);
        i = i + 1;
    }
    assert(bytes@.take(i as int) =~= bytes@);
    r
}

/// The size of a terminal in cells and in pixels.
#[derive(Clone, Copy, Debug, PartialEq, Eq, Structural)]
pub struct PtyDimensions {
    pub cols: u16,
    pub rows: u16,
    pub pixel_width: u16,
    pub pixel_height: u16,
}

/// What is left to do of a resize.
#[derive(Clone, Copy, Debug, PartialEq, Eq, Structural)]
pub enum ResizeStep {
    /// Nothing was asked for.
    Idle,
    /// Nothing: the terminal has its new size.
    Applied,
    /// The child has to be told.
    Notify(PtyDimensions),
}

/// What is left to do to end a terminal.
#[derive(Clone, Copy, Debug, PartialEq, Eq, Structural)]
pub struct ShutdownStep {
    /// Whether the terminal is to be closed; it is closed once.
    pub close: bool,
    /// Whether the child is to be killed.
    pub kill: bool,
}

/// The state of a terminal around its parser.
pub struct TerminalRuntime {
    pub parser: Parser<TerminalParserCallbacks>,
    /// Whether the child is held, and not known to have ended.
    pub child_held: bool,
    /// Indicates PTY shutdown.
    pub pty_disconnected: bool,
    pub shutdown_started: bool,
    /// Last dimensions that the child was told.
    pub last_pty_size: PtyDimensions,
    /// Last column and row dimensions applied to the parser.
    pub last_parser_size: (u16, u16),
    /// Dimensions that are kept until the child was told.
    pub pending_resize: Option<PtyDimensions>,
    pub processed_bytes: u64,
    pub processed_digest: Option<u64>,
}

impl TerminalRuntime {
    pub open spec fn input(&self) -> InputModel {
        self.parser.input()
    }

    pub open spec fn model(&self) -> ScreenModel {
        self.parser.model()
    }

    pub open spec fn callbacks(&self) -> CallbacksModel {
        self.parser.listener()@
    }

    pub open spec fn byte_count(&self) -> u64 {
        self.processed_bytes
    }

    pub open spec fn digest(&self) -> Option<u64> {
        self.processed_digest
    }

    pub open spec fn wf(&self) -> bool {
        self.model().wf() && self.model().uniform()
    }

    /// Whether two runtimes agree in all but the screen and what was heard of it.
    pub open spec fn same_state(&self, other: &TerminalRuntime) -> bool {
        &&& self.child_held == other.child_held
        &&& self.pty_disconnected == other.pty_disconnected
        &&& self.shutdown_started == other.shutdown_started
    }

    pub open spec fn same_sizes(&self, other: &TerminalRuntime) -> bool {
        &&& self.last_pty_size == other.last_pty_size
        &&& self.last_parser_size == other.last_parser_size
        &&& self.pending_resize == other.pending_resize
    }

    pub open spec fn same_counts(&self, other: &TerminalRuntime) -> bool {
        &&& self.input() == other.input()
        &&& self.byte_count() == other.byte_count()
        &&& self.digest() == other.digest()
    }

    /// The state of a terminal of a size, whose child was just started.
    pub fn new(cols: u16, rows: u16, scrollback: usize) -> (r: Self)
        ensures
            r.wf(),
            r.model().whole(),
            r.model().holds_no_controls(),
            r.model() == ScreenModel::fresh(
                Size {
                    rows: at_least_one(rows),
                    cols: at_least_one(cols),
                },
                scrollback,
            ),
            r.callbacks() == CallbacksModel::fresh(),
            r.input() == InputModel::nothing(),
            r.byte_count() == 0,
            r.digest() is None,
            r.child_held,
            !r.pty_disconnected,
            !r.shutdown_started,
            r.last_pty_size == (PtyDimensions { cols, rows, pixel_width: 0, pixel_height: 0 }),
            r.last_parser_size == (cols, rows),
            r.pending_resize is None,
    {
        proof {
            law_new_screens_are_whole(
                Size { rows: at_least_one(rows), cols: at_least_one(cols) },
                scrollback,
            );
        }
        TerminalRuntime {
            parser: Parser::new_with_callbacks(
                if rows == 0 {
                    1
                } else {
                    rows
                },
                if cols == 0 {
                    1
                } else {
                    cols
                },
                scrollback,
                TerminalParserCallbacks::default(),
            ),
            child_held: true,
            pty_disconnected: false,
            shutdown_started: false,
            last_pty_size: PtyDimensions { cols, rows, pixel_width: 0, pixel_height: 0 },
            last_parser_size: (cols, rows),
            pending_resize: None,
            processed_bytes: 0,
            processed_digest: None,
        }
    }

    /// Performs an event and answers what it asks.
    fn perform(&mut self, event: &Event)
        requires
            old(self).wf(),
        ensures
            final(self).wf(),
            (final(self).model(), final(self).callbacks()) == event_heard(
                old(self).model(),
                old(self).callbacks(),
                event@,
                0,
            ),
            old(self).model().whole() ==> final(self).model().whole(),
            old(self).model().holds_no_controls() ==> final(self).model().holds_no_controls(),
            final(self).same_state(old(self)),
            final(self).same_sizes(old(self)),
            final(self).same_counts(old(self)),
    {
        let mut from: usize = 0;
        let ghost run = event_heard(self.model(), self.callbacks(), event@, 0);
        loop
            invariant_except_break
                from <= parts(event@),
                event_heard(self.model(), self.callbacks(), event@, from as int) == run,
            invariant
                self.wf(),
                old(self).model().whole() ==> self.model().whole(),
                old(self).model().holds_no_controls() ==> self.model().holds_no_controls(),
                self.same_state(old(self)),
                self.same_sizes(old(self)),
                self.same_counts(old(self)),
            ensures
                (self.model(), self.callbacks()) == run,
            decreases parts(event@) - from,
        {
            let ghost before = self.callbacks();
            proof {
                if self.model().whole() {
                    law_output_never_splits_a_wide_character(self.model(), event@, from as int);
                }
                if self.model().holds_no_controls() {
                    law_output_keeps_screens_clean(self.model(), event@, from as int);
                }
            }
            let (screen, callbacks) = self.parser.screen_and_callbacks();
            let performed = screen.perform(event, from);
            let ghost shown = screen@;
            if let Some(notice) = &performed.notice {
                hear(callbacks, screen, notice);
            }
            assert(self.callbacks() == (match performed.notice {
                Some(notice) => before.heard(shown, notice@),
                None => before,
            }));
            match performed.next {
                Some(next) => {
                    from = next;
                },
                None => {
                    break;
                },
            }
        }
    }

    /// Whether this is a terminal after it processed some output: it heard every event
    /// of the output in order, and counted its bytes.
    pub open spec fn has_processed(&self, before: &Self, bytes: Seq<u8>) -> bool {
        &&& self.input() == before.input().and(bytes)
        &&& (self.model(), self.callbacks()) == events_heard(
            before.model(),
            before.callbacks(),
            before.input().events(bytes),
        )
        &&& self.byte_count() == (if before.byte_count() + bytes.len() > u64::MAX {
            u64::MAX as int
        } else {
            before.byte_count() + bytes.len()
        })
        &&& self.digest() == (match before.digest() {
            Some(digest) => Some(digested(digest, bytes)),
            None => None,
        })
        &&& self.same_state(before)
        &&& self.same_sizes(before)
    }

    /// Feeds output of the child into the terminal.
    pub fn process(&mut self, bytes: &[u8])
        requires
            old(self).wf(),
        ensures
            final(self).wf(),
            final(self).has_processed(old(self), bytes@),
            old(self).model().whole() ==> final(self).model().whole(),
            old(self).model().holds_no_controls() ==> final(self).model().holds_no_controls(),
    {
        self.processed_bytes = self.processed_bytes.saturating_add(bytes.len() as u64);
        self.processed_digest = match self.processed_digest {
            Some(digest) => Some(digest_bytes(digest, bytes)),
            None => None,
        };
        let events = self.parser.take_bytes(bytes);
        let ghost fed = *self;
        let ghost screen = self.model();
        let ghost callbacks = self.callbacks();
        let ghost model = events_view(events@);
        let mut i: usize = 0;
        assert(model.take(0) =~= Seq::<EventModel>::empty());
        while i < events.len()
            invariant
                i <= events@.len(),
                model == events_view(events@),
                self.wf(),
                self.input() == fed.input(),
                (self.model(), self.callbacks()) == events_heard(
                    screen,
                    callbacks,
                    model.take(i as int),
                ),
                self.byte_count() == fed.byte_count(),
                self.digest() == fed.digest(),
                old(self).model().whole() ==> self.model().whole(),
                old(self).model().holds_no_controls() ==> self.model().holds_no_controls(),
                self.same_state(old(self)),
                self.same_sizes(old(self)),
            decreases events@.len() - i,
        {
            self.perform(&events[i]);
            assert(model.take(i + 1).drop_last() =~= model.take(i as int));
            i = i + 1;
        }
        assert(model.take(i as int) =~= model);
    }

    /// Bytes delivered to the terminal, excluding filtered graphics sequences.
    pub fn processed_bytes(&self) -> (r: u64)
        ensures
            r == self.byte_count(),
    {
        self.processed_bytes
    }

    /// Starts a digest of the bytes that are processed from now on.
    pub fn start_processed_digest(&mut self)
        ensures
            final(self).digest() == Some(DIGEST_START),
            final(self).byte_count() == old(self).byte_count(),
            final(self).input() == old(self).input(),
            final(self).model() == old(self).model(),
            final(self).callbacks() == old(self).callbacks(),
            final(self).same_state(old(self)),
            final(self).same_sizes(old(self)),
    {
        self.processed_digest = Some(DIGEST_START);
    }

    /// The digest of the bytes that were processed since it was started.
    pub fn processed_digest(&self) -> (r: Option<u64>)
        ensures
            r == self.digest(),
    {
        self.processed_digest
    }

    /// Returns the terminal screen.
    pub fn screen(&self) -> (r: &Screen)
        ensures
            r@ == self.model(),
    {
        self.parser.screen()
    }

    /// Returns the terminal screen for mutation.
    pub fn screen_mut(&mut self) -> (r: &mut Screen)
        ensures
            r@ == old(self).model(),
            final(self).model() == final(r)@,
            final(self).callbacks() == old(self).callbacks(),
            final(self).same_state(old(self)),
            final(self).same_sizes(old(self)),
            final(self).same_counts(old(self)),
    {
        self.parser.screen_and_callbacks().0
    }

    /// Returns each visible row as a string with trailing blanks trimmed.
    pub fn visible_row_texts(&self) -> (r: Vec<String>)
        requires
            self.wf(),
        ensures
            texts_view(r@) == self.model().row_texts(0, self.model().size().cols as int),
    {
        let (_, cols) = self.screen().size();
        let r = self.screen().rows(0, cols);
        assert(texts_view(r@) =~= self.model().row_texts(0, self.model().size().cols as int));
        r
    }

    /// Drains the replies that are still to be written to the child.
    pub fn take_replies(&mut self) -> (r: Vec<Vec<u8>>)
        ensures
            replies_view(r@) == old(self).callbacks().replies,
            final(self).callbacks() == (CallbacksModel {
                replies: Seq::empty(),
                ..old(self).callbacks()
            }),
            final(self).model() == old(self).model(),
            final(self).same_state(old(self)),
            final(self).same_sizes(old(self)),
            final(self).same_counts(old(self)),
    {
        self.parser.callbacks_mut().take_replies()
    }

    /// Drains the warnings that are still to be logged.
    pub fn take_warnings(&mut self) -> (r: Vec<String>)
        ensures
            texts_view(r@) == old(self).callbacks().warnings,
            final(self).callbacks() == (CallbacksModel {
                warnings: Seq::empty(),
                ..old(self).callbacks()
            }),
            final(self).model() == old(self).model(),
            final(self).same_state(old(self)),
            final(self).same_sizes(old(self)),
            final(self).same_counts(old(self)),
    {
        self.parser.callbacks_mut().take_warnings()
    }

    /// Asks for another size. The screen takes it at once, so that what is drawn
    /// follows it; the child is told, and told again until it was told. A size
    /// without rows or columns is no size.
    pub fn resize(&mut self, cols: u16, rows: u16, pixel_width: u16, pixel_height: u16) -> (r:
        ResizeStep)
        requires
            old(self).wf(),
        ensures
            final(self).wf(),
            ({
                let wanted = PtyDimensions { cols, rows, pixel_width, pixel_height };
                if cols == 0 || rows == 0 {
                    &&& r == ResizeStep::Idle
                    &&& *final(self) == *old(self)
                } else {
                    resized(*old(self), wanted, *final(self), r)
                }
            }),
    {
        if cols == 0 || rows == 0 {
            return ResizeStep::Idle;
        }
        self.pending_resize = Some(PtyDimensions { cols, rows, pixel_width, pixel_height });
        self.retry_pending_resize()
    }

    /// Goes on with a size that is still pending.
    pub fn retry_pending_resize(&mut self) -> (r: ResizeStep)
        requires
            old(self).wf(),
        ensures
            final(self).wf(),
            match old(self).pending_resize {
                None => r == ResizeStep::Idle && *final(self) == *old(self),
                Some(wanted) => resized(*old(self), wanted, *final(self), r),
            },
    {
        let wanted = match self.pending_resize {
            Some(wanted) => wanted,
            None => {
                return ResizeStep::Idle;
            },
        };
        if self.last_parser_size.0 != wanted.cols || self.last_parser_size.1 != wanted.rows {
            self.parser.screen_and_callbacks().0.set_size_reflow(wanted.rows, wanted.cols);
            self.last_parser_size = (wanted.cols, wanted.rows);
        }
        if self.last_pty_size != wanted {
            return ResizeStep::Notify(wanted);
        }
        self.pending_resize = None;
        ResizeStep::Applied
    }

    /// The child was told its size.
    pub fn pty_resized(&mut self, size: PtyDimensions)
        ensures
            final(self).last_pty_size == size,
            final(self).pending_resize is None,
            final(self).last_parser_size == old(self).last_parser_size,
            final(self).model() == old(self).model(),
            final(self).callbacks() == old(self).callbacks(),
            final(self).same_state(old(self)),
            final(self).same_counts(old(self)),
    {
        self.last_pty_size = size;
        self.pending_resize = None;
    }

    /// Returns the active kitty keyboard enhancement flags.
    pub fn kitty_keyboard_flags(&self) -> (r: u8)
        ensures
            r == self.model().keyboard_flags(),
    {
        self.parser.screen().kitty_keyboard_flags()
    }

    /// Returns the active xterm `modifyOtherKeys` level.
    pub fn modify_other_keys(&self) -> (r: Option<u8>)
        ensures
            r == self.model().modify_other_keys,
    {
        self.parser.screen().modify_other_keys()
    }

    /// Takes in the status that a poll of the child gave, and says whether the
    /// child succeeded once it has ended; nothing is to be polled where no child is
    /// held. A child that has ended is not held any more, so that nothing is ever
    /// sent to another that has its number.
    pub fn child_exit_success(&mut self, status: Option<u32>) -> (r: Result<Option<bool>, NoChild>)
        ensures
            r == (if !old(self).child_held {
                Err(NoChild)
            } else {
                match status {
                    Some(code) => Ok(Some(code == 0)),
                    None => Ok(None),
                }
            }),
            final(self).child_held == (old(self).child_held && status is None),
            final(self).pty_disconnected == old(self).pty_disconnected,
            final(self).shutdown_started == old(self).shutdown_started,
            final(self).model() == old(self).model(),
            final(self).callbacks() == old(self).callbacks(),
            final(self).same_sizes(old(self)),
            final(self).same_counts(old(self)),
    {
        if !self.child_held {
            return Err(NoChild);
        }
        match status {
            Some(code) => {
                self.child_held = false;
                Ok(Some(code == 0))
            },
            None => Ok(None),
        }
    }

    /// Ends the terminal, and says what that takes: it is closed once, and a child
    /// that is held is killed.
    pub fn shutdown(&mut self) -> (r: ShutdownStep)
        ensures
            r == (ShutdownStep {
                close: !old(self).shutdown_started,
                kill: !old(self).shutdown_started && old(self).child_held,
            }),
            final(self).shutdown_started,
            final(self).pty_disconnected == (old(self).pty_disconnected || !old(
                self,
            ).shutdown_started),
            final(self).child_held == (old(self).child_held && old(self).shutdown_started),
            final(self).model() == old(self).model(),
            final(self).callbacks() == old(self).callbacks(),
            final(self).same_sizes(old(self)),
            final(self).same_counts(old(self)),
    {
        if self.shutdown_started {
            return ShutdownStep { close: false, kill: false };
        }
        self.shutdown_started = true;
        self.pty_disconnected = true;
        let kill = self.child_held;
        self.child_held = false;
        ShutdownStep { close: true, kill }
    }
}

/// There is no child to ask.
#[derive(Clone, Copy, Debug, PartialEq, Eq, Structural)]
pub struct NoChild;

/// A runtime after a step towards a size: the screen has it, and the child is told
/// unless it knows.
pub open spec fn resized(
    before: TerminalRuntime,
    wanted: PtyDimensions,
    after: TerminalRuntime,
    step: ResizeStep,
) -> bool {
    &&& after.model() == (if before.last_parser_size == (wanted.cols, wanted.rows) {
        before.model()
    } else {
        before.model().reflowed(Size { rows: wanted.rows, cols: wanted.cols })
    })
    &&& after.last_parser_size == (wanted.cols, wanted.rows)
    &&& after.last_pty_size == before.last_pty_size
    &&& after.callbacks() == before.callbacks()
    &&& after.same_state(&before)
    &&& after.same_counts(&before)
    &&& if before.last_pty_size == wanted {
        step == ResizeStep::Applied && after.pending_resize is None
    } else {
        step == ResizeStep::Notify(wanted) && after.pending_resize == Some(wanted)
    }
}

/// Hands a notice to those who listen for the terminal.
fn hear(callbacks: &mut TerminalParserCallbacks, screen: &mut Screen, notice: &Notice)
    requires
        old(screen)@.wf(),
    ensures
        final(callbacks)@ == old(callbacks)@.heard(old(screen)@, notice@),
        final(screen)@ == old(screen)@,
{
    match notice {
        Notice::Csi(first, second, params, c) => {
            let borrowed = crate::ratty_vt::callbacks::borrow_params(params);
            assert(slices_view(borrowed@) =~= params_view(params@));
            callbacks.unhandled_csi(screen, *first, *second, borrowed.as_slice(), *c)
        },
        Notice::Escape(first, second, b) => callbacks.unhandled_escape(screen, *first, *second, *b),
        _ => {},
    }
}

/// How much output waits to be taken in.
#[derive(Clone, Copy, Debug, PartialEq, Eq, Structural)]
pub struct QueueMetrics {
    pub outstanding: usize,
    pub peak: usize,
}

/// Chunks that the output channel holds.
pub const PTY_CHANNEL_CHUNKS: usize = 16;
/// Size of each chunk, in bytes.
pub const PTY_CHUNK_BYTES: usize = 16_384;
/// The most bytes that are ever counted as waiting: the channel, one blocked send,
/// and one chunk between receipt and decrement.
pub const PTY_QUEUE_ACCOUNTING_BOUND: usize = 294_912;

impl Default for QueueMetrics {
    fn default() -> (r: Self)
        ensures
            r == (QueueMetrics { outstanding: 0, peak: 0 }),
    {
        QueueMetrics { outstanding: 0, peak: 0 }
    }
}

impl QueueMetrics {
    /// A chunk is about to be sent.
    pub fn sent(&mut self, size: usize)
        requires
            old(self).outstanding + size <= usize::MAX,
        ensures
            final(self).outstanding == old(self).outstanding + size,
            final(self).peak == (if final(self).outstanding > old(self).peak {
                final(self).outstanding
            } else {
                old(self).peak
            }),
    {
        self.outstanding = self.outstanding + size;
        if self.outstanding > self.peak {
            self.peak = self.outstanding;
        }
    }

    /// A chunk was received, or could not be sent after all.
    pub fn received(&mut self, size: usize)
        requires
            size <= old(self).outstanding,
        ensures
            final(self).outstanding == old(self).outstanding - size,
            final(self).peak == old(self).peak,
    {
        self.outstanding = self.outstanding - size;
    }

    /// The bytes that wait now, and the most that ever did.
    pub fn queued_bytes(&self) -> (r: (usize, usize))
        ensures
            r.0 == self.outstanding,
            r.1 == (if self.peak < self.outstanding {
                self.outstanding
            } else {
                self.peak
            }),
    {
        (
            self.outstanding,
            if self.peak < self.outstanding {
                self.outstanding
            } else {
                self.peak
            },
        )
    }
}

/// Command-line runtime overrides.
#[derive(Debug)]
pub struct RuntimeOptions {
    /// Command and arguments to execute instead of the configured shell.
    pub command: Option<Vec<String>>,
    /// Working directory used for the spawned command.
    pub working_dir: Option<String>,
}

impl Default for RuntimeOptions {
    fn default() -> (r: Self)
        ensures
            r.command is None,
            r.working_dir is None,
    {
        RuntimeOptions { command: None, working_dir: None }
    }
}

/// The shell where none is configured.
pub const DEFAULT_SHELL: &'static str = "/bin/sh";

/// A program and its arguments.
#[derive(Debug)]
pub struct CommandLine {
    pub program: String,
    pub args: Vec<String>,
}

/// A command override must contain at least one argument.
#[derive(Clone, Copy, Debug, PartialEq, Eq, Structural)]
pub struct EmptyCommand;

/// The shell to run: the configured one, that of the user, or the default one.
pub open spec fn shell_program(configured: Option<Seq<char>>, users: Option<Seq<char>>) -> Seq<
    char,
> {
    match (configured, users) {
        (Some(program), _) => program,
        (None, Some(program)) => program,
        (None, None) => DEFAULT_SHELL@,
    }
}

pub open spec fn option_text(text: Option<String>) -> Option<Seq<char>> {
    match text {
        Some(text) => Some(text@),
        None => None,
    }
}

fn copy_texts(texts: &Vec<String>, from: usize) -> (r: Vec<String>)
    requires
        from <= texts@.len(),
    ensures
        texts_view(r@) == texts_view(texts@).subrange(from as int, texts@.len() as int),
{
    let mut r: Vec<String> = Vec::new();
    let mut i: usize = from;
    while i < texts.len()
        invariant
            from <= i <= texts@.len(),
            r@.len() == i - from,
            forall|k: int| 0 <= k < r@.len() ==> (#[trigger] r@[k])@ == texts@[from + k]@,
        decreases texts@.len() - i,
    {
        r.push(texts[i].as_str().to_string());
        i = i + 1;
    }
    assert(texts_view(r@) =~= texts_view(texts@).subrange(from as int, texts@.len() as int));
    r
}

/// The program to run in a terminal: what the options give, or a shell.
pub fn command_line(options: &RuntimeOptions, shell: &ShellConfig, users_shell: Option<String>) -> (r:
    Result<CommandLine, EmptyCommand>)
    ensures
        match options.command {
            Some(command) => if command@.len() == 0 {
                r is Err
            } else {
                r matches Ok(line) && line.program@ == command@[0]@ && texts_view(line.args@)
                    == texts_view(command@).subrange(1, command@.len() as int)
            },
            None => r matches Ok(line) && line.program@ == shell_program(
                option_text(shell.program),
                option_text(users_shell),
            ) && texts_view(line.args@) == texts_view(shell.args@),
        },
{
    match &options.command {
        Some(command) => {
            if command.len() == 0 {
                return Err(EmptyCommand);
            }
            Ok(
                CommandLine {
                    program: command[0].as_str().to_string(),
                    args: copy_texts(command, 1),
                },
            )
        },
        None => {
            let program = match &shell.program {
                Some(program) => program.as_str().to_string(),
                None => match users_shell {
                    Some(program) => program,
                    None => DEFAULT_SHELL.to_string(),
                },
            };
            let args = copy_texts(&shell.args, 0);
            assert(texts_view(args@) =~= texts_view(shell.args@));
            Ok(CommandLine { program, args })
        },
    }
}

/// Names and values, as sequences.
pub open spec fn pairs_view(pairs: Seq<(String, String)>) -> Seq<(Seq<char>, Seq<char>)> {
    Seq::new(pairs.len(), |i: int| (pairs[i].0@, pairs[i].1@))
}

/// Whether a name is among some pairs.
pub open spec fn names(pairs: Seq<(String, String)>, name: Seq<char>) -> bool {
    exists|i: int| 0 <= i < pairs.len() && (#[trigger] pairs[i]).0@ == name
}

/// The environment of the child: what is configured, and the kind of this terminal
/// where that is not.
pub fn environment(configured: &Vec<(String, String)>) -> (r: Vec<(String, String)>)
    ensures
        pairs_view(r@) == (if names(configured@, "TERM"@) {
            pairs_view(configured@)
        } else {
            seq![("TERM"@, "xterm-256color"@)] + pairs_view(configured@)
        }),
{
    let mut named = false;
    let mut i: usize = 0;
    while i < configured.len()
        invariant
            i <= configured@.len(),
            named == (exists|k: int| 0 <= k < i && (#[trigger] configured@[k]).0@ == "TERM"@),
        decreases configured@.len() - i,
    {
        if same_text(configured[i].0.as_str(), "TERM") {
            named = true;
        }
        i = i + 1;
    }
    let mut r: Vec<(String, String)> = Vec::new();
    if !named {
        r.push(("TERM".to_string(), "xterm-256color".to_string()));
    }
    let ghost start = pairs_view(r@);
    let mut i: usize = 0;
    assert(pairs_view(r@) =~= start + pairs_view(configured@.take(0)));
    while i < configured.len()
        invariant
            i <= configured@.len(),
            pairs_view(r@) == start + pairs_view(configured@.take(i as int)),
        decreases configured@.len() - i,
    {
        let ghost before = pairs_view(r@);
        r.push((configured[i].0.as_str().to_string(), configured[i].1.as_str().to_string()));
        assert(pairs_view(r@) =~= before.push((configured@[i as int].0@, configured@[i as int].1@)));
        assert(pairs_view(configured@.take(i + 1)) =~= pairs_view(configured@.take(i as int)).push(
            (configured@[i as int].0@, configured@[i as int].1@),
        ));
        assert(pairs_view(r@) =~= start + pairs_view(configured@.take(i + 1)));
        i = i + 1;
    }
    assert(configured@.take(i as int) =~= configured@);
    assert(!named ==> start =~= seq![("TERM"@, "xterm-256color"@)]);
    assert(named ==> start + pairs_view(configured@) =~= pairs_view(configured@));
    r
}

/// A size that was asked for is not forgotten before the child was told: it stays
/// pending until then, whatever is retried, and the screen has it from the start.
pub proof fn law_sizes_stay_pending_until_told(
    before: TerminalRuntime,
    wanted: PtyDimensions,
    after: TerminalRuntime,
    step: ResizeStep,
    later: TerminalRuntime,
    retried: ResizeStep,
)
    requires
        resized(before, wanted, after, step),
        step is Notify,
        resized(after, wanted, later, retried),
    ensures
        after.pending_resize == Some(wanted),
        retried == ResizeStep::Notify(wanted),
        later.pending_resize == Some(wanted),
        later.model() == after.model(),
{
}

} // verus!

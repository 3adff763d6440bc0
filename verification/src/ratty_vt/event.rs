//! What the escape sequence parser `vte` makes of the bytes it is fed.

use crate::ratty_vt::screen::params_view;
use crate::ratty_vt::term::push_bytes;
use vstd::prelude::*;
use vte::Parser as VteParser;

verus! {

/// One thing that a terminal byte stream asks for.
#[derive(Debug)]
pub enum Event {
    /// Print a character.
    Print(char),
    /// Execute a control function.
    Execute(u8),
    /// An escape sequence: its intermediates and its final byte.
    Esc(Vec<u8>, u8),
    /// A control sequence: its parameters, intermediates and final character.
    Csi(Vec<Vec<u16>>, Vec<u8>, char),
    /// An operating system command: its parameters.
    Osc(Vec<Vec<u8>>),
}

/// What an event asks for.
pub enum EventModel {
    Print(char),
    Execute(u8),
    Esc(Seq<u8>, u8),
    Csi(Seq<Seq<u16>>, Seq<u8>, char),
    Osc(Seq<Seq<u8>>),
}

/// Byte strings, as sequences.
pub open spec fn strings_view(strings: Seq<Vec<u8>>) -> Seq<Seq<u8>> {
    Seq::new(strings.len(), |i: int| strings[i]@)
}

impl View for Event {
    type V = EventModel;

    open spec fn view(&self) -> EventModel {
        match self {
            Event::Print(c) => EventModel::Print(*c),
            Event::Execute(b) => EventModel::Execute(*b),
            Event::Esc(intermediates, b) => EventModel::Esc(intermediates@, *b),
            Event::Csi(params, intermediates, c) => EventModel::Csi(
                params_view(params@),
                intermediates@,
                *c,
            ),
            Event::Osc(params) => EventModel::Osc(strings_view(params@)),
        }
    }
}

/// Events, as what they ask for.
pub open spec fn events_view(events: Seq<Event>) -> Seq<EventModel> {
    Seq::new(events.len(), |i: int| events[i]@)
}

/// The parser of `vte`.
#[verifier::external_type_specification]
#[verifier::external_body]
pub struct ExVteParser<const OSC_RAW_BUF_SIZE: usize>(VteParser<OSC_RAW_BUF_SIZE>);

/// The parameters of a control sequence, as `vte` hands them over.
#[verifier::external_type_specification]
#[verifier::external_body]
pub struct ExVteParams(vte::Params);

/// What a parser has been fed since it was made, one list of bytes for each time.
pub uninterp spec fn fed(parser: VteParser<1024>) -> Seq<Seq<u8>>;

/// The values that parameters hold, each with its parts.
pub uninterp spec fn params_held(params: vte::Params) -> Seq<Seq<u16>>;

/// The events that bytes give rise to, after what was fed before them.
pub uninterp spec fn events_in(before: Seq<Seq<u8>>, bytes: Seq<u8>) -> Seq<EventModel>;

/// The events that some lists of bytes give rise to, one after the other.
pub open spec fn events_of(before: Seq<Seq<u8>>, pieces: Seq<Seq<u8>>) -> Seq<EventModel>
    decreases pieces.len(),
{
    if pieces.len() == 0 {
        Seq::empty()
    } else {
        events_of(before, pieces.drop_last()) + events_in(before + pieces.drop_last(), pieces.last())
    }
}

/// The bytes that a character of UTF-8 takes up by its first byte; one for a byte that
/// starts none.
pub open spec fn encoded_len(first: u8) -> int {
    if 0xc2 <= first <= 0xdf {
        2
    } else if 0xe0 <= first <= 0xef {
        3
    } else if 0xf0 <= first <= 0xf4 {
        4
    } else {
        1
    }
}

/// Whether a byte goes on with a character.
pub open spec fn goes_on(byte: u8) -> bool {
    0x80 <= byte <= 0xbf
}

/// Whether the character that bytes start with is broken off: something else follows
/// before it is complete.
pub open spec fn broken_off(bytes: Seq<u8>) -> bool {
    exists|i: int| 1 <= i < encoded_len(bytes[0]) && i < bytes.len() && !goes_on(#[trigger] bytes[i])
}

/// The length of the first piece of bytes: a whole character, or one byte where there is
/// none; `None` where a character still lacks its end.
pub open spec fn piece_len(bytes: Seq<u8>) -> Option<int> {
    if broken_off(bytes) {
        Some(1)
    } else if encoded_len(bytes[0]) <= bytes.len() {
        Some(encoded_len(bytes[0]))
    } else {
        None
    }
}

/// Bytes cut into pieces, and what has to wait for the end of its character.
pub open spec fn cut(bytes: Seq<u8>) -> (Seq<Seq<u8>>, Seq<u8>)
    decreases bytes.len(),
{
    if bytes.len() == 0 {
        (Seq::empty(), Seq::empty())
    } else {
        match piece_len(bytes) {
            Some(n) => if 1 <= n <= bytes.len() {
                let (rest, waiting) = cut(bytes.skip(n));
                (seq![bytes.take(n)] + rest, waiting)
            } else {
                (Seq::empty(), bytes)
            },
            None => (Seq::empty(), bytes),
        }
    }
}

/// What was read: the pieces that were fed to the parser, and what waits for the end of its
/// character.
pub struct InputModel {
    pub pieces: Seq<Seq<u8>>,
    pub waiting: Seq<u8>,
}

impl InputModel {
    pub open spec fn nothing() -> Self {
        InputModel { pieces: Seq::empty(), waiting: Seq::empty() }
    }

    /// With more bytes read.
    pub open spec fn and(self, bytes: Seq<u8>) -> Self {
        let (pieces, waiting) = cut(self.waiting + bytes);
        InputModel { pieces: self.pieces + pieces, waiting }
    }

    /// The events that more bytes give rise to.
    pub open spec fn events(self, bytes: Seq<u8>) -> Seq<EventModel> {
        events_of(self.pieces, cut(self.waiting + bytes).0)
    }
}

proof fn lemma_piece_is_settled(bytes: Seq<u8>, more: Seq<u8>)
    requires
        bytes.len() > 0,
        piece_len(bytes) is Some,
    ensures
        piece_len(bytes + more) == piece_len(bytes),
        1 <= piece_len(bytes).unwrap() <= bytes.len(),
{
    let all = bytes + more;
    assert(all[0] == bytes[0]);
    if broken_off(bytes) {
        let i = choose|i: int|
            1 <= i < encoded_len(bytes[0]) && i < bytes.len() && !goes_on(#[trigger] bytes[i]);
        assert(all[i] == bytes[i]);
    } else if broken_off(all) {
        let i = choose|i: int|
            1 <= i < encoded_len(all[0]) && i < all.len() && !goes_on(#[trigger] all[i]);
        assert(all[i] == bytes[i]);
    }
}

/// Bytes that come in two parts are cut into the same pieces.
proof fn lemma_cut(bytes: Seq<u8>, more: Seq<u8>)
    ensures
        ({
            let (first, waiting) = cut(bytes);
            let (second, end) = cut(waiting + more);
            cut(bytes + more) == (first + second, end)
        }),
    decreases bytes.len(),
{
    let (first, waiting) = cut(bytes);
    let (second, end) = cut(waiting + more);
    if bytes.len() == 0 {
        assert(bytes + more =~= more);
        assert(waiting + more =~= more);
        assert(first + second =~= second);
    } else if piece_len(bytes) is None {
        assert(first + second =~= second);
    } else {
        let n = piece_len(bytes).unwrap();
        lemma_piece_is_settled(bytes, more);
        lemma_cut(bytes.skip(n), more);
        assert((bytes + more).skip(n) =~= bytes.skip(n) + more);
        assert((bytes + more).take(n) =~= bytes.take(n));
        let rest = cut(bytes.skip(n)).0;
        assert(seq![bytes.take(n)] + (rest + second) =~= first + second);
    }
}

proof fn lemma_events_of(before: Seq<Seq<u8>>, first: Seq<Seq<u8>>, second: Seq<Seq<u8>>)
    ensures
        events_of(before, first + second) == events_of(before, first) + events_of(
            before + first,
            second,
        ),
    decreases second.len(),
{
    if second.len() == 0 {
        assert(first + second =~= first);
        assert(events_of(before, first) =~= events_of(before, first) + Seq::<EventModel>::empty());
    } else {
        lemma_events_of(before, first, second.drop_last());
        assert((first + second).drop_last() =~= first + second.drop_last());
        assert((first + second).last() == second.last());
        assert(before + (first + second.drop_last()) =~= before + first + second.drop_last());
        let last = events_in(before + first + second.drop_last(), second.last());
        assert(events_of(before, first) + events_of(before + first, second.drop_last()) + last
            =~= events_of(before, first) + (events_of(before + first, second.drop_last()) + last));
    }
}

/// Bytes give rise to the same events however they are split up, also inside a character.
pub proof fn law_events_do_not_depend_on_splits(input: InputModel, first: Seq<u8>, second: Seq<u8>)
    ensures
        input.events(first + second) == input.events(first) + input.and(first).events(second),
        input.and(first + second) == input.and(first).and(second),
{
    lemma_cut(input.waiting + first, second);
    assert(input.waiting + (first + second) =~= input.waiting + first + second);
    let (pieces, waiting) = cut(input.waiting + first);
    let (more, end) = cut(waiting + second);
    lemma_events_of(input.pieces, pieces, more);
    assert(input.pieces + (pieces + more) =~= input.pieces + pieces + more);
}

/// The length of the first piece of the bytes from a place on.
pub(crate) fn find_piece(bytes: &Vec<u8>, from: usize) -> (r: Option<usize>)
    requires
        from < bytes@.len(),
    ensures
        match r {
            Some(n) => piece_len(bytes@.skip(from as int)) == Some(n as int) && 1 <= n
                <= bytes@.len() - from,
            None => piece_len(bytes@.skip(from as int)) is None,
        },
{
    let ghost rest = bytes@.skip(from as int);
    let first: u8 = bytes[from];
    let len: usize = if 0xc2 <= first && first <= 0xdf {
        2
    } else if 0xe0 <= first && first <= 0xef {
        3
    } else if 0xf0 <= first && first <= 0xf4 {
        4
    } else {
        1
    };
    assert(rest[0] == first && len == encoded_len(rest[0]));
    let mut i: usize = 1;
    while i < len && i < bytes.len() - from
        invariant
            1 <= i,
            from < bytes@.len(),
            rest == bytes@.skip(from as int),
            len == encoded_len(rest[0]),
            forall|k: int| 1 <= k < i ==> goes_on(#[trigger] rest[k]),
        decreases len - i,
    {
        let byte: u8 = bytes[from + i];
        assert(rest[i as int] == byte);
        if byte < 0x80 || 0xbf < byte {
            assert(broken_off(rest));
            return Some(1);
        }
        i = i + 1;
    }
    assert(!broken_off(rest)) by {
        if broken_off(rest) {
            let k = choose|k: int|
                1 <= k < encoded_len(rest[0]) && k < rest.len() && !goes_on(#[trigger] rest[k]);
            assert(goes_on(rest[k]));
        }
    }
    if len <= bytes.len() - from {
        Some(len)
    } else {
        None
    }
}

/// Keeps the events that a parser reports, in order.
pub struct EventLog {
    pub events: Vec<Event>,
}

/// Copies the parameters out, by `Params::iter`: one list of parts each.
#[verifier::external_body]
fn copy_params(params: &vte::Params) -> (r: Vec<Vec<u16>>)
    ensures
        params_view(r@) == params_held(*params),
{
    params.iter().map(|param| param.to_vec()).collect()
}

fn copy_bytes(bytes: &[u8]) -> (r: Vec<u8>)
    ensures
        r@ == bytes@,
{
    let mut r: Vec<u8> = Vec::new();
    push_bytes(&mut r, bytes);
    assert(r@ =~= bytes@);
    r
}

/// Every report of the parser becomes one event.
impl vte::Perform for EventLog {
    fn print(&mut self, c: char)
        ensures
            events_view(final(self).events@) == events_view(old(self).events@).push(
                EventModel::Print(c),
            ),
    {
        self.log(Event::Print(c));
    }

    fn execute(&mut self, byte: u8)
        ensures
            events_view(final(self).events@) == events_view(old(self).events@).push(
                EventModel::Execute(byte),
            ),
    {
        self.log(Event::Execute(byte));
    }

    fn esc_dispatch(&mut self, intermediates: &[u8], _ignore: bool, byte: u8)
        ensures
            events_view(final(self).events@) == events_view(old(self).events@).push(
                EventModel::Esc(intermediates@, byte),
            ),
    {
        self.log(Event::Esc(copy_bytes(intermediates), byte));
    }

    fn csi_dispatch(
        &mut self,
        params: &vte::Params,
        intermediates: &[u8],
        _ignore: bool,
        action: char,
    )
        ensures
            events_view(final(self).events@) == events_view(old(self).events@).push(
                EventModel::Csi(params_held(*params), intermediates@, action),
            ),
    {
        self.log(Event::Csi(copy_params(params), copy_bytes(intermediates), action));
    }

    fn osc_dispatch(&mut self, params: &[&[u8]], _bell_terminated: bool)
        ensures
            events_view(final(self).events@) == events_view(old(self).events@).push(
                EventModel::Osc(Seq::new(params@.len(), |i: int| params@[i]@)),
            ),
    {
        let mut copies: Vec<Vec<u8>> = Vec::new();
        let mut i: usize = 0;
        while i < params.len()
            invariant
                i <= params@.len(),
                copies@.len() == i,
                forall|k: int| 0 <= k < i ==> (#[trigger] copies@[k])@ == params@[k]@,
            decreases params@.len() - i,
        {
            copies.push(copy_bytes(params[i]));
            i = i + 1;
        }
        assert(strings_view(copies@) =~= Seq::new(params@.len(), |i: int| params@[i]@));
        self.log(Event::Osc(copies));
    }
}

impl EventLog {
    fn log(&mut self, event: Event)
        ensures
            events_view(final(self).events@) == events_view(old(self).events@).push(event@),
    {
        self.events.push(event);
        assert(events_view(self.events@) =~= events_view(old(self).events@).push(event@));
    }
}

/// `vte::Parser::new` makes a parser that has been fed nothing.
#[verifier::external_body]
pub(crate) fn new_parser() -> (parser: VteParser<1024>)
    ensures
        fed(parser) == Seq::<Seq<u8>>::empty(),
{
    VteParser::new()
}

/// Feeds bytes to a parser, by `Parser::advance`, and returns what it reports, in
/// order. A parser has no input but what it is fed, so what it reports follows from all
/// of that.
#[verifier::external_body]
pub(crate) fn feed(parser: &mut VteParser<1024>, bytes: &[u8]) -> (events: Vec<Event>)
    ensures
        fed(*final(parser)) == fed(*old(parser)).push(bytes@),
        events_view(events@) == events_in(fed(*old(parser)), bytes@),
{
    let mut log = EventLog { events: Vec::new() };
    parser.advance(&mut log, bytes);
    log.events
}

} // verus!

//! Inline object state, and the graphics sequences in terminal output.

use crate::camera::{OptionalVec3, TerminalCameraUpdate};
use crate::kitty::{
    back_to_front, views_equal, ImageModel, ImagesModel, KittyGraphics, KittyPlacementView,
    PendingImage,
};
use crate::ratty_vt::term::push_bytes;
use crate::rgp::{
    consume_sequence, content_of, operation_in, option_color, option_text, option_texts, parts_read,
    support_answer, support_reply, texts, OperationModel, RgpOperation, RgpPlacementStyle,
    RgpCameraSettings, RgpPlacementUpdate, RgpRegisterSource, SourceModel, StyleModel, UpdateModel, RGP_APC_START,
    RGP_NUMBERS,
};
use crate::runtime::TerminalRuntime;
use crate::table::IdTable;
use crate::text::{chars_of, pieces, spells};
use vstd::prelude::*;
use vstd::slice::slice_subrange;
use vstd::utf8::{decode_utf8, encode_utf8};

verus! {

/// Longest unterminated sequence held back from the engine. Past this, the
/// bytes are almost certainly not a real message (chunked payloads stay far
/// smaller), so they flow through rather than freezing the screen.
pub const RGP_MAX_PENDING: usize = 8_388_608;

// Finding sequences in output.

/// Where the next possible sequence starts.
#[derive(Debug, Clone, Copy, PartialEq, Eq, Structural)]
pub enum RgpScan {
    /// No prefix of a sequence anywhere: everything can flow through.
    Absent,
    /// The output ends within a prefix; bytes from here must wait for more.
    Partial(usize),
    /// A whole prefix starts here.
    Complete(usize),
}

pub enum ScanModel {
    Absent,
    Partial(int),
    Complete(int),
}

pub open spec fn scan_view(scan: RgpScan) -> ScanModel {
    match scan {
        RgpScan::Absent => ScanModel::Absent,
        RgpScan::Partial(start) => ScanModel::Partial(start as int),
        RgpScan::Complete(start) => ScanModel::Complete(start as int),
    }
}

/// What every sequence starts with.
pub open spec fn sequence_start() -> Seq<u8> {
    encode_utf8(RGP_APC_START@)
}

/// Whether the bytes from an index on are a sequence's start, as far as they
/// reach.
pub open spec fn may_start(bytes: Seq<u8>, at: int) -> bool {
    let rest = bytes.subrange(at, bytes.len() as int);
    rest.is_prefix_of(sequence_start()) || sequence_start().is_prefix_of(rest)
}

/// The next escape character from which a sequence may start.
pub open spec fn candidate(bytes: Seq<u8>, from: int) -> ScanModel
    decreases bytes.len() - from,
{
    if from < 0 || from >= bytes.len() {
        ScanModel::Absent
    } else if bytes[from] == 0x1b && may_start(bytes, from) {
        if bytes.len() - from < sequence_start().len() {
            ScanModel::Partial(from)
        } else {
            ScanModel::Complete(from)
        }
    } else {
        candidate(bytes, from + 1)
    }
}

/// The end of a sequence: after the first terminator from an index on.
pub open spec fn terminated(bytes: Seq<u8>, from: int) -> Option<int>
    decreases bytes.len() - from,
{
    if from < 0 || from >= bytes.len() {
        None
    } else if bytes[from] == 0x9c {
        Some(from + 1)
    } else if from + 1 < bytes.len() && bytes[from] == 0x1b && bytes[from + 1] == 0x5c {
        Some(from + 2)
    } else {
        terminated(bytes, from + 1)
    }
}

proof fn lemma_candidate(bytes: Seq<u8>, from: int)
    requires
        0 <= from <= bytes.len(),
    ensures
        match candidate(bytes, from) {
            ScanModel::Absent => true,
            ScanModel::Partial(start) => from <= start < bytes.len() && bytes.len() - start
                < sequence_start().len(),
            ScanModel::Complete(start) => from <= start < bytes.len() && sequence_start().len()
                <= bytes.len() - start,
        },
    decreases bytes.len() - from,
{
    if from < bytes.len() && !(bytes[from] == 0x1b && may_start(bytes, from)) {
        lemma_candidate(bytes, from + 1);
    }
}

proof fn lemma_terminated(bytes: Seq<u8>, from: int)
    requires
        0 <= from,
    ensures
        terminated(bytes, from) matches Some(end) ==> from < end <= bytes.len(),
    decreases bytes.len() - from,
{
    if from < bytes.len() && bytes[from] != 0x9c && !(from + 1 < bytes.len() && bytes[from] == 0x1b
        && bytes[from + 1] == 0x5c) {
        lemma_terminated(bytes, from + 1);
    }
}

proof fn lemma_sequence_start()
    ensures
        sequence_start().len() == 10,
{
    reveal_strlit("\x1b_ratty;g;");
    let text = "\x1b_ratty;g;"@;
    assert(text.len() == 10);
    vstd::utf8::is_ascii_chars_encode_utf8(text);
    assert(vstd::utf8::is_ascii_chars(text));
}

fn matches_start(bytes: &Vec<u8>, at: usize) -> (r: bool)
    requires
        at < bytes@.len(),
    ensures
        r == may_start(bytes@, at as int),
{
    let start = RGP_APC_START.as_bytes();
    let len: usize = bytes.len();
    let available: usize = len - at;
    let compare: usize = if available < start.len() { available } else { start.len() };
    let ghost rest = bytes@.subrange(at as int, bytes@.len() as int);
    let mut i: usize = 0;
    while i < compare
        invariant
            i <= compare <= start@.len(),
            at + compare <= len == bytes@.len(),
            start@ == sequence_start(),
            rest == bytes@.subrange(at as int, bytes@.len() as int),
            compare == start@.len() || compare == rest.len(),
            forall|k: int| 0 <= k < i ==> rest[k] == start@[k],
        decreases compare - i,
    {
        if bytes[at + i] != start[i] {
            proof {
                assert(rest[i as int] != start@[i as int]);
                if rest.is_prefix_of(start@) {
                    assert(rest[i as int] == start@.subrange(0, rest.len() as int)[i as int]);
                }
                if start@.is_prefix_of(rest) {
                    assert(start@[i as int] == rest.subrange(0, start@.len() as int)[i as int]);
                }
            }
            return false;
        }
        i = i + 1;
    }
    proof {
        if compare == rest.len() {
            assert(rest =~= start@.subrange(0, rest.len() as int));
        } else {
            assert(start@ =~= rest.subrange(0, start@.len() as int));
        }
    }
    true
}

/// Scans for the next position from which the bytes match the start of a
/// sequence, as far as they reach.
pub fn next_rgp_candidate(bytes: &Vec<u8>, from: usize) -> (r: RgpScan)
    requires
        from <= bytes@.len(),
    ensures
        scan_view(r) == candidate(bytes@, from as int),
{
    let mut index: usize = from;
    while index < bytes.len()
        invariant
            from <= index <= bytes@.len(),
            candidate(bytes@, index as int) == candidate(bytes@, from as int),
        decreases bytes@.len() - index,
    {
        if bytes[index] == 0x1b && matches_start(bytes, index) {
            let start = RGP_APC_START.as_bytes();
            if bytes.len() - index < start.len() {
                return RgpScan::Partial(index);
            }
            return RgpScan::Complete(index);
        }
        index = index + 1;
    }
    RgpScan::Absent
}

/// The end of a sequence: after the first terminator from an index on.
pub fn apc_end(bytes: &Vec<u8>, payload_start: usize) -> (r: Option<usize>)
    ensures
        match r {
            Some(end) => terminated(bytes@, payload_start as int) == Some(end as int),
            None => terminated(bytes@, payload_start as int) is None,
        },
{
    let mut index: usize = payload_start;
    let len: usize = bytes.len();
    while index < len
        invariant
            payload_start <= index,
            len == bytes@.len(),
            terminated(bytes@, index as int) == terminated(bytes@, payload_start as int),
        decreases len - index,
    {
        if bytes[index] == 0x9c {
            return Some(index + 1);
        }
        if index + 1 < len && bytes[index] == 0x1b && bytes[index + 1] == 0x5c {
            return Some(index + 2);
        }
        index = index + 1;
    }
    None
}

/// A piece of output.
#[derive(Debug)]
pub enum OutputPiece {
    /// Bytes for the terminal engine.
    Engine(Vec<u8>),
    /// A whole graphics sequence.
    Sequence(Vec<u8>),
}

pub enum PieceModel {
    Engine(Seq<u8>),
    Sequence(Seq<u8>),
}

impl View for OutputPiece {
    type V = PieceModel;

    open spec fn view(&self) -> PieceModel {
        match self {
            OutputPiece::Engine(bytes) => PieceModel::Engine(bytes@),
            OutputPiece::Sequence(bytes) => PieceModel::Sequence(bytes@),
        }
    }
}

pub open spec fn pieces_view(pieces: Seq<OutputPiece>) -> Seq<PieceModel> {
    Seq::new(pieces.len(), |i: int| pieces[i]@)
}

/// Bytes for the engine, if there are any.
pub open spec fn for_engine(bytes: Seq<u8>) -> Seq<PieceModel> {
    if bytes.len() > 0 {
        seq![PieceModel::Engine(bytes)]
    } else {
        Seq::empty()
    }
}

/// Output taken apart, from an index on: the pieces, and what has to wait for
/// more.
pub open spec fn taken_apart(bytes: Seq<u8>, cursor: int) -> (Seq<PieceModel>, Seq<u8>)
    decreases bytes.len() - cursor via taken_apart_decreases
{
    let end = bytes.len() as int;
    if cursor < 0 || cursor > end {
        (Seq::empty(), Seq::empty())
    } else {
        match candidate(bytes, cursor) {
            ScanModel::Absent => (for_engine(bytes.subrange(cursor, end)), Seq::empty()),
            ScanModel::Partial(start) => (
                for_engine(bytes.subrange(cursor, start)),
                bytes.subrange(start, end),
            ),
            ScanModel::Complete(start) => {
                let before = for_engine(bytes.subrange(cursor, start));
                match terminated(bytes, start + sequence_start().len()) {
                    Some(stop) => {
                        let (rest, waiting) = taken_apart(bytes, stop);
                        (
                            before + seq![PieceModel::Sequence(bytes.subrange(start, stop))] + rest,
                            waiting,
                        )
                    },
                    None => if end - start > RGP_MAX_PENDING {
                        (before + for_engine(bytes.subrange(start, end)), Seq::empty())
                    } else {
                        (before, bytes.subrange(start, end))
                    },
                }
            },
        }
    }
}

#[via_fn]
proof fn taken_apart_decreases(bytes: Seq<u8>, cursor: int) {
    if 0 <= cursor <= bytes.len() {
        lemma_candidate(bytes, cursor);
        match candidate(bytes, cursor) {
            ScanModel::Complete(start) => {
                lemma_terminated(bytes, start + sequence_start().len() as int);
            },
            _ => {},
        }
    }
}

/// The bytes of a piece.
pub open spec fn piece_bytes(piece: PieceModel) -> Seq<u8> {
    match piece {
        PieceModel::Engine(bytes) => bytes,
        PieceModel::Sequence(bytes) => bytes,
    }
}

/// The bytes of some pieces, one after the other.
pub open spec fn all_bytes(pieces: Seq<PieceModel>) -> Seq<u8>
    decreases pieces.len(),
{
    if pieces.len() == 0 {
        Seq::empty()
    } else {
        all_bytes(pieces.drop_last()) + piece_bytes(pieces.last())
    }
}

proof fn lemma_all_bytes(a: Seq<PieceModel>, b: Seq<PieceModel>)
    ensures
        all_bytes(a + b) == all_bytes(a) + all_bytes(b),
    decreases b.len(),
{
    if b.len() == 0 {
        assert(a + b =~= a);
        assert(all_bytes(a) + all_bytes(b) =~= all_bytes(a));
    } else {
        lemma_all_bytes(a, b.drop_last());
        assert((a + b).drop_last() =~= a + b.drop_last());
        assert((a + b).last() == b.last());
        assert(all_bytes(a + b) =~= all_bytes(a) + all_bytes(b));
    }
}

proof fn lemma_for_engine(bytes: Seq<u8>)
    ensures
        all_bytes(for_engine(bytes)) == bytes,
{
    reveal_with_fuel(all_bytes, 2);
    if bytes.len() > 0 {
        let pieces = seq![PieceModel::Engine(bytes)];
        assert(pieces.drop_last().len() == 0);
        assert(pieces.last() == PieceModel::Engine(bytes));
        assert(all_bytes(pieces) =~= bytes);
    } else {
        assert(all_bytes(for_engine(bytes)) =~= bytes);
    }
}

/// Nothing is swallowed: the pieces of some output and what has to wait make up
/// the output.
pub proof fn law_nothing_is_swallowed(bytes: Seq<u8>, cursor: int)
    requires
        0 <= cursor <= bytes.len(),
    ensures
        all_bytes(taken_apart(bytes, cursor).0) + taken_apart(bytes, cursor).1 == bytes.subrange(
            cursor,
            bytes.len() as int,
        ),
    decreases bytes.len() - cursor,
{
    let end = bytes.len() as int;
    lemma_candidate(bytes, cursor);
    match candidate(bytes, cursor) {
        ScanModel::Absent => {
            lemma_for_engine(bytes.subrange(cursor, end));
        },
        ScanModel::Partial(start) => {
            lemma_for_engine(bytes.subrange(cursor, start));
        },
        ScanModel::Complete(start) => {
            let before = for_engine(bytes.subrange(cursor, start));
            lemma_for_engine(bytes.subrange(cursor, start));
            lemma_terminated(bytes, start + sequence_start().len() as int);
            match terminated(bytes, start + sequence_start().len()) {
                Some(stop) => {
                    law_nothing_is_swallowed(bytes, stop);
                    let middle = seq![PieceModel::Sequence(bytes.subrange(start, stop))];
                    let (rest, waiting) = taken_apart(bytes, stop);
                    lemma_all_bytes(before, middle);
                    lemma_all_bytes(before + middle, rest);
                    reveal_with_fuel(all_bytes, 2);
                    assert(middle.drop_last().len() == 0);
                    assert(all_bytes(middle) =~= bytes.subrange(start, stop));
                    assert(all_bytes(before + middle + rest) + waiting =~= bytes.subrange(
                        cursor,
                        start,
                    ) + bytes.subrange(start, stop) + (all_bytes(rest) + waiting));
                },
                None => {
                    lemma_for_engine(bytes.subrange(start, end));
                    lemma_all_bytes(before, for_engine(bytes.subrange(start, end)));
                },
            }
        },
    }
    assert(all_bytes(taken_apart(bytes, cursor).0) + taken_apart(bytes, cursor).1 =~= bytes.subrange(
        cursor,
        end,
    ));
}

/// What has to wait is bounded: a runaway stream cannot freeze the display.
pub proof fn law_waiting_output_is_bounded(bytes: Seq<u8>, cursor: int)
    requires
        0 <= cursor <= bytes.len(),
    ensures
        taken_apart(bytes, cursor).1.len() <= RGP_MAX_PENDING,
    decreases bytes.len() - cursor,
{
    lemma_sequence_start();
    lemma_candidate(bytes, cursor);
    match candidate(bytes, cursor) {
        ScanModel::Complete(start) => {
            lemma_terminated(bytes, start + sequence_start().len() as int);
            match terminated(bytes, start + sequence_start().len()) {
                Some(stop) => {
                    law_waiting_output_is_bounded(bytes, stop);
                },
                None => {},
            }
        },
        _ => {},
    }
}

/// Output without an escape character flows through at once.
pub proof fn law_plain_output_flows_through(bytes: Seq<u8>)
    requires
        forall|i: int| 0 <= i < bytes.len() ==> bytes[i] != 0x1b,
    ensures
        taken_apart(bytes, 0) == (for_engine(bytes), Seq::<u8>::empty()),
{
    lemma_no_candidate(bytes, 0);
    assert(bytes.subrange(0, bytes.len() as int) =~= bytes);
}

proof fn lemma_no_candidate(bytes: Seq<u8>, from: int)
    requires
        0 <= from,
        forall|i: int| 0 <= i < bytes.len() ==> bytes[i] != 0x1b,
    ensures
        candidate(bytes, from) == ScanModel::Absent,
    decreases bytes.len() - from,
{
    if from < bytes.len() {
        lemma_no_candidate(bytes, from + 1);
    }
}

/// Takes terminal output apart as it arrives.
#[derive(Debug)]
pub struct OutputFilter {
    pub pending: Vec<u8>,
}

fn copy_part(bytes: &Vec<u8>, start: usize, end: usize) -> (r: Vec<u8>)
    requires
        start <= end <= bytes@.len(),
    ensures
        r@ == bytes@.subrange(start as int, end as int),
{
    let mut r: Vec<u8> = Vec::new();
    push_bytes(&mut r, slice_subrange(bytes.as_slice(), start, end));
    assert(r@ =~= bytes@.subrange(start as int, end as int));
    r
}

fn push_engine(pieces: &mut Vec<OutputPiece>, bytes: &Vec<u8>, start: usize, end: usize)
    requires
        start <= end <= bytes@.len(),
    ensures
        pieces_view(final(pieces)@) == pieces_view(old(pieces)@) + for_engine(
            bytes@.subrange(start as int, end as int),
        ),
{
    if start < end {
        pieces.push(OutputPiece::Engine(copy_part(bytes, start, end)));
    }
    assert(pieces_view(pieces@) =~= pieces_view(old(pieces)@) + for_engine(
        bytes@.subrange(start as int, end as int),
    ));
}

impl OutputFilter {
    pub fn new() -> (r: Self)
        ensures
            r.pending@.len() == 0,
    {
        OutputFilter { pending: Vec::new() }
    }

    /// Takes more output, together with what had to wait, apart. Everything but
    /// the start of a graphics sequence flows on at once.
    pub fn take(&mut self, chunk: &[u8]) -> (pieces: Vec<OutputPiece>)
        ensures
            ({
                let (expected, waiting) = taken_apart(old(self).pending@ + chunk@, 0);
                pieces_view(pieces@) == expected && final(self).pending@ == waiting
            }),
    {
        push_bytes(&mut self.pending, chunk);
        let ghost bytes = self.pending@;
        let ghost goal = taken_apart(bytes, 0);
        let mut pieces: Vec<OutputPiece> = Vec::new();
        let mut cursor: usize = 0;
        let len: usize = self.pending.len();
        assert(pieces_view(pieces@) + taken_apart(bytes, 0).0 =~= goal.0);
        loop
            invariant
                cursor <= len,
                len == self.pending@.len(),
                bytes == self.pending@,
                bytes == old(self).pending@ + chunk@,
                goal == taken_apart(bytes, 0),
                pieces_view(pieces@) + taken_apart(bytes, cursor as int).0 == goal.0,
                taken_apart(bytes, cursor as int).1 == goal.1,
            decreases len - cursor,
        {
            proof {
                lemma_candidate(bytes, cursor as int);
                lemma_sequence_start();
            }
            let start: usize = match next_rgp_candidate(&self.pending, cursor) {
                RgpScan::Absent => {
                    push_engine(&mut pieces, &self.pending, cursor, len);
                    self.pending.clear();
                    return pieces;
                },
                RgpScan::Partial(start) => {
                    push_engine(&mut pieces, &self.pending, cursor, start);
                    let rest = copy_part(&self.pending, start, len);
                    self.pending = rest;
                    return pieces;
                },
                RgpScan::Complete(start) => start,
            };
            let ghost so_far = pieces_view(pieces@);
            let ghost before = for_engine(bytes.subrange(cursor as int, start as int));
            push_engine(&mut pieces, &self.pending, cursor, start);
            let prefix = RGP_APC_START.as_bytes();
            proof {
                lemma_terminated(bytes, start + sequence_start().len() as int);
            }
            match apc_end(&self.pending, start + prefix.len()) {
                Some(end) => {
                    let sequence = copy_part(&self.pending, start, end);
                    pieces.push(OutputPiece::Sequence(sequence));
                    proof {
                        let (rest, waiting) = taken_apart(bytes, end as int);
                        let middle = seq![
                            PieceModel::Sequence(bytes.subrange(start as int, end as int)),
                        ];
                        assert(pieces_view(pieces@) =~= so_far + before + middle);
                        assert(so_far + (before + middle + rest) =~= so_far + before + middle + rest);
                    }
                    cursor = end;
                },
                None => {
                    if len - start > RGP_MAX_PENDING {
                        // A runaway sequence: stop withholding it.
                        push_engine(&mut pieces, &self.pending, start, len);
                        proof {
                            let last = for_engine(bytes.subrange(start as int, len as int));
                            assert(so_far + (before + last) =~= so_far + before + last);
                        }
                        self.pending.clear();
                        return pieces;
                    }
                    let rest = copy_part(&self.pending, start, len);
                    self.pending = rest;
                    return pieces;
                },
            }
        }
    }
}

// Objects and their anchors.

/// Inline object anchor.
#[derive(Debug)]
pub struct InlineAnchor {
    /// Anchor row.
    pub row: u16,
    /// Anchor column.
    pub col: u16,
    /// Object width in cells.
    pub columns: u32,
    /// Object height in cells.
    pub rows: u32,
    /// Inline styling.
    pub style: RgpPlacementStyle,
}

pub struct AnchorModel {
    pub row: u16,
    pub col: u16,
    pub columns: u32,
    pub rows: u32,
    pub style: StyleModel,
}

pub open spec fn style_view(style: RgpPlacementStyle) -> StyleModel {
    StyleModel {
        animate: style.animate,
        color: option_color(style.color),
        numbers: texts(style.numbers@),
    }
}

impl View for InlineAnchor {
    type V = AnchorModel;

    open spec fn view(&self) -> AnchorModel {
        AnchorModel {
            row: self.row,
            col: self.col,
            columns: self.columns,
            rows: self.rows,
            style: style_view(self.style),
        }
    }
}

/// A registration that comes in chunks.
#[derive(Debug)]
pub struct PendingPayload {
    pub format: String,
    pub name: Option<String>,
    pub data: Vec<u8>,
    pub normalize: bool,
}

pub struct PayloadModel {
    pub format: Seq<char>,
    pub name: Option<Seq<char>>,
    pub data: Seq<u8>,
    pub normalize: bool,
}

impl View for PendingPayload {
    type V = PayloadModel;

    open spec fn view(&self) -> PayloadModel {
        PayloadModel {
            format: self.format@,
            name: option_text(self.name),
            data: self.data@,
            normalize: self.normalize,
        }
    }
}

/// What is left to do about an operation.
#[derive(Debug)]
pub enum InlineAction {
    /// Nothing.
    Done,
    /// Send a reply.
    Reply(Vec<u8>),
    /// Load an object from a path and report it as loaded.
    LoadPath { object_id: u32, path: String, normalize: bool },
    /// Load an object from its bytes and report it as loaded.
    LoadPayload { object_id: u32, payload: PendingPayload },
    /// Update a camera.
    UpdateCamera(TerminalCameraUpdate),
}

pub enum ActionModel {
    Done,
    Reply(Seq<u8>),
    LoadPath { object_id: u32, path: Seq<char>, normalize: bool },
    LoadPayload { object_id: u32, payload: PayloadModel },
    UpdateCamera(TerminalCameraUpdate),
}

/// The update that a camera operation asks for.
pub open spec fn camera_update(
    camera_slot: u8,
    switch_immediately: bool,
    settings: RgpCameraSettings,
) -> TerminalCameraUpdate {
    TerminalCameraUpdate {
        slot: camera_slot as usize,
        activate: switch_immediately,
        mode: settings.camera_type,
        scale: settings.scale,
        fov: settings.fov,
        translation: OptionalVec3 {
            x: settings.offset[0],
            y: settings.offset[1],
            z: settings.offset[2],
        },
        rotation: OptionalVec3 {
            x: settings.rotation[0],
            y: settings.rotation[1],
            z: settings.rotation[2],
        },
    }
}

impl View for InlineAction {
    type V = ActionModel;

    open spec fn view(&self) -> ActionModel {
        match self {
            InlineAction::Done => ActionModel::Done,
            InlineAction::Reply(bytes) => ActionModel::Reply(bytes@),
            InlineAction::LoadPath { object_id, path, normalize } => ActionModel::LoadPath {
                object_id: *object_id,
                path: path@,
                normalize: *normalize,
            },
            InlineAction::LoadPayload { object_id, payload } => ActionModel::LoadPayload {
                object_id: *object_id,
                payload: payload@,
            },
            InlineAction::UpdateCamera(update) => ActionModel::UpdateCamera(*update),
        }
    }
}

/// The objects that are loaded, where they are anchored, the registrations that
/// are still coming in, and whether something changed since the last
/// synchronization.
pub struct InlineModel {
    pub payloads: Map<u32, PayloadModel>,
    pub objects: Set<u32>,
    pub anchors: Map<u32, AnchorModel>,
    pub dirty: bool,
    pub cols: u16,
    pub rows: u16,
    /// Output that has to wait for the rest of a sequence.
    pub pending: Seq<u8>,
    /// Images by number, and the placements to draw.
    pub images: Map<u32, ImageModel>,
    pub views: Seq<KittyPlacementView>,
}

/// The number of rows as a signed number of the same width.
pub open spec fn signed_rows(rows: u32) -> int {
    if rows < 0x8000_0000 {
        rows as int
    } else {
        rows - 0x1_0000_0000
    }
}

/// Whether an object is still on the screen after scrolling up.
pub open spec fn survives(anchor: AnchorModel, scrolled: int) -> bool {
    anchor.row - scrolled + signed_rows(anchor.rows) > 0
}

/// An anchor that moved up; its row stops at the top of the screen.
pub open spec fn moved_up(anchor: AnchorModel, scrolled: int) -> AnchorModel {
    AnchorModel {
        row: (if anchor.row >= scrolled { anchor.row - scrolled } else { 0 }) as u16,
        ..anchor
    }
}

/// The first of some cells, of which the anchor is the middle one.
pub open spec fn centered(position: u16, cells: u32) -> u16 {
    let half = ((cells / 2) % 0x1_0000) as int;
    (if position >= half { position - half } else { 0 }) as u16
}

/// The style after an update: what is given replaces what was.
pub open spec fn restyled(style: StyleModel, update: UpdateModel) -> StyleModel {
    StyleModel {
        animate: match update.animate {
            Some(animate) => animate,
            None => style.animate,
        },
        color: if update.color is Some { update.color } else { style.color },
        numbers: Seq::new(
            style.numbers.len(),
            |i: int|
                match update.numbers[i] {
                    Some(number) => number,
                    None => style.numbers[i],
                },
        ),
    }
}

/// Whether an update needs its object to be made anew: depth, color and
/// brightness are part of what it is made of.
pub open spec fn needs_respawn(update: UpdateModel) -> bool {
    update.numbers[1] is Some || update.color is Some || update.numbers[2] is Some
}

/// An update, as what it says.
pub open spec fn update_view(update: RgpPlacementUpdate) -> UpdateModel {
    UpdateModel {
        animate: update.animate,
        color: option_color(update.color),
        numbers: option_texts(update.numbers@),
    }
}

/// A registration with one more chunk. The first chunk fixes format and
/// options; the first name that is given counts.
pub open spec fn chunk_added(
    pending: Option<PayloadModel>,
    format: Seq<char>,
    name: Option<Seq<char>>,
    data: Seq<u8>,
    normalize: bool,
) -> Option<PayloadModel> {
    match pending {
        None => Some(PayloadModel { format, name, data, normalize }),
        Some(before) => if before.format == format {
            Some(
                PayloadModel {
                    name: if before.name is None { name } else { before.name },
                    data: before.data + data,
                    ..before
                },
            )
        } else {
            None
        },
    }
}

pub open spec fn is_loadable(format: Seq<char>) -> bool {
    format == "obj"@ || format == "glb"@ || format == "stl"@
}

impl InlineModel {
    pub open spec fn scrolled(self, n: u16) -> Self {
        if n == 0 || self.anchors.dom().is_empty() {
            self
        } else {
            InlineModel {
                anchors: Map::new(
                    |id: u32| self.anchors.dom().contains(id) && survives(self.anchors[id], n as int),
                    |id: u32| moved_up(self.anchors[id], n as int),
                ),
                dirty: true,
                ..self
            }
        }
    }

    pub open spec fn chunk(
        self,
        object_id: u32,
        format: Seq<char>,
        name: Option<Seq<char>>,
        more: bool,
        data: Seq<u8>,
        normalize: bool,
    ) -> (Self, ActionModel) {
        let pending = if self.payloads.dom().contains(object_id) {
            Some(self.payloads[object_id])
        } else {
            None
        };
        match chunk_added(pending, format, name, data, normalize) {
            None => (self, ActionModel::Done),
            Some(payload) => if more {
                (
                    InlineModel { payloads: self.payloads.insert(object_id, payload), ..self },
                    ActionModel::Done,
                )
            } else {
                (
                    InlineModel { payloads: self.payloads.remove(object_id), ..self },
                    ActionModel::LoadPayload { object_id, payload },
                )
            },
        }
    }

    /// An operation carried out, and what is left to do about it.
    pub open spec fn operated(self, operation: OperationModel) -> (Self, ActionModel) {
        match operation {
            OperationModel::SupportQuery => (self, ActionModel::Reply(support_answer())),
            OperationModel::Register { object_id, format, normalize, source } => if !is_loadable(
                format,
            ) {
                (self, ActionModel::Done)
            } else {
                match source {
                    SourceModel::Path(path) => (
                        InlineModel { payloads: self.payloads.remove(object_id), ..self },
                        ActionModel::LoadPath { object_id, path, normalize },
                    ),
                    SourceModel::Payload { name, more, data } => self.chunk(
                        object_id,
                        format,
                        name,
                        more,
                        data,
                        normalize,
                    ),
                }
            },
            OperationModel::Place { object_id, row, col, columns, rows, style } => (
                if self.objects.contains(object_id) {
                    InlineModel {
                        anchors: self.anchors.insert(
                            object_id,
                            AnchorModel {
                                row: centered(row, rows),
                                col: centered(col, columns),
                                columns,
                                rows,
                                style,
                            },
                        ),
                        dirty: true,
                        ..self
                    }
                } else {
                    self
                },
                ActionModel::Done,
            ),
            OperationModel::Update { object_id, update } => (
                if self.anchors.dom().contains(object_id) {
                    let anchor = self.anchors[object_id];
                    InlineModel {
                        anchors: self.anchors.insert(
                            object_id,
                            AnchorModel { style: restyled(anchor.style, update), ..anchor },
                        ),
                        dirty: self.dirty || needs_respawn(update),
                        ..self
                    }
                } else {
                    self
                },
                ActionModel::Done,
            ),
            OperationModel::Delete { object_id } => (
                match object_id {
                    Some(id) => InlineModel {
                        payloads: self.payloads.remove(id),
                        objects: self.objects.remove(id),
                        anchors: self.anchors.remove(id),
                        dirty: true,
                        ..self
                    },
                    None => InlineModel {
                        payloads: Map::empty(),
                        objects: Set::empty(),
                        anchors: Map::empty(),
                        dirty: true,
                        ..self
                    },
                },
                ActionModel::Done,
            ),
            OperationModel::Camera { camera_slot, switch_immediately, settings } => (
                self,
                ActionModel::UpdateCamera(
                    camera_update(camera_slot, switch_immediately, settings),
                ),
            ),
            OperationModel::Ignored => (self, ActionModel::Done),
        }
    }

    /// An object that was loaded.
    pub open spec fn loaded(self, object_id: u32) -> Self {
        InlineModel { objects: self.objects.insert(object_id), dirty: true, ..self }
    }

    pub open spec fn wf(self) -> bool {
        forall|id: u32|
            self.anchors.dom().contains(id) ==> (#[trigger] self.anchors[id]).style.numbers.len()
                == RGP_NUMBERS
    }
}

/// Whether an operation gives every number a place.
pub open spec fn operation_wf(operation: OperationModel) -> bool {
    match operation {
        OperationModel::Place { style, .. } => style.numbers.len() == RGP_NUMBERS,
        OperationModel::Update { update, .. } => update.numbers.len() == RGP_NUMBERS,
        _ => true,
    }
}

/// What a piece of output means.
pub enum MeaningModel {
    /// Bytes for the engine.
    Output(Seq<u8>),
    /// An operation on the objects.
    Operation(OperationModel),
}

/// What a piece of output means. A sequence that asks for nothing is output.
pub open spec fn piece_meaning(piece: PieceModel) -> MeaningModel {
    match piece {
        PieceModel::Engine(bytes) => MeaningModel::Output(bytes),
        PieceModel::Sequence(sequence) => match operation_in(sequence) {
            Some(operation) => MeaningModel::Operation(operation),
            None => MeaningModel::Output(sequence),
        },
    }
}

/// What became of a piece of output.
#[derive(Debug)]
pub struct HandledPiece {
    /// Whether the terminal got it.
    pub terminal_output: bool,
    /// What is left to do about it.
    pub action: InlineAction,
}

proof fn lemma_every_number_has_a_place(parts: Seq<Seq<char>>, n: int)
    ensures
        parts_read(parts, n).numbers.len() == RGP_NUMBERS,
    decreases n,
{
    if n > 1 {
        lemma_every_number_has_a_place(parts, n - 1);
    }
}

proof fn lemma_operations_give_every_number(sequence: Seq<u8>)
    ensures
        operation_in(sequence) matches Some(operation) ==> operation_wf(operation),
{
    if let Some(content) = content_of(sequence) {
        let parts = pieces(decode_utf8(content), ';');
        lemma_every_number_has_a_place(parts, parts.len() as int);
    }
}

/// Deleting an object forgets it, its anchor and what was coming in for it; no
/// other object is touched.
pub proof fn law_deleting_forgets_one_object(inline: InlineModel, id: u32, other: u32)
    requires
        id != other,
    ensures
        ({
            let after = inline.operated(OperationModel::Delete { object_id: Some(id) }).0;
            &&& !after.objects.contains(id) && !after.anchors.dom().contains(id)
                && !after.payloads.dom().contains(id)
            &&& after.objects.contains(other) == inline.objects.contains(other)
            &&& after.anchors.dom().contains(other) == inline.anchors.dom().contains(other)
            &&& inline.anchors.dom().contains(other) ==> after.anchors[other] == inline.anchors[other]
        }),
{
}

/// Whether nothing that is known of one object differs between two registries.
pub open spec fn same_object(before: InlineModel, after: InlineModel, id: u32) -> bool {
    &&& after.objects.contains(id) == before.objects.contains(id)
    &&& after.anchors.dom().contains(id) == before.anchors.dom().contains(id)
    &&& before.anchors.dom().contains(id) ==> after.anchors[id] == before.anchors[id]
    &&& after.payloads.dom().contains(id) == before.payloads.dom().contains(id)
    &&& before.payloads.dom().contains(id) ==> after.payloads[id] == before.payloads[id]
}

/// Whether two registries differ in their objects alone.
pub open spec fn same_surroundings(before: InlineModel, after: InlineModel) -> bool {
    &&& after.cols == before.cols
    &&& after.rows == before.rows
    &&& after.pending == before.pending
    &&& after.images == before.images
    &&& after.views == before.views
}

/// Deleting without a number forgets every object, with its anchor and what was coming in
/// for it, and the screen is to be brought up to date. No object can be placed then before
/// it is loaded again.
pub proof fn law_deleting_forgets_every_object(
    inline: InlineModel,
    id: u32,
    row: u16,
    col: u16,
    columns: u32,
    rows: u32,
    style: StyleModel,
)
    ensures
        ({
            let (after, action) = inline.operated(OperationModel::Delete { object_id: None });
            let place = OperationModel::Place { object_id: id, row, col, columns, rows, style };
            &&& action is Done
            &&& !after.objects.contains(id)
            &&& !after.anchors.dom().contains(id)
            &&& !after.payloads.dom().contains(id)
            &&& after.dirty
            &&& same_surroundings(inline, after)
            &&& !after.operated(place).0.anchors.dom().contains(id)
        }),
{
}

/// Deleting one object leaves nothing of it behind and everything of the others, and the
/// screen is to be brought up to date.
pub proof fn law_deleting_leaves_the_others(inline: InlineModel, id: u32, other: u32)
    requires
        id != other,
    ensures
        ({
            let (after, action) = inline.operated(OperationModel::Delete { object_id: Some(id) });
            &&& action is Done
            &&& after.dirty
            &&& same_object(inline, after, other)
            &&& same_surroundings(inline, after)
        }),
{
}

/// An object that is loaded is placed around a cell: half of its cells, rounded down, are
/// above and to the left of it, as far as the screen goes. The object has the size and the
/// style that are asked for. One that is not loaded is placed nowhere, and no other object
/// is touched.
pub proof fn law_objects_are_placed(
    inline: InlineModel,
    id: u32,
    row: u16,
    col: u16,
    columns: u32,
    rows: u32,
    style: StyleModel,
    other: u32,
)
    requires
        id != other,
        rows < 0x2_0000,
        columns < 0x2_0000,
    ensures
        ({
            let place = OperationModel::Place { object_id: id, row, col, columns, rows, style };
            let (after, action) = inline.operated(place);
            let anchor = after.anchors[id];
            &&& action is Done
            &&& inline.objects.contains(id) ==> {
                &&& after.anchors.dom().contains(id)
                &&& anchor.row == (if row < rows / 2 { 0 } else { row - rows / 2 })
                &&& anchor.col == (if col < columns / 2 { 0 } else { col - columns / 2 })
                &&& anchor.rows == rows
                &&& anchor.columns == columns
                &&& anchor.style == style
                &&& after.dirty
            }
            &&& !inline.objects.contains(id) ==> after == inline
            &&& after.objects == inline.objects
            &&& after.payloads == inline.payloads
            &&& same_object(inline, after, other)
            &&& same_surroundings(inline, after)
        }),
{
}

/// An update of an object that is placed changes its style, and of that only what is given;
/// where it stands and how large it is stay. An object that is not placed is not touched,
/// nor is any other. What the object is made of, its depth, color and brightness, has the
/// screen brought up to date.
pub proof fn law_updates_change_what_is_given(
    inline: InlineModel,
    id: u32,
    update: UpdateModel,
    other: u32,
    i: int,
)
    requires
        id != other,
        inline.wf(),
        0 <= i < RGP_NUMBERS,
    ensures
        ({
            let (after, action) = inline.operated(
                OperationModel::Update { object_id: id, update },
            );
            let (old_anchor, new_anchor) = (inline.anchors[id], after.anchors[id]);
            &&& action is Done
            &&& !inline.anchors.dom().contains(id) ==> after == inline
            &&& inline.anchors.dom().contains(id) ==> {
                &&& after.anchors.dom().contains(id)
                &&& new_anchor.row == old_anchor.row
                &&& new_anchor.col == old_anchor.col
                &&& new_anchor.rows == old_anchor.rows
                &&& new_anchor.columns == old_anchor.columns
                &&& update.animate matches Some(animate) ==> new_anchor.style.animate == animate
                &&& update.animate is None ==> new_anchor.style.animate == old_anchor.style.animate
                &&& update.color is Some ==> new_anchor.style.color == update.color
                &&& update.color is None ==> new_anchor.style.color == old_anchor.style.color
                &&& update.numbers[i] matches Some(number) ==> new_anchor.style.numbers[i] == number
                &&& update.numbers[i] is None ==> new_anchor.style.numbers[i]
                    == old_anchor.style.numbers[i]
                &&& update.color is Some || update.numbers[1] is Some || update.numbers[2] is Some
                    ==> after.dirty
            }
            &&& inline.dirty ==> after.dirty
            &&& after.objects == inline.objects
            &&& after.payloads == inline.payloads
            &&& same_object(inline, after, other)
            &&& same_surroundings(inline, after)
        }),
{
}

/// Whether two registries differ in what is coming in alone, and not for another object.
pub open spec fn only_chunks_changed(before: InlineModel, after: InlineModel, other: u32) -> bool {
    &&& after.objects == before.objects
    &&& after.anchors == before.anchors
    &&& after.dirty == before.dirty
    &&& same_object(before, after, other)
    &&& same_surroundings(before, after)
}

/// An object of a kind that can be loaded is loaded from its path, or from its bytes once
/// the last of them came; any other is left alone. Only what was coming in for the object
/// changes.
pub proof fn law_objects_are_registered(
    inline: InlineModel,
    id: u32,
    format: Seq<char>,
    normalize: bool,
    path: Seq<char>,
    name: Option<Seq<char>>,
    data: Seq<u8>,
    other: u32,
)
    requires
        id != other,
    ensures
        ({
            let known = format == "obj"@ || format == "glb"@ || format == "stl"@;
            let by_path = inline.operated(
                OperationModel::Register {
                    object_id: id,
                    format,
                    normalize,
                    source: SourceModel::Path(path),
                },
            );
            let all_at_once = inline.operated(
                OperationModel::Register {
                    object_id: id,
                    format,
                    normalize,
                    source: SourceModel::Payload { name, more: false, data },
                },
            );
            let first_chunk = inline.operated(
                OperationModel::Register {
                    object_id: id,
                    format,
                    normalize,
                    source: SourceModel::Payload { name, more: true, data },
                },
            );
            let payload = PayloadModel { format, name, data, normalize };
            &&& !known ==> by_path == (inline, ActionModel::Done) && all_at_once == by_path
                && first_chunk == by_path
            &&& known ==> {
                &&& by_path.1 == ActionModel::LoadPath { object_id: id, path, normalize }
                &&& !by_path.0.payloads.dom().contains(id)
            }
            &&& known && !inline.payloads.dom().contains(id) ==> {
                &&& all_at_once.1 == ActionModel::LoadPayload { object_id: id, payload }
                &&& !all_at_once.0.payloads.dom().contains(id)
                &&& first_chunk.1 is Done
                &&& first_chunk.0.payloads.dom().contains(id)
                &&& first_chunk.0.payloads[id] == payload
            }
            &&& only_chunks_changed(inline, by_path.0, other)
            &&& only_chunks_changed(inline, all_at_once.0, other)
            &&& only_chunks_changed(inline, first_chunk.0, other)
        }),
{
}

/// An object that was loaded is known, and can be placed; no other becomes known.
pub proof fn law_loaded_objects_are_known(inline: InlineModel, id: u32, other: u32)
    requires
        id != other,
    ensures
        ({
            let after = inline.loaded(id);
            &&& after.objects.contains(id)
            &&& after.dirty
            &&& after.anchors == inline.anchors
            &&& after.payloads == inline.payloads
            &&& same_object(inline, after, other)
            &&& same_surroundings(inline, after)
        }),
{
}

/// When the screen scrolls up, every object that is placed moves up with its cell. It stays
/// as long as a part of it is below the top of the screen, at the top row once its first
/// row left, and is forgotten then. It changes in nothing else.
pub proof fn law_objects_scroll_with_the_text(inline: InlineModel, n: u16, id: u32)
    requires
        inline.anchors.dom().contains(id),
        inline.anchors[id].rows < 0x8000_0000,
    ensures
        ({
            let after = inline.scrolled(n);
            let anchor = inline.anchors[id];
            let end = anchor.row + anchor.rows;
            &&& n > 0 ==> (after.anchors.dom().contains(id) <==> end > n)
            &&& n == 0 ==> after == inline
            &&& n > 0 && end > n ==> after.anchors[id] == (AnchorModel {
                row: (if anchor.row < n { 0 } else { anchor.row - n }) as u16,
                ..anchor
            })
            &&& n > 0 ==> after.dirty
            &&& forall|other: u32|
                #![trigger after.anchors.dom().contains(other)]
                after.anchors.dom().contains(other) ==> inline.anchors.dom().contains(other)
            &&& after.objects == inline.objects
            &&& after.payloads == inline.payloads
            &&& same_surroundings(inline, after)
        }),
{
}

/// A camera operation asks for what it says of each axis, and changes no object.
pub proof fn law_camera_operations_ask_for_updates(
    inline: InlineModel,
    camera_slot: u8,
    switch_immediately: bool,
    settings: RgpCameraSettings,
)
    ensures
        ({
            let (after, action) = inline.operated(
                OperationModel::Camera { camera_slot, switch_immediately, settings },
            );
            &&& after == inline
            &&& action matches ActionModel::UpdateCamera(update) && update.slot == camera_slot
                && update.activate == switch_immediately && update.mode == settings.camera_type
                && update.scale == settings.scale && update.fov == settings.fov
                && update.translation.x == settings.offset@[0] && update.translation.y
                == settings.offset@[1] && update.translation.z == settings.offset@[2]
                && update.rotation.x == settings.rotation@[0] && update.rotation.y
                == settings.rotation@[1] && update.rotation.z == settings.rotation@[2]
        }),
{
}

/// A payload that comes in two chunks is the payload that comes in one.
pub proof fn law_chunks_add_up(
    inline: InlineModel,
    id: u32,
    format: Seq<char>,
    name: Option<Seq<char>>,
    first: Seq<u8>,
    second: Seq<u8>,
    normalize: bool,
)
    requires
        !inline.payloads.dom().contains(id),
    ensures
        ({
            let (middle, _) = inline.chunk(id, format, name, true, first, normalize);
            let (end, action) = middle.chunk(id, format, name, false, second, normalize);
            let (whole, expected) = inline.chunk(id, format, name, false, first + second, normalize);
            action == expected && end.payloads =~= whole.payloads
        }),
{
}

/// Scrolling twice is scrolling once by the sum, for objects that the first
/// scroll does not cut off at the top.
pub proof fn law_scrolling_adds_up(anchor: AnchorModel, first: u16, second: u16)
    requires
        first <= anchor.row,
    ensures
        survives(anchor, first as int) && survives(moved_up(anchor, first as int), second as int)
            ==> survives(anchor, first + second),
        moved_up(moved_up(anchor, first as int), second as int) == moved_up(anchor, first + second),
{
}

/// Anchors, as what they say.
pub open spec fn anchors_view(anchors: Map<u32, InlineAnchor>) -> Map<u32, AnchorModel> {
    anchors.map_values(|anchor: InlineAnchor| anchor@)
}

pub open spec fn payloads_view(payloads: Map<u32, PendingPayload>) -> Map<u32, PayloadModel> {
    payloads.map_values(|payload: PendingPayload| payload@)
}

/// Inline object registry and anchor state.
#[derive(Debug)]
pub struct TerminalInlineObjects {
    payloads: IdTable<PendingPayload>,
    objects: IdTable<()>,
    anchors: IdTable<InlineAnchor>,
    dirty: bool,
    last_cols: u16,
    last_rows: u16,
    filter: OutputFilter,
    kitty: KittyGraphics,
}

impl View for TerminalInlineObjects {
    type V = InlineModel;

    closed spec fn view(&self) -> InlineModel {
        InlineModel {
            payloads: payloads_view(self.payloads@),
            objects: self.objects@.dom(),
            anchors: anchors_view(self.anchors@),
            dirty: self.dirty,
            cols: self.last_cols,
            rows: self.last_rows,
            pending: self.filter.pending@,
            images: self.kitty.images(),
            views: self.kitty.views(),
        }
    }
}

fn same_string(a: &String, b: &String) -> (r: bool)
    ensures
        r == (a@ == b@),
{
    spells(&chars_of(a.as_str()), b.as_str())
}

fn can_load(format: &String) -> (r: bool)
    ensures
        r == is_loadable(format@),
{
    let chars = chars_of(format.as_str());
    spells(&chars, "obj") || spells(&chars, "glb") || spells(&chars, "stl")
}

/// Whether text moved up by some rows: every row that is still there shows what
/// stood that far below.
pub open spec fn text_moved_up(before: Seq<String>, after: Seq<String>, rows: int) -> bool {
    forall|i: int|
        0 <= i && i + rows < before.len() ==> #[trigger] after[i]@ == before[i + rows]@
}

/// By how many rows the text of a screen moved up: the least number by which it did,
/// and none where nothing of it is left.
pub fn rows_scrolled(before: &Vec<String>, after: &Vec<String>) -> (r: u16)
    requires
        before@.len() == after@.len(),
        before@.len() <= u16::MAX,
    ensures
        forall|k: int| 0 <= k < r ==> !#[trigger] text_moved_up(before@, after@, k),
        r < before@.len() && text_moved_up(before@, after@, r as int) || r == 0 && forall|k: int|
            0 <= k < before@.len() ==> !#[trigger] text_moved_up(before@, after@, k),
{
    let len: usize = before.len();
    let mut rows: usize = 0;
    while rows < len
        invariant
            rows <= len,
            len == before@.len(),
            len == after@.len(),
            len <= u16::MAX,
            forall|k: int| 0 <= k < rows ==> !#[trigger] text_moved_up(before@, after@, k),
        decreases len - rows,
    {
        let mut i: usize = 0;
        let mut same = true;
        while i < len - rows && same
            invariant
                rows < len,
                i <= len - rows,
                len == before@.len(),
                len == after@.len(),
                forall|j: int| 0 <= j < i ==> #[trigger] after@[j]@ == before@[j + rows]@,
                !same ==> !text_moved_up(before@, after@, rows as int),
            decreases len - rows - i, if same { 1int } else { 0 },
        {
            if same_string(&after[i], &before[i + rows]) {
                i += 1;
            } else {
                same = false;
                assert(after@[i as int]@ != before@[i + rows]@);
            }
        }
        if same {
            assert(text_moved_up(before@, after@, rows as int));
            return rows as u16;
        }
        rows += 1;
    }
    0
}

/// The first of some cells, of which the anchor is the middle one.
pub fn center_anchor(position: u16, cells: u32) -> (r: u16)
    ensures
        r == centered(position, cells),
{
    let half: u16 = ((cells / 2) % 0x1_0000) as u16;
    position.saturating_sub(half)
}

/// Replaces what an update gives.
fn apply_rgp_update(style: &mut RgpPlacementStyle, update: RgpPlacementUpdate)
    requires
        old(style).numbers@.len() == RGP_NUMBERS,
        update.numbers@.len() == RGP_NUMBERS,
    ensures
        style_view(*final(style)) == restyled(style_view(*old(style)), update_view(update)),
{
    let ghost before = style_view(*style);
    let ghost given = option_texts(update.numbers@);
    if let Some(animate) = update.animate {
        style.animate = animate;
    }
    if update.color.is_some() {
        style.color = update.color;
    }
    let mut numbers = update.numbers;
    let mut i: usize = 0;
    while i < RGP_NUMBERS
        invariant
            i <= RGP_NUMBERS,
            style.numbers@.len() == RGP_NUMBERS,
            numbers@.len() == RGP_NUMBERS,
            before.numbers.len() == RGP_NUMBERS,
            given.len() == RGP_NUMBERS,
            style.animate == (match update.animate {
                Some(animate) => animate,
                None => before.animate,
            }),
            option_color(style.color) == (if update.color is Some {
                option_color(update.color)
            } else {
                before.color
            }),
            forall|k: int| i <= k < RGP_NUMBERS ==> option_text(#[trigger] numbers@[k]) == given[k],
            forall|k: int|
                0 <= k < RGP_NUMBERS ==> (#[trigger] style.numbers@[k])@ == if k < i
                    && given[k] is Some {
                    given[k].unwrap()
                } else {
                    before.numbers[k]
                },
        decreases RGP_NUMBERS - i,
    {
        let mut number: Option<String> = None;
        let ghost rest = numbers@;
        core::mem::swap(&mut numbers[i], &mut number);
        assert forall|k: int| i < k < RGP_NUMBERS implies #[trigger] numbers@[k] == rest[k] by {}
        let ghost values = style.numbers@;
        if let Some(number) = number {
            style.numbers[i] = number;
            assert forall|k: int| 0 <= k < RGP_NUMBERS && k != i implies #[trigger] style.numbers@[k]
                == values[k] by {}
        }
        i = i + 1;
    }
    assert(style_view(*style).numbers =~= restyled(before, update_view(update)).numbers);
}

impl TerminalInlineObjects {
    pub fn new() -> (r: Self)
        ensures
            r@ == (InlineModel {
                payloads: Map::empty(),
                objects: Set::empty(),
                anchors: Map::empty(),
                dirty: false,
                cols: 0,
                rows: 0,
                pending: Seq::empty(),
                images: Map::empty(),
                views: Seq::empty(),
            }),
            r@.wf(),
    {
        let r = TerminalInlineObjects {
            payloads: IdTable::new(),
            objects: IdTable::new(),
            anchors: IdTable::new(),
            dirty: false,
            last_cols: 0,
            last_rows: 0,
            filter: OutputFilter::new(),
            kitty: KittyGraphics::new(),
        };
        assert(r@.pending =~= Seq::empty());
        assert(r@.payloads =~= Map::empty());
        assert(r@.anchors =~= Map::empty());
        assert(r@.objects =~= Set::empty());
        r
    }

    /// Takes output of the terminal apart: what is a graphics sequence, and what is for
    /// the engine. Only what could still become a sequence has to wait.
    pub fn consume_pty_output(&mut self, chunk: &[u8]) -> (pieces: Vec<OutputPiece>)
        ensures
            ({
                let (expected, waiting) = taken_apart(old(self)@.pending + chunk@, 0);
                &&& pieces_view(pieces@) == expected
                &&& final(self)@ == (InlineModel { pending: waiting, ..old(self)@ })
            }),
    {
        self.filter.take(chunk)
    }

    /// Handles a piece of the output: what is for the engine goes to the terminal, and a
    /// sequence is carried out as far as the registry goes. A sequence that asks for
    /// nothing goes to the terminal too, so that no bytes are swallowed.
    pub fn handle_piece(&mut self, piece: OutputPiece, runtime: &mut TerminalRuntime) -> (r:
        HandledPiece)
        requires
            old(self)@.wf(),
            old(runtime).wf(),
        ensures
            final(self)@.wf(),
            final(runtime).wf(),
            old(runtime).model().whole() ==> final(runtime).model().whole(),
            old(runtime).model().holds_no_controls() ==> final(runtime).model().holds_no_controls(),
            match piece_meaning(piece@) {
                MeaningModel::Output(bytes) => {
                    &&& r.terminal_output
                    &&& r.action@ == ActionModel::Done
                    &&& final(self)@ == old(self)@
                    &&& final(runtime).has_processed(old(runtime), bytes)
                },
                MeaningModel::Operation(operation) => {
                    &&& !r.terminal_output
                    &&& (final(self)@, r.action@) == old(self)@.operated(operation)
                    &&& *final(runtime) == *old(runtime)
                },
            },
    {
        let bytes = match piece {
            OutputPiece::Engine(bytes) => bytes,
            OutputPiece::Sequence(sequence) => {
                proof {
                    lemma_operations_give_every_number(sequence@);
                }
                match consume_sequence(sequence.as_slice()) {
                    Some(operation) => {
                        let action = self.handle_operation(operation);
                        return HandledPiece { terminal_output: false, action };
                    },
                    None => sequence,
                }
            },
        };
        runtime.process(bytes.as_slice());
        HandledPiece { terminal_output: true, action: InlineAction::Done }
    }

    /// Takes over what became of images and placements, and asks for synchronization
    /// where something that is drawn changed.
    pub fn refresh_kitty(
        &mut self,
        remove_queue: &Vec<u64>,
        pending_images: Vec<PendingImage>,
        live: &Vec<u32>,
        views: &Vec<KittyPlacementView>,
    )
        ensures
            ({
                let after = (ImagesModel {
                    images: old(self)@.images,
                    changed: false,
                }).without_all(remove_queue@).with_all(pending_images@).among(live@);
                let sorted = back_to_front(views@);
                let same = views_equal(sorted, old(self)@.views);
                final(self)@ == (InlineModel {
                    images: after.images,
                    views: if same { old(self)@.views } else { sorted },
                    dirty: old(self)@.dirty || after.changed || !same,
                    ..old(self)@
                })
            }),
    {
        if self.kitty.refresh(remove_queue, pending_images, live, views) {
            self.dirty = true;
        }
    }

    /// The images and the placements to draw.
    pub fn kitty(&self) -> (r: &KittyGraphics)
        ensures
            r.images() == self@.images,
            r.views() == self@.views,
    {
        &self.kitty
    }

    /// Returns whether inline objects need synchronization.
    pub fn needs_sync(&self, viewport_changed: bool, cols: u16, rows: u16) -> (r: bool)
        ensures
            r == (self@.dirty || viewport_changed || self@.cols != cols || self@.rows != rows),
    {
        self.dirty || viewport_changed || self.last_cols != cols || self.last_rows != rows
    }

    /// Marks synchronization as complete.
    pub fn finish_sync(&mut self, cols: u16, rows: u16)
        ensures
            final(self)@ == (InlineModel { dirty: false, cols, rows, ..old(self)@ }),
    {
        self.dirty = false;
        self.last_cols = cols;
        self.last_rows = rows;
    }

    /// Returns whether any anchors need scroll tracking.
    pub fn has_scroll_tracked_anchors(&self) -> (r: bool)
        ensures
            r == !self@.anchors.dom().is_empty(),
    {
        assert(self@.anchors.dom() =~= self.anchors@.dom());
        !self.anchors.is_empty()
    }

    /// The anchor of an object, if it has one.
    pub fn anchor(&self, object_id: u32) -> (r: Option<&InlineAnchor>)
        ensures
            match r {
                Some(anchor) => self@.anchors.dom().contains(object_id) && anchor@
                    == self@.anchors[object_id],
                None => !self@.anchors.dom().contains(object_id),
            },
    {
        self.anchors.get(object_id)
    }

    /// Applies upward scroll to anchored objects. Those that leave the screen
    /// are forgotten.
    pub fn apply_scroll(&mut self, rows_scrolled: u16)
        requires
            old(self)@.wf(),
        ensures
            final(self)@ == old(self)@.scrolled(rows_scrolled),
            final(self)@.wf(),
    {
        if rows_scrolled == 0 || !self.has_scroll_tracked_anchors() {
            return;
        }
        let ghost start = self.anchors@;
        let mut kept: IdTable<InlineAnchor> = IdTable::new();
        loop
            invariant
                ({
                    let model = self@;
                    model == (InlineModel { anchors: model.anchors, ..old(self)@ })
                }),
                start == old(self).anchors@,
                forall|id: u32| #[trigger]
                    self.anchors@.dom().contains(id) ==> start.dom().contains(id)
                        && self.anchors@[id] == start[id],
                forall|id: u32| #[trigger]
                    kept@.dom().contains(id) <==> start.dom().contains(id) && !self.anchors@.dom().contains(id)
                        && survives(start[id]@, rows_scrolled as int),
                forall|id: u32| #[trigger]
                    kept@.dom().contains(id) ==> kept@[id]@ == moved_up(start[id]@, rows_scrolled as int),
            ensures
                self.anchors@.dom().is_empty(),
            decreases self.anchors.size(),
        {
            match self.anchors.pop() {
                Some((id, anchor)) => {
                    let mut anchor = anchor;
                    let rows: i64 = if anchor.rows < 0x8000_0000 {
                        anchor.rows as i64
                    } else {
                        anchor.rows as i64 - 0x1_0000_0000
                    };
                    let new_row: i64 = anchor.row as i64 - rows_scrolled as i64;
                    if new_row + rows > 0 {
                        anchor.row = if new_row > 0 { new_row as u16 } else { 0 };
                        kept.insert(id, anchor);
                    }
                },
                None => {
                    break;
                },
            }
        }
        self.anchors = kept;
        self.dirty = true;
        assert(self@.anchors =~= old(self)@.scrolled(rows_scrolled).anchors);
    }

    /// Notes that an object was loaded.
    pub fn object_loaded(&mut self, object_id: u32)
        requires
            old(self)@.wf(),
        ensures
            final(self)@ == old(self)@.loaded(object_id),
            final(self)@.wf(),
    {
        self.objects.insert(object_id, ());
        assert(self@.objects =~= old(self)@.objects.insert(object_id));
        self.dirty = true;
    }

    /// Carries an operation out as far as the registry goes, and says what is
    /// left to do.
    pub fn handle_operation(&mut self, operation: RgpOperation) -> (r: InlineAction)
        requires
            old(self)@.wf(),
            operation_wf(operation@),
        ensures
            (final(self)@, r@) == old(self)@.operated(operation@),
            final(self)@.wf(),
    {
        match operation {
            RgpOperation::SupportQuery => InlineAction::Reply(support_reply()),
            RgpOperation::Register { object_id, format, options, source } => {
                if !can_load(&format) {
                    return InlineAction::Done;
                }
                match source {
                    RgpRegisterSource::Path { path } => {
                        let _ = self.payloads.remove(object_id);
                        assert(self@.payloads =~= old(self)@.payloads.remove(object_id));
                        InlineAction::LoadPath { object_id, path, normalize: options.normalize }
                    },
                    RgpRegisterSource::Payload { name, more, data } => self.handle_payload_chunk(
                        object_id,
                        format,
                        name,
                        more,
                        data,
                        options.normalize,
                    ),
                }
            },
            RgpOperation::Place { object_id, anchor } => {
                if self.objects.contains(object_id) {
                    let placed = InlineAnchor {
                        row: center_anchor(anchor.row, anchor.rows),
                        col: center_anchor(anchor.col, anchor.columns),
                        columns: anchor.columns,
                        rows: anchor.rows,
                        style: anchor.style,
                    };
                    let ghost model = placed@;
                    self.anchors.insert(object_id, placed);
                    self.dirty = true;
                    assert(self@.anchors =~= old(self)@.anchors.insert(object_id, model));
                }
                InlineAction::Done
            },
            RgpOperation::Update { object_id, update } => {
                self.update_anchor(object_id, update);
                InlineAction::Done
            },
            RgpOperation::Delete { object_id } => {
                match object_id {
                    Some(object_id) => {
                        let _ = self.objects.remove(object_id);
                        let _ = self.anchors.remove(object_id);
                        let _ = self.payloads.remove(object_id);
                        assert(self@.anchors =~= old(self)@.anchors.remove(object_id));
                        assert(self@.payloads =~= old(self)@.payloads.remove(object_id));
                        assert(self@.objects =~= old(self)@.objects.remove(object_id));
                    },
                    None => {
                        self.objects.clear();
                        self.anchors.clear();
                        self.payloads.clear();
                        assert(self@.anchors =~= Map::empty());
                        assert(self@.payloads =~= Map::empty());
                        assert(self@.objects =~= Set::empty());
                    },
                }
                self.dirty = true;
                InlineAction::Done
            },
            RgpOperation::Camera { camera_slot, switch_immediately, settings } => {
                let translation = OptionalVec3 {
                    x: settings.offset[0],
                    y: settings.offset[1],
                    z: settings.offset[2],
                };
                let rotation = OptionalVec3 {
                    x: settings.rotation[0],
                    y: settings.rotation[1],
                    z: settings.rotation[2],
                };
                InlineAction::UpdateCamera(
                    TerminalCameraUpdate {
                        slot: camera_slot as usize,
                        activate: switch_immediately,
                        mode: settings.camera_type,
                        scale: settings.scale,
                        fov: settings.fov,
                        translation,
                        rotation,
                    },
                )
            },
            RgpOperation::Ignored => InlineAction::Done,
        }
    }

    fn update_anchor(&mut self, object_id: u32, update: RgpPlacementUpdate)
        requires
            old(self)@.wf(),
            update.numbers@.len() == RGP_NUMBERS,
        ensures
            final(self)@ == old(self)@.operated(
                (RgpOperation::Update { object_id, update })@,
            ).0,
            final(self)@.wf(),
    {
        let ghost model = (RgpOperation::Update { object_id, update })@;
        if let Some(anchor) = self.anchors.remove(object_id) {
            let ghost before = anchor@;
            assert(before == old(self)@.anchors[object_id]);
            let mut anchor = anchor;
            let respawn = update.numbers[1].is_some() || update.color.is_some()
                || update.numbers[2].is_some();
            apply_rgp_update(&mut anchor.style, update);
            let ghost after = anchor@;
            self.anchors.insert(object_id, anchor);
            if respawn {
                self.dirty = true;
            }
            assert(self@.anchors =~= old(self)@.anchors.insert(object_id, after));
        } else {
            assert(self@.anchors =~= old(self)@.anchors);
        }
    }

    /// Keeps the chunks of a registration until the last one is there.
    fn handle_payload_chunk(
        &mut self,
        object_id: u32,
        format: String,
        name: Option<String>,
        more: bool,
        data: Vec<u8>,
        normalize: bool,
    ) -> (r: InlineAction)
        requires
            old(self)@.wf(),
        ensures
            (final(self)@, r@) == old(self)@.chunk(
                object_id,
                format@,
                option_text(name),
                more,
                data@,
                normalize,
            ),
            final(self)@.wf(),
    {
        let ghost start = self@.payloads;
        let payload = match self.payloads.remove(object_id) {
            None => PendingPayload { format, name, data, normalize },
            Some(pending) => {
                let mut pending = pending;
                let ghost before = pending@;
                assert(before == start[object_id]);
                if !same_string(&pending.format, &format) {
                    self.payloads.insert(object_id, pending);
                    assert(self@.payloads =~= start);
                    return InlineAction::Done;
                }
                if pending.name.is_none() {
                    pending.name = name;
                }
                push_bytes(&mut pending.data, data.as_slice());
                pending
            },
        };
        let ghost model = payload@;
        if more {
            self.payloads.insert(object_id, payload);
            assert(self@.payloads =~= start.insert(object_id, model));
            InlineAction::Done
        } else {
            assert(self@.payloads =~= start.remove(object_id));
            InlineAction::LoadPayload { object_id, payload }
        }
    }
}

/// Whether the start of a sequence stands at a place: `ESC _ ratty;g;`.
pub open spec fn starts_at(bytes: Seq<u8>, at: int) -> bool {
    &&& 0 <= at
    &&& at + 10 <= bytes.len()
    &&& bytes.subrange(at, at + 10) == seq![27u8, 95, 114, 97, 116, 116, 121, 59, 103, 59]
}

/// Whether the end of a sequence stands at a place, in one byte or in two.
pub open spec fn ends_at(bytes: Seq<u8>, at: int) -> bool {
    bytes[at] == 0x9c || at + 1 < bytes.len() && bytes[at] == 0x1b && bytes[at + 1] == 0x5c
}

proof fn lemma_start_found(bytes: Seq<u8>, cursor: int, start: int)
    requires
        0 <= cursor <= start,
        starts_at(bytes, start),
        forall|i: int| cursor <= i < start ==> #[trigger] bytes[i] != 0x1b,
    ensures
        candidate(bytes, cursor) == ScanModel::Complete(start),
        sequence_start().len() == 10,
    decreases start - cursor,
{
    lemma_sequence_start();
    if cursor < start {
        assert(bytes[cursor] != 0x1b);
        lemma_start_found(bytes, cursor + 1, start);
    } else {
        reveal_strlit("\x1b_ratty;g;");
        let text = "\x1b_ratty;g;"@;
        let codes = seq![27u8, 95, 114, 97, 116, 116, 121, 59, 103, 59];
        crate::ratty_vt::term::lemma_ascii_bytes(text);
        assert(sequence_start() =~= codes);
        let rest = bytes.subrange(start, bytes.len() as int);
        assert(rest.take(10) =~= bytes.subrange(start, start + 10));
        assert forall|i: int| 0 <= i < 10 implies #[trigger] codes[i] == rest[i] by {
            assert(rest.take(10)[i] == codes[i]);
        }
        assert(codes.is_prefix_of(rest));
        assert(rest[0] == codes[0]);
        assert(bytes[start] == 0x1b);
    }
}

proof fn lemma_end_found(bytes: Seq<u8>, from: int, at: int)
    requires
        0 <= from <= at <= bytes.len(),
        forall|i: int| from <= i < at ==> !#[trigger] ends_at(bytes, i),
        at < bytes.len() ==> ends_at(bytes, at),
    ensures
        terminated(bytes, from) == if at == bytes.len() {
            None
        } else if bytes[at] == 0x9c {
            Some(at + 1)
        } else {
            Some(at + 2)
        },
    decreases at - from,
{
    if from < at {
        assert(!ends_at(bytes, from));
        lemma_end_found(bytes, from + 1, at);
    }
}

/// A sequence is taken out of the output from its start to its first end; what stands before
/// it goes to the engine, and what stands behind it is looked at anew.
pub proof fn law_sequences_are_taken_out(bytes: Seq<u8>, cursor: int, start: int, at: int)
    requires
        0 <= cursor <= start,
        starts_at(bytes, start),
        forall|i: int| cursor <= i < start ==> #[trigger] bytes[i] != 0x1b,
        start + 10 <= at < bytes.len(),
        forall|i: int| start + 10 <= i < at ==> !#[trigger] ends_at(bytes, i),
        ends_at(bytes, at),
    ensures
        ({
            let stop = if bytes[at] == 0x9c {
                at + 1
            } else {
                at + 2
            };
            let (pieces, waiting) = taken_apart(bytes, cursor);
            let (rest, left) = taken_apart(bytes, stop);
            let sequence = PieceModel::Sequence(bytes.subrange(start, stop));
            &&& start > cursor ==> pieces == seq![
                PieceModel::Engine(bytes.subrange(cursor, start)),
                sequence,
            ] + rest
            &&& start == cursor ==> pieces == seq![sequence] + rest
            &&& waiting == left
        }),
{
    lemma_start_found(bytes, cursor, start);
    lemma_end_found(bytes, start + 10, at);
    let stop = if bytes[at] == 0x9c {
        at + 1
    } else {
        at + 2
    };
    let (rest, left) = taken_apart(bytes, stop);
    let sequence = PieceModel::Sequence(bytes.subrange(start, stop));
    let before = bytes.subrange(cursor, start);
    assert(for_engine(before) + seq![sequence] + rest =~= if start > cursor {
        seq![PieceModel::Engine(before), sequence] + rest
    } else {
        seq![sequence] + rest
    });
}

/// A sequence without its end waits for it, unless it has more than 8388608 bytes already:
/// it goes to the engine then.
pub proof fn law_unfinished_sequences_wait(bytes: Seq<u8>, cursor: int, start: int)
    requires
        0 <= cursor <= start,
        starts_at(bytes, start),
        forall|i: int| cursor <= i < start ==> #[trigger] bytes[i] != 0x1b,
        forall|i: int| start + 10 <= i < bytes.len() ==> !#[trigger] ends_at(bytes, i),
    ensures
        ({
            let (pieces, waiting) = taken_apart(bytes, cursor);
            let open = bytes.subrange(start, bytes.len() as int);
            &&& open.len() <= 8_388_608 ==> waiting == open && all_bytes(pieces) == bytes.subrange(
                cursor,
                start,
            )
            &&& open.len() > 8_388_608 ==> waiting.len() == 0 && pieces.last()
                == PieceModel::Engine(open)
        }),
{
    lemma_start_found(bytes, cursor, start);
    lemma_end_found(bytes, start + 10, bytes.len() as int);
    lemma_for_engine(bytes.subrange(cursor, start));
}

/// A whole sequence that asks for something is an operation, and one that does not is output.
pub proof fn law_sequences_that_ask_for_nothing_are_output(bytes: Seq<u8>, operation: OperationModel)
    ensures
        piece_meaning(PieceModel::Engine(bytes)) == MeaningModel::Output(bytes),
        operation_in(bytes) is None ==> piece_meaning(PieceModel::Sequence(bytes))
            == MeaningModel::Output(bytes),
        operation_in(bytes) == Some(operation) ==> piece_meaning(PieceModel::Sequence(bytes))
            == MeaningModel::Operation(operation),
{
}

/// Text that moved up by some rows is found again that many rows higher, in every row that is
/// still there; by none, where it did not move.
pub proof fn law_moved_text_is_found_again(before: Seq<String>, after: Seq<String>, rows: int, i: int)
    requires
        0 <= rows,
        before.len() == after.len(),
    ensures
        text_moved_up(before, after, rows) && rows <= i < before.len() ==> after[i - rows]@
            == before[i]@,
        (forall|k: int| rows <= k < before.len() ==> after[k - rows]@ == (#[trigger] before[k])@)
            ==> text_moved_up(before, after, rows),
{
    if text_moved_up(before, after, rows) && rows <= i < before.len() {
        assert(after[i - rows]@ == before[i - rows + rows]@);
    }
    if forall|k: int| rows <= k < before.len() ==> after[k - rows]@ == (#[trigger] before[k])@ {
        assert forall|k: int| 0 <= k && k + rows < before.len() implies #[trigger] after[k]@
            == before[k + rows]@ by {
            assert(after[k + rows - rows]@ == before[k + rows]@);
        }
    }
}

} // verus!

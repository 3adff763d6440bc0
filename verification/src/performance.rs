//! Measurements of a running terminal and the report that they make.

use crate::number::{options_equal, Number};
use crate::snapshot::{number_text, push_number};
use vstd::prelude::*;

verus! {

/// Nanoseconds in a second.
pub const SECOND: u64 = 1_000_000_000;
/// How long a recording may take beside its warmup and its duration.
pub const STARTUP_LIMIT: u64 = 60_000_000_000;
/// The most samples that a recording takes.
pub const SAMPLE_CAP: usize = 100_000;
/// The bits of 1.5, the scale factor of one stage of a resize cycle.
pub const CYCLE_SCALE: u32 = 0x3fc0_0000;

pub const REPORT_NOTE: &'static str = "# First-to-Last marker wall times; not complete schedule CPU time, GPU duration or input-to-display latency. Recording overhead and frame allocations require separate overhead/memory runs. Missing first interval is empty.\n";
pub const REPORT_HEADER: &'static str = "seconds_since_visible_measured,frame_interval_seconds,first_to_last_marker_wall_seconds,focused,cols,rows,scale_factor,processed_bytes,seconds_since_recorder_install,changed_rows,snapshot_cells,solid_quads,glyph_quads,draw_batches,shape_misses,snapshot_ns,scene_ns,inline_objects,inline_anchors,image_assets,mesh_assets,standard_material_assets,tracked_object_row,tracked_object_col,tracked_object_yaw_degrees,resize_phase,physical_width,physical_height\n";

/// One row of a report. Times are in nanoseconds; numbers that are not whole are
/// given as text.
#[derive(Debug)]
pub struct Sample {
    pub age: u64,
    pub interval: Option<u64>,
    pub marker_wall: u64,
    pub focused: bool,
    pub cols: u16,
    pub rows: u16,
    pub scale: String,
    pub bytes: u64,
    pub since_install: u64,
    pub totals: [u64; 8],
    pub resources: [u64; 5],
    pub placement: Option<(u16, u16, String)>,
    pub resize_phase: Option<u64>,
    pub physical_size: (u32, u32),
}

/// What is seen of a terminal in a frame.
#[derive(Debug)]
pub struct Frame {
    pub visible: bool,
    /// Whether the size of its cells is known.
    pub measured: bool,
    pub focused: bool,
    pub cols: u16,
    pub rows: u16,
    pub scale: String,
    pub bytes: u64,
    pub totals: [u64; 8],
    pub resources: [u64; 5],
    pub placement: Option<(u16, u16, String)>,
    pub physical_size: (u32, u32),
}

/// The first `n` decimal digits behind the point of a fraction of ten to the `n`.
pub open spec fn digits_text(fraction: nat, n: nat) -> Seq<char>
    decreases n,
{
    if n == 0 {
        Seq::empty()
    } else {
        digits_text(fraction / 10, (n - 1) as nat).push((48 + fraction % 10) as char)
    }
}

/// A time in seconds with nine digits behind the point.
pub open spec fn seconds_text(nanoseconds: u64) -> Seq<char> {
    number_text((nanoseconds / SECOND) as nat) + seq!['.'] + digits_text(
        (nanoseconds % SECOND) as nat,
        9,
    )
}

fn push_digits(text: &mut String, fraction: u64, n: u8)
    ensures
        final(text)@ == old(text)@ + digits_text(fraction as nat, n as nat),
    decreases n,
{
    if n == 0 {
        assert(text@ =~= old(text)@ + digits_text(fraction as nat, n as nat));
        return ;
    }
    push_digits(text, fraction / 10, n - 1);
    let digit: u8 = 48 + (fraction % 10) as u8;
    text.push(digit as char);
    assert(text@ =~= old(text)@ + digits_text(fraction as nat, n as nat));
}

fn push_seconds(text: &mut String, nanoseconds: u64)
    ensures
        final(text)@ == old(text)@ + seconds_text(nanoseconds),
{
    push_number(text, nanoseconds / SECOND);
    text.push('.');
    push_digits(text, nanoseconds % SECOND, 9);
    assert(text@ =~= old(text)@ + seconds_text(nanoseconds));
}

/// Text with another whole number behind a comma.
pub open spec fn field(text: Seq<char>, n: int) -> Seq<char> {
    text.push(',') + number_text(n as nat)
}

fn push_field(text: &mut String, n: u64)
    ensures
        final(text)@ == field(old(text)@, n as int),
{
    text.push(',');
    push_number(text, n);
}

/// Text with more whole numbers, each behind a comma.
pub open spec fn fields(text: Seq<char>, values: Seq<u64>) -> Seq<char>
    decreases values.len(),
{
    if values.len() == 0 {
        text
    } else {
        field(fields(text, values.drop_last()), values.last() as int)
    }
}

fn push_fields(text: &mut String, values: &[u64])
    ensures
        final(text)@ == fields(old(text)@, values@),
{
    let mut i: usize = 0;
    assert(values@.take(0) =~= Seq::<u64>::empty());
    while i < values.len()
        invariant
            i <= values@.len(),
            text@ == fields(old(text)@, values@.take(i as int)),
        decreases values@.len() - i,
    {
        assert(values@.take(i + 1).drop_last() =~= values@.take(i as int));
        push_field(text, values[i]);
        i = i + 1;
    }
    assert(values@.take(i as int) =~= values@);
}

/// The times of a sample and what was seen of the window.
pub open spec fn start_written(text: Seq<char>, sample: Sample) -> Seq<char> {
    let age = (text + seconds_text(sample.age)).push(',');
    let interval = match sample.interval {
        Some(interval) => age + seconds_text(interval),
        None => age,
    };
    let wall = (interval.push(',') + seconds_text(sample.marker_wall)).push(',');
    let focused = if sample.focused {
        wall + "true"@
    } else {
        wall + "false"@
    };
    let size = field(field(focused, sample.cols as int), sample.rows as int);
    let bytes = field(size.push(',') + sample.scale@, sample.bytes as int);
    bytes.push(',') + seconds_text(sample.since_install)
}

/// Where an object that is followed was, if there is one.
pub open spec fn placement_written(
    text: Seq<char>,
    placement: Option<(u16, u16, String)>,
) -> Seq<char> {
    match placement {
        Some((row, col, yaw)) => field(field(text, row as int), col as int).push(',') + yaw@,
        None => text + ",,,"@,
    }
}

pub open spec fn phase_written(text: Seq<char>, phase: Option<u64>) -> Seq<char> {
    match phase {
        Some(phase) => field(text, phase as int),
        None => text.push(','),
    }
}

/// Text with a row of a report.
pub open spec fn sample_written(text: Seq<char>, sample: Sample) -> Seq<char> {
    let start = start_written(text, sample);
    let counts = fields(fields(start, sample.totals@), sample.resources@);
    let placed = phase_written(
        placement_written(counts, sample.placement),
        sample.resize_phase,
    );
    field(field(placed, sample.physical_size.0 as int), sample.physical_size.1 as int).push('\n')
}

pub open spec fn samples_written(text: Seq<char>, samples: Seq<Sample>) -> Seq<char>
    decreases samples.len(),
{
    if samples.len() == 0 {
        text
    } else {
        sample_written(samples_written(text, samples.drop_last()), samples.last())
    }
}

fn write_start(text: &mut String, sample: &Sample)
    ensures
        final(text)@ == start_written(old(text)@, *sample),
{
    push_seconds(text, sample.age);
    text.push(',');
    if let Some(interval) = sample.interval {
        push_seconds(text, interval);
    }
    text.push(',');
    push_seconds(text, sample.marker_wall);
    text.push(',');
    if sample.focused {
        text.append("true");
    } else {
        text.append("false");
    }
    push_field(text, sample.cols as u64);
    push_field(text, sample.rows as u64);
    text.push(',');
    text.append(sample.scale.as_str());
    push_field(text, sample.bytes);
    text.push(',');
    push_seconds(text, sample.since_install);
}

fn write_sample(text: &mut String, sample: &Sample)
    ensures
        final(text)@ == sample_written(old(text)@, *sample),
{
    write_start(text, sample);
    push_fields(text, sample.totals.as_slice());
    push_fields(text, sample.resources.as_slice());
    match &sample.placement {
        Some((row, col, yaw)) => {
            push_field(text, *row as u64);
            push_field(text, *col as u64);
            text.push(',');
            text.append(yaw.as_str());
        },
        None => {
            text.append(",,,");
        },
    }
    match sample.resize_phase {
        Some(phase) => {
            push_field(text, phase);
        },
        None => {
            text.push(',');
        },
    }
    push_field(text, sample.physical_size.0 as u64);
    push_field(text, sample.physical_size.1 as u64);
    text.push('\n');
}

/// The number of an object that is followed, as it is written in a report.
pub open spec fn tracked_text(followed: Option<u32>) -> Seq<char> {
    match followed {
        Some(id) => ("Some("@ + number_text(id as nat)).push(')'),
        None => "None"@,
    }
}

/// The lines of a report before its rows.
pub open spec fn report_start(
    warmup_text: Seq<char>,
    duration_text: Seq<char>,
    capped: bool,
    followed: Option<u32>,
) -> Seq<char> {
    let times = REPORT_NOTE@ + "# warmup_seconds="@ + warmup_text + ",requested_seconds="@
        + duration_text + ",sample_cap_reached="@;
    let cap = (if capped {
        times + "true"@
    } else {
        times + "false"@
    }).push('\n');
    (cap + "# tracked_object_id="@ + tracked_text(followed)).push('\n') + REPORT_HEADER@
}

fn tracked_name(followed: Option<u32>) -> (r: String)
    ensures
        r@ == tracked_text(followed),
{
    match followed {
        Some(id) => {
            let mut text = "Some(".to_string();
            push_number(&mut text, id as u64);
            text.push(')');
            text
        },
        None => "None".to_string(),
    }
}

/// Writes a report. The warmup and the duration are given as text.
pub fn write_report(
    warmup_text: &str,
    duration_text: &str,
    capped: bool,
    followed: Option<u32>,
    samples: &Vec<Sample>,
) -> (r: String)
    ensures
        r@ == samples_written(
            report_start(warmup_text@, duration_text@, capped, followed),
            samples@,
        ),
{
    let mut text = REPORT_NOTE.to_string();
    text.append("# warmup_seconds=");
    text.append(warmup_text);
    text.append(",requested_seconds=");
    text.append(duration_text);
    text.append(",sample_cap_reached=");
    if capped {
        text.append("true");
    } else {
        text.append("false");
    }
    text.push('\n');
    text.append("# tracked_object_id=");
    text.append(tracked_name(followed).as_str());
    text.push('\n');
    text.append(REPORT_HEADER);
    let ghost start = text@;
    let mut i: usize = 0;
    assert(samples@.take(0) =~= Seq::<Sample>::empty());
    while i < samples.len()
        invariant
            i <= samples@.len(),
            text@ == samples_written(start, samples@.take(i as int)),
        decreases samples@.len() - i,
    {
        assert(samples@.take(i + 1).drop_last() =~= samples@.take(i as int));
        write_sample(&mut text, &samples[i]);
        i = i + 1;
    }
    assert(samples@.take(i as int) =~= samples@);
    text
}

/// A window and a font as they are, or are to be.
#[derive(Clone, Copy, Debug)]
pub struct WindowShape {
    pub width: u32,
    pub height: u32,
    pub scale: Option<Number>,
    pub font: i32,
}

impl WindowShape {
    pub open spec fn equals(self, other: WindowShape) -> bool {
        self.width == other.width && self.height == other.height && self.font == other.font
            && options_equal(self.scale, other.scale)
    }

    fn same(&self, other: &WindowShape) -> (r: bool)
        ensures
            r == self.equals(*other),
    {
        self.width == other.width && self.height == other.height && self.font == other.font
            && match (self.scale, other.scale) {
            (Some(a), Some(b)) => a.same(b),
            (None, None) => true,
            _ => false,
        }
    }
}

pub open spec fn two_points_larger(size: i32) -> i32 {
    if size > i32::MAX - 2 {
        i32::MAX
    } else {
        (size + 2) as i32
    }
}

/// A side that is a quarter longer, where five times it can be counted.
pub open spec fn quarter_longer(side: u32) -> u32 {
    if side * 5 > u32::MAX {
        u32::MAX / 4
    } else {
        (side * 5 / 4) as u32
    }
}

/// The window and the font in a phase of a resize cycle, which has a larger font in
/// one stage, another scale in one, and a larger window in one.
pub open spec fn cycle_shape(initial: WindowShape, phase: u64) -> WindowShape {
    WindowShape {
        width: if phase % 7 == 5 {
            quarter_longer(initial.width)
        } else {
            initial.width
        },
        height: if phase % 7 == 5 {
            quarter_longer(initial.height)
        } else {
            initial.height
        },
        scale: if phase % 7 == 3 {
            Some(Number { bits: CYCLE_SCALE })
        } else {
            initial.scale
        },
        font: if phase % 7 == 1 {
            two_points_larger(initial.font)
        } else {
            initial.font
        },
    }
}

fn longer_side(side: u32) -> (r: u32)
    ensures
        r == quarter_longer(side),
{
    let five: u64 = side as u64 * 5;
    if five > u32::MAX as u64 {
        u32::MAX / 4
    } else {
        (five / 4) as u32
    }
}

fn shape_in_phase(initial: WindowShape, phase: u64) -> (r: WindowShape)
    ensures
        r == cycle_shape(initial, phase),
{
    let stage: u64 = phase % 7;
    WindowShape {
        width: if stage == 5 {
            longer_side(initial.width)
        } else {
            initial.width
        },
        height: if stage == 5 {
            longer_side(initial.height)
        } else {
            initial.height
        },
        scale: if stage == 3 {
            Some(Number { bits: CYCLE_SCALE })
        } else {
            initial.scale
        },
        font: if stage == 1 {
            if initial.font > i32::MAX - 2 {
                i32::MAX
            } else {
                initial.font + 2
            }
        } else {
            initial.font
        },
    }
}

/// A recording. Times are in nanoseconds from some origin.
#[derive(Debug)]
pub struct Recording {
    pub duration: u64,
    pub warmup: u64,
    pub launched: u64,
    pub ready: Option<u64>,
    pub first: u64,
    pub previous: Option<u64>,
    pub samples: Vec<Sample>,
    pub finished: bool,
    pub tracked_object: Option<u32>,
    pub resize_initial: Option<WindowShape>,
    pub resize_phase: Option<u64>,
}

/// What comes after a frame was recorded.
#[derive(Clone, Copy, Debug, PartialEq, Eq, Structural)]
pub enum RecordStep {
    /// The next frame.
    Continue,
    /// The end: the recording took too long.
    Overdue,
    /// The end: the report is to be written. One with too many samples is no success.
    Report { capped: bool },
}

/// The time from one moment to another; none where that lies before.
pub open spec fn since(earlier: u64, later: u64) -> u64 {
    if later < earlier {
        0
    } else {
        (later - earlier) as u64
    }
}

/// The sample that a frame makes at a moment.
pub open spec fn sample_of(before: Recording, now: u64, frame: Frame, sample: Sample) -> bool {
    let ready = match before.ready {
        Some(ready) => ready,
        None => now,
    };
    &&& sample.age == since(ready, now)
    &&& sample.interval == (match before.previous {
        Some(previous) => Some(since(previous, now)),
        None => None,
    })
    &&& sample.marker_wall == since(before.first, now)
    &&& sample.focused == frame.focused
    &&& sample.cols == frame.cols
    &&& sample.rows == frame.rows
    &&& sample.scale == frame.scale
    &&& sample.bytes == frame.bytes
    &&& sample.since_install == since(before.launched, now)
    &&& sample.totals == frame.totals
    &&& sample.resources == frame.resources
    &&& sample.placement == (if before.tracked_object is Some {
        frame.placement
    } else {
        None
    })
    &&& sample.resize_phase == before.resize_phase
    &&& sample.physical_size == frame.physical_size
}

impl Recording {
    /// Whether the recording took too long.
    pub open spec fn overdue(self, now: u64) -> bool {
        since(self.launched, now) > STARTUP_LIMIT + self.warmup + self.duration
    }

    pub open spec fn ready_at(self, now: u64) -> u64 {
        match self.ready {
            Some(ready) => ready,
            None => now,
        }
    }

    /// Whether a frame is one to be measured.
    pub open spec fn measures(frame: Option<Frame>) -> bool {
        frame matches Some(frame) && frame.visible && frame.measured
    }

    /// Whether two recordings agree but for the times of the frames, the samples
    /// and whether they are finished.
    pub open spec fn same_setup(self, other: Recording) -> bool {
        &&& self.duration == other.duration
        &&& self.warmup == other.warmup
        &&& self.launched == other.launched
        &&& self.first == other.first
        &&& self.tracked_object == other.tracked_object
        &&& self.resize_initial == other.resize_initial
        &&& self.resize_phase == other.resize_phase
    }

    /// What a recording is after a frame, and what comes then.
    pub open spec fn recorded(
        before: Recording,
        now: u64,
        frame: Option<Frame>,
        after: Recording,
        step: RecordStep,
    ) -> bool {
        let age = since(before.ready_at(now), now);
        &&& after.same_setup(before)
        &&& if before.finished {
            after == before && step == RecordStep::Continue
        } else if before.overdue(now) {
            &&& after.finished
            &&& after.ready == before.ready
            &&& after.previous == before.previous
            &&& after.samples@ == before.samples@
            &&& step == RecordStep::Overdue
        } else if !Recording::measures(frame) {
            after == before && step == RecordStep::Continue
        } else {
            &&& after.ready == Some(before.ready_at(now))
            &&& after.previous == Some(now)
            &&& if age < before.warmup {
                &&& after.samples@ == before.samples@
                &&& !after.finished
                &&& step == RecordStep::Continue
            } else {
                let capped = after.samples@.len() >= SAMPLE_CAP;
                &&& after.samples@.len() == before.samples@.len() + 1
                &&& after.samples@.drop_last() == before.samples@
                &&& sample_of(before, now, frame->0, after.samples@.last())
                &&& after.finished == (age >= before.warmup + before.duration || capped)
                &&& step == (if after.finished {
                    RecordStep::Report { capped }
                } else {
                    RecordStep::Continue
                })
            }
        }
    }

    /// Takes in what is seen in a frame.
    pub fn record(&mut self, now: u64, frame: Option<Frame>) -> (r: RecordStep)
        ensures
            Recording::recorded(*old(self), now, frame, *final(self), r),
    {
        if self.finished {
            return RecordStep::Continue;
        }
        let limit: u128 = STARTUP_LIMIT as u128 + self.warmup as u128 + self.duration as u128;
        if now.saturating_sub(self.launched) as u128 > limit {
            self.finished = true;
            return RecordStep::Overdue;
        }
        let frame = match frame {
            Some(frame) => frame,
            None => {
                return RecordStep::Continue;
            },
        };
        if !frame.visible || !frame.measured {
            return RecordStep::Continue;
        }
        let ready: u64 = match self.ready {
            Some(ready) => ready,
            None => now,
        };
        self.ready = Some(ready);
        let age: u64 = now.saturating_sub(ready);
        let previous = self.previous;
        self.previous = Some(now);
        if age < self.warmup {
            return RecordStep::Continue;
        }
        let sample = Sample {
            age,
            interval: match previous {
                Some(previous) => Some(now.saturating_sub(previous)),
                None => None,
            },
            marker_wall: now.saturating_sub(self.first),
            focused: frame.focused,
            cols: frame.cols,
            rows: frame.rows,
            scale: frame.scale,
            bytes: frame.bytes,
            since_install: now.saturating_sub(self.launched),
            totals: frame.totals,
            resources: frame.resources,
            placement: if self.tracked_object.is_some() {
                frame.placement
            } else {
                None
            },
            resize_phase: self.resize_phase,
            physical_size: frame.physical_size,
        };
        self.samples.push(sample);
        assert(self.samples@.drop_last() =~= old(self).samples@);
        let capped = self.samples.len() >= SAMPLE_CAP;
        if age as u128 >= self.warmup as u128 + self.duration as u128 || capped {
            self.finished = true;
            return RecordStep::Report { capped };
        }
        RecordStep::Continue
    }

    /// The phase of a resize cycle at a moment: two seconds each, from the end of the
    /// warmup on.
    pub open spec fn phase_at(self, now: u64) -> Option<u64> {
        match self.ready {
            Some(ready) => if self.finished || since(ready, now) < self.warmup {
                None
            } else {
                Some(((since(ready, now) - self.warmup) as u64 / SECOND / 2) as u64)
            },
            None => None,
        }
    }

    pub open spec fn cycle_start(self, current: WindowShape) -> WindowShape {
        match self.resize_initial {
            Some(initial) => initial,
            None => current,
        }
    }

    /// Gives the window and the font that a resize cycle asks for, where they are not
    /// what they are. Each phase comes from the start, whatever was missed.
    pub fn resize_cycle_step(&mut self, now: u64, current: WindowShape) -> (r: Option<WindowShape>)
        ensures
            match old(self).phase_at(now) {
                None => r is None && *final(self) == *old(self),
                Some(phase) => {
                    let initial = old(self).cycle_start(current);
                    let wanted = cycle_shape(initial, phase);
                    &&& final(self).resize_initial == Some(initial)
                    &&& final(self).resize_phase == Some(phase)
                    &&& r == (if old(self).resize_phase == Some(phase) && current.equals(wanted) {
                        None
                    } else {
                        Some(wanted)
                    })
                },
            },
            final(self).samples@ == old(self).samples@,
            final(self).ready == old(self).ready,
            final(self).previous == old(self).previous,
            final(self).finished == old(self).finished,
            final(self).duration == old(self).duration,
            final(self).warmup == old(self).warmup,
            final(self).launched == old(self).launched,
            final(self).first == old(self).first,
            final(self).tracked_object == old(self).tracked_object,
    {
        let ready: u64 = match self.ready {
            Some(ready) => ready,
            None => {
                return None;
            },
        };
        let elapsed: u64 = now.saturating_sub(ready);
        if self.finished || elapsed < self.warmup {
            return None;
        }
        let initial = match self.resize_initial {
            Some(initial) => initial,
            None => current,
        };
        self.resize_initial = Some(initial);
        let phase: u64 = (elapsed - self.warmup) / SECOND / 2;
        let wanted = shape_in_phase(initial, phase);
        let reached = match self.resize_phase {
            Some(reached) => reached == phase,
            None => false,
        };
        self.resize_phase = Some(phase);
        if reached && current.same(&wanted) {
            return None;
        }
        Some(wanted)
    }
}

/// Whether a recording that ended has its report: it was written, and it is
/// complete.
#[derive(Clone, Copy, Debug, PartialEq, Eq, Structural)]
pub struct Completion {
    pub written: bool,
}

/// A recording ended without a complete report.
#[derive(Clone, Copy, Debug, PartialEq, Eq, Structural)]
pub struct IncompleteRecording;

impl Completion {
    /// Notes what became of a report.
    pub fn report_written(&mut self, succeeded: bool, capped: bool)
        ensures
            final(self).written == (old(self).written || (succeeded && !capped)),
    {
        if succeeded && !capped {
            self.written = true;
        }
    }

    pub fn check(self) -> (r: Result<(), IncompleteRecording>)
        ensures
            r == (if self.written {
                Ok(())
            } else {
                Err(IncompleteRecording)
            }),
    {
        if self.written {
            Ok(())
        } else {
            Err(IncompleteRecording)
        }
    }
}

/// A recording that is finished stays as it is.
pub proof fn law_finished_recordings_stay(
    before: Recording,
    now: u64,
    frame: Option<Frame>,
    after: Recording,
    step: RecordStep,
)
    requires
        before.finished,
        Recording::recorded(before, now, frame, after, step),
    ensures
        after == before,
        step == RecordStep::Continue,
{
}

/// A recording that takes samples one by one never has more than the most.
pub proof fn law_samples_are_capped(
    before: Recording,
    now: u64,
    frame: Option<Frame>,
    after: Recording,
    step: RecordStep,
)
    requires
        !before.finished ==> before.samples@.len() < SAMPLE_CAP,
        before.samples@.len() <= SAMPLE_CAP,
        Recording::recorded(before, now, frame, after, step),
    ensures
        !after.finished ==> after.samples@.len() < SAMPLE_CAP,
        after.samples@.len() <= SAMPLE_CAP,
{
}

} // verus!

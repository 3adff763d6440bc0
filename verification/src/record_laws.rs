//! What recordings hold and how their reports are written.

use crate::number::Number;
use crate::performance::{
    cycle_shape, digits_text, field, fields, report_start, sample_written, samples_written, seconds_text,
    tracked_text, Frame, RecordStep, Recording, Sample, WindowShape, REPORT_HEADER, REPORT_NOTE,
};
use crate::snapshot::number_text;
use crate::snapshot_laws::{law_numbers_are_written_in_decimal, value_of};
use vstd::prelude::*;

verus! {

proof fn lemma_digits(fraction: nat, n: nat)
    ensures
        digits_text(fraction, n).len() == n,
        of_power(n) >= 1,
        value_of(digits_text(fraction, n)) == fraction as int % of_power(n),
    decreases n,
{
    if n > 0 {
        let m = (n - 1) as nat;
        lemma_digits(fraction / 10, m);
        let text = digits_text(fraction, n);
        assert(text.drop_last() =~= digits_text(fraction / 10, m));
        let p = of_power(m);
        vstd::arithmetic::div_mod::lemma_breakdown(fraction as int, 10, p);
        assert(of_power(n) == 10 * p);
    } else {
        assert(fraction as int % 1 == 0);
    }
}

/// A power of ten.
pub open spec fn of_power(n: nat) -> int
    decreases n,
{
    if n == 0 {
        1
    } else {
        10 * of_power((n - 1) as nat)
    }
}

/// Nanoseconds are written as seconds in decimal: the whole ones, a point, and nine digits for
/// the billionths.
pub proof fn law_nanoseconds_are_written_as_seconds(nanoseconds: u64)
    ensures
        ({
            let text = seconds_text(nanoseconds);
            let point = text.len() - 10;
            &&& point > 0
            &&& text[point] == '.'
            &&& value_of(text.take(point)) * 1_000_000_000 + value_of(text.skip(point + 1))
                == nanoseconds
            &&& value_of(text.skip(point + 1)) < 1_000_000_000
        }),
{
    let whole = number_text((nanoseconds / 1_000_000_000) as nat);
    let fraction = (nanoseconds % 1_000_000_000) as nat;
    law_numbers_are_written_in_decimal((nanoseconds / 1_000_000_000) as nat);
    lemma_digits(fraction, 9);
    reveal_with_fuel(of_power, 10);
    assert(of_power(9) == 1_000_000_000);
    let text = seconds_text(nanoseconds);
    let point = text.len() - 10;
    assert(text.take(point) =~= whole);
    assert(text.skip(point + 1) =~= digits_text(fraction, 9));
}

/// Values with commas between them.
pub open spec fn with_commas(values: Seq<Seq<char>>) -> Seq<char>
    decreases values.len(),
{
    if values.len() == 0 {
        Seq::empty()
    } else if values.len() == 1 {
        values[0]
    } else {
        with_commas(values.drop_last()) + seq![','] + values.last()
    }
}

proof fn lemma_commas(text: Seq<char>, values: Seq<Seq<char>>, value: Seq<char>)
    requires
        values.len() > 0,
    ensures
        text + with_commas(values.push(value)) == (text + with_commas(values)).push(',') + value,
{
    assert(values.push(value).drop_last() =~= values);
    assert(text + with_commas(values.push(value)) =~= (text + with_commas(values)).push(',') + value);
}

proof fn lemma_fields(text: Seq<char>, values: Seq<Seq<char>>, numbers: Seq<u64>)
    requires
        values.len() > 0,
    ensures
        fields(text + with_commas(values), numbers) == text + with_commas(
            values + numbers_written(numbers),
        ),
    decreases numbers.len(),
{
    if numbers.len() == 0 {
        assert(values + numbers_written(numbers) =~= values);
    } else {
        let before = numbers.drop_last();
        lemma_fields(text, values, before);
        let last = number_text(numbers.last() as nat);
        lemma_commas(text, values + numbers_written(before), last);
        assert((values + numbers_written(before)).push(last) =~= values + numbers_written(numbers));
    }
}

/// Numbers in decimal.
pub open spec fn numbers_written(numbers: Seq<u64>) -> Seq<Seq<char>> {
    Seq::new(numbers.len(), |i: int| number_text(numbers[i] as nat))
}

/// The columns of a row of a report before the counts.
pub open spec fn first_columns(sample: Sample) -> Seq<Seq<char>> {
    seq![
        seconds_text(sample.age),
        match sample.interval {
            Some(interval) => seconds_text(interval),
            None => Seq::empty(),
        },
        seconds_text(sample.marker_wall),
        if sample.focused {
            "true"@
        } else {
            "false"@
        },
        number_text(sample.cols as nat),
        number_text(sample.rows as nat),
        sample.scale@,
        number_text(sample.bytes as nat),
        seconds_text(sample.since_install),
    ]
}

/// The columns of a row of a report behind the counts.
pub open spec fn last_columns(sample: Sample) -> Seq<Seq<char>> {
    seq![
        match sample.placement {
            Some(place) => number_text(place.0 as nat),
            None => Seq::empty(),
        },
        match sample.placement {
            Some(place) => number_text(place.1 as nat),
            None => Seq::empty(),
        },
        match sample.placement {
            Some(place) => place.2@,
            None => Seq::empty(),
        },
        match sample.resize_phase {
            Some(phase) => number_text(phase as nat),
            None => Seq::empty(),
        },
        number_text(sample.physical_size.0 as nat),
        number_text(sample.physical_size.1 as nat),
    ]
}

proof fn lemma_first_columns(text: Seq<char>, sample: Sample)
    ensures
        crate::performance::start_written(text, sample) == text + with_commas(first_columns(sample)),
{
    let all = first_columns(sample);
    assert(with_commas(all.take(1)) == all[0]);
    assert(all.take(1).push(all[1]) =~= all.take(2));
    assert(all.take(2).push(all[2]) =~= all.take(3));
    assert(all.take(3).push(all[3]) =~= all.take(4));
    assert(all.take(4).push(all[4]) =~= all.take(5));
    assert(all.take(5).push(all[5]) =~= all.take(6));
    assert(all.take(6).push(all[6]) =~= all.take(7));
    assert(all.take(7).push(all[7]) =~= all.take(8));
    assert(all.take(8).push(all[8]) =~= all);
    lemma_commas(text, all.take(1), all[1]);
    lemma_commas(text, all.take(2), all[2]);
    lemma_commas(text, all.take(3), all[3]);
    lemma_commas(text, all.take(4), all[4]);
    lemma_commas(text, all.take(5), all[5]);
    lemma_commas(text, all.take(6), all[6]);
    lemma_commas(text, all.take(7), all[7]);
    lemma_commas(text, all.take(8), all[8]);
    let age = (text + seconds_text(sample.age)).push(',');
    assert(age + Seq::<char>::empty() =~= age);
}

proof fn lemma_last_columns(text: Seq<char>, before: Seq<Seq<char>>, sample: Sample)
    requires
        before.len() > 0,
    ensures
        ({
            let placed = crate::performance::phase_written(
                crate::performance::placement_written(text + with_commas(before), sample.placement),
                sample.resize_phase,
            );
            field(field(placed, sample.physical_size.0 as int), sample.physical_size.1 as int) == text
                + with_commas(before + last_columns(sample))
        }),
{
    let all = last_columns(sample);
    let whole = before + all;
    let n = before.len() as int;
    assert(whole.take(n) =~= before);
    assert(whole.take(n).push(all[0]) =~= whole.take(n + 1));
    assert(whole.take(n + 1).push(all[1]) =~= whole.take(n + 2));
    assert(whole.take(n + 2).push(all[2]) =~= whole.take(n + 3));
    assert(whole.take(n + 3).push(all[3]) =~= whole.take(n + 4));
    assert(whole.take(n + 4).push(all[4]) =~= whole.take(n + 5));
    assert(whole.take(n + 5).push(all[5]) =~= whole);
    lemma_commas(text, whole.take(n), all[0]);
    lemma_commas(text, whole.take(n + 1), all[1]);
    lemma_commas(text, whole.take(n + 2), all[2]);
    lemma_commas(text, whole.take(n + 3), all[3]);
    lemma_commas(text, whole.take(n + 4), all[4]);
    lemma_commas(text, whole.take(n + 5), all[5]);
    let start = text + with_commas(before);
    if sample.placement is None {
        reveal_strlit(",,,");
        let none = Seq::<char>::empty();
        assert(start + ",,,"@ =~= ((start.push(',') + none).push(',') + none).push(',') + none);
    }
    let placed = text + with_commas(whole.take(n + 3));
    assert(placed.push(',') + Seq::<char>::empty() =~= placed.push(','));
}

/// A row of a report has its values with commas between them and a line break behind them:
/// the times, the size and the bytes, the counts, where the object that is followed was, the
/// phase and the size of the window. What there is not is left empty.
pub proof fn law_samples_are_rows(text: Seq<char>, sample: Sample)
    ensures
        sample_written(text, sample) == text + with_commas(
            first_columns(sample) + numbers_written(sample.totals@) + numbers_written(
                sample.resources@,
            ) + last_columns(sample),
        ) + seq!['\n'],
{
    let first = first_columns(sample);
    let totals = first + numbers_written(sample.totals@);
    let counts = totals + numbers_written(sample.resources@);
    lemma_first_columns(text, sample);
    lemma_fields(text, first, sample.totals@);
    lemma_fields(text, totals, sample.resources@);
    lemma_last_columns(text, counts, sample);
    let row = text + with_commas(counts + last_columns(sample));
    assert(row.push('\n') =~= row + seq!['\n']);
}

/// A report has one row for each sample, in their order.
pub proof fn law_reports_have_a_row_for_each_sample(
    text: Seq<char>,
    samples: Seq<Sample>,
    sample: Sample,
)
    ensures
        samples_written(text, Seq::empty()) == text,
        samples_written(text, samples.push(sample)) == sample_written(
            samples_written(text, samples),
            sample,
        ),
{
    assert(samples.push(sample).drop_last() =~= samples);
}

/// The object that is followed is named in a report as an option.
pub proof fn law_followed_objects_are_named(id: u32)
    ensures
        tracked_text(None) == "None"@,
        tracked_text(Some(id)) == "Some("@ + number_text(id as nat) + seq![')'],
{
    assert(("Some("@ + number_text(id as nat)).push(')') =~= "Some("@ + number_text(id as nat)
        + seq![')']);
}

/// What has passed from one time to a later one; nothing, where it is no later one.
pub open spec fn passed(from: u64, to: u64) -> int {
    if to < from {
        0
    } else {
        to - from
    }
}

/// A frame that is seen and measured is sampled once the warmup is over: with the time since
/// the first such frame, since the frame before it, since the frame began and since the
/// recording was begun. The recording ends when its duration is over or with its 100000th
/// sample.
pub proof fn law_frames_are_sampled(
    before: Recording,
    now: u64,
    frame: Frame,
    after: Recording,
    step: RecordStep,
)
    requires
        Recording::recorded(before, now, Some(frame), after, step),
        frame.visible,
        frame.measured,
        !before.finished,
        passed(before.launched, now) <= 60_000_000_000 + before.warmup + before.duration,
    ensures
        ({
            let start = match before.ready {
                Some(ready) => ready,
                None => now,
            };
            let age = passed(start, now);
            let sample = after.samples@.last();
            &&& after.ready == Some(start)
            &&& after.previous == Some(now)
            &&& age < before.warmup ==> after.samples@ == before.samples@ && !after.finished && step
                == RecordStep::Continue
            &&& age >= before.warmup ==> {
                &&& after.samples@.len() == before.samples@.len() + 1
                &&& after.samples@.drop_last() == before.samples@
                &&& sample.age == age
                &&& before.previous matches Some(previous) ==> sample.interval == Some(
                    passed(previous, now) as u64,
                )
                &&& before.previous is None ==> sample.interval is None
                &&& sample.marker_wall == passed(before.first, now)
                &&& sample.since_install == passed(before.launched, now)
                &&& sample.focused == frame.focused
                &&& sample.cols == frame.cols
                &&& sample.rows == frame.rows
                &&& sample.scale == frame.scale
                &&& sample.bytes == frame.bytes
                &&& sample.totals == frame.totals
                &&& sample.resources == frame.resources
                &&& sample.physical_size == frame.physical_size
                &&& sample.resize_phase == before.resize_phase
                &&& before.tracked_object is Some ==> sample.placement == frame.placement
                &&& before.tracked_object is None ==> sample.placement is None
                &&& after.finished <==> age >= before.warmup + before.duration
                    || after.samples@.len() >= 100000
                &&& !after.finished ==> step == RecordStep::Continue
                &&& after.finished ==> step == (RecordStep::Report {
                    capped: after.samples@.len() >= 100000,
                })
            }
        }),
{
}

/// A recording that takes a minute more than it is to take is given up; a frame that is not
/// seen, or not measured, changes nothing.
pub proof fn law_recordings_are_given_up(
    before: Recording,
    now: u64,
    frame: Option<Frame>,
    after: Recording,
    step: RecordStep,
)
    requires
        Recording::recorded(before, now, frame, after, step),
        !before.finished,
    ensures
        ({
            let late = passed(before.launched, now) > 60_000_000_000 + before.warmup
                + before.duration;
            let seen = frame matches Some(frame) && frame.visible && frame.measured;
            &&& step == RecordStep::Overdue <==> late
            &&& late ==> after.finished && after.samples@ == before.samples@
            &&& !late && !seen ==> after == before && step == RecordStep::Continue
        }),
{
}

/// The window goes through phases of two seconds after the warmup: every other one is as it
/// was, and of the rest one has a larger font, one another scale, and one is a quarter larger.
pub proof fn law_windows_change_in_phases(initial: WindowShape, recording: Recording, now: u64, ready: u64)
    requires
        recording.ready == Some(ready),
        !recording.finished,
        initial.width < 0x3000_0000,
        initial.height < 0x3000_0000,
        initial.font < 0x7fff_fff0,
    ensures
        passed(ready, now) < recording.warmup ==> recording.phase_at(now) is None,
        passed(ready, now) >= recording.warmup ==> recording.phase_at(now) == Some(
            ((passed(ready, now) - recording.warmup) / 2_000_000_000) as u64,
        ),
        forall|phase: u64|
            phase % 7 == 0 || phase % 7 == 2 || phase % 7 == 4 || phase % 7 == 6
                ==> #[trigger] cycle_shape(initial, phase) == initial,
        forall|phase: u64|
            phase % 7 == 1 ==> #[trigger] cycle_shape(initial, phase) == (WindowShape {
                font: (initial.font + 2) as i32,
                ..initial
            }),
        forall|phase: u64|
            phase % 7 == 3 ==> #[trigger] cycle_shape(initial, phase) == (WindowShape {
                scale: Some(Number { bits: 0x3fc0_0000 }),
                ..initial
            }),
        forall|phase: u64|
            phase % 7 == 5 ==> #[trigger] cycle_shape(initial, phase) == (WindowShape {
                width: (initial.width * 5 / 4) as u32,
                height: (initial.height * 5 / 4) as u32,
                ..initial
            }),
{
    if passed(ready, now) >= recording.warmup {
        let rest = passed(ready, now) - recording.warmup;
        assert(rest / 1_000_000_000 / 2 == rest / 2_000_000_000);
    }
}

/// A report starts with a note, the times that were asked for, whether it is cut short, the
/// object that is followed and the names of the columns.
pub proof fn law_reports_start_with_what_was_asked_for(
    warmup: Seq<char>,
    duration: Seq<char>,
    capped: bool,
    followed: Option<u32>,
)
    ensures
        report_start(warmup, duration, capped, followed) == REPORT_NOTE@ + "# warmup_seconds="@
            + warmup + ",requested_seconds="@ + duration + ",sample_cap_reached="@ + (if capped {
            "true"@
        } else {
            "false"@
        }) + seq!['\n'] + "# tracked_object_id="@ + tracked_text(followed) + seq!['\n']
            + REPORT_HEADER@,
{
    let times = REPORT_NOTE@ + "# warmup_seconds="@ + warmup + ",requested_seconds="@ + duration
        + ",sample_cap_reached="@;
    let word = if capped {
        "true"@
    } else {
        "false"@
    };
    assert((times + word).push('\n') =~= times + word + seq!['\n']);
    let cap = times + word + seq!['\n'];
    assert((cap + "# tracked_object_id="@ + tracked_text(followed)).push('\n') =~= cap
        + "# tracked_object_id="@ + tracked_text(followed) + seq!['\n']);
}

} // verus!

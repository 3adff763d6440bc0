//! A parser for terminal output.

use crate::ratty_vt::ascii_laws::{
    is_plain_event, law_new_screens_are_plain, law_plain_output_keeps_screens_plain,
};
use crate::ratty_vt::callbacks::{deliver, Callbacks};
use crate::ratty_vt::clean_laws::{law_new_screens_are_clean, law_output_keeps_screens_clean};
use crate::ratty_vt::event::{
    cut, events_of, events_view, fed, feed, find_piece, law_events_do_not_depend_on_splits,
    new_parser, Event, EventModel, InputModel,
};
use crate::ratty_vt::grid::Size;
use crate::ratty_vt::perform::{parts, Notice, NoticeModel, PerformedModel};
use crate::ratty_vt::screen::Screen;
use crate::ratty_vt::screen_model::ScreenModel;
use crate::ratty_vt::term::push_bytes;
use crate::ratty_vt::wide::law_output_never_splits_a_wide_character;
use vstd::prelude::*;
use vstd::slice::slice_subrange;
use vte::Parser as VteParser;

verus! {

/// What an event makes of a screen on which no callback interferes, and the
/// notices that it gives rise to.
pub open spec fn event_run(screen: ScreenModel, event: EventModel, from: int) -> (
    ScreenModel,
    Seq<NoticeModel>,
)
    decreases parts(event) - from,
{
    let performed = screen.performed(event, from);
    let notices = match performed.notice {
        Some(notice) => seq![notice],
        None => Seq::empty(),
    };
    match performed.next {
        Some(next) => if from < next <= parts(event) {
            let (after, rest) = event_run(performed.screen, event, next);
            (after, notices + rest)
        } else {
            (performed.screen, notices)
        },
        None => (performed.screen, notices),
    }
}

/// What events make of a screen on which no callback interferes, and the
/// notices that they give rise to.
pub open spec fn events_run(screen: ScreenModel, events: Seq<EventModel>) -> (
    ScreenModel,
    Seq<NoticeModel>,
)
    decreases events.len(),
{
    if events.len() == 0 {
        (screen, Seq::empty())
    } else {
        let (before, notices) = events_run(screen, events.drop_last());
        let (after, more) = event_run(before, events.last(), 0);
        (after, notices + more)
    }
}

/// Events run one after the other, wherever they are split.
pub proof fn law_events_run_in_order(screen: ScreenModel, first: Seq<EventModel>, second: Seq<EventModel>)
    ensures
        ({
            let (middle, notices) = events_run(screen, first);
            let (end, more) = events_run(middle, second);
            events_run(screen, first + second) == (end, notices + more)
        }),
    decreases second.len(),
{
    let (middle, notices) = events_run(screen, first);
    if second.len() == 0 {
        assert(first + second =~= first);
        assert(notices + Seq::<NoticeModel>::empty() =~= notices);
    } else {
        law_events_run_in_order(screen, first, second.drop_last());
        assert((first + second).drop_last() =~= first + second.drop_last());
        assert((first + second).last() == second.last());
        let (before, some) = events_run(middle, second.drop_last());
        let (end, more) = event_run(before, second.last(), 0);
        assert((notices + some) + more =~= notices + (some + more));
    }
}

/// Output that arrives in two reads does what it does in one, wherever it is split: screen
/// and notices are the same.
pub proof fn law_output_may_be_split(
    screen: ScreenModel,
    input: InputModel,
    first: Seq<u8>,
    second: Seq<u8>,
)
    ensures
        ({
            let (middle, notices) = events_run(screen, input.events(first));
            let (end, more) = events_run(middle, input.and(first).events(second));
            events_run(screen, input.events(first + second)) == (end, notices + more)
        }),
{
    law_events_do_not_depend_on_splits(input, first, second);
    law_events_run_in_order(screen, input.events(first), input.and(first).events(second));
}

/// Whether events print ASCII text alone.
pub open spec fn are_plain(events: Seq<EventModel>) -> bool {
    forall|i: int| 0 <= i < events.len() ==> is_plain_event(#[trigger] events[i])
}

/// One notice handed to a callback: the listener and the screen before that, and what
/// the callback left of them.
pub struct Call<CB> {
    pub before: CB,
    pub after: CB,
    pub screen: Screen,
    pub shown: Screen,
    pub notice: NoticeModel,
}

/// The notices of some calls.
pub open spec fn calls_notices<CB>(calls: Seq<Call<CB>>) -> Seq<NoticeModel> {
    Seq::new(calls.len(), |i: int| calls[i].notice)
}

/// Whether each call found the listener as the one before had left it.
pub open spec fn linked<CB>(before: CB, calls: Seq<Call<CB>>, after: CB) -> bool {
    if calls.len() == 0 {
        before == after
    } else {
        &&& calls[0].before == before
        &&& calls.last().after == after
        &&& forall|i: int|
            0 <= i < calls.len() - 1 ==> (#[trigger] calls[i]).after == calls[i + 1].before
    }
}

/// Whether an event, from one of its parts on, leaves a screen behind: every notice that
/// it gives rise to is handed on in turn with the screen as it is then, and the event goes
/// on with the screen that the callback left.
pub open spec fn event_told<CB>(
    screen: ScreenModel,
    event: EventModel,
    from: int,
    calls: Seq<Call<CB>>,
    end: ScreenModel,
) -> bool
    decreases parts(event) - from,
{
    let performed = screen.performed(event, from);
    let told = performed.notice is Some;
    let left = if told { calls[0].shown@ } else { performed.screen };
    let rest = if told { calls.skip(1) } else { calls };
    &&& performed.notice matches Some(notice) ==> calls.len() > 0 && calls[0].notice == notice
        && calls[0].screen@ == performed.screen
    &&& match performed.next {
        Some(next) => if from < next <= parts(event) {
            event_told(left, event, next, rest, end)
        } else {
            rest.len() == 0 && end == left
        },
        None => rest.len() == 0 && end == left,
    }
}

/// Whether events, one after the other, leave a screen behind.
#[verifier::opaque]
pub open spec fn events_told<CB>(
    screen: ScreenModel,
    events: Seq<EventModel>,
    calls: Seq<Call<CB>>,
    end: ScreenModel,
) -> bool
    decreases events.len(),
{
    if events.len() == 0 {
        calls.len() == 0 && end == screen
    } else {
        exists|n: int, middle: ScreenModel|
            0 <= n <= calls.len() && events_told(
                screen,
                events.drop_last(),
                calls.take(n),
                middle,
            ) && #[trigger] event_told(middle, events.last(), 0, calls.skip(n), end)
    }
}

/// Whether calls take an event to one of its parts: what the rest of it leaves behind, the
/// whole of it does.
#[verifier::opaque]
spec fn leads_to<CB>(
    start: ScreenModel,
    event: EventModel,
    calls: Seq<Call<CB>>,
    screen: ScreenModel,
    from: int,
) -> bool {
    forall|rest: Seq<Call<CB>>, end: ScreenModel| #[trigger]
        event_told(screen, event, from, rest, end) ==> event_told(
            start,
            event,
            0,
            calls + rest,
            end,
        )
}

proof fn lemma_leads_from_start<CB>(start: ScreenModel, event: EventModel)
    ensures
        leads_to(start, event, Seq::<Call<CB>>::empty(), start, 0),
{
    reveal(leads_to);
    assert forall|rest: Seq<Call<CB>>, end: ScreenModel| #[trigger]
        event_told(start, event, 0, rest, end) implies event_told(
        start,
        event,
        0,
        Seq::<Call<CB>>::empty() + rest,
        end,
    ) by {
        assert(Seq::<Call<CB>>::empty() + rest =~= rest);
    }
}

/// The calls of one part of an event, which is one or none.
spec fn part_calls<CB>(
    performed: PerformedModel,
    calls: Seq<Call<CB>>,
    left: ScreenModel,
) -> bool {
    match performed.notice {
        Some(notice) => calls.len() == 1 && calls[0].notice == notice && calls[0].screen@
            == performed.screen && calls[0].shown@ == left,
        None => calls.len() == 0 && left == performed.screen,
    }
}

proof fn lemma_leads_on<CB>(
    start: ScreenModel,
    event: EventModel,
    calls: Seq<Call<CB>>,
    screen: ScreenModel,
    from: int,
    now: Seq<Call<CB>>,
    left: ScreenModel,
    next: int,
)
    requires
        leads_to(start, event, calls, screen, from),
        part_calls(screen.performed(event, from), now, left),
        screen.performed(event, from).next == Some(next),
        from < next <= parts(event),
    ensures
        leads_to(start, event, calls + now, left, next),
{
    reveal(leads_to);
    assert forall|rest: Seq<Call<CB>>, end: ScreenModel| #[trigger]
        event_told(left, event, next, rest, end) implies event_told(
        start,
        event,
        0,
        calls + now + rest,
        end,
    ) by {
        let these = now + rest;
        assert(now.len() == 1 ==> these.skip(1) =~= rest);
        assert(now.len() == 0 ==> these =~= rest);
        assert(event_told(screen, event, from, these, end));
        assert(calls + these =~= calls + now + rest);
    }
}

proof fn lemma_leads_to_end<CB>(
    start: ScreenModel,
    event: EventModel,
    calls: Seq<Call<CB>>,
    screen: ScreenModel,
    from: int,
    now: Seq<Call<CB>>,
    left: ScreenModel,
)
    requires
        leads_to(start, event, calls, screen, from),
        part_calls(screen.performed(event, from), now, left),
        screen.performed(event, from).next is None,
    ensures
        event_told(start, event, 0, calls + now, left),
{
    reveal(leads_to);
    assert(now.len() == 1 ==> now.skip(1) =~= Seq::<Call<CB>>::empty());
    assert(event_told(screen, event, from, now, left));
}

/// Calls that follow others.
proof fn lemma_linked<CB>(
    before: CB,
    first: Seq<Call<CB>>,
    middle: CB,
    second: Seq<Call<CB>>,
    after: CB,
)
    requires
        linked(before, first, middle),
        linked(middle, second, after),
    ensures
        linked(before, first + second, after),
{
    let calls = first + second;
    if first.len() == 0 {
        assert(calls =~= second);
    } else if second.len() == 0 {
        assert(calls =~= first);
    } else {
        assert forall|i: int| 0 <= i < calls.len() - 1 implies (#[trigger] calls[i]).after == calls[i
            + 1].before by {
            if i < first.len() - 1 {
                assert(first[i].after == first[i + 1].before);
            } else if i == first.len() - 1 {
                assert(calls[i] == first.last() && calls[i + 1] == second[0]);
            } else {
                let k = i - first.len();
                assert(second[k].after == second[k + 1].before);
            }
        }
    }
}

/// No event.
proof fn lemma_told_nothing<CB>(screen: ScreenModel)
    ensures
        events_told(screen, Seq::empty(), Seq::<Call<CB>>::empty(), screen),
{
    reveal(events_told);
}

/// One more event.
proof fn lemma_told_more<CB>(
    screen: ScreenModel,
    events: Seq<EventModel>,
    earlier: Seq<Call<CB>>,
    middle: ScreenModel,
    now: Seq<Call<CB>>,
    end: ScreenModel,
)
    requires
        events.len() > 0,
        events_told(screen, events.drop_last(), earlier, middle),
        event_told(middle, events.last(), 0, now, end),
    ensures
        events_told(screen, events, earlier + now, end),
{
    reveal(events_told);
    let calls = earlier + now;
    let n = earlier.len() as int;
    assert(calls.take(n) =~= earlier);
    assert(calls.skip(n) =~= now);
    assert(event_told(middle, events.last(), 0, calls.skip(n), end));
}

/// What some events made of a screen on which no callback interferes, and of the notices
/// before them.
#[verifier::opaque]
spec fn ran(
    screen: ScreenModel,
    told: Seq<NoticeModel>,
    events: Seq<EventModel>,
    now: ScreenModel,
    notices: Seq<NoticeModel>,
) -> bool {
    let (after, more) = events_run(screen, events);
    &&& now == after
    &&& notices == told + more
    &&& screen.uniform() ==> now.uniform()
    &&& screen.whole() ==> now.whole()
    &&& screen.holds_no_controls() ==> now.holds_no_controls()
    &&& screen.holds_ascii() && are_plain(events) ==> now.holds_ascii()
}

proof fn lemma_ran_nothing(screen: ScreenModel, told: Seq<NoticeModel>)
    ensures
        ran(screen, told, Seq::empty(), screen, told),
{
    reveal(ran);
    assert(told + Seq::<NoticeModel>::empty() =~= told);
}

proof fn lemma_ran_more(
    screen: ScreenModel,
    told: Seq<NoticeModel>,
    events: Seq<EventModel>,
    middle: ScreenModel,
    so_far: Seq<NoticeModel>,
    now: ScreenModel,
    notices: Seq<NoticeModel>,
)
    requires
        events.len() > 0,
        ran(screen, told, events.drop_last(), middle, so_far),
        ({
            let (after, more) = event_run(middle, events.last(), 0);
            &&& now == after
            &&& notices == so_far + more
        }),
        middle.uniform() ==> now.uniform(),
        middle.whole() ==> now.whole(),
        middle.holds_no_controls() ==> now.holds_no_controls(),
        middle.holds_ascii() && is_plain_event(events.last()) ==> now.holds_ascii(),
    ensures
        ran(screen, told, events, now, notices),
{
    reveal(ran);
    let (before, earlier) = events_run(screen, events.drop_last());
    let (after, more) = event_run(middle, events.last(), 0);
    assert(told + (earlier + more) =~= told + earlier + more);
    if are_plain(events) {
        assert(is_plain_event(events[events.len() - 1]));
        assert(are_plain(events.drop_last())) by {
            assert forall|i: int| 0 <= i < events.drop_last().len() implies is_plain_event(
                #[trigger] events.drop_last()[i],
            ) by {
                assert(is_plain_event(events[i]));
            }
        }
    }
}

/// A screen and those who listen to it.
pub struct WrappedScreen<CB: Callbacks> {
    pub screen: Screen,
    pub callbacks: CB,
    /// Every notice handed to the callbacks so far.
    pub notices: Ghost<Seq<NoticeModel>>,
}

impl<CB: Callbacks> WrappedScreen<CB> {
    pub fn new_with_callbacks(rows: u16, cols: u16, scrollback_len: usize, callbacks: CB) -> (r: Self)
        requires
            rows > 0,
            cols > 0,
        ensures
            r.screen@ == ScreenModel::fresh(Size { rows, cols }, scrollback_len),
            r.screen@.wf(),
            r.screen@.uniform(),
            r.screen@.holds_ascii(),
            r.screen@.holds_no_controls(),
            r.callbacks == callbacks,
            r.notices@.len() == 0,
    {
        proof {
            law_new_screens_are_plain(Size { rows, cols }, scrollback_len);
            law_new_screens_are_clean(Size { rows, cols }, scrollback_len);
        }
        WrappedScreen {
            screen: Screen::new(Size { rows, cols }, scrollback_len),
            callbacks,
            notices: Ghost(Seq::empty()),
        }
    }

    /// Performs an event and hands out the notices that it gives rise to, each to the
    /// callback that it is for. Tells of the calls that it made.
    pub fn perform(&mut self, event: &Event) -> (made: Ghost<Seq<Call<CB>>>)
        requires
            old(self).screen@.wf(),
        ensures
            final(self).screen@.wf(),
            linked(old(self).callbacks, made@, final(self).callbacks),
            event_told(old(self).screen@, event@, 0, made@, final(self).screen@),
            final(self).notices@ == old(self).notices@ + calls_notices(made@),
            forall|i: int|
                0 <= i < made@.len() ==> exists|c: &mut CB, s: &mut Screen, n: &Notice|
                    #![trigger call_ensures(deliver::<CB>, (c, s, n), ())]
                    call_ensures(deliver::<CB>, (c, s, n), ()) && *c == (#[trigger] made@[i]).before
                        && *final(c) == made@[i].after && *s == made@[i].screen && *final(s)
                        == made@[i].shown && n@ == made@[i].notice,
            !CB::touches_screen() ==> ({
                let (after, notices) = event_run(old(self).screen@, event@, 0);
                &&& final(self).screen@ == after
                &&& final(self).notices@ == old(self).notices@ + notices
                &&& old(self).screen@.uniform() ==> final(self).screen@.uniform()
                &&& old(self).screen@.whole() ==> final(self).screen@.whole()
                &&& old(self).screen@.holds_no_controls() ==> final(self).screen@.holds_no_controls()
                &&& old(self).screen@.holds_ascii() && is_plain_event(event@) ==> final(self).screen@.holds_ascii()
            }),
    {
        let mut from: usize = 0;
        let ghost run = event_run(self.screen@, event@, 0);
        let ghost told = self.notices@;
        let ghost mut calls: Seq<Call<CB>> = Seq::empty();
        proof {
            assert(told + calls_notices(calls) =~= told);
            lemma_leads_from_start::<CB>(self.screen@, event@);
        }
        loop
            invariant_except_break
                self.screen@.wf(),
                from <= parts(event@),
                linked(old(self).callbacks, calls, self.callbacks),
                leads_to(old(self).screen@, event@, calls, self.screen@, from as int),
                self.notices@ == told + calls_notices(calls),
                forall|i: int|
                    0 <= i < calls.len() ==> exists|c: &mut CB, s: &mut Screen, n: &Notice|
                        #![trigger call_ensures(deliver::<CB>, (c, s, n), ())]
                        call_ensures(deliver::<CB>, (c, s, n), ()) && *c == (
                        #[trigger] calls[i]).before && *final(c) == calls[i].after && *s
                            == calls[i].screen && *final(s) == calls[i].shown && n@
                            == calls[i].notice,
                !CB::touches_screen() ==> ({
                    let (after, rest) = event_run(self.screen@, event@, from as int);
                    &&& after == run.0
                    &&& self.notices@ + rest == told + run.1
                    &&& old(self).screen@.uniform() ==> self.screen@.uniform()
                    &&& old(self).screen@.whole() ==> self.screen@.whole()
                    &&& old(self).screen@.holds_no_controls() ==> self.screen@.holds_no_controls()
                    &&& old(self).screen@.holds_ascii() && is_plain_event(event@) ==> self.screen@.holds_ascii()
                }),
            ensures
                self.screen@.wf(),
                linked(old(self).callbacks, calls, self.callbacks),
                event_told(old(self).screen@, event@, 0, calls, self.screen@),
                self.notices@ == told + calls_notices(calls),
                forall|i: int|
                    0 <= i < calls.len() ==> exists|c: &mut CB, s: &mut Screen, n: &Notice|
                        #![trigger call_ensures(deliver::<CB>, (c, s, n), ())]
                        call_ensures(deliver::<CB>, (c, s, n), ()) && *c == (
                        #[trigger] calls[i]).before && *final(c) == calls[i].after && *s
                            == calls[i].screen && *final(s) == calls[i].shown && n@
                            == calls[i].notice,
                !CB::touches_screen() ==> ({
                    &&& self.screen@ == run.0
                    &&& self.notices@ == told + run.1
                    &&& old(self).screen@.uniform() ==> self.screen@.uniform()
                    &&& old(self).screen@.whole() ==> self.screen@.whole()
                    &&& old(self).screen@.holds_no_controls() ==> self.screen@.holds_no_controls()
                    &&& old(self).screen@.holds_ascii() && is_plain_event(event@) ==> self.screen@.holds_ascii()
                }),
            decreases parts(event@) - from,
        {
            let ghost before = self.screen@;
            let ghost so_far = self.notices@;
            let ghost earlier = calls;
            let ghost mut now: Seq<Call<CB>> = Seq::empty();
            let performed = self.screen.perform(event, from);
            proof {
                if before.whole() {
                    law_output_never_splits_a_wide_character(before, event@, from as int);
                }
                if before.holds_no_controls() {
                    law_output_keeps_screens_clean(before, event@, from as int);
                }
                if before.holds_ascii() && is_plain_event(event@) {
                    law_plain_output_keeps_screens_plain(before, event@, from as int);
                }
            }
            let ghost notices = match performed.model(self.screen@).notice {
                Some(notice) => seq![notice],
                None => Seq::empty(),
            };
            if let Some(notice) = &performed.notice {
                let ghost listener = self.callbacks;
                let ghost screen = self.screen;
                deliver(&mut self.callbacks, &mut self.screen, notice);
                proof {
                    self.notices@ = self.notices@.push(notice@);
                    let call = Call {
                        before: listener,
                        after: self.callbacks,
                        screen,
                        shown: self.screen,
                        notice: notice@,
                    };
                    now = seq![call];
                }
            }
            assert(self.notices@ =~= so_far + notices);
            proof {
                calls = earlier + now;
                assert(calls_notices(calls) =~= calls_notices(earlier) + notices);
                assert(told + calls_notices(calls) =~= told + calls_notices(earlier) + notices);
                assert(part_calls(before.performed(event@, from as int), now, self.screen@));
            }
            match performed.next {
                Some(next) => {
                    proof {
                        lemma_leads_on(
                            old(self).screen@,
                            event@,
                            earlier,
                            before,
                            from as int,
                            now,
                            self.screen@,
                            next as int,
                        );
                        if !CB::touches_screen() {
                            let (after, rest) = event_run(self.screen@, event@, next as int);
                            assert(so_far + (notices + rest) =~= self.notices@ + rest);
                        }
                    }
                    from = next;
                },
                None => {
                    proof {
                        lemma_leads_to_end(
                            old(self).screen@,
                            event@,
                            earlier,
                            before,
                            from as int,
                            now,
                            self.screen@,
                        );
                    }
                    break;
                },
            }
        }
        Ghost(calls)
    }

    /// Performs events one after the other. Tells of the calls that it made.
    #[verifier::spinoff_prover]
    #[verifier::rlimit(60)]
    pub fn perform_all(&mut self, events: &Vec<Event>) -> (made: Ghost<Seq<Call<CB>>>)
        requires
            old(self).screen@.wf(),
        ensures
            final(self).screen@.wf(),
            linked(old(self).callbacks, made@, final(self).callbacks),
            events_told(old(self).screen@, events_view(events@), made@, final(self).screen@),
            final(self).notices@ == old(self).notices@ + calls_notices(made@),
            forall|i: int|
                0 <= i < made@.len() ==> exists|c: &mut CB, s: &mut Screen, n: &Notice|
                    #![trigger call_ensures(deliver::<CB>, (c, s, n), ())]
                    call_ensures(deliver::<CB>, (c, s, n), ()) && *c == (#[trigger] made@[i]).before
                        && *final(c) == made@[i].after && *s == made@[i].screen && *final(s)
                        == made@[i].shown && n@ == made@[i].notice,
            !CB::touches_screen() ==> ({
                let (after, notices) = events_run(old(self).screen@, events_view(events@));
                &&& final(self).screen@ == after
                &&& final(self).notices@ == old(self).notices@ + notices
                &&& old(self).screen@.uniform() ==> final(self).screen@.uniform()
                &&& old(self).screen@.whole() ==> final(self).screen@.whole()
                &&& old(self).screen@.holds_no_controls() ==> final(self).screen@.holds_no_controls()
                &&& old(self).screen@.holds_ascii() && are_plain(events_view(events@)) ==> final(self).screen@.holds_ascii()
            }),
    {
        let ghost screen = self.screen@;
        let ghost told = self.notices@;
        let ghost model = events_view(events@);
        let ghost mut calls: Seq<Call<CB>> = Seq::empty();
        let mut i: usize = 0;
        proof {
            assert(told + Seq::<NoticeModel>::empty() =~= told);
            assert(told + calls_notices(calls) =~= told);
            lemma_ran_nothing(screen, told);
            lemma_told_nothing::<CB>(screen);
            assert(model.take(0) =~= Seq::<EventModel>::empty());
        }
        while i < events.len()
            invariant
                i <= events@.len(),
                model == events_view(events@),
                self.screen@.wf(),
                linked(old(self).callbacks, calls, self.callbacks),
                events_told(screen, model.take(i as int), calls, self.screen@),
                self.notices@ == told + calls_notices(calls),
                forall|i: int|
                    0 <= i < calls.len() ==> exists|c: &mut CB, s: &mut Screen, n: &Notice|
                        #![trigger call_ensures(deliver::<CB>, (c, s, n), ())]
                        call_ensures(deliver::<CB>, (c, s, n), ()) && *c == (
                        #[trigger] calls[i]).before && *final(c) == calls[i].after && *s
                            == calls[i].screen && *final(s) == calls[i].shown && n@
                            == calls[i].notice,
                !CB::touches_screen() ==> ran(
                    screen,
                    told,
                    model.take(i as int),
                    self.screen@,
                    self.notices@,
                ),
            decreases events@.len() - i,
        {
            let ghost before = *self;
            let ghost earlier = calls;
            let made = self.perform(&events[i]);
            proof {
                let now = made@;
                calls = earlier + now;
                assert(model.take(i + 1).drop_last() =~= model.take(i as int));
                lemma_linked(old(self).callbacks, earlier, before.callbacks, now, self.callbacks);
                lemma_told_more(
                    screen,
                    model.take(i + 1),
                    earlier,
                    before.screen@,
                    now,
                    self.screen@,
                );
                assert(calls_notices(calls) =~= calls_notices(earlier) + calls_notices(now));
                assert(told + calls_notices(calls) =~= (told + calls_notices(earlier))
                    + calls_notices(now));
                if !CB::touches_screen() {
                    lemma_ran_more(
                        screen,
                        told,
                        model.take(i + 1),
                        before.screen@,
                        before.notices@,
                        self.screen@,
                        self.notices@,
                    );
                }
                assert forall|k: int| 0 <= k < calls.len() implies exists|
                    c: &mut CB,
                    s: &mut Screen,
                    n: &Notice,
                |
                    #![trigger call_ensures(deliver::<CB>, (c, s, n), ())]
                    call_ensures(deliver::<CB>, (c, s, n), ()) && *c == (#[trigger] calls[k]).before
                        && *final(c) == calls[k].after && *s == calls[k].screen && *final(s)
                        == calls[k].shown && n@ == calls[k].notice by {
                    if k < earlier.len() {
                        assert(calls[k] == earlier[k]);
                    } else {
                        assert(calls[k] == now[k - earlier.len()]);
                    }
                }
            }
            i = i + 1;
        }
        proof {
            reveal(ran);
        }
        assert(model.take(i as int) =~= model);
        Ghost(calls)
    }
}

/// The bytes from a place on.
fn copy_end(bytes: &Vec<u8>, from: usize) -> (r: Vec<u8>)
    requires
        from <= bytes@.len(),
    ensures
        r@ == bytes@.skip(from as int),
{
    let mut r: Vec<u8> = Vec::new();
    push_bytes(&mut r, slice_subrange(bytes.as_slice(), from, bytes.len()));
    assert(r@ =~= bytes@.skip(from as int));
    r
}

/// A parser for terminal output which produces an in-memory representation of
/// the terminal contents.
pub struct Parser<CB: Callbacks = ()> {
    parser: VteParser<1024>,
    /// The start of a character whose end was not read yet.
    waiting: Vec<u8>,
    screen: WrappedScreen<CB>,
}

impl Parser {
    /// Creates a new terminal parser of the given size and with the given
    /// amount of scrollback.
    #[must_use]
    pub fn new(rows: u16, cols: u16, scrollback_len: usize) -> (r: Self)
        requires
            rows > 0,
            cols > 0,
        ensures
            r.input() == InputModel::nothing(),
            r.model() == ScreenModel::fresh(Size { rows, cols }, scrollback_len),
            r.model().wf(),
            r.model().uniform(),
            r.model().holds_ascii(),
            r.model().holds_no_controls(),
            r.notices().len() == 0,
    {
        Parser::new_with_callbacks(rows, cols, scrollback_len, ())
    }
}

impl<CB: Callbacks> Parser<CB> {
    /// What was read so far.
    pub closed spec fn input(&self) -> InputModel {
        InputModel { pieces: fed(self.parser), waiting: self.waiting@ }
    }

    /// What the screen shows.
    pub closed spec fn model(&self) -> ScreenModel {
        self.screen.screen@
    }

    /// Every notice handed to the callbacks so far.
    pub closed spec fn notices(&self) -> Seq<NoticeModel> {
        self.screen.notices@
    }

    /// Creates a new terminal parser of the given size and with the given
    /// amount of scrollback. Terminal events will be reported via method
    /// calls on the provided [`Callbacks`] implementation.
    pub fn new_with_callbacks(rows: u16, cols: u16, scrollback_len: usize, callbacks: CB) -> (r: Self)
        requires
            rows > 0,
            cols > 0,
        ensures
            r.input() == InputModel::nothing(),
            r.model() == ScreenModel::fresh(Size { rows, cols }, scrollback_len),
            r.model().wf(),
            r.model().uniform(),
            r.model().holds_ascii(),
            r.model().holds_no_controls(),
            r.listener() == callbacks,
            r.notices().len() == 0,
    {
        Parser {
            parser: new_parser(),
            waiting: Vec::new(),
            screen: WrappedScreen::new_with_callbacks(rows, cols, scrollback_len, callbacks),
        }
    }

    /// Processes the contents of the given byte string, and updates the
    /// in-memory terminal state.
    ///
    /// What the bytes ask of the screen is done to it, and the notices that they give
    /// rise to are handed to the callbacks in order; callbacks that change the screen
    /// make of it what they like.
    pub fn process(&mut self, bytes: &[u8])
        requires
            old(self).model().wf(),
        ensures
            final(self).model().wf(),
            final(self).input() == old(self).input().and(bytes@),
            exists|calls: Seq<Call<CB>>|
                #![trigger linked(old(self).listener(), calls, final(self).listener())]
                linked(old(self).listener(), calls, final(self).listener()) && events_told(
                    old(self).model(),
                    old(self).input().events(bytes@),
                    calls,
                    final(self).model(),
                ) && final(self).notices() == old(self).notices() + calls_notices(calls) && (forall|
                    i: int,
                |
                    0 <= i < calls.len() ==> exists|c: &mut CB, s: &mut Screen, n: &Notice|
                        #![trigger call_ensures(deliver::<CB>, (c, s, n), ())]
                        call_ensures(deliver::<CB>, (c, s, n), ()) && *c == (
                        #[trigger] calls[i]).before && *final(c) == calls[i].after && *s
                            == calls[i].screen && *final(s) == calls[i].shown && n@
                            == calls[i].notice),
            !CB::touches_screen() ==> ({
                let events = old(self).input().events(bytes@);
                let (after, notices) = events_run(old(self).model(), events);
                &&& final(self).model() == after
                &&& final(self).notices() == old(self).notices() + notices
                &&& old(self).model().uniform() ==> final(self).model().uniform()
                &&& old(self).model().whole() ==> final(self).model().whole()
                &&& old(self).model().holds_no_controls() ==> final(self).model().holds_no_controls()
                &&& old(self).model().holds_ascii() && are_plain(events) ==> final(self).model().holds_ascii()
            }),
    {
        let events = self.take_bytes(bytes);
        let made = self.screen.perform_all(&events);
        assert(linked(old(self).listener(), made@, self.listener()));
    }

    /// Takes in bytes and returns the events that they give rise to, without
    /// performing them.
    pub(crate) fn take_bytes(&mut self, bytes: &[u8]) -> (events: Vec<Event>)
        ensures
            events_view(events@) == old(self).input().events(bytes@),
            final(self).input() == old(self).input().and(bytes@),
            final(self).model() == old(self).model(),
            final(self).notices() == old(self).notices(),
            final(self).listener() == old(self).listener(),
    {
        let ghost before = fed(self.parser);
        let mut buffer: Vec<u8> = Vec::new();
        core::mem::swap(&mut buffer, &mut self.waiting);
        push_bytes(&mut buffer, bytes);
        let ghost all = cut(buffer@);
        let ghost mut done: Seq<Seq<u8>> = Seq::empty();
        let mut events: Vec<Event> = Vec::new();
        let mut i: usize = 0;
        proof {
            assert(buffer@.skip(0) =~= buffer@);
            assert(before + done =~= before);
            assert(done + all.0 =~= all.0);
            assert(events_view(events@) =~= Seq::<EventModel>::empty());
        }
        while i < buffer.len()
            invariant
                i <= buffer@.len(),
                buffer@ == old(self).waiting@ + bytes@,
                before == fed(old(self).parser),
                all == cut(buffer@),
                fed(self.parser) == before + done,
                events_view(events@) == events_of(before, done),
                done + cut(buffer@.skip(i as int)).0 == all.0,
                cut(buffer@.skip(i as int)).1 == all.1,
                self.screen == old(self).screen,
            decreases buffer@.len() - i,
        {
            let ghost rest = buffer@.skip(i as int);
            let n: usize = match find_piece(&buffer, i) {
                Some(n) => n,
                None => {
                    self.waiting = copy_end(&buffer, i);
                    assert(done =~= all.0);
                    return events;
                },
            };
            let piece = slice_subrange(buffer.as_slice(), i, i + n);
            let mut more = feed(&mut self.parser, piece);
            proof {
                assert(piece@ =~= rest.take(n as int));
                assert(rest.skip(n as int) =~= buffer@.skip(i + n));
                let next = done.push(piece@);
                assert(next.drop_last() =~= done);
                assert((before + done).push(piece@) =~= before + next);
                assert(done + (seq![piece@] + cut(buffer@.skip(i + n)).0) =~= next + cut(
                    buffer@.skip(i + n),
                ).0);
                done = next;
            }
            let ghost so_far = events@;
            let ghost now = more@;
            events.append(&mut more);
            assert(events@ =~= so_far + now);
            assert(events_view(events@) =~= events_view(so_far) + events_view(now));
            i = i + n;
        }
        self.waiting = copy_end(&buffer, i);
        assert(buffer@.skip(i as int) =~= Seq::<u8>::empty());
        assert(done =~= all.0);
        events
    }

    /// Returns the screen and the callbacks.
    pub(crate) fn screen_and_callbacks(&mut self) -> (r: (&mut Screen, &mut CB))
        ensures
            r.0@ == old(self).model(),
            *r.1 == old(self).listener(),
            final(self).model() == final(r.0)@,
            final(self).listener() == *final(r.1),
            final(self).input() == old(self).input(),
            final(self).notices() == old(self).notices(),
    {
        (&mut self.screen.screen, &mut self.screen.callbacks)
    }

    /// Returns a reference to a [`Screen`] object containing the terminal
    /// state.
    #[must_use]
    pub fn screen(&self) -> (r: &Screen)
        ensures
            r@ == self.model(),
    {
        &self.screen.screen
    }

    /// Returns a mutable reference to a [`Screen`] object containing the
    /// terminal state.
    #[must_use]
    pub fn screen_mut(&mut self) -> (r: &mut Screen)
        ensures
            r@ == old(self).model(),
            final(self).model() == final(r)@,
            final(self).input() == old(self).input(),
            final(self).notices() == old(self).notices(),
            final(self).listener() == old(self).listener(),
    {
        &mut self.screen.screen
    }

    pub closed spec fn listener(&self) -> CB {
        self.screen.callbacks
    }

    /// Returns a reference to the [`Callbacks`] state object passed into the
    /// constructor.
    pub fn callbacks(&self) -> (r: &CB)
        ensures
            *r == self.listener(),
    {
        &self.screen.callbacks
    }

    /// Returns a mutable reference to the [`Callbacks`] state object passed
    /// into the constructor.
    pub fn callbacks_mut(&mut self) -> (r: &mut CB)
        ensures
            *r == old(self).listener(),
            final(self).listener() == *final(r),
            final(self).model() == old(self).model(),
            final(self).input() == old(self).input(),
            final(self).notices() == old(self).notices(),
    {
        &mut self.screen.callbacks
    }
}

impl Default for Parser {
    /// Returns a parser with dimensions 80x24 and no scrollback.
    fn default() -> (r: Self)
        ensures
            r.input() == InputModel::nothing(),
            r.model() == ScreenModel::fresh(Size { rows: 24, cols: 80 }, 0),
            r.model().wf(),
    {
        Parser::new(24, 80, 0)
    }
}

} // verus!

//! Wall-clock timing of named phases: how often each phase ran within the
//! last second and how long its runs took together.

use vstd::prelude::*;
use std::time::Duration;
use std::time::Instant;
use stopwatch::Stopwatch;
use crate::clock::{instant_now, time_between, whole_millis, whole_nanos};

verus! {

/// The length of the window in which runs are kept, in seconds.
pub const WINDOW_SEC: u64 = 1;

/// `Stopwatch` of the crate `stopwatch`. The library only hands it on.
#[verifier::external_type_specification]
#[verifier::external_body]
pub struct ExStopwatch(Stopwatch);

/// `Stopwatch::start_new` of the crate `stopwatch`: a stopwatch that runs from
/// the present moment on. Nothing is claimed of it.
#[verifier::external_body]
fn watch_start_new() -> Stopwatch {
    Stopwatch::start_new()
}

/// `Stopwatch::stop` of the crate `stopwatch`: the stopwatch stands still
/// afterwards. Nothing is claimed of it.
#[verifier::external_body]
fn watch_stop(watch: &mut Stopwatch) {
    watch.stop()
}

/// `Stopwatch::is_running` of the crate `stopwatch`. Nothing is claimed of the
/// answer.
#[verifier::external_body]
fn watch_is_running(watch: &Stopwatch) -> bool {
    watch.is_running()
}

/// `Stopwatch::elapsed` of the crate `stopwatch`: the time that the stopwatch
/// has run. Nothing is claimed of it.
#[verifier::external_body]
fn watch_elapsed(watch: &Stopwatch) -> Duration {
    watch.elapsed()
}

/// One timer as the contracts see it: its name and the number of its runs
/// that are kept.
pub struct TimerView {
    pub name: Seq<char>,
    pub runs: nat,
}

/// The timers in the order in which they were first started, and the name of
/// the timer that runs.
pub struct RuntimeView {
    pub timers: Seq<TimerView>,
    pub current: Option<Seq<char>>,
}

impl RuntimeView {
    /// Whether there is a timer of that name.
    pub open spec fn has(self, name: Seq<char>) -> bool {
        exists|i: int| 0 <= i < self.timers.len() && (#[trigger] self.timers[i]).name == name
    }

    /// The place of the timer of that name.
    pub open spec fn place(self, name: Seq<char>) -> int {
        choose|i: int| 0 <= i < self.timers.len() && (#[trigger] self.timers[i]).name == name
    }

    /// No two timers have the same name.
    pub open spec fn distinct(self) -> bool {
        forall|i: int, j: int|
            0 <= i < self.timers.len() && 0 <= j < self.timers.len() && i != j ==> (
            #[trigger] self.timers[i]).name != (#[trigger] self.timers[j]).name
    }

    /// The timers after a run of the timer `name` has begun: the timer has
    /// one run more, and a name that is new comes last.
    pub open spec fn started(self, name: Seq<char>) -> RuntimeView {
        if self.has(name) {
            let i = self.place(name);
            RuntimeView {
                timers: self.timers.update(i, TimerView { name, runs: self.timers[i].runs + 1 }),
                current: Some(name),
            }
        } else {
            RuntimeView { timers: self.timers.push(TimerView { name, runs: 1 }), current: Some(name) }
        }
    }

    /// The timers after the running timer was stopped: no timer runs any more,
    /// provided that the timer that ran has a run to stop.
    pub open spec fn stopped(self) -> RuntimeView {
        if self.current is Some && self.has(self.current->0) && self.timers[self.place(
            self.current->0,
        )].runs > 0 {
            RuntimeView { current: None, ..self }
        } else {
            self
        }
    }

    /// Whether `later` has the same timers with at most as many runs each, and
    /// the same running timer.
    pub open spec fn thinned_to(self, later: RuntimeView) -> bool {
        &&& later.current == self.current
        &&& later.timers.len() == self.timers.len()
        &&& forall|i: int|
            0 <= i < self.timers.len() ==> (#[trigger] later.timers[i]).name == self.timers[i].name
                && later.timers[i].runs <= self.timers[i].runs
    }
}

/// The entries of `items` whose mark in `keep` is set, in their order. An
/// entry without a mark is dropped.
pub open spec fn marked<T>(items: Seq<T>, keep: Seq<bool>) -> Seq<T>
    decreases items.len(),
{
    if items.len() == 0 {
        Seq::empty()
    } else {
        let last = items.len() - 1;
        let rest = marked(items.drop_last(), keep);
        if last < keep.len() && keep[last] {
            rest.push(items.last())
        } else {
            rest
        }
    }
}

/// The sum of the values, or the largest number if the sum exceeds it.
pub open spec fn capped_sum(values: Seq<u128>) -> int
    decreases values.len(),
{
    if values.len() == 0 {
        0
    } else {
        let sum = capped_sum(values.drop_last()) + values.last();
        if sum > u128::MAX {
            u128::MAX as int
        } else {
            sum
        }
    }
}

/// Whether `after` is what is left of `before` when some entries are
/// dropped: marks, one for each entry of `before`, say which entries stay,
/// and these stay in their order.
pub open spec fn left_of<T>(after: Seq<T>, before: Seq<T>) -> bool {
    exists|keep: Seq<bool>| keep.len() == before.len() && after == #[trigger] marked(before, keep)
}

/// What is kept is no longer than what there was.
pub proof fn lemma_marked_len<T>(items: Seq<T>, keep: Seq<bool>)
    ensures
        marked(items, keep).len() <= items.len(),
    decreases items.len(),
{
    if items.len() > 0 {
        lemma_marked_len(items.drop_last(), keep);
    }
}

/// Whether a run is kept: its stopwatch runs, or it began less than
/// `WINDOW_SEC` ago. The age is in nanoseconds.
pub open spec fn fresh(running: bool, age: u128) -> bool {
    running || age < WINDOW_SEC * 1_000_000_000
}

/// Decides whether a run is kept, from what its stopwatch and the clock say.
pub fn is_fresh(running: bool, age: u128) -> (kept: bool)
    ensures
        kept == fresh(running, age),
{
    running || age < (WINDOW_SEC as u128) * 1_000_000_000
}

/// Copies the entries whose mark is set.
pub fn retain_marked<T: Copy>(items: &Vec<T>, keep: &Vec<bool>) -> (kept: Vec<T>)
    ensures
        kept@ == marked(items@, keep@),
{
    let mut kept: Vec<T> = Vec::new();
    let mut k: usize = 0;
    while k < items.len()
        invariant
            k <= items.len(),
            kept@ == marked(items@.take(k as int), keep@),
        decreases items.len() - k,
    {
        proof {
            assert(items@.take(k + 1).drop_last() =~= items@.take(k as int));
        }
        if k < keep.len() && keep[k] {
            kept.push(items[k]);
        }
        k += 1;
    }
    proof {
        assert(items@.take(k as int) =~= items@);
    }
    kept
}

/// Adds the values up, stopping at the largest number.
pub fn total_of(values: &Vec<u128>) -> (total: u128)
    ensures
        total == capped_sum(values@),
{
    let mut total: u128 = 0;
    let mut k: usize = 0;
    while k < values.len()
        invariant
            k <= values.len(),
            total == capped_sum(values@.take(k as int)),
        decreases values.len() - k,
    {
        proof {
            assert(values@.take(k + 1).drop_last() =~= values@.take(k as int));
        }
        if total > u128::MAX - values[k] {
            total = u128::MAX;
        } else {
            total = total + values[k];
        }
        k += 1;
    }
    proof {
        assert(values@.take(k as int) =~= values@);
    }
    total
}

/// For each timer, in the order in which the timers were first started: its
/// name, the number of its runs that are kept, and the milliseconds that
/// these runs took together.
pub struct RuntimeAnalysis {
    pub names: Vec<String>,
    pub counts: Vec<usize>,
    pub totals: Vec<u128>,
}

/// One timer: its name, and for each run that is kept its stopwatch and the
/// moment at which it began.
struct Timer {
    name: String,
    watches: Vec<(Stopwatch, Instant)>,
}

impl View for Timer {
    type V = TimerView;

    closed spec fn view(&self) -> TimerView {
        TimerView { name: self.name@, runs: self.watches@.len() }
    }
}

/// Named timers, of which at most one runs at a time.
pub struct Runtime {
    timers: Vec<Timer>,
    current_timer: Option<String>,
}

impl View for Runtime {
    type V = RuntimeView;

    closed spec fn view(&self) -> RuntimeView {
        RuntimeView {
            timers: Seq::new(self.timers@.len(), |i: int| self.timers[i]@),
            current: match self.current_timer {
                Some(name) => Some(name@),
                None => None,
            },
        }
    }
}

impl Runtime {
    /// No two timers have the same name.
    pub closed spec fn wf(&self) -> bool {
        self@.distinct()
    }

    /// The runs of timer `i` that are kept, oldest first: for each its
    /// stopwatch and the moment at which it began.
    pub closed spec fn runs(&self, i: int) -> Seq<(Stopwatch, Instant)> {
        self.timers[i].watches@
    }

    /// The view counts the runs of each timer.
    pub proof fn lemma_runs_counted(&self, i: int)
        requires
            0 <= i < self@.timers.len(),
        ensures
            self@.timers[i].runs == self.runs(i).len(),
    {
    }

    /// A runtime without timers.
    pub fn new() -> (runtime: Self)
        ensures
            runtime.wf(),
            runtime@.timers.len() == 0,
            runtime@.current is None,
    {
        Self { timers: Vec::new(), current_timer: None }
    }

    /// The name of the timer that runs, if one does.
    pub fn current_timer(&self) -> (name: &Option<String>)
        ensures
            name is Some <==> self@.current is Some,
            name is Some ==> name->0@ == self@.current->0,
    {
        &self.current_timer
    }

    /// Finds the timer of that name.
    fn find(&self, name: &String) -> (found: Option<usize>)
        requires
            self.wf(),
        ensures
            found is Some <==> self@.has(name@),
            found is Some ==> found->0 == self@.place(name@) && found->0 < self@.timers.len(),
    {
        let mut i: usize = 0;
        while i < self.timers.len()
            invariant
                self.wf(),
                i <= self.timers.len(),
                forall|j: int| 0 <= j < i ==> (#[trigger] self@.timers[j]).name != name@,
            decreases self.timers.len() - i,
        {
            if self.timers[i].name == *name {
                proof {
                    assert(self@.timers[i as int].name == name@);
                }
                return Some(i);
            }
            i += 1;
        }
        None
    }

    /// Begins a run of the timer `name`. No timer may be running.
    pub fn start(&mut self, name: &str)
        requires
            old(self).wf(),
            old(self)@.current is None,
        ensures
            final(self).wf(),
            final(self)@ == old(self)@.started(name@),
    {
        let ghost pre = self@;
        let owned: String = name.to_owned();
        let run = (watch_start_new(), instant_now());
        match self.find(&owned) {
            Some(i) => {
                self.timers[i].watches.push(run);
                proof {
                    assert(self@.timers =~= pre.timers.update(
                        i as int,
                        TimerView { name: name@, runs: pre.timers[i as int].runs + 1 },
                    ));
                }
            },
            None => {
                let mut watches: Vec<(Stopwatch, Instant)> = Vec::new();
                watches.push(run);
                self.timers.push(Timer { name: owned.clone(), watches });
                proof {
                    assert(self@.timers =~= pre.timers.push(TimerView { name: name@, runs: 1 }));
                }
            },
        }
        self.current_timer = Some(owned);
    }

    /// Stops the timer that runs. A timer must be running.
    pub fn stop(&mut self)
        requires
            old(self).wf(),
            old(self)@.current is Some,
        ensures
            final(self).wf(),
            final(self)@ == old(self)@.stopped(),
    {
        let ghost pre = self@;
        let found = match &self.current_timer {
            Some(name) => self.find(name),
            None => None,
        };
        if let Some(i) = found {
            let count = self.timers[i].watches.len();
            if count > 0 {
                let (mut watch, begun) = self.timers[i].watches[count - 1];
                watch_stop(&mut watch);
                self.timers[i].watches.set(count - 1, (watch, begun));
                self.current_timer = None;
                proof {
                    assert(self@.timers =~= pre.timers);
                }
            }
        }
    }

    /// Says for each run of timer `i` whether it is kept at `now`: a run is
    /// kept while its stopwatch runs or while it began less than `WINDOW_SEC`
    /// ago. There is one mark for each run, in the order of the runs.
    fn fresh_marks(&self, i: usize, now: &Instant) -> (keep: Vec<bool>)
        requires
            i < self@.timers.len(),
        ensures
            keep.len() == self.runs(i as int).len(),
    {
        let mut keep: Vec<bool> = Vec::new();
        let mut k: usize = 0;
        while k < self.timers[i].watches.len()
            invariant
                i < self.timers.len(),
                k <= self.timers[i as int].watches.len(),
                keep.len() == k,
            decreases self.timers[i as int].watches.len() - k,
        {
            let (watch, begun) = self.timers[i].watches[k];
            let age: u128 = whole_nanos(&time_between(now, &begun));
            keep.push(is_fresh(watch_is_running(&watch), age));
            k += 1;
        }
        keep
    }

    /// Drops the runs that stand still and began `WINDOW_SEC` ago or earlier.
    /// What is left of each timer are runs that it had, in the order in which
    /// it had them: for each run a mark says whether it stays.
    pub fn cleanup(&mut self)
        requires
            old(self).wf(),
        ensures
            final(self).wf(),
            old(self)@.thinned_to(final(self)@),
            forall|i: int|
                0 <= i < old(self)@.timers.len()
                    ==> left_of(#[trigger] final(self).runs(i), old(self).runs(i)),
    {
        let ghost pre = *self;
        let now = instant_now();
        let mut i: usize = 0;
        while i < self.timers.len()
            invariant
                i <= self.timers.len(),
                self@.timers.len() == pre@.timers.len(),
                self@.current == pre@.current,
                forall|j: int|
                    0 <= j < pre@.timers.len() ==> (#[trigger] self@.timers[j]).name == pre@.timers[j].name
                        && self@.timers[j].runs <= pre@.timers[j].runs,
                forall|j: int| 0 <= j < i ==> left_of(#[trigger] self.runs(j), pre.runs(j)),
                forall|j: int| i <= j < pre@.timers.len() ==> #[trigger] self.runs(j) == pre.runs(j),
            decreases self.timers.len() - i,
        {
            let keep = self.fresh_marks(i, &now);
            let kept = retain_marked(&self.timers[i].watches, &keep);
            proof {
                lemma_marked_len(self.timers[i as int].watches@, keep@);
            }
            let ghost before = *self;
            self.timers[i].watches = kept;
            proof {
                assert forall|j: int| 0 <= j < pre@.timers.len() implies (#[trigger] self@.timers[j]).name
                    == pre@.timers[j].name && self@.timers[j].runs <= pre@.timers[j].runs by {
                    assert(self@.timers[j].name == before@.timers[j].name);
                    assert(self@.timers[j].runs <= before@.timers[j].runs);
                }
                assert(self.runs(i as int) == marked(pre.runs(i as int), keep@)) by {
                    assert(before.runs(i as int) == pre.runs(i as int));
                }
                assert forall|j: int| 0 <= j < i + 1 implies left_of(#[trigger] self.runs(j), pre.runs(j)) by {
                    if j < i {
                        assert(self.runs(j) == before.runs(j));
                    }
                }
                assert forall|j: int| i + 1 <= j < pre@.timers.len() implies #[trigger] self.runs(j)
                    == pre.runs(j) by {
                    assert(self.runs(j) == before.runs(j));
                }
            }
            i += 1;
        }
    }

    /// The milliseconds that each run of timer `i` has taken.
    fn elapsed_millis(&self, i: usize) -> (millis: Vec<u128>)
        requires
            i < self@.timers.len(),
        ensures
            millis.len() == self@.timers[i as int].runs,
    {
        let mut millis: Vec<u128> = Vec::new();
        let mut k: usize = 0;
        while k < self.timers[i].watches.len()
            invariant
                i < self.timers.len(),
                k <= self.timers[i as int].watches.len(),
                millis.len() == k,
            decreases self.timers[i as int].watches.len() - k,
        {
            let (watch, _begun) = self.timers[i].watches[k];
            millis.push(whole_millis(&watch_elapsed(&watch)));
            k += 1;
        }
        millis
    }

    /// Names the timers, counts their runs and adds up the time of the runs of
    /// each.
    pub fn get_analysis(&self) -> (analysis: RuntimeAnalysis)
        requires
            self.wf(),
        ensures
            analysis.names.len() == self@.timers.len(),
            analysis.counts.len() == self@.timers.len(),
            analysis.totals.len() == self@.timers.len(),
            forall|i: int|
                0 <= i < self@.timers.len() ==> {
                    &&& (#[trigger] analysis.names[i])@ == self@.timers[i].name
                    &&& analysis.counts[i] == self@.timers[i].runs
                    &&& exists|millis: Seq<u128>|
                        millis.len() == self@.timers[i].runs && analysis.totals[i] == #[trigger] capped_sum(
                            millis,
                        )
                },
    {
        let mut names: Vec<String> = Vec::new();
        let mut counts: Vec<usize> = Vec::new();
        let mut totals: Vec<u128> = Vec::new();
        let mut i: usize = 0;
        while i < self.timers.len()
            invariant
                i <= self.timers.len(),
                names.len() == i,
                counts.len() == i,
                totals.len() == i,
                forall|j: int|
                    0 <= j < i ==> {
                        &&& (#[trigger] names[j])@ == self@.timers[j].name
                        &&& counts[j] == self@.timers[j].runs
                        &&& exists|millis: Seq<u128>|
                            millis.len() == self@.timers[j].runs && totals[j] == #[trigger] capped_sum(
                                millis,
                            )
                    },
            decreases self.timers.len() - i,
        {
            let millis = self.elapsed_millis(i);
            names.push(self.timers[i].name.clone());
            counts.push(self.timers[i].watches.len());
            totals.push(total_of(&millis));
            i += 1;
        }
        RuntimeAnalysis { names, counts, totals }
    }
}

} // verus!

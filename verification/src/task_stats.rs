//! Per-task runtime statistics.

use vstd::prelude::*;

verus! {

/// One report about a task: a stretch of running, and the sleep before it.
///
/// `parent` is the task's parent; -1 says that the task has exited.
#[derive(Debug, Clone, Copy, PartialEq, Eq, Structural)]
pub struct TaskEvent {
    pub tid: i32,
    pub parent: i32,
    pub sleep_start: u64,
    pub sleep_end: u64,
    pub runtime_ns: u64,
    pub yield_cnt: u32,
    pub runnable_stop_cnt: u32,
    pub stop_cnt: u32,
}

impl TaskEvent {
    /// How long the task slept; 0 where the sleep interval is empty or reversed.
    pub open spec fn sleep_ns(self) -> int {
        if self.sleep_end > self.sleep_start {
            self.sleep_end - self.sleep_start
        } else {
            0
        }
    }
}

/// Accumulated statistics of one task. `S` is the type in which sums of squares
/// are kept.
#[derive(Debug, Clone, Copy)]
pub struct TaskStats<S> {
    pub runtime_sum: u64,
    /// Sum of squared runtimes, for the variance.
    pub runtime_sum_sq: S,
    pub sleep_sum: u64,
    pub sleep_sum_sq: S,
    /// Number of events with sleep.
    pub sleep_count: u64,
    pub runnable_stop_cnt: u64,
    pub yield_cnt: u64,
    pub stop_cnt: u64,
    pub event_count: u64,
    /// Where the climb along the parent chain has got to.
    pub ancestor: i32,
    /// Nonzero once the task has exited.
    pub exit: u8,
    /// Whether an event has come in since the features were last taken.
    pub updated: bool,
}

/// The counts and sums of a task's statistics.
pub struct Totals {
    pub events: int,
    pub runtime: int,
    pub sleeps: int,
    pub sleep: int,
    pub yields: int,
    pub runnable_stops: int,
    pub stops: int,
}

/// The totals of no events.
pub open spec fn no_events() -> Totals {
    Totals {
        events: 0,
        runtime: 0,
        sleeps: 0,
        sleep: 0,
        yields: 0,
        runnable_stops: 0,
        stops: 0,
    }
}

impl Totals {
    /// The totals with one more event.
    pub open spec fn plus(self, e: TaskEvent) -> Totals {
        Totals {
            events: self.events + 1,
            runtime: self.runtime + e.runtime_ns,
            sleeps: self.sleeps + if e.sleep_ns() > 0 {
                1int
            } else {
                0
            },
            sleep: self.sleep + e.sleep_ns(),
            yields: self.yields + e.yield_cnt,
            runnable_stops: self.runnable_stops + e.runnable_stop_cnt,
            stops: self.stops + e.stop_cnt,
        }
    }

    /// Whether every total fits a `u64`.
    pub open spec fn fits(self) -> bool {
        &&& self.events <= u64::MAX
        &&& self.runtime <= u64::MAX
        &&& self.sleeps <= u64::MAX
        &&& self.sleep <= u64::MAX
        &&& self.yields <= u64::MAX
        &&& self.runnable_stops <= u64::MAX
        &&& self.stops <= u64::MAX
    }
}

/// The names of the features, in CSV column order and feature vector order.
pub open spec fn feature_names() -> Seq<Seq<char>> {
    seq![
        "runtime_cv"@,
        "avg_sleep_ms"@,
        "sleep_cv"@,
        "yield_ratio"@,
        "sleep_ratio"@,
        "runnable_stop_ratio"@,
    ]
}

impl<S> TaskStats<S> {
    /// The counts and sums.
    pub open spec fn totals(self) -> Totals {
        Totals {
            events: self.event_count as int,
            runtime: self.runtime_sum as int,
            sleeps: self.sleep_count as int,
            sleep: self.sleep_sum as int,
            yields: self.yield_cnt as int,
            runnable_stops: self.runnable_stop_cnt as int,
            stops: self.stop_cnt as int,
        }
    }

    /// Whether `after` is what `update` makes of these statistics: the totals
    /// grow by the event, each sum of squares grows by one call of `add_square`
    /// (that of the sleeps only if there was one), and there is something new.
    pub open spec fn updates_to<A: Fn(S, u64) -> S>(
        self,
        event: TaskEvent,
        add_square: A,
        after: Self,
    ) -> bool {
        &&& after.totals() == self.totals().plus(event)
        &&& call_ensures(add_square, (self.runtime_sum_sq, event.runtime_ns), after.runtime_sum_sq)
        &&& if event.sleep_ns() > 0 {
            call_ensures(
                add_square,
                (self.sleep_sum_sq, event.sleep_ns() as u64),
                after.sleep_sum_sq,
            )
        } else {
            after.sleep_sum_sq == self.sleep_sum_sq
        }
        &&& after.ancestor == self.ancestor
        &&& after.exit == self.exit
        &&& after.updated
    }

    /// Whether these are the statistics of a task without events, whose climb
    /// starts at `parent`.
    pub open spec fn is_fresh(self, parent: i32, zero: S) -> bool {
        &&& self.totals() == no_events()
        &&& self.runtime_sum_sq == zero
        &&& self.sleep_sum_sq == zero
        &&& self.ancestor == parent
        &&& self.exit == 0
        &&& !self.updated
    }
}

impl<S: Copy> TaskStats<S> {
    /// Statistics of a task without events. `zero` is the empty sum of squares.
    pub fn new(parent: i32, zero: S) -> (r: Self)
        ensures
            r.is_fresh(parent, zero),
    {
        TaskStats {
            runtime_sum: 0,
            runtime_sum_sq: zero,
            sleep_sum: 0,
            sleep_sum_sq: zero,
            sleep_count: 0,
            runnable_stop_cnt: 0,
            yield_cnt: 0,
            stop_cnt: 0,
            event_count: 0,
            ancestor: parent,
            exit: 0,
            updated: false,
        }
    }

    /// Whether the counters have room for `event`.
    pub fn fits(&self, event: &TaskEvent) -> (r: bool)
        ensures
            r == self.totals().plus(*event).fits(),
    {
        let sleep_ns: u64 = if event.sleep_end > event.sleep_start {
            event.sleep_end - event.sleep_start
        } else {
            0
        };
        let max: u64 = u64::MAX;
        self.event_count < max && self.runtime_sum <= max - event.runtime_ns && (sleep_ns == 0
            || self.sleep_count < max) && self.sleep_sum <= max - sleep_ns && self.yield_cnt <= max
            - event.yield_cnt as u64 && self.runnable_stop_cnt <= max
            - event.runnable_stop_cnt as u64 && self.stop_cnt <= max - event.stop_cnt as u64
    }

    /// Accounts for one event. `add_square` adds the square of a duration to a
    /// sum of squares.
    pub fn update<A: Fn(S, u64) -> S>(&mut self, event: &TaskEvent, add_square: A)
        requires
            old(self).totals().plus(*event).fits(),
            forall|sum: S, ns: u64| #[trigger] call_requires(add_square, (sum, ns)),
        ensures
            old(self).updates_to(*event, add_square, *final(self)),
    {
        let sleep_ns: u64 = if event.sleep_end > event.sleep_start {
            event.sleep_end - event.sleep_start
        } else {
            0
        };
        self.event_count = self.event_count + 1;

        self.runtime_sum = self.runtime_sum + event.runtime_ns;
        self.runtime_sum_sq = add_square(self.runtime_sum_sq, event.runtime_ns);

        if sleep_ns > 0 {
            self.sleep_count = self.sleep_count + 1;
            self.sleep_sum = self.sleep_sum + sleep_ns;
            self.sleep_sum_sq = add_square(self.sleep_sum_sq, sleep_ns);
        }
        self.yield_cnt = self.yield_cnt + event.yield_cnt as u64;
        self.runnable_stop_cnt = self.runnable_stop_cnt + event.runnable_stop_cnt as u64;
        self.stop_cnt = self.stop_cnt + event.stop_cnt as u64;
        self.updated = true;
    }

    /// If an event has come in since the last call, the statistics to compute
    /// the features from.
    pub fn take_features_if_needed(&mut self) -> (r: Option<TaskStats<S>>)
        ensures
            r == (if old(self).updated {
                Some(*old(self))
            } else {
                None
            }),
            *final(self) == (TaskStats { updated: false, ..*old(self) }),
    {
        if self.updated {
            let taken = *self;
            self.updated = false;
            Some(taken)
        } else {
            None
        }
    }

    /// The feature names, in CSV column order and feature vector order.
    pub fn get_feature_names() -> (r: Vec<&'static str>)
        ensures
            r@.map_values(|name: &'static str| name@) == feature_names(),
    {
        let names: Vec<&'static str> = vec![
            "runtime_cv",
            "avg_sleep_ms",
            "sleep_cv",
            "yield_ratio",
            "sleep_ratio",
            "runnable_stop_ratio",
        ];
        assert(names@.map_values(|name: &'static str| name@) =~= feature_names());
        names
    }
}

/// The totals of a sequence of events.
pub open spec fn totals_of(events: Seq<TaskEvent>) -> Totals
    decreases events.len(),
{
    if events.len() == 0 {
        no_events()
    } else {
        totals_of(events.drop_last()).plus(events.last())
    }
}

/// The totals do not depend on the order in which two events come in.
pub proof fn law_totals_ignore_order(t: Totals, a: TaskEvent, b: TaskEvent)
    ensures
        t.plus(a).plus(b) == t.plus(b).plus(a),
{
}

/// Of any sequence of events, no more can have had a sleep than there are
/// events, and there is no slept time without a sleep.
pub proof fn law_sleeps_within_events(events: Seq<TaskEvent>)
    ensures
        totals_of(events).events == events.len(),
        0 <= totals_of(events).sleeps <= totals_of(events).events,
        totals_of(events).sleeps <= totals_of(events).sleep,
        totals_of(events).sleeps == 0 ==> totals_of(events).sleep == 0,
    decreases events.len(),
{
    if events.len() > 0 {
        law_sleeps_within_events(events.drop_last());
    }
}

} // verus!

use vstd::prelude::*;
use crate::types::LuaSchedule;

verus! {

/// The indices below `n` of the systems that run in schedule `which`, in order.
pub open spec fn schedule_indices(schedules: Seq<LuaSchedule>, which: LuaSchedule, n: int) -> Seq<usize>
    decreases n,
{
    if n <= 0 {
        Seq::empty()
    } else {
        let prev = schedule_indices(schedules, which, n - 1);
        if schedules[n - 1] == which {
            prev.push((n - 1) as usize)
        } else {
            prev
        }
    }
}

/// The indices below `n` of the observers that watch event `event`, in order.
pub open spec fn event_indices(events: Seq<usize>, event: usize, n: int) -> Seq<usize>
    decreases n,
{
    if n <= 0 {
        Seq::empty()
    } else {
        let prev = event_indices(events, event, n - 1);
        if events[n - 1] == event {
            prev.push((n - 1) as usize)
        } else {
            prev
        }
    }
}

/// The systems to run in a schedule: the indices of those declared for it, in the order
/// they were declared.
pub fn systems_for_schedule(schedules: &[LuaSchedule], which: LuaSchedule) -> (r: Vec<usize>)
    ensures
        r@ == schedule_indices(schedules@, which, schedules@.len() as int),
{
    let n = schedules.len();
    let mut r: Vec<usize> = Vec::new();
    let mut i: usize = 0;
    while i < n
        invariant
            n == schedules@.len(),
            i <= n,
            r@ == schedule_indices(schedules@, which, i as int),
        decreases n - i,
    {
        if schedules[i] == which {
            r.push(i);
        }
        i = i + 1;
    }
    r
}

/// The observers to run for a triggered event: the indices of those watching it, in the
/// order they were declared.
pub fn observers_for_event(events: &[usize], event: usize) -> (r: Vec<usize>)
    ensures
        r@ == event_indices(events@, event, events@.len() as int),
{
    let n = events.len();
    let mut r: Vec<usize> = Vec::new();
    let mut i: usize = 0;
    while i < n
        invariant
            n == events@.len(),
            i <= n,
            r@ == event_indices(events@, event, i as int),
        decreases n - i,
    {
        if events[i] == event {
            r.push(i);
        }
        i = i + 1;
    }
    r
}

/// The systems picked for a schedule are exactly those declared for it, each once, in
/// increasing order.
pub proof fn lemma_schedule_indices(schedules: Seq<LuaSchedule>, which: LuaSchedule, n: int)
    requires
        0 <= n <= schedules.len(),
        schedules.len() <= usize::MAX,
    ensures
        forall|i: usize| #[trigger]
            schedule_indices(schedules, which, n).contains(i) <==> i < n && schedules[i as int] == which,
        forall|a: int, b: int|
            0 <= a < b < schedule_indices(schedules, which, n).len() ==> #[trigger] schedule_indices(
                schedules,
                which,
                n,
            )[a] < #[trigger] schedule_indices(schedules, which, n)[b],
        forall|a: int|
            0 <= a < schedule_indices(schedules, which, n).len() ==> #[trigger] schedule_indices(
                schedules,
                which,
                n,
            )[a] < n,
    decreases n,
{
    if n > 0 {
        lemma_schedule_indices(schedules, which, n - 1);
        let prev = schedule_indices(schedules, which, n - 1);
        let cur = schedule_indices(schedules, which, n);
        if schedules[n - 1] == which {
            let last = (n - 1) as usize;
            assert(cur == prev.push(last));
            assert forall|i: usize| #[trigger] cur.contains(i) <==> i < n && schedules[i as int] == which by {
                if i == last {
                    assert(cur[prev.len() as int] == last);
                }
                if cur.contains(i) {
                    let k = choose|k: int| 0 <= k < cur.len() && cur[k] == i;
                    if k < prev.len() {
                        assert(prev[k] == i);
                    }
                }
                if prev.contains(i) {
                    let k = choose|k: int| 0 <= k < prev.len() && prev[k] == i;
                    assert(cur[k] == i);
                }
            }
            assert forall|a: int, b: int| 0 <= a < b < cur.len() implies #[trigger] cur[a] < #[trigger] cur[b] by {
                assert(cur[a] == prev[a]);
                if b < prev.len() {
                    assert(cur[b] == prev[b]);
                }
            }
            assert forall|a: int| 0 <= a < cur.len() implies #[trigger] cur[a] < n by {
                if a < prev.len() {
                    assert(cur[a] == prev[a]);
                }
            }
        } else {
            assert forall|i: usize| #[trigger] cur.contains(i) <==> i < n && schedules[i as int] == which by {}
        }
    }
}

/// Each system runs in exactly one of the two schedules: the startup and update picks
/// share no index, and together they hold every declared system.
pub proof fn lemma_schedules_partition(schedules: Seq<LuaSchedule>, i: usize)
    requires
        schedules.len() <= usize::MAX,
        i < schedules.len(),
    ensures
        schedule_indices(schedules, LuaSchedule::Startup, schedules.len() as int).contains(i)
            != schedule_indices(schedules, LuaSchedule::Update, schedules.len() as int).contains(i),
{
    lemma_schedule_indices(schedules, LuaSchedule::Startup, schedules.len() as int);
    lemma_schedule_indices(schedules, LuaSchedule::Update, schedules.len() as int);
    assert(schedule_indices(schedules, LuaSchedule::Startup, schedules.len() as int).contains(i)
        <==> schedules[i as int] == LuaSchedule::Startup);
    assert(schedule_indices(schedules, LuaSchedule::Update, schedules.len() as int).contains(i)
        <==> schedules[i as int] == LuaSchedule::Update);
}

/// The observers picked for an event are exactly those that watch it.
pub proof fn lemma_event_indices(events: Seq<usize>, event: usize, n: int, i: usize)
    requires
        0 <= n <= events.len(),
        events.len() <= usize::MAX,
    ensures
        event_indices(events, event, n).contains(i) <==> i < n && events[i as int] == event,
    decreases n,
{
    if n > 0 {
        lemma_event_indices(events, event, n - 1, i);
        let prev = event_indices(events, event, n - 1);
        let cur = event_indices(events, event, n);
        if events[n - 1] == event {
            let last = (n - 1) as usize;
            assert(cur == prev.push(last));
            if i == last {
                assert(cur[prev.len() as int] == last);
            }
            if cur.contains(i) {
                let k = choose|k: int| 0 <= k < cur.len() && cur[k] == i;
                if k < prev.len() {
                    assert(prev[k] == i);
                }
            }
            if prev.contains(i) {
                let k = choose|k: int| 0 <= k < prev.len() && prev[k] == i;
                assert(cur[k] == i);
            }
        }
    }
}

/// What a script system or observer asks to be handed.
#[derive(Clone, Copy, Debug, PartialEq, Eq, Structural)]
pub enum ParamKind {
    Commands,
    Time,
    Query,
    Resource,
}

/// What the script is handed for a parameter.
#[derive(Clone, Copy, Debug, PartialEq, Eq, Structural)]
pub enum ArgKind {
    /// A commands handle valid for this call.
    Commands,
    /// The frame's time.
    Time,
    /// The rows of the query.
    Query,
    /// The fields of the resource.
    Resource,
    /// Nothing.
    Nil,
}

/// The argument a parameter gets: a system gets what it asks for; an observer gets
/// commands and queries, and nil for anything else.
pub fn argument_kind(param: ParamKind, observer: bool) -> (r: ArgKind)
    ensures
        !observer ==> r == match param {
            ParamKind::Commands => ArgKind::Commands,
            ParamKind::Time => ArgKind::Time,
            ParamKind::Query => ArgKind::Query,
            ParamKind::Resource => ArgKind::Resource,
        },
        observer ==> r == match param {
            ParamKind::Commands => ArgKind::Commands,
            ParamKind::Query => ArgKind::Query,
            _ => ArgKind::Nil,
        },
{
    match param {
        ParamKind::Commands => ArgKind::Commands,
        ParamKind::Query => ArgKind::Query,
        ParamKind::Time => if observer {
            ArgKind::Nil
        } else {
            ArgKind::Time
        },
        ParamKind::Resource => if observer {
            ArgKind::Nil
        } else {
            ArgKind::Resource
        },
    }
}

/// Whether what a script was handed for an argument is written back to the engine once
/// it returns: query rows and resource fields are; nothing else is.
pub fn writes_back(arg: ArgKind) -> (r: bool)
    ensures
        r == (arg == ArgKind::Query || arg == ArgKind::Resource),
{
    match arg {
        ArgKind::Query | ArgKind::Resource => true,
        _ => false,
    }
}

}

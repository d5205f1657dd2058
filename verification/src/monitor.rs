//! The decision core of the monitoring cycle: which store transitions one
//! package's check drives, and what a whole cycle of checks does to the
//! store. The surrounding loop performs the upstream lookups and the builds
//! and hands their results to these functions.

use vstd::prelude::*;
use crate::db::{
    building_state, built_state, failed_state, needs_build_spec, PackageDb, StateView,
};

verus! {

/// How a build that was started ended.
pub enum BuildOutcome {
    Built,
    BuildFailed(Seq<char>),
}

/// What one package contributed to one monitoring cycle: its upstream lookup
/// failed, or a version was observed at some time and, if that started a
/// build, the build ended with the given outcome at some later time.
pub enum CycleEvent {
    LookupFailed { package: Seq<char> },
    Observed {
        package: Seq<char>,
        version: Seq<char>,
        checked_at: u64,
        outcome: BuildOutcome,
        finished_at: u64,
    },
}

/// The store transition for one package in one cycle: a failed lookup
/// changes nothing; an observed version that warrants a build drives
/// `Building` and then the build's outcome; any other observation changes
/// nothing.
pub open spec fn step_spec(m: Map<Seq<char>, StateView>, e: CycleEvent) -> Map<
    Seq<char>,
    StateView,
> {
    match e {
        CycleEvent::LookupFailed { .. } => m,
        CycleEvent::Observed { package, version, checked_at, outcome, finished_at } => {
            if needs_build_spec(m, package, version) {
                let m1 = m.insert(package, building_state(version, checked_at));
                match outcome {
                    BuildOutcome::Built => m1.insert(
                        package,
                        built_state(m1[package], version, finished_at),
                    ),
                    BuildOutcome::BuildFailed(reason) => m1.insert(
                        package,
                        failed_state(m1[package], reason),
                    ),
                }
            } else {
                m
            }
        },
    }
}

/// The store transition of a whole cycle: its events in order.
pub open spec fn cycle_spec(m: Map<Seq<char>, StateView>, es: Seq<CycleEvent>) -> Map<
    Seq<char>,
    StateView,
>
    decreases es.len(),
{
    if es.len() == 0 {
        m
    } else {
        cycle_spec(step_spec(m, es[0]), es.skip(1))
    }
}

proof fn lemma_cycle_append(m: Map<Seq<char>, StateView>, a: Seq<CycleEvent>, b: Seq<CycleEvent>)
    ensures
        cycle_spec(m, a + b) == cycle_spec(cycle_spec(m, a), b),
    decreases a.len(),
{
    if a.len() == 0 {
        assert(a + b =~= b);
    } else {
        assert((a + b)[0] == a[0]);
        assert((a + b).skip(1) =~= a.skip(1) + b);
        lemma_cycle_append(step_spec(m, a[0]), a.skip(1), b);
    }
}

/// A failed upstream lookup for one package neither changes the store nor
/// affects what happens to the packages checked after it in the same cycle:
/// the cycle runs exactly as if that package had been skipped.
pub proof fn lemma_failed_lookup_does_not_block(
    m: Map<Seq<char>, StateView>,
    pre: Seq<CycleEvent>,
    package: Seq<char>,
    post: Seq<CycleEvent>,
)
    ensures
        cycle_spec(m, pre + seq![CycleEvent::LookupFailed { package }] + post) == cycle_spec(
            m,
            pre + post,
        ),
{
    let f = CycleEvent::LookupFailed { package };
    lemma_cycle_append(m, pre + seq![f], post);
    lemma_cycle_append(m, pre, seq![f]);
    lemma_cycle_append(m, pre, post);
    assert((pre + seq![f]) + post =~= pre + seq![f] + post);
    let m1 = cycle_spec(m, pre);
    assert(seq![f].skip(1) =~= Seq::<CycleEvent>::empty());
    assert(seq![f][0] == f);
    assert(step_spec(m1, f) == m1);
    assert(cycle_spec(m1, Seq::<CycleEvent>::empty()) == m1);
    assert(cycle_spec(m1, seq![f]) == m1);
}

/// The first half of one package's cycle step: decide staleness and, when a
/// build is warranted, record the `Building` snapshot. Returns whether a
/// build was started; the store's guard can then be released while it runs.
pub fn start_build_if_stale(db: &mut PackageDb, package: &str, version: &str, now: u64) -> (started:
    bool)
    requires
        old(db).wf(),
    ensures
        final(db).wf(),
        started == needs_build_spec(old(db)@, package@, version@),
        started ==> final(db)@ == old(db)@.insert(package@, building_state(version@, now)),
        !started ==> final(db)@ == old(db)@,
{
    if db.needs_build(package, version) {
        db.mark_building_at(package, version, now);
        true
    } else {
        false
    }
}

/// The second half: record how the build ended. `error` is the build
/// failure's description, absent on success.
pub fn record_build_outcome(
    db: &mut PackageDb,
    package: &str,
    version: &str,
    error: Option<&str>,
    now: u64,
)
    requires
        old(db).wf(),
    ensures
        final(db).wf(),
        old(db)@.contains_key(package@) ==> final(db)@ == (match error {
            Option::None => old(db)@.insert(
                package@,
                built_state(old(db)@[package@], version@, now),
            ),
            Option::Some(e) => old(db)@.insert(package@, failed_state(old(db)@[package@], e@)),
        }),
        !old(db)@.contains_key(package@) ==> final(db)@ == old(db)@,
{
    match error {
        Option::None => db.mark_built_at(package, version, now),
        Option::Some(e) => db.mark_failed(package, e),
    }
}

} // verus!

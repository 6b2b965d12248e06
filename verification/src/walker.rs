//! The subtree walker: the per-entry state transition of one filtered,
//! cancellable recursive traversal with throttled progress emission.
//!
//! The walker itself is a pure state machine. A driver enumerates the
//! subtree (one entry at a time, not following symbolic links), reads the
//! clock, and feeds each entry in; every decision — filtering, saturating
//! accumulation, cancellation, and when a progress value is emitted — is
//! made and verified here.

use vstd::prelude::*;

use crate::keys::spec_should_skip;
use crate::sums::sat_add;

verus! {

/// A progress value is emitted when the running sum has grown by at least
/// this many bytes since the last emission.
pub const PROGRESS_BYTES_STEP: u64 = 8 * 1024 * 1024;

/// A progress value is emitted at latest after this many counted files.
pub const PROGRESS_FILES_STEP: u32 = 200;

/// One entry encountered during a subtree traversal: its file name, and its
/// byte size when it is a file with readable metadata (`None` for
/// directories and unreadable entries, which contribute nothing).
#[derive(Clone, Debug)]
pub struct WalkEntry {
    pub name: String,
    pub file_size: Option<u64>,
}

/// The walker's running state: the saturating byte total, the value last
/// emitted, the files counted since that emission, and whether the walk was
/// cancelled.
#[derive(Clone, Copy, PartialEq, Eq, Structural, Debug)]
pub struct WalkState {
    pub sum: u64,
    pub last_emitted: u64,
    pub files_since: u32,
    pub canceled: bool,
}

/// Validity of a walker state: the file counter never reaches the forced
/// emission bound, and the emitted value never runs ahead of the sum.
pub open spec fn walk_wf(st: WalkState) -> bool {
    st.files_since < PROGRESS_FILES_STEP && st.last_emitted <= st.sum
}

/// The transition one entry causes: the next state, and the progress value
/// to publish, if this entry triggers an emission.
pub open spec fn spec_walk_step(
    st: WalkState,
    name: Seq<char>,
    file_size: Option<u64>,
    show_hidden: bool,
    igs: Seq<Seq<char>>,
    due_time: bool,
    cancel: bool,
) -> (WalkState, Option<u64>) {
    if cancel {
        (WalkState { canceled: true, ..st }, None)
    } else if spec_should_skip(name, show_hidden, igs) {
        (st, None)
    } else {
        match file_size {
            Some(size) => {
                let sum2 = sat_add(st.sum, size);
                let grown = sum2 - st.last_emitted >= PROGRESS_BYTES_STEP;
                let counted = st.files_since + 1 >= PROGRESS_FILES_STEP;
                if due_time || grown || counted {
                    (
                        WalkState { sum: sum2, last_emitted: sum2, files_since: 0, canceled: false },
                        Some(sum2),
                    )
                } else {
                    (
                        WalkState {
                            sum: sum2,
                            last_emitted: st.last_emitted,
                            files_since: (st.files_since + 1) as u32,
                            canceled: false,
                        },
                        None,
                    )
                }
            },
            None => (st, None),
        }
    }
}

/// The state a fresh subtree walk starts from.
pub fn walk_start() -> (st: WalkState)
    ensures
        st == (WalkState { sum: 0, last_emitted: 0, files_since: 0, canceled: false }),
        walk_wf(st),
{
    WalkState { sum: 0, last_emitted: 0, files_since: 0, canceled: false }
}

/// Feeds one traversal entry to the walker. The cancellation signal is
/// checked before the entry is looked at, so cancellation latency is
/// bounded by a single entry. Entries the filters exclude, directories and
/// unreadable entries leave the total unchanged; a counted file grows the
/// total by its size, saturating. A progress value is emitted when the
/// throttle asks for one: enough time has passed (`due_time`, read from the
/// driver's clock), the total grew by `PROGRESS_BYTES_STEP`, or
/// `PROGRESS_FILES_STEP` files were counted since the last emission.
pub fn walk_step(
    st: WalkState,
    entry: &WalkEntry,
    show_hidden: bool,
    ignores: &Vec<String>,
    due_time: bool,
    cancel: bool,
) -> (r: (WalkState, Option<u64>))
    requires
        walk_wf(st),
        !st.canceled,
    ensures
        r == spec_walk_step(
            st,
            entry.name@,
            entry.file_size,
            show_hidden,
            ignores.deep_view(),
            due_time,
            cancel,
        ),
        walk_wf(r.0),
        r.0.sum >= st.sum,
        r.0.last_emitted >= st.last_emitted,
        r.1 matches Some(v) ==> v == r.0.sum && v >= st.last_emitted,
{
    if cancel {
        return (
            WalkState {
                sum: st.sum,
                last_emitted: st.last_emitted,
                files_since: st.files_since,
                canceled: true,
            },
            None,
        );
    }
    if crate::keys::should_skip(entry.name.as_str(), show_hidden, ignores) {
        return (st, None);
    }
    match entry.file_size {
        Some(size) => {
            let sum2 = st.sum.saturating_add(size);
            let due_bytes = sum2 - st.last_emitted >= PROGRESS_BYTES_STEP;
            let due_files = st.files_since + 1 >= PROGRESS_FILES_STEP;
            if due_time || due_bytes || due_files {
                (
                    WalkState { sum: sum2, last_emitted: sum2, files_since: 0, canceled: false },
                    Some(sum2),
                )
            } else {
                (
                    WalkState {
                        sum: sum2,
                        last_emitted: st.last_emitted,
                        files_since: st.files_since + 1,
                        canceled: false,
                    },
                    None,
                )
            }
        },
        None => (st, None),
    }
}

/// Ends a walk: the final byte total, whether the walk ran to completion
/// (it was not cancelled), and one forced final emission whenever the last
/// emitted value would otherwise go stale.
pub fn walk_finish(st: WalkState) -> (r: (u64, bool, Option<u64>))
    requires
        walk_wf(st),
    ensures
        r.0 == st.sum,
        r.1 == !st.canceled,
        r.2 == if st.last_emitted != st.sum {
            Some(st.sum)
        } else {
            None::<u64>
        },
        r.2 matches Some(v) ==> v >= st.last_emitted,
{
    if st.last_emitted != st.sum {
        (st.sum, !st.canceled, Some(st.sum))
    } else {
        (st.sum, !st.canceled, None)
    }
}

/// The state a walk reaches after a sequence of entries, each given as
/// (name, file size if a readable file, whether the time trigger was due),
/// with no cancellation.
pub open spec fn walk_run(
    st: WalkState,
    steps: Seq<(Seq<char>, Option<u64>, bool)>,
    show_hidden: bool,
    igs: Seq<Seq<char>>,
) -> WalkState
    decreases steps.len(),
{
    if steps.len() == 0 {
        st
    } else {
        let st1 = spec_walk_step(st, steps[0].0, steps[0].1, show_hidden, igs, steps[0].2, false).0;
        walk_run(st1, steps.drop_first(), show_hidden, igs)
    }
}

/// The progress values such a run publishes, in order.
pub open spec fn walk_run_emissions(
    st: WalkState,
    steps: Seq<(Seq<char>, Option<u64>, bool)>,
    show_hidden: bool,
    igs: Seq<Seq<char>>,
) -> Seq<u64>
    decreases steps.len(),
{
    if steps.len() == 0 {
        Seq::empty()
    } else {
        let r = spec_walk_step(st, steps[0].0, steps[0].1, show_hidden, igs, steps[0].2, false);
        (match r.1 {
            Some(v) => seq![v],
            None => Seq::empty(),
        }) + walk_run_emissions(r.0, steps.drop_first(), show_hidden, igs)
    }
}

/// Cache monotonicity: along any walk, the running total and the last
/// published value never shrink, and the published values come out in
/// non-decreasing order — so the cached byte value of the walked child is
/// non-decreasing until its final entry is written.
pub proof fn lemma_walk_monotone(
    st: WalkState,
    steps: Seq<(Seq<char>, Option<u64>, bool)>,
    show_hidden: bool,
    igs: Seq<Seq<char>>,
)
    requires
        walk_wf(st),
    ensures
        walk_wf(walk_run(st, steps, show_hidden, igs)),
        walk_run(st, steps, show_hidden, igs).sum >= st.sum,
        walk_run(st, steps, show_hidden, igs).last_emitted >= st.last_emitted,
        forall|k: int|
            0 <= k < walk_run_emissions(st, steps, show_hidden, igs).len()
                ==> #[trigger] walk_run_emissions(st, steps, show_hidden, igs)[k]
                >= st.last_emitted,
        forall|k1: int, k2: int|
            0 <= k1 <= k2 < walk_run_emissions(st, steps, show_hidden, igs).len()
                ==> walk_run_emissions(st, steps, show_hidden, igs)[k1]
                <= walk_run_emissions(st, steps, show_hidden, igs)[k2],
    decreases steps.len(),
{
    if steps.len() > 0 {
        let r = spec_walk_step(st, steps[0].0, steps[0].1, show_hidden, igs, steps[0].2, false);
        let st1 = r.0;
        assert(walk_wf(st1));
        assert(st1.sum >= st.sum);
        assert(st1.last_emitted >= st.last_emitted);
        lemma_walk_monotone(st1, steps.drop_first(), show_hidden, igs);
        let em = walk_run_emissions(st, steps, show_hidden, igs);
        let tail = walk_run_emissions(st1, steps.drop_first(), show_hidden, igs);
        match r.1 {
            Some(v) => {
                assert(v == st1.sum && v == st1.last_emitted);
                assert(em =~= seq![v] + tail);
                assert(forall|k: int| 0 <= k < tail.len() ==> em[k + 1] == #[trigger] tail[k]);
            },
            None => {
                assert(em =~= tail);
            },
        }
    }
}

/// The throttle bound: a counted file either fires an emission or advances
/// the file counter by exactly one, and once the counter stands one short
/// of `PROGRESS_FILES_STEP` the next counted file always fires. Hence a
/// quiet stretch of a walk never counts `PROGRESS_FILES_STEP` files, no
/// matter how small they are.
pub proof fn lemma_throttle_forces_emission(
    st: WalkState,
    name: Seq<char>,
    size: u64,
    show_hidden: bool,
    igs: Seq<Seq<char>>,
    due_time: bool,
)
    requires
        walk_wf(st),
        !spec_should_skip(name, show_hidden, igs),
    ensures
        ({
            let (st2, emitted) = spec_walk_step(st, name, Some(size), show_hidden, igs, due_time, false);
            &&& (emitted is None ==> st2.files_since == st.files_since + 1)
            &&& (st.files_since + 1 >= PROGRESS_FILES_STEP ==> emitted is Some)
        }),
{
}

} // verus!

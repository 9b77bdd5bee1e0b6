//! The versioned snapshot store: what an accumulator looked like at each
//! ledger height at which it grew, so that a read at a past height never sees
//! what was appended later.

use vstd::prelude::*;
use crate::error::AccumulatorError;
use crate::mmr::{copy_peaks, peaks_view, Peak, PeakModel};

verus! {

/// The state of an accumulator that a reader sees: how many leaves, and the
/// peaks over them.
pub struct StateModel {
    pub leaf_count: nat,
    pub peaks: Seq<PeakModel>,
}

/// The state of an accumulator as of one ledger height.
pub struct SnapshotModel {
    pub height: nat,
    pub state: StateModel,
}

/// The state of an accumulator that a reader sees.
#[derive(Debug)]
pub struct State {
    pub leaf_count: u64,
    pub peaks: Vec<Peak>,
}

impl View for State {
    type V = StateModel;

    open spec fn view(&self) -> StateModel {
        StateModel { leaf_count: self.leaf_count as nat, peaks: peaks_view(self.peaks@) }
    }
}

/// The state before anything was appended: no leaves, no peaks.
pub open spec fn empty_state() -> StateModel {
    StateModel { leaf_count: 0, peaks: Seq::empty() }
}

/// Whether a history is in order: heights rise strictly, and leaf counts
/// never fall.
pub open spec fn ordered(history: Seq<SnapshotModel>) -> bool {
    forall|i: int, j: int|
        0 <= i < j < history.len() ==> (#[trigger] history[i]).height < (#[trigger] history[j]).height
            && history[i].state.leaf_count <= history[j].state.leaf_count
}

/// The state that a read at `height` sees: that of the latest snapshot at or
/// before `height`, or the empty state if there is none.
pub open spec fn state_at(history: Seq<SnapshotModel>, height: nat) -> StateModel
    decreases history.len(),
{
    if history.len() == 0 {
        empty_state()
    } else if history.last().height <= height {
        history.last().state
    } else {
        state_at(history.drop_last(), height)
    }
}

/// Whether a history can take a snapshot at `height` with `leaf_count`
/// leaves: neither may lie before the latest snapshot.
pub open spec fn accepts(history: Seq<SnapshotModel>, height: nat, leaf_count: nat) -> bool {
    history.len() == 0 || (history.last().height <= height && history.last().state.leaf_count
        <= leaf_count)
}

/// The history after `snapshot` was recorded. A snapshot at the height of the
/// latest one takes its place: the state of a height is the state after the
/// last append at that height.
pub open spec fn recorded(history: Seq<SnapshotModel>, snapshot: SnapshotModel) -> Seq<
    SnapshotModel,
> {
    if history.len() > 0 && history.last().height == snapshot.height {
        history.drop_last().push(snapshot)
    } else {
        history.push(snapshot)
    }
}

/// Recording an accepted snapshot keeps the history in order.
pub proof fn lemma_recorded_ordered(history: Seq<SnapshotModel>, snapshot: SnapshotModel)
    requires
        ordered(history),
        accepts(history, snapshot.height, snapshot.state.leaf_count),
    ensures
        ordered(recorded(history, snapshot)),
{
    let after = recorded(history, snapshot);
    assert forall|i: int, j: int| 0 <= i < j < after.len() implies (#[trigger] after[i]).height < (
    #[trigger] after[j]).height && after[i].state.leaf_count <= after[j].state.leaf_count by {
        assert(after[i] == history[i]);
        if j < after.len() - 1 {
            assert(after[j] == history[j]);
        } else {
            assert(history[i].height <= history.last().height);
            assert(history[i].state.leaf_count <= history.last().state.leaf_count);
        }
    }
}

/// A read at a height before that of a new snapshot sees what it saw before
/// the snapshot was recorded.
pub proof fn lemma_recorded_keeps_past(
    history: Seq<SnapshotModel>,
    snapshot: SnapshotModel,
    height: nat,
)
    requires
        height < snapshot.height,
    ensures
        state_at(recorded(history, snapshot), height) == state_at(history, height),
{
    let after = recorded(history, snapshot);
    if history.len() > 0 && history.last().height == snapshot.height {
        assert(after.drop_last() =~= history.drop_last());
    } else {
        assert(after.drop_last() =~= history);
    }
}

/// A read at the height of a new snapshot, or after it, sees that snapshot.
pub proof fn lemma_recorded_is_seen(
    history: Seq<SnapshotModel>,
    snapshot: SnapshotModel,
    height: nat,
)
    requires
        height >= snapshot.height,
    ensures
        state_at(recorded(history, snapshot), height) == snapshot.state,
{
}

/// In an ordered history of which exactly the first `below` snapshots are at
/// or before `height`, a read at `height` sees the last of those, or the
/// empty state if there are none.
pub proof fn lemma_state_at_partition(history: Seq<SnapshotModel>, height: nat, below: int)
    requires
        0 <= below <= history.len(),
        forall|i: int| 0 <= i < below ==> (#[trigger] history[i]).height <= height,
        forall|i: int| below <= i < history.len() ==> (#[trigger] history[i]).height > height,
    ensures
        state_at(history, height) == if below == 0 {
            empty_state()
        } else {
            history[below - 1].state
        },
    decreases history.len(),
{
    if history.len() > 0 && below < history.len() {
        lemma_state_at_partition(history.drop_last(), height, below);
    }
}

/// What a read sees is the empty state or the state of a snapshot that is not
/// after the height of the read, and no snapshot lies between the two.
pub proof fn lemma_state_at_is_latest(history: Seq<SnapshotModel>, height: nat)
    requires
        ordered(history),
    ensures
        (forall|i: int| 0 <= i < history.len() ==> (#[trigger] history[i]).height > height)
            ==> state_at(history, height) == empty_state(),
        forall|i: int|
            0 <= i < history.len() && (#[trigger] history[i]).height <= height && (i + 1
                < history.len() ==> history[i + 1].height > height) ==> state_at(history, height)
                == history[i].state,
    decreases history.len(),
{
    if history.len() > 0 {
        let shorter = history.drop_last();
        lemma_state_at_is_latest(shorter, height);
        assert forall|i: int|
            0 <= i < history.len() && (#[trigger] history[i]).height <= height && (i + 1
                < history.len() ==> history[i + 1].height > height) implies state_at(
            history,
            height,
        ) == history[i].state by {
            if i + 1 < history.len() {
                assert(history[i + 1].height <= history.last().height);
                assert(shorter[i] == history[i]);
                if i + 1 < shorter.len() {
                    assert(shorter[i + 1] == history[i + 1]);
                }
            }
        }
        if forall|i: int| 0 <= i < history.len() ==> (#[trigger] history[i]).height > height {
            assert(history[history.len() - 1].height > height);
            assert forall|i: int| 0 <= i < shorter.len() implies (#[trigger] shorter[i]).height
                > height by {
                assert(shorter[i] == history[i]);
            }
        }
    }
}

/// What a read sees is the empty state or the state of one of the snapshots.
pub proof fn lemma_state_at_in_history(history: Seq<SnapshotModel>, height: nat)
    ensures
        state_at(history, height) == empty_state() || exists|i: int|
            0 <= i < history.len() && (#[trigger] history[i]).state == state_at(history, height),
    decreases history.len(),
{
    if history.len() > 0 {
        if history.last().height <= height {
            assert(history[history.len() - 1].state == state_at(history, height));
        } else {
            let shorter = history.drop_last();
            lemma_state_at_in_history(shorter, height);
            if state_at(history, height) != empty_state() {
                let i = choose|i: int|
                    0 <= i < shorter.len() && (#[trigger] shorter[i]).state == state_at(
                        shorter,
                        height,
                    );
                assert(history[i] == shorter[i]);
            }
        }
    }
}

/// One recorded snapshot.
struct Snapshot {
    height: u64,
    state: State,
}

/// The models of a list of snapshots, in the same order.
spec fn history_of(snapshots: Seq<Snapshot>) -> Seq<SnapshotModel> {
    snapshots.map_values(|s: Snapshot| SnapshotModel { height: s.height as nat, state: s.state@ })
}

/// The snapshots of one accumulator, oldest first. Its view is the history
/// that they make up.
pub struct SnapshotStore {
    snapshots: Vec<Snapshot>,
}

impl View for SnapshotStore {
    type V = Seq<SnapshotModel>;

    closed spec fn view(&self) -> Seq<SnapshotModel> {
        history_of(self.snapshots@)
    }
}

impl SnapshotStore {
    /// The invariant of the store: its history is in order.
    pub open spec fn wf(&self) -> bool {
        ordered(self@)
    }

    /// The store with no snapshots.
    pub fn new() -> (store: SnapshotStore)
        ensures
            store.wf(),
            store@ == Seq::<SnapshotModel>::empty(),
    {
        let store = SnapshotStore { snapshots: Vec::new() };
        assert(store@ =~= Seq::<SnapshotModel>::empty());
        store
    }

    /// The height of the latest snapshot, if there is one.
    pub fn latest_height(&self) -> (h: Option<u64>)
        ensures
            self@.len() == 0 ==> h is None,
            self@.len() > 0 ==> h is Some && h->Some_0 == self@.last().height,
    {
        let len = self.snapshots.len();
        if len == 0 {
            None
        } else {
            Some(self.snapshots[len - 1].height)
        }
    }

    /// Records the state of the accumulator as of `height`. The snapshot is
    /// turned down, and nothing changes, if `height` or `leaf_count` lies
    /// before that of the latest snapshot.
    pub fn record_snapshot(&mut self, height: u64, leaf_count: u64, peaks: Vec<Peak>) -> (r: Result<
        (),
        AccumulatorError,
    >)
        requires
            old(self).wf(),
        ensures
            final(self).wf(),
            !accepts(old(self)@, height as nat, leaf_count as nat) ==> r == Err::<
                (),
                AccumulatorError,
            >(AccumulatorError::InvalidHeight) && *final(self) == *old(self),
            accepts(old(self)@, height as nat, leaf_count as nat) ==> r == Ok::<
                (),
                AccumulatorError,
            >(()) && final(self)@ == recorded(
                old(self)@,
                SnapshotModel {
                    height: height as nat,
                    state: StateModel { leaf_count: leaf_count as nat, peaks: peaks_view(peaks@) },
                },
            ),
    {
        let ghost before = self@;
        let ghost snapshot = SnapshotModel {
            height: height as nat,
            state: StateModel { leaf_count: leaf_count as nat, peaks: peaks_view(peaks@) },
        };
        let len = self.snapshots.len();
        if len > 0 {
            let latest = &self.snapshots[len - 1];
            if latest.height > height || latest.state.leaf_count > leaf_count {
                return Err(AccumulatorError::InvalidHeight);
            }
            if latest.height == height {
                self.snapshots.pop();
            }
        }
        self.snapshots.push(Snapshot { height, state: State { leaf_count, peaks } });
        proof {
            assert(self@ =~= recorded(before, snapshot));
            lemma_recorded_ordered(before, snapshot);
        }
        Ok(())
    }

    /// The state that a read at `height` sees while the ledger's tip is at
    /// `tip`: that of the latest snapshot at or before `height`, or the empty
    /// state if there is none. A height beyond the tip cannot be read.
    pub fn resolve(&self, height: u64, tip: u64) -> (r: Result<State, AccumulatorError>)
        requires
            self.wf(),
        ensures
            height > tip ==> r == Err::<State, AccumulatorError>(AccumulatorError::InvalidHeight),
            height <= tip ==> r is Ok && r->Ok_0@ == state_at(self@, height as nat),
    {
        if height > tip {
            return Err(AccumulatorError::InvalidHeight);
        }
        let mut low: usize = 0;
        let mut high: usize = self.snapshots.len();
        while low < high
            invariant
                self.wf(),
                low <= high <= self.snapshots@.len(),
                forall|i: int| 0 <= i < low ==> (#[trigger] self@[i]).height <= height,
                forall|i: int| high <= i < self@.len() ==> (#[trigger] self@[i]).height > height,
            decreases high - low,
        {
            let mid = low + (high - low) / 2;
            if self.snapshots[mid].height <= height {
                assert forall|i: int| 0 <= i < mid + 1 implies (#[trigger] self@[i]).height
                    <= height by {
                    assert(self@[i].height <= self@[mid as int].height);
                }
                low = mid + 1;
            } else {
                assert forall|i: int| mid <= i < self@.len() implies (#[trigger] self@[i]).height
                    > height by {
                    assert(self@[mid as int].height <= self@[i].height);
                }
                high = mid;
            }
        }
        proof {
            lemma_state_at_partition(self@, height as nat, low as int);
        }
        if low == 0 {
            let state = State { leaf_count: 0, peaks: Vec::new() };
            assert(state@.peaks =~= Seq::<PeakModel>::empty());
            Ok(state)
        } else {
            let found = &self.snapshots[low - 1];
            Ok(State { leaf_count: found.state.leaf_count, peaks: copy_peaks(&found.state.peaks) })
        }
    }
}

} // verus!

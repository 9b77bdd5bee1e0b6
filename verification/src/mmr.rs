//! The Merkle Mountain Range: an append-only forest of perfect binary hash
//! trees over a sequence of leaves.
//!
//! The range over `n` leaves has one mountain for each set bit of `n`. The
//! mountain for the bit at position `h` stands over `2^h` consecutive leaves,
//! and the mountains cover the leaves from the first to the last in order of
//! falling height.

use vstd::prelude::*;
use vstd::arithmetic::power2::{lemma2_to64, lemma_pow2_pos, lemma_pow2_strictly_increases, lemma_pow2_unfold, pow2};
use vstd::slice::slice_to_vec;
use crate::error::AccumulatorError;
use crate::hash::{hash_leaf, hash_node, spec_hash_leaf, spec_hash_node, zero_commitment, Commitment, MAX_PAYLOAD_LEN};
use crate::shape::{
    clear_lowest_bit, count_ones, is_aligned, lemma_add_bit_below, lemma_aligned_lowest_bit_ge,
    lemma_aligned_one_more, lemma_aligned_weaken, lemma_clear_lowest_bit_aligned,
    lemma_count_ones_clear_lowest_bit, lemma_lowest_bit_of_sum, lemma_lowest_set_bit_le,
    lemma_zero_aligned, lowest_set_bit,
};

verus! {

/// What a peak is, mathematically: the height of its mountain and the bytes
/// of its commitment.
pub struct PeakModel {
    pub height: nat,
    pub commitment: Seq<u8>,
}

/// The top of one mountain.
#[derive(Clone, Copy, Debug)]
pub struct Peak {
    /// The number of merge levels below the peak.
    pub height: u32,
    /// The commitment to all leaves under the peak.
    pub commitment: Commitment,
}

impl View for Peak {
    type V = PeakModel;

    open spec fn view(&self) -> PeakModel {
        PeakModel { height: self.height as nat, commitment: self.commitment@ }
    }
}

/// The models of a list of peaks, in the same order.
pub open spec fn peaks_view(peaks: Seq<Peak>) -> Seq<PeakModel> {
    peaks.map_values(|p: Peak| p@)
}

/// The commitment at the top of the mountain of the given height whose first
/// leaf is `leaves[start]`. It stands over `2^height` leaves.
pub open spec fn mountain(leaves: Seq<Seq<u8>>, start: nat, height: nat) -> Seq<u8>
    decreases height,
{
    if height == 0 {
        spec_hash_leaf(leaves[start as int])
    } else {
        let below = (height - 1) as nat;
        spec_hash_node(
            mountain(leaves, start, below),
            mountain(leaves, start + pow2(below), below),
        )
    }
}

/// The peaks of the range over the first `count` leaves, highest mountain
/// first. The last peak belongs to the lowest set bit of `count`; the peaks
/// before it are those of the leaves that it does not cover.
pub open spec fn peaks_of(leaves: Seq<Seq<u8>>, count: nat) -> Seq<PeakModel>
    decreases count,
{
    if count == 0 {
        Seq::empty()
    } else {
        proof {
            lemma_lowest_set_bit_le(count);
        }
        let covered = clear_lowest_bit(count);
        let height = lowest_set_bit(count);
        peaks_of(leaves, covered).push(
            PeakModel { height, commitment: mountain(leaves, covered, height) },
        )
    }
}

/// The root that bags a list of peaks: the peaks are folded from the last to
/// the first, each one becoming the left child of a node whose right child is
/// what was folded so far. One peak is its own root; no peaks give the zero
/// commitment.
pub open spec fn bag_peaks(peaks: Seq<PeakModel>) -> Seq<u8>
    decreases peaks.len(),
{
    if peaks.len() == 0 {
        zero_commitment()
    } else if peaks.len() == 1 {
        peaks[0].commitment
    } else {
        spec_hash_node(peaks[0].commitment, bag_peaks(peaks.skip(1)))
    }
}

/// The root of the range over all of `leaves`.
pub open spec fn root_of(leaves: Seq<Seq<u8>>) -> Seq<u8> {
    bag_peaks(peaks_of(leaves, leaves.len()))
}

/// The leaves after each of `payloads` was appended in turn.
pub open spec fn after_appends(leaves: Seq<Seq<u8>>, payloads: Seq<Seq<u8>>) -> Seq<Seq<u8>>
    decreases payloads.len(),
{
    if payloads.len() == 0 {
        leaves
    } else {
        after_appends(leaves, payloads.drop_last()).push(payloads.last())
    }
}

/// After any number of appends the leaves are those that were there,
/// followed by the payloads in the order of their appends.
pub proof fn lemma_appends_extend(leaves: Seq<Seq<u8>>, payloads: Seq<Seq<u8>>)
    ensures
        after_appends(leaves, payloads) == leaves + payloads,
    decreases payloads.len(),
{
    if payloads.len() == 0 {
        assert(leaves + payloads =~= leaves);
    } else {
        lemma_appends_extend(leaves, payloads.drop_last());
        assert((leaves + payloads.drop_last()).push(payloads.last()) =~= leaves + payloads);
    }
}

/// Appends accumulate: a range that started empty has as many leaves as
/// there were appends, and the leaf at each index is, byte for byte, the
/// payload of the append at that position.
pub proof fn lemma_appends_accumulate(payloads: Seq<Seq<u8>>)
    ensures
        after_appends(Seq::empty(), payloads).len() == payloads.len(),
        forall|i: int|
            0 <= i < payloads.len() ==> after_appends(Seq::empty(), payloads)[i] == payloads[i],
{
    lemma_appends_extend(Seq::empty(), payloads);
    assert(Seq::<Seq<u8>>::empty() + payloads =~= payloads);
}

/// The root is a function of the peaks alone: two ranges with the same peaks
/// have the same root, whatever their leaves.
pub proof fn lemma_root_follows_peaks(a: Seq<Seq<u8>>, b: Seq<Seq<u8>>)
    requires
        peaks_of(a, a.len()) == peaks_of(b, b.len()),
    ensures
        root_of(a) == root_of(b),
{
}

/// A mountain depends only on the leaves that it stands over.
pub proof fn lemma_mountain_frame(a: Seq<Seq<u8>>, b: Seq<Seq<u8>>, start: nat, height: nat)
    requires
        forall|i: int| start <= i < start + pow2(height) ==> a[i] == b[i],
    ensures
        mountain(a, start, height) == mountain(b, start, height),
    decreases height,
{
    lemma_pow2_pos(height);
    if height > 0 {
        let below = (height - 1) as nat;
        lemma_pow2_unfold(height);
        lemma_mountain_frame(a, b, start, below);
        lemma_mountain_frame(a, b, start + pow2(below), below);
    }
}

/// The peaks over the first `count` leaves depend only on those leaves.
pub proof fn lemma_peaks_frame(a: Seq<Seq<u8>>, b: Seq<Seq<u8>>, count: nat)
    requires
        forall|i: int| 0 <= i < count ==> a[i] == b[i],
    ensures
        peaks_of(a, count) == peaks_of(b, count),
    decreases count,
{
    if count > 0 {
        lemma_lowest_set_bit_le(count);
        let covered = clear_lowest_bit(count);
        lemma_peaks_frame(a, b, covered);
        lemma_mountain_frame(a, b, covered, lowest_set_bit(count));
    }
}

/// There is one peak for each set bit of the leaf count.
pub proof fn lemma_peak_count(leaves: Seq<Seq<u8>>, count: nat)
    ensures
        peaks_of(leaves, count).len() == count_ones(count),
    decreases count,
{
    if count > 0 {
        lemma_lowest_set_bit_le(count);
        lemma_count_ones_clear_lowest_bit(count);
        lemma_peak_count(leaves, clear_lowest_bit(count));
    }
}

/// The number of leaves under a list of peaks: `2^height` for each peak.
pub open spec fn leaves_under(peaks: Seq<PeakModel>) -> nat
    decreases peaks.len(),
{
    if peaks.len() == 0 {
        0
    } else {
        leaves_under(peaks.drop_last()) + pow2(peaks.last().height)
    }
}

/// The mountains cover the leaves: the peaks over `count` leaves have
/// `count` leaves under them. With their falling heights, this makes the
/// heights of the peaks the positions of the set bits of `count`.
pub proof fn lemma_peaks_cover(leaves: Seq<Seq<u8>>, count: nat)
    ensures
        leaves_under(peaks_of(leaves, count)) == count,
    decreases count,
{
    if count > 0 {
        lemma_lowest_set_bit_le(count);
        let covered = clear_lowest_bit(count);
        lemma_peaks_cover(leaves, covered);
        assert(peaks_of(leaves, count).drop_last() =~= peaks_of(leaves, covered));
    }
}

/// Every peak over a count that is aligned to `bits` bits is at least `bits`
/// high.
pub proof fn lemma_peaks_at_least(leaves: Seq<Seq<u8>>, count: nat, bits: nat)
    requires
        is_aligned(count, bits),
    ensures
        forall|i: int|
            0 <= i < peaks_of(leaves, count).len() ==> (#[trigger] peaks_of(leaves, count)[i]).height
                >= bits,
    decreases count,
{
    if count > 0 {
        lemma_lowest_set_bit_le(count);
        lemma_aligned_lowest_bit_ge(count, bits);
        lemma_clear_lowest_bit_aligned(count);
        lemma_aligned_weaken(clear_lowest_bit(count), lowest_set_bit(count) + 1, bits);
        lemma_peaks_at_least(leaves, clear_lowest_bit(count), bits);
        let all = peaks_of(leaves, count);
        let before = peaks_of(leaves, clear_lowest_bit(count));
        assert forall|i: int| 0 <= i < all.len() implies (#[trigger] all[i]).height >= bits by {
            if i < before.len() {
                assert(all[i] == before[i]);
            }
        }
    }
}

/// The peaks stand in order of strictly falling height.
pub proof fn lemma_peaks_descend(leaves: Seq<Seq<u8>>, count: nat)
    ensures
        forall|i: int, j: int|
            0 <= i < j < peaks_of(leaves, count).len() ==> (#[trigger] peaks_of(leaves, count)[i]).height
                > (#[trigger] peaks_of(leaves, count)[j]).height,
    decreases count,
{
    if count > 0 {
        lemma_lowest_set_bit_le(count);
        let covered = clear_lowest_bit(count);
        lemma_clear_lowest_bit_aligned(count);
        lemma_peaks_at_least(leaves, covered, lowest_set_bit(count) + 1);
        lemma_peaks_descend(leaves, covered);
        let all = peaks_of(leaves, count);
        let before = peaks_of(leaves, covered);
        assert forall|i: int, j: int| 0 <= i < j < all.len() implies (#[trigger] all[i]).height > (
        #[trigger] all[j]).height by {
            assert(all[i] == before[i]);
            if j < before.len() {
                assert(all[j] == before[j]);
            }
        }
    }
}

/// The peaks over an aligned count stay in front when fewer leaves follow
/// than the alignment leaves room for.
pub proof fn lemma_peaks_prefix(leaves: Seq<Seq<u8>>, base: nat, extra: nat, bits: nat)
    requires
        is_aligned(base, bits),
        extra < pow2(bits),
    ensures
        peaks_of(leaves, base).len() <= peaks_of(leaves, base + extra).len(),
        forall|i: int|
            0 <= i < peaks_of(leaves, base).len() ==> peaks_of(leaves, base + extra)[i]
                == #[trigger] peaks_of(leaves, base)[i],
    decreases extra,
{
    if extra > 0 {
        lemma_lowest_set_bit_le(extra);
        lemma_lowest_bit_of_sum(base, extra, bits);
        lemma_peaks_prefix(leaves, base, clear_lowest_bit(extra), bits);
        let shorter = peaks_of(leaves, base + clear_lowest_bit(extra));
        assert forall|i: int| 0 <= i < peaks_of(leaves, base).len() implies peaks_of(
            leaves,
            base + extra,
        )[i] == #[trigger] peaks_of(leaves, base)[i] by {
            assert(peaks_of(leaves, base + extra)[i] == shorter[i]);
        }
    }
}

/// Finished mountains are never touched. An append leaves every peak but
/// the last where it was and as it was: the peaks after the append, without
/// the last one, are the first peaks from before. Only the mountains at the
/// end, the newest ones, are merged, into the one new last peak.
pub proof fn lemma_append_keeps_older_peaks(leaves: Seq<Seq<u8>>, payload: Seq<u8>)
    ensures
        peaks_of(leaves.push(payload), leaves.len() + 1).len() >= 1,
        peaks_of(leaves.push(payload), leaves.len() + 1).len() - 1 <= peaks_of(
            leaves,
            leaves.len(),
        ).len(),
        forall|i: int|
            0 <= i < peaks_of(leaves.push(payload), leaves.len() + 1).len() - 1 ==> (
            #[trigger] peaks_of(leaves.push(payload), leaves.len() + 1)[i]) == peaks_of(
                leaves,
                leaves.len(),
            )[i],
{
    let grown = leaves.push(payload);
    let count = leaves.len() + 1;
    let height = lowest_set_bit(count);
    let covered = clear_lowest_bit(count);
    lemma_lowest_set_bit_le(count);
    lemma_clear_lowest_bit_aligned(count);
    lemma_aligned_weaken(covered, height + 1, height);
    lemma_peaks_prefix(grown, covered, (pow2(height) - 1) as nat, height);
    lemma_peaks_frame(leaves, grown, leaves.len());
    let after = peaks_of(grown, count);
    let kept = peaks_of(grown, covered);
    assert forall|i: int| 0 <= i < after.len() - 1 implies (#[trigger] after[i]) == peaks_of(
        leaves,
        leaves.len(),
    )[i] by {
        assert(after[i] == kept[i]);
    }
}

/// One stored leaf: its payload and the commitment to it.
struct Leaf {
    payload: Vec<u8>,
    commitment: Commitment,
}

/// The payloads of a list of stored leaves.
spec fn payloads_of(leaves: Seq<Leaf>) -> Seq<Seq<u8>> {
    leaves.map_values(|l: Leaf| l.payload@)
}

/// What an append hands back: the index of the new leaf and the root of the
/// range that now includes it.
#[derive(Clone, Copy, Debug)]
pub struct AppendReceipt {
    pub index: u64,
    pub root: Commitment,
}

/// A Merkle Mountain Range with its leaves. Its view is the sequence of the
/// payloads appended so far.
pub struct Mmr {
    leaves: Vec<Leaf>,
    peaks: Vec<Peak>,
}

impl View for Mmr {
    type V = Seq<Seq<u8>>;

    closed spec fn view(&self) -> Seq<Seq<u8>> {
        payloads_of(self.leaves@)
    }
}

/// Whether the last two peaks of a stack have the same height.
fn top_two_level(peaks: &Vec<Peak>) -> (level: bool)
    ensures
        level == (peaks@.len() >= 2 && peaks@[peaks@.len() - 2].height == peaks@[peaks@.len()
            - 1].height),
{
    let len = peaks.len();
    len >= 2 && peaks[len - 2].height == peaks[len - 1].height
}

/// A copy of a list of peaks.
pub fn copy_peaks(peaks: &Vec<Peak>) -> (copy: Vec<Peak>)
    ensures
        copy@ == peaks@,
{
    let mut copy: Vec<Peak> = Vec::new();
    let mut i: usize = 0;
    while i < peaks.len()
        invariant
            i <= peaks@.len(),
            copy@ == peaks@.take(i as int),
        decreases peaks@.len() - i,
    {
        copy.push(peaks[i]);
        i += 1;
        assert(copy@ =~= peaks@.take(i as int));
    }
    assert(copy@ =~= peaks@);
    copy
}

/// Bags a list of peaks into one root.
pub fn bag(peaks: &Vec<Peak>) -> (root: Commitment)
    ensures
        root@ == bag_peaks(peaks_view(peaks@)),
{
    let len = peaks.len();
    if len == 0 {
        return Commitment::zero();
    }
    let ghost models = peaks_view(peaks@);
    let mut i: usize = len - 1;
    let mut root = peaks[i].commitment;
    proof {
        assert(models.skip(i as int).len() == 1);
        assert(models.skip(i as int)[0] == models[i as int]);
    }
    while i > 0
        invariant
            i < len,
            len == peaks@.len(),
            models == peaks_view(peaks@),
            root@ == bag_peaks(models.skip(i as int)),
        decreases i,
    {
        i -= 1;
        root = hash_node(&peaks[i].commitment, &root);
        proof {
            let tail = models.skip(i as int);
            assert(tail.len() >= 2);
            assert(tail[0] == models[i as int]);
            assert(tail.skip(1) =~= models.skip(i + 1));
        }
    }
    proof {
        assert(models.skip(0) =~= models);
    }
    root
}

impl Mmr {
    /// The invariant of the range: its peaks are those of its leaves, every
    /// stored commitment is that of its payload, and no payload is over the
    /// limit.
    pub closed spec fn wf(&self) -> bool {
        &&& peaks_view(self.peaks@) == peaks_of(self@, self@.len())
        &&& forall|i: int|
            0 <= i < self.leaves@.len() ==> (#[trigger] self.leaves@[i]).commitment@
                == spec_hash_leaf(self.leaves@[i].payload@)
        &&& forall|i: int|
            0 <= i < self.leaves@.len() ==> (#[trigger] self.leaves@[i]).payload@.len()
                <= MAX_PAYLOAD_LEN
    }

    /// The range over no leaves.
    pub fn new() -> (mmr: Mmr)
        ensures
            mmr.wf(),
            mmr@ == Seq::<Seq<u8>>::empty(),
    {
        let mmr = Mmr { leaves: Vec::new(), peaks: Vec::new() };
        assert(mmr@ =~= Seq::<Seq<u8>>::empty());
        assert(peaks_view(mmr.peaks@) =~= peaks_of(mmr@, 0));
        mmr
    }

    /// Appends a leaf. The payload is hashed and becomes a mountain of height
    /// 0; then, as long as the two newest mountains are equally high, they
    /// are merged into one that is one higher, the older one on the left.
    ///
    /// A payload over the limit is turned down and changes nothing.
    pub fn append(&mut self, payload: &[u8]) -> (r: Result<AppendReceipt, AccumulatorError>)
        requires
            old(self).wf(),
        ensures
            final(self).wf(),
            payload@.len() > MAX_PAYLOAD_LEN ==> r == Err::<AppendReceipt, AccumulatorError>(
                AccumulatorError::SerializationError,
            ) && *final(self) == *old(self),
            payload@.len() <= MAX_PAYLOAD_LEN ==> r is Ok && final(self)@ == old(self)@.push(
                payload@,
            ) && r->Ok_0.index == old(self)@.len() && r->Ok_0.root@ == root_of(final(self)@),
    {
        if payload.len() > MAX_PAYLOAD_LEN {
            return Err(AccumulatorError::SerializationError);
        }
        let ghost before = self@;
        let index = self.leaves.len() as u64;
        let commitment = hash_leaf(payload);
        self.leaves.push(Leaf { payload: slice_to_vec(payload), commitment });
        self.peaks.push(Peak { height: 0, commitment });
        let total = self.leaves.len();
        let ghost stored = self.leaves;
        let ghost leaves = self@;
        let ghost mut covered: nat = before.len();
        let ghost mut height: nat = 0;
        proof {
            assert(leaves =~= before.push(payload@));
            assert(leaves.len() == total);
            lemma_peaks_frame(before, leaves, before.len());
            lemma2_to64();
            assert(peaks_view(self.peaks@) =~= peaks_of(leaves, covered).push(
                PeakModel { height: 0, commitment: mountain(leaves, covered, 0) },
            ));
        }
        while top_two_level(&self.peaks)
            invariant
                self.leaves == stored,
                leaves == payloads_of(stored@),
                leaves.len() <= usize::MAX,
                covered + pow2(height) == leaves.len(),
                is_aligned(covered, height),
                peaks_view(self.peaks@) == peaks_of(leaves, covered).push(
                    PeakModel { height, commitment: mountain(leaves, covered, height) },
                ),
            decreases self.peaks@.len(),
        {
            let ghost stack = self.peaks@;
            let ghost models = peaks_view(stack);
            let ghost below = peaks_of(leaves, covered);
            let right = self.peaks.pop().unwrap();
            let left = self.peaks.pop().unwrap();
            proof {
                assert(models.len() == stack.len());
                assert(below.len() >= 1);
                assert(covered > 0);
                lemma_lowest_set_bit_le(covered);
                lemma_clear_lowest_bit_aligned(covered);
                assert(models[stack.len() - 1] == right@);
                assert(models[stack.len() - 2] == left@);
                assert(models[stack.len() - 2] == below[below.len() - 1]);
                assert(lowest_set_bit(covered) == height);
                lemma_pow2_unfold(height + 1);
                lemma2_to64();
                assert(pow2(height + 1) <= leaves.len());
                if height + 1 >= 64 {
                    if height + 1 > 64 {
                        lemma_pow2_strictly_increases(64, height + 1);
                    }
                }
                assert(height + 1 < 64);
            }
            let merged = Peak {
                height: left.height + 1,
                commitment: hash_node(&left.commitment, &right.commitment),
            };
            self.peaks.push(merged);
            proof {
                let rest = clear_lowest_bit(covered);
                let lower = peaks_of(leaves, rest);
                assert(merged.commitment@ == mountain(leaves, rest, height + 1));
                assert(below == lower.push(
                    PeakModel { height, commitment: mountain(leaves, rest, height) },
                ));
                assert(lower.len() == stack.len() - 2);
                assert forall|i: int| 0 <= i < lower.len() implies peaks_view(self.peaks@)[i]
                    == lower[i] by {
                    assert(self.peaks@[i] == stack[i]);
                    assert(models[i] == below[i]);
                    assert(below[i] == lower[i]);
                }
                assert(peaks_view(self.peaks@) =~= peaks_of(leaves, rest).push(
                    PeakModel { height: height + 1, commitment: mountain(leaves, rest, height + 1) },
                ));
                covered = rest;
                height = height + 1;
            }
        }
        proof {
            let models = peaks_view(self.peaks@);
            if covered == 0 {
                lemma_zero_aligned(height + 1);
            } else {
                let below = peaks_of(leaves, covered);
                lemma_lowest_set_bit_le(covered);
                assert(below.len() >= 1);
                assert(models.len() == self.peaks@.len());
                assert(models[models.len() - 1] == self.peaks@[models.len() - 1]@);
                assert(models[models.len() - 2] == self.peaks@[models.len() - 2]@);
                assert(models[models.len() - 2] == below[below.len() - 1]);
                assert(below[below.len() - 1].height == lowest_set_bit(covered));
                lemma_aligned_one_more(covered, height);
            }
            lemma_add_bit_below(covered, height);
        }
        let root = bag(&self.peaks);
        Ok(AppendReceipt { index, root })
    }

    /// The number of leaves.
    pub fn count(&self) -> (n: u64)
        ensures
            n == self@.len(),
    {
        self.leaves.len() as u64
    }

    /// The peaks, highest mountain first.
    pub fn peaks(&self) -> (peaks: &Vec<Peak>)
        requires
            self.wf(),
        ensures
            peaks_view(peaks@) == peaks_of(self@, self@.len()),
            peaks@.len() == count_ones(self@.len()),
    {
        proof {
            lemma_peak_count(self@, self@.len());
        }
        &self.peaks
    }

    /// The root: the peaks, bagged.
    pub fn root(&self) -> (root: Commitment)
        requires
            self.wf(),
        ensures
            root@ == root_of(self@),
    {
        bag(&self.peaks)
    }

    /// The payload of the leaf at `index`, as it was appended.
    pub fn leaf(&self, index: u64) -> (r: Result<&Vec<u8>, AccumulatorError>)
        ensures
            index >= self@.len() ==> r == Err::<&Vec<u8>, AccumulatorError>(AccumulatorError::NotFound),
            index < self@.len() ==> r is Ok && r->Ok_0@ == self@[index as int],
    {
        if index >= self.leaves.len() as u64 {
            return Err(AccumulatorError::NotFound);
        }
        Ok(&self.leaves[index as usize].payload)
    }
}

} // verus!

use accumulator::access::{Identity, WriteAccess};
use accumulator::error::AccumulatorError;
use accumulator::hash::{hash_leaf, hash_node, Commitment, MAX_PAYLOAD_LEN};
use accumulator::registry::{Address, QueryHeight, Registry};

const OWNER: Identity = Identity(1);
const OTHER: Identity = Identity(2);

#[test]
fn new_registry_is_empty_with_the_tip_at_zero() {
    let registry = Registry::new();
    assert_eq!(registry.len(), 0);
    assert_eq!(registry.tip(), 0);
    assert!(registry.attach(Address(0)).is_err());
}

#[test]
fn addresses_are_handed_out_in_order_and_never_again() {
    let mut registry = Registry::new();
    let a = registry.create(WriteAccess::OnlyOwner, OWNER);
    let b = registry.create(WriteAccess::Public, OTHER);
    let c = registry.create(WriteAccess::OnlyOwner, OWNER);
    assert_eq!(a, Address(0));
    assert_eq!(b, Address(1));
    assert_eq!(c, Address(2));
    assert_eq!(registry.len(), 3);
    assert_eq!(registry.attach(a).unwrap().owner(), OWNER);
    assert_eq!(registry.attach(b).unwrap().owner(), OTHER);
    assert_eq!(registry.attach(b).unwrap().policy(), WriteAccess::Public);
    assert_eq!(registry.attach(a).unwrap().policy(), WriteAccess::OnlyOwner);
}

#[test]
fn unknown_address_is_not_found() {
    let mut registry = Registry::new();
    registry.create(WriteAccess::Public, OWNER);
    let unknown = Address(1);
    assert_eq!(registry.attach(unknown).err(), Some(AccumulatorError::NotFound));
    assert_eq!(registry.append(unknown, OWNER, b"a").err(), Some(AccumulatorError::NotFound));
    assert_eq!(registry.count(unknown, QueryHeight::Pending), Err(AccumulatorError::NotFound));
    assert_eq!(registry.root(unknown, QueryHeight::Committed), Err(AccumulatorError::NotFound));
    assert_eq!(registry.peaks(unknown, QueryHeight::Height(0)).err(), Some(AccumulatorError::NotFound));
    assert_eq!(registry.leaf(unknown, 0, QueryHeight::Pending), Err(AccumulatorError::NotFound));
    assert_eq!(registry.attach(Address(u64::MAX)).err(), Some(AccumulatorError::NotFound));
}

#[test]
fn unknown_address_comes_before_every_other_refusal() {
    let mut registry = Registry::new();
    let big = vec![0u8; MAX_PAYLOAD_LEN + 1];
    assert_eq!(registry.append(Address(0), OTHER, &big).err(), Some(AccumulatorError::NotFound));
}

#[test]
fn accumulator_is_created_in_the_pending_block() {
    let mut registry = Registry::new();
    let a = registry.create(WriteAccess::Public, OWNER);
    assert_eq!(registry.attach(a).unwrap().created_at(), 1);
    assert_eq!(registry.count(a, QueryHeight::Pending), Ok(0));
    assert_eq!(registry.count(a, QueryHeight::Committed), Err(AccumulatorError::InvalidHeight));
    assert_eq!(registry.commit_block(), Ok(1));
    assert_eq!(registry.count(a, QueryHeight::Committed), Ok(0));
    assert_eq!(registry.root(a, QueryHeight::Committed), Ok(Commitment::zero()));
    assert_eq!(registry.count(a, QueryHeight::Height(0)), Err(AccumulatorError::InvalidHeight));
}

#[test]
fn pending_append_is_seen_only_by_pending_reads() {
    let mut registry = Registry::new();
    let a = registry.create(WriteAccess::Public, OWNER);
    registry.commit_block().unwrap();
    let receipt = registry.append(a, OWNER, b"a").unwrap();
    assert_eq!(receipt.index, 0);
    assert_eq!(registry.count(a, QueryHeight::Pending), Ok(1));
    assert_eq!(registry.root(a, QueryHeight::Pending), Ok(hash_leaf(b"a")));
    assert_eq!(registry.leaf(a, 0, QueryHeight::Pending), Ok(&b"a".to_vec()));
    assert_eq!(registry.count(a, QueryHeight::Committed), Ok(0));
    assert_eq!(registry.root(a, QueryHeight::Committed), Ok(Commitment::zero()));
    assert_eq!(registry.leaf(a, 0, QueryHeight::Committed), Err(AccumulatorError::NotFound));
    assert_eq!(registry.count(a, QueryHeight::Height(1)), Ok(0));
}

#[test]
fn committing_the_block_publishes_what_was_pending() {
    let mut registry = Registry::new();
    let a = registry.create(WriteAccess::Public, OWNER);
    registry.commit_block().unwrap();
    registry.append(a, OWNER, b"a").unwrap();
    registry.append(a, OWNER, b"b").unwrap();
    let pending_root = registry.root(a, QueryHeight::Pending).unwrap();
    assert_eq!(registry.commit_block(), Ok(2));
    assert_eq!(registry.tip(), 2);
    assert_eq!(registry.count(a, QueryHeight::Committed), Ok(2));
    assert_eq!(registry.root(a, QueryHeight::Committed), Ok(pending_root));
    assert_eq!(registry.root(a, QueryHeight::Height(2)), Ok(pending_root));
    assert_eq!(pending_root, hash_node(&hash_leaf(b"a"), &hash_leaf(b"b")));
    assert_eq!(registry.leaf(a, 1, QueryHeight::Committed), Ok(&b"b".to_vec()));
    assert_eq!(registry.count(a, QueryHeight::Height(1)), Ok(0));
}

#[test]
fn explicit_height_beyond_the_tip_is_invalid() {
    let mut registry = Registry::new();
    let a = registry.create(WriteAccess::Public, OWNER);
    registry.commit_block().unwrap();
    registry.append(a, OWNER, b"a").unwrap();
    assert_eq!(registry.count(a, QueryHeight::Height(2)), Err(AccumulatorError::InvalidHeight));
    assert_eq!(registry.root(a, QueryHeight::Height(2)), Err(AccumulatorError::InvalidHeight));
    assert_eq!(
        registry.peaks(a, QueryHeight::Height(3)).err(),
        Some(AccumulatorError::InvalidHeight)
    );
    assert_eq!(
        registry.leaf(a, 0, QueryHeight::Height(u64::MAX)),
        Err(AccumulatorError::InvalidHeight)
    );
    assert_eq!(registry.count(a, QueryHeight::Height(1)), Ok(0));
}

#[test]
fn committed_reads_are_not_touched_by_appends() {
    let mut registry = Registry::new();
    let a = registry.create(WriteAccess::Public, OWNER);
    let b = registry.create(WriteAccess::Public, OWNER);
    registry.commit_block().unwrap();
    registry.append(a, OWNER, b"a1").unwrap();
    registry.append(b, OWNER, b"b1").unwrap();
    registry.commit_block().unwrap();
    let root_a = registry.root(a, QueryHeight::Committed).unwrap();
    let root_b = registry.root(b, QueryHeight::Committed).unwrap();
    let at_2 = registry.root(a, QueryHeight::Height(2)).unwrap();
    for i in 0u8..9 {
        registry.append(a, OTHER, &[i]).unwrap();
        assert_eq!(registry.root(a, QueryHeight::Committed), Ok(root_a));
        assert_eq!(registry.root(b, QueryHeight::Committed), Ok(root_b));
        assert_eq!(registry.root(a, QueryHeight::Height(2)), Ok(at_2));
        assert_eq!(registry.count(a, QueryHeight::Committed), Ok(1));
        assert_eq!(registry.count(a, QueryHeight::Pending), Ok(i as u64 + 2));
        assert_eq!(registry.leaf(a, 1, QueryHeight::Committed), Err(AccumulatorError::NotFound));
    }
    registry.commit_block().unwrap();
    assert_eq!(registry.root(a, QueryHeight::Height(2)), Ok(at_2));
    assert_eq!(registry.count(a, QueryHeight::Height(2)), Ok(1));
    assert_eq!(registry.count(a, QueryHeight::Height(3)), Ok(10));
    assert_eq!(registry.count(b, QueryHeight::Height(3)), Ok(1));
}

#[test]
fn accumulators_do_not_share_state() {
    let mut registry = Registry::new();
    let a = registry.create(WriteAccess::OnlyOwner, OWNER);
    let b = registry.create(WriteAccess::OnlyOwner, OTHER);
    registry.append(a, OWNER, b"x").unwrap();
    registry.append(a, OWNER, b"y").unwrap();
    registry.append(b, OTHER, b"z").unwrap();
    assert_eq!(registry.count(a, QueryHeight::Pending), Ok(2));
    assert_eq!(registry.count(b, QueryHeight::Pending), Ok(1));
    assert_eq!(registry.leaf(b, 0, QueryHeight::Pending), Ok(&b"z".to_vec()));
    assert_eq!(registry.root(b, QueryHeight::Pending), Ok(hash_leaf(b"z")));
    assert_eq!(registry.append(b, OWNER, b"w").err(), Some(AccumulatorError::PermissionDenied));
    assert_eq!(registry.append(a, OTHER, b"w").err(), Some(AccumulatorError::PermissionDenied));
    assert_eq!(registry.count(a, QueryHeight::Pending), Ok(2));
    assert_eq!(registry.count(b, QueryHeight::Pending), Ok(1));
}

#[test]
fn denied_append_leaves_the_registry_as_it_was() {
    let mut registry = Registry::new();
    let a = registry.create(WriteAccess::OnlyOwner, OWNER);
    registry.append(a, OWNER, b"a").unwrap();
    let root = registry.root(a, QueryHeight::Pending).unwrap();
    assert_eq!(registry.append(a, OTHER, b"b").err(), Some(AccumulatorError::PermissionDenied));
    assert_eq!(registry.count(a, QueryHeight::Pending), Ok(1));
    assert_eq!(registry.root(a, QueryHeight::Pending), Ok(root));
    assert_eq!(registry.tip(), 0);
    assert_eq!(registry.len(), 1);
}

#[test]
fn oversized_payload_is_turned_down_by_the_registry() {
    let mut registry = Registry::new();
    let a = registry.create(WriteAccess::Public, OWNER);
    let big = vec![0u8; MAX_PAYLOAD_LEN + 1];
    assert_eq!(registry.append(a, OWNER, &big).err(), Some(AccumulatorError::SerializationError));
    assert_eq!(registry.count(a, QueryHeight::Pending), Ok(0));
}

#[test]
fn peaks_are_read_at_the_height_asked_for() {
    let mut registry = Registry::new();
    let a = registry.create(WriteAccess::Public, OWNER);
    for i in 0u8..3 {
        registry.append(a, OWNER, &[i]).unwrap();
        registry.commit_block().unwrap();
    }
    let heights = |peaks: Vec<accumulator::mmr::Peak>| -> Vec<u32> {
        peaks.iter().map(|p| p.height).collect()
    };
    assert_eq!(heights(registry.peaks(a, QueryHeight::Height(1)).unwrap()), vec![0]);
    assert_eq!(heights(registry.peaks(a, QueryHeight::Height(2)).unwrap()), vec![1]);
    assert_eq!(heights(registry.peaks(a, QueryHeight::Height(3)).unwrap()), vec![1, 0]);
    assert_eq!(heights(registry.peaks(a, QueryHeight::Committed).unwrap()), vec![1, 0]);
    assert_eq!(heights(registry.peaks(a, QueryHeight::Pending).unwrap()), vec![1, 0]);
}

#[test]
fn tip_moves_up_by_one_with_each_block() {
    let mut registry = Registry::new();
    for expected in 1u64..=5 {
        assert_eq!(registry.commit_block(), Ok(expected));
        assert_eq!(registry.tip(), expected);
    }
}

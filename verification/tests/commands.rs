use accumulator::access::Identity;
use accumulator::command::{
    handle_accumulator, AccumulatorArgs, AccumulatorCommands, BroadcastMode, Reply,
};
use accumulator::error::AccumulatorError;
use accumulator::hash::{hash_leaf, hash_node, Commitment};
use accumulator::mmr::Peak;
use accumulator::registry::{Address, QueryHeight, Registry};

const OWNER: Identity = Identity(10);
const OTHER: Identity = Identity(11);

fn run(registry: &mut Registry, command: AccumulatorCommands) -> Result<Reply, AccumulatorError> {
    handle_accumulator(registry, &AccumulatorArgs::new(command))
}

fn create(registry: &mut Registry, owner: Identity, public_write: bool) -> Address {
    match run(registry, AccumulatorCommands::Create { owner, public_write }) {
        Ok(Reply::Created { address }) => address,
        other => panic!("unexpected reply: {:?}", other),
    }
}

fn push(
    registry: &mut Registry,
    caller: Identity,
    address: Address,
    payload: &[u8],
) -> Result<(u64, Commitment), AccumulatorError> {
    let command = AccumulatorCommands::Push {
        caller,
        address,
        payload: payload.to_vec(),
        broadcast_mode: BroadcastMode::Commit,
    };
    match run(registry, command) {
        Ok(Reply::Pushed { index, root }) => Ok((index, root)),
        Ok(other) => panic!("unexpected reply: {:?}", other),
        Err(e) => Err(e),
    }
}

fn count(registry: &mut Registry, address: Address, height: QueryHeight) -> Result<u64, AccumulatorError> {
    match run(registry, AccumulatorCommands::Count { address, height }) {
        Ok(Reply::Count { count }) => Ok(count),
        Ok(other) => panic!("unexpected reply: {:?}", other),
        Err(e) => Err(e),
    }
}

fn root(
    registry: &mut Registry,
    address: Address,
    height: QueryHeight,
) -> Result<Commitment, AccumulatorError> {
    match run(registry, AccumulatorCommands::Root { address, height }) {
        Ok(Reply::Root { root }) => Ok(root),
        Ok(other) => panic!("unexpected reply: {:?}", other),
        Err(e) => Err(e),
    }
}

fn peaks(
    registry: &mut Registry,
    address: Address,
    height: QueryHeight,
) -> Result<Vec<Peak>, AccumulatorError> {
    match run(registry, AccumulatorCommands::Peaks { address, height }) {
        Ok(Reply::Peaks { peaks }) => Ok(peaks),
        Ok(other) => panic!("unexpected reply: {:?}", other),
        Err(e) => Err(e),
    }
}

fn leaf(
    registry: &mut Registry,
    address: Address,
    index: u64,
    height: QueryHeight,
) -> Result<Vec<u8>, AccumulatorError> {
    match run(registry, AccumulatorCommands::Leaf { index, address, height }) {
        Ok(Reply::Leaf { payload }) => Ok(payload),
        Ok(other) => panic!("unexpected reply: {:?}", other),
        Err(e) => Err(e),
    }
}

#[test]
fn three_appends_to_an_only_owner_accumulator() {
    let mut registry = Registry::new();
    let address = create(&mut registry, OWNER, false);
    registry.commit_block().unwrap();

    assert_eq!(push(&mut registry, OWNER, address, b"a").unwrap().0, 0);
    registry.commit_block().unwrap();
    let (index, pushed_root) = push(&mut registry, OWNER, address, b"b").unwrap();
    assert_eq!(index, 1);
    let height_of_second = registry.commit_block().unwrap();
    let root_after_second = root(&mut registry, address, QueryHeight::Committed).unwrap();
    assert_eq!(root_after_second, pushed_root);

    let (index, pushed_root) = push(&mut registry, OWNER, address, b"c").unwrap();
    assert_eq!(index, 2);
    registry.commit_block().unwrap();

    assert_eq!(count(&mut registry, address, QueryHeight::Committed), Ok(3));
    let now = peaks(&mut registry, address, QueryHeight::Committed).unwrap();
    assert_eq!(now.len(), 2);
    assert_eq!(now[0].height, 1);
    assert_eq!(now[1].height, 0);
    assert_eq!(leaf(&mut registry, address, 1, QueryHeight::Committed), Ok(b"b".to_vec()));

    let root_after_third = root(&mut registry, address, QueryHeight::Committed).unwrap();
    assert_eq!(root_after_third, pushed_root);
    assert_ne!(root_after_third, root_after_second);
    assert_eq!(
        root(&mut registry, address, QueryHeight::Height(height_of_second)),
        Ok(root_after_second)
    );
    assert_eq!(
        root_after_second.to_hex(),
        "ee616625a590167bc4b3dc703ab4f3f2ddecbee6b9d05fee9281f02046e6082e"
    );
    assert_eq!(
        root_after_third.to_hex(),
        "17321db51c1ef3ec1f77e271aa300b4e5c6091708bcba37e46025774a26142ee"
    );
}

#[test]
fn create_chooses_the_policy_from_the_flag() {
    let mut registry = Registry::new();
    let closed = create(&mut registry, OWNER, false);
    let open = create(&mut registry, OWNER, true);
    assert_eq!(closed, Address(0));
    assert_eq!(open, Address(1));
    assert_eq!(push(&mut registry, OTHER, closed, b"x"), Err(AccumulatorError::PermissionDenied));
    assert_eq!(push(&mut registry, OTHER, open, b"x").unwrap().0, 0);
    assert_eq!(push(&mut registry, OWNER, closed, b"x").unwrap().0, 0);
}

#[test]
fn denied_push_leaves_the_count_unchanged() {
    let mut registry = Registry::new();
    let address = create(&mut registry, OWNER, false);
    push(&mut registry, OWNER, address, b"a").unwrap();
    assert_eq!(push(&mut registry, OTHER, address, b"b"), Err(AccumulatorError::PermissionDenied));
    assert_eq!(count(&mut registry, address, QueryHeight::Pending), Ok(1));
    assert_eq!(root(&mut registry, address, QueryHeight::Pending), Ok(hash_leaf(b"a")));
}

#[test]
fn anyone_may_push_to_a_public_accumulator() {
    let mut registry = Registry::new();
    let address = create(&mut registry, OWNER, true);
    for id in [0u64, 1, 10, 11, u64::MAX] {
        assert!(push(&mut registry, Identity(id), address, &id.to_le_bytes()).is_ok());
    }
    assert_eq!(count(&mut registry, address, QueryHeight::Pending), Ok(5));
}

#[test]
fn push_to_an_unknown_address_is_not_found() {
    let mut registry = Registry::new();
    assert_eq!(push(&mut registry, OWNER, Address(0), b"a"), Err(AccumulatorError::NotFound));
    create(&mut registry, OWNER, true);
    assert_eq!(push(&mut registry, OWNER, Address(1), b"a"), Err(AccumulatorError::NotFound));
}

#[test]
fn reads_of_an_unknown_address_are_not_found() {
    let mut registry = Registry::new();
    let unknown = Address(4);
    assert_eq!(count(&mut registry, unknown, QueryHeight::Committed), Err(AccumulatorError::NotFound));
    assert_eq!(root(&mut registry, unknown, QueryHeight::Pending), Err(AccumulatorError::NotFound));
    assert_eq!(
        peaks(&mut registry, unknown, QueryHeight::Height(0)).err(),
        Some(AccumulatorError::NotFound)
    );
    assert_eq!(leaf(&mut registry, unknown, 0, QueryHeight::Pending), Err(AccumulatorError::NotFound));
}

#[test]
fn leaf_out_of_range_is_not_found() {
    let mut registry = Registry::new();
    let address = create(&mut registry, OWNER, true);
    push(&mut registry, OWNER, address, b"a").unwrap();
    assert_eq!(leaf(&mut registry, address, 0, QueryHeight::Pending), Ok(b"a".to_vec()));
    assert_eq!(leaf(&mut registry, address, 1, QueryHeight::Pending), Err(AccumulatorError::NotFound));
}

#[test]
fn read_beyond_the_tip_is_an_invalid_height() {
    let mut registry = Registry::new();
    let address = create(&mut registry, OWNER, true);
    registry.commit_block().unwrap();
    assert_eq!(
        count(&mut registry, address, QueryHeight::Height(2)),
        Err(AccumulatorError::InvalidHeight)
    );
    assert_eq!(count(&mut registry, address, QueryHeight::Height(1)), Ok(0));
}

#[test]
fn oversized_push_is_a_serialization_error() {
    let mut registry = Registry::new();
    let address = create(&mut registry, OWNER, true);
    let big = vec![0u8; accumulator::hash::MAX_PAYLOAD_LEN + 1];
    assert_eq!(push(&mut registry, OWNER, address, &big), Err(AccumulatorError::SerializationError));
    assert_eq!(count(&mut registry, address, QueryHeight::Pending), Ok(0));
}

#[test]
fn broadcast_mode_does_not_change_what_a_push_does() {
    let mut roots = Vec::new();
    for mode in [BroadcastMode::Async, BroadcastMode::Sync, BroadcastMode::Commit] {
        let mut registry = Registry::new();
        let address = create(&mut registry, OWNER, false);
        let mut last = None;
        for payload in [b"a", b"b", b"c"] {
            let command = AccumulatorCommands::Push {
                caller: OWNER,
                address,
                payload: payload.to_vec(),
                broadcast_mode: mode,
            };
            last = Some(run(&mut registry, command).unwrap());
        }
        match last {
            Some(Reply::Pushed { index, root }) => {
                assert_eq!(index, 2);
                roots.push(root);
            },
            other => panic!("unexpected reply: {:?}", other),
        }
        assert_eq!(registry.tip(), 0);
        assert_eq!(count(&mut registry, address, QueryHeight::Pending), Ok(3));
    }
    assert_eq!(roots[0], roots[1]);
    assert_eq!(roots[1], roots[2]);
}

#[test]
fn reads_do_not_change_the_registry() {
    let mut registry = Registry::new();
    let address = create(&mut registry, OWNER, true);
    push(&mut registry, OWNER, address, b"a").unwrap();
    push(&mut registry, OWNER, address, b"b").unwrap();
    registry.commit_block().unwrap();
    let expected = hash_node(&hash_leaf(b"a"), &hash_leaf(b"b"));
    for _ in 0..3 {
        assert_eq!(count(&mut registry, address, QueryHeight::Committed), Ok(2));
        assert_eq!(root(&mut registry, address, QueryHeight::Committed), Ok(expected));
        assert_eq!(peaks(&mut registry, address, QueryHeight::Committed).unwrap().len(), 1);
        assert_eq!(leaf(&mut registry, address, 0, QueryHeight::Committed), Ok(b"a".to_vec()));
    }
    assert_eq!(registry.tip(), 1);
    assert_eq!(registry.len(), 1);
}

#[test]
fn arguments_carry_their_command() {
    let args = AccumulatorArgs::new(AccumulatorCommands::Count {
        address: Address(3),
        height: QueryHeight::Height(9),
    });
    match args.get_command() {
        AccumulatorCommands::Count { address, height } => {
            assert_eq!(*address, Address(3));
            assert_eq!(*height, QueryHeight::Height(9));
        },
        other => panic!("unexpected command: {:?}", other),
    }
}

use wsvpn::network::ConfiguredNetwork;
use wsvpn::registry::{PeerRegistry, RegistryError};

fn ip(a: u8, b: u8, c: u8, d: u8) -> u32 {
    u32::from_be_bytes([a, b, c, d])
}

fn block(text: &str) -> ConfiguredNetwork {
    ConfiguredNetwork::parse(text).unwrap()
}

#[test]
fn initialized_registry_holds_the_whole_pool_unassigned() {
    let reg = PeerRegistry::initialize(block("10.8.0.0/24"));
    assert_eq!(reg.free_count(), 253);
    assert_eq!(reg.lookup(ip(10, 8, 0, 2)), None);
    assert_eq!(reg.lookup(ip(10, 8, 0, 1)), None);
    assert_eq!(reg.network(), Some(block("10.8.0.0/24")));
}

#[test]
fn empty_registry_has_nothing_to_allocate() {
    let mut reg = PeerRegistry::new();
    assert_eq!(reg.free_count(), 0);
    assert_eq!(reg.network(), None);
    assert_eq!(reg.allocate_any(1), Err(RegistryError::PoolExhausted));
    assert_eq!(reg.lookup(ip(10, 8, 0, 2)), None);
}

#[test]
fn first_allocation_is_the_address_after_the_gateway() {
    let mut reg = PeerRegistry::initialize(block("10.8.0.0/24"));
    assert_eq!(reg.allocate_any(41), Ok(ip(10, 8, 0, 2)));
    assert_eq!(reg.lookup(ip(10, 8, 0, 2)), Some(41));
    assert_eq!(reg.free_count(), 252);
}

#[test]
fn allocations_never_repeat_an_address() {
    let mut reg = PeerRegistry::initialize(block("10.8.0.0/24"));
    let before = reg.free_count();
    let mut seen: Vec<u32> = Vec::new();
    for handle in 0..100u32 {
        let a = reg.allocate_any(handle).unwrap();
        assert!(!seen.contains(&a));
        assert!(a >= ip(10, 8, 0, 2) && a <= ip(10, 8, 0, 254));
        assert_eq!(reg.lookup(a), Some(handle));
        seen.push(a);
    }
    assert_eq!(reg.free_count(), before - 100);
}

#[test]
fn pool_runs_dry_after_as_many_allocations_as_it_holds() {
    let mut reg = PeerRegistry::initialize(block("10.8.0.0/29"));
    assert_eq!(reg.free_count(), 5);
    for handle in 0..5u32 {
        assert_eq!(reg.allocate_any(handle), Ok(ip(10, 8, 0, 2) + handle));
    }
    assert_eq!(reg.free_count(), 0);
    assert_eq!(reg.allocate_any(99), Err(RegistryError::PoolExhausted));
    assert_eq!(reg.allocate_any(99), Err(RegistryError::PoolExhausted));
    assert_eq!(reg.free_count(), 0);
    for handle in 0..5u32 {
        assert_eq!(reg.lookup(ip(10, 8, 0, 2) + handle), Some(handle));
    }
}

#[test]
fn blocks_without_pool_are_exhausted_from_the_start() {
    let mut two = PeerRegistry::initialize(block("10.8.0.0/31"));
    assert_eq!(two.free_count(), 0);
    assert_eq!(two.allocate_any(1), Err(RegistryError::PoolExhausted));
    let mut one = PeerRegistry::initialize(block("10.8.0.0/32"));
    assert_eq!(one.allocate_any(1), Err(RegistryError::PoolExhausted));
}

#[test]
fn released_address_can_be_allocated_again() {
    let mut reg = PeerRegistry::initialize(block("10.8.0.0/30"));
    assert_eq!(reg.allocate_any(1), Ok(ip(10, 8, 0, 2)));
    assert_eq!(reg.allocate_any(2), Err(RegistryError::PoolExhausted));
    assert_eq!(reg.release(ip(10, 8, 0, 2)), Ok(()));
    assert_eq!(reg.lookup(ip(10, 8, 0, 2)), None);
    assert_eq!(reg.free_count(), 1);
    assert_eq!(reg.allocate_any(2), Ok(ip(10, 8, 0, 2)));
    assert_eq!(reg.lookup(ip(10, 8, 0, 2)), Some(2));
}

#[test]
fn lowest_free_address_is_granted_after_a_release() {
    let mut reg = PeerRegistry::initialize(block("10.8.0.0/24"));
    for handle in 0..10u32 {
        reg.allocate_any(handle).unwrap();
    }
    assert_eq!(reg.release(ip(10, 8, 0, 5)), Ok(()));
    assert_eq!(reg.release(ip(10, 8, 0, 3)), Ok(()));
    assert_eq!(reg.allocate_any(100), Ok(ip(10, 8, 0, 3)));
    assert_eq!(reg.allocate_any(101), Ok(ip(10, 8, 0, 5)));
    assert_eq!(reg.allocate_any(102), Ok(ip(10, 8, 0, 12)));
}

#[test]
fn releasing_what_was_never_allocated_fails() {
    let mut reg = PeerRegistry::initialize(block("10.8.0.0/24"));
    assert_eq!(reg.release(ip(10, 8, 0, 2)), Err(RegistryError::NotAssigned));
    assert_eq!(reg.release(ip(10, 8, 0, 1)), Err(RegistryError::NotAssigned));
    assert_eq!(reg.release(ip(1, 1, 1, 1)), Err(RegistryError::NotAssigned));
    assert_eq!(reg.free_count(), 253);
    reg.allocate_any(7).unwrap();
    assert_eq!(reg.release(ip(10, 8, 0, 2)), Ok(()));
    assert_eq!(reg.release(ip(10, 8, 0, 2)), Err(RegistryError::NotAssigned));
    assert_eq!(reg.free_count(), 253);
}

#[test]
fn assign_registers_a_peer_under_any_address() {
    let mut reg = PeerRegistry::new();
    reg.assign(ip(10, 8, 0, 1), 3);
    assert_eq!(reg.lookup(ip(10, 8, 0, 1)), Some(3));
    assert_eq!(reg.free_count(), 0);
    reg.assign(ip(10, 8, 0, 1), 4);
    assert_eq!(reg.lookup(ip(10, 8, 0, 1)), Some(4));
    assert_eq!(reg.release(ip(10, 8, 0, 1)), Ok(()));
    assert_eq!(reg.lookup(ip(10, 8, 0, 1)), None);
    assert_eq!(reg.allocate_any(9), Err(RegistryError::PoolExhausted));
}

#[test]
fn assign_inside_the_pool_takes_the_address_from_the_free_set() {
    let mut reg = PeerRegistry::initialize(block("10.8.0.0/29"));
    reg.assign(ip(10, 8, 0, 2), 50);
    assert_eq!(reg.free_count(), 4);
    reg.assign(ip(10, 8, 0, 2), 51);
    assert_eq!(reg.free_count(), 4);
    assert_eq!(reg.allocate_any(52), Ok(ip(10, 8, 0, 3)));
    reg.assign(ip(10, 8, 0, 1), 53);
    assert_eq!(reg.free_count(), 3);
    assert_eq!(reg.release(ip(10, 8, 0, 1)), Ok(()));
    assert_eq!(reg.free_count(), 3);
    assert_eq!(reg.release(ip(10, 8, 0, 2)), Ok(()));
    assert_eq!(reg.free_count(), 4);
}

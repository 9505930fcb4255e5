use droneforge_core::linecast::is_solid;
use droneforge_core::AIR;

#[test]
fn solidity_requires_a_present_non_air_block() {
    assert!(!is_solid(None));
    assert!(!is_solid(Some(AIR)));
    assert!(is_solid(Some(2)));
}

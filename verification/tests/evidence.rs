//! Evidence carries a value, or the reason there is none.

use agent_sessions::evidence::Evidence;

#[test]
fn unknown_carries_its_reason_and_maps_through() {
    let unknown: Evidence<u32> = Evidence::Unknown("no remote".to_owned());
    assert!(!unknown.is_known());
    assert_eq!(unknown.reason(), Some("no remote"));
    assert!(unknown.known().is_none());
    assert_eq!(unknown.map(|n| n + 1), Evidence::Unknown("no remote".to_owned()));

    let known = Evidence::Known(1u32);
    assert!(known.is_known());
    assert_eq!(known.reason(), None);
    assert_eq!(known.known(), Some(&1));
    assert_eq!(known.map(|n| n + 1), Evidence::Known(2));
}

use peerfs::links::{Links, FIRST_LINK_TOKEN, MAX_LINK_COUNT};
use peerfs::Packet;

#[test]
fn capacity_is_exactly_the_slot_count() {
    let mut links = Links::new();
    assert_eq!(links.free_count(), MAX_LINK_COUNT);

    let mut seen = Vec::new();
    for _ in 0..MAX_LINK_COUNT {
        let token = links.link().expect("a slot should be free");
        assert!(token >= FIRST_LINK_TOKEN);
        assert!(token < FIRST_LINK_TOKEN + MAX_LINK_COUNT as u64);
        assert!(!seen.contains(&token));
        seen.push(token);
    }
    assert_eq!(links.free_count(), 0);

    // the next inbound connection is rejected, and the rejection
    // packet on that link's outbound bytes is the bare tag
    assert_eq!(links.link(), None);
    let mut wire = Vec::new();
    Packet::Rejected.write(&mut wire).unwrap();
    assert_eq!(wire, vec![0xF0]);
}

#[test]
fn unlink_reclaims_the_slot() {
    let mut links = Links::new();
    let token = links.link().unwrap();
    assert!(links.get(token));

    assert!(links.unlink(token));
    assert!(!links.get(token));
    assert_eq!(links.free_count(), MAX_LINK_COUNT);

    // a released token cannot be released twice
    assert!(!links.unlink(token));

    // the freed token is the next one handed out
    assert_eq!(links.link(), Some(token));
}

#[test]
fn unknown_tokens_are_not_used() {
    let mut links = Links::new();
    assert!(!links.get(0));
    assert!(!links.get(FIRST_LINK_TOKEN));
    let token = links.link().unwrap();
    assert!(links.get(token));
    assert!(!links.unlink(token + 1));
}

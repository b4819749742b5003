use std::sync::Arc;

use chromist::session::SessionRef;

#[test]
fn every_clone_sees_the_stored_session() {
    let s = SessionRef::new(Arc::from("first"));
    let held = s.clone();
    assert_eq!(&*held.current(), "first");
    s.store(Arc::from("second"));
    assert_eq!(&*held.current(), "second");
    assert_eq!(&*s.current(), "second");
}

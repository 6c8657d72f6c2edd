use sapp_jsutils::handle::{JsObject, JsObjectWeak, NIL};

#[test]
fn nil_handle_is_nil() {
    let o = JsObject::from_raw(-1);
    assert!(o.is_nil());
    assert!(o.weak().is_nil());
    assert_eq!(NIL, -1);
}

#[test]
fn other_handles_are_not_nil() {
    for id in [0, 1, 7, -2, i32::MAX, i32::MIN] {
        let o = JsObject::from_raw(id);
        assert!(!o.is_nil());
        assert!(!o.weak().is_nil());
    }
}

#[test]
fn weak_keeps_the_identifier() {
    let o = JsObject::from_raw(42);
    let w: JsObjectWeak = o.weak();
    let w2 = w;
    assert_eq!(w.raw(), 42);
    assert_eq!(w2.raw(), 42);
    assert_eq!(o.raw(), 42);
}

#[test]
fn into_option_absent_only_for_nil() {
    assert!(JsObject::from_raw(-1).into_option().is_none());
    let some = JsObject::from_raw(5).into_option();
    assert_eq!(some.map(|o| o.raw()), Some(5));
    assert_eq!(JsObject::from_raw(0).into_option().map(|o| o.raw()), Some(0));
}

#[test]
fn release_hands_back_the_weak_view() {
    let o = JsObject::from_raw(9);
    let w = o.release();
    assert_eq!(w.raw(), 9);
    assert!(!w.is_nil());
}

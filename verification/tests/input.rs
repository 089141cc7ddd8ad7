use cooking_with_wasm::decimal::format_u32;
use cooking_with_wasm::input::{key_event, slider_event};
use cooking_with_wasm::navigation::NavEvent;

#[test]
fn arrow_keys_navigate() {
    assert_eq!(key_event("ArrowRight"), Some(NavEvent::Next));
    assert_eq!(key_event("ArrowLeft"), Some(NavEvent::Prev));
}

#[test]
fn other_keys_do_nothing() {
    assert_eq!(key_event("ArrowUp"), None);
    assert_eq!(key_event("arrowright"), None);
    assert_eq!(key_event(" ArrowRight"), None);
    assert_eq!(key_event(""), None);
    assert_eq!(key_event("Enter"), None);
}

#[test]
fn slider_value_jumps() {
    assert_eq!(slider_event("0"), Some(NavEvent::Jump(0)));
    assert_eq!(slider_event("15"), Some(NavEvent::Jump(15)));
    assert_eq!(slider_event("+4"), Some(NavEvent::Jump(4)));
    assert_eq!(slider_event("007"), Some(NavEvent::Jump(7)));
}

#[test]
fn slider_value_that_is_no_number() {
    assert_eq!(slider_event(""), None);
    assert_eq!(slider_event("+"), None);
    assert_eq!(slider_event("-1"), None);
    assert_eq!(slider_event("1.5"), None);
    assert_eq!(slider_event(" 3"), None);
    assert_eq!(slider_event("3a"), None);
}

#[test]
fn slider_reports_its_own_index() {
    for i in [0u32, 1, 9, 10, 15, 123, 65535] {
        let text = format_u32(i);
        assert_eq!(slider_event(&text), Some(NavEvent::Jump(i as usize)));
    }
}

use xelgui::ui::debug::UIDebugFlag;

#[test]
fn flags_from_bits_and_contains() {
    let f = UIDebugFlag::from_bits(0b11);
    assert!(f.contains(UIDebugFlag::debug_widgets()));
    assert!(f.contains(UIDebugFlag::debug_events()));
    assert!(!UIDebugFlag::from_bits(0b01).contains(UIDebugFlag::debug_events()));
}

#[test]
fn flags_insert_then_contains() {
    let mut f = UIDebugFlag::none();
    assert!(!f.contains(UIDebugFlag::debug_events()));
    f.insert(UIDebugFlag::debug_events());
    assert!(f.contains(UIDebugFlag::debug_events()));
    assert!(!f.contains(UIDebugFlag::debug_widgets()));
    assert_eq!(f, UIDebugFlag::from_bits(2));
}

#[test]
fn flags_bitor_is_union() {
    let a = UIDebugFlag::debug_widgets() | UIDebugFlag::debug_events();
    assert_eq!(a, UIDebugFlag::from_bits(3));
    assert_eq!(UIDebugFlag::debug_events() | UIDebugFlag::debug_widgets(), a);
    assert_eq!(a | a, a);
    assert_eq!(a | UIDebugFlag::none(), a);
}

#[test]
fn flags_none_contains_nothing() {
    let none = UIDebugFlag::none();
    for bits in 0..=255u8 {
        assert!(!none.contains(UIDebugFlag::from_bits(bits)));
        assert!(!UIDebugFlag::from_bits(bits).contains(none));
    }
}

#[test]
fn flags_contains_means_common_bit() {
    assert!(UIDebugFlag::from_bits(0b0110).contains(UIDebugFlag::from_bits(0b0011)));
    assert!(!UIDebugFlag::from_bits(0b0100).contains(UIDebugFlag::from_bits(0b0011)));
}

use eldenring_remapper::{
    config_key_to_action, parse_debounce_ms, parse_u64, str_contains, str_starts_with, Action,
    DEFAULT_DEBOUNCE_MS,
};

#[test]
fn memory_slot_names_select_slots_zero_based() {
    assert_eq!(config_key_to_action("memory_slot_1"), Action::SetMemorySlot(0));
    assert_eq!(config_key_to_action("memory_slot_3"), Action::SetMemorySlot(2));
    assert_eq!(config_key_to_action("memory_slot_255"), Action::SetMemorySlot(254));
}

#[test]
fn malformed_memory_slot_names_are_ignored() {
    assert_eq!(config_key_to_action("memory_slot_"), Action::NoOp);
    assert_eq!(config_key_to_action("memory_slot_0"), Action::NoOp);
    assert_eq!(config_key_to_action("memory_slot_256"), Action::NoOp);
    assert_eq!(config_key_to_action("memory_slot_x"), Action::NoOp);
    assert_eq!(config_key_to_action("memory_slot_1x"), Action::NoOp);
}

#[test]
fn cycle_names_select_cycling() {
    assert_eq!(config_key_to_action("cycle_back"), Action::CycleBack);
    assert_eq!(config_key_to_action("my_cycle_back_key"), Action::CycleBack);
    assert_eq!(config_key_to_action("cycle_forward"), Action::CycleForward);
    assert_eq!(config_key_to_action("do_cycle_forward_now"), Action::CycleForward);
}

#[test]
fn unrecognized_names_are_ignored() {
    assert_eq!(config_key_to_action(""), Action::NoOp);
    assert_eq!(config_key_to_action("cycle"), Action::NoOp);
    assert_eq!(config_key_to_action("quick_save"), Action::NoOp);
}

#[test]
fn parses_decimal_values() {
    assert_eq!(parse_u64("0"), Some(0));
    assert_eq!(parse_u64("200"), Some(200));
    assert_eq!(parse_u64("007"), Some(7));
    assert_eq!(parse_u64("9999999999999999999"), Some(9_999_999_999_999_999_999));
}

#[test]
fn rejects_non_decimal_values() {
    assert_eq!(parse_u64(""), None);
    assert_eq!(parse_u64("12a"), None);
    assert_eq!(parse_u64("-5"), None);
    assert_eq!(parse_u64(" 5"), None);
    // twenty digits never parse, so no value can overflow
    assert_eq!(parse_u64("99999999999999999999"), None);
}

#[test]
fn debounce_setting_defaults_to_200_ms() {
    assert_eq!(DEFAULT_DEBOUNCE_MS, 200);
    assert_eq!(parse_debounce_ms(&None), 200);
    assert_eq!(parse_debounce_ms(&Some(String::from("junk"))), 200);
    assert_eq!(parse_debounce_ms(&Some(String::from("350"))), 350);
}

#[test]
fn string_helpers() {
    assert!(str_starts_with("memory_slot_4", "memory_slot_"));
    assert!(!str_starts_with("memory", "memory_slot_"));
    assert!(str_contains("my_cycle_back_key", "cycle_back"));
    assert!(!str_contains("cycle_bac", "cycle_back"));
    assert!(str_contains("anything", ""));
}

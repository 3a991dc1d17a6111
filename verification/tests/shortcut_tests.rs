use eldenring_remapper::{
    cartesian_product, expand_combinations, map_key, map_modifier, str_eq, Action, Key, Modifier,
};

fn key_set(binding_keys: &[Key]) -> Vec<Key> {
    binding_keys.to_vec()
}

fn same_key_set(a: &[Key], b: &[Key]) -> bool {
    a.len() == b.len() && a.iter().all(|k| b.contains(k)) && b.iter().all(|k| a.contains(k))
}

#[test]
fn maps_single_character_key_names() {
    assert_eq!(map_key("1"), Some(Key::Char('1')));
    assert_eq!(map_key("a"), Some(Key::Char('a')));
    assert_eq!(map_key("z"), Some(Key::Char('z')));
}

#[test]
fn maps_named_keys() {
    assert_eq!(map_key("tab"), Some(Key::Tab));
    assert_eq!(map_key("space"), Some(Key::Space));
    assert_eq!(map_key("enter"), Some(Key::Enter));
    assert_eq!(map_key("escape"), Some(Key::Escape));
    assert_eq!(map_key("up"), Some(Key::Up));
}

#[test]
fn unknown_key_names_map_to_nothing() {
    assert_eq!(map_key(""), None);
    assert_eq!(map_key("A"), None);
    assert_eq!(map_key("!"), None);
    assert_eq!(map_key("numpad5"), None);
}

#[test]
fn modifier_alternatives() {
    assert_eq!(map_modifier(Modifier::Shift), (Key::LShift, Some(Key::RShift)));
    assert_eq!(map_modifier(Modifier::Control), (Key::LControl, Some(Key::RControl)));
    assert_eq!(map_modifier(Modifier::Alt), (Key::LAlt, Some(Key::RAlt)));
    assert_eq!(map_modifier(Modifier::Meta), (Key::LMeta, None));
}

#[test]
fn cartesian_product_of_no_factors_is_one_empty_set() {
    let product = cartesian_product(&Vec::new());
    assert_eq!(product.len(), 1);
    assert!(product[0].is_empty());
}

#[test]
fn cartesian_product_multiplies_factor_sizes() {
    let factors = vec![
        key_set(&[Key::LShift, Key::RShift]),
        key_set(&[Key::LControl, Key::RControl]),
        key_set(&[Key::Char('x')]),
    ];
    let product = cartesian_product(&factors);
    assert_eq!(product.len(), 4);
    for combo in &product {
        assert_eq!(combo.len(), 3);
        assert!(combo.contains(&Key::Char('x')));
        assert!(combo.contains(&Key::LShift) || combo.contains(&Key::RShift));
        assert!(combo.contains(&Key::LControl) || combo.contains(&Key::RControl));
    }
}

#[test]
fn shortcut_without_modifiers_compiles_to_one_binding() {
    let bindings = expand_combinations(Key::Tab, &Vec::new(), Action::CycleForward);
    assert_eq!(bindings.len(), 1);
    assert!(same_key_set(&bindings[0].keys, &[Key::Tab]));
    assert_eq!(bindings[0].action, Action::CycleForward);
}

#[test]
fn shift_shortcut_compiles_to_one_binding_per_physical_shift() {
    let bindings =
        expand_combinations(Key::Char('1'), &vec![Modifier::Shift], Action::SetMemorySlot(2));
    assert_eq!(bindings.len(), 2);
    let mut saw_left = false;
    let mut saw_right = false;
    for b in &bindings {
        assert_eq!(b.action, Action::SetMemorySlot(2));
        assert_eq!(b.keys.len(), 2);
        assert!(b.keys.contains(&Key::Char('1')));
        saw_left |= b.keys.contains(&Key::LShift);
        saw_right |= b.keys.contains(&Key::RShift);
    }
    assert!(saw_left && saw_right);
}

#[test]
fn combination_count_is_the_product_of_modifier_cardinalities() {
    // shift (2) * alt (2) * meta (1) * primary key (1) = 4
    let mods = vec![Modifier::Shift, Modifier::Alt, Modifier::Meta];
    let bindings = expand_combinations(Key::Char('q'), &mods, Action::CycleBack);
    assert_eq!(bindings.len(), 4);
    for b in &bindings {
        assert_eq!(b.keys.len(), 4);
        assert!(b.keys.contains(&Key::LMeta));
        assert!(b.keys.contains(&Key::Char('q')));
    }
}

#[test]
fn string_equality_is_character_wise() {
    assert!(str_eq("tab", "tab"));
    assert!(!str_eq("tab", "tabs"));
    assert!(!str_eq("tab", "tac"));
    assert!(str_eq("", ""));
}

#[test]
fn compilation_is_pure() {
    let mods = vec![Modifier::Shift, Modifier::Control];
    let first = expand_combinations(Key::Char('f'), &mods, Action::CycleForward);
    let second = expand_combinations(Key::Char('f'), &mods, Action::CycleForward);
    assert_eq!(first.len(), second.len());
    for (a, b) in first.iter().zip(second.iter()) {
        assert_eq!(a.keys, b.keys);
        assert_eq!(a.action, b.action);
    }
}

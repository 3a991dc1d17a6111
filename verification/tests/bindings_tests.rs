use eldenring_remapper::{
    first_match, is_all_keybinding_keys_pressed, sort_bindings, Action, CompiledBinding, Key,
};

fn binding(keys: &[Key], action: Action) -> CompiledBinding {
    CompiledBinding { keys: keys.to_vec(), action }
}

#[test]
fn subset_check_on_pressed_keys() {
    let pressed = vec![Key::LShift, Key::Char('1'), Key::Tab];
    assert!(is_all_keybinding_keys_pressed(&vec![Key::Char('1')], &pressed));
    assert!(is_all_keybinding_keys_pressed(&vec![Key::LShift, Key::Char('1')], &pressed));
    assert!(is_all_keybinding_keys_pressed(&Vec::new(), &pressed));
    assert!(!is_all_keybinding_keys_pressed(&vec![Key::RShift], &pressed));
    assert!(!is_all_keybinding_keys_pressed(&vec![Key::Char('1')], &Vec::new()));
}

#[test]
fn sort_orders_by_descending_specificity() {
    let table = sort_bindings(vec![
        binding(&[Key::Char('1')], Action::SetMemorySlot(0)),
        binding(&[Key::LShift, Key::LControl, Key::Char('1')], Action::SetMemorySlot(2)),
        binding(&[Key::LShift, Key::Char('1')], Action::SetMemorySlot(1)),
    ]);
    let sizes: Vec<usize> = table.iter().map(|b| b.keys.len()).collect();
    assert_eq!(sizes, vec![3, 2, 1]);
    assert_eq!(table[0].action, Action::SetMemorySlot(2));
    assert_eq!(table[2].action, Action::SetMemorySlot(0));
}

#[test]
fn sort_keeps_exactly_the_bindings_that_went_in() {
    let table = sort_bindings(vec![
        binding(&[Key::Tab], Action::CycleForward),
        binding(&[Key::LShift, Key::Tab], Action::CycleBack),
    ]);
    assert_eq!(table.len(), 2);
    assert!(table.iter().any(|b| b.action == Action::CycleForward && b.keys == vec![Key::Tab]));
    assert!(table.iter().any(|b| b.action == Action::CycleBack && b.keys.len() == 2));
}

#[test]
fn most_specific_satisfied_binding_wins() {
    // "shift+1" must win over a lone "1" when both are held
    let table = sort_bindings(vec![
        binding(&[Key::Char('1')], Action::SetMemorySlot(0)),
        binding(&[Key::LShift, Key::Char('1')], Action::SetMemorySlot(7)),
    ]);
    let pressed = vec![Key::LShift, Key::Char('1')];
    let hit = first_match(&table, &pressed).unwrap();
    assert_eq!(table[hit].action, Action::SetMemorySlot(7));

    // with shift released, the lone "1" binding is the first satisfied one
    let pressed = vec![Key::Char('1')];
    let hit = first_match(&table, &pressed).unwrap();
    assert_eq!(table[hit].action, Action::SetMemorySlot(0));
}

#[test]
fn no_binding_matches_when_keys_are_missing() {
    let table = sort_bindings(vec![binding(&[Key::Tab], Action::CycleForward)]);
    assert_eq!(first_match(&table, &vec![Key::Char('1')]), None);
    assert_eq!(first_match(&Vec::new(), &vec![Key::Tab]), None);
}

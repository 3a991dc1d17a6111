use eldenring_remapper::{
    build_matcher_state, frame_step, Action, FrameInput, FrameOutput, Key, MatcherState, Modifier,
    Shortcut, HUD_TYPE_ON,
};

fn entry(name: &str, key: &str, modifiers: &[Modifier]) -> (String, Shortcut) {
    (
        String::from(name),
        Shortcut { key: String::from(key), modifiers: modifiers.to_vec() },
    )
}

fn frame(now_ms: u64, pressed: &[Key], entries: &[i32], selected: i32) -> FrameInput {
    FrameInput {
        now_ms,
        player_hp: Some(100),
        hud_type: 7,
        pressed: pressed.to_vec(),
        entries: entries.to_vec(),
        selected_slot: selected,
    }
}

const FIVE_SLOTS: [i32; 5] = [10, 20, 30, 40, 50];

#[test]
fn build_compiles_and_orders_the_table() {
    let config = vec![
        entry("memory_slot_1", "1", &[]),
        entry("memory_slot_3", "1", &[Modifier::Shift]),
        entry("not_a_binding", "x", &[]),
        entry("memory_slot_2", "percent", &[]),
    ];
    let st = build_matcher_state(&config, 200);
    // one binding for "1", two for shift+"1"; the unknown name and the
    // unmappable key contribute nothing
    assert_eq!(st.bindings.len(), 3);
    assert_eq!(st.bindings[0].keys.len(), 2);
    assert_eq!(st.bindings[1].keys.len(), 2);
    assert_eq!(st.bindings[2].keys.len(), 1);
    assert_eq!(st.debounce_ms, 200);
}

#[test]
fn pressing_shift_one_selects_the_third_slot() {
    // configuration `memory_slot_3 = shift+1`, five occupied slots
    let config = vec![entry("memory_slot_3", "1", &[Modifier::Shift])];
    let mut st = build_matcher_state(&config, 200);
    let out = frame_step(&mut st, &frame(1000, &[Key::LShift, Key::Char('1')], &FIVE_SLOTS, 0));
    assert_eq!(out.slot_write, Some(2));
    assert_eq!(out.hud_write, Some(HUD_TYPE_ON));
    assert!(st.hud.overridden);
    assert_eq!(st.hud.captured_hud_type, Some(7));
}

#[test]
fn slot_requests_clamp_to_the_last_occupied_slot() {
    let config = vec![entry("memory_slot_9", "2", &[])];
    let mut st = build_matcher_state(&config, 200);
    let out = frame_step(&mut st, &frame(1000, &[Key::Char('2')], &FIVE_SLOTS, 0));
    assert_eq!(out.slot_write, Some(4));
}

#[test]
fn slot_one_always_works_when_any_slot_is_occupied() {
    let config = vec![entry("memory_slot_1", "2", &[])];
    let mut st = build_matcher_state(&config, 200);
    // a single occupied slot among empty sentinels
    let out = frame_step(&mut st, &frame(1000, &[Key::Char('2')], &[0, 1, 10], 2));
    assert_eq!(out.slot_write, Some(0));
}

#[test]
fn empty_equipment_writes_nothing() {
    let config = vec![entry("memory_slot_1", "2", &[])];
    let mut st = build_matcher_state(&config, 200);
    let out = frame_step(&mut st, &frame(1000, &[Key::Char('2')], &[0, 1, 1], 0));
    assert_eq!(out, FrameOutput { hud_write: None, slot_write: None });
}

#[test]
fn dead_or_absent_player_skips_the_frame() {
    let config = vec![entry("memory_slot_1", "2", &[])];
    let mut st = build_matcher_state(&config, 200);
    let debounce_before = st.debounce;
    let mut input = frame(1000, &[Key::Char('2')], &FIVE_SLOTS, 0);
    input.player_hp = Some(0);
    let out = frame_step(&mut st, &input);
    assert_eq!(out, FrameOutput { hud_write: None, slot_write: None });
    assert_eq!(st.debounce, debounce_before);
    assert_eq!(st.hud.captured_hud_type, None);

    input.player_hp = None;
    let out = frame_step(&mut st, &input);
    assert_eq!(out, FrameOutput { hud_write: None, slot_write: None });
    assert_eq!(st.hud.captured_hud_type, None);
}

#[test]
fn cycling_forward_wraps_and_debounces() {
    // configuration `cycle_forward = tab`, debounce 200 ms, selected index 4
    // of five occupied slots
    let config = vec![entry("cycle_forward_spell", "tab", &[])];
    let mut st = build_matcher_state(&config, 200);

    // first press: wraps from the last slot to slot 0
    let out = frame_step(&mut st, &frame(1000, &[Key::Tab], &FIVE_SLOTS, 4));
    assert_eq!(out.slot_write, Some(0));
    assert_eq!(out.hud_write, Some(HUD_TYPE_ON));

    // still held 50 ms later: within the window, nothing changes
    let out = frame_step(&mut st, &frame(1050, &[Key::Tab], &FIVE_SLOTS, 0));
    assert_eq!(out, FrameOutput { hud_write: None, slot_write: None });

    // released: an idle frame resets the timers
    let out = frame_step(&mut st, &frame(1150, &[], &FIVE_SLOTS, 0));
    assert_eq!(out.slot_write, None);

    // pressed again 250 ms after the first press: advances to slot 1
    let out = frame_step(&mut st, &frame(1250, &[Key::Tab], &FIVE_SLOTS, 0));
    assert_eq!(out.slot_write, Some(1));
}

#[test]
fn cycling_backward_wraps_from_slot_zero() {
    let config = vec![entry("cycle_back_spell", "q", &[])];
    let mut st = build_matcher_state(&config, 200);
    let out = frame_step(&mut st, &frame(1000, &[Key::Char('q')], &FIVE_SLOTS, 0));
    assert_eq!(out.slot_write, Some(4));
    let out = frame_step(&mut st, &frame(2000, &[Key::Char('q')], &FIVE_SLOTS, 4));
    assert_eq!(out.slot_write, Some(3));
}

#[test]
fn a_held_key_fires_again_once_the_window_elapses() {
    let config = vec![entry("cycle_forward_spell", "tab", &[])];
    let mut st = build_matcher_state(&config, 200);
    let out = frame_step(&mut st, &frame(1000, &[Key::Tab], &FIVE_SLOTS, 1));
    assert_eq!(out.slot_write, Some(2));
    // held past the window without any idle frame in between: a repeat
    let out = frame_step(&mut st, &frame(1201, &[Key::Tab], &FIVE_SLOTS, 2));
    assert_eq!(out.slot_write, Some(3));
}

#[test]
fn the_visibility_flag_is_restored_after_the_dwell() {
    let config = vec![entry("memory_slot_2", "2", &[])];
    let mut st = build_matcher_state(&config, 200);

    // the first lively frame captures hud type 7, then overrides it
    let out = frame_step(&mut st, &frame(1000, &[Key::Char('2')], &FIVE_SLOTS, 0));
    assert_eq!(out.hud_write, Some(HUD_TYPE_ON));
    assert!(st.hud.overridden);

    // 2 s later: too early to restore
    let mut input = frame(3000, &[], &FIVE_SLOTS, 1);
    input.hud_type = HUD_TYPE_ON;
    let out = frame_step(&mut st, &input);
    assert_eq!(out.hud_write, None);
    assert!(st.hud.overridden);

    // past the 3 s dwell and the live value still differs: restored
    let mut input = frame(4500, &[], &FIVE_SLOTS, 1);
    input.hud_type = HUD_TYPE_ON;
    let out = frame_step(&mut st, &input);
    assert_eq!(out.hud_write, Some(7));
    assert!(!st.hud.overridden);
}

#[test]
fn the_original_hud_value_is_not_rewritten_when_already_back() {
    let config = vec![entry("memory_slot_2", "2", &[])];
    let mut st = build_matcher_state(&config, 200);
    frame_step(&mut st, &frame(1000, &[Key::Char('2')], &FIVE_SLOTS, 0));

    // something else already put the original value back
    let out = frame_step(&mut st, &frame(5000, &[], &FIVE_SLOTS, 1));
    assert_eq!(out.hud_write, None);
    // the override mark stays until a frame sees a differing live value
    assert!(st.hud.overridden);
}

#[test]
fn more_specific_bindings_win_at_dispatch() {
    let config = vec![
        entry("memory_slot_1", "1", &[]),
        entry("memory_slot_5", "1", &[Modifier::Shift]),
    ];
    let mut st = build_matcher_state(&config, 200);
    let out = frame_step(&mut st, &frame(1000, &[Key::LShift, Key::Char('1')], &FIVE_SLOTS, 0));
    assert_eq!(out.slot_write, Some(4));
    let out = frame_step(&mut st, &frame(2000, &[Key::Char('1')], &FIVE_SLOTS, 4));
    assert_eq!(out.slot_write, Some(0));
}

#[test]
fn at_most_one_action_fires_per_frame() {
    let config = vec![
        entry("memory_slot_2", "1", &[]),
        entry("memory_slot_3", "2", &[]),
    ];
    let mut st = build_matcher_state(&config, 200);
    // both bindings are satisfied; only the first found fires
    let out = frame_step(&mut st, &frame(1000, &[Key::Char('1'), Key::Char('2')], &FIVE_SLOTS, 0));
    let wrote = out.slot_write.unwrap();
    assert!(wrote == 1 || wrote == 2);
}

#[test]
fn state_types_compare_and_build() {
    let st: MatcherState = build_matcher_state(&Vec::new(), 150);
    assert_eq!(st.bindings.len(), 0);
    assert_eq!(st.debounce_ms, 150);
    assert_eq!(st.debounce.last_cycle_back_ms, 0);
    assert_eq!(st.debounce.last_cycle_forward_ms, 0);
    assert_eq!(st.hud.captured_hud_type, None);
    assert!(!st.hud.overridden);
    let _ = Action::NoOp;
}

//! The per-frame matching step.
//!
//! Each simulation frame the host hands the matcher a snapshot of the
//! world — the clock, the player's health, the live visibility flag, the
//! pressed keys and the equipment — and the matcher decides what to write
//! back: at most one visibility-flag value and one selected-slot value.
//! All timers and override bookkeeping live in [`MatcherState`], owned by
//! the caller for the life of the process.

use vstd::prelude::*;

use vstd::multiset::Multiset;
use vstd::seq_lib::lemma_multiset_commutative;

use crate::bindings::binding_pair;
use crate::bindings::binding_pairs;
use crate::bindings::first_match;
use crate::bindings::first_match_spec;
use crate::bindings::sort_bindings;
use crate::bindings::sorted_by_specificity_desc;
use crate::config::config_action_spec;
use crate::config::config_key_to_action;
use crate::keys::Key;
use crate::keys::Modifier;
use crate::keys::map_key;
use crate::keys::map_key_spec;
use crate::shortcut::Action;
use crate::shortcut::CompiledBinding;
use crate::shortcut::Shortcut;
use crate::shortcut::expand_combinations;
use crate::shortcut::expand_spec;
use crate::slots::back_cycle_memory_slot;
use crate::slots::count_valid_slots;
use crate::slots::cycle_backward_spec;
use crate::slots::cycle_forward_spec;
use crate::slots::forward_cycle_memory_slot;
use crate::slots::last_valid_spec;
use crate::slots::set_memory_slot;
use crate::slots::set_slot_spec;
use crate::slots::valid_slot_count;

verus! {

/// The visibility-flag value that shows the HUD.
pub const HUD_TYPE_ON: u8 = 1;

/// How long an overridden visibility flag must dwell before it is
/// restored to the originally observed value, in milliseconds.
pub const HUD_RESTORE_DWELL_MS: u64 = 3000;

/// One independent last-fire timestamp per repeatable action.
#[derive(Clone, Copy, PartialEq, Eq, Structural, Debug)]
pub struct DebounceState {
    pub last_cycle_back_ms: u64,
    pub last_cycle_forward_ms: u64,
}

/// The visibility-flag bookkeeping: the value observed on the first lively
/// frame, whether the flag is currently overridden by us, and when the
/// override was last refreshed.
#[derive(Clone, Copy, PartialEq, Eq, Structural, Debug)]
pub struct HudState {
    pub captured_hud_type: Option<u8>,
    pub overridden: bool,
    pub last_override_ms: u64,
}

/// Everything the matcher owns across frames: the compiled binding table,
/// the configured debounce window, the cycle timers and the visibility
/// bookkeeping.
pub struct MatcherState {
    pub bindings: Vec<CompiledBinding>,
    pub debounce_ms: u64,
    pub debounce: DebounceState,
    pub hud: HudState,
}

/// The snapshot one frame is judged on, all read before anything is
/// written: the clock, the player's health (`None` when no player entity
/// is resolvable), the live visibility flag, the pressed physical keys,
/// the equipment entry identifiers and the selected index.
pub struct FrameInput {
    pub now_ms: u64,
    pub player_hp: Option<i32>,
    pub hud_type: u8,
    pub pressed: Vec<Key>,
    pub entries: Vec<i32>,
    pub selected_slot: i32,
}

/// What the frame writes back to the target structure: a visibility-flag
/// value and a selected-slot value, either of which may be absent.
#[derive(Clone, Copy, PartialEq, Eq, Structural, Debug)]
pub struct FrameOutput {
    pub hud_write: Option<u8>,
    pub slot_write: Option<i32>,
}

/// Milliseconds elapsed from `last` to `now`; a clock that moved backwards
/// reads as nothing elapsed.
pub open spec fn elapsed_ms(now: u64, last: u64) -> int {
    if now >= last {
        now - last
    } else {
        0
    }
}

/// `a - b`, stopping at zero.
pub open spec fn saturating_sub_spec(a: u64, b: u64) -> u64 {
    if a >= b {
        (a - b) as u64
    } else {
        0
    }
}

/// Is the player present and alive this frame?
pub open spec fn player_alive(input: FrameInput) -> bool {
    match input.player_hp {
        Some(hp) => hp > 0,
        None => false,
    }
}

/// Capture the visibility flag the first time a lively frame sees it;
/// never re-capture afterwards.
pub open spec fn capture_hud_spec(h: HudState, hud_type: u8) -> HudState {
    match h.captured_hud_type {
        None => HudState { captured_hud_type: Some(hud_type), ..h },
        Some(_) => h,
    }
}

/// Is the override due to be rolled back: currently overridden, dwelled
/// longer than the window, and the live value still differs from the
/// captured one (something else may have already changed it back)?
pub open spec fn restore_due_spec(h: HudState, now_ms: u64, hud_type: u8) -> bool {
    &&& h.overridden
    &&& elapsed_ms(now_ms, h.last_override_ms) > HUD_RESTORE_DWELL_MS
    &&& match h.captured_hud_type {
        Some(captured) => hud_type != captured,
        None => false,
    }
}

/// The restore step: write the captured value back and clear the override
/// mark when due, else leave everything alone.
pub open spec fn restore_hud_spec(h: HudState, now_ms: u64, hud_type: u8) -> (HudState, Option<
    u8,
>) {
    if restore_due_spec(h, now_ms, hud_type) {
        (
            HudState { overridden: false, ..h },
            match h.captured_hud_type {
                Some(captured) => Some(captured),
                None => None,
            },
        )
    } else {
        (h, None)
    }
}

/// Mark the visibility flag as overridden by us as of `now_ms`.
pub open spec fn mark_override_spec(h: HudState, now_ms: u64) -> HudState {
    HudState { overridden: true, last_override_ms: now_ms, ..h }
}

/// When no cycle action fired this frame, both cycle timers are moved back
/// to "already elapsed", so the next fresh press fires immediately:
/// debounce suppresses repeats while held, not the first press after idle.
pub open spec fn reset_idle_spec(d: DebounceState, now_ms: u64, window: u64) -> DebounceState {
    DebounceState {
        last_cycle_back_ms: saturating_sub_spec(now_ms, window),
        last_cycle_forward_ms: saturating_sub_spec(now_ms, window),
    }
}

/// The state and writes a matched action leaves behind, given the state
/// after capture and restore and the write the restore step produced.
///
/// A selection action with no occupied slot to select writes nothing. An
/// unexpired cycle timer aborts the frame as a whole: no writes beyond the
/// restore, no override mark, and — deliberately — no idle reset either.
pub open spec fn dispatch_spec(
    st: MatcherState,
    input: FrameInput,
    restore_write: Option<u8>,
    action: Action,
) -> (MatcherState, FrameOutput) {
    let vcount = valid_slot_count(input.entries@);
    match action {
        Action::SetMemorySlot(slot_index) => {
            if vcount == 0 {
                (
                    MatcherState {
                        debounce: reset_idle_spec(st.debounce, input.now_ms, st.debounce_ms),
                        ..st
                    },
                    FrameOutput { hud_write: restore_write, slot_write: None },
                )
            } else {
                (
                    MatcherState {
                        hud: mark_override_spec(st.hud, input.now_ms),
                        debounce: reset_idle_spec(st.debounce, input.now_ms, st.debounce_ms),
                        ..st
                    },
                    FrameOutput {
                        hud_write: Some(HUD_TYPE_ON),
                        slot_write: Some(set_slot_spec(input.entries@, slot_index) as i32),
                    },
                )
            }
        },
        Action::CycleBack => {
            if elapsed_ms(input.now_ms, st.debounce.last_cycle_back_ms) < st.debounce_ms {
                (st, FrameOutput { hud_write: restore_write, slot_write: None })
            } else if vcount == 0 {
                (
                    MatcherState {
                        debounce: reset_idle_spec(st.debounce, input.now_ms, st.debounce_ms),
                        ..st
                    },
                    FrameOutput { hud_write: restore_write, slot_write: None },
                )
            } else {
                (
                    MatcherState {
                        hud: mark_override_spec(st.hud, input.now_ms),
                        debounce: DebounceState {
                            last_cycle_back_ms: input.now_ms,
                            ..st.debounce
                        },
                        ..st
                    },
                    FrameOutput {
                        hud_write: Some(HUD_TYPE_ON),
                        slot_write: Some(
                            cycle_backward_spec(
                                input.selected_slot,
                                last_valid_spec(input.entries@) as i32,
                            ) as i32,
                        ),
                    },
                )
            }
        },
        Action::CycleForward => {
            if elapsed_ms(input.now_ms, st.debounce.last_cycle_forward_ms) < st.debounce_ms {
                (st, FrameOutput { hud_write: restore_write, slot_write: None })
            } else if vcount == 0 {
                (
                    MatcherState {
                        debounce: reset_idle_spec(st.debounce, input.now_ms, st.debounce_ms),
                        ..st
                    },
                    FrameOutput { hud_write: restore_write, slot_write: None },
                )
            } else {
                (
                    MatcherState {
                        hud: mark_override_spec(st.hud, input.now_ms),
                        debounce: DebounceState {
                            last_cycle_forward_ms: input.now_ms,
                            ..st.debounce
                        },
                        ..st
                    },
                    FrameOutput {
                        hud_write: Some(HUD_TYPE_ON),
                        slot_write: Some(
                            cycle_forward_spec(
                                input.selected_slot,
                                last_valid_spec(input.entries@) as i32,
                            ) as i32,
                        ),
                    },
                )
            }
        },
        Action::NoOp => (
            MatcherState {
                debounce: reset_idle_spec(st.debounce, input.now_ms, st.debounce_ms),
                ..st
            },
            FrameOutput { hud_write: restore_write, slot_write: None },
        ),
    }
}

/// One whole frame: the guard, the lazy capture, the restore step, the
/// binding-table walk and the dispatch of the first satisfied binding,
/// and the idle reset of the cycle timers when no cycle fired.
pub open spec fn frame_spec(state: MatcherState, input: FrameInput) -> (MatcherState, FrameOutput) {
    if !player_alive(input) {
        (state, FrameOutput { hud_write: None, slot_write: None })
    } else {
        let hud_captured = capture_hud_spec(state.hud, input.hud_type);
        let (hud_restored, restore_write) = restore_hud_spec(
            hud_captured,
            input.now_ms,
            input.hud_type,
        );
        let st = MatcherState { hud: hud_restored, ..state };
        match first_match_spec(state.bindings@, input.pressed@) {
            Some(i) => dispatch_spec(st, input, restore_write, state.bindings@[i].action),
            None => (
                MatcherState {
                    debounce: reset_idle_spec(st.debounce, input.now_ms, st.debounce_ms),
                    ..st
                },
                FrameOutput { hud_write: restore_write, slot_write: None },
            ),
        }
    }
}

/// Run one frame of the matcher: read the snapshot, update the owned
/// state, and say what to write back.
pub fn frame_step(state: &mut MatcherState, input: &FrameInput) -> (out: FrameOutput)
    requires
        input.entries@.len() <= 0x7fffffff,
    ensures
        *final(state) == frame_spec(*old(state), *input).0,
        out == frame_spec(*old(state), *input).1,
{
    let alive = match input.player_hp {
        Some(hp) => hp > 0,
        None => false,
    };
    if !alive {
        return FrameOutput { hud_write: None, slot_write: None };
    }
    // lazy capture of the original visibility flag
    if state.hud.captured_hud_type.is_none() {
        state.hud.captured_hud_type = Some(input.hud_type);
    }
    // restore step, before any matching
    let mut restore_write: Option<u8> = None;
    let due = state.hud.overridden && {
        let last = state.hud.last_override_ms;
        let gap = if input.now_ms >= last {
            input.now_ms - last
        } else {
            0
        };
        gap > HUD_RESTORE_DWELL_MS
    } && (match state.hud.captured_hud_type {
        Some(captured) => input.hud_type != captured,
        None => false,
    });
    if due {
        restore_write = match state.hud.captured_hud_type {
            Some(captured) => Some(captured),
            None => None,
        };
        state.hud.overridden = false;
    }
    // walk the table for the first fully pressed binding
    let matched = first_match(&state.bindings, &input.pressed);
    let action = match matched {
        Some(i) => state.bindings[i].action,
        None => Action::NoOp,
    };
    match action {
        Action::SetMemorySlot(slot_index) => {
            let vcount = count_valid_slots(&input.entries);
            reset_cycle_timers(state, input.now_ms);
            if vcount == 0 {
                FrameOutput { hud_write: restore_write, slot_write: None }
            } else {
                state.hud.overridden = true;
                state.hud.last_override_ms = input.now_ms;
                let slot = set_memory_slot(&input.entries, slot_index);
                FrameOutput { hud_write: Some(HUD_TYPE_ON), slot_write: Some(slot) }
            }
        },
        Action::CycleBack => {
            let last = state.debounce.last_cycle_back_ms;
            let gap = if input.now_ms >= last {
                input.now_ms - last
            } else {
                0
            };
            if gap < state.debounce_ms {
                return FrameOutput { hud_write: restore_write, slot_write: None };
            }
            let vcount = count_valid_slots(&input.entries);
            if vcount == 0 {
                reset_cycle_timers(state, input.now_ms);
                return FrameOutput { hud_write: restore_write, slot_write: None };
            }
            state.hud.overridden = true;
            state.hud.last_override_ms = input.now_ms;
            state.debounce.last_cycle_back_ms = input.now_ms;
            let slot = back_cycle_memory_slot(&input.entries, input.selected_slot);
            FrameOutput { hud_write: Some(HUD_TYPE_ON), slot_write: Some(slot) }
        },
        Action::CycleForward => {
            let last = state.debounce.last_cycle_forward_ms;
            let gap = if input.now_ms >= last {
                input.now_ms - last
            } else {
                0
            };
            if gap < state.debounce_ms {
                return FrameOutput { hud_write: restore_write, slot_write: None };
            }
            let vcount = count_valid_slots(&input.entries);
            if vcount == 0 {
                reset_cycle_timers(state, input.now_ms);
                return FrameOutput { hud_write: restore_write, slot_write: None };
            }
            state.hud.overridden = true;
            state.hud.last_override_ms = input.now_ms;
            state.debounce.last_cycle_forward_ms = input.now_ms;
            let slot = forward_cycle_memory_slot(&input.entries, input.selected_slot);
            FrameOutput { hud_write: Some(HUD_TYPE_ON), slot_write: Some(slot) }
        },
        Action::NoOp => {
            reset_cycle_timers(state, input.now_ms);
            FrameOutput { hud_write: restore_write, slot_write: None }
        },
    }
}

/// Debounce idempotence, first half: once a cycle action has fired at some
/// frame, re-running the frame step with the same keys held — before the
/// debounce window has elapsed, and within the restore dwell — changes
/// nothing: no slot write, no visibility write, and the state is left
/// exactly as the firing frame left it.
pub proof fn lemma_debounce_suppresses_repeat(
    st: MatcherState,
    input: FrameInput,
    input2: FrameInput,
)
    requires
        player_alive(input),
        (match first_match_spec(st.bindings@, input.pressed@) {
            Some(i) => st.bindings@[i].action is CycleForward || st.bindings@[i].action
                is CycleBack,
            None => false,
        }),
        frame_spec(st, input).1.slot_write is Some,
        player_alive(input2),
        input2.pressed@ == input.pressed@,
        input2.now_ms >= input.now_ms,
        input2.now_ms - input.now_ms < st.debounce_ms,
        input2.now_ms - input.now_ms <= HUD_RESTORE_DWELL_MS,
    ensures
        frame_spec(frame_spec(st, input).0, input2).1 == (FrameOutput {
            hud_write: None,
            slot_write: None,
        }),
        frame_spec(frame_spec(st, input).0, input2).0 == frame_spec(st, input).0,
{
    let st1 = frame_spec(st, input).0;
    let i = first_match_spec(st.bindings@, input.pressed@)->Some_0;
    assert(st1.bindings == st.bindings);
    assert(st1.debounce_ms == st.debounce_ms);
    assert(st1.hud.captured_hud_type is Some);
    assert(st1.hud.last_override_ms == input.now_ms);
    assert(first_match_spec(st1.bindings@, input2.pressed@) == Some(i));
    assert(!restore_due_spec(st1.hud, input2.now_ms, input2.hud_type));
    if st.bindings@[i].action is CycleForward {
        assert(st1.debounce.last_cycle_forward_ms == input.now_ms);
        assert(elapsed_ms(input2.now_ms, st1.debounce.last_cycle_forward_ms) < st1.debounce_ms);
    } else {
        assert(st1.debounce.last_cycle_back_ms == input.now_ms);
        assert(elapsed_ms(input2.now_ms, st1.debounce.last_cycle_back_ms) < st1.debounce_ms);
    }
}

/// Debounce idempotence, second half: with the keys still held, a frame
/// whose cycle timer has elapsed — and whose equipment holds an occupied
/// slot — does write a new selected slot.
pub proof fn lemma_debounce_fires_after_window(st: MatcherState, input: FrameInput, i: int)
    requires
        player_alive(input),
        first_match_spec(st.bindings@, input.pressed@) == Some(i),
        st.bindings@[i].action is CycleForward || st.bindings@[i].action is CycleBack,
        st.bindings@[i].action is CycleForward ==> elapsed_ms(
            input.now_ms,
            st.debounce.last_cycle_forward_ms,
        ) >= st.debounce_ms,
        st.bindings@[i].action is CycleBack ==> elapsed_ms(
            input.now_ms,
            st.debounce.last_cycle_back_ms,
        ) >= st.debounce_ms,
        valid_slot_count(input.entries@) > 0,
    ensures
        frame_spec(st, input).1.slot_write is Some,
        frame_spec(st, input).1.hud_write == Some(HUD_TYPE_ON),
{
}

/// The (key set, action) pairs one configuration entry contributes to the
/// binding table: none when the entry's name selects no action or its
/// primary key has no physical equivalent, else one pair per combination
/// of the modifier alternatives.
pub open spec fn entry_pairs(name: Seq<char>, key_name: Seq<char>, modifiers: Seq<Modifier>) -> Seq<
    (Seq<Key>, Action),
> {
    let action = config_action_spec(name);
    if action is NoOp {
        Seq::empty()
    } else {
        match map_key_spec(key_name) {
            None => Seq::empty(),
            Some(k) => expand_spec(k, modifiers).map_values(|c: Seq<Key>| (c, action)),
        }
    }
}

/// The pairs of a whole configuration, in entry order.
pub open spec fn config_pairs(entries: Seq<(String, Shortcut)>) -> Seq<(Seq<Key>, Action)>
    decreases entries.len(),
{
    if entries.len() == 0 {
        Seq::empty()
    } else {
        entry_pairs(entries[0].0@, entries[0].1.key@, entries[0].1.modifiers@) + config_pairs(
            entries.drop_first(),
        )
    }
}

proof fn lemma_config_pairs_snoc(s: Seq<(String, Shortcut)>, e: (String, Shortcut))
    ensures
        config_pairs(s.push(e)) == config_pairs(s) + entry_pairs(e.0@, e.1.key@, e.1.modifiers@),
    decreases s.len(),
{
    let t = s.push(e);
    let ep = entry_pairs(e.0@, e.1.key@, e.1.modifiers@);
    if s.len() == 0 {
        assert(t.drop_first() =~= Seq::<(String, Shortcut)>::empty());
        assert(t[0] == e);
        assert(config_pairs(t.drop_first()) == Seq::<(Seq<Key>, Action)>::empty());
        assert(config_pairs(t) == entry_pairs(t[0].0@, t[0].1.key@, t[0].1.modifiers@)
            + config_pairs(t.drop_first()));
        assert(entry_pairs(t[0].0@, t[0].1.key@, t[0].1.modifiers@) == ep);
        assert(config_pairs(s) == Seq::<(Seq<Key>, Action)>::empty());
        assert(config_pairs(t) =~= config_pairs(s) + ep);
    } else {
        lemma_config_pairs_snoc(s.drop_first(), e);
        assert(t.drop_first() =~= s.drop_first().push(e));
        assert(t[0] == s[0]);
        assert(config_pairs(t) == entry_pairs(t[0].0@, t[0].1.key@, t[0].1.modifiers@)
            + config_pairs(t.drop_first()));
        assert(config_pairs(t.drop_first()) == config_pairs(s.drop_first()) + ep);
        assert(config_pairs(s) == entry_pairs(s[0].0@, s[0].1.key@, s[0].1.modifiers@)
            + config_pairs(s.drop_first()));
        assert(entry_pairs(s[0].0@, s[0].1.key@, s[0].1.modifiers@) + (config_pairs(
            s.drop_first(),
        ) + ep) =~= (entry_pairs(s[0].0@, s[0].1.key@, s[0].1.modifiers@) + config_pairs(
            s.drop_first(),
        )) + ep);
        assert(config_pairs(t) =~= config_pairs(s) + ep);
    }
}

/// Compile a configuration into a ready matcher: every recognized entry
/// expanded into its bindings, the table ordered by descending
/// specificity, the timers and the visibility bookkeeping at their
/// starting values.
pub fn build_matcher_state(entries: &Vec<(String, Shortcut)>, debounce_ms: u64) -> (st:
    MatcherState)
    ensures
        sorted_by_specificity_desc(st.bindings@),
        binding_pairs(st.bindings@).to_multiset() == config_pairs(entries@).to_multiset(),
        st.debounce_ms == debounce_ms,
        st.debounce == (DebounceState { last_cycle_back_ms: 0, last_cycle_forward_ms: 0 }),
        st.hud == (HudState { captured_hud_type: None, overridden: false, last_override_ms: 0 }),
{
    broadcast use vstd::seq_lib::group_to_multiset_ensures, vstd::multiset::group_multiset_axioms;

    let mut acc: Vec<CompiledBinding> = Vec::new();
    proof {
        assert(binding_pairs(acc@) =~= Seq::<(Seq<Key>, Action)>::empty());
        assert(entries@.subrange(0, 0) =~= Seq::<(String, Shortcut)>::empty());
    }
    let mut i: usize = 0;
    while i < entries.len()
        invariant
            i <= entries@.len(),
            binding_pairs(acc@).to_multiset() == config_pairs(
                entries@.subrange(0, i as int),
            ).to_multiset(),
        decreases entries@.len() - i,
    {
        let name = &entries[i].0;
        let shortcut = &entries[i].1;
        let ghost epairs = entry_pairs(name@, shortcut.key@, shortcut.modifiers@);
        let ghost acc_pre_entry = acc@;
        let action = config_key_to_action(name.as_str());
        let is_noop = match action {
            Action::NoOp => true,
            _ => false,
        };
        if !is_noop {
            match map_key(shortcut.key.as_str()) {
                Some(k) => {
                    let mut expanded = expand_combinations(k, &shortcut.modifiers, action);
                    proof {
                        assert(binding_pairs(expanded@) =~= epairs);
                    }
                    let ghost moved_target = binding_pairs(acc@).to_multiset().add(
                        binding_pairs(expanded@).to_multiset(),
                    );
                    proof {
                        assert(moved_target == binding_pairs(acc_pre_entry).to_multiset().add(
                            epairs.to_multiset(),
                        ));
                    }
                    while expanded.len() > 0
                        invariant
                            binding_pairs(acc@).to_multiset().add(
                                binding_pairs(expanded@).to_multiset(),
                            ) == moved_target,
                        decreases expanded@.len(),
                    {
                        let ghost e_pre = expanded@;
                        let ghost a_pre = acc@;
                        let b = expanded.pop().unwrap();
                        acc.push(b);
                        proof {
                            binding_pairs(e_pre).to_multiset_ensures();
                            assert(binding_pairs(expanded@) =~= binding_pairs(e_pre).remove(
                                e_pre.len() - 1,
                            ));
                            assert(binding_pairs(e_pre)[e_pre.len() - 1] == binding_pair(b));
                            assert(binding_pairs(e_pre).remove(e_pre.len() - 1).to_multiset()
                                =~= binding_pairs(e_pre).to_multiset().remove(binding_pair(b)));
                            assert(binding_pairs(e_pre).contains(binding_pair(b)));
                            assert(binding_pairs(e_pre).to_multiset().count(binding_pair(b)) > 0);
                            assert(binding_pairs(acc@) =~= binding_pairs(a_pre).push(
                                binding_pair(b),
                            ));
                            binding_pairs(a_pre).to_multiset_ensures();
                            assert(binding_pairs(a_pre).push(binding_pair(b)).to_multiset()
                                =~= binding_pairs(a_pre).to_multiset().insert(binding_pair(b)));
                            assert(binding_pairs(acc@).to_multiset().add(
                                binding_pairs(expanded@).to_multiset(),
                            ) =~= moved_target);
                        }
                    }
                    proof {
                        assert(binding_pairs(expanded@) =~= Seq::<(Seq<Key>, Action)>::empty());
                        binding_pairs(expanded@).to_multiset_ensures();
                        assert(binding_pairs(expanded@).to_multiset() =~= Multiset::<
                            (Seq<Key>, Action),
                        >::empty());
                        let a_new = binding_pairs(acc@).to_multiset();
                        assert(a_new.add(Multiset::<(Seq<Key>, Action)>::empty()) =~= a_new);
                        assert(a_new == moved_target);
                        assert(binding_pairs(acc@).to_multiset() == binding_pairs(
                            acc_pre_entry,
                        ).to_multiset().add(epairs.to_multiset()));
                    }
                },
                None => {
                    proof {
                        assert(epairs =~= Seq::<(Seq<Key>, Action)>::empty());
                        epairs.to_multiset_ensures();
                        assert(epairs.to_multiset() =~= Multiset::<(Seq<Key>, Action)>::empty());
                        let m0 = binding_pairs(acc_pre_entry).to_multiset();
                        assert(m0.add(Multiset::<(Seq<Key>, Action)>::empty()) =~= m0);
                        assert(acc@ == acc_pre_entry);
                        assert(m0.add(epairs.to_multiset()) == m0.add(
                            Multiset::<(Seq<Key>, Action)>::empty(),
                        ));
                        assert(binding_pairs(acc@).to_multiset() == binding_pairs(
                            acc_pre_entry,
                        ).to_multiset().add(epairs.to_multiset()));
                    }
                },
            }
        } else {
            proof {
                assert(epairs =~= Seq::<(Seq<Key>, Action)>::empty());
                epairs.to_multiset_ensures();
                assert(epairs.to_multiset() =~= Multiset::<(Seq<Key>, Action)>::empty());
                let m0 = binding_pairs(acc_pre_entry).to_multiset();
                assert(m0.add(Multiset::<(Seq<Key>, Action)>::empty()) =~= m0);
                assert(binding_pairs(acc@).to_multiset() =~= binding_pairs(
                    acc_pre_entry,
                ).to_multiset().add(epairs.to_multiset()));
            }
        }
        proof {
            let prefix = entries@.subrange(0, i as int);
            let prefix1 = entries@.subrange(0, i as int + 1);
            assert(prefix1 =~= prefix.push(entries@[i as int]));
            lemma_config_pairs_snoc(prefix, entries@[i as int]);
            lemma_multiset_commutative(config_pairs(prefix), epairs);
            assert(binding_pairs(acc@).to_multiset() =~= config_pairs(prefix1).to_multiset());
        }
        i += 1;
    }
    proof {
        assert(entries@.subrange(0, entries@.len() as int) =~= entries@);
    }
    let bindings = sort_bindings(acc);
    MatcherState {
        bindings,
        debounce_ms,
        debounce: DebounceState { last_cycle_back_ms: 0, last_cycle_forward_ms: 0 },
        hud: HudState { captured_hud_type: None, overridden: false, last_override_ms: 0 },
    }
}

/// Move both cycle timers back to "already elapsed" as of `now_ms`.
fn reset_cycle_timers(state: &mut MatcherState, now_ms: u64)
    ensures
        *final(state) == (MatcherState {
            debounce: reset_idle_spec(old(state).debounce, now_ms, old(state).debounce_ms),
            ..*old(state)
        }),
{
    let window = state.debounce_ms;
    let idle = if now_ms >= window {
        now_ms - window
    } else {
        0
    };
    state.debounce.last_cycle_back_ms = idle;
    state.debounce.last_cycle_forward_ms = idle;
}

} // verus!

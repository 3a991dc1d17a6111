//! Verified core of a frame-hook agent that remaps keyboard shortcuts to
//! equipment-slot changes in a host process: a wildcard byte-pattern scanner,
//! relative-address resolution over an image's section table, compilation of
//! authored shortcuts into a priority-ordered binding table, and the per-frame
//! matching step with debounce and visibility-flag bookkeeping.

mod bindings;
mod config;
mod deploy;
mod frame;
mod keys;
mod pattern;
mod resolver;
mod shortcut;
mod slots;

pub use bindings::first_match;
pub use bindings::is_all_keybinding_keys_pressed;
pub use bindings::lemma_highest_specificity_wins;
pub use bindings::sort_bindings;
pub use config::DEFAULT_DEBOUNCE_MS;
pub use config::config_key_to_action;
pub use config::parse_debounce_ms;
pub use config::parse_u64;
pub use config::str_contains;
pub use config::str_starts_with;
pub use deploy::validate_paths;
pub use frame::DebounceState;
pub use frame::FrameInput;
pub use frame::FrameOutput;
pub use frame::HUD_RESTORE_DWELL_MS;
pub use frame::HUD_TYPE_ON;
pub use frame::HudState;
pub use frame::MatcherState;
pub use frame::build_matcher_state;
pub use frame::frame_step;
pub use frame::lemma_debounce_fires_after_window;
pub use frame::lemma_debounce_suppresses_repeat;
pub use keys::Key;
pub use keys::Modifier;
pub use keys::map_key;
pub use keys::map_modifier;
pub use keys::str_eq;
pub use pattern::ByteSignature;
pub use pattern::lemma_exact_copy_matches;
pub use pattern::lemma_match_pins_bytes;
pub use pattern::parse_signature;
pub use pattern::scan;
pub use resolver::ResolveError;
pub use resolver::get_text_header;
pub use resolver::lemma_resolution_deterministic;
pub use resolver::resolve_game_data_man_address;
pub use shortcut::Action;
pub use shortcut::CompiledBinding;
pub use shortcut::Shortcut;
pub use shortcut::cartesian_product;
pub use shortcut::expand_combinations;
pub use shortcut::lemma_compile_pure;
pub use slots::EMPTY_SLOT_SENTINEL;
pub use slots::back_cycle_memory_slot;
pub use slots::count_valid_slots;
pub use slots::cycle_backward_index;
pub use slots::cycle_forward_index;
pub use slots::forward_cycle_memory_slot;
pub use slots::lemma_cycle_wraps;
pub use slots::lemma_slot_clamping;
pub use slots::set_memory_slot;

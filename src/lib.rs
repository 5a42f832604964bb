//! Core of a polyphonic keyboard synthesizer: the isomorphic pitch lattice,
//! the set of sounding voices, the ordered application of key events, and the
//! frame-filling step of the audio callback.

mod pitch;
mod voices;
mod bridge;
mod engine;

pub use pitch::{
    build_pitch_table, key_column, key_row, lemma_column_interval, lemma_row_interval,
    scancode_to_frequency, Frequency, MAX_SCANCODE,
};
pub use voices::VoiceRegistry;
pub use bridge::{
    admit_event, lemma_idempotent_events, lemma_latest_event_decides, lemma_press_then_release,
    KeyEvent, KeyState,
};
pub use engine::{burst_frequency, fill_buffer, SampleClock, BURST_HOLD_MS};

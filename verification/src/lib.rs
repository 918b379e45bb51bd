//! Core data model, event scheduling and file-format parsing for a tracker /
//! modular music engine.

pub mod musical_time;
pub mod time_order;
pub mod effects;
pub mod pattern;
pub mod event;
pub mod event_queue;
pub mod frame;
pub mod frequency;
pub mod names;
pub mod graph;
pub mod instrument;
pub mod sample;
pub mod song;
pub mod scheduler;
pub mod event_source;
pub mod clip_source;
pub mod analysis;
pub mod timestamp;
pub mod edit;
pub mod modulator;
pub mod effect_parser;
pub mod format_error;
pub mod mod_format;
pub mod editing;
pub mod wav_format;
pub mod bmx_format;
pub mod voice;
pub mod voice_pool;
pub mod machine;
pub mod audio_output;
pub mod transport;
pub mod graph_order;
pub mod channel;
pub mod envelope_walk;

//! The engine of the Android app.
pub mod audio_android;
pub mod audio_ring;
pub mod commands;
pub mod engine;
pub mod jni_bridge;
pub mod pipeline;
pub mod signal_mgr;
pub mod stats;

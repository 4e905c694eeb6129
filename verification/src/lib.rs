//! Media transformation service core: admission control, a bounded job queue
//! with a shared status store, the worker dispatch state machine, and the
//! pixel-exact transform engine (background removal, format conversion with
//! resizing, color grading and 3D LUT application).
pub mod color;
pub mod imagebuf;
pub mod imageio;
pub mod processing;
pub mod strutil;
pub mod queue;
pub mod lut;
pub mod worker;
pub mod quota;
pub mod auth;
pub mod config;
pub mod api;
pub mod storage;

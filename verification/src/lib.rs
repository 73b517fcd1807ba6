//! The decisions behind a sound monitor.
//!
//! A microphone is listened to, its stream is cut into windows, a model scores
//! each window, and the sounds that it recognises are reported, announced and
//! written into a history. This library holds what is decided on the way: how
//! the stream is cut ([`listener`]), what is reported and when, what the
//! settings are and how they change ([`config`]), how the classes of the model
//! are read ([`class_map`]), sorted ([`category`]) and searched ([`groups`]),
//! and what the screen shows ([`session`], [`screen`], [`theme`]).
//!
//! Numbers with a fraction pass through as bit patterns ([`single`]); the
//! calculations with them are made outside.

pub mod alert;
pub mod category;
pub mod class_map;
pub mod clock;
pub mod config;
pub mod groups;
pub mod listener;
pub mod screen;
pub mod session;
pub mod single;
pub mod text;
pub mod theme;

pub use crate::category::categorize_label;
pub use crate::class_map::load_class_labels;
pub use crate::clock::chrono_time_str;
pub use crate::config::AppConfig;
pub use crate::groups::build_grouped_labels;
pub use crate::session::DetectionLog;
pub use crate::session::EarbuddyApp;
pub use crate::session::ToastMessage;

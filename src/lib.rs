//! A field agent's core logic: settings resolution, the session and channel
//! protocol decisions, the reconnect state machine, the checkpointed log
//! tailer and the chunked upload plan.

pub mod adobe_media_encoder_log;
pub mod browser;
pub mod channel;
pub mod config;
pub mod datetime;
pub mod doc;
pub mod supervisor;
pub mod tailer;
pub mod text;
pub mod uploader;

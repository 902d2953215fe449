//! Progress monitoring for a media-merge job: reads the transcoder's
//! `key=value` progress log, turns snapshots into progress events, and
//! reconciles the transcoder's exit with the log reader's outcome.
pub mod text;
pub mod window;
pub mod telemetry;
pub mod tailer;
pub mod probe;
pub mod orchestrator;

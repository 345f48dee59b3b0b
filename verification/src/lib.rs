//! Control plane of a digital-audio workstation: a project of tracks, each with
//! time-positioned regions and a processing graph of audio nodes, edited by
//! commands that a single mixer actor applies one at a time.
//!
//! Every function here is verified. Real-valued quantities are held as
//! integers: musical time in ticks, tempo in thousandths of a beat per minute,
//! scale factors as ratios. Signal processing, devices and threads live with
//! the caller.
//!
//! From the leaves up: `time` and `value` hold the primitives; `node`,
//! `topology`, `graph` and `plan` the processing graph and the order of its
//! evaluation; `region`, `track` and `mixer` the project; `layout` and `state`
//! what observers are shown; `actor` the command dispatcher; `worker` and
//! `playback` the decisions of a mix pass; `api` the commands as callers
//! build them.

pub mod actor;
pub mod api;
pub mod graph;
pub mod layout;
pub mod mixer;
pub mod node;
pub mod plan;
pub mod playback;
pub mod region;
pub mod seqs;
pub mod state;
pub mod time;
pub mod topology;
pub mod track;
pub mod value;
pub mod worker;

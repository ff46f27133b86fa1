//! Transcode task pipeline: the content-identifier codec, chunked-decryption
//! planner, source-acquisition protocol, task queue, per-format progress
//! model, result store and disk-space garbage collector behind a media
//! transcoding service.

pub mod b64;
pub mod chunk;
pub mod cid;
pub mod gc;
pub mod media;
pub mod progress;
pub mod queue;
pub mod results;
pub mod service;
pub mod strutil;
pub mod worker;

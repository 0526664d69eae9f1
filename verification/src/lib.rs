//! Media asset management engine: row codecs, job scheduling, proxy
//! profiles, container formats and pixel conversions, with their contracts.

pub mod annexb;
pub mod asset;
pub mod codec;
pub mod container;
pub mod dispatch;
pub mod encoder;
pub mod extensions;
pub mod imaging;
pub mod jobs;
pub mod model;
pub mod peaks;
pub mod profile;
pub mod progress;
pub mod queue;
pub mod scheduler;
pub mod storage;
pub mod tables;
pub mod text;
pub mod thumbnail;
pub mod tkv;
pub mod video;
pub mod wav;
pub mod wav_writer;

//! Two-factor access control for port checkpoints: the messages between
//! checkpoints, port servers and the central database, the decisions each
//! of them takes, the key exchange that protects their traffic, and the
//! administrator's terminal form.
pub mod approval;
pub mod central;
pub mod checkpoint;
pub mod codec;
pub mod lcd;
pub mod link;
pub mod messages;
pub mod poly;
pub mod port;
pub mod prototype;
pub mod ring;
pub mod rlwe;
pub mod rlwe_text;
pub mod sensors;
pub mod text;
pub mod tui;

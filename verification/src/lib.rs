//! Verified building blocks of a media bandwidth test client.

pub mod buffer;
pub mod buffer_laws;
pub mod control;
pub mod error;
pub mod marshal;
pub mod nack;
pub mod nack_laws;
pub mod pace;
pub mod rtx_laws;
pub mod rtx_timer;
pub mod sfu_laws;
pub mod sfu_member;
pub mod signal;

//! A register of the wireless network names heard in beacon frames.
//!
//! Raw management frames are decoded into network names, and every distinct
//! name is kept exactly once in an ordered register that can be shared
//! between the reception path and the main loop.

pub mod decoder;
pub mod dispatch;
pub mod display;
pub mod laws;
pub mod name;
pub mod register;
pub mod shared;

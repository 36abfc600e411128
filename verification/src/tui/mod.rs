//! The terminal browser.

pub mod browser;
pub mod coverage;
pub mod keys;
pub mod model;
pub mod page;
pub mod rounding;
pub mod sizes;
pub mod splash;
pub mod storage;
pub mod sync;

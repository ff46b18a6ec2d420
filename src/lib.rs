//! A process-wide, keyed, time-bounded store of shared contexts: `open`
//! creates or fetches the context of a list of lookup values, `update`
//! writes back its data.

pub mod clock;
pub mod encoding;
pub mod error;
pub mod key;
pub mod laws;
pub mod store;
pub mod value;

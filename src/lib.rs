//! Verified core of a load generator that publishes text lines to a message
//! broker: producer settings, input handling, and the bookkeeping of the
//! worker pool and of the interactive session.
pub mod broker;
pub mod lines;
pub mod dispatch;
pub mod session;
pub mod settings;

//! A chat session client core: the envelope codec of the wire protocol, the
//! session state machine that turns inbound envelopes into roster and
//! transcript updates, and the relay that fans envelopes out to subscribers.
pub mod text;
pub mod json;
pub mod envelope;
pub mod session;
pub mod bus;

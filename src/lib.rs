//! Community-chat backend core: a presence and broadcast registry for live
//! connections, and an authorization-gated model of the membership store
//! (servers, channels, messages) with every mutation the backend performs.
pub mod presence;
pub mod model;
pub mod mutation;
pub mod store;
pub mod edit;
pub mod forms;
pub mod platform;
pub mod roster;
pub mod session;

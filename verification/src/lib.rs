//! Verified core of a software KVM: where captured input goes and where held keys
//! are released, screen layouts and edge crossings, the sealed peer channel and its
//! clipboard transfers, the daemon's control decisions, and the desktop runtime's
//! bookkeeping.

pub mod model;
pub mod names;
pub mod text;
pub mod held;
pub mod input;
pub mod router;
pub mod chord;
pub mod router_laws;
pub mod hexcodec;
pub mod auth;
pub mod peer;
pub mod clip;
pub mod service;
pub mod control;
pub mod layout;
pub mod framing;
pub mod edge;
pub mod agent;

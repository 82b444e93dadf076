//! The census of a supervisor: what a ring of supervisors has heard, by gossip,
//! about the service groups that run in it and about the members of each group.

pub mod assoc;
pub mod config;
pub mod event;
pub mod group;
pub mod laws;
pub mod member;
pub mod population;
pub mod ring;
pub mod rumor;
pub mod text;

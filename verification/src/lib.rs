//! The logic of a small desktop tool that copies Dota 2 settings from one
//! Steam account to another.
//!
//! [`locate`] and [`roots`] find Steam and Dota 2 on the disk, [`account`] and
//! [`account_order`] read and list the accounts, [`conduct`] reads their conduct
//! summaries, [`remote`] reads their public profiles, [`fetch`] adds what is
//! missing from there, [`copy`] carries the settings over, and [`state`] holds
//! what the window shows and does. [`path`], [`pattern`], [`text`] and
//! [`numbers`] are what these are made of. What holds of all of it, whatever the
//! input, is stated in the modules whose names end in `laws`.
//!
//! The library itself touches neither the disk nor the network. Where it needs
//! something from there, it asks: for a list of facts, or, where one answer
//! decides the next question, one question at a time.

pub mod text;
pub mod numbers;
pub mod path;
pub mod path_laws;
pub mod pattern;
pub mod conduct;
pub mod conduct_laws;
pub mod roots;
pub mod root_laws;
pub mod account;
pub mod account_order;
pub mod account_laws;
pub mod remote;
pub mod fetch;
pub mod profile_laws;
pub mod copy;
pub mod copy_laws;
pub mod locate;
pub mod place_laws;
pub mod state;
pub mod state_laws;

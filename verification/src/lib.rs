//! Data model and decisions of a League of Legends client: friend lists,
//! game queues, lobby invitations, client credentials and event routing.
use vstd::prelude::*;

pub mod lcu_api;
pub mod sorting;
pub mod states;
pub mod text;
pub mod util;
pub mod view_main;
pub mod views;

verus! {

/// The address at which the League client serves its interfaces.
pub const HOST: &'static str = "127.0.0.1";

} // verus!

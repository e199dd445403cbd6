//! The rules of a local game server: its wire protocol, its player store, its
//! policy and its master data.
use vstd::prelude::*;

pub mod answer_laws;
pub mod banner;
pub mod boot_log;
pub mod bytes;
pub mod ch3;
pub mod claim_laws;
pub mod claims;
pub mod command;
pub mod consume_reward;
pub mod domain;
pub mod envelope;
pub mod errors;
pub mod follower_laws;
pub mod followers;
pub mod fresh;
pub mod ints;
pub mod kept;
pub mod laws;
pub mod lists;
pub mod magnitude;
pub mod mail;
pub mod mail_laws;
pub mod master;
pub mod messages;
pub mod music;
pub mod names;
pub mod natural;
pub mod number;
pub mod order;
pub mod outcome;
pub mod pass;
pub mod pass_laws;
pub mod player;
pub mod policy;
pub mod profile;
pub mod profile_laws;
pub mod queries;
pub mod quest_laws;
pub mod quests;
pub mod registry;
pub mod requests;
pub mod reward_laws;
pub mod rewards;
pub mod rounding;
pub mod rows;
pub mod rule_laws;
pub mod save;
pub mod save_laws;
pub mod shop;
pub mod shop_laws;
pub mod shortest;
pub mod slot_laws;
pub mod slots;
pub mod snapshot;
pub mod snapshot_laws;
pub mod stage_laws;
pub mod startup;
pub mod store;
pub mod table;
pub mod tally;
pub mod text;
pub mod transfer;
pub mod transport;
pub mod wire;

verus! {

/// The version of the wire protocol.
pub const PROTOCOL_VERSION: u32 = 1;

} // verus!

//! Stored record shapes: one birthday per (user, guild) pair, and one
//! optional announcement channel per guild.

use vstd::prelude::*;

use crate::birthday::Birthday;

verus! {

/// Associates one (user, guild) pair with exactly one birthday. The pair is
/// the unique key: a user may have a different birthday per guild.
#[derive(Clone, Copy, PartialEq, Eq, Structural, Debug)]
pub struct MemberRecord {
    /// The member's user ID.
    pub user_id: u64,
    /// The member's guild ID.
    pub guild_id: u64,
    /// The member's birthday.
    pub birthday: Birthday,
}

/// Associates a guild with an optional announcement channel.
#[derive(Clone, Copy, PartialEq, Eq, Structural, Debug)]
pub struct GuildAnnouncementConfig {
    /// The guild's ID.
    pub guild_id: u64,
    /// The channel where birthdays are announced, if one is configured.
    pub channel_id: Option<u64>,
}

/// Every birthday in the snapshot is a valid calendar value. Records loaded
/// from the store are parsed and validated at write time, so the scheduler
/// may assume this of every snapshot it is handed.
pub open spec fn records_well_formed(records: Seq<MemberRecord>) -> bool {
    forall|i: int| 0 <= i < records.len() ==> (#[trigger] records[i]).birthday.well_formed()
}

} // verus!

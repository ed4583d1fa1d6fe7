//! Per-guild requirement records: four independent numeric thresholds.

use vstd::prelude::*;

verus! {

/// The thresholds an administrator can set for one in-game guild.
/// An absent record means all four are zero.
#[derive(Clone, Copy, Debug, PartialEq, Eq, Structural)]
pub struct GuildReqs {
    pub slayer: i64,
    pub skills: i64,
    pub catacombs: i64,
    pub weight: i64,
}

/// Ghost image of a requirement record.
pub struct GuildReqsV {
    pub slayer: int,
    pub skills: int,
    pub catacombs: int,
    pub weight: int,
}

impl View for GuildReqs {
    type V = GuildReqsV;

    open spec fn view(&self) -> GuildReqsV {
        GuildReqsV {
            slayer: self.slayer as int,
            skills: self.skills as int,
            catacombs: self.catacombs as int,
            weight: self.weight as int,
        }
    }
}

impl GuildReqsV {
    /// Thresholds are never negative and fit their storage field.
    pub open spec fn wf(self) -> bool {
        &&& 0 <= self.slayer <= i64::MAX
        &&& 0 <= self.skills <= i64::MAX
        &&& 0 <= self.catacombs <= i64::MAX
        &&& 0 <= self.weight <= i64::MAX
    }

    /// The record an unconfigured guild is treated as having.
    pub open spec fn zero() -> GuildReqsV {
        GuildReqsV { slayer: 0, skills: 0, catacombs: 0, weight: 0 }
    }
}

impl Default for GuildReqs {
    /// All four thresholds start at zero.
    fn default() -> (r: GuildReqs)
        ensures
            r@ == GuildReqsV::zero(),
    {
        GuildReqs { slayer: 0, skills: 0, catacombs: 0, weight: 0 }
    }
}

/// Which threshold a `settings reqs set` command changes.
#[derive(Clone, Copy, Debug, PartialEq, Eq, Structural)]
pub enum ReqField {
    Slayer,
    Skills,
    Catacombs,
    Weight,
}

/// The record with exactly one field replaced.
pub open spec fn spec_set_field(r: GuildReqsV, f: ReqField, amount: int) -> GuildReqsV {
    match f {
        ReqField::Slayer => GuildReqsV { slayer: amount, ..r },
        ReqField::Skills => GuildReqsV { skills: amount, ..r },
        ReqField::Catacombs => GuildReqsV { catacombs: amount, ..r },
        ReqField::Weight => GuildReqsV { weight: amount, ..r },
    }
}

/// Replace one field of a record, leaving the other three untouched.
pub fn set_field(r: GuildReqs, f: ReqField, amount: i64) -> (res: GuildReqs)
    ensures
        res@ == spec_set_field(r@, f, amount as int),
{
    match f {
        ReqField::Slayer => GuildReqs { slayer: amount, ..r },
        ReqField::Skills => GuildReqs { skills: amount, ..r },
        ReqField::Catacombs => GuildReqs { catacombs: amount, ..r },
        ReqField::Weight => GuildReqs { weight: amount, ..r },
    }
}

/// The word naming a field inside a `settings reqs set` command.
pub open spec fn spec_field_name(f: ReqField) -> Seq<char> {
    match f {
        ReqField::Slayer => "slayer"@,
        ReqField::Skills => "skills"@,
        ReqField::Catacombs => "catacombs"@,
        ReqField::Weight => "weight"@,
    }
}

pub fn field_name(f: ReqField) -> (r: &'static str)
    ensures
        r@ == spec_field_name(f),
{
    match f {
        ReqField::Slayer => "slayer",
        ReqField::Skills => "skills",
        ReqField::Catacombs => "catacombs",
        ReqField::Weight => "weight",
    }
}

} // verus!

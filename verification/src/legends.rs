//! Revenant legends, as `v2/legends` serves them.
use vstd::prelude::*;
use crate::endpoint::{BulkEndpoint, Endpoint, EndpointWithId};

verus! {

/// The id of a skill.
pub type SkillId = u32;

/// The id of a legend, such as `Legend1`.
pub type LegendId = String;

/// A skill of a pet.
#[derive(Clone, Debug, PartialEq, Eq)]
pub struct PetSkill {
    pub id: SkillId,
}

/// A legend and the skills it brings.
#[derive(Clone, Debug, PartialEq, Eq)]
pub struct Legend {
    pub id: String,
    pub code: u8,
    pub swap: SkillId,
    pub heal: SkillId,
    pub elite: SkillId,
    pub utilities: [SkillId; 3],
}

impl Endpoint for Legend {
    const AUTHENTICATED: bool = false;

    const LOCALE: bool = true;

    const URL: &'static str = "v2/legends";

    const VERSION: &'static str = "2022-07-22T00:00:00.000Z";
}

impl EndpointWithId for Legend {
    type IdType = LegendId;
}

impl BulkEndpoint for Legend {
    const ALL: bool = true;

    const PAGING: bool = true;

    open spec fn spec_id(&self) -> LegendId {
        self.id
    }

    fn id(&self) -> (id: &LegendId) {
        &self.id
    }
}

/// What `v2/legends` tells the client about itself.
pub proof fn legend_endpoint()
    ensures
        !Legend::AUTHENTICATED,
        Legend::LOCALE,
        Legend::URL@ == "v2/legends"@,
        Legend::VERSION@ == "2022-07-22T00:00:00.000Z"@,
        Legend::ALL,
        Legend::PAGING,
{
}

} // verus!

//! The profiles that there are to choose from.
use crate::app::profile::Profile;
use crate::app::types::ProfileId;
use vstd::prelude::*;

verus! {

/// The place of the first profile with an identity, or the number of profiles.
pub open spec fn place_of(profiles: Seq<Profile>, id: ProfileId, i: int) -> int
    decreases profiles.len() - i,
{
    if i < 0 || i >= profiles.len() {
        profiles.len() as int
    } else if profiles[i].id == id {
        i
    } else {
        place_of(profiles, id, i + 1)
    }
}

/// Whether a profile has an identity.
pub open spec fn has_profile(profiles: Seq<Profile>, id: ProfileId) -> bool {
    exists|i: int| 0 <= i < profiles.len() && (#[trigger] profiles[i]).id == id
}

proof fn lemma_place(profiles: Seq<Profile>, id: ProfileId, i: int)
    requires
        0 <= i <= profiles.len(),
    ensures
        i <= place_of(profiles, id, i) <= profiles.len(),
        place_of(profiles, id, i) < profiles.len() ==> profiles[place_of(profiles, id, i)].id == id,
        forall|j: int| i <= j < profiles.len() && (#[trigger] profiles[j]).id == id ==> place_of(
            profiles,
            id,
            i,
        ) <= j,
    decreases profiles.len() - i,
{
    if i < profiles.len() && profiles[i].id != id {
        lemma_place(profiles, id, i + 1);
    }
}

/// All profiles, one of which is the default.
pub struct ProfileRegistry {
    profiles: Vec<Profile>,
    default_profile_id: ProfileId,
}

impl View for ProfileRegistry {
    type V = Seq<Profile>;

    closed spec fn view(&self) -> Seq<Profile> {
        self.profiles@
    }
}

impl ProfileRegistry {
    /// The identity of the default profile.
    pub closed spec fn default_id(&self) -> ProfileId {
        self.default_profile_id
    }

    /// There is a default profile.
    pub open spec fn wf(&self) -> bool {
        has_profile(self@, self.default_id())
    }

    /// A registry of profiles, one of which is the default.
    pub fn new(profiles: Vec<Profile>, default_profile_id: ProfileId) -> (registry: ProfileRegistry)
        requires
            has_profile(profiles@, default_profile_id),
        ensures
            registry.wf(),
            registry@ == profiles@,
            registry.default_id() == default_profile_id,
    {
        ProfileRegistry { profiles, default_profile_id }
    }

    /// All available profiles.
    pub fn profiles(&self) -> (profiles: &[Profile])
        ensures
            profiles@ == self@,
    {
        self.profiles.as_slice()
    }

    /// The first profile with an identity.
    pub fn profile_by_id(&self, id: ProfileId) -> (profile: Option<&Profile>)
        ensures
            profile is Some == has_profile(self@, id),
            profile matches Some(profile) ==> profile.id == id && *profile == self@[place_of(
                self@,
                id,
                0,
            )],
    {
        let mut i: usize = 0;
        proof {
            lemma_place(self@, id, 0);
        }
        while i < self.profiles.len()
            invariant
                i <= self.profiles@.len(),
                place_of(self@, id, 0) == place_of(self@, id, i as int),
                forall|j: int| 0 <= j < i ==> (#[trigger] self@[j]).id != id,
            decreases self.profiles@.len() - i,
        {
            if self.profiles[i].id == id {
                assert(self@[i as int].id == id);
                return Some(&self.profiles[i]);
            }
            i += 1;
        }
        None
    }

    /// The default profile.
    pub fn default_profile(&self) -> (profile: &Profile)
        requires
            self.wf(),
        ensures
            profile.id == self.default_id(),
            *profile == self@[place_of(self@, self.default_id(), 0)],
    {
        self.profile_by_id(self.default_profile_id).unwrap()
    }

    /// The default profile's identity.
    pub fn default_profile_id(&self) -> (id: ProfileId)
        ensures
            id == self.default_id(),
    {
        self.default_profile_id
    }
}

/// The profile that is found for an identity is the first that has it.
pub proof fn law_first_profile_is_found(profiles: Seq<Profile>, id: ProfileId, i: int)
    requires
        0 <= i < profiles.len(),
        profiles[i].id == id,
        forall|j: int| 0 <= j < i ==> (#[trigger] profiles[j]).id != id,
    ensures
        has_profile(profiles, id),
        place_of(profiles, id, 0) == i,
{
    lemma_place(profiles, id, 0);
    let at = place_of(profiles, id, 0);
    if at < i {
        assert(profiles[at].id != id);
    }
}

/// An identity that no profile has is not found.
pub proof fn law_unknown_profile_is_not_found(profiles: Seq<Profile>, id: ProfileId)
    requires
        forall|j: int| 0 <= j < profiles.len() ==> (#[trigger] profiles[j]).id != id,
    ensures
        !has_profile(profiles, id),
        place_of(profiles, id, 0) == profiles.len(),
{
    lemma_place(profiles, id, 0);
}

} // verus!

//! The plain-value model of the managed filesystem state, and the
//! current-profile resolver.
//!
//! A [`Store`] holds what the profile directory and the active-config path
//! contain: the stored profiles (name and content, sorted by name, hidden
//! entries left out) and the state of the active-config path — absent, a
//! symlink with some target path, or a regular file with some content.
//! The resolver derives from that state alone which profile is current.

use vstd::prelude::*;
use crate::fingerprint::{hash_bytes, md5_of};
use crate::order::{bytes_eq, lex_lt};
use crate::paths::{last_component, last_component_of, name_ok};

verus! {

/// Mathematical view of one stored profile.
pub struct ProfileV {
    pub name: Seq<u8>,
    pub content: Seq<u8>,
}

/// Mathematical view of the active-config path's state.
pub enum ActiveV {
    /// The path does not exist.
    Absent,
    /// The path is a symlink with the given target path.
    Link { target: Seq<u8> },
    /// The path is a regular file with the given content.
    File { content: Seq<u8> },
}

/// Mathematical view of the whole managed state.
pub struct StoreV {
    /// The profile directory's path.
    pub dir: Seq<u8>,
    /// The stored profiles, sorted by name.
    pub profiles: Seq<ProfileV>,
    /// The state of the active-config path.
    pub active: ActiveV,
}

/// One stored profile: its entry name and its file content.
pub struct Profile {
    pub name: Vec<u8>,
    pub content: Vec<u8>,
}

/// The observed state of the active-config path.
pub enum ActiveConfig {
    Absent,
    Link { target: Vec<u8> },
    File { content: Vec<u8> },
}

/// The managed state: profile directory path, stored profiles, active path.
pub struct Store {
    pub dir: Vec<u8>,
    pub profiles: Vec<Profile>,
    pub active: ActiveConfig,
}

impl View for Profile {
    type V = ProfileV;

    open spec fn view(&self) -> ProfileV {
        ProfileV { name: self.name@, content: self.content@ }
    }
}

impl View for ActiveConfig {
    type V = ActiveV;

    open spec fn view(&self) -> ActiveV {
        match self {
            ActiveConfig::Absent => ActiveV::Absent,
            ActiveConfig::Link { target } => ActiveV::Link { target: target@ },
            ActiveConfig::File { content } => ActiveV::File { content: content@ },
        }
    }
}

/// The views of a sequence of profiles.
pub open spec fn views_of(ps: Seq<Profile>) -> Seq<ProfileV> {
    ps.map_values(|p: Profile| p@)
}

impl View for Store {
    type V = StoreV;

    open spec fn view(&self) -> StoreV {
        StoreV { dir: self.dir@, profiles: views_of(self.profiles@), active: self.active@ }
    }
}

/// Well-formed profile set: names valid and strictly sorted, so all distinct.
pub open spec fn profiles_wf(ps: Seq<ProfileV>) -> bool {
    &&& forall|i: int| 0 <= i < ps.len() ==> name_ok(#[trigger] ps[i].name)
    &&& forall|i: int, j: int| 0 <= i < j < ps.len() ==> lex_lt(ps[i].name, ps[j].name)
}

/// Well-formed store.
pub open spec fn store_wf(s: StoreV) -> bool {
    profiles_wf(s.profiles)
}

/// The first profile with the given name, if any.
pub open spec fn find_name(ps: Seq<ProfileV>, name: Seq<u8>) -> Option<int>
    decreases ps.len(),
{
    if ps.len() == 0 {
        None
    } else if ps[0].name == name {
        Some(0int)
    } else {
        match find_name(ps.skip(1), name) {
            Some(i) => Some(i + 1),
            None => None,
        }
    }
}

/// The first profile whose content digest equals `d`, if any.
pub open spec fn find_digest(ps: Seq<ProfileV>, d: Seq<u8>) -> Option<int>
    decreases ps.len(),
{
    if ps.len() == 0 {
        None
    } else if md5_of(ps[0].content) == d {
        Some(0int)
    } else {
        match find_digest(ps.skip(1), d) {
            Some(i) => Some(i + 1),
            None => None,
        }
    }
}

/// What `find_name` returns: the first index bearing the name, or nothing
/// when no profile bears it.
pub proof fn lemma_find_name_props(ps: Seq<ProfileV>, name: Seq<u8>)
    ensures
        match find_name(ps, name) {
            Some(i) => 0 <= i < ps.len() && ps[i].name == name && forall|j: int|
                0 <= j < i ==> (#[trigger] ps[j].name) != name,
            None => forall|j: int| 0 <= j < ps.len() ==> (#[trigger] ps[j].name) != name,
        },
    decreases ps.len(),
{
    if ps.len() == 0 {
    } else if ps[0].name == name {
    } else {
        lemma_find_name_props(ps.skip(1), name);
        assert forall|j: int| 0 <= j < ps.len() implies ps.skip(1)[j - 1] == ps[j] || j == 0 by {}
    }
}

/// `find_name` returns exactly the first matching index.
pub proof fn lemma_find_name_at(ps: Seq<ProfileV>, name: Seq<u8>, i: int)
    requires
        0 <= i < ps.len(),
        ps[i].name == name,
        forall|j: int| 0 <= j < i ==> (#[trigger] ps[j].name) != name,
    ensures
        find_name(ps, name) == Some(i),
    decreases i,
{
    if i == 0 {
    } else {
        assert(ps.skip(1)[i - 1] == ps[i]);
        assert forall|j: int| 0 <= j < i - 1 implies (#[trigger] ps.skip(1)[j].name) != name by {
            assert(ps.skip(1)[j] == ps[j + 1]);
        }
        lemma_find_name_at(ps.skip(1), name, i - 1);
    }
}

/// What `find_digest` returns: the first index whose content digest matches,
/// or nothing when none matches.
pub proof fn lemma_find_digest_props(ps: Seq<ProfileV>, d: Seq<u8>)
    ensures
        match find_digest(ps, d) {
            Some(i) => 0 <= i < ps.len() && md5_of(ps[i].content) == d && forall|j: int|
                0 <= j < i ==> md5_of(#[trigger] ps[j].content) != d,
            None => forall|j: int| 0 <= j < ps.len() ==> md5_of(#[trigger] ps[j].content) != d,
        },
    decreases ps.len(),
{
    if ps.len() == 0 {
    } else if md5_of(ps[0].content) == d {
    } else {
        lemma_find_digest_props(ps.skip(1), d);
        assert forall|j: int| 0 <= j < ps.len() implies ps.skip(1)[j - 1] == ps[j] || j == 0 by {}
    }
}

/// `find_digest` returns exactly the first matching index.
pub proof fn lemma_find_digest_at(ps: Seq<ProfileV>, d: Seq<u8>, i: int)
    requires
        0 <= i < ps.len(),
        md5_of(ps[i].content) == d,
        forall|j: int| 0 <= j < i ==> md5_of(#[trigger] ps[j].content) != d,
    ensures
        find_digest(ps, d) == Some(i),
    decreases i,
{
    if i == 0 {
    } else {
        assert(ps.skip(1)[i - 1] == ps[i]);
        assert forall|j: int| 0 <= j < i - 1 implies md5_of(#[trigger] ps.skip(1)[j].content)
            != d by {
            assert(ps.skip(1)[j] == ps[j + 1]);
        }
        lemma_find_digest_at(ps.skip(1), d, i - 1);
    }
}

/// Which profile the active-config path represents: nothing when the path is
/// absent; for a symlink, the profile named by the target's final component
/// (never falling back to hashing); for a regular file, the first profile
/// whose content fingerprint equals the file's.
pub open spec fn resolved(s: StoreV) -> Option<int> {
    match s.active {
        ActiveV::Absent => None,
        ActiveV::Link { target } => find_name(s.profiles, last_component(target)),
        ActiveV::File { content } => find_digest(s.profiles, md5_of(content)),
    }
}

/// Finds the profile with the given name.
pub fn find_profile(profiles: &Vec<Profile>, name: &Vec<u8>) -> (r: Option<usize>)
    ensures
        match r {
            Some(i) => i < profiles.len() && find_name(views_of(profiles@), name@) == Some(
                i as int,
            ),
            None => find_name(views_of(profiles@), name@) is None,
        },
{
    let ghost ps = views_of(profiles@);
    let mut i: usize = 0;
    while i < profiles.len()
        invariant
            i <= profiles.len(),
            ps == views_of(profiles@),
            forall|j: int| 0 <= j < i ==> (#[trigger] ps[j].name) != name@,
        decreases profiles.len() - i,
    {
        if bytes_eq(&profiles[i].name, name) {
            proof {
                lemma_find_name_at(ps, name@, i as int);
            }
            return Some(i);
        }
        i = i + 1;
    }
    proof {
        lemma_find_name_props(ps, name@);
    }
    None
}

/// Finds the first profile whose content digest equals `d`.
pub fn find_profile_by_digest(profiles: &Vec<Profile>, d: &Vec<u8>) -> (r: Option<usize>)
    ensures
        match r {
            Some(i) => i < profiles.len() && find_digest(views_of(profiles@), d@) == Some(
                i as int,
            ),
            None => find_digest(views_of(profiles@), d@) is None,
        },
{
    let ghost ps = views_of(profiles@);
    let mut i: usize = 0;
    while i < profiles.len()
        invariant
            i <= profiles.len(),
            ps == views_of(profiles@),
            forall|j: int| 0 <= j < i ==> md5_of(#[trigger] ps[j].content) != d@,
        decreases profiles.len() - i,
    {
        let h = hash_bytes(&profiles[i].content);
        if bytes_eq(&h, d) {
            proof {
                lemma_find_digest_at(ps, d@, i as int);
            }
            return Some(i);
        }
        i = i + 1;
    }
    proof {
        lemma_find_digest_props(ps, d@);
    }
    None
}

impl Store {
    /// Resolves which profile the active-config path currently represents.
    /// A pure query: it never mutates state, and its result is a function of
    /// the store alone.
    pub fn resolve_current(&self) -> (r: Option<usize>)
        ensures
            match r {
                Some(i) => i < self.profiles.len() && resolved(self@) == Some(i as int),
                None => resolved(self@) is None,
            },
    {
        match &self.active {
            ActiveConfig::Absent => None,
            ActiveConfig::Link { target } => {
                let name = last_component_of(target);
                find_profile(&self.profiles, &name)
            },
            ActiveConfig::File { content } => {
                let d = hash_bytes(content);
                find_profile_by_digest(&self.profiles, &d)
            },
        }
    }
}

} // verus!

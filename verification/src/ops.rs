//! The profile operations: create, switch, delete, rename, list, and the
//! preparatory decision of the default (no-subcommand) flow. Each operation
//! is a pure state transition on the [`Store`] model; the front end applies
//! the resulting state and outcome to the real filesystem.

use vstd::prelude::*;
use crate::fingerprint::hash_bytes;
use crate::model::{
    find_name, find_profile, find_profile_by_digest, lemma_find_name_at, lemma_find_name_props,
    profiles_wf, resolved, store_wf, views_of, ActiveConfig, ActiveV, Profile, ProfileV, Store,
    StoreV,
};
use crate::order::{
    bytes_eq, bytes_lt, lemma_lex_lt_connected, lemma_lex_lt_irreflexive, lemma_lex_lt_transitive,
    lex_lt,
};
use crate::paths::{copy_bytes, join, join_path, last_component, lemma_last_component_join, name_ok, DOT,
    SLASH};

verus! {

/// Outcome of the create operation.
#[derive(Clone, Copy, Debug, PartialEq, Eq)]
pub enum CreateOutcome {
    /// The profile was added with the template content.
    Created,
    /// A profile with that name already exists; nothing changed.
    AlreadyExists,
    /// The name is empty, hidden, or no single filesystem entry name.
    InvalidName,
}

/// Outcome of the switch operation.
#[derive(Clone, Copy, Debug, PartialEq, Eq)]
pub enum SwitchOutcome {
    /// The active-config path now links to the named profile.
    Switched,
    /// No profile bears that name; nothing changed.
    NotFound,
}

/// Outcome of the delete operation.
#[derive(Clone, Copy, Debug, PartialEq, Eq)]
pub enum DeleteOutcome {
    /// The profile was removed; `was_active` says whether the active-config
    /// path represented it and was therefore removed as well.
    Deleted { was_active: bool },
    /// No profile bears that name; nothing changed.
    NotFound,
}

/// Outcome of the rename operation.
#[derive(Clone, Copy, Debug, PartialEq, Eq)]
pub enum RenameOutcome {
    /// The profile was renamed; `relinked` says whether the active-config
    /// path was a symlink to the old name and was repointed.
    Renamed { relinked: bool },
    /// The new name equals the old one; nothing changed.
    NoOp,
    /// No profile bears the old name; nothing changed.
    NotFound,
    /// Another profile already bears the new name; nothing changed.
    Conflict,
    /// The new name is empty, hidden, or no single entry name.
    InvalidName,
}

/// What the default flow must do to the active-config path before prompting.
#[derive(Clone, Copy, Debug, PartialEq, Eq)]
pub enum RootAction {
    /// The path is absent: materialize the default minimal file.
    CreateDefault,
    /// The path is a regular file matching no profile: back it up once.
    BackupForeign,
    /// The path is a symlink, or a regular file matching a profile.
    NoAction,
}

/// Number of profiles whose names precede `name`: where a profile with that
/// name belongs in the sorted order.
pub open spec fn insert_pos(ps: Seq<ProfileV>, name: Seq<u8>) -> int
    decreases ps.len(),
{
    if ps.len() == 0 {
        0
    } else if lex_lt(ps[0].name, name) {
        1 + insert_pos(ps.skip(1), name)
    } else {
        0
    }
}

/// A profile set with one more profile, in sorted position.
pub open spec fn add_spec(ps: Seq<ProfileV>, name: Seq<u8>, content: Seq<u8>) -> Seq<ProfileV> {
    ps.insert(insert_pos(ps, name), ProfileV { name, content })
}

/// The state after create: unchanged unless the name is valid and fresh, in
/// which case the profile is stored with the template content.
pub open spec fn create_spec(s: StoreV, name: Seq<u8>) -> StoreV {
    if name_ok(name) && find_name(s.profiles, name) is None {
        StoreV { dir: s.dir, profiles: add_spec(s.profiles, name, template_of(name)), active: s.active }
    } else {
        s
    }
}

/// The state after switch: unchanged unless the profile exists, in which
/// case the active-config path becomes a symlink to it.
pub open spec fn switch_spec(s: StoreV, name: Seq<u8>) -> StoreV {
    if find_name(s.profiles, name) is Some {
        StoreV { dir: s.dir, profiles: s.profiles, active: ActiveV::Link { target: join(s.dir, name) } }
    } else {
        s
    }
}

/// The state after delete: unchanged unless the profile exists, in which
/// case it is removed, and the active-config path is removed too when it
/// represented the deleted profile.
pub open spec fn delete_spec(s: StoreV, name: Seq<u8>) -> StoreV {
    match find_name(s.profiles, name) {
        Option::None => s,
        Option::Some(i) => StoreV {
            dir: s.dir,
            profiles: s.profiles.remove(i),
            active: if resolved(s) == Some(i) {
                ActiveV::Absent
            } else {
                s.active
            },
        },
    }
}

/// The state after rename: unchanged unless the new name is valid, distinct
/// and free and the old name exists; then the profile keeps its content
/// under the new name, and an active-config symlink whose target is exactly
/// the old profile's path is repointed at the new one.
pub open spec fn rename_spec(s: StoreV, old_name: Seq<u8>, new_name: Seq<u8>) -> StoreV {
    if !name_ok(new_name) || old_name == new_name || find_name(s.profiles, new_name) is Some {
        s
    } else {
        match find_name(s.profiles, old_name) {
            Option::None => s,
            Option::Some(i) => {
                let rest = s.profiles.remove(i);
                StoreV {
                    dir: s.dir,
                    profiles: add_spec(rest, new_name, s.profiles[i].content),
                    active: if s.active == (ActiveV::Link { target: join(s.dir, old_name) }) {
                        ActiveV::Link { target: join(s.dir, new_name) }
                    } else {
                        s.active
                    },
                }
            },
        }
    }
}

/// The template written for a newly created profile.
pub open spec fn template_of(name: Seq<u8>) -> Seq<u8> {
    template_prefix() + name + template_suffix()
}

/// The bytes of `[user]\n\tname = `.
pub open spec fn template_prefix() -> Seq<u8> {
    seq![91u8, 117u8, 115u8, 101u8, 114u8, 93u8, 10u8, 9u8, 110u8, 97u8, 109u8, 101u8, 32u8, 61u8, 32u8]
}

/// The bytes of `\n\temail = your_email@example.com`.
pub open spec fn template_suffix() -> Seq<u8> {
    seq![10u8, 9u8, 101u8, 109u8, 97u8, 105u8, 108u8, 32u8, 61u8, 32u8, 121u8, 111u8, 117u8, 114u8,
        95u8, 101u8, 109u8, 97u8, 105u8, 108u8, 64u8, 101u8, 120u8, 97u8, 109u8, 112u8, 108u8,
        101u8, 46u8, 99u8, 111u8, 109u8]
}

/// The bytes of `[user]\n\tname = username`, the default minimal file.
pub open spec fn default_config() -> Seq<u8> {
    template_prefix() + seq![117u8, 115u8, 101u8, 114u8, 110u8, 97u8, 109u8, 101u8]
}

/// Builds the template content for a new profile of the given name.
pub fn template_content(name: &Vec<u8>) -> (r: Vec<u8>)
    ensures
        r@ == template_of(name@),
{
    let mut r: Vec<u8> = Vec::new();
    r.push(91);
    r.push(117);
    r.push(115);
    r.push(101);
    r.push(114);
    r.push(93);
    r.push(10);
    r.push(9);
    r.push(110);
    r.push(97);
    r.push(109);
    r.push(101);
    r.push(32);
    r.push(61);
    r.push(32);
    proof {
        assert(r@ =~= template_prefix());
    }
    crate::paths::extend_bytes(&mut r, name);
    r.push(10);
    r.push(9);
    r.push(101);
    r.push(109);
    r.push(97);
    r.push(105);
    r.push(108);
    r.push(32);
    r.push(61);
    r.push(32);
    r.push(121);
    r.push(111);
    r.push(117);
    r.push(114);
    r.push(95);
    r.push(101);
    r.push(109);
    r.push(97);
    r.push(105);
    r.push(108);
    r.push(64);
    r.push(101);
    r.push(120);
    r.push(97);
    r.push(109);
    r.push(112);
    r.push(108);
    r.push(101);
    r.push(46);
    r.push(99);
    r.push(111);
    r.push(109);
    proof {
        assert(r@ =~= template_of(name@));
    }
    r
}

/// Builds the default minimal active-config content.
pub fn default_content() -> (r: Vec<u8>)
    ensures
        r@ == default_config(),
{
    let mut r: Vec<u8> = Vec::new();
    r.push(91);
    r.push(117);
    r.push(115);
    r.push(101);
    r.push(114);
    r.push(93);
    r.push(10);
    r.push(9);
    r.push(110);
    r.push(97);
    r.push(109);
    r.push(101);
    r.push(32);
    r.push(61);
    r.push(32);
    r.push(117);
    r.push(115);
    r.push(101);
    r.push(114);
    r.push(110);
    r.push(97);
    r.push(109);
    r.push(101);
    proof {
        assert(r@ =~= default_config());
    }
    r
}

/// Decides whether a byte string is a valid profile name.
pub fn check_name(name: &Vec<u8>) -> (r: bool)
    ensures
        r == name_ok(name@),
{
    if name.len() == 0 {
        return false;
    }
    if name[0] == DOT {
        return false;
    }
    let mut i: usize = 0;
    while i < name.len()
        invariant
            i <= name.len(),
            forall|j: int| 0 <= j < i ==> name@[j] != SLASH,
        decreases name.len() - i,
    {
        if name[i] == SLASH {
            assert(name@.contains(SLASH));
            return false;
        }
        i = i + 1;
    }
    assert(!name@.contains(SLASH));
    true
}

/// The first position whose profile name is not below `name`.
fn lower_bound(profiles: &Vec<Profile>, name: &Vec<u8>) -> (k: usize)
    ensures
        k <= profiles.len(),
        forall|j: int| 0 <= j < k ==> lex_lt((#[trigger] views_of(profiles@)[j]).name, name@),
        k < profiles.len() ==> !lex_lt(views_of(profiles@)[k as int].name, name@),
{
    let mut k: usize = 0;
    loop
        invariant
            k <= profiles.len(),
            forall|j: int| 0 <= j < k ==> lex_lt((#[trigger] views_of(profiles@)[j]).name, name@),
        decreases profiles.len() - k,
    {
        if k == profiles.len() {
            return k;
        }
        if !bytes_lt(&profiles[k].name, name) {
            return k;
        }
        k = k + 1;
    }
}

/// The insertion position is the length of the maximal leading run of names
/// below `name`: everything before it is below, what stands at it is not.
pub(crate) proof fn lemma_insert_pos_props(ps: Seq<ProfileV>, name: Seq<u8>)
    ensures
        0 <= insert_pos(ps, name) <= ps.len(),
        forall|j: int| 0 <= j < insert_pos(ps, name) ==> lex_lt((#[trigger] ps[j]).name, name),
        insert_pos(ps, name) < ps.len() ==> !lex_lt(ps[insert_pos(ps, name)].name, name),
    decreases ps.len(),
{
    if ps.len() == 0 {
    } else if lex_lt(ps[0].name, name) {
        lemma_insert_pos_props(ps.skip(1), name);
        let k = insert_pos(ps, name);
        assert forall|j: int| 0 <= j < k implies lex_lt((#[trigger] ps[j]).name, name) by {
            if j > 0 {
                assert(ps[j] == ps.skip(1)[j - 1]);
            }
        }
        if k < ps.len() {
            assert(ps[k] == ps.skip(1)[k - 1]);
        }
    }
}

/// In a well-formed set no two profiles bear one name.
pub(crate) proof fn lemma_names_unique(ps: Seq<ProfileV>, i: int, j: int)
    requires
        profiles_wf(ps),
        0 <= i < ps.len(),
        0 <= j < ps.len(),
        i != j,
    ensures
        ps[i].name != ps[j].name,
{
    if ps[i].name == ps[j].name {
        lemma_lex_lt_irreflexive(ps[i].name);
    }
}

/// A fresh name, once inserted, is found — at its sorted position — and the
/// set stays well-formed.
pub(crate) proof fn lemma_add_finds(ps: Seq<ProfileV>, name: Seq<u8>, content: Seq<u8>)
    requires
        profiles_wf(ps),
        name_ok(name),
        find_name(ps, name) is None,
    ensures
        profiles_wf(add_spec(ps, name, content)),
        find_name(add_spec(ps, name, content), name) == Some(insert_pos(ps, name)),
        add_spec(ps, name, content).len() == ps.len() + 1,
{
    let k = insert_pos(ps, name);
    let pv = ProfileV { name, content };
    let ps2 = ps.insert(k, pv);
    lemma_insert_pos_props(ps, name);
    lemma_find_name_props(ps, name);
    if k < ps.len() {
        if !lex_lt(name, ps[k].name) {
            lemma_lex_lt_connected(ps[k].name, name);
        }
    }
    lemma_insert_wf(ps, pv, k);
    assert forall|j: int| 0 <= j < k implies (#[trigger] ps2[j]).name != name by {
        assert(ps2[j] == ps[j]);
        if ps[j].name == name {
            lemma_lex_lt_irreflexive(name);
        }
    }
    assert(ps2[k] == pv);
    lemma_find_name_at(ps2, name, k);
}

/// `insert_pos` is the first position whose name is not below `name`.
proof fn lemma_insert_pos_at(ps: Seq<ProfileV>, name: Seq<u8>, k: int)
    requires
        0 <= k <= ps.len(),
        forall|j: int| 0 <= j < k ==> lex_lt((#[trigger] ps[j]).name, name),
        k < ps.len() ==> !lex_lt(ps[k].name, name),
    ensures
        insert_pos(ps, name) == k,
    decreases k,
{
    if k == 0 {
    } else {
        assert(lex_lt(ps[0].name, name));
        assert forall|j: int| 0 <= j < k - 1 implies lex_lt(
            (#[trigger] ps.skip(1)[j]).name,
            name,
        ) by {
            assert(ps.skip(1)[j] == ps[j + 1]);
        }
        assert(k - 1 < ps.skip(1).len() ==> !lex_lt(ps.skip(1)[k - 1].name, name)) by {
            if k < ps.len() {
                assert(ps.skip(1)[k - 1] == ps[k]);
            }
        }
        lemma_insert_pos_at(ps.skip(1), name, k - 1);
    }
}

/// Inserting a fresh, strictly-placed profile keeps the set well-formed.
pub(crate) proof fn lemma_insert_wf(ps: Seq<ProfileV>, p: ProfileV, k: int)
    requires
        profiles_wf(ps),
        name_ok(p.name),
        0 <= k <= ps.len(),
        forall|j: int| 0 <= j < k ==> lex_lt((#[trigger] ps[j]).name, p.name),
        k < ps.len() ==> lex_lt(p.name, ps[k].name),
    ensures
        profiles_wf(ps.insert(k, p)),
{
    let ps2 = ps.insert(k, p);
    assert forall|i: int, j: int| 0 <= i < j < ps2.len() implies lex_lt(
        ps2[i].name,
        ps2[j].name,
    ) by {
        if i < k && j < k {
        } else if i < k && j == k {
        } else if i < k && j > k {
            assert(ps2[i] == ps[i]);
            assert(ps2[j] == ps[j - 1]);
        } else if i == k && j > k {
            assert(ps2[j] == ps[j - 1]);
            if j - 1 == k {
            } else {
                lemma_lex_lt_transitive(p.name, ps[k].name, ps[j - 1].name);
            }
        } else {
            assert(ps2[i] == ps[i - 1]);
            assert(ps2[j] == ps[j - 1]);
        }
    }
    assert forall|i: int| 0 <= i < ps2.len() implies name_ok((#[trigger] ps2[i]).name) by {
        if i < k {
            assert(ps2[i] == ps[i]);
        } else if i == k {
        } else {
            assert(ps2[i] == ps[i - 1]);
        }
    }
}

/// Inserts a profile whose name is fresh at its sorted position.
fn insert_sorted(profiles: &mut Vec<Profile>, p: Profile)
    requires
        profiles_wf(views_of(old(profiles)@)),
        name_ok(p@.name),
        find_name(views_of(old(profiles)@), p@.name) is None,
    ensures
        views_of(final(profiles)@) == add_spec(views_of(old(profiles)@), p@.name, p@.content),
        profiles_wf(views_of(final(profiles)@)),
{
    let ghost ps = views_of(profiles@);
    let ghost pname = p@.name;
    proof {
        lemma_find_name_props(ps, pname);
    }
    let k = lower_bound(profiles, &p.name);
    proof {
        lemma_insert_pos_at(ps, pname, k as int);
        if (k as int) < ps.len() {
            assert(ps[k as int].name != pname);
            if !lex_lt(pname, ps[k as int].name) {
                lemma_lex_lt_connected(ps[k as int].name, pname);
            }
            assert(lex_lt(pname, ps[k as int].name));
        }
        lemma_insert_wf(ps, p@, k as int);
    }
    let ghost pv = p@;
    profiles.insert(k, p);
    proof {
        assert(views_of(profiles@) =~= ps.insert(k as int, pv)) by {
            assert(profiles@ == old(profiles)@.insert(k as int, p));
            assert forall|i: int| 0 <= i < profiles@.len() implies views_of(profiles@)[i]
                == ps.insert(k as int, pv)[i] by {
                if i < k as int {
                    assert(profiles@[i] == old(profiles)@[i]);
                } else if i == k as int {
                } else {
                    assert(profiles@[i] == old(profiles)@[i - 1]);
                }
            }
        }
        assert(pv == (ProfileV { name: pname, content: p@.content }));
    }
}

/// Removing a profile keeps the set well-formed.
pub(crate) proof fn lemma_remove_wf(ps: Seq<ProfileV>, i: int)
    requires
        profiles_wf(ps),
        0 <= i < ps.len(),
    ensures
        profiles_wf(ps.remove(i)),
{
    let ps2 = ps.remove(i);
    assert forall|a: int, b: int| 0 <= a < b < ps2.len() implies lex_lt(
        ps2[a].name,
        ps2[b].name,
    ) by {
        assert(ps2[a] == if a < i {
            ps[a]
        } else {
            ps[a + 1]
        });
        assert(ps2[b] == if b < i {
            ps[b]
        } else {
            ps[b + 1]
        });
    }
    assert forall|a: int| 0 <= a < ps2.len() implies name_ok((#[trigger] ps2[a]).name) by {
        assert(ps2[a] == if a < i {
            ps[a]
        } else {
            ps[a + 1]
        });
    }
}

impl Store {
    /// A store over the given profile directory, with no profiles and an
    /// absent active-config path.
    pub fn new(dir: Vec<u8>) -> (s: Store)
        ensures
            store_wf(s@),
            s@ == (StoreV { dir: dir@, profiles: Seq::<ProfileV>::empty(), active: ActiveV::Absent }),
    {
        let s = Store { dir, profiles: Vec::new(), active: ActiveConfig::Absent };
        proof {
            assert(views_of(s.profiles@) =~= Seq::<ProfileV>::empty());
        }
        s
    }

    /// Records one directory entry as a stored profile: hidden or duplicate
    /// names and names no entry can bear are skipped, everything else is
    /// placed in sorted order. Returns whether the entry was recorded.
    pub fn add_profile(&mut self, name: Vec<u8>, content: Vec<u8>) -> (r: bool)
        requires
            store_wf(old(self)@),
        ensures
            store_wf(final(self)@),
            r == (name_ok(name@) && find_name(old(self)@.profiles, name@) is None),
            r ==> final(self)@ == (StoreV {
                dir: old(self)@.dir,
                profiles: add_spec(old(self)@.profiles, name@, content@),
                active: old(self)@.active,
            }),
            !r ==> final(self)@ == old(self)@,
    {
        if !check_name(&name) {
            return false;
        }
        if find_profile(&self.profiles, &name).is_some() {
            return false;
        }
        insert_sorted(&mut self.profiles, Profile { name, content });
        true
    }

    /// Sets the observed state of the active-config path.
    pub fn set_active(&mut self, active: ActiveConfig)
        ensures
            final(self)@ == (StoreV {
                dir: old(self)@.dir,
                profiles: old(self)@.profiles,
                active: active@,
            }),
    {
        self.active = active;
    }

    /// Creates a new profile holding the minimal template, unless the name
    /// is invalid or already in use; the active-config path is untouched.
    pub fn create(&mut self, name: Vec<u8>) -> (r: CreateOutcome)
        requires
            store_wf(old(self)@),
        ensures
            store_wf(final(self)@),
            final(self)@ == create_spec(old(self)@, name@),
            (r is Created) <==> (name_ok(name@) && find_name(old(self)@.profiles, name@) is None),
            (r is AlreadyExists) <==> (name_ok(name@) && find_name(old(self)@.profiles, name@) is Some),
            (r is InvalidName) <==> !name_ok(name@),
            !(r is Created) ==> final(self)@ == old(self)@,
            r is Created ==> find_name(final(self)@.profiles, name@) is Some,
    {
        let ghost ps = views_of(self.profiles@);
        let ghost nm = name@;
        if !check_name(&name) {
            return CreateOutcome::InvalidName;
        }
        if find_profile(&self.profiles, &name).is_some() {
            return CreateOutcome::AlreadyExists;
        }
        let content = template_content(&name);
        insert_sorted(&mut self.profiles, Profile { name, content });
        proof {
            lemma_add_finds(ps, nm, template_of(nm));
        }
        CreateOutcome::Created
    }

    /// Repoints the active-config path at the named profile, or reports that
    /// no profile bears the name and leaves everything unchanged. After a
    /// successful switch the link's target has the profile's name as its
    /// final component and resolves to that profile.
    pub fn switch(&mut self, name: &Vec<u8>) -> (r: SwitchOutcome)
        requires
            store_wf(old(self)@),
        ensures
            store_wf(final(self)@),
            final(self)@ == switch_spec(old(self)@, name@),
            (r is Switched) <==> find_name(old(self)@.profiles, name@) is Some,
            r is NotFound ==> final(self)@ == old(self)@,
            r is Switched ==> final(self)@.active == (ActiveV::Link {
                target: join(old(self)@.dir, name@),
            }),
            r is Switched ==> last_component(join(old(self)@.dir, name@)) == name@,
            r is Switched ==> resolved(final(self)@) == find_name(old(self)@.profiles, name@),
    {
        let ghost ps = views_of(self.profiles@);
        match find_profile(&self.profiles, name) {
            Option::None => SwitchOutcome::NotFound,
            Option::Some(i) => {
                proof {
                    lemma_find_name_props(ps, name@);
                    assert(ps[i as int].name == name@);
                    assert(name_ok(name@));
                    lemma_last_component_join(old(self)@.dir, name@);
                }
                let target = join_path(&self.dir, name);
                self.active = ActiveConfig::Link { target };
                SwitchOutcome::Switched
            },
        }
    }

    /// Removes the named profile; when the active-config path represented it
    /// (resolved before deletion), the path is removed as well.
    pub fn delete(&mut self, name: &Vec<u8>) -> (r: DeleteOutcome)
        requires
            store_wf(old(self)@),
        ensures
            store_wf(final(self)@),
            final(self)@ == delete_spec(old(self)@, name@),
            (r is NotFound) <==> find_name(old(self)@.profiles, name@) is None,
            r is NotFound ==> final(self)@ == old(self)@,
            r matches DeleteOutcome::Deleted { was_active } ==> (was_active <==> resolved(
                old(self)@,
            ) == find_name(old(self)@.profiles, name@)),
            r is Deleted ==> find_name(final(self)@.profiles, name@) is None,
    {
        let ghost ps = views_of(self.profiles@);
        match find_profile(&self.profiles, name) {
            Option::None => DeleteOutcome::NotFound,
            Option::Some(i) => {
                let was_active = match self.resolve_current() {
                    Option::Some(c) => c == i,
                    Option::None => false,
                };
                proof {
                    lemma_find_name_props(ps, name@);
                    lemma_remove_wf(ps, i as int);
                }
                let _ = self.profiles.remove(i);
                proof {
                    assert(views_of(self.profiles@) =~= ps.remove(i as int)) by {
                        assert forall|j: int| 0 <= j < self.profiles@.len() implies views_of(
                            self.profiles@,
                        )[j] == ps.remove(i as int)[j] by {
                            assert(self.profiles@[j] == if j < i as int {
                                old(self).profiles@[j]
                            } else {
                                old(self).profiles@[j + 1]
                            });
                        }
                    }
                }
                proof {
                    let rest = ps.remove(i as int);
                    assert forall|j: int| 0 <= j < rest.len() implies (#[trigger] rest[j]).name
                        != name@ by {
                        let j0 = if j < i as int {
                            j
                        } else {
                            j + 1
                        };
                        assert(rest[j] == ps[j0]);
                        lemma_names_unique(ps, j0, i as int);
                    }
                    lemma_find_name_props(rest, name@);
                }
                if was_active {
                    self.active = ActiveConfig::Absent;
                }
                DeleteOutcome::Deleted { was_active }
            },
        }
    }

    /// Renames a profile, keeping its content; an active-config symlink
    /// whose target is exactly the old profile's path is repointed at the
    /// new path. A rename to the same name is a no-op, to a used name a
    /// conflict; neither changes anything.
    pub fn rename(&mut self, old_name: &Vec<u8>, new_name: &Vec<u8>) -> (r: RenameOutcome)
        requires
            store_wf(old(self)@),
        ensures
            store_wf(final(self)@),
            final(self)@ == rename_spec(old(self)@, old_name@, new_name@),
            (r is InvalidName) <==> !name_ok(new_name@),
            (r is NoOp) <==> (name_ok(new_name@) && old_name@ == new_name@),
            (r is NotFound) <==> (name_ok(new_name@) && old_name@ != new_name@ && find_name(
                old(self)@.profiles,
                old_name@,
            ) is None),
            (r is Conflict) <==> (name_ok(new_name@) && old_name@ != new_name@ && find_name(
                old(self)@.profiles,
                old_name@,
            ) is Some && find_name(old(self)@.profiles, new_name@) is Some),
            !(r is Renamed) ==> final(self)@ == old(self)@,
            r matches RenameOutcome::Renamed { relinked } ==> (relinked <==> old(self)@.active
                == (ActiveV::Link { target: join(old(self)@.dir, old_name@) })),
            r is Renamed ==> find_name(final(self)@.profiles, new_name@) is Some,
            r is Renamed ==> find_name(final(self)@.profiles, old_name@) is None,
    {
        if !check_name(new_name) {
            return RenameOutcome::InvalidName;
        }
        if bytes_eq(old_name, new_name) {
            return RenameOutcome::NoOp;
        }
        let ghost ps = views_of(self.profiles@);
        let i = match find_profile(&self.profiles, old_name) {
            Option::None => {
                return RenameOutcome::NotFound;
            },
            Option::Some(i) => i,
        };
        if find_profile(&self.profiles, new_name).is_some() {
            return RenameOutcome::Conflict;
        }
        proof {
            lemma_find_name_props(ps, old_name@);
            lemma_find_name_props(ps, new_name@);
            lemma_remove_wf(ps, i as int);
        }
        let removed = self.profiles.remove(i);
        proof {
            assert(views_of(self.profiles@) =~= ps.remove(i as int)) by {
                assert forall|j: int| 0 <= j < self.profiles@.len() implies views_of(
                    self.profiles@,
                )[j] == ps.remove(i as int)[j] by {
                    assert(self.profiles@[j] == if j < i as int {
                        old(self).profiles@[j]
                    } else {
                        old(self).profiles@[j + 1]
                    });
                }
            }
            assert forall|j: int| 0 <= j < ps.remove(i as int).len() implies (#[trigger] ps.remove(
                i as int,
            )[j]).name != new_name@ by {
                assert(ps.remove(i as int)[j] == if j < i as int {
                    ps[j]
                } else {
                    ps[j + 1]
                });
            }
            lemma_find_name_props(ps.remove(i as int), new_name@);
        }
        let p2 = Profile { name: copy_bytes(new_name), content: removed.content };
        insert_sorted(&mut self.profiles, p2);
        proof {
            let ps2 = views_of(self.profiles@);
            let k = insert_pos(ps.remove(i as int), new_name@);
            assert(0 <= k <= ps.remove(i as int).len()) by {
                lemma_insert_pos_props(ps.remove(i as int), new_name@);
            }
            assert(ps2[k].name == new_name@);
            lemma_find_name_props(ps2, new_name@);
            assert forall|j: int| 0 <= j < ps2.len() implies (#[trigger] ps2[j]).name
                != old_name@ by {
                if j != k {
                    let j1 = if j < k {
                        j
                    } else {
                        j - 1
                    };
                    assert(ps2[j] == ps.remove(i as int)[j1]);
                    let j0 = if j1 < i as int {
                        j1
                    } else {
                        j1 + 1
                    };
                    assert(ps.remove(i as int)[j1] == ps[j0]);
                    lemma_names_unique(ps, j0, i as int);
                }
            }
            lemma_find_name_props(ps2, old_name@);
        }
        let old_target = join_path(&self.dir, old_name);
        let relinked = match &self.active {
            ActiveConfig::Link { target } => bytes_eq(target, &old_target),
            _ => false,
        };
        if relinked {
            let target = join_path(&self.dir, new_name);
            self.active = ActiveConfig::Link { target };
        }
        RenameOutcome::Renamed { relinked }
    }

    /// The stored profile names, in their sorted order.
    pub fn list_names(&self) -> (names: Vec<Vec<u8>>)
        ensures
            names@.len() == self@.profiles.len(),
            forall|i: int| 0 <= i < names@.len() ==> (#[trigger] names@[i])@
                == self@.profiles[i].name,
            store_wf(self@) ==> forall|i: int, j: int| 0 <= i < j < names@.len() ==> lex_lt(
                names@[i]@,
                names@[j]@,
            ),
    {
        let mut names: Vec<Vec<u8>> = Vec::new();
        let mut i: usize = 0;
        while i < self.profiles.len()
            invariant
                i <= self.profiles.len(),
                names@.len() == i,
                forall|j: int| 0 <= j < i ==> (#[trigger] names@[j])@ == views_of(
                    self.profiles@,
                )[j].name,
            decreases self.profiles.len() - i,
        {
            let n = copy_bytes(&self.profiles[i].name);
            names.push(n);
            i = i + 1;
        }
        names
    }

    /// What the default flow must do first: materialize the default file
    /// when the active-config path is absent, back the file up when it is a
    /// regular file matching no profile, and nothing otherwise.
    pub fn root_prepare(&self) -> (r: RootAction)
        ensures
            (r is CreateDefault) <==> self@.active is Absent,
            (r is BackupForeign) <==> (self@.active is File && resolved(self@) is None),
            (r is NoAction) <==> (self@.active is Link || (self@.active is File && resolved(
                self@,
            ) is Some)),
    {
        match &self.active {
            ActiveConfig::Absent => RootAction::CreateDefault,
            ActiveConfig::Link { target: _ } => RootAction::NoAction,
            ActiveConfig::File { content } => {
                let d = hash_bytes(content);
                match find_profile_by_digest(&self.profiles, &d) {
                    Option::Some(_) => RootAction::NoAction,
                    Option::None => RootAction::BackupForeign,
                }
            },
        }
    }
}

} // verus!

//! Laws that relate the operations: resolution is deterministic, a created
//! and switched-to profile resolves back to its name and disappears cleanly
//! on deletion, renaming repoints the active link, and content-fingerprint
//! fallback matches the first profile in sorted order.

use vstd::prelude::*;
use crate::fingerprint::md5_of;
use crate::model::{
    find_digest, find_name, lemma_find_digest_props, lemma_find_name_props, resolved, store_wf,
    ActiveV, StoreV,
};
use crate::ops::{
    add_spec, create_spec, delete_spec, insert_pos, lemma_add_finds, lemma_insert_pos_props,
    lemma_names_unique, lemma_remove_wf, rename_spec, switch_spec, template_of,
};
use crate::paths::{join, lemma_last_component_join, name_ok};

verus! {

/// Resolution is a pure function of the store: two resolutions with no
/// mutation in between yield the same result.
pub proof fn lemma_resolve_deterministic(s: StoreV, r1: Option<int>, r2: Option<int>)
    requires
        r1 == resolved(s),
        r2 == resolved(s),
    ensures
        r1 == r2,
{
}

/// Round trip: creating a profile and switching to it makes it the resolved
/// current profile; deleting it while active removes the profile and the
/// active link, after which nothing resolves.
pub proof fn lemma_round_trip(s: StoreV, name: Seq<u8>)
    requires
        store_wf(s),
        name_ok(name),
        find_name(s.profiles, name) is None,
    ensures
        ({
            let s2 = switch_spec(create_spec(s, name), name);
            let s3 = delete_spec(s2, name);
            &&& store_wf(s2)
            &&& match resolved(s2) {
                Some(i) => s2.profiles[i].name == name,
                None => false,
            }
            &&& find_name(s3.profiles, name) is None
            &&& s3.active is Absent
            &&& resolved(s3) is None
            &&& s3.profiles =~= s.profiles
        }),
{
    let s1 = create_spec(s, name);
    lemma_add_finds(s.profiles, name, template_of(name));
    let k = insert_pos(s.profiles, name);
    lemma_find_name_props(s1.profiles, name);
    assert(0 <= k < s1.profiles.len());
    let s2 = switch_spec(s1, name);
    assert(s2.active == (ActiveV::Link { target: join(s.dir, name) }));
    lemma_last_component_join(s.dir, name);
    assert(resolved(s2) == find_name(s1.profiles, name));
    assert(resolved(s2) == Some(k));
    assert(s2.profiles[k].name == name);
    let s3 = delete_spec(s2, name);
    assert(s3.active is Absent);
    let rest = s2.profiles.remove(k);
    assert(s3.profiles == rest);
    assert forall|j: int| 0 <= j < rest.len() implies (#[trigger] rest[j]).name != name by {
        assert(rest[j] == if j < k {
            s2.profiles[j]
        } else {
            s2.profiles[j + 1]
        });
        let j0 = if j < k {
            j
        } else {
            j + 1
        };
        lemma_names_unique(s2.profiles, j0, k);
    }
    lemma_find_name_props(rest, name);
    assert(resolved(s3) is None);
    assert(rest =~= s.profiles) by {
        lemma_insert_pos_props(s.profiles, name);
        assert forall|j: int| 0 <= j < rest.len() implies rest[j] == s.profiles[j] by {
            if j < k {
                assert(rest[j] == s2.profiles[j]);
                assert(s2.profiles[j] == s.profiles[j]);
            } else {
                assert(rest[j] == s2.profiles[j + 1]);
                assert(s2.profiles[j + 1] == s.profiles[j]);
            }
        }
    }
}

/// Renaming the profile that the active link points at repoints the link,
/// and resolution afterwards yields the new name.
pub proof fn lemma_rename_updates_active(s: StoreV, old_name: Seq<u8>, new_name: Seq<u8>)
    requires
        store_wf(s),
        s.active == (ActiveV::Link { target: join(s.dir, old_name) }),
        find_name(s.profiles, old_name) is Some,
        name_ok(new_name),
        old_name != new_name,
        find_name(s.profiles, new_name) is None,
    ensures
        ({
            let s2 = rename_spec(s, old_name, new_name);
            &&& store_wf(s2)
            &&& s2.active == (ActiveV::Link { target: join(s.dir, new_name) })
            &&& match resolved(s2) {
                Some(j) => s2.profiles[j].name == new_name,
                None => false,
            }
        }),
{
    let s2 = rename_spec(s, old_name, new_name);
    lemma_find_name_props(s.profiles, old_name);
    let i = match find_name(s.profiles, old_name) {
        Some(i) => i,
        None => 0,
    };
    let rest = s.profiles.remove(i);
    lemma_remove_wf(s.profiles, i);
    lemma_find_name_props(s.profiles, new_name);
    assert forall|j: int| 0 <= j < rest.len() implies (#[trigger] rest[j]).name != new_name by {
        assert(rest[j] == if j < i {
            s.profiles[j]
        } else {
            s.profiles[j + 1]
        });
    }
    lemma_find_name_props(rest, new_name);
    lemma_add_finds(rest, new_name, s.profiles[i].content);
    assert(s2.profiles == add_spec(rest, new_name, s.profiles[i].content));
    lemma_last_component_join(s.dir, new_name);
    let k = insert_pos(rest, new_name);
    assert(find_name(s2.profiles, new_name) == Some(k));
    assert(resolved(s2) == Some(k));
    lemma_find_name_props(s2.profiles, new_name);
}

/// Fingerprint fallback: when the active path is a regular file whose
/// content equals some profile's content, resolution yields a profile no
/// later in sorted order whose fingerprint matches.
pub proof fn lemma_fingerprint_fallback(s: StoreV, c: Seq<u8>, i: int)
    requires
        s.active == (ActiveV::File { content: c }),
        0 <= i < s.profiles.len(),
        s.profiles[i].content == c,
    ensures
        match resolved(s) {
            Some(j) => 0 <= j <= i && md5_of(s.profiles[j].content) == md5_of(c),
            None => false,
        },
{
    lemma_find_digest_props(s.profiles, md5_of(c));
    match find_digest(s.profiles, md5_of(c)) {
        Some(j) => {
            if j > i {
                assert(md5_of(s.profiles[i].content) != md5_of(c));
            }
        },
        None => {
            assert(md5_of(s.profiles[i].content) != md5_of(c));
        },
    }
}

/// Fingerprint fallback, negative direction: when the file's fingerprint
/// matches no profile's, nothing resolves.
pub proof fn lemma_fingerprint_no_match(s: StoreV, c: Seq<u8>)
    requires
        s.active == (ActiveV::File { content: c }),
        forall|j: int| 0 <= j < s.profiles.len() ==> md5_of(
            (#[trigger] s.profiles[j]).content,
        ) != md5_of(c),
    ensures
        resolved(s) is None,
{
    lemma_find_digest_props(s.profiles, md5_of(c));
    if find_digest(s.profiles, md5_of(c)) is Some {
        let j = match find_digest(s.profiles, md5_of(c)) {
            Some(j) => j,
            None => 0,
        };
        assert(md5_of(s.profiles[j].content) != md5_of(c));
    }
}

/// Tie-break: with two profiles of identical content and the active path a
/// plain copy of it, resolution picks a profile no later than the first of
/// the two — never the later duplicate.
pub proof fn lemma_tie_break(s: StoreV, c: Seq<u8>, i: int, j: int)
    requires
        store_wf(s),
        s.active == (ActiveV::File { content: c }),
        0 <= i < j < s.profiles.len(),
        s.profiles[i].content == c,
        s.profiles[j].content == c,
    ensures
        match resolved(s) {
            Some(k) => 0 <= k <= i,
            None => false,
        },
        resolved(s) != Some(j),
{
    lemma_fingerprint_fallback(s, c, i);
}

} // verus!

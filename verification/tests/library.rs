use git_switcher::model::{ActiveConfig, Store};
use git_switcher::ops::{
    default_content, template_content, CreateOutcome, DeleteOutcome, RenameOutcome, RootAction,
    SwitchOutcome,
};
use git_switcher::editor::split_command;
use git_switcher::fingerprint::hash_bytes;
use git_switcher::order::{bytes_eq, bytes_lt};
use git_switcher::paths::{join_path, last_component_of};

fn b(s: &str) -> Vec<u8> {
    s.as_bytes().to_vec()
}

fn store_with(dir: &str, profiles: &[(&str, &str)]) -> Store {
    let mut s = Store::new(b(dir));
    for (name, content) in profiles {
        assert!(s.add_profile(b(name), b(content)));
    }
    s
}

#[test]
fn list_enumerates_sorted() {
    let s = store_with("/home/u/.config/gitconfigs", &[("work", "w"), ("alpha", "a"), ("mid", "m")]);
    let names = s.list_names();
    let got: Vec<Vec<u8>> = names;
    assert_eq!(got, vec![b("alpha"), b("mid"), b("work")]);
}

#[test]
fn list_skips_hidden_and_duplicates() {
    let mut s = Store::new(b("/d"));
    assert!(s.add_profile(b("one"), b("x")));
    assert!(!s.add_profile(b(".hidden"), b("x")));
    assert!(!s.add_profile(b(""), b("x")));
    assert!(!s.add_profile(b("one"), b("y")));
    assert!(!s.add_profile(b("a/b"), b("x")));
    assert_eq!(s.list_names(), vec![b("one")]);
}

#[test]
fn switch_points_link_at_profile() {
    let mut s = store_with("/d", &[("a", "1"), ("p", "2")]);
    let r = s.switch(&b("p"));
    assert_eq!(r, SwitchOutcome::Switched);
    match &s.active {
        ActiveConfig::Link { target } => {
            assert_eq!(target, &b("/d/p"));
            assert_eq!(last_component_of(target), b("p"));
        },
        _ => panic!("expected a link"),
    }
    assert_eq!(s.resolve_current(), Some(1));
}

#[test]
fn switch_missing_changes_nothing() {
    let mut s = store_with("/d", &[("a", "1")]);
    s.set_active(ActiveConfig::File { content: b("foreign") });
    let r = s.switch(&b("nope"));
    assert_eq!(r, SwitchOutcome::NotFound);
    match &s.active {
        ActiveConfig::File { content } => assert_eq!(content, &b("foreign")),
        _ => panic!("active changed"),
    }
}

#[test]
fn resolve_is_idempotent() {
    let mut s = store_with("/d", &[("a", "1"), ("c", "3")]);
    s.set_active(ActiveConfig::File { content: b("3") });
    let r1 = s.resolve_current();
    let r2 = s.resolve_current();
    assert_eq!(r1, r2);
    assert_eq!(r1, Some(1));
}

#[test]
fn create_switch_delete_round_trip() {
    let mut s = store_with("/d", &[("other", "o")]);
    assert_eq!(s.create(b("x")), CreateOutcome::Created);
    assert_eq!(s.switch(&b("x")), SwitchOutcome::Switched);
    let cur = s.resolve_current().expect("a profile is current");
    assert_eq!(s.list_names()[cur], b("x"));
    assert_eq!(s.delete(&b("x")), DeleteOutcome::Deleted { was_active: true });
    assert!(matches!(s.active, ActiveConfig::Absent));
    assert_eq!(s.list_names(), vec![b("other")]);
    assert_eq!(s.resolve_current(), None);
}

#[test]
fn delete_inactive_keeps_link() {
    let mut s = store_with("/d", &[("a", "1"), ("z", "9")]);
    assert_eq!(s.switch(&b("z")), SwitchOutcome::Switched);
    assert_eq!(s.delete(&b("a")), DeleteOutcome::Deleted { was_active: false });
    match &s.active {
        ActiveConfig::Link { target } => assert_eq!(target, &b("/d/z")),
        _ => panic!("link lost"),
    }
    assert_eq!(s.delete(&b("a")), DeleteOutcome::NotFound);
}

#[test]
fn rename_updates_active_link() {
    let mut s = store_with("/d", &[("a", "same")]);
    assert_eq!(s.switch(&b("a")), SwitchOutcome::Switched);
    let r = s.rename(&b("a"), &b("b"));
    assert_eq!(r, RenameOutcome::Renamed { relinked: true });
    match &s.active {
        ActiveConfig::Link { target } => assert_eq!(target, &b("/d/b")),
        _ => panic!("expected a link"),
    }
    let cur = s.resolve_current().expect("current after rename");
    assert_eq!(s.list_names()[cur], b("b"));
}

#[test]
fn rename_keeps_content_and_order() {
    let mut s = store_with("/d", &[("b", "bb"), ("d", "dd")]);
    assert_eq!(s.rename(&b("b"), &b("z")), RenameOutcome::Renamed { relinked: false });
    assert_eq!(s.list_names(), vec![b("d"), b("z")]);
    s.set_active(ActiveConfig::File { content: b("bb") });
    let cur = s.resolve_current().expect("content still matches");
    assert_eq!(s.list_names()[cur], b("z"));
}

#[test]
fn rename_rejections() {
    let mut s = store_with("/d", &[("a", "1"), ("b", "2")]);
    assert_eq!(s.rename(&b("a"), &b("a")), RenameOutcome::NoOp);
    assert_eq!(s.rename(&b("a"), &b("b")), RenameOutcome::Conflict);
    assert_eq!(s.rename(&b("ghost"), &b("c")), RenameOutcome::NotFound);
    assert_eq!(s.rename(&b("a"), &b("")), RenameOutcome::InvalidName);
    assert_eq!(s.rename(&b("a"), &b(".h")), RenameOutcome::InvalidName);
    assert_eq!(s.list_names(), vec![b("a"), b("b")]);
}

#[test]
fn fingerprint_fallback_matches_content() {
    let mut s = store_with("/d", &[("c", "the content"), ("x", "other")]);
    s.set_active(ActiveConfig::File { content: b("the content") });
    let cur = s.resolve_current().expect("fallback match");
    assert_eq!(s.list_names()[cur], b("c"));
}

#[test]
fn fingerprint_fallback_no_match() {
    let mut s = store_with("/d", &[("c", "stored")]);
    s.set_active(ActiveConfig::File { content: b("unrelated") });
    assert_eq!(s.resolve_current(), None);
}

#[test]
fn tie_break_picks_first_sorted() {
    for _ in 0..3 {
        let mut s = store_with("/d", &[("b", "same"), ("a", "same")]);
        s.set_active(ActiveConfig::File { content: b("same") });
        let cur = s.resolve_current().expect("duplicate content matches");
        assert_eq!(s.list_names()[cur], b("a"));
    }
}

#[test]
fn dangling_symlink_never_hashes() {
    let mut s = store_with("/d", &[("a", "same")]);
    s.set_active(ActiveConfig::Link { target: b("/elsewhere/gone") });
    assert_eq!(s.resolve_current(), None);
    s.set_active(ActiveConfig::Link { target: b("/elsewhere/a") });
    let cur = s.resolve_current().expect("final component names a profile");
    assert_eq!(s.list_names()[cur], b("a"));
}

#[test]
fn create_rejections() {
    let mut s = store_with("/d", &[("a", "1")]);
    assert_eq!(s.create(b("a")), CreateOutcome::AlreadyExists);
    assert_eq!(s.create(b("")), CreateOutcome::InvalidName);
    assert_eq!(s.create(b(".hidden")), CreateOutcome::InvalidName);
    assert_eq!(s.create(b("x/y")), CreateOutcome::InvalidName);
    assert_eq!(s.list_names(), vec![b("a")]);
}

#[test]
fn template_has_expected_bytes() {
    let t = template_content(&b("alice"));
    assert_eq!(t, b("[user]\n\tname = alice\n\temail = your_email@example.com"));
    let d = default_content();
    assert_eq!(d, b("[user]\n\tname = username"));
}

#[test]
fn created_profile_holds_template() {
    let mut s = Store::new(b("/d"));
    assert_eq!(s.create(b("p")), CreateOutcome::Created);
    s.set_active(ActiveConfig::File {
        content: b("[user]\n\tname = p\n\temail = your_email@example.com"),
    });
    assert_eq!(s.resolve_current(), Some(0));
}

#[test]
fn root_prepare_decisions() {
    let mut s = store_with("/d", &[("a", "mine")]);
    s.set_active(ActiveConfig::Absent);
    assert_eq!(s.root_prepare(), RootAction::CreateDefault);
    s.set_active(ActiveConfig::File { content: b("foreign stuff") });
    assert_eq!(s.root_prepare(), RootAction::BackupForeign);
    s.set_active(ActiveConfig::File { content: b("mine") });
    assert_eq!(s.root_prepare(), RootAction::NoAction);
    s.set_active(ActiveConfig::Link { target: b("/d/a") });
    assert_eq!(s.root_prepare(), RootAction::NoAction);
}

#[test]
fn split_command_tokens() {
    assert_eq!(split_command(&b("vim")), vec![b("vim")]);
    assert_eq!(split_command(&b("code --wait")), vec![b("code"), b("--wait")]);
    assert_eq!(split_command(&b("  emacs \t-nw  ")), vec![b("emacs"), b("-nw")]);
    assert_eq!(split_command(&b("")), Vec::<Vec<u8>>::new());
    assert_eq!(split_command(&b(" \t ")), Vec::<Vec<u8>>::new());
}

#[test]
fn digest_is_md5_of_content() {
    let d = hash_bytes(&b("abcdefghijklmnopqrstuvwxyz"));
    let expected: Vec<u8> = vec![
        0xc3, 0xfc, 0xd3, 0xd7, 0x61, 0x92, 0xe4, 0x00, 0x7d, 0xfb, 0x49, 0x6c, 0xca, 0x67, 0xe1,
        0x3b,
    ];
    assert_eq!(d, expected);
    assert_eq!(hash_bytes(&b("x")).len(), 16);
    assert_eq!(hash_bytes(&b("x")), hash_bytes(&b("x")));
    assert_ne!(hash_bytes(&b("x")), hash_bytes(&b("y")));
}

#[test]
fn empty_store_behaviour() {
    let mut s = Store::new(b("/d"));
    assert!(s.list_names().is_empty());
    assert_eq!(s.resolve_current(), None);
    assert_eq!(s.switch(&b("a")), SwitchOutcome::NotFound);
    assert_eq!(s.delete(&b("a")), DeleteOutcome::NotFound);
    assert_eq!(s.rename(&b("a"), &b("c")), RenameOutcome::NotFound);
    assert_eq!(s.root_prepare(), RootAction::CreateDefault);
    s.set_active(ActiveConfig::File { content: b("anything") });
    assert_eq!(s.root_prepare(), RootAction::BackupForeign);
}

#[test]
fn byte_order_and_paths() {
    assert!(bytes_lt(&b("a"), &b("b")));
    assert!(bytes_lt(&b("a"), &b("ab")));
    assert!(!bytes_lt(&b("b"), &b("ab")));
    assert!(!bytes_lt(&b("a"), &b("a")));
    assert!(bytes_eq(&b("ab"), &b("ab")));
    assert!(!bytes_eq(&b("ab"), &b("ba")));
    assert_eq!(join_path(&b("/x/y"), &b("n")), b("/x/y/n"));
    assert_eq!(last_component_of(&b("/x/y/n")), b("n"));
    assert_eq!(last_component_of(&b("plain")), b("plain"));
    assert_eq!(last_component_of(&b("/x/")), b(""));
}

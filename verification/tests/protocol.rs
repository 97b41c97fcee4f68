//! Scopes, flags, versions and the rules of honoring.

use zkv::lex::{bytes_before, str_before};
use zkv::ordmap::OrdMap;
use zkv::protocol::{
    bump_hw, decide, seq_in_window, AuthRegistry, Authority, BlockSet, Op, Scope, Verdict, VersionState, WriteStatus,
    MAX_DB_VERSION,
};
use zkv::text::{contains_text, decimal_string, parse_u32, split_text, trim, words_of};

#[test]
fn scopes_are_read_and_printed() {
    let s = Scope::parse("UPDATE,CREATE").unwrap();
    assert_eq!(s, Scope { create: true, update: true, destroy: false });
    assert_eq!(s.to_wire(), "CREATE,UPDATE");
    assert_eq!(Scope::parse("DESTROY").unwrap().to_wire(), "DESTROY");
    assert_eq!(Scope::parse(""), None);
    assert_eq!(Scope::parse("CREATE,"), None);
    assert_eq!(Scope::parse("create"), None);
    for c in [false, true] {
        for u in [false, true] {
            for d in [false, true] {
                let s = Scope { create: c, update: u, destroy: d };
                if c || u || d {
                    assert_eq!(Scope::parse(&s.to_wire()), Some(s));
                }
            }
        }
    }
}

#[test]
fn block_flags_are_read_and_printed() {
    assert_eq!(BlockSet::parse("warn"), Some(BlockSet::default()));
    assert_eq!(BlockSet::parse("blockall"), Some(BlockSet::all()));
    assert_eq!(BlockSet::parse("blocksync,blockread").unwrap().to_wire(), "blocksync,blockread");
    assert_eq!(BlockSet::parse("blockeverything"), None);
    for sync in [false, true] {
        for read in [false, true] {
            for write in [false, true] {
                let b = BlockSet { sync, read, write };
                assert_eq!(BlockSet::parse(&b.to_wire()), Some(b));
            }
        }
    }
}

#[test]
fn versions_go_up_one_step_at_a_time() {
    let mut v = VersionState::default();
    assert!(!v.apply_version("2", Some("warn")));
    assert!(!v.apply_version("1", None));
    assert!(!v.apply_version("one", Some("warn")));
    assert!(!v.apply_version("1", Some("nonsense")));
    assert_eq!(v, VersionState::default());
    assert!(v.apply_version("1", Some("blockwrite,blocksync")));
    assert!(v.version == 1 && v.blocks_write() && v.blocks_sync() && !v.blocks_read());
    assert!(!v.apply_version("1", Some("warn")), "a replayed request has no effect");
    let current = VersionState { version: MAX_DB_VERSION, blocks: BlockSet::all() };
    assert!(!current.blocks_write());
}

#[test]
fn registry_rules() {
    let mut a = AuthRegistry::default();
    a.insert_owner("o1".to_owned());
    a.apply_management(Op::WriterSet, Some("w"), Some("CREATE"));
    assert!(a.may_write("w", Op::Put, false));
    assert!(!a.may_write("w", Op::SetL, true));
    assert!(!a.may_write("w", Op::Del, true));
    assert!(a.may_write("o1", Op::Del, true));
    assert!(!a.may_write("nobody", Op::Put, false));
    // An owner is no writer, and becomes none.
    a.apply_management(Op::OwnerSet, Some("w"), None);
    assert_eq!(a.authority_of("w"), Some(Authority::Owner));
    assert_eq!(a.writer_count(), 0);
    a.apply_management(Op::WriterSet, Some("w"), Some("CREATE"));
    assert_eq!(a.writer_count(), 0);
    a.apply_management(Op::OwnerDel, Some("w"), None);
    a.apply_management(Op::OwnerDel, Some("o1"), None);
    assert!(a.is_owner("o1"), "the last owner stays");
    a.apply_management(Op::WriterSet, Some("w"), Some("nonsense"));
    assert_eq!(a.writer_count(), 0);
    a.apply_management(Op::WriterSet, Some("w"), Some("DESTROY"));
    a.apply_management(Op::WriterDel, Some("w"), None);
    assert_eq!(a.authority_of("w"), None);
    assert_eq!(a.owner_count(), 1);
}

#[test]
fn honoring_rules() {
    let mut a = AuthRegistry::default();
    let c = WriteStatus::Confirmed;
    assert_eq!(decide(Op::Init, "r", "r", c, false, &a, false, false), Verdict::Applied);
    assert_eq!(decide(Op::Init, "x", "r", c, false, &a, false, false), Verdict::Dropped);
    assert_eq!(decide(Op::Init, "r", "r", c, true, &a, false, false), Verdict::Dropped);
    a.insert_owner("r".to_owned());
    assert_eq!(decide(Op::Put, "r", "r", c, false, &a, false, false), Verdict::Dropped);
    assert_eq!(decide(Op::Put, "r", "r", c, true, &a, false, false), Verdict::Applied);
    assert_eq!(decide(Op::Put, "r", "r", c, true, &a, true, false), Verdict::Dropped);
    let early = WriteStatus::Confirming { done: 0, required: 3 };
    assert_eq!(decide(Op::Put, "r", "r", early, true, &a, false, false), Verdict::Pending);
    assert_eq!(decide(Op::Finalize, "x", "r", c, true, &a, false, false), Verdict::Dropped);
    assert_eq!(decide(Op::Version, "r", "r", c, true, &a, false, false), Verdict::Applied);
}

#[test]
fn used_sequences_are_refused() {
    let mut kv: OrdMap<u64> = OrdMap::new();
    let targets: OrdMap<u64> = OrdMap::new();
    assert!(seq_in_window(Op::Put, "k", 0, &kv, &targets, 4));
    bump_hw(&mut kv, "k".to_owned(), 0);
    assert!(!seq_in_window(Op::Put, "k", 0, &kv, &targets, 4));
    assert!(seq_in_window(Op::Del, "k", 5, &kv, &targets, 4));
    assert!(!seq_in_window(Op::Del, "k", 6, &kv, &targets, 4));
    assert!(seq_in_window(Op::OwnerSet, "k", 0, &kv, &targets, 4), "targets count on their own");
    assert!(seq_in_window(Op::Version, "k", 99, &kv, &targets, 4));
    bump_hw(&mut kv, "k".to_owned(), 9);
    bump_hw(&mut kv, "k".to_owned(), 3);
    assert_eq!(kv.get("k").copied(), Some(10), "a mark never falls");
}

#[test]
fn maps_keep_their_keys_in_order() {
    let mut m: OrdMap<u64> = OrdMap::new();
    for k in ["b", "a", "é", "c", "aa"] {
        m.insert(k.to_owned(), k.len() as u64);
    }
    m.insert("b".to_owned(), 7);
    m.remove("c");
    m.remove("zz");
    let keys: Vec<String> = (0..m.len()).map(|i| m.key_at(i).clone()).collect();
    assert_eq!(keys, vec!["a", "aa", "b", "é"]);
    assert_eq!(m.get("b").copied(), Some(7));
    assert_eq!(m.get("c"), None);
    assert!(str_before("a", "aa") && !str_before("aa", "a") && str_before("z", "é"));
    assert!(bytes_before(&[1, 2], &[1, 3]) && !bytes_before(&[2], &[1, 9]));
}

#[test]
fn white_space_is_what_unicode_says() {
    let listed = |c: char| {
        matches!(c, '\u{9}'..='\u{d}' | ' ' | '\u{85}' | '\u{a0}' | '\u{1680}' | '\u{2000}'..='\u{200a}')
            || matches!(c, '\u{2028}' | '\u{2029}' | '\u{202f}' | '\u{205f}' | '\u{3000}')
    };
    for c in '\0'..=char::MAX {
        assert_eq!(trim(c.encode_utf8(&mut [0; 4])).is_empty(), listed(c), "{c:?}");
    }
}

#[test]
fn small_text_operations() {
    assert_eq!(decimal_string(0), "0");
    assert_eq!(decimal_string(u64::MAX), "18446744073709551615");
    assert_eq!(parse_u32("4294967295"), Some(u32::MAX));
    assert_eq!(parse_u32("4294967296"), None);
    assert_eq!(parse_u32("+7"), Some(7));
    assert_eq!(parse_u32(""), None);
    assert_eq!(parse_u32("-1"), None);
    assert_eq!(split_text("a,,b", ','), vec!["a", "", "b"]);
    assert_eq!(split_text("", ','), vec![""]);
    assert_eq!(trim(" \t é x \u{3000}"), "é x");
    assert_eq!(words_of("  one\ttwo  three "), vec!["one", "two", "three"]);
    assert!(contains_text("hello", "ell") && !contains_text("hello", "elo") && contains_text("", ""));
}

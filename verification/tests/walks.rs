use adpa::error::CoreError;
use adpa::fs::acl::{
    parse_dacl, read_file_system_object, read_file_system_object_cached, sd_cache_holds, RawAce,
    RawObject, RawSecurity, SdCache, ERROR_ACCESS_DENIED, ERROR_PATH_NOT_FOUND,
};
use adpa::fs::path::{strip_long_path_prefix, to_windows_api_path};
use adpa::fs::scanner::read_fso;
use adpa::fs::walker::{
    DescendDecision, DirectoryEntry, LoopDetector, Pending, TreeWalk, WalkConfig, WalkEvent,
    WalkItem,
};
use adpa::model::access::{FileSystemObject, AceKind};
use adpa::model::sid::NormalizedPath;

fn object(path: &str, is_directory: bool, is_reparse_point: bool) -> FileSystemObject {
    FileSystemObject {
        path: NormalizedPath(path.into()),
        is_directory,
        owner_sid: None,
        dacl: vec![],
        inheritance_disabled: false,
        is_reparse_point,
        unsupported_aces: vec![],
        null_dacl: false,
        sd_hash: None,
    }
}

fn walk(max_depth: Option<u32>) -> TreeWalk {
    let mut w = TreeWalk::start("C:\\r", &WalkConfig { max_depth }, false);
    assert!(matches!(w.pending(), Pending::Read { path, name: None } if path == "C:\\r"));
    let items = w.step(WalkEvent::Read(Ok(object("C:\\r", true, false))), false);
    assert_eq!(items.len(), 1);
    assert!(matches!(
        w.pending(),
        Pending::Resolve { is_directory: true, is_reparse_point: false, .. }
    ));
    w
}

fn opened() -> TreeWalk {
    let mut w = walk(None);
    assert!(w.step(WalkEvent::Resolved(Some("\\\\?\\C:\\R".into())), false).is_empty());
    assert!(matches!(w.pending(), Pending::Open { canonical, .. } if canonical == "\\\\?\\c:\\r"));
    assert!(w.step(WalkEvent::Opened(Ok(())), false).is_empty());
    w
}

fn entry(path: &str, name: &str) -> WalkEvent {
    WalkEvent::Entry(Some(Ok(DirectoryEntry {
        path: path.into(),
        name: Some(name.into()),
    })))
}

fn only_error(items: Vec<WalkItem>) -> (String, String) {
    assert_eq!(items.len(), 1);
    match items.into_iter().next().unwrap() {
        WalkItem::Error(e) => (e.path, e.error.message()),
        WalkItem::Object(_) => panic!("expected an error"),
    }
}

#[test]
fn every_failure_is_reported_and_the_walk_goes_on() {
    let mut w = opened();
    let (path, message) = only_error(w.step(WalkEvent::Entry(Some(Err("bad entry".into()))), false));
    assert_eq!(path, "C:\\r");
    assert_eq!(message, "Access denied: Directory entry error: bad entry");
    assert!(matches!(w.pending(), Pending::Next));

    w.step(entry("C:\\r\\f", "f"), false);
    let (path, message) =
        only_error(w.step(WalkEvent::Read(Err(CoreError::AccessDenied("no".into()))), false));
    assert_eq!((path.as_str(), message.as_str()), ("C:\\r\\f", "Access denied: no"));
    assert!(matches!(w.pending(), Pending::Next));

    w.step(entry("C:\\r\\d", "D"), false);
    w.step(WalkEvent::Read(Ok(object("C:\\r\\d", true, false))), false);
    assert!(matches!(w.pending(), Pending::Open { canonical, .. } if canonical == "\\\\?\\c:\\r\\d"));
    let (path, message) = only_error(w.step(WalkEvent::Opened(Err("locked".into())), false));
    assert_eq!(path, "C:\\r\\d");
    assert_eq!(message, "Access denied: Cannot enumerate directory: locked");

    w.step(entry("C:\\r\\l", "l"), false);
    w.step(WalkEvent::Read(Ok(object("C:\\r\\l", false, true))), false);
    let (path, message) = only_error(w.step(WalkEvent::Resolved(None), false));
    assert_eq!(path, "C:\\r\\l");
    assert!(message.contains("could not be resolved"));

    assert!(w.step(WalkEvent::Entry(None), false).is_empty());
    assert!(matches!(w.pending(), Pending::Done));
}

#[test]
fn a_cancelled_walk_ends_at_the_next_entry() {
    let mut w = opened();
    assert!(w.step(entry("C:\\r\\a", "a"), true).is_empty());
    assert!(matches!(w.pending(), Pending::Done));
}

#[test]
fn a_directory_at_the_limit_is_not_opened() {
    let mut w = walk(Some(0));
    assert!(w.step(WalkEvent::Resolved(None), false).is_empty());
    assert!(matches!(w.pending(), Pending::Done));
}

#[test]
fn a_directory_is_opened_once_whatever_leads_to_it() {
    let mut w = opened();
    w.step(entry("C:\\r\\a", "a"), false);
    w.step(WalkEvent::Read(Ok(object("C:\\r\\a", true, true))), false);
    w.step(WalkEvent::Resolved(Some("\\\\?\\D:\\x".into())), false);
    w.step(WalkEvent::Opened(Ok(())), false);
    w.step(WalkEvent::Entry(None), false);
    w.step(entry("C:\\r\\b", "b"), false);
    w.step(WalkEvent::Read(Ok(object("C:\\r\\b", true, true))), false);
    let (path, message) = only_error(w.step(WalkEvent::Resolved(Some("\\\\?\\d:\\X".into())), false));
    assert_eq!(path, "C:\\r\\b");
    assert!(message.contains("under 'C:\\r\\a'"), "{message}");
    w.step(entry("C:\\r\\c", "c"), false);
    w.step(WalkEvent::Read(Ok(object("C:\\r\\c", true, true))), false);
    let (_, message) = only_error(w.step(WalkEvent::Resolved(Some("\\\\?\\C:\\r".into())), false));
    assert!(message.starts_with("Reparse cycle: "), "{message}");
}

#[test]
fn a_directory_that_could_not_be_opened_was_not_enumerated() {
    let mut w = opened();
    w.step(entry("C:\\r\\a", "a"), false);
    w.step(WalkEvent::Read(Ok(object("C:\\r\\a", true, true))), false);
    w.step(WalkEvent::Resolved(Some("\\\\?\\D:\\x".into())), false);
    only_error(w.step(WalkEvent::Opened(Err("locked".into())), false));
    w.step(entry("C:\\r\\b", "b"), false);
    w.step(WalkEvent::Read(Ok(object("C:\\r\\b", true, true))), false);
    assert!(w.step(WalkEvent::Resolved(Some("\\\\?\\D:\\x".into())), false).is_empty());
    assert!(matches!(w.pending(), Pending::Open { path, .. } if path == "C:\\r\\b"));
}

#[test]
fn a_decision_alone_records_nothing() {
    let mut d = LoopDetector::new();
    assert_eq!(d.decide("c:\\a"), DescendDecision::Fresh);
    assert_eq!(d.decide("c:\\a"), DescendDecision::Fresh);
    assert_eq!(d.enter("c:\\a", "C:\\a"), DescendDecision::Fresh);
    assert_eq!(d.decide("c:\\a"), DescendDecision::Cycle);
    d.withdraw("c:\\a");
    assert_eq!(d.decide("c:\\a"), DescendDecision::Fresh);
}

fn ace(ace_type: u8, ace_flags: u8, mask: u32, sid: Option<&str>) -> RawAce {
    RawAce {
        ace_type,
        ace_flags,
        mask,
        sid: sid.map(String::from),
    }
}

#[test]
fn no_entry_of_a_dacl_is_dropped() {
    let aces = vec![
        ace(0, 0x10, 1, Some("S-1-1-0")),
        ace(1, 0x0b, 2, Some("S-1-5-7")),
        ace(5, 0, 4, Some("S-1-5-18")),
        ace(0, 0, 8, None),
    ];
    let (entries, unsupported) = parse_dacl(&aces);
    assert_eq!(entries.len() + unsupported.len(), aces.len());
    assert!(entries[0].inherited && entries[0].kind == AceKind::Allow);
    assert_eq!(entries[1].kind, AceKind::Deny);
    assert_eq!((entries[1].inheritance_flags, entries[1].propagation_flags), (3, 8));
    assert_eq!(unsupported[0].ace_type, 5);
    assert_eq!(unsupported[1].mask, 8);
}

fn security(bytes: &[u8], dacl: Option<Vec<RawAce>>, control: Option<u16>) -> RawSecurity {
    RawSecurity {
        bytes: bytes.to_vec(),
        owner: None,
        dacl,
        control,
    }
}

#[test]
fn a_missing_dacl_is_not_an_empty_one() {
    let null = read_fso("C:\\a", RawObject::Read(0, security(&[1], None, None))).unwrap();
    assert!(null.null_dacl && null.dacl.is_empty() && !null.inheritance_disabled);
    let empty =
        read_fso("\\\\?\\C:\\a", RawObject::Read(0x10, security(&[1], Some(vec![]), Some(0x1004)))).unwrap();
    assert!(!empty.null_dacl && empty.dacl.is_empty() && empty.inheritance_disabled);
    assert_eq!(empty.path.0, "C:\\a");
}

#[test]
fn the_cache_does_not_change_what_is_read() {
    let mut cache = SdCache::new();
    let raw = || {
        RawObject::Read(
            0x410,
            security(&[1, 2, 3], Some(vec![ace(0, 0, 1, Some("S-1-1-0"))]), Some(0)),
        )
    };
    let plain = read_file_system_object("C:\\a", raw()).unwrap();
    let first = read_file_system_object_cached("C:\\a", raw(), &mut cache).unwrap();
    let second = read_file_system_object_cached("C:\\a", raw(), &mut cache).unwrap();
    for o in [&first, &second] {
        assert_eq!(o.sd_hash, plain.sd_hash);
        assert_eq!(o.dacl.len(), plain.dacl.len());
        assert!(o.is_directory && o.is_reparse_point);
    }
    assert!(sd_cache_holds(&cache, &vec![1, 2, 3]));
    assert!(!sd_cache_holds(&cache, &vec![1, 2, 4]));
    assert_eq!(plain.sd_hash, Some(adpa::fs::acl::fnv1a_64(&[1, 2, 3])));
    assert_eq!(adpa::fs::acl::fnv1a_64(b"a"), 0xaf63_dc4c_8601_ec8c);
}

#[test]
fn a_path_that_cannot_be_read_says_why() {
    assert!(matches!(
        read_fso("C:\\x", RawObject::NoAttributes(ERROR_PATH_NOT_FOUND)),
        Err(CoreError::PathNotFound(_))
    ));
    assert!(matches!(
        read_fso("C:\\x", RawObject::NoAttributes(ERROR_ACCESS_DENIED)),
        Err(CoreError::AccessDenied(_))
    ));
    assert!(matches!(
        read_fso("C:\\x", RawObject::NoSecurity(0x10, ERROR_ACCESS_DENIED)),
        Err(CoreError::AccessDenied(_))
    ));
    assert!(matches!(
        read_fso("C:\\x", RawObject::NoSecurity(0x10, 1338)),
        Err(CoreError::InvalidSecurityDescriptor(_))
    ));
}

#[test]
fn long_paths_read_back_and_stay() {
    for (plain, long) in [
        ("C:\\a", "\\\\?\\C:\\a"),
        ("\\\\srv\\share\\x", "\\\\?\\UNC\\srv\\share\\x"),
        ("relative\\x", "relative\\x"),
        ("", ""),
    ] {
        assert_eq!(to_windows_api_path(plain), long);
        assert_eq!(to_windows_api_path(long), long);
        assert_eq!(strip_long_path_prefix(long), plain);
    }
}

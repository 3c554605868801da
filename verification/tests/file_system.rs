use std::collections::{BTreeMap, VecDeque};

use adpa::analysis::ScanRequest;
use adpa::error::CoreError;
use adpa::fs::acl::{
    fnv1a_64, parse_ace, read_file_system_object, read_file_system_object_cached, split_ace_flags,
    ParseAceOutcome, RawAce, RawObject, RawSecurity, SdCache, ERROR_FILE_NOT_FOUND,
    FILE_ATTRIBUTE_DIRECTORY, FILE_ATTRIBUTE_REPARSE_POINT,
};
use adpa::fs::cancel::CancellationToken;
use adpa::fs::path::{strip_long_path_prefix, to_windows_api_path};
use adpa::fs::scanner::NtfsScanner;
use adpa::fs::walker;
use adpa::fs::walker::{
    DescendDecision, DirectoryEntry, LoopDetector, Pending, TreeWalk, WalkConfig, WalkEvent,
    WalkItem, WalkResult,
};
use adpa::model::access::AceKind;

const TRUSTED_INSTALLER: &str =
    "S-1-5-80-956008885-3418522649-1831038044-1853292631-2271478464";

fn security() -> RawSecurity {
    RawSecurity {
        bytes: vec![1, 0, 4, 0x80],
        owner: Some(TRUSTED_INSTALLER.to_string()),
        dacl: Some(vec![
            RawAce {
                ace_type: 0,
                ace_flags: 0x13,
                mask: 0x001F_01FF,
                sid: Some("S-1-5-32-544".to_string()),
            },
            RawAce {
                ace_type: 0,
                ace_flags: 0,
                mask: 0x0012_00A9,
                sid: Some("S-1-5-32-545".to_string()),
            },
        ]),
        control: Some(0x1000),
    }
}

fn directory() -> RawObject {
    RawObject::Read(FILE_ATTRIBUTE_DIRECTORY, security())
}

#[test]
fn windows_dir_is_readable() {
    let fso = read_file_system_object("C:\\Windows", directory())
        .expect("C:\\Windows must be readable");
    assert!(fso.is_directory, "C:\\Windows must be a directory");
    assert!(
        !fso.is_reparse_point,
        "C:\\Windows must not be a reparse point"
    );
}

#[test]
fn windows_dir_has_owner() {
    let fso = read_file_system_object("C:\\Windows", directory()).unwrap();
    let sid = fso.owner_sid.expect("C:\\Windows must have an owner SID");
    assert!(
        sid.0.starts_with("S-"),
        "Owner SID must start with S-, got: {}",
        sid.0
    );
}

#[test]
fn windows_dir_has_dacl_entries() {
    let fso = read_file_system_object("C:\\Windows", directory()).unwrap();
    assert!(!fso.dacl.is_empty(), "C:\\Windows must have DACL entries");
}

#[test]
fn windows_dir_has_allow_aces() {
    let fso = read_file_system_object("C:\\Windows", directory()).unwrap();
    let has_allow = fso.dacl.iter().any(|e| e.kind == AceKind::Allow);
    assert!(has_allow, "C:\\Windows must have at least one Allow ACE");
}

#[test]
fn nonexistent_path_returns_not_found() {
    let result = read_file_system_object(
        "C:\\zzz_adpa_nonexistent_xyzabc_test",
        RawObject::NoAttributes(ERROR_FILE_NOT_FOUND),
    );
    assert!(
        matches!(result, Err(CoreError::PathNotFound(_))),
        "Expected PathNotFound, got: {result:?}"
    );
}

#[test]
fn system32_is_readable_directory() {
    let fso = read_file_system_object("C:\\Windows\\System32", directory())
        .expect("System32 must be readable");
    assert!(fso.is_directory);
    assert!(fso.owner_sid.is_some());
    assert!(!fso.dacl.is_empty());
}

#[test]
fn access_masks_are_nonzero() {
    let fso = read_file_system_object("C:\\Windows", directory()).unwrap();
    for ace in &fso.dacl {
        assert_ne!(ace.mask.0, 0, "ACE mask must not be zero");
    }
}

#[test]
fn split_ace_flags_isolates_inheritance_and_propagation() {
    let (inh, prop) = split_ace_flags(0x01 | 0x02 | 0x08 | 0x10);
    assert_eq!(inh, 0x03, "inheritance_flags must contain OI | CI");
    assert_eq!(prop, 0x08, "propagation_flags must contain IO");
}

#[test]
fn split_ace_flags_inherit_only_lives_in_propagation() {
    let (inh, prop) = split_ace_flags(0x08);
    assert_eq!(inh, 0, "IO must not appear in inheritance_flags");
    assert_eq!(prop, 0x08, "IO must appear in propagation_flags");
}

#[test]
fn split_ace_flags_zero_yields_zero() {
    let (inh, prop) = split_ace_flags(0);
    assert_eq!(inh, 0);
    assert_eq!(prop, 0);
}

#[test]
fn split_ace_flags_ignores_audit_bits() {
    let (inh, prop) = split_ace_flags(0x40 | 0x80);
    assert_eq!(inh, 0);
    assert_eq!(prop, 0);
}

#[test]
fn unsupported_ace_type_recorded_as_diagnostic() {
    let fake = RawAce {
        ace_type: 2,
        ace_flags: 0,
        mask: 0x001F_01FF,
        sid: None,
    };
    match parse_ace(&fake) {
        ParseAceOutcome::Unsupported(u) => {
            assert_eq!(u.ace_type, 2, "ace_type must be preserved");
            assert_eq!(u.mask, 0x001F_01FF, "mask must be preserved");
        }
        _ => panic!("expected ParseAceOutcome::Unsupported for type 2"),
    }
}

#[test]
fn fnv1a_64_is_deterministic_and_distinguishes() {
    assert_eq!(fnv1a_64(b"abc"), fnv1a_64(b"abc"), "same bytes → same hash");
    assert_ne!(
        fnv1a_64(b"abc"),
        fnv1a_64(b"abd"),
        "different bytes → different hash (FNV-1a)"
    );
    assert_eq!(
        fnv1a_64(b""),
        0xcbf2_9ce4_8422_2325,
        "FNV-1a empty = offset basis"
    );
}

#[test]
fn read_sets_sd_hash() {
    let fso = read_file_system_object("C:\\Windows", directory()).unwrap();
    assert!(
        fso.sd_hash.is_some(),
        "a read object must carry its SD hash"
    );
}

#[test]
fn sd_cache_reuses_identical_descriptor() {
    let mut cache = SdCache::new();
    let a = read_file_system_object_cached("C:\\Windows", directory(), &mut cache).unwrap();
    let b = read_file_system_object_cached("C:\\Windows", directory(), &mut cache).unwrap();
    assert_eq!(
        cache.len(),
        1,
        "identical descriptor must occupy one cache slot"
    );
    assert_eq!(
        a.sd_hash, b.sd_hash,
        "identical descriptor → identical hash"
    );
    assert_eq!(a.dacl.len(), b.dacl.len(), "reused parse must match");
}

#[test]
fn new_token_is_not_cancelled() {
    assert!(!CancellationToken::new().is_cancelled());
}

#[test]
fn cancel_sets_the_flag() {
    let t = CancellationToken::new();
    t.cancel();
    assert!(t.is_cancelled());
}

#[test]
fn reset_clears_the_flag() {
    let t = CancellationToken::new();
    t.cancel();
    t.reset();
    assert!(!t.is_cancelled());
}

#[test]
fn clones_share_the_same_flag() {
    let a = CancellationToken::new();
    let b = a.clone();
    a.cancel();
    assert!(b.is_cancelled(), "cancel on one clone must affect all");
}

#[test]
fn scan_returns_target_object() {
    let result = NtfsScanner
        .scan(
            ScanRequest {
                target: "C:\\Windows".to_string(),
            },
            directory(),
        )
        .expect("scanning C:\\Windows must succeed");
    assert_eq!(result.objects.len(), 1, "scan must return exactly one FSO");
    assert_eq!(result.objects[0].path.0, "C:\\Windows");
    assert!(result.objects[0].is_directory);
    assert!(result.errors.is_empty());
}

#[test]
fn scan_nonexistent_target_returns_err() {
    let result = NtfsScanner.scan(
        ScanRequest {
            target: "C:\\__nonexistent_adpa_xyz_8f3a__".to_string(),
        },
        RawObject::NoAttributes(ERROR_FILE_NOT_FOUND),
    );
    assert!(result.is_err(), "non-existent target must produce Err");
}

/// A file system held in memory: what each path is, and where a junction leads.
enum Node {
    File,
    Directory,
    Junction(String),
}

#[derive(Default)]
struct Disk {
    nodes: BTreeMap<String, Node>,
}

impl Disk {
    fn dir(mut self, path: &str) -> Self {
        self.nodes.insert(path.to_string(), Node::Directory);
        self
    }

    fn file(mut self, path: &str) -> Self {
        self.nodes.insert(path.to_string(), Node::File);
        self
    }

    fn junction(mut self, path: &str, target: &str) -> Self {
        self.nodes
            .insert(path.to_string(), Node::Junction(target.to_string()));
        self
    }

    /// Where a path really is, with all junctions on the way followed.
    fn resolved(&self, path: &str) -> Option<String> {
        let mut at = String::new();
        for (i, part) in strip_long_path_prefix(path).split('\\').enumerate() {
            if i > 0 {
                at.push('\\');
            }
            at.push_str(part);
            if let Some(Node::Junction(target)) = self.nodes.get(&at) {
                at = self.resolved(target)?;
            }
        }
        if self.nodes.contains_key(&at) {
            Some(at)
        } else {
            None
        }
    }

    /// The node at a path, without following the last component.
    fn node(&self, path: &str) -> Option<&Node> {
        let plain = strip_long_path_prefix(path);
        match plain.rsplit_once('\\') {
            Some((parent, name)) if self.nodes.contains_key(&plain) || parent.contains('\\') => {
                let at = match self.resolved(parent) {
                    Some(p) => format!("{p}\\{name}"),
                    None => plain.clone(),
                };
                self.nodes.get(&at)
            }
            _ => self.nodes.get(&plain),
        }
    }

    fn read(&self, path: &str) -> RawObject {
        match self.node(path) {
            None => RawObject::NoAttributes(ERROR_FILE_NOT_FOUND),
            Some(Node::File) => RawObject::Read(0, security()),
            Some(Node::Directory) => directory(),
            Some(Node::Junction(_)) => RawObject::Read(
                FILE_ATTRIBUTE_DIRECTORY | FILE_ATTRIBUTE_REPARSE_POINT,
                security(),
            ),
        }
    }

    fn entries(&self, path: &str) -> VecDeque<DirectoryEntry> {
        let at = self.resolved(path).unwrap();
        let inside = format!("{at}\\");
        self.nodes
            .keys()
            .filter(|p| p.starts_with(&inside) && !p[inside.len()..].contains('\\'))
            .map(|p| DirectoryEntry {
                path: format!("{path}\\{}", &p[inside.len()..]),
                name: Some(p[inside.len()..].to_string()),
            })
            .collect()
    }
}

fn walk_streaming(
    disk: &Disk,
    root: &str,
    config: &WalkConfig,
    cancel: &CancellationToken,
    mut on_item: impl FnMut(WalkItem),
) -> bool {
    let mut cache = SdCache::new();
    let mut open: Vec<VecDeque<DirectoryEntry>> = Vec::new();
    let mut walk = TreeWalk::start(root, config, cancel.is_cancelled());
    loop {
        let event = match walk.pending() {
            Pending::Done => return cancel.is_cancelled(),
            Pending::Read { path, .. } => WalkEvent::Read(read_file_system_object_cached(
                path,
                disk.read(path),
                &mut cache,
            )),
            Pending::Resolve { path, .. } => {
                WalkEvent::Resolved(disk.resolved(path).map(|p| to_windows_api_path(&p)))
            }
            Pending::Open { path, .. } => {
                open.push(disk.entries(&to_windows_api_path(path)));
                WalkEvent::Opened(Ok(()))
            }
            Pending::Next => {
                let entry = open.last_mut().unwrap().pop_front();
                if entry.is_none() {
                    open.pop();
                }
                WalkEvent::Entry(entry.map(Ok))
            }
        };
        for item in walk.step(event, cancel.is_cancelled()) {
            on_item(item);
        }
    }
}

fn walk_tree(
    disk: &Disk,
    root: &str,
    config: &WalkConfig,
    cancel: &CancellationToken,
) -> WalkResult {
    let mut items = Vec::new();
    let cancelled = walk_streaming(disk, root, config, cancel, |item| items.push(item));
    walker::walk_tree(items, cancelled)
}

#[test]
fn a_directory_closed_by_the_limit_is_entered_by_a_shorter_path() {
    let disk = Disk::default()
        .dir("C:\\r")
        .dir("C:\\r\\a")
        .dir("C:\\r\\a\\b")
        .file("C:\\r\\a\\b\\c")
        .junction("C:\\r\\z", "C:\\r\\a\\b");
    let result = walk_tree(&disk, "C:\\r", &depth(2), &CancellationToken::new());
    let paths: Vec<&str> = result.objects.iter().map(|o| o.path.0.as_str()).collect();
    assert_eq!(
        paths,
        vec!["C:\\r", "C:\\r\\a", "C:\\r\\a\\b", "C:\\r\\z", "C:\\r\\z\\c"]
    );
    assert!(result.errors.is_empty(), "got: {:?}", result.errors);

    let deep = walk_tree(&disk, "C:\\r", &unlimited(), &CancellationToken::new());
    assert_eq!(deep.objects.len(), 5);
    assert_eq!(deep.errors.len(), 1);
    assert!(matches!(
        &deep.errors[0].error,
        CoreError::ReparseDuplicateTarget(m) if m.contains("C:\\r\\a\\b'")
    ));
}

#[test]
fn a_buffered_walk_is_the_streamed_one() {
    let disk = Disk::default()
        .dir("C:\\r")
        .file("C:\\r\\f")
        .junction("C:\\r\\z", "C:\\r");
    let cancel = CancellationToken::new();
    let mut collected = WalkResult::new();
    let cancelled = walk_streaming(&disk, "C:\\r", &unlimited(), &cancel, |item| {
        collected.collect(item)
    });
    collected.finish(cancelled);
    let buffered = walk_tree(&disk, "C:\\r", &unlimited(), &cancel);
    assert_eq!(format!("{collected:?}"), format!("{buffered:?}"));
    assert_eq!((buffered.objects.len(), buffered.errors.len()), (3, 1));
    assert!(!buffered.cancelled);
    cancel.cancel();
    let stopped = walk_tree(&disk, "C:\\r", &unlimited(), &cancel);
    assert!(stopped.cancelled && stopped.objects.is_empty() && stopped.errors.is_empty());
}

fn unlimited() -> WalkConfig {
    WalkConfig { max_depth: None }
}

fn depth(n: u32) -> WalkConfig {
    WalkConfig { max_depth: Some(n) }
}

fn windows() -> Disk {
    let mut disk = Disk::default()
        .dir("C:\\Windows")
        .dir("C:\\Windows\\System32")
        .dir("C:\\Windows\\System32\\drivers")
        .file("C:\\Windows\\explorer.exe");
    for i in 0..12 {
        disk = disk.file(&format!("C:\\Windows\\System32\\lib{i}.dll"));
    }
    disk
}

fn walk(root: &str, config: &WalkConfig) -> WalkResult {
    walk_tree(&windows(), root, config, &CancellationToken::new())
}

#[test]
fn nonexistent_root_returns_error() {
    let result = walk("C:\\__adpa_nonexistent__", &unlimited());
    assert!(result.objects.is_empty());
    assert_eq!(result.errors.len(), 1);
}

#[test]
fn root_is_always_included() {
    let result = walk("C:\\Windows", &depth(0));
    assert_eq!(result.objects.len(), 1);
    assert_eq!(result.objects[0].path.0, "C:\\Windows");
    assert!(result.errors.is_empty());
}

#[test]
fn streaming_matches_buffered() {
    let root = "C:\\Temp\\adpa-stream";
    let disk = Disk::default()
        .dir(root)
        .dir("C:\\Temp\\adpa-stream\\sub_a")
        .dir("C:\\Temp\\adpa-stream\\sub_a\\nested")
        .dir("C:\\Temp\\adpa-stream\\sub_b")
        .file("C:\\Temp\\adpa-stream\\sub_a\\file.txt");
    let cfg = unlimited();
    let buffered = walk_tree(&disk, root, &cfg, &CancellationToken::new());

    let mut streamed_objects = Vec::new();
    let mut streamed_errors = Vec::new();
    let cancelled = walk_streaming(
        &disk,
        root,
        &cfg,
        &CancellationToken::new(),
        |item| match item {
            WalkItem::Object(o) => streamed_objects.push(o.path.0),
            WalkItem::Error(e) => streamed_errors.push(e.path),
        },
    );

    assert!(!cancelled);
    assert!(
        buffered.objects.len() >= 4,
        "fixture tree must yield at least root + sub_a + nested + sub_b"
    );
    let buffered_paths: Vec<String> = buffered.objects.iter().map(|o| o.path.0.clone()).collect();
    assert_eq!(
        streamed_objects, buffered_paths,
        "streaming objects must match the buffered walk exactly, in order"
    );
    assert_eq!(
        streamed_errors.len(),
        buffered.errors.len(),
        "streaming must report the same number of errors"
    );
}

#[test]
fn streaming_emits_root_first() {
    let mut first: Option<String> = None;
    walk_streaming(
        &windows(),
        "C:\\Windows",
        &depth(1),
        &CancellationToken::new(),
        |item| {
            if first.is_none() {
                if let WalkItem::Object(o) = item {
                    first = Some(o.path.0);
                }
            }
        },
    );
    assert_eq!(first.as_deref(), Some("C:\\Windows"));
}

#[test]
fn depth_0_returns_only_root() {
    let result = walk("C:\\Windows", &depth(0));
    assert_eq!(result.objects.len(), 1);
}

#[test]
fn depth_1_returns_root_and_children() {
    let result = walk("C:\\Windows", &depth(1));
    assert!(result.objects.len() > 1, "Expected children at depth 1");
    assert_eq!(result.objects[0].path.0, "C:\\Windows");
}

#[test]
fn unlimited_depth_finds_nested_entries() {
    let result = walk("C:\\Windows\\System32", &depth(1));
    assert!(
        result.objects.len() > 10,
        "System32 should have many children"
    );
}

#[test]
fn all_returned_objects_have_non_empty_paths() {
    let result = walk("C:\\Windows", &depth(1));
    for obj in &result.objects {
        assert!(!obj.path.0.is_empty());
    }
}

#[test]
fn directory_flag_set_on_root() {
    let result = walk("C:\\Windows", &depth(0));
    assert!(result.objects[0].is_directory);
}

#[test]
fn pre_cancelled_token_stops_walk_immediately() {
    let token = CancellationToken::new();
    token.cancel();
    let result = walk_tree(&windows(), "C:\\Windows", &unlimited(), &token);
    assert!(result.cancelled, "result must be marked cancelled");
    assert!(
        result.objects.is_empty(),
        "a pre-cancelled walk must not read any path"
    );
}

#[test]
fn non_cancelled_walk_reports_cancelled_false() {
    let result = walk("C:\\Windows", &depth(0));
    assert!(!result.cancelled);
}

#[test]
fn walk_reaches_paths_longer_than_max_path() {
    let root_str = "C:\\Temp\\adpa-longpath";
    let segment: String = "a".repeat(30);
    let mut disk = Disk::default().dir(root_str);
    let mut deep = root_str.to_string();
    for _ in 0..12 {
        deep = format!("{deep}\\{segment}");
        disk = disk.dir(&deep);
    }
    assert!(
        !root_str.starts_with(r"\\?\"),
        "test setup: root must be prefix-free"
    );

    let result = walk_tree(&disk, root_str, &unlimited(), &CancellationToken::new());

    assert!(
        result.errors.is_empty(),
        "Walker must produce no errors on long paths — got: {:?}",
        result
            .errors
            .iter()
            .map(|e| format!("{}: {}", e.path, e.error.message()))
            .collect::<Vec<_>>()
    );
    assert_eq!(
        result.objects.len(),
        13,
        "expected 13 objects (root + 12 depth), got: {}",
        result.objects.len()
    );
    let max_len = result.objects.iter().map(|o| o.path.0.len()).max().unwrap();
    assert!(max_len > 260, "Deepest path must be > 260, was: {max_len}");
    for obj in &result.objects {
        assert!(
            !obj.path.0.starts_with(r"\\?\"),
            "FSO path must not carry a \\\\?\\ prefix: {}",
            obj.path.0
        );
    }
}

#[test]
fn walker_follows_directory_junction_into_target() {
    let root = "C:\\Temp\\adpa-junction";
    let target = format!("{root}\\target");
    let link = format!("{root}\\link");
    let disk = Disk::default()
        .dir(root)
        .dir(&target)
        .dir(&format!("{target}\\inside"))
        .junction(&link, &target);

    let result = walk_tree(&disk, root, &unlimited(), &CancellationToken::new());

    let paths: Vec<String> = result
        .objects
        .iter()
        .map(|o| o.path.0.to_ascii_lowercase())
        .collect();
    let inside_via_link = format!("{link}\\inside").to_ascii_lowercase();
    assert!(
        paths.iter().any(|p| p == &inside_via_link),
        "Walker must traverse the junction and find 'link\\inside' — got: {paths:?}"
    );
    let inside_via_target = format!("{target}\\inside").to_ascii_lowercase();
    assert!(
        !paths.iter().any(|p| p == &inside_via_target),
        "duplicate route must not re-enumerate the subtree — got: {paths:?}"
    );
    let dup = result
        .errors
        .iter()
        .find(|e| matches!(e.error, CoreError::ReparseDuplicateTarget(_)))
        .expect("the duplicate route must surface as a typed diagnostic");
    let msg = dup.error.message().to_ascii_lowercase();
    assert!(
        msg.contains(&link.to_ascii_lowercase()),
        "duplicate diagnostic must name the first namespace path: {msg}"
    );
    assert!(
        msg.contains("not a cycle"),
        "duplicate diagnostic must distinguish itself from a cycle: {msg}"
    );
}

#[test]
fn walker_reports_second_junction_to_same_target_as_duplicate_not_cycle() {
    let shared = "C:\\Temp\\adpa-dup\\shared";
    let root = "C:\\Temp\\adpa-dup\\root";
    let link_a = format!("{root}\\link_a");
    let link_b = format!("{root}\\link_b");
    let disk = Disk::default()
        .dir(shared)
        .dir("C:\\Temp\\adpa-dup\\shared\\inside")
        .dir(root)
        .junction(&link_a, shared)
        .junction(&link_b, shared);

    let result = walk_tree(&disk, root, &unlimited(), &CancellationToken::new());

    let paths: Vec<String> = result
        .objects
        .iter()
        .map(|o| o.path.0.to_ascii_lowercase())
        .collect();
    let inside_a = format!("{link_a}\\inside").to_ascii_lowercase();
    let inside_b = format!("{link_b}\\inside").to_ascii_lowercase();
    assert!(
        paths.iter().any(|p| p == &inside_a),
        "first junction route must enumerate the content — got: {paths:?}"
    );
    assert!(
        !paths.iter().any(|p| p == &inside_b),
        "second route must not re-enumerate — got: {paths:?}"
    );
    assert!(paths.iter().any(|p| p == &link_b.to_ascii_lowercase()));
    assert!(
        !result
            .errors
            .iter()
            .any(|e| matches!(e.error, CoreError::ReparseCycle(_))),
        "two independent junctions to one target are NOT a cycle"
    );
    let dup = result
        .errors
        .iter()
        .find(|e| matches!(e.error, CoreError::ReparseDuplicateTarget(_)))
        .expect("second route must surface as a typed duplicate diagnostic");
    let dup_path = dup
        .path
        .to_ascii_lowercase()
        .trim_start_matches(r"\\?\")
        .to_owned();
    assert_eq!(
        dup_path,
        link_b.to_ascii_lowercase(),
        "the diagnostic must sit on the second route"
    );
    assert!(
        dup.error
            .message()
            .to_ascii_lowercase()
            .contains(&link_a.to_ascii_lowercase()),
        "the diagnostic must name the first route"
    );
}

#[test]
fn loop_detector_duplicate_after_leave_names_first_path() {
    let mut d = LoopDetector::new();
    assert_eq!(
        d.enter("c:\\shared", "C:\\root\\link_a"),
        DescendDecision::Fresh
    );
    d.leave();
    match d.enter("c:\\shared", "C:\\root\\link_b") {
        DescendDecision::DuplicateTarget { first_path } => {
            assert_eq!(first_path, "C:\\root\\link_a");
        }
        other => panic!("expected DuplicateTarget, got {other:?}"),
    }
}

#[test]
fn loop_detector_ancestor_on_active_chain_is_cycle() {
    let mut d = LoopDetector::new();
    assert_eq!(d.enter("c:\\a", "C:\\a"), DescendDecision::Fresh);
    assert_eq!(d.enter("c:\\a\\b", "C:\\a\\b"), DescendDecision::Fresh);
    assert_eq!(
        d.enter("c:\\a", "C:\\a\\b\\link"),
        DescendDecision::Cycle,
        "re-entering an ancestor of the ACTIVE chain is a real cycle"
    );
}

#[test]
fn loop_detector_left_sibling_is_duplicate_not_cycle() {
    let mut d = LoopDetector::new();
    assert_eq!(d.enter("c:\\a", "C:\\a"), DescendDecision::Fresh);
    assert_eq!(d.enter("c:\\a\\b", "C:\\a\\b"), DescendDecision::Fresh);
    d.leave();
    match d.enter("c:\\a\\b", "C:\\a\\c_link") {
        DescendDecision::DuplicateTarget { first_path } => {
            assert_eq!(first_path, "C:\\a\\b");
        }
        other => panic!(
            "a completed sibling reached again is a duplicate, not a cycle — got {other:?}"
        ),
    }
}

#[test]
fn walker_detects_junction_loop_and_emits_visible_error() {
    let root = "C:\\Temp\\adpa-junction-loop";
    let disk = Disk::default()
        .dir(root)
        .dir("C:\\Temp\\adpa-junction-loop\\a")
        .junction("C:\\Temp\\adpa-junction-loop\\a\\b", root);

    let result = walk_tree(&disk, root, &unlimited(), &CancellationToken::new());

    let cycle = result
        .errors
        .iter()
        .find(|e| matches!(e.error, CoreError::ReparseCycle(_)))
        .unwrap_or_else(|| {
            panic!(
                "loop junction must produce a typed ReparseCycle error, got: {:?}",
                result
                    .errors
                    .iter()
                    .map(|e| e.error.message())
                    .collect::<Vec<_>>()
            )
        });
    let msg = cycle.error.message();
    assert!(
        msg.contains("loop"),
        "the cycle error must explain the loop: {msg}"
    );
}

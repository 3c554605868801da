//! Walks through a directory tree, step by step.
//!
//! A [`TreeWalk`] says what to ask the file system next, and goes on from the
//! answer. Reparse points are followed. A directory whose identity is on the
//! active chain is a cycle; one that was enumerated before under another path is
//! a duplicate. Neither is entered again, and both are reported, like everything
//! else that cannot be read. A directory that the depth limit keeps closed, or that
//! cannot be opened, was not enumerated: another path may still lead into it.

use vstd::hash_map::StringHashMap;
use vstd::prelude::*;

use crate::error::CoreError;
use crate::model::access::FileSystemObject;
use crate::text;

verus! {

/// Limits of a walk.
#[derive(Debug, Clone, Copy)]
pub struct WalkConfig {
    /// Maximum depth, `None` for no limit. The root has depth 0.
    pub max_depth: Option<u32>,
}

/// An error on a path.
#[derive(Debug)]
pub struct WalkError {
    pub path: String,
    pub error: CoreError,
}

/// What a walk collected.
#[derive(Debug)]
pub struct WalkResult {
    pub objects: Vec<FileSystemObject>,
    pub errors: Vec<WalkError>,
    /// Whether the walk was ended early.
    pub cancelled: bool,
}

/// One thing that a walk found, handed out as soon as it is known.
#[derive(Debug)]
pub enum WalkItem {
    Object(FileSystemObject),
    Error(WalkError),
}

/// The objects among `items`, in their order.
pub open spec fn objects_of(items: Seq<WalkItem>) -> Seq<FileSystemObject>
    decreases items.len(),
{
    if items.len() == 0 {
        Seq::empty()
    } else {
        let init = objects_of(items.drop_last());
        match items.last() {
            WalkItem::Object(o) => init.push(o),
            WalkItem::Error(_) => init,
        }
    }
}

/// The errors among `items`, in their order.
pub open spec fn errors_of(items: Seq<WalkItem>) -> Seq<WalkError>
    decreases items.len(),
{
    if items.len() == 0 {
        Seq::empty()
    } else {
        let init = errors_of(items.drop_last());
        match items.last() {
            WalkItem::Object(_) => init,
            WalkItem::Error(e) => init.push(e),
        }
    }
}

impl WalkResult {
    /// The result of a walk that has found nothing yet.
    pub fn new() -> (r: Self)
        ensures
            r.objects@ == objects_of(Seq::empty()),
            r.errors@ == errors_of(Seq::empty()),
            !r.cancelled,
    {
        WalkResult { objects: Vec::new(), errors: Vec::new(), cancelled: false }
    }

    /// Adds what the walk found next.
    pub fn collect(&mut self, item: WalkItem)
        ensures
            forall|items: Seq<WalkItem>|
                old(self).objects@ == objects_of(items) && old(self).errors@ == errors_of(items)
                    ==> final(self).objects@ == objects_of(#[trigger] items.push(item))
                    && final(self).errors@ == errors_of(items.push(item)),
            final(self).cancelled == old(self).cancelled,
    {
        assert forall|items: Seq<WalkItem>| (#[trigger] items.push(item)).drop_last()
            == items by {
            assert(items.push(item).drop_last() =~= items);
        }
        match item {
            WalkItem::Object(o) => self.objects.push(o),
            WalkItem::Error(e) => self.errors.push(e),
        }
    }

    /// Ends the result with what the walk told of its end.
    pub fn finish(&mut self, cancelled: bool)
        ensures
            final(self).cancelled == cancelled,
            final(self).objects == old(self).objects,
            final(self).errors == old(self).errors,
    {
        self.cancelled = cancelled;
    }
}

/// Buffers a walk. `items` are what the streaming walk handed out, in this order,
/// and `cancelled` is what it returned: nothing is lost, added or moved.
pub fn walk_tree(items: Vec<WalkItem>, cancelled: bool) -> (r: WalkResult)
    ensures
        r.objects@ == objects_of(items@),
        r.errors@ == errors_of(items@),
        r.cancelled == cancelled,
{
    let mut result: WalkResult = WalkResult::new();
    let ghost all = items@;
    assert(all.take(0) =~= Seq::empty());
    for item in handed: items
        invariant
            handed.seq() == all,
            result.objects@ == objects_of(all.take(handed.index() as int)),
            result.errors@ == errors_of(all.take(handed.index() as int)),
    {
        assert(all.take(handed.index() + 1) =~= all.take(handed.index() as int).push(item));
        result.collect(item);
    }
    assert(all.take(all.len() as int) =~= all);
    result.finish(cancelled);
    result
}

/// Whether the walk may enter a directory.
#[derive(Debug, PartialEq, Eq)]
pub enum DescendDecision {
    /// Not enumerated before.
    Fresh,
    /// The directory is an ancestor on the active chain.
    Cycle,
    /// The directory was enumerated before, under `first_path`.
    DuplicateTarget { first_path: String },
}

/// What a [`DescendDecision`] says.
pub enum DecisionView {
    Fresh,
    Cycle,
    Duplicate(Seq<char>),
}

impl View for DescendDecision {
    type V = DecisionView;

    open spec fn view(&self) -> DecisionView {
        match self {
            DescendDecision::Fresh => DecisionView::Fresh,
            DescendDecision::Cycle => DecisionView::Cycle,
            DescendDecision::DuplicateTarget { first_path } => DecisionView::Duplicate(
                first_path@,
            ),
        }
    }
}

/// What a [`LoopDetector`] knows.
pub struct DetectorView {
    /// Identities of the directories on the active chain, outermost first.
    pub chain: Seq<Seq<char>>,
    /// The path under which each identity was enumerated, or is being opened.
    pub first_path: Map<Seq<char>, Seq<char>>,
}

/// The decision for the directory `canonical`: a cycle where it is on the active
/// chain, a duplicate where it was enumerated elsewhere in the walk.
pub open spec fn decision(d: DetectorView, canonical: Seq<char>) -> DecisionView {
    if d.chain.contains(canonical) {
        DecisionView::Cycle
    } else if d.first_path.contains_key(canonical) {
        DecisionView::Duplicate(d.first_path[canonical])
    } else {
        DecisionView::Fresh
    }
}

/// What is known once `canonical` was entered under `path`.
pub open spec fn entered(d: DetectorView, canonical: Seq<char>, path: Seq<char>) -> DetectorView {
    DetectorView {
        chain: d.chain.push(canonical),
        first_path: d.first_path.insert(canonical, path),
    }
}

/// What is known once the innermost directory was left.
pub open spec fn left(d: DetectorView) -> DetectorView {
    DetectorView {
        chain: if d.chain.len() == 0 {
            d.chain
        } else {
            d.chain.drop_last()
        },
        first_path: d.first_path,
    }
}

/// What is known once `canonical`, the innermost directory, could not be opened: it
/// was not enumerated.
pub open spec fn withdrawn(d: DetectorView, canonical: Seq<char>) -> DetectorView {
    DetectorView { chain: left(d).chain, first_path: d.first_path.remove(canonical) }
}

/// Tells cycles and duplicate targets apart.
pub struct LoopDetector {
    chain: Vec<String>,
    seen_first_path: StringHashMap<String>,
}

impl View for LoopDetector {
    type V = DetectorView;

    closed spec fn view(&self) -> DetectorView {
        DetectorView {
            chain: text::texts(self.chain@),
            first_path: self.seen_first_path@.map_values(|s: String| s@),
        }
    }
}

impl LoopDetector {
    /// A detector that has seen nothing.
    pub fn new() -> (r: Self)
        ensures
            r@.chain == Seq::<Seq<char>>::empty(),
            r@.first_path == Map::<Seq<char>, Seq<char>>::empty(),
    {
        let r: LoopDetector = LoopDetector {
            chain: Vec::new(),
            seen_first_path: StringHashMap::new(),
        };
        assert(r@.chain =~= Seq::<Seq<char>>::empty());
        assert(r@.first_path =~= Map::<Seq<char>, Seq<char>>::empty());
        r
    }

    /// Whether an identity is on the active chain.
    fn is_active(&self, canonical: &str) -> (r: bool)
        ensures
            r == self@.chain.contains(canonical@),
    {
        for i in 0..self.chain.len()
            invariant
                forall|j: int| 0 <= j < i ==> (#[trigger] self.chain@[j])@ != canonical@,
        {
            if text::same_text(self.chain[i].as_str(), canonical) {
                assert(self@.chain[i as int] == canonical@);
                return true;
            }
        }
        assert forall|j: int| 0 <= j < self@.chain.len() implies #[trigger] self@.chain[j]
            != canonical@ by {
            assert(self.chain@[j]@ != canonical@);
        }
        false
    }

    /// Decides whether the walk may enter the directory `canonical`.
    pub fn decide(&self, canonical: &str) -> (r: DescendDecision)
        ensures
            r@ == decision(self@, canonical@),
    {
        if self.is_active(canonical) {
            return DescendDecision::Cycle;
        }
        match self.seen_first_path.get(canonical) {
            Some(first) => DescendDecision::DuplicateTarget { first_path: first.clone() },
            None => DescendDecision::Fresh,
        }
    }

    /// Decides whether the walk may enter the directory `canonical`, reached
    /// under `namespace_path`, and records it where it may. It has to be left again,
    /// or withdrawn.
    pub fn enter(&mut self, canonical: &str, namespace_path: &str) -> (r: DescendDecision)
        ensures
            r@ == decision(old(self)@, canonical@),
            final(self)@ == (if r@ is Fresh {
                entered(old(self)@, canonical@, namespace_path@)
            } else {
                old(self)@
            }),
    {
        let r: DescendDecision = self.decide(canonical);
        if let DescendDecision::Fresh = &r {
            self.seen_first_path.insert(canonical.to_owned(), namespace_path.to_owned());
            self.chain.push(canonical.to_owned());
            assert(self@.chain =~= old(self)@.chain.push(canonical@));
            assert(self@.first_path =~= old(self)@.first_path.insert(canonical@, namespace_path@));
        }
        r
    }

    /// Leaves the innermost directory.
    pub fn leave(&mut self)
        ensures
            final(self)@ == left(old(self)@),
    {
        let _ = self.chain.pop();
        assert(self@.chain =~= left(old(self)@).chain);
    }

    /// Leaves the innermost directory, which could not be opened, and forgets that it
    /// was entered.
    pub fn withdraw(&mut self, canonical: &str)
        ensures
            final(self)@ == withdrawn(old(self)@, canonical@),
    {
        self.leave();
        self.seen_first_path.remove(canonical);
        assert(self@.first_path =~= old(self)@.first_path.remove(canonical@));
    }
}

/// A directory whose entries are being enumerated.
#[derive(Debug)]
pub struct OpenDirectory {
    pub path: String,
    /// Its identity.
    pub canonical: String,
}

/// What the walk asks of the file system.
#[derive(Debug)]
pub enum Pending {
    /// Read the object at `path`. `name` is the last component of the path, where
    /// there is one; the root comes without.
    Read { path: String, name: Option<String> },
    /// Resolve `path` to its canonical target.
    Resolve { path: String, is_directory: bool, is_reparse_point: bool },
    /// Open the directory at `path`.
    Open { path: String, canonical: String },
    /// Take the next entry of the innermost open directory.
    Next,
    /// Nothing: the walk is over.
    Done,
}

/// An entry of a directory: its path, and the last component of it.
#[derive(Debug)]
pub struct DirectoryEntry {
    pub path: String,
    pub name: Option<String>,
}

/// What the file system answers.
#[derive(Debug)]
pub enum WalkEvent {
    /// The object was read, or could not be.
    Read(Result<FileSystemObject, CoreError>),
    /// The canonical target, where the path could be resolved.
    Resolved(Option<String>),
    /// The directory was opened, or could not be, with this message.
    Opened(Result<(), String>),
    /// The next entry, or the message where it could not be read; `None` where
    /// there are no more entries, and the directory is closed.
    Entry(Option<Result<DirectoryEntry, String>>),
}

/// What a [`Pending`] asks.
pub enum PendingView {
    Read(Seq<char>, Option<Seq<char>>),
    Resolve(Seq<char>, bool, bool),
    Open(Seq<char>, Seq<char>),
    Next,
    Done,
}

impl View for Pending {
    type V = PendingView;

    open spec fn view(&self) -> PendingView {
        match self {
            Pending::Read { path, name } => PendingView::Read(path@, text::text_of(*name)),
            Pending::Resolve { path, is_directory, is_reparse_point } => PendingView::Resolve(
                path@,
                *is_directory,
                *is_reparse_point,
            ),
            Pending::Open { path, canonical } => PendingView::Open(path@, canonical@),
            Pending::Next => PendingView::Next,
            Pending::Done => PendingView::Done,
        }
    }
}

/// Whether an event answers what is pending.
pub open spec fn answers(pending: PendingView, event: WalkEvent) -> bool {
    match pending {
        PendingView::Read(_, _) => event is Read,
        PendingView::Resolve(_, _, _) => event is Resolved,
        PendingView::Open(_, _) => event is Opened,
        PendingView::Next => event is Entry,
        PendingView::Done => false,
    }
}

/// State of a walk.
pub struct WalkView {
    pub max_depth: Option<u32>,
    pub detector: DetectorView,
    /// Path and identity of the open directories, outermost first.
    pub open: Seq<(Seq<char>, Seq<char>)>,
    pub pending: PendingView,
}

/// An error that the walk reports.
pub enum ErrorView {
    /// The error that came from the file system.
    Given(CoreError),
    AccessDenied(Seq<char>),
    ReparseCycle(Seq<char>),
    ReparseDuplicateTarget(Seq<char>),
}

/// What the walk hands out.
pub enum ItemView {
    Object(FileSystemObject),
    Error(Seq<char>, ErrorView),
}

/// Whether `e` is the error `v`.
pub open spec fn is_error(e: CoreError, v: ErrorView) -> bool {
    match v {
        ErrorView::Given(x) => e == x,
        ErrorView::AccessDenied(m) => e matches CoreError::AccessDenied(s) && s@ == m,
        ErrorView::ReparseCycle(m) => e matches CoreError::ReparseCycle(s) && s@ == m,
        ErrorView::ReparseDuplicateTarget(m) => e matches CoreError::ReparseDuplicateTarget(s)
            && s@ == m,
    }
}

/// Whether `item` is `v`.
pub open spec fn is_item(item: WalkItem, v: ItemView) -> bool {
    match v {
        ItemView::Object(x) => item matches WalkItem::Object(o) && o == x,
        ItemView::Error(path, x) => item matches WalkItem::Error(e) && e.path@ == path && is_error(
            e.error,
            x,
        ),
    }
}

/// Whether `items` are `v`, in this order.
pub open spec fn are_items(items: Seq<WalkItem>, v: Seq<ItemView>) -> bool {
    &&& items.len() == v.len()
    &&& forall|i: int| 0 <= i < v.len() ==> is_item(#[trigger] items[i], v[i])
}

/// The message where the target of a reparse point cannot be resolved.
pub open spec fn unresolved_message() -> Seq<char> {
    "Reparse point target could not be resolved — recursion stopped at this junction/link. The object itself is in the result with its DACL; objects behind the link were not enumerated."@
}

/// The message for a cycle.
pub open spec fn cycle_message(canonical: Seq<char>) -> Seq<char> {
    "Reparse point target is an ancestor of the current traversal chain — descending would loop forever; recursion stopped at this junction/link. Target: "@
        + canonical + ". The object itself is in the result with its DACL."@
}

/// The message for a duplicate target.
pub open spec fn duplicate_message(first_path: Seq<char>, canonical: Seq<char>) -> Seq<char> {
    "Reparse point target already enumerated in this scan under '"@ + first_path
        + "' — subtree not enumerated again under this namespace path (duplicate target, not a cycle). Target: "@
        + canonical + ". The link object itself is in the result with its DACL."@
}

/// The walk goes on with the innermost open directory.
pub open spec fn resumed(w: WalkView) -> WalkView {
    WalkView {
        pending: if w.open.len() == 0 {
            PendingView::Done
        } else {
            PendingView::Next
        },
        ..w
    }
}

/// Whether the entries of an object may be enumerated. Its depth is the number of
/// open directories.
pub open spec fn may_descend(w: WalkView) -> bool {
    match w.max_depth {
        Some(max) => w.open.len() < max,
        None => true,
    }
}

/// The walk comes to the directory `path` with the identity `canonical`. Only a
/// directory that is going to be opened is recorded.
pub open spec fn descended(w: WalkView, path: Seq<char>, canonical: Seq<char>) -> (
    WalkView,
    Seq<ItemView>,
) {
    match decision(w.detector, canonical) {
        DecisionView::Cycle => (
            resumed(w),
            seq![ItemView::Error(path, ErrorView::ReparseCycle(cycle_message(canonical)))],
        ),
        DecisionView::Duplicate(first_path) => (
            resumed(w),
            seq![
                ItemView::Error(
                    path,
                    ErrorView::ReparseDuplicateTarget(duplicate_message(first_path, canonical)),
                ),
            ],
        ),
        DecisionView::Fresh => if may_descend(w) {
            (
                WalkView {
                    detector: entered(w.detector, canonical, path),
                    pending: PendingView::Open(path, canonical),
                    ..w
                },
                Seq::empty(),
            )
        } else {
            (resumed(w), Seq::empty())
        },
    }
}

/// The identity of a plain directory: that of its parent, and its own name.
pub open spec fn child_identity(parent: Seq<char>, name: Seq<char>) -> Seq<char> {
    parent + "\\"@ + text::ascii_lower(name)
}

/// The walk goes on once an object was read.
pub open spec fn after_read(
    w: WalkView,
    path: Seq<char>,
    name: Option<Seq<char>>,
    reply: Result<FileSystemObject, CoreError>,
) -> (WalkView, Seq<ItemView>) {
    match reply {
        Err(e) => (resumed(w), seq![ItemView::Error(path, ErrorView::Given(e))]),
        Ok(o) => {
            let (next, items) = if o.is_reparse_point {
                (
                    WalkView { pending: PendingView::Resolve(path, o.is_directory, true), ..w },
                    Seq::empty(),
                )
            } else if !o.is_directory {
                (resumed(w), Seq::empty())
            } else if w.open.len() > 0 && name is Some {
                descended(w, path, child_identity(w.open.last().1, name->0))
            } else {
                (
                    WalkView { pending: PendingView::Resolve(path, true, false), ..w },
                    Seq::empty(),
                )
            };
            (next, seq![ItemView::Object(o)] + items)
        },
    }
}

/// The walk goes on once a path was resolved. A path that is no reparse point and
/// cannot be resolved stands for itself.
pub open spec fn after_resolved(
    w: WalkView,
    path: Seq<char>,
    is_directory: bool,
    is_reparse_point: bool,
    reply: Option<Seq<char>>,
) -> (WalkView, Seq<ItemView>) {
    if is_reparse_point && reply is None {
        (
            resumed(w),
            seq![ItemView::Error(path, ErrorView::AccessDenied(unresolved_message()))],
        )
    } else if !is_directory {
        (resumed(w), Seq::empty())
    } else {
        descended(
            w,
            path,
            text::ascii_lower(
                match reply {
                    Some(target) => target,
                    None => path,
                },
            ),
        )
    }
}

/// The walk goes on once a directory was opened. One that could not be opened is
/// not kept on record.
pub open spec fn after_opened(
    w: WalkView,
    path: Seq<char>,
    canonical: Seq<char>,
    reply: Result<(), String>,
) -> (WalkView, Seq<ItemView>) {
    match reply {
        Ok(_) => (
            WalkView { open: w.open.push((path, canonical)), pending: PendingView::Next, ..w },
            Seq::empty(),
        ),
        Err(m) => (
            resumed(WalkView { detector: withdrawn(w.detector, canonical), ..w }),
            seq![
                ItemView::Error(
                    path,
                    ErrorView::AccessDenied("Cannot enumerate directory: "@ + m@),
                ),
            ],
        ),
    }
}

/// The walk goes on once an entry was taken. A cancelled walk ends here.
pub open spec fn after_entry(
    w: WalkView,
    reply: Option<Result<DirectoryEntry, String>>,
    cancelled: bool,
) -> (WalkView, Seq<ItemView>) {
    match reply {
        None => (
            resumed(WalkView { open: w.open.drop_last(), detector: left(w.detector), ..w }),
            Seq::empty(),
        ),
        Some(entry) => if cancelled {
            (WalkView { pending: PendingView::Done, ..w }, Seq::empty())
        } else {
            match entry {
                Ok(e) => (
                    WalkView { pending: PendingView::Read(e.path@, text::text_of(e.name)), ..w },
                    Seq::empty(),
                ),
                Err(m) => (
                    w,
                    seq![
                        ItemView::Error(
                            w.open.last().0,
                            ErrorView::AccessDenied("Directory entry error: "@ + m@),
                        ),
                    ],
                ),
            }
        },
    }
}

/// The next state of a walk, and what it hands out.
pub open spec fn stepped(w: WalkView, event: WalkEvent, cancelled: bool) -> (
    WalkView,
    Seq<ItemView>,
) {
    match (w.pending, event) {
        (PendingView::Read(path, name), WalkEvent::Read(reply)) => after_read(w, path, name, reply),
        (
            PendingView::Resolve(path, is_directory, is_reparse_point),
            WalkEvent::Resolved(reply),
        ) => after_resolved(w, path, is_directory, is_reparse_point, text::text_of(reply)),
        (PendingView::Open(path, canonical), WalkEvent::Opened(reply)) => after_opened(
            w,
            path,
            canonical,
            reply,
        ),
        (PendingView::Next, WalkEvent::Entry(reply)) => after_entry(w, reply, cancelled),
        _ => (w, Seq::empty()),
    }
}

/// The state in which a walk starts.
pub open spec fn started(root: Seq<char>, max_depth: Option<u32>, cancelled: bool) -> WalkView {
    WalkView {
        max_depth,
        detector: DetectorView { chain: Seq::empty(), first_path: Map::empty() },
        open: Seq::empty(),
        pending: if cancelled {
            PendingView::Done
        } else {
            PendingView::Read(root, None)
        },
    }
}

/// Identities of the directories that are open or being opened.
pub open spec fn active(w: WalkView) -> Seq<Seq<char>> {
    let opened = w.open.map_values(|d: (Seq<char>, Seq<char>)| d.1);
    match w.pending {
        PendingView::Open(_, canonical) => opened.push(canonical),
        _ => opened,
    }
}

/// What holds in every state of a walk: the chain is made of the active
/// directories, each of them was recorded, no two are the same, and none is
/// deeper than the limit.
pub open spec fn is_valid(w: WalkView) -> bool {
    &&& w.detector.chain == active(w)
    &&& w.detector.chain.no_duplicates()
    &&& forall|i: int|
        0 <= i < w.detector.chain.len() ==> w.detector.first_path.contains_key(
            #[trigger] w.detector.chain[i],
        )
    &&& w.pending is Next ==> w.open.len() > 0
    &&& w.max_depth matches Some(max) ==> active(w).len() <= max
}

/// A walk through a directory tree.
pub struct TreeWalk {
    max_depth: Option<u32>,
    detector: LoopDetector,
    open: Vec<OpenDirectory>,
    pending: Pending,
}

impl View for TreeWalk {
    type V = WalkView;

    closed spec fn view(&self) -> WalkView {
        WalkView {
            max_depth: self.max_depth,
            detector: self.detector@,
            open: self.open@.map_values(|d: OpenDirectory| (d.path@, d.canonical@)),
            pending: self.pending@,
        }
    }
}

impl TreeWalk {
    /// A walk from `root` on. A walk that is cancelled before it starts reads
    /// nothing.
    pub fn start(root: &str, config: &WalkConfig, cancelled: bool) -> (r: Self)
        ensures
            r@ == started(root@, config.max_depth, cancelled),
            is_valid(r@),
    {
        let r: TreeWalk = TreeWalk {
            max_depth: config.max_depth,
            detector: LoopDetector::new(),
            open: Vec::new(),
            pending: if cancelled {
                Pending::Done
            } else {
                Pending::Read { path: root.to_owned(), name: None }
            },
        };
        assert(r@.open =~= Seq::empty());
        assert(active(r@) =~= Seq::empty());
        r
    }

    /// What to ask of the file system.
    pub fn pending(&self) -> (r: &Pending)
        ensures
            r@ == self@.pending,
    {
        &self.pending
    }

    /// Goes on with the innermost open directory.
    fn resume(&mut self)
        ensures
            final(self)@ == resumed(old(self)@),
    {
        self.pending = if self.open.len() == 0 {
            Pending::Done
        } else {
            Pending::Next
        };
    }

    /// Comes to the directory `path` with the identity `canonical`.
    fn descend(&mut self, path: String, canonical: String) -> (r: Vec<WalkItem>)
        ensures
            final(self)@ == descended(old(self)@, path@, canonical@).0,
            are_items(r@, descended(old(self)@, path@, canonical@).1),
    {
        let mut items: Vec<WalkItem> = Vec::new();
        match self.detector.decide(canonical.as_str()) {
            DescendDecision::Cycle => {
                let m: String =
                    "Reparse point target is an ancestor of the current traversal chain — descending would loop forever; recursion stopped at this junction/link. Target: ".to_owned().concat(
                    canonical.as_str(),
                ).concat(". The object itself is in the result with its DACL.");
                items.push(
                    WalkItem::Error(WalkError { path, error: CoreError::ReparseCycle(m) }),
                );
                self.resume();
            },
            DescendDecision::DuplicateTarget { first_path } => {
                let m: String =
                    "Reparse point target already enumerated in this scan under '".to_owned().concat(
                    first_path.as_str(),
                ).concat(
                    "' — subtree not enumerated again under this namespace path (duplicate target, not a cycle). Target: ",
                ).concat(canonical.as_str()).concat(
                    ". The link object itself is in the result with its DACL.",
                );
                items.push(
                    WalkItem::Error(WalkError { path, error: CoreError::ReparseDuplicateTarget(m) }),
                );
                self.resume();
            },
            DescendDecision::Fresh => {
                let depth_ok: bool = match self.max_depth {
                    Some(max) => (self.open.len() as u64) < (max as u64),
                    None => true,
                };
                if depth_ok {
                    let _ = self.detector.enter(canonical.as_str(), path.as_str());
                    self.pending = Pending::Open { path, canonical };
                } else {
                    self.resume();
                }
            },
        }
        items
    }

    /// Goes on once an object was read.
    fn on_read(
        &mut self,
        path: String,
        name: Option<String>,
        reply: Result<FileSystemObject, CoreError>,
    ) -> (r: Vec<WalkItem>)
        ensures
            final(self)@ == after_read(old(self)@, path@, text::text_of(name), reply).0,
            are_items(r@, after_read(old(self)@, path@, text::text_of(name), reply).1),
    {
        let mut items: Vec<WalkItem> = Vec::new();
        let o: FileSystemObject = match reply {
            Ok(o) => o,
            Err(error) => {
                items.push(WalkItem::Error(WalkError { path, error }));
                self.resume();
                return items;
            },
        };
        let is_directory: bool = o.is_directory;
        let is_reparse_point: bool = o.is_reparse_point;
        items.push(WalkItem::Object(o));
        let ghost found = items@;
        if is_reparse_point {
            self.pending = Pending::Resolve { path, is_directory, is_reparse_point };
            return items;
        }
        if !is_directory {
            self.resume();
            return items;
        }
        let count: usize = self.open.len();
        if count > 0 {
            if let Some(name) = name {
                let canonical: String = self.open[count - 1].canonical.clone().concat("\\").concat(
                    text::to_ascii_lower(name.as_str()).as_str(),
                );
                let ghost expected = descended(self@, path@, canonical@).1;
                let mut more: Vec<WalkItem> = self.descend(path, canonical);
                let ghost added = more@;
                items.append(&mut more);
                assert(are_items(items@, seq![ItemView::Object(o)] + expected)) by {
                    assert(items@ == found + added);
                }
                return items;
            }
        }
        self.pending = Pending::Resolve { path, is_directory: true, is_reparse_point: false };
        items
    }

    /// Goes on once a path was resolved.
    fn on_resolved(
        &mut self,
        path: String,
        is_directory: bool,
        is_reparse_point: bool,
        reply: Option<String>,
    ) -> (r: Vec<WalkItem>)
        ensures
            final(self)@ == after_resolved(
                old(self)@,
                path@,
                is_directory,
                is_reparse_point,
                text::text_of(reply),
            ).0,
            are_items(
                r@,
                after_resolved(
                    old(self)@,
                    path@,
                    is_directory,
                    is_reparse_point,
                    text::text_of(reply),
                ).1,
            ),
    {
        if is_reparse_point && reply.is_none() {
            let mut items: Vec<WalkItem> = Vec::new();
            let m: String =
                "Reparse point target could not be resolved — recursion stopped at this junction/link. The object itself is in the result with its DACL; objects behind the link were not enumerated.".to_owned();
            items.push(WalkItem::Error(WalkError { path, error: CoreError::AccessDenied(m) }));
            self.resume();
            return items;
        }
        if !is_directory {
            self.resume();
            return Vec::new();
        }
        let canonical: String = match &reply {
            Some(target) => text::to_ascii_lower(target.as_str()),
            None => text::to_ascii_lower(path.as_str()),
        };
        self.descend(path, canonical)
    }

    /// Goes on once a directory was opened.
    fn on_opened(&mut self, path: String, canonical: String, reply: Result<(), String>) -> (r: Vec<
        WalkItem,
    >)
        ensures
            final(self)@ == after_opened(old(self)@, path@, canonical@, reply).0,
            are_items(r@, after_opened(old(self)@, path@, canonical@, reply).1),
    {
        let mut items: Vec<WalkItem> = Vec::new();
        match reply {
            Ok(_) => {
                let ghost before = self@.open;
                self.open.push(OpenDirectory { path, canonical });
                self.pending = Pending::Next;
                assert(self@.open =~= before.push((path@, canonical@)));
            },
            Err(m) => {
                let error: CoreError = CoreError::AccessDenied(
                    "Cannot enumerate directory: ".to_owned().concat(m.as_str()),
                );
                items.push(WalkItem::Error(WalkError { path, error }));
                self.detector.withdraw(canonical.as_str());
                self.resume();
            },
        }
        items
    }

    /// Goes on once an entry was taken.
    fn on_entry(&mut self, reply: Option<Result<DirectoryEntry, String>>, cancelled: bool) -> (r: Vec<
        WalkItem,
    >)
        requires
            old(self)@.pending is Next,
            old(self)@.open.len() > 0,
        ensures
            final(self)@ == after_entry(old(self)@, reply, cancelled).0,
            are_items(r@, after_entry(old(self)@, reply, cancelled).1),
    {
        let mut items: Vec<WalkItem> = Vec::new();
        match reply {
            None => {
                let ghost before = self@.open;
                let _ = self.open.pop();
                assert(self@.open =~= before.drop_last());
                self.detector.leave();
                self.resume();
            },
            Some(entry) => {
                if cancelled {
                    self.pending = Pending::Done;
                    return items;
                }
                match entry {
                    Ok(e) => {
                        self.pending = Pending::Read { path: e.path, name: e.name };
                    },
                    Err(m) => {
                        let error: CoreError = CoreError::AccessDenied(
                            "Directory entry error: ".to_owned().concat(m.as_str()),
                        );
                        let path: String = self.open[self.open.len() - 1].path.clone();
                        items.push(WalkItem::Error(WalkError { path, error }));
                    },
                }
            },
        }
        items
    }

    /// Goes on from the answer to what is pending, and hands out what was found.
    pub fn step(&mut self, event: WalkEvent, cancelled: bool) -> (r: Vec<WalkItem>)
        requires
            is_valid(old(self)@),
            answers(old(self)@.pending, event),
        ensures
            final(self)@ == stepped(old(self)@, event, cancelled).0,
            are_items(r@, stepped(old(self)@, event, cancelled).1),
            is_valid(final(self)@),
    {
        proof {
            lemma_step_is_valid(self@, event, cancelled);
        }
        let mut pending: Pending = Pending::Next;
        std::mem::swap(&mut pending, &mut self.pending);
        match (pending, event) {
            (Pending::Read { path, name }, WalkEvent::Read(reply)) => self.on_read(
                path,
                name,
                reply,
            ),
            (
                Pending::Resolve { path, is_directory, is_reparse_point },
                WalkEvent::Resolved(reply),
            ) => self.on_resolved(path, is_directory, is_reparse_point, reply),
            (Pending::Open { path, canonical }, WalkEvent::Opened(reply)) => self.on_opened(
                path,
                canonical,
                reply,
            ),
            (Pending::Next, WalkEvent::Entry(reply)) => self.on_entry(reply, cancelled),
            _ => Vec::new(),
        }
    }
}

/// What holds while nothing is being opened, except for what is pending.
spec fn is_settled(w: WalkView) -> bool {
    &&& w.detector.chain == w.open.map_values(|d: (Seq<char>, Seq<char>)| d.1)
    &&& w.detector.chain.no_duplicates()
    &&& forall|i: int|
        0 <= i < w.detector.chain.len() ==> w.detector.first_path.contains_key(
            #[trigger] w.detector.chain[i],
        )
    &&& w.max_depth matches Some(max) ==> w.open.len() <= max
}

proof fn lemma_descended_is_valid(w: WalkView, path: Seq<char>, canonical: Seq<char>)
    requires
        is_settled(w),
    ensures
        is_valid(descended(w, path, canonical).0),
{
    let d = entered(w.detector, canonical, path);
    let opened = w.open.map_values(|d: (Seq<char>, Seq<char>)| d.1);
    if decision(w.detector, canonical) is Fresh {
        assert forall|i: int| 0 <= i < d.chain.len() implies d.first_path.contains_key(
            #[trigger] d.chain[i],
        ) by {
            if i < w.detector.chain.len() {
                assert(d.chain[i] == w.detector.chain[i]);
            }
        }
        assert forall|i: int, j: int| 0 <= i < j < d.chain.len() implies d.chain[i]
            != d.chain[j] by {
            if j == w.detector.chain.len() {
                assert(d.chain[i] == w.detector.chain[i]);
            }
        }
        let next = descended(w, path, canonical).0;
        if may_descend(w) {
            assert(active(next) =~= opened.push(canonical));
        }
    }
}

proof fn lemma_step_is_valid(w: WalkView, event: WalkEvent, cancelled: bool)
    requires
        is_valid(w),
        answers(w.pending, event),
    ensures
        is_valid(stepped(w, event, cancelled).0),
{
    let opened = w.open.map_values(|d: (Seq<char>, Seq<char>)| d.1);
    let next = stepped(w, event, cancelled).0;
    match (w.pending, event) {
        (PendingView::Read(path, name), WalkEvent::Read(reply)) => {
            assert(is_settled(w));
            if w.open.len() > 0 && name is Some {
                lemma_descended_is_valid(w, path, child_identity(w.open.last().1, name->0));
            }
        },
        (PendingView::Resolve(path, is_directory, is_reparse_point), WalkEvent::Resolved(reply)) => {
            assert(is_settled(w));
            let target = match reply {
                Some(t) => t@,
                None => path,
            };
            lemma_descended_is_valid(w, path, text::ascii_lower(target));
        },
        (PendingView::Open(path, canonical), WalkEvent::Opened(reply)) => {
            assert(w.detector.chain.drop_last() =~= opened);
            match reply {
                Ok(_) => {
                    assert(active(next) =~= opened.push(canonical));
                },
                Err(_) => {
                    let chain = w.detector.chain;
                    lemma_left_keeps(w.detector);
                    assert(chain[chain.len() - 1] == canonical);
                    assert forall|i: int|
                        0 <= i < next.detector.chain.len() implies next.detector.first_path.contains_key(
                        #[trigger] next.detector.chain[i],
                    ) by {
                        assert(next.detector.chain[i] == chain[i]);
                    }
                },
            }
        },
        (PendingView::Next, WalkEvent::Entry(reply)) => {
            if reply is None {
                lemma_left_keeps(w.detector);
                assert(w.detector.chain.drop_last() =~= w.open.drop_last().map_values(
                    |d: (Seq<char>, Seq<char>)| d.1,
                ));
            }
        },
        _ => {},
    }
}

/// Leaving keeps the chain recorded and free of duplicates.
proof fn lemma_left_keeps(d: DetectorView)
    requires
        d.chain.no_duplicates(),
        forall|i: int| 0 <= i < d.chain.len() ==> d.first_path.contains_key(#[trigger] d.chain[i]),
    ensures
        left(d).chain.no_duplicates(),
        forall|i: int|
            0 <= i < left(d).chain.len() ==> left(d).first_path.contains_key(
                #[trigger] left(d).chain[i],
            ),
{
    assert forall|i: int| 0 <= i < left(d).chain.len() implies left(d).first_path.contains_key(
        #[trigger] left(d).chain[i],
    ) by {
        assert(left(d).chain[i] == d.chain[i]);
    }
}

/// Whether `events` answer what a walk in the state `w` asks, one by one. With
/// each event comes whether the walk was cancelled.
pub open spec fn is_run(w: WalkView, events: Seq<(WalkEvent, bool)>) -> bool
    decreases events.len(),
{
    events.len() == 0 || {
        &&& is_run(w, events.drop_last())
        &&& answers(state_after(w, events.drop_last()).pending, events.last().0)
    }
}

/// The state of a walk after `events`.
pub open spec fn state_after(w: WalkView, events: Seq<(WalkEvent, bool)>) -> WalkView
    decreases events.len(),
{
    if events.len() == 0 {
        w
    } else {
        stepped(state_after(w, events.drop_last()), events.last().0, events.last().1).0
    }
}

/// Path and identity of the directories that were opened during `events`, and whose
/// entries the walk has enumerated or is enumerating.
pub open spec fn enumerated(w: WalkView, events: Seq<(WalkEvent, bool)>) -> Seq<
    (Seq<char>, Seq<char>),
>
    decreases events.len(),
{
    if events.len() == 0 {
        Seq::empty()
    } else {
        let init = enumerated(w, events.drop_last());
        match (state_after(w, events.drop_last()).pending, events.last().0) {
            (PendingView::Open(path, canonical), WalkEvent::Opened(Ok(_))) => init.push(
                (path, canonical),
            ),
            _ => init,
        }
    }
}

/// Whatever the file system answers, a walk stays valid: its chain is made of the
/// directories that are open, no directory is on it twice, and none is deeper
/// than the limit.
pub proof fn law_walk_stays_valid(
    root: Seq<char>,
    max_depth: Option<u32>,
    cancelled: bool,
    events: Seq<(WalkEvent, bool)>,
)
    requires
        is_run(started(root, max_depth, cancelled), events),
    ensures
        is_valid(state_after(started(root, max_depth, cancelled), events)),
    decreases events.len(),
{
    let w = started(root, max_depth, cancelled);
    if events.len() == 0 {
        assert(active(w) =~= Seq::empty());
    } else {
        law_walk_stays_valid(root, max_depth, cancelled, events.drop_last());
        lemma_step_is_valid(
            state_after(w, events.drop_last()),
            events.last().0,
            events.last().1,
        );
    }
}

/// What a step does to the record: a directory that is going to be opened is added,
/// one that could not be opened is taken out, and nothing else changes.
proof fn lemma_step_records(w: WalkView, event: WalkEvent, cancelled: bool)
    requires
        answers(w.pending, event),
    ensures
        ({
            let next = stepped(w, event, cancelled).0;
            let before = w.detector.first_path;
            let after = next.detector.first_path;
            match w.pending {
                PendingView::Open(_, canonical) => {
                    &&& !(next.pending is Open)
                    &&& after == (if event->Opened_0 is Ok {
                        before
                    } else {
                        before.remove(canonical)
                    })
                },
                _ => match next.pending {
                    PendingView::Open(path, canonical) => {
                        &&& !before.contains_key(canonical)
                        &&& after == before.insert(canonical, path)
                    },
                    _ => after == before,
                },
            }
        }),
{
}

/// The record of a walk: it holds the directories that were enumerated, each once and
/// under its path, and the one that is being opened.
proof fn lemma_record_is_what_was_enumerated(w: WalkView, events: Seq<(WalkEvent, bool)>)
    requires
        is_run(w, events),
        w.detector.first_path == Map::<Seq<char>, Seq<char>>::empty(),
        !(w.pending is Open),
    ensures
        ({
            let s = state_after(w, events);
            let record = s.detector.first_path;
            let e = enumerated(w, events);
            &&& forall|c: Seq<char>| #[trigger]
                record.contains_key(c) ==> s.pending == PendingView::Open(record[c], c)
                    || e.contains((record[c], c))
            &&& forall|i: int|
                0 <= i < e.len() ==> record.contains_key((#[trigger] e[i]).1) && record[e[i].1]
                    == e[i].0
            &&& forall|i: int, j: int| 0 <= i < j < e.len() ==> e[i].1 != e[j].1
            &&& s.pending matches PendingView::Open(p, c) ==> record.contains_key(c) && record[c]
                == p && forall|i: int| 0 <= i < e.len() ==> (#[trigger] e[i]).1 != c
        }),
    decreases events.len(),
{
    if events.len() > 0 {
        let earlier = events.drop_last();
        let s0 = state_after(w, earlier);
        let s = state_after(w, events);
        let e0 = enumerated(w, earlier);
        let e = enumerated(w, events);
        let record0 = s0.detector.first_path;
        let record = s.detector.first_path;
        lemma_record_is_what_was_enumerated(w, earlier);
        lemma_step_records(s0, events.last().0, events.last().1);
        assert forall|c: Seq<char>| #[trigger] record.contains_key(c) implies s.pending
            == PendingView::Open(record[c], c) || e.contains((record[c], c)) by {
            if record0.contains_key(c) && record0[c] == record[c] {
                if e0.contains((record0[c], c)) {
                    let i = choose|i: int| 0 <= i < e0.len() && e0[i] == (record0[c], c);
                    assert(e[i] == e0[i]);
                } else {
                    assert(e[e0.len() as int] == (record[c], c));
                }
            }
        }
        assert forall|i: int| 0 <= i < e.len() implies record.contains_key((#[trigger] e[i]).1)
            && record[e[i].1] == e[i].0 by {
            if i < e0.len() {
                assert(e[i] == e0[i]);
            }
        }
        assert forall|i: int, j: int| 0 <= i < j < e.len() implies e[i].1 != e[j].1 by {
            assert(e[i] == e0[i]);
            if j < e0.len() {
                assert(e[j] == e0[j]);
            }
        }
    }
}

/// Each directory is enumerated at most once in a walk, whatever the paths that
/// lead to it.
pub proof fn law_no_directory_is_opened_twice(
    root: Seq<char>,
    max_depth: Option<u32>,
    cancelled: bool,
    events: Seq<(WalkEvent, bool)>,
    i: int,
    j: int,
)
    requires
        is_run(started(root, max_depth, cancelled), events),
        0 <= i < j < enumerated(started(root, max_depth, cancelled), events).len(),
    ensures
        ({
            let e = enumerated(started(root, max_depth, cancelled), events);
            e[i].1 != e[j].1
        }),
{
    lemma_record_is_what_was_enumerated(started(root, max_depth, cancelled), events);
}

/// Whatever is on record and not just being opened was enumerated, under the path on
/// record; and what was enumerated stays on record.
pub proof fn law_recorded_was_enumerated(
    root: Seq<char>,
    max_depth: Option<u32>,
    cancelled: bool,
    events: Seq<(WalkEvent, bool)>,
    canonical: Seq<char>,
    path: Seq<char>,
)
    requires
        is_run(started(root, max_depth, cancelled), events),
    ensures
        ({
            let w = started(root, max_depth, cancelled);
            let s = state_after(w, events);
            let record = s.detector.first_path;
            s.pending != PendingView::Open(path, canonical) ==> (record.contains_key(canonical)
                && record[canonical] == path) == enumerated(w, events).contains((path, canonical))
        }),
{
    let w = started(root, max_depth, cancelled);
    lemma_record_is_what_was_enumerated(w, events);
    let e = enumerated(w, events);
    if e.contains((path, canonical)) {
        let i = choose|i: int| 0 <= i < e.len() && e[i] == (path, canonical);
        assert(e[i].1 == canonical);
    }
}

/// Where the walk reports a duplicate target, the directory was enumerated before,
/// under the path that the message names.
pub proof fn law_duplicate_was_enumerated(
    root: Seq<char>,
    max_depth: Option<u32>,
    cancelled: bool,
    events: Seq<(WalkEvent, bool)>,
    next: (WalkEvent, bool),
    i: int,
    message: Seq<char>,
)
    requires
        is_run(started(root, max_depth, cancelled), events.push(next)),
        ({
            let s = state_after(started(root, max_depth, cancelled), events);
            let items = stepped(s, next.0, next.1).1;
            &&& 0 <= i < items.len()
            &&& items[i] matches ItemView::Error(_, ErrorView::ReparseDuplicateTarget(m))
            &&& m == message
        }),
    ensures
        exists|path: Seq<char>, canonical: Seq<char>|
            message == #[trigger] duplicate_message(path, canonical) && enumerated(
                started(root, max_depth, cancelled),
                events,
            ).contains((path, canonical)),
{
    let w = started(root, max_depth, cancelled);
    assert(events.push(next).drop_last() =~= events);
    let s = state_after(w, events);
    law_walk_stays_valid(root, max_depth, cancelled, events);
    lemma_record_is_what_was_enumerated(w, events);
    let canonical = match (s.pending, next.0) {
        (PendingView::Read(_, name), _) => child_identity(s.open.last().1, name->0),
        (PendingView::Resolve(path, _, _), WalkEvent::Resolved(reply)) => text::ascii_lower(
            match reply {
                Some(t) => t@,
                None => path,
            },
        ),
        _ => Seq::empty(),
    };
    let first_path = s.detector.first_path[canonical];
    assert(decision(s.detector, canonical) == DecisionView::Duplicate(first_path));
    assert(message == duplicate_message(first_path, canonical));
    assert(enumerated(w, events).contains((first_path, canonical)));
}

/// A directory that is met within the depth limit is enumerated, was enumerated
/// before, or is asked to be opened: it is on record afterwards.
pub proof fn law_directory_within_limit_is_recorded(
    w: WalkView,
    path: Seq<char>,
    canonical: Seq<char>,
)
    requires
        is_valid(w),
        may_descend(w),
    ensures
        ({
            let (next, items) = descended(w, path, canonical);
            &&& next.detector.first_path.contains_key(canonical)
            &&& next.pending == PendingView::Open(path, canonical) || items.len() == 1
        }),
{
    if w.detector.chain.contains(canonical) {
        let i = choose|i: int|
            0 <= i < w.detector.chain.len() && w.detector.chain[i] == canonical;
        assert(w.detector.first_path.contains_key(w.detector.chain[i]));
    }
}

/// A directory that the depth limit keeps closed, or that cannot be opened, leaves no
/// trace: it is fresh when another path leads to it.
pub proof fn law_unopened_directory_stays_fresh(
    w: WalkView,
    path: Seq<char>,
    canonical: Seq<char>,
    message: String,
)
    requires
        decision(w.detector, canonical) is Fresh,
    ensures
        ({
            let next = descended(w, path, canonical).0;
            let closed = if may_descend(w) {
                after_opened(next, path, canonical, Err(message)).0
            } else {
                next
            };
            closed.detector == w.detector
        }),
{
    let e = entered(w.detector, canonical, path);
    assert(withdrawn(e, canonical).chain =~= w.detector.chain);
    assert(withdrawn(e, canonical).first_path =~= w.detector.first_path);
}

/// Whether an event reports a failure that a walk which is not cancelled has to
/// deal with.
pub open spec fn is_failure(pending: PendingView, event: WalkEvent) -> bool {
    match event {
        WalkEvent::Read(reply) => reply is Err,
        WalkEvent::Resolved(reply) => reply is None && pending matches PendingView::Resolve(
            _,
            _,
            true,
        ),
        WalkEvent::Opened(reply) => reply is Err,
        WalkEvent::Entry(reply) => reply matches Some(entry) && entry is Err,
    }
}

/// Nothing is skipped silently: every failure gives exactly one error, and the
/// walk goes on with the innermost open directory.
pub proof fn law_failures_are_reported(w: WalkView, event: WalkEvent)
    requires
        is_valid(w),
        answers(w.pending, event),
        is_failure(w.pending, event),
    ensures
        ({
            let (next, items) = stepped(w, event, false);
            &&& items.len() == 1
            &&& items[0] is Error
            &&& next.open == w.open
            &&& next.pending == resumed(w).pending
        }),
{
}

/// Every object that is read is handed out, before anything else.
pub proof fn law_objects_are_handed_out(w: WalkView, o: FileSystemObject, cancelled: bool)
    requires
        w.pending is Read,
    ensures
        ({
            let items = stepped(w, WalkEvent::Read(Ok(o)), cancelled).1;
            &&& items.len() >= 1
            &&& items[0] == ItemView::Object(o)
            &&& forall|i: int| 1 <= i < items.len() ==> (#[trigger] items[i]) is Error
        }),
{
}

/// A walk that is cancelled between two entries ends: nothing more is asked and
/// nothing more is handed out.
pub proof fn law_cancelled_walk_ends(w: WalkView, entry: Result<DirectoryEntry, String>)
    requires
        w.pending is Next,
    ensures
        stepped(w, WalkEvent::Entry(Some(entry)), true).0.pending is Done,
        stepped(w, WalkEvent::Entry(Some(entry)), true).1.len() == 0,
{
}

/// A directory that was left and is reached again is a duplicate and no cycle,
/// and the first path is named.
pub proof fn law_left_directory_is_a_duplicate(
    d: DetectorView,
    canonical: Seq<char>,
    path: Seq<char>,
)
    requires
        decision(d, canonical) is Fresh,
    ensures
        decision(entered(d, canonical, path), canonical) is Cycle,
        decision(left(entered(d, canonical, path)), canonical) == DecisionView::Duplicate(path),
        left(entered(d, canonical, path)).chain == d.chain,
{
    let e = entered(d, canonical, path);
    assert(e.chain[e.chain.len() - 1] == canonical);
    assert(left(e).chain =~= d.chain);
}

/// A directory that was not met before is opened wherever the depth limit allows it:
/// with a limit while fewer directories than that are open, without one always. At the
/// limit it is left alone, and nothing is reported.
pub proof fn law_fresh_directory_is_opened_up_to_the_limit(
    w: WalkView,
    path: Seq<char>,
    canonical: Seq<char>,
)
    requires
        !w.detector.chain.contains(canonical),
        !w.detector.first_path.contains_key(canonical),
    ensures
        ({
            let (next, items) = descended(w, path, canonical);
            &&& items.len() == 0
            &&& next.open == w.open
            &&& next.max_depth == w.max_depth
            &&& (w.max_depth is None || w.open.len() < w.max_depth->0) ==> {
                &&& next.pending == PendingView::Open(path, canonical)
                &&& next.detector.chain == w.detector.chain.push(canonical)
                &&& next.detector.first_path == w.detector.first_path.insert(canonical, path)
            }
            &&& (w.max_depth matches Some(max) && w.open.len() >= max) ==> {
                &&& !(next.pending is Open)
                &&& next.detector == w.detector
            }
        }),
{
}

/// A directory that is met again is not opened, and is reported under the path by which
/// it was met: as a cycle where it is one of the directories that are being walked, else
/// as a duplicate. The message names the target, and of a duplicate the first path.
pub proof fn law_known_directory_is_reported(
    w: WalkView,
    path: Seq<char>,
    canonical: Seq<char>,
)
    requires
        w.detector.chain.contains(canonical) || w.detector.first_path.contains_key(canonical),
    ensures
        ({
            let (next, items) = descended(w, path, canonical);
            &&& !(next.pending is Open)
            &&& next.detector == w.detector
            &&& next.open == w.open
            &&& items.len() == 1
            &&& items[0] matches ItemView::Error(p, e) && p == path && (
            if w.detector.chain.contains(canonical) {
                e matches ErrorView::ReparseCycle(m) && text::occurs_in(canonical, m)
            } else {
                e matches ErrorView::ReparseDuplicateTarget(m) && text::occurs_in(canonical, m)
                    && text::occurs_in(w.detector.first_path[canonical], m)
            })
        }),
{
    let c =
        "Reparse point target is an ancestor of the current traversal chain — descending would loop forever; recursion stopped at this junction/link. Target: "@;
    let n = c.len() as int;
    let m = cycle_message(canonical);
    assert(m.subrange(n, n + canonical.len()) =~= canonical);
    assert(text::occurs_at(canonical, m, n));
    let first = w.detector.first_path[canonical];
    let a = "Reparse point target already enumerated in this scan under '"@;
    let b =
        "' — subtree not enumerated again under this namespace path (duplicate target, not a cycle). Target: "@;
    let d = duplicate_message(first, canonical);
    let at = a.len() as int;
    let target_at = (a.len() + first.len() + b.len()) as int;
    assert(d.subrange(at, at + first.len()) =~= first);
    assert(d.subrange(target_at, target_at + canonical.len()) =~= canonical);
    assert(text::occurs_at(first, d, at));
    assert(text::occurs_at(canonical, d, target_at));
}

/// A plain directory inside an open one is told from others by the identity of that one,
/// a backslash, and its own name in lower case. It is opened at once where it was not met
/// before and the depth limit allows it.
pub proof fn law_plain_directory_is_entered(w: WalkView, o: FileSystemObject, cancelled: bool)
    requires
        w.pending is Read,
        w.pending->Read_1 is Some,
        w.open.len() > 0,
        o.is_directory && !o.is_reparse_point,
    ensures
        ({
            let canonical = w.open.last().1.push('\\') + text::ascii_lower(w.pending->Read_1->0);
            let (next, items) = stepped(w, WalkEvent::Read(Ok(o)), cancelled);
            &&& !w.detector.chain.contains(canonical) && !w.detector.first_path.contains_key(
                canonical,
            ) && (w.max_depth is None || w.open.len() < w.max_depth->0) ==> {
                &&& next.pending == PendingView::Open(w.pending->Read_0, canonical)
                &&& items =~= seq![ItemView::Object(o)]
            }
            &&& (w.max_depth matches Some(max) && w.open.len() >= max) ==> !(next.pending is Open)
        }),
{
    reveal_strlit("\\");
    assert(w.open.last().1 + "\\"@ =~= w.open.last().1.push('\\'));
}

/// What is read decides how the walk goes on: behind a reparse point its target is asked
/// for, be it a directory or not; a file is the end of its branch; and a directory whose
/// identity no parent and name give is resolved first.
pub proof fn law_object_decides_what_is_asked(w: WalkView, o: FileSystemObject, cancelled: bool)
    requires
        w.pending is Read,
    ensures
        ({
            let next = stepped(w, WalkEvent::Read(Ok(o)), cancelled).0;
            let path = w.pending->Read_0;
            &&& next.open == w.open
            &&& o.is_reparse_point ==> next.pending == PendingView::Resolve(
                path,
                o.is_directory,
                true,
            )
            &&& !o.is_reparse_point && !o.is_directory ==> next.pending == (if w.open.len() == 0 {
                PendingView::Done
            } else {
                PendingView::Next
            })
            &&& !o.is_reparse_point && o.is_directory && (w.open.len() == 0
                || w.pending->Read_1 is None) ==> next.pending == PendingView::Resolve(
                path,
                true,
                false,
            )
        }),
{
}

/// A directory behind a resolved path goes by the target in lower case. One that is no
/// reparse point and has no target goes by its path. It is opened where it was not met
/// before and the depth limit allows it; what is no directory never is.
pub proof fn law_resolved_directory_is_entered(
    w: WalkView,
    reply: Option<String>,
    cancelled: bool,
)
    requires
        w.pending is Resolve,
        reply is Some || !w.pending->Resolve_2,
    ensures
        ({
            let path = w.pending->Resolve_0;
            let canonical = text::ascii_lower(
                if reply is Some {
                    reply->0@
                } else {
                    path
                },
            );
            let (next, items) = stepped(w, WalkEvent::Resolved(reply), cancelled);
            &&& next.open == w.open
            &&& !w.pending->Resolve_1 ==> !(next.pending is Open) && items.len() == 0
            &&& w.pending->Resolve_1 && !w.detector.chain.contains(canonical)
                && !w.detector.first_path.contains_key(canonical) && (w.max_depth is None
                || w.open.len() < w.max_depth->0) ==> {
                &&& next.pending == PendingView::Open(path, canonical)
                &&& items.len() == 0
            }
            &&& (w.max_depth matches Some(max) && w.open.len() >= max) ==> !(next.pending is Open)
        }),
{
}

/// A directory that was opened is the innermost from then on, and its entries are taken.
/// When they are exhausted it is closed, and the walk is where it was before: with the
/// directory around it, or at its end. In between the directory is known by its path.
pub proof fn law_opened_directory_is_walked_and_closed(w: WalkView, cancelled: bool)
    requires
        w.pending is Open,
        w.detector.chain.len() > 0,
    ensures
        ({
            let (opened, a) = stepped(w, WalkEvent::Opened(Ok(())), cancelled);
            let (closed, b) = stepped(opened, WalkEvent::Entry(None), cancelled);
            &&& a.len() == 0 && b.len() == 0
            &&& opened.pending is Next
            &&& opened.open == w.open.push((w.pending->Open_0, w.pending->Open_1))
            &&& opened.detector == w.detector
            &&& opened.max_depth == w.max_depth
            &&& closed.open == w.open
            &&& closed.max_depth == w.max_depth
            &&& closed.detector.chain == w.detector.chain.drop_last()
            &&& closed.detector.first_path == w.detector.first_path
            &&& closed.pending == (if w.open.len() == 0 {
                PendingView::Done
            } else {
                PendingView::Next
            })
        }),
{
    assert(w.open.push((w.pending->Open_0, w.pending->Open_1)).drop_last() =~= w.open);
}

/// Every entry of an open directory is read, by its own path and name, unless the walk
/// was cancelled. One that the system could not tell is reported under the directory,
/// with the reason, and the next one is taken.
pub proof fn law_every_entry_is_read(w: WalkView, e: DirectoryEntry, message: String)
    requires
        w.pending is Next,
        w.open.len() > 0,
    ensures
        ({
            let (next, items) = stepped(w, WalkEvent::Entry(Some(Ok(e))), false);
            &&& items.len() == 0
            &&& next.pending is Read && next.pending->Read_0 == e.path@
            &&& (next.pending->Read_1 is Some) == (e.name is Some)
            &&& e.name is Some ==> next.pending->Read_1->0 == e.name->0@
            &&& next.open == w.open && next.detector == w.detector && next.max_depth == w.max_depth
        }),
        ({
            let (next, items) = stepped(w, WalkEvent::Entry(Some(Err(message))), false);
            &&& next == w
            &&& items.len() == 1
            &&& items[0] matches ItemView::Error(p, ErrorView::AccessDenied(m)) && p
                == w.open.last().0 && message@.is_suffix_of(m)
        }),
{
    let m = "Directory entry error: "@ + message@;
    assert(m.subrange(m.len() - message@.len(), m.len() as int) =~= message@);
}

/// A failure is reported under the path that was asked for, with what the system said,
/// and the walk knows as much of the directories as before the attempt.
pub proof fn law_failure_names_its_path(w: WalkView, error: CoreError, message: String)
    ensures
        w.pending is Read ==> stepped(w, WalkEvent::Read(Err(error)), false).1 =~= seq![
            ItemView::Error(w.pending->Read_0, ErrorView::Given(error)),
        ],
        w.pending is Open && w.detector.chain.len() > 0 && w.detector.chain.last()
            == w.pending->Open_1 ==> {
            let (next, items) = stepped(w, WalkEvent::Opened(Err(message)), false);
            &&& items.len() == 1
            &&& items[0] matches ItemView::Error(p, ErrorView::AccessDenied(m)) && p
                == w.pending->Open_0 && message@.is_suffix_of(m)
            &&& next.detector.chain == w.detector.chain.drop_last()
            &&& !next.detector.first_path.contains_key(w.pending->Open_1)
            &&& forall|c: Seq<char>|
                c != w.pending->Open_1 ==> next.detector.first_path.contains_key(c)
                    == #[trigger] w.detector.first_path.contains_key(c)
        },
{
    let m = "Cannot enumerate directory: "@ + message@;
    assert(m.subrange(m.len() - message@.len(), m.len() as int) =~= message@);
}

/// A walk starts with its root, unless it was cancelled, knows no directory, and keeps
/// the limit that it was given.
pub proof fn law_walk_starts_at_the_root(root: Seq<char>, max_depth: Option<u32>, cancelled: bool)
    ensures
        ({
            let w = started(root, max_depth, cancelled);
            &&& w.max_depth == max_depth
            &&& w.open.len() == 0
            &&& w.detector.chain.len() == 0
            &&& forall|c: Seq<char>| !(#[trigger] w.detector.first_path.contains_key(c))
            &&& cancelled ==> w.pending is Done
            &&& !cancelled ==> w.pending == PendingView::Read(root, None)
        }),
{
}

/// A buffered walk loses nothing: what was handed out is what was collected, each thing
/// in the list of its sort, behind those of its sort that came before.
pub proof fn law_buffered_walk_is_complete(items: Seq<WalkItem>, i: int)
    requires
        0 <= i < items.len(),
    ensures
        objects_of(items).len() + errors_of(items).len() == items.len(),
        ({
            let objects = items.take(i).filter(|x: WalkItem| x is Object).len() as int;
            let errors = items.take(i).filter(|x: WalkItem| x is Error).len() as int;
            match items[i] {
                WalkItem::Object(o) => objects < objects_of(items).len() && objects_of(
                    items,
                )[objects] == o,
                WalkItem::Error(e) => errors < errors_of(items).len() && errors_of(items)[errors]
                    == e,
            }
        }),
    decreases items.len(),
{
    lemma_sorts_are_counted(items);
    lemma_sorts_are_counted(items.drop_last());
    if i < items.len() - 1 {
        law_buffered_walk_is_complete(items.drop_last(), i);
        assert(items.drop_last().take(i) =~= items.take(i));
    } else {
        assert(items.take(i) =~= items.drop_last());
    }
}

proof fn lemma_sorts_are_counted(items: Seq<WalkItem>)
    ensures
        objects_of(items).len() == items.filter(|x: WalkItem| x is Object).len(),
        errors_of(items).len() == items.filter(|x: WalkItem| x is Error).len(),
        objects_of(items).len() + errors_of(items).len() == items.len(),
    decreases items.len(),
{
    reveal(Seq::filter);
    if items.len() > 0 {
        lemma_sorts_are_counted(items.drop_last());
    }
}

} // verus!

//! Watch registry and event pipeline: tracks named watches over
//! directory trees, owns each watch's notification subscription, turns
//! debounced change signals into filtered, watch-tagged events, and
//! performs the initial recursive scan of a newly watched tree.

use vstd::prelude::*;
use crate::protocol::{Event, EventModel, WatchInfo};
use crate::filter::{is_hidden, is_media_file, spec_is_hidden, spec_media_type};
use crate::codec::{starts_lit, str_eq_lit};
use std::sync::mpsc::{Receiver, Sender};
use notify::RecommendedWatcher;
use notify_debouncer_mini::Debouncer;

verus! {

// ---------------------------------------------------------------------
// Declarations of the outside types the registry holds
// ---------------------------------------------------------------------

#[verifier::external_type_specification]
#[verifier::external_body]
#[verifier::reject_recursive_types(T)]
pub struct ExSender<T>(Sender<T>);

#[verifier::external_type_specification]
#[verifier::external_body]
#[verifier::reject_recursive_types(T)]
pub struct ExReceiver<T>(Receiver<T>);

/// Exclusively owned handle to one notification-source registration;
/// dropping it stops the debouncer and releases the underlying watch.
/// The debouncer inside is opaque to verification: `notify`'s `Watcher`
/// trait bound keeps its type from being declared directly.
#[verifier::external_body]
pub struct Subscription {
    debouncer: Debouncer<RecommendedWatcher>,
}

// ---------------------------------------------------------------------
// Trusted wrappers around the outside calls
// ---------------------------------------------------------------------

/// Relies on `std::sync::mpsc::channel`: creates the connected
/// sender/receiver pair that carries events to the delivery loop.
#[verifier::external_body]
pub fn create_event_channel() -> (Sender<Event>, Receiver<Event>) {
    std::sync::mpsc::channel()
}

/// Relies on `Sender::clone`: a clone delivers to the same queue.
#[verifier::external_body]
fn clone_sender(tx: &Sender<Event>) -> Sender<Event> {
    tx.clone()
}

/// Relies on `Sender::send`: hands one event to the queue; a failure
/// means the receiving end is gone and the event is dropped, as every
/// event is once the connection is torn down.
#[verifier::external_body]
fn send_event(tx: &Sender<Event>, e: Event) {
    let _ = tx.send(e);
}

/// Relies on `Path::exists`: asks the filesystem whether the path names
/// an existing entry; nothing is promised of the answer.
#[verifier::external_body]
fn path_exists(path: &str) -> bool {
    std::path::Path::new(path).exists()
}

/// Relies on `Path::is_dir`: asks the filesystem whether the path names
/// a directory; nothing is promised of the answer.
#[verifier::external_body]
fn path_is_dir(path: &str) -> bool {
    std::path::Path::new(path).is_dir()
}

/// Relies on `Path::read_dir`: lists a directory's entries as full
/// paths; the error case carries the message.
#[verifier::external_body]
fn list_dir(path: &str) -> Result<Vec<String>, String> {
    match std::path::Path::new(path).read_dir() {
        Ok(rd) => Ok(
            rd.filter_map(|e| e.ok()).map(
                |e| e.path().to_string_lossy().into_owned(),
            ).collect(),
        ),
        Err(e) => Err(e.to_string()),
    }
}

/// Relies on `notify_debouncer_mini::new_debouncer`: starts a debounced
/// watcher whose callback converts each batch to plain values and hands
/// them to `deliver_signals`, and errors to `deliver_error`.
#[verifier::external_body]
fn new_subscription(
    debounce_ms: u64,
    watch_id: String,
    root: String,
    tx: Sender<Event>,
) -> Result<Subscription, String> {
    notify_debouncer_mini::new_debouncer(
        std::time::Duration::from_millis(debounce_ms),
        move |res: notify_debouncer_mini::DebounceEventResult| match res {
            Ok(evs) => {
                let batch: Vec<(String, bool)> = evs.iter().map(
                    |e| (
                        e.path.to_string_lossy().into_owned(),
                        matches!(e.kind, notify_debouncer_mini::DebouncedEventKind::Any),
                    ),
                ).collect();
                deliver_signals(&watch_id, &root, &tx, &batch);
            }
            Err(e) => deliver_error(&watch_id, &tx, &e.to_string()),
        },
    ).map(|debouncer| Subscription { debouncer }).map_err(|e| e.to_string())
}

/// Relies on `Debouncer::watcher` and `Watcher::watch`: starts watching
/// the tree rooted at `path` recursively.
#[verifier::external_body]
fn start_watch(d: &mut Subscription, path: &str) -> Result<(), String> {
    d.debouncer.watcher().watch(
        std::path::Path::new(path),
        notify::RecursiveMode::Recursive,
    ).map_err(|e| e.to_string())
}

// ---------------------------------------------------------------------
// Relative paths and the pipeline's decision rules
// ---------------------------------------------------------------------

/// A path with the watch root's prefix stripped; the path itself when
/// it does not lie under the root.
pub open spec fn rel_of(root: Seq<char>, p: Seq<char>) -> Seq<char> {
    if root.len() < p.len() && p.take(root.len() as int) == root && p[root.len() as int] == '/' {
        p.skip((root.len() + 1) as int)
    } else {
        p
    }
}

/// Computes `rel_of`.
pub fn relative_to(root: &str, p: &str) -> (r: String)
    ensures
        r@ == rel_of(root@, p@),
{
    let rl = root.unicode_len();
    let pl = p.unicode_len();
    proof {
        assert(p@.skip(0) =~= p@);
    }
    if rl < pl && starts_lit(p, 0, root) && p.get_char(rl) == '/' {
        let rest = p.substring_char(rl + 1, pl);
        proof {
            assert(p@.subrange((rl + 1) as int, pl as int) =~= p@.skip((rl + 1) as int));
        }
        rest.to_owned()
    } else {
        p.to_owned()
    }
}

/// What one scan step reports for an entry: nothing when it is hidden,
/// `DirAdded` for a directory, `FileAdded` for a media file, nothing
/// for any other file.
pub open spec fn spec_scan_event(
    watch_id: Seq<char>,
    root: Seq<char>,
    path: Seq<char>,
    dir: bool,
) -> Option<EventModel> {
    if spec_is_hidden(path) {
        None
    } else if dir {
        Some(
            EventModel::DirAdded { watch_id, path, relative: rel_of(root, path) },
        )
    } else if spec_media_type(path) is Some {
        Some(
            EventModel::FileAdded { watch_id, path, relative: rel_of(root, path) },
        )
    } else {
        None
    }
}

/// The scan's decision for one directory entry, given whether the
/// filesystem reports it as a directory.
pub fn scan_event_for(watch_id: &str, root: &str, path: &str, dir: bool) -> (r: Option<Event>)
    ensures
        match r {
            Some(e) => spec_scan_event(watch_id@, root@, path@, dir) == Some(e@),
            None => spec_scan_event(watch_id@, root@, path@, dir) is None,
        },
{
    if is_hidden(path) {
        None
    } else if dir {
        Some(
            Event::DirAdded {
                watch_id: watch_id.to_owned(),
                path: path.to_owned(),
                relative: relative_to(root, path),
            },
        )
    } else if is_media_file(path) {
        Some(
            Event::FileAdded {
                watch_id: watch_id.to_owned(),
                path: path.to_owned(),
                relative: relative_to(root, path),
            },
        )
    } else {
        None
    }
}

/// What a settled change signal produces once the path's current state
/// is re-checked: a hidden path is dropped; an existing directory is
/// `DirAdded`; an existing media file is `FileAdded`; a vanished path
/// is `FileRemoved` when it classifies as media and `DirRemoved`
/// otherwise; an existing non-media file is dropped.
pub open spec fn spec_signal_event(
    watch_id: Seq<char>,
    root: Seq<char>,
    path: Seq<char>,
    present: bool,
    dir: bool,
) -> Option<EventModel> {
    if spec_is_hidden(path) {
        None
    } else if present && dir {
        Some(
            EventModel::DirAdded { watch_id, path, relative: rel_of(root, path) },
        )
    } else if present && spec_media_type(path) is Some {
        Some(
            EventModel::FileAdded { watch_id, path, relative: rel_of(root, path) },
        )
    } else if present {
        None
    } else if spec_media_type(path) is Some {
        Some(
            EventModel::FileRemoved { watch_id, path, relative: rel_of(root, path) },
        )
    } else {
        Some(
            EventModel::DirRemoved { watch_id, path, relative: rel_of(root, path) },
        )
    }
}

/// The pipeline's decision for one settled signal, given the re-checked
/// filesystem state of its path.
pub fn signal_event(watch_id: &str, root: &str, path: &str, present: bool, dir: bool) -> (r:
    Option<Event>)
    ensures
        match r {
            Some(e) => spec_signal_event(watch_id@, root@, path@, present, dir) == Some(e@),
            None => spec_signal_event(watch_id@, root@, path@, present, dir) is None,
        },
{
    if is_hidden(path) {
        return None;
    }
    let wid = watch_id.to_owned();
    let p = path.to_owned();
    let relative = relative_to(root, path);
    if present && dir {
        Some(Event::DirAdded { watch_id: wid, path: p, relative })
    } else if present && is_media_file(path) {
        Some(Event::FileAdded { watch_id: wid, path: p, relative })
    } else if present {
        None
    } else if is_media_file(path) {
        Some(Event::FileRemoved { watch_id: wid, path: p, relative })
    } else {
        Some(Event::DirRemoved { watch_id: wid, path: p, relative })
    }
}

/// Applies the pipeline to one debounced batch: each settled path is
/// re-checked against the filesystem, classified, and its event sent;
/// ongoing signals are dropped.
pub(crate) fn deliver_signals(watch_id: &str, root: &str, tx: &Sender<Event>, batch: &Vec<
    (String, bool),
>) {
    let mut i: usize = 0;
    while i < batch.len()
        decreases batch.len() - i,
    {
        let settled = batch[i].1;
        if settled {
            let p = &batch[i].0;
            let present = path_exists(p.as_str());
            let dir = path_is_dir(p.as_str());
            match signal_event(watch_id, root, p.as_str(), present, dir) {
                Some(e) => send_event(tx, e),
                None => {}
            }
        }
        i += 1;
    }
}

/// Translates a notification-source error into an `Error` event tagged
/// with the affected watch's id.
pub(crate) fn deliver_error(watch_id: &str, tx: &Sender<Event>, message: &str) {
    let m = String::from_str("Watch error: ").concat(message);
    send_event(tx, Event::Error { message: m, watch_id: Some(watch_id.to_owned()) });
}

// ---------------------------------------------------------------------
// The initial recursive scan
// ---------------------------------------------------------------------

/// One scan event is well-formed for its watch: tagged with the watch
/// id, never hidden, a file only when it classifies as media, and its
/// relative path computed against the watch root.
pub open spec fn scan_event_ok(watch_id: Seq<char>, root: Seq<char>, e: EventModel) -> bool {
    match e {
        EventModel::DirAdded { watch_id: w, path, relative } => w == watch_id
            && !spec_is_hidden(path) && relative == rel_of(root, path),
        EventModel::FileAdded { watch_id: w, path, relative } => w == watch_id
            && !spec_is_hidden(path) && spec_media_type(path) is Some && relative == rel_of(
            root,
            path,
        ),
        _ => false,
    }
}

/// Scans one directory depth-first, appending an event for every
/// non-hidden directory and media file found; `depth` bounds the
/// recursion into subdirectories.
fn scan_dir(watch_id: &str, root: &str, dir: &str, depth: u64, out: &mut Vec<Event>)
    ensures
        final(out)@.len() >= old(out)@.len(),
        final(out)@.take(old(out)@.len() as int) == old(out)@,
        forall|k: int|
            old(out)@.len() <= k < final(out)@.len() ==> scan_event_ok(
                watch_id@,
                root@,
                final(out)@[k]@,
            ),
    decreases depth,
{
    if depth == 0 {
        proof {
            assert(out@.take(out@.len() as int) =~= out@);
        }
        return;
    }
    let entries = match list_dir(dir) {
        Ok(v) => v,
        Err(_) => {
            proof {
                assert(out@.take(out@.len() as int) =~= out@);
            }
            return;
        }
    };
    let ghost base = out@;
    let mut i: usize = 0;
    while i < entries.len()
        invariant
            out@.len() >= base.len(),
            out@.take(base.len() as int) == base,
            forall|k: int|
                base.len() <= k < out@.len() ==> scan_event_ok(watch_id@, root@, out@[k]@),
            depth >= 1,
        decreases entries.len() - i,
    {
        let ghost before = out@;
        let p = &entries[i];
        let dir = path_is_dir(p.as_str());
        match scan_event_for(watch_id, root, p.as_str(), dir) {
            Some(ev) => {
                proof {
                    assert(scan_event_ok(watch_id@, root@, ev@));
                }
                out.push(ev);
                proof {
                    assert(out@.take(before.len() as int) =~= before);
                    lemma_scan_compose(watch_id@, root@, base, before, out@);
                }
            }
            None => {}
        }
        if dir && !is_hidden(p.as_str()) {
            let ghost mid = out@;
            scan_dir(watch_id, root, p.as_str(), depth - 1, out);
            proof {
                lemma_scan_compose(watch_id@, root@, base, mid, out@);
            }
        }
        i += 1;
    }
}

/// Well-formed scan-event ranges compose across a prefix boundary.
proof fn lemma_scan_compose(
    watch_id: Seq<char>,
    root: Seq<char>,
    base: Seq<Event>,
    mid: Seq<Event>,
    cur: Seq<Event>,
)
    requires
        base.len() <= mid.len() <= cur.len(),
        mid.take(base.len() as int) == base,
        cur.take(mid.len() as int) == mid,
        forall|k: int| base.len() <= k < mid.len() ==> scan_event_ok(watch_id, root, mid[k]@),
        forall|k: int| mid.len() <= k < cur.len() ==> scan_event_ok(watch_id, root, cur[k]@),
    ensures
        cur.take(base.len() as int) == base,
        forall|k: int| base.len() <= k < cur.len() ==> scan_event_ok(watch_id, root, cur[k]@),
{
    assert forall|k: int| 0 <= k < mid.len() implies cur[k] == mid[k] by {
        assert(cur.take(mid.len() as int)[k] == cur[k]);
    }
    assert(cur.take(base.len() as int) =~= base);
    assert forall|k: int| base.len() <= k < cur.len() implies scan_event_ok(
        watch_id,
        root,
        cur[k]@,
    ) by {
        if k < mid.len() {
            assert(cur[k] == mid[k]);
        }
    }
}

/// The events of an initial recursive scan of the tree rooted at
/// `root`: every one is a `DirAdded` or `FileAdded` for the watch,
/// never for a hidden entry, with its relative path against the root.
pub fn scan_tree(watch_id: &str, root: &str) -> (r: Vec<Event>)
    ensures
        forall|k: int| 0 <= k < r@.len() ==> scan_event_ok(watch_id@, root@, r@[k]@),
{
    let mut out: Vec<Event> = Vec::new();
    scan_dir(watch_id, root, root, 512, &mut out);
    out
}

/// The full event sequence of a successful add: the `Ready` event
/// first, then every scan event, in scan order.
pub fn initial_event_batch(watch_id: &str, scan: Vec<Event>) -> (r: Vec<Event>)
    ensures
        r@.len() == scan@.len() + 1,
        r@[0]@ == (EventModel::Ready { watch_id: watch_id@ }),
        forall|k: int| 1 <= k < r@.len() ==> r@[k] == scan@[k - 1],
{
    let mut scan = scan;
    let mut out: Vec<Event> = Vec::new();
    out.push(Event::Ready { watch_id: watch_id.to_owned() });
    out.append(&mut scan);
    out
}

/// Sends every event of the batch to the queue, in order.
fn send_all(tx: &Sender<Event>, events: Vec<Event>) {
    let mut events = events;
    while events.len() > 0
        decreases events@.len(),
    {
        let e = events.remove(0);
        send_event(tx, e);
    }
}

// ---------------------------------------------------------------------
// Errors of the watch operations
// ---------------------------------------------------------------------

/// Why a watch operation failed.
pub enum WatchError {
    /// A watch with the same id is already registered.
    Conflict { id: String },
    /// The path does not exist, or no watch has the id.
    NotFound { what: String },

    /// The path exists but is not a directory.
    NotADirectory { path: String },
    /// The notification source could not establish the watch.
    SubscriptionFailed { message: String },
}

impl WatchError {
    /// The message reported to the client for this error.
    pub open spec fn spec_message(&self) -> Seq<char> {
        match self {
            WatchError::Conflict { id } => "Watch with id '"@ + id@ + "' already exists"@,
            WatchError::NotFound { what } => what@,
            WatchError::NotADirectory { path } => "Path is not a directory: "@ + path@,
            WatchError::SubscriptionFailed { message } => message@,
        }
    }

    /// Renders the message reported to the client.
    pub fn message(&self) -> (r: String)
        ensures
            r@ == self.spec_message(),
    {
        match self {
            WatchError::Conflict { id } => String::from_str("Watch with id '").concat(
                id.as_str(),
            ).concat("' already exists"),
            WatchError::NotFound { what } => what.clone(),
            WatchError::NotADirectory { path } => String::from_str(
                "Path is not a directory: ",
            ).concat(path.as_str()),
            WatchError::SubscriptionFailed { message } => message.clone(),
        }
    }
}

// ---------------------------------------------------------------------
// The registry
// ---------------------------------------------------------------------

/// One registered watch: its id, its root path, and the exclusively
/// owned subscription whose drop releases the underlying watch.
pub struct WatchEntry {
    pub id: String,
    pub path: String,
    subscription: Subscription,
}

/// The set of active watches of one connection, each with a live
/// subscription; ids are unique.
pub struct WatchManager {
    watches: Vec<WatchEntry>,
    event_tx: Sender<Event>,
    debounce_ms: u64,
}

impl WatchManager {
    /// The registry's contents: id/path pairs in insertion order.
    pub closed spec fn entries(&self) -> Seq<(Seq<char>, Seq<char>)> {
        self.watches@.map_values(|e: WatchEntry| (e.id@, e.path@))
    }

    /// Some watch has this id.
    pub open spec fn has_id(&self, id: Seq<char>) -> bool {
        exists|k: int| 0 <= k < self.entries().len() && self.entries()[k].0 == id
    }

    /// Ids are pairwise distinct.
    pub open spec fn wf(&self) -> bool {
        forall|j: int, k: int|
            0 <= j < k < self.entries().len() ==> self.entries()[j].0 != self.entries()[k].0
    }

    /// An empty registry that will deliver events to `event_tx` and
    /// debounce raw signals over `debounce_ms` milliseconds.
    pub fn new(event_tx: Sender<Event>, debounce_ms: u64) -> (r: Self)
        ensures
            r.wf(),
            r.entries().len() == 0,
    {
        let r = WatchManager { watches: Vec::new(), event_tx, debounce_ms };
        proof {
            assert(r.entries() =~= Seq::<(Seq<char>, Seq<char>)>::empty());
        }
        r
    }

    /// The index of the watch with this id, if one is registered.
    fn find_id(&self, id: &str) -> (r: Option<usize>)
        ensures
            match r {
                Some(k) => k < self.entries().len() && self.entries()[k as int].0 == id@,
                None => !self.has_id(id@),
            },
    {
        let mut k: usize = 0;
        while k < self.watches.len()
            invariant
                k <= self.watches.len(),
                forall|j: int| 0 <= j < k ==> self.entries()[j].0 != id@,
            decreases self.watches.len() - k,
        {
            proof {
                assert(self.entries()[k as int] == (
                    self.watches@[k as int].id@,
                    self.watches@[k as int].path@,
                ));
            }
            if str_eq_lit(self.watches[k].id.as_str(), id) {
                return Some(k);
            }
            k += 1;
        }
        None
    }

    /// Sends one event to this connection's queue.
    pub(crate) fn emit(&self, e: Event) {
        send_event(&self.event_tx, e);
    }

    /// Registers a watch: fails with `Conflict` exactly when the id is
    /// taken, and then leaves the registry as it was; any other failure
    /// (missing path, non-directory, refused subscription) also leaves
    /// it unchanged. On success the pair is appended, a `Ready` event
    /// is delivered first, and the initial scan's events follow it.
    pub fn add_watch(&mut self, id: String, path: String) -> (r: Result<(), WatchError>)
        requires
            old(self).wf(),
        ensures
            final(self).wf(),
            (r matches Err(e) && e is Conflict) <==> old(self).has_id(id@),
            r is Err ==> final(self).entries() == old(self).entries(),
            r is Ok ==> !old(self).has_id(id@)
                && final(self).entries() == old(self).entries().push((id@, path@)),
    {
        if self.find_id(id.as_str()).is_some() {
            return Err(WatchError::Conflict { id });
        }
        if !path_exists(path.as_str()) {
            let what = String::from_str("Path does not exist: ").concat(path.as_str());
            return Err(WatchError::NotFound { what });
        }
        if !path_is_dir(path.as_str()) {
            return Err(WatchError::NotADirectory { path });
        }
        let sub = new_subscription(
            self.debounce_ms,
            id.clone(),
            path.clone(),
            clone_sender(&self.event_tx),
        );
        let mut deb = match sub {
            Ok(d) => d,
            Err(msg) => {
                let message = String::from_str("Failed to create debouncer: ").concat(
                    msg.as_str(),
                );
                return Err(WatchError::SubscriptionFailed { message });
            }
        };
        match start_watch(&mut deb, path.as_str()) {
            Ok(_) => {}
            Err(msg) => {
                let message = String::from_str("Failed to start watching: ").concat(
                    msg.as_str(),
                );
                return Err(WatchError::SubscriptionFailed { message });
            }
        }
        let ghost es0 = self.entries();
        let entry = WatchEntry { id: id.clone(), path: path.clone(), subscription: deb };
        self.watches.push(entry);
        proof {
            assert(self.entries() =~= es0.push((id@, path@)));
        }
        let scan = scan_tree(id.as_str(), path.as_str());
        let batch = initial_event_batch(id.as_str(), scan);
        send_all(&self.event_tx, batch);
        Ok(())
    }

    /// Releases the watch with this id: fails with `NotFound` exactly
    /// when no watch has the id, and otherwise drops the entry and its
    /// subscription, so no further signals for it are delivered.
    pub fn remove_watch(&mut self, id: &str) -> (r: Result<(), WatchError>)
        requires
            old(self).wf(),
        ensures
            final(self).wf(),
            r is Ok <==> old(self).has_id(id@),
            r is Err ==> (r matches Err(e) && e is NotFound)
                && final(self).entries() == old(self).entries(),
            r is Ok ==> exists|k: int|
                0 <= k < old(self).entries().len() && old(self).entries()[k].0 == id@
                    && final(self).entries() == old(self).entries().remove(k),
    {
        let ghost es0 = self.entries();
        match self.find_id(id) {
            Some(k) => {
                let _entry = self.watches.remove(k);
                proof {
                    assert(self.entries() =~= es0.remove(k as int));
                    assert forall|j: int, l: int|
                        0 <= j < l < self.entries().len() implies self.entries()[j].0
                        != self.entries()[l].0 by {
                        let jo = if j < k { j } else { j + 1 };
                        let lo = if l < k { l } else { l + 1 };
                        assert(self.entries()[j] == es0[jo]);
                        assert(self.entries()[l] == es0[lo]);
                    }
                }
                Ok(())
            }
            None => {
                let what = String::from_str("Watch with id '").concat(id).concat(
                    "' not found",
                );
                Err(WatchError::NotFound { what })
            }
        }
    }

    /// A snapshot of the registry: one `{id, path}` pair per watch, in
    /// registry order.
    pub fn list_watches(&self) -> (r: Vec<WatchInfo>)
        ensures
            r@.len() == self.entries().len(),
            forall|k: int|
                0 <= k < r@.len() ==> r@[k]@.id == self.entries()[k].0 && r@[k]@.path
                    == self.entries()[k].1,
    {
        let mut out: Vec<WatchInfo> = Vec::new();
        let mut k: usize = 0;
        while k < self.watches.len()
            invariant
                k <= self.watches.len(),
                out@.len() == k,
                forall|j: int|
                    0 <= j < k ==> out@[j]@.id == self.entries()[j].0 && out@[j]@.path
                        == self.entries()[j].1,
            decreases self.watches.len() - k,
        {
            out.push(
                WatchInfo {
                    id: self.watches[k].id.clone(),
                    path: self.watches[k].path.clone(),
                },
            );
            k += 1;
        }
        out
    }

    /// Removes every watch, releasing all subscriptions; used at
    /// connection shutdown.
    pub fn shutdown(&mut self)
        ensures
            final(self).wf(),
            final(self).entries().len() == 0,
    {
        self.watches.clear();
        proof {
            assert(self.entries() =~= Seq::<(Seq<char>, Seq<char>)>::empty());
        }
    }
}

// ---------------------------------------------------------------------
// Registry laws
// ---------------------------------------------------------------------

/// After watches A and B are added to an empty registry and A is
/// removed — the removal hitting the entry whose id is A's, as
/// `remove_watch` guarantees — exactly B remains.
pub proof fn lemma_list_after_add_remove(
    a: (Seq<char>, Seq<char>),
    b: (Seq<char>, Seq<char>),
    k: int,
    e3: Seq<(Seq<char>, Seq<char>)>,
)
    requires
        a.0 != b.0,
        0 <= k < 2,
        seq![a, b][k].0 == a.0,
        e3 == seq![a, b].remove(k),
    ensures
        e3 =~= seq![b],
{
    assert(seq![a, b][0] == a);
    assert(seq![a, b][1] == b);
    assert(k == 0);
    assert(seq![a, b].remove(0) =~= seq![b]);
}

/// Two successful adds with distinct ids leave both watches present:
/// whatever the registry held before, both appended pairs stand in it.
pub proof fn lemma_two_adds_present(
    e0: Seq<(Seq<char>, Seq<char>)>,
    a: (Seq<char>, Seq<char>),
    b: (Seq<char>, Seq<char>),
)
    ensures
        exists|i: int| 0 <= i < e0.push(a).push(b).len() && e0.push(a).push(b)[i] == a,
        exists|i: int| 0 <= i < e0.push(a).push(b).len() && e0.push(a).push(b)[i] == b,
{
    let e2 = e0.push(a).push(b);
    assert(e2[e0.len() as int] == a);
    assert(e2[e0.len() as int + 1] == b);
}

} // verus!

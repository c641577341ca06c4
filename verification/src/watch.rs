//! The change watcher: which raw events are passed on, under which event
//! type, and the holder of the one watch session.
//!
//! Raw events arrive in batches. Each names a kind and some paths; for each
//! path the caller says whether a directory is there now. A path is passed
//! on when its final name is not hidden and it is a directory or a note
//! file.

use vstd::prelude::*;
use crate::entry::EntryKind;
use crate::error::FsError;
use crate::paths::{file_name, file_name_of, name_is_hidden, is_hidden, is_note_name, name_is_note};

verus! {

/// The quiet period, in milliseconds, over which raw events are gathered
/// before they are delivered as one batch.
pub const DEBOUNCE_MILLIS: u64 = 500;

/// The kind of a raw event, as the watching layer tells it.
#[derive(Clone, Copy, Debug, PartialEq, Eq, Structural)]
pub enum RawEventKind {
    Any,
    Access,
    Create,
    Modify,
    Remove,
    Other,
}

/// The event type of a reported change.
#[derive(Clone, Copy, Debug, PartialEq, Eq, Structural)]
pub enum ChangeType {
    Create,
    Modify,
    Remove,
    Other,
}

/// The event type for a raw kind: creations, modifications and removals keep
/// their kind, everything else is `Other`.
pub open spec fn change_type_of(kind: RawEventKind) -> ChangeType {
    match kind {
        RawEventKind::Create => ChangeType::Create,
        RawEventKind::Modify => ChangeType::Modify,
        RawEventKind::Remove => ChangeType::Remove,
        _ => ChangeType::Other,
    }
}

/// The word under which an event type is sent.
pub open spec fn change_label(t: ChangeType) -> Seq<char> {
    match t {
        ChangeType::Create => "create"@,
        ChangeType::Modify => "modify"@,
        ChangeType::Remove => "remove"@,
        ChangeType::Other => "other"@,
    }
}

impl ChangeType {
    /// The event type for a raw kind.
    pub fn of(kind: RawEventKind) -> (t: ChangeType)
        ensures
            t == change_type_of(kind),
    {
        match kind {
            RawEventKind::Create => ChangeType::Create,
            RawEventKind::Modify => ChangeType::Modify,
            RawEventKind::Remove => ChangeType::Remove,
            _ => ChangeType::Other,
        }
    }

    /// The word under which this event type is sent: `create`, `modify`,
    /// `remove` or `other`.
    pub fn as_str(&self) -> (s: &'static str)
        ensures
            s@ == change_label(*self),
    {
        match self {
            ChangeType::Create => "create",
            ChangeType::Modify => "modify",
            ChangeType::Remove => "remove",
            ChangeType::Other => "other",
        }
    }
}

/// A change that is passed on to the front end.
#[derive(Clone, Debug, PartialEq, Eq)]
pub struct FileChangeEvent {
    pub event_type: ChangeType,
    pub path: String,
}

/// The model of a `FileChangeEvent`.
pub struct FileChangeEventView {
    pub event_type: ChangeType,
    pub path: Seq<char>,
}

impl View for FileChangeEvent {
    type V = FileChangeEventView;

    open spec fn view(&self) -> FileChangeEventView {
        FileChangeEventView { event_type: self.event_type, path: self.path@ }
    }
}

/// A path of a raw event, with whether a directory is there now.
#[derive(Clone, Debug, PartialEq, Eq)]
pub struct ObservedPath {
    pub path: String,
    pub is_dir: bool,
}

/// The model of an `ObservedPath`.
pub struct ObservedPathView {
    pub path: Seq<char>,
    pub is_dir: bool,
}

impl View for ObservedPath {
    type V = ObservedPathView;

    open spec fn view(&self) -> ObservedPathView {
        ObservedPathView { path: self.path@, is_dir: self.is_dir }
    }
}

/// A raw event: one kind, any number of paths.
#[derive(Clone, Debug, PartialEq, Eq)]
pub struct RawEvent {
    pub kind: RawEventKind,
    pub paths: Vec<ObservedPath>,
}

/// The model of a `RawEvent`.
pub struct RawEventView {
    pub kind: RawEventKind,
    pub paths: Seq<ObservedPathView>,
}

impl View for RawEvent {
    type V = RawEventView;

    open spec fn view(&self) -> RawEventView {
        RawEventView { kind: self.kind, paths: self.paths@.map_values(|p: ObservedPath| p@) }
    }
}

/// Whether a change at `path` is passed on: the path has a final name that
/// is not hidden, and it is a directory or its name has a note extension.
pub open spec fn reportable(path: Seq<char>, is_dir: bool) -> bool {
    match file_name_of(path) {
        Some(name) => !is_hidden(name) && (is_dir || is_note_name(name)),
        None => false,
    }
}

/// The change that is passed on for one path of a raw event, if any.
pub open spec fn change_for(kind: RawEventKind, path: Seq<char>, is_dir: bool) -> Option<
    FileChangeEventView,
> {
    if reportable(path, is_dir) {
        Some(FileChangeEventView { event_type: change_type_of(kind), path })
    } else {
        None
    }
}

/// The changes passed on for the paths of one raw event, in their order.
pub open spec fn changes_for_paths(kind: RawEventKind, paths: Seq<ObservedPathView>) -> Seq<
    FileChangeEventView,
>
    decreases paths.len(),
{
    if paths.len() == 0 {
        Seq::empty()
    } else {
        let rest = changes_for_paths(kind, paths.drop_last());
        match change_for(kind, paths.last().path, paths.last().is_dir) {
            Some(change) => rest.push(change),
            None => rest,
        }
    }
}

/// The changes passed on for a batch of raw events, in their order.
pub open spec fn changes_for(events: Seq<RawEventView>) -> Seq<FileChangeEventView>
    decreases events.len(),
{
    if events.len() == 0 {
        Seq::empty()
    } else {
        changes_for(events.drop_last()) + changes_for_paths(
            events.last().kind,
            events.last().paths,
        )
    }
}

/// The models of a list of changes.
pub open spec fn changes_view(changes: Seq<FileChangeEvent>) -> Seq<FileChangeEventView> {
    changes.map_values(|c: FileChangeEvent| c@)
}

/// The models of a batch of raw events.
pub open spec fn raw_view(events: Seq<RawEvent>) -> Seq<RawEventView> {
    events.map_values(|e: RawEvent| e@)
}

/// The change of an optional result.
pub open spec fn change_view(change: Option<FileChangeEvent>) -> Option<FileChangeEventView> {
    match change {
        Some(c) => Some(c@),
        None => None,
    }
}

/// Decides whether a raw event of `kind` at `path` is passed on, and as
/// what.
pub fn classify_path(kind: RawEventKind, path: &str, is_dir: bool) -> (r: Option<FileChangeEvent>)
    ensures
        change_view(r) == change_for(kind, path@, is_dir),
{
    match file_name(path) {
        Some(name) => {
            if name_is_hidden(name.as_str()) {
                None
            } else if is_dir || name_is_note(name.as_str()) {
                Some(FileChangeEvent { event_type: ChangeType::of(kind), path: String::from_str(path) })
            } else {
                None
            }
        },
        None => None,
    }
}

/// Turns a batch of raw events into the changes that are passed on, in the
/// order of the events and of the paths within each.
pub fn classify_events(events: &Vec<RawEvent>) -> (r: Vec<FileChangeEvent>)
    ensures
        changes_view(r@) == changes_for(raw_view(events@)),
{
    let mut out: Vec<FileChangeEvent> = Vec::new();
    let ghost all = raw_view(events@);
    let mut i: usize = 0;
    assert(all.take(0) =~= Seq::<RawEventView>::empty());
    assert(changes_view(out@) =~= changes_for(all.take(0)));
    while i < events.len()
        invariant
            i <= events.len(),
            all == raw_view(events@),
            changes_view(out@) == changes_for(all.take(i as int)),
        decreases events.len() - i,
    {
        let event = &events[i];
        let ghost paths = event@.paths;
        let ghost before = changes_view(out@);
        let mut k: usize = 0;
        assert(paths.take(0) =~= Seq::<ObservedPathView>::empty());
        assert(changes_view(out@) =~= before + changes_for_paths(event.kind, paths.take(0)));
        while k < event.paths.len()
            invariant
                k <= event.paths.len(),
                paths == event@.paths,
                changes_view(out@) == before + changes_for_paths(event.kind, paths.take(k as int)),
            decreases event.paths.len() - k,
        {
            let seen = &event.paths[k];
            let ghost so_far = changes_for_paths(event.kind, paths.take(k as int));
            proof {
                let next = paths.take(k + 1);
                assert(next.drop_last() =~= paths.take(k as int));
                assert(next.last() == seen@);
            }
            match classify_path(event.kind, seen.path.as_str(), seen.is_dir) {
                Some(change) => {
                    let ghost c = change@;
                    let ghost held = changes_view(out@);
                    out.push(change);
                    assert(changes_view(out@) =~= held.push(c));
                    assert(held.push(c) =~= before + so_far.push(c));
                },
                None => {},
            }
            k = k + 1;
        }
        proof {
            assert(paths.take(k as int) =~= paths);
            let next = all.take(i + 1);
            assert(next.drop_last() =~= all.take(i as int));
            assert(next.last() == event@);
        }
        i = i + 1;
    }
    assert(all.take(i as int) =~= all);
    out
}

/// Every change passed on for one raw event names a path whose final name
/// is not hidden, under the event type of the raw kind.
pub proof fn law_changes_for_paths_are_visible(
    kind: RawEventKind,
    paths: Seq<ObservedPathView>,
    i: int,
)
    requires
        0 <= i < changes_for_paths(kind, paths).len(),
    ensures
        changes_for_paths(kind, paths)[i].event_type == change_type_of(kind),
        file_name_of(changes_for_paths(kind, paths)[i].path) matches Some(name) && !is_hidden(name),
    decreases paths.len(),
{
    let rest = changes_for_paths(kind, paths.drop_last());
    if i < rest.len() {
        law_changes_for_paths_are_visible(kind, paths.drop_last(), i);
    }
}

/// Every change passed on for a batch names a path whose final name is not
/// hidden.
pub proof fn law_changes_are_visible(events: Seq<RawEventView>, i: int)
    requires
        0 <= i < changes_for(events).len(),
    ensures
        file_name_of(changes_for(events)[i].path) matches Some(name) && !is_hidden(name),
    decreases events.len(),
{
    let rest = changes_for(events.drop_last());
    if i < rest.len() {
        law_changes_are_visible(events.drop_last(), i);
    } else {
        law_changes_for_paths_are_visible(
            events.last().kind,
            events.last().paths,
            i - rest.len(),
        );
    }
}

/// Why a watch could not be started.
#[derive(Clone, Debug, PartialEq, Eq)]
pub enum WatchFailure<E> {
    /// The folder is missing or is no directory.
    Invalid(FsError),
    /// The folder is fine, but installing the watch failed.
    Install(E),
}

/// The holder of the one watch session: idle while it holds none, watching
/// while it holds one.
pub struct WatcherState<H> {
    session: Option<H>,
}

impl<H> WatcherState<H> {
    /// The session that is held, if any.
    pub closed spec fn session(&self) -> Option<H> {
        self.session
    }

    /// Whether a session is held.
    pub open spec fn watching(&self) -> bool {
        self.session() is Some
    }

    /// A holder in the idle state.
    pub fn new() -> (s: Self)
        ensures
            !s.watching(),
    {
        WatcherState { session: None }
    }

    /// Whether a session is held.
    pub fn is_watching(&self) -> (r: bool)
        ensures
            r == self.watching(),
    {
        self.session.is_some()
    }

    /// Stores `handle` as the session and hands back the one it replaces.
    pub fn replace(&mut self, handle: H) -> (previous: Option<H>)
        ensures
            final(self).session() == Some(handle),
            previous == old(self).session(),
    {
        let previous = self.session.take();
        self.session = Some(handle);
        previous
    }

    /// Lets go of the session, if one is held, and hands it back.
    pub fn stop(&mut self) -> (previous: Option<H>)
        ensures
            !final(self).watching(),
            previous == old(self).session(),
    {
        self.session.take()
    }
}

/// Starts watching a folder.
///
/// `folder_kind` says what was found at the folder's path. A missing folder
/// is `NotFound` and anything but a directory `NotADirectory`; `install` is
/// not called for them. Otherwise `install` is called once. If it hands
/// back a session, that session replaces whatever was held. If it fails,
/// its failure is returned. On every failure the holder is left as it was.
pub fn watch_folder<H, E, F: FnOnce() -> Result<H, E>>(
    state: &mut WatcherState<H>,
    folder_kind: EntryKind,
    install: F,
) -> (r: Result<(), WatchFailure<E>>)
    requires
        folder_kind is Directory ==> install.requires(()),
    ensures
        match folder_kind {
            EntryKind::Missing => r == Err::<(), WatchFailure<E>>(
                WatchFailure::Invalid(FsError::NotFound),
            ) && final(state).session() == old(state).session(),
            EntryKind::Directory => match r {
                Ok(_) => final(state).watching() && install.ensures(
                    (),
                    Ok::<H, E>(final(state).session().unwrap()),
                ),
                Err(WatchFailure::Install(e)) => install.ensures((), Err::<H, E>(e))
                    && final(state).session() == old(state).session(),
                Err(WatchFailure::Invalid(_)) => false,
            },
            _ => r == Err::<(), WatchFailure<E>>(WatchFailure::Invalid(FsError::NotADirectory))
                && final(state).session() == old(state).session(),
        },
{
    match folder_kind {
        EntryKind::Missing => {
            return Err(WatchFailure::Invalid(FsError::NotFound));
        },
        EntryKind::Directory => {},
        _ => {
            return Err(WatchFailure::Invalid(FsError::NotADirectory));
        },
    }
    match install() {
        Ok(handle) => {
            let _ = state.replace(handle);
            Ok(())
        },
        Err(e) => Err(WatchFailure::Install(e)),
    }
}

/// Stops watching: the holder is idle afterwards, whether or not it held a
/// session, and the session that was held is handed back.
pub fn stop_watching<H>(state: &mut WatcherState<H>) -> (released: Option<H>)
    ensures
        !final(state).watching(),
        released == old(state).session(),
{
    state.stop()
}

} // verus!

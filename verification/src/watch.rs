//! The registry of live filesystem watchers: at most one per watched root,
//! started and stopped by path.

use std::path::Path;
use std::sync::mpsc::Sender;
use notify::{RecommendedWatcher, RecursiveMode, Watcher};
use vstd::prelude::*;
use vstd::string::*;
use crate::text::text_of;

verus! {

/// The watcher that `notify` recommends for the platform. Nothing inside it is
/// visible here.
#[verifier::external_type_specification]
#[verifier::external_body]
pub struct ExRecommendedWatcher(RecommendedWatcher);

/// The error type of `notify`.
#[verifier::external_type_specification]
#[verifier::external_body]
pub struct ExNotifyError(notify::Error);

/// The sending half of a channel of the standard library.
#[verifier::external_type_specification]
#[verifier::external_body]
#[verifier::reject_recursive_types(T)]
pub struct ExSender<T>(Sender<T>);

/// Why a watch could not be started.
#[derive(Debug)]
pub enum WatchError {
    /// The watcher could not be set up; the text says at which step and why.
    CreateFailed(String),
}

impl WatchError {
    /// The text of the error.
    pub open spec fn text(self) -> Seq<char> {
        match self {
            WatchError::CreateFailed(message) => message@,
        }
    }

    /// The text of the error.
    pub fn message(&self) -> (message: String)
        ensures
            message@ == self.text(),
    {
        match self {
            WatchError::CreateFailed(message) => message.clone(),
        }
    }
}

/// What a failure to create a watcher is reported as.
pub open spec fn create_failure_text(detail: Seq<char>) -> Seq<char> {
    "Failed to create watcher: "@ + detail
}

/// What a failure to watch `path` is reported as.
pub open spec fn watch_failure_text(path: Seq<char>, detail: Seq<char>) -> Seq<char> {
    "Failed to watch "@ + path + ": "@ + detail
}

/// Whether `error` says that a watcher for `path` could not be set up, at
/// either of the two steps.
pub open spec fn is_create_failure(error: WatchError, path: Seq<char>) -> bool {
    ||| exists|detail: Seq<char>| error.text() == create_failure_text(detail)
    ||| exists|detail: Seq<char>| error.text() == watch_failure_text(path, detail)
}

/// The error for a watcher that could not be created.
pub fn create_failure(detail: &str) -> (error: WatchError)
    ensures
        error.text() == create_failure_text(detail@),
{
    let mut message = "Failed to create watcher: ".to_owned();
    message.append(detail);
    WatchError::CreateFailed(message)
}

/// The error for a watcher that could not be put on `path`.
pub fn watch_failure(path: &str, detail: &str) -> (error: WatchError)
    ensures
        error.text() == watch_failure_text(path@, detail@),
{
    let mut message = "Failed to watch ".to_owned();
    message.append(path);
    message.append(": ");
    message.append(detail);
    WatchError::CreateFailed(message)
}

/// What is passed on for one report of a watcher on `root`: the root itself
/// for an event, whatever changed below it, and nothing for an error.
pub fn change_notice(event_ok: bool, root: &str) -> (notice: Option<String>)
    ensures
        text_of(notice) == (if event_ok {
            Some(root@)
        } else {
            None
        }),
{
    if event_ok {
        Some(root.to_owned())
    } else {
        None
    }
}

/// Calls `Sender::send`, which hands the text to the channel without waiting
/// for the receiver. What the channel answers is not looked at: a notice is
/// handed over once and never waited for.
#[verifier::external_body]
fn send_notice(sink: &Sender<String>, notice: String) {
    let _ = sink.send(notice);
}

/// Passes one report of a watcher on `root` on to `sink`: one notice for an
/// event, none for an error. Says whether a notice was handed to the sink.
pub fn forward_event(event_ok: bool, root: &str, sink: &Sender<String>) -> (sent: bool)
    ensures
        sent == event_ok,
{
    match change_notice(event_ok, root) {
        Some(notice) => { send_notice(sink, notice); true },
        None => false,
    }
}

/// Calls `RecommendedWatcher::new` of `notify` with the default configuration
/// and a handler that passes each report on through `forward_event`. Whether
/// a watcher comes back is up to the operating system.
#[verifier::external_body]
fn new_watcher(root: &str, sink: &Sender<String>) -> (created: Result<RecommendedWatcher, notify::Error>) {
    let root = root.to_owned();
    let sink = sink.clone();
    RecommendedWatcher::new(
        move |report: Result<notify::Event, notify::Error>| {
            forward_event(report.is_ok(), root.as_str(), &sink);
        },
        notify::Config::default(),
    )
}

/// Calls `Watcher::watch` of `notify` on `root` in recursive mode. Whether the
/// watch is set is up to the operating system.
#[verifier::external_body]
fn watch_recursive(watcher: &mut RecommendedWatcher, root: &str) -> (set: Result<(), notify::Error>) {
    watcher.watch(Path::new(root), RecursiveMode::Recursive)
}

/// Calls `Watcher::unwatch` of `notify` on `root`. It fails where the path is
/// not watched or the watch cannot be taken off.
#[verifier::external_body]
fn unwatch(watcher: &mut RecommendedWatcher, root: &str) -> (removed: Result<(), notify::Error>) {
    watcher.unwatch(Path::new(root))
}

/// The text that `notify` gives for one of its errors.
#[verifier::external_body]
fn error_text(error: &notify::Error) -> (text: String) {
    format!("{}", error)
}

/// Sets up a recursive watcher on `path` that reports to `sink`.
///
/// The operating system decides whether it succeeds. An error says at which
/// of the two steps it failed, in the words of `create_failure_text` or of
/// `watch_failure_text`.
pub fn open_watcher(path: &str, sink: &Sender<String>) -> (opened: Result<RecommendedWatcher, WatchError>)
    ensures
        opened is Err ==> is_create_failure(opened->Err_0, path@),
{
    match new_watcher(path, sink) {
        Err(error) => {
            let detail = error_text(&error);
            Err(create_failure(detail.as_str()))
        },
        Ok(watcher) => {
            let mut watcher = watcher;
            match watch_recursive(&mut watcher, path) {
                Err(error) => {
                    let detail = error_text(&error);
                    Err(watch_failure(path, detail.as_str()))
                },
                Ok(()) => Ok(watcher),
            }
        },
    }
}

/// One watched root with the watcher that is live on it.
pub struct Registration {
    path: String,
    watcher: RecommendedWatcher,
}

/// The watched roots of the process, each with its live watcher.
///
/// All changes go through `&mut self`, so a caller that shares the registry
/// holds its lock across a whole call: looking a path up, creating its
/// watcher and putting it in are one step to every other caller.
pub struct WatchRegistry {
    entries: Vec<Registration>,
}

impl WatchRegistry {
    /// The watched paths, in the order in which they were registered.
    pub closed spec fn paths(&self) -> Seq<Seq<char>> {
        Seq::new(self.entries@.len(), |i: int| self.entries@[i].path@)
    }

    /// The watchers, place by place with `paths`.
    pub closed spec fn handles(&self) -> Seq<RecommendedWatcher> {
        Seq::new(self.entries@.len(), |i: int| self.entries@[i].watcher)
    }

    /// Whether `path` is watched.
    pub open spec fn is_registered(&self, path: Seq<char>) -> bool {
        self.paths().contains(path)
    }

    /// No path is registered twice, and every path has its watcher.
    pub open spec fn wf(&self) -> bool {
        &&& self.paths().no_duplicates()
        &&& self.handles().len() == self.paths().len()
    }

    /// A watched path is registered exactly once.
    pub proof fn lemma_registered_once(&self, path: Seq<char>)
        requires
            self.wf(),
            self.is_registered(path),
        ensures
            self.paths().to_multiset().count(path) == 1,
    {
        broadcast use vstd::seq_lib::group_to_multiset_ensures;

        self.paths().lemma_multiset_has_no_duplicates();
    }

    /// The registry as it is when the process starts: nothing is watched.
    pub fn new() -> (registry: WatchRegistry)
        ensures
            registry.wf(),
            registry.paths() == Seq::<Seq<char>>::empty(),
    {
        let registry = WatchRegistry { entries: Vec::new() };
        assert(registry.paths() =~= Seq::<Seq<char>>::empty());
        registry
    }

    /// The number of watched paths.
    pub fn len(&self) -> (count: usize)
        ensures
            count == self.paths().len(),
    {
        self.entries.len()
    }

    /// Where `path` is registered, if it is.
    fn position(&self, path: &str) -> (found: Option<usize>)
        ensures
            match found {
                Some(at) => at < self.paths().len() && self.paths()[at as int] == path@,
                None => !self.is_registered(path@),
            },
    {
        let wanted = path.to_owned();
        let mut i: usize = 0;
        while i < self.entries.len()
            invariant
                i <= self.entries.len(),
                wanted@ == path@,
                forall|k: int| 0 <= k < i ==> self.paths()[k] != path@,
            decreases self.entries.len() - i,
        {
            if self.entries[i].path == wanted {
                return Some(i);
            }
            i += 1;
        }
        None
    }

    /// Whether `path` is watched.
    pub fn is_watching(&self, path: &str) -> (watched: bool)
        ensures
            watched == self.is_registered(path@),
    {
        self.position(path).is_some()
    }

    /// Registers `watcher` for `path` unless the path is registered already;
    /// in that case nothing changes and the new watcher is released. Says
    /// whether the watcher was put in.
    pub fn register(&mut self, path: String, watcher: RecommendedWatcher) -> (added: bool)
        requires
            old(self).wf(),
        ensures
            final(self).wf(),
            added == !old(self).is_registered(path@),
            added ==> final(self).paths() == old(self).paths().push(path@),
            added ==> final(self).handles() == old(self).handles().push(watcher),
            !added ==> final(self).paths() == old(self).paths(),
            !added ==> final(self).handles() == old(self).handles(),
    {
        if self.is_watching(path.as_str()) {
            return false;
        }
        self.entries.push(Registration { path, watcher });
        proof {
            assert(self.paths() =~= old(self).paths().push(path@));
            assert(self.handles() =~= old(self).handles().push(watcher));
        }
        true
    }

    /// Starts watching `path`, reporting to `sink`.
    ///
    /// Where the path is watched already the call succeeds and changes
    /// nothing: every watcher stays the one it was. Otherwise a watcher is
    /// set up and registered; if the operating system refuses it, the call
    /// fails and the registry stays as it was.
    pub fn start_watching(&mut self, path: &str, sink: &Sender<String>) -> (result: Result<
        (),
        WatchError,
    >)
        requires
            old(self).wf(),
        ensures
            final(self).wf(),
            final(self).handles().len() >= old(self).handles().len(),
            final(self).handles().take(old(self).handles().len() as int) == old(self).handles(),
            old(self).is_registered(path@) ==> result is Ok,
            old(self).is_registered(path@) || result is Err ==> final(self).paths() == old(
                self,
            ).paths() && final(self).handles() == old(self).handles(),
            !old(self).is_registered(path@) && result is Ok ==> final(self).paths() == old(
                self,
            ).paths().push(path@),
            result is Ok ==> final(self).is_registered(path@),
            result is Err ==> is_create_failure(result->Err_0, path@),
    {
        if self.is_watching(path) {
            assert(self.handles().take(self.handles().len() as int) =~= self.handles());
            return Ok(());
        }
        match open_watcher(path, sink) {
            Err(error) => {
                assert(self.handles().take(self.handles().len() as int) =~= self.handles());
                Err(error)
            },
            Ok(watcher) => {
                self.register(path.to_owned(), watcher);
                assert(self.paths().last() == path@);
                assert(self.handles().take(old(self).handles().len() as int) =~= old(
                    self,
                ).handles());
                Ok(())
            },
        }
    }

    /// Stops watching `path`: its watcher is taken off the path and released.
    /// Where the path is not watched nothing changes. The call always
    /// succeeds.
    pub fn stop_watching(&mut self, path: &str) -> (result: Result<(), WatchError>)
        requires
            old(self).wf(),
        ensures
            result is Ok,
            final(self).wf(),
            !final(self).is_registered(path@),
            !old(self).is_registered(path@) ==> final(self).paths() == old(self).paths()
                && final(self).handles() == old(self).handles(),
            old(self).is_registered(path@) ==> {
                let at = old(self).paths().index_of(path@);
                &&& final(self).paths() == old(self).paths().remove(at)
                &&& final(self).handles() == old(self).handles().remove(at)
            },
    {
        match self.position(path) {
            None => {},
            Some(at) => {
                proof {
                    let before = self.paths();
                    let first = before.index_of(path@);
                    assert(before[first] == path@ && 0 <= first < before.len());
                    assert(first == at);
                }
                let registration = self.entries.remove(at);
                let mut watcher = registration.watcher;
                let _ = unwatch(&mut watcher, path);
                proof {
                    let before = old(self).paths();
                    assert(self.paths() =~= before.remove(at as int));
                    assert(self.handles() =~= old(self).handles().remove(at as int));
                    assert forall|k: int| 0 <= k < self.paths().len() implies self.paths()[k]
                        != path@ by {
                        if k < at {
                            assert(self.paths()[k] == before[k]);
                        } else {
                            assert(self.paths()[k] == before[k + 1]);
                        }
                    }
                }
            },
        }
        Ok(())
    }

    /// Stops every watch, as is due when the process shuts down.
    pub fn stop_all(&mut self)
        ensures
            final(self).wf(),
            final(self).paths() == Seq::<Seq<char>>::empty(),
    {
        self.entries.clear();
        assert(self.paths() =~= Seq::<Seq<char>>::empty());
    }
}

} // verus!

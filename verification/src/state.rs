//! The log-watching engine state: sources, per-source record ledgers,
//! the path-to-source index and the per-path byte/line tracker, with
//! the command operations over them.
//!
//! The engine is a pure state machine: everything the operating system
//! knows (stat results, directory listings, file contents, the clock)
//! is handed in as plain values, and every transition is verified.

use vstd::prelude::*;
use vstd::string::StringExecFns;
use crate::assoc::{Assoc, spec_get, spec_upsert, key_idx, lemma_map_get, lemma_key_idx};
use crate::file_path::FilePath;
use crate::laravel::{LaravelLogParser, laravel_match, multiline_consumed, multiline_entry_model,
    parse_entry_model};
use crate::log_entry::{EntryModel, LogEntry};
use crate::log_source::{LogSource, LogSourceStatus, LogSourceType, SourceModel,
    spec_display_name};
use crate::ports::{WatchError, FileWatchEvent};
use crate::events::{EngineEvent, LogEntriesEvent, SourceStatusEvent, FileTruncatedEvent};
use crate::text::spec_dec;
use crate::text::u64_to_dec;
use crate::text::spec_lines;
use vstd::string::StrSliceExecFns;
use crate::watcher::{WatchTracker, FileStat, PathState, DirFile, scan_fold, dir_file_models};

verus! {

/// Errors of the engine's command operations.
#[derive(Debug)]
pub enum StateError {
    /// The given path is not usable (it is empty).
    InvalidPath,
    /// The path is already watched by a source.
    AlreadyWatching,
    /// No source has the given id.
    NotFound,
    /// The underlying watch operation failed.
    Watch(WatchError),
}

impl StateError {
    /// The rendered message of each variant.
    pub open spec fn message_model(self) -> Seq<char> {
        match self {
            StateError::InvalidPath => "Invalid path"@,
            StateError::AlreadyWatching => "Already watching this path"@,
            StateError::NotFound => "Source not found"@,
            StateError::Watch(e) => e.message_model(),
        }
    }

    /// Renders the error as text.
    pub fn message(&self) -> (r: String)
        ensures
            r@ == self.message_model(),
    {
        match self {
            StateError::InvalidPath => String::from_str("Invalid path"),
            StateError::AlreadyWatching => String::from_str("Already watching this path"),
            StateError::NotFound => String::from_str("Source not found"),
            StateError::Watch(e) => e.message(),
        }
    }
}

/// The models of a stored entry sequence.
pub open spec fn entry_models(v: Seq<LogEntry>) -> Seq<EntryModel> {
    v.map_values(|e: LogEntry| e@)
}

/// The id given to the `n`-th source.
pub open spec fn source_id_model(n: u64) -> Seq<char> {
    "source-"@ + spec_dec(n as int)
}

fn make_source_id(n: u64) -> (r: String)
    ensures
        r@ == source_id_model(n),
{
    let mut s = String::from_str("source-");
    let num = u64_to_dec(n);
    s.append(num.as_str());
    s
}

/// The engine state.
pub struct LogWatcherState {
    tracker: WatchTracker,
    sources: Assoc<LogSource>,
    path_to_source: Assoc<String>,
    entries: Assoc<Vec<LogEntry>>,
    next_id: u64,
    parser: LaravelLogParser,
}

impl LogWatcherState {
    /// The per-path byte/line tracker states.
    pub closed spec fn watched(&self) -> Seq<(Seq<char>, PathState)> {
        self.tracker.states()
    }

    /// The sources, as (id, model) in registration order.
    pub closed spec fn sources(&self) -> Seq<(Seq<char>, SourceModel)> {
        self.sources.entries().map_values(|p: (Seq<char>, LogSource)| (p.0, p.1@))
    }

    /// The path-to-source index, as (path, source id).
    pub closed spec fn paths(&self) -> Seq<(Seq<char>, Seq<char>)> {
        self.path_to_source.entries().map_values(|p: (Seq<char>, String)| (p.0, p.1@))
    }

    /// The ledgers, as (source id, entry models) in registration order.
    pub closed spec fn ledger(&self) -> Seq<(Seq<char>, Seq<EntryModel>)> {
        self.entries.entries().map_values(|p: (Seq<char>, Vec<LogEntry>)| (
            p.0,
            entry_models(p.1@),
        ))
    }

    /// The id the next source will get.
    pub closed spec fn next_id_spec(&self) -> u64 {
        self.next_id
    }

    pub closed spec fn wf(&self) -> bool {
        &&& self.tracker.wf()
        &&& self.sources.wf()
        &&& self.path_to_source.wf()
        &&& self.entries.wf()
    }

    /// The stored entry models of a source (empty when unknown).
    pub open spec fn ledger_of(&self, sid: Seq<char>) -> Seq<EntryModel> {
        match spec_get(self.ledger(), sid) {
            Some(s) => s,
            None => Seq::empty(),
        }
    }

    proof fn lemma_sources_get(&self, k: Seq<char>)
        ensures
            spec_get(self.sources(), k) == (match spec_get(self.sources.entries(), k) {
                Some(v) => Some(v@),
                None => None::<SourceModel>,
            }),
            key_idx(self.sources(), k) == key_idx(self.sources.entries(), k),
    {
        let f = |v: LogSource| v@;
        lemma_map_get(self.sources.entries(), f, k);
        assert(self.sources.entries().map_values(
            |p: (Seq<char>, LogSource)| (p.0, f(p.1)),
        ) =~= self.sources());
    }

    proof fn lemma_paths_get(&self, k: Seq<char>)
        ensures
            spec_get(self.paths(), k) == (match spec_get(self.path_to_source.entries(), k) {
                Some(v) => Some(v@),
                None => None::<Seq<char>>,
            }),
            key_idx(self.paths(), k) == key_idx(self.path_to_source.entries(), k),
    {
        let f = |v: String| v@;
        lemma_map_get(self.path_to_source.entries(), f, k);
        assert(self.path_to_source.entries().map_values(
            |p: (Seq<char>, String)| (p.0, f(p.1)),
        ) =~= self.paths());
    }

    proof fn lemma_ledger_get(&self, k: Seq<char>)
        ensures
            spec_get(self.ledger(), k) == (match spec_get(self.entries.entries(), k) {
                Some(v) => Some(entry_models(v@)),
                None => None::<Seq<EntryModel>>,
            }),
            key_idx(self.ledger(), k) == key_idx(self.entries.entries(), k),
    {
        let f = |v: Vec<LogEntry>| entry_models(v@);
        lemma_map_get(self.entries.entries(), f, k);
        assert(self.entries.entries().map_values(
            |p: (Seq<char>, Vec<LogEntry>)| (p.0, f(p.1)),
        ) =~= self.ledger());
    }

    /// Creates a fresh engine with no sources.
    pub fn new() -> (r: Self)
        ensures
            r.wf(),
            r.sources() == Seq::<(Seq<char>, SourceModel)>::empty(),
            r.paths() == Seq::<(Seq<char>, Seq<char>)>::empty(),
            r.ledger() == Seq::<(Seq<char>, Seq<EntryModel>)>::empty(),
            r.watched() == Seq::<(Seq<char>, PathState)>::empty(),
            r.next_id_spec() == 1,
    {
        let r = LogWatcherState {
            tracker: WatchTracker::new(),
            sources: Assoc::new(),
            path_to_source: Assoc::new(),
            entries: Assoc::new(),
            next_id: 1,
            parser: LaravelLogParser::new(),
        };
        proof {
            assert(r.sources() =~= Seq::<(Seq<char>, SourceModel)>::empty());
            assert(r.paths() =~= Seq::<(Seq<char>, Seq<char>)>::empty());
            assert(r.ledger() =~= Seq::<(Seq<char>, Seq<EntryModel>)>::empty());
        }
        r
    }

    /// Adds a file source: the path must be non-empty, not yet bound to
    /// a source, and `stat` must show a plain file not yet tracked.  On
    /// success the new source is `Active`, its ledger empty, the path
    /// tracked with the observed size and line count, and the returned
    /// source is the stored one.
    pub fn add_file(&mut self, path: &str, name: Option<String>, stat: FileStat, now_ms: u64) -> (r:
        Result<LogSource, StateError>)
        requires
            old(self).wf(),
        ensures
            final(self).wf(),
            ({
                let sid = source_id_model(old(self).next_id_spec());
                match r {
                    Ok(src) => {
                        &&& path@.len() > 0
                        &&& spec_get(old(self).paths(), path@) is None
                        &&& spec_get(old(self).watched(), path@) is None
                        &&& (stat matches FileStat::File { .. })
                        &&& src@ == (SourceModel {
                            id: sid,
                            path: path@,
                            source_type: LogSourceType::File,
                            name: spec_display_name(path@, name.deep_view()),
                            pattern: None,
                            status: LogSourceStatus::Active,
                            error_message: None,
                            created_at: now_ms,
                            last_activity_at: None,
                        })
                        &&& final(self).sources() == spec_upsert(old(self).sources(), sid, src@)
                        &&& final(self).paths() == old(self).paths().push((path@, sid))
                        &&& final(self).ledger() == spec_upsert(
                            old(self).ledger(),
                            sid,
                            Seq::<EntryModel>::empty(),
                        )
                        &&& (match stat {
                            FileStat::File { size, line_count } => final(self).watched() == old(
                                self,
                            ).watched().push((path@, PathState { size, line_number: line_count })),
                            _ => false,
                        })
                        &&& final(self).next_id_spec() == (if old(self).next_id_spec()
                            < 0xffff_ffff_ffff_ffff {
                            old(self).next_id_spec() + 1
                        } else {
                            old(self).next_id_spec() as int
                        })
                    },
                    Err(e) => {
                        &&& same_state(old(self), final(self))
                        &&& match e {
                            StateError::InvalidPath => path@.len() == 0,
                            StateError::AlreadyWatching => path@.len() > 0 && spec_get(
                                old(self).paths(),
                                path@,
                            ) is Some,
                            StateError::Watch(we) => {
                                &&& path@.len() > 0
                                &&& spec_get(old(self).paths(), path@) is None
                                &&& match we {
                                    WatchError::FileNotFound(p) => stat == FileStat::Missing && p@
                                        == path@,
                                    WatchError::NotAFile(p) => stat == FileStat::Dir && p@
                                        == path@,
                                    WatchError::AlreadyWatching(p) => (stat
                                        matches FileStat::File { .. }) && spec_get(
                                        old(self).watched(),
                                        path@,
                                    ) is Some && p@ == path@,
                                    _ => false,
                                }
                            },
                            _ => false,
                        }
                    },
                }
            }),
    {
        let file_path = match FilePath::new(path) {
            Ok(p) => p,
            Err(_) => {
                return Err(StateError::InvalidPath);
            },
        };
        proof {
            self.lemma_paths_get(path@);
        }
        if self.path_to_source.contains(path) {
            return Err(StateError::AlreadyWatching);
        }
        match self.tracker.watch_file(path, stat) {
            Ok(()) => {},
            Err(e) => {
                return Err(StateError::Watch(e));
            },
        }
        let id = make_source_id(self.next_id);
        if self.next_id < 0xffff_ffff_ffff_ffff {
            self.next_id = self.next_id + 1;
        }
        let source = LogSource::new_file(id.clone(), file_path, name, now_ms);
        let returned = source.clone();
        let ghost pre_sources = self.sources.entries();
        let ghost pre_paths = self.paths();
        let ghost pre_ledger = self.entries.entries();
        let ghost src_ghost = source;
        self.sources.upsert(id.as_str(), source);
        proof {
            let f = |v: LogSource| v@;
            crate::assoc::lemma_map_upsert(pre_sources, f, id@, src_ghost);
            assert(pre_sources.map_values(|p: (Seq<char>, LogSource)| (p.0, f(p.1))) =~= old(
                self,
            ).sources());
            assert(spec_upsert(pre_sources, id@, src_ghost).map_values(
                |p: (Seq<char>, LogSource)| (p.0, f(p.1)),
            ) =~= self.sources());
        }
        proof {
            self.lemma_paths_get(path@);
        }
        self.path_to_source.insert(String::from_str(path), id.clone());
        proof {
            assert(self.paths() =~= pre_paths.push((path@, id@)));
        }
        let empty_entries: Vec<LogEntry> = Vec::new();
        let ghost empty_ghost = empty_entries;
        self.entries.upsert(id.as_str(), empty_entries);
        proof {
            let f = |v: Vec<LogEntry>| entry_models(v@);
            crate::assoc::lemma_map_upsert(pre_ledger, f, id@, empty_ghost);
            assert(pre_ledger.map_values(|p: (Seq<char>, Vec<LogEntry>)| (p.0, f(p.1))) =~= old(
                self,
            ).ledger());
            assert(spec_upsert(pre_ledger, id@, empty_ghost).map_values(
                |p: (Seq<char>, Vec<LogEntry>)| (p.0, f(p.1)),
            ) =~= self.ledger());
            assert(entry_models(empty_ghost@) =~= Seq::<EntryModel>::empty());
        }
        Ok(returned)
    }
    /// Adds a folder source: the path must be non-empty, not yet bound
    /// to a source, `stat` must show a directory and the pattern must
    /// be well formed.  On success every listed file whose name matches
    /// the pattern is tracked under the joined path.
    pub fn add_folder(
        &mut self,
        path: &str,
        pattern: &str,
        name: Option<String>,
        stat: FileStat,
        files: &Vec<DirFile>,
        now_ms: u64,
    ) -> (r: Result<LogSource, StateError>)
        requires
            old(self).wf(),
        ensures
            final(self).wf(),
            ({
                let sid = source_id_model(old(self).next_id_spec());
                match r {
                    Ok(src) => {
                        &&& path@.len() > 0
                        &&& spec_get(old(self).paths(), path@) is None
                        &&& stat == FileStat::Dir
                        &&& crate::globs::glob_accepts(pattern@)
                        &&& src@ == (SourceModel {
                            id: sid,
                            path: path@,
                            source_type: LogSourceType::Folder,
                            name: spec_display_name(path@, name.deep_view()),
                            pattern: Some(pattern@),
                            status: LogSourceStatus::Active,
                            error_message: None,
                            created_at: now_ms,
                            last_activity_at: None,
                        })
                        &&& final(self).sources() == spec_upsert(old(self).sources(), sid, src@)
                        &&& final(self).paths() == old(self).paths().push((path@, sid))
                        &&& final(self).ledger() == spec_upsert(
                            old(self).ledger(),
                            sid,
                            Seq::<EntryModel>::empty(),
                        )
                        &&& final(self).watched() == scan_fold(
                            old(self).watched(),
                            path@,
                            pattern@,
                            dir_file_models(files@),
                        )
                        &&& final(self).next_id_spec() == (if old(self).next_id_spec()
                            < 0xffff_ffff_ffff_ffff {
                            old(self).next_id_spec() + 1
                        } else {
                            old(self).next_id_spec() as int
                        })
                    },
                    Err(e) => {
                        &&& same_state(old(self), final(self))
                        &&& match e {
                            StateError::InvalidPath => path@.len() == 0,
                            StateError::AlreadyWatching => path@.len() > 0 && spec_get(
                                old(self).paths(),
                                path@,
                            ) is Some,
                            StateError::Watch(we) => {
                                &&& path@.len() > 0
                                &&& spec_get(old(self).paths(), path@) is None
                                &&& match we {
                                    WatchError::FileNotFound(p) => stat == FileStat::Missing && p@
                                        == path@,
                                    WatchError::NotADirectory(p) => (stat
                                        matches FileStat::File { .. }) && p@ == path@,
                                    WatchError::WatcherError(_) => stat == FileStat::Dir
                                        && !crate::globs::glob_accepts(pattern@),
                                    _ => false,
                                }
                            },
                            _ => false,
                        }
                    },
                }
            }),
    {
        let file_path = match FilePath::new(path) {
            Ok(p) => p,
            Err(_) => {
                return Err(StateError::InvalidPath);
            },
        };
        proof {
            self.lemma_paths_get(path@);
        }
        if self.path_to_source.contains(path) {
            return Err(StateError::AlreadyWatching);
        }
        match self.tracker.watch_directory(path, pattern, stat, files) {
            Ok(()) => {},
            Err(e) => {
                return Err(StateError::Watch(e));
            },
        }
        let id = make_source_id(self.next_id);
        if self.next_id < 0xffff_ffff_ffff_ffff {
            self.next_id = self.next_id + 1;
        }
        let source = LogSource::new_folder(
            id.clone(),
            file_path,
            String::from_str(pattern),
            name,
            now_ms,
        );
        let returned = source.clone();
        let ghost pre_sources = self.sources.entries();
        let ghost pre_paths = self.paths();
        let ghost pre_ledger = self.entries.entries();
        let ghost src_ghost = source;
        self.sources.upsert(id.as_str(), source);
        proof {
            let f = |v: LogSource| v@;
            crate::assoc::lemma_map_upsert(pre_sources, f, id@, src_ghost);
            assert(pre_sources.map_values(|p: (Seq<char>, LogSource)| (p.0, f(p.1))) =~= old(
                self,
            ).sources());
            assert(spec_upsert(pre_sources, id@, src_ghost).map_values(
                |p: (Seq<char>, LogSource)| (p.0, f(p.1)),
            ) =~= self.sources());
        }
        proof {
            self.lemma_paths_get(path@);
        }
        self.path_to_source.insert(String::from_str(path), id.clone());
        proof {
            assert(self.paths() =~= pre_paths.push((path@, id@)));
        }
        let empty_entries: Vec<LogEntry> = Vec::new();
        let ghost empty_ghost = empty_entries;
        self.entries.upsert(id.as_str(), empty_entries);
        proof {
            let f = |v: Vec<LogEntry>| entry_models(v@);
            crate::assoc::lemma_map_upsert(pre_ledger, f, id@, empty_ghost);
            assert(pre_ledger.map_values(|p: (Seq<char>, Vec<LogEntry>)| (p.0, f(p.1))) =~= old(
                self,
            ).ledger());
            assert(spec_upsert(pre_ledger, id@, empty_ghost).map_values(
                |p: (Seq<char>, Vec<LogEntry>)| (p.0, f(p.1)),
            ) =~= self.ledger());
            assert(entry_models(empty_ghost@) =~= Seq::<EntryModel>::empty());
        }
        Ok(returned)
    }

    /// Removes a source: its ledger, its path binding and its tracked
    /// path state go with it.  Fails with `NotFound` when the id is
    /// unknown.
    pub fn remove_source(&mut self, id: &str) -> (r: Result<(), StateError>)
        requires
            old(self).wf(),
        ensures
            final(self).wf(),
            match r {
                Ok(()) => {
                    &&& spec_get(old(self).sources(), id@) is Some
                    &&& ({
                        let m = spec_get(old(self).sources(), id@)->0;
                        &&& final(self).sources() == old(self).sources().remove(
                            key_idx(old(self).sources(), id@),
                        )
                        &&& final(self).paths() == (if spec_get(old(self).paths(), m.path)
                            is Some {
                            old(self).paths().remove(key_idx(old(self).paths(), m.path))
                        } else {
                            old(self).paths()
                        })
                        &&& final(self).ledger() == (if spec_get(old(self).ledger(), id@)
                            is Some {
                            old(self).ledger().remove(key_idx(old(self).ledger(), id@))
                        } else {
                            old(self).ledger()
                        })
                        &&& spec_get(final(self).watched(), m.path) is None
                        &&& forall|p: Seq<char>|
                            p != m.path ==> #[trigger] spec_get(final(self).watched(), p)
                                == spec_get(old(self).watched(), p)
                        &&& final(self).next_id_spec() == old(self).next_id_spec()
                    })
                },
                Err(e) => {
                    &&& same_state(old(self), final(self))
                    &&& e matches StateError::NotFound
                    &&& spec_get(old(self).sources(), id@) is None
                },
            },
    {
        proof {
            self.lemma_sources_get(id@);
        }
        let ghost pre_sources = self.sources.entries();
        let src = match self.sources.remove(id) {
            Some(s) => s,
            None => {
                return Err(StateError::NotFound);
            },
        };
        proof {
            let f = |v: LogSource| v@;
            crate::assoc::lemma_map_get(pre_sources, f, id@);
            crate::assoc::lemma_key_idx(pre_sources, id@);
            assert(pre_sources.map_values(|p: (Seq<char>, LogSource)| (p.0, f(p.1))) =~= old(
                self,
            ).sources());
            assert(self.sources.entries().map_values(|p: (Seq<char>, LogSource)| (p.0, f(p.1)))
                =~= old(self).sources().remove(key_idx(old(self).sources(), id@)));
            assert(self.sources() =~= self.sources.entries().map_values(
                |p: (Seq<char>, LogSource)| (p.0, f(p.1)),
            ));
        }
        let path_owned = String::from_str(src.path.value());
        proof {
            self.lemma_paths_get(path_owned@);
        }
        let ghost pre_paths = self.path_to_source.entries();
        let removed_path = self.path_to_source.remove(path_owned.as_str());
        proof {
            let f = |v: String| v@;
            crate::assoc::lemma_map_get(pre_paths, f, path_owned@);
            crate::assoc::lemma_key_idx(pre_paths, path_owned@);
            assert(pre_paths.map_values(|p: (Seq<char>, String)| (p.0, f(p.1))) =~= old(
                self,
            ).paths());
            if removed_path is Some {
                assert(self.path_to_source.entries().map_values(
                    |p: (Seq<char>, String)| (p.0, f(p.1)),
                ) =~= old(self).paths().remove(key_idx(old(self).paths(), path_owned@)));
            }
            assert(self.paths() =~= self.path_to_source.entries().map_values(
                |p: (Seq<char>, String)| (p.0, f(p.1)),
            ));
        }
        proof {
            self.lemma_ledger_get(id@);
        }
        let ghost pre_ledger = self.entries.entries();
        let removed_entries = self.entries.remove(id);
        proof {
            let f = |v: Vec<LogEntry>| entry_models(v@);
            crate::assoc::lemma_map_get(pre_ledger, f, id@);
            crate::assoc::lemma_key_idx(pre_ledger, id@);
            assert(pre_ledger.map_values(|p: (Seq<char>, Vec<LogEntry>)| (p.0, f(p.1))) =~= old(
                self,
            ).ledger());
            if removed_entries is Some {
                assert(self.entries.entries().map_values(
                    |p: (Seq<char>, Vec<LogEntry>)| (p.0, f(p.1)),
                ) =~= old(self).ledger().remove(key_idx(old(self).ledger(), id@)));
            }
            assert(self.ledger() =~= self.entries.entries().map_values(
                |p: (Seq<char>, Vec<LogEntry>)| (p.0, f(p.1)),
            ));
        }
        self.tracker.note_removed(path_owned.as_str());
        proof {
            assert forall|p: Seq<char>| p != path_owned@ implies #[trigger] spec_get(
                self.watched(),
                p,
            ) == spec_get(old(self).watched(), p) by {
                assert(self.tracker.state_of(p) == old(self).tracker.state_of(p));
            }
        }
        Ok(())
    }

    /// Clears all sources, ledgers, path bindings and tracked paths.
    pub fn clear_all_sources(&mut self)
        requires
            old(self).wf(),
        ensures
            final(self).wf(),
            final(self).sources() == Seq::<(Seq<char>, SourceModel)>::empty(),
            final(self).paths() == Seq::<(Seq<char>, Seq<char>)>::empty(),
            final(self).ledger() == Seq::<(Seq<char>, Seq<EntryModel>)>::empty(),
            final(self).watched() == Seq::<(Seq<char>, PathState)>::empty(),
            final(self).next_id_spec() == old(self).next_id_spec(),
    {
        self.tracker.unwatch_all();
        self.sources.clear();
        self.path_to_source.clear();
        self.entries.clear();
        proof {
            assert(self.sources() =~= Seq::<(Seq<char>, SourceModel)>::empty());
            assert(self.paths() =~= Seq::<(Seq<char>, Seq<char>)>::empty());
            assert(self.ledger() =~= Seq::<(Seq<char>, Seq<EntryModel>)>::empty());
        }
    }

    /// Returns all sources, in registration order.
    pub fn get_sources(&self) -> (r: Vec<LogSource>)
        requires
            self.wf(),
        ensures
            r.deep_view() == self.sources().map_values(|p: (Seq<char>, SourceModel)| p.1),
    {
        let n = self.sources.len();
        let mut r: Vec<LogSource> = Vec::new();
        let mut i: usize = 0;
        while i < n
            invariant
                0 <= i <= n,
                n == self.sources.entries().len(),
                r.len() == i,
                forall|j: int| 0 <= j < i ==> r@[j]@ == self.sources()[j].1,
            decreases n - i,
        {
            proof {
                assert(self.sources()[i as int].1 == self.sources.entries()[i as int].1@);
            }
            r.push(self.sources.val_at(i).clone());
            i = i + 1;
        }
        proof {
            assert forall|j: int| 0 <= j < n implies r.deep_view()[j] == self.sources().map_values(
                |p: (Seq<char>, SourceModel)| p.1,
            )[j] by {
                assert(r.deep_view()[j] == r@[j]@);
            }
            assert(r.deep_view() =~= self.sources().map_values(
                |p: (Seq<char>, SourceModel)| p.1,
            ));
        }
        r
    }

    /// Returns the source with the given id, if any.
    pub fn get_source(&self, id: &str) -> (r: Option<LogSource>)
        requires
            self.wf(),
        ensures
            r.deep_view() == spec_get(self.sources(), id@),
    {
        proof {
            self.lemma_sources_get(id@);
        }
        match self.sources.get(id) {
            Some(s) => Some(s.clone()),
            None => None,
        }
    }

    /// Sets a source's status and error message; fails with `NotFound`
    /// when the id is unknown.
    pub fn update_status(&mut self, id: &str, status: LogSourceStatus, error_message: Option<
        String,
    >) -> (r: Result<(), StateError>)
        requires
            old(self).wf(),
        ensures
            final(self).wf(),
            match r {
                Ok(()) => {
                    &&& spec_get(old(self).sources(), id@) is Some
                    &&& final(self).sources() == old(self).sources().update(
                        key_idx(old(self).sources(), id@),
                        (
                            id@,
                            SourceModel {
                                status,
                                error_message: error_message.deep_view(),
                                ..spec_get(old(self).sources(), id@)->0
                            },
                        ),
                    )
                    &&& final(self).paths() == old(self).paths()
                    &&& final(self).ledger() == old(self).ledger()
                    &&& final(self).watched() == old(self).watched()
                    &&& final(self).next_id_spec() == old(self).next_id_spec()
                },
                Err(e) => {
                    &&& same_state(old(self), final(self))
                    &&& e matches StateError::NotFound
                    &&& spec_get(old(self).sources(), id@) is None
                },
            },
    {
        proof {
            self.lemma_sources_get(id@);
        }
        let ghost pre_sources = self.sources.entries();
        let mut updated = match self.sources.get(id) {
            Some(s) => s.clone(),
            None => {
                return Err(StateError::NotFound);
            },
        };
        updated.set_status(status, error_message);
        let ghost upd_ghost = updated;
        self.sources.update_value(id, updated);
        proof {
            crate::assoc::lemma_key_idx(pre_sources, id@);
            let f = |v: LogSource| v@;
            let i = key_idx(pre_sources, id@);
            let a = self.sources.entries().map_values(|p: (Seq<char>, LogSource)| (p.0, f(p.1)));
            let b = old(self).sources().update(
                key_idx(old(self).sources(), id@),
                (
                    id@,
                    SourceModel {
                        status,
                        error_message: error_message.deep_view(),
                        ..spec_get(old(self).sources(), id@)->0
                    },
                ),
            );
            assert(pre_sources.map_values(|p: (Seq<char>, LogSource)| (p.0, f(p.1))) =~= old(
                self,
            ).sources());
            assert forall|j: int| 0 <= j < a.len() implies a[j] == b[j] by {
                if j == i {
                    assert(self.sources.entries()[j] == (id@, upd_ghost));
                } else {
                    assert(self.sources.entries()[j] == pre_sources[j]);
                }
            }
            assert(a =~= b);
            assert(self.sources() =~= a);
        }
        Ok(())
    }

    /// Returns a source's entries: all of them, or the most recent
    /// `limit` in original order.  An unknown id yields the empty list.
    pub fn get_entries(&self, source_id: &str, limit: Option<usize>) -> (r: Vec<LogEntry>)
        requires
            self.wf(),
        ensures
            r.deep_view() == tail_limit(self.ledger_of(source_id@), limit),
    {
        proof {
            self.lemma_ledger_get(source_id@);
        }
        let stored = match self.entries.get(source_id) {
            Some(v) => v,
            None => {
                let r: Vec<LogEntry> = Vec::new();
                proof {
                    assert(r.deep_view() =~= tail_limit(self.ledger_of(source_id@), limit));
                }
                return r;
            },
        };
        let len = stored.len();
        let start: usize = match limit {
            None => 0,
            Some(l) => if l >= len {
                0
            } else {
                len - l
            },
        };
        let mut r: Vec<LogEntry> = Vec::new();
        let mut i: usize = start;
        while i < len
            invariant
                start <= i <= len,
                len == stored@.len(),
                r.len() == i - start,
                forall|j: int| 0 <= j < r.len() ==> r@[j]@ == stored@[start + j]@,
            decreases len - i,
        {
            r.push(stored[i].clone());
            i = i + 1;
        }
        proof {
            let want = tail_limit(self.ledger_of(source_id@), limit);
            assert(self.ledger_of(source_id@) == entry_models(stored@));
            assert forall|j: int| 0 <= j < r.len() implies r.deep_view()[j] == want[j] by {
                assert(r.deep_view()[j] == r@[j]@);
                assert(want[j] == entry_models(stored@)[start + j]);
            }
            assert(r.deep_view() =~= want);
        }
        r
    }

    /// Empties a source's ledger (used on truncation); unknown ids are
    /// a no-op.
    pub fn clear_entries(&mut self, source_id: &str)
        requires
            old(self).wf(),
        ensures
            final(self).wf(),
            final(self).ledger() == (if spec_get(old(self).ledger(), source_id@) is Some {
                old(self).ledger().update(
                    key_idx(old(self).ledger(), source_id@),
                    (source_id@, Seq::<EntryModel>::empty()),
                )
            } else {
                old(self).ledger()
            }),
            final(self).sources() == old(self).sources(),
            final(self).paths() == old(self).paths(),
            final(self).watched() == old(self).watched(),
            final(self).next_id_spec() == old(self).next_id_spec(),
    {
        proof {
            self.lemma_ledger_get(source_id@);
        }
        let ghost pre_ledger = self.entries.entries();
        if self.entries.contains(source_id) {
            let fresh: Vec<LogEntry> = Vec::new();
            let ghost fresh_ghost = fresh;
            self.entries.update_value(source_id, fresh);
            proof {
                crate::assoc::lemma_key_idx(pre_ledger, source_id@);
                let f = |v: Vec<LogEntry>| entry_models(v@);
                let i = key_idx(pre_ledger, source_id@);
                let a = self.entries.entries().map_values(
                    |p: (Seq<char>, Vec<LogEntry>)| (p.0, f(p.1)),
                );
                let b = old(self).ledger().update(
                    key_idx(old(self).ledger(), source_id@),
                    (source_id@, Seq::<EntryModel>::empty()),
                );
                assert(pre_ledger.map_values(|p: (Seq<char>, Vec<LogEntry>)| (p.0, f(p.1))) =~= old(
                    self,
                ).ledger());
                assert forall|j: int| 0 <= j < a.len() implies a[j] == b[j] by {
                    if j == i {
                        assert(self.entries.entries()[j] == (source_id@, fresh_ghost));
                        assert(entry_models(fresh_ghost@) =~= Seq::<EntryModel>::empty());
                    } else {
                        assert(self.entries.entries()[j] == pre_ledger[j]);
                    }
                }
                assert(a =~= b);
                assert(self.ledger() =~= a);
            }
        }
    }
}

/// What a single line parses to: a structured record when it matches
/// the record-start grammar, a raw `Info` record otherwise.
pub open spec fn spec_parse_line(s: Seq<char>, line_number: u64, now_ms: u64) -> EntryModel {
    if laravel_match(s) {
        parse_entry_model(s, line_number)
    } else {
        EntryModel {
            id: LogEntry::raw_id(line_number, now_ms),
            timestamp: None,
            level: crate::log_level::LogLevel::Info,
            message: s,
            raw: s,
            line_number,
            context: None,
            stack_trace: None,
            channel: None,
        }
    }
}

/// The (line number, text) pairs of a numbered batch.
pub open spec fn pair_models(lines: Seq<(u64, String)>) -> Seq<(u64, Seq<char>)> {
    lines.map_values(|p: (u64, String)| (p.0, p.1@))
}

/// What a numbered batch parses to with the multiline rule: a matching
/// line starts a record that consumes its continuation lines; any other
/// line becomes a single raw record.
pub open spec fn spec_parse_batch(pairs: Seq<(u64, Seq<char>)>, now_ms: u64) -> Seq<EntryModel>
    decreases pairs.len(),
{
    if pairs.len() == 0 {
        Seq::empty()
    } else {
        let strs = pairs.map_values(|p: (u64, Seq<char>)| p.1);
        if laravel_match(pairs[0].1) {
            let c0 = multiline_consumed(strs);
            let c = if 1 <= c0 <= pairs.len() {
                c0
            } else {
                1
            };
            seq![multiline_entry_model(strs, pairs[0].0)] + spec_parse_batch(
                pairs.subrange(c, pairs.len() as int),
                now_ms,
            )
        } else {
            seq![spec_parse_line(pairs[0].1, pairs[0].0, now_ms)] + spec_parse_batch(
                pairs.drop_first(),
                now_ms,
            )
        }
    }
}

/// The records of a freshly appended chunk, numbered backwards from the
/// line count reached after the read.
pub open spec fn appended_models(content: Seq<char>, line_number: u64, now_ms: u64) -> Seq<
    EntryModel,
> {
    let lines = spec_lines(content);
    Seq::new(
        lines.len(),
        |i: int| spec_parse_line(lines[i], (line_number - lines.len() + i + 1) as u64, now_ms),
    )
}

/// Whether directory `w` is an ancestor of (or equal to) directory `p`,
/// at component boundaries.
pub open spec fn path_starts_with(p: Seq<char>, w: Seq<char>) -> bool {
    w.len() > 0 && (p == w || (crate::text::is_prefix(w, p) && p.len() > w.len() && (p[
        w.len() as int
    ] == '/' || w[w.len() - 1] == '/')))
}

fn path_starts_with_exec(p: &str, w: &str) -> (r: bool)
    ensures
        r == path_starts_with(p@, w@),
{
    let wl = w.unicode_len();
    if wl == 0 {
        return false;
    }
    if crate::text::str_eq(p, w) {
        return true;
    }
    if !crate::text::str_starts_with(p, w) {
        return false;
    }
    let pl = p.unicode_len();
    if pl <= wl {
        return false;
    }
    p.get_char(wl) == '/' || w.get_char(wl - 1) == '/'
}

/// The first registered folder source whose directory is an ancestor of
/// `parent` and whose pattern matches `fname`.
pub open spec fn resolve_folder(
    p2s: Seq<(Seq<char>, Seq<char>)>,
    sources: Seq<(Seq<char>, SourceModel)>,
    parent: Seq<char>,
    fname: Seq<char>,
) -> Option<Seq<char>>
    decreases p2s.len(),
{
    if p2s.len() == 0 {
        None
    } else {
        let wp = p2s[0].0;
        let sid = p2s[0].1;
        let hit = match spec_get(sources, sid) {
            Some(m) => m.source_type == LogSourceType::Folder && path_starts_with(parent, wp)
                && (match m.pattern {
                Some(pat) => crate::globs::glob_accepts(pat) && crate::globs::glob_matches(
                    pat,
                    fname,
                ),
                None => false,
            }),
            None => false,
        };
        if hit {
            Some(sid)
        } else {
            resolve_folder(p2s.drop_first(), sources, parent, fname)
        }
    }
}

impl LogWatcherState {
    /// Which source a concrete file path belongs to: its exact binding
    /// if it has one, else the first registered folder source whose
    /// directory is an ancestor of the file's directory and whose glob
    /// pattern matches the file name.
    pub open spec fn spec_resolve(&self, path: Seq<char>) -> Option<Seq<char>> {
        match spec_get(self.paths(), path) {
            Some(sid) => Some(sid),
            None => match (crate::file_path::spec_parent(path), crate::file_path::spec_file_name(
                path,
            )) {
                (Some(parent), Some(fname)) => resolve_folder(
                    self.paths(),
                    self.sources(),
                    parent,
                    fname,
                ),
                _ => None,
            },
        }
    }

    /// Parses one line: the structured record when it matches, a raw
    /// `Info` record otherwise.
    pub fn parse_line(&self, line: &str, line_number: u64, now_ms: u64) -> (r: LogEntry)
        ensures
            r@ == spec_parse_line(line@, line_number, now_ms),
    {
        match self.parser.parse(line, line_number) {
            Some(e) => e,
            None => LogEntry::from_raw(String::from_str(line), line_number, now_ms),
        }
    }

    /// Parses a numbered batch of lines with the multiline rule.
    #[verifier::loop_isolation(false)]
    #[verifier::rlimit(60)]
    pub fn parse_lines_multiline(&self, lines: &Vec<(u64, String)>, now_ms: u64) -> (r: Vec<
        LogEntry,
    >)
        ensures
            r.deep_view() == spec_parse_batch(pair_models(lines@), now_ms),
    {
        let ghost pm = pair_models(lines@);
        let n = lines.len();
        let mut out: Vec<LogEntry> = Vec::new();
        let mut i: usize = 0;
        proof {
            assert(pm.subrange(0, n as int) =~= pm);
            assert(out.deep_view() + spec_parse_batch(pm, now_ms) =~= spec_parse_batch(
                pm,
                now_ms,
            ));
        }
        while i < n
            invariant
                0 <= i <= n,
                out.deep_view() + spec_parse_batch(pm.subrange(i as int, n as int), now_ms)
                    == spec_parse_batch(pm, now_ms),
            decreases n - i,
        {
            let ghost rest = pm.subrange(i as int, n as int);
            let ghost pre_out = out.deep_view();
            proof {
                assert(rest[0] == pm[i as int]);
                assert(pm[i as int] == (lines@[i as int].0, lines@[i as int].1@));
            }
            let first_line_no = lines[i].0;
            if self.parser.can_parse(lines[i].1.as_str()) {
                let mut suffix: Vec<String> = Vec::new();
                let mut j: usize = i;
                while j < n
                    invariant
                        i <= j <= n,
                        suffix.len() == j - i,
                        forall|k: int| 0 <= k < suffix.len() ==> suffix@[k]@ == lines@[i + k].1@,
                    decreases n - j,
                {
                    suffix.push(lines[j].1.clone());
                    j = j + 1;
                }
                let ghost strs_sub = rest.map_values(|p: (u64, Seq<char>)| p.1);
                proof {
                    assert forall|k: int| 0 <= k < suffix.deep_view().len() implies suffix.deep_view()[k]
                        == strs_sub[k] by {
                        assert(suffix.deep_view()[k] == suffix@[k]@);
                        assert(strs_sub[k] == rest[k].1);
                        assert(rest[k] == pm[i + k]);
                    }
                    assert(suffix.deep_view() =~= strs_sub);
                }
                let picked = self.parser.parse_multiline(&suffix, first_line_no);
                proof {
                    assert(suffix@.len() > 0);
                }
                let (entry, consumed) = picked.unwrap();
                proof {
                    crate::laravel::lemma_consume_bounds(strs_sub, 1, false);
                    assert(rest.subrange(consumed as int, rest.len() as int) =~= pm.subrange(
                        i + consumed,
                        n as int,
                    ));
                }
                out.push(entry);
                i = i + consumed;
                proof {
                    assert(out.deep_view() =~= pre_out.push(entry@));
                    assert(spec_parse_batch(rest, now_ms) == seq![entry@] + spec_parse_batch(
                        pm.subrange(i as int, n as int),
                        now_ms,
                    ));
                    assert(out.deep_view() + spec_parse_batch(
                        pm.subrange(i as int, n as int),
                        now_ms,
                    ) =~= pre_out + spec_parse_batch(rest, now_ms));
                }
            } else {
                let e = self.parse_line(lines[i].1.as_str(), first_line_no, now_ms);
                out.push(e);
                i = i + 1;
                proof {
                    assert(rest.drop_first() =~= pm.subrange(i as int, n as int));
                    assert(out.deep_view() =~= pre_out.push(e@));
                    assert(spec_parse_batch(rest, now_ms) == seq![e@] + spec_parse_batch(
                        pm.subrange(i as int, n as int),
                        now_ms,
                    ));
                    assert(out.deep_view() + spec_parse_batch(
                        pm.subrange(i as int, n as int),
                        now_ms,
                    ) =~= pre_out + spec_parse_batch(rest, now_ms));
                }
            }
        }
        proof {
            assert(pm.subrange(n as int, n as int) =~= Seq::<(u64, Seq<char>)>::empty());
            assert(out.deep_view() + spec_parse_batch(
                pm.subrange(n as int, n as int),
                now_ms,
            ) =~= out.deep_view());
        }
        out
    }

    /// Resolves which source a path belongs to.
    #[verifier::loop_isolation(false)]
    pub fn get_source_id_for_path(&self, path: &str) -> (r: Option<String>)
        requires
            self.wf(),
        ensures
            r.deep_view() == self.spec_resolve(path@),
    {
        proof {
            self.lemma_paths_get(path@);
        }
        match self.path_to_source.get(path) {
            Some(id) => {
                return Some(id.clone());
            },
            None => {},
        }
        let fp = match FilePath::new(path) {
            Ok(p) => p,
            Err(_) => {
                return None;
            },
        };
        let parent = match fp.parent() {
            Some(p) => p,
            None => {
                return None;
            },
        };
        let fname = match fp.file_name() {
            Some(f) => f,
            None => {
                return None;
            },
        };
        let n = self.path_to_source.len();
        let ghost full = self.paths();
        proof {
            assert(full.subrange(0, n as int) =~= full);
        }
        let mut i: usize = 0;
        while i < n
            invariant
                0 <= i <= n,
                resolve_folder(full, self.sources(), parent@, fname@) == resolve_folder(
                    full.subrange(i as int, n as int),
                    self.sources(),
                    parent@,
                    fname@,
                ),
            decreases n - i,
        {
            let ghost rest = full.subrange(i as int, n as int);
            proof {
                assert(rest[0] == full[i as int]);
                assert(full[i as int] == (
                    self.path_to_source.entries()[i as int].0,
                    self.path_to_source.entries()[i as int].1@,
                ));
                assert(rest.drop_first() =~= full.subrange(i + 1, n as int));
            }
            let wp = self.path_to_source.key_at(i);
            let sid = self.path_to_source.val_at(i);
            proof {
                self.lemma_sources_get(sid@);
            }
            let mut hit = false;
            match self.sources.get(sid.as_str()) {
                Some(src) => {
                    if src.is_folder() && path_starts_with_exec(parent.as_str(), wp.as_str()) {
                        match &src.pattern {
                            Some(pat) => {
                                match crate::globs::glob_match_str(pat.as_str(), fname.as_str()) {
                                    Some(true) => {
                                        hit = true;
                                    },
                                    _ => {},
                                }
                            },
                            None => {},
                        }
                    }
                },
                None => {},
            }
            if hit {
                return Some(sid.clone());
            }
            i = i + 1;
        }
        None
    }

    /// The byte/line state tracked for a path.
    pub fn tracked_state(&self, path: &str) -> (r: Option<PathState>)
        requires
            self.wf(),
        ensures
            r == spec_get(self.watched(), path@),
    {
        self.tracker.get_state(path)
    }

    /// Classifies an observed size for a path (see
    /// [`WatchTracker::observe`]).
    pub fn observe_path(&mut self, path: &str, current_size: u64) -> (r: crate::watcher::Delta)
        requires
            old(self).wf(),
        ensures
            final(self).wf(),
            final(self).sources() == old(self).sources(),
            final(self).paths() == old(self).paths(),
            final(self).ledger() == old(self).ledger(),
            final(self).next_id_spec() == old(self).next_id_spec(),
            ({
                let prev = match spec_get(old(self).watched(), path@) {
                    Some(st) => st.size,
                    None => 0,
                };
                &&& (current_size == prev ==> r == crate::watcher::Delta::NoChange
                    && final(self).watched() == old(self).watched())
                &&& (current_size > prev ==> r == (crate::watcher::Delta::Appended {
                    from: prev,
                    to: current_size,
                }) && final(self).watched() == old(self).watched())
                &&& (current_size < prev ==> r == crate::watcher::Delta::Truncated
                    && final(self).watched() == old(self).watched().update(
                    key_idx(old(self).watched(), path@),
                    (path@, crate::watcher::truncated_state()),
                ))
            }),
    {
        self.tracker.observe(path, current_size)
    }

    /// Records the lines read after an append for a path (see
    /// [`WatchTracker::record_append`]).
    pub fn record_appended(&mut self, path: &str, new_size: u64, n_lines: u64) -> (r: (u64, u64))
        requires
            old(self).wf(),
            (match spec_get(old(self).watched(), path@) {
                Some(st) => st.line_number,
                None => 0,
            }) + n_lines + 1 < 0x1_0000_0000_0000_0000,
        ensures
            final(self).wf(),
            final(self).sources() == old(self).sources(),
            final(self).paths() == old(self).paths(),
            final(self).ledger() == old(self).ledger(),
            final(self).next_id_spec() == old(self).next_id_spec(),
            ({
                let prev_ln = match spec_get(old(self).watched(), path@) {
                    Some(st) => st.line_number,
                    None => 0,
                };
                &&& r.0 == prev_ln + 1
                &&& r.1 == prev_ln + n_lines
                &&& (spec_get(old(self).watched(), path@) is Some ==> final(self).watched()
                    == old(self).watched().update(
                    key_idx(old(self).watched(), path@),
                    (
                        path@,
                        PathState { size: new_size, line_number: (prev_ln + n_lines) as u64 },
                    ),
                ))
                &&& (spec_get(old(self).watched(), path@) is None ==> final(self).watched()
                    == old(self).watched())
            }),
    {
        self.tracker.record_append(path, new_size, n_lines)
    }

    /// Appends parsed records to a source's ledger and records its
    /// activity; unknown ids are a no-op.
    pub fn add_entries(&mut self, source_id: &str, new_entries: Vec<LogEntry>, now_ms: u64)
        requires
            old(self).wf(),
        ensures
            final(self).wf(),
            final(self).ledger() == (if spec_get(old(self).ledger(), source_id@) is Some {
                old(self).ledger().update(
                    key_idx(old(self).ledger(), source_id@),
                    (
                        source_id@,
                        spec_get(old(self).ledger(), source_id@)->0 + entry_models(new_entries@),
                    ),
                )
            } else {
                old(self).ledger()
            }),
            final(self).sources() == (if spec_get(old(self).sources(), source_id@) is Some {
                old(self).sources().update(
                    key_idx(old(self).sources(), source_id@),
                    (
                        source_id@,
                        SourceModel {
                            last_activity_at: Some(now_ms),
                            ..spec_get(old(self).sources(), source_id@)->0
                        },
                    ),
                )
            } else {
                old(self).sources()
            }),
            final(self).paths() == old(self).paths(),
            final(self).watched() == old(self).watched(),
            final(self).next_id_spec() == old(self).next_id_spec(),
    {
        proof {
            self.lemma_ledger_get(source_id@);
        }
        let ghost pre_ledger = self.entries.entries();
        let stored = self.entries.get(source_id);
        match stored {
            Some(v) => {
                let mut w = v.clone();
                proof {
                    assert(entry_models(w@) =~= entry_models(v@));
                }
                let mut ne = new_entries;
                let ghost ne_view = ne@;
                w.append(&mut ne);
                let ghost w_ghost = w;
                self.entries.update_value(source_id, w);
                proof {
                    crate::assoc::lemma_key_idx(pre_ledger, source_id@);
                    let f = |v2: Vec<LogEntry>| entry_models(v2@);
                    let idx = key_idx(pre_ledger, source_id@);
                    let a = self.entries.entries().map_values(
                        |p: (Seq<char>, Vec<LogEntry>)| (p.0, f(p.1)),
                    );
                    let b = old(self).ledger().update(
                        key_idx(old(self).ledger(), source_id@),
                        (
                            source_id@,
                            spec_get(old(self).ledger(), source_id@)->0 + entry_models(ne_view),
                        ),
                    );
                    assert(pre_ledger.map_values(|p: (Seq<char>, Vec<LogEntry>)| (p.0, f(p.1)))
                        =~= old(self).ledger());
                    assert forall|j: int| 0 <= j < a.len() implies a[j] == b[j] by {
                        if j == idx {
                            assert(self.entries.entries()[j] == (source_id@, w_ghost));
                            assert(entry_models(w_ghost@) =~= entry_models(pre_ledger[idx].1@)
                                + entry_models(ne_view));
                        } else {
                            assert(self.entries.entries()[j] == pre_ledger[j]);
                        }
                    }
                    assert(a =~= b);
                    assert(self.ledger() =~= a);
                }
            },
            None => {},
        }
        proof {
            self.lemma_sources_get(source_id@);
        }
        let ghost pre_sources = self.sources.entries();
        let found = self.sources.get(source_id);
        match found {
            Some(s) => {
                let mut s2 = s.clone();
                s2.record_activity(now_ms);
                let ghost s2_ghost = s2;
                self.sources.update_value(source_id, s2);
                proof {
                    crate::assoc::lemma_key_idx(pre_sources, source_id@);
                    let f = |v2: LogSource| v2@;
                    let idx = key_idx(pre_sources, source_id@);
                    let a = self.sources.entries().map_values(
                        |p: (Seq<char>, LogSource)| (p.0, f(p.1)),
                    );
                    let b = old(self).sources().update(
                        key_idx(old(self).sources(), source_id@),
                        (
                            source_id@,
                            SourceModel {
                                last_activity_at: Some(now_ms),
                                ..spec_get(old(self).sources(), source_id@)->0
                            },
                        ),
                    );
                    assert(pre_sources.map_values(|p: (Seq<char>, LogSource)| (p.0, f(p.1))) =~= old(
                        self,
                    ).sources());
                    assert forall|j: int| 0 <= j < a.len() implies a[j] == b[j] by {
                        if j == idx {
                            assert(self.sources.entries()[j] == (source_id@, s2_ghost));
                        } else {
                            assert(self.sources.entries()[j] == pre_sources[j]);
                        }
                    }
                    assert(a =~= b);
                    assert(self.sources() =~= a);
                }
            },
            None => {},
        }
    }
}

/// What a file source's initial read should look at.
#[derive(Debug)]
pub enum ReadTarget {
    /// Read this file directly.
    Single(String),
    /// List this directory and read the lexicographically last file
    /// whose name matches the pattern.
    FolderScan { path: String, pattern: String },
    /// A folder source without a pattern: nothing to read.
    Nothing,
}

impl LogWatcherState {
    /// Where the initial content of a source is read from: the file
    /// itself for file sources, the directory and pattern for folder
    /// sources.  Fails with `NotFound` for unknown ids.
    pub fn initial_read_target(&self, source_id: &str) -> (r: Result<ReadTarget, StateError>)
        requires
            self.wf(),
        ensures
            match r {
                Ok(t) => spec_get(self.sources(), source_id@) is Some && ({
                    let m = spec_get(self.sources(), source_id@)->0;
                    match t {
                        ReadTarget::Single(p) => m.source_type == LogSourceType::File && p@
                            == m.path,
                        ReadTarget::FolderScan { path, pattern } => m.source_type
                            == LogSourceType::Folder && path@ == m.path && m.pattern == Some(
                            pattern@,
                        ),
                        ReadTarget::Nothing => m.source_type == LogSourceType::Folder
                            && m.pattern is None,
                    }
                }),
                Err(e) => {
                    &&& e matches StateError::NotFound
                    &&& spec_get(self.sources(), source_id@) is None
                },
            },
    {
        proof {
            self.lemma_sources_get(source_id@);
        }
        let src = match self.sources.get(source_id) {
            Some(s) => s,
            None => {
                return Err(StateError::NotFound);
            },
        };
        if src.is_folder() {
            match &src.pattern {
                Some(p) => Ok(
                    ReadTarget::FolderScan {
                        path: String::from_str(src.path.value()),
                        pattern: p.clone(),
                    },
                ),
                None => Ok(ReadTarget::Nothing),
            }
        } else {
            Ok(ReadTarget::Single(String::from_str(src.path.value())))
        }
    }

    /// Parses a numbered batch as the initial content of a source,
    /// stores the records in its ledger and records activity.  Fails
    /// with `NotFound` for unknown ids.
    pub fn ingest_initial_lines(&mut self, source_id: &str, lines: &Vec<(u64, String)>, now_ms: u64)
        -> (r: Result<Vec<LogEntry>, StateError>)
        requires
            old(self).wf(),
        ensures
            final(self).wf(),
            match r {
                Ok(v) => {
                    &&& spec_get(old(self).sources(), source_id@) is Some
                    &&& v.deep_view() == spec_parse_batch(pair_models(lines@), now_ms)
                    &&& final(self).ledger() == (if spec_get(old(self).ledger(), source_id@)
                        is Some {
                        old(self).ledger().update(
                            key_idx(old(self).ledger(), source_id@),
                            (
                                source_id@,
                                spec_get(old(self).ledger(), source_id@)->0 + spec_parse_batch(
                                    pair_models(lines@),
                                    now_ms,
                                ),
                            ),
                        )
                    } else {
                        old(self).ledger()
                    })
                    &&& final(self).sources() == old(self).sources().update(
                        key_idx(old(self).sources(), source_id@),
                        (
                            source_id@,
                            SourceModel {
                                last_activity_at: Some(now_ms),
                                ..spec_get(old(self).sources(), source_id@)->0
                            },
                        ),
                    )
                    &&& final(self).paths() == old(self).paths()
                    &&& final(self).watched() == old(self).watched()
                    &&& final(self).next_id_spec() == old(self).next_id_spec()
                },
                Err(e) => {
                    &&& same_state(old(self), final(self))
                    &&& e matches StateError::NotFound
                    &&& spec_get(old(self).sources(), source_id@) is None
                },
            },
    {
        proof {
            self.lemma_sources_get(source_id@);
        }
        if !self.sources.contains(source_id) {
            return Err(StateError::NotFound);
        }
        let parsed = self.parse_lines_multiline(lines, now_ms);
        let mut stored: Vec<LogEntry> = Vec::new();
        let mut i: usize = 0;
        while i < parsed.len()
            invariant
                0 <= i <= parsed.len(),
                stored.len() == i,
                forall|j: int| 0 <= j < i ==> stored@[j]@ == parsed@[j]@,
            decreases parsed.len() - i,
        {
            stored.push(parsed[i].clone());
            i = i + 1;
        }
        proof {
            assert(entry_models(stored@) =~= entry_models(parsed@));
            assert(entry_models(parsed@) =~= parsed.deep_view());
        }
        self.add_entries(source_id, stored, now_ms);
        Ok(parsed)
    }

    /// Applies one file watch event to the engine: appended content is
    /// parsed line by line and added to the resolved source's ledger;
    /// truncation clears that ledger; deletion and errors set the
    /// source's status; events for paths that resolve to no source are
    /// ignored.  Returns the events to deliver to the sink.
    pub fn process_file_event(&mut self, event: FileWatchEvent, now_ms: u64) -> (r: Vec<
        EngineEvent,
    >)
        requires
            old(self).wf(),
            event matches FileWatchEvent::ContentAppended { content, line_number, .. } ==> (
            spec_lines(content@).len() <= line_number),
        ensures
            final(self).wf(),
            match event {
                FileWatchEvent::ContentAppended { path, content, line_number } => {
                    match old(self).spec_resolve(path@) {
                        None => same_state(old(self), final(self)) && r@.len() == 0,
                        Some(sid) => {
                            let models = appended_models(content@, line_number, now_ms);
                            &&& final(self).ledger() == (if spec_get(old(self).ledger(), sid)
                                is Some {
                                old(self).ledger().update(
                                    key_idx(old(self).ledger(), sid),
                                    (sid, spec_get(old(self).ledger(), sid)->0 + models),
                                )
                            } else {
                                old(self).ledger()
                            })
                            &&& final(self).sources() == (if spec_get(old(self).sources(), sid)
                                is Some {
                                old(self).sources().update(
                                    key_idx(old(self).sources(), sid),
                                    (
                                        sid,
                                        SourceModel {
                                            last_activity_at: Some(now_ms),
                                            ..spec_get(old(self).sources(), sid)->0
                                        },
                                    ),
                                )
                            } else {
                                old(self).sources()
                            })
                            &&& final(self).paths() == old(self).paths()
                            &&& final(self).watched() == old(self).watched()
                            &&& final(self).next_id_spec() == old(self).next_id_spec()
                            &&& r@.len() == 1
                            &&& (match r@[0] {
                                EngineEvent::Entries(ev) => ev.source_id@ == sid
                                    && ev.entries.deep_view() == models,
                                _ => false,
                            })
                        },
                    }
                },
                FileWatchEvent::FileTruncated { path } => {
                    match old(self).spec_resolve(path@) {
                        None => same_state(old(self), final(self)) && r@.len() == 0,
                        Some(sid) => {
                            &&& final(self).ledger() == (if spec_get(old(self).ledger(), sid)
                                is Some {
                                old(self).ledger().update(
                                    key_idx(old(self).ledger(), sid),
                                    (sid, Seq::<EntryModel>::empty()),
                                )
                            } else {
                                old(self).ledger()
                            })
                            &&& final(self).sources() == old(self).sources()
                            &&& final(self).paths() == old(self).paths()
                            &&& final(self).watched() == old(self).watched()
                            &&& final(self).next_id_spec() == old(self).next_id_spec()
                            &&& r@.len() == 1
                            &&& (match r@[0] {
                                EngineEvent::Truncated(ev) => ev.source_id@ == sid,
                                _ => false,
                            })
                        },
                    }
                },
                FileWatchEvent::FileDeleted { path } => {
                    match old(self).spec_resolve(path@) {
                        None => same_state(old(self), final(self)) && r@.len() == 0,
                        Some(sid) => {
                            &&& status_transition(
                                old(self),
                                final(self),
                                sid,
                                "File deleted"@,
                                r@,
                            )
                            &&& spec_get(final(self).watched(), path@) is None
                            &&& forall|p: Seq<char>|
                                p != path@ ==> #[trigger] spec_get(final(self).watched(), p)
                                    == spec_get(old(self).watched(), p)
                        },
                    }
                },
                FileWatchEvent::Error { path, message } => {
                    match old(self).spec_resolve(path@) {
                        None => same_state(old(self), final(self)) && r@.len() == 0,
                        Some(sid) => status_transition(old(self), final(self), sid, message@, r@)
                            && final(self).watched() == old(self).watched(),
                    }
                },
                FileWatchEvent::FileCreated { .. } => same_state(old(self), final(self))
                    && r@.len() == 0,
                FileWatchEvent::FileRenamed { .. } => same_state(old(self), final(self))
                    && r@.len() == 0,
            },
    {
        match event {
            FileWatchEvent::ContentAppended { path, content, line_number } => {
                let resolved = self.get_source_id_for_path(path.as_str());
                let sid = match resolved {
                    Some(s) => s,
                    None => {
                        return Vec::new();
                    },
                };
                let lines = crate::text::split_lines(content.as_str());
                let count = lines.len() as u64;
                let mut parsed: Vec<LogEntry> = Vec::new();
                let n = lines.len();
                let mut i: usize = 0;
                while i < n
                    invariant
                        0 <= i <= n,
                        n == lines@.len(),
                        n == spec_lines(content@).len(),
                        count == n as u64,
                        count <= line_number,
                        forall|j: int| 0 <= j < n ==> lines@[j]@ == spec_lines(content@)[j],
                        parsed.len() == i,
                        forall|j: int|
                            0 <= j < i ==> parsed@[j]@ == appended_models(
                                content@,
                                line_number,
                                now_ms,
                            )[j],
                    decreases n - i,
                {
                    let num = line_number - count + (i as u64) + 1;
                    let e = self.parse_line(lines[i].as_str(), num, now_ms);
                    parsed.push(e);
                    i = i + 1;
                }
                let mut stored: Vec<LogEntry> = Vec::new();
                let mut k: usize = 0;
                while k < parsed.len()
                    invariant
                        0 <= k <= parsed.len(),
                        stored.len() == k,
                        forall|j: int| 0 <= j < k ==> stored@[j]@ == parsed@[j]@,
                    decreases parsed.len() - k,
                {
                    stored.push(parsed[k].clone());
                    k = k + 1;
                }
                proof {
                    assert(entry_models(stored@) =~= entry_models(parsed@));
                    assert(parsed.deep_view() =~= appended_models(content@, line_number, now_ms));
                    assert(entry_models(parsed@) =~= parsed.deep_view());
                }
                self.add_entries(sid.as_str(), stored, now_ms);
                let mut out: Vec<EngineEvent> = Vec::new();
                out.push(
                    EngineEvent::Entries(LogEntriesEvent { source_id: sid, entries: parsed }),
                );
                out
            },
            FileWatchEvent::FileTruncated { path } => {
                let resolved = self.get_source_id_for_path(path.as_str());
                let sid = match resolved {
                    Some(s) => s,
                    None => {
                        return Vec::new();
                    },
                };
                self.clear_entries(sid.as_str());
                let mut out: Vec<EngineEvent> = Vec::new();
                out.push(EngineEvent::Truncated(FileTruncatedEvent { source_id: sid }));
                out
            },
            FileWatchEvent::FileDeleted { path } => {
                let resolved = self.get_source_id_for_path(path.as_str());
                let sid = match resolved {
                    Some(s) => s,
                    None => {
                        return Vec::new();
                    },
                };
                self.tracker.note_removed(path.as_str());
                proof {
                    assert forall|p: Seq<char>| p != path@ implies #[trigger] spec_get(
                        self.watched(),
                        p,
                    ) == spec_get(old(self).watched(), p) by {
                        assert(self.tracker.state_of(p) == old(self).tracker.state_of(p));
                    }
                }
                let msg = String::from_str("File deleted");
                let _ = self.update_status(
                    sid.as_str(),
                    LogSourceStatus::Error,
                    Some(msg.clone()),
                );
                let mut out: Vec<EngineEvent> = Vec::new();
                out.push(
                    EngineEvent::Status(
                        SourceStatusEvent {
                            source_id: sid,
                            status: LogSourceStatus::Error,
                            error_message: Some(msg),
                        },
                    ),
                );
                out
            },
            FileWatchEvent::Error { path, message } => {
                let resolved = self.get_source_id_for_path(path.as_str());
                let sid = match resolved {
                    Some(s) => s,
                    None => {
                        return Vec::new();
                    },
                };
                let _ = self.update_status(
                    sid.as_str(),
                    LogSourceStatus::Error,
                    Some(message.clone()),
                );
                let mut out: Vec<EngineEvent> = Vec::new();
                out.push(
                    EngineEvent::Status(
                        SourceStatusEvent {
                            source_id: sid,
                            status: LogSourceStatus::Error,
                            error_message: Some(message),
                        },
                    ),
                );
                out
            },
            FileWatchEvent::FileCreated { .. } => Vec::new(),
            FileWatchEvent::FileRenamed { .. } => Vec::new(),
        }
    }
}

/// The status transition a deletion or watch error causes: the resolved
/// source (when it still exists) goes to `Error` with the message, and
/// one status event carries the same information out.
pub open spec fn status_transition(
    pre: &LogWatcherState,
    post: &LogWatcherState,
    sid: Seq<char>,
    msg: Seq<char>,
    out: Seq<EngineEvent>,
) -> bool {
    &&& post.ledger() == pre.ledger()
    &&& post.sources() == (if spec_get(pre.sources(), sid) is Some {
        pre.sources().update(
            key_idx(pre.sources(), sid),
            (
                sid,
                SourceModel {
                    status: LogSourceStatus::Error,
                    error_message: Some(msg),
                    ..spec_get(pre.sources(), sid)->0
                },
            ),
        )
    } else {
        pre.sources()
    })
    &&& post.paths() == pre.paths()
    &&& post.next_id_spec() == pre.next_id_spec()
    &&& out.len() == 1
    &&& (match out[0] {
        EngineEvent::Status(ev) => ev.source_id@ == sid && ev.status == LogSourceStatus::Error
            && ev.error_message.deep_view() == Some(msg),
        _ => false,
    })
}

/// Whether the glob `pattern` is well formed and matches `name`.
pub open spec fn pattern_hits(pattern: Seq<char>, name: Seq<char>) -> bool {
    crate::globs::glob_accepts(pattern) && crate::globs::glob_matches(pattern, name)
}

/// Picks the lexicographically last file name that the pattern matches
/// (for date-suffixed daily logs, the chronologically newest).
pub fn select_latest_match(pattern: &str, names: &Vec<String>) -> (r: Option<String>)
    ensures
        match r {
            Some(best) => {
                &&& pattern_hits(pattern@, best@)
                &&& exists|i: int| 0 <= i < names@.len() && names@[i]@ == best@
                &&& forall|j: int|
                    0 <= j < names@.len() && pattern_hits(pattern@, #[trigger] names@[j]@)
                        ==> (names@[j]@ == best@ || crate::text::lex_lt(names@[j]@, best@))
            },
            None => forall|j: int|
                0 <= j < names@.len() ==> !pattern_hits(pattern@, #[trigger] names@[j]@),
        },
{
    let n = names.len();
    let mut best: Option<String> = None;
    let mut i: usize = 0;
    while i < n
        invariant
            0 <= i <= n,
            n == names@.len(),
            match best {
                Some(b) => {
                    &&& pattern_hits(pattern@, b@)
                    &&& exists|k: int| 0 <= k < i && names@[k]@ == b@
                    &&& forall|j: int|
                        0 <= j < i && pattern_hits(pattern@, #[trigger] names@[j]@) ==> (
                        names@[j]@ == b@ || crate::text::lex_lt(names@[j]@, b@))
                },
                None => forall|j: int|
                    0 <= j < i ==> !pattern_hits(pattern@, #[trigger] names@[j]@),
            },
        decreases n - i,
    {
        let name = &names[i];
        let hits = match crate::globs::glob_match_str(pattern, name.as_str()) {
            Some(true) => true,
            _ => false,
        };
        if hits {
            let ghost old_best = best;
            let replace = match &best {
                None => true,
                Some(b) => crate::text::str_lt(b.as_str(), name.as_str()),
            };
            if replace {
                best = Some(name.clone());
                proof {
                    if old_best is Some {
                        let bv = old_best->0@;
                        assert forall|j: int|
                            0 <= j < i + 1 && pattern_hits(pattern@, #[trigger] names@[j]@)
                            implies (names@[j]@ == name@ || crate::text::lex_lt(
                            names@[j]@,
                            name@,
                        )) by {
                            if j < i {
                                if names@[j]@ == bv {
                                } else {
                                    crate::text::lemma_lex_lt_trans(names@[j]@, bv, name@);
                                }
                            }
                        }
                    }
                }
            } else {
                proof {
                    let bv = best->0@;
                    crate::text::lemma_lex_trichotomy(bv, name@);
                }
            }
        }
        i = i + 1;
    }
    best
}

/// The last `max` pairs of a numbered batch (or all of them).
pub fn limit_tail(lines: Vec<(u64, String)>, max_lines: Option<usize>) -> (r: Vec<(u64, String)>)
    ensures
        pair_models(r@) == (match max_lines {
            None => pair_models(lines@),
            Some(m) => if m >= lines@.len() {
                pair_models(lines@)
            } else {
                pair_models(lines@).subrange(lines@.len() - m, lines@.len() as int)
            },
        }),
{
    let len = lines.len();
    let start: usize = match max_lines {
        None => 0,
        Some(m) => if m >= len {
            0
        } else {
            len - m
        },
    };
    let mut r: Vec<(u64, String)> = Vec::new();
    let mut i: usize = start;
    while i < len
        invariant
            start <= i <= len,
            len == lines@.len(),
            r.len() == i - start,
            forall|j: int|
                0 <= j < r.len() ==> r@[j].0 == lines@[start + j].0 && r@[j].1@ == lines@[start
                    + j].1@,
        decreases len - i,
    {
        let p = &lines[i];
        r.push((p.0, p.1.clone()));
        i = i + 1;
    }
    proof {
        if start == 0 {
            assert(pair_models(r@) =~= pair_models(lines@));
        } else {
            assert(pair_models(r@) =~= pair_models(lines@).subrange(
                start as int,
                lines@.len() as int,
            ));
        }
    }
    r
}

/// The last `limit` entries (or all of them) in original order.
pub open spec fn tail_limit(s: Seq<EntryModel>, limit: Option<usize>) -> Seq<EntryModel> {
    match limit {
        None => s,
        Some(l) => if l >= s.len() {
            s
        } else {
            s.subrange(s.len() - l, s.len() as int)
        },
    }
}

/// Reading a source's entries is a pure function of the ledger: two
/// reads with no intervening writes return identical sequences.
pub proof fn lemma_get_entries_idempotent(
    st: Seq<EntryModel>,
    limit: Option<usize>,
    r1: Seq<EntryModel>,
    r2: Seq<EntryModel>,
)
    requires
        r1 == tail_limit(st, limit),
        r2 == tail_limit(st, limit),
    ensures
        r1 == r2,
{
}

/// Two engine states with the same observable parts.
pub open spec fn same_state(a: &LogWatcherState, b: &LogWatcherState) -> bool {
    &&& a.sources() == b.sources()
    &&& a.paths() == b.paths()
    &&& a.ledger() == b.ledger()
    &&& a.watched() == b.watched()
    &&& a.next_id_spec() == b.next_id_spec()
}

} // verus!

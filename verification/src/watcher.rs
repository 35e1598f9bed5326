//! The incremental file-watching state machine.
//!
//! Tracks, per watched path, the byte size last observed and the line
//! count already emitted, and turns raw size observations into semantic
//! deltas: nothing changed, truncated, or appended with a byte range.
//! The operating-system side (stat calls, reads, change notifications)
//! is supplied by the caller as plain values.

use vstd::prelude::*;
use vstd::string::StringExecFns;
use crate::assoc::{Assoc, spec_get, spec_upsert, key_idx, lemma_key_idx};
use crate::globs::{glob_accepts, glob_matches, glob_match_str};
use crate::ports::WatchError;

verus! {

/// What a stat call observed about a path.
#[derive(Debug, Clone, Copy, PartialEq, Eq, Structural)]
pub enum FileStat {
    /// The path does not exist.
    Missing,
    /// The path is a directory.
    Dir,
    /// The path is a plain file of `size` bytes holding `line_count`
    /// lines.
    File { size: u64, line_count: u64 },
}

/// Per-path bookkeeping: the byte size last observed and the number of
/// lines already emitted.
#[derive(Debug, Clone, Copy, PartialEq, Eq, Structural)]
pub struct PathState {
    pub size: u64,
    pub line_number: u64,
}

/// The semantic delta between the stored and the observed size.
#[derive(Debug, Clone, Copy, PartialEq, Eq, Structural)]
pub enum Delta {
    NoChange,
    Truncated,
    /// New bytes in the range `from .. to`.
    Appended { from: u64, to: u64 },
}

/// The state a path holds right after the truncation transition.
pub open spec fn truncated_state() -> PathState {
    PathState { size: 0, line_number: 0 }
}

/// One file of a directory listing, with its stat results.
#[derive(Debug)]
pub struct DirFile {
    /// The bare file name (no directory part).
    pub name: String,
    pub size: u64,
    pub line_count: u64,
}

/// `dir` and `name` joined with a separator.
pub open spec fn spec_join(dir: Seq<char>, name: Seq<char>) -> Seq<char> {
    dir + "/"@ + name
}

/// Registering a directory listing: every file whose name matches the
/// pattern is bound (path joined to the directory) to its stat values.
pub open spec fn scan_fold(
    m: Seq<(Seq<char>, PathState)>,
    dir: Seq<char>,
    pattern: Seq<char>,
    files: Seq<(Seq<char>, u64, u64)>,
) -> Seq<(Seq<char>, PathState)>
    decreases files.len(),
{
    if files.len() == 0 {
        m
    } else {
        let f = files[0];
        let m2 = if glob_matches(pattern, f.0) {
            spec_upsert(m, spec_join(dir, f.0), PathState { size: f.1, line_number: f.2 })
        } else {
            m
        };
        scan_fold(m2, dir, pattern, files.drop_first())
    }
}

/// The stat triples of a directory listing.
pub open spec fn dir_file_models(files: Seq<DirFile>) -> Seq<(Seq<char>, u64, u64)> {
    files.map_values(|f: DirFile| (f.name@, f.size, f.line_count))
}

/// The registry of watched paths and their byte/line bookkeeping.
pub struct WatchTracker {
    states: Assoc<PathState>,
}

impl WatchTracker {
    /// The tracked states, in registration order.
    pub closed spec fn states(&self) -> Seq<(Seq<char>, PathState)> {
        self.states.entries()
    }

    /// The state tracked for a path.
    pub open spec fn state_of(&self, path: Seq<char>) -> Option<PathState> {
        spec_get(self.states(), path)
    }

    pub closed spec fn wf(&self) -> bool {
        self.states.wf()
    }

    /// Creates an empty tracker.
    pub fn new() -> (r: Self)
        ensures
            r.wf(),
            r.states() == Seq::<(Seq<char>, PathState)>::empty(),
    {
        WatchTracker { states: Assoc::new() }
    }

    /// Starts watching a plain file, rejecting missing paths,
    /// directories and paths already watched; on success the path is
    /// tracked with the observed size and line count.
    pub fn watch_file(&mut self, path: &str, stat: FileStat) -> (r: Result<(), WatchError>)
        requires
            old(self).wf(),
        ensures
            final(self).wf(),
            match r {
                Ok(()) => match stat {
                    FileStat::File { size, line_count } => {
                        &&& old(self).state_of(path@) is None
                        &&& final(self).states() == old(self).states().push(
                            (path@, PathState { size, line_number: line_count }),
                        )
                    },
                    _ => false,
                },
                Err(e) => {
                    &&& *final(self) == *old(self)
                    &&& match e {
                        WatchError::FileNotFound(p) => stat == FileStat::Missing && p@ == path@,
                        WatchError::NotAFile(p) => stat == FileStat::Dir && p@ == path@,
                        WatchError::AlreadyWatching(p) => (stat matches FileStat::File { .. })
                            && old(self).state_of(path@) is Some && p@ == path@,
                        _ => false,
                    }
                },
            },
    {
        match stat {
            FileStat::Missing => Err(WatchError::FileNotFound(String::from_str(path))),
            FileStat::Dir => Err(WatchError::NotAFile(String::from_str(path))),
            FileStat::File { size, line_count } => {
                if self.states.contains(path) {
                    return Err(WatchError::AlreadyWatching(String::from_str(path)));
                }
                let ks = String::from_str(path);
                self.states.insert(ks, PathState { size, line_number: line_count });
                Ok(())
            },
        }
    }

    /// Starts watching a directory: rejects missing paths, plain files
    /// and ill-formed patterns; on success every listed file whose name
    /// matches the pattern is tracked under the joined path with its
    /// stat values.
    #[verifier::loop_isolation(false)]
    pub fn watch_directory(&mut self, path: &str, pattern: &str, stat: FileStat, files: &Vec<
        DirFile,
    >) -> (r: Result<(), WatchError>)
        requires
            old(self).wf(),
        ensures
            final(self).wf(),
            match r {
                Ok(()) => {
                    &&& stat == FileStat::Dir
                    &&& glob_accepts(pattern@)
                    &&& final(self).states() == scan_fold(
                        old(self).states(),
                        path@,
                        pattern@,
                        dir_file_models(files@),
                    )
                },
                Err(e) => {
                    &&& *final(self) == *old(self)
                    &&& match e {
                        WatchError::FileNotFound(p) => stat == FileStat::Missing && p@ == path@,
                        WatchError::NotADirectory(p) => (stat matches FileStat::File { .. }) && p@
                            == path@,
                        WatchError::WatcherError(_) => stat == FileStat::Dir && !glob_accepts(
                            pattern@,
                        ),
                        _ => false,
                    }
                },
            },
    {
        match stat {
            FileStat::Missing => {
                return Err(WatchError::FileNotFound(String::from_str(path)));
            },
            FileStat::File { .. } => {
                return Err(WatchError::NotADirectory(String::from_str(path)));
            },
            FileStat::Dir => {},
        }
        match glob_match_str(pattern, "") {
            Some(_) => {},
            None => {
                let mut msg = String::from_str("Invalid pattern: ");
                msg.append(pattern);
                return Err(WatchError::WatcherError(msg));
            },
        }
        let ghost pre = self.states();
        let ghost models = dir_file_models(files@);
        let n = files.len();
        proof {
            assert(models.subrange(0, n as int) =~= models);
        }
        let mut i: usize = 0;
        while i < n
            invariant
                0 <= i <= n,
                self.wf(),
                scan_fold(pre, path@, pattern@, models) == scan_fold(
                    self.states(),
                    path@,
                    pattern@,
                    models.subrange(i as int, n as int),
                ),
            decreases n - i,
        {
            let ghost rest = models.subrange(i as int, n as int);
            let ghost cur = self.states();
            proof {
                assert(rest[0] == models[i as int]);
                assert(rest.drop_first() =~= models.subrange(i + 1, n as int));
            }
            let f = &files[i];
            match glob_match_str(pattern, f.name.as_str()) {
                Some(true) => {
                    let mut full = String::from_str(path);
                    full.append("/");
                    full.append(f.name.as_str());
                    assert(full@ == spec_join(path@, f.name@));
                    self.states.upsert(
                        full.as_str(),
                        PathState { size: f.size, line_number: f.line_count },
                    );
                },
                Some(false) => {},
                None => {
                    proof {
                        assert(false);
                    }
                },
            }
            proof {
                assert(scan_fold(cur, path@, pattern@, rest) == scan_fold(
                    self.states(),
                    path@,
                    pattern@,
                    rest.drop_first(),
                ));
            }
            i = i + 1;
        }
        proof {
            assert(models.subrange(n as int, n as int) =~= Seq::<(Seq<char>, u64, u64)>::empty());
        }
        Ok(())
    }

    /// Stops watching a path; fails with `NotWatching` when it is not
    /// tracked.
    pub fn unwatch(&mut self, path: &str) -> (r: Result<(), WatchError>)
        requires
            old(self).wf(),
        ensures
            final(self).wf(),
            match r {
                Ok(()) => {
                    &&& old(self).state_of(path@) is Some
                    &&& final(self).states() == old(self).states().remove(
                        key_idx(old(self).states(), path@),
                    )
                    &&& final(self).state_of(path@) is None
                },
                Err(e) => {
                    &&& final(self).states() == old(self).states()
                    &&& old(self).state_of(path@) is None
                    &&& e matches WatchError::NotWatching(p) && p@ == path@
                },
            },
    {
        let removed = self.states.remove(path);
        match removed {
            Some(_) => {
                proof {
                    let pre = old(self).states();
                    lemma_key_idx(pre, path@);
                    crate::assoc::lemma_remove_key_gone(pre, path@);
                }
                Ok(())
            },
            None => Err(WatchError::NotWatching(String::from_str(path))),
        }
    }

    /// Stops watching everything.
    pub fn unwatch_all(&mut self)
        ensures
            final(self).wf(),
            final(self).states() == Seq::<(Seq<char>, PathState)>::empty(),
    {
        self.states.clear();
    }

    /// The state tracked for a path, if any.
    pub fn get_state(&self, path: &str) -> (r: Option<PathState>)
        ensures
            r == self.state_of(path@),
    {
        match self.states.get(path) {
            Some(st) => Some(*st),
            None => None,
        }
    }

    /// Whether a path is tracked.
    pub fn is_watching(&self, path: &str) -> (r: bool)
        ensures
            r == (self.state_of(path@) is Some),
    {
        self.states.contains(path)
    }

    /// All tracked paths, in registration order.
    pub fn watched_paths(&self) -> (r: Vec<String>)
        ensures
            r.deep_view() == self.states().map_values(|p: (Seq<char>, PathState)| p.0),
    {
        let n = self.states.len();
        let mut r: Vec<String> = Vec::new();
        let mut i: usize = 0;
        while i < n
            invariant
                0 <= i <= n,
                n == self.states().len(),
                r.len() == i,
                forall|j: int| 0 <= j < i ==> r@[j]@ == self.states()[j].0,
            decreases n - i,
        {
            r.push(self.states.key_at(i).clone());
            i = i + 1;
        }
        proof {
            assert forall|j: int| 0 <= j < n implies r.deep_view()[j] == self.states().map_values(
                |p: (Seq<char>, PathState)| p.0,
            )[j] by {
                assert(r.deep_view()[j] == r@[j]@);
            }
            assert(r.deep_view() =~= self.states().map_values(|p: (Seq<char>, PathState)| p.0));
        }
        r
    }

    /// Removes a path's state after its file was deleted; no error when
    /// it was not tracked.
    pub fn note_removed(&mut self, path: &str)
        requires
            old(self).wf(),
        ensures
            final(self).wf(),
            final(self).state_of(path@) is None,
            forall|p: Seq<char>|
                p != path@ ==> #[trigger] final(self).state_of(p) == old(self).state_of(p),
    {
        let removed = self.states.remove(path);
        proof {
            if removed is Some {
                crate::assoc::lemma_remove_key_gone(old(self).states(), path@);
            }
            assert forall|p: Seq<char>| p != path@ implies #[trigger] self.state_of(p) == old(
                self,
            ).state_of(p) by {
                assert(self.states.spec_index(p) == old(self).states.spec_index(p));
            }
        }
    }

    /// Classifies an observed size against the stored state: equal
    /// sizes are no change; a shrink is a truncation and resets the
    /// stored state; a growth is an append of the byte range between
    /// the stored and the observed size.  An untracked path is treated
    /// as stored size zero and stays untracked.
    pub fn observe(&mut self, path: &str, current_size: u64) -> (r: Delta)
        requires
            old(self).wf(),
        ensures
            final(self).wf(),
            ({
                let prev = match old(self).state_of(path@) {
                    Some(st) => st.size,
                    None => 0,
                };
                &&& (current_size == prev ==> r == Delta::NoChange && *final(self) == *old(self))
                &&& (current_size > prev ==> r == (Delta::Appended {
                    from: prev,
                    to: current_size,
                }) && *final(self) == *old(self))
                &&& (current_size < prev ==> r == Delta::Truncated && final(self).states()
                    == old(self).states().update(
                    key_idx(old(self).states(), path@),
                    (path@, truncated_state()),
                ))
            }),
    {
        let prev: u64 = match self.states.get(path) {
            Some(st) => st.size,
            None => 0,
        };
        if current_size == prev {
            Delta::NoChange
        } else if current_size > prev {
            Delta::Appended { from: prev, to: current_size }
        } else {
            // a shrink is only possible for a tracked path (an untracked
            // one has stored size zero)
            self.states.update_value(path, PathState { size: 0, line_number: 0 });
            Delta::Truncated
        }
    }

    /// Records that `n_lines` new lines were read after an append, up
    /// to byte `new_size`; returns the first and last emitted line
    /// numbers.  An untracked path numbers from zero and stays
    /// untracked.
    pub fn record_append(&mut self, path: &str, new_size: u64, n_lines: u64) -> (r: (u64, u64))
        requires
            old(self).wf(),
            (match old(self).state_of(path@) {
                Some(st) => st.line_number,
                None => 0,
            }) + n_lines + 1 < 0x1_0000_0000_0000_0000,
        ensures
            final(self).wf(),
            ({
                let prev_ln = match old(self).state_of(path@) {
                    Some(st) => st.line_number,
                    None => 0,
                };
                &&& r.0 == prev_ln + 1
                &&& r.1 == prev_ln + n_lines
                &&& (old(self).state_of(path@) is Some ==> final(self).states() == old(
                    self,
                ).states().update(
                    key_idx(old(self).states(), path@),
                    (path@, PathState { size: new_size, line_number: (prev_ln + n_lines) as u64 }),
                ))
                &&& (old(self).state_of(path@) is None ==> *final(self) == *old(self))
            }),
    {
        let tracked_state = self.states.get(path);
        match tracked_state {
            Some(st) => {
                let prev_ln = st.line_number;
                let last = prev_ln + n_lines;
                self.states.update_value(
                    path,
                    PathState { size: new_size, line_number: last },
                );
                (prev_ln + 1, last)
            },
            None => (1, n_lines),
        }
    }
}

/// The total line count before batch `k`, starting from `l0` and adding
/// the sizes of the first `k` appended batches.
pub open spec fn batch_start(l0: nat, counts: Seq<nat>, k: int) -> nat
    decreases k,
{
    if k <= 0 {
        l0
    } else if k > counts.len() {
        l0
    } else {
        batch_start(l0, counts, k - 1) + counts[k - 1]
    }
}

/// A line number `m` is emitted by some batch of the run.
pub open spec fn emitted(l0: nat, counts: Seq<nat>, m: nat) -> bool {
    exists|k: int|
        0 <= k < counts.len() && #[trigger] batch_start(l0, counts, k) < m <= batch_start(
            l0,
            counts,
            k,
        ) + counts[k]
}

proof fn lemma_batch_start_snoc(l0: nat, counts: Seq<nat>, k: int)
    requires
        0 <= k < counts.len(),
    ensures
        batch_start(l0, counts.drop_last(), k) == batch_start(l0, counts, k),
    decreases k,
{
    if k > 0 {
        lemma_batch_start_snoc(l0, counts, k - 1);
        assert(counts.drop_last()[k - 1] == counts[k - 1]);
    }
}

proof fn lemma_batch_start_monotone(l0: nat, counts: Seq<nat>, k1: int, k2: int)
    requires
        0 <= k1 <= k2 <= counts.len(),
    ensures
        batch_start(l0, counts, k1) <= batch_start(l0, counts, k2),
    decreases k2 - k1,
{
    if k1 < k2 {
        lemma_batch_start_monotone(l0, counts, k1, k2 - 1);
    }
}

/// The union of line numbers emitted across successive appended batches
/// for one path is the contiguous run from the line count at watch time
/// plus one through the final count: each batch continues exactly where
/// the previous one stopped.
pub proof fn lemma_append_numbers_contiguous(l0: nat, counts: Seq<nat>, m: nat)
    ensures
        emitted(l0, counts, m) <==> (l0 < m <= batch_start(l0, counts, counts.len() as int)),
    decreases counts.len(),
{
    if counts.len() == 0 {
    } else {
        let shorter = counts.drop_last();
        let last_k = counts.len() - 1;
        lemma_append_numbers_contiguous(l0, shorter, m);
        assert forall|k: int| 0 <= k < shorter.len() implies #[trigger] batch_start(l0, shorter, k)
            == batch_start(l0, counts, k) && shorter[k] == counts[k] by {
            lemma_batch_start_snoc(l0, counts, k);
        }
        lemma_batch_start_snoc(l0, counts, last_k);
        assert(batch_start(l0, counts, counts.len() as int) == batch_start(l0, counts, last_k)
            + counts[last_k]);
        if emitted(l0, counts, m) {
            let k = choose|k: int|
                0 <= k < counts.len() && #[trigger] batch_start(l0, counts, k) < m <= batch_start(
                    l0,
                    counts,
                    k,
                ) + counts[k];
            lemma_batch_start_monotone(l0, counts, 0, k);
            if k < last_k {
                assert(batch_start(l0, shorter, k) < m <= batch_start(l0, shorter, k)
                    + shorter[k]);
                assert(emitted(l0, shorter, m));
            } else {
                assert(m <= batch_start(l0, counts, counts.len() as int));
            }
        } else {
            if l0 < m <= batch_start(l0, counts, counts.len() as int) {
                if m <= batch_start(l0, counts, last_k) {
                    assert(batch_start(l0, shorter, shorter.len() as int) == batch_start(
                        l0,
                        counts,
                        last_k,
                    )) by {
                        if last_k > 0 {
                            lemma_batch_start_snoc(l0, counts, last_k - 1);
                        }
                    }
                    assert(emitted(l0, shorter, m));
                    let k = choose|k: int|
                        0 <= k < shorter.len() && #[trigger] batch_start(l0, shorter, k) < m
                            <= batch_start(l0, shorter, k) + shorter[k];
                    assert(batch_start(l0, counts, k) < m <= batch_start(l0, counts, k)
                        + counts[k]);
                    assert(emitted(l0, counts, m));
                } else {
                    assert(batch_start(l0, counts, last_k) < m <= batch_start(l0, counts, last_k)
                        + counts[last_k]);
                    assert(emitted(l0, counts, m));
                }
            }
        }
    }
}

/// Truncation resets subsequent numbering: whatever state a path held
/// before, right after the truncation transition its stored line count
/// is zero, so the next appended batch of `n` lines is numbered 1
/// through `n`.
pub proof fn lemma_truncation_restarts_numbering(prior: PathState, n: u64)
    requires
        n < 0xffff_ffff_ffff_ffff,
    ensures
        truncated_state().line_number + 1 == 1,
        truncated_state().line_number + n == n,
{
}

} // verus!

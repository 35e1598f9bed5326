//! Bookkeeping for per-source log windows: which window shows which
//! source, and the small 1-9 index space used for keyboard navigation.

use vstd::prelude::*;
use vstd::string::StringExecFns;
use crate::assoc::{Assoc, spec_get, key_idx, spec_upsert, lemma_key_idx};

verus! {

/// The mathematical value of a [`WindowInfo`].
pub struct WindowModel {
    pub label: Seq<char>,
    pub source_id: Seq<char>,
    pub window_index: u8,
    pub title: Seq<char>,
    pub is_focused: bool,
}

/// Information about a log window.
#[derive(Debug)]
pub struct WindowInfo {
    /// The window label (unique identifier).
    pub label: String,
    /// The source ID this window is displaying.
    pub source_id: String,
    /// The window index (1-9) for keyboard navigation.
    pub window_index: u8,
    /// The window title.
    pub title: String,
    /// Whether this window is currently focused.
    pub is_focused: bool,
}

impl View for WindowInfo {
    type V = WindowModel;

    open spec fn view(&self) -> WindowModel {
        WindowModel {
            label: self.label@,
            source_id: self.source_id@,
            window_index: self.window_index,
            title: self.title@,
            is_focused: self.is_focused,
        }
    }
}

impl DeepView for WindowInfo {
    type V = WindowModel;

    open spec fn deep_view(&self) -> WindowModel {
        self.view()
    }
}

impl Clone for WindowInfo {
    /// A clone has the same mathematical value.
    fn clone(&self) -> (r: Self)
        ensures
            r@ == self@,
    {
        WindowInfo {
            label: self.label.clone(),
            source_id: self.source_id.clone(),
            window_index: self.window_index,
            title: self.title.clone(),
            is_focused: self.is_focused,
        }
    }
}

/// Errors of the window manager operations.
#[derive(Debug, Clone, Copy, PartialEq, Eq, Structural)]
pub enum WindowError {
    /// The requested index is bound to another window.
    IndexInUse,
    /// No window carries the given label.
    WindowNotFound,
}

impl WindowError {
    /// Renders the error as text.
    pub fn message(&self) -> (r: String)
        ensures
            (self is IndexInUse ==> r@ == "Index is already in use"@),
            (self is WindowNotFound ==> r@ == "Window not found"@),
    {
        match self {
            WindowError::IndexInUse => String::from_str("Index is already in use"),
            WindowError::WindowNotFound => String::from_str("Window not found"),
        }
    }
}

/// First label bound to index `k`, if any.
pub open spec fn idx_get(s: Seq<(u8, Seq<char>)>, k: u8) -> Option<Seq<char>>
    decreases s.len(),
{
    if s.len() == 0 {
        None
    } else if s[0].0 == k {
        Some(s[0].1)
    } else {
        idx_get(s.drop_first(), k)
    }
}

/// Index of the first entry bound to `k`, or -1.
pub open spec fn idx_key_idx(s: Seq<(u8, Seq<char>)>, k: u8) -> int
    decreases s.len(),
{
    if s.len() == 0 {
        -1
    } else if s[0].0 == k {
        0
    } else if idx_key_idx(s.drop_first(), k) == -1 {
        -1
    } else {
        1 + idx_key_idx(s.drop_first(), k)
    }
}

/// All index keys distinct.
pub open spec fn idx_unique(s: Seq<(u8, Seq<char>)>) -> bool {
    forall|i: int, j: int| 0 <= i < j < s.len() ==> s[i].0 != s[j].0
}

/// The entries after binding `k` to `v`.
pub open spec fn idx_upsert(s: Seq<(u8, Seq<char>)>, k: u8, v: Seq<char>) -> Seq<(u8, Seq<char>)> {
    if idx_get(s, k) is Some {
        s.update(idx_key_idx(s, k), (k, v))
    } else {
        s.push((k, v))
    }
}

proof fn lemma_idx_key_idx(s: Seq<(u8, Seq<char>)>, k: u8)
    ensures
        idx_get(s, k) is Some <==> 0 <= idx_key_idx(s, k) < s.len(),
        idx_get(s, k) is Some ==> s[idx_key_idx(s, k)].0 == k && idx_get(s, k) == Some(
            s[idx_key_idx(s, k)].1,
        ),
        idx_get(s, k) is None <==> idx_key_idx(s, k) == -1,
        idx_get(s, k) is None ==> forall|i: int| 0 <= i < s.len() ==> s[i].0 != k,
        forall|i: int| 0 <= i < idx_key_idx(s, k) ==> s[i].0 != k,
    decreases s.len(),
{
    if s.len() > 0 && s[0].0 != k {
        lemma_idx_key_idx(s.drop_first(), k);
        if idx_get(s, k) is None {
            assert forall|i: int| 0 <= i < s.len() implies s[i].0 != k by {
                if i > 0 {
                    assert(s.drop_first()[i - 1] == s[i]);
                }
            }
        }
        assert forall|i: int| 0 <= i < idx_key_idx(s, k) implies s[i].0 != k by {
            if i > 0 {
                assert(s.drop_first()[i - 1] == s[i]);
            }
        }
    }
}

proof fn lemma_idx_pin(s: Seq<(u8, Seq<char>)>, k: u8, i: int)
    requires
        0 <= i < s.len(),
        s[i].0 == k,
        forall|j: int| 0 <= j < i ==> s[j].0 != k,
    ensures
        idx_key_idx(s, k) == i,
        idx_get(s, k) == Some(s[i].1),
    decreases i,
{
    if i > 0 {
        lemma_idx_pin(s.drop_first(), k, i - 1);
    }
}

proof fn lemma_idx_none(s: Seq<(u8, Seq<char>)>, k: u8)
    requires
        forall|j: int| 0 <= j < s.len() ==> s[j].0 != k,
    ensures
        idx_get(s, k) is None,
    decreases s.len(),
{
    if s.len() > 0 {
        lemma_idx_none(s.drop_first(), k);
    }
}

/// The map from window index to window label.
struct IdxMap {
    items: Vec<(u8, String)>,
}

impl IdxMap {
    spec fn entries(&self) -> Seq<(u8, Seq<char>)> {
        self.items@.map_values(|p: (u8, String)| (p.0, p.1@))
    }

    spec fn wf(&self) -> bool {
        idx_unique(self.entries())
    }

    fn new() -> (r: Self)
        ensures
            r.wf(),
            r.entries() == Seq::<(u8, Seq<char>)>::empty(),
    {
        let r = IdxMap { items: Vec::new() };
        proof {
            assert(r.entries() =~= Seq::<(u8, Seq<char>)>::empty());
        }
        r
    }

    fn get(&self, k: u8) -> (r: Option<&String>)
        ensures
            match r {
                Some(v) => idx_get(self.entries(), k) == Some(v@),
                None => idx_get(self.entries(), k) is None,
            },
    {
        let n = self.items.len();
        let mut i: usize = 0;
        while i < n
            invariant
                0 <= i <= n,
                n == self.entries().len(),
                forall|j: int| 0 <= j < i ==> self.entries()[j].0 != k,
            decreases n - i,
        {
            if self.items[i].0 == k {
                proof {
                    lemma_idx_pin(self.entries(), k, i as int);
                }
                return Some(&self.items[i].1);
            }
            i = i + 1;
        }
        proof {
            lemma_idx_none(self.entries(), k);
        }
        None
    }

    fn upsert(&mut self, k: u8, v: String)
        requires
            old(self).wf(),
        ensures
            final(self).wf(),
            final(self).entries() == idx_upsert(old(self).entries(), k, v@),
    {
        let ghost pre = self.entries();
        proof {
            lemma_idx_key_idx(pre, k);
        }
        let n = self.items.len();
        let mut i: usize = 0;
        while i < n
            invariant
                0 <= i <= n,
                n == self.entries().len(),
                self.entries() == pre,
                pre == old(self).entries(),
                idx_unique(pre),
                forall|j: int| 0 <= j < i ==> self.entries()[j].0 != k,
            decreases n - i,
        {
            if self.items[i].0 == k {
                proof {
                    lemma_idx_pin(pre, k, i as int);
                }
                self.items.set(i, (k, v));
                proof {
                    assert(self.entries() =~= pre.update(i as int, (k, v@)));
                    assert(forall|j: int|
                        0 <= j < pre.len() ==> self.entries()[j].0 == pre[j].0);
                }
                return;
            }
            i = i + 1;
        }
        proof {
            lemma_idx_none(pre, k);
        }
        self.items.push((k, v));
        proof {
            assert(self.entries() =~= pre.push((k, v@)));
        }
    }

    fn remove(&mut self, k: u8) -> (r: Option<String>)
        requires
            old(self).wf(),
        ensures
            final(self).wf(),
            match r {
                Some(v) => {
                    &&& idx_get(old(self).entries(), k) == Some(v@)
                    &&& final(self).entries() == old(self).entries().remove(
                        idx_key_idx(old(self).entries(), k),
                    )
                },
                None => {
                    &&& idx_get(old(self).entries(), k) is None
                    &&& final(self).entries() == old(self).entries()
                },
            },
    {
        let ghost pre = self.entries();
        proof {
            lemma_idx_key_idx(pre, k);
        }
        let n = self.items.len();
        let mut i: usize = 0;
        while i < n
            invariant
                0 <= i <= n,
                n == self.entries().len(),
                self.entries() == pre,
                pre == old(self).entries(),
                idx_unique(pre),
                forall|j: int| 0 <= j < i ==> self.entries()[j].0 != k,
            decreases n - i,
        {
            if self.items[i].0 == k {
                proof {
                    lemma_idx_pin(pre, k, i as int);
                }
                let (_, v) = self.items.remove(i);
                proof {
                    assert(self.entries() =~= pre.remove(i as int));
                    assert forall|a: int, b: int|
                        0 <= a < b < self.entries().len() implies self.entries()[a].0
                        != self.entries()[b].0 by {
                        let pa = if a < i {
                            a
                        } else {
                            a + 1
                        };
                        let pb = if b < i {
                            b
                        } else {
                            b + 1
                        };
                        assert(pre[pa].0 != pre[pb].0);
                    }
                }
                return Some(v);
            }
            i = i + 1;
        }
        proof {
            lemma_idx_none(pre, k);
        }
        None
    }
}

/// The first window (in registration order) showing `source_id`.
pub open spec fn find_by_source(
    s: Seq<(Seq<char>, WindowModel)>,
    source_id: Seq<char>,
) -> Option<WindowModel>
    decreases s.len(),
{
    if s.len() == 0 {
        None
    } else if s[0].1.source_id == source_id {
        Some(s[0].1)
    } else {
        find_by_source(s.drop_first(), source_id)
    }
}

/// State for managing log windows.
pub struct WindowManagerState {
    windows: Assoc<WindowInfo>,
    index_to_label: IdxMap,
}

impl WindowManagerState {
    /// The windows, as (label, model) in registration order.
    pub closed spec fn windows(&self) -> Seq<(Seq<char>, WindowModel)> {
        self.windows.entries().map_values(|p: (Seq<char>, WindowInfo)| (p.0, p.1@))
    }

    /// The index bindings, as (index, label).
    pub closed spec fn indexes(&self) -> Seq<(u8, Seq<char>)> {
        self.index_to_label.entries()
    }

    pub closed spec fn wf(&self) -> bool {
        self.windows.wf() && self.index_to_label.wf()
    }

    proof fn lemma_windows_get(&self, k: Seq<char>)
        ensures
            spec_get(self.windows(), k) == (match spec_get(self.windows.entries(), k) {
                Some(v) => Some(v@),
                None => None::<WindowModel>,
            }),
            key_idx(self.windows(), k) == key_idx(self.windows.entries(), k),
    {
        let f = |v: WindowInfo| v@;
        crate::assoc::lemma_map_get(self.windows.entries(), f, k);
        assert(self.windows.entries().map_values(|p: (Seq<char>, WindowInfo)| (p.0, f(p.1)))
            =~= self.windows());
    }

    /// Creates a new window manager state.
    pub fn new() -> (r: Self)
        ensures
            r.wf(),
            r.windows() == Seq::<(Seq<char>, WindowModel)>::empty(),
            r.indexes() == Seq::<(u8, Seq<char>)>::empty(),
    {
        let r = WindowManagerState { windows: Assoc::new(), index_to_label: IdxMap::new() };
        proof {
            assert(r.windows() =~= Seq::<(Seq<char>, WindowModel)>::empty());
        }
        r
    }

    /// Gets the smallest free window index between 1 and 9, if any.
    pub fn get_next_index(&self) -> (r: Option<u8>)
        ensures
            match r {
                Some(i) => 1 <= i <= 9 && idx_get(self.indexes(), i) is None && forall|j: u8|
                    1 <= j < i ==> idx_get(self.indexes(), j) is Some,
                None => forall|j: u8| 1 <= j <= 9 ==> idx_get(self.indexes(), j) is Some,
            },
    {
        let mut i: u8 = 1;
        while i <= 9
            invariant
                1 <= i <= 10,
                forall|j: u8| 1 <= j < i ==> idx_get(self.indexes(), j) is Some,
            decreases 10 - i,
        {
            match self.index_to_label.get(i) {
                None => {
                    return Some(i);
                },
                Some(_) => {},
            }
            i = i + 1;
        }
        None
    }

    /// Registers a window: both its label binding and its index binding
    /// are set, replacing earlier bindings of the same label or index.
    pub fn register_window(&mut self, info: WindowInfo)
        requires
            old(self).wf(),
        ensures
            final(self).wf(),
            final(self).windows() == spec_upsert(old(self).windows(), info.label@, info@),
            final(self).indexes() == idx_upsert(
                old(self).indexes(),
                info.window_index,
                info.label@,
            ),
    {
        self.index_to_label.upsert(info.window_index, info.label.clone());
        let ghost pre = self.windows.entries();
        let ghost info_ghost = info;
        let label = info.label.clone();
        self.windows.upsert(label.as_str(), info);
        proof {
            let f = |v: WindowInfo| v@;
            crate::assoc::lemma_map_upsert(pre, f, label@, info_ghost);
            assert(pre.map_values(|p: (Seq<char>, WindowInfo)| (p.0, f(p.1))) =~= old(
                self,
            ).windows());
            assert(spec_upsert(pre, label@, info_ghost).map_values(
                |p: (Seq<char>, WindowInfo)| (p.0, f(p.1)),
            ) =~= self.windows());
        }
    }

    /// Unregisters a window by label, removing its index binding too;
    /// returns the removed window.
    pub fn unregister_window(&mut self, label: &str) -> (r: Option<WindowInfo>)
        requires
            old(self).wf(),
        ensures
            final(self).wf(),
            match r {
                Some(info) => {
                    &&& spec_get(old(self).windows(), label@) == Some(info@)
                    &&& final(self).windows() == old(self).windows().remove(
                        key_idx(old(self).windows(), label@),
                    )
                    &&& final(self).indexes() == (if idx_get(
                        old(self).indexes(),
                        info@.window_index,
                    ) is Some {
                        old(self).indexes().remove(
                            idx_key_idx(old(self).indexes(), info@.window_index),
                        )
                    } else {
                        old(self).indexes()
                    })
                },
                None => {
                    &&& spec_get(old(self).windows(), label@) is None
                    &&& final(self).windows() == old(self).windows()
                    &&& final(self).indexes() == old(self).indexes()
                },
            },
    {
        proof {
            self.lemma_windows_get(label@);
        }
        let ghost pre = self.windows.entries();
        let removed = self.windows.remove(label);
        let info = match removed {
            Some(i) => i,
            None => {
                return None;
            },
        };
        proof {
            let f = |v: WindowInfo| v@;
            crate::assoc::lemma_map_get(pre, f, label@);
            crate::assoc::lemma_key_idx(pre, label@);
            assert(pre.map_values(|p: (Seq<char>, WindowInfo)| (p.0, f(p.1))) =~= old(
                self,
            ).windows());
            assert(self.windows.entries().map_values(|p: (Seq<char>, WindowInfo)| (p.0, f(p.1)))
                =~= old(self).windows().remove(key_idx(old(self).windows(), label@)));
            assert(self.windows() =~= self.windows.entries().map_values(
                |p: (Seq<char>, WindowInfo)| (p.0, f(p.1)),
            ));
        }
        let _ = self.index_to_label.remove(info.window_index);
        Some(info)
    }

    /// Gets window info by label.
    pub fn get_window(&self, label: &str) -> (r: Option<&WindowInfo>)
        requires
            self.wf(),
        ensures
            match r {
                Some(w) => spec_get(self.windows(), label@) == Some(w@),
                None => spec_get(self.windows(), label@) is None,
            },
    {
        proof {
            self.lemma_windows_get(label@);
        }
        self.windows.get(label)
    }

    /// Gets a window label by index.
    pub fn get_label_by_index(&self, index: u8) -> (r: Option<&String>)
        requires
            self.wf(),
        ensures
            match r {
                Some(l) => idx_get(self.indexes(), index) == Some(l@),
                None => idx_get(self.indexes(), index) is None,
            },
    {
        self.index_to_label.get(index)
    }

    /// Gets all windows, in registration order.
    pub fn get_all_windows(&self) -> (r: Vec<WindowInfo>)
        requires
            self.wf(),
        ensures
            r.deep_view() == self.windows().map_values(|p: (Seq<char>, WindowModel)| p.1),
    {
        let n = self.windows.len();
        let mut r: Vec<WindowInfo> = Vec::new();
        let mut i: usize = 0;
        while i < n
            invariant
                0 <= i <= n,
                n == self.windows.entries().len(),
                r.len() == i,
                forall|j: int| 0 <= j < i ==> r@[j]@ == self.windows()[j].1,
            decreases n - i,
        {
            proof {
                assert(self.windows()[i as int].1 == self.windows.entries()[i as int].1@);
            }
            r.push(self.windows.val_at(i).clone());
            i = i + 1;
        }
        proof {
            assert forall|j: int| 0 <= j < n implies r.deep_view()[j] == self.windows().map_values(
                |p: (Seq<char>, WindowModel)| p.1,
            )[j] by {
                assert(r.deep_view()[j] == r@[j]@);
            }
            assert(r.deep_view() =~= self.windows().map_values(
                |p: (Seq<char>, WindowModel)| p.1,
            ));
        }
        r
    }

    /// Moves a window to a new index: fails when the index is bound to
    /// another window or the label is unknown; otherwise the window's
    /// old index binding goes away and the new one is set.
    pub fn update_index(&mut self, label: &str, new_index: u8) -> (r: Result<(), WindowError>)
        requires
            old(self).wf(),
        ensures
            final(self).wf(),
            match r {
                Ok(()) => {
                    &&& (match idx_get(old(self).indexes(), new_index) {
                        Some(l) => l == label@,
                        None => true,
                    })
                    &&& spec_get(old(self).windows(), label@) is Some
                    &&& ({
                        let m = spec_get(old(self).windows(), label@)->0;
                        &&& final(self).windows() == old(self).windows().update(
                            key_idx(old(self).windows(), label@),
                            (label@, WindowModel { window_index: new_index, ..m }),
                        )
                        &&& final(self).indexes() == idx_upsert(
                            (if idx_get(old(self).indexes(), m.window_index) is Some {
                                old(self).indexes().remove(
                                    idx_key_idx(old(self).indexes(), m.window_index),
                                )
                            } else {
                                old(self).indexes()
                            }),
                            new_index,
                            label@,
                        )
                    })
                },
                Err(WindowError::IndexInUse) => {
                    &&& final(self).windows() == old(self).windows()
                    &&& final(self).indexes() == old(self).indexes()
                    &&& (match idx_get(old(self).indexes(), new_index) {
                        Some(l) => l != label@,
                        None => false,
                    })
                },
                Err(WindowError::WindowNotFound) => {
                    &&& final(self).windows() == old(self).windows()
                    &&& final(self).indexes() == old(self).indexes()
                    &&& (match idx_get(old(self).indexes(), new_index) {
                        Some(l) => l == label@,
                        None => true,
                    })
                    &&& spec_get(old(self).windows(), label@) is None
                },
            },
    {
        match self.index_to_label.get(new_index) {
            Some(existing) => {
                if !crate::text::str_eq(existing.as_str(), label) {
                    return Err(WindowError::IndexInUse);
                }
            },
            None => {},
        }
        proof {
            self.lemma_windows_get(label@);
        }
        let mut updated = match self.windows.get(label) {
            Some(w) => w.clone(),
            None => {
                return Err(WindowError::WindowNotFound);
            },
        };
        let old_index = updated.window_index;
        let _ = self.index_to_label.remove(old_index);
        updated.window_index = new_index;
        let ghost upd_ghost = updated;
        let ghost pre = self.windows.entries();
        self.windows.update_value(label, updated);
        self.index_to_label.upsert(new_index, String::from_str(label));
        proof {
            crate::assoc::lemma_key_idx(pre, label@);
            let f = |v: WindowInfo| v@;
            let i = key_idx(pre, label@);
            let a = self.windows.entries().map_values(|p: (Seq<char>, WindowInfo)| (p.0, f(p.1)));
            let b = old(self).windows().update(
                key_idx(old(self).windows(), label@),
                (
                    label@,
                    WindowModel {
                        window_index: new_index,
                        ..spec_get(old(self).windows(), label@)->0
                    },
                ),
            );
            assert(pre.map_values(|p: (Seq<char>, WindowInfo)| (p.0, f(p.1))) =~= old(
                self,
            ).windows());
            assert forall|j: int| 0 <= j < a.len() implies a[j] == b[j] by {
                if j == i {
                    assert(self.windows.entries()[j] == (label@, upd_ghost));
                } else {
                    assert(self.windows.entries()[j] == pre[j]);
                }
            }
            assert(a =~= b);
            assert(self.windows() =~= a);
        }
        Ok(())
    }

    /// Checks if a source already has a window open; the first
    /// registered one wins.
    pub fn get_window_for_source(&self, source_id: &str) -> (r: Option<&WindowInfo>)
        requires
            self.wf(),
        ensures
            match r {
                Some(w) => find_by_source(self.windows(), source_id@) == Some(w@),
                None => find_by_source(self.windows(), source_id@) is None,
            },
    {
        let n = self.windows.len();
        let ghost full = self.windows();
        proof {
            assert(full.subrange(0, n as int) =~= full);
        }
        let mut i: usize = 0;
        while i < n
            invariant
                0 <= i <= n,
                n == self.windows.entries().len(),
                n == full.len(),
                full == self.windows(),
                find_by_source(full, source_id@) == find_by_source(
                    full.subrange(i as int, n as int),
                    source_id@,
                ),
            decreases n - i,
        {
            let ghost rest = full.subrange(i as int, n as int);
            proof {
                assert(rest[0] == full[i as int]);
                assert(full[i as int].1 == self.windows.entries()[i as int].1@);
                assert(rest.drop_first() =~= full.subrange(i + 1, n as int));
            }
            let w = self.windows.val_at(i);
            if crate::text::str_eq(w.source_id.as_str(), source_id) {
                return Some(w);
            }
            i = i + 1;
        }
        None
    }
}

} // verus!

//! The launcher's bookkeeping: the status of each project folder, and the
//! store games being downloaded.

use vstd::prelude::*;
use crate::project::ProjectStatus;
use crate::paths::{PathKey, path_key, same_path, is_same_path};

verus! {

/// The status recorded for one folder.
#[derive(Clone, Debug, PartialEq, Eq)]
pub struct StatusEntry {
    pub path: String,
    pub status: ProjectStatus,
}

/// The status of each known folder, keyed by path.
pub struct StatusTable {
    entries: Vec<StatusEntry>,
}

/// No two entries have the same path.
pub open spec fn entry_paths_distinct(es: Seq<StatusEntry>) -> bool {
    forall|i: int, j: int|
        0 <= i < es.len() && 0 <= j < es.len() && i != j ==> path_key((#[trigger] es[i]).path@)
            != path_key((#[trigger] es[j]).path@)
}

/// The map from path to status that the entries hold.
pub open spec fn entries_map(es: Seq<StatusEntry>) -> Map<PathKey, ProjectStatus> {
    Map::new(
        |k: PathKey| exists|i: int| 0 <= i < es.len() && path_key((#[trigger] es[i]).path@) == k,
        |k: PathKey| es[choose|i: int| 0 <= i < es.len() && path_key((#[trigger] es[i]).path@) == k].status,
    )
}

proof fn lemma_entries_lookup(es: Seq<StatusEntry>, i: int)
    requires
        entry_paths_distinct(es),
        0 <= i < es.len(),
    ensures
        entries_map(es).dom().contains(path_key(es[i].path@)),
        entries_map(es)[path_key(es[i].path@)] == es[i].status,
{
    let k = path_key(es[i].path@);
    assert(exists|j: int| 0 <= j < es.len() && path_key((#[trigger] es[j]).path@) == k);
    let c = choose|j: int| 0 <= j < es.len() && path_key((#[trigger] es[j]).path@) == k;
    assert(c == i);
}

impl View for StatusTable {
    type V = Map<PathKey, ProjectStatus>;

    closed spec fn view(&self) -> Map<PathKey, ProjectStatus> {
        entries_map(self.entries@)
    }
}

impl StatusTable {
    #[verifier::type_invariant]
    spec fn paths_distinct(&self) -> bool {
        entry_paths_distinct(self.entries@)
    }

    /// A table with no entry.
    pub fn new() -> (res: StatusTable)
        ensures
            res@ == Map::<PathKey, ProjectStatus>::empty(),
    {
        let res = StatusTable { entries: Vec::new() };
        assert(res@ =~= Map::<PathKey, ProjectStatus>::empty());
        res
    }

    /// The position of the entry for `path`.
    fn position(&self, path: &str) -> (res: Option<usize>)
        ensures
            match res {
                Some(i) => i < self.entries@.len() && path_key(self.entries@[i as int].path@) == path_key(path@),
                None => forall|j: int|
                    0 <= j < self.entries@.len() ==> !same_path((#[trigger] self.entries@[j]).path@, path@),
            },
    {
        let mut i: usize = 0;
        while i < self.entries.len()
            invariant
                i <= self.entries@.len(),
                forall|j: int| 0 <= j < i ==> !same_path((#[trigger] self.entries@[j]).path@, path@),
            decreases self.entries@.len() - i,
        {
            if is_same_path(self.entries[i].path.as_str(), path) {
                return Some(i);
            }
            i = i + 1;
        }
        None
    }

    /// The status recorded for `path`, if any.
    pub fn get(&self, path: &str) -> (res: Option<ProjectStatus>)
        ensures
            res == (if self@.dom().contains(path_key(path@)) {
                Some(self@[path_key(path@)])
            } else {
                None
            }),
    {
        proof {
            use_type_invariant(self);
        }
        match self.position(path) {
            Some(i) => {
                proof {
                    lemma_entries_lookup(self.entries@, i as int);
                }
                Some(self.entries[i].status)
            },
            None => {
                assert(!self@.dom().contains(path_key(path@)));
                None
            },
        }
    }

    /// The status shown for `path`: the recorded one, `Idle` where there is none.
    pub fn status_of(&self, path: &str) -> (res: ProjectStatus)
        ensures
            res == (if self@.dom().contains(path_key(path@)) {
                self@[path_key(path@)]
            } else {
                ProjectStatus::Idle
            }),
    {
        match self.get(path) {
            Some(s) => s,
            None => ProjectStatus::Idle,
        }
    }

    /// Records `status` for `path`, replacing what was recorded for it.
    pub fn set(&mut self, path: String, status: ProjectStatus)
        ensures
            final(self)@ == old(self)@.insert(path_key(path@), status),
    {
        proof {
            use_type_invariant(&*self);
        }
        let ghost es = self.entries@;
        let ghost k = path_key(path@);
        let pos = self.position(path.as_str());
        let mut entries = Vec::new();
        std::mem::swap(&mut entries, &mut self.entries);
        match pos {
            Some(i) => {
                entries.set(i, StatusEntry { path, status });
            },
            None => {
                entries.push(StatusEntry { path, status });
            },
        }
        let ghost es2 = entries@;
        assert(entry_paths_distinct(es2)) by {
            assert forall|a: int, b: int|
                0 <= a < es2.len() && 0 <= b < es2.len() && a != b implies path_key((#[trigger] es2[a]).path@)
                != path_key((#[trigger] es2[b]).path@) by {
                if a < es.len() && b < es.len() {
                    if pos != Some(a as usize) && pos != Some(b as usize) {
                        assert(es2[a] == es[a] && es2[b] == es[b]);
                    }
                }
            }
        }
        assert(entries_map(es2) =~= entries_map(es).insert(k, status)) by {
            assert forall|k2: PathKey| #[trigger]
                entries_map(es2).dom().contains(k2) <==> entries_map(es).insert(
                    k,
                    status,
                ).dom().contains(k2) by {
                if entries_map(es2).dom().contains(k2) {
                    let j = choose|j: int| 0 <= j < es2.len() && path_key((#[trigger] es2[j]).path@) == k2;
                    if k2 != k {
                        assert(path_key(es[j].path@) == k2);
                    }
                }
                if k2 != k && entries_map(es).dom().contains(k2) {
                    let j = choose|j: int| 0 <= j < es.len() && path_key((#[trigger] es[j]).path@) == k2;
                    assert(path_key(es2[j].path@) == k2);
                }
                if k2 == k {
                    let last = match pos {
                        Some(i) => i as int,
                        None => es.len() as int,
                    };
                    assert(path_key(es2[last].path@) == k2);
                }
            }
            assert forall|k2: PathKey| entries_map(es2).dom().contains(k2) implies #[trigger] entries_map(
                es2,
            )[k2] == entries_map(es).insert(k, status)[k2] by {
                let j = choose|j: int| 0 <= j < es2.len() && path_key((#[trigger] es2[j]).path@) == k2;
                lemma_entries_lookup(es2, j);
                if k2 != k {
                    assert(es2[j] == es[j]);
                    lemma_entries_lookup(es, j);
                }
            }
        }
        self.entries = entries;
    }

    /// Forgets what was recorded for `path`.
    pub fn remove(&mut self, path: &str)
        ensures
            final(self)@ == old(self)@.remove(path_key(path@)),
    {
        proof {
            use_type_invariant(&*self);
        }
        let ghost es = self.entries@;
        let ghost k = path_key(path@);
        match self.position(path) {
            Some(i) => {
                let mut entries = Vec::new();
                std::mem::swap(&mut entries, &mut self.entries);
                entries.remove(i);
                let ghost es2 = entries@;
                assert(forall|j: int| 0 <= j < es2.len() ==> #[trigger] es2[j] == es[if j < i {
                    j
                } else {
                    j + 1
                }]);
                assert(entry_paths_distinct(es2)) by {
                    assert forall|a: int, b: int|
                        0 <= a < es2.len() && 0 <= b < es2.len() && a != b implies path_key(
                        (#[trigger] es2[a]).path@) != path_key((#[trigger] es2[b]).path@) by {
                        let a1 = if a < i {
                            a
                        } else {
                            a + 1
                        };
                        let b1 = if b < i {
                            b
                        } else {
                            b + 1
                        };
                        assert(es[a1] == es2[a] && es[b1] == es2[b]);
                    }
                }
                assert(entries_map(es2) =~= entries_map(es).remove(k)) by {
                    assert forall|k2: PathKey| #[trigger]
                        entries_map(es2).dom().contains(k2) <==> entries_map(es).remove(
                            k,
                        ).dom().contains(k2) by {
                        if entries_map(es2).dom().contains(k2) {
                            let j = choose|j: int|
                                0 <= j < es2.len() && path_key((#[trigger] es2[j]).path@) == k2;
                            let j1 = if j < i {
                                j
                            } else {
                                j + 1
                            };
                            assert(path_key(es[j1].path@) == k2);
                            assert(j1 != i);
                        }
                        if k2 != k && entries_map(es).dom().contains(k2) {
                            let j = choose|j: int| 0 <= j < es.len() && path_key((#[trigger] es[j]).path@) == k2;
                            assert(j != i);
                            let j2 = if j < i {
                                j
                            } else {
                                j - 1
                            };
                            assert(path_key(es2[j2].path@) == k2);
                        }
                    }
                    assert forall|k2: PathKey| entries_map(es2).dom().contains(
                        k2,
                    ) implies #[trigger] entries_map(es2)[k2] == entries_map(es).remove(k)[k2] by {
                        let j = choose|j: int| 0 <= j < es2.len() && path_key((#[trigger] es2[j]).path@) == k2;
                        lemma_entries_lookup(es2, j);
                        let j1 = if j < i {
                            j
                        } else {
                            j + 1
                        };
                        lemma_entries_lookup(es, j1);
                    }
                }
                self.entries = entries;
            },
            None => {
                assert(entries_map(es) =~= entries_map(es).remove(k));
            },
        }
    }
}

/// What is read back for a path is the status last recorded for it, under
/// any spelling of that path, and recording a status for one path leaves
/// what is read for every other path as it was; forgetting a path makes it
/// read as idle.
pub proof fn law_status_read_back(
    m: Map<PathKey, ProjectStatus>,
    path: Seq<char>,
    spelling: Seq<char>,
    status: ProjectStatus,
    other: Seq<char>,
)
    requires
        same_path(spelling, path),
        !same_path(other, path),
    ensures
        crate::ui::shown_status(m.insert(path_key(path), status), spelling) == status,
        crate::ui::shown_status(m.insert(path_key(path), status), other) == crate::ui::shown_status(
            m,
            other,
        ),
        crate::ui::shown_status(m.remove(path_key(path)), spelling) == ProjectStatus::Idle,
        crate::ui::shown_status(m.remove(path_key(path)), other) == crate::ui::shown_status(m, other),
{
}

/// The names of the store games being downloaded.
pub struct ActiveDownloads {
    names: Vec<String>,
}

/// No name occurs twice.
pub open spec fn names_distinct(ns: Seq<String>) -> bool {
    forall|i: int, j: int|
        0 <= i < ns.len() && 0 <= j < ns.len() && i != j ==> (#[trigger] ns[i])@ != (
        #[trigger] ns[j])@
}

/// The set of names held.
pub open spec fn names_set(ns: Seq<String>) -> Set<Seq<char>> {
    Set::new(|k: Seq<char>| exists|i: int| 0 <= i < ns.len() && (#[trigger] ns[i])@ == k)
}

impl View for ActiveDownloads {
    type V = Set<Seq<char>>;

    closed spec fn view(&self) -> Set<Seq<char>> {
        names_set(self.names@)
    }
}

impl ActiveDownloads {
    #[verifier::type_invariant]
    spec fn distinct(&self) -> bool {
        names_distinct(self.names@)
    }

    /// No download runs.
    pub fn new() -> (res: ActiveDownloads)
        ensures
            res@ == Set::<Seq<char>>::empty(),
    {
        let res = ActiveDownloads { names: Vec::new() };
        assert(res@ =~= Set::<Seq<char>>::empty());
        res
    }

    fn position(&self, name: &str) -> (res: Option<usize>)
        ensures
            match res {
                Some(i) => i < self.names@.len() && self.names@[i as int]@ == name@,
                None => forall|j: int| 0 <= j < self.names@.len() ==> (#[trigger] self.names@[j])@ != name@,
            },
    {
        let target = String::from_str(name);
        let mut i: usize = 0;
        while i < self.names.len()
            invariant
                i <= self.names@.len(),
                target@ == name@,
                forall|j: int| 0 <= j < i ==> (#[trigger] self.names@[j])@ != name@,
            decreases self.names@.len() - i,
        {
            if self.names[i] == target {
                return Some(i);
            }
            i = i + 1;
        }
        None
    }

    /// Whether a download of `name` runs.
    pub fn contains(&self, name: &str) -> (res: bool)
        ensures
            res == self@.contains(name@),
    {
        match self.position(name) {
            Some(i) => {
                assert(self@.contains(name@));
                true
            },
            None => false,
        }
    }

    /// Notes that a download of `name` runs.
    pub fn insert(&mut self, name: String)
        ensures
            final(self)@ == old(self)@.insert(name@),
    {
        proof {
            use_type_invariant(&*self);
        }
        let ghost ns = self.names@;
        match self.position(name.as_str()) {
            Some(i) => {
                assert(names_set(ns) =~= names_set(ns).insert(name@));
            },
            None => {
                let mut names = Vec::new();
                std::mem::swap(&mut names, &mut self.names);
                names.push(name);
                let ghost ns2 = names@;
                assert(names_distinct(ns2)) by {
                    assert forall|a: int, b: int|
                        0 <= a < ns2.len() && 0 <= b < ns2.len() && a != b implies (
                        #[trigger] ns2[a])@ != (#[trigger] ns2[b])@ by {
                        if a < ns.len() && b < ns.len() {
                            assert(ns2[a] == ns[a] && ns2[b] == ns[b]);
                        }
                    }
                }
                assert(names_set(ns2) =~= names_set(ns).insert(ns2.last()@)) by {
                    assert forall|k: Seq<char>| #[trigger] names_set(ns2).contains(k) <==> names_set(
                        ns,
                    ).insert(ns2.last()@).contains(k) by {
                        if names_set(ns2).contains(k) {
                            let j = choose|j: int| 0 <= j < ns2.len() && (#[trigger] ns2[j])@ == k;
                            if j < ns.len() {
                                assert(ns[j]@ == k);
                            }
                        }
                        if names_set(ns).contains(k) {
                            let j = choose|j: int| 0 <= j < ns.len() && (#[trigger] ns[j])@ == k;
                            assert(ns2[j]@ == k);
                        }
                        if k == ns2.last()@ {
                            assert(ns2[ns.len() as int]@ == k);
                        }
                    }
                }
                self.names = names;
            },
        }
    }

    /// Notes that the download of `name` has ended.
    pub fn remove(&mut self, name: &str)
        ensures
            final(self)@ == old(self)@.remove(name@),
    {
        proof {
            use_type_invariant(&*self);
        }
        let ghost ns = self.names@;
        match self.position(name) {
            Some(i) => {
                let mut names = Vec::new();
                std::mem::swap(&mut names, &mut self.names);
                names.remove(i);
                let ghost ns2 = names@;
                assert(forall|j: int| 0 <= j < ns2.len() ==> #[trigger] ns2[j] == ns[if j < i {
                    j
                } else {
                    j + 1
                }]);
                assert(names_distinct(ns2)) by {
                    assert forall|a: int, b: int|
                        0 <= a < ns2.len() && 0 <= b < ns2.len() && a != b implies (
                        #[trigger] ns2[a])@ != (#[trigger] ns2[b])@ by {
                        let a1 = if a < i {
                            a
                        } else {
                            a + 1
                        };
                        let b1 = if b < i {
                            b
                        } else {
                            b + 1
                        };
                        assert(ns[a1] == ns2[a] && ns[b1] == ns2[b]);
                    }
                }
                assert(names_set(ns2) =~= names_set(ns).remove(name@)) by {
                    assert forall|k: Seq<char>| #[trigger] names_set(ns2).contains(k) <==> names_set(
                        ns,
                    ).remove(name@).contains(k) by {
                        if names_set(ns2).contains(k) {
                            let j = choose|j: int| 0 <= j < ns2.len() && (#[trigger] ns2[j])@ == k;
                            let j1 = if j < i {
                                j
                            } else {
                                j + 1
                            };
                            assert(ns[j1]@ == k);
                            assert(j1 != i);
                        }
                        if k != name@ && names_set(ns).contains(k) {
                            let j = choose|j: int| 0 <= j < ns.len() && (#[trigger] ns[j])@ == k;
                            assert(j != i);
                            let j2 = if j < i {
                                j
                            } else {
                                j - 1
                            };
                            assert(ns2[j2]@ == k);
                        }
                    }
                }
                self.names = names;
            },
            None => {
                assert(names_set(ns) =~= names_set(ns).remove(name@));
            },
        }
    }
}

} // verus!

use vstd::prelude::*;

pub use crate::file_type::FileType;

verus! {

/// The cached entries read as a map from path to handle; a later entry
/// for a path wins (keys are kept unique, so none does).
pub open spec fn map_of<H>(s: Seq<(String, H)>) -> Map<Seq<char>, H>
    decreases s.len(),
{
    if s.len() == 0 {
        Map::empty()
    } else {
        map_of(s.drop_last()).insert(s.last().0@, s.last().1)
    }
}

pub open spec fn keys_unique<H>(s: Seq<(String, H)>) -> bool {
    forall|i: int, j: int| 0 <= i < j < s.len() ==> #[trigger] s[i].0@ != #[trigger] s[j].0@
}

proof fn lemma_map_of<H>(s: Seq<(String, H)>)
    requires
        keys_unique(s),
    ensures
        map_of(s).dom().finite(),
        map_of(s).len() == s.len(),
        forall|i: int|
            0 <= i < s.len() ==> map_of(s).contains_key(#[trigger] s[i].0@) && map_of(s)[s[i].0@]
                == s[i].1,
        forall|k: Seq<char>|
            #[trigger] map_of(s).contains_key(k) ==> exists|i: int| 0 <= i < s.len() && s[i].0@ == k,
    decreases s.len(),
{
    if s.len() > 0 {
        let d = s.drop_last();
        assert(keys_unique(d)) by {
            assert forall|i: int, j: int| 0 <= i < j < d.len() implies #[trigger] d[i].0@
                != #[trigger] d[j].0@ by {
                assert(d[i] == s[i] && d[j] == s[j]);
            }
        }
        lemma_map_of(d);
        let last = s.len() - 1;
        assert(!map_of(d).contains_key(s[last].0@)) by {
            if map_of(d).contains_key(s[last].0@) {
                let i = choose|i: int| 0 <= i < d.len() && d[i].0@ == s[last].0@;
                assert(s[i].0@ != s[last].0@);
            }
        }
        assert forall|i: int| 0 <= i < s.len() implies map_of(s).contains_key(#[trigger] s[i].0@)
            && map_of(s)[s[i].0@] == s[i].1 by {
            if i < last {
                assert(s[i] == d[i]);
                assert(s[i].0@ != s[last].0@);
            }
        }
        assert forall|k: Seq<char>| #[trigger] map_of(s).contains_key(k) implies exists|i: int|
            0 <= i < s.len() && s[i].0@ == k by {
            if k != s[last].0@ {
                let i = choose|i: int| 0 <= i < d.len() && d[i].0@ == k;
                assert(s[i] == d[i]);
            }
        }
    }
}

proof fn lemma_map_of_remove<H>(s: Seq<(String, H)>, i: int)
    requires
        keys_unique(s),
        0 <= i < s.len(),
    ensures
        keys_unique(s.remove(i)),
        map_of(s.remove(i)) == map_of(s).remove(s[i].0@),
    decreases s.len(),
{
    let r = s.remove(i);
    assert(keys_unique(r)) by {
        assert forall|a: int, b: int| 0 <= a < b < r.len() implies #[trigger] r[a].0@
            != #[trigger] r[b].0@ by {
            let a1 = if a < i { a } else { a + 1 };
            let b1 = if b < i { b } else { b + 1 };
            assert(r[a] == s[a1] && r[b] == s[b1]);
        }
    }
    let d = s.drop_last();
    assert(keys_unique(d)) by {
        assert forall|x: int, y: int| 0 <= x < y < d.len() implies #[trigger] d[x].0@
            != #[trigger] d[y].0@ by {
            assert(d[x] == s[x] && d[y] == s[y]);
        }
    }
    lemma_map_of(d);
    let last = s.len() - 1;
    if i == last {
        assert(r =~= d);
        assert(!map_of(d).contains_key(s[i].0@)) by {
            if map_of(d).contains_key(s[i].0@) {
                let j = choose|j: int| 0 <= j < d.len() && d[j].0@ == s[i].0@;
                assert(s[j].0@ != s[i].0@);
            }
        }
        assert(map_of(s).remove(s[i].0@) =~= map_of(d));
    } else {
        lemma_map_of_remove(d, i);
        assert(r.drop_last() =~= d.remove(i));
        assert(r.last() == s.last());
        assert(s[i] == d[i]);
        assert(s[i].0@ != s[last].0@);
        assert(map_of(r) =~= map_of(s).remove(s[i].0@));
    }
}

proof fn lemma_map_of_update<H>(s: Seq<(String, H)>, i: int)
    requires
        keys_unique(s),
        0 <= i < s.len(),
    ensures
        forall|v: H|
            keys_unique(#[trigger] s.update(i, (s[i].0, v))) && map_of(s.update(i, (s[i].0, v)))
                == map_of(s).insert(s[i].0@, v),
{
    assert forall|v: H| keys_unique(#[trigger] s.update(i, (s[i].0, v))) && map_of(
        s.update(i, (s[i].0, v)),
    ) == map_of(s).insert(s[i].0@, v) by {
        let u = s.update(i, (s[i].0, v));
        assert(keys_unique(u)) by {
            assert forall|a: int, b: int| 0 <= a < b < u.len() implies #[trigger] u[a].0@
                != #[trigger] u[b].0@ by {
                assert(u[a].0 == s[a].0 && u[b].0 == s[b].0);
            }
        }
        lemma_map_of_remove(s, i);
        lemma_map_of_remove(u, i);
        assert(u.remove(i) =~= s.remove(i));
        lemma_map_of(s);
        lemma_map_of(u);
        assert(map_of(u) =~= map_of(s).insert(s[i].0@, v)) by {
            assert(map_of(u).remove(s[i].0@) == map_of(s).remove(s[i].0@));
            assert forall|k: Seq<char>| #[trigger] map_of(u).contains_key(k) <==> map_of(s).insert(
                s[i].0@,
                v,
            ).contains_key(k) by {
                if k != s[i].0@ {
                    assert(map_of(u).remove(s[i].0@).contains_key(k) <==> map_of(u).contains_key(k));
                    assert(map_of(s).remove(s[i].0@).contains_key(k) <==> map_of(s).contains_key(k));
                }
            }
            assert forall|k: Seq<char>| #[trigger] map_of(u).contains_key(k) implies map_of(u)[k]
                == map_of(s).insert(s[i].0@, v)[k] by {
                if k != s[i].0@ {
                    assert(map_of(u).remove(s[i].0@)[k] == map_of(u)[k]);
                    assert(map_of(s).remove(s[i].0@)[k] == map_of(s)[k]);
                } else {
                    assert(u[i].0@ == k);
                }
            }
        }
    }
}

/// A bounded cache of open handles by path. When a new path comes to a full
/// cache, every cached handle is dropped first.
pub struct FileManager<H> {
    max_size: usize,
    files: Vec<(String, H)>,
}

impl<H> View for FileManager<H> {
    type V = Map<Seq<char>, H>;

    closed spec fn view(&self) -> Map<Seq<char>, H> {
        map_of(self.files@)
    }
}

impl<H> FileManager<H> {
    pub closed spec fn wf(&self) -> bool {
        keys_unique(self.files@)
    }

    pub closed spec fn capacity(&self) -> nat {
        self.max_size as nat
    }

    /// The cache after `set_file(path, file)`.
    pub open spec fn after_set(&self, path: Seq<char>, file: H) -> Map<Seq<char>, H> {
        if self@.contains_key(path) {
            self@
        } else if self@.len() >= self.capacity() {
            Map::empty().insert(path, file)
        } else {
            self@.insert(path, file)
        }
    }

    /// An empty cache that holds at most `max_size` handles before it is cleared.
    pub fn new(max_size: usize) -> (r: Self)
        ensures
            r.wf(),
            r@ == Map::<Seq<char>, H>::empty(),
            r.capacity() == max_size,
    {
        FileManager { max_size, files: Vec::new() }
    }

    fn find(&self, path: &str) -> (r: Option<usize>)
        requires
            self.wf(),
        ensures
            r matches Some(i) ==> i < self.files@.len() && self.files@[i as int].0@ == path@,
            r is None ==> !self@.contains_key(path@),
    {
        proof {
            lemma_map_of(self.files@);
        }
        let p = String::from_str(path);
        let mut i: usize = 0;
        while i < self.files.len()
            invariant
                i <= self.files@.len(),
                p@ == path@,
                forall|j: int| 0 <= j < i ==> #[trigger] self.files@[j].0@ != path@,
            decreases self.files@.len() - i,
        {
            if self.files[i].0.eq(&p) {
                return Some(i);
            }
            i = i + 1;
        }
        None
    }

    /// Whether `path` is cached.
    pub fn is_exist(&self, path: &str) -> (r: bool)
        requires
            self.wf(),
        ensures
            r == self@.contains_key(path@),
    {
        proof {
            lemma_map_of(self.files@);
        }
        self.find(path).is_some()
    }

    /// The number of cached handles.
    pub fn len(&self) -> (r: usize)
        requires
            self.wf(),
        ensures
            r == self@.len(),
    {
        proof {
            lemma_map_of(self.files@);
        }
        self.files.len()
    }

    /// The cached handle of `path`, if any.
    pub fn get_file(&self, path: &str) -> (r: Option<&H>)
        requires
            self.wf(),
        ensures
            r matches Some(h) ==> self@.contains_key(path@) && *h == self@[path@],
            r is None ==> !self@.contains_key(path@),
    {
        proof {
            lemma_map_of(self.files@);
        }
        match self.find(path) {
            Some(i) => Some(&self.files[i].1),
            None => None,
        }
    }

    /// The cached handle of `path`, for writing through, if any.
    pub fn get_file_mut(&mut self, path: &str) -> (r: Option<&mut H>)
        requires
            old(self).wf(),
        ensures
            r is None ==> !old(self)@.contains_key(path@) && *final(self) == *old(self),
            r matches Some(h) ==> old(self)@.contains_key(path@) && *h == old(self)@[path@]
                && final(self)@ == old(self)@.insert(path@, *final(h)),
            final(self).wf(),
            final(self).capacity() == old(self).capacity(),
    {
        proof {
            lemma_map_of(self.files@);
        }
        match self.find(path) {
            Some(i) => {
                proof {
                    lemma_map_of_update(self.files@, i as int);
                }
                let entry = &mut self.files[i];
                Some(&mut entry.1)
            },
            None => None,
        }
    }

    /// Drops every cached handle.
    pub fn clear(&mut self)
        ensures
            final(self).wf(),
            final(self)@ == Map::<Seq<char>, H>::empty(),
            final(self).capacity() == old(self).capacity(),
    {
        self.files = Vec::new();
    }

    /// Drops the cached handle of `path`, if any.
    pub fn remove_file(&mut self, path: &str)
        requires
            old(self).wf(),
        ensures
            final(self).wf(),
            final(self)@ == old(self)@.remove(path@),
            final(self).capacity() == old(self).capacity(),
    {
        match self.find(path) {
            Some(i) => {
                proof {
                    lemma_map_of_remove(self.files@, i as int);
                }
                self.files.remove(i);
            },
            None => {
                assert(self@.remove(path@) =~= self@);
            },
        }
    }

    /// Caches `file` as the handle of `path`. A path already cached keeps its
    /// handle; a full cache is cleared before the new handle goes in.
    pub fn set_file(&mut self, path: &str, file: H)
        requires
            old(self).wf(),
        ensures
            final(self).wf(),
            final(self)@ == old(self).after_set(path@, file),
            final(self).capacity() == old(self).capacity(),
    {
        proof {
            lemma_map_of(self.files@);
        }
        if self.find(path).is_some() {
            return;
        }
        if self.files.len() >= self.max_size {
            self.clear();
        }
        let ghost before = self.files@;
        proof {
            lemma_map_of(before);
        }
        self.files.push((String::from_str(path), file));
        proof {
            assert(self.files@.drop_last() =~= before);
            assert forall|i: int, j: int| 0 <= i < j < self.files@.len() implies #[trigger] self.files@[i].0@
                != #[trigger] self.files@[j].0@ by {
                if j == before.len() {
                    assert(self.files@[i] == before[i]);
                    assert(before[i].0@ != path@);
                } else {
                    assert(self.files@[i] == before[i] && self.files@[j] == before[j]);
                }
            }
            if before.len() == 0 {
                assert(map_of(before) =~= Map::<Seq<char>, H>::empty());
            }
        }
    }
}

/// A cache at capacity that gets a new path keeps that path alone.
pub proof fn lemma_full_cache_keeps_only_new<H>(m: FileManager<H>, path: Seq<char>, file: H)
    requires
        m.wf(),
        !m@.contains_key(path),
        m@.len() >= m.capacity(),
    ensures
        m.after_set(path, file) == Map::<Seq<char>, H>::empty().insert(path, file),
        m.after_set(path, file).len() == 1,
{
    assert(Map::<Seq<char>, H>::empty().insert(path, file).dom() =~= set![path]);
}

/// What recursive deletion does with one entry found under the directory.
#[derive(Debug, Clone, Copy, PartialEq, Eq, Structural)]
pub enum EntryAction {
    /// Drop its cached handle and delete the file.
    DeleteFile,
    /// Remove the (by then empty) subdirectory.
    RemoveDir,
    /// Leave it; the directory itself goes last, with all that remains.
    Skip,
}

pub open spec fn entry_action(is_file: bool, is_dir: bool, path: Seq<char>, root: Seq<char>) -> EntryAction {
    if is_file {
        EntryAction::DeleteFile
    } else if is_dir && path != root {
        EntryAction::RemoveDir
    } else {
        EntryAction::Skip
    }
}

/// Decides what recursive deletion of `root` does with the entry at `path`.
pub fn dir_entry_action(is_file: bool, is_dir: bool, path: &str, root: &str) -> (r: EntryAction)
    ensures
        r == entry_action(is_file, is_dir, path@, root@),
{
    if is_file {
        EntryAction::DeleteFile
    } else if is_dir && !String::from_str(path).eq(&String::from_str(root)) {
        EntryAction::RemoveDir
    } else {
        EntryAction::Skip
    }
}

} // verus!

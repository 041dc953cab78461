//! The bookkeeping of a recursive file count: which directories are still to
//! be read, which real directories were already read, and how many regular
//! files were seen. The caller does the file-system work between the steps.
use vstd::prelude::*;

verus! {

/// What a directory entry turned out to be.
pub enum EntryKind {
    File,
    /// A directory, with the path under which it was reached.
    Dir(String),
    /// Anything that could not be classified, or is neither.
    Other,
}

pub open spec fn path_set(v: Seq<String>) -> Set<Seq<char>> {
    v.map_values(|s: String| s@).to_set()
}

pub struct Census {
    pub pending: Vec<String>,
    pub visited: Vec<String>,
    pub count: usize,
}

impl Census {
    /// The real directories already read.
    pub open spec fn visited_set(&self) -> Set<Seq<char>> {
        path_set(self.visited@)
    }

    /// A count that starts at `root`.
    pub fn new(root: String) -> (r: Census)
        ensures
            r.pending@.len() == 1,
            r.pending@[0] == root,
            r.visited_set() == Set::<Seq<char>>::empty(),
            r.count == 0,
    {
        let mut pending: Vec<String> = Vec::new();
        pending.push(root);
        let visited: Vec<String> = Vec::new();
        assert(path_set(visited@) =~= Set::<Seq<char>>::empty());
        Census { pending, visited, count: 0 }
    }

    /// The next directory to look at, last pushed first; `None` when done.
    pub fn next_dir(&mut self) -> (r: Option<String>)
        ensures
            old(self).pending@.len() == 0 ==> r.is_none() && final(self).pending@ == old(self).pending@,
            old(self).pending@.len() > 0 ==> r == Some(old(self).pending@.last())
                && final(self).pending@ == old(self).pending@.drop_last(),
            final(self).visited == old(self).visited,
            final(self).count == old(self).count,
    {
        self.pending.pop()
    }

    /// Marks the real directory `canon` as read. Returns `false`, and reading
    /// it is to be skipped, when it was read before: this stops symlink
    /// cycles and counts each canon directory once.
    pub fn visit(&mut self, canon: String) -> (first: bool)
        ensures
            first == !old(self).visited_set().contains(canon@),
            final(self).visited_set() == old(self).visited_set().insert(canon@),
            final(self).pending == old(self).pending,
            final(self).count == old(self).count,
    {
        let ghost before = self.visited@;
        let n = self.visited.len();
        let mut i: usize = 0;
        while i < n
            invariant
                n == self.visited@.len(),
                self.visited@ == before,
                i <= n,
                forall|j: int| 0 <= j < i ==> (#[trigger] before[j])@ != canon@,
            decreases n - i,
        {
            if self.visited[i].eq(&canon) {
                proof {
                    assert(before.map_values(|s: String| s@)[i as int] == canon@);
                }
                assert(path_set(before).insert(canon@) =~= path_set(before));
                return false;
            }
            i = i + 1;
        }
        proof {
            let b = before.map_values(|s: String| s@);
            assert forall|x: Seq<char>| path_set(before).contains(x) implies x != canon@ by {
                let j = choose|j: int| 0 <= j < b.len() && #[trigger] b[j] == x;
                assert(before[j]@ == x);
            }
        }
        let ghost r = canon@;
        self.visited.push(canon);
        assert(self.visited@ =~= before.push(self.visited@.last()));
        assert(self.visited@.map_values(|s: String| s@) =~= before.map_values(|s: String| s@).push(r));
        assert(path_set(self.visited@) =~= path_set(before).insert(r)) by {
            assert forall|x: Seq<char>| path_set(self.visited@).contains(x) == path_set(before).insert(r).contains(x) by {
                let m = self.visited@.map_values(|s: String| s@);
                let b = before.map_values(|s: String| s@);
                if b.contains(x) {
                    let j = choose|j: int| 0 <= j < b.len() && #[trigger] b[j] == x;
                    assert(m[j] == x);
                }
                if m.contains(x) {
                    let j = choose|j: int| 0 <= j < m.len() && #[trigger] m[j] == x;
                    if j < b.len() {
                        assert(b[j] == x);
                    }
                }
                if x == r {
                    assert(m[b.len() as int] == x);
                }
            }
        }
        true
    }

    /// Takes in one entry of the directory being read: a regular file adds
    /// one to the count (saturating at `usize::MAX`), a directory is queued,
    /// anything else is skipped.
    pub fn record(&mut self, kind: EntryKind)
        ensures
            final(self).visited == old(self).visited,
            match kind {
                EntryKind::File => {
                    &&& final(self).count == (if old(self).count < usize::MAX {
                        (old(self).count + 1) as usize
                    } else {
                        old(self).count
                    })
                    &&& final(self).pending@ == old(self).pending@
                },
                EntryKind::Dir(p) => {
                    &&& final(self).count == old(self).count
                    &&& final(self).pending@ == old(self).pending@.push(p)
                },
                EntryKind::Other => {
                    &&& final(self).count == old(self).count
                    &&& final(self).pending@ == old(self).pending@
                },
            },
    {
        match kind {
            EntryKind::File => {
                if self.count < usize::MAX {
                    self.count = self.count + 1;
                }
            },
            EntryKind::Dir(p) => {
                self.pending.push(p);
            },
            EntryKind::Other => {},
        }
    }
}

} // verus!

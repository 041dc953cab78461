//! The navigation engine: current directory, listing, selection, and which
//! directories still need counting.
use vstd::prelude::*;
use crate::cache::{lookup, CensusCache};
use crate::order::{is_sorted, sort_entries, DirEntry};

verus! {

/// Label of the row that leads to the parent directory.
pub const PARENT_LABEL: &'static str = ".. (Back to parent directory)";

/// Name shown for an entry whose file name is not valid UTF-8.
pub const UNKNOWN_NAME: &'static str = "Unknown";

/// The parent of a path, as `std::path::Path::parent` gives it.
pub uninterp spec fn parent_of(p: Seq<char>) -> Option<Seq<char>>;

/// Relies on `std::path::Path::parent`: the path without its last component,
/// or `None` at a root or for an empty path.
#[verifier::external_body]
fn parent_dir(p: &String) -> (r: Option<String>)
    ensures
        r.is_some() == parent_of(p@).is_some(),
        r.is_some() ==> r->0@ == parent_of(p@)->0,
{
    std::path::Path::new(p.as_str()).parent().map(|q| q.to_string_lossy().into_owned())
}

/// A queued intent, consumed on the next processing step.
pub enum Action {
    EnterDirectory(usize),
}

/// One entry of a directory as read from the file system. `name` is `None`
/// when the file name is not valid UTF-8.
pub struct RawEntry {
    pub name: Option<String>,
    pub path: String,
    pub is_dir: bool,
}

pub struct App {
    pub current_dir: String,
    /// The browsing root; the parent row is never offered here.
    pub home_dir: String,
    /// Mirrors the cache entry of `current_dir`.
    pub current_dir_count: Option<usize>,
    pub items: Vec<DirEntry>,
    /// Whether `items[0]` is the parent row, which stays first.
    pub pinned_parent: bool,
    pub selected: Option<usize>,
    pub action_pending: Option<Action>,
    pub cache: CensusCache,
}

pub open spec fn shown_name(raw: RawEntry) -> Seq<char> {
    match raw.name {
        Some(n) => n@,
        None => UNKNOWN_NAME@,
    }
}

/// Row `e` is what the listing shows for `raw` under cache model `c`.
pub open spec fn row_matches(e: DirEntry, raw: RawEntry, c: Map<Seq<char>, usize>) -> bool {
    &&& e.name@ == shown_name(raw)
    &&& e.path@ == raw.path@
    &&& e.is_dir == raw.is_dir
    &&& e.file_count == (if raw.is_dir {
        lookup(c, raw.path@)
    } else {
        None
    })
}

/// Paths of the listed directories that the cache misses, in listing order.
pub open spec fn missing_dirs(listing: Seq<RawEntry>, c: Map<Seq<char>, usize>) -> Seq<Seq<char>>
    decreases listing.len(),
{
    if listing.len() == 0 {
        Seq::empty()
    } else {
        let rest = missing_dirs(listing.drop_last(), c);
        let r = listing.last();
        if r.is_dir && !c.contains_key(r.path@) {
            rest.push(r.path@)
        } else {
            rest
        }
    }
}

/// The parent row's target: only below home, and only where a parent exists.
pub open spec fn parent_row(cur: Seq<char>, home: Seq<char>) -> Option<Seq<char>> {
    if cur != home {
        parent_of(cur)
    } else {
        None
    }
}

/// The counting jobs a refresh issues before the listed directories: the
/// current directory, then the parent row, each only on a cache miss.
pub open spec fn head_plan(cur: Seq<char>, home: Seq<char>, c: Map<Seq<char>, usize>) -> Seq<Seq<char>> {
    let a = if c.contains_key(cur) {
        Seq::<Seq<char>>::empty()
    } else {
        seq![cur]
    };
    let b = match parent_row(cur, home) {
        Some(p) => if c.contains_key(p) {
            Seq::<Seq<char>>::empty()
        } else {
            seq![p]
        },
        None => Seq::<Seq<char>>::empty(),
    };
    a + b
}

/// The counting jobs a refresh issues: the current directory, the parent
/// row, then each listed directory, each only on a cache miss.
pub open spec fn dispatch_plan(
    cur: Seq<char>,
    home: Seq<char>,
    listing: Seq<RawEntry>,
    c: Map<Seq<char>, usize>,
) -> Seq<Seq<char>> {
    head_plan(cur, home, c) + missing_dirs(listing, c)
}

/// The pinned parent row, if any, as the listing shows it.
pub open spec fn head_shown(items: Seq<DirEntry>, pinned: bool, cur: Seq<char>, home: Seq<char>, c: Map<Seq<char>, usize>) -> bool {
    &&& pinned == parent_row(cur, home).is_some()
    &&& items.len() >= offset(pinned)
    &&& pinned ==> {
        &&& items[0].name@ == PARENT_LABEL@
        &&& items[0].path@ == parent_row(cur, home)->0
        &&& items[0].is_dir
        &&& items[0].file_count == lookup(c, parent_row(cur, home)->0)
    }
}

pub open spec fn path_views(v: Seq<String>) -> Seq<Seq<char>> {
    v.map_values(|s: String| s@)
}

/// The selection kept by index across a refresh, clamped to the new length.
pub open spec fn clamp_selection(prev: Option<usize>, len: nat) -> Option<usize> {
    if len == 0 {
        None
    } else {
        let p: usize = match prev {
            Some(i) => i,
            None => 0,
        };
        if p < len {
            Some(p)
        } else {
            Some((len - 1) as usize)
        }
    }
}

/// Number of rows before the sorted part of the listing.
pub open spec fn offset(pinned: bool) -> int {
    if pinned {
        1
    } else {
        0
    }
}

/// Some row of `rows` is what the listing shows for `raw`.
pub open spec fn has_row(rows: Seq<DirEntry>, raw: RawEntry, c: Map<Seq<char>, usize>) -> bool {
    exists|j: int| 0 <= j < rows.len() && row_matches(#[trigger] rows[j], raw, c)
}

/// Row `e` is what the listing shows for some entry of `listing`.
pub open spec fn is_listed(e: DirEntry, listing: Seq<RawEntry>, c: Map<Seq<char>, usize>) -> bool {
    exists|k: int| 0 <= k < listing.len() && row_matches(e, #[trigger] listing[k], c)
}

/// Each listed entry has a row in `rows` and each row stands for a listed entry.
pub open spec fn rows_match(rows: Seq<DirEntry>, listing: Seq<RawEntry>, c: Map<Seq<char>, usize>) -> bool {
    &&& rows.len() == listing.len()
    &&& forall|k: int| 0 <= k < listing.len() ==> has_row(rows, #[trigger] listing[k], c)
    &&& forall|j: int| 0 <= j < rows.len() ==> is_listed(#[trigger] rows[j], listing, c)
}

/// The listing shown for `cur` with entries `listing` under cache model `c`.
pub open spec fn listing_shown(
    items: Seq<DirEntry>,
    pinned: bool,
    cur: Seq<char>,
    home: Seq<char>,
    listing: Seq<RawEntry>,
    c: Map<Seq<char>, usize>,
) -> bool {
    let off = offset(pinned);
    &&& head_shown(items, pinned, cur, home, c)
    &&& items.len() == off + listing.len()
    &&& is_sorted(items.skip(off))
    &&& rows_match(items.skip(off), listing, c)
}

/// A reordering of rows built entry by entry still matches the listing.
proof fn lemma_permuted_rows_match(
    unsorted: Seq<DirEntry>,
    sorted: Seq<DirEntry>,
    listing: Seq<RawEntry>,
    c: Map<Seq<char>, usize>,
)
    requires
        unsorted.len() == listing.len(),
        forall|i: int| 0 <= i < unsorted.len() ==> row_matches(#[trigger] unsorted[i], listing[i], c),
        sorted.to_multiset() == unsorted.to_multiset(),
    ensures
        rows_match(sorted, listing, c),
{
    vstd::seq_lib::to_multiset_len(sorted);
    vstd::seq_lib::to_multiset_len(unsorted);
    assert(sorted.len() == listing.len());
    assert forall|k: int| 0 <= k < listing.len() implies has_row(sorted, #[trigger] listing[k], c) by {
        assert(unsorted.contains(unsorted[k]));
        vstd::seq_lib::to_multiset_contains(unsorted, unsorted[k]);
        vstd::seq_lib::to_multiset_contains(sorted, unsorted[k]);
        let j = choose|j: int| 0 <= j < sorted.len() && sorted[j] == unsorted[k];
        assert(row_matches(sorted[j], listing[k], c));
    }
    assert forall|j: int| 0 <= j < sorted.len() implies is_listed(#[trigger] sorted[j], listing, c) by {
        assert(sorted.contains(sorted[j]));
        vstd::seq_lib::to_multiset_contains(unsorted, sorted[j]);
        vstd::seq_lib::to_multiset_contains(sorted, sorted[j]);
        let k = choose|k: int| 0 <= k < unsorted.len() && unsorted[k] == sorted[j];
        assert(row_matches(unsorted[k], listing[k], c));
        assert(row_matches(sorted[j], listing[k], c));
    }
    assert(rows_match(sorted, listing, c));
}

/// The rows for `listing` in listing order, and the listed directories that
/// the cache misses.
fn listing_rows(cache: &CensusCache, listing: &Vec<RawEntry>) -> (r: (Vec<DirEntry>, Vec<String>))
    ensures
        r.0@.len() == listing@.len(),
        forall|i: int| 0 <= i < listing@.len() ==> row_matches(#[trigger] r.0@[i], listing@[i], cache@),
        path_views(r.1@) == missing_dirs(listing@, cache@),
{
    let mut rows: Vec<DirEntry> = Vec::new();
    let mut jobs: Vec<String> = Vec::new();
    let n = listing.len();
    let mut k: usize = 0;
    assert(path_views(jobs@) =~= missing_dirs(listing@.take(0), cache@));
    while k < n
        invariant
            n == listing@.len(),
            k <= n,
            rows@.len() == k,
            forall|i: int| 0 <= i < k ==> row_matches(#[trigger] rows@[i], listing@[i], cache@),
            path_views(jobs@) == missing_dirs(listing@.take(k as int), cache@),
        decreases n - k,
    {
        let raw = &listing[k];
        let name = match &raw.name {
            Some(s) => s.clone(),
            None => UNKNOWN_NAME.to_string(),
        };
        let count = if raw.is_dir {
            cache.get(&raw.path)
        } else {
            None
        };
        assert(listing@.take(k + 1).drop_last() =~= listing@.take(k as int));
        let ghost before = jobs@;
        if raw.is_dir && count.is_none() {
            jobs.push(raw.path.clone());
            assert(path_views(jobs@) =~= path_views(before).push(raw.path@));
        }
        rows.push(DirEntry { name, path: raw.path.clone(), is_dir: raw.is_dir, file_count: count });
        k = k + 1;
    }
    assert(listing@.take(n as int) =~= listing@);
    (rows, jobs)
}

/// The parent row and the jobs for the current directory and the parent.
fn head_rows(cache: &CensusCache, cur: &String, home: &String) -> (r: (Vec<DirEntry>, Vec<String>, bool))
    ensures
        head_shown(r.0@, r.2, cur@, home@, cache@),
        r.0@.len() == offset(r.2),
        path_views(r.1@) == head_plan(cur@, home@, cache@),
{
    let mut jobs: Vec<String> = Vec::new();
    if cache.get(cur).is_none() {
        jobs.push(cur.clone());
    }
    let mut items: Vec<DirEntry> = Vec::new();
    let mut pinned = false;
    let same = cur.eq(home);
    if !same {
        if let Some(p) = parent_dir(cur) {
            let pc = cache.get(&p);
            if pc.is_none() {
                jobs.push(p.clone());
            }
            let label = PARENT_LABEL.to_string();
            assert(label@ == PARENT_LABEL@);
            items.push(DirEntry { name: label, path: p, is_dir: true, file_count: pc });
            pinned = true;
        }
    }
    assert(path_views(jobs@) =~= head_plan(cur@, home@, cache@));
    (items, jobs, pinned)
}

/// Index selection after the listing changed length.
fn clamp(prev: Option<usize>, len: usize) -> (r: Option<usize>)
    ensures
        r == clamp_selection(prev, len as nat),
{
    let p: usize = match prev {
        Some(i) => i,
        None => 0,
    };
    if len == 0 {
        None
    } else if p < len {
        Some(p)
    } else {
        Some(len - 1)
    }
}

impl App {
    /// Rebuilds the listing of `current_dir` from its entries `listing` (empty
    /// when the directory could not be read) and returns the paths that need
    /// a counting job.
    #[verifier::rlimit(40)]
    pub fn refresh_items(&mut self, listing: Vec<RawEntry>) -> (jobs: Vec<String>)
        ensures
            final(self).current_dir == old(self).current_dir,
            final(self).home_dir == old(self).home_dir,
            final(self).cache@ == old(self).cache@,
            final(self).action_pending == old(self).action_pending,
            final(self).current_dir_count == lookup(old(self).cache@, old(self).current_dir@),
            listing_shown(
                final(self).items@,
                final(self).pinned_parent,
                old(self).current_dir@,
                old(self).home_dir@,
                listing@,
                old(self).cache@,
            ),
            final(self).selected == clamp_selection(old(self).selected, final(self).items@.len()),
            path_views(jobs@) == dispatch_plan(
                old(self).current_dir@,
                old(self).home_dir@,
                listing@,
                old(self).cache@,
            ),
    {
        let ghost c = self.cache@;
        self.current_dir_count = self.cache.get(&self.current_dir);
        let (mut items, mut jobs, pinned) = head_rows(&self.cache, &self.current_dir, &self.home_dir);
        let ghost head = path_views(jobs@);
        let (rows, mut missing) = listing_rows(&self.cache, &listing);
        let ghost unsorted = rows@;
        let ghost missing_s = missing@;
        jobs.append(&mut missing);
        assert(path_views(jobs@) =~= head + path_views(missing_s));
        let mut sorted = sort_entries(rows);
        let ghost sorted_s = sorted@;
        items.append(&mut sorted);
        proof {
            lemma_permuted_rows_match(unsorted, sorted_s, listing@, c);
            assert(items@.skip(offset(pinned)) =~= sorted_s);
        }
        self.selected = clamp(self.selected, items.len());
        self.items = items;
        self.pinned_parent = pinned;
        jobs
    }
}

/// Row `e` after a count of `count` arrived for `path`.
pub open spec fn merged_row(e: DirEntry, path: Seq<char>, count: usize) -> DirEntry {
    if e.path@ == path {
        (DirEntry { name: e.name, path: e.path, is_dir: e.is_dir, file_count: Some(count) })
    } else {
        e
    }
}

/// The selection after moving down one row, wrapping from the last row to the first.
pub open spec fn next_selection(sel: Option<usize>, len: nat) -> Option<usize> {
    if len == 0 {
        sel
    } else {
        match sel {
            Some(i) => if i + 1 < len {
                Some((i + 1) as usize)
            } else {
                Some(0)
            },
            None => Some(0),
        }
    }
}

/// The selection after moving up one row, wrapping from the first row to the last.
pub open spec fn previous_selection(sel: Option<usize>, len: nat) -> Option<usize> {
    if len == 0 {
        sel
    } else {
        match sel {
            Some(i) => if 0 < i < len {
                Some((i - 1) as usize)
            } else {
                Some((len - 1) as usize)
            },
            None => Some((len - 1) as usize),
        }
    }
}

/// The rows below the pinned parent row.
pub open spec fn sorted_part(app: App) -> Seq<DirEntry> {
    app.items@.skip(offset(app.pinned_parent))
}

/// On a listing of `len` rows, moving down from the last row selects the
/// first, and moving up from the first row selects the last.
pub proof fn lemma_selection_wraps(len: usize)
    requires
        len > 0,
    ensures
        next_selection(Some((len - 1) as usize), len as nat) == Some(0usize),
        previous_selection(Some(0usize), len as nat) == Some((len - 1) as usize),
{
}

impl App {
    /// A browser rooted at `start_dir`, listing its entries `listing`; also
    /// returns the paths that need a counting job.
    pub fn new(start_dir: String, listing: Vec<RawEntry>) -> (r: (App, Vec<String>))
        ensures
            r.0.current_dir@ == start_dir@,
            r.0.home_dir@ == start_dir@,
            r.0.cache@ == Map::<Seq<char>, usize>::empty(),
            r.0.action_pending.is_none(),
            r.0.current_dir_count.is_none(),
            listing_shown(r.0.items@, r.0.pinned_parent, start_dir@, start_dir@, listing@, Map::empty()),
            r.0.selected == clamp_selection(None, r.0.items@.len()),
            path_views(r.1@) == dispatch_plan(start_dir@, start_dir@, listing@, Map::empty()),
    {
        let mut app = App {
            current_dir: start_dir.clone(),
            home_dir: start_dir,
            current_dir_count: None,
            items: Vec::new(),
            pinned_parent: false,
            selected: None,
            action_pending: None,
            cache: CensusCache::new(),
        };
        let jobs = app.refresh_items(listing);
        (app, jobs)
    }

    /// Moves the selection down one row, wrapping to the first; no-op on an
    /// empty listing.
    pub fn next(&mut self)
        ensures
            final(self).selected == next_selection(old(self).selected, old(self).items@.len()),
            final(self).items == old(self).items,
            final(self).current_dir == old(self).current_dir,
            final(self).action_pending == old(self).action_pending,
    {
        let len = self.items.len();
        if len == 0 {
            return;
        }
        self.selected = match self.selected {
            Some(i) => if i < len - 1 {
                Some(i + 1)
            } else {
                Some(0)
            },
            None => Some(0),
        };
    }

    /// Moves the selection up one row, wrapping to the last; no-op on an
    /// empty listing.
    pub fn previous(&mut self)
        ensures
            final(self).selected == previous_selection(old(self).selected, old(self).items@.len()),
            final(self).items == old(self).items,
            final(self).current_dir == old(self).current_dir,
            final(self).action_pending == old(self).action_pending,
    {
        let len = self.items.len();
        if len == 0 {
            return;
        }
        self.selected = match self.selected {
            Some(i) => if 0 < i && i < len {
                Some(i - 1)
            } else {
                Some(len - 1)
            },
            None => Some(len - 1),
        };
    }

    /// Takes in a finished count: records it in the cache, and shows it for
    /// the current directory and for every row with that path. Returns
    /// whether anything shown changed.
    pub fn merge_count_update(&mut self, path: String, count: usize) -> (changed: bool)
        ensures
            final(self).cache@ == old(self).cache@.insert(path@, count),
            final(self).current_dir_count == (if path@ == old(self).current_dir@ {
                Some(count)
            } else {
                old(self).current_dir_count
            }),
            final(self).items@.len() == old(self).items@.len(),
            forall|k: int|
                0 <= k < old(self).items@.len() ==> #[trigger] final(self).items@[k] == merged_row(
                    old(self).items@[k],
                    path@,
                    count,
                ),
            changed == (path@ == old(self).current_dir@ || exists|k: int|
                0 <= k < old(self).items@.len() && (#[trigger] old(self).items@[k]).path@ == path@),
            final(self).current_dir == old(self).current_dir,
            final(self).home_dir == old(self).home_dir,
            final(self).pinned_parent == old(self).pinned_parent,
            final(self).selected == old(self).selected,
            final(self).action_pending == old(self).action_pending,
    {
        let mut changed = false;
        if path.eq(&self.current_dir) {
            self.current_dir_count = Some(count);
            changed = true;
        }
        let ghost old_items = self.items@;
        let mut rest: Vec<DirEntry> = Vec::new();
        std::mem::swap(&mut rest, &mut self.items);
        let mut out: Vec<DirEntry> = Vec::new();
        let n = rest.len();
        let mut k: usize = 0;
        while k < n
            invariant
                n == old_items.len(),
                k <= n,
                rest@ == old_items.subrange(k as int, n as int),
                out@.len() == k,
                forall|i: int| 0 <= i < k ==> #[trigger] out@[i] == merged_row(old_items[i], path@, count),
                changed == (path@ == self.current_dir@ || exists|i: int|
                    0 <= i < k && (#[trigger] old_items[i]).path@ == path@),
            decreases n - k,
        {
            let mut e = rest.remove(0);
            assert(e == old_items[k as int]);
            assert(rest@ =~= old_items.subrange(k + 1, n as int));
            if e.path.eq(&path) {
                e.file_count = Some(count);
                changed = true;
            }
            out.push(e);
            k = k + 1;
        }
        self.items = out;
        self.cache.insert(path, count);
        changed
    }

    /// Re-applies the sort order to the listing, keeping the parent row first.
    pub fn resort(&mut self)
        ensures
            final(self).items@.len() == old(self).items@.len(),
            old(self).pinned_parent && old(self).items@.len() > 0 ==> final(self).items@[0]
                == old(self).items@[0],
            old(self).items@.len() >= offset(old(self).pinned_parent) ==> sorted_part(*final(self))
                .to_multiset() == sorted_part(*old(self)).to_multiset(),
            old(self).items@.len() >= offset(old(self).pinned_parent) ==> is_sorted(
                sorted_part(*final(self)),
            ),
            is_sorted(sorted_part(*old(self))) ==> final(self).items@ == old(self).items@,
            final(self).current_dir == old(self).current_dir,
            final(self).home_dir == old(self).home_dir,
            final(self).pinned_parent == old(self).pinned_parent,
            final(self).current_dir_count == old(self).current_dir_count,
            final(self).cache@ == old(self).cache@,
            final(self).selected == old(self).selected,
            final(self).action_pending == old(self).action_pending,
    {
        let ghost before = self.items@;
        let mut items: Vec<DirEntry> = Vec::new();
        std::mem::swap(&mut items, &mut self.items);
        if self.pinned_parent && items.len() > 0 {
            let first = items.remove(0);
            assert(items@ =~= before.skip(1));
            let ghost tail = items@;
            let mut sorted = sort_entries(items);
            proof {
                vstd::seq_lib::to_multiset_len(tail);
                vstd::seq_lib::to_multiset_len(sorted@);
            }
            let ghost sorted_tail = sorted@;
            sorted.insert(0, first);
            assert(sorted@.skip(1) =~= sorted_tail);
            assert(sorted@.skip(1) =~= before.skip(1) ==> sorted@ =~= before);
            self.items = sorted;
        } else {
            if !self.pinned_parent {
                assert(before.skip(0) =~= before);
            }
            let ghost whole = items@;
            let sorted = sort_entries(items);
            proof {
                vstd::seq_lib::to_multiset_len(whole);
                vstd::seq_lib::to_multiset_len(sorted@);
            }
            if !self.pinned_parent {
                assert(sorted@.skip(0) =~= sorted@);
            }
            self.items = sorted;
        }
    }

    /// Enters the directory at `index`. Returns whether `current_dir` changed,
    /// in which case the new directory is to be listed and refreshed. Files
    /// and indices past the end leave everything as it was.
    pub fn enter(&mut self, index: usize) -> (entered: bool)
        ensures
            entered == (index < old(self).items@.len() && old(self).items@[index as int].is_dir),
            entered ==> final(self).current_dir == old(self).items@[index as int].path,
            !entered ==> final(self).current_dir == old(self).current_dir,
            final(self).home_dir == old(self).home_dir,
            final(self).items == old(self).items,
            final(self).pinned_parent == old(self).pinned_parent,
            final(self).current_dir_count == old(self).current_dir_count,
            final(self).cache@ == old(self).cache@,
            final(self).selected == old(self).selected,
            final(self).action_pending == old(self).action_pending,
    {
        if index < self.items.len() && self.items[index].is_dir {
            self.current_dir = self.items[index].path.clone();
            true
        } else {
            false
        }
    }

    /// Returns to the browsing root; the caller then lists and refreshes it.
    pub fn go_home(&mut self)
        ensures
            final(self).current_dir == old(self).home_dir,
            final(self).home_dir == old(self).home_dir,
            final(self).items == old(self).items,
            final(self).pinned_parent == old(self).pinned_parent,
            final(self).current_dir_count == old(self).current_dir_count,
            final(self).cache@ == old(self).cache@,
            final(self).selected == old(self).selected,
            final(self).action_pending == old(self).action_pending,
    {
        self.current_dir = self.home_dir.clone();
    }

    /// Queues entering the selected row, if a row is selected.
    pub fn request_enter_selected(&mut self)
        ensures
            final(self).action_pending == (match old(self).selected {
                Some(i) => Some(Action::EnterDirectory(i)),
                None => old(self).action_pending,
            }),
            final(self).selected == old(self).selected,
            final(self).current_dir == old(self).current_dir,
            final(self).items == old(self).items,
    {
        if let Some(i) = self.selected {
            self.action_pending = Some(Action::EnterDirectory(i));
        }
    }

    /// A click on listing row `row`: selects it and queues entering it.
    /// Rows past the end are ignored. Returns whether the row was taken.
    pub fn activate_row(&mut self, row: usize) -> (taken: bool)
        ensures
            taken == (row < old(self).items@.len()),
            taken ==> final(self).selected == Some(row),
            taken ==> final(self).action_pending == Some(Action::EnterDirectory(row)),
            !taken ==> final(self).selected == old(self).selected,
            !taken ==> final(self).action_pending == old(self).action_pending,
            final(self).current_dir == old(self).current_dir,
            final(self).items == old(self).items,
    {
        if row < self.items.len() {
            self.selected = Some(row);
            self.action_pending = Some(Action::EnterDirectory(row));
            true
        } else {
            false
        }
    }

    /// Consumes the pending action, if any. Returns whether it entered a
    /// directory, in which case the new directory is to be listed and refreshed.
    pub fn process_pending(&mut self) -> (entered: bool)
        ensures
            final(self).action_pending.is_none(),
            entered == (match old(self).action_pending {
                Some(Action::EnterDirectory(i)) => i < old(self).items@.len()
                    && old(self).items@[i as int].is_dir,
                None => false,
            }),
            entered ==> final(self).current_dir == old(self).items@[(match old(
                self,
            ).action_pending {
                Some(Action::EnterDirectory(i)) => i,
                None => 0,
            }) as int].path,
            !entered ==> final(self).current_dir == old(self).current_dir,
            final(self).home_dir == old(self).home_dir,
            final(self).items == old(self).items,
            final(self).selected == old(self).selected,
            final(self).cache@ == old(self).cache@,
    {
        match self.action_pending.take() {
            Some(Action::EnterDirectory(i)) => self.enter(i),
            None => false,
        }
    }
}

} // verus!

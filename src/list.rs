use vstd::prelude::*;
use vstd::arithmetic::div_mod::{
    lemma_add_mod_noop_right, lemma_fundamental_div_mod_converse, lemma_mod_bound, lemma_sub_mod_noop,
    lemma_add_mod_noop, lemma_sub_mod_noop_right,
};

use crate::entry::{Entry, EntryKind, ListingError};
use crate::path::{lemma_parent_drops_one_segment, parent_of, parse_prev_path, segment_count};
use crate::sort::{is_sorted_permutation, next_config, sort_entries, SortConfig, SortKey};
use crate::text::push_char;

verus! {

/// The entries that match the filter, in listing order.
pub open spec fn matched(s: Seq<Entry>) -> Seq<Entry>
    decreases s.len(),
{
    if s.len() == 0 {
        Seq::empty()
    } else if s.last().is_matched {
        matched(s.drop_last()).push(s.last())
    } else {
        matched(s.drop_last())
    }
}

/// The selection after moving down over `n` matched entries: the first entry
/// when nothing is selected, the next one modulo `n` otherwise, and the first
/// one for an index that is out of range.
pub open spec fn next_index(sel: Option<usize>, n: nat) -> Option<usize> {
    if n == 0 {
        sel
    } else {
        match sel {
            None => Some(0),
            Some(i) => if i < n {
                Some(((i + 1) % (n as int)) as usize)
            } else {
                Some(0)
            },
        }
    }
}

/// The selection after moving up over `n` matched entries: the last entry
/// from the first one or from an index out of range, else the previous one;
/// no selection stays none.
pub open spec fn previous_index(sel: Option<usize>, n: nat) -> Option<usize> {
    if n == 0 {
        sel
    } else {
        match sel {
            None => None,
            Some(i) => if i == 0 || i >= n {
                Some((n - 1) as usize)
            } else {
                Some((i - 1) as usize)
            },
        }
    }
}

/// The URI of an object: `s3://`, the bucket, a separator and the path.
pub open spec fn uri_of(bucket: Seq<char>, path: Seq<char>) -> Seq<char> {
    seq!['s', '3', ':', '/', '/'] + bucket + seq!['/'] + path
}

proof fn lemma_matched_prefix(s: Seq<Entry>, k: int)
    requires
        0 <= k <= s.len(),
    ensures
        matched(s.subrange(0, k)).len() <= matched(s).len(),
        forall|m: int| 0 <= m < matched(s.subrange(0, k)).len()
            ==> matched(s)[m] == #[trigger] matched(s.subrange(0, k))[m],
    decreases s.len(),
{
    if k == s.len() {
        assert(s.subrange(0, k) =~= s);
    } else {
        lemma_matched_prefix(s.drop_last(), k);
        assert(s.drop_last().subrange(0, k) =~= s.subrange(0, k));
    }
}

/// The selection after moving down `k` times.
pub open spec fn next_times(sel: Option<usize>, n: nat, k: nat) -> Option<usize>
    decreases k,
{
    if k == 0 {
        sel
    } else {
        next_index(next_times(sel, n, (k - 1) as nat), n)
    }
}

/// The selection after moving up `k` times.
pub open spec fn previous_times(sel: Option<usize>, n: nat, k: nat) -> Option<usize>
    decreases k,
{
    if k == 0 {
        sel
    } else {
        previous_index(previous_times(sel, n, (k - 1) as nat), n)
    }
}

/// Moving down `k` times from matched entry `i` of `n` lands on entry
/// `(i + k) mod n`: the cursor wraps and never leaves the range.
pub proof fn lemma_next_wraps(i: usize, n: nat, k: nat)
    requires
        i < n,
        n <= usize::MAX,
    ensures
        next_times(Some(i), n, k) == Some(((i + k) % (n as int)) as usize),
        0 <= (i + k) % (n as int) < n,
    decreases k,
{
    lemma_mod_bound(i + k, n as int);
    if k == 0 {
        lemma_fundamental_div_mod_converse(i as int, n as int, 0, i as int);
    } else {
        lemma_next_wraps(i, n, (k - 1) as nat);
        let x = i + k - 1;
        let r = x % (n as int);
        lemma_add_mod_noop(x, 1, n as int);
        lemma_add_mod_noop_right(r, 1, n as int);
        assert(next_index(Some(r as usize), n) == Some(((r + 1) % (n as int)) as usize));
    }
}

/// Moving down `k >= 1` times with nothing selected lands on matched entry
/// `(k - 1) mod n`.
pub proof fn lemma_next_from_none(n: nat, k: nat)
    requires
        0 < n <= usize::MAX,
        k >= 1,
    ensures
        next_times(None, n, k) == Some(((k - 1) % (n as int)) as usize),
    decreases k,
{
    if k == 1 {
        lemma_fundamental_div_mod_converse(0, n as int, 0, 0);
    } else {
        lemma_next_from_none(n, (k - 1) as nat);
        lemma_mod_bound(k - 2, n as int);
        let r = (k - 2) % (n as int);
        lemma_add_mod_noop(k - 2, 1, n as int);
        lemma_add_mod_noop_right(r, 1, n as int);
        assert(next_index(Some(r as usize), n) == Some(((r + 1) % (n as int)) as usize));
    }
}

/// Moving up from the first of `n` matched entries lands on the last one, and
/// moving up `k` times from entry `i` lands on entry `(i - k) mod n`.
pub proof fn lemma_previous_wraps(i: usize, n: nat, k: nat)
    requires
        i < n,
        n <= usize::MAX,
    ensures
        previous_index(Some(0), n) == Some((n - 1) as usize),
        previous_times(Some(i), n, k) == Some(((i - k) % (n as int)) as usize),
        0 <= (i - k) % (n as int) < n,
    decreases k,
{
    lemma_mod_bound(i - k, n as int);
    if k == 0 {
        lemma_fundamental_div_mod_converse(i as int, n as int, 0, i as int);
    } else {
        lemma_previous_wraps(i, n, (k - 1) as nat);
        let x = i - (k - 1);
        let r = x % (n as int);
        lemma_sub_mod_noop(x, 1, n as int);
        lemma_sub_mod_noop_right(r, 1, n as int);
        if r == 0 {
            lemma_fundamental_div_mod_converse(-1, n as int, -1, n - 1);
        } else {
            lemma_fundamental_div_mod_converse(r - 1, n as int, 0, r - 1);
        }
    }
}

/// What descending does: with no directory selected nothing changes; else a
/// failed listing changes nothing and is returned, and a listing of the
/// directory makes it the current path, the old one the previous path, and
/// clears the selection.
pub open spec fn descend_step(
    before: StatefulList,
    after: StatefulList,
    listing: Result<Vec<Entry>, ListingError>,
    r: Result<(), ListingError>,
) -> bool {
    match before.descend_path() {
        None => r is Ok && after == before,
        Some(p) => match listing {
            Err(e) => r == Err::<(), ListingError>(e) && after == before,
            Ok(items) => {
                &&& r is Ok
                &&& after.items@ == items@
                &&& after.current_path@ == p
                &&& after.prev_path == before.current_path
                &&& after.selected is None
                &&& after.bucket == before.bucket
                &&& after.root_path == before.root_path
            },
        },
    }
}

/// What going back does: a failed listing changes nothing and is returned;
/// else the previous path becomes the current one, its parent the previous
/// one, and the selection is cleared.
pub open spec fn goback_step(
    before: StatefulList,
    after: StatefulList,
    listing: Result<Vec<Entry>, ListingError>,
    r: Result<(), ListingError>,
) -> bool {
    match listing {
        Err(e) => r == Err::<(), ListingError>(e) && after == before,
        Ok(items) => {
            &&& r is Ok
            &&& after.items@ == items@
            &&& after.current_path == before.prev_path
            &&& after.prev_path@ == parent_of(before.prev_path@)
            &&& after.selected is None
            &&& after.bucket == before.bucket
            &&& after.root_path == before.root_path
        },
    }
}

/// What resetting does: a failed listing changes nothing and is returned;
/// else the root path becomes the current one, its parent the previous one,
/// and the selection is cleared.
pub open spec fn reset_step(
    before: StatefulList,
    after: StatefulList,
    listing: Result<Vec<Entry>, ListingError>,
    r: Result<(), ListingError>,
) -> bool {
    match listing {
        Err(e) => r == Err::<(), ListingError>(e) && after == before,
        Ok(items) => {
            &&& r is Ok
            &&& after.items@ == items@
            &&& after.current_path == before.root_path
            &&& after.prev_path@ == parent_of(before.root_path@)
            &&& after.selected is None
            &&& after.bucket == before.bucket
            &&& after.root_path == before.root_path
        },
    }
}

/// Going back twice from a path with at least two segments, whose previous
/// path is its parent (as after opening, going back or resetting), ascends
/// exactly one level at each step.
pub proof fn lemma_goback_twice(
    s0: StatefulList,
    s1: StatefulList,
    s2: StatefulList,
    l1: Result<Vec<Entry>, ListingError>,
    l2: Result<Vec<Entry>, ListingError>,
    r1: Result<(), ListingError>,
    r2: Result<(), ListingError>,
)
    requires
        segment_count(s0.current_path@) >= 2,
        s0.prev_path@ == parent_of(s0.current_path@),
        goback_step(s0, s1, l1, r1),
        goback_step(s1, s2, l2, r2),
        l1 is Ok,
        l2 is Ok,
    ensures
        s1.current_path@ == parent_of(s0.current_path@),
        s2.current_path@ == parent_of(s1.current_path@),
        segment_count(s1.current_path@) + 1 == segment_count(s0.current_path@),
        segment_count(s2.current_path@) + 1 == segment_count(s1.current_path@),
{
    lemma_parent_drops_one_segment(s0.current_path@);
    lemma_parent_drops_one_segment(s1.current_path@);
}

/// The listing of the current path with its selection cursor.
pub struct StatefulList {
    /// Index into the matched entries, if any is selected.
    pub selected: Option<usize>,
    /// The entries of `current_path`.
    pub items: Vec<Entry>,
    pub bucket: String,
    /// The path the session was opened at.
    pub root_path: String,
    /// The path whose children are listed.
    pub current_path: String,
    /// Where going back leads.
    pub prev_path: String,
}

impl StatefulList {
    /// The entries that match the filter.
    pub open spec fn matched_items(&self) -> Seq<Entry> {
        matched(self.items@)
    }

    /// The selected entry: the matched entry at the selection index.
    pub open spec fn selection(&self) -> Option<Entry> {
        match self.selected {
            Some(i) => if i < self.matched_items().len() {
                Some(self.matched_items()[i as int])
            } else {
                None
            },
            None => None,
        }
    }

    /// The path to list for descending: that of the selected entry, when it
    /// is a directory.
    pub open spec fn descend_path(&self) -> Option<Seq<char>> {
        match self.selection() {
            Some(e) => if e.kind == EntryKind::Directory {
                Some(e.path@)
            } else {
                None
            },
            None => None,
        }
    }

    /// Opens the listing of `path` (the root when absent) in `bucket`, from
    /// the result of listing that path.
    pub fn from_path(bucket: &str, path: &Option<String>, listing: Result<Vec<Entry>, ListingError>)
        -> (r: Result<StatefulList, ListingError>)
        ensures
            listing is Err ==> r == Err::<StatefulList, ListingError>(listing->Err_0),
            listing is Ok ==> (r matches Ok(l) && {
                let start = match path { Some(p) => p@, None => Seq::empty() };
                &&& l.items@ == listing->Ok_0@
                &&& l.bucket@ == bucket@
                &&& l.root_path@ == start
                &&& l.current_path@ == start
                &&& l.prev_path@ == parent_of(start)
                &&& l.selected is None
            }),
    {
        match listing {
            Err(e) => Err(e),
            Ok(items) => {
                let start = match path {
                    Some(p) => p.clone(),
                    None => String::new(),
                };
                let prev_path = parse_prev_path(start.as_str());
                Ok(StatefulList {
                    selected: None,
                    items,
                    bucket: bucket.to_owned(),
                    root_path: start.clone(),
                    current_path: start,
                    prev_path,
                })
            },
        }
    }

    /// The number of entries that match the filter.
    pub fn matched_len(&self) -> (r: usize)
        ensures
            r == self.matched_items().len(),
    {
        let mut i: usize = 0;
        let mut count: usize = 0;
        assert(self.items@.subrange(0, 0) =~= Seq::<Entry>::empty());
        while i < self.items.len()
            invariant
                i <= self.items@.len(),
                count == matched(self.items@.subrange(0, i as int)).len(),
                count <= i,
            decreases self.items@.len() - i,
        {
            assert(self.items@.subrange(0, i + 1).drop_last() =~= self.items@.subrange(0, i as int));
            if self.items[i].is_matched {
                count = count + 1;
            }
            i = i + 1;
        }
        assert(self.items@.subrange(0, i as int) =~= self.items@);
        count
    }

    /// The matched entry at index `n`, if there is one.
    pub fn nth_matched(&self, n: usize) -> (r: Option<&Entry>)
        ensures
            n < self.matched_items().len() ==> r == Some(&self.matched_items()[n as int]),
            n >= self.matched_items().len() ==> r is None,
    {
        let mut i: usize = 0;
        let mut count: usize = 0;
        assert(self.items@.subrange(0, 0) =~= Seq::<Entry>::empty());
        while i < self.items.len()
            invariant
                i <= self.items@.len(),
                count == matched(self.items@.subrange(0, i as int)).len(),
                count <= n,
            decreases self.items@.len() - i,
        {
            let ghost s = self.items@;
            assert(s.subrange(0, i + 1).drop_last() =~= s.subrange(0, i as int));
            if self.items[i].is_matched {
                if count == n {
                    proof {
                        lemma_matched_prefix(s, i + 1);
                        assert(matched(s.subrange(0, i + 1))[n as int] == s[i as int]);
                    }
                    return Some(&self.items[i]);
                }
                count = count + 1;
            }
            i = i + 1;
        }
        assert(self.items@.subrange(0, i as int) =~= self.items@);
        None
    }

    /// The selected entry, if the selection points at a matched entry.
    pub fn selected_entry(&self) -> (r: Option<&Entry>)
        ensures
            r == match self.selection() { Some(e) => Some(&e), None => None::<&Entry> },
    {
        match self.selected {
            Some(i) => self.nth_matched(i),
            None => None,
        }
    }

    /// Moves the selection down over the matched entries, wrapping around.
    pub fn next(&mut self)
        ensures
            final(self).selected == next_index(old(self).selected, old(self).matched_items().len()),
            final(self).items == old(self).items,
            final(self).bucket == old(self).bucket,
            final(self).root_path == old(self).root_path,
            final(self).current_path == old(self).current_path,
            final(self).prev_path == old(self).prev_path,
    {
        let n = self.matched_len();
        if n == 0 {
            return;
        }
        self.selected = match self.selected {
            None => Some(0),
            Some(i) => if i < n && i + 1 < n {
                Some(i + 1)
            } else {
                Some(0)
            },
        };
        proof {
            if let Some(i) = old(self).selected {
                if i < n && i + 1 < n {
                    lemma_fundamental_div_mod_converse(i + 1, n as int, 0, i + 1);
                } else if i < n {
                    lemma_fundamental_div_mod_converse(i + 1, n as int, 1, 0);
                }
            }
        }
    }

    /// Moves the selection up over the matched entries, wrapping around.
    pub fn previous(&mut self)
        ensures
            final(self).selected == previous_index(old(self).selected, old(self).matched_items().len()),
            final(self).items == old(self).items,
            final(self).bucket == old(self).bucket,
            final(self).root_path == old(self).root_path,
            final(self).current_path == old(self).current_path,
            final(self).prev_path == old(self).prev_path,
    {
        let n = self.matched_len();
        if n == 0 {
            return;
        }
        self.selected = match self.selected {
            None => None,
            Some(i) => if i == 0 || i >= n {
                Some(n - 1)
            } else {
                Some(i - 1)
            },
        };
    }

    /// Clears the selection.
    pub fn unselect(&mut self)
        ensures
            final(self).selected is None,
            final(self).items == old(self).items,
            final(self).bucket == old(self).bucket,
            final(self).root_path == old(self).root_path,
            final(self).current_path == old(self).current_path,
            final(self).prev_path == old(self).prev_path,
    {
        self.selected = None;
    }

    /// The URI of the selected entry, to be copied.
    pub fn copy(&self) -> (r: Option<String>)
        ensures
            self.selection() is None ==> r is None,
            self.selection() matches Some(e) ==> (r matches Some(u) && u@ == uri_of(self.bucket@, e.path@)),
    {
        match self.selected_entry() {
            None => None,
            Some(e) => {
                let mut u = String::new();
                push_char(&mut u, 's');
                push_char(&mut u, '3');
                push_char(&mut u, ':');
                push_char(&mut u, '/');
                push_char(&mut u, '/');
                u.append(self.bucket.as_str());
                push_char(&mut u, '/');
                u.append(e.path.as_str());
                assert(u@ =~= uri_of(self.bucket@, e.path@));
                Some(u)
            },
        }
    }

    /// The path to list before descending into the selected directory.
    pub fn descend_target(&self) -> (r: Option<String>)
        ensures
            self.descend_path() is None ==> r is None,
            self.descend_path() matches Some(p) ==> (r matches Some(t) && t@ == p),
    {
        match self.selected_entry() {
            Some(e) => if e.kind == EntryKind::Directory {
                Some(e.path.clone())
            } else {
                None
            },
            None => None,
        }
    }

    /// Descends into the selected directory, given the listing of its path;
    /// does nothing when no directory is selected.
    pub fn refresh(&mut self, listing: Result<Vec<Entry>, ListingError>) -> (r: Result<(), ListingError>)
        ensures
            descend_step(*old(self), *final(self), listing, r),
    {
        let target = self.descend_target();
        match target {
            None => Ok(()),
            Some(t) => match listing {
                Err(e) => Err(e),
                Ok(items) => {
                    let cur = self.current_path.clone();
                    self.prev_path = cur;
                    self.current_path = t;
                    self.items = items;
                    self.unselect();
                    Ok(())
                },
            },
        }
    }

    /// Goes back to the previous path, given its listing; the new previous
    /// path is the parent of the new current path.
    pub fn goback(&mut self, listing: Result<Vec<Entry>, ListingError>) -> (r: Result<(), ListingError>)
        ensures
            goback_step(*old(self), *final(self), listing, r),
    {
        match listing {
            Err(e) => Err(e),
            Ok(items) => {
                let prev = self.prev_path.clone();
                self.prev_path = parse_prev_path(prev.as_str());
                self.current_path = prev;
                self.items = items;
                self.unselect();
                Ok(())
            },
        }
    }

    /// Returns to the path the session was opened at, given its listing.
    pub fn reset(&mut self, listing: Result<Vec<Entry>, ListingError>) -> (r: Result<(), ListingError>)
        ensures
            reset_step(*old(self), *final(self), listing, r),
    {
        match listing {
            Err(e) => Err(e),
            Ok(items) => {
                let root = self.root_path.clone();
                self.prev_path = parse_prev_path(root.as_str());
                self.current_path = root;
                self.items = items;
                self.unselect();
                Ok(())
            },
        }
    }

    /// Sorts the entries by `key`: ascending for a new key, in the other
    /// direction for the current one (`config`, none before the first sort).
    /// The selection index is kept.
    pub fn sort_items(&mut self, key: SortKey, config: &mut Option<SortConfig>)
        ensures
            *final(config) == Some(next_config(*old(config), key)),
            is_sorted_permutation(old(self).items@, final(self).items@, key, next_config(*old(config), key).ascending),
            final(self).selected == old(self).selected,
            final(self).bucket == old(self).bucket,
            final(self).root_path == old(self).root_path,
            final(self).current_path == old(self).current_path,
            final(self).prev_path == old(self).prev_path,
    {
        let ascending = match config {
            Some(c) => if c.sort_key == key {
                !c.ascending
            } else {
                true
            },
            None => true,
        };
        sort_entries(&mut self.items, key, ascending);
        *config = Some(SortConfig { sort_key: key, ascending });
    }
}

} // verus!

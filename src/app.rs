use vstd::prelude::*;

use crate::entry::{Entry, ListingError};
use crate::list::{
    descend_step, goback_step, next_index, previous_index, reset_step, uri_of, StatefulList,
};
use crate::sort::{is_sorted_permutation, keys_distinct, lemma_resort_reverses, next_config, SortConfig, SortKey};
use crate::text::{contains_str, is_infix, lemma_empty_is_infix, lower_of, pop_char, push_char, to_lower};

verus! {

/// The mode that decides how a key is interpreted.
#[derive(PartialEq, Eq, Structural, Clone, Copy, Debug)]
pub enum AppMode {
    FilterMode,
    SortMode,
    RegularMode,
}

/// A key press as the session sees it.
#[derive(PartialEq, Eq, Structural, Clone, Copy, Debug)]
pub enum Key {
    Enter,
    Right,
    Left,
    Up,
    Down,
    Esc,
    Backspace,
    Char(char),
    Other,
}

/// What a key asks the session to do.
#[derive(PartialEq, Eq, Structural, Clone, Copy, Debug)]
pub enum Action {
    Descend,
    GoBack,
    Unselect,
    SelectNext,
    SelectPrevious,
    CopyUri,
    EnterFilterMode,
    EnterSortMode,
    Reset,
    Quit,
    AppendChar(char),
    DeleteChar,
    ApplyFilter,
    LeaveMode,
    Sort(SortKey),
    Ignore,
}

/// The key table: the action for a key in a mode.
pub open spec fn action_for(mode: AppMode, key: Key) -> Action {
    match mode {
        AppMode::RegularMode => match key {
            Key::Enter => Action::Descend,
            Key::Right => Action::Descend,
            Key::Left => Action::GoBack,
            Key::Esc => Action::Unselect,
            Key::Down => Action::SelectNext,
            Key::Up => Action::SelectPrevious,
            Key::Char(c) => if c == 'c' {
                Action::CopyUri
            } else if c == 'f' {
                Action::EnterFilterMode
            } else if c == 's' {
                Action::EnterSortMode
            } else if c == 'r' {
                Action::Reset
            } else if c == 'q' {
                Action::Quit
            } else {
                Action::Ignore
            },
            _ => Action::Ignore,
        },
        AppMode::FilterMode => match key {
            Key::Char(c) => Action::AppendChar(c),
            Key::Backspace => Action::DeleteChar,
            Key::Enter => Action::ApplyFilter,
            Key::Esc => Action::LeaveMode,
            Key::Down => Action::LeaveMode,
            _ => Action::Ignore,
        },
        AppMode::SortMode => match key {
            Key::Char(c) => if c == 'p' {
                Action::Sort(SortKey::Path)
            } else if c == 'd' {
                Action::Sort(SortKey::LastModified)
            } else {
                Action::Ignore
            },
            Key::Esc => Action::LeaveMode,
            _ => Action::Ignore,
        },
    }
}

/// Looks up the action for `key` in `mode`.
pub fn route(mode: AppMode, key: Key) -> (r: Action)
    ensures
        r == action_for(mode, key),
{
    match mode {
        AppMode::RegularMode => match key {
            Key::Enter => Action::Descend,
            Key::Right => Action::Descend,
            Key::Left => Action::GoBack,
            Key::Esc => Action::Unselect,
            Key::Down => Action::SelectNext,
            Key::Up => Action::SelectPrevious,
            Key::Char(c) => if c == 'c' {
                Action::CopyUri
            } else if c == 'f' {
                Action::EnterFilterMode
            } else if c == 's' {
                Action::EnterSortMode
            } else if c == 'r' {
                Action::Reset
            } else if c == 'q' {
                Action::Quit
            } else {
                Action::Ignore
            },
            _ => Action::Ignore,
        },
        AppMode::FilterMode => match key {
            Key::Char(c) => Action::AppendChar(c),
            Key::Backspace => Action::DeleteChar,
            Key::Enter => Action::ApplyFilter,
            Key::Esc => Action::LeaveMode,
            Key::Down => Action::LeaveMode,
            _ => Action::Ignore,
        },
        AppMode::SortMode => match key {
            Key::Char(c) => if c == 'p' {
                Action::Sort(SortKey::Path)
            } else if c == 'd' {
                Action::Sort(SortKey::LastModified)
            } else {
                Action::Ignore
            },
            Key::Esc => Action::LeaveMode,
            _ => Action::Ignore,
        },
    }
}

/// A change of path that waits for a listing.
#[derive(PartialEq, Eq, Structural, Clone, Copy, Debug)]
pub enum Navigation {
    Descend,
    GoBack,
    Reset,
}

/// What the caller must do after a key: list a path and hand the result to
/// `App::complete`, put a URI on the clipboard, or stop.
#[derive(Clone, Debug, PartialEq, Eq)]
pub enum Effect {
    Nothing,
    Fetch(Navigation, String),
    Copy(String),
    Quit,
}

/// `e` asks to list `path` for `nav`.
pub open spec fn fetches(e: Effect, nav: Navigation, path: Seq<char>) -> bool {
    match e {
        Effect::Fetch(n, p) => n == nav && p@ == path,
        _ => false,
    }
}

/// `e` asks to copy `uri`.
pub open spec fn copies(e: Effect, uri: Seq<char>) -> bool {
    match e {
        Effect::Copy(u) => u@ == uri,
        _ => false,
    }
}

/// `e` with its match flag set to `m`.
pub open spec fn with_match(e: Entry, m: bool) -> Entry {
    Entry { is_matched: m, ..e }
}

/// The entries after filtering with `text`: each matches when the lowercase
/// text occurs in its lowercase label.
pub open spec fn filtered(items: Seq<Entry>, text: Seq<char>) -> Seq<Entry> {
    Seq::new(items.len(), |j: int| with_match(items[j], is_infix(lower_of(text), lower_of(items[j].label@))))
}

/// The browsing session: the listing, the mode, the filter text and the order.
pub struct App {
    pub items: StatefulList,
    pub mode: AppMode,
    pub search_input: String,
    /// The order last applied, none while entries are in listing order.
    pub sort_config: Option<SortConfig>,
}

/// What applying a sort by `key` does to a session.
pub open spec fn sort_step(before: App, after: App, key: SortKey) -> bool {
    &&& after.sort_config == Some(next_config(before.sort_config, key))
    &&& is_sorted_permutation(before.items.items@, after.items.items@, key, next_config(before.sort_config, key).ascending)
    &&& after.items.selected == before.items.selected
    &&& after.mode == before.mode
    &&& after.search_input == before.search_input
}

/// Sorting by the same key twice reverses the order of the first sort, and a
/// third time restores it, when different entries have different keys.
pub proof fn lemma_sort_twice_reverses(a0: App, a1: App, a2: App, a3: App, key: SortKey)
    requires
        keys_distinct(a0.items.items@, key),
        sort_step(a0, a1, key),
        sort_step(a1, a2, key),
        sort_step(a2, a3, key),
    ensures
        a2.items.items@ == a1.items.items@.reverse(),
        a3.items.items@ == a1.items.items@,
{
    lemma_resort_reverses(
        a0.items.items@,
        a1.items.items@,
        a2.items.items@,
        a3.items.items@,
        key,
        next_config(a0.sort_config, key).ascending,
    );
}

/// What a key does to a session, and what it asks of the caller.
pub open spec fn key_step(before: App, after: App, key: Key, effect: Effect) -> bool {
    match action_for(before.mode, key) {
        Action::Descend => after == before && match before.items.descend_path() {
            Some(p) => fetches(effect, Navigation::Descend, p),
            None => effect == Effect::Nothing,
        },
        Action::GoBack => after == before && fetches(effect, Navigation::GoBack, before.items.prev_path@),
        Action::Reset => after == before && fetches(effect, Navigation::Reset, before.items.root_path@),
        Action::Unselect => effect == Effect::Nothing && after == (App {
            items: StatefulList { selected: None, ..before.items },
            ..before
        }),
        Action::SelectNext => effect == Effect::Nothing && after == (App {
            items: StatefulList {
                selected: next_index(before.items.selected, before.items.matched_items().len()),
                ..before.items
            },
            ..before
        }),
        Action::SelectPrevious => effect == Effect::Nothing && after == (App {
            items: StatefulList {
                selected: previous_index(before.items.selected, before.items.matched_items().len()),
                ..before.items
            },
            ..before
        }),
        Action::CopyUri => after == before && match before.items.selection() {
            Some(e) => copies(effect, uri_of(before.items.bucket@, e.path@)),
            None => effect == Effect::Nothing,
        },
        Action::EnterFilterMode => effect == Effect::Nothing && after == (App { mode: AppMode::FilterMode, ..before }),
        Action::EnterSortMode => effect == Effect::Nothing && after == (App { mode: AppMode::SortMode, ..before }),
        Action::LeaveMode => effect == Effect::Nothing && after == (App { mode: AppMode::RegularMode, ..before }),
        Action::Quit => after == before && effect == Effect::Quit,
        Action::AppendChar(c) => {
            &&& effect == Effect::Nothing
            &&& after.search_input@ == before.search_input@.push(c)
            &&& after.items == before.items
            &&& after.mode == before.mode
            &&& after.sort_config == before.sort_config
        },
        Action::DeleteChar => {
            &&& effect == Effect::Nothing
            &&& after.search_input@ == if before.search_input@.len() == 0 {
                before.search_input@
            } else {
                before.search_input@.drop_last()
            }
            &&& after.items == before.items
            &&& after.mode == before.mode
            &&& after.sort_config == before.sort_config
        },
        Action::ApplyFilter => {
            &&& effect == Effect::Nothing
            &&& after.items.items@ == filtered(before.items.items@, before.search_input@)
            &&& after.items.selected == before.items.selected
            &&& after.items.bucket == before.items.bucket
            &&& after.items.root_path == before.items.root_path
            &&& after.items.current_path == before.items.current_path
            &&& after.items.prev_path == before.items.prev_path
            &&& after.mode == before.mode
            &&& after.search_input == before.search_input
            &&& after.sort_config == before.sort_config
        },
        Action::Sort(k) => {
            &&& effect == Effect::Nothing
            &&& sort_step(before, after, k)
            &&& after.items.bucket == before.items.bucket
            &&& after.items.root_path == before.items.root_path
            &&& after.items.current_path == before.items.current_path
            &&& after.items.prev_path == before.items.prev_path
        },
        Action::Ignore => after == before && effect == Effect::Nothing,
    }
}

impl App {
    /// Handles one key: applies what the key table says for the current
    /// mode and returns what the caller must do next. A change of path only
    /// asks for a listing; `complete` applies it.
    pub fn handle_key(&mut self, key: Key) -> (effect: Effect)
        ensures
            key_step(*old(self), *final(self), key, effect),
    {
        let action = route(self.mode, key);
        match action {
            Action::Descend => match self.items.descend_target() {
                Some(p) => Effect::Fetch(Navigation::Descend, p),
                None => Effect::Nothing,
            },
            Action::GoBack => Effect::Fetch(Navigation::GoBack, self.items.prev_path.clone()),
            Action::Reset => Effect::Fetch(Navigation::Reset, self.items.root_path.clone()),
            Action::Unselect => {
                self.items.unselect();
                Effect::Nothing
            },
            Action::SelectNext => {
                self.items.next();
                Effect::Nothing
            },
            Action::SelectPrevious => {
                self.items.previous();
                Effect::Nothing
            },
            Action::CopyUri => match self.items.copy() {
                Some(u) => Effect::Copy(u),
                None => Effect::Nothing,
            },
            Action::EnterFilterMode => {
                self.mode = AppMode::FilterMode;
                Effect::Nothing
            },
            Action::EnterSortMode => {
                self.mode = AppMode::SortMode;
                Effect::Nothing
            },
            Action::LeaveMode => {
                self.mode = AppMode::RegularMode;
                Effect::Nothing
            },
            Action::Quit => Effect::Quit,
            Action::AppendChar(c) => {
                self.append_to_search(c);
                Effect::Nothing
            },
            Action::DeleteChar => {
                self.delete_from_search();
                Effect::Nothing
            },
            Action::ApplyFilter => {
                self.filter_for_search();
                Effect::Nothing
            },
            Action::Sort(k) => {
                self.sort_items(k);
                Effect::Nothing
            },
            Action::Ignore => Effect::Nothing,
        }
    }

    /// Applies the listing that a `Fetch` effect asked for.
    pub fn complete(&mut self, nav: Navigation, listing: Result<Vec<Entry>, ListingError>)
        -> (r: Result<(), ListingError>)
        ensures
            nav == Navigation::Descend ==> descend_step(old(self).items, final(self).items, listing, r),
            nav == Navigation::GoBack ==> goback_step(old(self).items, final(self).items, listing, r),
            nav == Navigation::Reset ==> reset_step(old(self).items, final(self).items, listing, r),
            final(self).mode == old(self).mode,
            final(self).search_input == old(self).search_input,
            final(self).sort_config == old(self).sort_config,
    {
        match nav {
            Navigation::Descend => self.items.refresh(listing),
            Navigation::GoBack => self.items.goback(listing),
            Navigation::Reset => self.items.reset(listing),
        }
    }

    /// Opens a session at `path` (the root when absent) of `bucket`, from the
    /// result of listing that path.
    pub fn new(bucket: String, path: Option<String>, listing: Result<Vec<Entry>, ListingError>)
        -> (r: Result<App, ListingError>)
        ensures
            listing is Err ==> r == Err::<App, ListingError>(listing->Err_0),
            listing is Ok ==> (r matches Ok(a) && {
                let start = match path { Some(p) => p@, None => Seq::empty() };
                &&& a.items.items@ == listing->Ok_0@
                &&& a.items.bucket@ == bucket@
                &&& a.items.root_path@ == start
                &&& a.items.current_path@ == start
                &&& a.items.prev_path@ == crate::path::parent_of(start)
                &&& a.items.selected is None
                &&& a.mode == AppMode::RegularMode
                &&& a.search_input@ == Seq::<char>::empty()
                &&& a.sort_config is None
            }),
    {
        match StatefulList::from_path(bucket.as_str(), &path, listing) {
            Err(e) => Err(e),
            Ok(items) => Ok(App {
                items,
                mode: AppMode::RegularMode,
                search_input: String::new(),
                sort_config: None,
            }),
        }
    }

    /// Appends a character to the filter text.
    pub fn append_to_search(&mut self, c: char)
        ensures
            final(self).search_input@ == old(self).search_input@.push(c),
            final(self).items == old(self).items,
            final(self).mode == old(self).mode,
            final(self).sort_config == old(self).sort_config,
    {
        push_char(&mut self.search_input, c);
    }

    /// Removes the last character of the filter text, if there is one.
    pub fn delete_from_search(&mut self)
        ensures
            old(self).search_input@.len() == 0 ==> final(self).search_input@ == old(self).search_input@,
            old(self).search_input@.len() > 0 ==> final(self).search_input@ == old(self).search_input@.drop_last(),
            final(self).items == old(self).items,
            final(self).mode == old(self).mode,
            final(self).sort_config == old(self).sort_config,
    {
        pop_char(&mut self.search_input);
    }

    /// Marks each entry as matching when the filter text, ignoring case,
    /// occurs in its label. The selection is kept as it is.
    pub fn filter_for_search(&mut self)
        ensures
            final(self).items.items@ == filtered(old(self).items.items@, old(self).search_input@),
            old(self).search_input@.len() == 0 ==> forall|j: int|
                0 <= j < final(self).items.items@.len() ==> (#[trigger] final(self).items.items@[j]).is_matched,
            final(self).items.selected == old(self).items.selected,
            final(self).items.bucket == old(self).items.bucket,
            final(self).items.root_path == old(self).items.root_path,
            final(self).items.current_path == old(self).items.current_path,
            final(self).items.prev_path == old(self).items.prev_path,
            final(self).mode == old(self).mode,
            final(self).search_input == old(self).search_input,
            final(self).sort_config == old(self).sort_config,
    {
        let folded = to_lower(self.search_input.as_str());
        let n = self.items.items.len();
        let ghost before = self.items.items@;
        let ghost text = self.search_input@;
        let mut i: usize = 0;
        while i < n
            invariant
                n == before.len(),
                i <= n,
                folded@ == lower_of(text),
                text == self.search_input@,
                text.len() == 0 ==> folded@.len() == 0,
                self.items.items@.len() == n,
                forall|j: int| 0 <= j < i ==> self.items.items@[j] == with_match(
                    before[j], is_infix(lower_of(text), lower_of(before[j].label@)),
                ),
                forall|j: int| i <= j < n ==> self.items.items@[j] == before[j],
                text.len() == 0 ==> forall|j: int| 0 <= j < i ==> (#[trigger] self.items.items@[j]).is_matched,
                self.items.selected == old(self).items.selected,
                self.items.bucket == old(self).items.bucket,
                self.items.root_path == old(self).items.root_path,
                self.items.current_path == old(self).items.current_path,
                self.items.prev_path == old(self).items.prev_path,
                self.mode == old(self).mode,
                self.search_input == old(self).search_input,
                self.sort_config == old(self).sort_config,
            decreases n - i,
        {
            let label = to_lower(self.items.items[i].label.as_str());
            let m = contains_str(label.as_str(), folded.as_str());
            proof {
                if text.len() == 0 {
                    assert(folded@ =~= Seq::<char>::empty());
                    lemma_empty_is_infix(label@);
                }
            }
            self.items.items[i].is_matched = m;
            i = i + 1;
        }
        assert(self.items.items@ =~= filtered(before, text));
    }

    /// Sorts the listing by `key` (see `StatefulList::sort_items`).
    pub fn sort_items(&mut self, key: SortKey)
        ensures
            sort_step(*old(self), *final(self), key),
            final(self).items.bucket == old(self).items.bucket,
            final(self).items.root_path == old(self).items.root_path,
            final(self).items.current_path == old(self).items.current_path,
            final(self).items.prev_path == old(self).items.prev_path,
    {
        self.items.sort_items(key, &mut self.sort_config);
    }
}

} // verus!

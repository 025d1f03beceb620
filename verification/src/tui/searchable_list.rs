//! A list that is narrowed by typing.

use vstd::prelude::*;
use vstd::string::*;

use crate::text::{contains, has_substring, lower, occurs_at, str_eq, to_lower};
use crate::tui::list_picker::{row_above, row_below};

verus! {

/// What can be found by typing a part of it.
pub trait SearchableItem: Sized {
    /// The text that is searched.
    spec fn text(&self) -> Seq<char>;

    /// What the item is found again by.
    spec fn key(&self) -> Seq<char>;

    fn haystack(&self) -> (r: &str)
        ensures
            r@ == self.text(),
    ;

    fn identity(&self) -> (r: &str)
        ensures
            r@ == self.key(),
    ;
}

/// Whether the item is shown under the query, letters of either case being the same.
pub open spec fn is_match<T: SearchableItem>(item: T, query: Seq<char>) -> bool {
    contains(lower(item.text()), lower(query))
}

/// The places of the items that are shown under the query.
pub open spec fn shown_places<T: SearchableItem>(items: Seq<T>, query: Seq<char>) -> Seq<int>
    decreases items.len(),
{
    if items.len() == 0 {
        seq![]
    } else if is_match(items.last(), query) {
        shown_places(items.drop_last(), query).push(items.len() - 1)
    } else {
        shown_places(items.drop_last(), query)
    }
}

/// The row of the first shown item with that key.
pub open spec fn row_of<T: SearchableItem>(items: Seq<T>, shown: Seq<int>, key: Seq<char>) -> Option<
    int,
>
    decreases shown.len(),
{
    if shown.len() == 0 {
        None
    } else {
        match row_of(items, shown.drop_last(), key) {
            Some(i) => Some(i),
            None => if items[shown.last()].key() == key {
                Some(shown.len() - 1)
            } else {
                None
            },
        }
    }
}

/// Items, what was typed, and a cursor among the items that are shown under it.
#[derive(Debug)]
pub struct SearchableList<T: SearchableItem> {
    items: Vec<T>,
    query: String,
    shown: Vec<usize>,
    cursor: usize,
    page: usize,
}

/// `row` moved up by a page, at most to the first.
pub open spec fn page_above(row: int, page: int) -> int {
    if row >= page {
        row - page
    } else {
        0
    }
}

/// `row` moved down by a page, at most to the last.
pub open spec fn page_below(row: int, page: int, len: int) -> int {
    if len == 0 {
        0
    } else if row + page < len {
        row + page
    } else {
        len - 1
    }
}

/// The places of the items that are shown under the query.
fn find_shown<T: SearchableItem>(items: &Vec<T>, query: &str) -> (r: Vec<usize>)
    ensures
        r@.map_values(|i: usize| i as int) == shown_places(items@, query@),
        forall|k: int| 0 <= k < r@.len() ==> #[trigger] r@[k] < items@.len(),
{
    let small: String = to_lower(query);
    let mut out: Vec<usize> = Vec::new();
    let mut i: usize = 0;
    assert(items@.take(0) =~= seq![]);
    assert(out@.map_values(|i: usize| i as int) =~= seq![]);
    while i < items.len()
        invariant
            i <= items.len(),
            small@ == lower(query@),
            out@.map_values(|i: usize| i as int) == shown_places(items@.take(i as int), query@),
            forall|k: int| 0 <= k < out@.len() ==> #[trigger] out@[k] < items@.len(),
        decreases items.len() - i,
    {
        assert(items@.take(i as int + 1).drop_last() =~= items@.take(i as int));
        let text: String = to_lower(items[i].haystack());
        if has_substring(text.as_str(), small.as_str()) {
            assert(out@.push(i).map_values(|i: usize| i as int) =~= out@.map_values(
                |i: usize| i as int,
            ).push(i as int));
            out.push(i);
        }
        i = i + 1;
    }
    assert(items@.take(items@.len() as int) =~= items@);
    out
}

impl<T: SearchableItem> SearchableList<T> {
    /// The items.
    pub closed spec fn items(&self) -> Seq<T> {
        self.items@
    }

    /// What was typed.
    pub closed spec fn typed(&self) -> Seq<char> {
        self.query@
    }

    /// The row that the cursor stands on.
    pub closed spec fn row(&self) -> int {
        self.cursor as int
    }

    /// How many rows a page has.
    pub closed spec fn page_rows(&self) -> int {
        self.page as int
    }

    /// The places of the items that are shown.
    pub open spec fn shown(&self) -> Seq<int> {
        shown_places(self.items(), self.typed())
    }

    /// What is shown is what the query finds, and the cursor stands on a row wherever there is
    /// one.
    #[verifier::type_invariant]
    spec fn is_current(&self) -> bool {
        &&& self.shown@.map_values(|i: usize| i as int) == shown_places(self.items@, self.query@)
        &&& forall|k: int| 0 <= k < self.shown@.len() ==> #[trigger] self.shown@[k]
            < self.items@.len()
        &&& self.cursor < self.shown@.len() || (self.shown@.len() == 0 && self.cursor == 0)
    }

    /// The item under the cursor.
    pub open spec fn current(&self) -> Option<T> {
        if self.shown().len() == 0 {
            None
        } else {
            Some(self.items()[self.shown()[self.row()]])
        }
    }

    /// An empty list with nothing typed.
    pub fn new(page: usize) -> (r: SearchableList<T>)
        ensures
            r.items() == Seq::<T>::empty(),
            r.typed() == Seq::<char>::empty(),
            r.row() == 0,
            r.page_rows() == page,
    {
        let shown: Vec<usize> = Vec::new();
        assert(shown@.map_values(|i: usize| i as int) =~= seq![]);
        SearchableList { items: Vec::new(), query: String::new(), shown, cursor: 0, page }
    }

    /// The list with other items, the query kept, and the cursor on the first row.
    pub fn replace_items(self, items: Vec<T>) -> (r: SearchableList<T>)
        ensures
            r.items() == items@,
            r.typed() == self.typed(),
            r.row() == 0,
            r.page_rows() == self.page_rows(),
    {
        let shown: Vec<usize> = find_shown(&items, self.query.as_str());
        SearchableList { items, query: self.query, shown, cursor: 0, page: self.page }
    }

    /// The list with another query, and the cursor on the first row.
    pub fn set_query(self, query: String) -> (r: SearchableList<T>)
        ensures
            r.items() == self.items(),
            r.typed() == query@,
            r.row() == 0,
            r.page_rows() == self.page_rows(),
    {
        let shown: Vec<usize> = find_shown(&self.items, query.as_str());
        SearchableList { items: self.items, query, shown, cursor: 0, page: self.page }
    }

    /// The list with `c` typed.
    pub fn push_char(self, c: char) -> (r: SearchableList<T>)
        ensures
            r.items() == self.items(),
            r.typed() == self.typed().push(c),
            r.row() == 0,
            r.page_rows() == self.page_rows(),
    {
        let mut query: String = self.query.as_str().to_owned();
        query.push(c);
        self.set_query(query)
    }

    /// The list with the last character taken back.
    pub fn pop_char(self) -> (r: SearchableList<T>)
        ensures
            r.items() == self.items(),
            r.typed() == if self.typed().len() == 0 {
                self.typed()
            } else {
                self.typed().drop_last()
            },
            r.row() == 0,
            r.page_rows() == self.page_rows(),
    {
        let n: usize = self.query.as_str().unicode_len();
        let kept: usize = if n == 0 {
            0
        } else {
            n - 1
        };
        let query: String = self.query.as_str().substring_char(0, kept).to_owned();
        assert(query@ =~= if self.typed().len() == 0 {
            self.typed()
        } else {
            self.typed().drop_last()
        });
        self.set_query(query)
    }

    /// What was typed.
    pub fn query(&self) -> (r: &str)
        ensures
            r@ == self.typed(),
    {
        self.query.as_str()
    }

    /// Whether anything was typed.
    pub fn is_filtered(&self) -> (r: bool)
        ensures
            r == (self.typed().len() > 0),
    {
        self.query.as_str().unicode_len() > 0
    }

    /// How many items there are.
    pub fn len(&self) -> (r: usize)
        ensures
            r == self.items().len(),
    {
        self.items.len()
    }

    /// How many items are shown.
    pub fn visible_len(&self) -> (r: usize)
        ensures
            r == self.shown().len(),
    {
        proof {
            use_type_invariant(self);
            assert(self.shown@.map_values(|i: usize| i as int).len() == self.shown@.len());
        }
        self.shown.len()
    }

    /// The row that the cursor stands on.
    pub fn cursor_index(&self) -> (r: usize)
        ensures
            r == self.row(),
    {
        self.cursor
    }

    /// The item in that row.
    pub fn visible_item(&self, row: usize) -> (r: Option<&T>)
        ensures
            match r {
                Some(item) => row < self.shown().len() && *item
                    == self.items()[self.shown()[row as int]],
                None => row >= self.shown().len(),
            },
    {
        proof {
            use_type_invariant(self);
            assert(self.shown@.map_values(|i: usize| i as int).len() == self.shown@.len());
        }
        if row < self.shown.len() {
            assert(self.shown()[row as int] == self.shown@[row as int]);
            Some(&self.items[self.shown[row]])
        } else {
            None
        }
    }

    /// The item under the cursor.
    pub fn selected(&self) -> (r: Option<&T>)
        ensures
            match r {
                Some(item) => self.current() == Some(*item),
                None => self.current() is None,
            },
            self.shown().len() > 0 ==> 0 <= self.row() < self.shown().len(),
    {
        proof {
            use_type_invariant(self);
            assert(self.shown@.map_values(|i: usize| i as int).len() == self.shown@.len());
        }
        self.visible_item(self.cursor)
    }

    /// Moves the cursor up; from the first row to the last.
    pub fn select_prev(&mut self)
        ensures
            final(self).items() == old(self).items(),
            final(self).typed() == old(self).typed(),
            final(self).page_rows() == old(self).page_rows(),
            final(self).row() == row_above(old(self).row(), old(self).shown().len() as int),
    {
        proof {
            use_type_invariant(&*self);
            assert(self.shown@.map_values(|i: usize| i as int).len() == self.shown@.len());
        }
        let n: usize = self.shown.len();
        if n > 0 {
            if self.cursor == 0 {
                self.cursor = n - 1;
            } else {
                self.cursor = self.cursor - 1;
            }
        }
    }

    /// Moves the cursor down; from the last row to the first.
    pub fn select_next(&mut self)
        ensures
            final(self).items() == old(self).items(),
            final(self).typed() == old(self).typed(),
            final(self).page_rows() == old(self).page_rows(),
            final(self).row() == row_below(old(self).row(), old(self).shown().len() as int),
    {
        proof {
            use_type_invariant(&*self);
            assert(self.shown@.map_values(|i: usize| i as int).len() == self.shown@.len());
        }
        let n: usize = self.shown.len();
        if self.cursor + 1 < n {
            self.cursor = self.cursor + 1;
        } else {
            self.cursor = 0;
        }
    }

    /// Moves the cursor up by a page, at most to the first row.
    pub fn page_up(&mut self)
        ensures
            final(self).items() == old(self).items(),
            final(self).typed() == old(self).typed(),
            final(self).page_rows() == old(self).page_rows(),
            final(self).row() == page_above(old(self).row(), old(self).page_rows()),
    {
        proof {
            use_type_invariant(&*self);
        }
        if self.cursor >= self.page {
            self.cursor = self.cursor - self.page;
        } else {
            self.cursor = 0;
        }
    }

    /// Moves the cursor down by a page, at most to the last row.
    pub fn page_down(&mut self)
        ensures
            final(self).items() == old(self).items(),
            final(self).typed() == old(self).typed(),
            final(self).page_rows() == old(self).page_rows(),
            final(self).row() == page_below(
                old(self).row(),
                old(self).page_rows(),
                old(self).shown().len() as int,
            ),
    {
        proof {
            use_type_invariant(&*self);
            assert(self.shown@.map_values(|i: usize| i as int).len() == self.shown@.len());
        }
        let n: usize = self.shown.len();
        if n > 0 {
            if self.page < n - self.cursor {
                self.cursor = self.cursor + self.page;
            } else {
                self.cursor = n - 1;
            }
        }
    }

    /// Puts the cursor on the first shown item with that key; leaves it where there is none.
    pub fn cursor_to(&mut self, key: &str)
        ensures
            final(self).items() == old(self).items(),
            final(self).typed() == old(self).typed(),
            final(self).page_rows() == old(self).page_rows(),
            final(self).row() == match row_of(old(self).items(), old(self).shown(), key@) {
                Some(i) => i,
                None => old(self).row(),
            },
    {
        proof {
            use_type_invariant(&*self);
        }
        let ghost all = self.shown();
        let ghost items = self.items();
        assert(self.shown@.map_values(|i: usize| i as int).len() == self.shown@.len());
        let n: usize = self.shown.len();
        let mut i: usize = 0;
        assert(all.take(0) =~= seq![]);
        while i < n
            invariant
                i <= n,
                *self == *old(self),
                n == self.shown@.len(),
                self.shown@.map_values(|i: usize| i as int) == all,
                self.items@ == items,
                n == all.len(),
                forall|k: int| 0 <= k < self.shown@.len() ==> #[trigger] self.shown@[k]
                    < self.items@.len(),
                row_of(items, all.take(i as int), key@) is None,
            decreases n - i,
        {
            assert(all.take(i as int + 1).drop_last() =~= all.take(i as int));
            assert(all[i as int] == self.shown@[i as int]);
            if str_eq(self.items[self.shown[i]].identity(), key) {
                proof {
                    lemma_row_of(items, all, key@, i as int + 1);
                    use_type_invariant(&*self);
                }
                self.cursor = i;
                return;
            }
            i = i + 1;
        }
        assert(all.take(n as int) =~= all);
    }
}

proof fn lemma_row_of<T: SearchableItem>(items: Seq<T>, shown: Seq<int>, key: Seq<char>, n: int)
    requires
        0 <= n <= shown.len(),
        row_of(items, shown.take(n), key) is Some,
    ensures
        row_of(items, shown, key) == row_of(items, shown.take(n), key),
    decreases shown.len(),
{
    if n == shown.len() {
        assert(shown.take(n) =~= shown);
    } else {
        assert(shown.drop_last().take(n) =~= shown.take(n));
        lemma_row_of(items, shown.drop_last(), key, n);
    }
}

/// Every shown place is a place, and the item there matches.
pub proof fn law_shown_items_match<T: SearchableItem>(items: Seq<T>, query: Seq<char>)
    ensures
        forall|k: int|
            0 <= k < shown_places(items, query).len() ==> 0 <= #[trigger] shown_places(
                items,
                query,
            )[k] < items.len() && is_match(items[shown_places(items, query)[k]], query),
    decreases items.len(),
{
    if items.len() > 0 {
        let front = items.drop_last();
        law_shown_items_match(front, query);
        let all = shown_places(items, query);
        assert forall|k: int| 0 <= k < all.len() implies 0 <= #[trigger] all[k] < items.len()
            && is_match(items[all[k]], query) by {
            if k < shown_places(front, query).len() {
                assert(all[k] == shown_places(front, query)[k]);
                assert(front[all[k]] == items[all[k]]);
            }
        }
    }
}

/// The items that are shown are those whose text holds the query in any case, all of them, in
/// their order; with no query, all items are shown.
pub proof fn law_matching_items_are_shown_in_order<T: SearchableItem>(
    items: Seq<T>,
    query: Seq<char>,
)
    ensures
        forall|p: int|
            #[trigger] shown_places(items, query).contains(p) <==> 0 <= p < items.len() && contains(
                lower(items[p].text()),
                lower(query),
            ),
        forall|a: int, b: int|
            0 <= a < b < shown_places(items, query).len() ==> #[trigger] shown_places(
                items,
                query,
            )[a] < #[trigger] shown_places(items, query)[b],
        query.len() == 0 ==> shown_places(items, query).len() == items.len(),
    decreases items.len(),
{
    if items.len() > 0 {
        let t = items.drop_last();
        let n = t.len() as int;
        law_matching_items_are_shown_in_order(t, query);
        law_shown_items_match(items, query);
        law_shown_items_match(t, query);
        let before = shown_places(t, query);
        let all = shown_places(items, query);
        assert(forall|p: int| 0 <= p < n ==> #[trigger] items[p] == t[p]);
        assert forall|p: int| #[trigger] all.contains(p) <==> 0 <= p < items.len() && contains(
            lower(items[p].text()),
            lower(query),
        ) by {
            if 0 <= p < n && contains(lower(items[p].text()), lower(query)) {
                assert(before.contains(p));
                let k = choose|k: int| 0 <= k < before.len() && before[k] == p;
                assert(all[k] == p);
            }
            if p == n && is_match(items.last(), query) {
                assert(all[before.len() as int] == p);
            }
        }
        if query.len() == 0 {
            let s = lower(items.last().text());
            assert(s.subrange(0, 0) =~= lower(query));
            assert(occurs_at(s, lower(query), 0));
        }
    }
}

/// The row that is found by a key is the first that is shown with it; there is none only where no
/// item with the key is shown.
pub proof fn law_row_is_found_by_its_key<T: SearchableItem>(
    items: Seq<T>,
    shown: Seq<int>,
    key: Seq<char>,
)
    ensures
        row_of(items, shown, key) is None ==> forall|k: int|
            0 <= k < shown.len() ==> items[#[trigger] shown[k]].key() != key,
        row_of(items, shown, key) matches Some(r) ==> {
            &&& 0 <= r < shown.len()
            &&& items[shown[r]].key() == key
            &&& forall|k: int| 0 <= k < r ==> items[#[trigger] shown[k]].key() != key
        },
    decreases shown.len(),
{
    if shown.len() > 0 {
        let t = shown.drop_last();
        law_row_is_found_by_its_key(items, t, key);
        assert(forall|k: int| 0 <= k < t.len() ==> #[trigger] shown[k] == t[k]);
        assert(shown[shown.len() - 1] == shown.last());
    }
}

/// A page up or down goes as many rows as a page has, and stops at the first and the last row.
pub proof fn law_pages_stop_at_the_ends(row: int, page: int, len: int)
    requires
        0 <= row < len,
        0 <= page,
    ensures
        0 <= page_above(row, page) <= row <= page_below(row, page, len) < len,
        row - page_above(row, page) == page || (row - page_above(row, page) < page && page_above(
            row,
            page,
        ) == 0),
        page_below(row, page, len) - row == page || (page_below(row, page, len) - row < page
            && page_below(row, page, len) == len - 1),
{
}

} // verus!

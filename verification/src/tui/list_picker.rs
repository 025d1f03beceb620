//! A list with a cursor that goes round.

use vstd::prelude::*;

verus! {

/// What a list can show and pick.
pub trait PickerItem: Sized {
    /// The key that jumps to the item.
    spec fn hint(&self) -> Option<char>;

    /// Whether the item is the one in use.
    spec fn active(&self) -> bool;

    fn key_hint(&self) -> (r: Option<char>)
        ensures
            r == self.hint(),
    ;

    fn is_active(&self) -> (r: bool)
        ensures
            r == self.active(),
    ;
}

/// Items with a cursor. The cursor stands on an item wherever there is one.
#[derive(Debug)]
pub struct ListPicker<T> {
    items: Vec<T>,
    cursor: usize,
}

/// The first of the items that is in use.
pub open spec fn first_active<T: PickerItem>(items: Seq<T>) -> Option<int>
    decreases items.len(),
{
    if items.len() == 0 {
        None
    } else {
        match first_active(items.drop_last()) {
            Some(i) => Some(i),
            None => if items.last().active() {
                Some(items.len() - 1)
            } else {
                None
            },
        }
    }
}

/// The first of the items that `c` jumps to.
pub open spec fn first_hinted<T: PickerItem>(items: Seq<T>, c: char) -> Option<int>
    decreases items.len(),
{
    if items.len() == 0 {
        None
    } else {
        match first_hinted(items.drop_last(), c) {
            Some(i) => Some(i),
            None => if items.last().hint() == Some(c) {
                Some(items.len() - 1)
            } else {
                None
            },
        }
    }
}

/// The row above, or the last one from the first.
pub open spec fn row_above(cursor: int, len: int) -> int {
    if len == 0 {
        0
    } else if cursor == 0 {
        len - 1
    } else {
        cursor - 1
    }
}

/// The row below, or the first one from the last.
pub open spec fn row_below(cursor: int, len: int) -> int {
    if len == 0 || cursor + 1 >= len {
        0
    } else {
        cursor + 1
    }
}

impl<T> ListPicker<T> {
    /// The items.
    pub closed spec fn items(&self) -> Seq<T> {
        self.items@
    }

    /// The row that the cursor stands on.
    pub closed spec fn row(&self) -> int {
        self.cursor as int
    }

    /// The cursor stands on an item wherever there is one.
    #[verifier::type_invariant]
    spec fn on_an_item(&self) -> bool {
        self.cursor < self.items@.len() || (self.items@.len() == 0 && self.cursor == 0)
    }

    /// The item under the cursor.
    pub open spec fn current(&self) -> Option<T> {
        if self.items().len() == 0 {
            None
        } else {
            Some(self.items()[self.row()])
        }
    }

    /// A list with the cursor on its first item.
    pub fn new(items: Vec<T>) -> (r: ListPicker<T>)
        ensures
            r.items() == items@,
            r.row() == 0,
    {
        ListPicker { items, cursor: 0 }
    }

    /// The item under the cursor.
    pub fn selected(&self) -> (r: Option<&T>)
        ensures
            match r {
                Some(item) => self.current() == Some(*item),
                None => self.current() is None,
            },
            self.items().len() > 0 ==> 0 <= self.row() < self.items().len(),
    {
        proof {
            use_type_invariant(self);
        }
        if self.items.len() == 0 {
            None
        } else {
            Some(&self.items[self.cursor])
        }
    }

    /// The row that the cursor stands on.
    pub fn selected_index(&self) -> (r: usize)
        ensures
            r == self.row(),
    {
        self.cursor
    }

    /// How many items there are.
    pub fn len(&self) -> (r: usize)
        ensures
            r == self.items().len(),
    {
        self.items.len()
    }

    /// The item in that row.
    pub fn item(&self, i: usize) -> (r: Option<&T>)
        ensures
            match r {
                Some(item) => i < self.items().len() && *item == self.items()[i as int],
                None => i >= self.items().len(),
            },
    {
        if i < self.items.len() {
            Some(&self.items[i])
        } else {
            None
        }
    }

    /// Moves the cursor up; from the first item to the last.
    pub fn select_prev(&mut self)
        ensures
            final(self).items() == old(self).items(),
            final(self).row() == row_above(old(self).row(), old(self).items().len() as int),
    {
        proof {
            use_type_invariant(&*self);
        }
        let n: usize = self.items.len();
        if n > 0 {
            if self.cursor == 0 {
                self.cursor = n - 1;
            } else {
                self.cursor = self.cursor - 1;
            }
        }
    }

    /// Moves the cursor down; from the last item to the first.
    pub fn select_next(&mut self)
        ensures
            final(self).items() == old(self).items(),
            final(self).row() == row_below(old(self).row(), old(self).items().len() as int),
    {
        proof {
            use_type_invariant(&*self);
        }
        let n: usize = self.items.len();
        if self.cursor + 1 < n {
            self.cursor = self.cursor + 1;
        } else {
            self.cursor = 0;
        }
    }
}

impl<T: PickerItem> ListPicker<T> {
    /// Puts the cursor on the first item that is in use; leaves it where none is.
    pub fn select_active(&mut self)
        ensures
            final(self).items() == old(self).items(),
            final(self).row() == match first_active(old(self).items()) {
                Some(i) => i,
                None => old(self).row(),
            },
    {
        proof {
            use_type_invariant(&*self);
        }
        let n: usize = self.items.len();
        let ghost all = self.items@;
        let mut i: usize = 0;
        assert(all.take(0) =~= seq![]);
        while i < n
            invariant
                i <= n,
                *self == *old(self),
                self.items@ == all,
                n == all.len(),
                first_active(all.take(i as int)) is None,
            decreases n - i,
        {
            assert(all.take(i as int + 1).drop_last() =~= all.take(i as int));
            if self.items[i].is_active() {
                proof {
                    lemma_first_active(all, i as int + 1);
                }
                self.cursor = i;
                return;
            }
            i = i + 1;
        }
        assert(all.take(n as int) =~= all);
    }

    /// Puts the cursor on the first item that `c` jumps to, and says whether there is one.
    pub fn select_by_hint(&mut self, c: char) -> (r: bool)
        ensures
            final(self).items() == old(self).items(),
            r == (first_hinted(old(self).items(), c) is Some),
            final(self).row() == match first_hinted(old(self).items(), c) {
                Some(i) => i,
                None => old(self).row(),
            },
    {
        proof {
            use_type_invariant(&*self);
        }
        let n: usize = self.items.len();
        let ghost all = self.items@;
        let mut i: usize = 0;
        assert(all.take(0) =~= seq![]);
        while i < n
            invariant
                i <= n,
                *self == *old(self),
                self.items@ == all,
                n == all.len(),
                first_hinted(all.take(i as int), c) is None,
            decreases n - i,
        {
            assert(all.take(i as int + 1).drop_last() =~= all.take(i as int));
            let here: bool = match self.items[i].key_hint() {
                Some(h) => h == c,
                None => false,
            };
            if here {
                proof {
                    lemma_first_hinted(all, c, i as int + 1);
                }
                self.cursor = i;
                return true;
            }
            i = i + 1;
        }
        assert(all.take(n as int) =~= all);
        false
    }
}

proof fn lemma_first_active<T: PickerItem>(items: Seq<T>, n: int)
    requires
        0 <= n <= items.len(),
        first_active(items.take(n)) is Some,
    ensures
        first_active(items) == first_active(items.take(n)),
    decreases items.len(),
{
    if n == items.len() {
        assert(items.take(n) =~= items);
    } else {
        assert(items.drop_last().take(n) =~= items.take(n));
        lemma_first_active(items.drop_last(), n);
    }
}

proof fn lemma_first_hinted<T: PickerItem>(items: Seq<T>, c: char, n: int)
    requires
        0 <= n <= items.len(),
        first_hinted(items.take(n), c) is Some,
    ensures
        first_hinted(items, c) == first_hinted(items.take(n), c),
    decreases items.len(),
{
    if n == items.len() {
        assert(items.take(n) =~= items);
    } else {
        assert(items.drop_last().take(n) =~= items.take(n));
        lemma_first_hinted(items.drop_last(), c, n);
    }
}

/// Going down and up again, or up and down again, comes back.
pub proof fn law_rows_go_round(row: int, len: int)
    requires
        0 <= row < len,
    ensures
        0 <= row_below(row, len) < len,
        0 <= row_above(row, len) < len,
        row_above(row_below(row, len), len) == row,
        row_below(row_above(row, len), len) == row,
{
}

/// The key `'1'` to `'9'` for the first nine rows; none for the others.
pub open spec fn digit_hint(i: int) -> Option<char> {
    if 0 <= i < 9 {
        Some((49 + i) as char)
    } else {
        None
    }
}

/// The key `'1'` to `'9'` for the first nine rows; none for the others.
pub fn numeric_hint(i: usize) -> (r: Option<char>)
    ensures
        r == digit_hint(i as int),
{
    if i < 9 {
        Some((49u8 + i as u8) as char)
    } else {
        None
    }
}

/// A row up or down is the next one, except at the ends, where it is the row at the other end.
pub proof fn law_rows_follow_one_another(row: int, len: int)
    requires
        0 <= row < len,
    ensures
        row + 1 < len ==> row_below(row, len) == row + 1 && row_above(row + 1, len) == row,
        row_below(len - 1, len) == 0,
        row_above(0, len) == len - 1,
{
}

/// The item in use that is found is the first, and there is none only where none is in use.
pub proof fn law_first_item_in_use_is_found<T: PickerItem>(items: Seq<T>)
    ensures
        first_active(items) is None ==> forall|k: int|
            0 <= k < items.len() ==> !(#[trigger] items[k]).active(),
        first_active(items) matches Some(i) ==> {
            &&& 0 <= i < items.len()
            &&& items[i].active()
            &&& forall|k: int| 0 <= k < i ==> !(#[trigger] items[k]).active()
        },
    decreases items.len(),
{
    if items.len() > 0 {
        let t = items.drop_last();
        law_first_item_in_use_is_found(t);
        assert(forall|k: int| 0 <= k < t.len() ==> #[trigger] items[k] == t[k]);
        assert(items[items.len() - 1] == items.last());
    }
}

/// The item that a key finds is the first with that key, and there is none only where none has it.
pub proof fn law_first_item_with_the_key_is_found<T: PickerItem>(items: Seq<T>, c: char)
    ensures
        first_hinted(items, c) is None ==> forall|k: int|
            0 <= k < items.len() ==> (#[trigger] items[k]).hint() != Some(c),
        first_hinted(items, c) matches Some(i) ==> {
            &&& 0 <= i < items.len()
            &&& items[i].hint() == Some(c)
            &&& forall|k: int| 0 <= k < i ==> (#[trigger] items[k]).hint() != Some(c)
        },
    decreases items.len(),
{
    if items.len() > 0 {
        let t = items.drop_last();
        law_first_item_with_the_key_is_found(t, c);
        assert(forall|k: int| 0 <= k < t.len() ==> #[trigger] items[k] == t[k]);
        assert(items[items.len() - 1] == items.last());
    }
}

/// The first nine items have the digits from 1 on as their keys, and the others none.
pub proof fn law_first_nine_have_a_digit(i: int)
    requires
        0 <= i,
    ensures
        i < 9 ==> digit_hint(i) is Some && digit_hint(i)->0 as int - '0' as int == i + 1,
        i >= 9 ==> digit_hint(i) is None,
{
}

/// In a list with nothing in it there is only the first row to go to.
pub proof fn law_empty_list_has_one_row_to_go_to(row: int)
    ensures
        row_above(row, 0) == 0,
        row_below(row, 0) == 0,
{
}

} // verus!

//! Generic handling of table rows: copying, selecting and reordering.

use vstd::prelude::*;

use super::{ConversationRow, MemberRow, StoredMessage};
use crate::models::{Account, Attachment, Contact, Thread};

verus! {

/// A row that can be copied with its contents.
pub trait CopyRow: View + Sized {
    fn copy_row(&self) -> (r: Self)
        ensures
            r@ == self@,
    ;
}

impl CopyRow for Account {
    fn copy_row(&self) -> (r: Self) {
        self.copy()
    }
}

impl CopyRow for Contact {
    fn copy_row(&self) -> (r: Self) {
        self.copy()
    }
}

impl CopyRow for ConversationRow {
    fn copy_row(&self) -> (r: Self) {
        self.copy()
    }
}

impl CopyRow for Thread {
    fn copy_row(&self) -> (r: Self) {
        self.copy()
    }
}

impl CopyRow for StoredMessage {
    fn copy_row(&self) -> (r: Self) {
        self.copy()
    }
}

impl View for MemberRow {
    type V = MemberRow;

    open spec fn view(&self) -> MemberRow {
        *self
    }
}

impl CopyRow for MemberRow {
    fn copy_row(&self) -> (r: Self) {
        *self
    }
}

impl CopyRow for Attachment {
    fn copy_row(&self) -> (r: Self) {
        self.copy()
    }
}

/// The views of a sequence of rows.
pub open spec fn row_views<T: View>(v: Seq<T>) -> Seq<T::V> {
    v.map_values(|t: T| t@)
}

/// A test that selects rows.
pub trait RowFilter<T: View> {
    /// Whether the row with view `t` is selected.
    spec fn accepts(&self, t: T::V) -> bool;

    fn test(&self, t: &T) -> (r: bool)
        ensures
            r == self.accepts(t@),
    ;
}

/// The rows selected by `f`, as a predicate on views.
pub open spec fn selected<T: View, P: RowFilter<T>>(f: &P) -> spec_fn(T::V) -> bool {
    |t: T::V| f.accepts(t)
}

/// Copies of the rows that `f` selects, in table order.
pub fn filter_rows<T: CopyRow, P: RowFilter<T>>(rows: &Vec<T>, f: &P) -> (r: Vec<T>)
    ensures
        row_views(r@) == row_views(rows@).filter(selected::<T, P>(f)),
{
    let ghost s = row_views(rows@);
    let ghost p = selected::<T, P>(f);
    let mut r: Vec<T> = Vec::new();
    let mut i: usize = 0;
    while i < rows.len()
        invariant
            i <= rows.len(),
            s == row_views(rows@),
            p == selected::<T, P>(f),
            row_views(r@) == s.take(i as int).filter(p),
        decreases rows.len() - i,
    {
        proof {
            assert(s.take(i + 1) =~= s.take(i as int).push(s[i as int]));
            s.take(i as int).lemma_filter_push(s[i as int], p);
        }
        if f.test(&rows[i]) {
            let ghost before = row_views(r@);
            r.push(rows[i].copy_row());
            assert(row_views(r@) =~= before.push(s[i as int]));
        }
        i = i + 1;
    }
    assert(s.take(rows.len() as int) =~= s);
    r
}

/// Copies of the rows at the given positions, in the order given.
pub fn select_rows<T: CopyRow>(rows: &Vec<T>, pos: &Vec<usize>) -> (r: Vec<T>)
    requires
        forall|i: int| 0 <= i < pos@.len() ==> (#[trigger] pos@[i] as int) < rows@.len(),
    ensures
        r@.len() == pos@.len(),
        forall|i: int| 0 <= i < pos@.len() ==> #[trigger] r@[i]@ == rows@[pos@[i] as int]@,
{
    let mut r: Vec<T> = Vec::new();
    let mut i: usize = 0;
    while i < pos.len()
        invariant
            i <= pos.len(),
            forall|k: int| 0 <= k < pos@.len() ==> (#[trigger] pos@[k] as int) < rows@.len(),
            r@.len() == i,
            forall|k: int| 0 <= k < i ==> #[trigger] r@[k]@ == rows@[pos@[k] as int]@,
        decreases pos.len() - i,
    {
        r.push(rows[pos[i]].copy_row());
        i = i + 1;
    }
    r
}

/// Copies of all rows.
pub fn copy_rows<T: CopyRow>(rows: &Vec<T>) -> (r: Vec<T>)
    ensures
        row_views(r@) == row_views(rows@),
{
    let mut r: Vec<T> = Vec::new();
    let mut i: usize = 0;
    while i < rows.len()
        invariant
            i <= rows.len(),
            row_views(r@) == row_views(rows@).take(i as int),
        decreases rows.len() - i,
    {
        let ghost before = row_views(r@);
        r.push(rows[i].copy_row());
        assert(row_views(r@) =~= before.push(rows@[i as int]@));
        assert(row_views(rows@).take(i + 1) =~= row_views(rows@).take(i as int).push(
            rows@[i as int]@,
        ));
        i = i + 1;
    }
    assert(row_views(rows@).take(rows.len() as int) =~= row_views(rows@));
    r
}

/// How many rows a `LIMIT` lets through: a negative limit lets all through.
pub open spec fn limit_len(limit: i64, n: int) -> int {
    if limit < 0 || limit >= n {
        n
    } else {
        limit as int
    }
}

/// The first `k` positions.
pub fn take_positions(pos: Vec<usize>, k: usize) -> (r: Vec<usize>)
    requires
        k <= pos@.len(),
    ensures
        r@ == pos@.take(k as int),
{
    let mut r: Vec<usize> = Vec::new();
    let mut i: usize = 0;
    while i < k
        invariant
            i <= k <= pos@.len(),
            r@ == pos@.take(i as int),
        decreases k - i,
    {
        r.push(pos[i]);
        assert(pos@.take(i + 1) == pos@.take(i as int).push(pos@[i as int]));
        i = i + 1;
    }
    r
}

/// How many of `n` rows a `LIMIT` of `limit` lets through.
pub fn limit_count(limit: i64, n: usize) -> (r: usize)
    ensures
        r as int == limit_len(limit, n as int),
{
    if limit < 0 || limit as i128 >= n as i128 {
        n
    } else {
        limit as usize
    }
}

} // verus!

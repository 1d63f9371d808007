//! An in-memory reminder store keyed by owning user: insertion, listing
//! in ascending target-time order, and deletion by 1-indexed position in
//! that order. Ties on the target time keep insertion order (new rows go
//! after existing equal ones), so listing order is stable.

use vstd::prelude::*;
use crate::date::DateTime;

verus! {

/// One stored reminder row.
pub struct Reminder {
    pub channel_id: i64,
    pub body: String,
    pub created: DateTime,
    pub target: DateTime,
}

/// The mathematical image of one reminder row.
pub struct ReminderView {
    pub channel_id: int,
    pub body: Seq<char>,
    pub created: DateTime,
    pub target: DateTime,
}

impl View for Reminder {
    type V = ReminderView;

    open spec fn view(&self) -> ReminderView {
        ReminderView {
            channel_id: self.channel_id as int,
            body: self.body@,
            created: self.created,
            target: self.target,
        }
    }
}

/// All rows of one owner, in stored (target-sorted) order.
pub struct OwnerEntry {
    pub owner: i64,
    pub items: Vec<Reminder>,
}

pub open spec fn items_view(items: Seq<Reminder>) -> Seq<ReminderView> {
    items.map_values(|r: Reminder| r@)
}

/// Ascending by target timestamp.
pub open spec fn sorted_by_target(s: Seq<ReminderView>) -> bool {
    forall|i: int, j: int|
        0 <= i <= j < s.len() ==> #[trigger] s[i].target.ts() <= #[trigger] s[j].target.ts()
}

pub open spec fn dates_wf(s: Seq<ReminderView>) -> bool {
    forall|i: int| 0 <= i < s.len() ==> (#[trigger] s[i]).target.wf() && s[i].created.wf()
}

pub open spec fn entry_wf(e: OwnerEntry) -> bool {
    sorted_by_target(items_view(e.items@)) && dates_wf(items_view(e.items@))
}

/// No two entries belong to the same owner.
pub open spec fn owners_distinct(s: Seq<OwnerEntry>) -> bool {
    forall|i: int, j: int|
        0 <= i < j < s.len() ==> (#[trigger] s[i]).owner != (#[trigger] s[j]).owner
}

pub open spec fn has_owner(s: Seq<OwnerEntry>, owner: int) -> bool {
    exists|i: int| 0 <= i < s.len() && (#[trigger] s[i]).owner == owner
}

pub open spec fn owner_index(s: Seq<OwnerEntry>, owner: int) -> int {
    choose|i: int| 0 <= i < s.len() && (#[trigger] s[i]).owner == owner
}

/// The rows of `owner` among `s`, in stored order.
pub open spec fn rows_of(s: Seq<OwnerEntry>, owner: int) -> Seq<ReminderView> {
    if has_owner(s, owner) {
        items_view(s[owner_index(s, owner)].items@)
    } else {
        Seq::<ReminderView>::empty()
    }
}

/// Replacing an entry by one for the same owner leaves every other
/// owner's rows untouched.
pub proof fn lemma_entries_update(s: Seq<OwnerEntry>, idx: int, e2: OwnerEntry)
    requires
        owners_distinct(s),
        0 <= idx < s.len(),
        e2.owner == s[idx].owner,
    ensures
        owners_distinct(s.update(idx, e2)),
        has_owner(s.update(idx, e2), s[idx].owner as int),
        owner_index(s.update(idx, e2), s[idx].owner as int) == idx,
        forall|o: int|
            o != s[idx].owner as int ==> #[trigger] rows_of(s.update(idx, e2), o) == rows_of(s, o),
{
    let s2 = s.update(idx, e2);
    let owner = s[idx].owner as int;
    assert(s2[idx].owner == owner);
    let w = owner_index(s2, owner);
    assert(0 <= w < s2.len() && s2[w].owner == owner);
    if w != idx {
        assert(s2[w] == s[w]);
        if w < idx {
            assert(s[w].owner != s[idx].owner);
        } else {
            assert(s[idx].owner != s[w].owner);
        }
    }
    assert forall|o: int| o != owner implies #[trigger] rows_of(s2, o) == rows_of(s, o) by {
        if has_owner(s2, o) {
            let w2 = owner_index(s2, o);
            assert(0 <= w2 < s2.len() && s2[w2].owner == o);
            assert(w2 != idx);
            assert(s2[w2] == s[w2]);
            assert(has_owner(s, o));
            let w1 = owner_index(s, o);
            assert(0 <= w1 < s.len() && s[w1].owner == o);
            if w1 != w2 {
                if w1 < w2 {
                    assert(s[w1].owner != s[w2].owner);
                } else {
                    assert(s[w2].owner != s[w1].owner);
                }
            }
            assert(rows_of(s2, o) == rows_of(s, o));
        } else {
            if has_owner(s, o) {
                let w1 = owner_index(s, o);
                assert(0 <= w1 < s.len() && s[w1].owner == o);
                assert(w1 != idx);
                assert(s2[w1] == s[w1]);
                assert(has_owner(s2, o));
            }
        }
    }
}

/// Appending an entry for a new owner leaves every other owner's rows
/// untouched.
pub proof fn lemma_entries_push(s: Seq<OwnerEntry>, e: OwnerEntry)
    requires
        owners_distinct(s),
        !has_owner(s, e.owner as int),
    ensures
        owners_distinct(s.push(e)),
        has_owner(s.push(e), e.owner as int),
        owner_index(s.push(e), e.owner as int) == s.len(),
        forall|o: int| o != e.owner as int ==> #[trigger] rows_of(s.push(e), o) == rows_of(s, o),
{
    let s2 = s.push(e);
    assert forall|i: int, j: int| 0 <= i < j < s2.len() implies (#[trigger] s2[i]).owner != (
    #[trigger] s2[j]).owner by {
        if j < s.len() {
            assert(s2[i] == s[i] && s2[j] == s[j]);
        } else {
            assert(s2[j] == e);
            assert(s2[i] == s[i]);
            if s[i].owner == e.owner {
                assert(has_owner(s, e.owner as int));
            }
        }
    }
    assert(s2[s.len() as int].owner == e.owner as int);
    let w = owner_index(s2, e.owner as int);
    assert(0 <= w < s2.len() && s2[w].owner == e.owner as int);
    if w != s.len() {
        assert(s2[w] == s[w]);
        assert(has_owner(s, e.owner as int));
    }
    assert forall|o: int| o != e.owner as int implies #[trigger] rows_of(s2, o) == rows_of(
        s,
        o,
    ) by {
        if has_owner(s2, o) {
            let w2 = owner_index(s2, o);
            assert(0 <= w2 < s2.len() && s2[w2].owner == o);
            assert(w2 != s.len());
            assert(s2[w2] == s[w2]);
            assert(has_owner(s, o));
            let w1 = owner_index(s, o);
            assert(0 <= w1 < s.len() && s[w1].owner == o);
            if w1 != w2 {
                if w1 < w2 {
                    assert(s[w1].owner != s[w2].owner);
                } else {
                    assert(s[w2].owner != s[w1].owner);
                }
            }
        } else {
            if has_owner(s, o) {
                let w1 = owner_index(s, o);
                assert(0 <= w1 < s.len() && s[w1].owner == o);
                assert(s2[w1] == s[w1]);
                assert(has_owner(s2, o));
            }
        }
    }
}

/// Where a row with target timestamp `t` is inserted: after every row
/// whose target is less than or equal to `t`.
pub open spec fn insert_pos(s: Seq<ReminderView>, t: int) -> int
    decreases s.len(),
{
    if s.len() == 0 {
        0
    } else if s.last().target.ts() <= t {
        s.len() as int
    } else {
        insert_pos(s.drop_last(), t)
    }
}

/// The owner's rows after inserting `r` in target-time order, after any
/// rows with an equal target.
pub open spec fn insert_sorted(s: Seq<ReminderView>, r: ReminderView) -> Seq<ReminderView> {
    s.insert(insert_pos(s, r.target.ts()), r)
}

/// The outcome of a positional delete: whether a row was removed, and
/// the owner's rows afterwards. Position `pos` is 1-indexed into the
/// target-sorted order; an out-of-range position removes nothing.
pub open spec fn delete_result(items: Seq<ReminderView>, pos: int) -> (bool, Seq<ReminderView>) {
    if 1 <= pos <= items.len() {
        (true, items.remove(pos - 1))
    } else {
        (false, items)
    }
}

/// In a sorted sequence, the insertion point for `t` splits it into a
/// prefix of rows at or before `t` and a suffix strictly after it.
pub proof fn lemma_insert_pos(s: Seq<ReminderView>, t: int)
    requires
        sorted_by_target(s),
    ensures
        0 <= insert_pos(s, t) <= s.len(),
        forall|i: int| 0 <= i < insert_pos(s, t) ==> #[trigger] s[i].target.ts() <= t,
        forall|i: int| insert_pos(s, t) <= i < s.len() ==> #[trigger] s[i].target.ts() > t,
    decreases s.len(),
{
    if s.len() == 0 {
    } else if s.last().target.ts() <= t {
        assert forall|i: int| 0 <= i < s.len() implies #[trigger] s[i].target.ts() <= t by {
            assert(s[i].target.ts() <= s[s.len() - 1].target.ts());
        }
    } else {
        assert(sorted_by_target(s.drop_last()));
        lemma_insert_pos(s.drop_last(), t);
        assert forall|i: int| 0 <= i < insert_pos(s, t) implies #[trigger] s[i].target.ts()
            <= t by {
            assert(s.drop_last()[i] == s[i]);
        }
        assert forall|i: int| insert_pos(s, t) <= i < s.len() implies #[trigger] s[i].target.ts()
            > t by {
            if i < s.len() - 1 {
                assert(s.drop_last()[i] == s[i]);
            }
        }
    }
}

/// Inserting at the insertion point keeps the rows sorted.
pub proof fn lemma_insert_sorted(s: Seq<ReminderView>, r: ReminderView)
    requires
        sorted_by_target(s),
    ensures
        sorted_by_target(insert_sorted(s, r)),
        insert_sorted(s, r).len() == s.len() + 1,
{
    let t = r.target.ts();
    let p = insert_pos(s, t);
    lemma_insert_pos(s, t);
    let s2 = insert_sorted(s, r);
    assert forall|i: int, j: int| 0 <= i <= j < s2.len() implies #[trigger] s2[i].target.ts()
        <= #[trigger] s2[j].target.ts() by {
        let oi: int = if i < p {
            i
        } else {
            i - 1
        };
        let oj: int = if j < p {
            j
        } else {
            j - 1
        };
        if i == p {
        } else {
            assert(s2[i] == s[oi]);
        }
        if j == p {
        } else {
            assert(s2[j] == s[oj]);
        }
    }
}

/// The verified reminder store: rows grouped by owner, each owner's rows
/// kept in ascending target-time order.
pub struct ReminderStore {
    pub entries: Vec<OwnerEntry>,
}

impl ReminderStore {
    /// Well-formedness: one entry per owner, each sorted by target time.
    pub open spec fn wf(self) -> bool {
        owners_distinct(self.entries@) && (forall|i: int|
            0 <= i < self.entries@.len() ==> entry_wf(#[trigger] self.entries@[i]))
    }

    /// The rows of `owner`, in stored (target-sorted) order.
    pub open spec fn owner_seq(self, owner: int) -> Seq<ReminderView> {
        rows_of(self.entries@, owner)
    }

    /// A fresh store with no rows at all.
    pub fn new() -> (r: ReminderStore)
        ensures
            r.wf(),
            forall|o: int| r.owner_seq(o) == Seq::<ReminderView>::empty(),
    {
        let r = ReminderStore { entries: Vec::new() };
        proof {
            assert forall|o: int| r.owner_seq(o) == Seq::<ReminderView>::empty() by {
                assert(!has_owner(r.entries@, o));
            }
        }
        r
    }

    /// Index of the owner's entry, if any.
    fn find_entry(&self, owner: i64) -> (r: Option<usize>)
        requires
            self.wf(),
        ensures
            match r {
                Some(idx) => idx < self.entries@.len() && self.entries@[idx as int].owner == owner
                    && has_owner(self.entries@, owner as int) && owner_index(
                    self.entries@,
                    owner as int,
                ) == idx,
                None => !has_owner(self.entries@, owner as int),
            },
    {
        let mut i: usize = 0;
        while i < self.entries.len()
            invariant
                self.wf(),
                i <= self.entries@.len(),
                forall|j: int| 0 <= j < i ==> (#[trigger] self.entries@[j]).owner != owner,
            decreases self.entries@.len() - i,
        {
            if self.entries[i].owner == owner {
                proof {
                    let es = self.entries@;
                    let w = owner_index(es, owner as int);
                    assert(0 <= w < es.len() && es[w].owner == owner as int);
                    assert(owners_distinct(es));
                    if w < i {
                        assert(es[w].owner != es[i as int].owner);
                    } else if w > i {
                        assert(es[i as int].owner != es[w].owner);
                    }
                }
                return Some(i);
            }
            i = i + 1;
        }
        proof {
            if has_owner(self.entries@, owner as int) {
                let w = owner_index(self.entries@, owner as int);
                assert(0 <= w < self.entries@.len() && self.entries@[w].owner == owner as int);
            }
        }
        None
    }

    /// Appends a reminder for `owner`: the new row enters that owner's
    /// rows in target-time order, after any rows with an equal target;
    /// every other owner's rows are untouched.
    pub fn insert(
        &mut self,
        owner: i64,
        channel_id: i64,
        body: &str,
        created: DateTime,
        target: DateTime,
    )
        requires
            old(self).wf(),
            created.wf(),
            target.wf(),
        ensures
            final(self).wf(),
            final(self).owner_seq(owner as int) == insert_sorted(
                old(self).owner_seq(owner as int),
                (ReminderView { channel_id: channel_id as int, body: body@, created, target }),
            ),
            forall|o: int|
                o != owner as int ==> #[trigger] final(self).owner_seq(o) == old(self).owner_seq(
                    o,
                ),
    {
        let ghost rv = ReminderView { channel_id: channel_id as int, body: body@, created, target };
        let rem = Reminder { channel_id, body: body.to_owned(), created, target };
        proof {
            assert(rem@ == rv);
        }
        match self.find_entry(owner) {
            None => {
                let ghost s = self.entries@;
                let mut items: Vec<Reminder> = Vec::new();
                items.push(rem);
                let e = OwnerEntry { owner, items };
                proof {
                    lemma_entries_push(s, e);
                    assert(items_view(e.items@) =~= seq![rv]);
                    assert(insert_pos(Seq::<ReminderView>::empty(), rv.target.ts()) == 0);
                    assert(insert_sorted(Seq::<ReminderView>::empty(), rv) =~= seq![rv]);
                }
                self.entries.push(e);
                proof {
                    assert(self.entries@ == s.push(e));
                    assert forall|i: int| 0 <= i < self.entries@.len() implies entry_wf(
                        #[trigger] self.entries@[i],
                    ) by {
                        if i < s.len() {
                            assert(self.entries@[i] == s[i]);
                        }
                    }
                }
            },
            Some(idx) => {
                let ghost s = self.entries@;
                let ghost iv = items_view(s[idx as int].items@);
                let t = target.timestamp();
                let mut e = self.entries.remove(idx);
                proof {
                    assert(entry_wf(s[idx as int]));
                    assert(iv == items_view(e.items@));
                }
                let mut p: usize = e.items.len();
                proof {
                    assert(iv.take(p as int) =~= iv);
                }
                while p > 0 && e.items[p - 1].target.timestamp() > t
                    invariant
                        p <= e.items@.len(),
                        iv == items_view(e.items@),
                        iv.len() == e.items@.len(),
                        dates_wf(iv),
                        target.wf(),
                        t == target.ts(),
                        insert_pos(iv, t as int) == insert_pos(iv.take(p as int), t as int),
                    decreases p,
                {
                    proof {
                        assert(iv[p - 1] == e.items@[p - 1]@);
                        assert(iv.take(p as int).last() == iv[p - 1]);
                        assert(iv.take(p as int).drop_last() =~= iv.take(p as int - 1));
                    }
                    p = p - 1;
                }
                proof {
                    if p > 0 {
                        assert(iv.take(p as int).last() == iv[p - 1]);
                        assert(iv[p - 1] == e.items@[p - 1]@);
                        assert(insert_pos(iv.take(p as int), t as int) == p);
                    } else {
                        assert(iv.take(0) =~= Seq::<ReminderView>::empty());
                    }
                    assert(insert_pos(iv, rv.target.ts()) == p);
                }
                e.items.insert(p, rem);
                proof {
                    assert(items_view(e.items@) =~= insert_sorted(iv, rv)) by {
                        assert(e.items@ == s[idx as int].items@.insert(p as int, rem));
                    }
                    lemma_insert_sorted(iv, rv);
                    let s2 = insert_sorted(iv, rv);
                    assert forall|i: int| 0 <= i < s2.len() implies (#[trigger] s2[i]).target.wf()
                        && s2[i].created.wf() by {
                        if i < p {
                            assert(s2[i] == iv[i]);
                        } else if i == p {
                            assert(s2[i] == rv);
                        } else {
                            assert(s2[i] == iv[i - 1]);
                        }
                    }
                    assert(entry_wf(e));
                }
                self.entries.insert(idx, e);
                proof {
                    assert(self.entries@ =~= s.update(idx as int, e));
                    lemma_entries_update(s, idx as int, e);
                    assert forall|i: int| 0 <= i < self.entries@.len() implies entry_wf(
                        #[trigger] self.entries@[i],
                    ) by {
                        if i != idx {
                            assert(self.entries@[i] == s[i]);
                        }
                    }
                }
            },
        }
    }

    /// The owner's reminders as (target time, body) pairs, ascending by
    /// target time.
    pub fn list(&self, owner: i64) -> (r: Vec<(DateTime, String)>)
        requires
            self.wf(),
        ensures
            r@.len() == self.owner_seq(owner as int).len(),
            forall|i: int|
                0 <= i < r@.len() ==> (#[trigger] r@[i]).0 == self.owner_seq(owner as int)[i].target
                    && r@[i].1@ == self.owner_seq(owner as int)[i].body,
            sorted_by_target(self.owner_seq(owner as int)),
    {
        let mut r: Vec<(DateTime, String)> = Vec::new();
        match self.find_entry(owner) {
            None => r,
            Some(idx) => {
                let ghost iv = items_view(self.entries@[idx as int].items@);
                proof {
                    assert(entry_wf(self.entries@[idx as int]));
                }
                let e = &self.entries[idx];
                let n = e.items.len();
                let mut i: usize = 0;
                while i < n
                    invariant
                        i <= n,
                        n == e.items@.len(),
                        iv == items_view(e.items@),
                        iv.len() == n,
                        r@.len() == i,
                        forall|j: int|
                            0 <= j < i ==> (#[trigger] r@[j]).0 == iv[j].target && r@[j].1@
                                == iv[j].body,
                    decreases n - i,
                {
                    let item = &e.items[i];
                    r.push((item.target, item.body.clone()));
                    proof {
                        assert(iv[i as int] == e.items@[i as int]@);
                    }
                    i = i + 1;
                }
                r
            },
        }
    }

    /// Deletes the reminder at 1-indexed `pos` in the owner's ascending
    /// target-time order; reports whether a row was removed. An
    /// out-of-range position removes nothing and reports `false`.
    pub fn delete(&mut self, owner: i64, pos: u64) -> (r: bool)
        requires
            old(self).wf(),
        ensures
            final(self).wf(),
            (r, final(self).owner_seq(owner as int)) == delete_result(
                old(self).owner_seq(owner as int),
                pos as int,
            ),
            forall|o: int|
                o != owner as int ==> #[trigger] final(self).owner_seq(o) == old(self).owner_seq(
                    o,
                ),
    {
        match self.find_entry(owner) {
            None => false,
            Some(idx) => {
                let ghost s = self.entries@;
                let ghost iv = items_view(s[idx as int].items@);
                proof {
                    assert(entry_wf(s[idx as int]));
                }
                let n = self.entries[idx].items.len();
                if pos < 1 || pos > n as u64 {
                    return false;
                }
                let k = (pos - 1) as usize;
                let mut e = self.entries.remove(idx);
                e.items.remove(k);
                proof {
                    assert(items_view(e.items@) =~= iv.remove(k as int)) by {
                        assert(e.items@ == s[idx as int].items@.remove(k as int));
                    }
                    let s2 = iv.remove(k as int);
                    assert forall|i: int| 0 <= i < s2.len() implies (#[trigger] s2[i]).target.wf()
                        && s2[i].created.wf() && (forall|j: int|
                        i <= j < s2.len() ==> s2[i].target.ts() <= (#[trigger] s2[j]).target.ts())
                        by {
                        let oi: int = if i < k {
                            i
                        } else {
                            i + 1
                        };
                        assert(s2[i] == iv[oi]);
                        assert forall|j: int| i <= j < s2.len() implies s2[i].target.ts() <= (
                        #[trigger] s2[j]).target.ts() by {
                            let oj: int = if j < k {
                                j
                            } else {
                                j + 1
                            };
                            assert(s2[j] == iv[oj]);
                            assert(iv[oi].target.ts() <= iv[oj].target.ts());
                        }
                    }
                    assert(sorted_by_target(s2));
                    assert(dates_wf(s2));
                    assert(entry_wf(e));
                }
                self.entries.insert(idx, e);
                proof {
                    assert(self.entries@ =~= s.update(idx as int, e));
                    lemma_entries_update(s, idx as int, e);
                    assert forall|i: int| 0 <= i < self.entries@.len() implies entry_wf(
                        #[trigger] self.entries@[i],
                    ) by {
                        if i != idx {
                            assert(self.entries@[i] == s[i]);
                        }
                    }
                }
                true
            },
        }
    }
}

/// An in-range positional delete removes exactly the row at that rank
/// and keeps every other row, in its original relative order.
pub proof fn lemma_positional_delete(items: Seq<ReminderView>, k: int)
    requires
        1 <= k <= items.len(),
    ensures
        delete_result(items, k).0,
        delete_result(items, k).1.len() == items.len() - 1,
        forall|i: int| 0 <= i < k - 1 ==> #[trigger] delete_result(items, k).1[i] == items[i],
        forall|i: int|
            k - 1 <= i < items.len() - 1 ==> #[trigger] delete_result(items, k).1[i] == items[i
                + 1],
{
}

/// An out-of-range positional delete removes nothing and reports so.
pub proof fn lemma_delete_out_of_range(items: Seq<ReminderView>, k: int)
    requires
        k < 1 || k > items.len(),
    ensures
        !delete_result(items, k).0,
        delete_result(items, k).1 == items,
{
}

/// Two positional deletes of the first row, against a single remaining
/// row: the first one succeeds and empties the rows, so the second one
/// finds nothing and reports failure. Each `delete` call observes and
/// updates the store atomically (it holds the one `&mut` reference), so
/// of two racing deletes exactly one can report success.
pub proof fn lemma_lone_reminder_deleted_once(items: Seq<ReminderView>)
    requires
        items.len() == 1,
    ensures
        delete_result(items, 1).0,
        delete_result(items, 1).1.len() == 0,
        !delete_result(delete_result(items, 1).1, 1).0,
{
}

} // verus!

//! The persistence store: maps transaction CRUD calls onto a backing store
//! of rows with unique ids, allocates ids monotonically, and validates each
//! written date by realizing it as a calendar instant.

use vstd::prelude::*;

use crate::date::{valid_calendar_date, DateError};
use crate::transaction::{Id, Transaction};

verus! {

/// Errors produced from the persistence store.
#[derive(Debug, Clone, Copy, PartialEq, Eq, Structural)]
pub enum DatabaseDriverError {
    /// The backing store refused the operation: an insert would break the
    /// uniqueness of ids.
    Storage,
    /// The date of the row could not be realized as a calendar instant.
    DateError(DateError),
}

/// No two rows carry the same id.
pub open spec fn unique_ids(s: Seq<Transaction>) -> bool {
    forall|i: int, j: int| 0 <= i < j < s.len() ==> s[i].id != s[j].id
}

/// Some row carries the id.
pub open spec fn contains_id(s: Seq<Transaction>, id: Id) -> bool {
    exists|i: int| 0 <= i < s.len() && s[i].id == id
}

/// The largest id among the rows, zero when there are none.
pub open spec fn max_id(s: Seq<Transaction>) -> nat
    decreases s.len(),
{
    if s.len() == 0 {
        0
    } else if s.last().id as nat >= max_id(s.drop_last()) {
        s.last().id as nat
    } else {
        max_id(s.drop_last())
    }
}

/// The id the store hands out next: one plus the largest stored id, zero on
/// an empty store; one past the largest representable id it wraps to zero,
/// as the store's id arithmetic does.
pub open spec fn next_id_spec(s: Seq<Transaction>) -> Id {
    if s.len() == 0 {
        0
    } else if max_id(s) == u32::MAX {
        0
    } else {
        (max_id(s) + 1) as Id
    }
}

/// The rows after an update: the row carrying the id of `t` is replaced by
/// `t`; all others stay.
pub open spec fn update_spec(s: Seq<Transaction>, t: Transaction) -> Seq<Transaction> {
    Seq::new(s.len(), |i: int| if s[i].id == t.id { t } else { s[i] })
}

/// The rows after a delete: every row carrying the id is dropped, the rest
/// keep their order.
pub open spec fn remove_spec(s: Seq<Transaction>, id: Id) -> Seq<Transaction> {
    s.filter(|t: Transaction| t.id != id)
}

/// An in-memory persistence store for transactions.
///
/// It keeps every row ever inserted and not yet deleted, in insertion
/// order, and maintains the uniqueness of ids. Dates are validated at the
/// write boundary, where a durable store would derive the stored calendar
/// instant.
pub struct DatabaseDriver {
    rows: Vec<Transaction>,
}

impl View for DatabaseDriver {
    type V = Seq<Transaction>;

    closed spec fn view(&self) -> Seq<Transaction> {
        self.rows@
    }
}

impl DatabaseDriver {
    /// The store's invariant: ids are unique.
    pub open spec fn wf(&self) -> bool {
        unique_ids(self@)
    }

    /// Open a fresh store; it holds no rows.
    pub fn new() -> (r: DatabaseDriver)
        ensures
            r@ == Seq::<Transaction>::empty(),
            r.wf(),
    {
        DatabaseDriver { rows: Vec::new() }
    }

    /// Every stored row, in insertion order. Reading changes nothing.
    #[verifier::loop_isolation(false)]
    pub fn get_transactions(&mut self) -> (r: Result<Vec<Transaction>, DatabaseDriverError>)
        ensures
            *final(self) == *old(self),
            r matches Ok(v) && v@ == old(self)@,
    {
        let mut out: Vec<Transaction> = Vec::new();
        let mut i: usize = 0;
        while i < self.rows.len()
            invariant
                i <= self.rows.len(),
                out@ == self.rows@.subrange(0, i as int),
                *self == *old(self),
            decreases self.rows.len() - i,
        {
            out.push(self.rows[i]);
            proof {
                assert(out@ =~= self.rows@.subrange(0, i + 1 as int));
            }
            i = i + 1;
        }
        proof {
            assert(out@ =~= self.rows@);
        }
        Ok(out)
    }

    /// Append a new row. Fails with a `DateError` when the date names no
    /// real calendar day, and with a storage error when the id is already
    /// taken; otherwise the row is appended and nothing else changes.
    #[verifier::loop_isolation(false)]
    pub fn add_transaction(&mut self, transaction: Transaction) -> (r: Result<
        (),
        DatabaseDriverError,
    >)
        requires
            old(self).wf(),
        ensures
            final(self).wf(),
            match r {
                Ok(()) => {
                    &&& valid_calendar_date(transaction.date)
                    &&& !contains_id(old(self)@, transaction.id)
                    &&& final(self)@ == old(self)@.push(transaction)
                },
                Err(DatabaseDriverError::DateError(e)) => {
                    &&& e == DateError::ValueOutOfBounds
                    &&& !valid_calendar_date(transaction.date)
                    &&& *final(self) == *old(self)
                },
                Err(DatabaseDriverError::Storage) => {
                    &&& valid_calendar_date(transaction.date)
                    &&& contains_id(old(self)@, transaction.id)
                    &&& *final(self) == *old(self)
                },
            },
    {
        match transaction.get_date().to_calendar_instant() {
            Err(e) => {
                return Err(DatabaseDriverError::DateError(e));
            },
            Ok(_) => {},
        }
        let mut i: usize = 0;
        while i < self.rows.len()
            invariant
                i <= self.rows.len(),
                *self == *old(self),
                forall|k: int| 0 <= k < i ==> self.rows@[k].id != transaction.id,
            decreases self.rows.len() - i,
        {
            if self.rows[i].get_id() == transaction.id {
                return Err(DatabaseDriverError::Storage);
            }
            i = i + 1;
        }
        self.rows.push(transaction);
        proof {
            assert(final(self)@.drop_last() =~= old(self)@);
            assert forall|a: int, b: int|
                0 <= a < b < final(self)@.len() implies final(self)@[a].id
                != final(self)@[b].id by {
                if b < final(self)@.len() - 1 {
                    assert(old(self)@[a].id != old(self)@[b].id);
                }
            }
        }
        Ok(())
    }

    /// The id the store would assign next: one plus the largest stored id,
    /// zero on an empty store.
    #[verifier::loop_isolation(false)]
    pub fn get_next_id(&mut self) -> (r: Result<Id, DatabaseDriverError>)
        ensures
            *final(self) == *old(self),
            r == Ok::<Id, DatabaseDriverError>(next_id_spec(old(self)@)),
    {
        if self.rows.len() == 0 {
            proof {
                assert(self.rows@ =~= Seq::<Transaction>::empty());
            }
            return Ok(0);
        }
        let mut m: u32 = 0;
        let mut i: usize = 0;
        while i < self.rows.len()
            invariant
                i <= self.rows.len(),
                *self == *old(self),
                m as nat == max_id(self.rows@.subrange(0, i as int)),
            decreases self.rows.len() - i,
        {
            let id = self.rows[i].get_id();
            proof {
                let pre = self.rows@.subrange(0, i as int);
                let ext = self.rows@.subrange(0, i + 1 as int);
                assert(ext.drop_last() =~= pre);
                assert(ext.last() == self.rows@[i as int]);
            }
            if id > m {
                m = id;
            }
            i = i + 1;
        }
        proof {
            assert(self.rows@.subrange(0, i as int) =~= self.rows@);
        }
        if m == u32::MAX {
            Ok(0)
        } else {
            Ok(m + 1)
        }
    }

    /// Overwrite the amount and date of the row carrying the id of the
    /// given transaction. A silent no-op success when no row matches; fails
    /// only when the new date names no real calendar day, leaving the store
    /// unchanged.
    #[verifier::loop_isolation(false)]
    pub fn set_transaction(&mut self, transaction: Transaction) -> (r: Result<
        (),
        DatabaseDriverError,
    >)
        requires
            old(self).wf(),
        ensures
            final(self).wf(),
            match r {
                Ok(()) => {
                    &&& valid_calendar_date(transaction.date)
                    &&& final(self)@ == update_spec(old(self)@, transaction)
                },
                Err(DatabaseDriverError::DateError(e)) => {
                    &&& e == DateError::ValueOutOfBounds
                    &&& !valid_calendar_date(transaction.date)
                    &&& *final(self) == *old(self)
                },
                Err(DatabaseDriverError::Storage) => false,
            },
    {
        match transaction.get_date().to_calendar_instant() {
            Err(e) => {
                return Err(DatabaseDriverError::DateError(e));
            },
            Ok(_) => {},
        }
        let mut i: usize = 0;
        while i < self.rows.len()
            invariant
                i <= self.rows.len(),
                self.rows@.len() == old(self)@.len(),
                forall|k: int|
                    0 <= k < self.rows@.len() ==> #[trigger] self.rows@[k] == (if k < i && old(
                        self,
                    )@[k].id == transaction.id {
                        transaction
                    } else {
                        old(self)@[k]
                    }),
            decreases self.rows.len() - i,
        {
            if self.rows[i].get_id() == transaction.id {
                self.rows[i] = transaction;
            }
            i = i + 1;
        }
        proof {
            assert(final(self)@ =~= update_spec(old(self)@, transaction));
            assert forall|a: int, b: int|
                0 <= a < b < final(self)@.len() implies final(self)@[a].id
                != final(self)@[b].id by {
                assert(old(self)@[a].id != old(self)@[b].id);
            }
        }
        Ok(())
    }

    /// Remove the row carrying the id, if any; removing an absent id is a
    /// silent success.
    #[verifier::loop_isolation(false)]
    pub fn remove_transaction(&mut self, id: Id) -> (r: Result<(), DatabaseDriverError>)
        requires
            old(self).wf(),
        ensures
            final(self).wf(),
            r == Ok::<(), DatabaseDriverError>(()),
            final(self)@ == remove_spec(old(self)@, id),
    {
        let ghost pred = |t: Transaction| t.id != id;
        let mut out: Vec<Transaction> = Vec::new();
        let mut i: usize = 0;
        proof {
            reveal(Seq::filter);
            assert(self.rows@.subrange(0, 0) =~= Seq::<Transaction>::empty());
        }
        while i < self.rows.len()
            invariant
                i <= self.rows.len(),
                *self == *old(self),
                out@ == self.rows@.subrange(0, i as int).filter(pred),
                pred == (|t: Transaction| t.id != id),
            decreases self.rows.len() - i,
        {
            let row = self.rows[i];
            proof {
                reveal(Seq::filter);
                let pre = self.rows@.subrange(0, i as int);
                let ext = self.rows@.subrange(0, i + 1 as int);
                assert(ext.drop_last() =~= pre);
                assert(ext.last() == row);
            }
            if row.get_id() != id {
                out.push(row);
            }
            i = i + 1;
        }
        proof {
            assert(self.rows@.subrange(0, i as int) =~= self.rows@);
            lemma_remove_spec_unique(old(self)@, id);
        }
        self.rows = out;
        Ok(())
    }
}

/// Every row kept by a delete comes from the original rows.
proof fn lemma_filter_element_of(s: Seq<Transaction>, pred: spec_fn(Transaction) -> bool)
    ensures
        forall|i: int|
            0 <= i < s.filter(pred).len() ==> s.contains(#[trigger] s.filter(pred)[i]),
    decreases s.len(),
{
    reveal(Seq::filter);
    if s.len() > 0 {
        let s0 = s.drop_last();
        lemma_filter_element_of(s0, pred);
        let f0 = s0.filter(pred);
        let f = s.filter(pred);
        assert forall|i: int| 0 <= i < f.len() implies s.contains(#[trigger] f[i]) by {
            if i < f0.len() {
                assert(s0.contains(f0[i]));
                let j = choose|j: int| 0 <= j < s0.len() && s0[j] == f0[i];
                assert(s[j] == f[i]);
            } else {
                assert(s[s.len() - 1] == f[i]);
            }
        }
    }
}

/// Deleting an id keeps the ids of the remaining rows unique.
proof fn lemma_remove_spec_unique(s: Seq<Transaction>, id: Id)
    requires
        unique_ids(s),
    ensures
        unique_ids(remove_spec(s, id)),
    decreases s.len(),
{
    reveal(Seq::filter);
    let pred = |t: Transaction| t.id != id;
    if s.len() > 0 {
        let s0 = s.drop_last();
        assert(unique_ids(s0)) by {
            assert(forall|k: int| 0 <= k < s0.len() ==> s0[k] == #[trigger] s[k]);
        }
        lemma_remove_spec_unique(s0, id);
        let f0 = s0.filter(pred);
        let f = s.filter(pred);
        if pred(s.last()) {
            lemma_filter_element_of(s0, pred);
            assert forall|a: int, b: int| 0 <= a < b < f.len() implies f[a].id != f[b].id by {
                if b < f.len() - 1 {
                    assert(f0[a].id != f0[b].id);
                } else {
                    assert(s0.contains(f0[a]));
                    let j = choose|j: int| 0 <= j < s0.len() && s0[j] == f0[a];
                    assert(s[j].id != s.last().id);
                }
            }
        }
    }
}

} // verus!

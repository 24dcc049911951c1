//! The service facade: sequences id allocation and persistence calls, and
//! translates storage errors into domain errors.

use vstd::prelude::*;

use crate::database_driver::{
    contains_id, max_id, next_id_spec, remove_spec, unique_ids, update_spec, DatabaseDriver,
    DatabaseDriverError,
};
use crate::date::{parse_spec, valid_calendar_date, Date};
use crate::transaction::{Id, Money, Transaction};

verus! {

/// Errors produced from the service.
#[derive(Debug, Clone, Copy, PartialEq, Eq, Structural)]
pub enum TreasuryServiceError {
    /// An error from the underlying persistence store, unchanged.
    DatabaseError(DatabaseDriverError),
}

/// The service owning the persistence store. All operations go through one
/// store session; no caller sees a partial change.
pub struct TreasuryService {
    database_driver: DatabaseDriver,
}

impl View for TreasuryService {
    type V = Seq<Transaction>;

    closed spec fn view(&self) -> Seq<Transaction> {
        self.database_driver@
    }
}

impl TreasuryService {
    /// The service's invariant: the store's ids are unique.
    pub open spec fn wf(&self) -> bool {
        unique_ids(self@)
    }

    /// Create a new service over a fresh, empty store.
    pub fn new() -> (r: TreasuryService)
        ensures
            r@ == Seq::<Transaction>::empty(),
            r.wf(),
    {
        TreasuryService { database_driver: DatabaseDriver::new() }
    }

    /// All transactions in the store. Reading changes nothing.
    pub fn get_transactions(&mut self) -> (r: Result<Vec<Transaction>, TreasuryServiceError>)
        ensures
            *final(self) == *old(self),
            r matches Ok(v) && v@ == old(self)@,
    {
        match self.database_driver.get_transactions() {
            Ok(v) => Ok(v),
            Err(e) => Err(TreasuryServiceError::DatabaseError(e)),
        }
    }

    /// Add a transaction: allocate the next id, construct the transaction
    /// from the given amount and date text, and persist it. The text must
    /// parse, and the date is validated the moment the store realizes it as
    /// a calendar instant; each failure surfaces as the error of the layer
    /// that found it, and leaves the store unchanged.
    ///
    /// Id allocation is advisory, not reserved: it is a check-then-act pair
    /// of store calls, and when the allocated id is somehow already taken
    /// the insert fails on the uniqueness constraint with a storage error.
    /// Within one session [`lemma_next_id_fresh`] rules that out as long as
    /// the store has never held the largest representable id.
    pub fn add_transaction(&mut self, amount: Money, date_text: &str) -> (r: Result<
        (),
        TreasuryServiceError,
    >)
        requires
            old(self).wf(),
        ensures
            final(self).wf(),
            match parse_spec(date_text@) {
                Err(e) => {
                    &&& r == Err::<(), TreasuryServiceError>(
                        TreasuryServiceError::DatabaseError(DatabaseDriverError::DateError(e)),
                    )
                    &&& *final(self) == *old(self)
                },
                Ok(d) => {
                    if !valid_calendar_date(d) {
                        &&& r == Err::<(), TreasuryServiceError>(
                            TreasuryServiceError::DatabaseError(
                                DatabaseDriverError::DateError(
                                    crate::date::DateError::ValueOutOfBounds,
                                ),
                            ),
                        )
                        &&& *final(self) == *old(self)
                    } else if contains_id(old(self)@, next_id_spec(old(self)@)) {
                        &&& r == Err::<(), TreasuryServiceError>(
                            TreasuryServiceError::DatabaseError(DatabaseDriverError::Storage),
                        )
                        &&& *final(self) == *old(self)
                    } else {
                        &&& r == Ok::<(), TreasuryServiceError>(())
                        &&& final(self)@ == old(self)@.push(
                            (Transaction { id: next_id_spec(old(self)@), amount, date: d }),
                        )
                    }
                },
            },
    {
        let date = match Date::parse(date_text) {
            Ok(d) => d,
            Err(e) => {
                return Err(
                    TreasuryServiceError::DatabaseError(DatabaseDriverError::DateError(e)),
                );
            },
        };
        let id = match self.database_driver.get_next_id() {
            Ok(id) => id,
            Err(e) => {
                return Err(TreasuryServiceError::DatabaseError(e));
            },
        };
        let new_transaction = Transaction::new(id, amount, date);
        match self.database_driver.add_transaction(new_transaction) {
            Ok(()) => Ok(()),
            Err(e) => Err(TreasuryServiceError::DatabaseError(e)),
        }
    }

    /// Overwrite the amount and date of the transaction with the given id.
    /// The store does not check that the id exists: an absent id is a
    /// silent no-op success, never an error and never an insert.
    pub fn set_transaction(&mut self, id: Id, amount: Money, date_text: &str) -> (r: Result<
        (),
        TreasuryServiceError,
    >)
        requires
            old(self).wf(),
        ensures
            final(self).wf(),
            match parse_spec(date_text@) {
                Err(e) => {
                    &&& r == Err::<(), TreasuryServiceError>(
                        TreasuryServiceError::DatabaseError(DatabaseDriverError::DateError(e)),
                    )
                    &&& *final(self) == *old(self)
                },
                Ok(d) => {
                    if !valid_calendar_date(d) {
                        &&& r == Err::<(), TreasuryServiceError>(
                            TreasuryServiceError::DatabaseError(
                                DatabaseDriverError::DateError(
                                    crate::date::DateError::ValueOutOfBounds,
                                ),
                            ),
                        )
                        &&& *final(self) == *old(self)
                    } else {
                        &&& r == Ok::<(), TreasuryServiceError>(())
                        &&& final(self)@ == update_spec(
                            old(self)@,
                            (Transaction { id, amount, date: d }),
                        )
                    }
                },
            },
    {
        let date = match Date::parse(date_text) {
            Ok(d) => d,
            Err(e) => {
                return Err(
                    TreasuryServiceError::DatabaseError(DatabaseDriverError::DateError(e)),
                );
            },
        };
        let updated_transaction = Transaction::new(id, amount, date);
        match self.database_driver.set_transaction(updated_transaction) {
            Ok(()) => Ok(()),
            Err(e) => Err(TreasuryServiceError::DatabaseError(e)),
        }
    }

    /// Remove the transaction with the given id; an absent id is a silent
    /// success.
    pub fn remove_transaction(&mut self, id: Id) -> (r: Result<(), TreasuryServiceError>)
        requires
            old(self).wf(),
        ensures
            final(self).wf(),
            r == Ok::<(), TreasuryServiceError>(()),
            final(self)@ == remove_spec(old(self)@, id),
    {
        match self.database_driver.remove_transaction(id) {
            Ok(()) => Ok(()),
            Err(e) => Err(TreasuryServiceError::DatabaseError(e)),
        }
    }
}

/// Every stored id is at most the largest stored id.
proof fn lemma_max_id_bound(s: Seq<Transaction>)
    ensures
        forall|i: int| 0 <= i < s.len() ==> (#[trigger] s[i].id as nat) <= max_id(s),
    decreases s.len(),
{
    if s.len() > 0 {
        lemma_max_id_bound(s.drop_last());
        assert forall|i: int| 0 <= i < s.len() implies (#[trigger] s[i].id as nat) <= max_id(
            s,
        ) by {
            if i < s.len() - 1 {
                assert(s.drop_last()[i] == s[i]);
            }
        }
    }
}

/// Id allocation is fresh: as long as the store has never reached the
/// largest representable id, the id it hands out next is carried by no
/// stored row, so adding a transaction cannot collide.
pub proof fn lemma_next_id_fresh(s: Seq<Transaction>)
    requires
        max_id(s) < u32::MAX,
    ensures
        !contains_id(s, next_id_spec(s)),
{
    lemma_max_id_bound(s);
}

} // verus!

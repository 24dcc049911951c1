//! Financial transactions: an id, an amount in minor currency units, and a
//! date, immutable once constructed, with a canonical display form.

use vstd::prelude::*;

use crate::date::{date_text, Date};
use crate::text::{dec_digits, dec_digits_pad2, push_u64_decimal, push_u64_decimal_pad2};

verus! {

/// Identifier of a transaction, unique within a store.
pub type Id = u32;

/// An amount of money as a non-negative count of minor currency units
/// (pence).
pub type Money = u64;

/// A financial transaction. Compared by structural equality; all mutation
/// is "replace with a new value".
#[derive(Debug, Clone, Copy, PartialEq, Eq, Structural, Hash)]
pub struct Transaction {
    /// Identifier, assigned by the store.
    pub id: Id,
    /// Amount in minor currency units.
    pub amount: Money,
    /// Date of the transaction.
    pub date: Date,
}

/// The display form of a transaction: `#<id> <date>: £<major>.<minor>`,
/// the amount split into pounds and pence, pence zero-padded to two digits.
pub open spec fn transaction_text(t: Transaction) -> Seq<char> {
    seq!['#'] + dec_digits(t.id as nat) + seq![' '] + date_text(t.date) + seq![':', ' ', '£']
        + dec_digits(t.amount as nat / 100) + seq!['.'] + dec_digits_pad2(t.amount as nat % 100)
}

impl Transaction {
    /// Create a new transaction with the given id, amount and date.
    pub fn new(id: Id, amount: Money, date: Date) -> (r: Transaction)
        ensures
            r == (Transaction { id, amount, date }),
    {
        Transaction { id, amount, date }
    }

    /// Get the id of this transaction.
    pub fn get_id(&self) -> (r: Id)
        ensures
            r == self.id,
    {
        self.id
    }

    /// Get the amount of this transaction.
    pub fn get_amount(&self) -> (r: Money)
        ensures
            r == self.amount,
    {
        self.amount
    }

    /// Get the date of this transaction.
    pub fn get_date(&self) -> (r: &Date)
        ensures
            r == self.date,
    {
        &self.date
    }

    /// Render this transaction in its display form.
    pub fn display_string(&self) -> (r: String)
        ensures
            r@ == transaction_text(*self),
    {
        let mut r = String::new();
        r.append("#");
        push_u64_decimal(&mut r, self.id as u64);
        r.append(" ");
        let date_part = self.date.to_text();
        r.append(date_part.as_str());
        r.append(": £");
        push_u64_decimal(&mut r, self.amount / 100);
        r.append(".");
        push_u64_decimal_pad2(&mut r, self.amount % 100);
        proof {
            reveal_strlit("#");
            reveal_strlit(" ");
            reveal_strlit(": £");
            reveal_strlit(".");
            assert(r@ =~= transaction_text(*self));
        }
        r
    }
}

} // verus!

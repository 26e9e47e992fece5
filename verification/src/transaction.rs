//! The input records of the ledger: transaction identifiers, fixed-point
//! amounts, and the five transaction kinds.

use vstd::prelude::*;

verus! {

/// Identifier of one client's account.
pub type AccountId = u16;

/// Identifier of one transaction.
pub type TxId = u32;

/// How many ten-thousandths make one whole currency unit: amounts carry
/// four fraction digits.
pub const AMOUNT_SCALE: u64 = 10000;

/// A non-negative currency amount, stored as a count of ten-thousandths
/// of a unit, so that arithmetic on amounts is exact integer arithmetic.
#[derive(Clone, Copy, PartialEq, Eq, Structural, Debug)]
pub struct Amount {
    pub units: u64,
}

impl Amount {
    /// Builds an amount from a whole-unit part and a count of
    /// ten-thousandths, as in four fraction digits of decimal text.
    pub fn from_parts(whole: u64, ten_thousandths: u64) -> (r: Option<Amount>)
        ensures
            (whole * 10000 + ten_thousandths <= u64::MAX) ==> r == Some(
                Amount { units: (whole * 10000 + ten_thousandths) as u64 },
            ),
            (whole * 10000 + ten_thousandths > u64::MAX) ==> r is None,
    {
        match whole.checked_mul(AMOUNT_SCALE) {
            Some(w) => match w.checked_add(ten_thousandths) {
                Some(u) => Some(Amount { units: u }),
                None => None,
            },
            None => None,
        }
    }

    /// Builds an amount directly from a count of ten-thousandths of a unit.
    pub fn from_units(units: u64) -> (r: Amount)
        ensures
            r.units == units,
    {
        Amount { units }
    }
}

/// The five kinds of transaction record.
#[derive(Clone, Copy, PartialEq, Eq, Structural, Debug)]
pub enum TransactionType {
    Chargeback,
    Deposit,
    Dispute,
    Withdrawal,
    Resolve,
}

/// One input record: a kind, the client it applies to, its identifier, and,
/// for deposits and withdrawals, an amount. Dispute, resolve and chargeback
/// records reference a prior transaction by `id` and carry no amount of
/// their own; an amount on such a record is ignored.
#[derive(Clone, Copy, Debug)]
pub struct Transaction {
    pub ty: TransactionType,
    pub client: AccountId,
    pub id: TxId,
    pub amount: Option<Amount>,
}

} // verus!

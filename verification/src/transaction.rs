//! The domain event: a payment transaction.

use vstd::prelude::*;

verus! {

/// The mathematical value of a transaction: the four modeled fields as
/// plain mathematical values. Contracts speak of this model.
pub struct TransactionModel {
    pub source: Seq<char>,
    pub id: int,
    pub user_id: Seq<char>,
    pub amount_cents: nat,
}

/// A payment transaction event.
///
/// `source` is the partition key of the stream the event belongs to and
/// is never empty. `id` is the externally assigned sequence number within
/// a source; it doubles as the sort position of the event. The monetary
/// amount is counted in minor units (cents), single-currency.
#[derive(Debug)]
pub struct Transaction {
    pub source: String,
    pub id: i32,
    pub user_id: String,
    pub amount_cents: u64,
}

impl View for Transaction {
    type V = TransactionModel;

    open spec fn view(&self) -> TransactionModel {
        TransactionModel {
            source: self.source@,
            id: self.id as int,
            user_id: self.user_id@,
            amount_cents: self.amount_cents as nat,
        }
    }
}

impl Transaction {
    /// A transaction is well formed when its partition key is non-empty.
    pub open spec fn wf(&self) -> bool {
        self.source@.len() > 0
    }

    /// Builds a transaction from its four fields.
    pub fn new(source: String, id: i32, user_id: String, amount_cents: u64) -> (t: Transaction)
        requires
            source@.len() > 0,
        ensures
            t.wf(),
            t@ == (TransactionModel {
                source: source@,
                id: id as int,
                user_id: user_id@,
                amount_cents: amount_cents as nat,
            }),
    {
        Transaction { source, id, user_id, amount_cents }
    }
}

impl Clone for Transaction {
    fn clone(&self) -> (t: Transaction)
        ensures
            t == *self,
    {
        Transaction {
            source: self.source.clone(),
            id: self.id,
            user_id: self.user_id.clone(),
            amount_cents: self.amount_cents,
        }
    }
}

impl PartialEq for Transaction {
    fn eq(&self, other: &Transaction) -> (r: bool) {
        self.source == other.source && self.id == other.id && self.user_id == other.user_id
            && self.amount_cents == other.amount_cents
    }
}

impl vstd::std_specs::cmp::PartialEqSpecImpl for Transaction {
    open spec fn obeys_eq_spec() -> bool {
        true
    }

    open spec fn eq_spec(&self, other: &Transaction) -> bool {
        self@ == other@
    }
}

} // verus!

//! An in-memory adapter of the event repository port.
//!
//! The substitute store for callers that want the port without the
//! remote table: events are kept in write order in a vector, and the
//! latest-event query scans for the greatest sort position, later
//! writes winning ties. Saves and queries here never fail.

use vstd::prelude::*;

use crate::errors::RepositoryError;
use crate::port::latest_event;
use crate::port::EventRepository;
use crate::transaction::Transaction;
use crate::transaction::TransactionModel;

verus! {

/// An event store held in memory: the full history, in write order.
pub struct InMemoryEventRepository {
    pub events: Vec<Transaction>,
}

impl InMemoryEventRepository {
    /// The models of the stored events, in write order.
    pub open spec fn models(&self) -> Seq<TransactionModel> {
        self.events@.map_values(|t: Transaction| t@)
    }

    /// An empty store.
    pub fn new() -> (r: InMemoryEventRepository)
        ensures
            r.models() == Seq::<TransactionModel>::empty(),
    {
        let r = InMemoryEventRepository { events: Vec::new() };
        proof {
            assert(r.models() =~= Seq::<TransactionModel>::empty());
        }
        r
    }
}

impl EventRepository<Transaction> for InMemoryEventRepository {
    open spec fn history(&self) -> Seq<TransactionModel> {
        self.models()
    }

    open spec fn key_of(m: TransactionModel) -> Seq<char> {
        m.source
    }

    open spec fn pos_of(m: TransactionModel) -> int {
        m.id
    }

    open spec fn save_succeeds(&self, m: TransactionModel) -> bool {
        true
    }

    open spec fn get_succeeds(&self, src: Seq<char>) -> bool {
        true
    }

    fn save_event(&mut self, event: Transaction) -> (r: Result<(), RepositoryError>) {
        let ghost prior = self.models();
        let ghost m = event@;
        self.events.push(event);
        proof {
            assert(self.models() =~= prior.push(m));
        }
        Ok(())
    }

    fn get_events(&self, source: String) -> (r: Result<Vec<Transaction>, RepositoryError>) {
        let ghost key = |m: TransactionModel| Self::key_of(m);
        let ghost pos = |m: TransactionModel| Self::pos_of(m);
        let n = self.events.len();
        let mut best: Option<usize> = None;
        let mut i: usize = 0;
        proof {
            assert(self.models().take(0) =~= Seq::<TransactionModel>::empty());
        }
        while i < n
            invariant
                0 <= i <= n,
                n == self.events.len(),
                key == (|m: TransactionModel| Self::key_of(m)),
                pos == (|m: TransactionModel| Self::pos_of(m)),
                match best {
                    None => latest_event(self.models().take(i as int), source@, key, pos)
                        is None,
                    Some(j) => j < i && latest_event(self.models().take(i as int), source@,
                        key, pos) == Some(self.models()[j as int]),
                },
            decreases n - i,
        {
            proof {
                assert(self.models()[i as int] == self.events@[i as int]@);
                assert(self.models().take(i + 1).drop_last() =~= self.models().take(i as int));
                assert(self.models().take(i + 1).last() == self.models()[i as int]);
                assert(key(self.models()[i as int]) == self.models()[i as int].source);
                assert(self.models()[i as int].source == self.events@[i as int].source@);
            }
            if self.events[i].source.eq(&source) {
                best = match best {
                    None => Some(i),
                    Some(j) => {
                        proof {
                            assert(self.models()[j as int] == self.events@[j as int]@);
                        }
                        if self.events[i].id >= self.events[j].id {
                            Some(i)
                        } else {
                            Some(j)
                        }
                    },
                };
            }
            i = i + 1;
        }
        proof {
            assert(self.models().take(n as int) =~= self.models());
        }
        match best {
            None => Ok(Vec::new()),
            Some(j) => {
                let mut found: Vec<Transaction> = Vec::new();
                found.push(self.events[j].clone());
                Ok(found)
            },
        }
    }
}

} // verus!

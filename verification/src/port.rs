//! The event repository port.
//!
//! A capability interface over an event type: an adapter persists one
//! event per call and retrieves the latest event of a partition key. The
//! contract is stated over the adapter's history, the sequence of event
//! models in write order, and over `latest_event`, the query's meaning.

use vstd::prelude::*;

use crate::errors::RepositoryError;

verus! {

/// The event of `hist` with partition key `src` and the greatest sort
/// position; among events of equal position the latest write wins.
/// `key` and `pos` give an event's partition key and sort position.
pub open spec fn latest_event<M>(
    hist: Seq<M>,
    src: Seq<char>,
    key: spec_fn(M) -> Seq<char>,
    pos: spec_fn(M) -> int,
) -> Option<M>
    decreases hist.len(),
{
    if hist.len() == 0 {
        None
    } else {
        let rest = latest_event(hist.drop_last(), src, key, pos);
        let last = hist.last();
        if key(last) == src {
            match rest {
                None => Some(last),
                Some(best) => if pos(last) >= pos(best) {
                    Some(last)
                } else {
                    Some(best)
                },
            }
        } else {
            rest
        }
    }
}

/// The capability contract an event store adapter satisfies: a durable
/// append per save, and a latest-event query that returns at most one
/// event, the one `latest_event` names. Writes the store refuses leave
/// the history unchanged.
pub trait EventRepository<E: View>: Sized {
    /// The events persisted so far, as models, in write order.
    spec fn history(&self) -> Seq<E::V>;

    /// The partition key of an event.
    spec fn key_of(m: E::V) -> Seq<char>;

    /// The sort position of an event within its partition.
    spec fn pos_of(m: E::V) -> int;

    /// Whether the adapter owes success to a save of this event.
    spec fn save_succeeds(&self, m: E::V) -> bool;

    /// Whether the adapter owes success to a query for this key.
    spec fn get_succeeds(&self, src: Seq<char>) -> bool;

    /// Persists one event: on success the history grows by exactly that
    /// event, on failure it is unchanged.
    fn save_event(&mut self, event: E) -> (r: Result<(), RepositoryError>)
        ensures
            r is Ok ==> final(self).history() == old(self).history().push(event@),
            r is Err ==> final(self).history() == old(self).history(),
            old(self).save_succeeds(event@) ==> r is Ok,
    ;

    /// Retrieves the most recent event of `source`: the empty sequence
    /// when the source has none, else exactly the event `latest_event`
    /// names, and never more than one.
    fn get_events(&self, source: String) -> (r: Result<Vec<E>, RepositoryError>)
        ensures
            self.get_succeeds(source@) ==> r is Ok,
            r matches Ok(v) ==> v@.len() <= 1,
            r matches Ok(v) ==> match latest_event(
                self.history(),
                source@,
                |m: E::V| Self::key_of(m),
                |m: E::V| Self::pos_of(m),
            ) {
                None => v@.len() == 0,
                Some(best) => v@.len() == 1 && v@[0]@ == best,
            },
    ;
}

/// The latest event of a source is an event of that source's history.
pub proof fn lemma_latest_membership<M>(
    hist: Seq<M>,
    src: Seq<char>,
    key: spec_fn(M) -> Seq<char>,
    pos: spec_fn(M) -> int,
)
    ensures
        latest_event(hist, src, key, pos) matches Some(best) ==> exists|i: int|
            0 <= i < hist.len() && hist[i] == best && key(best) == src,
    decreases hist.len(),
{
    if hist.len() > 0 {
        lemma_latest_membership(hist.drop_last(), src, key, pos);
        match latest_event(hist, src, key, pos) {
            Some(best) => {
                if key(hist.last()) == src && best == hist.last() {
                    assert(hist[hist.len() - 1] == best);
                } else {
                    let i = choose|i: int|
                        0 <= i < hist.drop_last().len() && hist.drop_last()[i] == best
                            && key(best) == src;
                    assert(hist[i] == best);
                }
            },
            None => {},
        }
    }
}

/// Round-trip law: appending an event whose sort position is no earlier
/// than that of every event its source already has makes it the latest
/// event of that source.
pub proof fn lemma_latest_after_append<M>(
    hist: Seq<M>,
    t: M,
    src: Seq<char>,
    key: spec_fn(M) -> Seq<char>,
    pos: spec_fn(M) -> int,
)
    requires
        key(t) == src,
        forall|i: int| 0 <= i < hist.len() && key(#[trigger] hist[i]) == src
            ==> pos(hist[i]) <= pos(t),
    ensures
        latest_event(hist.push(t), src, key, pos) == Some(t),
{
    assert(hist.push(t).drop_last() =~= hist);
    assert(hist.push(t).last() == t);
    lemma_latest_membership(hist, src, key, pos);
    match latest_event(hist, src, key, pos) {
        Some(best) => {
            let i = choose|i: int| 0 <= i < hist.len() && hist[i] == best && key(best) == src;
            assert(pos(hist[i]) <= pos(t));
        },
        None => {},
    }
}

/// A source with no event in the history has no latest event.
pub proof fn lemma_latest_of_untouched_source<M>(
    hist: Seq<M>,
    src: Seq<char>,
    key: spec_fn(M) -> Seq<char>,
    pos: spec_fn(M) -> int,
)
    requires
        forall|i: int| 0 <= i < hist.len() ==> key(#[trigger] hist[i]) != src,
    ensures
        latest_event(hist, src, key, pos) is None,
    decreases hist.len(),
{
    if hist.len() > 0 {
        assert(forall|i: int| 0 <= i < hist.drop_last().len()
            ==> key(#[trigger] hist.drop_last()[i]) != src);
        lemma_latest_of_untouched_source(hist.drop_last(), src, key, pos);
        assert(key(hist.last()) != src) by {
            assert(hist[hist.len() - 1] == hist.last());
        }
    }
}

/// Ordering law: of two events appended for the same fresh source with
/// different sort positions, the one with the later position is the
/// latest event, whichever was written first.
pub proof fn lemma_latest_of_two<M>(
    hist: Seq<M>,
    t1: M,
    t2: M,
    src: Seq<char>,
    key: spec_fn(M) -> Seq<char>,
    pos: spec_fn(M) -> int,
)
    requires
        key(t1) == src,
        key(t2) == src,
        pos(t1) != pos(t2),
        forall|i: int| 0 <= i < hist.len() ==> key(#[trigger] hist[i]) != src,
    ensures
        latest_event(hist.push(t1).push(t2), src, key, pos) == Some(
            if pos(t2) > pos(t1) {
                t2
            } else {
                t1
            },
        ),
{
    lemma_latest_of_untouched_source(hist, src, key, pos);
    assert(hist.push(t1).drop_last() =~= hist);
    assert(latest_event(hist.push(t1), src, key, pos) == Some(t1));
    assert(hist.push(t1).push(t2).drop_last() =~= hist.push(t1));
    assert(hist.push(t1).push(t2).last() == t2);
}

} // verus!

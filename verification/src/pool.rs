use vstd::prelude::*;

use crate::target::Origin;

verus! {

/// True if the entry at `at` is kept for `origin`.
pub open spec fn kept_at<C>(
    entries: Seq<(Origin, C)>,
    origin: (Seq<u8>, Seq<u8>, u16),
    at: int,
) -> bool {
    0 <= at < entries.len() && entries[at].0@ == origin
}

/// True if no origin has two entries.
pub open spec fn one_each<C>(entries: Seq<(Origin, C)>) -> bool {
    forall|i: int, j: int|
        0 <= i < entries.len() && 0 <= j < entries.len() && (#[trigger] entries[i]).0@ == (
        #[trigger] entries[j]).0@ ==> i == j
}

/// The connections of `entries`, by origin.
pub open spec fn by_origin<C>(entries: Seq<(Origin, C)>) -> Map<(Seq<u8>, Seq<u8>, u16), C> {
    Map::new(
        |origin: (Seq<u8>, Seq<u8>, u16)| exists|at: int| kept_at(entries, origin, at),
        |origin: (Seq<u8>, Seq<u8>, u16)| entries[choose|at: int| kept_at(entries, origin, at)].1,
    )
}

/// Idle connections, at most one for each origin.
///
/// A connection is either idle in the pool or leased to one exchange:
/// leasing removes it, and it comes back only by being put in again.
#[derive(Debug)]
pub struct Pool<C> {
    entries: Vec<(Origin, C)>,
}

impl<C> View for Pool<C> {
    type V = Map<(Seq<u8>, Seq<u8>, u16), C>;

    closed spec fn view(&self) -> Map<(Seq<u8>, Seq<u8>, u16), C> {
        by_origin(self.entries@)
    }
}

impl<C> Pool<C> {
    /// True if no origin has two connections.
    pub closed spec fn wf(self) -> bool {
        one_each(self.entries@)
    }

    /// A pool without connections.
    pub fn new() -> (pool: Pool<C>)
        ensures
            pool.wf(),
            pool@ == Map::<(Seq<u8>, Seq<u8>, u16), C>::empty(),
    {
        let pool = Pool { entries: Vec::new() };
        assert(pool@ =~= Map::<(Seq<u8>, Seq<u8>, u16), C>::empty());
        pool
    }

    /// The place of the connection that is kept for `origin`.
    fn position(&self, origin: &Origin) -> (at: Option<usize>)
        ensures
            match at {
                Some(i) => kept_at(self.entries@, origin@, i as int),
                None => forall|i: int| !kept_at(self.entries@, origin@, i),
            },
    {
        let mut i: usize = 0;
        while i < self.entries.len()
            invariant
                i <= self.entries@.len(),
                forall|j: int| 0 <= j < i ==> !kept_at(self.entries@, origin@, j),
            decreases self.entries@.len() - i,
        {
            if self.entries[i].0.same(origin) {
                return Some(i);
            }
            i += 1;
        }
        None
    }

    /// Leases the connection that is kept for `origin`, if there is one.
    /// It leaves the pool.
    pub fn remove(&mut self, origin: &Origin) -> (connection: Option<C>)
        requires
            old(self).wf(),
        ensures
            final(self).wf(),
            final(self)@ == old(self)@.remove(origin@),
            match connection {
                Some(c) => old(self)@.contains_key(origin@) && old(self)@[origin@] == c,
                None => !old(self)@.contains_key(origin@),
            },
    {
        match self.position(origin) {
            Some(at) => {
                let ghost before = self.entries@;
                let entry = self.entries.remove(at);
                proof {
                    let after = self.entries@;
                    assert(kept_at(before, origin@, at as int));
                    assert forall|i: int, j: int|
                        0 <= i < after.len() && 0 <= j < after.len() && (#[trigger] after[i]).0@ == (
                        #[trigger] after[j]).0@ implies i == j by {
                        let bi = if i < at { i } else { i + 1 };
                        let bj = if j < at { j } else { j + 1 };
                        assert(before[bi] == after[i]);
                        assert(before[bj] == after[j]);
                    }
                    assert forall|o: (Seq<u8>, Seq<u8>, u16)|
                        by_origin(after).contains_key(o) <==> by_origin(before).remove(
                            origin@,
                        ).contains_key(o) by {
                        if by_origin(after).contains_key(o) {
                            let i = choose|i: int| kept_at(after, o, i);
                            let bi = if i < at { i } else { i + 1 };
                            assert(kept_at(before, o, bi));
                        }
                        if by_origin(before).remove(origin@).contains_key(o) {
                            let bi = choose|i: int| kept_at(before, o, i);
                            let i = if bi < at { bi } else { bi - 1 };
                            assert(kept_at(after, o, i));
                        }
                    }
                    assert forall|o: (Seq<u8>, Seq<u8>, u16)|
                        by_origin(after).contains_key(o) implies by_origin(after)[o] == by_origin(
                            before,
                        ).remove(origin@)[o] by {
                        let i = choose|i: int| kept_at(after, o, i);
                        let bi = if i < at { i } else { i + 1 };
                        let chosen = choose|k: int| kept_at(before, o, k);
                        assert(kept_at(before, o, bi));
                        assert(before[bi] == after[i]);
                    }
                    assert(by_origin(after) =~= by_origin(before).remove(origin@));
                    let chosen = choose|k: int| kept_at(before, origin@, k);
                }
                Some(entry.1)
            },
            None => {
                assert(self@ =~= old(self)@.remove(origin@));
                None
            },
        }
    }

    /// Keeps `connection` for `origin`. A connection that was kept for
    /// it before is dropped.
    pub fn insert(&mut self, origin: Origin, connection: C)
        requires
            old(self).wf(),
        ensures
            final(self).wf(),
            final(self)@ == old(self)@.insert(origin@, connection),
    {
        let stale = self.remove(&origin);
        let ghost before = self.entries@;
        assert(!by_origin(before).contains_key(origin@));
        self.entries.push((origin, connection));
        proof {
            let after = self.entries@;
            let last = before.len() as int;
            assert(kept_at(after, origin@, last));
            assert forall|k: int| !kept_at(before, origin@, k) by {
                if kept_at(before, origin@, k) {
                    assert(by_origin(before).contains_key(origin@));
                }
            }
            assert forall|i: int, j: int|
                0 <= i < after.len() && 0 <= j < after.len() && (#[trigger] after[i]).0@ == (
                #[trigger] after[j]).0@ implies i == j by {
                if i < last {
                    assert(after[i] == before[i]);
                    assert(kept_at(before, after[i].0@, i));
                }
                if j < last {
                    assert(after[j] == before[j]);
                    assert(kept_at(before, after[j].0@, j));
                }
            }
            assert forall|o: (Seq<u8>, Seq<u8>, u16)|
                by_origin(after).contains_key(o) <==> by_origin(before).insert(
                    origin@,
                    connection,
                ).contains_key(o) by {
                if by_origin(after).contains_key(o) {
                    let i = choose|i: int| kept_at(after, o, i);
                    if i < last {
                        assert(kept_at(before, o, i));
                    }
                }
                if by_origin(before).contains_key(o) {
                    let i = choose|i: int| kept_at(before, o, i);
                    assert(kept_at(after, o, i));
                }
            }
            assert forall|o: (Seq<u8>, Seq<u8>, u16)|
                by_origin(after).contains_key(o) implies by_origin(after)[o] == by_origin(
                    before,
                ).insert(origin@, connection)[o] by {
                let i = choose|i: int| kept_at(after, o, i);
                if o == origin@ {
                    assert(i == last);
                } else {
                    assert(kept_at(before, o, i));
                    let chosen = choose|k: int| kept_at(before, o, k);
                    assert(kept_at(after, o, chosen));
                }
            }
            assert(by_origin(after) =~= by_origin(before).insert(origin@, connection));
            assert(old(self)@.remove(origin@).insert(origin@, connection) =~= old(self)@.insert(
                origin@,
                connection,
            ));
        }
    }

    /// The number of idle connections.
    pub fn len(&self) -> (len: usize)
        requires
            self.wf(),
        ensures
            len == self@.dom().len(),
            self@.dom().finite(),
    {
        proof {
            lemma_domain_size(self.entries@);
        }
        self.entries.len()
    }
}

/// A pool holds as many origins as it has entries.
pub proof fn lemma_domain_size<C>(entries: Seq<(Origin, C)>)
    requires
        one_each(entries),
    ensures
        by_origin(entries).dom().finite(),
        by_origin(entries).dom().len() == entries.len(),
    decreases entries.len(),
{
    if entries.len() == 0 {
        assert(by_origin(entries).dom() =~= Set::<(Seq<u8>, Seq<u8>, u16)>::empty());
    } else {
        let shorter = entries.drop_last();
        let origin = entries.last().0@;
        assert forall|i: int, j: int|
            0 <= i < shorter.len() && 0 <= j < shorter.len() && (#[trigger] shorter[i]).0@ == (
            #[trigger] shorter[j]).0@ implies i == j by {
            assert(shorter[i] == entries[i]);
            assert(shorter[j] == entries[j]);
        }
        lemma_domain_size(shorter);
        assert(kept_at(entries, origin, entries.len() - 1));
        assert forall|o: (Seq<u8>, Seq<u8>, u16)|
            by_origin(entries).dom().contains(o) <==> by_origin(shorter).dom().insert(
                origin,
            ).contains(o) by {
            if by_origin(entries).dom().contains(o) {
                let i = choose|i: int| kept_at(entries, o, i);
                if i < shorter.len() {
                    assert(kept_at(shorter, o, i));
                }
            }
            if by_origin(shorter).dom().contains(o) {
                let i = choose|i: int| kept_at(shorter, o, i);
                assert(kept_at(entries, o, i));
            }
        }
        assert(by_origin(entries).dom() =~= by_origin(shorter).dom().insert(origin));
        if by_origin(shorter).dom().contains(origin) {
            let i = choose|i: int| kept_at(shorter, origin, i);
            assert(entries[i] == shorter[i]);
            assert(kept_at(entries, origin, i));
        }
    }
}

} // verus!

//! The record type and the in-memory store: a collection of price records
//! with pairwise-distinct identifiers.

use vstd::prelude::*;

verus! {

/// A stored price entity: a generated identifier and an integer price.
#[derive(Clone, Copy, PartialEq, Eq, Structural, Debug)]
pub struct Price {
    pub id: u128,
    pub price: i64,
}

/// The error taxonomy of the store and of the service around it.
#[derive(Clone, Copy, PartialEq, Eq, Structural, Debug)]
pub enum PriceError {
    /// The request body holds no well-formed integer `price` field.
    Validation,
    /// The identifier is absent from the store.
    NotFound,
    /// An unexpected fault: a freshly generated identifier collided.
    Internal,
}

/// The store: an in-memory collection of records, keyed by identifier.
/// Identifiers are unique by construction; insertion order carries no meaning.
pub struct Prices {
    pub prices: Vec<Price>,
}

impl Prices {
    /// Identifiers are pairwise distinct.
    pub open spec fn wf(self) -> bool {
        forall|i: int, j: int|
            0 <= i < j < self.prices@.len() ==> self.prices@[i].id != self.prices@[j].id
    }

    /// The identifiers of the stored records, in storage order.
    pub open spec fn ids(self) -> Seq<u128> {
        self.prices@.map_values(|p: Price| p.id)
    }

    pub open spec fn contains_id(self, id: u128) -> bool {
        exists|i: int| 0 <= i < self.prices@.len() && self.prices@[i].id == id
    }

    pub open spec fn idx_of(self, id: u128) -> int {
        choose|i: int| 0 <= i < self.prices@.len() && self.prices@[i].id == id
    }

    /// The record stored under `id`, if any.
    pub open spec fn spec_get(self, id: u128) -> Option<Price> {
        if self.contains_id(id) {
            Some(self.prices@[self.idx_of(id)])
        } else {
            None
        }
    }

    /// In a well-formed store, any index holding `id` is the chosen one.
    proof fn lemma_idx_unique(self, id: u128, i: int)
        requires
            self.wf(),
            0 <= i < self.prices@.len(),
            self.prices@[i].id == id,
        ensures
            self.contains_id(id),
            self.idx_of(id) == i,
            self.spec_get(id) == Some(self.prices@[i]),
    {
        assert(self.contains_id(id));
        let j = self.idx_of(id);
        if i < j {
            assert(self.prices@[i].id != self.prices@[j].id);
        } else if j < i {
            assert(self.prices@[j].id != self.prices@[i].id);
        }
    }

    pub fn new() -> (s: Prices)
        ensures
            s.prices@ =~= Seq::<Price>::empty(),
            s.wf(),
    {
        Prices { prices: Vec::new() }
    }

    /// Decide well-formedness at run time: no identifier stored twice.
    pub fn is_wf(&self) -> (b: bool)
        ensures
            b == self.wf(),
    {
        let n = self.prices.len();
        for i in 0..n
            invariant
                n == self.prices@.len(),
                forall|x: int, y: int|
                    0 <= x < y < n && x < i ==> self.prices@[x].id != self.prices@[y].id,
        {
            let mut j: usize = i + 1;
            while j < n
                invariant
                    i < n == self.prices@.len(),
                    i < j <= n,
                    forall|y: int| i < y < j ==> self.prices@[i as int].id != self.prices@[y].id,
                decreases n - j,
            {
                if self.prices[i].id == self.prices[j].id {
                    return false;
                }
                j += 1;
            }
        }
        true
    }

    pub fn len(&self) -> (n: usize)
        ensures
            n == self.prices@.len(),
    {
        self.prices.len()
    }

    /// The index of the record stored under `id`, if any.
    fn find(&self, id: u128) -> (r: Option<usize>)
        ensures
            match r {
                Some(i) => i < self.prices@.len() && self.prices@[i as int].id == id,
                None => !self.contains_id(id),
            },
    {
        let n = self.prices.len();
        for i in 0..n
            invariant
                n == self.prices@.len(),
                forall|k: int| 0 <= k < i ==> self.prices@[k].id != id,
        {
            if self.prices[i].id == id {
                return Some(i);
            }
        }
        None
    }

    /// Look a record up by its identifier.
    pub fn get(&self, id: u128) -> (r: Option<Price>)
        requires
            self.wf(),
        ensures
            r == self.spec_get(id),
    {
        match self.find(id) {
            Some(i) => {
                let p = self.prices[i];
                proof {
                    self.lemma_idx_unique(id, i as int);
                }
                Some(p)
            },
            None => None,
        }
    }

    /// Insert a record under an identifier not yet present; report whether
    /// the identifier was in fact fresh, and change nothing when it was not.
    pub fn insert_new(&mut self, id: u128, price: i64) -> (ok: bool)
        requires
            old(self).wf(),
        ensures
            ok == !old(self).contains_id(id),
            ok ==> final(self).prices@ == old(self).prices@.push(Price { id, price }),
            !ok ==> *final(self) == *old(self),
            final(self).wf(),
    {
        match self.find(id) {
            Some(_) => {
                proof {
                    assert(old(self).contains_id(id));
                }
                false
            },
            None => {
                self.prices.push(Price { id, price });
                proof {
                    assert forall|i: int, j: int|
                        0 <= i < j < self.prices@.len() implies self.prices@[i].id
                        != self.prices@[j].id by {
                        if j < self.prices@.len() - 1 {
                            assert(old(self).prices@[i].id != old(self).prices@[j].id);
                        } else {
                            assert(old(self).prices@[i].id != id);
                        }
                    }
                }
                true
            },
        }
    }

    /// Create a record with a freshly generated identifier and the given
    /// price. Fails only when the generated identifier collides with one
    /// already stored, and then changes nothing; in an empty store no
    /// collision is possible, so there creation always succeeds.
    pub fn create(&mut self, price: i64) -> (r: Result<Price, PriceError>)
        requires
            old(self).wf(),
        ensures
            final(self).wf(),
            match r {
                Ok(p) => p.price == price && !old(self).contains_id(p.id) && final(self).prices@
                    == old(self).prices@.push(p),
                Err(e) => e == PriceError::Internal && *final(self) == *old(self) && old(
                    self,
                ).prices@.len() > 0,
            },
    {
        let id = crate::ids::random_id();
        if self.insert_new(id, price) {
            Ok(Price { id, price })
        } else {
            Err(PriceError::Internal)
        }
    }

    /// Remove the record stored under `id`; when none is, report `NotFound`
    /// and change nothing.
    pub fn delete(&mut self, id: u128) -> (r: Result<(), PriceError>)
        requires
            old(self).wf(),
        ensures
            final(self).wf(),
            match r {
                Ok(()) => old(self).contains_id(id) && final(self).prices@ == old(
                    self,
                ).prices@.remove(old(self).idx_of(id)) && !final(self).contains_id(id),
                Err(e) => e == PriceError::NotFound && !old(self).contains_id(id) && *final(self)
                    == *old(self),
            },
    {
        match self.find(id) {
            Some(i) => {
                proof {
                    old(self).lemma_idx_unique(id, i as int);
                }
                self.prices.remove(i);
                proof {
                    lemma_remove_id(*old(self), *self, id);
                }
                Ok(())
            },
            None => Err(PriceError::NotFound),
        }
    }

    /// A snapshot of every stored record, in storage order.
    pub fn list_all(&self) -> (r: Vec<Price>)
        ensures
            r@ == self.prices@,
    {
        let n = self.prices.len();
        let mut out: Vec<Price> = Vec::new();
        for i in 0..n
            invariant
                n == self.prices@.len(),
                out@ =~= self.prices@.subrange(0, i as int),
        {
            out.push(self.prices[i]);
            proof {
                assert(out@ =~= self.prices@.subrange(0, i + 1));
            }
        }
        proof {
            assert(out@ =~= self.prices@);
        }
        out
    }
}

/// Creating a record under a fresh identifier and then getting that
/// identifier yields that very record, its price the one it was created with.
pub proof fn lemma_create_then_get(s1: Prices, s2: Prices, p: Price)
    requires
        s1.wf(),
        !s1.contains_id(p.id),
        s2.prices@ == s1.prices@.push(p),
    ensures
        s2.wf(),
        s2.spec_get(p.id) == Some(p),
{
    let n = s1.prices@.len() as int;
    assert forall|i: int, j: int|
        0 <= i < j < s2.prices@.len() implies s2.prices@[i].id != s2.prices@[j].id by {
        if j < n {
            assert(s1.prices@[i].id != s1.prices@[j].id);
        } else {
            assert(s2.prices@[j] == p);
            assert(s1.prices@[i].id != p.id);
        }
    }
    assert(s2.prices@[n] == p);
    s2.lemma_idx_unique(p.id, n);
}

/// A well-formed store holds no identifier twice: however many records were
/// created, their identifiers are pairwise distinct.
pub proof fn lemma_ids_unique(s: Prices)
    requires
        s.wf(),
    ensures
        s.ids().no_duplicates(),
{
    assert forall|i: int, j: int|
        0 <= i < s.ids().len() && 0 <= j < s.ids().len() && i != j implies s.ids()[i]
        != s.ids()[j] by {
        assert(s.ids()[i] == s.prices@[i].id);
        assert(s.ids()[j] == s.prices@[j].id);
        if i < j {
            assert(s.prices@[i].id != s.prices@[j].id);
        } else {
            assert(s.prices@[j].id != s.prices@[i].id);
        }
    }
}

/// An identifier a store does not hold — one never created, or one already
/// deleted — yields no record.
pub proof fn lemma_get_absent(s: Prices, id: u128)
    requires
        !s.contains_id(id),
    ensures
        s.spec_get(id) == None::<Price>,
{
}

/// Deleting one identifier leaves the record of every other identifier
/// unchanged: a delete has no side effect beyond its own entry.
pub proof fn lemma_delete_preserves_others(s1: Prices, s2: Prices, id: u128)
    requires
        s1.wf(),
        s1.contains_id(id),
        s2.prices@ == s1.prices@.remove(s1.idx_of(id)),
    ensures
        forall|k: u128| k != id ==> s2.spec_get(k) == s1.spec_get(k),
        !s2.contains_id(id),
{
    lemma_remove_id(s1, s2, id);
}

/// Removing the record at the identifier's index keeps the store well formed,
/// makes the identifier absent, and stores every other identifier unchanged.
proof fn lemma_remove_id(s1: Prices, s2: Prices, id: u128)
    requires
        s1.wf(),
        s1.contains_id(id),
        s2.prices@ == s1.prices@.remove(s1.idx_of(id)),
    ensures
        s2.wf(),
        !s2.contains_id(id),
        forall|k: u128| k != id ==> s2.spec_get(k) == s1.spec_get(k),
{
    let n = s1.idx_of(id);
    assert forall|i: int, j: int|
        0 <= i < j < s2.prices@.len() implies s2.prices@[i].id != s2.prices@[j].id by {
        let i0 = if i < n { i } else { i + 1 };
        let j0 = if j < n { j } else { j + 1 };
        assert(s2.prices@[i] == s1.prices@[i0]);
        assert(s2.prices@[j] == s1.prices@[j0]);
        assert(s1.prices@[i0].id != s1.prices@[j0].id);
    }
    assert forall|i: int| 0 <= i < s2.prices@.len() implies s2.prices@[i].id != id by {
        let i0 = if i < n { i } else { i + 1 };
        assert(s2.prices@[i] == s1.prices@[i0]);
        if s1.prices@[i0].id == id {
            s1.lemma_idx_unique(id, i0);
        }
    }
    assert forall|k: u128| k != id implies s2.spec_get(k) == s1.spec_get(k) by {
        if s2.contains_id(k) {
            let i = s2.idx_of(k);
            let i0 = if i < n { i } else { i + 1 };
            assert(s2.prices@[i] == s1.prices@[i0]);
            s1.lemma_idx_unique(k, i0);
            s2.lemma_idx_unique(k, i);
        } else if s1.contains_id(k) {
            let i0 = s1.idx_of(k);
            assert(s1.prices@[i0].id == k);
            let i = if i0 < n { i0 } else { i0 - 1 };
            assert(i0 != n);
            assert(s2.prices@[i] == s1.prices@[i0]);
            assert(s2.contains_id(k));
        }
    }
}

} // verus!

use vstd::prelude::*;
use vstd::seq_lib::to_multiset_contains;

verus! {

/// The nearest of the hits offered so far, as `(offer index, key)`.
///
/// A hit's distance along the ray is carried as an order key: an unsigned
/// integer that orders as the distances do (the bit pattern of a
/// non-negative IEEE-754 single has this property). `None` stands for an
/// object that the ray missed. A hit no farther than the nearest so far
/// replaces it, so among equally near hits the one offered last wins.
pub open spec fn nearest_of(offers: Seq<Option<u32>>) -> Option<(int, u32)>
    decreases offers.len(),
{
    if offers.len() == 0 {
        None
    } else {
        let before = nearest_of(offers.drop_last());
        match offers.last() {
            None => before,
            Some(key) => if before is Some && before->Some_0.1 < key {
                before
            } else {
                Some(((offers.len() - 1) as int, key))
            },
        }
    }
}

/// The key of the nearest hit among `offers`, if any.
pub open spec fn nearest_key(offers: Seq<Option<u32>>) -> Option<u32> {
    match nearest_of(offers) {
        Some(best) => Some(best.1),
        None => None,
    }
}

/// Finds the nearest hit of a ray across a scene's objects. Each object is
/// tested in turn with the nearest key so far as the far end of its interval,
/// and its answer is offered here.
pub struct NearestHit {
    best: Option<(usize, u32)>,
    count: usize,
    offers: Ghost<Seq<Option<u32>>>,
}

impl View for NearestHit {
    type V = Seq<Option<u32>>;

    closed spec fn view(&self) -> Seq<Option<u32>> {
        self.offers@
    }
}

impl NearestHit {
    pub closed spec fn wf(&self) -> bool {
        &&& self.count == self.offers@.len()
        &&& match nearest_of(self.offers@) {
            Some(best) => self.best == Some((best.0 as usize, best.1)),
            None => self.best is None,
        }
    }

    /// Nothing offered yet.
    pub fn new() -> (r: NearestHit)
        ensures
            r.wf(),
            r@ == Seq::<Option<u32>>::empty(),
    {
        NearestHit { best: None, count: 0, offers: Ghost(Seq::empty()) }
    }

    /// The key of the nearest hit so far: the far end of the interval the next
    /// object is tested in (`None`: the caller's own far end).
    pub fn bound(&self) -> (r: Option<u32>)
        requires
            self.wf(),
        ensures
            r == nearest_key(self@),
    {
        match self.best {
            Some(best) => Some(best.1),
            None => None,
        }
    }

    /// Takes the answer of the next object: the key of its hit, or `None`.
    pub fn offer(&mut self, key: Option<u32>)
        requires
            old(self).wf(),
            old(self)@.len() < usize::MAX,
        ensures
            final(self).wf(),
            final(self)@ == old(self)@.push(key),
    {
        let ghost offers = self.offers@.push(key);
        assert(offers.drop_last() =~= self.offers@);
        if let Some(k) = key {
            let replace = match self.best {
                Some(best) => k <= best.1,
                None => true,
            };
            if replace {
                self.best = Some((self.count, k));
            }
        }
        self.count = self.count + 1;
        self.offers = Ghost(offers);
    }

    /// Which of the offered objects holds the nearest hit, by its place in
    /// the order of offers.
    pub fn nearest(&self) -> (r: Option<usize>)
        requires
            self.wf(),
        ensures
            r == (match nearest_of(self@) {
                Some(best) => Some(best.0 as usize),
                None => None,
            }),
    {
        match self.best {
            Some(best) => Some(best.0),
            None => None,
        }
    }
}

/// The selected hit is the nearest: it is one of the offers, no offered hit
/// is nearer, and none offered after it is as near. There is none exactly
/// when every object was missed.
pub proof fn nearest_is_closest(offers: Seq<Option<u32>>)
    ensures
        nearest_of(offers) is None <==> forall|i: int| 0 <= i < offers.len() ==> #[trigger] offers[i] is None,
        nearest_of(offers) is Some ==> {
            let (at, key) = nearest_of(offers)->Some_0;
            &&& 0 <= at < offers.len()
            &&& offers[at] == Some(key)
            &&& forall|i: int|
                0 <= i < offers.len() && #[trigger] offers[i] is Some ==> key <= offers[i]->Some_0
            &&& forall|i: int|
                at < i < offers.len() && #[trigger] offers[i] is Some ==> key < offers[i]->Some_0
        },
    decreases offers.len(),
{
    if offers.len() > 0 {
        let n = offers.len() - 1;
        let before = offers.drop_last();
        nearest_is_closest(before);
        assert forall|i: int| 0 <= i < n implies #[trigger] before[i] == offers[i] by {}
        assert(offers.last() == offers[n]);
        if nearest_of(offers) is None {
            assert forall|i: int| 0 <= i < offers.len() implies #[trigger] offers[i] is None by {
                if i < n {
                    assert(before[i] is None);
                }
            }
        } else {
            let (at, key) = nearest_of(offers)->Some_0;
            assert forall|i: int|
                0 <= i < offers.len() && #[trigger] offers[i] is Some implies key
                <= offers[i]->Some_0 by {
                if i < n {
                    assert(before[i] is Some);
                }
            }
            assert forall|i: int|
                at < i < offers.len() && #[trigger] offers[i] is Some implies key
                < offers[i]->Some_0 by {
                if i < n {
                    assert(before[i] is Some);
                }
            }
            assert(offers[at] == Some(key));
        }
    }
}

/// Which hit is nearest does not depend on the order in which the objects
/// are offered: any reordering of the same answers selects a hit just as
/// near.
pub proof fn nearest_key_ignores_order(a: Seq<Option<u32>>, b: Seq<Option<u32>>)
    requires
        a.to_multiset() == b.to_multiset(),
    ensures
        nearest_key(a) == nearest_key(b),
{
    nearest_is_closest(a);
    nearest_is_closest(b);
    if nearest_of(a) is Some {
        let (i, ka) = nearest_of(a)->Some_0;
        to_multiset_contains(a, Some(ka));
        to_multiset_contains(b, Some(ka));
        let j = choose|j: int| 0 <= j < b.len() && b[j] == Some(ka);
        assert(b[j] is Some);
        let (_, kb) = nearest_of(b)->Some_0;
        to_multiset_contains(b, Some(kb));
        to_multiset_contains(a, Some(kb));
        let m = choose|m: int| 0 <= m < a.len() && a[m] == Some(kb);
        assert(a[m] is Some);
    } else if nearest_of(b) is Some {
        let (j, kb) = nearest_of(b)->Some_0;
        to_multiset_contains(b, Some(kb));
        to_multiset_contains(a, Some(kb));
        let m = choose|m: int| 0 <= m < a.len() && a[m] == Some(kb);
        assert(a[m] is Some);
    }
}

} // verus!

//! A set of peer addresses that hands its items out in the order in which
//! they came in.

use vstd::prelude::*;

verus! {

/// The texts of a sequence of strings, in order.
pub open spec fn texts(items: Seq<String>) -> Seq<Seq<char>> {
    Seq::new(items.len(), |i: int| items[i]@)
}

/// A set of addresses, held in the order in which they came in. It is
/// well formed when no address is held twice.
#[derive(Debug)]
pub struct UriSet {
    pub items: Vec<String>,
}

impl View for UriSet {
    type V = Set<Seq<char>>;

    open spec fn view(&self) -> Set<Seq<char>> {
        texts(self.items@).to_set()
    }
}

impl UriSet {
    /// No address is held twice.
    pub open spec fn wf(&self) -> bool {
        texts(self.items@).no_duplicates()
    }

    /// Whether no address is held twice.
    pub fn is_well_formed(&self) -> (ok: bool)
        ensures
            ok == self.wf(),
    {
        let ghost all = texts(self.items@);
        let n = self.items.len();
        let mut i: usize = 0;
        while i < n
            invariant
                i <= n,
                n == self.items@.len(),
                all == texts(self.items@),
                forall|a: int, b: int| 0 <= a < b < i ==> all[a] != all[b],
            decreases n - i,
        {
            let mut j: usize = 0;
            while j < i
                invariant
                    j <= i < n,
                    n == self.items@.len(),
                    all == texts(self.items@),
                    forall|a: int| 0 <= a < j ==> all[a] != all[i as int],
                decreases i - j,
            {
                if self.items[j] == self.items[i] {
                    assert(all[j as int] == all[i as int]);
                    return false;
                }
                j += 1;
            }
            i += 1;
        }
        assert forall|a: int, b: int| 0 <= a < all.len() && 0 <= b < all.len() && a != b implies all[a]
            != all[b] by {
            if a < b {
            } else {
                assert(all[b] != all[a]);
            }
        }
        true
    }

    /// A set holds finitely many addresses.
    pub proof fn lemma_finite(&self)
        ensures
            self@.finite(),
    {
        vstd::seq_lib::seq_to_set_is_finite(texts(self.items@));
    }

    /// The empty set.
    pub fn new() -> (set: UriSet)
        ensures
            set@ == Set::<Seq<char>>::empty(),
            set.wf(),
    {
        let set = UriSet { items: Vec::new() };
        assert(set@ =~= Set::<Seq<char>>::empty());
        set
    }

    /// The number of addresses in the set.
    pub fn len(&self) -> (n: usize)
        requires
            self.wf(),
        ensures
            n == self@.len(),
            self@.finite(),
    {
        proof {
            texts(self.items@).unique_seq_to_set();
            vstd::seq_lib::seq_to_set_is_finite(texts(self.items@));
        }
        self.items.len()
    }

    /// Whether the set holds no address.
    pub fn is_empty(&self) -> (empty: bool)
        ensures
            empty == (self@ == Set::<Seq<char>>::empty()),
    {
        proof {
            if self.items@.len() == 0 {
                assert(self@ =~= Set::<Seq<char>>::empty());
            } else {
                assert(texts(self.items@)[0] == self.items@[0]@);
                assert(self@.contains(self.items@[0]@));
            }
        }
        self.items.len() == 0
    }

    /// Where `uri` stands among the items, if it is one of them.
    fn position(&self, uri: &String) -> (at: Option<usize>)
        ensures
            match at {
                Some(i) => i < self.items@.len() && self.items@[i as int]@ == uri@,
                None => !self@.contains(uri@),
            },
    {
        let mut i: usize = 0;
        while i < self.items.len()
            invariant
                i <= self.items@.len(),
                forall|j: int| 0 <= j < i ==> self.items@[j]@ != uri@,
            decreases self.items@.len() - i,
        {
            if self.items[i] == *uri {
                return Some(i);
            }
            i += 1;
        }
        proof {
            if self@.contains(uri@) {
                let j = choose|j: int| 0 <= j < texts(self.items@).len() && texts(self.items@)[j] == uri@;
                assert(self.items@[j]@ == uri@);
            }
        }
        None
    }

    /// Whether the set holds `uri`.
    pub fn contains(&self, uri: &String) -> (held: bool)
        ensures
            held == self@.contains(uri@),
    {
        match self.position(uri) {
            Some(i) => {
                proof {
                    assert(texts(self.items@)[i as int] == uri@);
                }
                true
            },
            None => false,
        }
    }

    /// Adds `uri` to the set. Returns whether it was new.
    pub fn insert(&mut self, uri: String) -> (added: bool)
        requires
            old(self).wf(),
        ensures
            final(self).wf(),
            final(self)@ == old(self)@.insert(uri@),
            added == !old(self)@.contains(uri@),
            added ==> final(self).items@ == old(self).items@.push(uri),
            !added ==> final(self).items@ == old(self).items@,
    {
        if self.contains(&uri) {
            assert(self@ =~= self@.insert(uri@));
            false
        } else {
            let ghost before = texts(self.items@);
            self.items.push(uri);
            proof {
                let after = texts(self.items@);
                assert(after =~= before.push(uri@));
                assert(after.no_duplicates()) by {
                    assert forall|i: int, j: int|
                        0 <= i < after.len() && 0 <= j < after.len() && i != j implies after[i]
                        != after[j] by {
                        if i < before.len() && j < before.len() {
                            assert(before[i] != before[j]);
                        } else if i < before.len() {
                            assert(before.to_set().contains(before[i]));
                        } else {
                            assert(before.to_set().contains(before[j]));
                        }
                    }
                }
                assert(after.to_set() =~= before.to_set().insert(uri@)) by {
                    assert forall|x: Seq<char>| after.to_set().contains(x) implies before.to_set().insert(
                        uri@,
                    ).contains(x) by {
                        let k = choose|k: int| 0 <= k < after.len() && after[k] == x;
                        if k < before.len() {
                            assert(before[k] == x);
                        }
                    }
                    assert forall|x: Seq<char>|
                        before.to_set().insert(uri@).contains(x) implies after.to_set().contains(
                        x,
                    ) by {
                        if x == uri@ {
                            assert(after[before.len() as int] == x);
                        } else {
                            let k = choose|k: int| 0 <= k < before.len() && before[k] == x;
                            assert(after[k] == x);
                        }
                    }
                }
            }
            true
        }
    }

    /// Takes `uri` out of the set. Returns whether it was there.
    pub fn remove(&mut self, uri: &String) -> (removed: bool)
        requires
            old(self).wf(),
        ensures
            final(self).wf(),
            final(self)@ == old(self)@.remove(uri@),
            removed == old(self)@.contains(uri@),
    {
        match self.position(uri) {
            Some(i) => {
                let ghost before = texts(self.items@);
                assert(before[i as int] == uri@);
                self.items.remove(i);
                proof {
                    let after = texts(self.items@);
                    assert(after =~= before.remove(i as int));
                    assert(after.no_duplicates()) by {
                        assert forall|a: int, b: int|
                            0 <= a < after.len() && 0 <= b < after.len() && a != b implies after[a]
                            != after[b] by {
                            let a0 = if a < i { a } else { a + 1 };
                            let b0 = if b < i { b } else { b + 1 };
                            assert(after[a] == before[a0]);
                            assert(after[b] == before[b0]);
                        }
                    }
                    assert(after.to_set() =~= before.to_set().remove(uri@)) by {
                        assert forall|x: Seq<char>| after.to_set().contains(x) implies before.to_set().remove(
                            uri@,
                        ).contains(x) by {
                            let k = choose|k: int| 0 <= k < after.len() && after[k] == x;
                            let k0 = if k < i { k } else { k + 1 };
                            assert(before[k0] == x);
                        }
                        assert forall|x: Seq<char>|
                            before.to_set().remove(uri@).contains(x) implies after.to_set().contains(
                            x,
                        ) by {
                            let k = choose|k: int| 0 <= k < before.len() && before[k] == x;
                            let k1 = if k < i { k } else { k - 1 };
                            assert(after[k1] == x);
                        }
                    }
                }
                true
            },
            None => {
                assert(self@ =~= self@.remove(uri@));
                false
            },
        }
    }

    /// The addresses of the set, each once, in the order in which they came
    /// in.
    pub fn to_vec(&self) -> (items: Vec<String>)
        ensures
            texts(items@) == texts(self.items@),
    {
        let mut items: Vec<String> = Vec::new();
        let mut i: usize = 0;
        while i < self.items.len()
            invariant
                i <= self.items@.len(),
                items@.len() == i,
                forall|j: int| 0 <= j < i ==> items@[j]@ == self.items@[j]@,
            decreases self.items@.len() - i,
        {
            items.push(self.items[i].clone());
            i += 1;
        }
        assert(texts(items@) =~= texts(self.items@));
        items
    }
}

impl Clone for UriSet {
    fn clone(&self) -> (copy: UriSet)
        ensures
            copy@ == self@,
            copy.wf() == self.wf(),
            texts(copy.items@) == texts(self.items@),
    {
        let items = self.to_vec();
        UriSet { items }
    }
}

} // verus!

//! A set of option keys.

use vstd::prelude::*;
use vstd::std_specs::cmp::PartialEqSpecImpl;
use crate::text::{argv_view, clone_texts, same_text};

verus! {

/// A finite set of option keys such as `--color` or `-n`.
///
/// The keys are held in the order in which they came in, each of them once.
#[derive(Debug)]
pub struct OptionKeys {
    keys: Vec<String>,
}

impl View for OptionKeys {
    type V = Set<Seq<char>>;

    closed spec fn view(&self) -> Set<Seq<char>> {
        argv_view(self.keys@).to_set()
    }
}

impl OptionKeys {
    #[verifier::type_invariant]
    spec fn each_key_once(self) -> bool {
        argv_view(self.keys@).no_duplicates()
    }

    /// The empty set.
    pub fn new() -> (r: Self)
        ensures
            r@ == Set::<Seq<char>>::empty(),
    {
        let r = OptionKeys { keys: Vec::new() };
        assert(argv_view(r.keys@) =~= Seq::empty());
        assert(r@ =~= Set::<Seq<char>>::empty());
        r
    }

    /// Whether `key` is in the set.
    pub fn contains(&self, key: &str) -> (r: bool)
        ensures
            r == self@.contains(key@),
    {
        let mut i: usize = 0;
        while i < self.keys.len()
            invariant
                i <= self.keys.len(),
                forall|j: int| 0 <= j < i ==> argv_view(self.keys@)[j] != key@,
            decreases self.keys.len() - i,
        {
            if same_text(self.keys[i].as_str(), key) {
                assert(argv_view(self.keys@)[i as int] == key@);
                return true;
            }
            i += 1;
        }
        false
    }

    /// Puts `key` into the set; says whether it was new to the set.
    pub fn insert(&mut self, key: String) -> (r: bool)
        ensures
            final(self)@ == old(self)@.insert(key@),
            r == !old(self)@.contains(key@),
    {
        proof {
            use_type_invariant(&*self);
        }
        if self.contains(key.as_str()) {
            assert(self@.insert(key@) =~= self@);
            false
        } else {
            let ghost before = argv_view(self.keys@);
            let mut taken = OptionKeys::new();
            std::mem::swap(self, &mut taken);
            let mut keys = taken.keys;
            keys.push(key);
            assert(argv_view(keys@) =~= before.push(key@));
            *self = OptionKeys { keys };
            assert(before.push(key@).to_set() =~= before.to_set().insert(key@)) by {
                assert forall|k: Seq<char>| before.push(key@).contains(k) <==> (before.contains(k)
                    || k == key@) by {
                    if before.contains(k) {
                        let j = choose|j: int| 0 <= j < before.len() && before[j] == k;
                        assert(before.push(key@)[j] == k);
                    }
                    if k == key@ {
                        assert(before.push(key@)[before.len() as int] == k);
                    }
                }
            }
            true
        }
    }

    /// The number of keys in the set.
    pub fn len(&self) -> (r: usize)
        ensures
            r == self@.len(),
            self@.finite(),
    {
        proof {
            use_type_invariant(self);
            argv_view(self.keys@).unique_seq_to_set();
        }
        self.keys.len()
    }

    /// Whether the set holds no key.
    pub fn is_empty(&self) -> (r: bool)
        ensures
            r == (self@ == Set::<Seq<char>>::empty()),
    {
        let r = self.keys.len() == 0;
        proof {
            if r {
                assert(argv_view(self.keys@) =~= Seq::empty());
                assert(self@ =~= Set::<Seq<char>>::empty());
            } else {
                assert(argv_view(self.keys@)[0] == self.keys@[0]@);
                assert(argv_view(self.keys@).contains(self.keys@[0]@));
                assert(self@.contains(self.keys@[0]@));
            }
        }
        r
    }

    /// The keys of the set, each of them once.
    pub fn to_vec(&self) -> (r: Vec<String>)
        ensures
            argv_view(r@).to_set() == self@,
            argv_view(r@).no_duplicates(),
    {
        proof {
            use_type_invariant(self);
        }
        clone_texts(&self.keys)
    }

    /// Whether every key of this set is in `other`.
    pub fn is_subset_of(&self, other: &OptionKeys) -> (r: bool)
        ensures
            r == self@.subset_of(other@),
    {
        let mut i: usize = 0;
        while i < self.keys.len()
            invariant
                i <= self.keys.len(),
                forall|j: int| 0 <= j < i ==> other@.contains(#[trigger] argv_view(self.keys@)[j]),
            decreases self.keys.len() - i,
        {
            if !other.contains(self.keys[i].as_str()) {
                assert(argv_view(self.keys@)[i as int] == self.keys@[i as int]@);
                assert(argv_view(self.keys@).contains(self.keys@[i as int]@));
                assert(self@.contains(self.keys@[i as int]@));
                return false;
            }
            assert(argv_view(self.keys@)[i as int] == self.keys@[i as int]@);
            i += 1;
        }
        assert forall|k: Seq<char>| self@.contains(k) implies other@.contains(k) by {
            let j = choose|j: int| 0 <= j < self.keys@.len() && argv_view(self.keys@)[j] == k;
            assert(other@.contains(argv_view(self.keys@)[j]));
        }
        true
    }
}

impl Clone for OptionKeys {
    fn clone(&self) -> (r: Self)
        ensures
            r@ == self@,
    {
        proof {
            use_type_invariant(self);
        }
        let keys = self.to_vec();
        OptionKeys { keys }
    }
}

impl PartialEq for OptionKeys {
    fn eq(&self, other: &Self) -> (r: bool) {
        let r = self.is_subset_of(other) && other.is_subset_of(self);
        assert(r == (self@ =~= other@));
        r
    }
}

impl PartialEqSpecImpl for OptionKeys {
    open spec fn obeys_eq_spec() -> bool {
        true
    }

    open spec fn eq_spec(&self, other: &Self) -> bool {
        self@ == other@
    }
}

} // verus!

//! The register of distinct network names, kept in byte-wise order.

use crate::name::{
    lemma_lex_less_asymmetric, lemma_lex_less_irreflexive, lemma_lex_less_transitive, lex_less,
    valid_name_bytes, NetworkName, Standing,
};
use vstd::prelude::*;

verus! {

/// Every entry of `names` is below each entry that follows it.
pub open spec fn strictly_increasing(names: Seq<Seq<u8>>) -> bool {
    forall|i: int, j: int| 0 <= i < j < names.len() ==> lex_less(names[i], names[j])
}

/// Every entry of `names` has a length that a network name may have.
pub open spec fn all_valid(names: Seq<Seq<u8>>) -> bool {
    forall|i: int| 0 <= i < names.len() ==> valid_name_bytes(#[trigger] names[i])
}

/// The number of entries of `names` that are below `x`. In a strictly
/// increasing sequence this is the place where `x` stands or belongs.
pub open spec fn rank(names: Seq<Seq<u8>>, x: Seq<u8>) -> int
    decreases names.len(),
{
    if names.len() == 0 {
        0
    } else {
        rank(names.drop_last(), x) + if lex_less(names.last(), x) {
            1int
        } else {
            0int
        }
    }
}

/// Whether `x` is new to a register with these names: none of them is `x`.
pub open spec fn is_new(names: Seq<Seq<u8>>, x: Seq<u8>) -> bool {
    !names.contains(x)
}

/// The register's names after `x` was offered to it: unchanged where `x`
/// is among them, and else with `x` put in at its rank.
pub open spec fn with_name(names: Seq<Seq<u8>>, x: Seq<u8>) -> Seq<Seq<u8>> {
    if names.contains(x) {
        names
    } else {
        names.insert(rank(names, x), x)
    }
}

/// The byte sequences of a sequence of names, in the same order.
pub open spec fn names_of(entries: Seq<NetworkName>) -> Seq<Seq<u8>> {
    Seq::new(entries.len(), |i: int| entries[i]@)
}

/// The names that were seen so far: an ordered collection in which no name
/// stands twice. It only grows: no name is ever taken out or changed. It
/// has no bound of its own and takes names for as long as memory lasts.
#[derive(Debug)]
pub struct DiscoverySet {
    entries: Vec<NetworkName>,
}

impl Clone for DiscoverySet {
    /// A second register with the same names.
    fn clone(&self) -> (copy: DiscoverySet)
        ensures
            copy.names() == self.names(),
            copy@ == self@,
    {
        proof {
            use_type_invariant(self);
        }
        DiscoverySet { entries: self.snapshot() }
    }
}

impl View for DiscoverySet {
    type V = Set<Seq<u8>>;

    /// The set of the names in the register.
    open spec fn view(&self) -> Set<Seq<u8>> {
        self.names().to_set()
    }
}

impl DiscoverySet {
    /// The names in the register, in the order in which a snapshot gives
    /// them.
    pub closed spec fn names(&self) -> Seq<Seq<u8>> {
        names_of(self.entries@)
    }

    /// What holds of every register: its names stand in strictly
    /// increasing order, so none stands twice, and each is a valid name.
    #[verifier::type_invariant]
    pub open spec fn ordered(&self) -> bool {
        strictly_increasing(self.names()) && all_valid(self.names())
    }

    /// An empty register.
    pub fn new() -> (set: DiscoverySet)
        ensures
            set.names() == Seq::<Seq<u8>>::empty(),
            set@ == Set::<Seq<u8>>::empty(),
    {
        let set = DiscoverySet { entries: Vec::new() };
        proof {
            assert(set.names() =~= Seq::<Seq<u8>>::empty());
            assert(set@ =~= Set::<Seq<u8>>::empty());
        }
        set
    }

    /// The number of names in the register.
    pub fn len(&self) -> (n: usize)
        ensures
            n == self.names().len(),
            n == self@.len(),
    {
        proof {
            use_type_invariant(self);
            lemma_increasing_no_duplicates(self.names());
            self.names().unique_seq_to_set();
        }
        self.entries.len()
    }

    /// Whether the register holds no name.
    pub fn is_empty(&self) -> (empty: bool)
        ensures
            empty == (self.names().len() == 0),
            empty == (self@ == Set::<Seq<u8>>::empty()),
    {
        proof {
            if self.names().len() == 0 {
                assert(self@ =~= Set::<Seq<u8>>::empty());
            } else {
                assert(self.names().contains(self.names()[0]));
                assert(self@.contains(self.names()[0]));
            }
        }
        self.entries.len() == 0
    }

    /// Looks `name` up by halving the range in which it can stand. Gives
    /// whether it was found, and its rank.
    fn locate(&self, name: &NetworkName) -> (place: (bool, usize))
        ensures
            place.0 == self.names().contains(name@),
            place.1 == rank(self.names(), name@),
            place.1 <= self.names().len(),
            place.0 ==> place.1 < self.names().len() && self.names()[place.1 as int] == name@,
            forall|i: int| 0 <= i < place.1 ==> lex_less(#[trigger] self.names()[i], name@),
            !place.0 ==> forall|i: int|
                place.1 <= i < self.names().len() ==> lex_less(name@, #[trigger] self.names()[i]),
    {
        proof {
            use_type_invariant(self);
        }
        let ghost names = self.names();
        let ghost x = name@;
        let mut lo: usize = 0;
        let mut hi: usize = self.entries.len();
        while lo < hi
            invariant
                names == self.names(),
                names == names_of(self.entries@),
                x == name@,
                strictly_increasing(names),
                0 <= lo <= hi <= names.len(),
                forall|i: int| 0 <= i < lo ==> lex_less(#[trigger] names[i], x),
                forall|i: int| hi <= i < names.len() ==> lex_less(x, #[trigger] names[i]),
            decreases hi - lo,
        {
            let mid: usize = lo + (hi - lo) / 2;
            assert(names[mid as int] == self.entries@[mid as int]@);
            match self.entries[mid].standing(name) {
                Standing::Before => {
                    proof {
                        assert forall|i: int| 0 <= i < mid + 1 implies lex_less(
                            #[trigger] names[i],
                            x,
                        ) by {
                            if i < mid {
                                lemma_lex_less_transitive(names[i], names[mid as int], x);
                            }
                        }
                    }
                    lo = mid + 1;
                },
                Standing::Same => {
                    proof {
                        assert forall|i: int| mid <= i < names.len() implies !lex_less(
                            #[trigger] names[i],
                            x,
                        ) by {
                            if i == mid {
                                lemma_lex_less_irreflexive(x);
                            } else {
                                lemma_lex_less_asymmetric(x, names[i]);
                            }
                        }
                        lemma_rank_at_split(names, x, mid as int);
                    }
                    return (true, mid);
                },
                Standing::After => {
                    proof {
                        assert forall|i: int| mid <= i < names.len() implies lex_less(
                            x,
                            #[trigger] names[i],
                        ) by {
                            if mid < i {
                                lemma_lex_less_transitive(x, names[mid as int], names[i]);
                            }
                        }
                    }
                    hi = mid;
                },
            }
        }
        proof {
            assert forall|i: int| lo <= i < names.len() implies !lex_less(#[trigger] names[i], x) by {
                lemma_lex_less_asymmetric(x, names[i]);
            }
            lemma_rank_at_split(names, x, lo as int);
            assert(!names.contains(x)) by {
                if names.contains(x) {
                    let i = choose|i: int| 0 <= i < names.len() && names[i] == x;
                    lemma_lex_less_irreflexive(x);
                    if i < lo {
                        assert(lex_less(names[i], x));
                    } else {
                        assert(lex_less(x, names[i]));
                    }
                }
            }
        }
        (false, lo)
    }

    /// Whether `name` is in the register.
    pub fn contains(&self, name: &NetworkName) -> (held: bool)
        ensures
            held == self@.contains(name@),
    {
        self.locate(name).0
    }

    /// Puts `name` into the register unless it is there already, and says
    /// whether it was new.
    pub fn insert_if_absent(&mut self, name: NetworkName) -> (fresh: bool)
        ensures
            fresh == is_new(old(self).names(), name@),
            fresh == !old(self)@.contains(name@),
            final(self)@ == old(self)@.insert(name@),
            final(self).names() == with_name(old(self).names(), name@),
            strictly_increasing(final(self).names()),
            all_valid(final(self).names()),
    {
        proof {
            use_type_invariant(&*self);
        }
        let ghost before = self.names();
        let ghost x = name@;
        let place = self.locate(&name);
        if place.0 {
            proof {
                assert(before.to_set().insert(x) =~= before.to_set());
            }
            return false;
        }
        let at: usize = place.1;
        let ghost after = before.insert(at as int, x);
        proof {
            use_type_invariant(&name);
            lemma_insert_keeps_order(before, x, at as int);
            lemma_insert_keeps_valid(before, x, at as int);
            lemma_insert_contents(before, x, at as int);
        }
        let mut entries: Vec<NetworkName> = Vec::new();
        core::mem::swap(&mut entries, &mut self.entries);
        entries.insert(at, name);
        proof {
            assert(names_of(entries@) =~= after);
        }
        self.entries = entries;
        true
    }

    /// Gives the register up for its names, in byte-wise order.
    pub fn into_names(self) -> (names: Vec<NetworkName>)
        ensures
            names_of(names@) == self.names(),
            names_of(names@).to_set() == self@,
            strictly_increasing(names_of(names@)),
            all_valid(names_of(names@)),
    {
        proof {
            use_type_invariant(&self);
        }
        self.entries
    }

    /// The names in the register, each copied, in byte-wise order.
    pub fn snapshot(&self) -> (names: Vec<NetworkName>)
        ensures
            names_of(names@) == self.names(),
            names_of(names@).to_set() == self@,
            strictly_increasing(names_of(names@)),
            all_valid(names_of(names@)),
    {
        proof {
            use_type_invariant(self);
        }
        let mut names: Vec<NetworkName> = Vec::new();
        let mut i: usize = 0;
        while i < self.entries.len()
            invariant
                0 <= i <= self.entries@.len(),
                names@.len() == i,
                forall|j: int| 0 <= j < i ==> names@[j]@ == self.entries@[j]@,
            decreases self.entries@.len() - i,
        {
            names.push(self.entries[i].clone());
            i += 1;
        }
        proof {
            assert(names_of(names@) =~= self.names());
        }
        names
    }
}

/// The rank never leaves the sequence.
pub proof fn lemma_rank_bounds(names: Seq<Seq<u8>>, x: Seq<u8>)
    ensures
        0 <= rank(names, x) <= names.len(),
    decreases names.len(),
{
    if names.len() > 0 {
        lemma_rank_bounds(names.drop_last(), x);
    }
}

/// Where the first `k` entries are below `x` and no later entry is, the
/// rank of `x` is `k`.
pub proof fn lemma_rank_at_split(names: Seq<Seq<u8>>, x: Seq<u8>, k: int)
    requires
        0 <= k <= names.len(),
        forall|i: int| 0 <= i < k ==> lex_less(#[trigger] names[i], x),
        forall|i: int| k <= i < names.len() ==> !lex_less(#[trigger] names[i], x),
    ensures
        rank(names, x) == k,
    decreases names.len(),
{
    if names.len() > 0 {
        let front = names.drop_last();
        if k == names.len() {
            assert forall|i: int| 0 <= i < k - 1 implies lex_less(#[trigger] front[i], x) by {
                assert(front[i] == names[i]);
            }
            lemma_rank_at_split(front, x, k - 1);
        } else {
            assert forall|i: int| 0 <= i < k implies lex_less(#[trigger] front[i], x) by {
                assert(front[i] == names[i]);
            }
            assert forall|i: int| k <= i < front.len() implies !lex_less(#[trigger] front[i], x) by {
                assert(front[i] == names[i]);
            }
            lemma_rank_at_split(front, x, k);
        }
    }
}

/// In a strictly increasing sequence the entries below `x` are exactly
/// those before its rank, and the entry at the rank, if there is one, is
/// `x` itself or above it.
pub proof fn lemma_rank_splits(names: Seq<Seq<u8>>, x: Seq<u8>)
    requires
        strictly_increasing(names),
    ensures
        0 <= rank(names, x) <= names.len(),
        forall|i: int| 0 <= i < rank(names, x) ==> lex_less(#[trigger] names[i], x),
        forall|i: int| rank(names, x) <= i < names.len() ==> !lex_less(#[trigger] names[i], x),
    decreases names.len(),
{
    if names.len() > 0 {
        let front = names.drop_last();
        assert forall|i: int, j: int| 0 <= i < j < front.len() implies lex_less(
            front[i],
            front[j],
        ) by {
            assert(front[i] == names[i] && front[j] == names[j]);
        }
        lemma_rank_splits(front, x);
        let r = rank(front, x);
        assert forall|i: int| 0 <= i < r implies lex_less(#[trigger] names[i], x) by {
            assert(front[i] == names[i]);
        }
        if lex_less(names.last(), x) {
            assert forall|i: int| 0 <= i < front.len() implies lex_less(#[trigger] names[i], x) by {
                lemma_lex_less_transitive(names[i], names.last(), x);
            }
            if r < front.len() {
                assert(front[r] == names[r]);
                assert(!lex_less(front[r], x));
            }
        } else {
            assert forall|i: int| r <= i < names.len() implies !lex_less(#[trigger] names[i], x) by {
                if i < front.len() {
                    assert(front[i] == names[i]);
                }
            }
        }
    }
}

/// Putting `x` into a strictly increasing sequence between the entries
/// below it and the entries above it leaves the sequence strictly
/// increasing.
pub proof fn lemma_insert_keeps_order(names: Seq<Seq<u8>>, x: Seq<u8>, at: int)
    requires
        strictly_increasing(names),
        0 <= at <= names.len(),
        forall|i: int| 0 <= i < at ==> lex_less(#[trigger] names[i], x),
        forall|i: int| at <= i < names.len() ==> lex_less(x, #[trigger] names[i]),
    ensures
        strictly_increasing(names.insert(at, x)),
{
    let after = names.insert(at, x);
    assert forall|i: int, j: int| 0 <= i < j < after.len() implies lex_less(after[i], after[j]) by {
        if j < at {
            assert(after[i] == names[i] && after[j] == names[j]);
        } else if j == at {
            assert(after[i] == names[i]);
        } else if i < at {
            assert(after[i] == names[i] && after[j] == names[j - 1]);
        } else if i == at {
            assert(after[j] == names[j - 1]);
        } else {
            assert(after[i] == names[i - 1] && after[j] == names[j - 1]);
        }
    }
}

/// Putting a valid name into a sequence of valid names leaves all of them
/// valid.
pub proof fn lemma_insert_keeps_valid(names: Seq<Seq<u8>>, x: Seq<u8>, at: int)
    requires
        all_valid(names),
        valid_name_bytes(x),
        0 <= at <= names.len(),
    ensures
        all_valid(names.insert(at, x)),
{
    let after = names.insert(at, x);
    assert forall|i: int| 0 <= i < after.len() implies valid_name_bytes(#[trigger] after[i]) by {
        if i < at {
            assert(after[i] == names[i]);
        } else if i > at {
            assert(after[i] == names[i - 1]);
        }
    }
}

/// The entries of a sequence after `x` was put in at `at` are the entries
/// that it had, and `x`.
pub proof fn lemma_insert_contents(names: Seq<Seq<u8>>, x: Seq<u8>, at: int)
    requires
        0 <= at <= names.len(),
    ensures
        forall|y: Seq<u8>| names.insert(at, x).contains(y) <==> (names.contains(y) || y == x),
        names.insert(at, x).to_set() == names.to_set().insert(x),
{
    let after = names.insert(at, x);
    assert forall|y: Seq<u8>| after.contains(y) <==> (names.contains(y) || y == x) by {
        if after.contains(y) {
            let i = choose|i: int| 0 <= i < after.len() && after[i] == y;
            if i < at {
                assert(names[i] == y);
            } else if i > at {
                assert(names[i - 1] == y);
            }
        }
        if names.contains(y) {
            let i = choose|i: int| 0 <= i < names.len() && names[i] == y;
            if i < at {
                assert(after[i] == y);
            } else {
                assert(after[i + 1] == y);
            }
        }
        if y == x {
            assert(after[at] == y);
        }
    }
    assert(after.to_set() =~= names.to_set().insert(x));
}

/// A strictly increasing sequence holds no entry twice.
pub proof fn lemma_increasing_no_duplicates(names: Seq<Seq<u8>>)
    requires
        strictly_increasing(names),
    ensures
        names.no_duplicates(),
{
    assert forall|i: int, j: int| 0 <= i < names.len() && 0 <= j < names.len() && i != j implies names[i]
        != names[j] by {
        if i < j {
            lemma_lex_less_irreflexive(names[i]);
        } else {
            lemma_lex_less_irreflexive(names[j]);
        }
    }
}

} // verus!

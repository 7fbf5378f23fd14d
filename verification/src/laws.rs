//! What holds of the register whatever names are offered to it, and in
//! whatever order.

use crate::name::{lemma_lex_less_asymmetric, lemma_lex_less_total, lex_less};
use crate::register::{
    is_new, lemma_increasing_no_duplicates, lemma_insert_contents, lemma_insert_keeps_order,
    lemma_rank_bounds, lemma_rank_splits, rank, strictly_increasing, with_name,
};
use vstd::prelude::*;

verus! {

/// Offering a name to a register in order leaves it in order, and its names
/// are then the names that it held together with the offered one: no other
/// name comes in, none is lost, and none is changed.
pub proof fn law_offer_keeps_order_and_names(names: Seq<Seq<u8>>, x: Seq<u8>)
    requires
        strictly_increasing(names),
    ensures
        strictly_increasing(with_name(names, x)),
        with_name(names, x).to_set() == names.to_set().insert(x),
        forall|y: Seq<u8>| with_name(names, x).contains(y) <==> (names.contains(y) || y == x),
        with_name(names, x).len() == names.len() + if is_new(names, x) {
            1int
        } else {
            0int
        },
{
    if names.contains(x) {
        assert(names.to_set().insert(x) =~= names.to_set());
    } else {
        let at = rank(names, x);
        lemma_rank_splits(names, x);
        assert forall|i: int| at <= i < names.len() implies lex_less(x, #[trigger] names[i]) by {
            lemma_lex_less_total(names[i], x);
        }
        lemma_insert_keeps_order(names, x, at);
        lemma_insert_contents(names, x, at);
    }
}

/// Two registers in order that hold the same names give the same snapshot.
pub proof fn law_order_fixes_snapshot(s: Seq<Seq<u8>>, t: Seq<Seq<u8>>)
    requires
        strictly_increasing(s),
        strictly_increasing(t),
        s.to_set() == t.to_set(),
    ensures
        s == t,
    decreases s.len(),
{
    lemma_increasing_no_duplicates(s);
    lemma_increasing_no_duplicates(t);
    s.unique_seq_to_set();
    t.unique_seq_to_set();
    assert(s.len() == t.len());
    if s.len() > 0 {
        let n = s.len() as int;
        assert(s.contains(s[n - 1]));
        assert(t.to_set().contains(s[n - 1]));
        assert(t.contains(t[n - 1]));
        assert(s.to_set().contains(t[n - 1]));
        let j = choose|j: int| 0 <= j < n && t[j] == s[n - 1];
        let i = choose|i: int| 0 <= i < n && s[i] == t[n - 1];
        if j < n - 1 && i < n - 1 {
            lemma_lex_less_asymmetric(s[n - 1], t[n - 1]);
        } else if j < n - 1 {
            lemma_increasing_no_duplicates(t);
        }
        assert(s[n - 1] == t[n - 1]);
        let sf = s.drop_last();
        let tf = t.drop_last();
        assert forall|y: Seq<u8>| sf.contains(y) <==> tf.contains(y) by {
            if sf.contains(y) {
                let a = choose|a: int| 0 <= a < sf.len() && sf[a] == y;
                assert(s[a] == y);
                assert(s.contains(y));
                assert(t.to_set().contains(y));
                let b = choose|b: int| 0 <= b < n && t[b] == y;
                assert(tf[b] == y);
            }
            if tf.contains(y) {
                let a = choose|a: int| 0 <= a < tf.len() && tf[a] == y;
                assert(t[a] == y);
                assert(t.contains(y));
                assert(s.to_set().contains(y));
                let b = choose|b: int| 0 <= b < n && s[b] == y;
                assert(sf[b] == y);
            }
        }
        assert(sf.to_set() =~= tf.to_set());
        assert forall|a: int, b: int| 0 <= a < b < sf.len() implies lex_less(sf[a], sf[b]) by {
            assert(sf[a] == s[a] && sf[b] == s[b]);
        }
        assert forall|a: int, b: int| 0 <= a < b < tf.len() implies lex_less(tf[a], tf[b]) by {
            assert(tf[a] == t[a] && tf[b] == t[b]);
        }
        law_order_fixes_snapshot(sf, tf);
        assert(s =~= sf.push(s[n - 1]));
        assert(t =~= tf.push(t[n - 1]));
    } else {
        assert(s =~= t);
    }
}

/// A name that is offered twice is taken once. Offered to an empty
/// register, it is new the first time and known the second time, and the
/// register then holds it exactly once. In any register, the second offer
/// finds it known and changes nothing.
pub proof fn law_offer_twice(names: Seq<Seq<u8>>, x: Seq<u8>)
    requires
        strictly_increasing(names),
    ensures
        is_new(Seq::<Seq<u8>>::empty(), x),
        !is_new(with_name(Seq::<Seq<u8>>::empty(), x), x),
        with_name(with_name(Seq::<Seq<u8>>::empty(), x), x) == seq![x],
        !is_new(with_name(names, x), x),
        with_name(with_name(names, x), x) == with_name(names, x),
        with_name(names, x).no_duplicates(),
{
    let empty = Seq::<Seq<u8>>::empty();
    lemma_rank_bounds(empty, x);
    assert(with_name(empty, x) =~= seq![x]);
    assert(seq![x][0] == x);
    law_offer_keeps_order_and_names(names, x);
    lemma_increasing_no_duplicates(with_name(names, x));
}

/// Two offers that are carried out one after the other come to the same
/// register in either order. Whether a name is new does not depend on an
/// offer of another name that went before: of two different names that the
/// register did not hold, both are new and both are held afterwards. Of two
/// offers of one name that the register did not hold, the first is new and
/// the second is not.
pub proof fn law_two_offers_in_either_order(names: Seq<Seq<u8>>, a: Seq<u8>, b: Seq<u8>)
    requires
        strictly_increasing(names),
    ensures
        with_name(with_name(names, a), b) == with_name(with_name(names, b), a),
        with_name(with_name(names, a), b).contains(a),
        with_name(with_name(names, a), b).contains(b),
        a != b ==> is_new(with_name(names, a), b) == is_new(names, b),
        a != b ==> is_new(with_name(names, b), a) == is_new(names, a),
        a == b && is_new(names, a) ==> !is_new(with_name(names, a), b),
{
    law_offer_keeps_order_and_names(names, a);
    law_offer_keeps_order_and_names(names, b);
    law_offer_keeps_order_and_names(with_name(names, a), b);
    law_offer_keeps_order_and_names(with_name(names, b), a);
    assert(names.to_set().insert(a).insert(b) =~= names.to_set().insert(b).insert(a));
    law_order_fixes_snapshot(with_name(with_name(names, a), b), with_name(with_name(names, b), a));
}

} // verus!

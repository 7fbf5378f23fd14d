//! Network names and their byte-wise order.

use vstd::prelude::*;
use vstd::std_specs::cmp::PartialEqSpecImpl;
use vstd::utf8::encode_utf8;

verus! {

/// The longest name, in bytes, that a beacon may advertise.
pub const MAX_NAME_BYTES: usize = 32;

/// Whether `bytes` has a length that a network name may have: at least one
/// byte and at most [`MAX_NAME_BYTES`].
pub open spec fn valid_name_bytes(bytes: Seq<u8>) -> bool {
    1 <= bytes.len() <= MAX_NAME_BYTES
}

/// `k` is the first place at which `a` and `b` part, and `a` is the smaller
/// there: either `a` ends at `k` while `b` goes on, or both have a byte at
/// `k` and that of `a` is the smaller one.
pub open spec fn parts_below_at(a: Seq<u8>, b: Seq<u8>, k: int) -> bool {
    &&& 0 <= k <= a.len()
    &&& k < b.len()
    &&& forall|i: int| 0 <= i < k ==> a[i] == b[i]
    &&& (k == a.len() || a[k] < b[k])
}

/// The strict lexicographic order on byte sequences.
pub open spec fn lex_less(a: Seq<u8>, b: Seq<u8>) -> bool {
    exists|k: int| parts_below_at(a, b, k)
}

/// No byte sequence is below itself.
pub proof fn lemma_lex_less_irreflexive(a: Seq<u8>)
    ensures
        !lex_less(a, a),
{
}

/// Two byte sequences are never below each other.
pub proof fn lemma_lex_less_asymmetric(a: Seq<u8>, b: Seq<u8>)
    ensures
        !(lex_less(a, b) && lex_less(b, a)),
{
    if lex_less(a, b) && lex_less(b, a) {
        let k = choose|k: int| parts_below_at(a, b, k);
        let m = choose|m: int| parts_below_at(b, a, m);
        if k < m {
            assert(b[k] == a[k]);
        } else if m < k {
            assert(a[m] == b[m]);
        }
    }
}

/// The order is transitive.
pub proof fn lemma_lex_less_transitive(a: Seq<u8>, b: Seq<u8>, c: Seq<u8>)
    requires
        lex_less(a, b),
        lex_less(b, c),
    ensures
        lex_less(a, c),
{
    let k = choose|k: int| parts_below_at(a, b, k);
    let m = choose|m: int| parts_below_at(b, c, m);
    let n = if k <= m { k } else { m };
    assert forall|i: int| 0 <= i < n implies a[i] == c[i] by {
        assert(a[i] == b[i]);
        assert(b[i] == c[i]);
    }
    if k < m {
        assert(b[k] == c[k]);
    }
    assert(parts_below_at(a, c, n));
}

/// Any two byte sequences are equal, or one is below the other.
pub proof fn lemma_lex_less_total(a: Seq<u8>, b: Seq<u8>)
    ensures
        lex_less(a, b) || a == b || lex_less(b, a),
{
    if a != b && !lex_less(a, b) && !lex_less(b, a) {
        lemma_common_prefix(a, b, if a.len() <= b.len() { a.len() as int } else { b.len() as int });
        if a.len() < b.len() {
            assert(parts_below_at(a, b, a.len() as int));
        } else if b.len() < a.len() {
            assert(parts_below_at(b, a, b.len() as int));
        } else {
            assert(a =~= b);
        }
    }
}

/// Where neither sequence is below the other, they agree on every place
/// that both have.
proof fn lemma_common_prefix(a: Seq<u8>, b: Seq<u8>, n: int)
    requires
        !lex_less(a, b),
        !lex_less(b, a),
        0 <= n <= a.len(),
        n <= b.len(),
    ensures
        forall|i: int| 0 <= i < n ==> a[i] == b[i],
    decreases n,
{
    if n > 0 {
        lemma_common_prefix(a, b, n - 1);
        if a[n - 1] < b[n - 1] {
            assert(parts_below_at(a, b, n - 1));
        } else if b[n - 1] < a[n - 1] {
            assert(parts_below_at(b, a, n - 1));
        }
    }
}

/// How two names stand to each other in the byte-wise order.
#[derive(Clone, Copy, Debug, PartialEq, Eq, Structural)]
pub enum Standing {
    /// The first name comes before the second.
    Before,
    /// Both names hold the same bytes.
    Same,
    /// The first name comes after the second.
    After,
}

/// The standing of the byte sequence `a` to `b`.
pub open spec fn standing_of(a: Seq<u8>, b: Seq<u8>) -> Standing {
    if a == b {
        Standing::Same
    } else if lex_less(a, b) {
        Standing::Before
    } else {
        Standing::After
    }
}

/// The name that a network advertises: between one and [`MAX_NAME_BYTES`]
/// bytes of UTF-8 text. Names are equal, and ordered, by their bytes.
#[derive(Debug)]
pub struct NetworkName {
    text: String,
}

impl View for NetworkName {
    type V = Seq<u8>;

    /// The bytes of the name: the UTF-8 encoding of its characters.
    open spec fn view(&self) -> Seq<u8> {
        encode_utf8(self.chars())
    }
}

impl Clone for NetworkName {
    /// A second copy of the name.
    fn clone(&self) -> (copy: NetworkName)
        ensures
            copy@ == self@,
            copy.chars() == self.chars(),
    {
        proof {
            use_type_invariant(self);
        }
        NetworkName { text: self.text.clone() }
    }
}

impl PartialEq for NetworkName {
    /// Whether both names hold the same bytes.
    fn eq(&self, other: &NetworkName) -> (same: bool) {
        match self.standing(other) {
            Standing::Same => true,
            _ => false,
        }
    }
}

impl PartialEqSpecImpl for NetworkName {
    open spec fn obeys_eq_spec() -> bool {
        true
    }

    open spec fn eq_spec(&self, other: &NetworkName) -> bool {
        self@ == other@
    }
}

impl Eq for NetworkName {

}

impl NetworkName {
    /// What holds of every name: its length is within the bounds.
    #[verifier::type_invariant]
    pub open spec fn within_bounds(&self) -> bool {
        valid_name_bytes(self@)
    }

    /// The characters of the name.
    pub closed spec fn chars(&self) -> Seq<char> {
        self.text@
    }

    /// Makes a name of `text`, unless `text` is empty or longer than
    /// [`MAX_NAME_BYTES`] bytes.
    pub fn new(text: &str) -> (made: Option<NetworkName>)
        ensures
            made is Some <==> valid_name_bytes(encode_utf8(text@)),
            made matches Some(name) ==> name.chars() == text@ && name@ == encode_utf8(text@),
    {
        let n: usize = text.as_bytes().len();
        if 1 <= n && n <= MAX_NAME_BYTES {
            Some(NetworkName { text: text.to_owned() })
        } else {
            None
        }
    }

    /// Makes a name of `text`, taking it over, unless `text` is empty or
    /// longer than [`MAX_NAME_BYTES`] bytes.
    pub fn from_string(text: String) -> (made: Option<NetworkName>)
        ensures
            made is Some <==> valid_name_bytes(encode_utf8(text@)),
            made matches Some(name) ==> name.chars() == text@ && name@ == encode_utf8(text@),
    {
        let n: usize = text.as_str().as_bytes().len();
        if 1 <= n && n <= MAX_NAME_BYTES {
            Some(NetworkName { text })
        } else {
            None
        }
    }

    /// The name as text.
    pub fn as_str(&self) -> (text: &str)
        ensures
            text@ == self.chars(),
            encode_utf8(text@) == self@,
    {
        self.text.as_str()
    }

    /// The bytes of the name.
    pub fn as_bytes(&self) -> (bytes: &[u8])
        ensures
            bytes@ == self@,
            valid_name_bytes(bytes@),
    {
        proof {
            use_type_invariant(self);
        }
        self.text.as_str().as_bytes()
    }

    /// The number of bytes in the name.
    pub fn len(&self) -> (n: usize)
        ensures
            n == self@.len(),
            1 <= n <= MAX_NAME_BYTES,
    {
        proof {
            use_type_invariant(self);
        }
        self.text.as_str().as_bytes().len()
    }

    /// Compares two names byte by byte.
    pub fn standing(&self, other: &NetworkName) -> (s: Standing)
        ensures
            s == standing_of(self@, other@),
            s == Standing::Before <==> lex_less(self@, other@),
            s == Standing::Same <==> self@ == other@,
            s == Standing::After <==> lex_less(other@, self@),
    {
        let a = self.as_bytes();
        let b = other.as_bytes();
        let mut i: usize = 0;
        while i < a.len() && i < b.len()
            invariant
                a@ == self@,
                b@ == other@,
                0 <= i <= a@.len(),
                i <= b@.len(),
                forall|j: int| 0 <= j < i ==> a@[j] == b@[j],
            decreases a@.len() - i,
        {
            if a[i] < b[i] {
                proof {
                    assert(parts_below_at(a@, b@, i as int));
                    lemma_lex_less_asymmetric(a@, b@);
                }
                return Standing::Before;
            }
            if a[i] > b[i] {
                proof {
                    assert(parts_below_at(b@, a@, i as int));
                    lemma_lex_less_asymmetric(a@, b@);
                }
                return Standing::After;
            }
            i += 1;
        }
        if a.len() < b.len() {
            proof {
                assert(parts_below_at(a@, b@, i as int));
                lemma_lex_less_asymmetric(a@, b@);
            }
            Standing::Before
        } else if b.len() < a.len() {
            proof {
                assert(parts_below_at(b@, a@, i as int));
                lemma_lex_less_asymmetric(a@, b@);
            }
            Standing::After
        } else {
            proof {
                assert(a@ =~= b@);
                lemma_lex_less_irreflexive(a@);
            }
            Standing::Same
        }
    }
}

} // verus!

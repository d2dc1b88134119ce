//! Lexicographic order: of numbers, and of strings by the bytes of their UTF-8 encoding.

use vstd::prelude::*;
use vstd::utf8::encode_utf8;

verus! {

/// How two strings are placed relative to each other.
#[derive(Debug, PartialEq, Eq, Clone, Copy, Structural)]
pub enum Placement {
    Before,
    Same,
    After,
}

/// `a` and `b` agree on their first `k` numbers, and there `a` ends or holds the
/// smaller number.
pub open spec fn parts_before(a: Seq<int>, b: Seq<int>, k: int) -> bool {
    &&& 0 <= k <= a.len()
    &&& k < b.len()
    &&& forall|j: int| 0 <= j < k ==> #[trigger] a[j] == b[j]
    &&& k == a.len() || a[k] < b[k]
}

/// Lexicographic order of sequences of numbers.
pub open spec fn numbers_before(a: Seq<int>, b: Seq<int>) -> bool {
    exists|k: int| parts_before(a, b, k)
}

/// The bytes of a string, as numbers.
pub open spec fn byte_values(s: Seq<char>) -> Seq<int> {
    encode_utf8(s).map_values(|b: u8| b as int)
}

/// Whether the string `s` is sorted strictly ahead of the string `t`.
pub open spec fn text_before(s: Seq<char>, t: Seq<char>) -> bool {
    numbers_before(byte_values(s), byte_values(t))
}

/// Two strings with the same bytes are the same string.
pub proof fn lemma_encoding_is_injective(s: Seq<char>, t: Seq<char>)
    requires
        encode_utf8(s) == encode_utf8(t),
    ensures
        s == t,
{
    vstd::utf8::encode_utf8_decode_utf8(s);
    vstd::utf8::encode_utf8_decode_utf8(t);
}

/// No sequence is ahead of itself.
pub proof fn lemma_numbers_before_irreflexive(a: Seq<int>)
    ensures
        !numbers_before(a, a),
{
}

/// The order of sequences is transitive.
pub proof fn lemma_numbers_before_transitive(a: Seq<int>, b: Seq<int>, c: Seq<int>)
    requires
        numbers_before(a, b),
        numbers_before(b, c),
    ensures
        numbers_before(a, c),
{
    let j = choose|j: int| parts_before(a, b, j);
    let k = choose|k: int| parts_before(b, c, k);
    let m = if j <= k { j } else { k };
    assert forall|i: int| 0 <= i < m implies #[trigger] a[i] == c[i] by {
        assert(a[i] == b[i]);
        assert(b[i] == c[i]);
    }
    if j < k {
        assert(b[j] == c[j]);
    } else if k < j {
        assert(a[k] == b[k]);
    }
    assert(parts_before(a, c, m));
}

/// No string is sorted ahead of itself.
pub proof fn lemma_text_before_irreflexive(s: Seq<char>)
    ensures
        !text_before(s, s),
{
    lemma_numbers_before_irreflexive(byte_values(s));
}

/// The order of strings is transitive.
pub proof fn lemma_text_before_transitive(s: Seq<char>, t: Seq<char>, u: Seq<char>)
    requires
        text_before(s, t),
        text_before(t, u),
    ensures
        text_before(s, u),
{
    lemma_numbers_before_transitive(byte_values(s), byte_values(t), byte_values(u));
}

/// Of two different strings one is sorted ahead of the other, and not the other
/// way round.
pub proof fn lemma_text_before_asymmetric(s: Seq<char>, t: Seq<char>)
    requires
        text_before(s, t),
    ensures
        !text_before(t, s),
        s != t,
{
    if text_before(t, s) {
        lemma_text_before_transitive(s, t, s);
    }
    lemma_text_before_irreflexive(s);
    lemma_text_before_irreflexive(t);
}

/// Where `a` stands relative to `b`.
pub fn place(a: &str, b: &str) -> (res: Placement)
    ensures
        res == Placement::Before <==> text_before(a@, b@),
        res == Placement::Same <==> a@ == b@,
        res == Placement::After <==> text_before(b@, a@),
{
    let x = a.as_bytes();
    let y = b.as_bytes();
    let mut i: usize = 0;
    proof {
        lemma_text_before_irreflexive(a@);
        if text_before(a@, b@) {
            lemma_text_before_asymmetric(a@, b@);
        }
        if text_before(b@, a@) {
            lemma_text_before_asymmetric(b@, a@);
        }
    }
    while i < x.len() && i < y.len()
        invariant
            i <= x.len(),
            i <= y.len(),
            x@ == encode_utf8(a@),
            y@ == encode_utf8(b@),
            forall|j: int| 0 <= j < i ==> #[trigger] x@[j] == y@[j],
            text_before(a@, b@) ==> !text_before(b@, a@) && a@ != b@,
            text_before(b@, a@) ==> !text_before(a@, b@) && a@ != b@,
        decreases x.len() - i,
    {
        if x[i] < y[i] {
            assert(parts_before(byte_values(a@), byte_values(b@), i as int));
            return Placement::Before;
        }
        if y[i] < x[i] {
            assert(parts_before(byte_values(b@), byte_values(a@), i as int));
            return Placement::After;
        }
        i += 1;
    }
    if i < y.len() {
        assert(parts_before(byte_values(a@), byte_values(b@), i as int));
        Placement::Before
    } else if i < x.len() {
        assert(parts_before(byte_values(b@), byte_values(a@), i as int));
        Placement::After
    } else {
        assert(x@ =~= y@);
        proof {
            lemma_encoding_is_injective(a@, b@);
        }
        Placement::Same
    }
}

/// The first difference decides: behind a common beginning, the sequence with the smaller
/// number is ahead, whatever follows.
pub proof fn lemma_first_difference_decides(
    front: Seq<int>,
    x: int,
    rest: Seq<int>,
    y: int,
    other: Seq<int>,
)
    requires
        x < y,
    ensures
        numbers_before(front + seq![x] + rest, front + seq![y] + other),
        !numbers_before(front + seq![y] + other, front + seq![x] + rest),
{
    let (a, b) = (front + seq![x] + rest, front + seq![y] + other);
    assert(parts_before(a, b, front.len() as int));
    if numbers_before(b, a) {
        lemma_numbers_before_transitive(a, b, a);
        lemma_numbers_before_irreflexive(a);
    }
}

/// A sequence is ahead of all that continue it.
pub proof fn lemma_beginning_is_ahead(a: Seq<int>, rest: Seq<int>)
    requires
        rest.len() > 0,
    ensures
        numbers_before(a, a + rest),
        !numbers_before(a + rest, a),
{
    assert(parts_before(a, a + rest, a.len() as int));
    if numbers_before(a + rest, a) {
        lemma_numbers_before_transitive(a, a + rest, a);
        lemma_numbers_before_irreflexive(a);
    }
}

/// Strings are in the order of their bytes in UTF-8: behind bytes that they share, the one
/// with the smaller byte is ahead, or the one that ends there.
pub proof fn lemma_strings_are_ordered_by_bytes(s: Seq<char>, t: Seq<char>, k: int)
    requires
        0 <= k <= encode_utf8(s).len(),
        k < encode_utf8(t).len(),
        encode_utf8(s).take(k) == encode_utf8(t).take(k),
        k == encode_utf8(s).len() || encode_utf8(s)[k] < encode_utf8(t)[k],
    ensures
        text_before(s, t),
        !text_before(t, s),
{
    let (a, b) = (byte_values(s), byte_values(t));
    assert forall|j: int| 0 <= j < k implies #[trigger] a[j] == b[j] by {
        assert(encode_utf8(s).take(k)[j] == encode_utf8(s)[j]);
        assert(encode_utf8(t).take(k)[j] == encode_utf8(t)[j]);
    }
    assert(parts_before(a, b, k));
    lemma_text_before_asymmetric(s, t);
}

} // verus!

//! Lexicographic ordering of sequences, generic in the element order.
//!
//! The checksum engine sorts file entries by their path bytes and the
//! resolver sorts resolved dependencies by name; both orders are instances
//! of [`lex_le`] and inherit its properties proved here: totality,
//! antisymmetry and transitivity, plus the common-prefix unfolding that the
//! executable comparators rely on.

use vstd::prelude::*;
use vstd::seq_lib::lemma_multiset_commutative;

verus! {

broadcast use vstd::seq_lib::group_to_multiset_ensures, vstd::multiset::group_multiset_axioms;

/// Inserting anywhere adds one element to the multiset.
pub proof fn lemma_to_multiset_insert<A>(s: Seq<A>, i: int, a: A)
    requires
        0 <= i <= s.len(),
    ensures
        s.insert(i, a).to_multiset() == s.to_multiset().insert(a),
{
    let front = s.take(i);
    let back = s.skip(i);
    assert(s.insert(i, a) =~= front.push(a) + back);
    assert(s =~= front + back);
    lemma_multiset_commutative(front.push(a), back);
    lemma_multiset_commutative(front, back);
    assert(front.push(a).to_multiset() =~= front.to_multiset().insert(a));
    assert(s.insert(i, a).to_multiset() =~= s.to_multiset().insert(a));
}

/// Lexicographic "less than or equal" over sequences, given a strict order
/// `lt` on elements.
pub open spec fn lex_le<T>(a: Seq<T>, b: Seq<T>, lt: spec_fn(T, T) -> bool) -> bool
    decreases a.len(),
{
    if a.len() == 0 {
        true
    } else if b.len() == 0 {
        false
    } else if lt(a[0], b[0]) {
        true
    } else if lt(b[0], a[0]) {
        false
    } else {
        lex_le(a.drop_first(), b.drop_first(), lt)
    }
}

/// `lt` is a strict total order: asymmetric, connected and transitive.
pub open spec fn strict_total<T>(lt: spec_fn(T, T) -> bool) -> bool {
    (forall|x: T, y: T| #[trigger] lt(x, y) ==> !lt(y, x)) && (forall|x: T, y: T|
        !(#[trigger] lt(x, y)) && !lt(y, x) ==> x == y) && (forall|x: T, y: T, z: T|
        #[trigger] lt(x, y) && #[trigger] lt(y, z) ==> lt(x, z))
}

/// The strict order on characters, by code point.
pub open spec fn char_order() -> spec_fn(char, char) -> bool {
    |a: char, b: char| a < b
}

/// Lexicographic "less than or equal" on character strings.
pub open spec fn str_le(a: Seq<char>, b: Seq<char>) -> bool {
    lex_le(a, b, char_order())
}

/// The order on characters is strict and total.
pub proof fn char_order_strict_total()
    ensures
        strict_total(char_order()),
{
}

/// Any sequence compares less-or-equal to itself.
pub proof fn lex_le_refl<T>(a: Seq<T>, lt: spec_fn(T, T) -> bool)
    requires
        strict_total(lt),
    ensures
        lex_le(a, a, lt),
    decreases a.len(),
{
    if a.len() > 0 {
        lex_le_refl(a.drop_first(), lt);
    }
}

/// Any two sequences compare in at least one direction.
pub proof fn lex_le_total<T>(a: Seq<T>, b: Seq<T>, lt: spec_fn(T, T) -> bool)
    requires
        strict_total(lt),
    ensures
        lex_le(a, b, lt) || lex_le(b, a, lt),
    decreases a.len(),
{
    if a.len() > 0 && b.len() > 0 && !lt(a[0], b[0]) && !lt(b[0], a[0]) {
        lex_le_total(a.drop_first(), b.drop_first(), lt);
    }
}

/// Sequences comparing less-or-equal in both directions are equal.
pub proof fn lex_le_antisym<T>(a: Seq<T>, b: Seq<T>, lt: spec_fn(T, T) -> bool)
    requires
        strict_total(lt),
        lex_le(a, b, lt),
        lex_le(b, a, lt),
    ensures
        a == b,
    decreases a.len(),
{
    if a.len() == 0 {
        assert(a =~= b);
    } else {
        lex_le_antisym(a.drop_first(), b.drop_first(), lt);
        assert(a =~= b) by {
            assert(a[0] == b[0]);
            assert(forall|i: int|
                1 <= i < a.len() ==> a[i] == a.drop_first()[i - 1] && b[i] == b.drop_first()[i
                    - 1]);
        }
    }
}

/// The order is transitive.
pub proof fn lex_le_trans<T>(a: Seq<T>, b: Seq<T>, c: Seq<T>, lt: spec_fn(T, T) -> bool)
    requires
        strict_total(lt),
        lex_le(a, b, lt),
        lex_le(b, c, lt),
    ensures
        lex_le(a, c, lt),
    decreases a.len(),
{
    if a.len() > 0 && b.len() > 0 && c.len() > 0 {
        if !lt(a[0], c[0]) && !lt(c[0], a[0]) {
            if !lt(a[0], b[0]) && !lt(b[0], a[0]) && !lt(b[0], c[0]) && !lt(c[0], b[0]) {
                lex_le_trans(a.drop_first(), b.drop_first(), c.drop_first(), lt);
            }
        }
    }
}

/// Dropping an equal prefix from both sides leaves the comparison unchanged.
pub proof fn lex_le_common_prefix<T>(a: Seq<T>, b: Seq<T>, i: int, lt: spec_fn(T, T) -> bool)
    requires
        strict_total(lt),
        0 <= i <= a.len(),
        i <= b.len(),
        forall|j: int| 0 <= j < i ==> a[j] == b[j],
    ensures
        lex_le(a, b, lt) == lex_le(a.skip(i), b.skip(i), lt),
    decreases i,
{
    if i == 0 {
        assert(a.skip(0) =~= a);
        assert(b.skip(0) =~= b);
    } else {
        assert(a.len() > 0 && b.len() > 0 && a[0] == b[0]);
        assert(!lt(a[0], b[0]) && !lt(b[0], a[0]));
        assert(lex_le(a, b, lt) == lex_le(a.drop_first(), b.drop_first(), lt));
        assert(forall|j: int|
            0 <= j < i - 1 ==> a.drop_first()[j] == a[j + 1] && b.drop_first()[j] == b[j + 1]);
        lex_le_common_prefix(a.drop_first(), b.drop_first(), i - 1, lt);
        assert(a.drop_first().skip(i - 1) =~= a.skip(i));
        assert(b.drop_first().skip(i - 1) =~= b.skip(i));
    }
}

} // verus!

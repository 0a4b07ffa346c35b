use vstd::prelude::*;

verus! {

/// Lexicographic "strictly less than" on sequences, given a strict order on
/// their elements: the first position where the two differ decides, and a
/// proper prefix comes before every sequence that extends it.
pub open spec fn lex_lt<A>(a: Seq<A>, b: Seq<A>, lt: spec_fn(A, A) -> bool) -> bool
    decreases a.len(),
{
    if a.len() == 0 {
        b.len() > 0
    } else if b.len() == 0 {
        false
    } else if a[0] == b[0] {
        lex_lt(a.drop_first(), b.drop_first(), lt)
    } else {
        lt(a[0], b[0])
    }
}

/// `lt` is a strict total order: irreflexive, transitive, and any two
/// distinct values are ordered one way or the other.
pub open spec fn strict_total<A>(lt: spec_fn(A, A) -> bool) -> bool {
    &&& forall|x: A| !#[trigger] lt(x, x)
    &&& forall|x: A, y: A, z: A| #[trigger] lt(x, y) && #[trigger] lt(y, z) ==> lt(x, z)
    &&& forall|x: A, y: A| x != y ==> #[trigger] lt(x, y) || #[trigger] lt(y, x)
}

pub proof fn lemma_lex_irreflexive<A>(a: Seq<A>, lt: spec_fn(A, A) -> bool)
    requires
        strict_total(lt),
    ensures
        !lex_lt(a, a, lt),
    decreases a.len(),
{
    if a.len() > 0 {
        lemma_lex_irreflexive(a.drop_first(), lt);
    }
}

pub proof fn lemma_lex_transitive<A>(a: Seq<A>, b: Seq<A>, c: Seq<A>, lt: spec_fn(A, A) -> bool)
    requires
        strict_total(lt),
        lex_lt(a, b, lt),
        lex_lt(b, c, lt),
    ensures
        lex_lt(a, c, lt),
    decreases a.len(),
{
    if a.len() > 0 && b.len() > 0 && c.len() > 0 {
        if a[0] == b[0] && b[0] == c[0] {
            lemma_lex_transitive(a.drop_first(), b.drop_first(), c.drop_first(), lt);
        } else if a[0] == b[0] {
            assert(lt(b[0], c[0]));
        } else if b[0] == c[0] {
            assert(lt(a[0], b[0]));
        } else {
            assert(lt(a[0], b[0]) && lt(b[0], c[0]));
            if a[0] == c[0] {
                assert(lt(a[0], a[0]));
            }
        }
    }
}

pub proof fn lemma_lex_total<A>(a: Seq<A>, b: Seq<A>, lt: spec_fn(A, A) -> bool)
    requires
        strict_total(lt),
    ensures
        lex_lt(a, b, lt) || a == b || lex_lt(b, a, lt),
    decreases a.len(),
{
    if a.len() == 0 || b.len() == 0 {
        if a.len() == 0 && b.len() == 0 {
            assert(a =~= b);
        }
    } else if a[0] == b[0] {
        lemma_lex_total(a.drop_first(), b.drop_first(), lt);
        if a.drop_first() == b.drop_first() {
            assert(a =~= seq![a[0]] + a.drop_first());
            assert(b =~= seq![b[0]] + b.drop_first());
        }
    } else {
        assert(lt(a[0], b[0]) || lt(b[0], a[0]));
    }
}

pub proof fn lemma_lex_asymmetric<A>(a: Seq<A>, b: Seq<A>, lt: spec_fn(A, A) -> bool)
    requires
        strict_total(lt),
        lex_lt(a, b, lt),
    ensures
        !lex_lt(b, a, lt),
{
    if lex_lt(b, a, lt) {
        lemma_lex_transitive(a, b, a, lt);
        lemma_lex_irreflexive(a, lt);
    }
}

/// Exactly one of `a < b`, `a == b`, `b < a` holds.
pub proof fn lemma_lex_trichotomy<A>(a: Seq<A>, b: Seq<A>, lt: spec_fn(A, A) -> bool)
    requires
        strict_total(lt),
    ensures
        lex_lt(a, b, lt) ==> a != b && !lex_lt(b, a, lt),
        a == b ==> !lex_lt(a, b, lt) && !lex_lt(b, a, lt),
        lex_lt(a, b, lt) || a == b || lex_lt(b, a, lt),
{
    lemma_lex_total(a, b, lt);
    lemma_lex_irreflexive(a, lt);
    lemma_lex_irreflexive(b, lt);
    if lex_lt(a, b, lt) {
        lemma_lex_asymmetric(a, b, lt);
    }
}

/// When two sequences agree on their first `i` elements, only what follows
/// decides their order.
pub proof fn lemma_lex_skip_common<A>(a: Seq<A>, b: Seq<A>, i: int, lt: spec_fn(A, A) -> bool)
    requires
        0 <= i <= a.len(),
        i <= b.len(),
        a.take(i) == b.take(i),
    ensures
        lex_lt(a, b, lt) == lex_lt(a.skip(i), b.skip(i), lt),
    decreases i,
{
    if i > 0 {
        assert(a[0] == a.take(i)[0]);
        assert(b[0] == b.take(i)[0]);
        assert(a.drop_first().take(i - 1) =~= a.take(i).drop_first());
        assert(b.drop_first().take(i - 1) =~= b.take(i).drop_first());
        lemma_lex_skip_common(a.drop_first(), b.drop_first(), i - 1, lt);
        assert(a.drop_first().skip(i - 1) =~= a.skip(i));
        assert(b.drop_first().skip(i - 1) =~= b.skip(i));
    } else {
        assert(a.skip(0) =~= a);
        assert(b.skip(0) =~= b);
    }
}

/// At the first position where they differ, the elements decide.
pub proof fn lemma_lex_first_difference<A>(a: Seq<A>, b: Seq<A>, i: int, lt: spec_fn(A, A) -> bool)
    requires
        0 <= i < a.len(),
        i < b.len(),
        a.take(i) == b.take(i),
        a[i] != b[i],
    ensures
        lex_lt(a, b, lt) == lt(a[i], b[i]),
{
    lemma_lex_skip_common(a, b, i, lt);
}

/// A sequence that is a proper prefix of another comes first; equal ones do not.
pub proof fn lemma_lex_prefix<A>(a: Seq<A>, b: Seq<A>, lt: spec_fn(A, A) -> bool)
    requires
        a.len() <= b.len(),
        a == b.take(a.len() as int),
    ensures
        lex_lt(a, b, lt) == (a.len() < b.len()),
{
    assert(a.take(a.len() as int) =~= a);
    lemma_lex_skip_common(a, b, a.len() as int, lt);
}

/// Strict order on characters by code point.
pub open spec fn char_lt(x: char, y: char) -> bool {
    (x as int) < (y as int)
}

/// `char_lt` as a value that the lexicographic order can take.
pub open spec fn char_order() -> spec_fn(char, char) -> bool {
    |x: char, y: char| char_lt(x, y)
}

pub proof fn lemma_char_order_strict_total()
    ensures
        strict_total(char_order()),
{
    assert forall|x: char, y: char| x != y implies #[trigger] (char_order())(x, y) || #[trigger] (char_order())(y, x) by {
        assert((x as int) != (y as int));
    }
}

} // verus!

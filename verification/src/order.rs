//! The order of strings.
//!
//! `String`'s `Ord` compares UTF-8 bytes lexicographically; UTF-8 keeps the
//! order of code points, so this is the lexicographic order of characters by
//! code point, which `lex_lt` states.

use vstd::prelude::*;

verus! {

/// `a < b` in the order of `String`.
pub open spec fn lex_lt(a: Seq<char>, b: Seq<char>) -> bool
    decreases a.len(),
{
    if a.len() == 0 {
        b.len() > 0
    } else if b.len() == 0 {
        false
    } else if (a[0] as u32) < (b[0] as u32) {
        true
    } else if a[0] == b[0] {
        lex_lt(a.drop_first(), b.drop_first())
    } else {
        false
    }
}

pub proof fn lemma_char_eq(a: char, b: char)
    ensures
        (a as u32 == b as u32) == (a == b),
{
}

pub proof fn lemma_lex_irreflexive(a: Seq<char>)
    ensures
        !lex_lt(a, a),
    decreases a.len(),
{
    if a.len() > 0 {
        lemma_lex_irreflexive(a.drop_first());
    }
}

pub proof fn lemma_lex_total(a: Seq<char>, b: Seq<char>)
    ensures
        a != b ==> lex_lt(a, b) || lex_lt(b, a),
        !(lex_lt(a, b) && lex_lt(b, a)),
    decreases a.len(),
{
    if a.len() > 0 && b.len() > 0 {
        lemma_char_eq(a[0], b[0]);
        lemma_lex_total(a.drop_first(), b.drop_first());
        if a[0] == b[0] && a.drop_first() == b.drop_first() {
            assert(a =~= seq![a[0]] + a.drop_first());
            assert(b =~= seq![b[0]] + b.drop_first());
        }
    } else if a.len() == 0 && b.len() == 0 {
        assert(a =~= b);
    }
}

pub proof fn lemma_lex_transitive(a: Seq<char>, b: Seq<char>, c: Seq<char>)
    requires
        lex_lt(a, b),
        lex_lt(b, c),
    ensures
        lex_lt(a, c),
    decreases a.len(),
{
    if a.len() > 0 && b.len() > 0 && c.len() > 0 {
        lemma_char_eq(a[0], b[0]);
        lemma_char_eq(b[0], c[0]);
        if a[0] == b[0] && b[0] == c[0] {
            lemma_lex_transitive(a.drop_first(), b.drop_first(), c.drop_first());
        }
    }
}

proof fn lemma_lex_skip(a: Seq<char>, b: Seq<char>, i: int)
    requires
        0 <= i <= a.len(),
        i <= b.len(),
        forall|k: int| 0 <= k < i ==> a[k] == b[k],
    ensures
        lex_lt(a, b) == lex_lt(a.subrange(i, a.len() as int), b.subrange(i, b.len() as int)),
    decreases i,
{
    if i == 0 {
        assert(a.subrange(0, a.len() as int) =~= a);
        assert(b.subrange(0, b.len() as int) =~= b);
    } else {
        lemma_char_eq(a[0], b[0]);
        lemma_lex_skip(a.drop_first(), b.drop_first(), i - 1);
        assert(a.drop_first().subrange(i - 1, a.drop_first().len() as int) =~= a.subrange(
            i,
            a.len() as int,
        ));
        assert(b.drop_first().subrange(i - 1, b.drop_first().len() as int) =~= b.subrange(
            i,
            b.len() as int,
        ));
    }
}

/// Three-way comparison: negative, zero or positive as `a` is below, equal
/// to or above `b`.
pub fn compare_chars(a: &Vec<char>, b: &Vec<char>) -> (r: i8)
    ensures
        (r < 0) == lex_lt(a@, b@),
        (r == 0) == (a@ == b@),
        (r > 0) == lex_lt(b@, a@),
{
    let n = a.len();
    let m = b.len();
    let mut i: usize = 0;
    while i < n && i < m && a[i] == b[i]
        invariant
            0 <= i <= n == a.len(),
            i <= m == b.len(),
            forall|k: int| 0 <= k < i ==> a@[k] == b@[k],
        decreases n - i,
    {
        i += 1;
    }
    proof {
        lemma_lex_skip(a@, b@, i as int);
        lemma_lex_skip(b@, a@, i as int);
        lemma_lex_total(a@, b@);
    }
    let ghost sa = a@.subrange(i as int, n as int);
    let ghost sb = b@.subrange(i as int, m as int);
    if i == n && i == m {
        assert(a@ =~= b@);
        proof {
            lemma_lex_irreflexive(a@);
        }
        0
    } else if i == n {
        assert(sa.len() == 0 && sb.len() > 0);
        -1
    } else if i == m {
        assert(sb.len() == 0 && sa.len() > 0);
        1
    } else {
        assert(sa[0] == a@[i as int] && sb[0] == b@[i as int]);
        proof {
            lemma_char_eq(a@[i as int], b@[i as int]);
        }
        if (a[i] as u32) < (b[i] as u32) {
            -1
        } else {
            1
        }
    }
}

// ---------------------------------------------------------------------------
// Sorted arrangements
// ---------------------------------------------------------------------------

/// Every element of `s` comes strictly before every later one.
pub open spec fn sorted_by<A>(s: Seq<A>, lt: spec_fn(A, A) -> bool) -> bool {
    forall|a: int, b: int| 0 <= a < b < s.len() ==> #[trigger] lt(s[a], s[b])
}

/// `r` and `s` hold the same elements (ignoring order and repetition).
pub open spec fn same_elems<A>(r: Seq<A>, s: Seq<A>) -> bool {
    forall|x: A| #![trigger r.contains(x)] #![trigger s.contains(x)] r.contains(x) <==> s.contains(x)
}

/// `lt` is a strict total order on the elements of `s`.
pub open spec fn strict_total_on<A>(s: Seq<A>, lt: spec_fn(A, A) -> bool) -> bool {
    &&& forall|x: A| s.contains(x) ==> !#[trigger] lt(x, x)
    &&& forall|x: A, y: A, z: A|
        s.contains(x) && s.contains(y) && s.contains(z) && #[trigger] lt(x, y) && #[trigger] lt(
            y,
            z,
        ) ==> lt(x, z)
    &&& forall|x: A, y: A|
        s.contains(x) && s.contains(y) && x != y ==> #[trigger] lt(x, y) || #[trigger] lt(y, x)
}

/// The elements of `s`, each once, in increasing order of `lt`.
pub open spec fn arrange<A>(s: Seq<A>, lt: spec_fn(A, A) -> bool) -> Seq<A> {
    choose|r: Seq<A>| same_elems(r, s) && sorted_by(r, lt)
}

proof fn lemma_strict_total_transfer<A>(r: Seq<A>, s: Seq<A>, lt: spec_fn(A, A) -> bool)
    requires
        same_elems(r, s),
        strict_total_on(s, lt),
    ensures
        strict_total_on(r, lt),
{
}

proof fn lemma_sorted_drop_first<A>(r: Seq<A>, lt: spec_fn(A, A) -> bool)
    requires
        r.len() > 0,
        sorted_by(r, lt),
    ensures
        sorted_by(r.drop_first(), lt),
{
    let t = r.drop_first();
    assert forall|a: int, b: int| 0 <= a < b < t.len() implies #[trigger] lt(t[a], t[b]) by {
        assert(t[a] == r[a + 1] && t[b] == r[b + 1]);
        assert(lt(r[a + 1], r[b + 1]));
    }
}

/// Two sorted arrangements of the same elements under a strict total order
/// are equal.
pub proof fn lemma_sorted_unique<A>(r1: Seq<A>, r2: Seq<A>, lt: spec_fn(A, A) -> bool)
    requires
        strict_total_on(r1, lt),
        sorted_by(r1, lt),
        sorted_by(r2, lt),
        same_elems(r1, r2),
    ensures
        r1 == r2,
    decreases r1.len(),
{
    lemma_strict_total_transfer(r2, r1, lt);
    if r1.len() == 0 {
        if r2.len() > 0 {
            assert(r2.contains(r2[0]));
            assert(r1.contains(r2[0]));
        }
        assert(r1 =~= r2);
    } else {
        assert(r1.contains(r1[0]));
        assert(r2.len() > 0);
        assert(r2.contains(r2[0]));
        assert(r1.contains(r2[0]));
        assert(r2.contains(r1[0]));
        if r1[0] != r2[0] {
            let k = choose|k: int| 0 <= k < r1.len() && r1[k] == r2[0];
            let m = choose|m: int| 0 <= m < r2.len() && r2[m] == r1[0];
            assert(k > 0);
            assert(m > 0);
            assert(lt(r1[0], r1[k]));
            assert(lt(r2[0], r2[m]));
            assert(false);
        }
        let t1 = r1.drop_first();
        let t2 = r2.drop_first();
        lemma_sorted_drop_first(r1, lt);
        lemma_sorted_drop_first(r2, lt);
        assert forall|x: A| #[trigger] t1.contains(x) <==> t2.contains(x) by {
            if t1.contains(x) {
                let k = choose|k: int| 0 <= k < t1.len() && t1[k] == x;
                assert(r1[k + 1] == x);
                assert(r1.contains(x));
                assert(r2.contains(x));
                let m = choose|m: int| 0 <= m < r2.len() && r2[m] == x;
                if m == 0 {
                    assert(lt(r1[0], r1[k + 1]));
                    assert(false);
                }
                assert(t2[m - 1] == x);
            }
            if t2.contains(x) {
                let k = choose|k: int| 0 <= k < t2.len() && t2[k] == x;
                assert(r2[k + 1] == x);
                assert(r2.contains(x));
                assert(r1.contains(x));
                let m = choose|m: int| 0 <= m < r1.len() && r1[m] == x;
                if m == 0 {
                    assert(lt(r2[0], r2[k + 1]));
                    assert(false);
                }
                assert(t1[m - 1] == x);
            }
        }
        assert forall|x: A| t1.contains(x) implies r1.contains(x) by {
            let k = choose|k: int| 0 <= k < t1.len() && t1[k] == x;
            assert(r1[k + 1] == x);
        }
        lemma_sorted_unique(t1, t2, lt);
        assert(r1 =~= r2) by {
            assert forall|i: int| 0 <= i < r1.len() implies r1[i] == r2[i] by {
                if i > 0 {
                    assert(r1[i] == t1[i - 1]);
                    assert(r2[i] == t2[i - 1]);
                }
            }
        }
    }
}

/// A sorted arrangement of the elements of `s` is `arrange(s, lt)`.
pub proof fn lemma_arrange_is<A>(s: Seq<A>, r: Seq<A>, lt: spec_fn(A, A) -> bool)
    requires
        same_elems(r, s),
        sorted_by(r, lt),
        strict_total_on(s, lt),
    ensures
        arrange(s, lt) == r,
{
    let a = arrange(s, lt);
    assert(same_elems(a, s) && sorted_by(a, lt));
    lemma_strict_total_transfer(r, s, lt);
    lemma_sorted_unique(r, a, lt);
}

} // verus!

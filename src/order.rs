//! Lexicographic order on integer sequences, the common currency of every
//! comparison the list ordering performs.
use vstd::prelude::*;

verus! {

/// `a` comes strictly before `b` in lexicographic order; a proper prefix
/// comes first.
pub open spec fn lex_lt(a: Seq<int>, b: Seq<int>) -> bool
    decreases a.len(),
{
    if a.len() == 0 {
        b.len() > 0
    } else if b.len() == 0 {
        false
    } else if a[0] < b[0] {
        true
    } else if a[0] > b[0] {
        false
    } else {
        lex_lt(a.drop_first(), b.drop_first())
    }
}

/// The code points of a text, as integers.
pub open spec fn char_codes(s: Seq<char>) -> Seq<int> {
    s.map_values(|c: char| c as int)
}

/// Order of texts: by code point, position by position, as `String`'s own
/// ordering compares them.
pub open spec fn text_lt(a: Seq<char>, b: Seq<char>) -> bool {
    lex_lt(char_codes(a), char_codes(b))
}

/// The integers held by a vector of `i64`.
pub open spec fn ints(v: Seq<i64>) -> Seq<int> {
    v.map_values(|x: i64| x as int)
}

pub proof fn lemma_lex_irreflexive(a: Seq<int>)
    ensures
        !lex_lt(a, a),
    decreases a.len(),
{
    if a.len() > 0 {
        lemma_lex_irreflexive(a.drop_first());
    }
}

pub proof fn lemma_lex_asymmetric(a: Seq<int>, b: Seq<int>)
    ensures
        lex_lt(a, b) ==> !lex_lt(b, a),
    decreases a.len(),
{
    if a.len() > 0 && b.len() > 0 {
        lemma_lex_asymmetric(a.drop_first(), b.drop_first());
    }
}

pub proof fn lemma_lex_transitive(a: Seq<int>, b: Seq<int>, c: Seq<int>)
    ensures
        lex_lt(a, b) && lex_lt(b, c) ==> lex_lt(a, c),
    decreases a.len(),
{
    if a.len() > 0 && b.len() > 0 && c.len() > 0 {
        lemma_lex_transitive(a.drop_first(), b.drop_first(), c.drop_first());
    }
}

/// Not-after is transitive.
pub proof fn lemma_lex_le_transitive(a: Seq<int>, b: Seq<int>, c: Seq<int>)
    ensures
        !lex_lt(b, a) && !lex_lt(c, b) ==> !lex_lt(c, a),
    decreases a.len(),
{
    if a.len() > 0 && b.len() > 0 && c.len() > 0 {
        lemma_lex_le_transitive(a.drop_first(), b.drop_first(), c.drop_first());
    }
}

/// Two sequences neither of which comes before the other are equal.
pub proof fn lemma_lex_total(a: Seq<int>, b: Seq<int>)
    ensures
        !lex_lt(a, b) && !lex_lt(b, a) ==> a == b,
    decreases a.len(),
{
    if a.len() > 0 && b.len() > 0 {
        lemma_lex_total(a.drop_first(), b.drop_first());
        if a.drop_first() == b.drop_first() && a[0] == b[0] {
            assert(a =~= seq![a[0]] + a.drop_first());
            assert(b =~= seq![b[0]] + b.drop_first());
        }
    }
}

/// Texts with the same code points are the same text.
pub proof fn lemma_char_codes_injective(a: Seq<char>, b: Seq<char>)
    ensures
        char_codes(a) == char_codes(b) ==> a == b,
{
    if char_codes(a) == char_codes(b) {
        assert(a.len() == char_codes(a).len());
        assert forall|i: int| 0 <= i < a.len() implies a[i] == b[i] by {
            assert(char_codes(a)[i] == char_codes(b)[i]);
        }
        assert(a =~= b);
    }
}

/// Lexicographic comparison of two integer vectors.
pub fn lex_less(a: &Vec<i64>, b: &Vec<i64>) -> (r: bool)
    ensures
        r == lex_lt(ints(a@), ints(b@)),
{
    let mut i: usize = 0;
    assert(ints(a@).subrange(0, a.len() as int) =~= ints(a@));
    assert(ints(b@).subrange(0, b.len() as int) =~= ints(b@));
    while i < a.len() && i < b.len() && a[i] == b[i]
        invariant
            i <= a.len(),
            i <= b.len(),
            lex_lt(ints(a@), ints(b@)) == lex_lt(
                ints(a@).subrange(i as int, a.len() as int),
                ints(b@).subrange(i as int, b.len() as int),
            ),
        decreases a.len() - i,
    {
        let ghost sa = ints(a@).subrange(i as int, a.len() as int);
        let ghost sb = ints(b@).subrange(i as int, b.len() as int);
        assert(sa.drop_first() =~= ints(a@).subrange(i + 1, a.len() as int));
        assert(sb.drop_first() =~= ints(b@).subrange(i + 1, b.len() as int));
        i = i + 1;
    }
    let ghost sa = ints(a@).subrange(i as int, a.len() as int);
    let ghost sb = ints(b@).subrange(i as int, b.len() as int);
    if i == a.len() {
        i < b.len()
    } else if i == b.len() {
        false
    } else {
        assert(sa[0] == a[i as int] as int);
        assert(sb[0] == b[i as int] as int);
        a[i] < b[i]
    }
}

/// The code points of a text, as a vector.
pub fn codes_of(s: &str) -> (r: Vec<i64>)
    ensures
        ints(r@) == char_codes(s@),
{
    let n = s.unicode_len();
    let mut r: Vec<i64> = Vec::new();
    let mut i: usize = 0;
    while i < n
        invariant
            n == s@.len(),
            i <= n,
            r@.len() == i,
            ints(r@) == char_codes(s@.subrange(0, i as int)),
        decreases n - i,
    {
        let c = s.get_char(i);
        let code: i64 = c as u32 as i64;
        let ghost prev = r@;
        r.push(code);
        i = i + 1;
        assert forall|j: int| 0 <= j < i implies ints(r@)[j] == char_codes(
            s@.subrange(0, i as int),
        )[j] by {
            if j < i - 1 {
                assert(ints(prev)[j] == char_codes(s@.subrange(0, i - 1))[j]);
            }
        }
        assert(ints(r@) =~= char_codes(s@.subrange(0, i as int)));
    }
    assert(s@.subrange(0, n as int) =~= s@);
    r
}

} // verus!

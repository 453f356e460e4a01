//! Small verified helpers on strings and characters.

use vstd::prelude::*;
use vstd::string::{StrSliceExecFns, StringExecFns};

verus! {

/// The character of one decimal digit.
pub open spec fn spec_digit_char(d: int) -> char {
    if d == 0 {
        '0'
    } else if d == 1 {
        '1'
    } else if d == 2 {
        '2'
    } else if d == 3 {
        '3'
    } else if d == 4 {
        '4'
    } else if d == 5 {
        '5'
    } else if d == 6 {
        '6'
    } else if d == 7 {
        '7'
    } else if d == 8 {
        '8'
    } else {
        '9'
    }
}

/// The decimal notation of a number, without leading zeroes.
pub open spec fn spec_nat_string(n: int) -> Seq<char>
    decreases n,
{
    if n < 10 {
        seq![spec_digit_char(n)]
    } else {
        spec_nat_string(n / 10).push(spec_digit_char(n % 10))
    }
}

/// The text of one decimal digit.
fn digit_lit(d: u32) -> (r: &'static str)
    requires
        d < 10,
    ensures
        r@ == seq![spec_digit_char(d as int)],
{
    proof {
        reveal_strlit("0");
        reveal_strlit("1");
        reveal_strlit("2");
        reveal_strlit("3");
        reveal_strlit("4");
        reveal_strlit("5");
        reveal_strlit("6");
        reveal_strlit("7");
        reveal_strlit("8");
        reveal_strlit("9");
    }
    match d {
        0 => "0",
        1 => "1",
        2 => "2",
        3 => "3",
        4 => "4",
        5 => "5",
        6 => "6",
        7 => "7",
        8 => "8",
        _ => "9",
    }
}

/// Writes a number in decimal notation.
pub fn u32_to_string(n: u32) -> (r: String)
    ensures
        r@ == spec_nat_string(n as int),
    decreases n,
{
    if n < 10 {
        String::from_str(digit_lit(n))
    } else {
        let mut s = u32_to_string(n / 10);
        s.append(digit_lit(n % 10));
        s
    }
}

/// Writes a machine-word number in decimal notation.
pub fn usize_to_string(n: usize) -> (r: String)
    ensures
        r@ == spec_nat_string(n as int),
    decreases n,
{
    if n < 10 {
        String::from_str(digit_lit((n % 10) as u32))
    } else {
        let mut s = usize_to_string(n / 10);
        s.append(digit_lit((n % 10) as u32));
        s
    }
}

/// Character-wise string equality.
pub fn str_eq(a: &str, b: &str) -> (r: bool)
    ensures
        r == (a@ == b@),
{
    let alen = a.unicode_len();
    let blen = b.unicode_len();
    if alen != blen {
        return false;
    }
    let mut i: usize = 0;
    while i < alen
        invariant
            alen == a@.len(),
            blen == b@.len(),
            alen == blen,
            0 <= i <= alen,
            forall|j: int| 0 <= j < i ==> a@[j] == b@[j],
        decreases alen - i,
    {
        if a.get_char(i) != b.get_char(i) {
            return false;
        }
        i = i + 1;
    }
    proof {
        assert(a@ =~= b@);
    }
    true
}

/// String-wise equality through the same character view.
pub fn string_eq(a: &String, b: &str) -> (r: bool)
    ensures
        r == (a@ == b@),
{
    str_eq(a.as_str(), b)
}

/// Whether some element of the vector reads as the given characters.
pub fn vec_contains_string(v: &Vec<String>, s: &str) -> (r: bool)
    ensures
        r == v.deep_view().contains(s@),
{
    let mut i: usize = 0;
    while i < v.len()
        invariant
            0 <= i <= v@.len(),
            v.deep_view().len() == v@.len(),
            forall|k: int| 0 <= k < v@.len() ==> v.deep_view()[k] == v@[k]@,
            forall|k: int| 0 <= k < i ==> v.deep_view()[k] != s@,
        decreases v@.len() - i,
    {
        if str_eq(v[i].as_str(), s) {
            assert(v.deep_view()[i as int] == s@);
            return true;
        }
        i = i + 1;
    }
    assert(forall|k: int| 0 <= k < v.deep_view().len() ==> v.deep_view()[k] != s@);
    false
}

/// Relies on String::push: appends one character to the string.
#[verifier::external_body]
pub fn push_char(s: &mut String, c: char)
    ensures
        final(s)@ == old(s)@.push(c),
{
    s.push(c);
}

/// Collects the characters of a string slice.
pub fn str_chars(s: &str) -> (r: Vec<char>)
    ensures
        r@ == s@,
{
    let n = s.unicode_len();
    let mut out: Vec<char> = Vec::new();
    let mut i: usize = 0;
    while i < n
        invariant
            0 <= i <= n,
            n == s@.len(),
            out@.len() == i,
            forall|k: int| 0 <= k < i ==> out@[k] == s@[k],
        decreases n - i,
    {
        out.push(s.get_char(i));
        i = i + 1;
    }
    proof {
        assert(out@ =~= s@);
    }
    out
}

/// Writes a span of characters as a string.
pub fn chars_to_string(v: &Vec<char>, from: usize, to: usize) -> (r: String)
    requires
        from <= to <= v@.len(),
    ensures
        r@ == v@.subrange(from as int, to as int),
{
    let mut s = String::new();
    let mut i: usize = from;
    while i < to
        invariant
            from <= i <= to <= v@.len(),
            s@ =~= v@.subrange(from as int, i as int),
        decreases to - i,
    {
        push_char(&mut s, v[i]);
        proof {
            assert(s@ =~= v@.subrange(from as int, i as int + 1));
        }
        i = i + 1;
    }
    s
}

/// Lexicographic order on character sequences by code point, the order in
/// which byte-wise string comparison sorts valid text.
pub open spec fn lex_leq(a: Seq<char>, b: Seq<char>) -> bool
    decreases a.len(),
{
    if a.len() == 0 {
        true
    } else if b.len() == 0 {
        false
    } else if (a[0] as u32) < (b[0] as u32) {
        true
    } else if (a[0] as u32) > (b[0] as u32) {
        false
    } else {
        lex_leq(a.drop_first(), b.drop_first())
    }
}

/// Every sequence compares at or below itself.
pub proof fn lemma_lex_refl(a: Seq<char>)
    ensures
        lex_leq(a, a),
    decreases a.len(),
{
    if a.len() > 0 {
        lemma_lex_refl(a.drop_first());
    }
}

/// Two sequences always compare one way or the other.
pub proof fn lemma_lex_total(a: Seq<char>, b: Seq<char>)
    ensures
        lex_leq(a, b) || lex_leq(b, a),
    decreases a.len(),
{
    if a.len() > 0 && b.len() > 0 && (a[0] as u32) == (b[0] as u32) {
        lemma_lex_total(a.drop_first(), b.drop_first());
    }
}

/// The order is transitive.
pub proof fn lemma_lex_trans(a: Seq<char>, b: Seq<char>, c: Seq<char>)
    requires
        lex_leq(a, b),
        lex_leq(b, c),
    ensures
        lex_leq(a, c),
    decreases a.len(),
{
    if a.len() == 0 {
    } else {
        assert(b.len() > 0);
        assert(c.len() > 0);
        if (a[0] as u32) == (b[0] as u32) && (b[0] as u32) == (c[0] as u32) {
            lemma_lex_trans(a.drop_first(), b.drop_first(), c.drop_first());
        }
    }
}

/// Character-wise lexicographic comparison.
pub fn str_lex_leq(a: &str, b: &str) -> (r: bool)
    ensures
        r == lex_leq(a@, b@),
{
    let alen = a.unicode_len();
    let blen = b.unicode_len();
    let mut i: usize = 0;
    proof {
        assert(a@.skip(0) =~= a@);
        assert(b@.skip(0) =~= b@);
    }
    while i < alen && i < blen
        invariant
            0 <= i <= alen,
            0 <= i <= blen,
            alen == a@.len(),
            blen == b@.len(),
            lex_leq(a@, b@) == lex_leq(a@.skip(i as int), b@.skip(i as int)),
            forall|k: int| 0 <= k < i ==> a@[k] == b@[k],
        decreases alen - i,
    {
        let ca = a.get_char(i);
        let cb = b.get_char(i);
        proof {
            assert(a@.skip(i as int)[0] == a@[i as int]);
            assert(b@.skip(i as int)[0] == b@[i as int]);
            assert(a@.skip(i as int).drop_first() =~= a@.skip(i as int + 1));
            assert(b@.skip(i as int).drop_first() =~= b@.skip(i as int + 1));
        }
        if (ca as u32) < (cb as u32) {
            return true;
        }
        if (ca as u32) > (cb as u32) {
            return false;
        }
        proof {
            assert(ca == cb);
        }
        i = i + 1;
    }
    proof {
        if i == alen {
            assert(a@.skip(i as int).len() == 0);
        } else {
            assert(b@.skip(i as int).len() == 0);
            assert(a@.skip(i as int).len() > 0);
        }
    }
    i == alen
}

/// The sequence ascends in the lexicographic order.
pub open spec fn lex_sorted(s: Seq<Seq<char>>) -> bool {
    forall|i: int, j: int| 0 <= i < j < s.len() ==> lex_leq(#[trigger] s[i], #[trigger] s[j])
}

/// Sorts strings into the lexicographic order; the contents, with their
/// repetitions, are kept.
pub fn sort_strings(v: Vec<String>) -> (r: Vec<String>)
    ensures
        lex_sorted(r.deep_view()),
        r.deep_view().to_multiset() == v.deep_view().to_multiset(),
{
    broadcast use vstd::seq_lib::group_to_multiset_ensures;

    let ghost whole = v.deep_view();
    let mut src = v;
    let mut out: Vec<String> = Vec::new();
    proof {
        assert(out.deep_view() =~= Seq::<Seq<char>>::empty());
        assert(out.deep_view().to_multiset().add(src.deep_view().to_multiset())
            =~= whole.to_multiset());
    }
    while src.len() > 0
        invariant
            out.deep_view().to_multiset().add(src.deep_view().to_multiset()) == whole.to_multiset(),
            lex_sorted(out.deep_view()),
            forall|i: int, j: int|
                0 <= i < out.deep_view().len() && 0 <= j < src.deep_view().len() ==> lex_leq(
                    #[trigger] out.deep_view()[i],
                    #[trigger] src.deep_view()[j],
                ),
        decreases src@.len(),
    {
        let mut m: usize = 0;
        let mut j: usize = 1;
        proof {
            lemma_lex_refl(src.deep_view()[0]);
        }
        while j < src.len()
            invariant
                src@.len() > 0,
                src.deep_view().len() == src@.len(),
                forall|k: int| 0 <= k < src@.len() ==> src.deep_view()[k] == src@[k]@,
                0 <= m < src@.len(),
                1 <= j <= src@.len(),
                forall|k: int|
                    0 <= k < j ==> lex_leq(src.deep_view()[m as int], #[trigger] src.deep_view()[k]),
            decreases src@.len() - j,
        {
            if !str_lex_leq(src[m].as_str(), src[j].as_str()) {
                proof {
                    lemma_lex_total(src.deep_view()[m as int], src.deep_view()[j as int]);
                    assert forall|k: int| 0 <= k < j + 1 implies lex_leq(
                        src.deep_view()[j as int],
                        #[trigger] src.deep_view()[k],
                    ) by {
                        if k < j {
                            lemma_lex_trans(
                                src.deep_view()[j as int],
                                src.deep_view()[m as int],
                                src.deep_view()[k],
                            );
                        } else {
                            lemma_lex_refl(src.deep_view()[j as int]);
                        }
                    }
                }
                m = j;
            } else {
                proof {
                    lemma_lex_refl(src.deep_view()[j as int]);
                }
            }
            j = j + 1;
        }
        proof {
            lemma_lex_refl(src.deep_view()[m as int]);
        }
        let ghost src_before = src.deep_view();
        let ghost out_before = out.deep_view();
        let x = src.remove(m);
        let ghost xv = x@;
        out.push(x);
        proof {
            src_before.to_multiset_ensures();
            out_before.to_multiset_ensures();
            assert(src.deep_view() =~= src_before.remove(m as int));
            assert(out.deep_view() =~= out_before.push(xv));
            assert(src_before[m as int] == xv);
            assert(src_before.remove(m as int).to_multiset() =~= src_before.to_multiset().remove(
                xv,
            ));
            assert(out_before.push(xv).to_multiset() =~= out_before.to_multiset().insert(xv));
            assert(src_before.to_multiset().count(xv) > 0);
            assert(out.deep_view().to_multiset().add(src.deep_view().to_multiset())
                =~= whole.to_multiset());
            assert(forall|k: int|
                0 <= k < src.deep_view().len() ==> #[trigger] src.deep_view()[k] == (if k
                    < m as int {
                    src_before[k]
                } else {
                    src_before[k + 1]
                }));
            assert forall|i2: int, j2: int|
                0 <= i2 < j2 < out.deep_view().len() implies lex_leq(
                #[trigger] out.deep_view()[i2],
                #[trigger] out.deep_view()[j2],
            ) by {
                if j2 < out_before.len() {
                } else {
                    assert(out.deep_view()[j2] == xv);
                    assert(lex_leq(out_before[i2], src_before[m as int]));
                }
            }
            assert forall|i2: int, j2: int|
                0 <= i2 < out.deep_view().len() && 0 <= j2 < src.deep_view().len() implies lex_leq(
                #[trigger] out.deep_view()[i2],
                #[trigger] src.deep_view()[j2],
            ) by {
                let orig = if j2 < m as int {
                    j2
                } else {
                    j2 + 1
                };
                assert(src.deep_view()[j2] == src_before[orig]);
                if i2 < out_before.len() {
                    assert(lex_leq(out_before[i2], src_before[orig]));
                } else {
                    assert(out.deep_view()[i2] == xv);
                    assert(lex_leq(xv, src_before[orig]));
                }
            }
        }
    }
    out
}

/// Whether a string holds a character.
pub fn contains_char(s: &str, c: char) -> (r: bool)
    ensures
        r == s@.contains(c),
{
    let n = s.unicode_len();
    let mut i: usize = 0;
    while i < n
        invariant
            0 <= i <= n,
            n == s@.len(),
            forall|k: int| 0 <= k < i ==> s@[k] != c,
        decreases n - i,
    {
        if s.get_char(i) == c {
            assert(s@.contains(c));
            return true;
        }
        i = i + 1;
    }
    assert(forall|k: int| 0 <= k < s@.len() ==> s@[k] != c);
    false
}

/// A concatenation holds a character only where one of its parts does.
pub proof fn lemma_concat_not_contains(a: Seq<char>, b: Seq<char>, c: char)
    requires
        !a.contains(c),
        !b.contains(c),
    ensures
        !(a + b).contains(c),
{
    assert forall|k: int| 0 <= k < (a + b).len() implies (a + b)[k] != c by {
        if k < a.len() {
            assert(a[k] != c);
        } else {
            assert(b[k - a.len()] != c);
        }
    }
}

/// Two separator-free heads joined by the separator to tails are equal
/// exactly when the heads and the tails are.
pub proof fn lemma_sep_join_eq(
    a1: Seq<char>,
    r1: Seq<char>,
    a2: Seq<char>,
    r2: Seq<char>,
    sep: char,
)
    requires
        !a1.contains(sep),
        !a2.contains(sep),
    ensures
        (a1 + seq![sep] + r1 == a2 + seq![sep] + r2) <==> (a1 == a2 && r1 == r2),
{
    if a1 + seq![sep] + r1 == a2 + seq![sep] + r2 {
        let w = a1 + seq![sep] + r1;
        if a1.len() < a2.len() {
            assert(w[a1.len() as int] == sep);
            assert(w[a1.len() as int] == a2[a1.len() as int]);
            assert(a2.contains(sep));
            assert(false);
        }
        if a2.len() < a1.len() {
            assert(w[a2.len() as int] == sep);
            assert(w[a2.len() as int] == a1[a2.len() as int]);
            assert(a1.contains(sep));
            assert(false);
        }
        assert forall|k: int| 0 <= k < a1.len() implies a1[k] == a2[k] by {
            assert(w[k] == a1[k]);
            assert(w[k] == a2[k]);
        }
        assert(a1 =~= a2);
        assert((a1 + seq![sep] + r1).len() == (a2 + seq![sep] + r2).len());
        assert(r1.len() == r2.len());
        assert forall|k: int| 0 <= k < r1.len() implies r1[k] == r2[k] by {
            assert((a1 + seq![sep] + r1)[a1.len() + 1 + k] == r1[k]);
            assert((a2 + seq![sep] + r2)[a2.len() + 1 + k] == r2[k]);
        }
        assert(r1 =~= r2);
    }
    if a1 == a2 && r1 == r2 {
        assert(a1 + seq![sep] + r1 == a2 + seq![sep] + r2);
    }
}

/// Decimal notation never holds a non-digit character.
pub proof fn lemma_nat_string_no_char(n: int, c: char)
    requires
        c != '0' && c != '1' && c != '2' && c != '3' && c != '4' && c != '5' && c != '6' && c != '7'
            && c != '8' && c != '9',
    ensures
        !spec_nat_string(n).contains(c),
    decreases n,
{
    if n < 10 {
        assert(spec_nat_string(n) =~= seq![spec_digit_char(n)]);
        assert(spec_digit_char(n) != c);
    } else {
        lemma_nat_string_no_char(n / 10, c);
        assert(spec_nat_string(n) =~= spec_nat_string(n / 10).push(spec_digit_char(n % 10)));
        lemma_concat_not_contains(spec_nat_string(n / 10), seq![spec_digit_char(n % 10)], c);
        assert(spec_nat_string(n / 10).push(spec_digit_char(n % 10)) =~= spec_nat_string(n / 10)
            + seq![spec_digit_char(n % 10)]);
    }
}

/// Decimal notation is never empty.
pub proof fn lemma_nat_string_len(n: int)
    ensures
        spec_nat_string(n).len() >= 1,
        n >= 10 ==> spec_nat_string(n).len() >= 2,
    decreases n,
{
    if n >= 10 {
        lemma_nat_string_len(n / 10);
    }
}

/// Distinct digits have distinct characters.
proof fn lemma_digit_char_injective(d1: int, d2: int)
    requires
        0 <= d1 < 10,
        0 <= d2 < 10,
        spec_digit_char(d1) == spec_digit_char(d2),
    ensures
        d1 == d2,
{
}

/// Decimal notation is injective: equal texts mean equal numbers.
pub proof fn lemma_nat_string_injective(n: int, m: int)
    requires
        n >= 0,
        m >= 0,
        spec_nat_string(n) == spec_nat_string(m),
    ensures
        n == m,
    decreases n,
{
    lemma_nat_string_len(n);
    lemma_nat_string_len(m);
    if n < 10 && m < 10 {
        assert(spec_nat_string(n)[0] == spec_digit_char(n));
        assert(spec_nat_string(m)[0] == spec_digit_char(m));
        lemma_digit_char_injective(n, m);
    } else if n < 10 {
        assert(spec_nat_string(n).len() == 1);
        assert(false);
    } else if m < 10 {
        assert(spec_nat_string(m).len() == 1);
        assert(false);
    } else {
        let a = spec_nat_string(n / 10);
        let b = spec_nat_string(m / 10);
        assert(spec_nat_string(n) == a.push(spec_digit_char(n % 10)));
        assert(spec_nat_string(m) == b.push(spec_digit_char(m % 10)));
        assert(a.push(spec_digit_char(n % 10)).last() == spec_digit_char(n % 10));
        assert(b.push(spec_digit_char(m % 10)).last() == spec_digit_char(m % 10));
        lemma_digit_char_injective(n % 10, m % 10);
        assert(a =~= b) by {
            assert(a.push(spec_digit_char(n % 10)).drop_last() =~= a);
            assert(b.push(spec_digit_char(m % 10)).drop_last() =~= b);
        }
        lemma_nat_string_injective(n / 10, m / 10);
        assert(n == 10 * (n / 10) + n % 10);
        assert(m == 10 * (m / 10) + m % 10);
    }
}

} // verus!

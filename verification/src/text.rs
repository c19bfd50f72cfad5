//! Text helpers: the order `String` sorts by, and decimal rendering.
use vstd::prelude::*;

verus! {

/// Strict lexicographic order on character sequences. For Rust strings this
/// is exactly the order of `String`'s `Ord` (UTF-8 preserves code-point order).
pub open spec fn lex_lt(a: Seq<char>, b: Seq<char>) -> bool
    decreases a.len(),
{
    if a.len() == 0 {
        b.len() > 0
    } else if b.len() == 0 {
        false
    } else if a[0] != b[0] {
        (a[0] as int) < (b[0] as int)
    } else {
        lex_lt(a.drop_first(), b.drop_first())
    }
}

/// `lex_lt` is irreflexive.
pub proof fn lemma_lex_irreflexive(a: Seq<char>)
    ensures
        !lex_lt(a, a),
    decreases a.len(),
{
    if a.len() > 0 {
        lemma_lex_irreflexive(a.drop_first());
    }
}

/// `lex_lt` is transitive.
pub proof fn lemma_lex_transitive(a: Seq<char>, b: Seq<char>, c: Seq<char>)
    requires
        lex_lt(a, b),
        lex_lt(b, c),
    ensures
        lex_lt(a, c),
    decreases a.len(),
{
    if a.len() > 0 && b.len() > 0 && c.len() > 0 {
        if a[0] == b[0] && b[0] == c[0] {
            lemma_lex_transitive(a.drop_first(), b.drop_first(), c.drop_first());
        }
    }
}

/// Any two sequences are equal or ordered one way or the other.
pub proof fn lemma_lex_total(a: Seq<char>, b: Seq<char>)
    ensures
        a == b || lex_lt(a, b) || lex_lt(b, a),
    decreases a.len(),
{
    if a.len() > 0 && b.len() > 0 {
        if a[0] == b[0] {
            lemma_lex_total(a.drop_first(), b.drop_first());
            if a.drop_first() == b.drop_first() {
                assert(a =~= seq![a[0]] + a.drop_first());
                assert(b =~= seq![b[0]] + b.drop_first());
            }
        } else {
            assert((a[0] as int) != (b[0] as int));
        }
    } else if a.len() == 0 && b.len() == 0 {
        assert(a =~= b);
    }
}

/// Strict order of two strings, as `String`'s `<` decides it.
pub fn str_lt(a: &str, b: &str) -> (r: bool)
    ensures
        r == lex_lt(a@, b@),
{
    let la = a.unicode_len();
    let lb = b.unicode_len();
    let mut i: usize = 0;
    assert(a@.skip(0) =~= a@);
    assert(b@.skip(0) =~= b@);
    while i < la && i < lb
        invariant
            la == a@.len(),
            lb == b@.len(),
            i <= la,
            i <= lb,
            lex_lt(a@, b@) == lex_lt(a@.skip(i as int), b@.skip(i as int)),
        decreases la - i,
    {
        let ca = a.get_char(i);
        let cb = b.get_char(i);
        if ca != cb {
            assert(a@.skip(i as int)[0] == ca);
            assert(b@.skip(i as int)[0] == cb);
            return (ca as u32) < (cb as u32);
        }
        assert(a@.skip(i as int).drop_first() =~= a@.skip(i + 1));
        assert(b@.skip(i as int).drop_first() =~= b@.skip(i + 1));
        i = i + 1;
    }
    i == la && i < lb
}

/// Equality of two strings' texts.
pub fn str_eq(a: &str, b: &str) -> (r: bool)
    ensures
        r == (a@ == b@),
{
    proof {
        lemma_lex_total(a@, b@);
        lemma_lex_irreflexive(a@);
    }
    !str_lt(a, b) && !str_lt(b, a)
}

/// The character of a decimal digit.
pub open spec fn digit_char(d: nat) -> char {
    if d == 0 {
        '0'
    } else if d == 1 {
        '1'
    } else if d == 2 {
        '2'
    } else if d == 3 {
        '3'
    } else if d == 4 {
        '4'
    } else if d == 5 {
        '5'
    } else if d == 6 {
        '6'
    } else if d == 7 {
        '7'
    } else if d == 8 {
        '8'
    } else {
        '9'
    }
}

/// Decimal rendering of a natural number, most significant digit first,
/// without leading zeros (as `{}` prints an unsigned integer).
pub open spec fn decimal_text(n: nat) -> Seq<char>
    decreases n,
{
    if n < 10 {
        seq![digit_char(n)]
    } else {
        decimal_text(n / 10) + seq![digit_char(n % 10)]
    }
}

/// A decimal rendering has at least one digit, and two from ten on.
pub proof fn lemma_decimal_len(n: nat)
    ensures
        decimal_text(n).len() >= 1,
        n >= 10 ==> decimal_text(n).len() >= 2,
    decreases n,
{
    if n >= 10 {
        lemma_decimal_len(n / 10);
    }
}

/// Different numbers have different decimal renderings.
pub proof fn lemma_decimal_injective(a: nat, b: nat)
    requires
        decimal_text(a) == decimal_text(b),
    ensures
        a == b,
    decreases a,
{
    lemma_decimal_len(a);
    lemma_decimal_len(b);
    if a >= 10 && b >= 10 {
        let da = decimal_text(a);
        let db = decimal_text(b);
        assert(da.drop_last() =~= decimal_text(a / 10));
        assert(db.drop_last() =~= decimal_text(b / 10));
        assert(da.last() == digit_char(a % 10));
        assert(db.last() == digit_char(b % 10));
        lemma_decimal_injective(a / 10, b / 10);
    } else if a < 10 && b < 10 {
        assert(decimal_text(a)[0] == digit_char(a));
        assert(decimal_text(b)[0] == digit_char(b));
    }
}

/// Rendering of a number below 100 with exactly two digits (`{:02}`).
pub open spec fn two_digit_text(n: nat) -> Seq<char> {
    seq![digit_char(n / 10), digit_char(n % 10)]
}

fn digit_str(d: u64) -> (r: &'static str)
    requires
        d < 10,
    ensures
        r@ == seq![digit_char(d as nat)],
{
    if d == 0 {
        proof { reveal_strlit("0"); }
        "0"
    } else if d == 1 {
        proof { reveal_strlit("1"); }
        "1"
    } else if d == 2 {
        proof { reveal_strlit("2"); }
        "2"
    } else if d == 3 {
        proof { reveal_strlit("3"); }
        "3"
    } else if d == 4 {
        proof { reveal_strlit("4"); }
        "4"
    } else if d == 5 {
        proof { reveal_strlit("5"); }
        "5"
    } else if d == 6 {
        proof { reveal_strlit("6"); }
        "6"
    } else if d == 7 {
        proof { reveal_strlit("7"); }
        "7"
    } else if d == 8 {
        proof { reveal_strlit("8"); }
        "8"
    } else {
        proof { reveal_strlit("9"); }
        "9"
    }
}

/// Append the decimal rendering of `n` to `s`.
pub fn push_decimal(s: &mut String, n: u64)
    ensures
        final(s)@ == old(s)@ + decimal_text(n as nat),
    decreases n,
{
    if n < 10 {
        s.append(digit_str(n));
    } else {
        push_decimal(s, n / 10);
        s.append(digit_str(n % 10));
        assert(s@ =~= old(s)@ + decimal_text(n as nat));
    }
}

/// Decimal text of a signed integer, with a leading `-` when negative.
pub open spec fn int_text(i: int) -> Seq<char> {
    if i < 0 {
        seq!['-'] + decimal_text((-i) as nat)
    } else {
        decimal_text(i as nat)
    }
}

/// Append the decimal rendering of `i` (with `-` when negative) to `s`.
pub fn push_int(s: &mut String, i: i64)
    ensures
        final(s)@ == old(s)@ + int_text(i as int),
{
    if i < 0 {
        s.append("-");
        proof { reveal_strlit("-"); }
        let m: i128 = -(i as i128);
        push_decimal(s, m as u64);
        assert(s@ =~= old(s)@ + int_text(i as int));
    } else {
        push_decimal(s, i as u64);
    }
}

/// `d` zero digits.
pub open spec fn zeros(d: nat) -> Seq<char> {
    Seq::new(d, |k: int| '0')
}

/// Fixed-point rendering of the integer `i` with `d` fractional digits
/// (as `{:.d}` prints a whole number).
pub open spec fn fixed_text(i: int, d: nat) -> Seq<char> {
    if d == 0 {
        int_text(i)
    } else {
        int_text(i) + seq!['.'] + zeros(d)
    }
}

/// Append the fixed-point rendering of `i` with `d` fractional digits.
pub fn push_fixed(s: &mut String, i: i64, d: usize)
    ensures
        final(s)@ == old(s)@ + fixed_text(i as int, d as nat),
{
    push_int(s, i);
    if d > 0 {
        let ghost base = s@;
        s.append(".");
        proof { reveal_strlit("."); reveal_strlit("0"); }
        let mut k: usize = 0;
        while k < d
            invariant
                k <= d,
                s@ == base + seq!['.'] + zeros(k as nat),
            decreases d - k,
        {
            s.append("0");
            proof { reveal_strlit("0"); }
            assert(s@ =~= base + seq!['.'] + zeros((k + 1) as nat));
            k = k + 1;
        }
        assert(s@ =~= old(s)@ + fixed_text(i as int, d as nat));
    }
}

/// Append `n` (below 100) as exactly two digits to `s`.
pub fn push_two_digits(s: &mut String, n: u64)
    requires
        n < 100,
    ensures
        final(s)@ == old(s)@ + two_digit_text(n as nat),
{
    s.append(digit_str(n / 10));
    s.append(digit_str(n % 10));
    assert(s@ =~= old(s)@ + two_digit_text(n as nat));
}

/// Parts joined with `sep` between consecutive parts.
pub open spec fn join_text(parts: Seq<Seq<char>>, sep: Seq<char>) -> Seq<char>
    decreases parts.len(),
{
    if parts.len() == 0 {
        Seq::empty()
    } else if parts.len() == 1 {
        parts[0]
    } else {
        join_text(parts.drop_last(), sep) + sep + parts.last()
    }
}

/// The texts of a list of strings.
pub open spec fn texts(v: Seq<String>) -> Seq<Seq<char>> {
    Seq::new(v.len(), |k: int| v[k]@)
}

/// Append `parts` joined with `sep` (`parts.join(sep)`).
pub fn push_joined(s: &mut String, parts: &Vec<String>, sep: &str)
    ensures
        final(s)@ == old(s)@ + join_text(texts(parts@), sep@),
{
    let n = parts.len();
    let ghost base = s@;
    let ghost all = texts(parts@);
    for i in 0..n
        invariant
            n == parts@.len(),
            all == texts(parts@),
            s@ == base + join_text(all.subrange(0, i as int), sep@),
    {
        let ghost before = s@;
        if i > 0 {
            s.append(sep);
        }
        s.append(parts[i].as_str());
        proof {
            let sub = all.subrange(0, i + 1);
            assert(sub.drop_last() =~= all.subrange(0, i as int));
            assert(sub.last() == parts@[i as int]@);
            if i == 0 {
                assert(join_text(all.subrange(0, 0), sep@) =~= Seq::<char>::empty());
                assert(s@ =~= base + join_text(sub, sep@));
            } else {
                assert(s@ =~= base + join_text(sub, sep@));
            }
        }
    }
    assert(all.subrange(0, n as int) =~= all);
}

/// Strictly ascending in `String` order.
pub open spec fn texts_sorted(v: Seq<String>) -> bool {
    forall|a: int, b: int| 0 <= a < b < v.len() ==> lex_lt((#[trigger] v[a])@, (#[trigger] v[b])@)
}

/// Some element of `v` has text `t`.
pub open spec fn has_text(v: Seq<String>, t: Seq<char>) -> bool {
    exists|k: int| 0 <= k < v.len() && (#[trigger] v[k])@ == t
}

/// Insert `x` at its place in the ascending list `out`, which lacks it.
pub fn insert_text_sorted(out: &mut Vec<String>, x: String)
    requires
        texts_sorted(old(out)@),
        !has_text(old(out)@, x@),
    ensures
        texts_sorted(final(out)@),
        final(out)@.len() == old(out)@.len() + 1,
        has_text(final(out)@, x@),
        forall|t: Seq<char>| #[trigger] has_text(final(out)@, t) <==> (has_text(old(out)@, t) || t == x@),
{
    let mut p: usize = 0;
    while p < out.len() && str_lt(out[p].as_str(), x.as_str())
        invariant
            p <= out@.len(),
            forall|a: int| 0 <= a < p ==> lex_lt((#[trigger] out@[a])@, x@),
        decreases out@.len() - p,
    {
        p = p + 1;
    }
    let ghost old_out = out@;
    let ghost xv = x@;
    proof {
        assert forall|a: int| p <= a < old_out.len() implies lex_lt(xv, (#[trigger] old_out[a])@) by {
            lemma_lex_total(old_out[p as int]@, xv);
            assert(old_out[p as int]@ != xv);
            if a > p {
                lemma_lex_transitive(xv, old_out[p as int]@, old_out[a]@);
            }
        }
    }
    out.insert(p, x);
    proof {
        assert forall|a: int, b: int| 0 <= a < b < out@.len() implies lex_lt((#[trigger] out@[a])@, (#[trigger] out@[b])@) by {
            if a < p && b > p {
                assert(out@[b] == old_out[b - 1]);
                lemma_lex_transitive(out@[a]@, xv, out@[b]@);
            } else if b < p {
                assert(out@[a] == old_out[a] && out@[b] == old_out[b]);
            } else if a > p {
                assert(out@[a] == old_out[a - 1] && out@[b] == old_out[b - 1]);
            } else if a < p {
                assert(out@[a] == old_out[a]);
            } else {
                assert(out@[b] == old_out[b - 1]);
            }
        }
        assert(out@[p as int]@ == xv);
        assert forall|t: Seq<char>| #[trigger] has_text(out@, t) <==> (has_text(old_out, t) || t == xv) by {
            if has_text(out@, t) {
                let k = choose|k: int| 0 <= k < out@.len() && (#[trigger] out@[k])@ == t;
                if k < p {
                    assert(old_out[k]@ == t);
                } else if k > p {
                    assert(old_out[k - 1]@ == t);
                }
            }
            if has_text(old_out, t) {
                let k = choose|k: int| 0 <= k < old_out.len() && (#[trigger] old_out[k])@ == t;
                if k < p {
                    assert(out@[k]@ == t);
                } else {
                    assert(out@[k + 1]@ == t);
                }
            }
            if t == xv {
                assert(out@[p as int]@ == t);
            }
        }
    }
}

} // verus!

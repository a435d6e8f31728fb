//! The string operations of the standard library that the save patcher
//! uses, each specified over the characters of its arguments.

use vstd::prelude::*;

verus! {

/// `s` with every match of `pat` replaced by `to`, matches taken from the
/// left without overlap; an empty pattern matches before every character
/// and at the end.
pub open spec fn replace_all(s: Seq<char>, pat: Seq<char>, to: Seq<char>) -> Seq<char>
    decreases s.len(),
{
    if pat.len() == 0 {
        if s.len() == 0 {
            to
        } else {
            to + seq![s[0]] + replace_all(s.drop_first(), pat, to)
        }
    } else if s.len() >= pat.len() && s.take(pat.len() as int) == pat {
        to + replace_all(s.skip(pat.len() as int), pat, to)
    } else if s.len() == 0 {
        seq![]
    } else {
        seq![s[0]] + replace_all(s.drop_first(), pat, to)
    }
}

/// `pat` occurs in `s` starting at index `i`.
pub open spec fn occurs_at(s: Seq<char>, pat: Seq<char>, i: int) -> bool {
    0 <= i && i + pat.len() <= s.len() && s.subrange(i, i + pat.len()) == pat
}

/// `pat` occurs somewhere in `s`.
pub open spec fn contains_text(s: Seq<char>, pat: Seq<char>) -> bool {
    exists|i: int| occurs_at(s, pat, i)
}

/// An ASCII decimal digit.
pub open spec fn is_digit(c: char) -> bool {
    '0' <= c && c <= '9'
}

/// The value of a decimal digit.
pub open spec fn digit_value(c: char) -> int {
    c as int - '0' as int
}

/// The character of a digit value `0..=9`.
pub open spec fn digit_char(d: int) -> char {
    (d + '0' as int) as char
}

/// Every character of `s` is a decimal digit.
pub open spec fn all_digits(s: Seq<char>) -> bool {
    forall|i: int| 0 <= i < s.len() ==> is_digit(#[trigger] s[i])
}

/// The number that a run of decimal digits denotes.
pub open spec fn digits_value(s: Seq<char>) -> int
    decreases s.len(),
{
    if s.len() == 0 {
        0
    } else {
        digits_value(s.drop_last()) * 10 + digit_value(s.last())
    }
}

/// The integer that `s` spells: an optional `+` or `-`, then one or more
/// decimal digits, and nothing else.
pub open spec fn decimal_value(s: Seq<char>) -> Option<int> {
    if s.len() > 0 && (s[0] == '+' || s[0] == '-') {
        let d = s.drop_first();
        if d.len() > 0 && all_digits(d) {
            Some(if s[0] == '-' { -digits_value(d) } else { digits_value(d) })
        } else {
            None
        }
    } else if s.len() > 0 && all_digits(s) {
        Some(digits_value(s))
    } else {
        None
    }
}

/// What parsing `s` as an `i32` gives: its decimal value when that fits.
pub open spec fn i32_value(s: Seq<char>) -> Option<i32> {
    match decimal_value(s) {
        Some(v) => if i32::MIN <= v <= i32::MAX {
            Some(v as i32)
        } else {
            None
        },
        None => None,
    }
}

/// The decimal digits of `n`, without leading zeros.
pub open spec fn nat_text(n: nat) -> Seq<char>
    decreases n,
{
    if n < 10 {
        seq![digit_char(n as int)]
    } else {
        nat_text(n / 10) + seq![digit_char((n % 10) as int)]
    }
}

/// The decimal text of `v`, with a leading `-` when it is negative.
pub open spec fn int_text(v: int) -> Seq<char> {
    if v < 0 {
        seq!['-'] + nat_text((-v) as nat)
    } else {
        nat_text(v as nat)
    }
}

/// The decimal digits of `n`, with `'0'`s in front up to `width`
/// characters.
pub open spec fn zero_padded(n: nat, width: nat) -> Seq<char> {
    let t = nat_text(n);
    if t.len() >= width {
        t
    } else {
        Seq::new((width - t.len()) as nat, |_i: int| '0') + t
    }
}

/// Calls `str::replace`: every match of `from` in `s`, taken from the left
/// without overlap, is replaced by `to`.
#[verifier::external_body]
pub(crate) fn replace_text(s: &str, from: &str, to: &str) -> (res: String)
    ensures
        res@ == replace_all(s@, from@, to@),
{
    s.replace(from, to)
}

/// Calls `str::parse::<i32>`: an optional sign and decimal digits whose
/// value fits in `i32` give that value; anything else gives `None`.
#[verifier::external_body]
pub(crate) fn parse_i32(s: &str) -> (res: Option<i32>)
    ensures
        res == i32_value(s@),
{
    s.parse::<i32>().ok()
}

/// Calls `ToString::to_string` on an `i32`: its decimal text.
#[verifier::external_body]
pub(crate) fn i32_text(v: i32) -> (res: String)
    ensures
        res@ == int_text(v as int),
{
    v.to_string()
}

/// Appends the digits of `n`, zero-padded to `width`, to `out`.
pub fn push_padded(out: &mut String, n: u32, width: usize)
    requires
        n <= i32::MAX,
    ensures
        final(out)@ == old(out)@ + zero_padded(n as nat, width as nat),
{
    let t = i32_text(n as i32);
    let len = t.as_str().unicode_len();
    let ghost start = out@;
    if len < width {
        let mut pad: usize = 0;
        while pad < width - len
            invariant
                len < width,
                pad <= width - len,
                out@ == start + Seq::new(pad as nat, |_i: int| '0'),
            decreases width - len - pad,
        {
            proof {
                reveal_strlit("0");
            }
            out.append("0");
            assert(Seq::new((pad + 1) as nat, |_i: int| '0') =~= Seq::new(pad as nat, |_i: int| '0')
                + "0"@);
            pad += 1;
        }
    }
    out.append(t.as_str());
    assert(out@ =~= start + zero_padded(n as nat, width as nat));
}

/// The characters of `s`, one by one.
pub fn collect_chars(s: &str) -> (v: Vec<char>)
    ensures
        v@ == s@,
{
    let mut v: Vec<char> = Vec::new();
    for c in iter: s.chars()
        invariant
            v@ == iter.seq().take(iter.index() as int),
    {
        v.push(c);
    }
    v
}

/// The decimal text of `n` is a nonempty run of digits that reads back
/// as `n`.
pub proof fn lemma_nat_text(n: nat)
    ensures
        nat_text(n).len() > 0,
        all_digits(nat_text(n)),
        digits_value(nat_text(n)) == n,
    decreases n,
{
    let t = nat_text(n);
    let d = digit_char((n % 10) as int);
    assert(is_digit(d) && digit_value(d) == n % 10);
    if n < 10 {
        assert(t.drop_last() =~= Seq::<char>::empty());
        assert(digits_value(t.drop_last()) == 0);
    } else {
        lemma_nat_text(n / 10);
        assert(t.drop_last() =~= nat_text(n / 10));
        assert(t.last() == d);
        assert forall|i: int| 0 <= i < t.len() implies is_digit(#[trigger] t[i]) by {
            if i < t.len() - 1 {
                assert(t[i] == nat_text(n / 10)[i]);
            }
        }
    }
}

/// The decimal text of an `i32` ends in a digit, is either all digits or
/// a `-` before digits, and parses back as the number.
pub proof fn lemma_int_text(v: int)
    requires
        i32::MIN <= v <= i32::MAX,
    ensures
        int_text(v).len() > 0,
        is_digit(int_text(v).last()),
        v >= 0 ==> all_digits(int_text(v)),
        v < 0 ==> int_text(v)[0] == '-' && int_text(v).len() > 1 && all_digits(
            int_text(v).drop_first(),
        ),
        i32_value(int_text(v)) == Some(v as i32),
{
    let t = int_text(v);
    if v >= 0 {
        lemma_nat_text(v as nat);
        assert(t[0] != '+' && t[0] != '-') by {
            assert(is_digit(t[0]));
        }
    } else {
        let m = (-v) as nat;
        lemma_nat_text(m);
        assert(t.drop_first() =~= nat_text(m));
        assert(t.last() == nat_text(m).last());
    }
}

/// When `pat` starts nowhere before `k`, the first `k` characters of `s`
/// are kept as they are and replacing goes on from `k`.
pub proof fn lemma_replace_all_keeps_prefix(s: Seq<char>, pat: Seq<char>, to: Seq<char>, k: int)
    requires
        pat.len() > 0,
        0 <= k <= s.len(),
        forall|q: int| 0 <= q < k ==> !#[trigger] occurs_at(s, pat, q),
    ensures
        replace_all(s, pat, to) == s.take(k) + replace_all(s.skip(k), pat, to),
    decreases k,
{
    let n = pat.len() as int;
    if k > 0 {
        assert(!occurs_at(s, pat, 0));
        assert(!(s.len() >= pat.len() && s.take(n) == pat)) by {
            if s.len() >= pat.len() && s.take(n) == pat {
                assert(s.subrange(0, 0 + n) =~= s.take(n));
            }
        }
        let rest = s.drop_first();
        assert forall|q: int| 0 <= q < k - 1 implies !#[trigger] occurs_at(rest, pat, q) by {
            if occurs_at(rest, pat, q) {
                assert(s.subrange(q + 1, q + 1 + n) =~= rest.subrange(q, q + n));
                assert(occurs_at(s, pat, q + 1));
            }
        }
        lemma_replace_all_keeps_prefix(rest, pat, to, k - 1);
        assert(rest.skip(k - 1) =~= s.skip(k));
        assert(s.take(k) =~= seq![s[0]] + rest.take(k - 1));
    } else {
        assert(s.take(0) =~= Seq::<char>::empty());
        assert(s.skip(0) =~= s);
    }
}

/// When the first `k` characters of `replace_all(x, pat, to)` never hold
/// the first character of `pat`, and `to` starts with that character,
/// no replacement happened there: they are the first `k` characters of
/// `x`.
proof fn lemma_prefix_without_lead(x: Seq<char>, pat: Seq<char>, to: Seq<char>, k: int)
    requires
        pat.len() > 0,
        to.len() > 0,
        to[0] == pat[0],
        0 <= k <= replace_all(x, pat, to).len(),
        forall|j: int| 0 <= j < k ==> #[trigger] replace_all(x, pat, to)[j] != pat[0],
    ensures
        k <= x.len(),
        x.take(k) == replace_all(x, pat, to).take(k),
    decreases x.len(),
{
    let r = replace_all(x, pat, to);
    if k > 0 {
        if x.len() >= pat.len() && x.take(pat.len() as int) == pat {
            assert(r[0] == to[0]);
        } else if x.len() == 0 {
            assert(r.len() == 0);
        } else {
            let rest = x.drop_first();
            let r2 = replace_all(rest, pat, to);
            assert(r == seq![x[0]] + r2);
            assert forall|j: int| 0 <= j < k - 1 implies #[trigger] r2[j] != pat[0] by {
                assert(r2[j] == r[j + 1]);
            }
            lemma_prefix_without_lead(rest, pat, to, k - 1);
            assert(x.take(k) =~= seq![x[0]] + rest.take(k - 1));
            assert(r.take(k) =~= seq![x[0]] + r2.take(k - 1));
        }
    }
}

/// Replacing every `pat` by `to` leaves no `pat` behind when `pat` cannot
/// reappear across or inside the replacements: `to` starts with the first
/// character of `pat`, that character appears nowhere else in `pat` or in
/// `to`, and `pat` is not a prefix of `to` nor `to` a prefix of `pat`.
pub proof fn lemma_replace_all_removes(s: Seq<char>, pat: Seq<char>, to: Seq<char>)
    requires
        pat.len() > 0,
        to.len() > 0,
        to[0] == pat[0],
        forall|j: int| 1 <= j < pat.len() ==> #[trigger] pat[j] != pat[0],
        forall|j: int| 1 <= j < to.len() ==> #[trigger] to[j] != pat[0],
        !(to.len() >= pat.len() && to.take(pat.len() as int) == pat),
        !(to.len() < pat.len() && pat.take(to.len() as int) == to),
    ensures
        !contains_text(replace_all(s, pat, to), pat),
    decreases s.len(),
{
    let r = replace_all(s, pat, to);
    let n = pat.len() as int;
    if s.len() >= pat.len() && s.take(n) == pat {
        let rest = s.skip(n);
        let r2 = replace_all(rest, pat, to);
        assert(r == to + r2);
        lemma_replace_all_removes(rest, pat, to);
        assert forall|i: int| !occurs_at(r, pat, i) by {
            if occurs_at(r, pat, i) {
                let m = to.len() as int;
                if i >= m {
                    assert(r2.subrange(i - m, i - m + n) =~= r.subrange(i, i + n));
                    assert(occurs_at(r2, pat, i - m));
                } else if i == 0 {
                    assert(r.subrange(0, n) == pat);
                    if m >= n {
                        assert(to.take(n) =~= r.subrange(0, n));
                    } else {
                        assert(r.subrange(0, m) =~= to);
                        assert(pat.take(m) =~= r.subrange(0, m));
                    }
                } else {
                    assert(r.subrange(i, i + n)[0] == r[i]);
                    assert(r[i] == to[i]);
                }
            }
        }
    } else if s.len() == 0 {
        assert forall|i: int| !occurs_at(r, pat, i) by {}
    } else {
        let rest = s.drop_first();
        let r2 = replace_all(rest, pat, to);
        assert(r == seq![s[0]] + r2);
        lemma_replace_all_removes(rest, pat, to);
        assert forall|i: int| !occurs_at(r, pat, i) by {
            if occurs_at(r, pat, i) {
                if i >= 1 {
                    assert(r2.subrange(i - 1, i - 1 + n) =~= r.subrange(i, i + n));
                    assert(occurs_at(r2, pat, i - 1));
                } else {
                    assert(r.subrange(0, n) == pat);
                    assert forall|j: int| 0 <= j < n - 1 implies #[trigger] r2[j] != pat[0] by {
                        assert(r2[j] == r[j + 1]);
                        assert(r[j + 1] == pat[j + 1]);
                    }
                    lemma_prefix_without_lead(rest, pat, to, n - 1);
                    assert(s.take(n) =~= seq![s[0]] + rest.take(n - 1));
                    assert(r.subrange(0, n) =~= seq![s[0]] + r2.take(n - 1));
                    assert(s.take(n) =~= pat);
                }
            }
        }
    }
}

} // verus!

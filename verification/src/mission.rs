//! Patching a plaintext save so that a v1.0 save keeps progressing under
//! v1.1: the mission number on the first `MissionNum` line goes up by one
//! and a negative `delta_worth` becomes positive.

use vstd::prelude::*;

use crate::text::{
    collect_chars, contains_text, i32_text, i32_value, int_text, is_digit, lemma_int_text,
    lemma_replace_all_keeps_prefix, lemma_replace_all_removes, occurs_at, parse_i32, replace_all,
    replace_text,
};
use crate::SaveError;

verus! {

/// The word that starts the line holding the mission number.
pub open spec fn mission_key() -> Seq<char> {
    seq!['M', 'i', 's', 's', 'i', 'o', 'n', 'N', 'u', 'm']
}

/// The index of the first `'\n'` at or after `i`, or the length of `s`
/// when there is none.
pub open spec fn line_end(s: Seq<char>, i: int) -> int
    decreases s.len() - i,
{
    if i >= s.len() {
        s.len() as int
    } else if s[i] == '\n' {
        i
    } else {
        line_end(s, i + 1)
    }
}

/// A mission line starts at `p`: the key starts there and
/// at least one character other than `'\n'` follows it.
pub open spec fn match_at(s: Seq<char>, p: int) -> bool {
    &&& 0 <= p
    &&& p + 10 <= s.len()
    &&& s.subrange(p, p + 10) == mission_key()
    &&& line_end(s, p + 10) > p + 10
}

/// `p` is the leftmost position at which a mission line starts.
pub open spec fn leftmost_match(s: Seq<char>, p: int) -> bool {
    &&& match_at(s, p)
    &&& forall|q: int| 0 <= q < p ==> !#[trigger] match_at(s, q)
}

/// The save holds a mission line.
pub open spec fn has_mission_line(s: Seq<char>) -> bool {
    exists|p: int| match_at(s, p)
}

/// Where the leftmost match starts.
pub open spec fn mission_start(s: Seq<char>) -> int {
    choose|p: int| leftmost_match(s, p)
}

/// The mission line: from the leftmost key to the end of its
/// line, `'\n'` excluded.
pub open spec fn mission_line(s: Seq<char>) -> Seq<char> {
    s.subrange(mission_start(s), line_end(s, mission_start(s) + 10))
}

/// A blank that may trail the mission number before the line ends: a
/// space, a tab, or the `'\r'` of a Windows line end.
pub open spec fn is_blank(c: char) -> bool {
    c == ' ' || c == '\t' || c == '\r'
}

/// Where `line.take(k)` ends once its trailing blanks are dropped.
pub open spec fn trim_blanks_end(line: Seq<char>, k: int) -> int
    decreases k,
{
    if k <= 0 {
        0
    } else if is_blank(line[k - 1]) {
        trim_blanks_end(line, k - 1)
    } else {
        k
    }
}

/// Where the run of decimal digits that ends at `k` begins.
pub open spec fn digits_begin(line: Seq<char>, k: int) -> int
    decreases k,
{
    if k <= 0 {
        0
    } else if is_digit(line[k - 1]) {
        digits_begin(line, k - 1)
    } else {
        k
    }
}

/// Where the mission number ends: before the trailing blanks.
pub open spec fn number_end(line: Seq<char>) -> int {
    trim_blanks_end(line, line.len() as int)
}

/// Where the mission number begins: at its digits, or at a `-` just
/// before them.
pub open spec fn number_start(line: Seq<char>) -> int {
    let d = digits_begin(line, number_end(line));
    if d > 0 && line[d - 1] == '-' {
        d - 1
    } else {
        d
    }
}

/// The number assigned on the mission line: the optionally signed run of
/// digits that ends the line, blanks aside, when there is one and it fits
/// in `i32`.
pub open spec fn mission_number(line: Seq<char>) -> Option<i32> {
    if digits_begin(line, number_end(line)) < number_end(line) {
        i32_value(line.subrange(number_start(line), number_end(line)))
    } else {
        None
    }
}

/// The mission line holds a number that can go up by one.
pub open spec fn can_increment(line: Seq<char>) -> bool {
    mission_number(line) matches Some(v) && v < i32::MAX
}

/// The mission line with its number replaced by the number plus one;
/// everything around the number stays.
pub open spec fn patched_line(line: Seq<char>) -> Seq<char> {
    line.subrange(0, number_start(line)) + int_text(mission_number(line)->0 + 1) + line.subrange(
        number_end(line),
        line.len() as int,
    )
}

/// The `delta_worth` setting that v1.1 does not accept.
pub open spec fn delta_old() -> Seq<char> {
    "delta_worth = -1.000000"@
}

/// What it becomes.
pub open spec fn delta_new() -> Seq<char> {
    "delta_worth = 1.000000"@
}

/// The patched save: every copy of the mission line replaced by its
/// patched form, then every negative `delta_worth` made positive.
pub open spec fn fixed_save(s: Seq<char>) -> Seq<char> {
    let line = mission_line(s);
    replace_all(replace_all(s, line, patched_line(line)), delta_old(), delta_new())
}

/// A save that `fix_save` patches: it has a mission line, and the number
/// on it can go up by one.
pub open spec fn fixable(s: Seq<char>) -> bool {
    has_mission_line(s) && can_increment(mission_line(s))
}

/// `chars` spells `MissionNum` from `p` on.
fn key_at(chars: &Vec<char>, p: usize) -> (res: bool)
    requires
        p + 10 <= chars@.len(),
    ensures
        res == (chars@.subrange(p as int, p + 10) == mission_key()),
{
    let len = chars.len();
    assert(p + 10 <= len);
    let res = chars[p] == 'M' && chars[p + 1] == 'i' && chars[p + 2] == 's' && chars[p + 3] == 's'
        && chars[p + 4] == 'i' && chars[p + 5] == 'o' && chars[p + 6] == 'n' && chars[p + 7]
        == 'N' && chars[p + 8] == 'u' && chars[p + 9] == 'm';
    let ghost sub = chars@.subrange(p as int, p + 10);
    assert forall|k: int| 0 <= k < 10 implies #[trigger] sub[k] == chars@[p + k] by {}
    proof {
        if res {
            assert(sub =~= mission_key());
        } else if sub == mission_key() {
            assert(sub[0] == 'M' && sub[1] == 'i' && sub[2] == 's' && sub[3] == 's' && sub[4] == 'i');
            assert(sub[5] == 'o' && sub[6] == 'n' && sub[7] == 'N' && sub[8] == 'u' && sub[9] == 'm');
        }
    }
    res
}

/// The mission line of `hay`: from the leftmost `MissionNum` that a
/// character other than `'\n'` follows, to the end of its line.
pub fn find_mission_line(hay: &str) -> (res: Option<String>)
    ensures
        res is Some <==> has_mission_line(hay@),
        res matches Some(line) ==> line@ == mission_line(hay@),
{
    let chars = collect_chars(hay);
    let n = chars.len();
    let ghost s = hay@;
    let mut p: usize = 0;
    while p < n && n - p > 10
        invariant
            s == hay@,
            chars@ == s,
            n == s.len(),
            p <= n,
            forall|q: int| 0 <= q < p ==> !#[trigger] match_at(s, q),
        decreases n - p,
    {
        if key_at(&chars, p) && chars[p + 10] != '\n' {
            assert(line_end(s, p + 10) == line_end(s, p + 11));
            let mut e: usize = p + 11;
            proof {
                lemma_line_end_bounds(s, e as int);
            }
            while e < n && chars[e] != '\n'
                invariant
                    s == hay@,
                    chars@ == s,
                    n == s.len(),
                    p + 11 <= e <= n,
                    line_end(s, p + 10) == line_end(s, e as int),
                decreases n - e,
            {
                e += 1;
            }
            proof {
                assert(match_at(s, p as int));
                assert(leftmost_match(s, p as int));
                let c = mission_start(s);
                assert(leftmost_match(s, c));
                if c < p {
                    assert(!match_at(s, c));
                } else if c > p {
                    assert(!match_at(s, p as int));
                }
                assert(line_end(s, e as int) == e);
            }
            let line = hay.substring_char(p, e).to_owned();
            return Some(line);
        }
        p += 1;
    }
    assert forall|q: int| !#[trigger] match_at(s, q) by {
        if q >= p && q + 10 <= s.len() {
            assert(line_end(s, q + 10) == s.len());
        }
    }
    None
}

/// Every position at which a mission line starts has a leftmost one at or
/// before it.
pub proof fn lemma_leftmost_exists(s: Seq<char>, p: int)
    requires
        match_at(s, p),
    ensures
        leftmost_match(s, mission_start(s)),
        mission_start(s) <= p,
    decreases p,
{
    if forall|q: int| 0 <= q < p ==> !#[trigger] match_at(s, q) {
        assert(leftmost_match(s, p));
        let m = mission_start(s);
        if m > p {
            assert(!match_at(s, p));
        }
    } else {
        let q = choose|q: int| 0 <= q < p && #[trigger] match_at(s, q);
        lemma_leftmost_exists(s, q);
    }
}

/// A line ends at or after where it is looked for, and no further than
/// the text; when it ends after `i`, the character at `i` is on the line.
pub proof fn lemma_line_end_bounds(s: Seq<char>, i: int)
    requires
        0 <= i <= s.len(),
    ensures
        i <= line_end(s, i) <= s.len(),
        line_end(s, i) > i ==> (i < s.len() && s[i] != '\n'),
    decreases s.len() - i,
{
    if i < s.len() && s[i] != '\n' {
        lemma_line_end_bounds(s, i + 1);
    }
}

/// Every run of characters from `i` up to the end of its line holds no
/// `'\n'`, and the line ends at a `'\n'` or at the end of the text.
pub proof fn lemma_line_end_stops_at_newline(s: Seq<char>, i: int)
    requires
        0 <= i <= s.len(),
    ensures
        forall|j: int| i <= j < line_end(s, i) ==> s[j] != '\n',
        line_end(s, i) == s.len() || s[line_end(s, i)] == '\n',
    decreases s.len() - i,
{
    lemma_line_end_bounds(s, i);
    if i < s.len() && s[i] != '\n' {
        lemma_line_end_stops_at_newline(s, i + 1);
    }
}

/// A save holds a mission line wherever in it `MissionNum` stands with a
/// character other than `'\n'` after it, however far into the save.
pub proof fn lemma_mission_line_found_anywhere(s: Seq<char>, p: int)
    requires
        0 <= p,
        p + 10 < s.len(),
        s.subrange(p, p + 10) == "MissionNum"@,
        s[p + 10] != '\n',
    ensures
        has_mission_line(s),
        mission_start(s) <= p,
{
    reveal_strlit("MissionNum");
    assert(mission_key() =~= "MissionNum"@);
    lemma_line_end_bounds(s, p + 11);
    assert(line_end(s, p + 10) == line_end(s, p + 11));
    assert(match_at(s, p));
    lemma_leftmost_exists(s, p);
}

/// The mission line is the first line part that starts with `MissionNum`
/// and goes on past it: it stands in the save at some position `p`,
/// begins with `MissionNum`, has more characters after that, holds no
/// `'\n'`, ends where the save's line ends, and every earlier
/// `MissionNum` is directly followed by `'\n'` or the end of the save.
pub proof fn lemma_mission_line_is_first_key_line(s: Seq<char>)
    requires
        has_mission_line(s),
    ensures
        exists|p: int|
            {
                &&& 0 <= p
                &&& p + mission_line(s).len() <= s.len()
                &&& #[trigger] s.subrange(p, p + mission_line(s).len()) == mission_line(s)
                &&& mission_line(s).take(10) == "MissionNum"@
                &&& mission_line(s).len() > 10
                &&& forall|j: int| 0 <= j < mission_line(s).len() ==> mission_line(s)[j] != '\n'
                &&& (p + mission_line(s).len() == s.len() || s[p + mission_line(s).len()] == '\n')
                &&& forall|q: int|
                    0 <= q < p && q + 10 <= s.len() && #[trigger] s.subrange(q, q + 10)
                        == "MissionNum"@ ==> (q + 10 == s.len() || s[q + 10] == '\n')
            },
{
    reveal_strlit("MissionNum");
    assert(mission_key() =~= "MissionNum"@);
    let w = choose|q: int| match_at(s, q);
    lemma_leftmost_exists(s, w);
    let p = mission_start(s);
    let e = line_end(s, p + 10);
    lemma_line_end_bounds(s, p + 10);
    lemma_line_end_stops_at_newline(s, p + 10);
    let line = mission_line(s);
    assert(line.len() == e - p);
    assert(line.take(10) =~= s.subrange(p, p + 10));
    assert forall|j: int| 0 <= j < line.len() implies line[j] != '\n' by {
        assert(line[j] == s[p + j]);
        if j < 10 {
            assert(s.subrange(p, p + 10)[j] == s[p + j]);
        }
    }
    assert(s.subrange(p, p + line.len()) == line);
    assert forall|q: int|
        0 <= q < p && q + 10 <= s.len() && #[trigger] s.subrange(q, q + 10) == "MissionNum"@ implies (
        q + 10 == s.len() || s[q + 10] == '\n') by {
        if q + 10 < s.len() && s[q + 10] != '\n' {
            lemma_line_end_bounds(s, q + 11);
            assert(line_end(s, q + 10) == line_end(s, q + 11));
            assert(match_at(s, q));
        }
    }
}

/// The patch replaces the mission line where it stands: the text before
/// the leftmost match is kept as it is, the line becomes its patched form,
/// and replacing goes on after it.
pub proof fn lemma_mission_line_replaced_in_place(s: Seq<char>)
    requires
        has_mission_line(s),
    ensures
        ({
            let p = mission_start(s);
            let line = mission_line(s);
            let to = patched_line(line);
            replace_all(s, line, to) == s.take(p) + to + replace_all(s.skip(p + line.len()), line, to)
        }),
{
    let w = choose|q: int| match_at(s, q);
    lemma_leftmost_exists(s, w);
    let p = mission_start(s);
    let e = line_end(s, p + 10);
    lemma_line_end_bounds(s, p + 10);
    let line = mission_line(s);
    let to = patched_line(line);
    let n = line.len() as int;
    assert(n == e - p && n >= 11);
    assert(line.subrange(0, 10) =~= mission_key());
    assert(line[10] == s[p + 10]);
    assert forall|q: int| 0 <= q < p implies !#[trigger] occurs_at(s, line, q) by {
        if occurs_at(s, line, q) {
            assert(s.subrange(q, q + 10) =~= line.subrange(0, 10));
            assert(s[q + 10] == line[10]);
            lemma_line_end_bounds(s, q + 11);
            assert(line_end(s, q + 10) == line_end(s, q + 11));
            assert(match_at(s, q));
        }
    }
    lemma_replace_all_keeps_prefix(s, line, to, p);
    let t = s.skip(p);
    assert(t.take(n) =~= line);
    assert(t.skip(n) =~= s.skip(p + n));
}

/// Where the mission number sits on a line: where it begins (at a `-`
/// or its first digit), where its digits begin, and where it ends.
fn number_span(chars: &Vec<char>) -> (res: (usize, usize, usize))
    ensures
        res.0 == number_start(chars@),
        res.1 == digits_begin(chars@, number_end(chars@)),
        res.2 == number_end(chars@),
        res.0 <= res.1 <= res.2 <= chars@.len(),
{
    let n = chars.len();
    let mut k: usize = n;
    while k > 0 && (chars[k - 1] == ' ' || chars[k - 1] == '\t' || chars[k - 1] == '\r')
        invariant
            k <= n,
            n == chars@.len(),
            trim_blanks_end(chars@, k as int) == trim_blanks_end(chars@, n as int),
        decreases k,
    {
        k -= 1;
    }
    let mut d: usize = k;
    while d > 0 && '0' <= chars[d - 1] && chars[d - 1] <= '9'
        invariant
            d <= k <= n,
            n == chars@.len(),
            k == number_end(chars@),
            digits_begin(chars@, d as int) == digits_begin(chars@, k as int),
        decreases d,
    {
        d -= 1;
    }
    let start = if d > 0 && chars[d - 1] == '-' {
        d - 1
    } else {
        d
    };
    (start, d, k)
}

/// Patches a plaintext save: the number assigned on the first
/// `MissionNum` line (its last run of digits, with a `-` in front if
/// there is one, before any trailing spaces, tabs or `'\r'`) goes up by
/// one, every copy of that line in the save is replaced by the patched
/// line, and `delta_worth = -1.000000` becomes `delta_worth = 1.000000`.
/// A save without such a line is refused with `NotFound`; one whose line
/// holds no number, or one too large to go up in `i32`, with
/// `InvalidData`.
pub fn fix_save(buf: String) -> (res: Result<String, SaveError>)
    ensures
        !has_mission_line(buf@) ==> res == Err::<String, SaveError>(SaveError::NotFound),
        has_mission_line(buf@) && !can_increment(mission_line(buf@)) ==> res == Err::<
            String,
            SaveError,
        >(SaveError::InvalidData),
        fixable(buf@) ==> (res matches Ok(out) && out@ == fixed_save(buf@)),
{
    match find_mission_line(buf.as_str()) {
        None => Err(SaveError::NotFound),
        Some(mission_orig_str) => {
            let chars = collect_chars(mission_orig_str.as_str());
            let (start, digits, end) = number_span(&chars);
            if digits == end {
                return Err(SaveError::InvalidData);
            }
            let mission_num_str = mission_orig_str.as_str().substring_char(start, end);
            match parse_i32(mission_num_str) {
                None => Err(SaveError::InvalidData),
                Some(mission_num) => {
                    if mission_num == i32::MAX {
                        return Err(SaveError::InvalidData);
                    }
                    let mission_inc: i32 = mission_num + 1;
                    let inc_text = i32_text(mission_inc);
                    let mut new_mission = String::new();
                    new_mission.append(mission_orig_str.as_str().substring_char(0, start));
                    new_mission.append(inc_text.as_str());
                    new_mission.append(
                        mission_orig_str.as_str().substring_char(end, chars.len()),
                    );
                    assert(new_mission@ =~= patched_line(mission_orig_str@));
                    let delta: &str = "delta_worth = -1.000000";
                    let new_delta: &str = "delta_worth = 1.000000";
                    let my_buf = replace_text(
                        buf.as_str(),
                        mission_orig_str.as_str(),
                        new_mission.as_str(),
                    );
                    let my_buf = replace_text(my_buf.as_str(), delta, new_delta);
                    Ok(my_buf)
                },
            }
        },
    }
}

/// The patch raises the mission number by exactly one: on a line made of
/// a prefix that does not end in a digit or a `-`, the decimal text of a
/// number `n`, and trailing spaces, tabs or `'\r'`, the number read is
/// `n` and the patched line holds `n + 1` in its place, the prefix and
/// the trailing blanks unchanged.
pub proof fn lemma_patched_line_increments(prefix: Seq<char>, n: i32, tail: Seq<char>)
    requires
        prefix.len() > 0,
        !is_digit(prefix.last()),
        prefix.last() != '-',
        forall|i: int| 0 <= i < tail.len() ==> is_blank(#[trigger] tail[i]),
        n < i32::MAX,
    ensures
        mission_number(prefix + int_text(n as int) + tail) == Some(n),
        can_increment(prefix + int_text(n as int) + tail),
        patched_line(prefix + int_text(n as int) + tail) == prefix + int_text(n + 1) + tail,
{
    let t = int_text(n as int);
    let line = prefix + t + tail;
    let a = prefix.len() as int;
    let b = a + t.len();
    lemma_int_text(n as int);
    let d0 = if n < 0 { a + 1 } else { a };
    assert(line.subrange(a, b) =~= t);
    assert(line[b - 1] == t[t.len() - 1]);
    assert(!is_blank(line[b - 1]));
    lemma_trim_over_blanks(line, b, line.len() as int);
    assert(number_end(line) == b);
    assert forall|k: int| d0 <= k < b implies is_digit(#[trigger] line[k]) by {
        assert(line[k] == t[k - a]);
        if n < 0 {
            assert(t.drop_first()[k - a - 1] == t[k - a]);
        }
    }
    assert(!is_digit(line[d0 - 1])) by {
        if n < 0 {
            assert(line[d0 - 1] == t[0]);
        } else {
            assert(line[d0 - 1] == prefix.last());
        }
    }
    lemma_digits_run(line, d0, b);
    assert(digits_begin(line, b) == d0);
    if n < 0 {
        assert(line[d0 - 1] == '-');
    } else {
        assert(line[d0 - 1] == prefix.last());
    }
    assert(number_start(line) == a);
    assert(mission_number(line) == Some(n));
    assert(line.subrange(0, a) =~= prefix);
    assert(line.subrange(b, line.len() as int) =~= tail);
}

/// Fixing a save raises its mission number by exactly one: when the
/// mission line is a prefix that does not end in a digit or a `-`, the
/// text of a number `n` and trailing blanks, the save is fixable, and the
/// fixed save is the save with every copy of that line replaced by the
/// same line holding `n + 1`, then every negative `delta_worth` made
/// positive.
pub proof fn lemma_fix_raises_mission_number(
    s: Seq<char>,
    prefix: Seq<char>,
    n: i32,
    tail: Seq<char>,
)
    requires
        has_mission_line(s),
        mission_line(s) == prefix + int_text(n as int) + tail,
        prefix.len() > 0,
        !is_digit(prefix.last()),
        prefix.last() != '-',
        forall|i: int| 0 <= i < tail.len() ==> is_blank(#[trigger] tail[i]),
        n < i32::MAX,
    ensures
        fixable(s),
        fixed_save(s) == replace_all(
            replace_all(s, mission_line(s), prefix + int_text(n + 1) + tail),
            delta_old(),
            delta_new(),
        ),
{
    lemma_patched_line_increments(prefix, n, tail);
}

/// Trailing blanks from `b` to `k` are dropped, and no further than `b`
/// when the character before `b` is not blank.
proof fn lemma_trim_over_blanks(line: Seq<char>, b: int, k: int)
    requires
        0 < b <= k <= line.len(),
        !is_blank(line[b - 1]),
        forall|i: int| b <= i < k ==> is_blank(#[trigger] line[i]),
    ensures
        trim_blanks_end(line, k) == b,
    decreases k - b,
{
    if k > b {
        lemma_trim_over_blanks(line, b, k - 1);
    }
}

/// A run of digits from `d` to `k`, after a character that is not a
/// digit, begins at `d`.
proof fn lemma_digits_run(line: Seq<char>, d: int, k: int)
    requires
        0 < d <= k <= line.len(),
        !is_digit(line[d - 1]),
        forall|i: int| d <= i < k ==> is_digit(#[trigger] line[i]),
    ensures
        digits_begin(line, k) == d,
    decreases k - d,
{
    if k > d {
        lemma_digits_run(line, d, k - 1);
    }
}

/// A patched save holds no negative `delta_worth` anywhere: the
/// replacement cannot bring one back.
pub proof fn lemma_fixed_save_has_no_negative_delta(s: Seq<char>)
    ensures
        !contains_text(fixed_save(s), delta_old()),
{
    reveal_strlit("delta_worth = -1.000000");
    reveal_strlit("delta_worth = 1.000000");
    let old_text = delta_old();
    let new_text = delta_new();
    assert(old_text.len() == 23 && new_text.len() == 22);
    assert(new_text[0] == old_text[0]);
    assert forall|j: int| 1 <= j < old_text.len() implies #[trigger] old_text[j] != old_text[0] by {}
    assert forall|j: int| 1 <= j < new_text.len() implies #[trigger] new_text[j] != old_text[0] by {}
    assert(old_text.take(22)[14] != new_text[14]);
    let line = mission_line(s);
    lemma_replace_all_removes(replace_all(s, line, patched_line(line)), old_text, new_text);
}

} // verus!

//! Text primitives over Unicode scalar values: whitespace trimming, substring
//! search and replacement, splitting, and decimal parsing.  Each operation is
//! specified over `Seq<char>` and implemented with a proof that it meets the
//! specification.
use vstd::prelude::*;

verus! {

// ---------------------------------------------------------------------------
// Characters
// ---------------------------------------------------------------------------

/// The Unicode `White_Space` property, as used by `char::is_whitespace`.
pub open spec fn is_white_space(c: char) -> bool {
    ||| ('\t' <= c && c <= '\r')
    ||| c == ' '
    ||| c == '\u{85}'
    ||| c == '\u{a0}'
    ||| c == '\u{1680}'
    ||| ('\u{2000}' <= c && c <= '\u{200a}')
    ||| c == '\u{2028}'
    ||| c == '\u{2029}'
    ||| c == '\u{202f}'
    ||| c == '\u{205f}'
    ||| c == '\u{3000}'
}

pub fn is_white_space_char(c: char) -> (b: bool)
    ensures
        b == is_white_space(c),
{
    ('\t' <= c && c <= '\r') || c == ' ' || c == '\u{85}' || c == '\u{a0}' || c == '\u{1680}' || (
    '\u{2000}' <= c && c <= '\u{200a}') || c == '\u{2028}' || c == '\u{2029}' || c == '\u{202f}'
        || c == '\u{205f}' || c == '\u{3000}'
}

pub open spec fn is_digit(c: char) -> bool {
    '0' <= c && c <= '9'
}

/// The characters of `s`, in order.
pub fn chars_of(s: &str) -> (out: Vec<char>)
    ensures
        out@ == s@,
{
    let mut out: Vec<char> = Vec::new();
    for c in it: s.chars()
        invariant
            out@ == it.seq().take(it.index() as int),
    {
        out.push(c);
    }
    out
}

/// Whether `a` and `b` hold the same characters.
pub fn str_eq(a: &str, b: &str) -> (r: bool)
    ensures
        r == (a@ == b@),
{
    let ac = chars_of(a);
    let bc = chars_of(b);
    if ac.len() != bc.len() {
        return false;
    }
    let mut i: usize = 0;
    while i < ac.len()
        invariant
            ac@ == a@,
            bc@ == b@,
            ac.len() == bc.len(),
            i <= ac.len(),
            forall|k: int| 0 <= k < i ==> ac@[k] == bc@[k],
        decreases ac.len() - i,
    {
        if ac[i] != bc[i] {
            return false;
        }
        i = i + 1;
    }
    assert(a@ =~= b@);
    true
}

// ---------------------------------------------------------------------------
// Substring search
// ---------------------------------------------------------------------------

/// `pat` occurs in `s` starting at index `i`.
pub open spec fn matches_at(s: Seq<char>, i: int, pat: Seq<char>) -> bool {
    &&& 0 <= i
    &&& i + pat.len() <= s.len()
    &&& s.subrange(i, i + pat.len()) == pat
}

/// `pat` occurs somewhere in `s` (as `str::contains`).
pub open spec fn contains(s: Seq<char>, pat: Seq<char>) -> bool {
    exists|i: int| #[trigger] matches_at(s, i, pat)
}

fn matches_at_exec(s: &Vec<char>, i: usize, pat: &Vec<char>) -> (r: bool)
    requires
        i + pat@.len() <= s@.len(),
    ensures
        r == matches_at(s@, i as int, pat@),
{
    let sl = s.len();
    let mut k: usize = 0;
    while k < pat.len()
        invariant
            sl == s@.len(),
            i + pat@.len() <= s@.len(),
            k <= pat.len(),
            forall|j: int| 0 <= j < k ==> s@[i + j] == pat@[j],
        decreases pat.len() - k,
    {
        if s[i + k] != pat[k] {
            assert(s@.subrange(i as int, i + pat@.len())[k as int] != pat@[k as int]);
            return false;
        }
        k = k + 1;
    }
    assert(s@.subrange(i as int, i + pat@.len()) =~= pat@);
    true
}

fn contains_chars(s: &Vec<char>, pat: &Vec<char>) -> (r: bool)
    ensures
        r == contains(s@, pat@),
{
    if pat.len() > s.len() {
        assert(!contains(s@, pat@));
        return false;
    }
    let n = s.len();
    let mut i: usize = 0;
    while i < n
        invariant
            n == s@.len(),
            i <= n,
            forall|j: int| 0 <= j < i ==> !matches_at(s@, j, pat@),
        decreases n - i,
    {
        if pat.len() <= n - i && matches_at_exec(s, i, pat) {
            return true;
        }
        i = i + 1;
    }
    if pat.len() == 0 {
        assert(s@.subrange(0, 0) =~= pat@);
        assert(matches_at(s@, 0, pat@));
        return true;
    }
    false
}

/// `str::contains` with a string pattern.
pub fn contains_str(s: &str, pat: &str) -> (r: bool)
    ensures
        r == contains(s@, pat@),
{
    let sc = chars_of(s);
    let pc = chars_of(pat);
    contains_chars(&sc, &pc)
}

// ---------------------------------------------------------------------------
// Replacement
// ---------------------------------------------------------------------------

/// Every non-overlapping occurrence of `pat`, scanning from the left, replaced
/// by `rep` (as `str::replace` with a non-empty pattern; for an empty pattern
/// this is `s` unchanged, which differs from `str::replace`).
pub open spec fn replace_all(s: Seq<char>, pat: Seq<char>, rep: Seq<char>) -> Seq<char>
    decreases s.len(),
{
    if s.len() == 0 {
        s
    } else if pat.len() > 0 && matches_at(s, 0, pat) {
        rep + replace_all(s.skip(pat.len() as int), pat, rep)
    } else {
        seq![s[0]] + replace_all(s.skip(1), pat, rep)
    }
}

/// `str::replace` for a non-empty pattern: a new string in which every
/// occurrence of `pat` is `rep`.  (An empty pattern, which `str::replace`
/// reads as matching between every two characters, is not accepted; no
/// caller in this crate needs it.)
pub fn replace_str(s: &str, pat: &str, rep: &str) -> (out: String)
    requires
        pat@.len() > 0,
    ensures
        out@ == replace_all(s@, pat@, rep@),
{
    let sc = chars_of(s);
    let pc = chars_of(pat);
    let n = sc.len();
    let m = pc.len();
    let mut out = String::new();
    let mut last: usize = 0;
    let mut i: usize = 0;
    proof {
        assert(s@.skip(0) =~= s@);
        assert(out@ + s@.subrange(0, 0) + replace_all(s@, pat@, rep@) =~= replace_all(s@, pat@, rep@));
    }
    while i < n
        invariant
            sc@ == s@,
            pc@ == pat@,
            n == s@.len(),
            m == pat@.len(),
            m > 0,
            last <= i <= n,
            out@ + s@.subrange(last as int, i as int) + replace_all(s@.skip(i as int), pat@, rep@)
                == replace_all(s@, pat@, rep@),
        decreases n - i,
    {
        let ghost t = s@.skip(i as int);
        if m <= n - i && matches_at_exec(&sc, i, &pc) {
            proof {
                assert(t.subrange(0, m as int) =~= s@.subrange(i as int, i + m));
                assert(t.skip(m as int) =~= s@.skip(i + m));
            }
            let piece = s.substring_char(last, i);
            out.append(piece);
            out.append(rep);
            i = i + m;
            last = i;
            proof {
                assert(s@.subrange(last as int, i as int) =~= Seq::<char>::empty());
            }
        } else {
            proof {
                if matches_at(t, 0, pat@) {
                    assert(t.subrange(0, m as int) =~= s@.subrange(i as int, i + m));
                }
                assert(t.skip(1) =~= s@.skip(i + 1));
                assert(s@.subrange(last as int, i + 1) =~= s@.subrange(last as int, i as int).push(
                    s@[i as int],
                ));
            }
            i = i + 1;
        }
    }
    let tail = s.substring_char(last, n);
    out.append(tail);
    proof {
        assert(s@.skip(n as int) =~= Seq::<char>::empty());
    }
    out
}

// ---------------------------------------------------------------------------
// Trimming
// ---------------------------------------------------------------------------

pub open spec fn trim_start(s: Seq<char>) -> Seq<char>
    decreases s.len(),
{
    if s.len() > 0 && is_white_space(s[0]) {
        trim_start(s.skip(1))
    } else {
        s
    }
}

pub open spec fn trim_end(s: Seq<char>) -> Seq<char>
    decreases s.len(),
{
    if s.len() > 0 && is_white_space(s.last()) {
        trim_end(s.drop_last())
    } else {
        s
    }
}

/// `str::trim`: leading and trailing whitespace removed.
pub open spec fn trim(s: Seq<char>) -> Seq<char> {
    trim_end(trim_start(s))
}

/// `str::trim`.
pub fn trim_str(s: &str) -> (out: &str)
    ensures
        out@ == trim(s@),
{
    let sc = chars_of(s);
    let n = sc.len();
    let mut a: usize = 0;
    assert(s@.skip(0) =~= s@);
    while a < n && is_white_space_char(sc[a])
        invariant
            sc@ == s@,
            n == s@.len(),
            a <= n,
            trim_start(s@) == trim_start(s@.skip(a as int)),
        decreases n - a,
    {
        proof {
            assert(s@.skip(a as int).skip(1) =~= s@.skip(a + 1));
        }
        a = a + 1;
    }
    proof {
        assert(trim_start(s@.skip(a as int)) == s@.skip(a as int));
        assert(s@.skip(a as int) =~= s@.subrange(a as int, n as int));
    }
    let mut b: usize = n;
    while b > a && is_white_space_char(sc[b - 1])
        invariant
            sc@ == s@,
            n == s@.len(),
            a <= b <= n,
            trim(s@) == trim_end(s@.subrange(a as int, b as int)),
        decreases b,
    {
        proof {
            assert(s@.subrange(a as int, b as int).drop_last() =~= s@.subrange(a as int, b - 1));
        }
        b = b - 1;
    }
    s.substring_char(a, b)
}

// ---------------------------------------------------------------------------
// Decimal numbers
// ---------------------------------------------------------------------------

/// The value of a string of decimal digits.
pub open spec fn digits_value(s: Seq<char>) -> nat
    decreases s.len(),
{
    if s.len() == 0 {
        0
    } else {
        digits_value(s.drop_last()) * 10 + (s.last() as nat - '0' as nat) as nat
    }
}

pub open spec fn all_digits(s: Seq<char>) -> bool {
    forall|k: int| 0 <= k < s.len() ==> is_digit(#[trigger] s[k])
}

/// `u16::from_str`: an optional `+` sign followed by at least one decimal digit,
/// whose value fits in 16 bits.
pub open spec fn parse_u16(s: Seq<char>) -> Option<u16> {
    let d = if s.len() > 0 && s[0] == '+' {
        s.skip(1)
    } else {
        s
    };
    if d.len() > 0 && all_digits(d) && digits_value(d) <= u16::MAX {
        Some(digits_value(d) as u16)
    } else {
        None
    }
}

/// `str::parse::<u16>`, with every error mapped to `None`.
pub fn parse_u16_str(s: &str) -> (r: Option<u16>)
    ensures
        r == parse_u16(s@),
{
    let sc = chars_of(s);
    let n = sc.len();
    let start: usize = if n > 0 && sc[0] == '+' {
        1
    } else {
        0
    };
    let ghost d = if s@.len() > 0 && s@[0] == '+' {
        s@.skip(1)
    } else {
        s@
    };
    proof {
        assert(d =~= s@.skip(start as int));
    }
    if start == n {
        assert(d.len() == 0);
        return None;
    }
    let mut val: u32 = 0;
    let mut over = false;
    let mut i: usize = start;
    while i < n
        invariant
            sc@ == s@,
            n == s@.len(),
            start <= i <= n,
            d == s@.skip(start as int),
            d == (if s@.len() > 0 && s@[0] == '+' {
                s@.skip(1)
            } else {
                s@
            }),
            forall|k: int| 0 <= k < i - start ==> is_digit(#[trigger] d[k]),
            !over ==> val == digits_value(d.take(i - start)) && val <= u16::MAX,
            over ==> digits_value(d.take(i - start)) > u16::MAX,
        decreases n - i,
    {
        let c = sc[i];
        if !('0' <= c && c <= '9') {
            assert(!is_digit(d[i - start]));
            assert(!all_digits(d));
            return None;
        }
        proof {
            assert(d.take(i - start + 1).drop_last() =~= d.take(i - start));
        }
        let dv = (c as u32) - ('0' as u32);
        if !over {
            let nv = val * 10 + dv;
            if nv > 65535 {
                over = true;
            } else {
                val = nv;
            }
        }
        i = i + 1;
    }
    proof {
        assert(d.take(n - start) =~= d);
    }
    if over {
        None
    } else {
        Some(val as u16)
    }
}

// ---------------------------------------------------------------------------
// Splitting
// ---------------------------------------------------------------------------

/// Length of the longest prefix of `s` free of whitespace.
pub open spec fn run_len(s: Seq<char>) -> nat
    decreases s.len(),
{
    if s.len() == 0 || is_white_space(s[0]) {
        0
    } else {
        1 + run_len(s.skip(1))
    }
}

pub proof fn lemma_run_len_bound(s: Seq<char>)
    ensures
        run_len(s) <= s.len(),
    decreases s.len(),
{
    if s.len() > 0 && !is_white_space(s[0]) {
        lemma_run_len_bound(s.skip(1));
    }
}

pub proof fn lemma_run_len_is(t: Seq<char>, r: int)
    requires
        0 <= r <= t.len(),
        forall|k: int| 0 <= k < r ==> !is_white_space(#[trigger] t[k]),
        r == t.len() || is_white_space(t[r]),
    ensures
        run_len(t) == r,
    decreases r,
{
    if r > 0 {
        let u = t.skip(1);
        assert forall|k: int| 0 <= k < r - 1 implies !is_white_space(#[trigger] u[k]) by {
            assert(u[k] == t[k + 1]);
        }
        if r - 1 < u.len() {
            assert(u[r - 1] == t[r]);
        }
        lemma_run_len_is(u, r - 1);
    }
}

/// `str::split_whitespace`: the maximal whitespace-free runs, in order.
pub open spec fn words(s: Seq<char>) -> Seq<Seq<char>>
    decreases s.len(),
{
    if s.len() == 0 {
        Seq::empty()
    } else if is_white_space(s[0]) {
        words(s.skip(1))
    } else {
        proof {
            lemma_run_len_bound(s);
        }
        seq![s.take(run_len(s) as int)] + words(s.skip(run_len(s) as int))
    }
}

/// `str::split_whitespace`.
pub fn split_whitespace_str(s: &str) -> (out: Vec<&str>)
    ensures
        out@.len() == words(s@).len(),
        forall|k: int| 0 <= k < out@.len() ==> #[trigger] out@[k]@ == words(s@)[k],
{
    let sc = chars_of(s);
    let n = sc.len();
    let mut out: Vec<&str> = Vec::new();
    let ghost mut acc: Seq<Seq<char>> = Seq::empty();
    let mut i: usize = 0;
    assert(s@.skip(0) =~= s@);
    assert(acc + words(s@) =~= words(s@));
    while i < n
        invariant
            sc@ == s@,
            n == s@.len(),
            i <= n,
            out@.len() == acc.len(),
            forall|k: int| 0 <= k < out@.len() ==> #[trigger] out@[k]@ == acc[k],
            acc + words(s@.skip(i as int)) == words(s@),
        decreases n - i,
    {
        let ghost t = s@.skip(i as int);
        if is_white_space_char(sc[i]) {
            proof {
                assert(t.skip(1) =~= s@.skip(i + 1));
            }
            i = i + 1;
        } else {
            let mut j: usize = i + 1;
            while j < n && !is_white_space_char(sc[j])
                invariant
                    sc@ == s@,
                    n == s@.len(),
                    i < j <= n,
                    forall|k: int| i <= k < j ==> !is_white_space(#[trigger] s@[k]),
                decreases n - j,
            {
                j = j + 1;
            }
            proof {
                assert forall|k: int| 0 <= k < j - i implies !is_white_space(#[trigger] t[k]) by {
                    assert(t[k] == s@[i + k]);
                }
                if j < n {
                    assert(t[j - i] == s@[j as int]);
                }
                lemma_run_len_is(t, j - i);
                assert(t.take(j - i) =~= s@.subrange(i as int, j as int));
                assert(t.skip(j - i) =~= s@.skip(j as int));
                assert(acc.push(s@.subrange(i as int, j as int)) + words(s@.skip(j as int)) =~= acc
                    + words(t));
            }
            let w = s.substring_char(i, j);
            out.push(w);
            proof {
                acc = acc.push(s@.subrange(i as int, j as int));
            }
            i = j;
        }
    }
    proof {
        assert(s@.skip(n as int) =~= Seq::<char>::empty());
        assert(acc =~= words(s@));
    }
    out
}

/// Length of the longest prefix of `s` free of the separator `c`.
pub open spec fn seg_len(s: Seq<char>, c: char) -> nat
    decreases s.len(),
{
    if s.len() == 0 || s[0] == c {
        0
    } else {
        1 + seg_len(s.skip(1), c)
    }
}

proof fn lemma_seg_len_is(t: Seq<char>, c: char, r: int)
    requires
        0 <= r <= t.len(),
        forall|k: int| 0 <= k < r ==> #[trigger] t[k] != c,
        r == t.len() || t[r] == c,
    ensures
        seg_len(t, c) == r,
    decreases r,
{
    if r > 0 {
        let u = t.skip(1);
        assert forall|k: int| 0 <= k < r - 1 implies #[trigger] u[k] != c by {
            assert(u[k] == t[k + 1]);
        }
        if r - 1 < u.len() {
            assert(u[r - 1] == t[r]);
        }
        lemma_seg_len_is(u, c, r - 1);
    }
}

/// `str::split` on a character: the pieces between separators, empty pieces
/// included; always at least one piece.
pub open spec fn split_on(s: Seq<char>, c: char) -> Seq<Seq<char>>
    decreases s.len(),
{
    let k = seg_len(s, c);
    if k >= s.len() {
        seq![s]
    } else {
        seq![s.take(k as int)] + split_on(s.skip((k + 1) as int), c)
    }
}

/// `str::split` on a character.
pub fn split_char_str(s: &str, c: char) -> (out: Vec<&str>)
    ensures
        out@.len() == split_on(s@, c).len(),
        forall|k: int| 0 <= k < out@.len() ==> #[trigger] out@[k]@ == split_on(s@, c)[k],
{
    let sc = chars_of(s);
    let n = sc.len();
    let mut out: Vec<&str> = Vec::new();
    let ghost mut acc: Seq<Seq<char>> = Seq::empty();
    let mut start: usize = 0;
    let mut i: usize = 0;
    assert(s@.skip(0) =~= s@);
    assert(acc + split_on(s@, c) =~= split_on(s@, c));
    while i < n
        invariant
            sc@ == s@,
            n == s@.len(),
            start <= i <= n,
            forall|k: int| start <= k < i ==> #[trigger] s@[k] != c,
            out@.len() == acc.len(),
            forall|k: int| 0 <= k < out@.len() ==> #[trigger] out@[k]@ == acc[k],
            acc + split_on(s@.skip(start as int), c) == split_on(s@, c),
        decreases n - i,
    {
        if sc[i] == c {
            let ghost t = s@.skip(start as int);
            proof {
                assert forall|k: int| 0 <= k < i - start implies #[trigger] t[k] != c by {
                    assert(t[k] == s@[start + k]);
                }
                assert(t[i - start] == s@[i as int]);
                lemma_seg_len_is(t, c, i - start);
                assert(t.take(i - start) =~= s@.subrange(start as int, i as int));
                assert(t.skip(i - start + 1) =~= s@.skip(i + 1));
                assert(acc.push(s@.subrange(start as int, i as int)) + split_on(s@.skip(i + 1), c)
                    =~= acc + split_on(t, c));
            }
            let piece = s.substring_char(start, i);
            out.push(piece);
            proof {
                acc = acc.push(s@.subrange(start as int, i as int));
            }
            start = i + 1;
        }
        i = i + 1;
    }
    let ghost t = s@.skip(start as int);
    proof {
        assert forall|k: int| 0 <= k < n - start implies #[trigger] t[k] != c by {
            assert(t[k] == s@[start + k]);
        }
        lemma_seg_len_is(t, c, n - start);
        assert(t =~= s@.subrange(start as int, n as int));
    }
    let piece = s.substring_char(start, n);
    out.push(piece);
    proof {
        acc = acc.push(s@.subrange(start as int, n as int));
        assert(acc =~= split_on(s@, c));
    }
    out
}

/// A line with the carriage return of a `\r\n` ending removed.
pub open spec fn strip_cr(l: Seq<char>) -> Seq<char> {
    if l.len() > 0 && l.last() == '\r' {
        l.drop_last()
    } else {
        l
    }
}

/// `str::lines`: the pieces between `\n` characters, each piece that ended in
/// `\r\n` without its `\r`; a final line ending adds no empty line.
pub open spec fn lines(s: Seq<char>) -> Seq<Seq<char>> {
    let segs = split_on(s, '\n');
    let body = segs.drop_last().map_values(|l: Seq<char>| strip_cr(l));
    if segs.last().len() == 0 {
        body
    } else {
        body.push(segs.last())
    }
}

fn strip_cr_str(l: &str) -> (out: &str)
    ensures
        out@ == strip_cr(l@),
{
    let n = l.unicode_len();
    if n > 0 && l.get_char(n - 1) == '\r' {
        let out = l.substring_char(0, n - 1);
        assert(out@ =~= l@.drop_last());
        out
    } else {
        l
    }
}

/// `str::lines`.
pub fn lines_str(s: &str) -> (out: Vec<&str>)
    ensures
        out@.len() == lines(s@).len(),
        forall|k: int| 0 <= k < out@.len() ==> #[trigger] out@[k]@ == lines(s@)[k],
{
    let segs = split_char_str(s, '\n');
    let ghost sp = split_on(s@, '\n');
    assert(sp.len() >= 1);
    let last = segs.len() - 1;
    let ghost body = sp.drop_last().map_values(|l: Seq<char>| strip_cr(l));
    let mut out: Vec<&str> = Vec::new();
    let mut k: usize = 0;
    while k < last
        invariant
            segs@.len() == sp.len(),
            forall|j: int| 0 <= j < segs@.len() ==> #[trigger] segs@[j]@ == sp[j],
            last == sp.len() - 1,
            body == sp.drop_last().map_values(|l: Seq<char>| strip_cr(l)),
            k <= last,
            out@.len() == k,
            forall|j: int| 0 <= j < k ==> #[trigger] out@[j]@ == body[j],
        decreases last - k,
    {
        let l = strip_cr_str(segs[k]);
        out.push(l);
        k = k + 1;
    }
    if segs[last].unicode_len() > 0 {
        out.push(segs[last]);
    }
    proof {
        if sp.last().len() == 0 {
            assert(lines(s@) == body);
        } else {
            assert(lines(s@) == body.push(sp.last()));
        }
    }
    out
}

/// The characters after the last `c` in `s`, or all of `s` when it holds no
/// `c`: the last piece that `str::split` on `c` yields.
pub open spec fn after_last(s: Seq<char>, c: char) -> Seq<char>
    decreases s.len(),
{
    if s.len() == 0 || s.last() == c {
        Seq::empty()
    } else {
        after_last(s.drop_last(), c).push(s.last())
    }
}

/// `str::split(c).last()`.
pub fn after_last_str(s: &str, c: char) -> (out: &str)
    ensures
        out@ == after_last(s@, c),
{
    let sc = chars_of(s);
    let n = sc.len();
    let mut j: usize = n;
    assert(s@.take(n as int) =~= s@);
    assert(s@.subrange(n as int, n as int) =~= Seq::<char>::empty());
    while j > 0 && sc[j - 1] != c
        invariant
            sc@ == s@,
            n == s@.len(),
            j <= n,
            after_last(s@, c) == after_last(s@.take(j as int), c) + s@.subrange(j as int, n as int),
        decreases j,
    {
        proof {
            assert(s@.take(j as int).drop_last() =~= s@.take(j - 1));
            assert(after_last(s@.take(j - 1), c).push(s@[j - 1]) + s@.subrange(j as int, n as int)
                =~= after_last(s@.take(j - 1), c) + s@.subrange(j - 1, n as int));
        }
        j = j - 1;
    }
    proof {
        assert(after_last(s@.take(j as int), c) =~= Seq::<char>::empty());
        assert(after_last(s@, c) =~= s@.subrange(j as int, n as int));
    }
    s.substring_char(j, n)
}

// ---------------------------------------------------------------------------
// Decimal rendering
// ---------------------------------------------------------------------------

/// The character of a decimal digit.
pub open spec fn digit_char(d: nat) -> char {
    (d + '0' as nat) as char
}

/// The decimal numeral of `n`, without sign or leading zeros (as `Display`
/// for unsigned integers writes it).
pub open spec fn decimal(n: nat) -> Seq<char>
    decreases n,
{
    if n < 10 {
        seq![digit_char(n)]
    } else {
        decimal(n / 10).push(digit_char(n % 10))
    }
}

fn digit_str(d: u16) -> (s: &'static str)
    requires
        d < 10,
    ensures
        s@ == seq![digit_char(d as nat)],
{
    proof {
        reveal_strlit("0");
        reveal_strlit("1");
        reveal_strlit("2");
        reveal_strlit("3");
        reveal_strlit("4");
        reveal_strlit("5");
        reveal_strlit("6");
        reveal_strlit("7");
        reveal_strlit("8");
        reveal_strlit("9");
    }
    match d {
        0 => "0",
        1 => "1",
        2 => "2",
        3 => "3",
        4 => "4",
        5 => "5",
        6 => "6",
        7 => "7",
        8 => "8",
        _ => "9",
    }
}

/// The decimal numeral of `n`.
pub fn u16_to_decimal(n: u16) -> (s: String)
    ensures
        s@ == decimal(n as nat),
    decreases n,
{
    if n < 10 {
        String::from_str(digit_str(n))
    } else {
        let mut s = u16_to_decimal(n / 10);
        s.append(digit_str(n % 10));
        s
    }
}

/// Reading back a numeral gives the number: the numeral is a non-empty run of
/// digits whose value is `n`.
pub proof fn law_decimal_reads_back(n: nat)
    ensures
        decimal(n).len() > 0,
        all_digits(decimal(n)),
        digits_value(decimal(n)) == n,
        n <= u16::MAX ==> parse_u16(decimal(n)) == Some(n as u16),
    decreases n,
{
    let d = decimal(n);
    if n < 10 {
        assert(digit_char(n) as nat == n + '0' as nat);
        assert(d.drop_last() =~= Seq::<char>::empty());
        assert(digits_value(d.drop_last()) == 0);
    } else {
        law_decimal_reads_back(n / 10);
        assert(digit_char(n % 10) as nat == n % 10 + '0' as nat);
        assert(n / 10 * 10 + n % 10 == n);
        assert(d.drop_last() =~= decimal(n / 10));
        assert forall|k: int| 0 <= k < d.len() implies is_digit(#[trigger] d[k]) by {
            if k < d.len() - 1 {
                assert(d[k] == decimal(n / 10)[k]);
            }
        }
    }
    assert(is_digit(d[0]));
}

// ---------------------------------------------------------------------------
// Facts about search, replacement and trimming
// ---------------------------------------------------------------------------

/// A pattern holding a character that `s` lacks does not occur in `s`.
pub proof fn lemma_missing_char_not_contained(s: Seq<char>, pat: Seq<char>, k: int)
    requires
        0 <= k < pat.len(),
        forall|i: int| 0 <= i < s.len() ==> #[trigger] s[i] != pat[k],
    ensures
        !contains(s, pat),
{
    assert forall|i: int| !#[trigger] matches_at(s, i, pat) by {
        if matches_at(s, i, pat) {
            assert(s.subrange(i, i + pat.len())[k] == s[i + k]);
        }
    }
}

/// Replacing a pattern that does not occur leaves the text unchanged.
pub proof fn lemma_replace_absent(s: Seq<char>, pat: Seq<char>, rep: Seq<char>)
    requires
        pat.len() > 0,
        !contains(s, pat),
    ensures
        replace_all(s, pat, rep) == s,
    decreases s.len(),
{
    if s.len() > 0 {
        assert(!matches_at(s, 0, pat));
        let u = s.skip(1);
        assert forall|i: int| !#[trigger] matches_at(u, i, pat) by {
            if matches_at(u, i, pat) {
                assert(s.subrange(i + 1, i + 1 + pat.len()) =~= u.subrange(i, i + pat.len()));
                assert(matches_at(s, i + 1, pat));
            }
        }
        lemma_replace_absent(u, pat, rep);
        assert(seq![s[0]] + u =~= s);
    }
}

/// Replacing a pattern that occurs only at the very start removes it there.
pub proof fn lemma_replace_leading(pat: Seq<char>, rest: Seq<char>)
    requires
        pat.len() > 0,
        !contains(rest, pat),
    ensures
        replace_all(pat + rest, pat, Seq::empty()) == rest,
{
    let s = pat + rest;
    assert(s.subrange(0, pat.len() as int) =~= pat);
    assert(s.skip(pat.len() as int) =~= rest);
    lemma_replace_absent(rest, pat, Seq::empty());
    assert(Seq::<char>::empty() + rest =~= rest);
}

/// Leading whitespace is dropped by trimming a text that starts and ends
/// with a non-whitespace character.
pub proof fn lemma_trim_leading_space(t: Seq<char>)
    requires
        t.len() > 0,
        !is_white_space(t[0]),
        !is_white_space(t.last()),
    ensures
        trim(seq![' '] + t) == t,
{
    let s = seq![' '] + t;
    assert(s.skip(1) =~= t);
    assert(trim_start(s) == trim_start(t));
}

/// The text after the last `c` holds no `c` and ends `s`; either it is all
/// of `s` or a `c` comes just before it.
pub proof fn law_after_last(s: Seq<char>, c: char)
    ensures
        ({
            let t = after_last(s, c);
            &&& t.len() <= s.len()
            &&& forall|i: int| 0 <= i < t.len() ==> #[trigger] t[i] != c
            &&& t == s.skip(s.len() - t.len())
            &&& t.len() == s.len() || s[s.len() - t.len() - 1] == c
        }),
    decreases s.len(),
{
    if s.len() > 0 && s.last() != c {
        law_after_last(s.drop_last(), c);
        let t0 = after_last(s.drop_last(), c);
        let t = after_last(s, c);
        assert(t == t0.push(s.last()));
        assert(t =~= s.skip(s.len() - t.len()));
        if t0.len() < s.len() - 1 {
            assert(s[s.len() - t.len() - 1] == s.drop_last()[s.drop_last().len() - t0.len() - 1]);
        }
    } else if s.len() > 0 {
        assert(s.skip(s.len() as int) =~= Seq::<char>::empty());
    } else {
        assert(s.skip(0) =~= s);
    }
}

} // verus!

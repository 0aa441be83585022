//! Mapping spoken phrases to concrete values: port numbers read out as words,
//! and spoken site names looked up among the configured bookmarks.
use vstd::prelude::*;

use crate::config::ArgusConfig;
use crate::text::{
    all_digits,
    decimal,
    digit_char,
    is_digit,
    is_white_space,
    law_decimal_reads_back,
    lemma_missing_char_not_contained,
    lemma_replace_absent,
    lemma_replace_leading,
    lemma_run_len_is,
    lemma_trim_leading_space,
    matches_at,
    run_len,
    parse_u16,
    parse_u16_str,
    replace_all,
    replace_str,
    split_whitespace_str,
    str_eq,
    trim,
    trim_str,
    words,
};

verus! {

// ---------------------------------------------------------------------------
// Ports
// ---------------------------------------------------------------------------

/// The spoken phrase with the wake words and port verbs removed and trimmed,
/// then with "thousand", "hundred" and "oh" rewritten as zero words and digits.
pub open spec fn port_target(command: Seq<char>) -> Seq<char> {
    let stripped = replace_all(
        replace_all(
            replace_all(
                replace_all(
                    replace_all(replace_all(command, "argus"@, ""@), "august"@, ""@),
                    "kill port"@,
                    ""@,
                ),
                "clear port"@,
                ""@,
            ),
            "close port"@,
            ""@,
        ),
        "terminate port"@,
        ""@,
    );
    let t = trim(stripped);
    replace_all(
        replace_all(replace_all(t, "thousand"@, "zero zero zero"@), "hundred"@, "zero zero"@),
        "oh"@,
        "0"@,
    )
}

/// Ports that are recognised as whole phrases.
pub open spec fn known_port(t: Seq<char>) -> Option<u16> {
    if t == "eighty eighty"@ {
        Some(8080)
    } else if t == "eighty eighty one"@ {
        Some(8081)
    } else if t == "eighty eight"@ {
        Some(88)
    } else if t == "fifty one seventy three"@ {
        Some(5173)
    } else if t == "fifty four thirty two"@ {
        Some(5432)
    } else if t == "thirty three 0 six"@ {
        Some(3306)
    } else if t == "sixty three seventy nine"@ {
        Some(6379)
    } else if t == "forty two 0 0"@ {
        Some(4200)
    } else {
        None
    }
}

/// The digit a single spoken word stands for; empty for any other word.
pub open spec fn digit_word(w: Seq<char>) -> Seq<char> {
    if w == "zero"@ || w == "0"@ {
        "0"@
    } else if w == "one"@ {
        "1"@
    } else if w == "two"@ {
        "2"@
    } else if w == "three"@ {
        "3"@
    } else if w == "four"@ {
        "4"@
    } else if w == "five"@ {
        "5"@
    } else if w == "six"@ {
        "6"@
    } else if w == "seven"@ {
        "7"@
    } else if w == "eight"@ {
        "8"@
    } else if w == "nine"@ {
        "9"@
    } else {
        ""@
    }
}

/// The digits that a sequence of words spells, in order.
pub open spec fn digit_string(ws: Seq<Seq<char>>) -> Seq<char>
    decreases ws.len(),
{
    if ws.len() == 0 {
        Seq::empty()
    } else {
        digit_string(ws.drop_last()) + digit_word(ws.last())
    }
}

/// The port a spoken command names: a whole known phrase, or else the number
/// spelled digit by digit, if it fits in 16 bits.
pub open spec fn spoken_port(command: Seq<char>) -> Option<u16> {
    let t = port_target(command);
    match known_port(t) {
        Some(p) => Some(p),
        None => parse_u16(digit_string(words(t))),
    }
}

fn known_port_exec(t: &str) -> (r: Option<u16>)
    ensures
        r == known_port(t@),
{
    if str_eq(t, "eighty eighty") {
        Some(8080)
    } else if str_eq(t, "eighty eighty one") {
        Some(8081)
    } else if str_eq(t, "eighty eight") {
        Some(88)
    } else if str_eq(t, "fifty one seventy three") {
        Some(5173)
    } else if str_eq(t, "fifty four thirty two") {
        Some(5432)
    } else if str_eq(t, "thirty three 0 six") {
        Some(3306)
    } else if str_eq(t, "sixty three seventy nine") {
        Some(6379)
    } else if str_eq(t, "forty two 0 0") {
        Some(4200)
    } else {
        None
    }
}

fn digit_for_word(w: &str) -> (d: &'static str)
    ensures
        d@ == digit_word(w@),
{
    if str_eq(w, "zero") || str_eq(w, "0") {
        "0"
    } else if str_eq(w, "one") {
        "1"
    } else if str_eq(w, "two") {
        "2"
    } else if str_eq(w, "three") {
        "3"
    } else if str_eq(w, "four") {
        "4"
    } else if str_eq(w, "five") {
        "5"
    } else if str_eq(w, "six") {
        "6"
    } else if str_eq(w, "seven") {
        "7"
    } else if str_eq(w, "eight") {
        "8"
    } else if str_eq(w, "nine") {
        "9"
    } else {
        ""
    }
}

/// Reads the port number out of a spoken "kill port ..." command.
pub fn extract_dynamic_port(command: &str) -> (r: Option<u16>)
    ensures
        r == spoken_port(command@),
{
    proof {
        reveal_strlit("argus");
        reveal_strlit("august");
        reveal_strlit("kill port");
        reveal_strlit("clear port");
        reveal_strlit("close port");
        reveal_strlit("terminate port");
        reveal_strlit("thousand");
        reveal_strlit("hundred");
        reveal_strlit("oh");
    }
    let s1 = replace_str(command, "argus", "");
    let s2 = replace_str(s1.as_str(), "august", "");
    let s3 = replace_str(s2.as_str(), "kill port", "");
    let s4 = replace_str(s3.as_str(), "clear port", "");
    let s5 = replace_str(s4.as_str(), "close port", "");
    let s6 = replace_str(s5.as_str(), "terminate port", "");
    let t = trim_str(s6.as_str());
    let t1 = replace_str(t, "thousand", "zero zero zero");
    let t2 = replace_str(t1.as_str(), "hundred", "zero zero");
    let target = replace_str(t2.as_str(), "oh", "0");
    if let Some(p) = known_port_exec(target.as_str()) {
        return Some(p);
    }
    let ws = split_whitespace_str(target.as_str());
    let ghost wv = words(target@);
    let mut digits = String::new();
    let mut i: usize = 0;
    while i < ws.len()
        invariant
            ws@.len() == wv.len(),
            forall|k: int| 0 <= k < ws@.len() ==> #[trigger] ws@[k]@ == wv[k],
            i <= ws@.len(),
            digits@ == digit_string(wv.take(i as int)),
        decreases ws@.len() - i,
    {
        let d = digit_for_word(ws[i]);
        digits.append(d);
        proof {
            assert(wv.take(i + 1).drop_last() =~= wv.take(i as int));
        }
        i = i + 1;
    }
    assert(wv.take(ws@.len() as int) =~= wv);
    parse_u16_str(digits.as_str())
}

// ---------------------------------------------------------------------------
// Sites
// ---------------------------------------------------------------------------

/// The spoken site name with common mishearings corrected.
pub open spec fn normalize_spoken(spoken: Seq<char>) -> Seq<char> {
    replace_all(
        replace_all(
            replace_all(
                replace_all(
                    replace_all(
                        replace_all(replace_all(spoken, "git hub"@, "github"@), "get hub"@, "github"@),
                        "you tube"@,
                        "youtube"@,
                    ),
                    "local host"@,
                    "local"@,
                ),
                "veet"@,
                "vite"@,
            ),
            "light"@,
            "vite"@,
        ),
        "back end"@,
        "backend"@,
    )
}

/// `normalize_spoken`, computed.
pub fn normalize_spoken_str(spoken: &str) -> (out: String)
    ensures
        out@ == normalize_spoken(spoken@),
{
    proof {
        reveal_strlit("git hub");
        reveal_strlit("get hub");
        reveal_strlit("you tube");
        reveal_strlit("local host");
        reveal_strlit("veet");
        reveal_strlit("light");
        reveal_strlit("back end");
    }
    let a = replace_str(spoken, "git hub", "github");
    let b = replace_str(a.as_str(), "get hub", "github");
    let c = replace_str(b.as_str(), "you tube", "youtube");
    let d = replace_str(c.as_str(), "local host", "local");
    let e = replace_str(d.as_str(), "veet", "vite");
    let f = replace_str(e.as_str(), "light", "vite");
    replace_str(f.as_str(), "back end", "backend")
}

/// The URL bookmarked under the spoken site name, after correcting common
/// mishearings; `None` when no bookmark has that name.
pub fn map_url(spoken: &str, config: &ArgusConfig) -> (r: Option<String>)
    ensures
        r is Some <==> config@.contains_key(normalize_spoken(spoken@)),
        r matches Some(url) ==> url@ == config@[normalize_spoken(spoken@)],
{
    let key = normalize_spoken_str(spoken);
    config.bookmark(key.as_str())
}

// ---------------------------------------------------------------------------
// Laws of spoken ports
// ---------------------------------------------------------------------------

/// The English name of a decimal digit.
pub open spec fn digit_name(d: nat) -> Seq<char> {
    if d == 0 {
        "zero"@
    } else if d == 1 {
        "one"@
    } else if d == 2 {
        "two"@
    } else if d == 3 {
        "three"@
    } else if d == 4 {
        "four"@
    } else if d == 5 {
        "five"@
    } else if d == 6 {
        "six"@
    } else if d == 7 {
        "seven"@
    } else if d == 8 {
        "eight"@
    } else {
        "nine"@
    }
}

/// Each digit's English name is read as that digit.
pub proof fn law_digit_names_read_as_digits(d: nat)
    requires
        d < 10,
    ensures
        digit_word(digit_name(d)) == seq![digit_char(d)],
{
    reveal_strlit("zero");
    reveal_strlit("0");
    reveal_strlit("one");
    reveal_strlit("1");
    reveal_strlit("two");
    reveal_strlit("2");
    reveal_strlit("three");
    reveal_strlit("3");
    reveal_strlit("four");
    reveal_strlit("4");
    reveal_strlit("five");
    reveal_strlit("5");
    reveal_strlit("six");
    reveal_strlit("6");
    reveal_strlit("seven");
    reveal_strlit("7");
    reveal_strlit("eight");
    reveal_strlit("8");
    reveal_strlit("nine");
    reveal_strlit("9");
    let w = digit_name(d);
    assert("zero"@.len() == 4 && "zero"@[0] == 'z');
    assert("one"@.len() == 3 && "one"@[0] == 'o');
    assert("two"@.len() == 3 && "two"@[0] == 't');
    assert("three"@.len() == 5 && "three"@[0] == 't');
    assert("four"@.len() == 4 && "four"@[0] == 'f');
    assert("five"@.len() == 4 && "five"@[0] == 'f');
    assert("six"@.len() == 3 && "six"@[0] == 's');
    assert("seven"@.len() == 5 && "seven"@[0] == 's');
    assert("eight"@.len() == 5 && "eight"@[0] == 'e');
    assert("nine"@.len() == 4 && "nine"@[0] == 'n');
    assert("0"@.len() == 1 && "0"@[0] == '0');
    assert("1"@.len() == 1 && "1"@[0] == '1');
    assert("2"@.len() == 1 && "2"@[0] == '2');
    assert("3"@.len() == 1 && "3"@[0] == '3');
    assert("4"@.len() == 1 && "4"@[0] == '4');
    assert("5"@.len() == 1 && "5"@[0] == '5');
    assert("6"@.len() == 1 && "6"@[0] == '6');
    assert("7"@.len() == 1 && "7"@[0] == '7');
    assert("8"@.len() == 1 && "8"@[0] == '8');
    assert("9"@.len() == 1 && "9"@[0] == '9');
    assert(("one"@)[1] == 'n' && ("eight"@)[1] == 'i' && ("six"@)[1] == 'i' && ("seven"@)[1] == 'e');
    assert(("two"@)[1] == 'w' && ("three"@)[1] == 'h' && ("four"@)[1] == 'o' && ("five"@)[1] == 'i');
    assert(digit_word(w) =~= seq![digit_char(d)]);
}

/// A sequence of digit names spells those digits, in order.
pub proof fn law_digit_names_spell_digits(ds: Seq<nat>)
    requires
        forall|i: int| 0 <= i < ds.len() ==> #[trigger] ds[i] < 10,
    ensures
        digit_string(ds.map_values(|d: nat| digit_name(d))) == ds.map_values(|d: nat| digit_char(d)),
    decreases ds.len(),
{
    let ws = ds.map_values(|d: nat| digit_name(d));
    if ds.len() > 0 {
        law_digit_names_spell_digits(ds.drop_last());
        law_digit_names_read_as_digits(ds.last());
        assert(ws.drop_last() =~= ds.drop_last().map_values(|d: nat| digit_name(d)));
        assert(ds.map_values(|d: nat| digit_char(d)) =~= ds.drop_last().map_values(
            |d: nat| digit_char(d),
        ).push(digit_char(ds.last())));
    } else {
        assert(ds.map_values(|d: nat| digit_char(d)) =~= Seq::<char>::empty());
    }
}

/// Words joined by single spaces.
pub open spec fn spaced(ws: Seq<Seq<char>>) -> Seq<char>
    decreases ws.len(),
{
    if ws.len() == 0 {
        Seq::empty()
    } else if ws.len() == 1 {
        ws[0]
    } else {
        ws[0] + seq![' '] + spaced(ws.skip(1))
    }
}

/// The value of a decimal digit character.
pub open spec fn digit_of(c: char) -> nat {
    (c as nat - '0' as nat) as nat
}

/// A number read out digit by digit: the English names of its decimal
/// digits, separated by spaces ("four two zero zero" for 4200).
pub open spec fn spelled(n: nat) -> Seq<char> {
    spaced(decimal(n).map_values(|c: char| digit_name(digit_of(c))))
}

/// The letters that occur in the digit names.
spec fn name_char(c: char) -> bool {
    c == 'z' || c == 'e' || c == 'r' || c == 'o' || c == 'n' || c == 't' || c == 'w' || c == 'h'
        || c == 'f' || c == 'u' || c == 'i' || c == 'v' || c == 's' || c == 'x' || c == 'g'
}

/// No "o" is directly followed by "h".
spec fn no_oh(s: Seq<char>) -> bool {
    forall|i: int| 0 <= i && i + 1 < s.len() ==> !(#[trigger] s[i] == 'o' && s[i + 1] == 'h')
}

/// A non-empty word of digit-name letters in which no "o" precedes an "h".
spec fn solid_word(w: Seq<char>) -> bool {
    &&& w.len() > 0
    &&& forall|i: int| 0 <= i < w.len() ==> name_char(#[trigger] w[i])
    &&& no_oh(w)
}

proof fn lemma_digit_name_solid(d: nat)
    requires
        d < 10,
    ensures
        solid_word(digit_name(d)),
{
    reveal_strlit("zero");
    reveal_strlit("one");
    reveal_strlit("two");
    reveal_strlit("three");
    reveal_strlit("four");
    reveal_strlit("five");
    reveal_strlit("six");
    reveal_strlit("seven");
    reveal_strlit("eight");
    reveal_strlit("nine");
    let w = digit_name(d);
    assert forall|i: int| 0 <= i < w.len() implies name_char(#[trigger] w[i]) by {
        if i == 0 {
        } else if i == 1 {
        } else if i == 2 {
        } else if i == 3 {
        } else {
        }
    }
    assert forall|i: int| 0 <= i && i + 1 < w.len() implies !(#[trigger] w[i] == 'o' && w[i + 1]
        == 'h') by {
        if i == 0 {
        } else if i == 1 {
        } else if i == 2 {
        } else {
        }
    }
}

/// Facts about digit names joined by spaces: their letters, the absence of
/// "oh", solid ends, and that splitting at whitespace gives the names back.
proof fn lemma_spaced(ws: Seq<Seq<char>>)
    requires
        ws.len() > 0,
        forall|k: int| 0 <= k < ws.len() ==> solid_word(#[trigger] ws[k]),
    ensures
        spaced(ws).len() > 0,
        forall|i: int|
            0 <= i < spaced(ws).len() ==> name_char(#[trigger] spaced(ws)[i]) || spaced(ws)[i] == ' ',
        no_oh(spaced(ws)),
        !is_white_space(spaced(ws)[0]),
        !is_white_space(spaced(ws).last()),
        words(spaced(ws)) == ws,
    decreases ws.len(),
{
    let j = spaced(ws);
    let w = ws[0];
    assert(solid_word(w));
    let wl = w.len() as int;
    if ws.len() == 1 {
        lemma_run_len_is(w, wl);
        assert(w.take(wl) =~= w);
        assert(w.skip(wl) =~= Seq::<char>::empty());
        assert(words(w) == seq![w] + words(Seq::<char>::empty()));
        assert(seq![w] + Seq::<Seq<char>>::empty() =~= ws);
        assert(name_char(w.last()));
    } else {
        let rs = ws.skip(1);
        assert forall|k: int| 0 <= k < rs.len() implies solid_word(#[trigger] rs[k]) by {
            assert(rs[k] == ws[k + 1]);
        }
        lemma_spaced(rs);
        let r = spaced(rs);
        assert(j == w + seq![' '] + r);
        assert forall|k: int| 0 <= k < wl implies !is_white_space(#[trigger] j[k]) by {
            assert(j[k] == w[k]);
            assert(name_char(w[k]));
        }
        assert(j[wl] == ' ');
        lemma_run_len_is(j, wl);
        assert(j.take(wl) =~= w);
        let tail = j.skip(wl);
        assert(tail =~= seq![' '] + r);
        assert(tail.skip(1) =~= r);
        assert(words(tail) == words(r));
        assert(words(j) == seq![w] + words(r));
        assert(seq![w] + rs =~= ws);
        assert forall|i: int| 0 <= i < j.len() implies name_char(#[trigger] j[i]) || j[i] == ' ' by {
            if i < wl {
                assert(j[i] == w[i]);
            } else if i > wl {
                assert(j[i] == r[i - wl - 1]);
            }
        }
        assert forall|i: int| 0 <= i && i + 1 < j.len() implies !(#[trigger] j[i] == 'o' && j[i + 1]
            == 'h') by {
            if i + 1 < wl {
                assert(j[i] == w[i] && j[i + 1] == w[i + 1]);
            } else if i + 1 == wl {
            } else if i == wl {
            } else {
                assert(j[i] == r[i - wl - 1] && j[i + 1] == r[i - wl]);
            }
        }
        assert(j[0] == w[0]);
        assert(name_char(w[0]));
        assert(j.last() == r.last());
    }
}

proof fn lemma_digit_string_of_names(ds: Seq<char>)
    requires
        all_digits(ds),
    ensures
        digit_string(ds.map_values(|c: char| digit_name(digit_of(c)))) == ds,
    decreases ds.len(),
{
    let ws = ds.map_values(|c: char| digit_name(digit_of(c)));
    if ds.len() > 0 {
        let init = ds.drop_last();
        assert forall|k: int| 0 <= k < init.len() implies is_digit(#[trigger] init[k]) by {
            assert(init[k] == ds[k]);
        }
        lemma_digit_string_of_names(init);
        assert(ws.drop_last() =~= init.map_values(|c: char| digit_name(digit_of(c))));
        let c = ds.last();
        assert(is_digit(ds[ds.len() - 1]));
        law_digit_names_read_as_digits(digit_of(c));
        assert(digit_char(digit_of(c)) == c);
        assert(init + seq![c] =~= ds);
    }
}

/// A port read out digit by digit comes back as itself: "kill port" followed
/// by the English names of the digits of `n` names port `n`.
pub proof fn law_spelled_port_reads_back(n: u16)
    ensures
        spoken_port("kill port "@ + spelled(n as nat)) == Some(n),
{
    reveal_strlit("kill port ");
    reveal_strlit("");
    reveal_strlit("kill port");
    reveal_strlit("argus");
    reveal_strlit("august");
    reveal_strlit("clear port");
    reveal_strlit("close port");
    reveal_strlit("terminate port");
    reveal_strlit("thousand");
    reveal_strlit("hundred");
    reveal_strlit("oh");
    reveal_strlit("eighty eighty");
    reveal_strlit("eighty eighty one");
    reveal_strlit("eighty eight");
    reveal_strlit("fifty one seventy three");
    reveal_strlit("fifty four thirty two");
    reveal_strlit("thirty three 0 six");
    reveal_strlit("sixty three seventy nine");
    reveal_strlit("forty two 0 0");
    let ds = decimal(n as nat);
    law_decimal_reads_back(n as nat);
    let ws = ds.map_values(|c: char| digit_name(digit_of(c)));
    assert forall|k: int| 0 <= k < ws.len() implies solid_word(#[trigger] ws[k]) by {
        assert(is_digit(ds[k]));
        lemma_digit_name_solid(digit_of(ds[k]));
    }
    lemma_spaced(ws);
    let j = spaced(ws);
    let kp = "kill port"@;
    let tl = seq![' '] + j;
    // "kill port " is "kill port" followed by a space.
    assert forall|i: int| 0 <= i < "kill port "@.len() implies #[trigger] "kill port "@[i] == (kp
        + seq![' '])[i] by {
        if i == 0 {
        } else if i == 1 {
        } else if i == 2 {
        } else if i == 3 {
        } else if i == 4 {
        } else if i == 5 {
        } else if i == 6 {
        } else if i == 7 {
        } else if i == 8 {
        } else {
        }
    }
    assert("kill port "@ =~= kp + seq![' ']);
    let s = "kill port "@ + spelled(n as nat);
    assert(s =~= kp + tl);
    // The letters that occur in the command.
    assert forall|i: int| 0 <= i < kp.len() implies #[trigger] kp[i] != 'a' && kp[i] != 'c' && kp[i]
        != 'm' && kp[i] != 'd' by {
        if i == 0 {
        } else if i == 1 {
        } else if i == 2 {
        } else if i == 3 {
        } else if i == 4 {
        } else if i == 5 {
        } else if i == 6 {
        } else if i == 7 {
        } else {
        }
    }
    assert forall|i: int| 0 <= i < tl.len() implies name_char(#[trigger] tl[i]) || tl[i] == ' ' by {
        if i > 0 {
            assert(tl[i] == j[i - 1]);
        }
    }
    assert forall|i: int| 0 <= i < s.len() implies #[trigger] s[i] != 'a' by {
        if i < kp.len() {
            assert(s[i] == kp[i]);
        } else {
            assert(s[i] == tl[i - kp.len()]);
        }
    }
    lemma_missing_char_not_contained(s, "argus"@, 0);
    lemma_replace_absent(s, "argus"@, ""@);
    lemma_missing_char_not_contained(s, "august"@, 0);
    lemma_replace_absent(s, "august"@, ""@);
    assert forall|i: int| 0 <= i < tl.len() implies #[trigger] tl[i] != 'k' && tl[i] != 'c' && tl[i]
        != 'm' by {}
    lemma_missing_char_not_contained(tl, kp, 0);
    assert(""@ =~= Seq::<char>::empty());
    lemma_replace_leading(kp, tl);
    lemma_missing_char_not_contained(tl, "clear port"@, 0);
    lemma_replace_absent(tl, "clear port"@, ""@);
    lemma_missing_char_not_contained(tl, "close port"@, 0);
    lemma_replace_absent(tl, "close port"@, ""@);
    lemma_missing_char_not_contained(tl, "terminate port"@, 3);
    lemma_replace_absent(tl, "terminate port"@, ""@);
    lemma_trim_leading_space(j);
    assert forall|i: int| 0 <= i < j.len() implies #[trigger] j[i] != 'a' && j[i] != 'd' && j[i]
        != 'y' by {}
    lemma_missing_char_not_contained(j, "thousand"@, 5);
    lemma_replace_absent(j, "thousand"@, "zero zero zero"@);
    lemma_missing_char_not_contained(j, "hundred"@, 3);
    lemma_replace_absent(j, "hundred"@, "zero zero"@);
    assert forall|i: int| !#[trigger] matches_at(j, i, "oh"@) by {
        if matches_at(j, i, "oh"@) {
            assert(j.subrange(i, i + 2)[0] == j[i]);
            assert(j.subrange(i, i + 2)[1] == j[i + 1]);
        }
    }
    lemma_replace_absent(j, "oh"@, "0"@);
    assert(port_target(s) == j);
    // No whole-phrase port is spelled digit by digit: each phrase holds a "y".
    if j == "eighty eighty"@ || j == "eighty eighty one"@ || j == "eighty eight"@ || j
        == "thirty three 0 six"@ {
        assert(j[5] == 'y');
    }
    if j == "fifty one seventy three"@ || j == "fifty four thirty two"@ || j
        == "sixty three seventy nine"@ || j == "forty two 0 0"@ {
        assert(j[4] == 'y');
    }
    assert(known_port(j) is None);
    lemma_digit_string_of_names(ds);
}

} // verus!

use vstd::prelude::*;
use vstd::string::*;
use crate::player::{Players, Player, spec_player_index};
use crate::defs::{Definitions, spec_find, spec_unit_ids};
use crate::fog::FogOfWar;
use crate::geometry::{Pos, spec_dist_sq};

verus! {

broadcast use vstd::string::to_string_from_display_ensures_for_str;

/// Whether a character is white space in the Unicode sense (the
/// `White_Space` property), as command lines are split on it.
pub open spec fn spec_is_whitespace(c: char) -> bool {
    c == ' ' || ('\t' <= c && c <= '\r') || c == '\u{85}' || c == '\u{a0}' || c == '\u{1680}'
        || ('\u{2000}' <= c && c <= '\u{200a}') || c == '\u{2028}' || c == '\u{2029}' || c == '\u{202f}'
        || c == '\u{205f}' || c == '\u{3000}'
}

/// Whether a character is white space.
pub fn is_whitespace(c: char) -> (r: bool)
    ensures
        r == spec_is_whitespace(c),
{
    c == ' ' || ('\t' <= c && c <= '\r') || c == '\u{85}' || c == '\u{a0}' || c == '\u{1680}'
        || ('\u{2000}' <= c && c <= '\u{200a}') || c == '\u{2028}' || c == '\u{2029}' || c == '\u{202f}'
        || c == '\u{205f}' || c == '\u{3000}'
}

/// The length of the word at the start of `s`: the characters before the
/// first white space.
pub open spec fn spec_word_len(s: Seq<char>) -> nat
    decreases s.len(),
{
    if s.len() == 0 || spec_is_whitespace(s[0]) {
        0
    } else {
        1 + spec_word_len(s.drop_first())
    }
}

proof fn lemma_word_len(s: Seq<char>, j: int)
    requires
        0 <= j <= s.len(),
        forall|k: int| 0 <= k < j ==> !spec_is_whitespace(#[trigger] s[k]),
        j == s.len() || spec_is_whitespace(s[j]),
    ensures
        spec_word_len(s) == j,
    decreases j,
{
    if j > 0 {
        let t = s.drop_first();
        assert forall|k: int| 0 <= k < j - 1 implies !spec_is_whitespace(#[trigger] t[k]) by {
            assert(t[k] == s[k + 1]);
        }
        if j < s.len() {
            assert(t[j - 1] == s[j]);
        }
        lemma_word_len(t, j - 1);
    }
}

/// A word is no longer than the text, and a text starting with a character
/// other than white space starts with a word of at least one character.
pub proof fn lemma_word_len_bounds(s: Seq<char>)
    ensures
        spec_word_len(s) <= s.len(),
        s.len() > 0 && !spec_is_whitespace(s[0]) ==> spec_word_len(s) >= 1,
    decreases s.len(),
{
    if s.len() > 0 && !spec_is_whitespace(s[0]) {
        lemma_word_len_bounds(s.drop_first());
    }
}

/// The words of `s`: its maximal runs of characters other than white
/// space, in order.
pub open spec fn spec_words(s: Seq<char>) -> Seq<Seq<char>>
    decreases s.len(),
{
    if s.len() == 0 {
        Seq::empty()
    } else if spec_is_whitespace(s[0]) {
        spec_words(s.drop_first())
    } else {
        proof { lemma_word_len_bounds(s); }
        let k = spec_word_len(s) as int;
        seq![s.subrange(0, k)] + spec_words(s.subrange(k, s.len() as int))
    }
}

/// The views of a list of strings.
pub open spec fn spec_views(v: Seq<String>) -> Seq<Seq<char>> {
    v.map_values(|t: String| t@)
}

/// Splits a command line into its words.
pub fn split_words(s: &str) -> (r: Vec<String>)
    ensures
        spec_views(r@) == spec_words(s@),
{
    let n = s.unicode_len();
    let mut out: Vec<String> = Vec::new();
    let mut i: usize = 0;
    proof {
        assert(s@.subrange(0, n as int) =~= s@);
        assert(spec_views(out@) + spec_words(s@.subrange(0, n as int)) =~= spec_words(s@));
    }
    while i < n
        invariant
            i <= n,
            n == s@.len(),
            spec_views(out@) + spec_words(s@.subrange(i as int, n as int)) == spec_words(s@),
        decreases n - i,
    {
        let ghost rest = s@.subrange(i as int, n as int);
        if is_whitespace(s.get_char(i)) {
            assert(rest[0] == s@[i as int]);
            assert(rest.drop_first() =~= s@.subrange(i + 1, n as int));
            i = i + 1;
        } else {
            let mut j: usize = i + 1;
            while j < n && !is_whitespace(s.get_char(j))
                invariant
                    i < j <= n,
                    n == s@.len(),
                    forall|k: int| i <= k < j ==> !spec_is_whitespace(#[trigger] s@[k]),
                decreases n - j,
            {
                j = j + 1;
            }
            proof {
                assert forall|k: int| 0 <= k < j - i implies !spec_is_whitespace(#[trigger] rest[k]) by {
                    assert(rest[k] == s@[i + k]);
                }
                if j < n {
                    assert(rest[j - i] == s@[j as int]);
                }
                lemma_word_len(rest, j - i);
                assert(rest[0] == s@[i as int]);
                assert(rest.subrange(0, j - i) =~= s@.subrange(i as int, j as int));
                assert(rest.subrange(j - i, rest.len() as int) =~= s@.subrange(j as int, n as int));
            }
            let word = s.substring_char(i, j).to_string();
            let ghost before = out@;
            out.push(word);
            proof {
                assert(spec_views(out@) =~= spec_views(before).push(word@));
                assert(spec_views(out@) + spec_words(s@.subrange(j as int, n as int))
                    =~= spec_views(before) + (seq![s@.subrange(i as int, j as int)] + spec_words(s@.subrange(j as int, n as int))));
            }
            i = j;
        }
    }
    proof {
        assert(s@.subrange(n as int, n as int) =~= Seq::<char>::empty());
        assert(spec_views(out@) + Seq::<Seq<char>>::empty() =~= spec_views(out@));
    }
    out
}


/// A character is a decimal digit.
pub open spec fn spec_is_digit(c: char) -> bool {
    '0' <= c && c <= '9'
}

/// Every character is a decimal digit, and there is at least one.
pub open spec fn spec_all_digits(d: Seq<char>) -> bool {
    d.len() > 0 && forall|k: int| 0 <= k < d.len() ==> spec_is_digit(#[trigger] d[k])
}

/// The number a string of decimal digits writes.
pub open spec fn spec_digits_value(d: Seq<char>) -> nat
    decreases d.len(),
{
    if d.len() == 0 {
        0
    } else {
        spec_digits_value(d.drop_last()) * 10 + ((d.last() as u32) - ('0' as u32)) as nat
    }
}

proof fn lemma_digits_value_grows(d: Seq<char>, i: int)
    requires
        0 <= i <= d.len(),
        forall|k: int| 0 <= k < d.len() ==> spec_is_digit(#[trigger] d[k]),
    ensures
        spec_digits_value(d) >= spec_digits_value(d.subrange(0, i)),
    decreases d.len() - i,
{
    if i < d.len() {
        lemma_digits_value_grows(d, i + 1);
        assert(d.subrange(0, i + 1).drop_last() =~= d.subrange(0, i));
    } else {
        assert(d.subrange(0, i) =~= d);
    }
}

/// The value of the decimal digits `s[from..]`, when they are all digits
/// (at least one) and the value is at most `limit`.
fn digits_value(s: &str, from: usize, limit: u64) -> (r: Option<u64>)
    requires
        from <= s@.len(),
    ensures
        ({
            let d = s@.subrange(from as int, s@.len() as int);
            &&& r is Some <==> (spec_all_digits(d) && spec_digits_value(d) <= limit)
            &&& r matches Some(v) ==> v == spec_digits_value(d)
        }),
{
    let n = s.unicode_len();
    let ghost d = s@.subrange(from as int, n as int);
    if from == n || !all_digits_from(s, from) {
        proof {
            if from < n {
                let k = choose|k: int| from <= k < s@.len() && !spec_is_digit(#[trigger] s@[k]);
                assert(d[k - from] == s@[k]);
            }
        }
        return None;
    }
    assert forall|k: int| 0 <= k < d.len() implies spec_is_digit(#[trigger] d[k]) by {
        assert(d[k] == s@[from + k]);
    }
    let mut acc: u128 = 0;
    let mut i: usize = from;
    while i < n
        invariant
            from <= i <= n,
            n == s@.len(),
            d == s@.subrange(from as int, n as int),
            acc <= limit,
            forall|k: int| 0 <= k < d.len() ==> spec_is_digit(#[trigger] d[k]),
            acc == spec_digits_value(d.subrange(0, i - from)),
        decreases n - i,
    {
        let c = s.get_char(i);
        assert(d[i - from] == c);
        let digit: u128 = (c as u32 - '0' as u32) as u128;
        assert(d.subrange(0, i - from + 1).drop_last() =~= d.subrange(0, i - from));
        assert(d.subrange(0, i - from + 1).last() == c);
        let next: u128 = acc * 10 + digit;
        if next > limit as u128 {
            proof {
                lemma_digits_value_grows(d, i - from + 1);
            }
            return None;
        }
        acc = next;
        i = i + 1;
    }
    assert(d.subrange(0, n - from) =~= d);
    Some(acc as u64)
}

/// Whether `s[from..]` holds only decimal digits.
fn all_digits_from(s: &str, from: usize) -> (r: bool)
    requires
        from <= s@.len(),
    ensures
        r == forall|k: int| from <= k < s@.len() ==> spec_is_digit(#[trigger] s@[k]),
{
    let n = s.unicode_len();
    let mut i: usize = from;
    while i < n
        invariant
            from <= i <= n,
            n == s@.len(),
            forall|k: int| from <= k < i ==> spec_is_digit(#[trigger] s@[k]),
        decreases n - i,
    {
        let c = s.get_char(i);
        if c < '0' || c > '9' {
            return false;
        }
        i = i + 1;
    }
    true
}


/// What `i32`'s parsing from text gives: an optional sign, then decimal
/// digits (at least one) whose value fits.
pub open spec fn spec_parse_i32(s: Seq<char>) -> Option<i32> {
    let signed = s.len() > 0 && (s[0] == '-' || s[0] == '+');
    let negative = s.len() > 0 && s[0] == '-';
    let d = if signed { s.drop_first() } else { s };
    if !spec_all_digits(d) {
        None
    } else if negative {
        if spec_digits_value(d) <= 0x8000_0000 { Some((-(spec_digits_value(d) as int)) as i32) } else { None }
    } else {
        if spec_digits_value(d) <= 0x7fff_ffff { Some(spec_digits_value(d) as i32) } else { None }
    }
}

/// Parses a whole number of credits.
pub fn parse_i32(s: &str) -> (r: Option<i32>)
    ensures
        r == spec_parse_i32(s@),
{
    let n = s.unicode_len();
    let mut from: usize = 0;
    let mut negative = false;
    if n > 0 {
        let c = s.get_char(0);
        if c == '-' {
            negative = true;
            from = 1;
        } else if c == '+' {
            from = 1;
        }
    }
    proof {
        if from == 1 {
            assert(s@.subrange(1, n as int) =~= s@.drop_first());
        } else {
            assert(s@.subrange(0, n as int) =~= s@);
        }
    }
    let limit: u64 = if negative { 0x8000_0000 } else { 0x7fff_ffff };
    match digits_value(s, from, limit) {
        None => {
            proof {
                let d = s@.subrange(from as int, n as int);
                assert(!spec_all_digits(d) || spec_digits_value(d) > limit);
            }
            None
        },
        Some(v) => {
            if negative {
                Some((-(v as i64)) as i32)
            } else {
                Some(v as i32)
            }
        },
    }
}

/// What `usize`'s parsing from text gives: an optional `+`, then decimal
/// digits (at least one) whose value fits.
pub open spec fn spec_parse_usize(s: Seq<char>) -> Option<usize> {
    let d = if s.len() > 0 && s[0] == '+' { s.drop_first() } else { s };
    if spec_all_digits(d) && spec_digits_value(d) <= usize::MAX {
        Some(spec_digits_value(d) as usize)
    } else {
        None
    }
}

/// Parses a count.
pub fn parse_usize(s: &str) -> (r: Option<usize>)
    ensures
        r == spec_parse_usize(s@),
{
    let n = s.unicode_len();
    let mut from: usize = 0;
    if n > 0 && s.get_char(0) == '+' {
        from = 1;
    }
    proof {
        if from == 1 {
            assert(s@.subrange(1, n as int) =~= s@.drop_first());
        } else {
            assert(s@.subrange(0, n as int) =~= s@);
        }
    }
    match digits_value(s, from, usize::MAX as u64) {
        None => None,
        Some(v) => Some(v as usize),
    }
}


/// A count of units to spawn: a whole number above zero.
pub open spec fn spec_spawn_count(s: Seq<char>) -> Option<usize> {
    match spec_parse_usize(s) {
        Some(c) => if c > 0 { Some(c) } else { None },
        None => None,
    }
}

/// Parses the count of a spawn command; an error unless it is a whole
/// number above zero.
pub fn parse_spawn_count(value: &str) -> (r: Result<usize, ()>)
    ensures
        match spec_spawn_count(value@) {
            Some(c) => r == Ok::<usize, ()>(c),
            None => r is Err,
        },
{
    match parse_usize(value) {
        Some(c) => if c > 0 { Ok(c) } else { Err(()) },
        None => Err(()),
    }
}

/// The index of the first comma of `s`, or -1.
pub open spec fn spec_first_comma(s: Seq<char>) -> int
    decreases s.len(),
{
    if s.len() == 0 {
        -1
    } else if s[0] == ',' {
        0
    } else {
        let r = spec_first_comma(s.drop_first());
        if r < 0 { -1 } else { r + 1 }
    }
}

proof fn lemma_first_comma(s: Seq<char>)
    ensures
        -1 <= spec_first_comma(s) < s.len(),
        spec_first_comma(s) >= 0 ==> s[spec_first_comma(s)] == ',',
        forall|k: int| 0 <= k < s.len() && (spec_first_comma(s) < 0 || k < spec_first_comma(s)) ==> #[trigger] s[k] != ',',
    decreases s.len(),
{
    if s.len() > 0 && s[0] != ',' {
        let t = s.drop_first();
        lemma_first_comma(t);
        assert forall|k: int| 0 <= k < s.len() && (spec_first_comma(s) < 0 || k < spec_first_comma(s)) implies #[trigger] s[k] != ',' by {
            if k > 0 {
                assert(s[k] == t[k - 1]);
            }
        }
    }
}

/// A point typed as `x,y`: the text before the first comma and the text
/// after it, when that holds no further comma and both are numbers as an
/// `f32` reads them.
pub open spec fn spec_split_coordinates(s: Seq<char>) -> Option<(Seq<char>, Seq<char>)> {
    let k = spec_first_comma(s);
    if k < 0 {
        None
    } else if spec_first_comma(s.subrange(k + 1, s.len() as int)) >= 0 {
        None
    } else if !spec_float_text(s.subrange(0, k)) || !spec_float_text(s.subrange(k + 1, s.len() as int)) {
        None
    } else {
        Some((s.subrange(0, k), s.subrange(k + 1, s.len() as int)))
    }
}

/// The index of the first comma at or after `from`.
fn find_comma(s: &str, from: usize) -> (r: Option<usize>)
    requires
        from <= s@.len(),
    ensures
        ({
            let t = s@.subrange(from as int, s@.len() as int);
            &&& spec_first_comma(t) < 0 ==> r is None
            &&& spec_first_comma(t) >= 0 ==> r == Some((from + spec_first_comma(t)) as usize)
        }),
{
    let n = s.unicode_len();
    let ghost t = s@.subrange(from as int, n as int);
    proof { lemma_first_comma(t); }
    let mut i: usize = from;
    while i < n
        invariant
            from <= i <= n,
            n == s@.len(),
            t == s@.subrange(from as int, n as int),
            forall|k: int| from <= k < i ==> #[trigger] s@[k] != ',',
        decreases n - i,
    {
        if s.get_char(i) == ',' {
            proof {
                lemma_first_comma(t);
                let f = spec_first_comma(t);
                assert(t[i - from] == ',');
                if f >= 0 && f < i - from {
                    assert(t[f] == s@[from + f]);
                }
            }
            return Some(i);
        }
        i = i + 1;
    }
    proof {
        lemma_first_comma(t);
        let f = spec_first_comma(t);
        if f >= 0 {
            assert(t[f] == s@[from + f]);
        }
    }
    None
}

/// The characters of `s` from `a` up to `b` are all decimal digits.
pub open spec fn spec_digits_in(s: Seq<char>, a: int, b: int) -> bool {
    forall|k: int| a <= k < b ==> spec_is_digit(#[trigger] s[k])
}

/// The first position at or after `a` holding an exponent mark (`e` or
/// `E`), or the length of `s` when there is none.
pub open spec fn spec_first_exp(s: Seq<char>, a: int) -> int
    decreases s.len() - a,
{
    if a >= s.len() {
        s.len() as int
    } else if s[a] == 'e' || s[a] == 'E' {
        a
    } else {
        spec_first_exp(s, a + 1)
    }
}

/// The first position from `a` up to `b` holding a decimal point, or `b`.
pub open spec fn spec_first_dot(s: Seq<char>, a: int, b: int) -> int
    decreases b - a,
{
    if a >= b {
        b
    } else if s[a] == '.' {
        a
    } else {
        spec_first_dot(s, a + 1, b)
    }
}

/// The text of `s` from `a` on is `kw` (in lowercase ASCII letters), with
/// ASCII letters compared regardless of case.
pub open spec fn spec_ascii_word_at(s: Seq<char>, a: int, kw: Seq<char>) -> bool {
    &&& s.len() - a == kw.len()
    &&& forall|k: int| 0 <= k < kw.len() ==> #[trigger] s[a + k] == kw[k]
        || ('A' <= s[a + k] && s[a + k] <= 'Z' && (s[a + k] as u32) + 32 == kw[k] as u32)
}

/// The text of `s` from `a` on is a decimal number: digits with at most one
/// decimal point and at least one digit, then optionally an exponent mark
/// followed by an optional sign and at least one digit.
pub open spec fn spec_decimal_at(s: Seq<char>, a: int) -> bool {
    let n = s.len() as int;
    let e = spec_first_exp(s, a);
    let d = spec_first_dot(s, a, e);
    let b = if e + 1 < n && (s[e + 1] == '+' || s[e + 1] == '-') { e + 2 } else { e + 1 };
    &&& spec_digits_in(s, a, d)
    &&& d < e ==> spec_digits_in(s, d + 1, e)
    &&& (d - a) + (if d < e { e - d - 1 } else { 0 }) > 0
    &&& e < n ==> b < n && spec_digits_in(s, b, n)
}

/// Text that parses as an `f32`: an optional sign, then `inf`, `infinity`
/// or `nan` in any case of ASCII letters, or a decimal number.
pub open spec fn spec_float_text(s: Seq<char>) -> bool {
    let a = if s.len() > 0 && (s[0] == '+' || s[0] == '-') { 1int } else { 0int };
    ||| spec_ascii_word_at(s, a, seq!['i', 'n', 'f'])
    ||| spec_ascii_word_at(s, a, seq!['i', 'n', 'f', 'i', 'n', 'i', 't', 'y'])
    ||| spec_ascii_word_at(s, a, seq!['n', 'a', 'n'])
    ||| spec_decimal_at(s, a)
}

/// Whether the characters of `s` from `a` up to `b` are all digits.
fn digits_in(s: &str, a: usize, b: usize) -> (r: bool)
    requires
        a <= b <= s@.len(),
    ensures
        r == spec_digits_in(s@, a as int, b as int),
{
    let mut i = a;
    while i < b
        invariant
            a <= i <= b,
            b <= s@.len(),
            spec_digits_in(s@, a as int, i as int),
        decreases b - i,
    {
        let c = s.get_char(i);
        if !('0' <= c && c <= '9') {
            return false;
        }
        i = i + 1;
    }
    true
}

/// The first exponent mark at or after `a`, or the length of `s`.
fn first_exp(s: &str, a: usize) -> (r: usize)
    requires
        a <= s@.len(),
    ensures
        r as int == spec_first_exp(s@, a as int),
        a <= r <= s@.len(),
    decreases s@.len() - a,
{
    let n = s.unicode_len();
    if a >= n {
        n
    } else {
        let c = s.get_char(a);
        if c == 'e' || c == 'E' { a } else { first_exp(s, a + 1) }
    }
}

/// The first decimal point from `a` up to `b`, or `b`.
fn first_dot(s: &str, a: usize, b: usize) -> (r: usize)
    requires
        a <= b <= s@.len(),
    ensures
        r as int == spec_first_dot(s@, a as int, b as int),
        a <= r <= b,
    decreases b - a,
{
    if a >= b {
        b
    } else if s.get_char(a) == '.' {
        a
    } else {
        first_dot(s, a + 1, b)
    }
}

/// Whether the text of `s` from `a` on is the keyword `kw`, ASCII letters
/// compared regardless of case.
fn ascii_word_at(s: &str, a: usize, kw: &str) -> (r: bool)
    requires
        a <= s@.len(),
    ensures
        r == spec_ascii_word_at(s@, a as int, kw@),
{
    let n = s.unicode_len();
    let m = kw.unicode_len();
    if n - a != m {
        return false;
    }
    let mut k: usize = 0;
    while k < m
        invariant
            k <= m,
            n == s@.len(),
            m == kw@.len(),
            n - a == m,
            forall|j: int| 0 <= j < k ==> #[trigger] s@[a + j] == kw@[j]
                || ('A' <= s@[a + j] && s@[a + j] <= 'Z' && (s@[a + j] as u32) + 32 == kw@[j] as u32),
        decreases m - k,
    {
        let c = s.get_char(a + k);
        let w = kw.get_char(k);
        if !(c == w || ('A' <= c && c <= 'Z' && (c as u32) + 32 == w as u32)) {
            return false;
        }
        k = k + 1;
    }
    true
}

/// Whether a text parses as an `f32` (see `spec_float_text`).
pub fn is_float_text(s: &str) -> (r: bool)
    ensures
        r == spec_float_text(s@),
{
    let n = s.unicode_len();
    let a: usize = if n > 0 && (s.get_char(0) == '+' || s.get_char(0) == '-') { 1 } else { 0 };
    proof {
        reveal_strlit("inf");
        reveal_strlit("infinity");
        reveal_strlit("nan");
        assert("inf"@ =~= seq!['i', 'n', 'f']);
        assert("infinity"@ =~= seq!['i', 'n', 'f', 'i', 'n', 'i', 't', 'y']);
        assert("nan"@ =~= seq!['n', 'a', 'n']);
    }
    if ascii_word_at(s, a, "inf") || ascii_word_at(s, a, "infinity") || ascii_word_at(s, a, "nan") {
        return true;
    }
    let e = first_exp(s, a);
    let d = first_dot(s, a, e);
    if !digits_in(s, a, d) {
        return false;
    }
    if d < e && !digits_in(s, d + 1, e) {
        return false;
    }
    let frac = if d < e { e - d - 1 } else { 0 };
    if (d - a) + frac == 0 {
        return false;
    }
    if e < n {
        let b = if e + 1 < n && (s.get_char(e + 1) == '+' || s.get_char(e + 1) == '-') { e + 2 } else { e + 1 };
        if !(b < n && digits_in(s, b, n)) {
            return false;
        }
    }
    true
}

/// Splits a point typed as `x,y` into its two coordinates, each checked to
/// be a number that an `f32` reads (the text itself is handed back).
pub fn split_coordinates(value: &str) -> (r: Result<(String, String), ()>)
    ensures
        match spec_split_coordinates(value@) {
            None => r is Err,
            Some((x, y)) => r matches Ok((rx, ry)) && rx@ == x && ry@ == y,
        },
{
    let n = value.unicode_len();
    proof { assert(value@.subrange(0, n as int) =~= value@); }
    let k = match find_comma(value, 0) {
        None => return Err(()),
        Some(k) => k,
    };
    proof {
        lemma_first_comma(value@);
    }
    match find_comma(value, k + 1) {
        Some(_) => Err(()),
        None => {
            let x = value.substring_char(0, k).to_string();
            let y = value.substring_char(k + 1, n).to_string();
            if is_float_text(x.as_str()) && is_float_text(y.as_str()) {
                Ok((x, y))
            } else {
                Err(())
            }
        },
    }
}

/// Whether a text holds a comma.
pub fn has_comma(value: &str) -> (r: bool)
    ensures
        r == (spec_first_comma(value@) >= 0),
{
    proof { assert(value@.subrange(0, value@.len() as int) =~= value@); }
    find_comma(value, 0).is_some()
}

/// The options of a spawn command: none; a point `x,y`; a count; or a
/// point then a count. `None` for anything else, or when a part is
/// malformed.
pub open spec fn spec_spawn_options(options: Seq<Seq<char>>) -> Option<(Option<(Seq<char>, Seq<char>)>, usize)> {
    if options.len() == 0 {
        Some((None, 1))
    } else if options.len() == 1 && spec_first_comma(options[0]) >= 0 {
        match spec_split_coordinates(options[0]) {
            Some(p) => Some((Some(p), 1)),
            None => None,
        }
    } else if options.len() == 1 {
        match spec_spawn_count(options[0]) {
            Some(c) => Some((None, c)),
            None => None,
        }
    } else if options.len() == 2 {
        match (spec_split_coordinates(options[0]), spec_spawn_count(options[1])) {
            (Some(p), Some(c)) => Some((Some(p), c)),
            _ => None,
        }
    } else {
        None
    }
}

/// The view of a parsed point.
pub open spec fn spec_point_view(p: Option<(String, String)>) -> Option<(Seq<char>, Seq<char>)> {
    match p {
        Some((x, y)) => Some((x@, y@)),
        None => None,
    }
}

/// Parses the options of a spawn command.
pub fn parse_spawn_options(options: &Vec<String>) -> (r: Result<(Option<(String, String)>, usize), ()>)
    ensures
        match spec_spawn_options(spec_views(options@)) {
            None => r is Err,
            Some((p, c)) => r matches Ok((rp, rc)) && spec_point_view(rp) == p && rc == c,
        },
{
    let ghost v = spec_views(options@);
    if options.len() == 0 {
        return Ok((None, 1));
    }
    assert(v[0] == options@[0]@);
    if options.len() == 1 {
        if has_comma(options[0].as_str()) {
            return match split_coordinates(options[0].as_str()) {
                Ok(p) => Ok((Some(p), 1)),
                Err(()) => Err(()),
            };
        }
        return match parse_spawn_count(options[0].as_str()) {
            Ok(c) => Ok((None, c)),
            Err(()) => Err(()),
        };
    }
    if options.len() == 2 {
        assert(v[1] == options@[1]@);
        let p = split_coordinates(options[0].as_str());
        let c = parse_spawn_count(options[1].as_str());
        return match (p, c) {
            (Ok(p), Ok(c)) => Ok((Some(p), c)),
            _ => Err(()),
        };
    }
    Err(())
}


/// Removes a string's last character (`String::pop`), if any.
#[verifier::external_body]
fn pop_char(s: &mut String) -> (r: Option<char>)
    ensures
        old(s)@.len() == 0 ==> r is None && final(s)@ == old(s)@,
        old(s)@.len() > 0 ==> r == Some(old(s)@.last()) && final(s)@ == old(s)@.drop_last(),
{
    s.pop()
}

/// Empties a string (`String::clear`).
#[verifier::external_body]
fn clear_text(s: &mut String)
    ensures
        final(s)@ == Seq::<char>::empty(),
{
    s.clear();
}

/// How many lines the console keeps.
pub const CONSOLE_LOG_LINES: usize = 50;

/// The developer console: whether it is open, the line being typed, the
/// lines shown, the lines entered before, and which of them is recalled.
#[derive(Debug)]
pub struct ConsoleData {
    pub is_open: bool,
    pub input_buffer: String,
    pub log: Vec<String>,
    pub history: Vec<String>,
    pub history_index: Option<usize>,
}

/// The log after a line is printed: the line is added at the end and, past
/// `CONSOLE_LOG_LINES` lines, the oldest is dropped.
pub open spec fn spec_printed(log: Seq<Seq<char>>, line: Seq<char>) -> Seq<Seq<char>> {
    let added = log.push(line);
    if added.len() > CONSOLE_LOG_LINES { added.drop_first() } else { added }
}

/// Every character is white space (the line is blank).
pub open spec fn spec_blank(s: Seq<char>) -> bool {
    forall|k: int| 0 <= k < s.len() ==> spec_is_whitespace(#[trigger] s[k])
}

impl ConsoleData {
    /// A recalled line, if any, is one of the entered lines.
    pub open spec fn wf(&self) -> bool {
        self.history_index matches Some(i) ==> i < self.history@.len()
    }

    /// A closed, empty console.
    pub fn new() -> (r: ConsoleData)
        ensures
            r.wf(),
            !r.is_open,
            r.input_buffer@.len() == 0,
            r.log@.len() == 0,
            r.history@.len() == 0,
            r.history_index is None,
    {
        ConsoleData { is_open: false, input_buffer: String::new(), log: Vec::new(), history: Vec::new(), history_index: None }
    }

    /// Opens a closed console or closes an open one.
    pub fn toggle(&mut self)
        ensures
            final(self).is_open == !old(self).is_open,
            final(self).input_buffer == old(self).input_buffer,
            final(self).log == old(self).log,
            final(self).history == old(self).history,
            final(self).history_index == old(self).history_index,
    {
        self.is_open = !self.is_open;
    }

    /// Prints a line, keeping only the last `CONSOLE_LOG_LINES` lines.
    pub fn print(&mut self, text: &str)
        ensures
            spec_views(final(self).log@) == spec_printed(spec_views(old(self).log@), text@),
            old(self).log@.len() <= CONSOLE_LOG_LINES ==> final(self).log@.len() <= CONSOLE_LOG_LINES,
            final(self).is_open == old(self).is_open,
            final(self).input_buffer == old(self).input_buffer,
            final(self).history == old(self).history,
            final(self).history_index == old(self).history_index,
    {
        let ghost before = spec_views(self.log@);
        self.log.push(text.to_string());
        assert(spec_views(self.log@) =~= before.push(text@));
        if self.log.len() > CONSOLE_LOG_LINES {
            let ghost full = self.log@;
            self.log.remove(0);
            assert(self.log@ =~= full.drop_first());
            assert(spec_views(self.log@) =~= spec_views(full).drop_first());
        }
    }

    /// Prints each of `lines` in turn.
    pub fn print_lines(&mut self, lines: &Vec<&str>)
        ensures
            spec_views(final(self).log@) == spec_print_lines(spec_views(old(self).log@), spec_str_views(lines@)),
            final(self).is_open == old(self).is_open,
            final(self).input_buffer == old(self).input_buffer,
            final(self).history == old(self).history,
            final(self).history_index == old(self).history_index,
    {
        let ghost all = spec_str_views(lines@);
        let mut i: usize = 0;
        while i < lines.len()
            invariant
                i <= lines@.len(),
                all == spec_str_views(lines@),
                spec_views(self.log@) == spec_print_lines(spec_views(old(self).log@), all.take(i as int)),
                self.is_open == old(self).is_open,
                self.input_buffer == old(self).input_buffer,
                self.history == old(self).history,
                self.history_index == old(self).history_index,
            decreases lines@.len() - i,
        {
            self.print(lines[i]);
            proof {
                assert(all.take(i + 1).drop_last() =~= all.take(i as int));
                assert(all.take(i + 1).last() == lines@[i as int]@);
            }
            i = i + 1;
        }
        assert(all.take(lines@.len() as int) =~= all);
    }

    /// Prints one line, as the list of that line alone.
    fn print_one(&mut self, text: &str)
        ensures
            spec_views(final(self).log@) == spec_print_lines(spec_views(old(self).log@), seq![text@]),
            final(self).is_open == old(self).is_open,
            final(self).input_buffer == old(self).input_buffer,
            final(self).history == old(self).history,
            final(self).history_index == old(self).history_index,
    {
        let ghost before = spec_views(self.log@);
        self.print(text);
        assert(seq![text@].drop_last() =~= Seq::<Seq<char>>::empty());
        assert(spec_print_lines(before, Seq::<Seq<char>>::empty()) == before);
        assert(spec_print_lines(before, seq![text@]) == spec_printed(before, text@));
    }

    /// Prints the lines a reply stands for (`spec_reply_lines`).
    pub fn print_reply(&mut self, r: &ConsoleReply)
        ensures
            spec_views(final(self).log@) == spec_print_lines(spec_views(old(self).log@), spec_reply_lines(*r)),
            final(self).is_open == old(self).is_open,
            final(self).input_buffer == old(self).input_buffer,
            final(self).history == old(self).history,
            final(self).history_index == old(self).history_index,
    {
        match r {
            ConsoleReply::Help => {
                let lines = vec![
                    "Available commands:",
                    "  help - Show this message",
                    "  clear - Clear the console log",
                    "  ping - Replies with pong",
                    "  credits <amount> - Add credits to local player",
                    "  spawn <unit_id> [x,y] [count] - Spawn at cursor or coordinates",
                    "  kill - Destroy selected units/buildings",
                    "  killall - Destroy all ENEMY units",
                    "  fog - Toggle Fog of War",
                    "  explore - Reveal the entire map as explored",
                    "  grid - Toggle map grid",
                ];
                assert(spec_str_views(lines@) =~= spec_help_lines());
                self.print_lines(&lines);
            },
            ConsoleReply::SpawnUsage => {
                let lines = vec!["Usage:", "  spawn <unit_id>", "  spawn <unit_id> <count>", "  spawn <unit_id> <x,y> [count]"];
                assert(spec_str_views(lines@) =~= spec_spawn_usage_lines());
                self.print_lines(&lines);
            },
            ConsoleReply::Pong => self.print_one("pong"),
            ConsoleReply::FogDisabled(d) => {
                let mut t = String::from_str("Fog of War disabled: ");
                append_bool(&mut t, *d);
                self.print_one(t.as_str());
            },
            ConsoleReply::Explored => self.print_one("Map fully explored."),
            ConsoleReply::GridVisible(v) => {
                let mut t = String::from_str("Map grid visible: ");
                append_bool(&mut t, *v);
                self.print_one(t.as_str());
            },
            ConsoleReply::CreditsUsage => self.print_one("Usage: credits <amount>"),
            ConsoleReply::CreditsChanged { amount, total } => {
                let mut t = String::from_str("Added ");
                append_int(&mut t, *amount);
                t.append(" credits. New total: ");
                append_nat(&mut t, *total as u64);
                self.print_one(t.as_str());
            },
            ConsoleReply::LocalPlayerMissing => self.print_one("Local player not found."),
            ConsoleReply::InvalidAmount => self.print_one("Invalid amount."),
            ConsoleReply::UnknownUnit(id) => {
                let mut t = String::from_str("Unknown unit id: ");
                t.append(id.as_str());
                self.print_one(t.as_str());
            },
            ConsoleReply::Unknown(w) => {
                let mut t = String::from_str("Unknown command: ");
                t.append(w.as_str());
                self.print_one(t.as_str());
            },
            _ => {
                assert(spec_reply_lines(*r) =~= Seq::<Seq<char>>::empty());
            },
        }
    }

    /// Empties the log.
    pub fn clear_log(&mut self)
        ensures
            final(self).log@.len() == 0,
            final(self).is_open == old(self).is_open,
            final(self).input_buffer == old(self).input_buffer,
            final(self).history == old(self).history,
            final(self).history_index == old(self).history_index,
    {
        self.log.clear();
    }

    /// Adds typed text to the line being typed (the key that opens the
    /// console is not typed).
    pub fn type_text(&mut self, text: &str)
        ensures
            (text@ == "`"@ || text@ == "~"@) ==> final(self).input_buffer@ == old(self).input_buffer@,
            !(text@ == "`"@ || text@ == "~"@) ==> final(self).input_buffer@ == old(self).input_buffer@ + text@,
            final(self).is_open == old(self).is_open,
            final(self).log == old(self).log,
            final(self).history == old(self).history,
            final(self).history_index == old(self).history_index,
    {
        if !(crate::defs::str_equals(text, "`") || crate::defs::str_equals(text, "~")) {
            self.input_buffer.append(text);
        }
    }

    /// Adds a space to the line being typed.
    pub fn type_space(&mut self)
        ensures
            final(self).input_buffer@ == old(self).input_buffer@ + " "@,
            final(self).is_open == old(self).is_open,
            final(self).log == old(self).log,
            final(self).history == old(self).history,
            final(self).history_index == old(self).history_index,
    {
        self.input_buffer.append(" ");
    }

    /// Erases the last character of the line being typed.
    pub fn backspace(&mut self)
        ensures
            old(self).input_buffer@.len() > 0 ==> final(self).input_buffer@ == old(self).input_buffer@.drop_last(),
            old(self).input_buffer@.len() == 0 ==> final(self).input_buffer@ == old(self).input_buffer@,
            final(self).is_open == old(self).is_open,
            final(self).log == old(self).log,
            final(self).history == old(self).history,
            final(self).history_index == old(self).history_index,
    {
        let _ = pop_char(&mut self.input_buffer);
    }

    /// Recalls the entered line before the one recalled now (the last one
    /// when none is recalled; the first one stays recalled).
    pub fn history_up(&mut self)
        requires
            old(self).wf(),
        ensures
            final(self).wf(),
            old(self).history@.len() == 0 ==> final(self).history_index == old(self).history_index
                && final(self).input_buffer@ == old(self).input_buffer@,
            old(self).history@.len() > 0 ==> ({
                let i = match old(self).history_index {
                    Some(i) => if i > 0 { i - 1 } else { 0 },
                    None => old(self).history@.len() - 1,
                };
                &&& final(self).history_index == Some(i as usize)
                &&& final(self).input_buffer@ == old(self).history@[i]@
            }),
            final(self).is_open == old(self).is_open,
            final(self).log == old(self).log,
            final(self).history == old(self).history,
    {
        if self.history.len() > 0 {
            let i = match self.history_index {
                Some(i) => if i > 0 { i - 1 } else { 0 },
                None => self.history.len() - 1,
            };
            self.history_index = Some(i);
            self.input_buffer = self.history[i].clone();
        }
    }

    /// Recalls the entered line after the one recalled now; past the last
    /// one, nothing is recalled and the line being typed is emptied.
    pub fn history_down(&mut self)
        requires
            old(self).wf(),
        ensures
            final(self).wf(),
            old(self).history_index is None ==> final(self).history_index is None
                && final(self).input_buffer@ == old(self).input_buffer@,
            old(self).history_index matches Some(i) ==> if i + 1 < old(self).history@.len() {
                &&& final(self).history_index == Some((i + 1) as usize)
                &&& final(self).input_buffer@ == old(self).history@[i + 1]@
            } else {
                &&& final(self).history_index is None
                &&& final(self).input_buffer@.len() == 0
            },
            final(self).is_open == old(self).is_open,
            final(self).log == old(self).log,
            final(self).history == old(self).history,
    {
        match self.history_index {
            None => {},
            Some(i) => {
                if self.history.len() - i > 1 {
                    self.history_index = Some(i + 1);
                    self.input_buffer = self.history[i + 1].clone();
                } else {
                    self.history_index = None;
                    clear_text(&mut self.input_buffer);
                }
            },
        }
    }

    /// Takes the line being typed: it is emptied; a blank line gives
    /// nothing; otherwise it joins the history (unless it repeats the last
    /// entry), recall stops, and it is returned to be run.
    pub fn submit(&mut self) -> (r: Option<String>)
        requires
            old(self).wf(),
        ensures
            final(self).wf(),
            final(self).input_buffer@.len() == 0,
            spec_blank(old(self).input_buffer@) ==> r is None && final(self).history == old(self).history
                && final(self).history_index == old(self).history_index,
            !spec_blank(old(self).input_buffer@) ==> ({
                let repeated = old(self).history@.len() > 0 && old(self).history@.last()@ == old(self).input_buffer@;
                &&& r matches Some(cmd) && cmd@ == old(self).input_buffer@
                &&& final(self).history_index is None
                &&& repeated ==> final(self).history@ == old(self).history@
                &&& !repeated ==> spec_views(final(self).history@) == spec_views(old(self).history@).push(old(self).input_buffer@)
            }),
            final(self).is_open == old(self).is_open,
            final(self).log == old(self).log,
    {
        let cmd = self.input_buffer.clone();
        clear_text(&mut self.input_buffer);
        if is_blank(cmd.as_str()) {
            return None;
        }
        let repeated = self.history.len() > 0 && crate::defs::str_equals(self.history[self.history.len() - 1].as_str(), cmd.as_str());
        if !repeated {
            let ghost before = spec_views(self.history@);
            self.history.push(cmd.clone());
            assert(spec_views(self.history@) =~= before.push(cmd@));
        }
        self.history_index = None;
        Some(cmd)
    }
}

/// Whether a line is blank.
pub fn is_blank(s: &str) -> (r: bool)
    ensures
        r == spec_blank(s@),
{
    let n = s.unicode_len();
    let mut i: usize = 0;
    while i < n
        invariant
            i <= n,
            n == s@.len(),
            forall|k: int| 0 <= k < i ==> spec_is_whitespace(#[trigger] s@[k]),
        decreases n - i,
    {
        if !is_whitespace(s.get_char(i)) {
            return false;
        }
        i = i + 1;
    }
    true
}


/// Character `c`, lowercased, is the lowercase letter `k`.
pub open spec fn spec_lower_char_is(c: char, k: char) -> bool {
    c == k || ('A' <= c && c <= 'Z' && (c as u32) + 32 == k as u32) || (c == '\u{212a}' && k == 'k')
}

/// Word `w`, lowercased, is the keyword `kw` (made of lowercase letters).
pub open spec fn spec_lower_is(w: Seq<char>, kw: Seq<char>) -> bool {
    w.len() == kw.len() && forall|k: int| 0 <= k < w.len() ==> spec_lower_char_is(#[trigger] w[k], kw[k])
}

/// Whether a word, lowercased, is the keyword.
fn word_is(w: &str, kw: &str) -> (r: bool)
    ensures
        r == spec_lower_is(w@, kw@),
{
    let n = w.unicode_len();
    if n != kw.unicode_len() {
        return false;
    }
    let mut i: usize = 0;
    while i < n
        invariant
            i <= n,
            n == w@.len(),
            n == kw@.len(),
            forall|k: int| 0 <= k < i ==> spec_lower_char_is(#[trigger] w@[k], kw@[k]),
        decreases n - i,
    {
        let c = w.get_char(i);
        let k = kw.get_char(i);
        let ok = c == k || ('A' <= c && c <= 'Z' && (c as u32) + 32 == k as u32) || (c == '\u{212a}' && k == 'k');
        if !ok {
            return false;
        }
        i = i + 1;
    }
    true
}


/// No word is two of the console's keywords at once.
proof fn lemma_keywords_exclusive(w: Seq<char>)
    ensures
        !(spec_lower_is(w, "help"@) && spec_lower_is(w, "ping"@)),
        !(spec_lower_is(w, "help"@) && spec_lower_is(w, "kill"@)),
        !(spec_lower_is(w, "help"@) && spec_lower_is(w, "grid"@)),
        !(spec_lower_is(w, "ping"@) && spec_lower_is(w, "kill"@)),
        !(spec_lower_is(w, "ping"@) && spec_lower_is(w, "grid"@)),
        !(spec_lower_is(w, "kill"@) && spec_lower_is(w, "grid"@)),
        !(spec_lower_is(w, "clear"@) && spec_lower_is(w, "spawn"@)),
        !(spec_lower_is(w, "explore"@) && spec_lower_is(w, "credits"@)),
        !(spec_lower_is(w, "explore"@) && spec_lower_is(w, "killall"@)),
        !(spec_lower_is(w, "credits"@) && spec_lower_is(w, "killall"@)),
{
    reveal_strlit("help");
    reveal_strlit("ping");
    reveal_strlit("kill");
    reveal_strlit("grid");
    reveal_strlit("clear");
    reveal_strlit("spawn");
    reveal_strlit("explore");
    reveal_strlit("credits");
    reveal_strlit("killall");
    if w.len() > 0 {
        let c = w[0];
        assert(spec_lower_char_is(c, 'h') ==> !spec_lower_char_is(c, 'p') && !spec_lower_char_is(c, 'k') && !spec_lower_char_is(c, 'g'));
        assert(spec_lower_char_is(c, 'p') ==> !spec_lower_char_is(c, 'k') && !spec_lower_char_is(c, 'g'));
        assert(spec_lower_char_is(c, 'k') ==> !spec_lower_char_is(c, 'g'));
        assert(spec_lower_char_is(c, 'c') ==> !spec_lower_char_is(c, 's') && !spec_lower_char_is(c, 'e') && !spec_lower_char_is(c, 'k'));
        assert(spec_lower_char_is(c, 'e') ==> !spec_lower_char_is(c, 'k'));
    }
}

/// What a console command asks to be shown or done.
#[derive(Clone, Debug, PartialEq, Eq)]
pub enum ConsoleReply {
    /// The line held no word.
    Nothing,
    Help,
    Cleared,
    Pong,
    FogDisabled(bool),
    Explored,
    GridVisible(bool),
    CreditsUsage,
    CreditsChanged { amount: i32, total: u32 },
    LocalPlayerMissing,
    InvalidAmount,
    SpawnUsage,
    UnknownUnit(String),
    /// Spawn `count` units of a kind at a point typed as `x,y` (its
    /// coordinates still as text), or at the cursor when none is typed.
    Spawn { unit_id: String, point: Option<(String, String)>, count: usize },
    KillSelected,
    KillEnemies,
    Unknown(String),
}

/// The local player's credits after `amount` is added: the sum taken as a
/// signed balance, never below zero.
pub open spec fn spec_credits_after(credits: u32, amount: i32) -> u32 {
    let sum = (credits as i32) + amount;
    if sum < 0 { 0 } else { sum as u32 }
}

/// The command line is a `credits` command for the local player, and the
/// signed sum of its balance and the amount fits.
pub open spec fn spec_credit_sum_fits(cmd: Seq<char>, players: Seq<Player>, local_player: usize) -> bool {
    let words = spec_words(cmd);
    let i = spec_player_index(players, local_player);
    words.len() >= 2 && spec_lower_is(words[0], "credits"@) && i >= 0 && spec_parse_i32(words[1]) is Some ==>
        i32::MIN <= (players[i].credits as i32) + spec_parse_i32(words[1])->0 <= i32::MAX
}

/// The fog and the grid switch are as they were, and so are the players.
pub open spec fn spec_world_unchanged(old_players: Seq<Player>, players: Seq<Player>, old_grid: bool, grid: bool, old_fog: FogOfWar, fog: FogOfWar) -> bool {
    &&& players == old_players
    &&& grid == old_grid
    &&& fog.spec_disabled() == old_fog.spec_disabled()
    &&& forall|x: int, z: int| #[trigger] fog.spec_state(x, z) == old_fog.spec_state(x, z)
}

/// Word `w` is none of the console's keywords.
pub open spec fn spec_unknown_word(w: Seq<char>) -> bool {
    !spec_lower_is(w, "help"@) && !spec_lower_is(w, "clear"@) && !spec_lower_is(w, "ping"@)
        && !spec_lower_is(w, "fog"@) && !spec_lower_is(w, "explore"@) && !spec_lower_is(w, "grid"@)
        && !spec_lower_is(w, "credits"@) && !spec_lower_is(w, "spawn"@) && !spec_lower_is(w, "kill"@)
        && !spec_lower_is(w, "killall"@)
}

/// The log after each of `lines` is printed in turn.
pub open spec fn spec_print_lines(log: Seq<Seq<char>>, lines: Seq<Seq<char>>) -> Seq<Seq<char>>
    decreases lines.len(),
{
    if lines.len() == 0 {
        log
    } else {
        spec_printed(spec_print_lines(log, lines.drop_last()), lines.last())
    }
}

/// The text of a decimal digit.
pub open spec fn spec_digit_text(d: nat) -> Seq<char> {
    if d == 0 { "0"@ } else if d == 1 { "1"@ } else if d == 2 { "2"@ } else if d == 3 { "3"@ }
    else if d == 4 { "4"@ } else if d == 5 { "5"@ } else if d == 6 { "6"@ } else if d == 7 { "7"@ }
    else if d == 8 { "8"@ } else { "9"@ }
}

/// A whole number written in decimal, without leading zeros.
pub open spec fn spec_nat_text(n: nat) -> Seq<char>
    decreases n,
{
    if n < 10 {
        spec_digit_text(n)
    } else {
        spec_nat_text(n / 10) + spec_digit_text(n % 10)
    }
}

/// An integer written in decimal, with a minus sign when negative.
pub open spec fn spec_int_text(v: int) -> Seq<char> {
    if v < 0 { "-"@ + spec_nat_text((-v) as nat) } else { spec_nat_text(v as nat) }
}

/// `true` or `false`.
pub open spec fn spec_bool_text(b: bool) -> Seq<char> {
    if b { "true"@ } else { "false"@ }
}

/// The lines of the help text.
pub open spec fn spec_help_lines() -> Seq<Seq<char>> {
    seq![
        "Available commands:"@,
        "  help - Show this message"@,
        "  clear - Clear the console log"@,
        "  ping - Replies with pong"@,
        "  credits <amount> - Add credits to local player"@,
        "  spawn <unit_id> [x,y] [count] - Spawn at cursor or coordinates"@,
        "  kill - Destroy selected units/buildings"@,
        "  killall - Destroy all ENEMY units"@,
        "  fog - Toggle Fog of War"@,
        "  explore - Reveal the entire map as explored"@,
        "  grid - Toggle map grid"@,
    ]
}

/// The lines of the spawn command's usage.
pub open spec fn spec_spawn_usage_lines() -> Seq<Seq<char>> {
    seq!["Usage:"@, "  spawn <unit_id>"@, "  spawn <unit_id> <count>"@, "  spawn <unit_id> <x,y> [count]"@]
}

/// The lines the console prints for a reply. Spawning and destroying are
/// reported by the game once it has done them, so those replies print
/// nothing here; neither does an empty line or `clear`.
pub open spec fn spec_reply_lines(r: ConsoleReply) -> Seq<Seq<char>> {
    match r {
        ConsoleReply::Help => spec_help_lines(),
        ConsoleReply::Pong => seq!["pong"@],
        ConsoleReply::FogDisabled(d) => seq!["Fog of War disabled: "@ + spec_bool_text(d)],
        ConsoleReply::Explored => seq!["Map fully explored."@],
        ConsoleReply::GridVisible(v) => seq!["Map grid visible: "@ + spec_bool_text(v)],
        ConsoleReply::CreditsUsage => seq!["Usage: credits <amount>"@],
        ConsoleReply::CreditsChanged { amount, total } => seq![
            "Added "@ + spec_int_text(amount as int) + " credits. New total: "@ + spec_nat_text(total as nat)
        ],
        ConsoleReply::LocalPlayerMissing => seq!["Local player not found."@],
        ConsoleReply::InvalidAmount => seq!["Invalid amount."@],
        ConsoleReply::SpawnUsage => spec_spawn_usage_lines(),
        ConsoleReply::UnknownUnit(id) => seq!["Unknown unit id: "@ + id@],
        ConsoleReply::Unknown(w) => seq!["Unknown command: "@ + w@],
        _ => Seq::empty(),
    }
}

/// The views of a list of texts.
pub open spec fn spec_str_views(s: Seq<&str>) -> Seq<Seq<char>> {
    Seq::new(s.len(), |i: int| s[i]@)
}

/// Appends a whole number in decimal.
fn append_nat(s: &mut String, n: u64)
    ensures
        final(s)@ == old(s)@ + spec_nat_text(n as nat),
    decreases n,
{
    if n >= 10 {
        append_nat(s, n / 10);
    }
    let d = n % 10;

    if d == 0 { s.append("0"); } else if d == 1 { s.append("1"); } else if d == 2 { s.append("2"); }
    else if d == 3 { s.append("3"); } else if d == 4 { s.append("4"); } else if d == 5 { s.append("5"); }
    else if d == 6 { s.append("6"); } else if d == 7 { s.append("7"); } else if d == 8 { s.append("8"); }
    else { s.append("9"); }
    proof {
        if n >= 10 {
            assert(s@ =~= old(s)@ + (spec_nat_text((n / 10) as nat) + spec_digit_text((n % 10) as nat)));
        } else {
            assert(s@ =~= old(s)@ + spec_digit_text(n as nat));
        }
    }
}

/// Appends an integer in decimal.
fn append_int(s: &mut String, v: i32)
    ensures
        final(s)@ == old(s)@ + spec_int_text(v as int),
{
    if v < 0 {
        s.append("-");
        let mag: u64 = (-(v as i64)) as u64;
        append_nat(s, mag);
        assert(s@ =~= old(s)@ + ("-"@ + spec_nat_text((-(v as int)) as nat)));
    } else {
        append_nat(s, v as u64);
    }
}

/// Appends `true` or `false`.
fn append_bool(s: &mut String, b: bool)
    ensures
        final(s)@ == old(s)@ + spec_bool_text(b),
{
    if b { s.append("true"); } else { s.append("false"); }
}

/// What a console command line does to the players, the fog and the grid
/// switch, and the reply it gives (see `execute_command`).
pub open spec fn spec_command_effect(
    cmd: Seq<char>,
    definitions: Definitions,
    local_player: usize,
    old_players: Seq<Player>,
    players: Seq<Player>,
    old_fog: FogOfWar,
    fog: FogOfWar,
    old_grid: bool,
    grid: bool,
    r: ConsoleReply,
) -> bool {
    &&& spec_words(cmd).len() == 0 ==> r is Nothing
            && spec_world_unchanged(old_players, players, old_grid, grid, old_fog, fog)
    &&& spec_words(cmd).len() > 0 ==> ({
            let words = spec_words(cmd);
            let w0 = words[0];
            let i = spec_player_index(old_players, local_player);
            let unchanged = spec_world_unchanged(old_players, players, old_grid, grid, old_fog, fog);
            &&& spec_lower_is(w0, "help"@) ==> r is Help && unchanged
            &&& spec_lower_is(w0, "clear"@) ==> r is Cleared && unchanged 
            &&& spec_lower_is(w0, "ping"@) ==> r is Pong && unchanged
            &&& spec_lower_is(w0, "fog"@) ==> r == ConsoleReply::FogDisabled(!old_fog.spec_disabled())
                && fog.spec_disabled() == !old_fog.spec_disabled()
                && players == old_players && grid == old_grid
                && forall|x: int, z: int| #[trigger] fog.spec_state(x, z) == old_fog.spec_state(x, z)
            &&& spec_lower_is(w0, "explore"@) ==> r is Explored
                && fog.spec_disabled() == old_fog.spec_disabled()
                && players == old_players && grid == old_grid
                && forall|x: int, z: int| old_fog.spec_in_rect(x, z) ==> #[trigger] fog.spec_state(x, z) ==
                    if old_fog.spec_state(x, z) == crate::fog::VisibilityState::Unexplored { crate::fog::VisibilityState::Explored } else { old_fog.spec_state(x, z) }
            &&& spec_lower_is(w0, "grid"@) ==> r == ConsoleReply::GridVisible(!old_grid)
                && grid == !old_grid
                && players == old_players
                && fog.spec_disabled() == old_fog.spec_disabled()
                && forall|x: int, z: int| #[trigger] fog.spec_state(x, z) == old_fog.spec_state(x, z)
            &&& spec_lower_is(w0, "credits"@) ==> if words.len() < 2 {
                r is CreditsUsage && unchanged
            } else if spec_parse_i32(words[1]) is None {
                r is InvalidAmount && unchanged
            } else if i < 0 {
                r is LocalPlayerMissing && unchanged
            } else {
                let amount = spec_parse_i32(words[1])->0;
                let total = spec_credits_after(old_players[i].credits, amount);
                &&& r == ConsoleReply::CreditsChanged { amount, total }
                &&& players == old_players.update(i, Player { credits: total, ..old_players[i] })
                &&& grid == old_grid
                &&& fog.spec_disabled() == old_fog.spec_disabled()
                &&& forall|x: int, z: int| #[trigger] fog.spec_state(x, z) == old_fog.spec_state(x, z)
            }
            &&& spec_lower_is(w0, "spawn"@) ==> unchanged && if words.len() < 2 {
                r is SpawnUsage
            } else if spec_find(spec_unit_ids(definitions.units@), words[1]) < 0 {
                r matches ConsoleReply::UnknownUnit(u) && u@ == words[1]
            } else {
                match spec_spawn_options(words.subrange(2, words.len() as int)) {
                    None => r is SpawnUsage,
                    Some((p, c)) => r matches ConsoleReply::Spawn { unit_id, point, count }
                        && unit_id@ == words[1] && spec_point_view(point) == p && count == c,
                }
            }
            &&& spec_lower_is(w0, "kill"@) ==> r is KillSelected && unchanged
            &&& spec_lower_is(w0, "killall"@) ==> r is KillEnemies && unchanged
            &&& spec_unknown_word(w0) ==> (r matches ConsoleReply::Unknown(w) && w@ == w0) && unchanged
        })
}

/// Runs a console command line: `help`, `clear`, `ping`, `fog` (toggles the
/// fog of war), `explore` (marks the whole map explored), `grid` (toggles
/// the map grid), `credits <amount>` (adds to the local player's credits,
/// never below zero), `spawn <unit> [x,y] [count]`, `kill`, `killall`; the
/// first word is matched regardless of case. The lines a reply stands for
/// (`spec_reply_lines`) are printed to the log; the reply is returned for
/// what only the game can do (spawning, destroying).
pub fn execute_command(
    cmd: &str,
    console: &mut ConsoleData,
    players: &mut Players,
    local_player: usize,
    definitions: &Definitions,
    fog: &mut FogOfWar,
    show_grid: &mut bool,
) -> (r: ConsoleReply)
    requires
        old(fog).wf(),
        spec_credit_sum_fits(cmd@, old(players).players@, local_player),
    ensures
        old(players).wf() ==> final(players).wf(),
        final(fog).wf(),
        final(console).is_open == old(console).is_open,
        final(console).input_buffer == old(console).input_buffer,
        final(console).history == old(console).history,
        final(console).history_index == old(console).history_index,
        spec_command_effect(cmd@, *definitions, local_player, old(players).players@, final(players).players@,
            *old(fog), *final(fog), *old(show_grid), *final(show_grid), r),
        spec_words(cmd@).len() > 0 && spec_lower_is(spec_words(cmd@)[0], "clear"@) ==> final(console).log@.len() == 0,
        !(spec_words(cmd@).len() > 0 && spec_lower_is(spec_words(cmd@)[0], "clear"@)) ==>
            spec_views(final(console).log@) == spec_print_lines(spec_views(old(console).log@), spec_reply_lines(r)),
{
    let r = decide_command(cmd, console, players, local_player, definitions, fog, show_grid);
    let ghost mid = console.log@;
    console.print_reply(&r);
    proof {
        if spec_words(cmd@).len() > 0 && spec_lower_is(spec_words(cmd@)[0], "clear"@) {
            assert(r is Cleared);
            assert(spec_reply_lines(r) =~= Seq::<Seq<char>>::empty());
            assert(spec_views(console.log@) == spec_views(mid));
            assert(spec_views(console.log@).len() == console.log@.len());
        }
    }
    r
}

/// What a command line does and replies, before its reply is printed.
fn decide_command(
    cmd: &str,
    console: &mut ConsoleData,
    players: &mut Players,
    local_player: usize,
    definitions: &Definitions,
    fog: &mut FogOfWar,
    show_grid: &mut bool,
) -> (r: ConsoleReply)
    requires
        old(fog).wf(),
        spec_credit_sum_fits(cmd@, old(players).players@, local_player),
    ensures
        old(players).wf() ==> final(players).wf(),
        final(fog).wf(),
        final(console).is_open == old(console).is_open,
        final(console).input_buffer == old(console).input_buffer,
        final(console).history == old(console).history,
        final(console).history_index == old(console).history_index,
        spec_command_effect(cmd@, *definitions, local_player, old(players).players@, final(players).players@,
            *old(fog), *final(fog), *old(show_grid), *final(show_grid), r),
        spec_words(cmd@).len() > 0 && spec_lower_is(spec_words(cmd@)[0], "clear"@) ==> final(console).log@.len() == 0,
        !(spec_words(cmd@).len() > 0 && spec_lower_is(spec_words(cmd@)[0], "clear"@)) ==> final(console).log == old(console).log,
{
    let parts = split_words(cmd);
    let ghost words = spec_words(cmd@);
    if parts.len() == 0 {
        return ConsoleReply::Nothing;
    }
    assert(parts@[0]@ == words[0]);
    let w0 = parts[0].as_str();
    proof {
        lemma_keywords_exclusive(words[0]);
        reveal_strlit("help");
        reveal_strlit("clear");
        reveal_strlit("ping");
        reveal_strlit("fog");
        reveal_strlit("explore");
        reveal_strlit("grid");
        reveal_strlit("credits");
        reveal_strlit("spawn");
        reveal_strlit("kill");
        reveal_strlit("killall");
    }
    if word_is(w0, "help") {
        ConsoleReply::Help
    } else if word_is(w0, "clear") {
        console.clear_log();
        ConsoleReply::Cleared
    } else if word_is(w0, "ping") {
        ConsoleReply::Pong
    } else if word_is(w0, "fog") {
        let disabled = !fog.is_disabled();
        fog.set_disabled(disabled);
        ConsoleReply::FogDisabled(disabled)
    } else if word_is(w0, "explore") {
        fog.explore_all();
        ConsoleReply::Explored
    } else if word_is(w0, "grid") {
        *show_grid = !*show_grid;
        ConsoleReply::GridVisible(*show_grid)
    } else if word_is(w0, "credits") {
        if parts.len() < 2 {
            return ConsoleReply::CreditsUsage;
        }
        assert(parts@[1]@ == words[1]);
        match parse_i32(parts[1].as_str()) {
            None => ConsoleReply::InvalidAmount,
            Some(amount) => {
                match players.index_of(local_player) {
                    None => ConsoleReply::LocalPlayerMissing,
                    Some(i) => {
                        let credits = players.players[i].credits;
                        let signed: i32 = credits as i32;
                        let sum: i32 = signed + amount;
                        let total: u32 = if sum < 0 { 0 } else { sum as u32 };
                        players.players[i].credits = total;
                        ConsoleReply::CreditsChanged { amount, total }
                    },
                }
            },
        }
    } else if word_is(w0, "spawn") {
        if parts.len() < 2 {
            return ConsoleReply::SpawnUsage;
        }
        assert(parts@[1]@ == words[1]);
        let unit_id = parts[1].as_str();
        if definitions.unit(unit_id).is_none() {
            return ConsoleReply::UnknownUnit(unit_id.to_string());
        }
        let mut options: Vec<String> = Vec::new();
        let mut k: usize = 2;
        while k < parts.len()
            invariant
                2 <= k <= parts@.len(),
                spec_views(parts@) == words,
                spec_views(options@) == words.subrange(2, k as int),
            decreases parts@.len() - k,
        {
            let ghost before = spec_views(options@);
            options.push(parts[k].clone());
            proof {
                assert(spec_views(options@) =~= before.push(parts@[k as int]@));
                assert(words.subrange(2, k + 1) =~= words.subrange(2, k as int).push(words[k as int]));
            }
            k = k + 1;
        }
        match parse_spawn_options(&options) {
            Err(()) => ConsoleReply::SpawnUsage,
            Ok((point, count)) => ConsoleReply::Spawn { unit_id: unit_id.to_string(), point, count },
        }
    } else if word_is(w0, "kill") {
        ConsoleReply::KillSelected
    } else if word_is(w0, "killall") {
        ConsoleReply::KillEnemies
    } else {
        ConsoleReply::Unknown(parts[0].clone())
    }
}


/// Distance, in thousandths of a cell, between neighbouring units of a
/// spawned formation.
pub const SPAWN_SPACING: i32 = 1500;

/// `c` is the least whole number whose square reaches `n`.
pub open spec fn spec_is_ceil_sqrt(c: int, n: int) -> bool {
    c >= 0 && c * c >= n && (c == 0 || (c - 1) * (c - 1) < n)
}

/// The number of columns of a formation of `n` units: the ceiling of the
/// square root of `n`.
pub open spec fn spec_spawn_columns(n: int) -> int {
    choose|c: int| spec_is_ceil_sqrt(c, n)
}

proof fn lemma_ceil_sqrt_unique(c1: int, c2: int, n: int)
    requires
        spec_is_ceil_sqrt(c1, n),
        spec_is_ceil_sqrt(c2, n),
    ensures
        c1 == c2,
{
    if c1 < c2 {
        assert(c1 * c1 <= (c2 - 1) * (c2 - 1)) by (nonlinear_arith)
            requires 0 <= c1 <= c2 - 1;
    } else if c2 < c1 {
        assert(c2 * c2 <= (c1 - 1) * (c1 - 1)) by (nonlinear_arith)
            requires 0 <= c2 <= c1 - 1;
    }
}

/// Where unit `k` of a formation of `n` units centred at `center` stands:
/// units fill rows of `cols` units (the last row possibly shorter), each
/// row centred on `center.x`, the rows centred on `center.z`, neighbours
/// `SPAWN_SPACING` apart.
pub open spec fn spec_spawn_position(center: Pos, n: int, cols: int, k: int) -> Pos {
    let rows = (n + cols - 1) / cols;
    let row = k / cols;
    let col = k % cols;
    let row_len = if n - row * cols < cols { n - row * cols } else { cols };
    Pos {
        x: (center.x + (2 * col - (row_len - 1)) * 750) as i32,
        z: (center.z + (2 * row - (rows - 1)) * 750) as i32,
    }
}

/// The least whole number whose square reaches `n`.
fn ceil_sqrt(n: usize) -> (c: usize)
    requires
        1 <= n,
    ensures
        spec_is_ceil_sqrt(c as int, n as int),
        1 <= c <= n,
{
    let mut c: usize = 1;
    let mut sq: u128 = 1;
    while sq < n as u128
        invariant
            1 <= c <= n,
            1 <= n,
            sq == c * c,
            (c - 1) * (c - 1) < n,
        decreases n - c,
    {
        assert(c < n) by (nonlinear_arith)
            requires c * c < n, c >= 1;
        assert((c + 1) * (c + 1) == c * c + 2 * c + 1) by (nonlinear_arith);
        assert(c * c + 2 * c + 1 <= 3 * (n as int) + 1) by (nonlinear_arith)
            requires c * c < n, c < n;
        sq = sq + 2 * (c as u128) + 1;
        c = c + 1;
    }
    c
}

/// The spawned units' coordinates, in thousandths of a cell, fit in an
/// `i32`: no unit stands farther from `center` along an axis than
/// `(columns - 1) * 750`.
pub open spec fn spec_spawn_fits(center: Pos, n: int) -> bool {
    let reach = (spec_spawn_columns(n) - 1) * 750;
    &&& i32::MIN <= center.x - reach
    &&& center.x + reach <= i32::MAX
    &&& i32::MIN <= center.z - reach
    &&& center.z + reach <= i32::MAX
}

/// Where the units of a spawn command go: `count` positions around
/// `center`, in rows of as many columns as the ceiling of the square root
/// of `count`, the last row possibly shorter, each row and the rows centred
/// on `center`, neighbours 1.5 cells apart.
pub fn spawn_formation_positions(center: Pos, count: usize) -> (positions: Vec<Pos>)
    requires
        1 <= count,
        spec_spawn_fits(center, count as int),
    ensures
        positions@.len() == count,
        forall|k: int| 0 <= k < count ==> #[trigger] positions@[k]
            == spec_spawn_position(center, count as int, spec_spawn_columns(count as int), k),
{
    let columns = ceil_sqrt(count);
    proof {
        let c = spec_spawn_columns(count as int);
        lemma_ceil_sqrt_unique(c, columns as int, count as int);
    }
    let q: u128 = (count as u128 + columns as u128 - 1) / columns as u128;
    proof {
        let n = count as int;
        let c = columns as int;
        assert(q as int == (n + c - 1) / c);
        assert((n + c - 1) / c <= n) by (nonlinear_arith)
            requires c >= 1, c <= n;
    }
    let rows = q as usize;
    let ghost n = count as int;
    let ghost cols = columns as int;
    let ghost rws = rows as int;
    assert(rws * cols >= n) by (nonlinear_arith)
        requires rws == (n + cols - 1) / cols, cols >= 1;
    assert(rws <= cols) by (nonlinear_arith)
        requires rws == (n + cols - 1) / cols, cols >= 1, cols * cols >= n;
    let mut positions: Vec<Pos> = Vec::new();
    let mut row: usize = 0;
    while row < rows
        invariant
            1 <= count,
            spec_spawn_fits(center, count as int),
            1 <= columns <= count,
            (columns - 1) * 750 <= 4_294_967_295,
            rows <= columns,
            spec_is_ceil_sqrt(columns as int, count as int),
            columns == spec_spawn_columns(count as int),
            rows as int == (count as int + columns as int - 1) / (columns as int),
            rows * columns >= count,
            row <= rows,
            positions@.len() == if row * columns < count { row * columns } else { count as int },
            forall|k: int| 0 <= k < positions@.len() ==> #[trigger] positions@[k]
                == spec_spawn_position(center, count as int, columns as int, k),
        decreases rows - row,
    {
        let ghost rw = row as int;
        let ghost cols = columns as int;
        let ghost n = count as int;
        let ghost rws = rows as int;
        assert(rw * cols < n) by (nonlinear_arith)
            requires rw < rws, rws == (n + cols - 1) / cols, cols >= 1;
        let row_start = row * columns;
        let row_len = if count - row_start < columns { count - row_start } else { columns };
        let mut column: usize = 0;
        while column < row_len
            invariant
                1 <= count,
                spec_spawn_fits(center, count as int),
                1 <= columns <= count,
                (columns - 1) * 750 <= 4_294_967_295,
                rows <= columns,
                columns == spec_spawn_columns(count as int),
                rows as int == (count as int + columns as int - 1) / (columns as int),
                row < rows,
                row_start == row * columns,
                row_start < count,
                row_len == if count - row_start < columns { count - row_start } else { columns as int },
                column <= row_len,
                positions@.len() == row_start + column,
                forall|k: int| 0 <= k < positions@.len() ==> #[trigger] positions@[k]
                    == spec_spawn_position(center, count as int, columns as int, k),
            decreases row_len - column,
        {
            let k = row_start + column;
            let ghost ki = k as int;
            let ghost ci = column as int;
            let ghost ri = row as int;
            let ghost cols = columns as int;
            let ghost n = count as int;
            let ghost rws = rows as int;
            assert(ki / cols == ri && ki % cols == ci) by (nonlinear_arith)
                requires ki == ri * cols + ci, 0 <= ci < cols, ri >= 0;
            let dx: i64 = (2 * column as i64 - (row_len as i64 - 1)) * 750;
            let dz: i64 = (2 * row as i64 - (rows as i64 - 1)) * 750;
            let p = Pos { x: (center.x as i64 + dx) as i32, z: (center.z as i64 + dz) as i32 };
            positions.push(p);
            column = column + 1;
        }
        proof {
            let ghost ri = row as int;
            let ghost cols = columns as int;
            assert((ri + 1) * cols == ri * cols + cols) by (nonlinear_arith);
        }
        row = row + 1;
    }
    positions
}


proof fn lemma_ceil_sqrt_from(c: int, n: int)
    requires
        1 <= n,
        1 <= c <= n,
        (c - 1) * (c - 1) < n,
    ensures
        spec_is_ceil_sqrt(spec_spawn_columns(n), n),
    decreases n - c,
{
    if c * c >= n {
        assert(spec_is_ceil_sqrt(c, n));
    } else {
        assert(c + 1 <= n) by (nonlinear_arith) requires c * c < n, c >= 1;
        lemma_ceil_sqrt_from(c + 1, n);
    }
}

/// The columns of a formation of `n` units: the ceiling of the square root
/// of `n`, between 1 and `n`, and at least as many as the rows.
pub proof fn lemma_spawn_columns(n: int)
    requires
        1 <= n,
    ensures
        spec_is_ceil_sqrt(spec_spawn_columns(n), n),
        1 <= spec_spawn_columns(n) <= n,
        (n + spec_spawn_columns(n) - 1) / spec_spawn_columns(n) <= spec_spawn_columns(n),
{
    lemma_ceil_sqrt_from(1, n);
    let cols = spec_spawn_columns(n);
    if cols == 0 {
        assert(cols * cols == 0);
    }
    if cols > n {
        assert((cols - 1) * (cols - 1) >= n * n) by (nonlinear_arith) requires cols - 1 >= n, n >= 1;
        assert(n * n >= n) by (nonlinear_arith) requires n >= 1;
    }
    assert((n + cols - 1) / cols <= cols) by (nonlinear_arith)
        requires cols >= 1, cols * cols >= n;
}

/// Where unit `k` of a formation that fits stands, without wrapping: its
/// offsets from the centre are within `(columns - 1) * 750` on each axis.
proof fn lemma_spawn_position_exact(center: Pos, n: int, k: int)
    requires
        1 <= n,
        0 <= k < n,
        spec_spawn_fits(center, n),
    ensures
        ({
            let cols = spec_spawn_columns(n);
            let rows = (n + cols - 1) / cols;
            let row = k / cols;
            let col = k % cols;
            let row_len = if n - row * cols < cols { n - row * cols } else { cols };
            let p = spec_spawn_position(center, n, cols, k);
            &&& p.x == center.x + (2 * col - (row_len - 1)) * 750
            &&& p.z == center.z + (2 * row - (rows - 1)) * 750
        }),
{
    let cols = spec_spawn_columns(n);
    lemma_spawn_columns(n);
    lemma_row_col(k, cols);
    let rows = (n + cols - 1) / cols;
    let row = k / cols;
    let col = k % cols;
    let row_len = if n - row * cols < cols { n - row * cols } else { cols };
    assert(row < rows) by (nonlinear_arith) requires k < n, k == row * cols + col, 0 <= col, rows == (n + cols - 1) / cols, cols >= 1;
    assert(row * cols < n) by (nonlinear_arith) requires k < n, k == row * cols + col, 0 <= col;
    assert(col < row_len) by (nonlinear_arith) requires k < n, k == row * cols + col, col < cols,
        row_len == if n - row * cols < cols { n - row * cols } else { cols };
    let dx = (2 * col - (row_len - 1)) * 750;
    let dz = (2 * row - (rows - 1)) * 750;
    assert(-(cols - 1) * 750 <= dx <= (cols - 1) * 750);
    assert(-(cols - 1) * 750 <= dz <= (cols - 1) * 750);
}

proof fn lemma_row_col(k: int, cols: int)
    requires
        k >= 0,
        cols >= 1,
    ensures
        k == (k / cols) * cols + k % cols,
        0 <= k % cols < cols,
        k / cols >= 0,
{
    vstd::arithmetic::div_mod::lemma_fundamental_div_mod(k, cols);
    vstd::arithmetic::div_mod::lemma_mod_pos_bound(k, cols);
    vstd::arithmetic::div_mod::lemma_div_pos_is_pos(k, cols);
    assert(cols * (k / cols) == (k / cols) * cols) by (nonlinear_arith);
}

/// Any two units spawned together stand at least `SPAWN_SPACING` apart.
pub proof fn law_spawn_separated(center: Pos, n: int, k: int, l: int)
    requires
        1 <= n,
        spec_spawn_fits(center, n),
        0 <= k < l < n,
    ensures
        spec_dist_sq(spec_spawn_position(center, n, spec_spawn_columns(n), k), spec_spawn_position(center, n, spec_spawn_columns(n), l))
            >= SPAWN_SPACING * SPAWN_SPACING,
{
    let cols = spec_spawn_columns(n);
    lemma_spawn_columns(n);
    lemma_row_col(k, cols);
    lemma_row_col(l, cols);
    let rows = (n + cols - 1) / cols;
    lemma_spawn_position_exact(center, n, k);
    lemma_spawn_position_exact(center, n, l);
    let rk = k / cols;
    let rl = l / cols;
    let ck = k % cols;
    let cl = l % cols;
    assert(rk <= rl) by (nonlinear_arith) requires k < l, k == rk * cols + ck, l == rl * cols + cl, 0 <= ck < cols, 0 <= cl < cols;
    assert(rl < rows) by (nonlinear_arith) requires l < n, l == rl * cols + cl, 0 <= cl, rows == (n + cols - 1) / cols, cols >= 1;
    let a = spec_spawn_position(center, n, cols, k);
    let b = spec_spawn_position(center, n, cols, l);
    if rk == rl {
        assert(ck < cl);
        let dx = a.x - b.x;
        assert(dx <= -SPAWN_SPACING);
        assert(dx * dx >= SPAWN_SPACING * SPAWN_SPACING) by (nonlinear_arith) requires dx <= -1500;
        assert((a.z - b.z) * (a.z - b.z) >= 0) by (nonlinear_arith);
    } else {
        let dz = a.z - b.z;
        assert(dz <= -SPAWN_SPACING);
        assert(dz * dz >= SPAWN_SPACING * SPAWN_SPACING) by (nonlinear_arith) requires dz <= -1500;
        assert((a.x - b.x) * (a.x - b.x) >= 0) by (nonlinear_arith);
    }
}

/// A full formation (every row complete) is centred: the units `k` and
/// `n - 1 - k` stand opposite each other across the centre, so the
/// formation's mean position is the centre.
pub proof fn law_spawn_centered(center: Pos, n: int, k: int)
    requires
        1 <= n,
        spec_spawn_fits(center, n),
        n % spec_spawn_columns(n) == 0,
        0 <= k < n,
    ensures
        ({
            let a = spec_spawn_position(center, n, spec_spawn_columns(n), k);
            let b = spec_spawn_position(center, n, spec_spawn_columns(n), n - 1 - k);
            &&& a.x + b.x == 2 * center.x
            &&& a.z + b.z == 2 * center.z
        }),
{
    let cols = spec_spawn_columns(n);
    lemma_spawn_columns(n);
    let l = n - 1 - k;
    lemma_spawn_position_exact(center, n, k);
    lemma_spawn_position_exact(center, n, l);
    lemma_row_col(k, cols);
    lemma_row_col(l, cols);
    lemma_row_col(n, cols);
    let rows = (n + cols - 1) / cols;
    let q = n / cols;
    assert(n == q * cols);
    assert(rows == q) by (nonlinear_arith) requires n == q * cols, cols >= 1, rows == (n + cols - 1) / cols;
    let rk = k / cols;
    let ck = k % cols;
    assert(l == (q - 1 - rk) * cols + (cols - 1 - ck)) by (nonlinear_arith)
        requires l == n - 1 - k, n == q * cols, k == rk * cols + ck;
    assert(rk < q) by (nonlinear_arith) requires k < n, n == q * cols, k == rk * cols + ck, 0 <= ck, cols >= 1;
    assert(l / cols == q - 1 - rk && l % cols == cols - 1 - ck) by (nonlinear_arith)
        requires l == (q - 1 - rk) * cols + (cols - 1 - ck), 0 <= ck < cols, rk <= q - 1, cols >= 1;
    assert(n - rk * cols >= cols) by (nonlinear_arith) requires rk < q, n == q * cols, cols >= 1;
    assert(n - (q - 1 - rk) * cols >= cols) by (nonlinear_arith) requires rk >= 0, n == q * cols, cols >= 1;
}

} // verus!

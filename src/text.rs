//! Text helpers over character sequences: whitespace, trimming, line and
//! word splitting, decimal and hexadecimal numerals.

use vstd::prelude::*;
use vstd::std_specs::iter::IteratorSpec;

verus! {

broadcast use vstd::string::group_string_axioms;

/// Unicode `White_Space` characters.
pub open spec fn is_ws(c: char) -> bool {
    ('\u{9}' <= c && c <= '\u{d}') || c == ' ' || c == '\u{85}' || c == '\u{a0}' || c == '\u{1680}'
        || ('\u{2000}' <= c && c <= '\u{200a}') || c == '\u{2028}' || c == '\u{2029}'
        || c == '\u{202f}' || c == '\u{205f}' || c == '\u{3000}'
}

/// Whether `c` is a Unicode `White_Space` character.
pub fn is_whitespace(c: char) -> (r: bool)
    ensures
        r == is_ws(c),
{
    ('\u{9}' <= c && c <= '\u{d}') || c == ' ' || c == '\u{85}' || c == '\u{a0}' || c == '\u{1680}'
        || ('\u{2000}' <= c && c <= '\u{200a}') || c == '\u{2028}' || c == '\u{2029}'
        || c == '\u{202f}' || c == '\u{205f}' || c == '\u{3000}'
}

/// `s` without leading whitespace.
pub open spec fn trim_start(s: Seq<char>) -> Seq<char>
    decreases s.len(),
{
    if s.len() > 0 && is_ws(s[0]) {
        trim_start(s.drop_first())
    } else {
        s
    }
}

/// `s` without trailing whitespace.
pub open spec fn trim_end(s: Seq<char>) -> Seq<char>
    decreases s.len(),
{
    if s.len() > 0 && is_ws(s.last()) {
        trim_end(s.drop_last())
    } else {
        s
    }
}

/// `s` without leading or trailing whitespace.
pub open spec fn trim(s: Seq<char>) -> Seq<char> {
    trim_end(trim_start(s))
}

/// Index of the first `c` in `s` at or after `i`, or `s.len()`.
pub open spec fn find_from(s: Seq<char>, c: char, i: int) -> int
    decreases s.len() - i,
{
    if i < 0 || i >= s.len() {
        s.len() as int
    } else if s[i] == c {
        i
    } else {
        find_from(s, c, i + 1)
    }
}

/// The lines of `s` from offset `i`: split after each `\n`, which is
/// dropped together with a `\r` just before it; no empty line is made
/// after a final `\n`.
pub open spec fn lines_from(s: Seq<char>, i: int) -> Seq<Seq<char>>
    decreases s.len() + 1 - i via lines_from_decreases
{
    if i < 0 || i >= s.len() {
        Seq::empty()
    } else {
        let e = find_from(s, '\n', i);
        let raw = s.subrange(i, e);
        let line = if e < s.len() && raw.len() > 0 && raw.last() == '\r' {
            raw.drop_last()
        } else {
            raw
        };
        seq![line] + lines_from(s, e + 1)
    }
}

#[via_fn]
proof fn lines_from_decreases(s: Seq<char>, i: int) {
    if 0 <= i < s.len() {
        lemma_find_from(s, '\n', i);
    }
}

/// The lines of `s`.
pub open spec fn lines(s: Seq<char>) -> Seq<Seq<char>> {
    lines_from(s, 0)
}

/// Index of the first character at or after `i` that is (`ws`) or is not
/// (`!ws`) whitespace, or `s.len()`.
pub open spec fn skip_class(s: Seq<char>, i: int, ws: bool) -> int
    decreases s.len() - i,
{
    if i < 0 || i >= s.len() {
        s.len() as int
    } else if is_ws(s[i]) != ws {
        i
    } else {
        skip_class(s, i + 1, ws)
    }
}

/// The maximal runs of non-whitespace characters of `s` from offset `i`.
pub open spec fn words_from(s: Seq<char>, i: int) -> Seq<Seq<char>>
    decreases s.len() - i via words_from_decreases
{
    let b = skip_class(s, i, true);
    if i < 0 || b >= s.len() {
        Seq::empty()
    } else {
        let e = skip_class(s, b, false);
        seq![s.subrange(b, e)] + words_from(s, e)
    }
}

#[via_fn]
proof fn words_from_decreases(s: Seq<char>, i: int) {
    let b = skip_class(s, i, true);
    if 0 <= i && b < s.len() {
        lemma_skip_class(s, i, true);
        lemma_skip_class(s, b, false);
    }
}

/// The words of `s`: its maximal runs of non-whitespace characters.
pub open spec fn words(s: Seq<char>) -> Seq<Seq<char>> {
    words_from(s, 0)
}

/// `find_from` lands between `i` and the end, on `c` if before the end,
/// and passes over no `c`.
pub proof fn lemma_find_from(s: Seq<char>, c: char, i: int)
    requires
        0 <= i <= s.len(),
    ensures
        i <= find_from(s, c, i) <= s.len(),
        find_from(s, c, i) < s.len() ==> s[find_from(s, c, i)] == c,
        forall|j: int| i <= j < find_from(s, c, i) ==> s[j] != c,
    decreases s.len() - i,
{
    if i < s.len() && s[i] != c {
        lemma_find_from(s, c, i + 1);
    }
}

/// `skip_class` lands between `i` and the end, on a character of the other
/// class if before the end, and passes over characters of class `ws` only.
pub proof fn lemma_skip_class(s: Seq<char>, i: int, ws: bool)
    requires
        0 <= i <= s.len(),
    ensures
        i <= skip_class(s, i, ws) <= s.len(),
        skip_class(s, i, ws) < s.len() ==> is_ws(s[skip_class(s, i, ws)]) != ws,
        forall|j: int| i <= j < skip_class(s, i, ws) ==> is_ws(#[trigger] s[j]) == ws,
    decreases s.len() - i,
{
    if i < s.len() && is_ws(s[i]) == ws {
        lemma_skip_class(s, i + 1, ws);
    }
}

/// The character of a digit below 16, lowercase or uppercase.
pub open spec fn hex_char(d: int, upper: bool) -> char {
    if d < 10 {
        ((d + 48) as u8) as char
    } else if upper {
        ((d + 55) as u8) as char
    } else {
        ((d + 87) as u8) as char
    }
}

/// Decimal numeral of `n`, without leading zeros.
pub open spec fn dec(n: nat) -> Seq<char>
    decreases n,
{
    if n < 10 {
        seq![hex_char(n as int, false)]
    } else {
        dec(n / 10).push(hex_char((n % 10) as int, false))
    }
}

/// The last `k` hexadecimal digits of `n`, zero-padded.
pub open spec fn hex_pad(n: nat, k: nat, upper: bool) -> Seq<char>
    decreases k,
{
    if k == 0 {
        Seq::empty()
    } else {
        hex_pad(n / 16, (k - 1) as nat, upper).push(hex_char((n % 16) as int, upper))
    }
}

/// The characters of a string slice.
pub fn chars_of(s: &str) -> (r: Vec<char>)
    ensures
        r@ == s@,
{
    let n = s.unicode_len();
    let mut r: Vec<char> = Vec::with_capacity(n);
    let mut it = s.chars();
    let mut i: usize = 0;
    assert(r@ + it.remaining() =~= s@);
    loop
        invariant
            n == s@.len(),
            r@ + it.remaining() == s@,
            it.obeys_prophetic_iter_laws(),
            r@.len() == i,
        ensures
            r@ == s@,
        decreases s@.len() - r@.len(),
    {
        let ghost rem = it.remaining();
        match it.next() {
            Some(c) => {
                let ghost prev = r@;
                r.push(c);
                i = i + 1;
                assert(r@ + it.remaining() =~= prev + seq![c] + it.remaining());
            },
            None => {
                assert(rem.len() == 0);
                assert(r@ + rem == s@);
                assert(r@ =~= s@);
                break;
            },
        }
    }
    r
}

/// Relies on `String::push`: appends one character.
#[verifier::external_body]
pub fn push_char(s: &mut String, c: char)
    ensures
        final(s)@ == old(s)@.push(c),
{
    s.push(c);
}

/// The string of the characters `v[a..b]`.
pub fn string_of(v: &Vec<char>, a: usize, b: usize) -> (r: String)
    requires
        a <= b <= v@.len(),
    ensures
        r@ == v@.subrange(a as int, b as int),
{
    let mut r = String::new();
    let mut i: usize = a;
    while i < b
        invariant
            a <= i <= b <= v@.len(),
            r@ == v@.subrange(a as int, i as int),
        decreases b - i,
    {
        push_char(&mut r, v[i]);
        i = i + 1;
        assert(r@ =~= v@.subrange(a as int, i as int));
    }
    r
}

/// Appends a string slice.
pub fn append_str(s: &mut String, t: &str)
    ensures
        final(s)@ == old(s)@ + t@,
{
    s.append(t);
}

/// The digit character of `d`, which is below 16.
pub fn hex_digit(d: u64, upper: bool) -> (c: char)
    requires
        d < 16,
    ensures
        c == hex_char(d as int, upper),
{
    let b = d as u8;
    if b < 10 {
        (b + 48) as char
    } else if upper {
        (b + 55) as char
    } else {
        (b + 87) as char
    }
}

/// Decimal numeral of `n`.
pub fn decimal(n: u64) -> (r: String)
    ensures
        r@ == dec(n as nat),
    decreases n,
{
    if n < 10 {
        let mut r = String::new();
        push_char(&mut r, hex_digit(n, false));
        assert(r@ =~= dec(n as nat));
        r
    } else {
        let mut r = decimal(n / 10);
        push_char(&mut r, hex_digit(n % 10, false));
        r
    }
}

/// The last `k` hexadecimal digits of `n`, zero-padded.
pub fn hex_padded(n: u64, k: u64, upper: bool) -> (r: String)
    ensures
        r@ == hex_pad(n as nat, k as nat, upper),
    decreases k,
{
    if k == 0 {
        String::new()
    } else {
        let mut r = hex_padded(n / 16, k - 1, upper);
        push_char(&mut r, hex_digit(n % 16, upper));
        r
    }
}

/// The chars of `v[a..b]` without leading or trailing whitespace, as the
/// range `(s, e)` that remains.
pub fn trim_range(v: &Vec<char>, a: usize, b: usize) -> (r: (usize, usize))
    requires
        a <= b <= v@.len(),
    ensures
        a <= r.0 <= r.1 <= b,
        v@.subrange(r.0 as int, r.1 as int) == trim(v@.subrange(a as int, b as int)),
{
    let mut s: usize = a;
    while s < b && is_whitespace(v[s])
        invariant
            a <= s <= b <= v@.len(),
            trim_start(v@.subrange(a as int, b as int)) == trim_start(v@.subrange(s as int, b as int)),
        decreases b - s,
    {
        assert(v@.subrange(s as int, b as int).drop_first() =~= v@.subrange(s + 1, b as int));
        s = s + 1;
    }
    let ghost ts = v@.subrange(s as int, b as int);
    assert(trim_start(ts) == ts);
    let mut e: usize = b;
    while e > s && is_whitespace(v[e - 1])
        invariant
            a <= s <= e <= b <= v@.len(),
            trim_end(ts) == trim_end(v@.subrange(s as int, e as int)),
        decreases e,
    {
        assert(v@.subrange(s as int, e as int).drop_last() =~= v@.subrange(s as int, e - 1));
        e = e - 1;
    }
    (s, e)
}

/// Index of the first `c` in `v` at or after `i`, or `v.len()`.
pub fn find_char(v: &Vec<char>, c: char, i: usize) -> (r: usize)
    requires
        i <= v@.len(),
    ensures
        r == find_from(v@, c, i as int),
{
    let mut j: usize = i;
    while j < v.len() && v[j] != c
        invariant
            i <= j <= v@.len(),
            find_from(v@, c, i as int) == find_from(v@, c, j as int),
        decreases v@.len() - j,
    {
        j = j + 1;
    }
    j
}

/// The views of a sequence of character vectors.
pub open spec fn char_views(v: Seq<Vec<char>>) -> Seq<Seq<char>> {
    v.map_values(|x: Vec<char>| x@)
}

/// Copies `v[a..b]`.
pub fn slice_chars(v: &Vec<char>, a: usize, b: usize) -> (r: Vec<char>)
    requires
        a <= b <= v@.len(),
    ensures
        r@ == v@.subrange(a as int, b as int),
{
    let mut r: Vec<char> = Vec::new();
    let mut i: usize = a;
    while i < b
        invariant
            a <= i <= b <= v@.len(),
            r@ == v@.subrange(a as int, i as int),
        decreases b - i,
    {
        r.push(v[i]);
        i = i + 1;
        assert(r@ =~= v@.subrange(a as int, i as int));
    }
    r
}

/// The lines of `v`.
pub fn split_lines(v: &Vec<char>) -> (r: Vec<Vec<char>>)
    ensures
        char_views(r@) == lines(v@),
{
    let mut r: Vec<Vec<char>> = Vec::new();
    let n = v.len();
    let mut i: usize = 0;
    while i < n
        invariant
            n == v@.len(),
            i <= n,
            char_views(r@) + lines_from(v@, i as int) == lines(v@),
        decreases n - i,
    {
        let e = find_char(v, '\n', i);
        proof {
            lemma_find_from(v@, '\n', i as int);
        }
        let mut stop = e;
        if e < n && e > i && v[e - 1] == '\r' {
            stop = e - 1;
        }
        let line = slice_chars(v, i, stop);
        let ghost before = char_views(r@);
        proof {
            let raw = v@.subrange(i as int, e as int);
            if e < n && e > i && v@[e - 1] == '\r' {
                assert(raw.drop_last() =~= line@);
            } else {
                assert(raw =~= line@);
            }
            assert(lines_from(v@, i as int) == seq![line@] + lines_from(v@, e + 1));
        }
        r.push(line);
        assert(char_views(r@) =~= before.push(line@));
        i = if e < n { e + 1 } else { n };
        assert(lines_from(v@, i as int) == lines_from(v@, e + 1));
        assert(char_views(r@) + lines_from(v@, i as int) =~= before + (seq![line@] + lines_from(v@, e + 1)));
    }
    assert(char_views(r@) =~= char_views(r@) + lines_from(v@, i as int));
    r
}

/// The words of `v`.
pub fn split_words(v: &Vec<char>) -> (r: Vec<Vec<char>>)
    ensures
        char_views(r@) == words(v@),
{
    let mut r: Vec<Vec<char>> = Vec::new();
    let n = v.len();
    let mut i: usize = 0;
    while i < n
        invariant
            n == v@.len(),
            i <= n,
            char_views(r@) + words_from(v@, i as int) == words(v@),
        decreases n - i,
    {
        let ghost i0 = i as int;
        let ghost before = char_views(r@);
        let mut b = i;
        while b < n && is_whitespace(v[b])
            invariant
                i0 <= b <= n,
                n == v@.len(),
                skip_class(v@, i0, true) == skip_class(v@, b as int, true),
            decreases n - b,
        {
            b = b + 1;
        }
        if b == n {
            i = n;
            assert(words_from(v@, i0) == Seq::<Seq<char>>::empty());
            assert(words_from(v@, n as int) == Seq::<Seq<char>>::empty());
            assert(char_views(r@) =~= char_views(r@) + words_from(v@, i as int));
        } else {
            let mut e = b;
            while e < n && !is_whitespace(v[e])
                invariant
                    b <= e <= n,
                    n == v@.len(),
                    skip_class(v@, b as int, false) == skip_class(v@, e as int, false),
                decreases n - e,
            {
                e = e + 1;
            }
            let w = slice_chars(v, b, e);
            assert(words_from(v@, i0) == seq![w@] + words_from(v@, e as int));
            r.push(w);
            assert(char_views(r@) =~= before.push(w@));
            proof {
                lemma_skip_class(v@, b as int, false);
            }
            i = e;
            assert(char_views(r@) + words_from(v@, i as int) =~= before + words_from(v@, i0));
        }
    }
    assert(words_from(v@, n as int) == Seq::<Seq<char>>::empty());
    assert(char_views(r@) =~= char_views(r@) + words_from(v@, i as int));
    r
}

/// ASCII lowercase of a character; other characters are kept.
pub open spec fn ascii_lower(c: char) -> char {
    if 'A' <= c && c <= 'Z' {
        ((c as u32 + 32) as u8) as char
    } else {
        c
    }
}

/// Equality up to ASCII case.
pub open spec fn eq_ignore_case(a: Seq<char>, b: Seq<char>) -> bool {
    a.len() == b.len() && forall|i: int| 0 <= i < a.len() ==> ascii_lower(#[trigger] a[i]) == ascii_lower(b[i])
}

/// The ASCII lowercase of a character.
pub fn to_ascii_lower(c: char) -> (r: char)
    ensures
        r == ascii_lower(c),
{
    if 'A' <= c && c <= 'Z' {
        ((c as u32 + 32) as u8) as char
    } else {
        c
    }
}

/// Whether `a` and `b` are equal up to ASCII case.
pub fn chars_eq_ignore_case(a: &Vec<char>, b: &Vec<char>) -> (r: bool)
    ensures
        r == eq_ignore_case(a@, b@),
{
    if a.len() != b.len() {
        return false;
    }
    let mut i: usize = 0;
    while i < a.len()
        invariant
            a@.len() == b@.len(),
            i <= a@.len(),
            forall|j: int| 0 <= j < i ==> ascii_lower(#[trigger] a@[j]) == ascii_lower(b@[j]),
        decreases a@.len() - i,
    {
        if to_ascii_lower(a[i]) != to_ascii_lower(b[i]) {
            return false;
        }
        i = i + 1;
    }
    true
}

/// `needle` occurs in `hay` at offset `i`.
pub open spec fn occurs_at(hay: Seq<char>, needle: Seq<char>, i: int) -> bool {
    0 <= i && i + needle.len() <= hay.len() && hay.subrange(i, i + needle.len()) == needle
}

/// `needle` occurs somewhere in `hay`.
pub open spec fn contains(hay: Seq<char>, needle: Seq<char>) -> bool {
    exists|i: int| occurs_at(hay, needle, i)
}

/// Whether `needle` occurs in `hay` at offset `i`.
pub fn matches_at(hay: &Vec<char>, needle: &Vec<char>, i: usize) -> (r: bool)
    ensures
        r == occurs_at(hay@, needle@, i as int),
{
    let hl = hay.len();
    if i > hl || needle.len() > hl - i {
        return false;
    }
    let mut j: usize = 0;
    while j < needle.len()
        invariant
            hl == hay@.len(),
            i + needle@.len() <= hay@.len(),
            j <= needle@.len(),
            forall|k: int| 0 <= k < j ==> hay@[i + k] == #[trigger] needle@[k],
        decreases needle@.len() - j,
    {
        if hay[i + j] != needle[j] {
            assert(hay@.subrange(i as int, i + needle@.len())[j as int] != needle@[j as int]);
            return false;
        }
        j = j + 1;
    }
    assert(hay@.subrange(i as int, i + needle@.len()) =~= needle@);
    true
}

/// Whether `needle` occurs in `hay`.
pub fn contains_chars(hay: &Vec<char>, needle: &Vec<char>) -> (r: bool)
    ensures
        r == contains(hay@, needle@),
{
    let n = hay.len();
    let mut i: usize = 0;
    loop
        invariant
            n == hay@.len(),
            i <= n,
            forall|k: int| 0 <= k < i ==> !occurs_at(hay@, needle@, k),
        ensures
            forall|k: int| 0 <= k <= n ==> !occurs_at(hay@, needle@, k),
        decreases n - i,
    {
        if matches_at(hay, needle, i) {
            return true;
        }
        if i == n {
            break;
        }
        i = i + 1;
    }
    assert forall|k: int| !occurs_at(hay@, needle@, k) by {
        if 0 <= k <= i {
        }
    }
    false
}

/// Numeric value of a string of decimal digits.
pub open spec fn digits_value(s: Seq<char>) -> nat
    decreases s.len(),
{
    if s.len() == 0 {
        0
    } else {
        digits_value(s.drop_last()) * 10 + (s.last() as nat - 48) as nat
    }
}

/// A decimal digit.
pub open spec fn is_digit(c: char) -> bool {
    '0' <= c && c <= '9'
}

/// `s` without one leading `+`.
pub open spec fn unsigned_part(s: Seq<char>) -> Seq<char> {
    if s.len() > 0 && s[0] == '+' {
        s.drop_first()
    } else {
        s
    }
}

/// Every character of `d` is a decimal digit.
pub open spec fn all_digits(d: Seq<char>) -> bool {
    forall|i: int| 0 <= i < d.len() ==> is_digit(#[trigger] d[i])
}

/// A decimal `u16` as `str::parse` reads it: an optional `+`, then one or
/// more digits, of value at most 65535.
pub open spec fn parse_u16_spec(s: Seq<char>) -> Option<u16> {
    let d = unsigned_part(s);
    if d.len() > 0 && all_digits(d) && digits_value(d) <= 65535 {
        Some(digits_value(d) as u16)
    } else {
        None
    }
}

/// Reads `v[a..b]` as a decimal `u16`.
pub fn parse_u16(v: &Vec<char>, a: usize, b: usize) -> (r: Option<u16>)
    requires
        a <= b <= v@.len(),
    ensures
        r == parse_u16_spec(v@.subrange(a as int, b as int)),
{
    let ghost s = v@.subrange(a as int, b as int);
    let mut start = a;
    if a < b && v[a] == '+' {
        start = a + 1;
    }
    let ghost d = v@.subrange(start as int, b as int);
    assert(d =~= unsigned_part(s));
    if start == b {
        return None;
    }
    let mut acc: u32 = 0;
    let mut i: usize = start;
    while i < b
        invariant
            start <= i <= b <= v@.len(),
            d == v@.subrange(start as int, b as int),
            s == v@.subrange(a as int, b as int),
            d == unsigned_part(s),
            forall|k: int| start <= k < i ==> is_digit(#[trigger] v@[k]),
            acc as int == if digits_value(v@.subrange(start as int, i as int)) > 65536 { 65536 } else {
                digits_value(v@.subrange(start as int, i as int)) as int
            },
        decreases b - i,
    {
        let c = v[i];
        if !('0' <= c && c <= '9') {
            assert(!is_digit(d[i - start]));
            assert(parse_u16_spec(s) is None);
            return None;
        }
        let dv = (c as u32) - 48;
        assert(v@.subrange(start as int, i + 1).drop_last() =~= v@.subrange(start as int, i as int));
        acc = acc * 10 + dv;
        if acc > 65536 {
            acc = 65536;
        }
        i = i + 1;
    }
    assert(v@.subrange(start as int, b as int) =~= d);
    assert forall|k: int| 0 <= k < d.len() implies is_digit(#[trigger] d[k]) by {
        assert(d[k] == v@[start + k]);
    }
    if acc > 65535 {
        None
    } else {
        Some(acc as u16)
    }
}

/// The pieces of `s` from offset `i` between occurrences of `c`; there is
/// always at least one, possibly empty.
pub open spec fn split_from(s: Seq<char>, c: char, i: int) -> Seq<Seq<char>>
    decreases s.len() + 1 - i via split_from_decreases
{
    if i < 0 || i > s.len() {
        Seq::empty()
    } else {
        let e = find_from(s, c, i);
        if e < s.len() {
            seq![s.subrange(i, e)] + split_from(s, c, e + 1)
        } else {
            seq![s.subrange(i, s.len() as int)]
        }
    }
}

#[via_fn]
proof fn split_from_decreases(s: Seq<char>, c: char, i: int) {
    if 0 <= i <= s.len() {
        lemma_find_from(s, c, i);
    }
}

/// The pieces of `s` between occurrences of `c`, as `str::split` gives.
pub open spec fn split_on(s: Seq<char>, c: char) -> Seq<Seq<char>> {
    split_from(s, c, 0)
}

/// The pieces of `v` between occurrences of `c`.
pub fn split_chars(v: &Vec<char>, c: char) -> (r: Vec<Vec<char>>)
    ensures
        char_views(r@) == split_on(v@, c),
{
    let mut r: Vec<Vec<char>> = Vec::new();
    let n = v.len();
    let mut i: usize = 0;
    loop
        invariant
            n == v@.len(),
            i <= n,
            char_views(r@) + split_from(v@, c, i as int) == split_on(v@, c),
        decreases n - i,
    {
        let ghost old_i = i as int;
        let e = find_char(v, c, i);
        proof {
            lemma_find_from(v@, c, i as int);
        }
        let piece = slice_chars(v, i, e);
        let ghost before = char_views(r@);
        r.push(piece);
        assert(char_views(r@) =~= before.push(piece@));
        if e == n {
            assert(split_from(v@, c, i as int) == seq![piece@]);
            assert(char_views(r@) =~= before + split_from(v@, c, i as int));
            return r;
        }
        assert(split_from(v@, c, i as int) == seq![piece@] + split_from(v@, c, e + 1));
        i = e + 1;
        assert(char_views(r@) + split_from(v@, c, i as int) =~= before + split_from(v@, c, old_i));
    }
}

/// `pre` is a prefix of `s`.
pub open spec fn has_prefix(s: Seq<char>, pre: Seq<char>) -> bool {
    pre.len() <= s.len() && s.subrange(0, pre.len() as int) == pre
}

/// `16^k`.
pub open spec fn pow16(k: nat) -> nat
    decreases k,
{
    if k == 0 {
        1
    } else {
        16 * pow16((k - 1) as nat)
    }
}

/// Different numbers below `16^k` have different `k`-digit numerals.
pub proof fn lemma_hex_pad_injective(a: nat, b: nat, k: nat, upper: bool)
    requires
        a < pow16(k),
        b < pow16(k),
        hex_pad(a, k, upper) == hex_pad(b, k, upper),
    ensures
        a == b,
    decreases k,
{
    if k == 0 {
    } else {
        let pa = hex_pad(a / 16, (k - 1) as nat, upper);
        let pb = hex_pad(b / 16, (k - 1) as nat, upper);
        assert(hex_pad(a, k, upper).drop_last() == pa);
        assert(hex_pad(b, k, upper).drop_last() == pb);
        assert(hex_pad(a, k, upper).last() == hex_char((a % 16) as int, upper));
        assert(hex_pad(b, k, upper).last() == hex_char((b % 16) as int, upper));
        let p = pow16((k - 1) as nat);
        assert(a / 16 < p) by (nonlinear_arith)
            requires
                a < 16 * p,
        ;
        assert(b / 16 < p) by (nonlinear_arith)
            requires
                b < 16 * p,
        ;
        lemma_hex_pad_injective(a / 16, b / 16, (k - 1) as nat, upper);
        assert(a % 16 == b % 16);
        assert(a == 16 * (a / 16) + a % 16) by (nonlinear_arith);
        assert(b == 16 * (b / 16) + b % 16) by (nonlinear_arith);
    }
}

/// Whether `a` and `b` hold the same characters.
pub fn chars_equal(a: &Vec<char>, b: &Vec<char>) -> (r: bool)
    ensures
        r == (a@ == b@),
{
    if a.len() != b.len() {
        return false;
    }
    let mut i: usize = 0;
    while i < a.len()
        invariant
            a@.len() == b@.len(),
            i <= a@.len(),
            forall|j: int| 0 <= j < i ==> a@[j] == b@[j],
        decreases a@.len() - i,
    {
        if a[i] != b[i] {
            return false;
        }
        i = i + 1;
    }
    assert(a@ =~= b@);
    true
}

} // verus!

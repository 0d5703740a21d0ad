//! Character-level string helpers shared by the lexer, the template engine and
//! the error reporting code.  Strings are reasoned about through their view as
//! a sequence of Unicode scalar values (`Seq<char>`).

use vstd::prelude::*;
use vstd::std_specs::iter::IteratorSpec;

verus! {

broadcast use vstd::string::group_string_axioms;

/// `String::push` appends one character.
pub assume_specification[ std::string::String::push ](s: &mut std::string::String, ch: char)
    ensures
        final(s)@ == old(s)@.push(ch),
;

/// The characters of a string slice, in order.
pub fn chars_of(s: &str) -> (v: Vec<char>)
    ensures
        v@ == s@,
{
    let mut v: Vec<char> = Vec::new();
    let mut it = s.chars();
    loop
        invariant
            it.obeys_prophetic_iter_laws(),
            v@ + it.remaining() == s@,
            it.decrease() is Some,
        decreases it.decrease()->0,
    {
        let ghost before = it.remaining();
        match it.next() {
            Some(c) => {
                v.push(c);
                assert(v@ + it.remaining() == s@) by {
                    assert(before == seq![c] + it.remaining());
                }
            },
            None => {
                assert(it.remaining().len() == 0);
                assert(v@ == s@);
                return v;
            },
        }
    }
}

/// Builds an owned string from a sequence of characters.
pub fn string_from(cs: &[char]) -> (s: String)
    ensures
        s@ == cs@,
{
    let mut s = String::new();
    let mut i: usize = 0;
    while i < cs.len()
        invariant
            i <= cs@.len(),
            s@ == cs@.subrange(0, i as int),
        decreases cs@.len() - i,
    {
        s.push(cs[i]);
        assert(cs@.subrange(0, i as int).push(cs@[i as int]) == cs@.subrange(0, i + 1));
        i = i + 1;
    }
    assert(cs@.subrange(0, cs@.len() as int) == cs@);
    s
}


/// Whether a character has the Unicode `White_Space` property, which is what
/// `char::is_whitespace` tests: tab through carriage return, space, next
/// line, no-break space, ogham space mark, the spaces from en quad to hair
/// space, line and paragraph separators, narrow no-break space, medium
/// mathematical space and ideographic space.
pub open spec fn char_is_whitespace(c: char) -> bool {
    ||| '\u{9}' <= c && c <= '\u{d}'
    ||| c == ' '
    ||| c == '\u{85}'
    ||| c == '\u{a0}'
    ||| c == '\u{1680}'
    ||| '\u{2000}' <= c && c <= '\u{200a}'
    ||| c == '\u{2028}'
    ||| c == '\u{2029}'
    ||| c == '\u{202f}'
    ||| c == '\u{205f}'
    ||| c == '\u{3000}'
}

/// Whether `char::is_alphanumeric` holds of a character (Unicode `Alphabetic`
/// or `Numeric`).
pub uninterp spec fn char_is_alphanumeric(c: char) -> bool;

/// What `str::to_lowercase` returns for a string.
pub uninterp spec fn lowercase(s: Seq<char>) -> Seq<char>;

/// Whether every character of `s` is ASCII.
pub open spec fn all_ascii(s: Seq<char>) -> bool {
    forall|i: int| 0 <= i < s.len() ==> s[i] < '\u{80}'
}

/// The ASCII lower-case form of a character: `A` to `Z` become `a` to `z`.
pub open spec fn ascii_lower(c: char) -> char {
    if 'A' <= c && c <= 'Z' {
        ((c as int) + 32) as char
    } else {
        c
    }
}

/// The ASCII upper-case form of a character: `a` to `z` become `A` to `Z`.
pub open spec fn ascii_upper(c: char) -> char {
    if 'a' <= c && c <= 'z' {
        ((c as int) - 32) as char
    } else {
        c
    }
}

/// The lower-case form of a text: letter by letter where it is ASCII, and
/// what `str::to_lowercase` gives otherwise.
pub open spec fn lower_text(s: Seq<char>) -> Seq<char> {
    if all_ascii(s) {
        s.map_values(|c: char| ascii_lower(c))
    } else {
        lowercase(s)
    }
}

/// Whether a character has the `White_Space` property, as
/// `char::is_whitespace` tests it.
pub fn is_whitespace(c: char) -> (b: bool)
    ensures
        b == char_is_whitespace(c),
{
    ('\u{9}' <= c && c <= '\u{d}') || c == ' ' || c == '\u{85}' || c == '\u{a0}' || c == '\u{1680}' || (
    '\u{2000}' <= c && c <= '\u{200a}') || c == '\u{2028}' || c == '\u{2029}' || c == '\u{202f}' || c
        == '\u{205f}' || c == '\u{3000}'
}

/// Whether an ASCII character is a letter or a digit.
pub open spec fn ascii_alphanumeric(c: char) -> bool {
    ('a' <= c && c <= 'z') || ('A' <= c && c <= 'Z') || ('0' <= c && c <= '9')
}

/// Whether a character is alphabetic or numeric: among ASCII characters
/// the letters and digits, beyond them what `char::is_alphanumeric` says.
pub open spec fn alphanumeric(c: char) -> bool {
    if '\u{80}' <= c {
        char_is_alphanumeric(c)
    } else {
        ascii_alphanumeric(c)
    }
}

/// Calls `char::is_alphanumeric`; the result is named `char_is_alphanumeric`.
/// Among ASCII characters exactly the letters and digits are alphabetic or
/// numeric.
#[verifier::external_body]
pub fn is_alphanumeric(c: char) -> (b: bool)
    ensures
        b == char_is_alphanumeric(c),
        !('\u{80}' <= c) ==> (b <==> ascii_alphanumeric(c)),
{
    c.is_alphanumeric()
}

/// Calls `str::to_lowercase`; the result is named `lowercase`, and on an
/// ASCII text it maps each letter to its ASCII lower case and keeps the rest
/// (the Unicode lower-case mapping of those characters).
#[verifier::external_body]
pub fn to_lowercase(s: &str) -> (r: String)
    ensures
        r@ == lowercase(s@),
        all_ascii(s@) ==> r@ == s@.map_values(|c: char| ascii_lower(c)),
{
    s.to_lowercase()
}

/// Whether a sequence of characters spells out a given string.
pub fn chars_eq_str(v: &[char], lit: &str) -> (b: bool)
    ensures
        b == (v@ == lit@),
{
    let n = lit.unicode_len();
    if v.len() != n {
        return false;
    }
    let mut i: usize = 0;
    while i < n
        invariant
            n == lit@.len(),
            v@.len() == n,
            i <= n,
            forall|k: int| 0 <= k < i ==> v@[k] == lit@[k],
        decreases n - i,
    {
        if v[i] != lit.get_char(i) {
            return false;
        }
        i = i + 1;
    }
    assert(v@ =~= lit@);
    true
}

/// Number of bytes that UTF-8 uses to encode a character.
pub open spec fn utf8_width(c: char) -> nat {
    if (c as u32) < 0x80 {
        1
    } else if (c as u32) < 0x800 {
        2
    } else if (c as u32) < 0x10000 {
        3
    } else {
        4
    }
}

/// Byte offset, in the UTF-8 encoding, of the character at index `p`.
pub open spec fn byte_offset(s: Seq<char>, p: int) -> nat
    decreases p,
{
    if p <= 0 || s.len() == 0 {
        0
    } else if p > s.len() {
        byte_offset(s, s.len() as int)
    } else {
        byte_offset(s, p - 1) + utf8_width(s[p - 1])
    }
}

proof fn lemma_byte_offset_bound(s: Seq<char>, p: int)
    requires
        0 <= p <= s.len(),
    ensures
        byte_offset(s, p) <= 4 * p,
    decreases p,
{
    if p > 0 && s.len() > 0 {
        lemma_byte_offset_bound(s, p - 1);
    }
}

/// Byte offset of character index `p`, as `str::char_indices` reports it.
pub fn byte_offset_of(cs: &[char], p: usize) -> (r: usize)
    requires
        p <= cs@.len(),
        cs@.len() <= usize::MAX / 4,
    ensures
        r == byte_offset(cs@, p as int),
{
    let mut i: usize = 0;
    let mut acc: usize = 0;
    while i < p
        invariant
            i <= p,
            p <= cs@.len(),
            cs@.len() <= usize::MAX / 4,
            acc == byte_offset(cs@, i as int),
        decreases p - i,
    {
        proof {
            lemma_byte_offset_bound(cs@, i + 1);
        }
        let c = cs[i];
        let w: usize = if (c as u32) < 0x80 {
            1
        } else if (c as u32) < 0x800 {
            2
        } else if (c as u32) < 0x10000 {
            3
        } else {
            4
        };
        acc = acc + w;
        i = i + 1;
    }
    acc
}


/// The decimal digit character for `d < 10`.
pub open spec fn digit_char(d: nat) -> char {
    if d == 0 {
        '0'
    } else if d == 1 {
        '1'
    } else if d == 2 {
        '2'
    } else if d == 3 {
        '3'
    } else if d == 4 {
        '4'
    } else if d == 5 {
        '5'
    } else if d == 6 {
        '6'
    } else if d == 7 {
        '7'
    } else if d == 8 {
        '8'
    } else {
        '9'
    }
}

/// Decimal notation of a natural number, without leading zeros.
pub open spec fn decimal(n: nat) -> Seq<char>
    decreases n,
{
    if n < 10 {
        seq![digit_char(n)]
    } else {
        decimal(n / 10).push(digit_char(n % 10))
    }
}

fn digit_of(d: usize) -> (c: char)
    requires
        d < 10,
    ensures
        c == digit_char(d as nat),
{
    if d == 0 {
        '0'
    } else if d == 1 {
        '1'
    } else if d == 2 {
        '2'
    } else if d == 3 {
        '3'
    } else if d == 4 {
        '4'
    } else if d == 5 {
        '5'
    } else if d == 6 {
        '6'
    } else if d == 7 {
        '7'
    } else if d == 8 {
        '8'
    } else {
        '9'
    }
}

/// Decimal notation of a 64-bit number, as `{}` formats it.
pub fn u64_to_decimal(n: u64) -> (s: String)
    ensures
        s@ == decimal(n as nat),
    decreases n,
{
    if n < 10 {
        let mut s = String::new();
        s.push(digit_of(n as usize));
        s
    } else {
        let mut s = u64_to_decimal(n / 10);
        s.push(digit_of((n % 10) as usize));
        s
    }
}

/// Decimal notation of a number, as `{}` formats it.
pub fn usize_to_decimal(n: usize) -> (s: String)
    ensures
        s@ == decimal(n as nat),
    decreases n,
{
    if n < 10 {
        let mut s = String::new();
        s.push(digit_of(n));
        s
    } else {
        let mut s = usize_to_decimal(n / 10);
        s.push(digit_of(n % 10));
        s
    }
}


/// Index of the first non-whitespace character at or after `i`.
pub open spec fn ws_forward(s: Seq<char>, i: int) -> int
    decreases s.len() - i,
{
    if 0 <= i < s.len() && char_is_whitespace(s[i]) {
        ws_forward(s, i + 1)
    } else {
        i
    }
}

/// One past the last non-whitespace character before index `j`.
pub open spec fn ws_backward(s: Seq<char>, j: int) -> int
    decreases j,
{
    if 0 < j <= s.len() && char_is_whitespace(s[j - 1]) {
        ws_backward(s, j - 1)
    } else {
        j
    }
}

/// `s` without leading and trailing whitespace, as `str::trim` returns it.
pub open spec fn trim(s: Seq<char>) -> Seq<char> {
    let a = ws_forward(s, 0);
    let b = ws_backward(s, s.len() as int);
    if a < b {
        s.subrange(a, b)
    } else {
        Seq::empty()
    }
}

proof fn lemma_ws_forward_range(s: Seq<char>, i: int)
    requires
        0 <= i <= s.len(),
    ensures
        i <= ws_forward(s, i) <= s.len(),
    decreases s.len() - i,
{
    if i < s.len() && char_is_whitespace(s[i]) {
        lemma_ws_forward_range(s, i + 1);
    }
}

proof fn lemma_ws_backward_range(s: Seq<char>, j: int)
    requires
        0 <= j <= s.len(),
    ensures
        0 <= ws_backward(s, j) <= j,
    decreases j,
{
    if 0 < j && char_is_whitespace(s[j - 1]) {
        lemma_ws_backward_range(s, j - 1);
    }
}

proof fn lemma_ws_forward_stops(s: Seq<char>, i: int)
    requires
        0 <= i,
    ensures
        ws_forward(s, i) < s.len() ==> !char_is_whitespace(s[ws_forward(s, i)]),
    decreases s.len() - i,
{
    if i < s.len() && char_is_whitespace(s[i]) {
        lemma_ws_forward_stops(s, i + 1);
    }
}

proof fn lemma_ws_backward_stops(s: Seq<char>, j: int)
    requires
        j <= s.len(),
    ensures
        ws_backward(s, j) > 0 ==> !char_is_whitespace(s[ws_backward(s, j) - 1]),
    decreases j,
{
    if 0 < j && char_is_whitespace(s[j - 1]) {
        lemma_ws_backward_stops(s, j - 1);
    }
}

/// Trimming keeps out any character that the text does not hold.
pub proof fn lemma_trim_keeps_out(s: Seq<char>, c: char)
    requires
        !s.contains(c),
    ensures
        !trim(s).contains(c),
{
    lemma_ws_forward_range(s, 0);
    lemma_ws_backward_range(s, s.len() as int);
    let t = trim(s);
    if t.contains(c) {
        let i = choose|i: int| 0 <= i < t.len() && t[i] == c;
        assert(t[i] == s[ws_forward(s, 0) + i]);
    }
}

/// Trimming a trimmed text changes nothing.
pub proof fn lemma_trim_idempotent(s: Seq<char>)
    ensures
        trim(trim(s)) == trim(s),
{
    let a = ws_forward(s, 0);
    let b = ws_backward(s, s.len() as int);
    lemma_ws_forward_range(s, 0);
    lemma_ws_backward_range(s, s.len() as int);
    lemma_ws_forward_stops(s, 0);
    lemma_ws_backward_stops(s, s.len() as int);
    let t = trim(s);
    if a < b {
        assert(t[0] == s[a]);
        assert(t[t.len() - 1] == s[b - 1]);
        assert(ws_forward(t, 0) == 0);
        assert(ws_backward(t, t.len() as int) == t.len());
        assert(t.subrange(0, t.len() as int) =~= t);
    } else {
        assert(t.len() == 0);
        assert(ws_forward(t, 0) == 0);
        assert(ws_backward(t, 0) == 0);
    }
}

/// `s@.subrange(from, to)` as a vector.
pub fn slice_chars(cs: &[char], from: usize, to: usize) -> (r: Vec<char>)
    requires
        from <= to <= cs@.len(),
    ensures
        r@ == cs@.subrange(from as int, to as int),
{
    let mut r: Vec<char> = Vec::new();
    let mut i = from;
    while i < to
        invariant
            from <= i <= to,
            to <= cs@.len(),
            r@ == cs@.subrange(from as int, i as int),
        decreases to - i,
    {
        r.push(cs[i]);
        assert(cs@.subrange(from as int, i as int).push(cs@[i as int]) == cs@.subrange(
            from as int,
            i + 1,
        ));
        i = i + 1;
    }
    r
}

/// The characters of `v` without leading and trailing whitespace.
pub fn trim_chars(v: &[char]) -> (r: Vec<char>)
    ensures
        r@ == trim(v@),
{
    let mut a: usize = 0;
    while a < v.len() && is_whitespace(v[a])
        invariant
            a <= v@.len(),
            ws_forward(v@, 0) == ws_forward(v@, a as int),
        decreases v@.len() - a,
    {
        a = a + 1;
    }
    let mut b: usize = v.len();
    while b > 0 && is_whitespace(v[b - 1])
        invariant
            b <= v@.len(),
            ws_backward(v@, v@.len() as int) == ws_backward(v@, b as int),
        decreases b,
    {
        b = b - 1;
    }
    if a < b {
        slice_chars(v, a, b)
    } else {
        Vec::new()
    }
}

/// `str::trim` on a string slice, returned as an owned string.
pub fn trim_str(s: &str) -> (r: String)
    ensures
        r@ == trim(s@),
{
    let cs = chars_of(s);
    let t = trim_chars(cs.as_slice());
    string_from(t.as_slice())
}


// ---------------------------------------------------------------------------
// Searching
// ---------------------------------------------------------------------------

/// `pat` occurs in `s` at index `i`.
pub open spec fn occurs_at(s: Seq<char>, pat: Seq<char>, i: int) -> bool {
    0 <= i && i + pat.len() <= s.len() && s.subrange(i, i + pat.len()) == pat
}

/// Index of the first occurrence of `pat` in `s` at or after `from`.
pub open spec fn find_from(s: Seq<char>, pat: Seq<char>, from: int) -> Option<int>
    decreases s.len() + 1 - from,
{
    if from < 0 || from + pat.len() > s.len() {
        None
    } else if occurs_at(s, pat, from) {
        Some(from)
    } else {
        find_from(s, pat, from + 1)
    }
}

/// Index of the first occurrence of `pat` in `s`, as `str::find` gives it
/// (counted in characters).
pub open spec fn find(s: Seq<char>, pat: Seq<char>) -> Option<int> {
    find_from(s, pat, 0)
}

/// The first occurrence of a one-character pattern is where that character
/// first stands.
pub proof fn lemma_find_char(s: Seq<char>, c: char, j: int)
    requires
        0 <= j <= s.len(),
        forall|k: int| 0 <= k < j ==> s[k] != c,
        j < s.len() ==> s[j] == c,
    ensures
        find(s, seq![c]) == if j < s.len() {
            Some(j)
        } else {
            None::<int>
        },
{
    lemma_find_char_from(s, c, j, 0);
}

proof fn lemma_find_char_from(s: Seq<char>, c: char, j: int, from: int)
    requires
        0 <= from <= j <= s.len(),
        forall|k: int| 0 <= k < j ==> s[k] != c,
        j < s.len() ==> s[j] == c,
    ensures
        find_from(s, seq![c], from) == if j < s.len() {
            Some(j)
        } else {
            None::<int>
        },
    decreases s.len() - from,
{
    if from < s.len() {
        if from < j {
            assert(s.subrange(from, from + 1) != seq![c]) by {
                assert(s.subrange(from, from + 1)[0] == s[from]);
            }
            lemma_find_char_from(s, c, j, from + 1);
        } else {
            assert(s.subrange(from, from + 1) =~= seq![c]);
        }
    }
}

/// A text made of a prefix and more starts with the prefix, and with no
/// text that differs from the prefix at some place within both.
pub proof fn lemma_starts_with_prefix(a: Seq<char>, t: Seq<char>, b: Seq<char>, k: int)
    ensures
        starts_with(a + t, a),
        0 <= k < a.len() && k < b.len() && a[k] != b[k] ==> !starts_with(a + t, b),
{
    assert((a + t).subrange(0, a.len() as int) =~= a);
    if 0 <= k < a.len() && k < b.len() && a[k] != b[k] && starts_with(a + t, b) {
        assert((a + t).subrange(0, b.len() as int)[k] == (a + t)[k]);
    }
}

pub open spec fn contains_seq(s: Seq<char>, pat: Seq<char>) -> bool {
    find(s, pat) is Some
}

pub open spec fn starts_with(s: Seq<char>, pat: Seq<char>) -> bool {
    pat.len() <= s.len() && s.subrange(0, pat.len() as int) == pat
}

pub open spec fn ends_with(s: Seq<char>, pat: Seq<char>) -> bool {
    pat.len() <= s.len() && s.subrange(s.len() - pat.len(), s.len() as int) == pat
}

pub proof fn lemma_find_from_range(s: Seq<char>, pat: Seq<char>, from: int)
    ensures
        find_from(s, pat, from) matches Some(i) ==> from <= i && occurs_at(s, pat, i),
    decreases s.len() + 1 - from,
{
    if !(from < 0 || from + pat.len() > s.len()) && !occurs_at(s, pat, from) {
        lemma_find_from_range(s, pat, from + 1);
    }
}

/// Whether `pat` occurs in `v` at index `i`.
pub fn occurs_at_exec(v: &[char], pat: &[char], i: usize) -> (b: bool)
    ensures
        b == occurs_at(v@, pat@, i as int),
{
    let n = v.len();
    if i > n || pat.len() > n - i {
        return false;
    }
    let mut k: usize = 0;
    while k < pat.len()
        invariant
            n == v@.len(),
            k <= pat@.len(),
            i <= v@.len(),
            i + pat@.len() <= v@.len(),
            forall|j: int| 0 <= j < k ==> v@[i + j] == pat@[j],
        decreases pat@.len() - k,
    {
        assert(i + k < v@.len());
        if v[i + k] != pat[k] {
            assert(v@.subrange(i as int, i + pat@.len())[k as int] != pat@[k as int]);
            return false;
        }
        k = k + 1;
    }
    assert(v@.subrange(i as int, i + pat@.len()) =~= pat@);
    true
}

/// First occurrence of `pat` in `v` at or after `from`.
pub fn find_from_exec(v: &[char], pat: &[char], from: usize) -> (r: Option<usize>)
    ensures
        match r {
            Some(i) => find_from(v@, pat@, from as int) == Some(i as int),
            None => find_from(v@, pat@, from as int) is None,
        },
{
    let mut i = from;
    loop
        invariant
            from <= i,
            find_from(v@, pat@, from as int) == find_from(v@, pat@, i as int),
        decreases v@.len() + 1 - i,
    {
        if i > v.len() || pat.len() > v.len() - i {
            return None;
        }
        if occurs_at_exec(v, pat, i) {
            return Some(i);
        }
        if i == v.len() {
            assert(find_from(v@, pat@, i + 1) is None);
            return None;
        }
        i = i + 1;
    }
}

/// First occurrence of `pat` in `v`.
pub fn find_exec(v: &[char], pat: &[char]) -> (r: Option<usize>)
    ensures
        match r {
            Some(i) => find(v@, pat@) == Some(i as int) && occurs_at(v@, pat@, i as int),
            None => find(v@, pat@) is None,
        },
{
    proof {
        lemma_find_from_range(v@, pat@, 0);
    }
    find_from_exec(v, pat, 0)
}

/// Whether `pat` occurs in `s`, as `str::contains` tells it.
pub fn str_contains(s: &str, pat: &str) -> (b: bool)
    ensures
        b == contains_seq(s@, pat@),
{
    let v = chars_of(s);
    let p = chars_of(pat);
    find_exec(v.as_slice(), p.as_slice()).is_some()
}

/// Whether `s` begins with `pat`.
pub fn str_starts_with(s: &str, pat: &str) -> (b: bool)
    ensures
        b == starts_with(s@, pat@),
{
    let v = chars_of(s);
    let p = chars_of(pat);
    let b = occurs_at_exec(v.as_slice(), p.as_slice(), 0);
    b
}

/// Whether `s` ends with `pat`.
pub fn str_ends_with(s: &str, pat: &str) -> (b: bool)
    ensures
        b == ends_with(s@, pat@),
{
    let v = chars_of(s);
    let p = chars_of(pat);
    if p.len() > v.len() {
        return false;
    }
    occurs_at_exec(v.as_slice(), p.as_slice(), v.len() - p.len())
}

// ---------------------------------------------------------------------------
// Lines
// ---------------------------------------------------------------------------

/// A line as `str::lines` yields it: a `\r` before the `\n` that ends it is
/// dropped.
pub open spec fn strip_cr(line: Seq<char>) -> Seq<char> {
    if line.len() > 0 && line.last() == '\r' {
        line.drop_last()
    } else {
        line
    }
}

/// The lines of `s`, as `str::lines` splits them: at each `\n` (dropping a
/// `\r` right before it); a final line ending adds no empty line.
pub open spec fn lines(s: Seq<char>) -> Seq<Seq<char>>
    decreases s.len(),
{
    if s.len() == 0 {
        Seq::empty()
    } else {
        match find(s, seq!['\n']) {
            Some(i) => {
                if 0 <= i < s.len() {
                    seq![strip_cr(s.subrange(0, i))] + lines(s.subrange(i + 1, s.len() as int))
                } else {
                    Seq::empty()
                }
            },
            None => seq![s],
        }
    }
}

/// `str::lines` on a string slice, as owned strings.
pub fn lines_of(s: &str) -> (r: Vec<String>)
    ensures
        r@.map_values(|l: String| l@) == lines(s@),
{
    let v = chars_of(s);
    let nl: Vec<char> = vec!['\n'];
    let mut out: Vec<String> = Vec::new();
    let mut pos: usize = 0;
    let ghost full = v@;
    assert(full.subrange(0, full.len() as int) == full);
    assert(out@.map_values(|l: String| l@) == Seq::<Seq<char>>::empty());
    assert(Seq::<Seq<char>>::empty() + lines(full) == lines(full));
    loop
        invariant
            full == v@,
            full == s@,
            nl@ == seq!['\n'],
            pos <= v@.len(),
            lines(full) == out@.map_values(|l: String| l@) + lines(full.subrange(pos as int, full.len() as int)),
        decreases v@.len() - pos,
    {
        if pos == v.len() {
            proof {
                assert(full.subrange(pos as int, full.len() as int) =~= Seq::<char>::empty());
                assert(out@.map_values(|l: String| l@) + Seq::<Seq<char>>::empty() == out@.map_values(
                    |l: String| l@,
                ));
            }
            return out;
        }
        let rest = slice_chars(v.as_slice(), pos, v.len());
        let ghost prev = out@.map_values(|l: String| l@);
        match find_exec(rest.as_slice(), nl.as_slice()) {
            Some(i) => {
                proof {
                    lemma_find_from_range(rest@, nl@, 0);
                }
                let mut end = i;
                if end > 0 && rest[end - 1] == '\r' {
                    end = end - 1;
                }
                let line = string_from(slice_chars(rest.as_slice(), 0, end).as_slice());
                proof {
                    let piece = rest@.subrange(0, i as int);
                    if i > 0 && piece.last() == '\r' {
                        assert(piece.drop_last() == rest@.subrange(0, end as int));
                    } else {
                        assert(piece == rest@.subrange(0, end as int));
                    }
                    assert(rest@.subrange(i + 1, rest@.len() as int) == full.subrange(
                        pos + i + 1,
                        full.len() as int,
                    ));
                }
                out.push(line);
                proof {
                    assert(out@.map_values(|l: String| l@) == prev.push(line@));
                    let tail = lines(full.subrange(pos + i + 1, full.len() as int));
                    assert(prev + (seq![line@] + tail) == prev.push(line@) + tail);
                }
                pos = pos + i + 1;
            },
            None => {
                let line = string_from(rest.as_slice());
                out.push(line);
                proof {
                    assert(out@.map_values(|l: String| l@) == prev.push(rest@));
                    assert(prev + seq![rest@] == prev.push(rest@));
                }
                return out;
            },
        }
    }
}

/// `s` repeated `n` times.
pub open spec fn repeat(s: Seq<char>, n: nat) -> Seq<char>
    decreases n,
{
    if n == 0 {
        Seq::empty()
    } else {
        repeat(s, (n - 1) as nat) + s
    }
}

/// `s` padded on the left with spaces to at least `width` characters, as the
/// `{:width}` format aligns a number.
pub open spec fn pad_left(s: Seq<char>, width: nat) -> Seq<char> {
    if s.len() >= width {
        s
    } else {
        repeat(seq![' '], (width - s.len()) as nat) + s
    }
}

/// A string of `n` spaces.
pub fn spaces(n: usize) -> (r: String)
    ensures
        r@ == repeat(seq![' '], n as nat),
{
    let mut r = String::new();
    let mut i: usize = 0;
    while i < n
        invariant
            i <= n,
            r@ == repeat(seq![' '], i as nat),
        decreases n - i,
    {
        r.push(' ');
        i = i + 1;
    }
    r
}

/// A number in decimal, right-aligned with spaces to `width` characters.
pub fn decimal_padded(n: usize, width: usize) -> (r: String)
    ensures
        r@ == pad_left(decimal(n as nat), width as nat),
{
    let d = usize_to_decimal(n);
    let len = d.as_str().unicode_len();
    if len >= width {
        d
    } else {
        let mut r = spaces(width - len);
        r.append(d.as_str());
        r
    }
}


// ---------------------------------------------------------------------------
// Splitting, joining, trimming a character
// ---------------------------------------------------------------------------

/// The pieces of `s` between the occurrences of `sep`, as `str::split` yields
/// them for a non-empty separator.
pub open spec fn split(s: Seq<char>, sep: Seq<char>) -> Seq<Seq<char>>
    decreases s.len(),
{
    if sep.len() == 0 {
        seq![s]
    } else {
        match find(s, sep) {
            Some(i) => {
                if 0 <= i && i + sep.len() <= s.len() {
                    seq![s.subrange(0, i)] + split(s.subrange(i + sep.len(), s.len() as int), sep)
                } else {
                    seq![s]
                }
            },
            None => seq![s],
        }
    }
}

/// `str::split` with a non-empty string separator, as owned strings.
pub fn split_str(s: &str, sep: &str) -> (r: Vec<String>)
    requires
        sep@.len() > 0,
    ensures
        r@.map_values(|p: String| p@) == split(s@, sep@),
{
    let v = chars_of(s);
    let p = chars_of(sep);
    let mut out: Vec<String> = Vec::new();
    let mut pos: usize = 0;
    let ghost full = v@;
    assert(full.subrange(0, full.len() as int) == full);
    assert(Seq::<Seq<char>>::empty() + split(full, sep@) == split(full, sep@));
    loop
        invariant
            full == v@,
            full == s@,
            p@ == sep@,
            sep@.len() > 0,
            pos <= v@.len(),
            split(full, sep@) == out@.map_values(|l: String| l@) + split(
                full.subrange(pos as int, full.len() as int),
                sep@,
            ),
        decreases v@.len() - pos,
    {
        let rest = slice_chars(v.as_slice(), pos, v.len());
        let ghost prev = out@.map_values(|l: String| l@);
        match find_exec(rest.as_slice(), p.as_slice()) {
            Some(i) => {
                let piece = string_from(slice_chars(rest.as_slice(), 0, i).as_slice());
                proof {
                    assert(rest@.subrange(i + sep@.len(), rest@.len() as int) == full.subrange(
                        pos + i + sep@.len(),
                        full.len() as int,
                    ));
                }
                out.push(piece);
                proof {
                    assert(out@.map_values(|l: String| l@) == prev.push(piece@));
                    let tail = split(full.subrange(pos + i + sep@.len(), full.len() as int), sep@);
                    assert(prev + (seq![piece@] + tail) == prev.push(piece@) + tail);
                }
                pos = pos + i + p.len();
            },
            None => {
                let piece = string_from(rest.as_slice());
                out.push(piece);
                proof {
                    assert(out@.map_values(|l: String| l@) == prev.push(rest@));
                    assert(prev + seq![rest@] == prev.push(rest@));
                }
                return out;
            },
        }
    }
}

/// The parts joined with `sep` between each two, as `[String]::join` does.
pub open spec fn join(parts: Seq<Seq<char>>, sep: Seq<char>) -> Seq<char>
    decreases parts.len(),
{
    if parts.len() == 0 {
        Seq::empty()
    } else if parts.len() == 1 {
        parts[0]
    } else {
        join(parts.drop_last(), sep) + sep + parts.last()
    }
}

/// `parts.join(sep)`.
pub fn join_strings(parts: &Vec<String>, sep: &str) -> (r: String)
    ensures
        r@ == join(parts@.map_values(|p: String| p@), sep@),
{
    let ghost views = parts@.map_values(|p: String| p@);
    let mut r = String::new();
    let mut i: usize = 0;
    while i < parts.len()
        invariant
            i <= parts@.len(),
            views == parts@.map_values(|p: String| p@),
            r@ == join(views.subrange(0, i as int), sep@),
        decreases parts@.len() - i,
    {
        proof {
            let pre = views.subrange(0, i + 1);
            assert(pre.drop_last() == views.subrange(0, i as int));
            assert(pre.last() == parts@[i as int]@);
        }
        if i > 0 {
            r.append(sep);
        }
        r.append(parts[i].as_str());
        i = i + 1;
    }
    assert(views.subrange(0, parts@.len() as int) == views);
    r
}

/// Index of the first character at or after `i` that is not `c`.
pub open spec fn skip_char_forward(s: Seq<char>, c: char, i: int) -> int
    decreases s.len() - i,
{
    if 0 <= i < s.len() && s[i] == c {
        skip_char_forward(s, c, i + 1)
    } else {
        i
    }
}

/// One past the last character before index `j` that is not `c`.
pub open spec fn skip_char_backward(s: Seq<char>, c: char, j: int) -> int
    decreases j,
{
    if 0 < j <= s.len() && s[j - 1] == c {
        skip_char_backward(s, c, j - 1)
    } else {
        j
    }
}

/// `s` with every leading and trailing `c` removed, as `str::trim_matches`
/// returns it for a character pattern.
pub open spec fn trim_matches(s: Seq<char>, c: char) -> Seq<char> {
    let a = skip_char_forward(s, c, 0);
    let b = skip_char_backward(s, c, s.len() as int);
    if a < b {
        s.subrange(a, b)
    } else {
        Seq::empty()
    }
}

/// `str::trim_matches` with a character pattern, as an owned string.
pub fn trim_matches_str(s: &str, c: char) -> (r: String)
    ensures
        r@ == trim_matches(s@, c),
{
    let v = chars_of(s);
    let mut a: usize = 0;
    while a < v.len() && v[a] == c
        invariant
            a <= v@.len(),
            skip_char_forward(v@, c, 0) == skip_char_forward(v@, c, a as int),
        decreases v@.len() - a,
    {
        a = a + 1;
    }
    let mut b: usize = v.len();
    while b > 0 && v[b - 1] == c
        invariant
            b <= v@.len(),
            skip_char_backward(v@, c, v@.len() as int) == skip_char_backward(v@, c, b as int),
        decreases b,
    {
        b = b - 1;
    }
    if a < b {
        string_from(slice_chars(v.as_slice(), a, b).as_slice())
    } else {
        String::new()
    }
}

} // verus!

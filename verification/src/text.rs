//! Text primitives: white space, trimming, splitting, and decimal or hexadecimal numbers.
//!
//! Contracts speak of strings as sequences of characters.
use vstd::prelude::*;
use vstd::utf8::*;

verus! {

/// `String::push`: appends one character to the end of the string.
pub assume_specification[ String::push ](s: &mut String, c: char)
    ensures
        final(s)@ == old(s)@.push(c),
;

/// `core::str::from_utf8`: the text whose UTF-8 encoding the bytes are, or `None` where the
/// bytes are not valid UTF-8.
#[verifier::external_body]
pub(crate) fn utf8_text(bytes: &[u8]) -> (text: Option<&str>)
    ensures
        text is Some <==> valid_utf8(bytes@),
        text matches Some(t) ==> t@ == decode_utf8(bytes@),
{
    core::str::from_utf8(bytes).ok()
}

/// What `String::from_utf8_lossy` makes of a byte string: the text in which each maximal invalid
/// stretch is replaced by U+FFFD.
pub uninterp spec fn lossy_utf8(bytes: Seq<u8>) -> Seq<char>;

/// `String::from_utf8_lossy`: decodes the bytes, replacing what is not UTF-8. Bytes that are
/// valid UTF-8 come out as the text they encode; what the replacement yields elsewhere is left
/// to the name.
#[verifier::external_body]
pub(crate) fn lossy_text(bytes: &[u8]) -> (text: String)
    ensures
        text@ == lossy_utf8(bytes@),
        valid_utf8(bytes@) ==> text@ == decode_utf8(bytes@),
{
    String::from_utf8_lossy(bytes).into_owned()
}

// ---------------------------------------------------------------------------
// Characters and comparison
// ---------------------------------------------------------------------------

/// The characters with the Unicode property `White_Space`.
pub open spec fn is_space(c: char) -> bool {
    let u = c as u32;
    ||| 9 <= u <= 13
    ||| u == 0x20
    ||| u == 0x85
    ||| u == 0xA0
    ||| u == 0x1680
    ||| 0x2000 <= u <= 0x200A
    ||| u == 0x2028
    ||| u == 0x2029
    ||| u == 0x202F
    ||| u == 0x205F
    ||| u == 0x3000
}

/// Whether the character is white space.
pub fn char_is_space(c: char) -> (r: bool)
    ensures
        r == is_space(c),
{
    let u: u32 = c as u32;
    (9 <= u && u <= 13) || u == 0x20 || u == 0x85 || u == 0xA0 || u == 0x1680 || (0x2000 <= u && u
        <= 0x200A) || u == 0x2028 || u == 0x2029 || u == 0x202F || u == 0x205F || u == 0x3000
}

/// The characters of a string.
pub fn chars_of(s: &str) -> (v: Vec<char>)
    ensures
        v@ == s@,
{
    let mut v: Vec<char> = Vec::new();
    for c in it: s.chars()
        invariant
            it.seq() == s@,
            v@ == s@.take(it.index() as int),
    {
        v.push(c);
        assert(s@.take(it.index() as int + 1) =~= s@.take(it.index() as int).push(c));
    }
    assert(s@.take(s@.len() as int) =~= s@);
    v
}

/// The string made of the given characters.
pub fn string_of(chars: &[char]) -> (s: String)
    ensures
        s@ == chars@,
{
    let mut s = String::new();
    for i in 0..chars.len()
        invariant
            s@ == chars@.take(i as int),
    {
        s.push(chars[i]);
        assert(chars@.take(i as int + 1) =~= chars@.take(i as int).push(chars@[i as int]));
    }
    assert(chars@.take(chars@.len() as int) =~= chars@);
    s
}

/// Whether two byte strings are equal.
pub fn bytes_eq(a: &[u8], b: &[u8]) -> (r: bool)
    ensures
        r == (a@ == b@),
{
    if a.len() != b.len() {
        return false;
    }
    for i in 0..a.len()
        invariant
            a.len() == b.len(),
            forall|j: int| 0 <= j < i ==> a@[j] == b@[j],
    {
        if a[i] != b[i] {
            assert(a@[i as int] != b@[i as int]);
            return false;
        }
    }
    assert(a@ =~= b@);
    true
}

/// Whether two strings are equal.
pub fn str_eq(a: &str, b: &str) -> (r: bool)
    ensures
        r == (a@ == b@),
{
    proof {
        encode_utf8_decode_utf8(a@);
        encode_utf8_decode_utf8(b@);
    }
    bytes_eq(a.as_bytes(), b.as_bytes())
}

// ---------------------------------------------------------------------------
// Trimming
// ---------------------------------------------------------------------------

/// The text without its leading white space.
pub open spec fn trim_start(s: Seq<char>) -> Seq<char>
    decreases s.len(),
{
    if s.len() > 0 && is_space(s[0]) {
        trim_start(s.drop_first())
    } else {
        s
    }
}

/// The text without its trailing white space.
pub open spec fn trim_end(s: Seq<char>) -> Seq<char>
    decreases s.len(),
{
    if s.len() > 0 && is_space(s.last()) {
        trim_end(s.drop_last())
    } else {
        s
    }
}

/// The text without white space at either end.
pub open spec fn trimmed(s: Seq<char>) -> Seq<char> {
    trim_end(trim_start(s))
}

/// The bounds between which a text without white space at its ends lies.
fn trim_bounds(chars: &[char]) -> (r: (usize, usize))
    ensures
        r.0 <= r.1 <= chars@.len(),
        chars@.subrange(r.0 as int, r.1 as int) == trimmed(chars@),
{
    let n: usize = chars.len();
    let mut a: usize = 0;
    assert(chars@.subrange(0, n as int) =~= chars@);
    while a < n && char_is_space(chars[a])
        invariant
            a <= n,
            n == chars@.len(),
            trim_start(chars@) == trim_start(chars@.subrange(a as int, n as int)),
        decreases n - a,
    {
        assert(chars@.subrange(a as int, n as int).drop_first() =~= chars@.subrange(
            a as int + 1,
            n as int,
        ));
        a += 1;
    }
    let mut b: usize = n;
    while b > a && char_is_space(chars[b - 1])
        invariant
            a <= b <= n,
            n == chars@.len(),
            trim_end(chars@.subrange(a as int, n as int)) == trim_end(
                chars@.subrange(a as int, b as int),
            ),
        decreases b,
    {
        assert(chars@.subrange(a as int, b as int).drop_last() =~= chars@.subrange(
            a as int,
            b as int - 1,
        ));
        b -= 1;
    }
    (a, b)
}

/// The text without white space at either end.
pub fn trim_chars(chars: &[char]) -> (r: &[char])
    ensures
        r@ == trimmed(chars@),
{
    let (a, b) = trim_bounds(chars);
    vstd::slice::slice_subrange(chars, a, b)
}

/// The string without white space at either end.
pub fn trim_str(s: &str) -> (r: &str)
    ensures
        r@ == trimmed(s@),
{
    let chars = chars_of(s);
    let (a, b) = trim_bounds(&chars);
    s.substring_char(a, b)
}

// ---------------------------------------------------------------------------
// Searching and splitting
// ---------------------------------------------------------------------------

/// The first position of `c` in `s`, or the length of `s` where it does not occur.
pub open spec fn find<T>(s: Seq<T>, c: T) -> int
    decreases s.len(),
{
    if s.len() == 0 || s[0] == c {
        0
    } else {
        1 + find(s.drop_first(), c)
    }
}

/// `find` gives the least position that holds `c`, or the length.
pub proof fn lemma_find<T>(s: Seq<T>, c: T)
    ensures
        0 <= find(s, c) <= s.len(),
        find(s, c) < s.len() ==> s[find(s, c)] == c,
        forall|i: int| 0 <= i < find(s, c) ==> s[i] != c,
    decreases s.len(),
{
    if s.len() > 0 && s[0] != c {
        lemma_find(s.drop_first(), c);
        assert forall|i: int| 0 <= i < find(s, c) implies s[i] != c by {
            if i > 0 {
                assert(s[i] == s.drop_first()[i - 1]);
            }
        }
    }
}

/// A position that holds `c` with no earlier one holding it is what `find` gives.
pub proof fn lemma_find_unique<T>(s: Seq<T>, c: T, k: int)
    requires
        0 <= k <= s.len(),
        k < s.len() ==> s[k] == c,
        forall|i: int| 0 <= i < k ==> s[i] != c,
    ensures
        find(s, c) == k,
{
    lemma_find(s, c);
}

/// The pieces of `s` between occurrences of `sep`; there is always at least one.
pub open spec fn split<T>(s: Seq<T>, sep: T) -> Seq<Seq<T>>
    decreases s.len(),
{
    let i = find(s, sep);
    if i < s.len() {
        proof {
            lemma_find(s, sep);
        }
        seq![s.take(i)] + split(s.skip(i + 1), sep)
    } else {
        seq![s]
    }
}

/// The first position of `c`, or the length where it does not occur.
pub fn find_char(chars: &[char], c: char) -> (k: usize)
    ensures
        k == find(chars@, c),
        k <= chars@.len(),
{
    let mut k: usize = 0;
    while k < chars.len() && chars[k] != c
        invariant
            k <= chars@.len(),
            forall|i: int| 0 <= i < k ==> chars@[i] != c,
        decreases chars@.len() - k,
    {
        k += 1;
    }
    proof {
        lemma_find_unique(chars@, c, k as int);
    }
    k
}

/// The first position of the byte `b`, or the length where it does not occur.
pub fn find_byte(bytes: &[u8], b: u8) -> (k: usize)
    ensures
        k == find(bytes@, b),
        k <= bytes@.len(),
{
    let mut k: usize = 0;
    while k < bytes.len() && bytes[k] != b
        invariant
            k <= bytes@.len(),
            forall|i: int| 0 <= i < k ==> bytes@[i] != b,
        decreases bytes@.len() - k,
    {
        k += 1;
    }
    proof {
        lemma_find_unique(bytes@, b, k as int);
    }
    k
}

/// The characters of each of some texts.
pub open spec fn str_views(v: Seq<&str>) -> Seq<Seq<char>> {
    Seq::new(v.len(), |i: int| v[i]@)
}

/// The characters of each of some strings.
pub open spec fn string_views(v: Seq<String>) -> Seq<Seq<char>> {
    Seq::new(v.len(), |i: int| v[i]@)
}

/// The views of a list of slices.
pub open spec fn views<T>(v: Seq<&[T]>) -> Seq<Seq<T>> {
    v.map_values(|s: &[T]| s@)
}

/// The pieces of `chars` between occurrences of `sep`.
pub fn split_chars(chars: &[char], sep: char) -> (r: Vec<&[char]>)
    ensures
        views(r@) == split(chars@, sep),
{
    let mut out: Vec<&[char]> = Vec::new();
    let mut rest: &[char] = chars;
    loop
        invariant_except_break
            views(out@) + split(rest@, sep) == split(chars@, sep),
        ensures
            views(out@) == split(chars@, sep),
        decreases rest@.len(),
    {
        let k = find_char(rest, sep);
        let ghost before = out@;
        if k < rest.len() {
            let piece = vstd::slice::slice_subrange(rest, 0, k);
            assert(rest@.subrange(0, k as int) =~= rest@.take(k as int));
            assert(rest@.subrange(k as int + 1, rest@.len() as int) =~= rest@.skip(k as int + 1));
            out.push(piece);
            assert(views(out@) =~= views(before) + seq![rest@.take(k as int)]);
            assert(views(before) + (seq![rest@.take(k as int)] + split(
                rest@.skip(k as int + 1),
                sep,
            )) =~= views(out@) + split(rest@.skip(k as int + 1), sep));
            rest = vstd::slice::slice_subrange(rest, k + 1, rest.len());
        } else {
            out.push(rest);
            assert(views(out@) =~= views(before) + seq![rest@]);
            break;
        }
    }
    out
}

/// The pieces of `bytes` between occurrences of `sep`.
pub fn split_bytes(bytes: &[u8], sep: u8) -> (r: Vec<&[u8]>)
    ensures
        views(r@) == split(bytes@, sep),
{
    let mut out: Vec<&[u8]> = Vec::new();
    let mut rest: &[u8] = bytes;
    loop
        invariant_except_break
            views(out@) + split(rest@, sep) == split(bytes@, sep),
        ensures
            views(out@) == split(bytes@, sep),
        decreases rest@.len(),
    {
        let k = find_byte(rest, sep);
        let ghost before = out@;
        if k < rest.len() {
            let piece = vstd::slice::slice_subrange(rest, 0, k);
            assert(rest@.subrange(0, k as int) =~= rest@.take(k as int));
            assert(rest@.subrange(k as int + 1, rest@.len() as int) =~= rest@.skip(k as int + 1));
            out.push(piece);
            assert(views(out@) =~= views(before) + seq![rest@.take(k as int)]);
            assert(views(before) + (seq![rest@.take(k as int)] + split(
                rest@.skip(k as int + 1),
                sep,
            )) =~= views(out@) + split(rest@.skip(k as int + 1), sep));
            rest = vstd::slice::slice_subrange(rest, k + 1, rest.len());
        } else {
            out.push(rest);
            assert(views(out@) =~= views(before) + seq![rest@]);
            break;
        }
    }
    out
}

/// Whether `needle` occurs in `s` at position `at`.
pub open spec fn occurs_at(s: Seq<char>, needle: Seq<char>, at: int) -> bool {
    0 <= at && at + needle.len() <= s.len() && s.subrange(at, at + needle.len()) == needle
}

/// Whether `needle` occurs somewhere in `s`.
pub open spec fn contains_text(s: Seq<char>, needle: Seq<char>) -> bool {
    exists|at: int| occurs_at(s, needle, at)
}

/// Whether `needle` occurs in `chars` at position `at`.
pub fn chars_match_at(chars: &[char], needle: &[char], at: usize) -> (r: bool)
    requires
        at <= chars@.len(),
    ensures
        r == occurs_at(chars@, needle@, at as int),
{
    if needle.len() > chars.len() - at {
        return false;
    }
    for i in 0..needle.len()
        invariant
            at + needle.len() <= chars.len(),
            forall|j: int| 0 <= j < i ==> chars@[at + j] == needle@[j],
    {
        if chars[at + i] != needle[i] {
            assert(chars@.subrange(at as int, at + needle@.len())[i as int] != needle@[i as int]);
            return false;
        }
    }
    assert(chars@.subrange(at as int, at + needle@.len()) =~= needle@);
    true
}

/// Whether `needle` occurs in the string.
pub fn str_contains(s: &str, needle: &str) -> (r: bool)
    ensures
        r == contains_text(s@, needle@),
{
    let chars = chars_of(s);
    let pat = chars_of(needle);
    for at in 0..chars.len()
        invariant
            chars@ == s@,
            pat@ == needle@,
            forall|k: int| 0 <= k < at ==> !occurs_at(s@, needle@, k),
    {
        if chars_match_at(&chars, &pat, at) {
            return true;
        }
    }
    chars_match_at(&chars, &pat, chars.len())
}

// ---------------------------------------------------------------------------
// Lines and words
// ---------------------------------------------------------------------------

/// A line without the carriage return that belongs to its line ending.
pub open spec fn without_cr(s: Seq<char>) -> Seq<char> {
    if s.len() > 0 && s.last() == '\r' {
        s.drop_last()
    } else {
        s
    }
}

/// The lines of a text. A line ends at a line feed, or at a carriage return and a line feed; the
/// ending belongs to no line, and the last line needs none.
pub open spec fn lines(s: Seq<char>) -> Seq<Seq<char>>
    decreases s.len(),
{
    let i = find(s, '\n');
    if s.len() == 0 {
        seq![]
    } else if i < s.len() {
        proof {
            lemma_find(s, '\n');
        }
        seq![without_cr(s.take(i))] + lines(s.skip(i + 1))
    } else {
        seq![s]
    }
}

/// The lines of a text.
pub fn split_lines(chars: &[char]) -> (r: Vec<&[char]>)
    ensures
        views(r@) == lines(chars@),
{
    let mut out: Vec<&[char]> = Vec::new();
    let mut rest: &[char] = chars;
    assert(views(out@) + lines(rest@) =~= lines(chars@));
    loop
        invariant_except_break
            views(out@) + lines(rest@) == lines(chars@),
        ensures
            views(out@) == lines(chars@),
        decreases rest@.len(),
    {
        if rest.len() == 0 {
            assert(views(out@) + lines(rest@) =~= views(out@));
            break;
        }
        let k = find_char(rest, '\n');
        let ghost before = out@;
        if k < rest.len() {
            let end: usize = if k > 0 && rest[k - 1] == '\r' {
                k - 1
            } else {
                k
            };
            let piece = vstd::slice::slice_subrange(rest, 0, end);
            assert(piece@ =~= without_cr(rest@.take(k as int)));
            assert(rest@.subrange(k as int + 1, rest@.len() as int) =~= rest@.skip(k as int + 1));
            out.push(piece);
            assert(views(out@) =~= views(before) + seq![piece@]);
            assert(views(before) + (seq![piece@] + lines(rest@.skip(k as int + 1))) =~= views(out@)
                + lines(rest@.skip(k as int + 1)));
            rest = vstd::slice::slice_subrange(rest, k + 1, rest.len());
        } else {
            out.push(rest);
            assert(views(out@) =~= views(before) + seq![rest@]);
            break;
        }
    }
    out
}

/// The length of the longest prefix without white space.
pub open spec fn word_len(s: Seq<char>) -> int
    decreases s.len(),
{
    if s.len() == 0 || is_space(s[0]) {
        0
    } else {
        1 + word_len(s.drop_first())
    }
}

/// A word lies inside its text.
pub proof fn lemma_word_len(s: Seq<char>)
    ensures
        0 <= word_len(s) <= s.len(),
        s.len() > 0 && !is_space(s[0]) ==> word_len(s) > 0,
        forall|i: int| 0 <= i < word_len(s) ==> !is_space(s[i]),
        word_len(s) < s.len() ==> is_space(s[word_len(s)]),
    decreases s.len(),
{
    if s.len() > 0 && !is_space(s[0]) {
        lemma_word_len(s.drop_first());
        assert forall|i: int| 0 <= i < word_len(s) implies !is_space(s[i]) by {
            if i > 0 {
                assert(s[i] == s.drop_first()[i - 1]);
            }
        }
    }
}

/// The words of a text: its stretches between white space.
pub open spec fn words(s: Seq<char>) -> Seq<Seq<char>>
    decreases s.len(),
{
    if s.len() == 0 {
        seq![]
    } else if is_space(s[0]) {
        words(s.drop_first())
    } else {
        proof {
            lemma_word_len(s);
        }
        seq![s.take(word_len(s))] + words(s.skip(word_len(s)))
    }
}

/// The words of a text.
pub fn split_words(chars: &[char]) -> (r: Vec<&[char]>)
    ensures
        views(r@) == words(chars@),
{
    let mut out: Vec<&[char]> = Vec::new();
    let mut rest: &[char] = chars;
    assert(views(out@) + words(rest@) =~= words(chars@));
    while rest.len() > 0
        invariant
            views(out@) + words(rest@) == words(chars@),
        decreases rest@.len(),
    {
        if char_is_space(rest[0]) {
            assert(rest@.subrange(1, rest@.len() as int) =~= rest@.drop_first());
            rest = vstd::slice::slice_subrange(rest, 1, rest.len());
        } else {
            let mut k: usize = 0;
            assert(rest@.skip(0) =~= rest@);
            while k < rest.len() && !char_is_space(rest[k])
                invariant
                    k <= rest@.len(),
                    word_len(rest@) == k + word_len(rest@.skip(k as int)),
                decreases rest@.len() - k,
            {
                assert(rest@.skip(k as int).drop_first() =~= rest@.skip(k as int + 1));
                k += 1;
            }
            assert(word_len(rest@) == k);
            let ghost before = out@;
            let piece = vstd::slice::slice_subrange(rest, 0, k);
            assert(piece@ =~= rest@.take(k as int));
            assert(rest@.subrange(k as int, rest@.len() as int) =~= rest@.skip(k as int));
            out.push(piece);
            assert(views(out@) =~= views(before) + seq![piece@]);
            assert(views(before) + (seq![piece@] + words(rest@.skip(k as int))) =~= views(out@)
                + words(rest@.skip(k as int)));
            proof {
                lemma_word_len(rest@);
            }
            rest = vstd::slice::slice_subrange(rest, k, rest.len());
        }
    }
    assert(views(out@) + words(rest@) =~= views(out@));
    out
}

// ---------------------------------------------------------------------------
// Numbers
// ---------------------------------------------------------------------------

/// The value of a digit in a base of at most sixteen.
pub open spec fn digit(c: char, radix: nat) -> Option<nat> {
    let u = c as u32;
    let v: nat = if 0x30 <= u <= 0x39 {
        (u - 0x30) as nat
    } else if 0x41 <= u <= 0x46 {
        (u - 0x41 + 10) as nat
    } else if 0x61 <= u <= 0x66 {
        (u - 0x61 + 10) as nat
    } else {
        16
    };
    if v < radix {
        Some(v)
    } else {
        None
    }
}

/// The value of a text of digits; `None` where the text is empty or holds anything else.
pub open spec fn digits_value(s: Seq<char>, radix: nat) -> Option<nat>
    decreases s.len(),
{
    if s.len() == 0 {
        None
    } else {
        match digit(s.last(), radix) {
            None => None,
            Some(d) => if s.len() == 1 {
                Some(d)
            } else {
                match digits_value(s.drop_last(), radix) {
                    None => None,
                    Some(v) => Some(v * radix + d),
                }
            },
        }
    }
}

/// The unsigned number that a text denotes, at most `max`: digits, after an optional plus sign.
pub open spec fn unsigned_value(s: Seq<char>, radix: nat, max: nat) -> Option<nat> {
    let body = if s.len() > 0 && s[0] == '+' {
        s.skip(1)
    } else {
        s
    };
    match digits_value(body, radix) {
        Some(v) => if v <= max {
            Some(v)
        } else {
            None
        },
        None => None,
    }
}

/// The 64-bit signed number that a text denotes: decimal digits, after an optional sign.
pub open spec fn i64_value(s: Seq<char>) -> Option<int> {
    if s.len() > 0 && s[0] == '-' {
        match digits_value(s.skip(1), 10) {
            Some(v) => if v <= 0x8000_0000_0000_0000 {
                Some(-(v as int))
            } else {
                None
            },
            None => None,
        }
    } else {
        match unsigned_value(s, 10, 0x7FFF_FFFF_FFFF_FFFF) {
            Some(v) => Some(v as int),
            None => None,
        }
    }
}

/// The value of a digit in the given base.
fn digit_of(c: char, radix: u64) -> (r: Option<u64>)
    requires
        radix <= 16,
    ensures
        match r {
            Some(d) => digit(c, radix as nat) == Some(d as nat) && d < radix,
            None => digit(c, radix as nat) is None,
        },
{
    let u: u32 = c as u32;
    let v: u64 = if 0x30 <= u && u <= 0x39 {
        (u - 0x30) as u64
    } else if 0x41 <= u && u <= 0x46 {
        (u - 0x41 + 10) as u64
    } else if 0x61 <= u && u <= 0x66 {
        (u - 0x61 + 10) as u64
    } else {
        16
    };
    if v < radix {
        Some(v)
    } else {
        None
    }
}

/// A text with a longer prefix of digits denotes at least as much, or nothing.
proof fn lemma_digits_prefix(s: Seq<char>, radix: nat, k: int)
    requires
        0 < k <= s.len(),
        radix >= 2,
    ensures
        digits_value(s.take(k), radix) is None ==> digits_value(s, radix) is None,
        digits_value(s.take(k), radix) matches Some(v) ==> (digits_value(s, radix) matches Some(w)
            ==> v <= w),
    decreases s.len(),
{
    if k == s.len() {
        assert(s.take(k) =~= s);
    } else {
        lemma_digits_prefix(s.drop_last(), radix, k);
        assert(s.drop_last().take(k) =~= s.take(k));
        if let Some(w) = digits_value(s.drop_last(), radix) {
            assert(w <= w * radix) by (nonlinear_arith)
                requires
                    radix >= 2,
                    w >= 0,
            ;
        }
    }
}

/// The value of a text of digits, where it does not exceed `max`.
fn digits_of(chars: &[char], radix: u64, max: u64) -> (r: Option<u64>)
    requires
        2 <= radix <= 16,
    ensures
        match r {
            Some(v) => digits_value(chars@, radix as nat) == Some(v as nat) && v <= max,
            None => digits_value(chars@, radix as nat) matches Some(w) ==> w > max,
        },
{
    if chars.len() == 0 {
        return None;
    }
    let mut acc: u64 = 0;
    for i in 0..chars.len()
        invariant
            2 <= radix <= 16,
            acc <= max,
            i > 0 ==> digits_value(chars@.take(i as int), radix as nat) == Some(acc as nat),
            i == 0 ==> acc == 0,
    {
        let ghost prefix = chars@.take(i as int + 1);
        assert(prefix.drop_last() =~= chars@.take(i as int));
        assert(prefix.last() == chars@[i as int]);
        proof {
            lemma_digits_prefix(chars@, radix as nat, i as int + 1);
        }
        match digit_of(chars[i], radix) {
            None => {
                return None;
            },
            Some(d) => {
                let wide: u128 = acc as u128;
                assert(wide * radix <= 0xFFFF_FFFF_FFFF_FFFF * 16) by (nonlinear_arith)
                    requires
                        wide <= 0xFFFF_FFFF_FFFF_FFFF,
                        0 <= radix <= 16,
                ;
                let next: u128 = wide * (radix as u128) + (d as u128);
                if next > max as u128 {
                    return None;
                }
                acc = next as u64;
            },
        }
    }
    assert(chars@.take(chars@.len() as int) =~= chars@);
    Some(acc)
}

/// The unsigned number of at most `max` that a text denotes.
pub fn parse_unsigned(chars: &[char], radix: u64, max: u64) -> (r: Option<u64>)
    requires
        2 <= radix <= 16,
    ensures
        match r {
            Some(v) => unsigned_value(chars@, radix as nat, max as nat) == Some(v as nat),
            None => unsigned_value(chars@, radix as nat, max as nat) is None,
        },
{
    let body = if chars.len() > 0 && chars[0] == '+' {
        assert(chars@.subrange(1, chars@.len() as int) =~= chars@.skip(1));
        vstd::slice::slice_subrange(chars, 1, chars.len())
    } else {
        chars
    };
    digits_of(body, radix, max)
}

/// The 64-bit signed number that a text denotes.
pub fn parse_i64(chars: &[char]) -> (r: Option<i64>)
    ensures
        match r {
            Some(v) => i64_value(chars@) == Some(v as int),
            None => i64_value(chars@) is None,
        },
{
    if chars.len() > 0 && chars[0] == '-' {
        assert(chars@.subrange(1, chars@.len() as int) =~= chars@.skip(1));
        match digits_of(
            vstd::slice::slice_subrange(chars, 1, chars.len()),
            10,
            0x8000_0000_0000_0000,
        ) {
            Some(v) => Some((0 - v as i128) as i64),
            None => None,
        }
    } else {
        match parse_unsigned(chars, 10, 0x7FFF_FFFF_FFFF_FFFF) {
            Some(v) => Some(v as i64),
            None => None,
        }
    }
}

/// The character that writes the digit `d`.
pub open spec fn digit_char(d: nat) -> char {
    if d < 10 {
        (0x30 + d) as char
    } else {
        (0x61 + d - 10) as char
    }
}

/// The digits that write `n` in the given base, without leading zeros.
pub open spec fn numeral(n: nat, radix: nat) -> Seq<char>
    decreases n,
{
    if n < radix || radix < 2 {
        seq![digit_char(n)]
    } else {
        proof {
            assert(n / radix < n) by (nonlinear_arith)
                requires
                    n >= radix,
                    radix >= 2,
            ;
        }
        numeral(n / radix, radix).push(digit_char(n % radix))
    }
}

/// The decimal digits of `n`.
pub open spec fn dec(n: nat) -> Seq<char> {
    numeral(n, 10)
}

/// The decimal digits of `n`, after a minus sign where it is negative.
pub open spec fn dec_signed(n: int) -> Seq<char> {
    if n < 0 {
        seq!['-'] + dec((-n) as nat)
    } else {
        dec(n as nat)
    }
}

/// Appends the digits that write `n`.
pub fn push_numeral(out: &mut String, n: u128, radix: u128)
    requires
        2 <= radix <= 16,
    ensures
        final(out)@ == old(out)@ + numeral(n as nat, radix as nat),
    decreases n,
{
    if n >= radix {
        assert(n / radix < n) by (nonlinear_arith)
            requires
                n >= radix,
                radix >= 2,
        ;
        push_numeral(out, n / radix, radix);
    }
    let d: u8 = (n % radix) as u8;
    let c: char = if d < 10 {
        (0x30 + d) as char
    } else {
        (0x61 + (d - 10)) as char
    };
    proof {
        if n < radix {
            vstd::arithmetic::div_mod::lemma_small_mod(n as nat, radix as nat);
        }
        assert(c == digit_char(d as nat));
    }
    out.push(c);
    assert(out@ =~= old(out)@ + numeral(n as nat, radix as nat));
}

/// Appends the decimal digits of `n`.
pub fn push_dec(out: &mut String, n: u128)
    ensures
        final(out)@ == old(out)@ + dec(n as nat),
{
    push_numeral(out, n, 10);
}

/// Appends the decimal digits of `n`, after a minus sign where it is negative.
pub fn push_dec_signed(out: &mut String, n: i64)
    ensures
        final(out)@ == old(out)@ + dec_signed(n as int),
{
    if n < 0 {
        out.push('-');
        push_dec(out, (0 - n as i128) as u128);
        assert(out@ =~= old(out)@ + dec_signed(n as int));
    } else {
        push_dec(out, n as u128);
    }
}

} // verus!

//! Text as sequences of characters: trimming, searching, splitting, ordering, decimal numbers.
use vstd::prelude::*;
use vstd::slice::slice_subrange;

verus! {

/// `String::push`: appends one character.
pub assume_specification[ String::push ](s: &mut String, c: char)
    ensures
        final(s)@ == old(s)@.push(c),
;

/// Equality of string slices (`str::eq`): the two texts have the same characters.
#[verifier::external_body]
pub(crate) fn same(a: &str, b: &str) -> (r: bool)
    ensures
        r == (a@ == b@),
{
    a == b
}

// ---------------------------------------------------------------------------------------------
// Classes of characters
// ---------------------------------------------------------------------------------------------

/// The characters with the Unicode property White_Space.
pub open spec fn is_whitespace(c: char) -> bool {
    let n = c as u32;
    ||| 0x9 <= n <= 0xd
    ||| n == 0x20
    ||| n == 0x85
    ||| n == 0xa0
    ||| n == 0x1680
    ||| 0x2000 <= n <= 0x200a
    ||| n == 0x2028
    ||| n == 0x2029
    ||| n == 0x202f
    ||| n == 0x205f
    ||| n == 0x3000
}

/// A set of characters that a text is trimmed of.
#[derive(Clone, Copy)]
pub enum CharClass {
    Whitespace,
    Only(char),
    SpaceOrDot,
}

impl CharClass {
    pub open spec fn has(self, c: char) -> bool {
        match self {
            CharClass::Whitespace => is_whitespace(c),
            CharClass::Only(d) => c == d,
            CharClass::SpaceOrDot => c == ' ' || c == '.',
        }
    }

    pub fn contains(&self, c: char) -> (r: bool)
        ensures
            r == self.has(c),
    {
        match self {
            CharClass::Whitespace => {
                let n: u32 = c as u32;
                (0x9 <= n && n <= 0xd) || n == 0x20 || n == 0x85 || n == 0xa0 || n == 0x1680 || (
                0x2000 <= n && n <= 0x200a) || n == 0x2028 || n == 0x2029 || n == 0x202f || n
                    == 0x205f || n == 0x3000
            },
            CharClass::Only(d) => c == *d,
            CharClass::SpaceOrDot => c == ' ' || c == '.',
        }
    }
}

pub open spec fn is_digit(c: char) -> bool {
    '0' <= c && c <= '9'
}

/// A hexadecimal digit of either case.
pub open spec fn is_hex_digit(c: char) -> bool {
    ('0' <= c && c <= '9') || ('a' <= c && c <= 'f') || ('A' <= c && c <= 'F')
}

/// A hexadecimal digit written in lower case.
pub open spec fn is_lower_hex(c: char) -> bool {
    ('0' <= c && c <= '9') || ('a' <= c && c <= 'f')
}

pub open spec fn is_ascii_letter(c: char) -> bool {
    ('a' <= c && c <= 'z') || ('A' <= c && c <= 'Z')
}

pub open spec fn is_ascii(c: char) -> bool {
    (c as u32) < 128
}

/// The lower-case form of an ASCII letter; any other character is its own lower-case form.
pub open spec fn ascii_lower(c: char) -> char {
    if 'A' <= c && c <= 'Z' {
        ((c as u8) + 32) as u8 as char
    } else {
        c
    }
}

/// The upper-case form of an ASCII letter; any other character is its own upper-case form.
pub open spec fn ascii_upper(c: char) -> char {
    if 'a' <= c && c <= 'z' {
        ((c as u8) - 32) as u8 as char
    } else {
        c
    }
}

pub open spec fn lower_all(s: Seq<char>) -> Seq<char> {
    s.map_values(|c: char| ascii_lower(c))
}

pub open spec fn upper_all(s: Seq<char>) -> Seq<char> {
    s.map_values(|c: char| ascii_upper(c))
}

pub open spec fn all_ascii(s: Seq<char>) -> bool {
    forall|i: int| 0 <= i < s.len() ==> is_ascii(#[trigger] s[i])
}

pub fn hex_digit(c: char) -> (r: bool)
    ensures
        r == is_hex_digit(c),
{
    ('0' <= c && c <= '9') || ('a' <= c && c <= 'f') || ('A' <= c && c <= 'F')
}

pub fn to_lower(c: char) -> (r: char)
    ensures
        r == ascii_lower(c),
{
    if 'A' <= c && c <= 'Z' {
        let n: u8 = c as u8;
        (n + 32) as char
    } else {
        c
    }
}

pub fn to_upper(c: char) -> (r: char)
    ensures
        r == ascii_upper(c),
{
    if 'a' <= c && c <= 'z' {
        let n: u8 = c as u8;
        (n - 32) as char
    } else {
        c
    }
}

pub fn lower_chars(s: &[char]) -> (r: Vec<char>)
    ensures
        r@ == lower_all(s@),
{
    let mut out: Vec<char> = Vec::new();
    let mut i: usize = 0;
    while i < s.len()
        invariant
            i <= s.len(),
            out@ == lower_all(s@.take(i as int)),
        decreases s.len() - i,
    {
        out.push(to_lower(s[i]));
        assert(out@ =~= lower_all(s@.take(i + 1)));
        i = i + 1;
    }
    assert(s@.take(s@.len() as int) =~= s@);
    out
}

pub fn upper_chars(s: &[char]) -> (r: Vec<char>)
    ensures
        r@ == upper_all(s@),
{
    let mut out: Vec<char> = Vec::new();
    let mut i: usize = 0;
    while i < s.len()
        invariant
            i <= s.len(),
            out@ == upper_all(s@.take(i as int)),
        decreases s.len() - i,
    {
        out.push(to_upper(s[i]));
        assert(out@ =~= upper_all(s@.take(i + 1)));
        i = i + 1;
    }
    assert(s@.take(s@.len() as int) =~= s@);
    out
}

/// `String::from_utf8`: the text that bytes encode, if they encode one.
#[verifier::external_body]
pub(crate) fn text_of_utf8(data: &[u8]) -> (r: Option<String>)
    ensures
        match r {
            Some(s) => vstd::utf8::valid_utf8(data@) && s@ == vstd::utf8::decode_utf8(data@),
            None => !vstd::utf8::valid_utf8(data@),
        },
{
    String::from_utf8(data.to_vec()).ok()
}

/// What `String::from_utf8_lossy` makes of bytes that encode no text.
pub uninterp spec fn utf8_repaired(data: Seq<u8>) -> Seq<char>;

/// The text that bytes encode, with replacements where they encode none.
pub open spec fn utf8_lossy(data: Seq<u8>) -> Seq<char> {
    if vstd::utf8::valid_utf8(data) {
        vstd::utf8::decode_utf8(data)
    } else {
        utf8_repaired(data)
    }
}

/// `String::from_utf8_lossy`. Bytes that encode a text give that text; what becomes of others is
/// named, not stated.
#[verifier::external_body]
pub(crate) fn text_lossy(data: &[u8]) -> (r: String)
    ensures
        r@ == (if vstd::utf8::valid_utf8(data@) {
            vstd::utf8::decode_utf8(data@)
        } else {
            utf8_repaired(data@)
        }),
{
    String::from_utf8_lossy(data).into_owned()
}

/// The debug form of a text that holds more than ASCII letters, digits and dashes.
pub uninterp spec fn escaped_form(s: Seq<char>) -> Seq<char>;

/// Letters, digits and dashes only, all of them ASCII.
pub open spec fn is_plain(s: Seq<char>) -> bool {
    forall|i: int|
        0 <= i < s.len() ==> is_digit(#[trigger] s[i]) || is_ascii_letter(s[i]) || s[i] == '-'
}

/// The debug form of a text: between double quotes, and escaped where it has to be.
pub open spec fn debug_form(s: Seq<char>) -> Seq<char> {
    if is_plain(s) {
        "\""@ + s + "\""@
    } else {
        escaped_form(s)
    }
}

/// `format!` with `{:?}` on a `str`. ASCII letters, digits and dashes stand as they are between two double
/// quotes; what becomes of any other text is named, not stated.
#[verifier::external_body]
pub(crate) fn debug_of(s: &str) -> (r: String)
    ensures
        r@ == (if is_plain(s@) {
            "\""@ + s@ + "\""@
        } else {
            escaped_form(s@)
        }),
{
    format!("{s:?}")
}

/// What `str::to_lowercase` makes of a text that is not all ASCII.
pub uninterp spec fn unicode_lowercase(s: Seq<char>) -> Seq<char>;

/// The lower-case form of a text.
pub open spec fn lowercase(s: Seq<char>) -> Seq<char> {
    if all_ascii(s) {
        lower_all(s)
    } else {
        unicode_lowercase(s)
    }
}

/// `str::to_lowercase`. A text of ASCII characters is lowered letter by letter; what becomes of
/// any other text is named, not stated.
#[verifier::external_body]
pub(crate) fn to_lowercase(s: &str) -> (r: String)
    ensures
        r@ == (if all_ascii(s@) {
            lower_all(s@)
        } else {
            unicode_lowercase(s@)
        }),
{
    s.to_lowercase()
}

/// What `char::is_alphanumeric` answers for a character that is not ASCII.
pub uninterp spec fn unicode_alphanumeric(c: char) -> bool;

pub open spec fn is_alphanumeric(c: char) -> bool {
    if is_ascii(c) {
        is_digit(c) || is_ascii_letter(c)
    } else {
        unicode_alphanumeric(c)
    }
}

/// `char::is_alphanumeric`. Of the ASCII characters exactly the letters and digits are
/// alphanumeric; of the others the answer is named, not stated.
#[verifier::external_body]
pub(crate) fn alphanumeric(c: char) -> (r: bool)
    ensures
        r == (if is_ascii(c) {
            is_digit(c) || is_ascii_letter(c)
        } else {
            unicode_alphanumeric(c)
        }),
{
    c.is_alphanumeric()
}

// ---------------------------------------------------------------------------------------------
// Between strings and characters
// ---------------------------------------------------------------------------------------------

/// The characters of a text.
pub fn chars_of(s: &str) -> (r: Vec<char>)
    ensures
        r@ == s@,
{
    let mut out: Vec<char> = Vec::new();
    for c in it: s.chars()
        invariant
            out@ == s@.take(it.index()),
            it.seq() == s@,
    {
        out.push(c);
        assert(s@.take(it.index() + 1) == s@.take(it.index()).push(c));
    }
    assert(s@.take(s@.len() as int) == s@);
    out
}

/// The text made of these characters.
pub fn string_of(chars: &[char]) -> (r: String)
    ensures
        r@ == chars@,
{
    let mut out: String = String::new();
    push_chars(&mut out, chars);
    out
}

/// Appends characters to a text.
pub fn push_chars(out: &mut String, chars: &[char])
    ensures
        final(out)@ == old(out)@ + chars@,
{
    let mut i: usize = 0;
    while i < chars.len()
        invariant
            i <= chars.len(),
            out@ == old(out)@ + chars@.take(i as int),
        decreases chars.len() - i,
    {
        out.push(chars[i]);
        assert(chars@.take(i + 1) == chars@.take(i as int).push(chars@[i as int]));
        i = i + 1;
    }
    assert(chars@.take(chars@.len() as int) == chars@);
}

/// Appends a text to a text.
pub fn push_str(out: &mut String, s: &str)
    ensures
        final(out)@ == old(out)@ + s@,
{
    let chars = chars_of(s);
    push_chars(out, chars.as_slice());
}

/// Two texts, one after the other.
pub fn join2(a: &str, b: &str) -> (r: String)
    ensures
        r@ == a@ + b@,
{
    let mut out: String = String::new();
    push_str(&mut out, a);
    push_str(&mut out, b);
    out
}

/// Three texts, one after the other.
pub fn join3(a: &str, b: &str, c: &str) -> (r: String)
    ensures
        r@ == a@ + b@ + c@,
{
    let mut out: String = join2(a, b);
    push_str(&mut out, c);
    out
}

/// Four texts, one after the other.
pub fn join4(a: &str, b: &str, c: &str, d: &str) -> (r: String)
    ensures
        r@ == a@ + b@ + c@ + d@,
{
    let mut out: String = join3(a, b, c);
    push_str(&mut out, d);
    out
}

/// The text as an owned string.
pub fn owned(s: &str) -> (r: String)
    ensures
        r@ == s@,
{
    let mut out: String = String::new();
    push_str(&mut out, s);
    out
}

pub fn same_chars(a: &[char], b: &[char]) -> (r: bool)
    ensures
        r == (a@ == b@),
{
    if a.len() != b.len() {
        return false;
    }
    let mut i: usize = 0;
    while i < a.len()
        invariant
            a.len() == b.len(),
            i <= a.len(),
            forall|j: int| 0 <= j < i ==> a@[j] == b@[j],
        decreases a.len() - i,
    {
        if a[i] != b[i] {
            return false;
        }
        i = i + 1;
    }
    assert(a@ =~= b@);
    true
}

// ---------------------------------------------------------------------------------------------
// Trimming
// ---------------------------------------------------------------------------------------------

/// `s` without the characters of `k` at its start.
pub open spec fn trim_start_of(s: Seq<char>, k: CharClass) -> Seq<char>
    decreases s.len(),
{
    if s.len() > 0 && k.has(s[0]) {
        trim_start_of(s.skip(1), k)
    } else {
        s
    }
}

/// `s` without the characters of `k` at its end.
pub open spec fn trim_end_of(s: Seq<char>, k: CharClass) -> Seq<char>
    decreases s.len(),
{
    if s.len() > 0 && k.has(s.last()) {
        trim_end_of(s.drop_last(), k)
    } else {
        s
    }
}

/// `s` without the characters of `k` at either end.
pub open spec fn trim_of(s: Seq<char>, k: CharClass) -> Seq<char> {
    trim_end_of(trim_start_of(s, k), k)
}

/// `s` without white space at either end.
pub open spec fn trimmed(s: Seq<char>) -> Seq<char> {
    trim_of(s, CharClass::Whitespace)
}

/// What is left after trimming begins and ends outside the class.
pub proof fn lemma_trimmed_ends(s: Seq<char>, k: CharClass)
    ensures
        trim_of(s, k).len() > 0 ==> !k.has(trim_of(s, k)[0]) && !k.has(trim_of(s, k).last()),
        trim_start_of(s, k).len() > 0 ==> !k.has(trim_start_of(s, k)[0]),
        trim_of(s, k).len() <= s.len(),
{
    lemma_trim_start_end(s, k);
    lemma_trim_end_end(trim_start_of(s, k), k);
}

proof fn lemma_trim_start_end(s: Seq<char>, k: CharClass)
    ensures
        trim_start_of(s, k).len() > 0 ==> !k.has(trim_start_of(s, k)[0]),
        trim_start_of(s, k).len() <= s.len(),
        forall|i: int|
            0 <= i < trim_start_of(s, k).len() ==> exists|j: int|
                0 <= j < s.len() && s[j] == #[trigger] trim_start_of(s, k)[i],
    decreases s.len(),
{
    if s.len() > 0 && k.has(s[0]) {
        lemma_trim_start_end(s.skip(1), k);
        assert forall|i: int| 0 <= i < trim_start_of(s, k).len() implies exists|j: int|
            0 <= j < s.len() && s[j] == #[trigger] trim_start_of(s, k)[i] by {
            let t = s.skip(1);
            let j0 = choose|j: int| 0 <= j < t.len() && t[j] == trim_start_of(t, k)[i];
            assert(s[j0 + 1] == trim_start_of(s, k)[i]);
        }
    }
}

proof fn lemma_trim_end_end(s: Seq<char>, k: CharClass)
    ensures
        trim_end_of(s, k).len() > 0 ==> !k.has(trim_end_of(s, k).last()),
        trim_end_of(s, k).len() <= s.len(),
        trim_end_of(s, k) == s.take(trim_end_of(s, k).len() as int),
        trim_end_of(s, k).len() > 0 ==> trim_end_of(s, k)[0] == s[0],
    decreases s.len(),
{
    if s.len() > 0 && k.has(s.last()) {
        lemma_trim_end_end(s.drop_last(), k);
        assert(trim_end_of(s, k) =~= s.take(trim_end_of(s, k).len() as int));
    } else {
        assert(s.take(s.len() as int) =~= s);
    }
}

/// A text that neither begins nor ends in the class is left as it is.
pub proof fn lemma_trim_nothing(s: Seq<char>, k: CharClass)
    requires
        s.len() > 0 ==> !k.has(s[0]) && !k.has(s.last()),
    ensures
        trim_of(s, k) == s,
{
}

/// Each character of a trimmed text is one of the text.
pub proof fn lemma_trim_chars(s: Seq<char>, k: CharClass)
    ensures
        forall|i: int|
            0 <= i < trim_of(s, k).len() ==> exists|j: int|
                0 <= j < s.len() && s[j] == #[trigger] trim_of(s, k)[i],
{
    lemma_trim_start_end(s, k);
    let t = trim_start_of(s, k);
    lemma_trim_end_end(t, k);
    assert forall|i: int| 0 <= i < trim_of(s, k).len() implies exists|j: int|
        0 <= j < s.len() && s[j] == #[trigger] trim_of(s, k)[i] by {
        assert(trim_of(s, k)[i] == t[i]);
    }
}

pub fn trim_start<'a>(s: &'a [char], k: CharClass) -> (r: &'a [char])
    ensures
        r@ == trim_start_of(s@, k),
{
    let mut i: usize = 0;
    assert(s@.skip(0) == s@);
    while i < s.len() && k.contains(s[i])
        invariant
            i <= s.len(),
            trim_start_of(s@, k) == trim_start_of(s@.skip(i as int), k),
        decreases s.len() - i,
    {
        assert(s@.skip(i as int).skip(1) == s@.skip(i + 1));
        i = i + 1;
    }
    assert(s@.subrange(i as int, s@.len() as int) == s@.skip(i as int));
    slice_subrange(s, i, s.len())
}

pub fn trim_end<'a>(s: &'a [char], k: CharClass) -> (r: &'a [char])
    ensures
        r@ == trim_end_of(s@, k),
{
    let mut n: usize = s.len();
    assert(s@.take(n as int) == s@);
    while n > 0 && k.contains(s[n - 1])
        invariant
            n <= s.len(),
            trim_end_of(s@, k) == trim_end_of(s@.take(n as int), k),
        decreases n,
    {
        assert(s@.take(n as int).drop_last() == s@.take(n - 1));
        n = n - 1;
    }
    assert(s@.subrange(0, n as int) == s@.take(n as int));
    slice_subrange(s, 0, n)
}

pub fn trim<'a>(s: &'a [char], k: CharClass) -> (r: &'a [char])
    ensures
        r@ == trim_of(s@, k),
{
    trim_end(trim_start(s, k), k)
}

// ---------------------------------------------------------------------------------------------
// Searching and splitting
// ---------------------------------------------------------------------------------------------

/// The first position from `from` on at which `c` stands; the length of `s` where it does not.
pub open spec fn first_at(s: Seq<char>, c: char, from: int) -> int
    decreases s.len() - from,
{
    if from < 0 || from >= s.len() {
        s.len() as int
    } else if s[from] == c {
        from
    } else {
        first_at(s, c, from + 1)
    }
}

pub proof fn lemma_first_at(s: Seq<char>, c: char, from: int)
    requires
        0 <= from <= s.len(),
    ensures
        from <= first_at(s, c, from) <= s.len(),
        forall|i: int| from <= i < first_at(s, c, from) ==> s[i] != c,
        first_at(s, c, from) < s.len() ==> s[first_at(s, c, from)] == c,
    decreases s.len() - from,
{
    if from < s.len() && s[from] != c {
        lemma_first_at(s, c, from + 1);
    }
}

/// The part of `s` before the first `c`; the whole of `s` where `c` does not occur.
pub open spec fn before(s: Seq<char>, c: char) -> Seq<char> {
    s.take(first_at(s, c, 0))
}

pub fn find(s: &[char], c: char) -> (r: usize)
    ensures
        r == first_at(s@, c, 0),
        r <= s.len(),
{
    let mut i: usize = 0;
    while i < s.len() && s[i] != c
        invariant
            i <= s.len(),
            first_at(s@, c, 0) == first_at(s@, c, i as int),
        decreases s.len() - i,
    {
        i = i + 1;
    }
    i
}

/// The pieces of `s` between the occurrences of `c`.
pub open spec fn split(s: Seq<char>, c: char) -> Seq<Seq<char>>
    decreases s.len(),
    via split_decreases
{
    let i = first_at(s, c, 0);
    if i < s.len() {
        seq![s.take(i)] + split(s.skip(i + 1), c)
    } else {
        seq![s]
    }
}

#[via_fn]
proof fn split_decreases(s: Seq<char>, c: char) {
    lemma_first_at(s, c, 0);
}

/// The pieces one after another, with `sep` between them.
pub open spec fn joined(pieces: Seq<Seq<char>>, sep: Seq<char>) -> Seq<char>
    decreases pieces.len(),
{
    if pieces.len() == 0 {
        Seq::empty()
    } else if pieces.len() == 1 {
        pieces[0]
    } else {
        joined(pieces.drop_last(), sep) + sep + pieces.last()
    }
}

/// The lines of a text: a line ends at a line feed, with a carriage return before it or not.
pub open spec fn lines(s: Seq<char>) -> Seq<Seq<char>>
    decreases s.len(),
    via lines_decreases
{
    let i = first_at(s, '\n', 0);
    if s.len() == 0 {
        Seq::empty()
    } else if i < s.len() {
        seq![without_cr(s.take(i))] + lines(s.skip(i + 1))
    } else {
        seq![s]
    }
}

#[via_fn]
proof fn lines_decreases(s: Seq<char>) {
    lemma_first_at(s, '\n', 0);
}

pub open spec fn without_cr(s: Seq<char>) -> Seq<char> {
    if s.len() > 0 && s.last() == '\r' {
        s.drop_last()
    } else {
        s
    }
}

/// `s` begins with `p`.
pub open spec fn starts_with(s: Seq<char>, p: Seq<char>) -> bool {
    p.len() <= s.len() && s.take(p.len() as int) == p
}

pub fn has_prefix(s: &[char], p: &[char]) -> (r: bool)
    ensures
        r == starts_with(s@, p@),
{
    if p.len() > s.len() {
        return false;
    }
    assert(s@.subrange(0, p@.len() as int) == s@.take(p@.len() as int));
    same_chars(slice_subrange(s, 0, p.len()), p)
}

/// `s` begins with the text `p`.
pub fn text_has_prefix(s: &str, p: &str) -> (r: bool)
    ensures
        r == starts_with(s@, p@),
{
    let sc = chars_of(s);
    let pc = chars_of(p);
    has_prefix(sc.as_slice(), pc.as_slice())
}

pub fn contains_char(s: &[char], c: char) -> (r: bool)
    ensures
        r == s@.contains(c),
{
    let i: usize = find(s, c);
    proof {
        lemma_first_at(s@, c, 0);
    }
    i < s.len()
}

// ---------------------------------------------------------------------------------------------
// Order
// ---------------------------------------------------------------------------------------------

/// `a` comes before `b` in the order of their characters' code points.
pub open spec fn text_lt(a: Seq<char>, b: Seq<char>) -> bool
    decreases a.len(),
{
    if b.len() == 0 {
        false
    } else if a.len() == 0 {
        true
    } else if a[0] == b[0] {
        text_lt(a.skip(1), b.skip(1))
    } else {
        a[0] < b[0]
    }
}

/// Of two different texts exactly one comes before the other.
pub proof fn lemma_text_order(a: Seq<char>, b: Seq<char>)
    ensures
        text_lt(a, b) ==> !text_lt(b, a),
        a == b ==> !text_lt(a, b),
        a != b ==> text_lt(a, b) || text_lt(b, a),
    decreases a.len(),
{
    if a.len() > 0 && b.len() > 0 {
        if a[0] == b[0] {
            lemma_text_order(a.skip(1), b.skip(1));
            if a.skip(1) == b.skip(1) {
                assert(a =~= seq![a[0]] + a.skip(1));
                assert(b =~= seq![b[0]] + b.skip(1));
            }
        }
    } else if a.len() == 0 && b.len() == 0 {
        assert(a =~= b);
    }
}

pub fn less(a: &str, b: &str) -> (r: bool)
    ensures
        r == text_lt(a@, b@),
{
    let av = chars_of(a);
    let bv = chars_of(b);
    let mut i: usize = 0;
    assert(av@.skip(0) == av@);
    assert(bv@.skip(0) == bv@);
    while i < av.len() && i < bv.len() && av[i] == bv[i]
        invariant
            i <= av.len(),
            i <= bv.len(),
            text_lt(av@, bv@) == text_lt(av@.skip(i as int), bv@.skip(i as int)),
        decreases av.len() - i,
    {
        assert(av@.skip(i as int).skip(1) == av@.skip(i + 1));
        assert(bv@.skip(i as int).skip(1) == bv@.skip(i + 1));
        i = i + 1;
    }
    if i >= bv.len() {
        false
    } else if i >= av.len() {
        true
    } else {
        av[i] < bv[i]
    }
}

// ---------------------------------------------------------------------------------------------
// Numbers
// ---------------------------------------------------------------------------------------------

/// The decimal digit of `n`.
pub open spec fn digit_char(n: nat) -> char {
    (48 + n) as u8 as char
}

/// `n` in decimal, without leading zeros.
pub open spec fn decimal(n: nat) -> Seq<char>
    decreases n,
{
    if n < 10 {
        seq![digit_char(n)]
    } else {
        decimal(n / 10).push(digit_char(n % 10))
    }
}

pub fn decimal_of(n: u64) -> (r: String)
    ensures
        r@ == decimal(n as nat),
    decreases n,
{
    if n < 10 {
        let mut out: String = String::new();
        let d: u8 = 48 + (n as u8);
        out.push(d as char);
        out
    } else {
        let mut out: String = decimal_of(n / 10);
        let d: u8 = 48 + ((n % 10) as u8);
        out.push(d as char);
        out
    }
}

/// The number that the decimal digits of `s` write.
pub open spec fn decimal_value(s: Seq<char>) -> nat
    decreases s.len(),
{
    if s.len() == 0 {
        0
    } else {
        decimal_value(s.drop_last()) * 10 + ((s.last() as u8) - 48) as nat
    }
}

/// `s` is one digit or more.
pub open spec fn all_digits(s: Seq<char>) -> bool {
    &&& s.len() > 0
    &&& forall|i: int| 0 <= i < s.len() ==> is_digit(#[trigger] s[i])
}

/// What is written in decimal is digits, and is read as the number that was written.
pub proof fn lemma_decimal(n: nat)
    ensures
        all_digits(decimal(n)),
        decimal_value(decimal(n)) == n,
        decimal(n)[0] != '-',
        decimal(n)[0] != '+',
    decreases n,
{
    reveal_with_fuel(decimal_value, 2);
    if n < 10 {
        assert(decimal(n).drop_last() =~= Seq::<char>::empty());
    } else {
        lemma_decimal(n / 10);
        assert(decimal(n).drop_last() =~= decimal(n / 10));
    }
}

/// The digits of a text write a number of at most `max`: that number; any other text: nothing.
pub fn parse_decimal(s: &[char], max: u64) -> (r: Option<u64>)
    ensures
        r == (if all_digits(s@) && decimal_value(s@) <= max {
            Some(decimal_value(s@) as u64)
        } else {
            None::<u64>
        }),
{
    if s.len() == 0 {
        return None;
    }
    let mut n: u64 = 0;
    let mut i: usize = 0;
    let mut big: bool = false;
    while i < s.len()
        invariant
            s.len() > 0,
            i <= s.len(),
            forall|j: int| 0 <= j < i ==> is_digit(#[trigger] s@[j]),
            big ==> decimal_value(s@.take(i as int)) > max,
            !big ==> n == decimal_value(s@.take(i as int)) && n <= max,
        decreases s.len() - i,
    {
        let c: char = s[i];
        if !('0' <= c && c <= '9') {
            assert(!is_digit(s@[i as int]));
            return None;
        }
        assert(s@.take(i + 1).drop_last() == s@.take(i as int));
        assert(s@.take(i + 1).last() == c);
        let d: u8 = (c as u8) - 48;
        if !big {
            let wide: u128 = (n as u128) * 10 + (d as u128);
            if wide > (max as u128) {
                big = true;
            } else {
                n = wide as u64;
            }
        }
        i = i + 1;
    }
    assert(s@.take(s@.len() as int) == s@);
    if big {
        None
    } else {
        Some(n)
    }
}

/// Texts by what they hold.
pub open spec fn texts(v: Seq<String>) -> Seq<Seq<char>> {
    v.map_values(|s: String| s@)
}

/// A text, where there is one, by what it holds.
pub open spec fn opt(o: Option<String>) -> Option<Seq<char>> {
    match o {
        Some(s) => Some(s@),
        None => None,
    }
}

pub fn opt_copy(o: &Option<String>) -> (r: Option<String>)
    ensures
        opt(r) == opt(*o),
        r is Some == *o is Some,
{
    match o {
        Some(s) => Some(s.clone()),
        None => None,
    }
}

/// A borrowed text, where there is one, by what it holds.
pub open spec fn opt_str(o: Option<&str>) -> Option<Seq<char>> {
    match o {
        Some(s) => Some(s@),
        None => None,
    }
}

pub fn opt_owned(o: Option<&str>) -> (r: Option<String>)
    ensures
        opt(r) == opt_str(o),
{
    match o {
        Some(s) => Some(owned(s)),
        None => None,
    }
}

pub fn texts_copy(v: &Vec<String>) -> (r: Vec<String>)
    ensures
        texts(r@) == texts(v@),
{
    let mut out: Vec<String> = Vec::new();
    let mut i: usize = 0;
    while i < v.len()
        invariant
            i <= v@.len(),
            texts(out@) == texts(v@).take(i as int),
        decreases v@.len() - i,
    {
        let ghost before = texts(out@);
        out.push(v[i].clone());
        assert(texts(out@) =~= before.push(v@[i as int]@));
        assert(texts(v@).take(i + 1) =~= texts(v@).take(i as int).push(v@[i as int]@));
        i = i + 1;
    }
    assert(texts(v@).take(v@.len() as int) =~= texts(v@));
    out
}

/// One of the texts is this one.
pub fn texts_contain(v: &Vec<String>, s: &str) -> (r: bool)
    ensures
        r == texts(v@).contains(s@),
{
    let mut i: usize = 0;
    while i < v.len()
        invariant
            i <= v@.len(),
            forall|j: int| 0 <= j < i ==> texts(v@)[j] != s@,
        decreases v@.len() - i,
    {
        if same(v[i].as_str(), s) {
            assert(texts(v@)[i as int] == s@);
            return true;
        }
        i = i + 1;
    }
    false
}

// ---------------------------------------------------------------------------------------------
// Leaving characters out
// ---------------------------------------------------------------------------------------------

/// `s` without the characters `c`.
pub open spec fn without(s: Seq<char>, c: char) -> Seq<char> {
    s.filter(|x: char| x != c)
}

pub proof fn lemma_without_push(s: Seq<char>, c: char, x: char)
    ensures
        without(s.push(x), c) == (if x == c {
            without(s, c)
        } else {
            without(s, c).push(x)
        }),
{
    reveal(Seq::filter);
    assert(s.push(x).drop_last() =~= s);
}

pub fn without_char(s: &[char], c: char) -> (r: Vec<char>)
    ensures
        r@ == without(s@, c),
{
    let mut out: Vec<char> = Vec::new();
    let mut i: usize = 0;
    proof {
        reveal(Seq::filter);
        assert(s@.take(0) =~= Seq::<char>::empty());
    }
    while i < s.len()
        invariant
            i <= s.len(),
            out@ == without(s@.take(i as int), c),
        decreases s.len() - i,
    {
        proof {
            lemma_without_push(s@.take(i as int), c, s@[i as int]);
            assert(s@.take(i + 1) =~= s@.take(i as int).push(s@[i as int]));
        }
        if s[i] != c {
            out.push(s[i]);
        }
        i = i + 1;
    }
    assert(s@.take(s@.len() as int) =~= s@);
    out
}

/// `s` without `p` at its start, as often as it stands there.
pub open spec fn without_prefixes(s: Seq<char>, p: Seq<char>) -> Seq<char>
    decreases s.len(),
{
    if p.len() > 0 && starts_with(s, p) {
        without_prefixes(s.skip(p.len() as int), p)
    } else {
        s
    }
}

pub fn skip_prefixes<'a>(s: &'a [char], p: &[char]) -> (r: &'a [char])
    requires
        p@.len() > 0,
    ensures
        r@ == without_prefixes(s@, p@),
{
    let mut rest: &'a [char] = s;
    while has_prefix(rest, p)
        invariant
            p@.len() > 0,
            without_prefixes(s@, p@) == without_prefixes(rest@, p@),
        decreases rest@.len(),
    {
        let ghost before = rest@;
        rest = slice_subrange(rest, p.len(), rest.len());
        assert(rest@ =~= before.skip(p@.len() as int));
    }
    rest
}

// ---------------------------------------------------------------------------------------------
// Searching for a text
// ---------------------------------------------------------------------------------------------

/// `p` stands in `s` at `i`.
pub open spec fn occurs_at(s: Seq<char>, p: Seq<char>, i: int) -> bool {
    0 <= i && i + p.len() <= s.len() && s.subrange(i, i + p.len()) == p
}

/// `p` stands somewhere in `s`.
pub open spec fn occurs_in(s: Seq<char>, p: Seq<char>) -> bool {
    exists|i: int| occurs_at(s, p, i)
}

/// The first position from `from` on at which `p` stands in `s`.
pub open spec fn first_text(s: Seq<char>, p: Seq<char>, from: int) -> Option<int>
    decreases s.len() + 1 - from,
{
    if from < 0 || from > s.len() {
        None
    } else if occurs_at(s, p, from) {
        Some(from)
    } else {
        first_text(s, p, from + 1)
    }
}

pub proof fn lemma_first_text(s: Seq<char>, p: Seq<char>, from: int)
    requires
        0 <= from <= s.len() + 1,
    ensures
        match first_text(s, p, from) {
            Some(i) => from <= i && occurs_at(s, p, i) && forall|j: int|
                from <= j < i ==> !occurs_at(s, p, j),
            None => forall|j: int| from <= j ==> !occurs_at(s, p, j),
        },
    decreases s.len() + 1 - from,
{
    if from <= s.len() && !occurs_at(s, p, from) {
        lemma_first_text(s, p, from + 1);
    }
}

pub fn find_text(s: &[char], p: &[char]) -> (r: Option<usize>)
    ensures
        match r {
            Some(i) => first_text(s@, p@, 0) == Some(i as int) && occurs_at(s@, p@, i as int),
            None => first_text(s@, p@, 0) is None,
        },
        r is Some == occurs_in(s@, p@),
{
    proof {
        lemma_first_text(s@, p@, 0);
    }
    if p.len() > s.len() {
        assert(forall|i: int| !occurs_at(s@, p@, i));
        return None;
    }
    let last: usize = s.len() - p.len();
    let mut i: usize = 0;
    while i <= last
        invariant
            s.len() == s@.len(),
            last + p@.len() == s@.len(),
            i <= last + 1,
            first_text(s@, p@, 0) == first_text(s@, p@, i as int),
            forall|j: int| 0 <= j < i ==> !occurs_at(s@, p@, j),
        decreases last + 1 - i,
    {
        if same_chars(slice_subrange(s, i, i + p.len()), p) {
            assert(occurs_at(s@, p@, i as int));
            return Some(i);
        }
        assert(!occurs_at(s@, p@, i as int));
        if i == last {
            assert(forall|j: int| !occurs_at(s@, p@, j));
            proof {
                lemma_first_text(s@, p@, 0);
            }
            return None;
        }
        i = i + 1;
    }
    None
}

/// The last position at which `c` stands; -1 where it does not.
pub open spec fn last_at(s: Seq<char>, c: char) -> int
    decreases s.len(),
{
    if s.len() == 0 {
        -1
    } else if s.last() == c {
        s.len() - 1
    } else {
        last_at(s.drop_last(), c)
    }
}

pub fn find_last(s: &[char], c: char) -> (r: Option<usize>)
    ensures
        match r {
            Some(i) => i < s.len() && last_at(s@, c) == i && s@[i as int] == c,
            None => last_at(s@, c) == -1,
        },
{
    let mut n: usize = s.len();
    assert(s@.take(n as int) =~= s@);
    while n > 0
        invariant
            n <= s.len(),
            last_at(s@, c) == last_at(s@.take(n as int), c),
        decreases n,
    {
        assert(s@.take(n as int).drop_last() =~= s@.take(n - 1));
        if s[n - 1] == c {
            return Some(n - 1);
        }
        n = n - 1;
    }
    None
}

/// The list with this text at its end, unless it is there already.
pub open spec fn added(v: Seq<Seq<char>>, s: Seq<char>) -> Seq<Seq<char>> {
    if v.contains(s) {
        v
    } else {
        v.push(s)
    }
}

pub fn add_text(v: &mut Vec<String>, s: String)
    ensures
        texts(final(v)@) == added(texts(old(v)@), s@),
{
    let ghost before = texts(v@);
    if !texts_contain(v, s.as_str()) {
        let ghost k = s@;
        v.push(s);
        assert(texts(v@) =~= before.push(k));
    }
}

/// The list without this text.
pub open spec fn dropped(v: Seq<Seq<char>>, s: Seq<char>) -> Seq<Seq<char>> {
    v.filter(|x: Seq<char>| x != s)
}

pub fn drop_text(v: &mut Vec<String>, s: &str)
    ensures
        texts(final(v)@) == dropped(texts(old(v)@), s@),
{
    let ghost all = texts(v@);
    let ghost keep = |x: Seq<char>| x != s@;
    let mut out: Vec<String> = Vec::new();
    let mut i: usize = 0;
    proof {
        reveal(Seq::filter);
        assert(all.take(0).filter(keep) =~= Seq::<Seq<char>>::empty());
        assert(texts(out@) =~= Seq::<Seq<char>>::empty());
    }
    while i < v.len()
        invariant
            i <= v@.len(),
            *v == *old(v),
            all == texts(v@),
            keep == (|x: Seq<char>| x != s@),
            texts(out@) == all.take(i as int).filter(keep),
        decreases v@.len() - i,
    {
        let ghost got = texts(out@);
        proof {
            reveal(Seq::filter);
            assert(all.take(i + 1).drop_last() =~= all.take(i as int));
            assert(all.take(i + 1).last() == v@[i as int]@);
        }
        if !same(v[i].as_str(), s) {
            out.push(v[i].clone());
            assert(texts(out@) =~= got.push(v@[i as int]@));
        }
        i = i + 1;
    }
    assert(all.take(all.len() as int) =~= all);
    *v = out;
}

// ---------------------------------------------------------------------------------------------
// Sorting
// ---------------------------------------------------------------------------------------------

/// No text stands before a smaller one.
pub open spec fn is_sorted(v: Seq<Seq<char>>) -> bool {
    forall|i: int, j: int|
        0 <= i < j < v.len() ==> !text_lt(#[trigger] v[j], #[trigger] v[i])
}

proof fn lemma_text_lt_transitive(a: Seq<char>, b: Seq<char>, c: Seq<char>)
    requires
        !text_lt(b, a),
        !text_lt(c, b),
    ensures
        !text_lt(c, a),
    decreases a.len(),
{
    if a.len() > 0 && b.len() > 0 && c.len() > 0 && a[0] == b[0] && b[0] == c[0] {
        lemma_text_lt_transitive(a.skip(1), b.skip(1), c.skip(1));
    }
}

/// Puts a text where it belongs.
fn insert_sorted(v: &mut Vec<String>, s: String)
    requires
        is_sorted(texts(old(v)@)),
    ensures
        is_sorted(texts(final(v)@)),
        exists|i: int|
            0 <= i <= old(v)@.len() && texts(final(v)@) == #[trigger] texts(old(v)@).insert(i, s@),
{
    let ghost before = texts(v@);
    let ghost x = s@;
    let mut i: usize = 0;
    while i < v.len() && !less(s.as_str(), v[i].as_str())
        invariant
            i <= v@.len(),
            before == texts(v@),
            x == s@,
            forall|j: int| 0 <= j < i ==> !text_lt(x, #[trigger] before[j]),
        decreases v@.len() - i,
    {
        i = i + 1;
    }
    v.insert(i, s);
    proof {
        let after = texts(v@);
        assert(after =~= before.insert(i as int, x));
        assert forall|a: int, b: int| 0 <= a < b < after.len() implies !text_lt(
            #[trigger] after[b],
            #[trigger] after[a],
        ) by {
            let a0 = if a < i {
                a
            } else {
                a - 1
            };
            let b0 = if b < i {
                b
            } else {
                b - 1
            };
            if a == i {
                lemma_text_order(before[i as int], x);
                assert(after[b] == before[b0]);
                if b0 > i {
                    assert(!text_lt(before[b0], before[i as int]));
                    lemma_text_lt_transitive(x, before[i as int], before[b0]);
                }
            } else if b == i {
                assert(after[a] == before[a]);
            } else {
                assert(after[a] == before[a0] && after[b] == before[b0]);
            }
        }
    }
}

proof fn lemma_insert_keeps(v: Seq<Seq<char>>, i: int, s: Seq<char>)
    requires
        0 <= i <= v.len(),
    ensures
        v.insert(i, s).to_set() == v.to_set().insert(s),
        v.no_duplicates() && !v.contains(s) ==> v.insert(i, s).no_duplicates(),
{
    let w = v.insert(i, s);
    assert forall|k: Seq<char>| w.to_set().contains(k) == v.to_set().insert(s).contains(k) by {
        if v.contains(k) {
            let j = choose|j: int| 0 <= j < v.len() && v[j] == k;
            if j < i {
                assert(w[j] == k);
            } else {
                assert(w[j + 1] == k);
            }
        }
        assert(w[i] == s);
        if w.contains(k) {
            let j = choose|j: int| 0 <= j < w.len() && w[j] == k;
            if j < i {
                assert(v[j] == k);
            } else if j > i {
                assert(v[j - 1] == k);
            }
        }
    }
    assert(w.to_set() =~= v.to_set().insert(s));
    if v.no_duplicates() && !v.contains(s) {
        assert forall|a: int, b: int| 0 <= a < w.len() && 0 <= b < w.len() && a != b implies w[a]
            != w[b] by {
            let a0 = if a < i {
                a
            } else {
                a - 1
            };
            let b0 = if b < i {
                b
            } else {
                b - 1
            };
            if a == i {
                assert(v.contains(v[b0]));
            } else if b == i {
                assert(v.contains(v[a0]));
            } else {
                assert(v[a0] != v[b0]);
            }
        }
    }
}

/// Different texts in order.
pub fn sort_texts(v: &Vec<String>) -> (r: Vec<String>)
    requires
        texts(v@).no_duplicates(),
    ensures
        is_sorted(texts(r@)),
        texts(r@).no_duplicates(),
        texts(r@).to_set() == texts(v@).to_set(),
{
    let ghost all = texts(v@);
    let mut out: Vec<String> = Vec::new();
    let mut i: usize = 0;
    assert(all.take(0).to_set() =~= Set::<Seq<char>>::empty());
    assert(texts(out@).to_set() =~= Set::<Seq<char>>::empty());
    while i < v.len()
        invariant
            i <= v@.len(),
            all == texts(v@),
            all.no_duplicates(),
            is_sorted(texts(out@)),
            texts(out@).no_duplicates(),
            texts(out@).to_set() == all.take(i as int).to_set(),
        decreases v@.len() - i,
    {
        let ghost before = texts(out@);
        let ghost x = all[i as int];
        insert_sorted(&mut out, v[i].clone());
        proof {
            let k = choose|k: int|
                0 <= k <= before.len() && texts(out@) == #[trigger] before.insert(k, x);
            assert(!before.contains(x)) by {
                if before.contains(x) {
                    assert(before.to_set().contains(x));
                    let j = choose|j: int| 0 <= j < i && all.take(i as int)[j] == x;
                    assert(all[j] == all[i as int]);
                }
            }
            lemma_insert_keeps(before, k, x);
            lemma_insert_keeps(all.take(i as int), i as int, x);
            assert(all.take(i + 1) =~= all.take(i as int).insert(i as int, x));
        }
        i = i + 1;
    }
    assert(all.take(all.len() as int) =~= all);
    out
}

/// A character takes at most four bytes.
pub proof fn lemma_utf8_len(s: Seq<char>)
    ensures
        vstd::utf8::encode_utf8(s).len() <= 4 * s.len(),
    decreases s.len(),
{
    if s.len() > 0 {
        lemma_utf8_len(s.drop_first());
    }
}

} // verus!

//! Names and codes: of rooms, peers and messages, as users type them and as peers exchange them.
use crate::bytes;
use crate::crypto::{mnemonic, passphrase, primitives};
use crate::error::{ErrorView, HuddleError};
use crate::identity::{self, Identity};
use crate::text;
use vstd::prelude::*;
use vstd::slice::slice_subrange;

verus! {

/// The least number of characters of a passphrase that is set.
pub const MIN_PASSPHRASE_LEN: usize = 8;

/// How many characters a connect code has.
pub const CONNECT_CODE_LEN: usize = 8;

/// After how many quiet seconds a message starts a group of its own in a chat.
pub const MESSAGE_GROUP_GAP_SECS: i64 = 120;

// ---------------------------------------------------------------------------------------------
// Rooms
// ---------------------------------------------------------------------------------------------

/// What names the room of two peers: half a labelled digest of both fingerprints, the smaller first.
pub open spec fn dm_digest(a: Seq<char>, b: Seq<char>) -> Seq<u8> {
    let (lo, hi) = if text::text_lt(b, a) {
        (b, a)
    } else {
        (a, b)
    };
    primitives::sha256(
        vstd::utf8::encode_utf8("huddle-dm-v1\0"@) + vstd::utf8::encode_utf8(lo)
            + vstd::utf8::encode_utf8("\0"@) + vstd::utf8::encode_utf8(hi),
    ).take(16)
}

/// The id of the room of two peers.
pub open spec fn dm_room_id(a: Seq<char>, b: Seq<char>) -> Seq<char> {
    primitives::hex_text(dm_digest(a, b))
}

/// The id of the room that two peers share.
pub fn canonical_dm_room_id(a: &str, b: &str) -> (r: String)
    ensures
        r@ == dm_room_id(a@, b@),
        r@.len() == 32,
{
    let swap: bool = text::less(b, a);
    let lo: &str = if swap {
        b
    } else {
        a
    };
    let hi: &str = if swap {
        a
    } else {
        b
    };
    let label: &str = "huddle-dm-v1\0";
    let zero: &str = "\0";
    let mut input: Vec<u8> = bytes::concat(label.as_bytes(), lo.as_bytes());
    bytes::push_all(&mut input, zero.as_bytes());
    bytes::push_all(&mut input, hi.as_bytes());
    let digest: [u8; 32] = primitives::sha256_digest(input.as_slice());
    let head: &[u8] = slice_subrange(digest.as_slice(), 0, 16);
    assert(head@ == digest@.take(16));
    primitives::hex_encode(head)
}

/// Both peers name the same room, whoever of them begins.
pub proof fn law_dm_room_id_is_commutative(a: Seq<char>, b: Seq<char>)
    ensures
        dm_room_id(a, b) == dm_room_id(b, a),
{
    text::lemma_text_order(a, b);
}

// ---------------------------------------------------------------------------------------------
// Peers
// ---------------------------------------------------------------------------------------------

/// What is left of a typed id: without the brand in front of it and without dashes.
pub open spec fn bare_id(input: Seq<char>) -> Seq<char> {
    text::without(
        text::without_prefixes(text::without_prefixes(text::trimmed(input), "HD-"@), "hd-"@),
        '-',
    )
}

/// The fingerprint that a typed id stands for.
pub open spec fn fingerprint_in(input: Seq<char>) -> Option<Seq<char>> {
    let hex = bare_id(input);
    if hex.len() == 24 && (forall|i: int| 0 <= i < 24 ==> text::is_hex_digit(#[trigger] hex[i])) {
        Some(identity::dashed(text::lower_all(hex)))
    } else {
        None
    }
}

/// Reads an id as a user types it: 24 hexadecimal digits, with or without dashes, and with or
/// without `HD-` in front of them.
pub fn normalize_to_fingerprint(input: &str) -> (r: Option<String>)
    ensures
        text::opt(r) == fingerprint_in(input@),
{
    let chars: Vec<char> = text::chars_of(input);
    let upper: Vec<char> = text::chars_of("HD-");
    let lower: Vec<char> = text::chars_of("hd-");
    proof {
        reveal_strlit("HD-");
        reveal_strlit("hd-");
    }
    let trimmed: &[char] = text::trim(chars.as_slice(), text::CharClass::Whitespace);
    let rest: &[char] = text::skip_prefixes(
        text::skip_prefixes(trimmed, upper.as_slice()),
        lower.as_slice(),
    );
    let hex: Vec<char> = text::without_char(rest, '-');
    if hex.len() != 24 {
        return None;
    }
    let mut i: usize = 0;
    while i < 24
        invariant
            hex@.len() == 24,
            hex@ == bare_id(input@),
            i <= 24,
            forall|j: int| 0 <= j < i ==> text::is_hex_digit(#[trigger] hex@[j]),
        decreases 24 - i,
    {
        if !text::hex_digit(hex[i]) {
            assert(!text::is_hex_digit(hex@[i as int]));
            return None;
        }
        i = i + 1;
    }
    let low: Vec<char> = text::lower_chars(hex.as_slice());
    Some(identity::dash_groups(low.as_slice()))
}

proof fn lemma_without_dashes(h: Seq<char>)
    requires
        forall|i: int| 0 <= i < h.len() ==> #[trigger] h[i] != '-',
    ensures
        text::without(identity::dashed(h), '-') == h,
    decreases h.len(),
{
    reveal(Seq::filter);
    if h.len() == 0 {
        assert(identity::dashed(h) =~= Seq::<char>::empty());
        assert(text::without(identity::dashed(h), '-') =~= h);
    } else {
        let rest = h.drop_last();
        let x = h.last();
        assert forall|i: int| 0 <= i < rest.len() implies #[trigger] rest[i] != '-' by {
            assert(h[i] != '-');
        }
        lemma_without_dashes(rest);
        assert(h[h.len() - 1] != '-');
        let d = identity::dashed(rest);
        if rest.len() > 0 && rest.len() % 4 == 0 {
            assert(identity::dashed(h) =~= d.push('-').push(x));
            text::lemma_without_push(d, '-', '-');
            text::lemma_without_push(d.push('-'), '-', x);
        } else {
            assert(identity::dashed(h) =~= d.push(x));
            text::lemma_without_push(d, '-', x);
        }
        assert(rest.push(x) =~= h);
    }
}

/// A fingerprint is the form that every way of typing it is brought to.
pub proof fn law_fingerprint_stands_for_itself(fp: Seq<char>)
    requires
        identity::is_fingerprint(fp),
    ensures
        fingerprint_in(fp) == Some(fp),
{
    let h = Seq::new(24, |i: int| fp[i + i / 4]);
    assert forall|i: int| 0 <= i < 24 implies text::is_lower_hex(#[trigger] h[i]) by {
        assert(fp[i + i / 4] == h[i]);
        assert((i + i / 4) % 5 != 4);
    }
    assert(identity::dashed(h) =~= fp) by {
        assert forall|i: int| 0 <= i < 29 implies identity::dashed(h)[i] == fp[i] by {
            if i % 5 == 4 {
                assert(fp[i] == '-');
            } else {
                let j = i - i / 5;
                assert(0 <= j < 24 && j + j / 4 == i);
            }
        }
    }
    assert forall|i: int| 0 <= i < h.len() implies #[trigger] h[i] != '-' by {
        assert(text::is_lower_hex(h[i]));
    }
    lemma_without_dashes(h);
    assert(text::is_lower_hex(fp[0]) && text::is_lower_hex(fp[28])) by {
        assert(fp[0] == h[0] && fp[28] == h[23]);
    }
    text::lemma_trim_nothing(fp, text::CharClass::Whitespace);
    reveal_strlit("HD-");
    reveal_strlit("hd-");
    assert(!text::starts_with(fp, "HD-"@)) by {
        assert("HD-"@[0] == 'H');
        assert(fp.take(3)[0] == fp[0]);
    }
    assert(!text::starts_with(fp, "hd-"@)) by {
        assert("hd-"@[0] == 'h');
        assert(fp.take(3)[0] == fp[0]);
    }
    assert(bare_id(fp) == h);
    assert(text::lower_all(h) =~= h);
}

/// A digit or a capital letter of a connect code: none of I, L, O and U.
pub open spec fn is_code_char(c: char) -> bool {
    text::is_digit(c) || ('A' <= c && c <= 'Z' && c != 'I' && c != 'L' && c != 'O' && c != 'U')
}

/// What is left of a typed connect code: in capitals, without dashes and spaces.
pub open spec fn bare_code(input: Seq<char>) -> Seq<char> {
    text::without(text::without(text::upper_all(text::trimmed(input)), '-'), ' ')
}

/// The connect code that a text stands for.
pub open spec fn connect_code_in(input: Seq<char>) -> Option<Seq<char>> {
    let code = bare_code(input);
    if code.len() == CONNECT_CODE_LEN && (forall|i: int|
        0 <= i < CONNECT_CODE_LEN ==> is_code_char(#[trigger] code[i])) {
        Some(code)
    } else {
        None
    }
}

/// Reads a connect code as a user types it.
pub fn normalize_connect_code(input: &str) -> (r: Option<String>)
    ensures
        text::opt(r) == connect_code_in(input@),
{
    let chars: Vec<char> = text::chars_of(input);
    let trimmed: &[char] = text::trim(chars.as_slice(), text::CharClass::Whitespace);
    let upper: Vec<char> = text::upper_chars(trimmed);
    let no_dash: Vec<char> = text::without_char(upper.as_slice(), '-');
    let code: Vec<char> = text::without_char(no_dash.as_slice(), ' ');
    if code.len() != CONNECT_CODE_LEN {
        return None;
    }
    let mut i: usize = 0;
    while i < CONNECT_CODE_LEN
        invariant
            code@.len() == CONNECT_CODE_LEN,
            code@ == bare_code(input@),
            i <= CONNECT_CODE_LEN,
            forall|j: int| 0 <= j < i ==> is_code_char(#[trigger] code@[j]),
        decreases CONNECT_CODE_LEN - i,
    {
        let c: char = code[i];
        let digit: bool = '0' <= c && c <= '9';
        let letter: bool = 'A' <= c && c <= 'Z' && c != 'I' && c != 'L' && c != 'O' && c != 'U';
        if !digit && !letter {
            assert(!is_code_char(code@[i as int]));
            return None;
        }
        i = i + 1;
    }
    Some(text::string_of(code.as_slice()))
}

/// A connect code reads as itself.
pub proof fn law_connect_code_stands_for_itself(code: Seq<char>)
    requires
        code.len() == CONNECT_CODE_LEN,
        forall|i: int| 0 <= i < CONNECT_CODE_LEN ==> is_code_char(#[trigger] code[i]),
    ensures
        connect_code_in(code) == Some(code),
{
    broadcast use vstd::seq_lib::group_filter_ensures;

    assert(is_code_char(code[0]) && is_code_char(code[CONNECT_CODE_LEN - 1]));
    text::lemma_trim_nothing(code, text::CharClass::Whitespace);
    assert(text::upper_all(code) =~= code);
    lemma_without_absent(code, '-');
    lemma_without_absent(code, ' ');
}

/// Capitals and what is left without a character that has no case: the order does not matter.
proof fn lemma_upper_without(s: Seq<char>, c: char)
    requires
        c == '-' || c == ' ',
    ensures
        text::without(text::upper_all(s), c) == text::upper_all(text::without(s, c)),
    decreases s.len(),
{
    reveal(Seq::filter);
    if s.len() == 0 {
        assert(text::upper_all(s) =~= s);
        assert(text::without(s, c) =~= s);
    } else {
        let rest = s.drop_last();
        lemma_upper_without(rest, c);
        assert(text::upper_all(s).drop_last() =~= text::upper_all(rest));
        assert(s =~= rest.push(s.last()));
        text::lemma_without_push(rest, c, s.last());
        assert(text::without(text::upper_all(s), c) =~= text::upper_all(text::without(s, c)));
    }
}

/// What is left without a prefix is the end of a text.
proof fn lemma_suffix(s: Seq<char>, p: Seq<char>)
    requires
        p.len() > 0,
    ensures
        text::without_prefixes(s, p).len() <= s.len(),
        text::without_prefixes(s, p) == s.skip(s.len() - text::without_prefixes(s, p).len()),
    decreases s.len(),
{
    if text::starts_with(s, p) {
        lemma_suffix(s.skip(p.len() as int), p);
        let r = text::without_prefixes(s, p);
        assert(s.skip(p.len() as int).skip(s.len() - p.len() - r.len()) =~= s.skip(
            s.len() - r.len(),
        ));
    } else {
        assert(s.skip(0) =~= s);
    }
}

/// No text is both an id of a peer and a connect code.
pub proof fn law_connect_codes_are_no_ids(input: Seq<char>)
    ensures
        connect_code_in(input) is None || fingerprint_in(input) is None,
{
    if fingerprint_in(input) is Some {
        let t = text::trimmed(input);
        let a = text::without_prefixes(t, "HD-"@);
        let b = text::without_prefixes(a, "hd-"@);
        reveal_strlit("HD-");
        reveal_strlit("hd-");
        lemma_suffix(t, "HD-"@);
        lemma_suffix(a, "hd-"@);
        let n = t.len() - b.len();
        assert(b =~= t.skip(n));
        assert(t =~= t.take(n) + b);
        let hex = text::without(b, '-');
        let front = text::without(t.take(n), '-');
        Seq::filter_distributes_over_add(t.take(n), b, |x: char| x != '-');
        assert(text::without(t, '-') == front + hex);
        lemma_upper_without(t, '-');
        let w = text::upper_all(front + hex);
        let tail = text::upper_all(hex);
        assert(w =~= text::upper_all(front) + tail);
        Seq::filter_distributes_over_add(text::upper_all(front), tail, |x: char| x != ' ');
        assert forall|i: int| 0 <= i < tail.len() implies #[trigger] tail[i] != ' ' by {
            assert(text::is_hex_digit(hex[i]));
        }
        lemma_without_absent(tail, ' ');
        assert(bare_code(input).len() >= 24);
    }
}

proof fn lemma_without_absent(s: Seq<char>, c: char)
    requires
        forall|i: int| 0 <= i < s.len() ==> #[trigger] s[i] != c,
    ensures
        text::without(s, c) == s,
    decreases s.len(),
{
    reveal(Seq::filter);
    if s.len() > 0 {
        assert forall|i: int| 0 <= i < s.len() - 1 implies #[trigger] s.drop_last()[i] != c by {
            assert(s[i] != c);
        }
        lemma_without_absent(s.drop_last(), c);
        assert(s[s.len() - 1] != c);
        assert(s.drop_last().push(s.last()) =~= s);
    }
}

/// The short name of a peer in messages.
pub open spec fn short_name(fingerprint: Seq<char>) -> Seq<char> {
    let bare = text::without(fingerprint, '-');
    "HD-"@ + text::upper_all(
        if bare.len() > 4 {
            bare.take(4)
        } else {
            bare
        },
    ) + "…"@
}

/// The first four digits of a fingerprint, with the brand in front of them.
pub fn short_fp_for_msg(fingerprint: &str) -> (r: String)
    ensures
        r@ == short_name(fingerprint@),
{
    let chars: Vec<char> = text::chars_of(fingerprint);
    let bare: Vec<char> = text::without_char(chars.as_slice(), '-');
    let head: &[char] = if bare.len() > 4 {
        slice_subrange(bare.as_slice(), 0, 4)
    } else {
        bare.as_slice()
    };
    proof {
        if bare@.len() > 4 {
            assert(head@ =~= bare@.take(4));
        }
    }
    let upper: Vec<char> = text::upper_chars(head);
    let name: String = text::string_of(upper.as_slice());
    text::join3("HD-", name.as_str(), "…")
}

// ---------------------------------------------------------------------------------------------
// Messages
// ---------------------------------------------------------------------------------------------

/// Sixteen bytes with the marks of a random identifier: version four and the common variant.
pub open spec fn marked(b: Seq<u8>) -> Seq<u8> {
    b.update(6, (b[6] % 16 + 64) as u8).update(8, (b[8] % 64 + 128) as u8)
}

/// The text of an identifier: groups of 8, 4, 4, 4 and 12 digits.
pub open spec fn msg_id_text(b: Seq<u8>) -> Seq<char> {
    let m = marked(b);
    primitives::hex_text(m.subrange(0, 4)) + "-"@ + primitives::hex_text(m.subrange(4, 6)) + "-"@
        + primitives::hex_text(m.subrange(6, 8)) + "-"@ + primitives::hex_text(m.subrange(8, 10))
        + "-"@ + primitives::hex_text(m.subrange(10, 16))
}

/// The identifier of these bytes.
pub fn msg_id_from(random: [u8; 16]) -> (r: String)
    ensures
        r@ == msg_id_text(random@),
{
    let mut b: [u8; 16] = random;
    b[6] = b[6] % 16 + 64;
    b[8] = b[8] % 64 + 128;
    assert(b@ =~= marked(random@));
    let all: &[u8] = b.as_slice();
    let mut out: String = primitives::hex_encode(slice_subrange(all, 0, 4));
    text::push_str(&mut out, "-");
    let g2: String = primitives::hex_encode(slice_subrange(all, 4, 6));
    text::push_str(&mut out, g2.as_str());
    text::push_str(&mut out, "-");
    let g3: String = primitives::hex_encode(slice_subrange(all, 6, 8));
    text::push_str(&mut out, g3.as_str());
    text::push_str(&mut out, "-");
    let g4: String = primitives::hex_encode(slice_subrange(all, 8, 10));
    text::push_str(&mut out, g4.as_str());
    text::push_str(&mut out, "-");
    let g5: String = primitives::hex_encode(slice_subrange(all, 10, 16));
    text::push_str(&mut out, g5.as_str());
    out
}

/// A fresh identifier for a message, by which every peer knows it.
pub fn new_client_msg_id() -> (r: String)
    ensures
        exists|b: Seq<u8>| b.len() == 16 && r@ == #[trigger] msg_id_text(b),
{
    let random: [u8; 32] = primitives::random_32();
    let b: [u8; 16] = bytes::array_16(slice_subrange(random.as_slice(), 0, 16));
    msg_id_from(b)
}

/// Every identifier has the shape of a random one: 36 characters, dashes where they belong and
/// lower-case hexadecimal digits elsewhere, a 4 for the version and one of 8, 9, a, b for the
/// variant.
pub proof fn law_msg_id_shape(b: Seq<u8>)
    requires
        b.len() == 16,
    ensures
        ({
            let t = msg_id_text(b);
            &&& t.len() == 36
            &&& t[8] == '-' && t[13] == '-' && t[18] == '-' && t[23] == '-'
            &&& forall|i: int|
                0 <= i < 36 && i != 8 && i != 13 && i != 18 && i != 23 ==> text::is_lower_hex(
                    #[trigger] t[i],
                )
            &&& t[14] == '4'
            &&& (t[19] == '8' || t[19] == '9' || t[19] == 'a' || t[19] == 'b')
        }),
{
    let m = marked(b);
    let t = msg_id_text(b);
    reveal_strlit("-");
    assert(t.len() == 36);
    assert forall|i: int|
        0 <= i < 36 && i != 8 && i != 13 && i != 18 && i != 23 implies text::is_lower_hex(
        #[trigger] t[i],
    ) by {
        let k = if i < 8 {
            i
        } else if i < 13 {
            i - 1
        } else if i < 18 {
            i - 2
        } else if i < 23 {
            i - 3
        } else {
            i - 4
        };
        let n: int = if k % 2 == 0 {
            m[k / 2] as int / 16
        } else {
            m[k / 2] as int % 16
        };
        assert(0 <= n < 16);
        assert(t[i] == primitives::hex_char(n));
    }
    assert(m[6] / 16 == 4);
    assert(t[14] == primitives::hex_char((m[6] / 16) as int));
    assert(8 <= m[8] / 16 <= 11);
    assert(t[19] == primitives::hex_char((m[8] / 16) as int));
}

// ---------------------------------------------------------------------------------------------
// Identities
// ---------------------------------------------------------------------------------------------

/// Rebuilds the identity of a seed phrase.
pub fn import_identity_from_phrase(phrase: &str) -> (r: Result<Identity, HuddleError>)
    ensures
        match r {
            Ok(id) => mnemonic::seed_of(phrase@) == Ok::<Seq<u8>, ErrorView>(id@.seed) && id@.wf(),
            Err(e) => mnemonic::seed_of(phrase@) == Err::<Seq<u8>, ErrorView>(e@),
        },
{
    match mnemonic::phrase_to_seed(phrase) {
        Err(e) => Err(e),
        Ok(seed) => Identity::from_seed(seed),
    }
}

/// The fingerprint of the identity of a seed phrase, or why it has none.
pub open spec fn phrase_fingerprint(phrase: Seq<char>) -> Result<Seq<char>, ErrorView> {
    match mnemonic::seed_of(phrase) {
        Ok(seed) => Ok(identity::fingerprint_of(primitives::ed25519_public(seed))),
        Err(e) => Err(e),
    }
}

/// The fingerprint of the identity of a seed phrase.
pub fn fingerprint_from_phrase(phrase: &str) -> (r: Result<String, HuddleError>)
    ensures
        crate::error::result_view(r) == phrase_fingerprint(phrase@),
{
    match import_identity_from_phrase(phrase) {
        Err(e) => Err(e),
        Ok(id) => Ok(text::owned(id.fingerprint())),
    }
}

// ---------------------------------------------------------------------------------------------
// Passphrases
// ---------------------------------------------------------------------------------------------

/// Why a passphrase may not be set.
pub open spec fn passphrase_fault(p: Seq<char>) -> Option<ErrorView> {
    if p.len() < MIN_PASSPHRASE_LEN {
        Some(ErrorView::Other("passphrase must be at least 8 characters"@))
    } else {
        None
    }
}

/// A passphrase that is set has eight characters or more.
pub fn validate_passphrase_len(p: &str) -> (r: Result<(), HuddleError>)
    ensures
        match r {
            Ok(_) => passphrase_fault(p@) is None,
            Err(e) => passphrase_fault(p@) == Some(e@),
        },
{
    let chars: Vec<char> = text::chars_of(p);
    if chars.len() < MIN_PASSPHRASE_LEN {
        return Err(crate::error::other_error("passphrase must be at least 8 characters"));
    }
    Ok(())
}

/// How many random bytes a fresh passphrase for a room is made of.
pub const JOIN_PASSPHRASE_BYTES: usize = 18;

/// A fresh passphrase for a room: 18 bytes of the operating system's generator in URL-safe base64, which
/// are 24 characters.
pub fn generate_join_passphrase() -> (r: String)
    ensures
        exists|b: Seq<u8>|
            b.len() == JOIN_PASSPHRASE_BYTES && r@ == #[trigger] primitives::base64_url_text(b),
        r@.len() == 24,
        forall|i: int| 0 <= i < 24 ==> primitives::is_url_safe(#[trigger] r@[i]),
{
    let random: [u8; 32] = primitives::os_random_32();
    primitives::base64_url_encode(slice_subrange(random.as_slice(), 0, JOIN_PASSPHRASE_BYTES))
}

/// A character of a join code: a capital letter but I, L and O, or a digit from 2 on.
pub open spec fn is_join_code_char(c: char) -> bool {
    ('A' <= c && c <= 'Z' && c != 'I' && c != 'L' && c != 'O') || ('2' <= c && c <= '9')
}

/// `len` characters of a join code; a code of eight has a dash in the middle.
pub open spec fn is_join_code(code: Seq<char>, len: nat) -> bool {
    if len == 8 {
        &&& code.len() == 9
        &&& code[4] == '-'
        &&& forall|i: int| 0 <= i < 9 && i != 4 ==> is_join_code_char(#[trigger] code[i])
    } else {
        &&& code.len() == len
        &&& forall|i: int| 0 <= i < code.len() ==> is_join_code_char(#[trigger] code[i])
    }
}

/// The character of a join code that this number stands for.
fn join_code_char(n: usize) -> (r: char)
    requires
        n < 31,
    ensures
        is_join_code_char(r),
{
    let n: u8 = n as u8;
    let b: u8 = if n < 8 {
        65 + n
    } else if n < 10 {
        74 + (n - 8)
    } else if n < 12 {
        77 + (n - 10)
    } else if n < 23 {
        80 + (n - 12)
    } else {
        50 + (n - 23)
    };
    b as char
}

/// A random join code.
pub fn generate_alphanumeric_code(len: usize) -> (r: String)
    ensures
        is_join_code(r@, len as nat),
{
    let mut out: String = String::new();
    let mut i: usize = 0;
    while i < len
        invariant
            i <= len,
            out@.len() == (if len == 8 && i > 4 {
                i + 1
            } else {
                i as int
            }),
            len == 8 && i > 4 ==> out@[4] == '-',
            forall|j: int|
                0 <= j < out@.len() && !(len == 8 && j == 4) ==> is_join_code_char(
                    #[trigger] out@[j],
                ),
        decreases len - i,
    {
        if i == 4 && len == 8 {
            out.push('-');
        }
        let n: usize = primitives::random_below(31);
        out.push(join_code_char(n));
        i = i + 1;
    }
    out
}

/// How many bytes the salt of a room has.
pub fn salt_len() -> (r: usize)
    ensures
        r == passphrase::SALT_LEN,
{
    passphrase::SALT_LEN
}

proof fn lemma_same_bits(d: u8, x: u8, y: u8)
    ensures
        ((d | (x ^ y)) == 0) == (d == 0 && x == y),
{
    assert(((d | (x ^ y)) == 0) == (d == 0 && x == y)) by (bit_vector);
}

/// Whether two keys are the same, found without stopping at the first difference.
pub fn ct_eq_32(a: &[u8; 32], b: &[u8; 32]) -> (r: bool)
    ensures
        r == (a@ == b@),
{
    let mut diff: u8 = 0;
    let mut i: usize = 0;
    while i < 32
        invariant
            i <= 32,
            (diff == 0) == (forall|j: int| 0 <= j < i ==> a@[j] == b@[j]),
        decreases 32 - i,
    {
        proof {
            lemma_same_bits(diff, a@[i as int], b@[i as int]);
        }
        diff = diff | (a[i] ^ b[i]);
        i = i + 1;
    }
    proof {
        if diff == 0 {
            assert(a@ =~= b@);
        }
    }
    diff == 0
}

// ---------------------------------------------------------------------------------------------
// Paths
// ---------------------------------------------------------------------------------------------

/// `rest` below `dir`, whatever `rest` begins with.
pub open spec fn path_joined(dir: Seq<char>, rest: Seq<char>) -> Seq<char> {
    if dir.len() == 0 || dir.last() == '/' {
        dir + rest
    } else {
        dir + "/"@ + rest
    }
}

/// The path that a typed path stands for. Only `~` and `~/` at the start stand for the home
/// directory.
pub open spec fn expanded(input: Seq<char>, home: Option<Seq<char>>) -> Seq<char> {
    match home {
        None => input,
        Some(h) => if input == "~"@ {
            h
        } else if text::starts_with(input, "~/"@) {
            path_joined(h, input.skip(2))
        } else {
            input
        },
    }
}

/// The path that a typed path stands for, with this home directory. What begins with `~/` stays below
/// it.
pub fn expand_tilde_with(input: &str, home: Option<&str>) -> (r: String)
    ensures
        r@ == expanded(input@, text::opt_str(home)),
        home matches Some(h) ==> text::starts_with(input@, "~/"@) ==> text::starts_with(r@, h@),
{
    match home {
        None => text::owned(input),
        Some(h) => {
            if text::same(input, "~") {
                proof {
                    reveal_strlit("~");
                    reveal_strlit("~/");
                }
                return text::owned(h);
            }
            if !text::text_has_prefix(input, "~/") {
                return text::owned(input);
            }
            proof {
                reveal_strlit("~/");
            }
            let chars: Vec<char> = text::chars_of(input);
            let rest: &[char] = slice_subrange(chars.as_slice(), 2, chars.len());
            assert(rest@ =~= input@.skip(2));
            let tail: String = text::string_of(rest);
            let dir: Vec<char> = text::chars_of(h);
            let path: String = if dir.len() == 0 || dir[dir.len() - 1] == '/' {
                text::join2(h, tail.as_str())
            } else {
                text::join3(h, "/", tail.as_str())
            };
            assert(path@.take(h@.len() as int) =~= h@);
            path
        },
    }
}

} // verus!

//! Whether a message names us.
use crate::text;
use vstd::prelude::*;
use vstd::slice::slice_subrange;

verus! {

/// The first eight hexadecimal digits of a text.
pub open spec fn short_id(s: Seq<char>) -> Seq<char> {
    let digits = s.filter(|c: char| text::is_hex_digit(c));
    if digits.len() > 8 {
        digits.take(8)
    } else {
        digits
    }
}

/// `word` stands in `s` at `i` and is no part of a longer run of hexadecimal digits.
pub open spec fn stands_alone(s: Seq<char>, word: Seq<char>, i: int) -> bool {
    &&& text::occurs_at(s, word, i)
    &&& i > 0 ==> !text::is_hex_digit(s[i - 1])
    &&& i + word.len() < s.len() ==> !text::is_hex_digit(s[i + word.len()])
}

/// Eight digits as they are shown to users, in lower case: `hd-xxxx-xxxx`.
pub open spec fn branded(short: Seq<char>) -> Seq<char> {
    "hd-"@ + short.take(4) + "-"@ + short.skip(4)
}

/// A text names a peer by the whole fingerprint, or by the first eight digits of it, standing alone or in
/// the form `HD-XXXX-XXXX`. Upper and lower case do not matter.
pub open spec fn mentions(body: Seq<char>, fingerprint: Seq<char>) -> bool {
    let full = text::lowercase(fingerprint);
    let lower = text::lowercase(body);
    let short = short_id(full);
    ||| text::occurs_in(lower, full)
    ||| exists|i: int| stands_alone(lower, short, i)
    ||| short.len() == 8 && text::occurs_in(lower, branded(short))
}

fn short_of(s: &[char]) -> (r: Vec<char>)
    ensures
        r@ == short_id(s@),
{
    let mut out: Vec<char> = Vec::new();
    let ghost hex = |c: char| text::is_hex_digit(c);
    let mut i: usize = 0;
    proof {
        reveal(Seq::filter);
        assert(s@.take(0).filter(hex) =~= Seq::<char>::empty());
    }
    while i < s.len()
        invariant
            i <= s.len(),
            hex == (|c: char| text::is_hex_digit(c)),
            out@ == s@.take(i as int).filter(hex),
        decreases s.len() - i,
    {
        proof {
            reveal(Seq::filter);
            assert(s@.take(i + 1).drop_last() =~= s@.take(i as int));
            assert(s@.take(i + 1).last() == s@[i as int]);
        }
        if text::hex_digit(s[i]) {
            out.push(s[i]);
        }
        i = i + 1;
    }
    assert(s@.take(s@.len() as int) =~= s@);
    if out.len() > 8 {
        let ghost all = out@;
        out.truncate(8);
        assert(out@ =~= all.take(8));
    }
    out
}

fn has_word(s: &[char], word: &[char]) -> (r: bool)
    ensures
        r == (exists|i: int| stands_alone(s@, word@, i)),
{
    if word.len() > s.len() {
        assert(forall|i: int| !text::occurs_at(s@, word@, i));
        return false;
    }
    let last: usize = s.len() - word.len();
    let mut i: usize = 0;
    let mut more: bool = true;
    while more
        invariant
            s.len() == s@.len(),
            last + word@.len() == s@.len(),
            more ==> i <= last,
            more ==> forall|j: int| 0 <= j < i ==> !stands_alone(s@, word@, j),
            !more ==> forall|j: int| 0 <= j <= last ==> !stands_alone(s@, word@, j),
        decreases last + 1 - i + (if more {
            1int
        } else {
            0
        }),
    {
        let here: bool = text::same_chars(slice_subrange(s, i, i + word.len()), word);
        let left: bool = i == 0 || !text::hex_digit(s[i - 1]);
        let right: bool = i == last || !text::hex_digit(s[i + word.len()]);
        if here && left && right {
            assert(stands_alone(s@, word@, i as int));
            return true;
        }
        assert(!stands_alone(s@, word@, i as int));
        if i == last {
            more = false;
        } else {
            i = i + 1;
        }
    }
    assert(forall|j: int| !stands_alone(s@, word@, j));
    false
}

/// The text names the peer.
pub fn mentions_peer(body: &str, fingerprint: &str) -> (r: bool)
    ensures
        r == mentions(body@, fingerprint@),
{
    let lower: String = text::to_lowercase(body);
    let full: String = text::to_lowercase(fingerprint);
    let lower_chars: Vec<char> = text::chars_of(lower.as_str());
    let full_chars: Vec<char> = text::chars_of(full.as_str());
    if text::find_text(lower_chars.as_slice(), full_chars.as_slice()).is_some() {
        return true;
    }
    let short: Vec<char> = short_of(full_chars.as_slice());
    if has_word(lower_chars.as_slice(), short.as_slice()) {
        return true;
    }
    if short.len() != 8 {
        return false;
    }
    let mut form: Vec<char> = vec!['h', 'd', '-'];
    let mut i: usize = 0;
    proof {
        reveal_strlit("hd-");
        reveal_strlit("-");
        assert(form@ =~= branded(short@).take(3));
    }
    while i < 8
        invariant
            short@.len() == 8,
            i <= 8,
            form@ == branded(short@).take(
                if i <= 4 {
                    3 + i
                } else {
                    4 + i
                },
            ),
            branded(short@).len() == 12,
            branded(short@)[7] == '-',
            forall|j: int| 0 <= j < 4 ==> #[trigger] branded(short@)[3 + j] == short@[j],
            forall|j: int| 4 <= j < 8 ==> #[trigger] branded(short@)[4 + j] == short@[j],
        decreases 8 - i,
    {
        let ghost before = form@;
        if i == 4 {
            form.push('-');
        }
        form.push(short[i]);
        proof {
            if i < 4 {
                assert(branded(short@)[3 + i] == short@[i as int]);
            } else {
                assert(branded(short@)[4 + i] == short@[i as int]);
            }
            assert(form@ =~= branded(short@).take(
                if i + 1 <= 4 {
                    3 + (i + 1)
                } else {
                    4 + (i + 1)
                },
            ));
        }
        i = i + 1;
    }
    assert(form@ =~= branded(short@));
    text::find_text(lower_chars.as_slice(), form.as_slice()).is_some()
}

} // verus!

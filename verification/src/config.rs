//! The settings in the configuration file, and where data is kept.
//!
//! The file is a list of `key = value` lines, as in TOML: values may be quoted, a `#` begins a
//! comment, and section headers are passed over. The one list in it is that of the relays, which
//! may run over several lines.
use crate::text;
use vstd::prelude::*;
use vstd::slice::slice_subrange;

verus! {

/// Where the database is kept.
pub fn db_path(data_dir: &str) -> (r: String)
    ensures
        r@ == data_dir@ + "/huddle.db"@,
{
    text::join2(data_dir, "/huddle.db")
}

/// Where the log is kept.
pub fn log_path(data_dir: &str) -> (r: String)
    ensures
        r@ == data_dir@ + "/huddle.log"@,
{
    text::join2(data_dir, "/huddle.log")
}

/// Where everything is kept: under the user's data directory, or the current one.
pub fn data_dir(base: Option<&str>) -> (r: String)
    ensures
        r@ == (match base {
            Some(b) => b@,
            None => "."@,
        }) + "/huddle"@,
{
    match base {
        Some(b) => text::join2(b, "/huddle"),
        None => text::join2(".", "/huddle"),
    }
}

/// Where the configuration file is: under the user's configuration directory, or the current one.
pub fn config_path(base: Option<&str>) -> (r: String)
    ensures
        r@ == (match base {
            Some(b) => b@,
            None => "."@,
        }) + "/huddle/config.toml"@,
{
    match base {
        Some(b) => text::join2(b, "/huddle/config.toml"),
        None => text::join2(".", "/huddle/config.toml"),
    }
}

// ---------------------------------------------------------------------------------------------
// Lines
// ---------------------------------------------------------------------------------------------

/// What a line says: without its comment and without white space around it.
pub open spec fn content(raw: Seq<char>) -> Seq<char> {
    text::trimmed(text::before(raw, '#'))
}

/// The value that a line gives to a key, if it gives one.
pub open spec fn assigned(line: Seq<char>, key: Seq<char>) -> Option<Seq<char>> {
    if text::starts_with(line, key) {
        let rest = text::trim_start_of(line.skip(key.len() as int), text::CharClass::Whitespace);
        if rest.len() > 0 && rest[0] == '=' {
            Some(text::trimmed(rest.skip(1)))
        } else {
            None
        }
    } else {
        None
    }
}

/// A value without the quotes around it.
pub open spec fn unquoted(s: Seq<char>) -> Seq<char> {
    text::trim_of(
        text::trim_of(s, text::CharClass::Only('"')),
        text::CharClass::Only('\''),
    )
}

pub fn strip_inline_comment(line: &[char]) -> (r: &[char])
    ensures
        r@ == text::before(line@, '#'),
{
    let i: usize = text::find(line, '#');
    assert(line@.subrange(0, i as int) =~= line@.take(i as int));
    slice_subrange(line, 0, i)
}

fn content_of(raw: &[char]) -> (r: &[char])
    ensures
        r@ == content(raw@),
{
    text::trim(strip_inline_comment(raw), text::CharClass::Whitespace)
}

fn unquote(s: &[char]) -> (r: &[char])
    ensures
        r@ == unquoted(s@),
{
    text::trim(text::trim(s, text::CharClass::Only('"')), text::CharClass::Only('\''))
}

fn assignment<'a>(line: &'a [char], key: &[char]) -> (r: Option<&'a [char]>)
    ensures
        match r {
            Some(v) => assigned(line@, key@) == Some(v@),
            None => assigned(line@, key@) is None,
        },
{
    if !text::has_prefix(line, key) {
        return None;
    }
    let after: &'a [char] = slice_subrange(line, key.len(), line.len());
    assert(after@ =~= line@.skip(key@.len() as int));
    let rest: &'a [char] = text::trim_start(after, text::CharClass::Whitespace);
    if rest.len() == 0 || rest[0] != '=' {
        return None;
    }
    let value: &'a [char] = slice_subrange(rest, 1, rest.len());
    assert(value@ =~= rest@.skip(1));
    Some(text::trim(value, text::CharClass::Whitespace))
}

// ---------------------------------------------------------------------------------------------
// Single values
// ---------------------------------------------------------------------------------------------

/// The first value of a key that is not empty, if these lines give it one.
pub open spec fn scalar_in(lines: Seq<Seq<char>>, key: Seq<char>) -> Option<Seq<char>>
    decreases lines.len(),
{
    if lines.len() == 0 {
        None
    } else {
        let value = match assigned(content(lines[0]), key) {
            Some(v) => text::trimmed(unquoted(v)),
            None => Seq::empty(),
        };
        if value.len() > 0 {
            Some(value)
        } else {
            scalar_in(lines.skip(1), key)
        }
    }
}

/// The line that `s` begins with, as its end, the place where the next begins, and whether a line
/// feed ends it.
fn next_line(chars: &[char], from: usize) -> (r: (usize, usize))
    requires
        from < chars@.len(),
    ensures
        from <= r.0 <= chars@.len(),
        from < r.1 <= chars@.len(),
        text::lines(chars@.skip(from as int)) == seq![chars@.subrange(from as int, r.0 as int)]
            + text::lines(chars@.skip(r.1 as int)),
{
    let rest: &[char] = slice_subrange(chars, from, chars.len());
    let ghost s = chars@.skip(from as int);
    assert(rest@ =~= s);
    let i: usize = text::find(rest, '\n');
    proof {
        text::lemma_first_at(s, '\n', 0);
    }
    if i < rest.len() {
        let mut end: usize = from + i;
        if i > 0 && rest[i - 1] == '\r' {
            end = end - 1;
        }
        proof {
            assert(s.skip(i + 1) =~= chars@.skip(from + i + 1));
            assert(text::without_cr(s.take(i as int)) =~= chars@.subrange(
                from as int,
                end as int,
            )) by {
                if i > 0 {
                    assert(s.take(i as int).last() == rest@[i - 1]);
                }
            }
        }
        (end, from + i + 1)
    } else {
        proof {
            assert(chars@.skip(chars@.len() as int) =~= Seq::<char>::empty());
            assert(chars@.subrange(from as int, chars@.len() as int) =~= s);
            assert(text::lines(s) =~= seq![s] + text::lines(Seq::<char>::empty()));
        }
        (chars.len(), chars.len())
    }
}

/// The value of a key in a configuration, if it has one.
pub fn parse_scalar(body: &str, key: &str) -> (r: Option<String>)
    ensures
        match r {
            Some(v) => scalar_in(text::lines(body@), key@) == Some(v@),
            None => scalar_in(text::lines(body@), key@) is None,
        },
{
    let chars: Vec<char> = text::chars_of(body);
    let key_chars: Vec<char> = text::chars_of(key);
    let mut from: usize = 0;
    assert(chars@.skip(0) =~= chars@);
    while from < chars.len()
        invariant
            chars@ == body@,
            key_chars@ == key@,
            from <= chars@.len(),
            scalar_in(text::lines(body@), key@) == scalar_in(
                text::lines(chars@.skip(from as int)),
                key@,
            ),
        decreases chars@.len() - from,
    {
        let (end, next): (usize, usize) = next_line(chars.as_slice(), from);
        let raw: &[char] = slice_subrange(chars.as_slice(), from, end);
        proof {
            let ls = text::lines(chars@.skip(from as int));
            assert(ls[0] == raw@);
            assert(ls.skip(1) =~= text::lines(chars@.skip(next as int)));
        }
        match assignment(content_of(raw), key_chars.as_slice()) {
            Some(v) => {
                let value: &[char] = text::trim(unquote(v), text::CharClass::Whitespace);
                if value.len() > 0 {
                    return Some(text::string_of(value));
                }
            },
            None => {},
        }
        from = next;
    }
    assert(chars@.skip(chars@.len() as int) =~= Seq::<char>::empty());
    None
}

// ---------------------------------------------------------------------------------------------
// The list of relays
// ---------------------------------------------------------------------------------------------

/// The entries of a list among these pieces: trimmed, unquoted, and not empty.
pub open spec fn entries(pieces: Seq<Seq<char>>) -> Seq<Seq<char>>
    decreases pieces.len(),
{
    if pieces.len() == 0 {
        Seq::empty()
    } else {
        let item = unquoted(text::trimmed(pieces[0]));
        if item.len() > 0 {
            seq![item] + entries(pieces.skip(1))
        } else {
            entries(pieces.skip(1))
        }
    }
}

/// The entries of a segment of a list, between its commas.
pub open spec fn relay_items(segment: Seq<char>) -> Seq<Seq<char>> {
    entries(text::split(segment, ','))
}

/// The relays that these lines list, read inside of a list or outside of one.
pub open spec fn relays_in(lines: Seq<Seq<char>>, in_array: bool) -> Seq<Seq<char>>
    decreases lines.len(),
{
    if lines.len() == 0 {
        Seq::empty()
    } else {
        let line = content(lines[0]);
        let rest = lines.skip(1);
        if line.len() == 0 {
            relays_in(rest, in_array)
        } else if in_array {
            relay_items(text::before(line, ']')) + relays_in(rest, !line.contains(']'))
        } else {
            match assigned(line, "relays"@) {
                None => relays_in(rest, false),
                Some(value) => if value.len() > 0 && value[0] == '[' {
                    let list = value.skip(1);
                    relay_items(text::before(list, ']')) + relays_in(rest, !list.contains(']'))
                } else if unquoted(value).len() > 0 {
                    seq![unquoted(value)] + relays_in(rest, false)
                } else {
                    relays_in(rest, false)
                },
            }
        }
    }
}

/// Adds the entries of a segment of a list.
pub fn collect_relay_items(segment: &[char], out: &mut Vec<String>)
    ensures
        text::texts(final(out)@) == text::texts(old(out)@) + relay_items(segment@),
{
    let mut from: usize = 0;
    let mut more: bool = true;
    assert(segment@.skip(0) =~= segment@);
    while more
        invariant
            from <= segment@.len(),
            more ==> text::texts(out@) + entries(text::split(segment@.skip(from as int), ',')) == text::texts(
                old(out)@,
            ) + relay_items(segment@),
            !more ==> text::texts(out@) == text::texts(old(out)@) + relay_items(segment@),
        decreases (if more { 1int } else { 0int }), segment@.len() - from,
    {
        let ghost out0 = text::texts(out@);
        let rest: &[char] = slice_subrange(segment, from, segment.len());
        let ghost s = segment@.skip(from as int);
        assert(rest@ =~= s);
        let i: usize = text::find(rest, ',');
        proof {
            text::lemma_first_at(s, ',', 0);
        }
        let piece: &[char] = slice_subrange(rest, 0, i);
        proof {
            assert(piece@ =~= s.take(i as int));
            if i < s.len() {
                let tail = text::split(s.skip(i + 1), ',');
                assert((seq![s.take(i as int)] + tail).skip(1) =~= tail);
            } else {
                assert(s.take(i as int) =~= s);
                assert(seq![s].skip(1) =~= Seq::<Seq<char>>::empty());
                assert(entries(Seq::<Seq<char>>::empty()) =~= Seq::<Seq<char>>::empty());
            }
        }
        let item: &[char] = unquote(text::trim(piece, text::CharClass::Whitespace));
        if item.len() > 0 {
            out.push(text::string_of(item));
            assert(text::texts(out@) =~= out0.push(item@));
        }
        if i < rest.len() {
            proof {
                assert(s.skip(i + 1) =~= segment@.skip(from + i + 1));
                let tail = entries(text::split(s.skip(i + 1), ','));
                assert(out0.push(item@) + tail =~= out0 + (seq![item@] + tail));
            }
            from = from + i + 1;
        } else {
            proof {
                assert(out0 + (seq![item@] + Seq::<Seq<char>>::empty()) =~= out0.push(item@));
                assert(out0 + Seq::<Seq<char>>::empty() =~= out0);
            }
            more = false;
        }
    }
}

/// The relays that a configuration lists.
pub fn parse_relays(body: &str) -> (r: Vec<String>)
    ensures
        text::texts(r@) == relays_in(text::lines(body@), false),
{
    let mut out: Vec<String> = Vec::new();
    let chars: Vec<char> = text::chars_of(body);
    let key: Vec<char> = text::chars_of("relays");
    let mut in_array: bool = false;
    let mut from: usize = 0;
    assert(chars@.skip(0) =~= chars@);
    assert(text::texts(out@) + relays_in(text::lines(body@), false) =~= relays_in(
        text::lines(body@),
        false,
    ));
    while from < chars.len()
        invariant
            chars@ == body@,
            key@ == "relays"@,
            from <= chars@.len(),
            relays_in(text::lines(body@), false) == text::texts(out@) + relays_in(
                text::lines(chars@.skip(from as int)),
                in_array,
            ),
        decreases chars@.len() - from,
    {
        let ghost out0 = text::texts(out@);
        let (end, next): (usize, usize) = next_line(chars.as_slice(), from);
        let raw: &[char] = slice_subrange(chars.as_slice(), from, end);
        let ghost rest = text::lines(chars@.skip(next as int));
        proof {
            let ls = text::lines(chars@.skip(from as int));
            assert(ls[0] == raw@);
            assert(ls.skip(1) =~= rest);
        }
        from = next;
        let line: &[char] = content_of(raw);
        if line.len() == 0 {
            continue ;
        }
        if in_array {
            let i: usize = text::find(line, ']');
            proof {
                text::lemma_first_at(line@, ']', 0);
                assert(line@.subrange(0, i as int) =~= text::before(line@, ']'));
            }
            collect_relay_items(slice_subrange(line, 0, i), &mut out);
            in_array = i >= line.len();
            proof {
                assert(in_array == !line@.contains(']'));
                let items = relay_items(text::before(line@, ']'));
                assert(out0 + (items + relays_in(rest, in_array)) =~= (out0 + items) + relays_in(
                    rest,
                    in_array,
                ));
            }
            continue ;
        }
        match assignment(line, key.as_slice()) {
            None => {},
            Some(value) => {
                if value.len() > 0 && value[0] == '[' {
                    let list: &[char] = slice_subrange(value, 1, value.len());
                    assert(list@ =~= value@.skip(1));
                    let i: usize = text::find(list, ']');
                    proof {
                        text::lemma_first_at(list@, ']', 0);
                        assert(list@.subrange(0, i as int) =~= text::before(list@, ']'));
                    }
                    collect_relay_items(slice_subrange(list, 0, i), &mut out);
                    in_array = i >= list.len();
                    proof {
                        assert(in_array == !list@.contains(']'));
                        let items = relay_items(text::before(list@, ']'));
                        assert(out0 + (items + relays_in(rest, in_array)) =~= (out0 + items)
                            + relays_in(rest, in_array));
                    }
                } else {
                    let item: &[char] = unquote(value);
                    if item.len() > 0 {
                        out.push(text::string_of(item));
                        proof {
                            assert(text::texts(out@) =~= out0.push(item@));
                            assert(out0 + (seq![item@] + relays_in(rest, false)) =~= out0.push(
                                item@,
                            ) + relays_in(rest, false));
                        }
                    }
                }
            },
        }
    }
    assert(chars@.skip(chars@.len() as int) =~= Seq::<char>::empty());
    assert(text::texts(out@) + Seq::<Seq<char>>::empty() =~= text::texts(out@));
    out
}

/// A list is open after these lines, which were read inside of a list or outside of one.
pub open spec fn list_open(lines: Seq<Seq<char>>, in_array: bool) -> bool
    decreases lines.len(),
{
    if lines.len() == 0 {
        in_array
    } else {
        let line = content(lines[0]);
        let rest = lines.skip(1);
        if line.len() == 0 {
            list_open(rest, in_array)
        } else if in_array {
            list_open(rest, !line.contains(']'))
        } else {
            match assigned(line, "relays"@) {
                None => list_open(rest, false),
                Some(value) => list_open(
                    rest,
                    value.len() > 0 && value[0] == '[' && !value.skip(1).contains(']'),
                ),
            }
        }
    }
}

proof fn lemma_relays_appended(x: Seq<Seq<char>>, y: Seq<Seq<char>>, in_array: bool)
    ensures
        relays_in(x + y, in_array) == relays_in(x, in_array) + relays_in(y, list_open(x, in_array)),
        list_open(x + y, in_array) == list_open(y, list_open(x, in_array)),
    decreases x.len(),
{
    if x.len() == 0 {
        assert(x + y =~= y);
        assert(relays_in(y, in_array) =~= Seq::<Seq<char>>::empty() + relays_in(y, in_array));
    } else {
        let rest = x.skip(1);
        assert((x + y).skip(1) =~= rest + y);
        assert((x + y)[0] == x[0]);
        lemma_relays_appended(rest, y, true);
        lemma_relays_appended(rest, y, false);
        assert(relays_in(x + y, in_array) =~= relays_in(x, in_array) + relays_in(
            y,
            list_open(x, in_array),
        ));
    }
}

proof fn lemma_trim_start_push(s: Seq<char>)
    ensures
        text::trim_end_of(
            text::trim_start_of(s.push('\r'), text::CharClass::Whitespace),
            text::CharClass::Whitespace,
        ) == text::trimmed(s),
    decreases s.len(),
{
    let k = text::CharClass::Whitespace;
    if s.len() > 0 && k.has(s[0]) {
        assert(s.push('\r').skip(1) =~= s.skip(1).push('\r'));
        lemma_trim_start_push(s.skip(1));
    } else if s.len() == 0 {
        assert(s.push('\r').skip(1) =~= s);
    } else {
        assert(s.push('\r')[0] == s[0]);
        assert(s.push('\r').drop_last() =~= s);
    }
}

/// A carriage return at the end of a line adds nothing to what it says.
proof fn lemma_content_without_cr(s: Seq<char>)
    ensures
        content(text::without_cr(s)) == content(s),
{
    if s.len() > 0 && s.last() == '\r' {
        let t = s.drop_last();
        text::lemma_first_at(s, '#', 0);
        text::lemma_first_at(t, '#', 0);
        let i = text::first_at(s, '#', 0);
        let j = text::first_at(t, '#', 0);
        if i < s.len() {
            assert(t[i] == '#');
            assert(i == j) by {
                if j < i {
                    assert(s[j] == t[j]);
                }
            }
            assert(s.take(i) =~= t.take(j));
        } else {
            assert(j == t.len()) by {
                if j < t.len() {
                    assert(s[j] == t[j]);
                }
            }
            assert(s.take(i) =~= t.push('\r'));
            assert(t.take(j) =~= t);
            lemma_trim_start_push(t);
        }
    }
}

proof fn lemma_relays_of_bodies(a: Seq<char>, b: Seq<char>, in_array: bool)
    ensures
        relays_in(text::lines(a + "\n"@ + b), in_array) == relays_in(text::lines(a), in_array)
            + relays_in(text::lines(b), list_open(text::lines(a), in_array)),
    decreases a.len(),
{
    reveal_strlit("\n");
    let whole = a + "\n"@ + b;
    let i = text::first_at(a, '\n', 0);
    let w = text::first_at(whole, '\n', 0);
    text::lemma_first_at(a, '\n', 0);
    text::lemma_first_at(whole, '\n', 0);
    assert(whole[a.len() as int] == '\n');
    assert(w == i) by {
        if w < i {
            assert(whole[w] == a[w]);
        }
        if i < w {
            assert(whole[i] == '\n');
        }
    }
    let head = seq![text::without_cr(whole.take(w))];
    assert(text::lines(whole) == head + text::lines(whole.skip(w + 1)));
    lemma_relays_appended(head, text::lines(whole.skip(w + 1)), in_array);
    if i < a.len() {
        let rest = a.skip(i + 1);
        assert(whole.take(i) =~= a.take(i));
        assert(whole.skip(i + 1) =~= rest + "\n"@ + b);
        assert(text::lines(a) == head + text::lines(rest));
        lemma_relays_of_bodies(rest, b, list_open(head, in_array));
        lemma_relays_appended(head, text::lines(rest), in_array);
        assert(relays_in(text::lines(whole), in_array) =~= relays_in(text::lines(a), in_array)
            + relays_in(text::lines(b), list_open(text::lines(a), in_array)));
    } else {
        assert(whole.take(w) =~= a);
        assert(whole.skip(w + 1) =~= b);
        lemma_content_without_cr(a);
        let alone = seq![a];
        assert(head.skip(1) =~= alone.skip(1));
        assert(content(head[0]) == content(alone[0]));
        assert(relays_in(head, in_array) == relays_in(alone, in_array));
        assert(list_open(head, in_array) == list_open(alone, in_array));
        if a.len() == 0 {
            assert(content(a).len() == 0);
            assert(alone.skip(1) =~= text::lines(a));
            assert(relays_in(alone, in_array) == relays_in(alone.skip(1), in_array));
        }
    }
}

/// Of two bodies, one under the other, the relays of the first are listed and then those of the second,
/// where the first closes each list that it opens.
pub proof fn law_relays_of_appended_bodies(a: Seq<char>, b: Seq<char>)
    requires
        !list_open(text::lines(a), false),
    ensures
        relays_in(text::lines(a + "\n"@ + b), false) == relays_in(text::lines(a), false) + relays_in(
            text::lines(b),
            false,
        ),
{
    lemma_relays_of_bodies(a, b, false);
}

/// None of these texts is empty.
pub open spec fn none_empty(items: Seq<Seq<char>>) -> bool {
    forall|i: int| 0 <= i < items.len() ==> #[trigger] items[i].len() > 0
}

proof fn lemma_none_empty(x: Seq<Seq<char>>, y: Seq<Seq<char>>)
    requires
        none_empty(x),
        none_empty(y),
    ensures
        none_empty(x + y),
{
    assert forall|i: int| 0 <= i < (x + y).len() implies #[trigger] (x + y)[i].len() > 0 by {
        if i < x.len() {
            assert((x + y)[i] == x[i]);
        } else {
            assert((x + y)[i] == y[i - x.len()]);
        }
    }
}

proof fn lemma_entries_are_not_empty(pieces: Seq<Seq<char>>)
    ensures
        none_empty(entries(pieces)),
    decreases pieces.len(),
{
    if pieces.len() > 0 {
        lemma_entries_are_not_empty(pieces.skip(1));
        let item = unquoted(text::trimmed(pieces[0]));
        if item.len() > 0 {
            lemma_none_empty(seq![item], entries(pieces.skip(1)));
        }
    }
}

/// No relay is the empty text, whatever the lines hold.
pub proof fn law_no_relay_is_empty(lines: Seq<Seq<char>>, in_array: bool)
    ensures
        none_empty(relays_in(lines, in_array)),
    decreases lines.len(),
{
    if lines.len() > 0 {
        let line = content(lines[0]);
        let rest = lines.skip(1);
        law_no_relay_is_empty(rest, true);
        law_no_relay_is_empty(rest, false);
        if line.len() > 0 && in_array {
            let segment = text::before(line, ']');
            lemma_entries_are_not_empty(text::split(segment, ','));
            lemma_none_empty(relay_items(segment), relays_in(rest, !line.contains(']')));
        } else if line.len() > 0 && assigned(line, "relays"@) is Some {
            let value = assigned(line, "relays"@)->0;
            let list = value.skip(1);
            let segment = text::before(list, ']');
            lemma_entries_are_not_empty(text::split(segment, ','));
            lemma_none_empty(relay_items(segment), relays_in(rest, !list.contains(']')));
            if unquoted(value).len() > 0 {
                lemma_none_empty(seq![unquoted(value)], relays_in(rest, false));
            }
        }
    }
}

// ---------------------------------------------------------------------------------------------
// What a configuration file sets
// ---------------------------------------------------------------------------------------------

/// The relays that a configuration file lists: none where there is no file.
pub fn load_relays(body: Option<&str>) -> (r: Vec<String>)
    ensures
        text::texts(r@) == (match text::opt_str(body) {
            Some(b) => relays_in(text::lines(b), false),
            None => Seq::empty(),
        }),
{
    match body {
        Some(b) => parse_relays(b),
        None => {
            let none: Vec<String> = Vec::new();
            assert(text::texts(none@) =~= Seq::empty());
            none
        },
    }
}

/// The value that a configuration file gives a key.
pub open spec fn set_in(body: Option<Seq<char>>, key: Seq<char>) -> Option<Seq<char>> {
    match body {
        Some(b) => scalar_in(text::lines(b), key),
        None => None,
    }
}

/// The address of the relay, if a configuration file is there and gives it.
pub fn server_url(body: Option<&str>) -> (r: Option<String>)
    ensures
        text::opt(r) == set_in(text::opt_str(body), "server_url"@),
{
    match body {
        Some(b) => parse_scalar(b, "server_url"),
        None => None,
    }
}

/// The address of the local Tor proxy, if a configuration file is there and gives it.
pub fn tor_socks(body: Option<&str>) -> (r: Option<String>)
    ensures
        text::opt(r) == set_in(text::opt_str(body), "tor_socks"@),
{
    match body {
        Some(b) => parse_scalar(b, "tor_socks"),
        None => None,
    }
}

/// The address of the relay outside Tor, if a configuration file is there and gives it.
pub fn clearnet_url(body: Option<&str>) -> (r: Option<String>)
    ensures
        text::opt(r) == set_in(text::opt_str(body), "clearnet_url"@),
{
    match body {
        Some(b) => parse_scalar(b, "clearnet_url"),
        None => None,
    }
}

/// The Tor bridge, if a configuration file is there and gives it.
pub fn tor_bridge(body: Option<&str>) -> (r: Option<String>)
    ensures
        text::opt(r) == set_in(text::opt_str(body), "tor_bridge"@),
{
    match body {
        Some(b) => parse_scalar(b, "tor_bridge"),
        None => None,
    }
}

} // verus!

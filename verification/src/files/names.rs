//! Names of files: their ids, safe names to save under, and what a name says of the content.
use crate::text;
use vstd::prelude::*;
use vstd::slice::slice_subrange;

verus! {

/// The id of a file: a SHA-256 digest in lower-case hexadecimal.
pub open spec fn valid_file_id(s: Seq<char>) -> bool {
    &&& s.len() == 64
    &&& forall|i: int| 0 <= i < s.len() ==> text::is_lower_hex(#[trigger] s[i])
}

/// Only a digest of 64 lower-case hexadecimal digits may become part of a path.
pub fn is_valid_file_id(file_id: &str) -> (r: bool)
    ensures
        r == valid_file_id(file_id@),
{
    let chars: Vec<char> = text::chars_of(file_id);
    if chars.len() != 64 {
        return false;
    }
    let mut i: usize = 0;
    while i < 64
        invariant
            chars@ == file_id@,
            chars@.len() == 64,
            i <= 64,
            forall|j: int| 0 <= j < i ==> text::is_lower_hex(#[trigger] chars@[j]),
        decreases 64 - i,
    {
        let c: char = chars[i];
        if !(('0' <= c && c <= '9') || ('a' <= c && c <= 'f')) {
            assert(!text::is_lower_hex(chars@[i as int]));
            return false;
        }
        i = i + 1;
    }
    true
}

/// The digest of a file is a file id.
pub proof fn law_digest_is_a_file_id(digest: Seq<u8>)
    requires
        digest.len() == 32,
    ensures
        valid_file_id(crate::crypto::primitives::hex_text(digest)),
{
    let s = crate::crypto::primitives::hex_text(digest);
    assert forall|i: int| 0 <= i < s.len() implies text::is_lower_hex(#[trigger] s[i]) by {
        assert(digest[i / 2] / 16 < 16);
        assert(digest[i / 2] % 16 < 16);
    }
}

/// A file id holds no separator, no dot and nothing else that could lead out of a directory.
pub proof fn law_file_id_stays_in_its_directory(s: Seq<char>)
    requires
        valid_file_id(s),
    ensures
        !s.contains('/'),
        !s.contains('\\'),
        !s.contains('.'),
        !s.contains('\0'),
{
    if s.contains('/') {
        let i = s.index_of('/');
        assert(text::is_lower_hex(s[i]));
    }
    if s.contains('\\') {
        let i = s.index_of('\\');
        assert(text::is_lower_hex(s[i]));
    }
    if s.contains('.') {
        let i = s.index_of('.');
        assert(text::is_lower_hex(s[i]));
    }
    if s.contains('\0') {
        let i = s.index_of('\0');
        assert(text::is_lower_hex(s[i]));
    }
}

// ---------------------------------------------------------------------------------------------
// Names to save under
// ---------------------------------------------------------------------------------------------

/// A character that may stand in a name; any other is replaced by an underscore.
pub open spec fn safe_char(c: char) -> char {
    if text::is_alphanumeric(c) || c == '.' || c == '-' || c == '_' || c == ' ' {
        c
    } else {
        '_'
    }
}

/// The name under which a file is saved.
pub open spec fn safe_name(name: Seq<char>) -> Seq<char> {
    let trimmed = text::trim_of(
        name.map_values(|c: char| safe_char(c)),
        text::CharClass::SpaceOrDot,
    );
    if trimmed.len() == 0 {
        "untitled"@
    } else {
        trimmed
    }
}

/// Makes a name safe to save under: no separators or other odd characters, and neither dots nor
/// spaces at its ends.
pub fn sanitize_filename(name: &str) -> (r: String)
    ensures
        r@ == safe_name(name@),
{
    let chars: Vec<char> = text::chars_of(name);
    let mut cleaned: Vec<char> = Vec::new();
    let mut i: usize = 0;
    while i < chars.len()
        invariant
            chars@ == name@,
            i <= chars@.len(),
            cleaned@ == name@.take(i as int).map_values(|c: char| safe_char(c)),
        decreases chars@.len() - i,
    {
        let c: char = chars[i];
        if text::alphanumeric(c) || c == '.' || c == '-' || c == '_' || c == ' ' {
            cleaned.push(c);
        } else {
            cleaned.push('_');
        }
        assert(cleaned@ =~= name@.take(i + 1).map_values(|c: char| safe_char(c)));
        i = i + 1;
    }
    assert(name@.take(name@.len() as int) =~= name@);
    let trimmed: &[char] = text::trim(cleaned.as_slice(), text::CharClass::SpaceOrDot);
    if trimmed.len() == 0 {
        text::owned("untitled")
    } else {
        text::string_of(trimmed)
    }
}

/// A safe name is not empty, holds no separator and begins and ends with neither dot nor space.
pub proof fn law_safe_name(name: Seq<char>)
    ensures
        safe_name(name).len() > 0,
        !safe_name(name).contains('/'),
        !safe_name(name).contains('\\'),
        !safe_name(name).contains('\0'),
        safe_name(name)[0] != '.' && safe_name(name)[0] != ' ',
        safe_name(name).last() != '.' && safe_name(name).last() != ' ',
{
    reveal_strlit("untitled");
    let cleaned = name.map_values(|c: char| safe_char(c));
    text::lemma_trimmed_ends(cleaned, text::CharClass::SpaceOrDot);
    text::lemma_trim_chars(cleaned, text::CharClass::SpaceOrDot);
    let trimmed = text::trim_of(cleaned, text::CharClass::SpaceOrDot);
    assert forall|i: int| 0 <= i < safe_name(name).len() implies #[trigger] safe_name(name)[i]
        != '/' && safe_name(name)[i] != '\\' && safe_name(name)[i] != '\0' by {
        if trimmed.len() > 0 {
            let j = choose|j: int| 0 <= j < cleaned.len() && cleaned[j] == trimmed[i];
            assert(cleaned[j] == safe_char(name[j]));
        }
    }
}

/// A safe name stays as it is: to make it safe once more changes nothing.
pub proof fn law_safe_names_stay(name: Seq<char>)
    ensures
        safe_name(safe_name(name)) == safe_name(name),
{
    reveal_strlit("untitled");
    let cleaned = name.map_values(|c: char| safe_char(c));
    let once = safe_name(name);
    text::lemma_trimmed_ends(cleaned, text::CharClass::SpaceOrDot);
    text::lemma_trim_chars(cleaned, text::CharClass::SpaceOrDot);
    let trimmed = text::trim_of(cleaned, text::CharClass::SpaceOrDot);
    assert forall|i: int| 0 <= i < once.len() implies safe_char(#[trigger] once[i]) == once[i] by {
        if trimmed.len() > 0 {
            let j = choose|j: int| 0 <= j < cleaned.len() && cleaned[j] == trimmed[i];
            assert(cleaned[j] == safe_char(name[j]));
        }
    }
    assert(once.map_values(|c: char| safe_char(c)) =~= once);
    text::lemma_trim_nothing(once, text::CharClass::SpaceOrDot);
}

/// The place of the last dot; the length of the name where there is none.
pub open spec fn last_dot(name: Seq<char>) -> int
    decreases name.len(),
{
    if name.len() == 0 {
        0
    } else if name.last() == '.' {
        name.len() - 1
    } else {
        let i = last_dot(name.drop_last());
        if i == name.len() - 1 {
            name.len() as int
        } else {
            i
        }
    }
}

proof fn lemma_last_dot(name: Seq<char>)
    ensures
        0 <= last_dot(name) <= name.len(),
        last_dot(name) < name.len() ==> name[last_dot(name)] == '.',
        forall|i: int| last_dot(name) < i < name.len() ==> name[i] != '.',
        last_dot(name) == name.len() ==> forall|i: int| 0 <= i < name.len() ==> name[i] != '.',
    decreases name.len(),
{
    if name.len() > 0 && name.last() != '.' {
        lemma_last_dot(name.drop_last());
        let t = name.drop_last();
        let i = last_dot(t);
        if i < t.len() {
            assert(name[i] == t[i]);
        }
        assert forall|j: int| last_dot(name) < j < name.len() implies name[j] != '.' by {
            if j < name.len() - 1 {
                assert(name[j] == t[j]);
            }
        }
        assert forall|j: int|
            last_dot(name) == name.len() && 0 <= j < name.len() implies name[j] != '.' by {
            if j < name.len() - 1 {
                assert(name[j] == t[j]);
            }
        }
    }
}

fn find_last_dot(chars: &[char]) -> (r: usize)
    ensures
        r == last_dot(chars@),
        r <= chars@.len(),
{
    let mut start: usize = chars.len();
    while start > 0 && chars[start - 1] != '.'
        invariant
            start <= chars@.len(),
            forall|j: int| start <= j < chars@.len() ==> chars@[j] != '.',
        decreases start,
    {
        start = start - 1;
    }
    proof {
        lemma_last_dot(chars@);
        if start > 0 {
            assert(chars@[start - 1] == '.');
        } else if last_dot(chars@) < chars@.len() {
            assert(chars@[last_dot(chars@)] == '.');
        }
    }
    if start > 0 {
        start - 1
    } else {
        chars.len()
    }
}

/// The name before its last dot.
pub open spec fn stem(name: Seq<char>) -> Seq<char> {
    name.take(last_dot(name))
}

/// The name from its last dot on; nothing where there is no dot.
pub open spec fn extension(name: Seq<char>) -> Seq<char> {
    name.skip(last_dot(name))
}

/// The name with a suffix before its extension.
pub open spec fn suffixed(name: Seq<char>, suffix: Seq<char>) -> Seq<char> {
    stem(name) + "-"@ + suffix + extension(name)
}

/// One of these texts.
pub open spec fn listed(names: Seq<String>, name: Seq<char>) -> bool {
    exists|i: int| 0 <= i < names.len() && (#[trigger] names[i])@ == name
}

/// The first of `name`, `name-1`, ... , `name-999` that is not taken; else `name-collision`.
pub open spec fn free_name(name: Seq<char>, taken: Seq<String>) -> Seq<char> {
    if !listed(taken, name) {
        name
    } else {
        numbered_name(name, taken, 1)
    }
}

pub open spec fn numbered_name(name: Seq<char>, taken: Seq<String>, n: nat) -> Seq<char>
    decreases 1000 - n,
{
    if n >= 1000 {
        suffixed(name, "collision"@)
    } else if !listed(taken, suffixed(name, text::decimal(n))) {
        suffixed(name, text::decimal(n))
    } else {
        numbered_name(name, taken, n + 1)
    }
}

fn is_listed(names: &Vec<String>, name: &str) -> (r: bool)
    ensures
        r == listed(names@, name@),
{
    let mut i: usize = 0;
    while i < names.len()
        invariant
            i <= names@.len(),
            forall|j: int| 0 <= j < i ==> (#[trigger] names@[j])@ != name@,
        decreases names@.len() - i,
    {
        if text::same(names[i].as_str(), name) {
            return true;
        }
        i = i + 1;
    }
    false
}

/// A name to save a file under in a directory that holds these names already.
pub fn pick_non_colliding(name: &str, taken: &Vec<String>) -> (r: String)
    ensures
        r@ == free_name(name@, taken@),
{
    if !is_listed(taken, name) {
        return text::owned(name);
    }
    let chars: Vec<char> = text::chars_of(name);
    let dot: usize = find_last_dot(chars.as_slice());
    let stem_part: String = text::string_of(slice_subrange(chars.as_slice(), 0, dot));
    let extension_part: String = text::string_of(
        slice_subrange(chars.as_slice(), dot, chars.len()),
    );
    assert(stem_part@ =~= stem(name@));
    assert(extension_part@ =~= extension(name@));
    let mut n: u64 = 1;
    while n < 1000
        invariant
            1 <= n <= 1000,
            listed(taken@, name@),
            stem_part@ == stem(name@),
            extension_part@ == extension(name@),
            numbered_name(name@, taken@, 1) == numbered_name(name@, taken@, n as nat),
        decreases 1000 - n,
    {
        let number: String = text::decimal_of(n);
        let candidate: String = text::join4(
            stem_part.as_str(),
            "-",
            number.as_str(),
            extension_part.as_str(),
        );
        if !is_listed(taken, candidate.as_str()) {
            return candidate;
        }
        n = n + 1;
    }
    text::join4(stem_part.as_str(), "-", "collision", extension_part.as_str())
}

/// A free name is not taken, unless a thousand names are.
pub proof fn law_free_name_is_free(name: Seq<char>, taken: Seq<String>)
    ensures
        !listed(taken, free_name(name, taken)) || free_name(name, taken) == suffixed(
            name,
            "collision"@,
        ),
{
    lemma_numbered_is_free(name, taken, 1);
}

proof fn lemma_numbered_is_free(name: Seq<char>, taken: Seq<String>, n: nat)
    ensures
        !listed(taken, numbered_name(name, taken, n)) || numbered_name(name, taken, n) == suffixed(
            name,
            "collision"@,
        ),
    decreases 1000 - n,
{
    if n < 1000 {
        lemma_numbered_is_free(name, taken, n + 1);
    }
}

// ---------------------------------------------------------------------------------------------
// Content types
// ---------------------------------------------------------------------------------------------

/// The content type that an extension in lower case stands for.
pub open spec fn mime_of_extension(ext: Seq<char>) -> Option<Seq<char>> {
    if ext == "png"@ {
        Some("image/png"@)
    } else if ext == "jpg"@ || ext == "jpeg"@ {
        Some("image/jpeg"@)
    } else if ext == "gif"@ {
        Some("image/gif"@)
    } else if ext == "webp"@ {
        Some("image/webp"@)
    } else if ext == "bmp"@ {
        Some("image/bmp"@)
    } else if ext == "pdf"@ {
        Some("application/pdf"@)
    } else if ext == "mp4"@ {
        Some("video/mp4"@)
    } else if ext == "webm"@ {
        Some("video/webm"@)
    } else if ext == "mov"@ {
        Some("video/quicktime"@)
    } else if ext == "mp3"@ {
        Some("audio/mpeg"@)
    } else if ext == "wav"@ {
        Some("audio/wav"@)
    } else if ext == "ogg"@ {
        Some("audio/ogg"@)
    } else if ext == "txt"@ {
        Some("text/plain"@)
    } else if ext == "md"@ {
        Some("text/markdown"@)
    } else if ext == "json"@ {
        Some("application/json"@)
    } else if ext == "zip"@ {
        Some("application/zip"@)
    } else if ext == "tar"@ {
        Some("application/x-tar"@)
    } else if ext == "gz"@ {
        Some("application/gzip"@)
    } else if ext == "rs"@ {
        Some("text/x-rust"@)
    } else if ext == "py"@ {
        Some("text/x-python"@)
    } else {
        None
    }
}

/// What stands behind the last dot of a name; the whole name where there is no dot.
pub open spec fn after_last_dot(name: Seq<char>) -> Seq<char> {
    if last_dot(name) < name.len() {
        name.skip(last_dot(name) + 1)
    } else {
        name
    }
}

/// The content type that a name hints at.
pub open spec fn mime_of(name: Seq<char>) -> Option<Seq<char>> {
    mime_of_extension(after_last_dot(text::lowercase(name)))
}

/// Guesses the content type of a file from its name.
pub fn guess_mime(name: &str) -> (r: Option<String>)
    ensures
        match r {
            Some(m) => mime_of(name@) == Some(m@),
            None => mime_of(name@) is None,
        },
{
    let lower: String = text::to_lowercase(name);
    let chars: Vec<char> = text::chars_of(lower.as_str());
    let dot: usize = find_last_dot(chars.as_slice());
    let start: usize = if dot < chars.len() {
        dot + 1
    } else {
        0
    };
    let ext: String = text::string_of(slice_subrange(chars.as_slice(), start, chars.len()));
    assert(ext@ =~= after_last_dot(chars@));
    let e: &str = ext.as_str();
    let m: &str = if text::same(e, "png") {
        "image/png"
    } else if text::same(e, "jpg") || text::same(e, "jpeg") {
        "image/jpeg"
    } else if text::same(e, "gif") {
        "image/gif"
    } else if text::same(e, "webp") {
        "image/webp"
    } else if text::same(e, "bmp") {
        "image/bmp"
    } else if text::same(e, "pdf") {
        "application/pdf"
    } else if text::same(e, "mp4") {
        "video/mp4"
    } else if text::same(e, "webm") {
        "video/webm"
    } else if text::same(e, "mov") {
        "video/quicktime"
    } else if text::same(e, "mp3") {
        "audio/mpeg"
    } else if text::same(e, "wav") {
        "audio/wav"
    } else if text::same(e, "ogg") {
        "audio/ogg"
    } else if text::same(e, "txt") {
        "text/plain"
    } else if text::same(e, "md") {
        "text/markdown"
    } else if text::same(e, "json") {
        "application/json"
    } else if text::same(e, "zip") {
        "application/zip"
    } else if text::same(e, "tar") {
        "application/x-tar"
    } else if text::same(e, "gz") {
        "application/gzip"
    } else if text::same(e, "rs") {
        "text/x-rust"
    } else if text::same(e, "py") {
        "text/x-python"
    } else {
        return None;
    };
    Some(text::owned(m))
}

} // verus!

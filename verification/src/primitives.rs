//! Small text and path helpers, and the calls into std and outside crates
//! whose behaviour the rest of the library relies on, each of those with
//! the contract it is trusted to meet.

use vstd::prelude::*;

verus! {

/// Lowercase hexadecimal digit for a value below sixteen.
pub open spec fn hex_char(n: int) -> char {
    if n < 10 {
        (n + 48) as char
    } else {
        (n + 87) as char
    }
}

/// The `k`-th hexadecimal digit (most significant first) of a 128-bit value.
pub open spec fn u128_nibble(v: u128, k: int) -> int {
    ((v >> ((4 * (31 - k)) as u128)) & 0xf) as int
}

/// Index of the hexadecimal digit shown at character position `i`
/// of the hyphenated form `8-4-4-4-12`.
pub open spec fn uuid_digit_index(i: int) -> int {
    if i < 8 {
        i
    } else if i < 13 {
        i - 1
    } else if i < 18 {
        i - 2
    } else if i < 23 {
        i - 3
    } else {
        i - 4
    }
}

/// The lowercase hyphenated text of a 128-bit identifier, most significant
/// digit first, for example `550e8400-e29b-41d4-a716-446655440000`.
pub open spec fn uuid_text(v: u128) -> Seq<char> {
    Seq::new(
        36,
        |i: int|
            if i == 8 || i == 13 || i == 18 || i == 23 {
                '-'
            } else {
                hex_char(u128_nibble(v, uuid_digit_index(i)))
            },
    )
}

/// Decimal text of an unsigned number, without sign or leading zeros.
pub open spec fn decimal_text(v: nat) -> Seq<char>
    decreases v,
{
    if v < 10 {
        seq![hex_char(v as int)]
    } else {
        decimal_text(v / 10).push(hex_char((v % 10) as int))
    }
}

/// The SHA-256 digest of a byte sequence.
pub uninterp spec fn sha256(data: Seq<u8>) -> Seq<u8>;

/// What `uuid::Uuid::parse_str` makes of a text: the identifier's 128-bit
/// value, or `None` where the text is refused.
pub uninterp spec fn uuid_parse(text: Seq<char>) -> Option<u128>;

/// `sha2::Sha256::digest`: the 32-byte SHA-256 digest of `data`.
#[verifier::external_body]
pub(crate) fn sha256_digest(data: &[u8]) -> (digest: Vec<u8>)
    ensures
        digest@ == sha256(data@),
        digest@.len() == 32,
{
    <sha2::Sha256 as sha2::Digest>::digest(data).to_vec()
}

/// `uuid::Uuid::new_v4`: a fresh random identifier, as its 128-bit value.
/// Nothing is promised of the value: it comes from the operating system's
/// random source.
#[verifier::external_body]
pub(crate) fn random_uuid() -> (id: u128) {
    uuid::Uuid::new_v4().as_u128()
}

/// `uuid::Uuid::to_string` on `Uuid::from_u128(id)`: the lowercase
/// hyphenated form of the identifier.
#[verifier::external_body]
pub(crate) fn uuid_string(id: u128) -> (text: String)
    ensures
        text@ == uuid_text(id),
{
    uuid::Uuid::from_u128(id).to_string()
}

/// `uuid::Uuid::parse_str`: the identifier that `text` spells, if any.
/// The crate documents that every form it prints, the hyphenated one among
/// them, is read back to the same identifier.
#[verifier::external_body]
pub(crate) fn parse_uuid(text: &str) -> (id: Option<u128>)
    ensures
        id == uuid_parse(text@),
        forall|v: u128| text@ == uuid_text(v) ==> id == Some(v),
{
    match uuid::Uuid::parse_str(text) {
        Ok(value) => Some(value.as_u128()),
        Err(_) => None,
    }
}

/// `std::path::MAIN_SEPARATOR`: the separator the platform joins paths
/// with, `\\` on Windows and `/` everywhere else.
#[verifier::external_body]
pub(crate) fn main_separator() -> (sep: char)
    ensures
        sep == '/' || sep == '\\',
{
    std::path::MAIN_SEPARATOR
}

/// A Windows drive on its own, such as `C:`, with nothing after it.
pub open spec fn is_bare_drive(base: Seq<char>) -> bool {
    &&& base.len() == 2
    &&& base[1] == ':'
    &&& ('a' <= base[0] <= 'z' || 'A' <= base[0] <= 'Z')
}

/// `base` joined with the relative name `name` under the separator `sep`:
/// no separator is added where `base` is empty or already ends with one
/// (`/` always counts as one), nor on Windows where `base` is a bare drive,
/// which then names the drive's current directory.
pub open spec fn joined_path(base: Seq<char>, name: Seq<char>, sep: char) -> Seq<char> {
    if base.len() == 0 || base.last() == sep || base.last() == '/' || (sep == '\\'
        && is_bare_drive(base)) {
        base + name
    } else {
        base + seq![sep] + name
    }
}

/// A file or directory name made of lowercase letters, digits, `-`, `.`
/// and `_`, other than `.` and `..`: a name that `Path::join` appends as
/// one normal component.
pub open spec fn is_plain_name(name: Seq<char>) -> bool {
    &&& name.len() > 0
    &&& name != seq!['.']
    &&& name != seq!['.', '.']
    &&& forall|i: int|
        0 <= i < name.len() ==> {
            let c = #[trigger] name[i];
            ('a' <= c <= 'z') || ('0' <= c <= '9') || c == '-' || c == '.' || c == '_'
        }
}

/// Joins the plain name `name` below `base` with the separator `sep`, as
/// `Path::join` does on a platform whose separator is `sep`, for a base
/// without a Windows verbatim prefix (`\\?\`); below such a prefix
/// `Path::join` rebuilds the path from its components instead.
pub fn join_path(base: &str, name: &str, sep: char) -> (joined: String)
    requires
        is_plain_name(name@),
    ensures
        joined@ == joined_path(base@, name@, sep),
{
    let n = base.unicode_len();
    let mut joined = base.to_owned();
    let bare = if n == 0 {
        true
    } else {
        let last = base.get_char(n - 1);
        if last == sep || last == '/' {
            true
        } else if sep == '\\' && n == 2 && last == ':' {
            let c = base.get_char(0);
            ('a' <= c && c <= 'z') || ('A' <= c && c <= 'Z')
        } else {
            false
        }
    };
    if !bare {
        push_char(&mut joined, sep);
    }
    let ghost before = joined@;
    joined.append(name);
    assert(before + name@ == joined@);
    proof {
        if !bare {
            assert(before =~= base@ + seq![sep]);
        }
    }
    joined
}

/// `String::push`: appends one character.
#[verifier::external_body]
pub(crate) fn push_char(text: &mut String, c: char)
    ensures
        final(text)@ == old(text)@.push(c),
{
    text.push(c);
}

/// The decimal text of a number, most significant digit first.
pub fn decimal_string(value: u128) -> (text: String)
    ensures
        text@ == decimal_text(value as nat),
    decreases value,
{
    let digit = (value % 10) as u8;
    let c = (digit + 48) as char;
    assert(c == hex_char((value % 10) as int));
    if value < 10 {
        let mut text = String::new();
        push_char(&mut text, c);
        assert(text@ =~= seq![hex_char(value as int)]);
        text
    } else {
        let mut text = decimal_string(value / 10);
        push_char(&mut text, c);
        text
    }
}

/// Decimal text of a signed number: a minus sign before the digits of a
/// negative one.
pub open spec fn signed_decimal_text(v: int) -> Seq<char> {
    if v < 0 {
        seq!['-'] + decimal_text((-v) as nat)
    } else {
        decimal_text(v as nat)
    }
}

/// The decimal text of a 32-bit signed number.
pub fn signed_decimal_string(value: i32) -> (text: String)
    ensures
        text@ == signed_decimal_text(value as int),
{
    if value < 0 {
        let magnitude = (0i64 - value as i64) as u128;
        let digits = decimal_string(magnitude);
        let mut text = String::new();
        push_char(&mut text, '-');
        let ghost sign = text@;
        text.append(digits.as_str());
        assert(sign =~= seq!['-']);
        text
    } else {
        decimal_string(value as u128)
    }
}

/// A character with the Unicode property `White_Space`: tab, line feed,
/// vertical tab, form feed, carriage return, space, next line, no-break
/// space, ogham space mark, the spaces from en quad to hair space, line and
/// paragraph separator, narrow no-break space, medium mathematical space
/// and ideographic space.
pub open spec fn is_white_space(c: char) -> bool {
    let n = c as u32;
    ||| 0x9 <= n <= 0xd
    ||| n == 0x20
    ||| n == 0x85
    ||| n == 0xa0
    ||| n == 0x1680
    ||| 0x2000 <= n <= 0x200a
    ||| n == 0x2028
    ||| n == 0x2029
    ||| n == 0x202f
    ||| n == 0x205f
    ||| n == 0x3000
}

/// The text without its leading white space.
pub open spec fn trim_start(text: Seq<char>) -> Seq<char>
    decreases text.len(),
{
    if text.len() > 0 && is_white_space(text[0]) {
        trim_start(text.drop_first())
    } else {
        text
    }
}

/// The text without its trailing white space.
pub open spec fn trim_end(text: Seq<char>) -> Seq<char>
    decreases text.len(),
{
    if text.len() > 0 && is_white_space(text.last()) {
        trim_end(text.drop_last())
    } else {
        text
    }
}

/// The text without its leading and trailing white space.
pub open spec fn trimmed(text: Seq<char>) -> Seq<char> {
    trim_end(trim_start(text))
}

/// Whether a character is white space in the sense of `is_white_space`.
fn white_space(c: char) -> (r: bool)
    ensures
        r == is_white_space(c),
{
    let n = c as u32;
    (0x9 <= n && n <= 0xd) || n == 0x20 || n == 0x85 || n == 0xa0 || n == 0x1680 || (0x2000 <= n
        && n <= 0x200a) || n == 0x2028 || n == 0x2029 || n == 0x202f || n == 0x205f || n == 0x3000
}

/// The text without leading and trailing white space, white space as the
/// Unicode property `White_Space` defines it; what `str::trim` gives.
pub fn trim_text(text: &str) -> (piece: String)
    ensures
        piece@ == trimmed(text@),
{
    let chars = crate::text::chars_of(text);
    let ghost t = text@;
    let n = chars.len();
    let mut start: usize = 0;
    assert(t.skip(0) =~= t);
    while start < n && white_space(chars[start])
        invariant
            chars@ == t,
            n == t.len(),
            start <= n,
            trim_start(t) == trim_start(t.skip(start as int)),
        decreases n - start,
    {
        assert(t.skip(start as int).drop_first() =~= t.skip(start as int + 1));
        start += 1;
    }
    proof {
        if start == n {
            assert(t.skip(start as int) =~= Seq::<char>::empty());
        }
        assert(t.skip(start as int) =~= t.subrange(start as int, n as int));
    }
    let mut end: usize = n;
    while end > start && white_space(chars[end - 1])
        invariant
            chars@ == t,
            n == t.len(),
            start <= end <= n,
            trim_start(t) == t.subrange(start as int, n as int),
            trim_end(trim_start(t)) == trim_end(t.subrange(start as int, end as int)),
        decreases end - start,
    {
        assert(t.subrange(start as int, end as int).drop_last() =~= t.subrange(
            start as int,
            end as int - 1,
        ));
        end -= 1;
    }
    proof {
        if end == start {
            assert(t.subrange(start as int, end as int) =~= Seq::<char>::empty());
        }
    }
    let mut kept: Vec<char> = Vec::new();
    let mut i: usize = start;
    while i < end
        invariant
            chars@ == t,
            start <= i <= end <= n,
            n == t.len(),
            kept@ == t.subrange(start as int, i as int),
        decreases end - i,
    {
        kept.push(chars[i]);
        i += 1;
        assert(kept@ =~= t.subrange(start as int, i as int));
    }
    crate::text::text_of(kept.as_slice())
}

/// What `str::to_lowercase` makes of a text: its Unicode lowercase.
pub uninterp spec fn lowercased(text: Seq<char>) -> Seq<char>;

/// `str::to_lowercase`: the Unicode lowercase of a text, which depends on
/// the text alone.
#[verifier::external_body]
pub(crate) fn lowercase_text(text: &str) -> (lower: String)
    ensures
        lower@ == lowercased(text@),
{
    text.to_lowercase()
}

/// A point in time of the monotonic clock.
#[verifier::external_type_specification]
#[verifier::external_body]
pub struct ExInstant(std::time::Instant);

/// `std::time::Instant::now`: the current instant. Nothing is promised of
/// it: it comes from the clock.
#[verifier::external_body]
pub(crate) fn instant_now() -> (now: std::time::Instant) {
    std::time::Instant::now()
}

/// `std::time::Instant::elapsed`: the time since `start`. Nothing is
/// promised of it: it comes from the clock.
#[verifier::external_body]
pub(crate) fn elapsed_since(start: &std::time::Instant) -> (elapsed: std::time::Duration) {
    start.elapsed()
}

} // verus!

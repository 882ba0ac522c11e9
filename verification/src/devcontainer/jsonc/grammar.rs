use vstd::prelude::*;

use super::model::{ItemModel, JsonValue, MemberModel, NodeModel, TriviaModel};
use super::number::number_of;

verus! {

/// Nesting depth beyond which a document is refused.
pub const MAX_DEPTH: usize = 128;

/// Why a text is not a JSONC document. Positions count bytes of the UTF-8 text.
#[derive(Debug, Clone, Copy, PartialEq, Eq)]
pub enum JsoncError {
    UnexpectedEof,
    UnexpectedChar(usize),
    InvalidNumber(usize),
    InvalidEscape(usize),
    UnclosedString(usize),
    UnclosedComment(usize),
    TrailingCharacters(usize),
    DepthLimitExceeded,
}

/// A document: the parsed root together with the text around it.
pub struct DocumentModel {
    pub leading: Seq<char>,
    pub root: NodeModel,
    pub trailing: Seq<char>,
}

pub open spec fn is_blank(c: char) -> bool {
    c == ' ' || c == '\t' || c == '\n' || c == '\r'
}

/// Position after the run of blanks from `pos`.
pub open spec fn skip_blank(s: Seq<char>, pos: int) -> int
    decreases s.len() - pos,
{
    if 0 <= pos < s.len() && is_blank(s[pos]) {
        skip_blank(s, pos + 1)
    } else {
        pos
    }
}

/// Position of the first line break from `pos` on, or the end of the text.
pub open spec fn line_end(s: Seq<char>, pos: int) -> int
    decreases s.len() - pos,
{
    if 0 <= pos < s.len() && s[pos] != '\n' {
        line_end(s, pos + 1)
    } else {
        pos
    }
}

/// Position after the first `*/` from `pos` on.
pub open spec fn block_end(s: Seq<char>, pos: int) -> Option<int>
    decreases s.len() - pos,
{
    if pos < 0 || pos >= s.len() {
        None
    } else if s[pos] == '*' && pos + 1 < s.len() && s[pos + 1] == '/' {
        Some(pos + 2)
    } else {
        block_end(s, pos + 1)
    }
}

/// Position after the whitespace and comments from `pos`.
pub open spec fn skip_trivia(s: Seq<char>, pos: int) -> Result<int, JsoncError>
    decreases s.len() - pos,
{
    let p = skip_blank(s, pos);
    if 0 <= p && p + 1 < s.len() && s[p] == '/' && s[p + 1] == '/' {
        let q = line_end(s, p);
        if pos < q && q <= s.len() {
            skip_trivia(s, q)
        } else {
            Ok(q)
        }
    } else if 0 <= p && p + 1 < s.len() && s[p] == '/' && s[p + 1] == '*' {
        match block_end(s, p + 2) {
            None => Err(JsoncError::UnclosedComment(p as usize)),
            Some(q) => if pos < q && q <= s.len() {
                skip_trivia(s, q)
            } else {
                Ok(q)
            },
        }
    } else {
        Ok(p)
    }
}

/// Number of spaces and tabs at the end of the first `n` characters of `t`.
pub open spec fn indent_len(t: Seq<char>, n: int) -> int
    decreases n,
{
    if 0 < n <= t.len() && (t[n - 1] == ' ' || t[n - 1] == '\t') {
        1 + indent_len(t, n - 1)
    } else {
        0
    }
}

/// The trivia made of `t`: everything up to its trailing spaces and tabs, and those.
pub open spec fn trivia_of(t: Seq<char>) -> TriviaModel {
    let k = t.len() - indent_len(t, t.len() as int);
    TriviaModel { prefix: t.take(k), indent: t.skip(k) }
}

pub open spec fn empty_trivia() -> TriviaModel {
    TriviaModel { prefix: Seq::empty(), indent: Seq::empty() }
}

pub open spec fn hex_value(c: char) -> int {
    if '0' <= c && c <= '9' {
        c as int - '0' as int
    } else if 'a' <= c && c <= 'f' {
        c as int - 'a' as int + 10
    } else if 'A' <= c && c <= 'F' {
        c as int - 'A' as int + 10
    } else {
        -1
    }
}

pub open spec fn is_hex(c: char) -> bool {
    hex_value(c) >= 0
}

/// The value of the four characters at `at` read as a hexadecimal number
/// (four hex digits, or `+` and three hex digits).
pub open spec fn hex4(s: Seq<char>, at: int) -> Option<u32> {
    if at < 0 || at + 4 > s.len() {
        None
    } else if is_hex(s[at]) && is_hex(s[at + 1]) && is_hex(s[at + 2]) && is_hex(s[at + 3]) {
        Some((hex_value(s[at]) * 4096 + hex_value(s[at + 1]) * 256 + hex_value(s[at + 2]) * 16
            + hex_value(s[at + 3])) as u32)
    } else if s[at] == '+' && is_hex(s[at + 1]) && is_hex(s[at + 2]) && is_hex(s[at + 3]) {
        Some((hex_value(s[at + 1]) * 256 + hex_value(s[at + 2]) * 16 + hex_value(s[at + 3])) as u32)
    } else {
        None
    }
}

/// Whether `code` is a Unicode scalar value.
pub open spec fn is_scalar(code: u32) -> bool {
    code < 0xD800 || (0xE000 <= code && code <= 0x10FFFF)
}

/// The character and end position of the `\u` escape whose backslash is at `p`.
pub open spec fn unicode_escape(s: Seq<char>, p: int) -> Result<(char, int), JsoncError> {
    match hex4(s, p + 2) {
        None => Err(JsoncError::InvalidEscape(p as usize)),
        Some(first) => if 0xD800 <= first && first < 0xDC00 {
            if !(p + 7 < s.len() && s[p + 6] == '\\' && s[p + 7] == 'u') {
                Err(JsoncError::InvalidEscape(p as usize))
            } else {
                match hex4(s, p + 8) {
                    None => Err(JsoncError::InvalidEscape(p as usize)),
                    Some(second) => if !(0xDC00 <= second && second < 0xE000) {
                        Err(JsoncError::InvalidEscape(p as usize))
                    } else {
                        let code = (0x10000 + (first - 0xD800) * 1024 + (second - 0xDC00)) as u32;
                        Ok((code as char, p + 12))
                    },
                }
            }
        } else if is_scalar(first) {
            Ok((first as char, p + 6))
        } else {
            Err(JsoncError::InvalidEscape(p as usize))
        },
    }
}

pub open spec fn is_simple_escape(c: char) -> bool {
    c == '"' || c == '\\' || c == '/' || c == 'b' || c == 'f' || c == 'n' || c == 'r' || c == 't'
}

pub open spec fn unescape(c: char) -> char {
    if c == 'b' {
        '\u{8}'
    } else if c == 'f' {
        '\u{c}'
    } else if c == 'n' {
        '\n'
    } else if c == 'r' {
        '\r'
    } else if c == 't' {
        '\t'
    } else {
        c
    }
}

/// The rest of a string literal opened at `start`, read from `pos` with `acc` read so far.
pub open spec fn string_rest(s: Seq<char>, start: int, pos: int, acc: Seq<char>) -> Result<
    (Seq<char>, int),
    JsoncError,
>
    decreases s.len() - pos,
{
    if pos < 0 || pos >= s.len() {
        Err(JsoncError::UnclosedString(start as usize))
    } else if s[pos] == '"' {
        Ok((acc, pos + 1))
    } else if s[pos] == '\\' {
        if pos + 1 >= s.len() {
            Err(JsoncError::InvalidEscape(pos as usize))
        } else if is_simple_escape(s[pos + 1]) {
            string_rest(s, start, pos + 2, acc.push(unescape(s[pos + 1])))
        } else if s[pos + 1] == 'u' {
            match unicode_escape(s, pos) {
                Err(e) => Err(e),
                Ok((c, q)) => if pos < q && q <= s.len() {
                    string_rest(s, start, q, acc.push(c))
                } else {
                    Err(JsoncError::UnclosedString(start as usize))
                },
            }
        } else {
            Err(JsoncError::InvalidEscape(pos as usize))
        }
    } else if (s[pos] as u32) < 0x20 {
        Err(JsoncError::UnexpectedChar(pos as usize))
    } else {
        string_rest(s, start, pos + 1, acc.push(s[pos]))
    }
}

/// The string literal that starts (with its quote) at `pos`, and the position after it.
pub open spec fn read_string(s: Seq<char>, pos: int) -> Result<(Seq<char>, int), JsoncError> {
    string_rest(s, pos, pos + 1, Seq::empty())
}

pub open spec fn is_number_char(c: char) -> bool {
    ('0' <= c && c <= '9') || c == '.' || c == 'e' || c == 'E' || c == '+' || c == '-'
}

/// End of the run of number characters from `pos`.
pub open spec fn number_run(s: Seq<char>, pos: int) -> int
    decreases s.len() - pos,
{
    if 0 <= pos < s.len() && is_number_char(s[pos]) {
        number_run(s, pos + 1)
    } else {
        pos
    }
}

/// End of the number literal that starts at `pos`.
pub open spec fn number_end(s: Seq<char>, pos: int) -> int {
    if 0 <= pos < s.len() && s[pos] == '-' {
        number_run(s, pos + 1)
    } else {
        number_run(s, pos)
    }
}

pub open spec fn keyword_at(s: Seq<char>, pos: int, k: Seq<char>) -> bool {
    0 <= pos && pos + k.len() <= s.len() && s.subrange(pos, pos + k.len()) == k
}

pub open spec fn scalar_result(
    s: Seq<char>,
    pos: int,
    r: Result<(JsonValue, int), JsoncError>,
) -> Result<(NodeModel, int), JsoncError> {
    match r {
        Err(e) => Err(e),
        Ok((v, q)) => Ok((NodeModel::Scalar(s.subrange(pos, q), v), q)),
    }
}

pub open spec fn keyword(s: Seq<char>, pos: int, k: Seq<char>, v: JsonValue) -> Result<
    (JsonValue, int),
    JsoncError,
> {
    if keyword_at(s, pos, k) {
        Ok((v, pos + k.len()))
    } else {
        Err(JsoncError::UnexpectedChar(pos as usize))
    }
}

pub open spec fn number_at(s: Seq<char>, pos: int) -> Result<(JsonValue, int), JsoncError> {
    let q = number_end(s, pos);
    match number_of(s.subrange(pos, q)) {
        Some(m) => Ok((JsonValue::Number(m), q)),
        None => Err(JsoncError::InvalidNumber(pos as usize)),
    }
}

pub open spec fn string_at(s: Seq<char>, pos: int) -> Result<(JsonValue, int), JsoncError> {
    match read_string(s, pos) {
        Err(e) => Err(e),
        Ok((t, q)) => Ok((JsonValue::Str(t), q)),
    }
}

/// The value that starts at `pos`, nested `depth` deep, and the position after it.
pub open spec fn parse_value(s: Seq<char>, pos: int, depth: int) -> Result<(NodeModel, int), JsoncError>
    decreases s.len() - pos, 1int,
{
    if depth > MAX_DEPTH {
        Err(JsoncError::DepthLimitExceeded)
    } else if pos < 0 || pos >= s.len() {
        Err(JsoncError::UnexpectedEof)
    } else if s[pos] == '{' {
        parse_object(s, pos, depth)
    } else if s[pos] == '[' {
        parse_array(s, pos, depth)
    } else if s[pos] == '"' {
        scalar_result(s, pos, string_at(s, pos))
    } else if s[pos] == 't' {
        scalar_result(s, pos, keyword(s, pos, seq!['t', 'r', 'u', 'e'], JsonValue::Bool(true)))
    } else if s[pos] == 'f' {
        scalar_result(s, pos, keyword(s, pos, seq!['f', 'a', 'l', 's', 'e'], JsonValue::Bool(false)))
    } else if s[pos] == 'n' {
        scalar_result(s, pos, keyword(s, pos, seq!['n', 'u', 'l', 'l'], JsonValue::Null))
    } else if s[pos] == '-' || ('0' <= s[pos] && s[pos] <= '9') {
        scalar_result(s, pos, number_at(s, pos))
    } else {
        Err(JsoncError::UnexpectedChar(pos as usize))
    }
}

/// The array whose `[` is at `pos`.
pub open spec fn parse_array(s: Seq<char>, pos: int, depth: int) -> Result<(NodeModel, int), JsoncError>
    decreases s.len() - pos, 0int,
{
    match skip_trivia(s, pos + 1) {
        Err(e) => Err(e),
        Ok(p) => if pos < p && p <= s.len() {
            array_items(s, p, depth, Seq::empty(), trivia_of(s.subrange(pos + 1, p)))
        } else {
            Err(JsoncError::UnexpectedEof)
        },
    }
}

/// The rest of an array from `pos`, with the items read so far and the trivia before the next one.
pub open spec fn array_items(
    s: Seq<char>,
    pos: int,
    depth: int,
    items: Seq<ItemModel>,
    inner: TriviaModel,
) -> Result<(NodeModel, int), JsoncError>
    decreases s.len() - pos, 2int,
{
    if pos < 0 || pos >= s.len() {
        Err(JsoncError::UnexpectedEof)
    } else if s[pos] == ']' {
        Ok((NodeModel::Array(items, inner), pos + 1))
    } else {
        match parse_value(s, pos, depth + 1) {
            Err(e) => Err(e),
            Ok((v, after)) => match skip_trivia(s, after) {
                Err(e) => Err(e),
                Ok(p) => if p < 0 || p >= s.len() {
                    Err(JsoncError::UnexpectedEof)
                } else if s[p] == ',' {
                    match skip_trivia(s, p + 1) {
                        Err(e) => Err(e),
                        Ok(q) => if pos < q && q <= s.len() {
                            array_items(
                                s,
                                q,
                                depth,
                                items.push(
                                    ItemModel {
                                        leading: inner,
                                        value: v,
                                        comma: Some(s.subrange(after, p + 1)),
                                    },
                                ),
                                trivia_of(s.subrange(p + 1, q)),
                            )
                        } else {
                            Err(JsoncError::UnexpectedEof)
                        },
                    }
                } else if s[p] == ']' {
                    if pos < p && p <= s.len() {
                        array_items(
                            s,
                            p,
                            depth,
                            items.push(ItemModel { leading: inner, value: v, comma: None }),
                            trivia_of(s.subrange(after, p)),
                        )
                    } else {
                        Err(JsoncError::UnexpectedEof)
                    }
                } else {
                    Err(JsoncError::UnexpectedChar(p as usize))
                },
            },
        }
    }
}

/// The object whose `{` is at `pos`.
pub open spec fn parse_object(s: Seq<char>, pos: int, depth: int) -> Result<(NodeModel, int), JsoncError>
    decreases s.len() - pos, 0int,
{
    match skip_trivia(s, pos + 1) {
        Err(e) => Err(e),
        Ok(p) => if pos < p && p <= s.len() {
            object_members(s, p, depth, Seq::empty(), trivia_of(s.subrange(pos + 1, p)))
        } else {
            Err(JsoncError::UnexpectedEof)
        },
    }
}

/// The key, raw key and colon text of the member whose key starts at `pos`, and
/// the position of its value.
pub open spec fn member_head(s: Seq<char>, pos: int) -> Result<(Seq<char>, int, int), JsoncError> {
    match read_string(s, pos) {
        Err(e) => Err(e),
        Ok((key, kend)) => match skip_trivia(s, kend) {
            Err(e) => Err(e),
            Ok(c) => if c < 0 || c >= s.len() {
                Err(JsoncError::UnexpectedEof)
            } else if s[c] != ':' {
                Err(JsoncError::UnexpectedChar(c as usize))
            } else {
                match skip_trivia(s, c + 1) {
                    Err(e) => Err(e),
                    Ok(vpos) => Ok((key, kend, vpos)),
                }
            },
        },
    }
}

/// The rest of an object from `pos`, with the members read so far and the trivia before the next one.
pub open spec fn object_members(
    s: Seq<char>,
    pos: int,
    depth: int,
    members: Seq<MemberModel>,
    inner: TriviaModel,
) -> Result<(NodeModel, int), JsoncError>
    decreases s.len() - pos, 2int,
{
    if pos < 0 || pos >= s.len() {
        Err(JsoncError::UnexpectedEof)
    } else if s[pos] == '}' {
        Ok((NodeModel::Object(members, inner), pos + 1))
    } else if s[pos] != '"' {
        Err(JsoncError::UnexpectedChar(pos as usize))
    } else {
        match member_head(s, pos) {
            Err(e) => Err(e),
            Ok((key, kend, vpos)) => if pos < vpos && vpos <= s.len() {
                match parse_value(s, vpos, depth + 1) {
                    Err(e) => Err(e),
                    Ok((v, after)) => match skip_trivia(s, after) {
                        Err(e) => Err(e),
                        Ok(p) => if p < 0 || p >= s.len() {
                            Err(JsoncError::UnexpectedEof)
                        } else if s[p] == ',' {
                            match skip_trivia(s, p + 1) {
                                Err(e) => Err(e),
                                Ok(q) => if pos < q && q <= s.len() {
                                    object_members(
                                        s,
                                        q,
                                        depth,
                                        members.push(
                                            MemberModel {
                                                leading: inner,
                                                key,
                                                key_raw: s.subrange(pos, kend),
                                                colon: s.subrange(kend, vpos),
                                                value: v,
                                                comma: Some(s.subrange(after, p + 1)),
                                            },
                                        ),
                                        trivia_of(s.subrange(p + 1, q)),
                                    )
                                } else {
                                    Err(JsoncError::UnexpectedEof)
                                },
                            }
                        } else if s[p] == '}' {
                            if pos < p && p <= s.len() {
                                object_members(
                                    s,
                                    p,
                                    depth,
                                    members.push(
                                        MemberModel {
                                            leading: inner,
                                            key,
                                            key_raw: s.subrange(pos, kend),
                                            colon: s.subrange(kend, vpos),
                                            value: v,
                                            comma: None,
                                        },
                                    ),
                                    trivia_of(s.subrange(after, p)),
                                )
                            } else {
                                Err(JsoncError::UnexpectedEof)
                            }
                        } else {
                            Err(JsoncError::UnexpectedChar(p as usize))
                        },
                    },
                }
            } else {
                Err(JsoncError::UnexpectedEof)
            },
        }
    }
}

/// The document that `s` spells, with error positions counted in characters.
pub open spec fn parse_chars(s: Seq<char>) -> Result<DocumentModel, JsoncError> {
    match skip_trivia(s, 0) {
        Err(e) => Err(e),
        Ok(p) => match parse_value(s, p, 0) {
            Err(e) => Err(e),
            Ok((root, q)) => match skip_trivia(s, q) {
                Err(e) => Err(e),
                Ok(r) => if r < s.len() {
                    Err(JsoncError::TrailingCharacters(r as usize))
                } else {
                    Ok(DocumentModel { leading: s.take(p), root, trailing: s.subrange(q, r) })
                },
            },
        },
    }
}

/// Bytes in the UTF-8 encoding of `c`.
pub open spec fn utf8_width(c: char) -> int {
    if (c as u32) < 0x80 {
        1
    } else if (c as u32) < 0x800 {
        2
    } else if (c as u32) < 0x10000 {
        3
    } else {
        4
    }
}

/// Bytes in the UTF-8 encoding of the first `n` characters of `s`.
pub open spec fn byte_offset(s: Seq<char>, n: int) -> int
    decreases n,
{
    if n <= 0 || n > s.len() {
        0
    } else {
        byte_offset(s, n - 1) + utf8_width(s[n - 1])
    }
}

/// The error with its character position turned into a byte position in `s`.
pub open spec fn in_bytes(s: Seq<char>, e: JsoncError) -> JsoncError {
    match e {
        JsoncError::UnexpectedChar(p) => JsoncError::UnexpectedChar(byte_offset(s, p as int) as usize),
        JsoncError::InvalidNumber(p) => JsoncError::InvalidNumber(byte_offset(s, p as int) as usize),
        JsoncError::InvalidEscape(p) => JsoncError::InvalidEscape(byte_offset(s, p as int) as usize),
        JsoncError::UnclosedString(p) => JsoncError::UnclosedString(byte_offset(s, p as int) as usize),
        JsoncError::UnclosedComment(p) => JsoncError::UnclosedComment(byte_offset(s, p as int) as usize),
        JsoncError::TrailingCharacters(p) => JsoncError::TrailingCharacters(
            byte_offset(s, p as int) as usize,
        ),
        other => other,
    }
}

/// The JSONC document that the text `s` spells, or why there is none.
pub open spec fn parse_text(s: Seq<char>) -> Result<DocumentModel, JsoncError> {
    match parse_chars(s) {
        Ok(d) => Ok(d),
        Err(e) => Err(in_bytes(s, e)),
    }
}

} // verus!

use vstd::prelude::*;

use super::grammar::{
    array_items, block_end, hex4, hex_value, is_blank, is_hex, is_number_char, is_scalar,
    is_simple_escape, keyword_at, line_end, member_head, number_at, number_end, number_run,
    object_members, parse_array, parse_object, parse_value, read_string, skip_blank, skip_trivia,
    string_at, string_rest, trivia_of, indent_len, unescape, unicode_escape, JsoncError, MAX_DEPTH,
};
use super::model::{
    ArrayNode, ItemModel, ItemNode, JsonValue, MemberModel, MemberNode, Node, NodeModel, ObjectNode,
    Trivia, Value,
};
use super::number::number_from_chars;
use crate::text::{starts_at, string_of, sub_chars};

verus! {

pub open spec fn pos_result(r: Result<usize, JsoncError>) -> Result<int, JsoncError> {
    match r {
        Ok(p) => Ok(p as int),
        Err(e) => Err(e),
    }
}

pub open spec fn node_result(r: Result<(Node, usize), JsoncError>) -> Result<(NodeModel, int), JsoncError> {
    match r {
        Ok((n, p)) => Ok((n@, p as int)),
        Err(e) => Err(e),
    }
}

pub open spec fn item_models(items: Seq<ItemNode>) -> Seq<ItemModel> {
    items.map_values(|x: ItemNode| x@)
}

pub open spec fn member_models(members: Seq<MemberNode>) -> Seq<MemberModel> {
    members.map_values(|x: MemberNode| x@)
}

/// How the model of an array node is made of its items.
pub proof fn lemma_array_node_view(a: ArrayNode)
    ensures
        Node::Array(a)@ == NodeModel::Array(item_models(a.items@), a.inner@),
{
    let n = Node::Array(a);
    if let NodeModel::Array(x, t) = n@ {
        assert(x =~= item_models(a.items@));
    }
}

/// How the model of an object node is made of its members.
pub proof fn lemma_object_node_view(o: ObjectNode)
    ensures
        Node::Object(o)@ == NodeModel::Object(member_models(o.members@), o.inner@),
{
    let n = Node::Object(o);
    if let NodeModel::Object(x, t) = n@ {
        assert(x =~= member_models(o.members@));
    }
}

fn is_blank_exec(c: char) -> (r: bool)
    ensures
        r == is_blank(c),
{
    c == ' ' || c == '\t' || c == '\n' || c == '\r'
}

/// Position after the whitespace and comments from `pos`.
pub fn skip_trivia_exec(s: &Vec<char>, pos: usize) -> (r: Result<usize, JsoncError>)
    requires
        pos <= s.len(),
    ensures
        pos_result(r) == skip_trivia(s@, pos as int),
        r matches Ok(p) ==> pos <= p <= s.len(),
{
    let mut p = pos;
    loop
        invariant
            pos <= p <= s.len(),
            skip_trivia(s@, pos as int) == skip_trivia(s@, p as int),
        decreases s.len() - p,
    {
        let ghost start = p;
        while p < s.len() && is_blank_exec(s[p])
            invariant
                start <= p <= s.len(),
                skip_blank(s@, start as int) == skip_blank(s@, p as int),
            decreases s.len() - p,
        {
            p += 1;
        }
        assert(skip_blank(s@, start as int) == p);
        if s.len() - p > 1 && s[p] == '/' && s[p + 1] == '/' {
            let ghost b = p;
            while p < s.len() && s[p] != '\n'
                invariant
                    b <= p <= s.len(),
                    line_end(s@, b as int) == line_end(s@, p as int),
                decreases s.len() - p,
            {
                p += 1;
            }
            assert(p > start);
        } else if s.len() - p > 1 && s[p] == '/' && s[p + 1] == '*' {
            let b = p;
            p = p + 2;
            while p < s.len() && !(s[p] == '*' && s.len() - p > 1 && s[p + 1] == '/')
                invariant
                    b + 2 <= p <= s.len(),
                    block_end(s@, b + 2) == block_end(s@, p as int),
                decreases s.len() - p,
            {
                p += 1;
            }
            if p >= s.len() {
                return Err(JsoncError::UnclosedComment(b));
            }
            p = p + 2;
        } else {
            return Ok(p);
        }
    }
}

fn hex_value_exec(c: char) -> (r: i32)
    ensures
        r as int == hex_value(c),
{
    if '0' <= c && c <= '9' {
        (c as u32 - '0' as u32) as i32
    } else if 'a' <= c && c <= 'f' {
        (c as u32 - 'a' as u32 + 10) as i32
    } else if 'A' <= c && c <= 'F' {
        (c as u32 - 'A' as u32 + 10) as i32
    } else {
        -1
    }
}

fn hex4_exec(s: &Vec<char>, at: usize) -> (r: Option<u32>)
    ensures
        r == hex4(s@, at as int),
{
    if at > s.len() || s.len() - at < 4 {
        return None;
    }
    let h0 = hex_value_exec(s[at]);
    let h1 = hex_value_exec(s[at + 1]);
    let h2 = hex_value_exec(s[at + 2]);
    let h3 = hex_value_exec(s[at + 3]);
    if h0 >= 0 && h1 >= 0 && h2 >= 0 && h3 >= 0 {
        Some((h0 * 4096 + h1 * 256 + h2 * 16 + h3) as u32)
    } else if s[at] == '+' && h1 >= 0 && h2 >= 0 && h3 >= 0 {
        Some((h1 * 256 + h2 * 16 + h3) as u32)
    } else {
        None
    }
}

/// The character with the given code, where the code is a Unicode scalar value.
#[verifier::external_body]
fn char_from_code(code: u32) -> (r: Option<char>)
    ensures
        r == (if is_scalar(code) {
            Some(code as char)
        } else {
            None
        }),
{
    char::from_u32(code)
}

fn unicode_escape_exec(s: &Vec<char>, p: usize) -> (r: Result<(char, usize), JsoncError>)
    requires
        p + 1 < s.len(),
    ensures
        match r {
            Ok((c, q)) => unicode_escape(s@, p as int) == Ok::<(char, int), JsoncError>((c, q as int))
                && p < q <= s.len(),
            Err(e) => unicode_escape(s@, p as int) == Err::<(char, int), JsoncError>(e),
        },
{
    let first = match hex4_exec(s, p + 2) {
        None => return Err(JsoncError::InvalidEscape(p)),
        Some(f) => f,
    };
    if 0xD800 <= first && first < 0xDC00 {
        if !(s.len() - p > 7 && s[p + 6] == '\\' && s[p + 7] == 'u') {
            return Err(JsoncError::InvalidEscape(p));
        }
        let second = match hex4_exec(s, p + 8) {
            None => return Err(JsoncError::InvalidEscape(p)),
            Some(x) => x,
        };
        if !(0xDC00 <= second && second < 0xE000) {
            return Err(JsoncError::InvalidEscape(p));
        }
        let code: u32 = 0x10000 + (first - 0xD800) * 1024 + (second - 0xDC00);
        match char_from_code(code) {
            Some(c) => Ok((c, p + 12)),
            None => Err(JsoncError::InvalidEscape(p)),
        }
    } else {
        match char_from_code(first) {
            Some(c) => Ok((c, p + 6)),
            None => Err(JsoncError::InvalidEscape(p)),
        }
    }
}

fn unescape_exec(c: char) -> (r: char)
    ensures
        r == unescape(c),
{
    if c == 'b' {
        '\u{8}'
    } else if c == 'f' {
        '\u{c}'
    } else if c == 'n' {
        '\n'
    } else if c == 'r' {
        '\r'
    } else if c == 't' {
        '\t'
    } else {
        c
    }
}

/// The string literal whose quote is at `pos`, and the position after it.
pub fn read_string_exec(s: &Vec<char>, pos: usize) -> (r: Result<(Vec<char>, usize), JsoncError>)
    requires
        pos < s.len(),
    ensures
        match r {
            Ok((t, q)) => read_string(s@, pos as int) == Ok::<(Seq<char>, int), JsoncError>((t@, q as int))
                && pos < q <= s.len(),
            Err(e) => read_string(s@, pos as int) == Err::<(Seq<char>, int), JsoncError>(e),
        },
{
    let mut acc: Vec<char> = Vec::new();
    let mut p = pos + 1;
    loop
        invariant
            pos < p <= s.len(),
            read_string(s@, pos as int) == string_rest(s@, pos as int, p as int, acc@),
        decreases s.len() - p,
    {
        if p >= s.len() {
            return Err(JsoncError::UnclosedString(pos));
        }
        let c = s[p];
        if c == '"' {
            return Ok((acc, p + 1));
        } else if c == '\\' {
            if p + 1 >= s.len() {
                return Err(JsoncError::InvalidEscape(p));
            }
            let e = s[p + 1];
            if e == '"' || e == '\\' || e == '/' || e == 'b' || e == 'f' || e == 'n' || e == 'r'
                || e == 't' {
                acc.push(unescape_exec(e));
                p = p + 2;
            } else if e == 'u' {
                match unicode_escape_exec(s, p) {
                    Err(err) => return Err(err),
                    Ok((ch, q)) => {
                        acc.push(ch);
                        p = q;
                    },
                }
            } else {
                return Err(JsoncError::InvalidEscape(p));
            }
        } else if (c as u32) < 0x20 {
            return Err(JsoncError::UnexpectedChar(p));
        } else {
            acc.push(c);
            p = p + 1;
        }
    }
}

fn is_number_char_exec(c: char) -> (r: bool)
    ensures
        r == is_number_char(c),
{
    ('0' <= c && c <= '9') || c == '.' || c == 'e' || c == 'E' || c == '+' || c == '-'
}

fn number_end_exec(s: &Vec<char>, pos: usize) -> (r: usize)
    requires
        pos < s.len(),
    ensures
        r as int == number_end(s@, pos as int),
        pos < r <= s.len() || (r == pos && s@[pos as int] != '-'),
{
    let mut p = if s[pos] == '-' { pos + 1 } else { pos };
    let ghost b = p;
    while p < s.len() && is_number_char_exec(s[p])
        invariant
            b <= p <= s.len(),
            number_run(s@, b as int) == number_run(s@, p as int),
        decreases s.len() - p,
    {
        p += 1;
    }
    p
}

/// The trivia made of `s[lo..hi]`.
fn trivia_exec(s: &Vec<char>, lo: usize, hi: usize) -> (r: Trivia)
    requires
        lo <= hi <= s.len(),
    ensures
        r@ == trivia_of(s@.subrange(lo as int, hi as int)),
{
    let ghost t = s@.subrange(lo as int, hi as int);
    let mut k = hi;
    while k > lo && (s[k - 1] == ' ' || s[k - 1] == '\t')
        invariant
            lo <= k <= hi <= s.len(),
            t == s@.subrange(lo as int, hi as int),
            indent_len(t, t.len() as int) == (hi - k) + indent_len(t, k - lo),
        decreases k,
    {
        k -= 1;
    }
    let prefix = sub_chars(s, lo, k);
    let indent = sub_chars(s, k, hi);
    proof {
        assert(t.take(k - lo) =~= s@.subrange(lo as int, k as int));
        assert(t.skip(k - lo) =~= s@.subrange(k as int, hi as int));
    }
    Trivia { prefix, indent }
}

/// The node for a scalar that spans `s[pos..q]`.
fn scalar_node(s: &Vec<char>, pos: usize, q: usize, value: Value) -> (r: Node)
    requires
        pos <= q <= s.len(),
    ensures
        r@ == NodeModel::Scalar(s@.subrange(pos as int, q as int), value@),
{
    let raw = sub_chars(s, pos, q);
    Node::Scalar { raw, value }
}

/// The value that starts at `pos`, nested `depth` deep, and the position after it.
pub fn parse_value_exec(s: &Vec<char>, pos: usize, depth: usize) -> (r: Result<(Node, usize), JsoncError>)
    requires
        pos <= s.len(),
        depth <= MAX_DEPTH + 1,
    ensures
        node_result(r) == parse_value(s@, pos as int, depth as int),
        r matches Ok((n, q)) ==> pos < q <= s.len(),
    decreases s.len() - pos, 1int,
{
    if depth > MAX_DEPTH {
        return Err(JsoncError::DepthLimitExceeded);
    }
    if pos >= s.len() {
        return Err(JsoncError::UnexpectedEof);
    }
    let c = s[pos];
    if c == '{' {
        parse_object_exec(s, pos, depth)
    } else if c == '[' {
        parse_array_exec(s, pos, depth)
    } else if c == '"' {
        match read_string_exec(s, pos) {
            Err(e) => Err(e),
            Ok((t, q)) => {
                let v = Value::String(string_of(t.as_slice()));
                Ok((scalar_node(s, pos, q, v), q))
            },
        }
    } else if c == 't' || c == 'f' || c == 'n' {
        let word: Vec<char> = if c == 't' {
            vec!['t', 'r', 'u', 'e']
        } else if c == 'f' {
            vec!['f', 'a', 'l', 's', 'e']
        } else {
            vec!['n', 'u', 'l', 'l']
        };
        let v = if c == 't' {
            Value::Bool(true)
        } else if c == 'f' {
            Value::Bool(false)
        } else {
            Value::Null
        };
        if starts_at(s.as_slice(), pos, word.as_slice()) {
            let q = pos + word.len();
            proof {
                if c == 't' {
                    assert(word@ =~= seq!['t', 'r', 'u', 'e']);
                } else if c == 'f' {
                    assert(word@ =~= seq!['f', 'a', 'l', 's', 'e']);
                } else {
                    assert(word@ =~= seq!['n', 'u', 'l', 'l']);
                }
            }
            Ok((scalar_node(s, pos, q, v), q))
        } else {
            proof {
                if c == 't' {
                    assert(word@ =~= seq!['t', 'r', 'u', 'e']);
                } else if c == 'f' {
                    assert(word@ =~= seq!['f', 'a', 'l', 's', 'e']);
                } else {
                    assert(word@ =~= seq!['n', 'u', 'l', 'l']);
                }
            }
            Err(JsoncError::UnexpectedChar(pos))
        }
    } else if c == '-' || ('0' <= c && c <= '9') {
        let q = number_end_exec(s, pos);
        let lexeme = sub_chars(s, pos, q);
        match number_from_chars(&lexeme) {
            Some(n) => {
                if q == pos {
                    // an empty lexeme never reads as a number
                    assert(false);
                }
                Ok((scalar_node(s, pos, q, Value::Number(n)), q))
            },
            None => Err(JsoncError::InvalidNumber(pos)),
        }
    } else {
        Err(JsoncError::UnexpectedChar(pos))
    }
}

/// The array whose `[` is at `pos`.
pub fn parse_array_exec(s: &Vec<char>, pos: usize, depth: usize) -> (r: Result<(Node, usize), JsoncError>)
    requires
        pos < s.len(),
        depth <= MAX_DEPTH,
    ensures
        node_result(r) == parse_array(s@, pos as int, depth as int),
        r matches Ok((n, q)) ==> pos < q <= s.len(),
    decreases s.len() - pos, 0int,
{
    let mut p = match skip_trivia_exec(s, pos + 1) {
        Err(e) => return Err(e),
        Ok(p) => p,
    };
    let mut inner = trivia_exec(s, pos + 1, p);
    let mut items: Vec<ItemNode> = Vec::new();
    assert(item_models(items@) =~= Seq::<ItemModel>::empty());
    loop
        invariant
            pos < p <= s.len(),
            depth <= MAX_DEPTH,
            parse_array(s@, pos as int, depth as int) == array_items(
                s@,
                p as int,
                depth as int,
                item_models(items@),
                inner@,
            ),
        decreases s.len() - p,
    {
        if p >= s.len() {
            return Err(JsoncError::UnexpectedEof);
        }
        if s[p] == ']' {
            let node = Node::Array(ArrayNode { items, inner });
            proof {
                lemma_array_node_view(ArrayNode { items, inner });
            }
            return Ok((node, p + 1));
        }
        let (value, after) = match parse_value_exec(s, p, depth + 1) {
            Err(e) => return Err(e),
            Ok(x) => x,
        };
        let q = match skip_trivia_exec(s, after) {
            Err(e) => return Err(e),
            Ok(q) => q,
        };
        if q >= s.len() {
            return Err(JsoncError::UnexpectedEof);
        }
        if s[q] == ',' {
            let next = match skip_trivia_exec(s, q + 1) {
                Err(e) => return Err(e),
                Ok(n) => n,
            };
            let comma = sub_chars(s, after, q + 1);
            let item = ItemNode { leading: inner, value, comma: Some(comma) };
            let ghost before = items@;
            items.push(item);
            proof {
                assert(item_models(items@) =~= item_models(before).push(item@));
            }
            inner = trivia_exec(s, q + 1, next);
            p = next;
        } else if s[q] == ']' {
            let item = ItemNode { leading: inner, value, comma: None };
            let ghost before = items@;
            items.push(item);
            proof {
                assert(item_models(items@) =~= item_models(before).push(item@));
            }
            inner = trivia_exec(s, after, q);
            p = q;
        } else {
            return Err(JsoncError::UnexpectedChar(q));
        }
    }
}

/// The key, raw end and value position of the member whose key starts at `pos`.
fn member_head_exec(s: &Vec<char>, pos: usize) -> (r: Result<(Vec<char>, usize, usize), JsoncError>)
    requires
        pos < s.len(),
    ensures
        match r {
            Ok((k, kend, vpos)) => member_head(s@, pos as int) == Ok::<(Seq<char>, int, int), JsoncError>(
                (k@, kend as int, vpos as int),
            ) && pos < kend <= vpos <= s.len(),
            Err(e) => member_head(s@, pos as int) == Err::<(Seq<char>, int, int), JsoncError>(e),
        },
{
    let (key, kend) = match read_string_exec(s, pos) {
        Err(e) => return Err(e),
        Ok(x) => x,
    };
    let c = match skip_trivia_exec(s, kend) {
        Err(e) => return Err(e),
        Ok(c) => c,
    };
    if c >= s.len() {
        return Err(JsoncError::UnexpectedEof);
    }
    if s[c] != ':' {
        return Err(JsoncError::UnexpectedChar(c));
    }
    match skip_trivia_exec(s, c + 1) {
        Err(e) => Err(e),
        Ok(vpos) => Ok((key, kend, vpos)),
    }
}

/// The object whose `{` is at `pos`.
pub fn parse_object_exec(s: &Vec<char>, pos: usize, depth: usize) -> (r: Result<(Node, usize), JsoncError>)
    requires
        pos < s.len(),
        depth <= MAX_DEPTH,
    ensures
        node_result(r) == parse_object(s@, pos as int, depth as int),
        r matches Ok((n, q)) ==> pos < q <= s.len(),
    decreases s.len() - pos, 0int,
{
    let mut p = match skip_trivia_exec(s, pos + 1) {
        Err(e) => return Err(e),
        Ok(p) => p,
    };
    let mut inner = trivia_exec(s, pos + 1, p);
    let mut members: Vec<MemberNode> = Vec::new();
    assert(member_models(members@) =~= Seq::<MemberModel>::empty());
    loop
        invariant
            pos < p <= s.len(),
            depth <= MAX_DEPTH,
            parse_object(s@, pos as int, depth as int) == object_members(
                s@,
                p as int,
                depth as int,
                member_models(members@),
                inner@,
            ),
        decreases s.len() - p,
    {
        if p >= s.len() {
            return Err(JsoncError::UnexpectedEof);
        }
        if s[p] == '}' {
            let node = Node::Object(ObjectNode { members, inner });
            proof {
                lemma_object_node_view(ObjectNode { members, inner });
            }
            return Ok((node, p + 1));
        }
        if s[p] != '"' {
            return Err(JsoncError::UnexpectedChar(p));
        }
        let (key, kend, vpos) = match member_head_exec(s, p) {
            Err(e) => return Err(e),
            Ok(x) => x,
        };
        let (value, after) = match parse_value_exec(s, vpos, depth + 1) {
            Err(e) => return Err(e),
            Ok(x) => x,
        };
        let q = match skip_trivia_exec(s, after) {
            Err(e) => return Err(e),
            Ok(q) => q,
        };
        if q >= s.len() {
            return Err(JsoncError::UnexpectedEof);
        }
        let key_raw = sub_chars(s, p, kend);
        let colon = sub_chars(s, kend, vpos);
        if s[q] == ',' {
            let next = match skip_trivia_exec(s, q + 1) {
                Err(e) => return Err(e),
                Ok(n) => n,
            };
            let comma = sub_chars(s, after, q + 1);
            let member = MemberNode { leading: inner, key, key_raw, colon, value, comma: Some(comma) };
            let ghost before = members@;
            members.push(member);
            proof {
                assert(member_models(members@) =~= member_models(before).push(member@));
            }
            inner = trivia_exec(s, q + 1, next);
            p = next;
        } else if s[q] == '}' {
            let member = MemberNode { leading: inner, key, key_raw, colon, value, comma: None };
            let ghost before = members@;
            members.push(member);
            proof {
                assert(member_models(members@) =~= member_models(before).push(member@));
            }
            inner = trivia_exec(s, after, q);
            p = q;
        } else {
            return Err(JsoncError::UnexpectedChar(q));
        }
    }
}

} // verus!

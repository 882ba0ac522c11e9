use vstd::prelude::*;

use super::grammar::{
    array_items, block_end, indent_len, line_end, member_head, object_members, parse_array,
    parse_chars, parse_object, parse_text, parse_value, read_string, skip_blank, skip_trivia,
    string_rest, trivia_of, unicode_escape, DocumentModel, JsoncError,
};
use super::model::{ItemModel, MemberModel, NodeModel, TriviaModel};

verus! {

/// The text of a piece of trivia.
pub open spec fn trivia_text(t: TriviaModel) -> Seq<char> {
    t.prefix + t.indent
}

/// The text of an optional comma (with the trivia before it).
pub open spec fn comma_text(c: Option<Seq<char>>) -> Seq<char> {
    match c {
        Some(x) => x,
        None => Seq::empty(),
    }
}

/// The text a node is written as.
pub open spec fn node_text(n: NodeModel) -> Seq<char>
    decreases n,
{
    match n {
        NodeModel::Scalar(raw, _) => raw,
        NodeModel::Array(items, inner) => seq!['['] + items_text(items) + trivia_text(inner) + seq![']'],
        NodeModel::Object(members, inner) => seq!['{'] + members_text(members) + trivia_text(inner)
            + seq!['}'],
    }
}

/// The text of a run of array items.
pub open spec fn items_text(items: Seq<ItemModel>) -> Seq<char>
    decreases items,
{
    if items.len() == 0 {
        Seq::empty()
    } else {
        let k = items.len() - 1;
        proof {
            assert(decreases_to!(items => items[k]));
            assert(decreases_to!(items[k] => items[k].value));
        }
        items_text(items.subrange(0, k)) + trivia_text(items[k].leading) + node_text(items[k].value)
            + comma_text(items[k].comma)
    }
}

/// The text of a run of object members.
pub open spec fn members_text(members: Seq<MemberModel>) -> Seq<char>
    decreases members,
{
    if members.len() == 0 {
        Seq::empty()
    } else {
        let k = members.len() - 1;
        proof {
            assert(decreases_to!(members => members[k]));
            assert(decreases_to!(members[k] => members[k].value));
        }
        members_text(members.subrange(0, k)) + trivia_text(members[k].leading) + members[k].key_raw
            + members[k].colon + node_text(members[k].value) + comma_text(members[k].comma)
    }
}

/// The text a document is written as.
pub open spec fn document_text(d: DocumentModel) -> Seq<char> {
    d.leading + node_text(d.root) + d.trailing
}

proof fn lemma_skip_blank(s: Seq<char>, p: int)
    requires
        0 <= p <= s.len(),
    ensures
        p <= skip_blank(s, p) <= s.len(),
    decreases s.len() - p,
{
    if p < s.len() {
        lemma_skip_blank(s, p + 1);
    }
}

proof fn lemma_line_end(s: Seq<char>, p: int)
    requires
        0 <= p <= s.len(),
    ensures
        p <= line_end(s, p) <= s.len(),
    decreases s.len() - p,
{
    if p < s.len() {
        lemma_line_end(s, p + 1);
    }
}

proof fn lemma_block_end(s: Seq<char>, p: int)
    requires
        0 <= p,
    ensures
        block_end(s, p) matches Some(q) ==> p + 2 <= q <= s.len(),
    decreases s.len() - p,
{
    if p < s.len() {
        lemma_block_end(s, p + 1);
    }
}

/// Skipping trivia never moves backwards nor past the end.
pub proof fn lemma_skip_trivia(s: Seq<char>, p: int)
    requires
        0 <= p <= s.len(),
    ensures
        skip_trivia(s, p) matches Ok(q) ==> p <= q <= s.len(),
    decreases s.len() - p,
{
    lemma_skip_blank(s, p);
    let b = skip_blank(s, p);
    if 0 <= b && b + 1 < s.len() && s[b] == '/' && s[b + 1] == '/' {
        lemma_line_end(s, b);
        let q = line_end(s, b);
        if p < q && q <= s.len() {
            lemma_skip_trivia(s, q);
        }
    } else if 0 <= b && b + 1 < s.len() && s[b] == '/' && s[b + 1] == '*' {
        lemma_block_end(s, b + 2);
        if let Some(q) = block_end(s, b + 2) {
            if p < q && q <= s.len() {
                lemma_skip_trivia(s, q);
            }
        }
    }
}

proof fn lemma_indent_len(t: Seq<char>, n: int)
    requires
        0 <= n,
    ensures
        0 <= indent_len(t, n) <= n,
    decreases n,
{
    if 0 < n {
        lemma_indent_len(t, n - 1);
    }
}

/// The trivia made of a text is written as that text.
pub proof fn lemma_trivia_of(t: Seq<char>)
    ensures
        trivia_text(trivia_of(t)) == t,
{
    lemma_indent_len(t, t.len() as int);
    let k = t.len() - indent_len(t, t.len() as int);
    assert(t.take(k) + t.skip(k) =~= t);
}

proof fn lemma_string_rest(s: Seq<char>, start: int, pos: int, acc: Seq<char>)
    requires
        0 <= pos,
    ensures
        string_rest(s, start, pos, acc) matches Ok((t, q)) ==> pos < q <= s.len(),
    decreases s.len() - pos,
{
    if 0 <= pos < s.len() && s[pos] != '"' {
        if s[pos] == '\\' {
            if pos + 1 < s.len() {
                if super::grammar::is_simple_escape(s[pos + 1]) {
                    lemma_string_rest(s, start, pos + 2, acc.push(super::grammar::unescape(s[pos + 1])));
                } else if s[pos + 1] == 'u' {
                    if let Ok((c, q)) = unicode_escape(s, pos) {
                        if pos < q && q <= s.len() {
                            lemma_string_rest(s, start, q, acc.push(c));
                        }
                    }
                }
            }
        } else {
            lemma_string_rest(s, start, pos + 1, acc.push(s[pos]));
        }
    }
}

proof fn lemma_member_head(s: Seq<char>, pos: int)
    requires
        0 <= pos < s.len(),
    ensures
        member_head(s, pos) matches Ok((key, kend, vpos)) ==> pos < kend <= vpos <= s.len(),
{
    lemma_string_rest(s, pos, pos + 1, Seq::empty());
    if let Ok((key, kend)) = read_string(s, pos) {
        lemma_skip_trivia(s, kend);
        if let Ok(c) = skip_trivia(s, kend) {
            if 0 <= c < s.len() && s[c] == ':' {
                lemma_skip_trivia(s, c + 1);
            }
        }
    }
}

/// A parsed value is written as exactly the text it was read from.
#[verifier::rlimit(40)]
pub proof fn lemma_value_text(s: Seq<char>, pos: int, depth: int)
    requires
        0 <= pos <= s.len(),
    ensures
        parse_value(s, pos, depth) matches Ok((n, q)) ==> pos < q <= s.len() && node_text(n)
            == s.subrange(pos, q),
    decreases s.len() - pos, 1int,
{
    if pos < s.len() {
        if s[pos] == '{' {
            lemma_object_text(s, pos, depth);
        } else if s[pos] == '[' {
            lemma_array_text(s, pos, depth);
        } else if s[pos] == '"' {
            lemma_string_rest(s, pos, pos + 1, Seq::empty());
        } else if s[pos] == '-' || ('0' <= s[pos] && s[pos] <= '9') {
            let q = super::grammar::number_end(s, pos);
            lemma_number_run(s, pos + 1);
            lemma_number_run(s, pos);
        }
    }
}

proof fn lemma_number_run(s: Seq<char>, p: int)
    requires
        0 <= p <= s.len(),
    ensures
        p <= super::grammar::number_run(s, p) <= s.len(),
    decreases s.len() - p,
{
    if p < s.len() {
        lemma_number_run(s, p + 1);
    }
}

proof fn lemma_bracketed(s: Seq<char>, pos: int, p: int, q: int, body: Seq<char>)
    requires
        0 <= pos < p <= q <= s.len(),
        body == Seq::<char>::empty() + trivia_text(trivia_of(s.subrange(pos + 1, p))) + s.subrange(p, q),
    ensures
        seq![s[pos]] + body == s.subrange(pos, q),
{
    lemma_trivia_of(s.subrange(pos + 1, p));
    assert(seq![s[pos]] + body =~= s.subrange(pos, q));
}

#[verifier::rlimit(40)]
proof fn lemma_array_text(s: Seq<char>, pos: int, depth: int)
    requires
        0 <= pos < s.len(),
        s[pos] == '[',
    ensures
        parse_array(s, pos, depth) matches Ok((n, q)) ==> pos < q <= s.len() && node_text(n)
            == s.subrange(pos, q),
    decreases s.len() - pos, 0int,
{
    lemma_skip_trivia(s, pos + 1);
    if let Ok(p) = skip_trivia(s, pos + 1) {
        if pos < p && p <= s.len() {
            let inner = trivia_of(s.subrange(pos + 1, p));
            lemma_trivia_of(s.subrange(pos + 1, p));
            lemma_items_text(s, p, depth, Seq::empty(), inner);
            if let Ok((n, q)) = array_items(s, p, depth, Seq::empty(), inner) {
                if let NodeModel::Array(items2, inner2) = n {
                    assert(items_text(Seq::<ItemModel>::empty()) =~= Seq::<char>::empty());
                    lemma_bracketed(s, pos, p, q, items_text(items2) + trivia_text(inner2) + seq![']']);
                    assert(node_text(n) =~= seq!['['] + (items_text(items2) + trivia_text(inner2) + seq![']']));
                }
            }
        }
    }
}

/// Five adjacent pieces of a sequence make up the whole stretch.
proof fn lemma_split(s: Seq<char>, a: int, b: int, c: int, d: int)
    requires
        0 <= a <= b <= c <= d <= s.len(),
    ensures
        s.subrange(a, d) == s.subrange(a, b) + s.subrange(b, c) + s.subrange(c, d),
{
    assert(s.subrange(a, d) =~= s.subrange(a, b) + s.subrange(b, c) + s.subrange(c, d));
}

pub proof fn lemma_items_push_text(items: Seq<ItemModel>, item: ItemModel)
    ensures
        items_text(items.push(item)) == items_text(items) + trivia_text(item.leading) + node_text(
            item.value,
        ) + comma_text(item.comma),
{
    assert(items.push(item).subrange(0, items.len() as int) =~= items);
}

pub proof fn lemma_members_push_text(members: Seq<MemberModel>, m: MemberModel)
    ensures
        members_text(members.push(m)) == members_text(members) + trivia_text(m.leading) + m.key_raw
            + m.colon + node_text(m.value) + comma_text(m.comma),
{
    assert(members.push(m).subrange(0, members.len() as int) =~= members);
}

/// One item step: the text after the step, and the text read by it, give the text before it.
proof fn lemma_items_join(
    s: Seq<char>,
    pos: int,
    after: int,
    c: int,
    q: int,
    r: int,
    items: Seq<ItemModel>,
    item: ItemModel,
    rest: Seq<char>,
)
    requires
        0 <= pos <= after <= c <= q <= r <= s.len(),
        node_text(item.value) == s.subrange(pos, after),
        comma_text(item.comma) == s.subrange(after, c),
        rest == items_text(items.push(item)) + trivia_text(trivia_of(s.subrange(c, q))) + s.subrange(q, r),
    ensures
        rest == items_text(items) + trivia_text(item.leading) + s.subrange(pos, r),
{
    lemma_items_push_text(items, item);
    lemma_trivia_of(s.subrange(c, q));
    lemma_split(s, pos, after, c, q);
    lemma_split(s, pos, q, q, r);
    assert(s.subrange(pos, r) =~= s.subrange(pos, after) + s.subrange(after, c) + s.subrange(c, q) + s.subrange(q, r));
    assert(rest =~= items_text(items) + trivia_text(item.leading) + s.subrange(pos, r));
}

proof fn lemma_members_join(
    s: Seq<char>,
    pos: int,
    after: int,
    c: int,
    q: int,
    r: int,
    members: Seq<MemberModel>,
    m: MemberModel,
    rest: Seq<char>,
)
    requires
        0 <= pos <= after <= c <= q <= r <= s.len(),
        m.key_raw + m.colon + node_text(m.value) == s.subrange(pos, after),
        comma_text(m.comma) == s.subrange(after, c),
        rest == members_text(members.push(m)) + trivia_text(trivia_of(s.subrange(c, q))) + s.subrange(q, r),
    ensures
        rest == members_text(members) + trivia_text(m.leading) + s.subrange(pos, r),
{
    lemma_members_push_text(members, m);
    lemma_trivia_of(s.subrange(c, q));
    assert(s.subrange(pos, r) =~= s.subrange(pos, after) + s.subrange(after, c) + s.subrange(c, q) + s.subrange(q, r));
    assert(rest =~= members_text(members) + trivia_text(m.leading) + s.subrange(pos, r));
}

#[verifier::rlimit(40)]
proof fn lemma_items_text(
    s: Seq<char>,
    pos: int,
    depth: int,
    items: Seq<ItemModel>,
    inner: TriviaModel,
)
    requires
        0 <= pos <= s.len(),
    ensures
        array_items(s, pos, depth, items, inner) matches Ok((n, q)) ==> pos < q <= s.len() && (
        n matches NodeModel::Array(items2, inner2) && items_text(items2) + trivia_text(inner2)
            + seq![']'] == items_text(items) + trivia_text(inner) + s.subrange(pos, q)),
    decreases s.len() - pos, 2int,
{
    if 0 <= pos < s.len() {
        if s[pos] == ']' {
            assert(s.subrange(pos, pos + 1) =~= seq![']']);
        } else {
            lemma_value_text(s, pos, depth + 1);
            if let Ok((v, after)) = parse_value(s, pos, depth + 1) {
                lemma_skip_trivia(s, after);
                if let Ok(p) = skip_trivia(s, after) {
                    if 0 <= p < s.len() {
                        if s[p] == ',' {
                            lemma_skip_trivia(s, p + 1);
                            if let Ok(q) = skip_trivia(s, p + 1) {
                                if pos < q && q <= s.len() {
                                    let item = ItemModel {
                                        leading: inner,
                                        value: v,
                                        comma: Some(s.subrange(after, p + 1)),
                                    };
                                    let items1 = items.push(item);
                                    let inner1 = trivia_of(s.subrange(p + 1, q));
                                    lemma_items_text(s, q, depth, items1, inner1);
                                    if let Ok((n, r)) = array_items(s, q, depth, items1, inner1) {
                                        if let NodeModel::Array(items2, inner2) = n {
                                            lemma_items_join(s, pos, after, p + 1, q, r, items, item,
                                                items_text(items2) + trivia_text(inner2) + seq![']']);
                                        }
                                    }
                                }
                            }
                        } else if s[p] == ']' {
                            if pos < p && p <= s.len() {
                                let item = ItemModel { leading: inner, value: v, comma: None };
                                let items1 = items.push(item);
                                let inner1 = trivia_of(s.subrange(after, p));
                                lemma_items_text(s, p, depth, items1, inner1);
                                assert(s.subrange(after, after) =~= Seq::<char>::empty());
                                if let Ok((n, r)) = array_items(s, p, depth, items1, inner1) {
                                    if let NodeModel::Array(items2, inner2) = n {
                                        lemma_items_join(s, pos, after, after, p, r, items, item,
                                            items_text(items2) + trivia_text(inner2) + seq![']']);
                                    }
                                }
                            }
                        }
                    }
                }
            }
        }
    }
}

#[verifier::rlimit(40)]
proof fn lemma_object_text(s: Seq<char>, pos: int, depth: int)
    requires
        0 <= pos < s.len(),
        s[pos] == '{',
    ensures
        parse_object(s, pos, depth) matches Ok((n, q)) ==> pos < q <= s.len() && node_text(n)
            == s.subrange(pos, q),
    decreases s.len() - pos, 0int,
{
    lemma_skip_trivia(s, pos + 1);
    if let Ok(p) = skip_trivia(s, pos + 1) {
        if pos < p && p <= s.len() {
            let inner = trivia_of(s.subrange(pos + 1, p));
            lemma_trivia_of(s.subrange(pos + 1, p));
            lemma_members_text(s, p, depth, Seq::empty(), inner);
            if let Ok((n, q)) = object_members(s, p, depth, Seq::empty(), inner) {
                if let NodeModel::Object(ms2, inner2) = n {
                    assert(members_text(Seq::<MemberModel>::empty()) =~= Seq::<char>::empty());
                    lemma_bracketed(s, pos, p, q, members_text(ms2) + trivia_text(inner2) + seq!['}']);
                    assert(node_text(n) =~= seq!['{'] + (members_text(ms2) + trivia_text(inner2) + seq!['}']));
                }
            }
        }
    }
}

#[verifier::rlimit(60)]
proof fn lemma_members_text(
    s: Seq<char>,
    pos: int,
    depth: int,
    members: Seq<MemberModel>,
    inner: TriviaModel,
)
    requires
        0 <= pos <= s.len(),
    ensures
        object_members(s, pos, depth, members, inner) matches Ok((n, q)) ==> pos < q <= s.len() && (
        n matches NodeModel::Object(members2, inner2) && members_text(members2) + trivia_text(inner2)
            + seq!['}'] == members_text(members) + trivia_text(inner) + s.subrange(pos, q)),
    decreases s.len() - pos, 2int,
{
    if 0 <= pos < s.len() {
        if s[pos] == '}' {
            assert(s.subrange(pos, pos + 1) =~= seq!['}']);
        } else if s[pos] == '"' {
            lemma_member_head(s, pos);
            if let Ok((key, kend, vpos)) = member_head(s, pos) {
                if pos < vpos && vpos <= s.len() {
                    lemma_value_text(s, vpos, depth + 1);
                    if let Ok((v, after)) = parse_value(s, vpos, depth + 1) {
                        lemma_skip_trivia(s, after);
                        assert(s.subrange(pos, after) =~= s.subrange(pos, kend) + s.subrange(kend, vpos) + s.subrange(vpos, after));
                        if let Ok(p) = skip_trivia(s, after) {
                            if 0 <= p < s.len() {
                                if s[p] == ',' {
                                    lemma_skip_trivia(s, p + 1);
                                    if let Ok(q) = skip_trivia(s, p + 1) {
                                        if pos < q && q <= s.len() {
                                            let m = MemberModel {
                                                leading: inner,
                                                key,
                                                key_raw: s.subrange(pos, kend),
                                                colon: s.subrange(kend, vpos),
                                                value: v,
                                                comma: Some(s.subrange(after, p + 1)),
                                            };
                                            let members1 = members.push(m);
                                            let inner1 = trivia_of(s.subrange(p + 1, q));
                                            lemma_members_text(s, q, depth, members1, inner1);
                                            if let Ok((n, r)) = object_members(s, q, depth, members1, inner1) {
                                                if let NodeModel::Object(ms2, inner2) = n {
                                                    lemma_members_join(s, pos, after, p + 1, q, r, members, m,
                                                        members_text(ms2) + trivia_text(inner2) + seq!['}']);
                                                }
                                            }
                                        }
                                    }
                                } else if s[p] == '}' {
                                    if pos < p && p <= s.len() {
                                        let m = MemberModel {
                                            leading: inner,
                                            key,
                                            key_raw: s.subrange(pos, kend),
                                            colon: s.subrange(kend, vpos),
                                            value: v,
                                            comma: None,
                                        };
                                        let members1 = members.push(m);
                                        let inner1 = trivia_of(s.subrange(after, p));
                                        lemma_members_text(s, p, depth, members1, inner1);
                                        assert(s.subrange(after, after) =~= Seq::<char>::empty());
                                        if let Ok((n, r)) = object_members(s, p, depth, members1, inner1) {
                                            if let NodeModel::Object(ms2, inner2) = n {
                                                lemma_members_join(s, pos, after, after, p, r, members, m,
                                                    members_text(ms2) + trivia_text(inner2) + seq!['}']);
                                            }
                                        }
                                    }
                                }
                            }
                        }
                    }
                }
            }
        }
    }
}

/// A document read from a text is written back as exactly that text: comments,
/// whitespace, trailing commas and the spelling of every literal are kept.
pub proof fn lemma_parse_then_text(s: Seq<char>)
    ensures
        parse_text(s) matches Ok(d) ==> document_text(d) == s,
{
    lemma_skip_trivia(s, 0);
    if let Ok(p) = skip_trivia(s, 0) {
        lemma_value_text(s, p, 0);
        if let Ok((root, q)) = parse_value(s, p, 0) {
            lemma_skip_trivia(s, q);
            if let Ok(r) = skip_trivia(s, q) {
                if r >= s.len() {
                    assert(s.take(p) + s.subrange(p, q) + s.subrange(q, r) =~= s);
                }
            }
        }
    }
}

} // verus!

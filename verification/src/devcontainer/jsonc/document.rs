use vstd::prelude::*;

use super::grammar::{byte_offset, in_bytes, parse_chars, parse_text, utf8_width, DocumentModel, JsoncError};
use super::layout::{
    comma_text, document_text, items_text, lemma_items_push_text, lemma_members_push_text,
    lemma_parse_then_text, members_text, node_text, trivia_text,
};
use super::model::{
    lemma_array_view, lemma_object_view, node_value, opt_view, ArrayNode, ItemModel, JsonValue,
    MemberModel, Node, NodeModel, ObjectNode, Trivia, TriviaModel, Value,
};
use super::edit::{failure_of, insert_into, inserted_members, lemma_inserted_agrees, object_value, path_view, set_in_node, InsertError, InsertFailure};
use super::model::copy_chars;
use super::parse::{
    item_models, lemma_array_node_view, lemma_object_node_view, member_models, parse_value_exec,
    skip_trivia_exec,
};
use crate::text::{chars_of, push_all, string_of, sub_chars};

verus! {

/// A JSONC document: its root value together with the exact text around and
/// inside it, so that it can be written back as it was read.
#[derive(Debug, PartialEq)]
pub struct Document {
    leading: Vec<char>,
    root: Node,
    trailing: Vec<char>,
}

impl View for Document {
    type V = DocumentModel;

    closed spec fn view(&self) -> DocumentModel {
        DocumentModel { leading: self.leading@, root: self.root@, trailing: self.trailing@ }
    }
}

fn utf8_width_exec(c: char) -> (r: u128)
    ensures
        r == utf8_width(c),
{
    let code = c as u32;
    if code < 0x80 {
        1
    } else if code < 0x800 {
        2
    } else if code < 0x10000 {
        3
    } else {
        4
    }
}

/// Bytes in the UTF-8 encoding of the first `n` characters of `s`.
fn byte_offset_exec(s: &Vec<char>, n: usize) -> (r: u128)
    ensures
        r == byte_offset(s@, n as int),
{
    if n > s.len() {
        return 0;
    }
    let mut acc: u128 = 0;
    let mut i: usize = 0;
    while i < n
        invariant
            i <= n <= s.len(),
            acc == byte_offset(s@, i as int),
            acc <= 4 * i,
        decreases n - i,
    {
        acc = acc + utf8_width_exec(s[i]);
        i += 1;
    }
    acc
}

fn in_bytes_exec(s: &Vec<char>, e: JsoncError) -> (r: JsoncError)
    ensures
        r == in_bytes(s@, e),
{
    match e {
        JsoncError::UnexpectedChar(p) => JsoncError::UnexpectedChar(byte_offset_exec(s, p) as usize),
        JsoncError::InvalidNumber(p) => JsoncError::InvalidNumber(byte_offset_exec(s, p) as usize),
        JsoncError::InvalidEscape(p) => JsoncError::InvalidEscape(byte_offset_exec(s, p) as usize),
        JsoncError::UnclosedString(p) => JsoncError::UnclosedString(byte_offset_exec(s, p) as usize),
        JsoncError::UnclosedComment(p) => JsoncError::UnclosedComment(byte_offset_exec(s, p) as usize),
        JsoncError::TrailingCharacters(p) => JsoncError::TrailingCharacters(
            byte_offset_exec(s, p) as usize,
        ),
        other => other,
    }
}

fn parse_chars_exec(s: &Vec<char>) -> (r: Result<Document, JsoncError>)
    ensures
        match r {
            Ok(d) => parse_chars(s@) == Ok::<DocumentModel, JsoncError>(d@),
            Err(e) => parse_chars(s@) == Err::<DocumentModel, JsoncError>(e),
        },
{
    let p = match skip_trivia_exec(s, 0) {
        Ok(p) => p,
        Err(e) => return Err(e),
    };
    let (root, q) = match parse_value_exec(s, p, 0) {
        Ok(x) => x,
        Err(e) => return Err(e),
    };
    let r = match skip_trivia_exec(s, q) {
        Ok(r) => r,
        Err(e) => return Err(e),
    };
    if r < s.len() {
        return Err(JsoncError::TrailingCharacters(r));
    }
    let leading = sub_chars(s, 0, p);
    let trailing = sub_chars(s, q, r);
    assert(s@.subrange(0, p as int) =~= s@.take(p as int));
    Ok(Document { leading, root, trailing })
}

/// Reads a JSONC document: JSON with `//` and `/* */` comments and trailing commas.
pub fn parse(input: &str) -> (r: Result<Document, JsoncError>)
    ensures
        match r {
            Ok(d) => parse_text(input@) == Ok::<DocumentModel, JsoncError>(d@),
            Err(e) => parse_text(input@) == Err::<DocumentModel, JsoncError>(e),
        },
{
    let s = chars_of(input);
    match parse_chars_exec(&s) {
        Ok(d) => Ok(d),
        Err(e) => Err(in_bytes_exec(&s, e)),
    }
}

impl Node {
    /// Appends the text of this node to `out`.
    pub fn write(&self, out: &mut Vec<char>)
        ensures
            final(out)@ == old(out)@ + node_text(self@),
        decreases self, 1int,
    {
        match self {
            Node::Scalar { raw, .. } => {
                push_all(out, raw.as_slice());
            },
            Node::Array(a) => {
                proof {
                    lemma_array_node_view(*a);
                    assert(decreases_to!(*self => (*self)->Array_0));
                }
                write_array(a, out);
            },
            Node::Object(o) => {
                proof {
                    lemma_object_node_view(*o);
                    assert(decreases_to!(*self => (*self)->Object_0));
                }
                write_object(o, out);
            },
        }
    }

    /// The value this node stands for.
    #[verifier::loop_isolation(false)]
    pub fn value(&self) -> (r: Value)
        ensures
            r@ == node_value(self@),
        decreases self,
    {
        match self {
            Node::Scalar { value, .. } => value.deep_clone(),
            Node::Array(a) => {
                proof { lemma_array_node_view(*a); }
                let ghost models = item_models(a.items@);
                let mut out: Vec<Value> = Vec::new();
                let mut i: usize = 0;
                while i < a.items.len()
                    invariant
                        i <= a.items.len(),
                        out.len() == i,
                        forall|j: int| 0 <= j < i ==> #[trigger] out@[j]@ == node_value(models[j].value),
                    decreases a.items.len() - i,
                {
                    proof {
                        assert(decreases_to!(*self => (*self)->Array_0));
                        assert(decreases_to!(a.items => a.items[i as int]));
                        assert(decreases_to!(a.items[i as int] => a.items[i as int].value));
                    }
                    let v = a.items[i].value.value();
                    out.push(v);
                    i += 1;
                }
                let r = Value::Array(out);
                proof {
                    lemma_array_view(r);
                    if let JsonValue::Array(x) = r@ {
                        if let JsonValue::Array(y) = node_value(self@) {
                            assert(x =~= y);
                        }
                    }
                }
                r
            },
            Node::Object(o) => {
                proof { lemma_object_node_view(*o); }
                let ghost models = member_models(o.members@);
                let mut out: Vec<(String, Value)> = Vec::new();
                let mut i: usize = 0;
                while i < o.members.len()
                    invariant
                        i <= o.members.len(),
                        out.len() == i,
                        forall|j: int| #![trigger out@[j]] 0 <= j < i ==> out@[j].1@ == node_value(models[j].value)
                            && out@[j].0@ == models[j].key,
                    decreases o.members.len() - i,
                {
                    proof {
                        assert(decreases_to!(*self => (*self)->Object_0));
                        assert(decreases_to!(o.members => o.members[i as int]));
                        assert(decreases_to!(o.members[i as int] => o.members[i as int].value));
                    }
                    let k = string_of(o.members[i].key.as_slice());
                    let v = o.members[i].value.value();
                    out.push((k, v));
                    assert(out@[i as int].0@ == models[i as int].key);
                    i += 1;
                }
                let r = Value::Object(out);
                proof {
                    lemma_object_view(r);
                    if let JsonValue::Object(k1, x) = r@ {
                        if let JsonValue::Object(k2, y) = node_value(self@) {
                            assert(x =~= y);
                            assert(k1 =~= k2);
                        }
                    }
                }
                r
            },
        }
    }
}

#[verifier::loop_isolation(false)]
fn write_array(a: &ArrayNode, out: &mut Vec<char>)
    ensures
        final(out)@ == old(out)@ + node_text(NodeModel::Array(item_models(a.items@), a.inner@)),
    decreases a, 0int,
{
    let ghost start = out@;
    let ghost models = item_models(a.items@);
    out.push('[');
    let mut i: usize = 0;
    while i < a.items.len()
        invariant
            i <= a.items.len(),
            out@ == start + seq!['['] + items_text(models.take(i as int)),
        decreases a.items.len() - i,
    {
        proof {
            assert(decreases_to!(a.items => a.items[i as int]));
            assert(decreases_to!(a.items[i as int] => a.items[i as int].value));
        }
        let item = &a.items[i];
        push_all(out, item.leading.prefix.as_slice());
        push_all(out, item.leading.indent.as_slice());
        item.value.write(out);
        if let Some(c) = &item.comma {
            push_all(out, c.as_slice());
        }
        proof {
            assert(models.take(i + 1) =~= models.take(i as int).push(models[i as int]));
            lemma_items_push_text(models.take(i as int), models[i as int]);
        }
        i += 1;
    }
    push_all(out, a.inner.prefix.as_slice());
    push_all(out, a.inner.indent.as_slice());
    out.push(']');
    assert(models.take(a.items.len() as int) =~= models);
}

#[verifier::loop_isolation(false)]
fn write_object(o: &ObjectNode, out: &mut Vec<char>)
    ensures
        final(out)@ == old(out)@ + node_text(NodeModel::Object(member_models(o.members@), o.inner@)),
    decreases o, 0int,
{
    let ghost start = out@;
    let ghost models = member_models(o.members@);
    out.push('{');
    let mut i: usize = 0;
    while i < o.members.len()
        invariant
            i <= o.members.len(),
            out@ == start + seq!['{'] + members_text(models.take(i as int)),
        decreases o.members.len() - i,
    {
        proof {
            assert(decreases_to!(o.members => o.members[i as int]));
            assert(decreases_to!(o.members[i as int] => o.members[i as int].value));
        }
        let m = &o.members[i];
        push_all(out, m.leading.prefix.as_slice());
        push_all(out, m.leading.indent.as_slice());
        push_all(out, m.key_raw.as_slice());
        push_all(out, m.colon.as_slice());
        m.value.write(out);
        if let Some(c) = &m.comma {
            push_all(out, c.as_slice());
        }
        proof {
            assert(models.take(i + 1) =~= models.take(i as int).push(models[i as int]));
            lemma_members_push_text(models.take(i as int), models[i as int]);
        }
        i += 1;
    }
    push_all(out, o.inner.prefix.as_slice());
    push_all(out, o.inner.indent.as_slice());
    out.push('}');
    assert(models.take(o.members.len() as int) =~= models);
}

impl Document {
    /// The value of the document's root.
    pub fn value(&self) -> (r: Value)
        ensures
            r@ == node_value(self@.root),
    {
        self.root.value()
    }

    /// The text of the document, as read or as changed since.
    pub fn to_text(&self) -> (r: String)
        ensures
            r@ == document_text(self@),
    {
        let mut out: Vec<char> = Vec::new();
        push_all(&mut out, self.leading.as_slice());
        self.root.write(&mut out);
        push_all(&mut out, self.trailing.as_slice());
        string_of(out.as_slice())
    }
}

/// The first of `members[k..]` that starts on a line of its own.
pub open spec fn first_broken(members: Seq<MemberModel>, k: int) -> Option<int>
    decreases members.len() - k,
{
    if k < 0 || k >= members.len() {
        None
    } else if members[k].leading.prefix.len() > 0 {
        Some(k)
    } else {
        first_broken(members, k + 1)
    }
}

/// The document `d` once `v` is set at `path` below its root object: new members are
/// laid out one per line, one indent step deeper per level (the step being the indent
/// of the first root member on a line of its own), or on one line where no root member
/// is on a line of its own; the rest of the text is kept.
pub open spec fn inserted_document(d: DocumentModel, path: Seq<Seq<char>>, v: JsonValue) -> Result<DocumentModel, InsertFailure> {
    match d.root {
        NodeModel::Object(ms, t) => {
            let (leading, unit) = match first_broken(ms, 0) {
                Some(k) => (TriviaModel { prefix: seq!['\n'], indent: Seq::empty() }, ms[k].leading.indent),
                None => (TriviaModel { prefix: Seq::empty(), indent: Seq::empty() }, Seq::empty()),
            };
            match inserted_members(ms, t, path, v, leading, unit) {
                Ok((ms2, t2)) => Ok(DocumentModel { root: NodeModel::Object(ms2, t2), ..d }),
                Err(e) => Err(e),
            }
        },
        _ => Err(InsertFailure::RootNotObject),
    }
}

impl Document {
    /// Sets `value` at the keys of `path` below the root object, keeping the rest of
    /// the text as it is and laying new members out like their neighbours.
    pub fn insert(&mut self, path: &[&str], value: &Value) -> (r: Result<(), InsertError>)
        ensures
            final(self)@.leading == old(self)@.leading,
            final(self)@.trailing == old(self)@.trailing,
            match old(self)@.root {
                NodeModel::Object(ms, _) => match set_in_node(ms, path_view(path@), value@) {
                    Ok(nv) => r is Ok && node_value(final(self)@.root) == nv,
                    Err(e) => r matches Err(x) && failure_of(x) == e && final(self)@ == old(self)@,
                },
                _ => (r matches Err(x) && x is RootNotObject) && final(self)@ == old(self)@,
            },
            inserted_document(old(self)@, path_view(path@), value@) matches Ok(d) ==> final(self)@ == d,
    {
        let ghost before = self@;
        let mut root = Node::Scalar { raw: Vec::new(), value: Value::Null };
        std::mem::swap(&mut root, &mut self.root);
        let result = match root {
            Node::Object(mut obj) => {
                proof { lemma_object_node_view(obj); }
                let mut k: usize = 0;
                let mut found: Option<usize> = None;
                let ghost ms = member_models(obj.members@);
                while found.is_none() && k < obj.members.len()
                    invariant
                        k <= obj.members.len(),
                        ms == member_models(obj.members@),
                        found matches Some(j) ==> j < obj.members.len() && first_broken(ms, 0) == Some(j as int),
                        found is None ==> first_broken(ms, 0) == first_broken(ms, k as int),
                    decreases obj.members.len() - k + (if found is None { 1int } else { 0int }),
                {
                    if obj.members[k].leading.prefix.len() > 0 {
                        found = Some(k);
                    } else {
                        k += 1;
                    }
                }
                let (leading, unit) = match found {
                    Some(k) => {
                        let mut nl: Vec<char> = Vec::new();
                        nl.push('\n');
                        (Trivia { prefix: nl, indent: Vec::new() }, copy_chars(&obj.members[k].leading.indent))
                    },
                    None => (Trivia { prefix: Vec::new(), indent: Vec::new() }, Vec::new()),
                };
                proof {
                    if found is None {
                        assert(first_broken(ms, k as int) is None);
                        assert(leading@ =~= (TriviaModel { prefix: Seq::empty(), indent: Seq::empty() }));
                        assert(unit@ =~= Seq::<char>::empty());
                    } else {
                        assert(leading@ =~= (TriviaModel { prefix: seq!['\n'], indent: Seq::empty() }));
                    }
                }
                assert(path@.skip(0) =~= path@);
                let r = insert_into(&mut obj, path, 0, value, &leading, &unit);
                proof { lemma_object_node_view(obj); }
                root = Node::Object(obj);
                r
            },
            other => {
                root = other;
                Err(InsertError::RootNotObject)
            },
        };
        std::mem::swap(&mut root, &mut self.root);
        result
    }
}

/// A document that was read from a text is written back as that very text.
pub proof fn law_parse_then_to_text(input: Seq<char>, d: DocumentModel)
    requires
        parse_text(input) == Ok::<DocumentModel, JsoncError>(d),
    ensures
        document_text(d) == input,
{
    lemma_parse_then_text(input);
}

/// Setting a value in a document fails exactly where [`set_in_node`] fails on its root
/// object, or with [`InsertFailure::RootNotObject`] where the root is no object.
pub proof fn lemma_inserted_document_agrees(d: DocumentModel, path: Seq<Seq<char>>, v: JsonValue)
    ensures
        match d.root {
            NodeModel::Object(ms, _) => match (inserted_document(d, path, v), set_in_node(ms, path, v)) {
                (Ok(_), Ok(_)) => true,
                (Err(a), Err(b)) => a == b,
                _ => false,
            },
            _ => inserted_document(d, path, v) == Err::<DocumentModel, InsertFailure>(InsertFailure::RootNotObject),
        },
{
    if let NodeModel::Object(ms, t) = d.root {
        let (leading, unit) = match first_broken(ms, 0) {
            Some(k) => (TriviaModel { prefix: seq!['\n'], indent: Seq::empty() }, ms[k].leading.indent),
            None => (TriviaModel { prefix: Seq::empty(), indent: Seq::empty() }, Seq::empty()),
        };
        lemma_inserted_agrees(ms, t, path, v, leading, unit);
    }
}

} // verus!

use vstd::prelude::*;

use super::access::last_key_index;
use super::model::{
    copy_chars, lemma_array_view, lemma_object_view, node_value, ArrayNode, ItemModel, ItemNode,
    JsonValue, MemberModel, MemberNode, Node, NodeModel, ObjectNode, Trivia, TriviaModel, Value,
};
use super::parse::{item_models, lemma_array_node_view, lemma_object_node_view, member_models};
use super::writer::{compact_text, push_string_literal, string_literal, write_compact};
use crate::text::{chars_of, push_all, push_str, same_text, string_of};

verus! {

/// Why a value could not be inserted.
#[derive(Debug, Clone, PartialEq)]
pub enum InsertError {
    EmptyPath,
    RootNotObject,
    /// A key on the path names a member that is not an object.
    NotAnObject(String),
}

/// The plain content of an [`InsertError`].
pub enum InsertFailure {
    EmptyPath,
    RootNotObject,
    NotAnObject(Seq<char>),
}

pub open spec fn failure_of(e: InsertError) -> InsertFailure {
    match e {
        InsertError::EmptyPath => InsertFailure::EmptyPath,
        InsertError::RootNotObject => InsertFailure::RootNotObject,
        InsertError::NotAnObject(k) => InsertFailure::NotAnObject(k@),
    }
}

/// `v` under the keys of `path`, each an object with one member.
pub open spec fn nest(path: Seq<Seq<char>>, v: JsonValue) -> JsonValue
    decreases path.len(),
{
    if path.len() == 0 {
        v
    } else {
        JsonValue::Object(seq![path[0]], seq![nest(path.drop_first(), v)])
    }
}

/// The object `obj` with `v` set at `path`: the last member named by the first key
/// is replaced, or followed into where more keys follow; a missing key is added at
/// the end with the rest of the path nested under it.
pub open spec fn set_in(obj: JsonValue, path: Seq<Seq<char>>, v: JsonValue) -> Result<JsonValue, InsertFailure>
    decreases path.len(),
{
    match obj {
        JsonValue::Object(keys, values) => if path.len() == 0 {
            Err(InsertFailure::EmptyPath)
        } else {
            let key = path[0];
            let rest = path.drop_first();
            match last_key_index(keys, key, keys.len() as int) {
                Some(i) => if rest.len() == 0 {
                    Ok(JsonValue::Object(keys, values.update(i, v)))
                } else {
                    match values[i] {
                        JsonValue::Object(_, _) => match set_in(values[i], rest, v) {
                            Ok(nv) => Ok(JsonValue::Object(keys, values.update(i, nv))),
                            Err(e) => Err(e),
                        },
                        _ => Err(InsertFailure::NotAnObject(key)),
                    }
                },
                None => Ok(JsonValue::Object(keys.push(key), values.push(nest(rest, v)))),
            }
        },
        _ => Err(InsertFailure::RootNotObject),
    }
}

/// [`set_in`] on the members of an object node: where more keys follow, the member
/// named by the first key must be an object node to be followed into.
pub open spec fn set_in_node(members: Seq<MemberModel>, path: Seq<Seq<char>>, v: JsonValue) -> Result<JsonValue, InsertFailure>
    decreases path.len(),
{
    let keys = Seq::new(members.len(), |i: int| members[i].key);
    let values = Seq::new(members.len(), |i: int| node_value(members[i].value));
    if path.len() == 0 {
        Err(InsertFailure::EmptyPath)
    } else {
        let key = path[0];
        let rest = path.drop_first();
        match last_key_index(keys, key, keys.len() as int) {
            Some(i) => if rest.len() == 0 {
                Ok(JsonValue::Object(keys, values.update(i, v)))
            } else {
                match members[i].value {
                    NodeModel::Object(ms, _) => match set_in_node(ms, rest, v) {
                        Ok(nv) => Ok(JsonValue::Object(keys, values.update(i, nv))),
                        Err(e) => Err(e),
                    },
                    _ => Err(InsertFailure::NotAnObject(key)),
                }
            },
            None => Ok(JsonValue::Object(keys.push(key), values.push(nest(rest, v)))),
        }
    }
}

pub open spec fn path_view(path: Seq<&str>) -> Seq<Seq<char>> {
    path.map_values(|s: &str| s@)
}

fn copy_trivia(t: &Trivia) -> (r: Trivia)
    ensures
        r@ == t@,
{
    Trivia { prefix: copy_chars(&t.prefix), indent: copy_chars(&t.indent) }
}

fn empty_trivia() -> (r: Trivia)
    ensures
        r@ == no_trivia(),
{
    let r = Trivia { prefix: Vec::new(), indent: Vec::new() };
    assert(r@ =~= no_trivia());
    r
}

fn line_break() -> (r: Vec<char>)
    ensures
        r@ == seq!['\n'],
{
    let mut v: Vec<char> = Vec::new();
    v.push('\n');
    v
}

fn key_literal(key: &str) -> (r: Vec<char>)
    ensures
        r@ == string_literal(key@),
{
    let mut v: Vec<char> = Vec::new();
    push_string_literal(&mut v, key);
    v
}

fn colon_space() -> (r: Vec<char>)
    ensures
        r@ == seq![':', ' '],
{
    let mut v: Vec<char> = Vec::new();
    v.push(':');
    v.push(' ');
    v
}

fn comma() -> (r: Vec<char>)
    ensures
        r@ == seq![','],
{
    let mut v: Vec<char> = Vec::new();
    v.push(',');
    v
}

/// The model of an object node.
pub open spec fn object_value(o: ObjectNode) -> JsonValue {
    node_value(NodeModel::Object(member_models(o.members@), o.inner@))
}

proof fn lemma_object_value(o: ObjectNode)
    ensures
        object_value(o) == JsonValue::Object(
            Seq::new(o.members.len() as nat, |i: int| o.members@[i].key@),
            Seq::new(o.members.len() as nat, |i: int| node_value(o.members@[i].value@)),
        ),
{
    let ms = member_models(o.members@);
    if let JsonValue::Object(k, x) = object_value(o) {
        assert(k =~= Seq::new(o.members.len() as nat, |i: int| o.members@[i].key@));
        assert(x =~= Seq::new(o.members.len() as nat, |i: int| node_value(o.members@[i].value@)));
    }
}

/// No white space and no comment.
pub open spec fn no_trivia() -> TriviaModel {
    TriviaModel { prefix: Seq::empty(), indent: Seq::empty() }
}

/// What comes before a member or item inside a node laid out after `leading`: nothing
/// where `leading` holds no line break, else a line break and `unit` more indent.
pub open spec fn child_trivia(leading: TriviaModel, unit: Seq<char>) -> TriviaModel {
    if leading.prefix.len() == 0 {
        no_trivia()
    } else {
        TriviaModel { prefix: seq!['\n'], indent: leading.indent + unit }
    }
}

/// What comes before the closing bracket of a node laid out after `leading`: nothing
/// where `leading` holds no line break, else a line break and the indent of `leading`.
pub open spec fn closing_trivia(leading: TriviaModel) -> TriviaModel {
    if leading.prefix.len() == 0 {
        no_trivia()
    } else {
        TriviaModel { prefix: seq!['\n'], indent: leading.indent }
    }
}

/// A member `key: value` written after `leading`, its key as a JSON string.
pub open spec fn new_member(leading: TriviaModel, key: Seq<char>, value: NodeModel, comma: Option<Seq<char>>) -> MemberModel {
    MemberModel { leading, key, key_raw: string_literal(key), colon: seq![':', ' '], value, comma }
}

/// A comma after each of `n` entries but the last.
pub open spec fn comma_unless_last(i: int, n: int) -> Option<Seq<char>> {
    if i + 1 < n {
        Some(seq![','])
    } else {
        None
    }
}

/// How [`build_node`] lays out `v` nested under `path` after `leading`: each object
/// with one member per key of the path, each member or item of `v` after
/// [`child_trivia`], each closing bracket after [`closing_trivia`], empty objects and
/// arrays as `{}` and `[]`, other values in compact form.
pub open spec fn laid_out(path: Seq<Seq<char>>, v: JsonValue, leading: TriviaModel, unit: Seq<char>) -> NodeModel
    decreases path.len(), v,
{
    let child = child_trivia(leading, unit);
    if path.len() > 0 {
        NodeModel::Object(
            seq![new_member(child, path[0], laid_out(path.drop_first(), v, child, unit), None)],
            closing_trivia(leading),
        )
    } else {
        match v {
            JsonValue::Object(keys, vals) => if vals.len() == 0 {
                NodeModel::Object(Seq::empty(), no_trivia())
            } else {
                NodeModel::Object(
                    Seq::new(
                        vals.len(),
                        |i: int|
                            new_member(
                                child,
                                keys[i],
                                if 0 <= i < vals.len() {
                                    laid_out(Seq::empty(), vals[i], child, unit)
                                } else {
                                    NodeModel::Scalar(Seq::empty(), JsonValue::Null)
                                },
                                comma_unless_last(i, vals.len() as int),
                            ),
                    ),
                    closing_trivia(leading),
                )
            },
            JsonValue::Array(items) => if items.len() == 0 {
                NodeModel::Array(Seq::empty(), no_trivia())
            } else {
                NodeModel::Array(
                    Seq::new(
                        items.len(),
                        |i: int|
                            ItemModel {
                                leading: child,
                                value: if 0 <= i < items.len() {
                                    laid_out(Seq::empty(), items[i], child, unit)
                                } else {
                                    NodeModel::Scalar(Seq::empty(), JsonValue::Null)
                                },
                                comma: comma_unless_last(i, items.len() as int),
                            },
                    ),
                    closing_trivia(leading),
                )
            },
            _ => NodeModel::Scalar(compact_text(v), v),
        }
    }
}

/// A node for `value` nested under the keys of `path`, laid out after `leading`
/// (on one line where `leading` holds no line break, else one member per line,
/// indented by `unit` more than `leading`).
pub fn build_node(path: &[&str], value: &Value, leading: &Trivia, unit: &Vec<char>) -> (r: Node)
    ensures
        node_value(r@) == nest(path_view(path@), value@),
        r@ == laid_out(path_view(path@), value@, leading@, unit@),
{
    assert(path@.skip(0) =~= path@);
    build_node_from(path, 0, value, leading, unit)
}

/// [`build_node`] for the keys of `path` from `from` on.
#[verifier::loop_isolation(false)]
#[verifier::rlimit(80)]
#[verifier::spinoff_prover]
fn build_node_from(path: &[&str], from: usize, value: &Value, leading: &Trivia, unit: &Vec<char>) -> (r: Node)
    requires
        from <= path.len(),
    ensures
        node_value(r@) == nest(path_view(path@.skip(from as int)), value@),
        r@ == laid_out(path_view(path@.skip(from as int)), value@, leading@, unit@),
    decreases path.len() - from, value,
{
    let (child, inner) = if leading.prefix.len() == 0 {
        (empty_trivia(), empty_trivia())
    } else {
        let mut indent = copy_chars(&leading.indent);
        push_all(&mut indent, unit.as_slice());
        (
            Trivia { prefix: line_break(), indent },
            Trivia { prefix: line_break(), indent: copy_chars(&leading.indent) },
        )
    };
    let ghost ch = child_trivia(leading@, unit@);
    proof {
        assert(child@ =~= ch);
        assert(inner@ =~= closing_trivia(leading@));
    }
    if from < path.len() {
        let key = path[from];
        let sub = build_node_from(path, from + 1, value, &child, unit);
        let mut members: Vec<MemberNode> = Vec::new();
        members.push(MemberNode {
            leading: child,
            key: chars_of(key),
            key_raw: key_literal(key),
            colon: colon_space(),
            value: sub,
            comma: None,
        });
        let o = ObjectNode { members, inner };
        proof {
            lemma_object_node_view(o);
            lemma_object_value(o);
            let pv = path_view(path@.skip(from as int));
            assert(path_view(path@.skip(from + 1)) =~= pv.drop_first());
            assert(pv[0] == key@);
            assert(member_models(o.members@) =~= seq![new_member(ch, pv[0], laid_out(pv.drop_first(), value@, ch, unit@), None)]);
            let ks = Seq::new(o.members.len() as nat, |i: int| o.members@[i].key@);
            let vs = Seq::new(o.members.len() as nat, |i: int| node_value(o.members@[i].value@));
            assert(ks =~= seq![key@]);
            assert(vs =~= seq![nest(pv.drop_first(), value@)]);
            assert(object_value(o) == nest(pv, value@));
            assert(Node::Object(o)@ == laid_out(pv, value@, leading@, unit@));
        }
        return Node::Object(o);
    }
    proof {
        assert(path_view(path@.skip(from as int)) =~= Seq::<Seq<char>>::empty());
    }
    match value {
        Value::Object(source) => {
            if source.len() == 0 {
                let o = ObjectNode { members: Vec::new(), inner: empty_trivia() };
                proof {
                    lemma_object_node_view(o);
                    lemma_object_value(o);
                    lemma_object_view(*value);
                    if let JsonValue::Object(k, x) = value@ {
                        assert(k =~= Seq::<Seq<char>>::empty());
                        assert(x =~= Seq::<JsonValue>::empty());
                    }
                    let ks = Seq::new(o.members.len() as nat, |i: int| o.members@[i].key@);
                    let vs = Seq::new(o.members.len() as nat, |i: int| node_value(o.members@[i].value@));
                    assert(ks =~= Seq::<Seq<char>>::empty());
                    assert(vs =~= Seq::<JsonValue>::empty());
                    assert(object_value(o) == value@);
                    assert(member_models(o.members@) =~= Seq::<MemberModel>::empty());
                    assert(Node::Object(o)@ == laid_out(Seq::empty(), value@, leading@, unit@));
                }
                return Node::Object(o);
            }
            let mut members: Vec<MemberNode> = Vec::new();
            let mut i: usize = 0;
            while i < source.len()
                invariant
                    i <= source.len(),
                    members.len() == i,
                    child@ == ch,
                    forall|j: int| 0 <= j < i ==> #[trigger] members@[j].key@ == source@[j].0@
                        && node_value(members@[j].value@) == source@[j].1@
                        && members@[j]@ == new_member(ch, source@[j].0@, laid_out(Seq::empty(), source@[j].1@, ch, unit@), comma_unless_last(j, source.len() as int)),
                decreases source.len() - i,
            {
                proof {
                    assert(decreases_to!(*value => (*value)->Object_0));
                    assert(decreases_to!(*source => source[i as int]));
                    assert(decreases_to!(source[i as int] => source[i as int].1));
                }
                let sub = build_node_from(path, path.len(), &source[i].1, &child, unit);
                proof {
                    assert(path_view(path@.skip(path.len() as int)) =~= Seq::<Seq<char>>::empty());
                }
                let c = if i + 1 < source.len() { Some(comma()) } else { None };
                members.push(MemberNode {
                    leading: copy_trivia(&child),
                    key: chars_of(source[i].0.as_str()),
                    key_raw: key_literal(source[i].0.as_str()),
                    colon: colon_space(),
                    value: sub,
                    comma: c,
                });
                i += 1;
            }
            let o = ObjectNode { members, inner };
            proof {
                lemma_object_node_view(o);
                lemma_object_value(o);
                lemma_object_view(*value);
                if let JsonValue::Object(k, x) = value@ {
                    assert(k =~= Seq::new(o.members.len() as nat, |i: int| o.members@[i].key@));
                    assert(x =~= Seq::new(o.members.len() as nat, |i: int| node_value(o.members@[i].value@)));
                    if let NodeModel::Object(ms, _) = laid_out(Seq::empty(), value@, leading@, unit@) {
                        assert forall|i: int| 0 <= i < x.len() implies #[trigger] ms[i] == member_models(o.members@)[i] by {
                            assert(member_models(o.members@)[i] == o.members@[i]@);
                            assert(o.members@[i].key@ == source@[i].0@);
                        }
                        assert(member_models(o.members@) =~= ms);
                    }
                    assert(Node::Object(o)@ == laid_out(Seq::empty(), value@, leading@, unit@));
                }
            }
            Node::Object(o)
        },
        Value::Array(source) => {
            if source.len() == 0 {
                let a = ArrayNode { items: Vec::new(), inner: empty_trivia() };
                proof {
                    lemma_array_node_view(a);
                    lemma_array_view(*value);
                    if let JsonValue::Array(x) = value@ {
                        assert(x =~= Seq::<JsonValue>::empty());
                    }
                    let n = Node::Array(a);
                    if let JsonValue::Array(y) = node_value(n@) {
                        assert(y =~= Seq::<JsonValue>::empty());
                    }
                    assert(item_models(a.items@) =~= Seq::<ItemModel>::empty());
                    assert(Node::Array(a)@ == laid_out(Seq::empty(), value@, leading@, unit@));
                }
                return Node::Array(a);
            }
            let mut items: Vec<ItemNode> = Vec::new();
            let mut i: usize = 0;
            while i < source.len()
                invariant
                    i <= source.len(),
                    items.len() == i,
                    child@ == ch,
                    forall|j: int| 0 <= j < i ==> #[trigger] node_value(items@[j].value@) == source@[j]@
                        && items@[j]@ == (ItemModel { leading: ch, value: laid_out(Seq::empty(), source@[j]@, ch, unit@), comma: comma_unless_last(j, source.len() as int) }),
                decreases source.len() - i,
            {
                proof {
                    assert(decreases_to!(*value => (*value)->Array_0));
                    assert(decreases_to!(*source => source[i as int]));
                }
                let sub = build_node_from(path, path.len(), &source[i], &child, unit);
                proof {
                    assert(path_view(path@.skip(path.len() as int)) =~= Seq::<Seq<char>>::empty());
                }
                let c = if i + 1 < source.len() { Some(comma()) } else { None };
                items.push(ItemNode { leading: copy_trivia(&child), value: sub, comma: c });
                i += 1;
            }
            let a = ArrayNode { items, inner };
            proof {
                lemma_array_node_view(a);
                lemma_array_view(*value);
                let n = Node::Array(a);
                let ims = item_models(a.items@);
                if let JsonValue::Array(x) = value@ {
                    if let JsonValue::Array(y) = node_value(n@) {
                        assert(y.len() == x.len());
                        assert forall|i: int| 0 <= i < x.len() implies x[i] == y[i] by {
                            assert(ims[i] == a.items@[i]@);
                            assert(node_value(a.items@[i].value@) == source@[i]@);
                        }
                        assert(x =~= y);
                        assert forall|i: int| 0 <= i < x.len() implies #[trigger] ims[i] == (ItemModel {
                            leading: ch,
                            value: laid_out(Seq::empty(), x[i], ch, unit@),
                            comma: comma_unless_last(i, x.len() as int),
                        }) by {
                            assert(ims[i] == a.items@[i]@);
                            assert(node_value(a.items@[i].value@) == source@[i]@);
                            assert(x[i] == source@[i]@);
                        }
                        if let NodeModel::Array(ts, _) = laid_out(Seq::empty(), value@, leading@, unit@) {
                            assert forall|i: int| 0 <= i < x.len() implies #[trigger] ts[i] == ims[i] by {}
                            assert(ims =~= ts);
                        }
                        assert(n@ == laid_out(Seq::empty(), value@, leading@, unit@));
                    }
                }
            }
            Node::Array(a)
        },
        _ => {
            let mut raw: Vec<char> = Vec::new();
            write_compact(value, &mut raw);
            let r = Node::Scalar { raw, value: value.deep_clone() };
            assert(r@ == laid_out(Seq::empty(), value@, leading@, unit@));
            r
        },
    }
}

fn same_chars(a: &Vec<char>, b: &str) -> (r: bool)
    ensures
        r == (a@ == b@),
{
    let bv = chars_of(b);
    if a.len() != bv.len() {
        return false;
    }
    let r = crate::text::starts_at(a.as_slice(), 0, bv.as_slice());
    assert(a@.subrange(0, bv.len() as int) =~= a@);
    r
}

/// The index of the last member named `key`.
fn last_member(o: &ObjectNode, key: &str) -> (r: Option<usize>)
    ensures
        match last_key_index(
            Seq::new(o.members.len() as nat, |i: int| o.members@[i].key@),
            key@,
            o.members.len() as int,
        ) {
            Some(i) => r == Some(i as usize),
            None => r is None,
        },
{
    let ghost keys = Seq::new(o.members.len() as nat, |i: int| o.members@[i].key@);
    let mut n = o.members.len();
    while n > 0
        invariant
            n <= o.members.len(),
            keys == Seq::new(o.members.len() as nat, |i: int| o.members@[i].key@),
            last_key_index(keys, key@, o.members.len() as int) == last_key_index(keys, key@, n as int),
        decreases n,
    {
        if same_chars(&o.members[n - 1].key, key) {
            assert(keys[n - 1] == key@);
            return Some(n - 1);
        }
        n -= 1;
    }
    None
}

proof fn lemma_replace_member(o1: ObjectNode, o2: ObjectNode, i: int)
    requires
        0 <= i < o1.members.len(),
        o2.members.len() == o1.members.len(),
        forall|j: int| 0 <= j < o1.members.len() && j != i ==> #[trigger] o2.members@[j] == o1.members@[j],
        o2.members@[i].key@ == o1.members@[i].key@,
    ensures
        ({
            let keys = Seq::new(o1.members.len() as nat, |k: int| o1.members@[k].key@);
            let values = Seq::new(o1.members.len() as nat, |k: int| node_value(o1.members@[k].value@));
            object_value(o2) == JsonValue::Object(keys, values.update(i, node_value(o2.members@[i].value@)))
        }),
{
    lemma_object_value(o1);
    lemma_object_value(o2);
    let keys = Seq::new(o1.members.len() as nat, |k: int| o1.members@[k].key@);
    let values = Seq::new(o1.members.len() as nat, |k: int| node_value(o1.members@[k].value@));
    assert(Seq::new(o2.members.len() as nat, |k: int| o2.members@[k].key@) =~= keys);
    assert(Seq::new(o2.members.len() as nat, |k: int| node_value(o2.members@[k].value@)) =~= values.update(
        i,
        node_value(o2.members@[i].value@),
    ));
}

/// `p` ending in a line break: as it is where it does, else with one added.
pub open spec fn broken(p: Seq<char>) -> Seq<char> {
    if p.len() > 0 && p.last() == '\n' {
        p
    } else {
        p.push('\n')
    }
}

/// What comes before a member added at the end of the object with `members` and
/// `inner` (the trivia before its closing brace) laid out after `leading`: on the line
/// of the last member after a space where that member has no line break before it,
/// else on a new line with the last member's indent, or for an empty object on the
/// closing brace's line or on a new line indented by `unit` more than `leading`.
pub open spec fn added_leading(members: Seq<MemberModel>, inner: TriviaModel, leading: TriviaModel, unit: Seq<char>) -> TriviaModel {
    let n = members.len();
    if n > 0 {
        if members[n - 1].leading.prefix.len() == 0 {
            TriviaModel { prefix: inner.prefix, indent: seq![' '] }
        } else {
            TriviaModel { prefix: broken(inner.prefix), indent: members[n - 1].leading.indent }
        }
    } else if leading.prefix.len() == 0 {
        TriviaModel { prefix: inner.prefix, indent: Seq::empty() }
    } else {
        TriviaModel { prefix: broken(inner.prefix), indent: leading.indent + unit }
    }
}

/// The trivia before the closing brace once a member after `added` is added: a line
/// break and the closing indent (that of `leading` where the object was written on one
/// line) where the new member starts on a line of its own, else `inner` as it was.
pub open spec fn added_inner(inner: TriviaModel, added: TriviaModel, leading: TriviaModel) -> TriviaModel {
    if added.prefix.len() > 0 {
        if inner.prefix.len() == 0 {
            TriviaModel { prefix: seq!['\n'], indent: leading.indent }
        } else {
            TriviaModel { prefix: seq!['\n'], indent: inner.indent }
        }
    } else {
        inner
    }
}

/// `m` followed by a comma.
pub open spec fn with_comma(m: MemberModel) -> MemberModel {
    if m.comma is None {
        MemberModel { comma: Some(seq![',']), ..m }
    } else {
        m
    }
}

/// The keys of `members`.
pub open spec fn member_keys_of(members: Seq<MemberModel>) -> Seq<Seq<char>> {
    Seq::new(members.len(), |i: int| members[i].key)
}

/// The members and closing trivia of the object with `members` and `inner`, laid out
/// after `leading` with indent step `unit`, once `v` is set at `path` as
/// [`insert_into`] does it: the last member named by the first key gets a node for `v`
/// laid out after its own leading trivia, or is followed into; a missing key becomes a
/// new last member (the one before it given a comma), laid out as [`added_leading`]
/// says, with the colon of the member before it, and the closing brace moved as
/// [`added_inner`] says.
pub open spec fn inserted_members(
    members: Seq<MemberModel>,
    inner: TriviaModel,
    path: Seq<Seq<char>>,
    v: JsonValue,
    leading: TriviaModel,
    unit: Seq<char>,
) -> Result<(Seq<MemberModel>, TriviaModel), InsertFailure>
    decreases path.len(),
{
    if path.len() == 0 {
        Err(InsertFailure::EmptyPath)
    } else {
        let key = path[0];
        let rest = path.drop_first();
        let n = members.len();
        match last_key_index(member_keys_of(members), key, n as int) {
            Some(i) => if rest.len() == 0 {
                Ok((members.update(i, MemberModel { value: laid_out(Seq::empty(), v, members[i].leading, unit), ..members[i] }), inner))
            } else {
                match members[i].value {
                    NodeModel::Object(ms, t) => match inserted_members(ms, t, rest, v, members[i].leading, unit) {
                        Ok((ms2, t2)) => Ok((members.update(i, MemberModel { value: NodeModel::Object(ms2, t2), ..members[i] }), inner)),
                        Err(e) => Err(e),
                    },
                    _ => Err(InsertFailure::NotAnObject(key)),
                }
            },
            None => {
                let ml = added_leading(members, inner, leading, unit);
                let colon = if n > 0 {
                    members[n - 1].colon
                } else {
                    seq![':', ' ']
                };
                let before = if n > 0 {
                    members.update(n - 1, with_comma(members[n - 1]))
                } else {
                    members
                };
                let added = MemberModel {
                    leading: ml,
                    key,
                    key_raw: string_literal(key),
                    colon,
                    value: laid_out(rest, v, ml, unit),
                    comma: None,
                };
                Ok((before.push(added), added_inner(inner, ml, leading)))
            },
        }
    }
}

/// Sets `value` at the keys of `path` from `from` on, inside the object `object`,
/// laying new members out like their neighbours.
#[verifier::rlimit(40)]
pub fn insert_into(
    object: &mut ObjectNode,
    path: &[&str],
    from: usize,
    value: &Value,
    leading: &Trivia,
    unit: &Vec<char>,
) -> (r: Result<(), InsertError>)
    requires
        from <= path.len(),
    ensures
        match set_in_node(member_models(old(object).members@), path_view(path@.skip(from as int)), value@) {
            Ok(nv) => r is Ok && object_value(*final(object)) == nv,
            Err(e) => r matches Err(x) && failure_of(x) == e && member_models(final(object).members@)
                == member_models(old(object).members@) && final(object).inner@ == old(object).inner@,
        },
        inserted_members(member_models(old(object).members@), old(object).inner@, path_view(path@.skip(from as int)), value@, leading@, unit@)
            matches Ok((ms, t)) ==> member_models(final(object).members@) == ms && final(object).inner@ == t,
    decreases path.len() - from,
{
    proof { lemma_object_value(*object); }
    let ghost pv = path_view(path@.skip(from as int));
    let ghost keys = Seq::new(object.members.len() as nat, |k: int| object.members@[k].key@);
    let ghost values = Seq::new(object.members.len() as nat, |k: int| node_value(object.members@[k].value@));
    let ghost mm = member_models(object.members@);
    assert(Seq::new(mm.len(), |k: int| mm[k].key) =~= keys);
    assert(Seq::new(mm.len(), |k: int| node_value(mm[k].value)) =~= values);
    if from >= path.len() {
        assert(pv =~= Seq::<Seq<char>>::empty());
        assert(member_models(object.members@) =~= mm);
        return Err(InsertError::EmptyPath);
    }
    let key = path[from];
    proof {
        assert(pv[0] == key@);
        assert(path_view(path@.skip(from + 1)) =~= pv.drop_first());
    }
    let found = last_member(object, key);
    match found {
        Some(i) => {
            proof { super::access::lemma_last_key_index_pub(keys, key@, keys.len() as int); }
            let member_leading = copy_trivia(&object.members[i].leading);
            if from + 1 == path.len() {
                let node = build_node_from(path, path.len(), value, &member_leading, unit);
                assert(path_view(path@.skip(path.len() as int)) =~= Seq::<Seq<char>>::empty());
                let ghost o1 = *object;
                let mut m = object.members.remove(i);
                m.value = node;
                object.members.insert(i, m);
                proof {
                    assert(pv.drop_first() =~= Seq::<Seq<char>>::empty());
                    lemma_replace_member(o1, *object, i as int);
                }
                Ok(())
            } else {
                let ghost o1 = *object;
                let mut m = object.members.remove(i);
                let ghost m1 = m;
                assert(mm[i as int].value == m1.value@);
                let mut val = Node::Scalar { raw: Vec::new(), value: Value::Null };
                std::mem::swap(&mut val, &mut m.value);
                match val {
                    Node::Object(mut inner) => {
                        proof {
                            lemma_object_node_view(inner);
                            assert(mm[i as int].value == NodeModel::Object(member_models(inner.members@), inner.inner@));
                        }
                        let r = insert_into(&mut inner, path, from + 1, value, &member_leading, unit);
                        proof {
                            lemma_object_node_view(inner);
                            assert(node_value(Node::Object(inner)@) == object_value(inner));
                        }
                        m.value = Node::Object(inner);
                        object.members.insert(i, m);
                        proof {
                            lemma_replace_member(o1, *object, i as int);
                            if r is Err {
                                assert(member_models(object.members@) =~= member_models(o1.members@));
                            }
                        }
                        r
                    },
                    other => {
                        m.value = other;
                        object.members.insert(i, m);
                        assert(object.members@ =~= o1.members@);
                        assert(member_models(object.members@) =~= member_models(o1.members@));
                        Err(InsertError::NotAnObject(key.to_owned()))
                    },
                }
            }
        },
        None => {
            let ghost o1 = *object;
            let inner_prefix_len = object.inner.prefix.len();
            let broken = if inner_prefix_len > 0 && object.inner.prefix[inner_prefix_len - 1] == '\n' {
                copy_chars(&object.inner.prefix)
            } else {
                let mut b = copy_chars(&object.inner.prefix);
                b.push('\n');
                b
            };
            let n = object.members.len();
            let member_leading = if n > 0 {
                if object.members[n - 1].leading.prefix.len() == 0 {
                    let mut sp: Vec<char> = Vec::new();
                    sp.push(' ');
                    Trivia { prefix: copy_chars(&object.inner.prefix), indent: sp }
                } else {
                    Trivia { prefix: broken, indent: copy_chars(&object.members[n - 1].leading.indent) }
                }
            } else if leading.prefix.len() == 0 {
                Trivia { prefix: copy_chars(&object.inner.prefix), indent: Vec::new() }
            } else {
                let mut ind = copy_chars(&leading.indent);
                push_all(&mut ind, unit.as_slice());
                Trivia { prefix: broken, indent: ind }
            };
            if member_leading.prefix.len() > 0 {
                if object.inner.prefix.len() == 0 {
                    object.inner = Trivia { prefix: line_break(), indent: copy_chars(&leading.indent) };
                } else {
                    let ind = copy_chars(&object.inner.indent);
                    object.inner = Trivia { prefix: line_break(), indent: ind };
                }
            }
            let node = build_node_from(path, from + 1, value, &member_leading, unit);
            let colon = if n > 0 {
                let mut last = object.members.pop().unwrap();
                if last.comma.is_none() {
                    last.comma = Some(comma());
                }
                let c = copy_chars(&last.colon);
                object.members.push(last);
                c
            } else {
                colon_space()
            };
            let ghost o2 = *object;
            proof {
                assert(o2.members.len() == o1.members.len());
                assert forall|j: int| 0 <= j < o1.members.len() implies #[trigger] o2.members@[j].key@ == o1.members@[j].key@
                    && o2.members@[j].value == o1.members@[j].value by {}
                lemma_object_value(o2);
            }
            object.members.push(MemberNode {
                leading: member_leading,
                key: chars_of(key),
                key_raw: key_literal(key),
                colon,
                value: node,
                comma: None,
            });
            proof {
                lemma_object_value(*object);
                let nk = Seq::new(object.members.len() as nat, |k: int| object.members@[k].key@);
                let nv = Seq::new(object.members.len() as nat, |k: int| node_value(object.members@[k].value@));
                assert(nk =~= keys.push(key@));
                assert(nv =~= values.push(nest(pv.drop_first(), value@)));
            }
            Ok(())
        },
    }
}

/// [`inserted_members`] fails exactly where [`set_in_node`] does, and for the same reason.
pub proof fn lemma_inserted_agrees(
    members: Seq<MemberModel>,
    inner: TriviaModel,
    path: Seq<Seq<char>>,
    v: JsonValue,
    leading: TriviaModel,
    unit: Seq<char>,
)
    ensures
        match (inserted_members(members, inner, path, v, leading, unit), set_in_node(members, path, v)) {
            (Ok(_), Ok(_)) => true,
            (Err(a), Err(b)) => a == b,
            _ => false,
        },
    decreases path.len(),
{
    if path.len() > 0 {
        let keys = Seq::new(members.len(), |i: int| members[i].key);
        assert(member_keys_of(members) =~= keys);
        let rest = path.drop_first();
        match last_key_index(keys, path[0], keys.len() as int) {
            Some(i) => {
                if rest.len() > 0 {
                    match members[i].value {
                        NodeModel::Object(ms, t) => {
                            lemma_inserted_agrees(ms, t, rest, v, members[i].leading, unit);
                        },
                        _ => {},
                    }
                }
            },
            None => {},
        }
    }
}

} // verus!

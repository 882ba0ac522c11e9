use vstd::prelude::*;

use super::number::{Number, NumberModel};

verus! {

/// A JSON value. Member order and duplicate keys of objects are kept as written.
#[derive(Debug, PartialEq)]
pub enum Value {
    Null,
    Bool(bool),
    Number(Number),
    String(String),
    Array(Vec<Value>),
    Object(Vec<(String, Value)>),
}

/// The mathematical content of a [`Value`].
pub enum JsonValue {
    Null,
    Bool(bool),
    Number(NumberModel),
    Str(Seq<char>),
    Array(Seq<JsonValue>),
    Object(Seq<Seq<char>>, Seq<JsonValue>),
}

impl View for Value {
    type V = JsonValue;

    open spec fn view(&self) -> JsonValue
        decreases self,
    {
        match self {
            Value::Null => JsonValue::Null,
            Value::Bool(b) => JsonValue::Bool(*b),
            Value::Number(n) => JsonValue::Number(n@),
            Value::String(s) => JsonValue::Str(s@),
            Value::Array(items) => JsonValue::Array(
                Seq::new(
                    items.len() as nat,
                    |i: int|
                        if 0 <= i < items.len() {
                            items@[i].view()
                        } else {
                            JsonValue::Null
                        },
                ),
            ),
            Value::Object(members) => JsonValue::Object(
                Seq::new(members.len() as nat, |i: int| members@[i].0@),
                Seq::new(
                    members.len() as nat,
                    |i: int|
                        if 0 <= i < members.len() {
                            members@[i].1.view()
                        } else {
                            JsonValue::Null
                        },
                ),
            ),
        }
    }
}

/// Whitespace and comments before a member or item, split into the part up to
/// the last line break or comment (`prefix`) and the spaces and tabs after it (`indent`).
#[derive(Debug, PartialEq)]
pub struct Trivia {
    pub prefix: Vec<char>,
    pub indent: Vec<char>,
}

pub struct TriviaModel {
    pub prefix: Seq<char>,
    pub indent: Seq<char>,
}

impl View for Trivia {
    type V = TriviaModel;

    open spec fn view(&self) -> TriviaModel {
        TriviaModel { prefix: self.prefix@, indent: self.indent@ }
    }
}

/// A parsed value together with the exact text it was written with.
#[derive(Debug, PartialEq)]
pub enum Node {
    Object(ObjectNode),
    Array(ArrayNode),
    Scalar { raw: Vec<char>, value: Value },
}

#[derive(Debug, PartialEq)]
pub struct ObjectNode {
    pub members: Vec<MemberNode>,
    pub inner: Trivia,
}

#[derive(Debug, PartialEq)]
pub struct MemberNode {
    pub leading: Trivia,
    pub key: Vec<char>,
    pub key_raw: Vec<char>,
    pub colon: Vec<char>,
    pub value: Node,
    pub comma: Option<Vec<char>>,
}

#[derive(Debug, PartialEq)]
pub struct ArrayNode {
    pub items: Vec<ItemNode>,
    pub inner: Trivia,
}

#[derive(Debug, PartialEq)]
pub struct ItemNode {
    pub leading: Trivia,
    pub value: Node,
    pub comma: Option<Vec<char>>,
}

pub struct MemberModel {
    pub leading: TriviaModel,
    pub key: Seq<char>,
    pub key_raw: Seq<char>,
    pub colon: Seq<char>,
    pub value: NodeModel,
    pub comma: Option<Seq<char>>,
}

pub struct ItemModel {
    pub leading: TriviaModel,
    pub value: NodeModel,
    pub comma: Option<Seq<char>>,
}

/// The mathematical content of a [`Node`].
pub enum NodeModel {
    Object(Seq<MemberModel>, TriviaModel),
    Array(Seq<ItemModel>, TriviaModel),
    Scalar(Seq<char>, JsonValue),
}

pub open spec fn opt_view(c: Option<Vec<char>>) -> Option<Seq<char>> {
    match c {
        Some(v) => Some(v@),
        None => None,
    }
}

impl View for Node {
    type V = NodeModel;

    open spec fn view(&self) -> NodeModel
        decreases self,
    {
        match self {
            Node::Object(o) => NodeModel::Object(
                Seq::new(
                    o.members.len() as nat,
                    |i: int|
                        if 0 <= i < o.members.len() {
                            MemberModel {
                                leading: o.members@[i].leading@,
                                key: o.members@[i].key@,
                                key_raw: o.members@[i].key_raw@,
                                colon: o.members@[i].colon@,
                                value: o.members@[i].value.view(),
                                comma: opt_view(o.members@[i].comma),
                            }
                        } else {
                            MemberModel {
                                leading: TriviaModel { prefix: Seq::empty(), indent: Seq::empty() },
                                key: Seq::empty(),
                                key_raw: Seq::empty(),
                                colon: Seq::empty(),
                                value: NodeModel::Scalar(Seq::empty(), JsonValue::Null),
                                comma: None,
                            }
                        },
                ),
                o.inner@,
            ),
            Node::Array(a) => NodeModel::Array(
                Seq::new(
                    a.items.len() as nat,
                    |i: int|
                        if 0 <= i < a.items.len() {
                            ItemModel {
                                leading: a.items@[i].leading@,
                                value: a.items@[i].value.view(),
                                comma: opt_view(a.items@[i].comma),
                            }
                        } else {
                            ItemModel {
                                leading: TriviaModel { prefix: Seq::empty(), indent: Seq::empty() },
                                value: NodeModel::Scalar(Seq::empty(), JsonValue::Null),
                                comma: None,
                            }
                        },
                ),
                a.inner@,
            ),
            Node::Scalar { raw, value } => NodeModel::Scalar(raw@, value@),
        }
    }
}

impl View for MemberNode {
    type V = MemberModel;

    open spec fn view(&self) -> MemberModel {
        MemberModel {
            leading: self.leading@,
            key: self.key@,
            key_raw: self.key_raw@,
            colon: self.colon@,
            value: self.value@,
            comma: opt_view(self.comma),
        }
    }
}

impl View for ItemNode {
    type V = ItemModel;

    open spec fn view(&self) -> ItemModel {
        ItemModel { leading: self.leading@, value: self.value@, comma: opt_view(self.comma) }
    }
}


impl Number {
    /// A copy of this number.
    pub fn duplicate(&self) -> (r: Number)
        ensures
            r@ == self@,
    {
        self.copy()
    }
}

/// A copy of a character vector.
pub fn copy_chars(v: &Vec<char>) -> (r: Vec<char>)
    ensures
        r@ == v@,
{
    let mut r: Vec<char> = Vec::new();
    let mut i: usize = 0;
    while i < v.len()
        invariant
            i <= v.len(),
            r@ == v@.take(i as int),
        decreases v.len() - i,
    {
        r.push(v[i]);
        i += 1;
    }
    assert(v@.take(v.len() as int) =~= v@);
    r
}

impl Value {
    /// A deep copy of this value.
    #[verifier::loop_isolation(false)]
    pub fn deep_clone(&self) -> (r: Value)
        ensures
            r@ == self@,
        decreases self,
    {
        match self {
            Value::Null => Value::Null,
            Value::Bool(b) => Value::Bool(*b),
            Value::Number(n) => Value::Number(n.duplicate()),
            Value::String(s) => Value::String(s.clone()),
            Value::Array(items) => {
                let mut out: Vec<Value> = Vec::new();
                let mut i: usize = 0;
                while i < items.len()
                    invariant
                        i <= items.len(),
                        out.len() == i,
                        forall|j: int| 0 <= j < i ==> #[trigger] out@[j]@ == items@[j]@,
                    decreases items.len() - i,
                {
                    proof {
                        assert(decreases_to!(*self => (*self)->Array_0));
                        assert(decreases_to!(*items => items[i as int]));
                    }
                    let c = items[i].deep_clone();
                    out.push(c);
                    i += 1;
                }
                let ghost a = Seq::new(out.len() as nat, |j: int| if 0 <= j < out.len() { out@[j].view() } else { JsonValue::Null });
                let ghost b = Seq::new(items.len() as nat, |j: int| if 0 <= j < items.len() { items@[j].view() } else { JsonValue::Null });
                assert(a =~= b);
                let r = Value::Array(out);
                assert(r@ matches JsonValue::Array(x) && x =~= a);
                assert(self@ matches JsonValue::Array(x) && x =~= b);
                r
            },
            Value::Object(members) => {
                let mut out: Vec<(String, Value)> = Vec::new();
                let mut i: usize = 0;
                while i < members.len()
                    invariant
                        i <= members.len(),
                        out.len() == i,
                        forall|j: int| 0 <= j < i ==> #[trigger] out@[j].0@ == members@[j].0@ && out@[j].1@ == members@[j].1@,
                    decreases members.len() - i,
                {
                    proof {
                        assert(decreases_to!(*self => (*self)->Object_0));
                        assert(decreases_to!(*members => members[i as int]));
                        assert(decreases_to!(members[i as int] => members[i as int].1));
                    }
                    let k = members[i].0.clone();
                    let c = members[i].1.deep_clone();
                    out.push((k, c));
                    i += 1;
                }
                let r = Value::Object(out);
                proof {
                    lemma_object_view(r);
                    lemma_object_view(*self);
                    if let JsonValue::Object(k1, x) = r@ {
                        if let JsonValue::Object(k2, y) = self@ {
                            assert(x =~= y);
                            assert(k1 =~= k2);
                        }
                    }
                }
                r
            },
        }
    }
}

/// How the model of an object value is made of its members.
pub proof fn lemma_object_view(v: Value)
    ensures
        v matches Value::Object(ms) ==> (v@ matches JsonValue::Object(k, x) && x.len() == ms.len()
            && k.len() == ms.len()
            && forall|j: int| 0 <= j < ms.len() ==> #[trigger] x[j] == ms@[j].1@ && k[j] == ms@[j].0@),
{
}

/// How the model of an array value is made of its items.
pub proof fn lemma_array_view(v: Value)
    ensures
        v matches Value::Array(items) ==> (v@ matches JsonValue::Array(x) && x.len() == items.len()
            && forall|j: int| 0 <= j < items.len() ==> #[trigger] x[j] == items@[j]@),
{
}

impl Clone for Value {
    fn clone(&self) -> (r: Self)
        ensures
            r@ == self@,
    {
        self.deep_clone()
    }
}

/// The value a node stands for.
pub open spec fn node_value(n: NodeModel) -> JsonValue
    decreases n,
{
    match n {
        NodeModel::Scalar(_, v) => v,
        NodeModel::Array(items, _) => JsonValue::Array(
            Seq::new(
                items.len(),
                |i: int|
                    if 0 <= i < items.len() {
                        node_value(items[i].value)
                    } else {
                        JsonValue::Null
                    },
            ),
        ),
        NodeModel::Object(members, _) => JsonValue::Object(
            Seq::new(members.len(), |i: int| members[i].key),
            Seq::new(
                members.len(),
                |i: int|
                    if 0 <= i < members.len() {
                        node_value(members[i].value)
                    } else {
                        JsonValue::Null
                    },
            ),
        ),
    }
}

} // verus!

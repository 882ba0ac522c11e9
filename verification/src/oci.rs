use vstd::prelude::*;

use crate::devcontainer::jsonc::access::member;
use crate::devcontainer::jsonc::document::{parse, Document};
use crate::devcontainer::jsonc::edit::{failure_of, InsertError, InsertFailure};
use crate::devcontainer::jsonc::document::{inserted_document, lemma_inserted_document_agrees};
use crate::devcontainer::jsonc::layout::document_text;
use crate::devcontainer::jsonc::grammar::JsoncError;
use crate::error::jsonc_message;
use crate::features::source::{has_prefix, last_index_of, lemma_last_index_of, rfind_char};
use crate::devcontainer::jsonc::grammar::{parse_text, DocumentModel};
use crate::devcontainer::jsonc::model::{lemma_array_view, lemma_object_view, node_value, JsonValue, Value};
use crate::error::Error;
use crate::text::{chars_of, lines_view, push_all, push_str, same_text, starts_at, string_of, sub_chars};
use vstd::string::StringSliceAdditionalSpecFns;
use vstd::utf8::{decode_utf8, encode_utf8, valid_utf8};

verus! {

/// A template of the collection.
pub struct Template {
    pub id: String,
    pub name: String,
    pub description: String,
}

/// A feature of the collection.
pub struct Feature {
    pub id: String,
    pub name: String,
    pub description: String,
}

/// An option of a template: one value to use, or values to choose from.
pub enum TemplateOption {
    Fixed { id: String, value: String },
    Choice { id: String, choices: Vec<String> },
}

/// The value of the string member `key` of `v`.
pub open spec fn text_member(v: JsonValue, key: Seq<char>) -> Option<Seq<char>> {
    match member(v, key) {
        Some(JsonValue::Str(s)) => Some(s),
        _ => None,
    }
}

pub open spec fn or_empty(o: Option<Seq<char>>) -> Seq<char> {
    match o {
        Some(s) => s,
        None => Seq::empty(),
    }
}

/// The id, name and description of the entries of a collection that have a string id.
pub open spec fn entries_of(items: Seq<JsonValue>) -> Seq<Seq<Seq<char>>>
    decreases items.len(),
{
    if items.len() == 0 {
        Seq::empty()
    } else {
        let e = items.last();
        entries_of(items.drop_last()) + match text_member(e, "id"@) {
            Some(id) => seq![seq![id, or_empty(text_member(e, "name"@)), or_empty(text_member(e, "description"@))]],
            None => Seq::empty(),
        }
    }
}

/// The value a JSONC text stands for, where it is one.
pub open spec fn text_value(json: Seq<char>) -> Option<JsonValue> {
    match parse_text(json) {
        Ok(d) => Some(node_value(d.root)),
        Err(_) => None,
    }
}

/// The entries of the array `key` of the collection document `json`.
pub open spec fn collection(json: Seq<char>, key: Seq<char>) -> Seq<Seq<Seq<char>>> {
    match text_value(json) {
        Some(v) => match member(v, key) {
            Some(JsonValue::Array(items)) => entries_of(items),
            _ => Seq::empty(),
        },
        None => Seq::empty(),
    }
}

fn text_or_empty(v: &Value, key: &str) -> (r: String)
    ensures
        r@ == or_empty(text_member(v@, key@)),
{
    match v.get(key) {
        Some(x) => match x.as_str() {
            Some(s) => s.to_owned(),
            None => {
                proof { reveal_strlit(""); }
                "".to_owned()
            },
        },
        None => {
            proof { reveal_strlit(""); }
            "".to_owned()
        },
    }
}

/// The entries of the array `key` of a collection document, each with a string id.
pub fn parse_collection(json: &str, key: &str) -> (r: Vec<(String, String, String)>)
    ensures
        r.len() == collection(json@, key@).len(),
        forall|i: int| 0 <= i < r.len() ==> #[trigger] r@[i].0@ == collection(json@, key@)[i][0]
            && r@[i].1@ == collection(json@, key@)[i][1] && r@[i].2@ == collection(json@, key@)[i][2],
{
    let document = match parse(json) {
        Ok(d) => d,
        Err(_) => return Vec::new(),
    };
    let value = document.value();
    let items = match value.get(key) {
        Some(v) => match v.as_array() {
            Some(a) => a,
            None => return Vec::new(),
        },
        None => return Vec::new(),
    };
    let ghost models = Seq::new(items.len() as nat, |i: int| items@[i]@);
    proof {
        if let Some(JsonValue::Array(xs)) = member(value@, key@) {
            assert(xs =~= models);
        }
    }
    let mut out: Vec<(String, String, String)> = Vec::new();
    let mut i: usize = 0;
    while i < items.len()
        invariant
            i <= items.len(),
            models == Seq::new(items.len() as nat, |k: int| items@[k]@),
            out.len() == entries_of(models.take(i as int)).len(),
            forall|k: int| 0 <= k < out.len() ==> #[trigger] out@[k].0@ == entries_of(models.take(i as int))[k][0]
                && out@[k].1@ == entries_of(models.take(i as int))[k][1] && out@[k].2@ == entries_of(
                models.take(i as int),
            )[k][2],
        decreases items.len() - i,
    {
        let entry = &items[i];
        let ghost e0 = entries_of(models.take(i as int));
        let ghost e1 = entries_of(models.take(i + 1));
        proof {
            assert(models.take(i + 1).drop_last() =~= models.take(i as int));
            assert(models.take(i + 1).last() == entry@);
            assert(e1 == e0 + match text_member(entry@, "id"@) {
                Some(id) => seq![seq![id, or_empty(text_member(entry@, "name"@)), or_empty(text_member(entry@, "description"@))]],
                None => Seq::<Seq<Seq<char>>>::empty(),
            });
        }
        match entry.get("id") {
            Some(idv) => match idv.as_str() {
                Some(id) => {
                    let name = text_or_empty(entry, "name");
                    let description = text_or_empty(entry, "description");
                    let t = (id.to_owned(), name, description);
                    out.push(t);
                    assert(forall|k: int| 0 <= k < e0.len() ==> #[trigger] e1[k] == e0[k]);
                },
                None => {
                    assert(e1 =~= e0);
                },
            },
            None => {
                assert(e1 =~= e0);
            },
        }
        i += 1;
    }
    assert(models.take(items.len() as int) =~= models);
    out
}

/// The templates of a collection document.
pub fn parse_templates(json: &str) -> (r: Vec<Template>)
    ensures
        r.len() == collection(json@, "templates"@).len(),
        forall|i: int| 0 <= i < r.len() ==> #[trigger] r@[i].id@ == collection(json@, "templates"@)[i][0]
            && r@[i].name@ == collection(json@, "templates"@)[i][1] && r@[i].description@
            == collection(json@, "templates"@)[i][2],
{
    let entries = parse_collection(json, "templates");
    let mut out: Vec<Template> = Vec::new();
    let mut i: usize = 0;
    while i < entries.len()
        invariant
            i <= entries.len(),
            out.len() == i,
            forall|k: int| 0 <= k < i ==> #[trigger] out@[k].id@ == entries@[k].0@ && out@[k].name@
                == entries@[k].1@ && out@[k].description@ == entries@[k].2@,
        decreases entries.len() - i,
    {
        out.push(Template {
            id: entries[i].0.clone(),
            name: entries[i].1.clone(),
            description: entries[i].2.clone(),
        });
        i += 1;
    }
    out
}

/// The features of a collection document.
pub fn parse_features(json: &str) -> (r: Vec<Feature>)
    ensures
        r.len() == collection(json@, "features"@).len(),
        forall|i: int| 0 <= i < r.len() ==> #[trigger] r@[i].id@ == collection(json@, "features"@)[i][0]
            && r@[i].name@ == collection(json@, "features"@)[i][1] && r@[i].description@
            == collection(json@, "features"@)[i][2],
{
    let entries = parse_collection(json, "features");
    let mut out: Vec<Feature> = Vec::new();
    let mut i: usize = 0;
    while i < entries.len()
        invariant
            i <= entries.len(),
            out.len() == i,
            forall|k: int| 0 <= k < i ==> #[trigger] out@[k].id@ == entries@[k].0@ && out@[k].name@
                == entries@[k].1@ && out@[k].description@ == entries@[k].2@,
        decreases entries.len() - i,
    {
        out.push(Feature {
            id: entries[i].0.clone(),
            name: entries[i].1.clone(),
            description: entries[i].2.clone(),
        });
        i += 1;
    }
    out
}

/// What a template option is in terms of plain values.
pub enum OptionModel {
    Fixed(Seq<char>, Seq<char>),
    Choice(Seq<char>, Seq<Seq<char>>),
}

impl View for TemplateOption {
    type V = OptionModel;

    open spec fn view(&self) -> OptionModel {
        match self {
            TemplateOption::Fixed { id, value } => OptionModel::Fixed(id@, value@),
            TemplateOption::Choice { id, choices } => OptionModel::Choice(id@, lines_view(choices@)),
        }
    }
}

/// The text of a string or boolean value.
pub open spec fn scalar_text(v: JsonValue) -> Option<Seq<char>> {
    match v {
        JsonValue::Str(s) => Some(s),
        JsonValue::Bool(b) => Some(if b { "true"@ } else { "false"@ }),
        _ => None,
    }
}

/// The texts of the string and boolean items.
pub open spec fn scalar_texts(items: Seq<JsonValue>) -> Seq<Seq<char>>
    decreases items.len(),
{
    if items.len() == 0 {
        Seq::empty()
    } else {
        scalar_texts(items.drop_last()) + match scalar_text(items.last()) {
            Some(t) => seq![t],
            None => Seq::empty(),
        }
    }
}

/// The values an option proposes: `true` and `false` for a boolean, else its
/// `proposals` (or, where it has none, its `enum`).
pub open spec fn proposals_of(spec: JsonValue) -> Seq<Seq<char>> {
    if text_member(spec, "type"@) == Some("boolean"@) {
        seq!["true"@, "false"@]
    } else {
        let list = match member(spec, "proposals"@) {
            Some(p) => Some(p),
            None => member(spec, "enum"@),
        };
        match list {
            Some(JsonValue::Array(items)) => scalar_texts(items),
            _ => Seq::empty(),
        }
    }
}

/// The choices of an option: its default first, then the other proposals.
pub open spec fn choices_of(spec: JsonValue) -> Seq<Seq<char>> {
    let default = match member(spec, "default"@) {
        Some(v) => scalar_text(v),
        None => None,
    };
    match default {
        Some(d) => seq![d] + proposals_of(spec).filter(|c: Seq<char>| c != d),
        None => proposals_of(spec),
    }
}

/// The option `id`: fixed where it has one choice, a choice where it has more.
pub open spec fn option_of(id: Seq<char>, spec: JsonValue) -> Option<OptionModel> {
    let c = choices_of(spec);
    if c.len() == 0 {
        None
    } else if c.len() == 1 {
        Some(OptionModel::Fixed(id, c[0]))
    } else {
        Some(OptionModel::Choice(id, c))
    }
}

pub open spec fn options_of(keys: Seq<Seq<char>>, specs: Seq<JsonValue>, n: int) -> Seq<OptionModel>
    decreases n,
{
    if n <= 0 {
        Seq::empty()
    } else {
        options_of(keys, specs, n - 1) + match option_of(keys[n - 1], specs[n - 1]) {
            Some(o) => seq![o],
            None => Seq::empty(),
        }
    }
}

/// The options a template manifest declares, in order.
pub open spec fn template_options(json: Seq<char>) -> Seq<OptionModel> {
    match text_value(json) {
        Some(v) => match member(v, "options"@) {
            Some(JsonValue::Object(keys, specs)) => options_of(keys, specs, keys.len() as int),
            _ => Seq::empty(),
        },
        None => Seq::empty(),
    }
}

fn scalar_text_exec(v: &Value) -> (r: Option<String>)
    ensures
        match scalar_text(v@) {
            Some(t) => r matches Some(s) && s@ == t,
            None => r is None,
        },
{
    match v {
        Value::String(s) => Some(s.clone()),
        Value::Bool(b) => if *b {
            Some("true".to_owned())
        } else {
            Some("false".to_owned())
        },
        _ => None,
    }
}

fn proposals_exec(spec: &Value) -> (r: Vec<String>)
    ensures
        lines_view(r@) == proposals_of(spec@),
{
    let is_boolean = match spec.get("type") {
        Some(t) => match t.as_str() {
            Some(s) => same_text(s, "boolean"),
            None => false,
        },
        None => false,
    };
    if is_boolean {
        let mut v: Vec<String> = Vec::new();
        v.push("true".to_owned());
        v.push("false".to_owned());
        assert(lines_view(v@) =~= seq!["true"@, "false"@]);
        return v;
    }
    let list = match spec.get("proposals") {
        Some(p) => Some(p),
        None => spec.get("enum"),
    };
    let items = match list {
        Some(l) => match l.as_array() {
            Some(a) => a,
            None => {
                let e: Vec<String> = Vec::new();
                assert(lines_view(e@) =~= Seq::<Seq<char>>::empty());
                return e;
            },
        },
        None => {
            let e: Vec<String> = Vec::new();
            assert(lines_view(e@) =~= Seq::<Seq<char>>::empty());
            return e;
        },
    };
    let ghost models = Seq::new(items.len() as nat, |i: int| items@[i]@);
    proof {
        let l = match member(spec@, "proposals"@) {
            Some(p) => Some(p),
            None => member(spec@, "enum"@),
        };
        if let Some(JsonValue::Array(xs)) = l {
            assert(xs =~= models);
        }
    }
    let mut out: Vec<String> = Vec::new();
    let mut i: usize = 0;
    while i < items.len()
        invariant
            i <= items.len(),
            models == Seq::new(items.len() as nat, |k: int| items@[k]@),
            lines_view(out@) == scalar_texts(models.take(i as int)),
        decreases items.len() - i,
    {
        proof {
            assert(models.take(i + 1).drop_last() =~= models.take(i as int));
        }
        let ghost before = lines_view(out@);
        match scalar_text_exec(&items[i]) {
            Some(t) => {
                out.push(t);
                assert(lines_view(out@) =~= before.push(scalar_text(items@[i as int]@)->0));
            },
            None => {},
        }
        assert(lines_view(out@) =~= scalar_texts(models.take(i + 1)));
        i += 1;
    }
    assert(models.take(items.len() as int) =~= models);
    out
}

fn choices_exec(spec: &Value) -> (r: Vec<String>)
    ensures
        lines_view(r@) == choices_of(spec@),
{
    let default = match spec.get("default") {
        Some(v) => scalar_text_exec(v),
        None => None,
    };
    let ghost dspec = match member(spec@, "default"@) {
        Some(v) => scalar_text(v),
        None => None,
    };
    assert(default is None <==> dspec is None);
    assert(default is Some ==> default->0@ == dspec->0);
    let proposals = proposals_exec(spec);
    match default {
        None => {
            assert(choices_of(spec@) == proposals_of(spec@));
            let r = proposals;
            assert(lines_view(r@) == choices_of(spec@));
            r
        },
        Some(d) => {
            let ghost p = proposals_of(spec@);
            let mut out: Vec<String> = Vec::new();
            out.push(d.clone());
            let mut i: usize = 0;
            while i < proposals.len()
                invariant
                    i <= proposals.len(),
                    lines_view(proposals@) == p,
                    lines_view(out@) == seq![d@] + p.take(i as int).filter(|c: Seq<char>| c != d@),
                decreases proposals.len() - i,
            {
                proof {
                    assert(p.take(i + 1).drop_last() =~= p.take(i as int));
                    reveal(Seq::filter);
                }
                let ghost before = lines_view(out@);
                if !same_text(proposals[i].as_str(), d.as_str()) {
                    out.push(proposals[i].clone());
                    assert(lines_view(out@) =~= before.push(p[i as int]));
                }
                assert(lines_view(out@) =~= seq![d@] + p.take(i + 1).filter(|c: Seq<char>| c != d@));
                i += 1;
            }
            assert(p.take(proposals.len() as int) =~= p);
            let ghost dd = dspec->0;
            assert(dd == d@);
            let ghost f1 = |c: Seq<char>| c != d@;
            let ghost f2 = |c: Seq<char>| c != dd;
            assert(f1 =~= f2);
            assert(p.filter(f1) == p.filter(f2));
            out
        },
    }
}

/// The options a template manifest declares, in order; none where it cannot be read.
pub fn parse_template_options(json: &str) -> (r: Vec<TemplateOption>)
    ensures
        r.len() == template_options(json@).len(),
        forall|i: int| 0 <= i < r.len() ==> #[trigger] r@[i]@ == template_options(json@)[i],
{
    let document = match parse(json) {
        Ok(d) => d,
        Err(_) => return Vec::new(),
    };
    let value = document.value();
    let members = match value.get("options") {
        Some(v) => match v.as_object() {
            Some(m) => m,
            None => return Vec::new(),
        },
        None => return Vec::new(),
    };
    let ghost keys = Seq::new(members.len() as nat, |i: int| members@[i].0@);
    let ghost specs = Seq::new(members.len() as nat, |i: int| members@[i].1@);
    proof {
        if let Some(JsonValue::Object(k, x)) = member(value@, "options"@) {
            assert(k =~= keys);
            assert(x =~= specs);
        }
    }
    let mut out: Vec<TemplateOption> = Vec::new();
    let mut i: usize = 0;
    while i < members.len()
        invariant
            i <= members.len(),
            keys == Seq::new(members.len() as nat, |k: int| members@[k].0@),
            specs == Seq::new(members.len() as nat, |k: int| members@[k].1@),
            out.len() == options_of(keys, specs, i as int).len(),
            forall|k: int| 0 <= k < out.len() ==> #[trigger] out@[k]@ == options_of(keys, specs, i as int)[k],
        decreases members.len() - i,
    {
        let ghost o0 = options_of(keys, specs, i as int);
        let mut choices = choices_exec(&members[i].1);
        let id = members[i].0.clone();
        if choices.len() == 1 {
            let value = choices.remove(0);
            out.push(TemplateOption::Fixed { id, value });
        } else if choices.len() > 1 {
            out.push(TemplateOption::Choice { id, choices });
        }
        proof {
            assert(forall|k: int| 0 <= k < o0.len() ==> #[trigger] options_of(keys, specs, i + 1)[k] == o0[k]);
        }
        i += 1;
    }
    out
}

/// The files a template never writes.
pub const ALWAYS_OMITTED: [&'static str; 3] = ["devcontainer-template.json", "README.md", "NOTES.md"];
pub const DEVCONTAINER_JSON: &'static str = ".devcontainer/devcontainer.json";
pub const TEMPLATE_JSON: &'static str = "devcontainer-template.json";

/// What `String::from_utf8_lossy` makes of bytes: their text, with each invalid
/// sequence replaced by U+FFFD.
pub uninterp spec fn lossy_utf8(b: Seq<u8>) -> Seq<char>;

/// The text of the bytes, with invalid UTF-8 replaced as `String::from_utf8_lossy` does;
/// valid UTF-8 is decoded as it is.
#[verifier::external_body]
pub(crate) fn utf8_lossy(b: &[u8]) -> (r: String)
    ensures
        r@ == lossy_utf8(b@),
        valid_utf8(b@) ==> r@ == decode_utf8(b@),
{
    String::from_utf8_lossy(b).into_owned()
}

/// The text of the bytes where they are valid UTF-8, as `std::str::from_utf8` decides.
#[verifier::external_body]
fn utf8_text(b: &[u8]) -> (r: Option<String>)
    ensures
        match r {
            Some(s) => valid_utf8(b@) && s@ == decode_utf8(b@),
            None => !valid_utf8(b@),
        },
{
    std::str::from_utf8(b).ok().map(|s| s.to_owned())
}

/// The UTF-8 bytes of a string.
fn bytes_of(s: &str) -> (r: Vec<u8>)
    ensures
        r@ == encode_utf8(s@),
{
    let b = s.as_bytes();
    let mut out: Vec<u8> = Vec::new();
    let mut i: usize = 0;
    while i < b.len()
        invariant
            i <= b.len(),
            b@ == encode_utf8(s@),
            out@ == b@.take(i as int),
        decreases b.len() - i,
    {
        out.push(b[i]);
        assert(b@.take(i + 1) =~= b@.take(i as int).push(b@[i as int]));
        i += 1;
    }
    assert(b@.take(b.len() as int) =~= b@);
    out
}

fn copy_bytes(b: &Vec<u8>) -> (r: Vec<u8>)
    ensures
        r@ == b@,
{
    let mut out: Vec<u8> = Vec::new();
    let mut i: usize = 0;
    while i < b.len()
        invariant
            i <= b.len(),
            out@ == b@.take(i as int),
        decreases b.len() - i,
    {
        out.push(b[i]);
        assert(b@.take(i + 1) =~= b@.take(i as int).push(b@[i as int]));
        i += 1;
    }
    assert(b@.take(b.len() as int) =~= b@);
    out
}

/// `s` from `i` on, with each occurrence of `pat` (left to right, not overlapping)
/// replaced by `rep`.
pub open spec fn replace_from(s: Seq<char>, pat: Seq<char>, rep: Seq<char>, i: int) -> Seq<char>
    decreases s.len() - i,
{
    if i < 0 || i >= s.len() {
        Seq::empty()
    } else if pat.len() > 0 && i + pat.len() <= s.len() && s.subrange(i, i + pat.len()) == pat {
        rep + replace_from(s, pat, rep, i + pat.len())
    } else {
        seq![s[i]] + replace_from(s, pat, rep, i + 1)
    }
}

/// `s` with each occurrence of `pat` replaced by `rep`, as `str::replace` does.
pub open spec fn replace_all(s: Seq<char>, pat: Seq<char>, rep: Seq<char>) -> Seq<char> {
    replace_from(s, pat, rep, 0)
}

/// `s` with each occurrence of the non-empty `pat` replaced by `rep`.
pub fn replace_text(s: &Vec<char>, pat: &Vec<char>, rep: &Vec<char>) -> (r: Vec<char>)
    requires
        pat.len() > 0,
    ensures
        r@ == replace_all(s@, pat@, rep@),
{
    let mut out: Vec<char> = Vec::new();
    let mut i: usize = 0;
    while i < s.len()
        invariant
            i <= s.len(),
            pat.len() > 0,
            out@ + replace_from(s@, pat@, rep@, i as int) == replace_all(s@, pat@, rep@),
        decreases s.len() - i,
    {
        let ghost before = out@;
        if starts_at(s.as_slice(), i, pat.as_slice()) {
            push_all(&mut out, rep.as_slice());
            assert(out@ + replace_from(s@, pat@, rep@, i + pat.len()) =~= before + replace_from(
                s@,
                pat@,
                rep@,
                i as int,
            ));
            i = i + pat.len();
        } else {
            out.push(s[i]);
            assert(out@ + replace_from(s@, pat@, rep@, i + 1) =~= before + replace_from(
                s@,
                pat@,
                rep@,
                i as int,
            ));
            i = i + 1;
        }
    }
    assert(out@ + Seq::<char>::empty() =~= out@);
    out
}

/// A value chosen for a template option.
pub struct OptionValue {
    pub id: String,
    pub value: String,
}

/// The placeholder of option `id` in template files.
pub open spec fn placeholder(id: Seq<char>) -> Seq<char> {
    "${templateOption:"@ + id + "}"@
}

/// `s` with the placeholders of the first `n` options replaced, one option after the other.
pub open spec fn apply_options(s: Seq<char>, opts: Seq<OptionValue>, n: int) -> Seq<char>
    decreases n,
{
    if n <= 0 {
        s
    } else {
        replace_all(apply_options(s, opts, n - 1), placeholder(opts[n - 1].id@), opts[n - 1].value@)
    }
}

fn apply_options_exec(s: &Vec<char>, opts: &[OptionValue]) -> (r: Vec<char>)
    ensures
        r@ == apply_options(s@, opts@, opts.len() as int),
{
    let mut cur = sub_chars(s, 0, s.len());
    assert(s@.subrange(0, s.len() as int) =~= s@);
    let mut k: usize = 0;
    while k < opts.len()
        invariant
            k <= opts.len(),
            cur@ == apply_options(s@, opts@, k as int),
        decreases opts.len() - k,
    {
        let mut pat: Vec<char> = Vec::new();
        push_str(&mut pat, "${templateOption:");
        push_str(&mut pat, opts[k].id.as_str());
        push_str(&mut pat, "}");
        proof { reveal_strlit(""); reveal_strlit("${templateOption:"); }
        assert(pat@ =~= placeholder(opts@[k as int].id@));
        let rep = chars_of(opts[k].value.as_str());
        cur = replace_text(&cur, &pat, &rep);
        k += 1;
    }
    cur
}

/// A path that a template marks optional: a file, or a directory (`dir/*`) by its prefix.
#[derive(Clone, Debug, PartialEq)]
pub enum OptionalPath {
    File(String),
    Directory(String),
}

/// A file to write.
pub struct TemplateFile {
    pub path: String,
    pub content: Vec<u8>,
}

/// The files of a template archive, with its manifest read.
pub struct ExtractedTemplate {
    pub entries: Vec<(String, Vec<u8>)>,
    pub devcontainer_json: String,
    pub optional_paths: Vec<OptionalPath>,
    pub optional_labels: Vec<String>,
    pub options: Vec<TemplateOption>,
}

/// The files of a template that will be written.
pub struct SelectedTemplate<'a> {
    pub template: &'a ExtractedTemplate,
    pub paths: Vec<String>,
}

/// The content of the first entry at `name`, among the first `n`.
pub open spec fn entry_content(entries: Seq<(String, Vec<u8>)>, name: Seq<char>, n: int) -> Option<Seq<u8>>
    decreases n,
{
    if n <= 0 {
        None
    } else {
        match entry_content(entries, name, n - 1) {
            Some(c) => Some(c),
            None => if entries[n - 1].0@ == name {
                Some(entries[n - 1].1@)
            } else {
                None
            },
        }
    }
}

fn entry_content_exec<'a>(entries: &'a Vec<(String, Vec<u8>)>, name: &str) -> (r: Option<&'a Vec<u8>>)
    ensures
        match entry_content(entries@, name@, entries.len() as int) {
            Some(c) => r matches Some(b) && b@ == c,
            None => r is None,
        },
{
    let mut i: usize = 0;
    while i < entries.len()
        invariant
            i <= entries.len(),
            entry_content(entries@, name@, i as int) is None,
        decreases entries.len() - i,
    {
        if same_text(entries[i].0.as_str(), name) {
            proof { lemma_entry_content_found(entries@, name@, i as int, entries.len() as int); }
            return Some(&entries[i].1);
        }
        i += 1;
    }
    None
}

proof fn lemma_entry_content_found(entries: Seq<(String, Vec<u8>)>, name: Seq<char>, i: int, n: int)
    requires
        0 <= i < n <= entries.len(),
        entry_content(entries, name, i) is None,
        entries[i].0@ == name,
    ensures
        entry_content(entries, name, n) == Some(entries[i].1@),
    decreases n - i,
{
    if n > i + 1 {
        lemma_entry_content_found(entries, name, i, n - 1);
    }
}

/// The model of an optional path: whether it is a directory, and its text.
pub open spec fn optional_path_view(p: OptionalPath) -> (bool, Seq<char>) {
    match p {
        OptionalPath::File(f) => (false, f@),
        OptionalPath::Directory(d) => (true, d@),
    }
}

/// How the manifest writes an optional path: `dir/*` is a directory, else a file.
pub open spec fn optional_path_of(raw: Seq<char>) -> (bool, Seq<char>) {
    if raw.len() > 0 && raw.last() == '*' && raw.len() > 1 && raw[raw.len() - 2] == '/' {
        (true, raw.drop_last())
    } else {
        (false, raw)
    }
}

/// The string items of a list.
pub open spec fn string_items(items: Seq<JsonValue>) -> Seq<Seq<char>>
    decreases items.len(),
{
    if items.len() == 0 {
        Seq::empty()
    } else {
        string_items(items.drop_last()) + match items.last() {
            JsonValue::Str(s) => seq![s],
            _ => Seq::empty(),
        }
    }
}

/// The optional paths a manifest declares.
pub open spec fn optional_paths_of(metadata: Seq<char>) -> Seq<(bool, Seq<char>)> {
    match text_value(metadata) {
        Some(v) => match member(v, "optionalPaths"@) {
            Some(JsonValue::Array(items)) => string_items(items).map_values(|raw: Seq<char>| optional_path_of(raw)),
            _ => Seq::empty(),
        },
        None => Seq::empty(),
    }
}

/// The label an optional path is shown with: as the manifest wrote it.
pub open spec fn label_of(p: (bool, Seq<char>)) -> Seq<char> {
    if p.0 {
        p.1 + "*"@
    } else {
        p.1
    }
}

fn optional_path_exec(raw: &str) -> (r: OptionalPath)
    ensures
        optional_path_view(r) == optional_path_of(raw@),
{
    let v = chars_of(raw);
    if v.len() > 1 && v[v.len() - 1] == '*' && v[v.len() - 2] == '/' {
        let d = sub_chars(&v, 0, v.len() - 1);
        assert(d@ =~= v@.drop_last());
        OptionalPath::Directory(string_of(d.as_slice()))
    } else {
        OptionalPath::File(raw.to_owned())
    }
}

fn optional_paths_exec(metadata: &str) -> (r: Vec<OptionalPath>)
    ensures
        r@.map_values(|p: OptionalPath| optional_path_view(p)) == optional_paths_of(metadata@),
{
    let mut out: Vec<OptionalPath> = Vec::new();
    let document = match parse(metadata) {
        Ok(d) => d,
        Err(_) => {
            assert(out@.map_values(|p: OptionalPath| optional_path_view(p)) =~= optional_paths_of(metadata@));
            return out;
        },
    };
    let value = document.value();
    let items = match value.get("optionalPaths") {
        Some(v) => match v.as_array() {
            Some(a) => a,
            None => {
                assert(out@.map_values(|p: OptionalPath| optional_path_view(p)) =~= optional_paths_of(metadata@));
                return out;
            },
        },
        None => {
            assert(out@.map_values(|p: OptionalPath| optional_path_view(p)) =~= optional_paths_of(metadata@));
            return out;
        },
    };
    let ghost models = Seq::new(items.len() as nat, |i: int| items@[i]@);
    proof {
        if let Some(JsonValue::Array(xs)) = member(value@, "optionalPaths"@) {
            assert(xs =~= models);
        }
    }
    let mut i: usize = 0;
    while i < items.len()
        invariant
            i <= items.len(),
            models == Seq::new(items.len() as nat, |k: int| items@[k]@),
            out@.map_values(|p: OptionalPath| optional_path_view(p)) == string_items(models.take(i as int)).map_values(
                |raw: Seq<char>| optional_path_of(raw),
            ),
        decreases items.len() - i,
    {
        proof {
            assert(models.take(i + 1).drop_last() =~= models.take(i as int));
        }
        let ghost before = out@;
        match items[i].as_str() {
            Some(raw) => {
                let p = optional_path_exec(raw);
                out.push(p);
                assert(models.take(i + 1).last() == JsonValue::Str(raw@));
                assert(string_items(models.take(i + 1)) =~= string_items(models.take(i as int)).push(raw@));
                assert(out@ == before.push(p));
                let ghost lhs = out@.map_values(|p: OptionalPath| optional_path_view(p));
                let ghost old_l = before.map_values(|p: OptionalPath| optional_path_view(p));
                let ghost si = string_items(models.take(i + 1));
                let ghost rhs = si.map_values(|raw: Seq<char>| optional_path_of(raw));
                let ghost old_r = string_items(models.take(i as int)).map_values(|raw: Seq<char>| optional_path_of(raw));
                assert(old_l == old_r);
                assert(old_l.len() == before.len());
                assert(old_r.len() == string_items(models.take(i as int)).len());
                assert(si.len() == old_r.len() + 1);
                assert(lhs.len() == rhs.len());
                assert forall|k: int| 0 <= k < lhs.len() implies lhs[k] == rhs[k] by {
                    if k < before.len() {
                        assert(lhs[k] == old_l[k]);
                        assert(rhs[k] == old_r[k]);
                    } else {
                        assert(si[k] == raw@);
                    }
                }
                assert(lhs =~= rhs);
            },
            None => {
                assert(out@.map_values(|p: OptionalPath| optional_path_view(p)) =~= string_items(models.take(i + 1)).map_values(
                    |raw: Seq<char>| optional_path_of(raw),
                ));
            },
        }
        i += 1;
    }
    assert(models.take(items.len() as int) =~= models);
    out
}

fn label_exec(p: &OptionalPath) -> (r: String)
    ensures
        r@ == label_of(optional_path_view(*p)),
{
    match p {
        OptionalPath::File(f) => f.clone(),
        OptionalPath::Directory(d) => {
            let mut v: Vec<char> = Vec::new();
            push_str(&mut v, d.as_str());
            push_str(&mut v, "*");
            proof { reveal_strlit(""); }
            assert(v@ =~= d@ + "*"@);
            string_of(v.as_slice())
        },
    }
}

impl ExtractedTemplate {
    /// Reads a template archive's entries: its devcontainer.json (required) and the
    /// optional paths and options of its manifest.
    pub fn parse(entries: Vec<(String, Vec<u8>)>) -> (r: Result<ExtractedTemplate, Error>)
        ensures
            match entry_content(entries@, DEVCONTAINER_JSON@, entries.len() as int) {
                None => r matches Err(e) && e@ == "devcontainer.json not found in template"@,
                Some(dj) => r matches Ok(t) && {
                    let metadata = match entry_content(entries@, TEMPLATE_JSON@, entries.len() as int) {
                        Some(m) => lossy_utf8(m),
                        None => Seq::empty(),
                    };
                    &&& t.entries@ == entries@
                    &&& t.devcontainer_json@ == lossy_utf8(dj)
                    &&& t.optional_paths@.map_values(|p: OptionalPath| optional_path_view(p)) == optional_paths_of(metadata)
                    &&& lines_view(t.optional_labels@) == optional_paths_of(metadata).map_values(|p: (bool, Seq<char>)| label_of(p))
                    &&& t.options.len() == template_options(metadata).len()
                    &&& forall|i: int| 0 <= i < t.options.len() ==> #[trigger] t.options@[i]@ == template_options(metadata)[i]
                },
            },
    {
        let devcontainer_json = match entry_content_exec(&entries, DEVCONTAINER_JSON) {
            Some(c) => utf8_lossy(c.as_slice()),
            None => return Err(Error::new("devcontainer.json not found in template")),
        };
        let metadata = match entry_content_exec(&entries, TEMPLATE_JSON) {
            Some(c) => utf8_lossy(c.as_slice()),
            None => {
                proof { reveal_strlit(""); }
                "".to_owned()
            },
        };
        let optional_paths = optional_paths_exec(metadata.as_str());
        let mut optional_labels: Vec<String> = Vec::new();
        let mut i: usize = 0;
        while i < optional_paths.len()
            invariant
                i <= optional_paths.len(),
                lines_view(optional_labels@) == optional_paths@.map_values(|p: OptionalPath| optional_path_view(p)).take(i as int).map_values(|p: (bool, Seq<char>)| label_of(p)),
            decreases optional_paths.len() - i,
        {
            let l = label_exec(&optional_paths[i]);
            let ghost lb = optional_labels@;
            optional_labels.push(l);
            assert(lines_view(optional_labels@) =~= lines_view(lb).push(l@));
            assert(lines_view(optional_labels@) =~= optional_paths@.map_values(|p: OptionalPath| optional_path_view(p)).take(i + 1).map_values(|p: (bool, Seq<char>)| label_of(p)));
            i += 1;
        }
        assert(optional_paths@.map_values(|p: OptionalPath| optional_path_view(p)).take(optional_paths.len() as int) =~= optional_paths@.map_values(|p: OptionalPath| optional_path_view(p)));
        let options = parse_template_options(metadata.as_str());
        Ok(ExtractedTemplate { entries, devcontainer_json, optional_paths, optional_labels, options })
    }
}

pub open spec fn is_always_omitted(p: Seq<char>) -> bool {
    p == "devcontainer-template.json"@ || p == "README.md"@ || p == "NOTES.md"@
}

/// Whether the optional path `op` covers `p`.
pub open spec fn covers(op: (bool, Seq<char>), p: Seq<char>) -> bool {
    if op.0 {
        has_prefix(p, op.1)
    } else {
        p == op.1
    }
}

/// Whether one of the optional paths that are not `included` covers `p`.
pub open spec fn omitted(ops: Seq<(bool, Seq<char>)>, included: Seq<usize>, p: Seq<char>) -> bool {
    exists|k: int| 0 <= k < ops.len() && !included.contains(k as usize) && covers(ops[k], p)
}

/// The paths of the first `n` entries that are written.
pub open spec fn kept_paths(
    entries: Seq<(String, Vec<u8>)>,
    ops: Seq<(bool, Seq<char>)>,
    included: Seq<usize>,
    n: int,
) -> Seq<Seq<char>>
    decreases n,
{
    if n <= 0 {
        Seq::empty()
    } else {
        let p = entries[n - 1].0@;
        kept_paths(entries, ops, included, n - 1) + if !is_always_omitted(p) && !omitted(ops, included, p) {
            seq![p]
        } else {
            Seq::empty()
        }
    }
}

fn contains_index(v: &[usize], k: usize) -> (r: bool)
    ensures
        r == v@.contains(k),
{
    let mut i: usize = 0;
    while i < v.len()
        invariant
            i <= v.len(),
            forall|j: int| 0 <= j < i ==> v@[j] != k,
        decreases v.len() - i,
    {
        if v[i] == k {
            return true;
        }
        i += 1;
    }
    false
}

fn covers_exec(op: &OptionalPath, p: &str) -> (r: bool)
    ensures
        r == covers(optional_path_view(*op), p@),
{
    match op {
        OptionalPath::File(f) => same_text(f.as_str(), p),
        OptionalPath::Directory(d) => {
            let pv = chars_of(p);
            let dv = chars_of(d.as_str());
            let r = starts_at(pv.as_slice(), 0, dv.as_slice());
            assert(r ==> pv@.subrange(0, dv.len() as int) =~= pv@.take(dv.len() as int));
            assert(has_prefix(p@, d@) ==> pv@.subrange(0, dv.len() as int) =~= pv@.take(dv.len() as int));
            r
        },
    }
}

impl ExtractedTemplate {
    /// The files to write where the optional paths at `included` are kept: every entry
    /// but the manifest, README.md, NOTES.md and what an omitted optional path covers.
    pub fn select(&self, included: &[usize]) -> (r: SelectedTemplate<'_>)
        ensures
            r.template == self,
            lines_view(r.paths@) == kept_paths(
                self.entries@,
                self.optional_paths@.map_values(|p: OptionalPath| optional_path_view(p)),
                included@,
                self.entries.len() as int,
            ),
    {
        let ghost ops = self.optional_paths@.map_values(|p: OptionalPath| optional_path_view(p));
        let mut paths: Vec<String> = Vec::new();
        let mut i: usize = 0;
        while i < self.entries.len()
            invariant
                i <= self.entries.len(),
                ops == self.optional_paths@.map_values(|p: OptionalPath| optional_path_view(p)),
                lines_view(paths@) == kept_paths(self.entries@, ops, included@, i as int),
            decreases self.entries.len() - i,
        {
            let p = self.entries[i].0.as_str();
            let always = same_text(p, "devcontainer-template.json") || same_text(p, "README.md") || same_text(p, "NOTES.md");
            let mut hit = false;
            let mut k: usize = 0;
            while k < self.optional_paths.len()
                invariant
                    k <= self.optional_paths.len(),
                    ops == self.optional_paths@.map_values(|p: OptionalPath| optional_path_view(p)),
                    hit == exists|j: int| 0 <= j < k && !included@.contains(j as usize) && covers(ops[j], p@),
                decreases self.optional_paths.len() - k,
            {
                if !contains_index(included, k) && covers_exec(&self.optional_paths[k], p) {
                    hit = true;
                }
                proof {
                    assert(ops[k as int] == optional_path_view(self.optional_paths@[k as int]));
                }
                k += 1;
            }
            let ghost before = lines_view(paths@);
            if !always && !hit {
                paths.push(self.entries[i].0.clone());
                assert(lines_view(paths@) =~= before.push(self.entries@[i as int].0@));
            }
            assert(lines_view(paths@) =~= kept_paths(self.entries@, ops, included@, i + 1));
            i += 1;
        }
        SelectedTemplate { template: self, paths }
    }
}

/// The feature reference without its tag.
pub open spec fn without_tag(r: Seq<char>) -> Seq<char> {
    match last_index_of(r, ':', r.len() as int) {
        Some(i) => r.take(i),
        None => r,
    }
}

fn without_tag_exec(r: &Vec<char>) -> (t: Vec<char>)
    ensures
        t@ == without_tag(r@),
{
    match rfind_char(r, ':') {
        Some(i) => {
            proof { lemma_last_index_of(r@, ':', r.len() as int); }
            let t = sub_chars(r, 0, i);
            assert(t@ =~= r@.take(i as int));
            t
        },
        None => sub_chars(r, 0, r.len()),
    }
}

/// The key a feature is declared under.
pub open spec fn feature_key(id: Seq<char>) -> Seq<char> {
    "ghcr.io/devcontainers/features/"@ + id + ":1"@
}

/// What an insert error says.
pub open spec fn insert_message(e: InsertError) -> Seq<char> {
    failure_message(failure_of(e))
}

/// What a failed insert says.
pub open spec fn failure_message(f: InsertFailure) -> Seq<char> {
    match f {
        InsertFailure::EmptyPath => "insert path is empty"@,
        InsertFailure::RootNotObject => "document root is not an object"@,
        InsertFailure::NotAnObject(k) => "'"@ + k + "' is not an object"@,
    }
}

fn insert_error_message(e: &InsertError) -> (r: Vec<char>)
    ensures
        r@ == insert_message(*e),
{
    let mut v: Vec<char> = Vec::new();
    match e {
        InsertError::EmptyPath => push_str(&mut v, "insert path is empty"),
        InsertError::RootNotObject => push_str(&mut v, "document root is not an object"),
        InsertError::NotAnObject(k) => {
            push_str(&mut v, "'");
            push_str(&mut v, k.as_str());
            push_str(&mut v, "' is not an object");
        },
    }
    proof { reveal_strlit(""); }
    assert(v@ =~= insert_message(*e));
    v
}

fn eq_chars(a: &Vec<char>, b: &Vec<char>) -> (r: bool)
    ensures
        r == (a@ == b@),
{
    if a.len() != b.len() {
        return false;
    }
    let r = starts_at(a.as_slice(), 0, b.as_slice());
    assert(a@.subrange(0, b.len() as int) =~= a@);
    r
}

/// Whether a reference with the base of `key_base` is among `declared`.
fn is_declared(declared: &Vec<Vec<char>>, key_base: &Vec<char>) -> (r: bool)
    ensures
        r == exists|k: int| 0 <= k < declared.len() && without_tag(#[trigger] declared@[k]@) == key_base@,
{
    let mut k: usize = 0;
    while k < declared.len()
        invariant
            k <= declared.len(),
            forall|m: int| 0 <= m < k ==> without_tag(#[trigger] declared@[m]@) != key_base@,
        decreases declared.len() - k,
    {
        let base = without_tag_exec(&declared[k]);
        if eq_chars(&base, key_base) {
            return true;
        }
        k += 1;
    }
    false
}

/// The texts of `v`.
pub open spec fn chars_views(v: Seq<Vec<char>>) -> Seq<Seq<char>> {
    v.map_values(|c: Vec<char>| c@)
}

/// Whether a reference with the base of `key` is among `declared`.
pub open spec fn base_declared(declared: Seq<Seq<char>>, key: Seq<char>) -> bool {
    exists|k: int| 0 <= k < declared.len() && without_tag(#[trigger] declared[k]) == without_tag(key)
}

/// The empty object.
pub open spec fn empty_object() -> JsonValue {
    JsonValue::Object(Seq::empty(), Seq::empty())
}

/// The document `d` with each feature of `ids` declared in turn (see
/// [`declare_feature`]), `declared` holding the references declared so far; the first
/// failure ends it.
#[verifier::opaque]
pub open spec fn features_declared(d: DocumentModel, declared: Seq<Seq<char>>, ids: Seq<Seq<char>>) -> Result<DocumentModel, Seq<char>>
    decreases ids.len(),
{
    if ids.len() == 0 {
        Ok(d)
    } else {
        let key = feature_key(ids[0]);
        if base_declared(declared, key) {
            features_declared(d, declared, ids.drop_first())
        } else {
            match inserted_document(d, seq!["features"@, key], empty_object()) {
                Ok(d2) => features_declared(d2, declared.push(key), ids.drop_first()),
                Err(f) => Err("failed to declare feature "@ + ids[0] + ": "@ + failure_message(f)),
            }
        }
    }
}

/// Declares the feature `id` in the `features` object of `document` under its
/// reference, unless a reference with the same base is declared already.
fn declare_feature(document: &mut Document, declared: &mut Vec<Vec<char>>, id: &str) -> (r: Result<(), Error>)
    ensures
        ({
            let key = feature_key(id@);
            if base_declared(chars_views(old(declared)@), key) {
                r is Ok && final(document)@ == old(document)@ && chars_views(final(declared)@) == chars_views(old(declared)@)
            } else {
                match inserted_document(old(document)@, seq!["features"@, key], empty_object()) {
                    Ok(d) => r is Ok && final(document)@ == d && chars_views(final(declared)@) == chars_views(
                        old(declared)@,
                    ).push(key),
                    Err(f) => r matches Err(x) && x@ == "failed to declare feature "@ + id@ + ": "@ + failure_message(f),
                }
            }
        }),
{
    let mut key: Vec<char> = Vec::new();
    push_str(&mut key, "ghcr.io/devcontainers/features/");
    push_str(&mut key, id);
    push_str(&mut key, ":1");
    assert(key@ =~= feature_key(id@));
    let key_base = without_tag_exec(&key);
    if is_declared(declared, &key_base) {
        proof {
            let k = choose|k: int| 0 <= k < declared.len() && without_tag(#[trigger] declared@[k]@) == key_base@;
            assert(chars_views(declared@)[k] == declared@[k]@);
        }
        return Ok(());
    }
    proof {
        if base_declared(chars_views(declared@), key@) {
            let k = choose|k: int| 0 <= k < chars_views(declared@).len() && without_tag(#[trigger] chars_views(declared@)[k]) == without_tag(key@);
            assert(without_tag(declared@[k]@) == key_base@);
        }
    }
    let key_text = string_of(key.as_slice());
    let path: [&str; 2] = ["features", key_text.as_str()];
    let empty: Vec<(String, Value)> = Vec::new();
    let ev = Value::Object(empty);
    proof {
        lemma_object_view(ev);
        if let JsonValue::Object(k, x) = ev@ {
            assert(k =~= Seq::<Seq<char>>::empty());
            assert(x =~= Seq::<JsonValue>::empty());
        }
        reveal_strlit("features");
        assert(crate::devcontainer::jsonc::edit::path_view(path@) =~= seq!["features"@, key@]);
        lemma_inserted_document_agrees(document@, seq!["features"@, key@], empty_object());
    }
    match document.insert(&path, &ev) {
        Ok(()) => {},
        Err(e) => {
            let mut msg: Vec<char> = Vec::new();
            push_str(&mut msg, "failed to declare feature ");
            push_str(&mut msg, id);
            push_str(&mut msg, ": ");
            let em = insert_error_message(&e);
            push_all(&mut msg, em.as_slice());
            return Err(Error::from_chars(&msg));
        },
    }
    let ghost before = chars_views(declared@);
    declared.push(key);
    assert(chars_views(declared@) =~= before.push(key@));
    Ok(())
}

/// The references a devcontainer.json declares under `features`.
pub open spec fn declared_features(root: JsonValue) -> Seq<Seq<char>> {
    match member(root, "features"@) {
        Some(JsonValue::Object(keys, _)) => keys,
        _ => Seq::empty(),
    }
}

/// The devcontainer.json that a template with the text `template` gives: its option
/// placeholders replaced, then, where features are asked for, each of `ids` declared
/// under `features` as `ghcr.io/devcontainers/features/{id}:1` unless a reference with
/// the same base (tag left out) is declared already; the rest of the text is kept.
pub open spec fn built_json(template: Seq<char>, option_values: Seq<OptionValue>, ids: Seq<Seq<char>>) -> Result<Seq<char>, Seq<char>> {
    let expanded = apply_options(template, option_values, option_values.len() as int);
    match parse_text(expanded) {
        Err(e) => Err(jsonc_message(e)),
        Ok(d) => {
            let root = node_value(d.root);
            if !(root is Object) {
                Err("template devcontainer.json is not a JSON object"@)
            } else if ids.len() == 0 {
                Ok(expanded)
            } else if (member(root, "features"@) matches Some(f) && !(f is Object)) {
                Err("template devcontainer.json 'features' is not a JSON object"@)
            } else {
                match features_declared(d, declared_features(root), ids) {
                    Ok(d2) => Ok(document_text(d2)),
                    Err(m) => Err(m),
                }
            }
        },
    }
}

pub open spec fn built_view(r: Result<String, Error>) -> Result<Seq<char>, Seq<char>> {
    match r {
        Ok(s) => Ok(s@),
        Err(e) => Err(e@),
    }
}

/// The devcontainer.json of a template with its option placeholders replaced and the
/// features of `feature_ids` declared (see [`built_json`]); the text is kept as written,
/// comments included.
#[verifier::rlimit(60)]
pub fn build_devcontainer_json(
    template_json: &str,
    option_values: &[OptionValue],
    feature_ids: &[String],
) -> (r: Result<String, Error>)
    ensures
        built_view(r) == built_json(template_json@, option_values@, lines_view(feature_ids@)),
{
    let tv = chars_of(template_json);
    let expanded_chars = apply_options_exec(&tv, option_values);
    let expanded = string_of(expanded_chars.as_slice());
    let mut document = match parse(expanded.as_str()) {
        Ok(d) => d,
        Err(e) => return Err(Error::from_jsonc(e)),
    };
    let value = document.value();
    if value.as_object().is_none() {
        return Err(Error::new("template devcontainer.json is not a JSON object"));
    }
    if feature_ids.len() == 0 {
        return Ok(expanded);
    }
    let ghost ids = lines_view(feature_ids@);
    let mut declared: Vec<Vec<char>> = Vec::new();
    match value.get("features") {
        Some(features) => {
            proof { lemma_object_view(*features); }
            match features.as_object() {
                Some(members) => {
                    let mut i: usize = 0;
                    while i < members.len()
                        invariant
                            i <= members.len(),
                            chars_views(declared@) == Seq::new(i as nat, |k: int| members@[k].0@),
                        decreases members.len() - i,
                    {
                        let ghost before = chars_views(declared@);
                        let c = chars_of(members[i].0.as_str());
                        declared.push(c);
                        assert(chars_views(declared@) =~= before.push(members@[i as int].0@));
                        assert(chars_views(declared@) =~= Seq::new((i + 1) as nat, |k: int| members@[k].0@));
                        i += 1;
                    }
                    proof {
                        if let JsonValue::Object(k, x) = features@ {
                            assert(k =~= Seq::new(members.len() as nat, |j: int| members@[j].0@));
                        }
                    }
                },
                None => return Err(Error::new("template devcontainer.json 'features' is not a JSON object")),
            }
        },
        None => {
            assert(chars_views(declared@) =~= Seq::<Seq<char>>::empty());
        },
    }
    let ghost d0 = document@;
    let ghost decl0 = chars_views(declared@);
    let ghost outcome = match features_declared(d0, decl0, ids) {
        Ok(d2) => Ok(document_text(d2)),
        Err(m) => Err(m),
    };
    proof {
        assert(ids.skip(0) =~= ids);
        assert(decl0 == declared_features(value@));
        assert(built_json(template_json@, option_values@, ids) == outcome);
    }
    let mut j: usize = 0;
    while j < feature_ids.len()
        invariant
            j <= feature_ids.len(),
            ids == lines_view(feature_ids@),
            built_json(template_json@, option_values@, ids) == outcome,
            outcome == match features_declared(d0, decl0, ids) {
                Ok(d2) => Ok(document_text(d2)),
                Err(m) => Err::<Seq<char>, Seq<char>>(m),
            },
            features_declared(d0, decl0, ids) == features_declared(document@, chars_views(declared@), ids.skip(j as int)),
        decreases feature_ids.len() - j,
    {
        proof {
            assert(ids.skip(j as int).drop_first() =~= ids.skip(j + 1));
            assert(ids.skip(j as int)[0] == feature_ids@[j as int]@);
        }
        let ghost d_before = document@;
        let ghost decl_before = chars_views(declared@);
        let ghost rest = ids.skip(j as int);
        let res = declare_feature(&mut document, &mut declared, feature_ids[j].as_str());
        proof {
            reveal(features_declared);
        }
        match res {
            Ok(()) => {
                assert(features_declared(d_before, decl_before, rest) == features_declared(
                    document@,
                    chars_views(declared@),
                    ids.skip(j + 1),
                ));
            },
            Err(e) => {
                assert(features_declared(d_before, decl_before, rest) == Err::<DocumentModel, Seq<char>>(e@));
                return Err(e);
            },
        }
        j += 1;
    }
    proof {
        assert(ids.skip(feature_ids.len() as int) =~= Seq::<Seq<char>>::empty());
        reveal(features_declared);
    }
    Ok(document.to_text())
}

impl<'a> SelectedTemplate<'a> {
    /// The files to write: devcontainer.json built with the options and features, and
    /// every other file with its option placeholders replaced where it is UTF-8 text,
    /// its bytes as they are otherwise.
    pub fn render(&self, option_values: &[OptionValue], feature_ids: &[String]) -> (r: Result<Vec<TemplateFile>, Error>)
        ensures
            match r {
                Ok(files) => files.len() == self.paths.len() && forall|i: int| 0 <= i < files.len() ==> {
                    let p = #[trigger] files@[i].path@;
                    &&& p == self.paths@[i]@
                    &&& p != DEVCONTAINER_JSON@ ==> {
                        let raw = match entry_content(self.template.entries@, p, self.template.entries.len() as int) {
                            Some(c) => c,
                            None => Seq::empty(),
                        };
                        files@[i].content@ == if valid_utf8(raw) {
                            encode_utf8(apply_options(decode_utf8(raw), option_values@, option_values.len() as int))
                        } else {
                            raw
                        }
                    }
                    &&& p == DEVCONTAINER_JSON@ ==> (built_json(self.template.devcontainer_json@, option_values@, lines_view(feature_ids@))
                        matches Ok(t) && files@[i].content@ == encode_utf8(t))
                } && built_json(self.template.devcontainer_json@, option_values@, lines_view(feature_ids@)) is Ok,
                Err(e) => built_json(self.template.devcontainer_json@, option_values@, lines_view(feature_ids@)) == Err::<Seq<char>, Seq<char>>(e@),
            },
    {
        let built = match build_devcontainer_json(self.template.devcontainer_json.as_str(), option_values, feature_ids) {
            Ok(b) => b,
            Err(e) => return Err(e),
        };
        let mut files: Vec<TemplateFile> = Vec::new();
        let mut i: usize = 0;
        while i < self.paths.len()
            invariant
                i <= self.paths.len(),
                files.len() == i,
                forall|k: int| 0 <= k < i ==> {
                    let p = #[trigger] files@[k].path@;
                    &&& p == self.paths@[k]@
                    &&& p != DEVCONTAINER_JSON@ ==> {
                        let raw = match entry_content(self.template.entries@, p, self.template.entries.len() as int) {
                            Some(c) => c,
                            None => Seq::empty(),
                        };
                        files@[k].content@ == if valid_utf8(raw) {
                            encode_utf8(apply_options(decode_utf8(raw), option_values@, option_values.len() as int))
                        } else {
                            raw
                        }
                    }
                    &&& p == DEVCONTAINER_JSON@ ==> files@[k].content@ == encode_utf8(built@)
                },
                built_json(self.template.devcontainer_json@, option_values@, lines_view(feature_ids@)) == Ok::<Seq<char>, Seq<char>>(built@),
            decreases self.paths.len() - i,
        {
            let path = self.paths[i].as_str();
            let content = if same_text(path, DEVCONTAINER_JSON) {
                bytes_of(built.as_str())
            } else {
                let empty: Vec<u8> = Vec::new();
                let raw: Vec<u8> = match entry_content_exec(&self.template.entries, path) {
                    Some(c) => copy_bytes(c),
                    None => empty,
                };
                match utf8_text(raw.as_slice()) {
                    Some(text) => {
                        let tc = chars_of(text.as_str());
                        let replaced = apply_options_exec(&tc, option_values);
                        let rs = string_of(replaced.as_slice());
                        bytes_of(rs.as_str())
                    },
                    None => raw,
                }
            };
            files.push(TemplateFile { path: self.paths[i].clone(), content });
            i += 1;
        }
        Ok(files)
    }
}

} // verus!

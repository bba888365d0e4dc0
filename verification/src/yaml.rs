//! YAML documents held as plain data, as the configuration file is written.

use vstd::prelude::*;
use crate::json::{EntryView, JsonValue, JsonView, json_entries_view, json_seq_view};
use crate::text::str_eq;

verus! {

/// A YAML value. Numbers are held in their textual form; mapping entries keep
/// their order; a tagged value keeps its tag.
pub enum YamlValue {
    Null,
    Bool(bool),
    Number(String),
    String(String),
    Sequence(Vec<YamlValue>),
    Mapping(Vec<(YamlValue, YamlValue)>),
    Tagged(String, Box<YamlValue>),
}

/// The mathematical form of a YAML value.
pub enum YamlView {
    Null,
    Bool(bool),
    Number(Seq<char>),
    String(Seq<char>),
    Sequence(Seq<YamlView>),
    Mapping(Seq<(YamlView, YamlView)>),
    Tagged(Seq<char>, Box<YamlView>),
}

pub open spec fn yaml_view(v: YamlValue) -> YamlView
    decreases v,
{
    match v {
        YamlValue::Null => YamlView::Null,
        YamlValue::Bool(b) => YamlView::Bool(b),
        YamlValue::Number(n) => YamlView::Number(n@),
        YamlValue::String(s) => YamlView::String(s@),
        YamlValue::Sequence(items) => YamlView::Sequence(yaml_seq_view(items@)),
        YamlValue::Mapping(entries) => YamlView::Mapping(yaml_entries_view(entries@)),
        YamlValue::Tagged(tag, inner) => YamlView::Tagged(tag@, Box::new(yaml_view(*inner))),
    }
}

pub open spec fn yaml_seq_view(s: Seq<YamlValue>) -> Seq<YamlView>
    decreases s,
{
    if s.len() == 0 {
        Seq::empty()
    } else {
        yaml_seq_view(s.drop_last()).push(yaml_view(s.last()))
    }
}

pub open spec fn yaml_entries_view(s: Seq<(YamlValue, YamlValue)>) -> Seq<(YamlView, YamlView)>
    decreases s,
{
    if s.len() == 0 {
        Seq::empty()
    } else {
        yaml_entries_view(s.drop_last()).push((yaml_view(s.last().0), yaml_view(s.last().1)))
    }
}

impl View for YamlValue {
    type V = YamlView;

    open spec fn view(&self) -> YamlView {
        yaml_view(*self)
    }
}

/// The element-wise form of `yaml_seq_view`.
pub proof fn lemma_yaml_seq_view(s: Seq<YamlValue>)
    ensures
        yaml_seq_view(s).len() == s.len(),
        forall|i: int| 0 <= i < s.len() ==> #[trigger] yaml_seq_view(s)[i] == yaml_view(s[i]),
    decreases s.len(),
{
    if s.len() > 0 {
        lemma_yaml_seq_view(s.drop_last());
    }
}

/// The element-wise form of `yaml_entries_view`.
pub proof fn lemma_yaml_entries_view(s: Seq<(YamlValue, YamlValue)>)
    ensures
        yaml_entries_view(s).len() == s.len(),
        forall|i: int|
            0 <= i < s.len() ==> #[trigger] yaml_entries_view(s)[i] == (yaml_view(s[i].0), yaml_view(s[i].1)),
    decreases s.len(),
{
    if s.len() > 0 {
        lemma_yaml_entries_view(s.drop_last());
    }
}

/// The value under any tags.
pub open spec fn untag(v: YamlView) -> YamlView
    decreases v,
{
    match v {
        YamlView::Tagged(_, inner) => untag(*inner),
        _ => v,
    }
}

/// The entries of a (possibly tagged) mapping.
pub open spec fn as_mapping(v: YamlView) -> Option<Seq<(YamlView, YamlView)>> {
    match untag(v) {
        YamlView::Mapping(m) => Some(m),
        _ => None,
    }
}

/// The items of a (possibly tagged) sequence.
pub open spec fn as_sequence(v: YamlView) -> Option<Seq<YamlView>> {
    match untag(v) {
        YamlView::Sequence(s) => Some(s),
        _ => None,
    }
}

/// The text of a (possibly tagged) string.
pub open spec fn as_str(v: YamlView) -> Option<Seq<char>> {
    match untag(v) {
        YamlView::String(s) => Some(s),
        _ => None,
    }
}

/// The value of the first entry whose key is the (untagged) string `k`.
pub open spec fn map_get(m: Seq<(YamlView, YamlView)>, k: Seq<char>) -> Option<YamlView>
    decreases m.len(),
{
    if m.len() == 0 {
        None
    } else if m[0].0 == YamlView::String(k) {
        Some(m[0].1)
    } else {
        map_get(m.drop_first(), k)
    }
}

impl YamlValue {
    /// The value under any tags.
    pub fn untagged(&self) -> (r: &YamlValue)
        ensures
            r@ == untag(self@),
        decreases self,
    {
        match self {
            YamlValue::Tagged(_, inner) => inner.untagged(),
            _ => self,
        }
    }

    /// The entries of a (possibly tagged) mapping.
    pub fn as_mapping(&self) -> (r: Option<&Vec<(YamlValue, YamlValue)>>)
        ensures
            match r {
                Some(m) => as_mapping(self@) == Some(yaml_entries_view(m@)),
                None => as_mapping(self@) is None,
            },
    {
        match self.untagged() {
            YamlValue::Mapping(m) => Some(m),
            _ => None,
        }
    }

    /// The items of a (possibly tagged) sequence.
    pub fn as_sequence(&self) -> (r: Option<&Vec<YamlValue>>)
        ensures
            match r {
                Some(s) => as_sequence(self@) == Some(yaml_seq_view(s@)),
                None => as_sequence(self@) is None,
            },
    {
        match self.untagged() {
            YamlValue::Sequence(s) => Some(s),
            _ => None,
        }
    }

    /// The text of a (possibly tagged) string.
    pub fn as_str(&self) -> (r: Option<&str>)
        ensures
            match r {
                Some(s) => as_str(self@) == Some(s@),
                None => as_str(self@) is None,
            },
    {
        match self.untagged() {
            YamlValue::String(s) => Some(s.as_str()),
            _ => None,
        }
    }
}

/// The value of the first entry whose key is the (untagged) string `k`.
pub fn mapping_get<'a>(m: &'a Vec<(YamlValue, YamlValue)>, k: &str) -> (r: Option<&'a YamlValue>)
    ensures
        match r {
            Some(v) => map_get(yaml_entries_view(m@), k@) == Some(v@),
            None => map_get(yaml_entries_view(m@), k@) is None,
        },
{
    let ghost e = yaml_entries_view(m@);
    proof {
        lemma_yaml_entries_view(m@);
        assert(e.subrange(0, e.len() as int) =~= e);
    }
    let mut i: usize = 0;
    while i < m.len()
        invariant
            e == yaml_entries_view(m@),
            e.len() == m@.len(),
            forall|j: int| 0 <= j < m@.len() ==> #[trigger] e[j] == (m@[j].0@, m@[j].1@),
            i <= m.len(),
            map_get(e, k@) == map_get(e.subrange(i as int, e.len() as int), k@),
        decreases m.len() - i,
    {
        let ghost rest = e.subrange(i as int, e.len() as int);
        assert(rest[0] == e[i as int]);
        assert(rest.drop_first() =~= e.subrange(i + 1, e.len() as int));
        match &m[i].0 {
            YamlValue::String(s) => {
                if str_eq(s.as_str(), k) {
                    return Some(&m[i].1);
                }
            },
            _ => {},
        }
        i = i + 1;
    }
    assert(e.subrange(i as int, e.len() as int) =~= Seq::<(YamlView, YamlView)>::empty());
    None
}


/// The JSON form of a YAML value: scalars keep their value, sequences and
/// mappings convert item by item; a tagged value, or a mapping whose key is
/// not a string, has none.
pub open spec fn json_of_yaml(v: YamlView) -> Option<JsonView>
    decreases v,
{
    match v {
        YamlView::Null => Some(JsonView::Null),
        YamlView::Bool(b) => Some(JsonView::Bool(b)),
        YamlView::Number(n) => Some(JsonView::Number(n)),
        YamlView::String(s) => Some(JsonView::String(s)),
        YamlView::Sequence(items) => match json_of_yaml_items(items) {
            Some(a) => Some(JsonView::Array(a)),
            None => None,
        },
        YamlView::Mapping(entries) => match json_of_yaml_entries(entries) {
            Some(e) => Some(JsonView::Object(e)),
            None => None,
        },
        YamlView::Tagged(_, _) => None,
    }
}

/// The JSON forms of a list of YAML values, if each has one.
pub open spec fn json_of_yaml_items(s: Seq<YamlView>) -> Option<Seq<JsonView>>
    decreases s,
{
    if s.len() == 0 {
        Some(Seq::empty())
    } else {
        match json_of_yaml_items(s.drop_last()) {
            Some(a) => match json_of_yaml(s.last()) {
                Some(x) => Some(a.push(x)),
                None => None,
            },
            None => None,
        }
    }
}

/// The JSON entries of a list of YAML mapping entries, if each key is a
/// string and each value has a JSON form.
pub open spec fn json_of_yaml_entries(s: Seq<(YamlView, YamlView)>) -> Option<Seq<EntryView>>
    decreases s,
{
    if s.len() == 0 {
        Some(Seq::empty())
    } else {
        match json_of_yaml_entries(s.drop_last()) {
            Some(a) => match s.last().0 {
                YamlView::String(k) => match json_of_yaml(s.last().1) {
                    Some(x) => Some(a.push((k, x))),
                    None => None,
                },
                _ => None,
            },
            None => None,
        }
    }
}

/// Once a prefix of a list has no JSON form, the whole list has none.
proof fn lemma_items_none(s: Seq<YamlView>, i: int)
    requires
        0 <= i <= s.len(),
        json_of_yaml_items(s.subrange(0, i)) is None,
    ensures
        json_of_yaml_items(s) is None,
    decreases s.len() - i,
{
    if i < s.len() {
        assert(s.subrange(0, i + 1).drop_last() =~= s.subrange(0, i));
        lemma_items_none(s, i + 1);
    } else {
        assert(s.subrange(0, i) =~= s);
    }
}

/// Once a prefix of a mapping has no JSON form, the whole mapping has none.
proof fn lemma_entries_none(s: Seq<(YamlView, YamlView)>, i: int)
    requires
        0 <= i <= s.len(),
        json_of_yaml_entries(s.subrange(0, i)) is None,
    ensures
        json_of_yaml_entries(s) is None,
    decreases s.len() - i,
{
    if i < s.len() {
        assert(s.subrange(0, i + 1).drop_last() =~= s.subrange(0, i));
        lemma_entries_none(s, i + 1);
    } else {
        assert(s.subrange(0, i) =~= s);
    }
}

/// The JSON form of a YAML value, as `json_of_yaml` describes it.
pub fn yaml_to_json(v: &YamlValue) -> (r: Option<JsonValue>)
    ensures
        match r {
            Some(j) => json_of_yaml(v@) == Some(j@),
            None => json_of_yaml(v@) is None,
        },
    decreases v,
{
    match v {
        YamlValue::Null => Some(JsonValue::Null),
        YamlValue::Bool(b) => Some(JsonValue::Bool(*b)),
        YamlValue::Number(n) => Some(JsonValue::Number(n.clone())),
        YamlValue::String(s) => Some(JsonValue::String(s.clone())),
        YamlValue::Sequence(items) => {
            let ghost sv = yaml_seq_view(items@);
            proof {
                lemma_yaml_seq_view(items@);
            }
            let mut out: Vec<JsonValue> = Vec::new();
            let mut i: usize = 0;
            while i < items.len()
                invariant
                    *v == YamlValue::Sequence(*items),
                    sv == yaml_seq_view(items@),
                    sv.len() == items@.len(),
                    forall|j: int| 0 <= j < items@.len() ==> #[trigger] sv[j] == items@[j]@,
                    i <= items.len(),
                    json_of_yaml_items(sv.subrange(0, i as int)) == Some(json_seq_view(out@)),
                decreases items.len() - i,
            {
                proof {
                    assert(decreases_to!(v => v->Sequence_0));
                    assert(decreases_to!(v->Sequence_0 => v->Sequence_0@));
                    assert(sv.subrange(0, i + 1).drop_last() =~= sv.subrange(0, i as int));
                    assert(sv.subrange(0, i + 1).last() == sv[i as int]);
                }
                match yaml_to_json(&items[i]) {
                    Some(j) => {
                        let ghost before = out@;
                        out.push(j);
                        proof {
                            assert(out@.drop_last() =~= before);
                        }
                    },
                    None => {
                        proof {
                            lemma_items_none(sv, i + 1);
                        }
                        return None;
                    },
                }
                i = i + 1;
            }
            assert(sv.subrange(0, i as int) =~= sv);
            Some(JsonValue::Array(out))
        },
        YamlValue::Mapping(entries) => {
            let ghost ev = yaml_entries_view(entries@);
            proof {
                lemma_yaml_entries_view(entries@);
            }
            let mut out: Vec<(String, JsonValue)> = Vec::new();
            let mut i: usize = 0;
            while i < entries.len()
                invariant
                    *v == YamlValue::Mapping(*entries),
                    ev == yaml_entries_view(entries@),
                    ev.len() == entries@.len(),
                    forall|j: int| 0 <= j < entries@.len() ==> #[trigger] ev[j] == (entries@[j].0@, entries@[j].1@),
                    i <= entries.len(),
                    json_of_yaml_entries(ev.subrange(0, i as int)) == Some(json_entries_view(out@)),
                decreases entries.len() - i,
            {
                proof {
                    assert(decreases_to!(v => v->Mapping_0));
                    assert(decreases_to!(v->Mapping_0 => v->Mapping_0@));
                    assert(decreases_to!(v->Mapping_0@ => v->Mapping_0@[i as int]));
                    assert(ev.subrange(0, i + 1).drop_last() =~= ev.subrange(0, i as int));
                    assert(ev.subrange(0, i + 1).last() == ev[i as int]);
                }
                match &entries[i].0 {
                    YamlValue::String(k) => {
                        match yaml_to_json(&entries[i].1) {
                            Some(j) => {
                                let ghost before = out@;
                                out.push((k.clone(), j));
                                proof {
                                    assert(out@.drop_last() =~= before);
                                }
                            },
                            None => {
                                proof {
                                    lemma_entries_none(ev, i + 1);
                                }
                                return None;
                            },
                        }
                    },
                    _ => {
                        proof {
                            lemma_entries_none(ev, i + 1);
                        }
                        return None;
                    },
                }
                i = i + 1;
            }
            assert(ev.subrange(0, i as int) =~= ev);
            Some(JsonValue::Object(out))
        },
        YamlValue::Tagged(_, _) => None,
    }
}


#[verifier::external_type_specification]
#[verifier::external_body]
pub struct ExParsedYaml(serde_yaml::Value);

/// The YAML document that `serde_yaml` parses a text into, when it parses it.
pub uninterp spec fn yaml_document(text: Seq<char>) -> Option<YamlView>;

/// Parses YAML text with `serde_yaml::from_str::<serde_yaml::Value>` and
/// converts the parsed value, variant for variant, into a `YamlValue`.
/// The contract claims only that whether the text parses, and the document it
/// parses into, depend on the text alone (the document is named
/// `yaml_document`); which texts parse, and into what, is not stated here. An
/// error carries the parser's message, of which nothing is stated.
#[verifier::external_body]
pub fn parse_yaml(text: &str) -> (r: Result<YamlValue, String>)
    ensures
        r is Ok <==> yaml_document(text@) is Some,
        r matches Ok(v) ==> yaml_document(text@) == Some(v@),
{
    match serde_yaml::from_str::<serde_yaml::Value>(text) {
        Ok(v) => Ok(yaml_from_parsed(&v)),
        Err(e) => Err(e.to_string()),
    }
}

/// The conversion that `parse_yaml` applies to what `serde_yaml` parsed:
/// numbers and tags by their `Display` text, the rest variant for variant.
/// Nothing is stated of it beyond what `parse_yaml` states.
#[verifier::external_body]
fn yaml_from_parsed(v: &serde_yaml::Value) -> YamlValue {
    match v {
        serde_yaml::Value::Null => YamlValue::Null,
        serde_yaml::Value::Bool(b) => YamlValue::Bool(*b),
        serde_yaml::Value::Number(n) => YamlValue::Number(n.to_string()),
        serde_yaml::Value::String(s) => YamlValue::String(s.clone()),
        serde_yaml::Value::Sequence(items) => YamlValue::Sequence(items.iter().map(yaml_from_parsed).collect()),
        serde_yaml::Value::Mapping(m) => YamlValue::Mapping(
            m.iter().map(|(k, x)| (yaml_from_parsed(k), yaml_from_parsed(x))).collect(),
        ),
        serde_yaml::Value::Tagged(t) => YamlValue::Tagged(t.tag.to_string(), Box::new(yaml_from_parsed(&t.value))),
    }
}


/// The YAML text that `serde_yaml` writes for a JSON document.
pub uninterp spec fn yaml_text(v: JsonView) -> Seq<char>;

/// Writes a JSON document as YAML text with `serde_yaml::to_string`, after
/// converting it variant for variant into a `serde_yaml::Value` (a number by
/// parsing its text as a YAML number, kept as a string where that fails).
/// The contract claims that writing succeeds (the value handed to the writer
/// holds no tag, no bytes and no enum, the only values on which
/// `serde_yaml`'s serializer fails) and that the text depends on the
/// document alone (it is named `yaml_text`); its form is not stated here.
#[verifier::external_body]
pub fn write_yaml(v: &JsonValue) -> (r: Result<String, String>)
    ensures
        r is Ok,
        r matches Ok(t) ==> t@ == yaml_text(v@),
{
    match serde_yaml::to_string(&parsed_from_json(v)) {
        Ok(t) => Ok(t),
        Err(e) => Err(e.to_string()),
    }
}

/// The conversion that `write_yaml` applies before writing. Nothing is
/// stated of it beyond what `write_yaml` states.
#[verifier::external_body]
fn parsed_from_json(v: &JsonValue) -> serde_yaml::Value {
    match v {
        JsonValue::Null => serde_yaml::Value::Null,
        JsonValue::Bool(b) => serde_yaml::Value::Bool(*b),
        JsonValue::Number(n) => match n.parse::<serde_yaml::Number>() {
            Ok(x) => serde_yaml::Value::Number(x),
            Err(_) => serde_yaml::Value::String(n.clone()),
        },
        JsonValue::String(s) => serde_yaml::Value::String(s.clone()),
        JsonValue::Array(items) => serde_yaml::Value::Sequence(items.iter().map(parsed_from_json).collect()),
        JsonValue::Object(e) => serde_yaml::Value::Mapping(
            e.iter().map(|(k, x)| (serde_yaml::Value::String(k.clone()), parsed_from_json(x))).collect(),
        ),
    }
}

} // verus!

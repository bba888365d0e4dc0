//! Configuration values: static values, `${NAME}` / `${NAME:-default}`
//! environment references and structured secret or environment references,
//! and how a textual value is read from JSON.

use vstd::prelude::*;
use crate::json::{JsonValue, JsonView, lemma_json_entries_view, obj_get, obj_lookup};
use crate::models::{ConfigValue, DecodeError, DecodeErrorView, Field};
use crate::text::str_eq;

verus! {

/// The mathematical form of a configuration value.
pub enum ConfigValueView<A> {
    Secret { name: Seq<char> },
    EnvironmentVariable { name: Seq<char>, default: Option<Seq<char>> },
    Static(A),
}

/// The view of an optional string.
pub open spec fn opt_chars(o: Option<String>) -> Option<Seq<char>> {
    match o {
        Some(s) => Some(s@),
        None => None,
    }
}

impl<T: View> View for ConfigValue<T> {
    type V = ConfigValueView<T::V>;

    open spec fn view(&self) -> ConfigValueView<T::V> {
        match *self {
            ConfigValue::Secret { name } => ConfigValueView::Secret { name: name@ },
            ConfigValue::EnvironmentVariable { name, default } => ConfigValueView::EnvironmentVariable {
                name: name@,
                default: opt_chars(default),
            },
            ConfigValue::Static(v) => ConfigValueView::Static(v@),
        }
    }
}

/// `:-` begins at position `p` of `t`.
pub open spec fn sep_at(t: Seq<char>, p: int) -> bool {
    0 <= p && p + 1 < t.len() && t[p] == ':' && t[p + 1] == '-'
}

/// The first position at which `:-` begins, if any.
#[verifier::opaque]
pub open spec fn first_sep(t: Seq<char>) -> Option<int> {
    if exists|p: int| sep_at(t, p) {
        Some(choose|p: int| sep_at(t, p) && forall|q: int| 0 <= q < p ==> !sep_at(t, q))
    } else {
        None
    }
}

/// The environment reference named by the text between `${` and `}`: split
/// at the first `:-` into a name and a default, or a name alone.
pub open spec fn env_reference_spec(inner: Seq<char>) -> ConfigValueView<Seq<char>> {
    match first_sep(inner) {
        Some(p) => ConfigValueView::EnvironmentVariable {
            name: inner.subrange(0, p),
            default: Some(inner.subrange(p + 2, inner.len() as int)),
        },
        None => ConfigValueView::EnvironmentVariable { name: inner, default: None },
    }
}

/// A string of the form `${NAME}` or `${NAME:-default}` names an environment
/// variable (split at the first `:-`); other strings name none.
pub open spec fn posix_reference(s: Seq<char>) -> Option<ConfigValueView<Seq<char>>> {
    if s.len() >= 3 && s[0] == '$' && s[1] == '{' && s.last() == '}' {
        Some(env_reference_spec(s.subrange(2, s.len() - 1)))
    } else {
        None
    }
}

/// How a textual configuration value is read from JSON: a map with a string
/// `kind` of `Secret` or `EnvironmentVariable` is a structured reference
/// (`name` required, `default` taken when it is a string); a string is an
/// environment reference when it has the `${..}` form and a static value
/// otherwise; anything else is refused as a value of the wrong type for `f`.
pub open spec fn config_string_from_json(v: JsonView, f: Field) -> Result<ConfigValueView<Seq<char>>, DecodeErrorView> {
    match v {
        JsonView::Object(m) => match obj_get(m, "kind"@) {
            Some(JsonView::String(kind)) => if kind == "Secret"@ {
                match obj_get(m, "name"@) {
                    Some(JsonView::String(n)) => Ok(ConfigValueView::Secret { name: n }),
                    _ => Err(DecodeErrorView::MissingField(Field::Name)),
                }
            } else if kind == "EnvironmentVariable"@ {
                match obj_get(m, "name"@) {
                    Some(JsonView::String(n)) => Ok(
                        ConfigValueView::EnvironmentVariable {
                            name: n,
                            default: match obj_get(m, "default"@) {
                                Some(JsonView::String(d)) => Some(d),
                                _ => None,
                            },
                        },
                    ),
                    _ => Err(DecodeErrorView::MissingField(Field::Name)),
                }
            } else {
                Err(DecodeErrorView::UnknownValueKind(kind))
            },
            _ => Err(DecodeErrorView::InvalidType(f)),
        },
        JsonView::String(s) => match posix_reference(s) {
            Some(r) => Ok(r),
            None => Ok(ConfigValueView::Static(s)),
        },
        _ => Err(DecodeErrorView::InvalidType(f)),
    }
}

/// The view of a reading result.
pub open spec fn cv_result_view(r: Result<ConfigValue<String>, DecodeError>) -> Result<
    ConfigValueView<Seq<char>>,
    DecodeErrorView,
> {
    match r {
        Ok(c) => Ok(c@),
        Err(e) => Err(e@),
    }
}

/// `drasi_plugin_sdk::ConfigValue<String>` read from a JSON string with
/// `serde_json::from_value`, converted variant for variant. The SDK reads a
/// string of the form `${NAME}` or `${NAME:-default}` (split at the first
/// `:-`) as an environment reference and any other string as a static value;
/// the contract restates that rule. Reading a string cannot fail: the SDK's
/// reader tries the reference form and otherwise reads the string as a
/// static `String`.
#[verifier::external_body]
fn sdk_string_value(s: &str) -> (r: ConfigValue<String>)
    ensures
        r@ == match posix_reference(s@) {
            Some(c) => c,
            None => ConfigValueView::Static(s@),
        },
{
    match serde_json::from_value::<drasi_plugin_sdk::ConfigValue<String>>(serde_json::Value::String(s.to_string()))
        .expect("a JSON string always reads as a configuration value")
    {
        drasi_plugin_sdk::ConfigValue::Secret { name } => ConfigValue::Secret { name },
        drasi_plugin_sdk::ConfigValue::EnvironmentVariable { name, default } => ConfigValue::EnvironmentVariable {
            name,
            default,
        },
        drasi_plugin_sdk::ConfigValue::Static(v) => ConfigValue::Static(v),
    }
}

/// The environment reference a `${..}` string makes, if it has that form.
pub fn parse_posix_reference(s: &str) -> (r: Option<ConfigValue<String>>)
    ensures
        match r {
            Some(c) => posix_reference(s@) == Some(c@),
            None => posix_reference(s@) is None,
        },
{
    match sdk_string_value(s) {
        ConfigValue::Static(_) => None,
        c => Some(c),
    }
}

/// Reads a textual configuration value from JSON; `f` names the field that
/// holds it, for the error on a value of the wrong type.
pub fn read_config_string(v: &JsonValue, f: Field) -> (r: Result<ConfigValue<String>, DecodeError>)
    ensures
        cv_result_view(r) == config_string_from_json(v@, f),
{
    match v {
        JsonValue::Object(m) => {
            proof {
                lemma_json_entries_view(m@);
            }
            match obj_lookup(m, "kind") {
                Some(JsonValue::String(kind)) => {
                    if str_eq(kind.as_str(), "Secret") {
                        match obj_lookup(m, "name") {
                            Some(JsonValue::String(n)) => Ok(ConfigValue::Secret { name: n }),
                            _ => Err(DecodeError::MissingField(Field::Name)),
                        }
                    } else if str_eq(kind.as_str(), "EnvironmentVariable") {
                        match obj_lookup(m, "name") {
                            Some(JsonValue::String(n)) => {
                                let default = match obj_lookup(m, "default") {
                                    Some(JsonValue::String(d)) => Some(d),
                                    _ => None,
                                };
                                Ok(ConfigValue::EnvironmentVariable { name: n, default })
                            },
                            _ => Err(DecodeError::MissingField(Field::Name)),
                        }
                    } else {
                        Err(DecodeError::UnknownValueKind(kind))
                    }
                },
                _ => Err(DecodeError::InvalidType(f)),
            }
        },
        JsonValue::String(s) => match parse_posix_reference(s.as_str()) {
            Some(r) => Ok(r),
            None => Ok(ConfigValue::Static(s.clone())),
        },
        _ => Err(DecodeError::InvalidType(f)),
    }
}

} // verus!

//! Resolving configuration values against a snapshot of the environment.

use vstd::prelude::*;
use crate::config_value::{ConfigValueView, opt_chars};
use crate::models::ConfigValue;
use crate::text::{chars_of, owned, str_eq};

verus! {

/// A snapshot of the process environment: variable names with their values.
pub struct Env {
    vars: Vec<(String, String)>,
}

impl View for Env {
    type V = Seq<(Seq<char>, Seq<char>)>;

    closed spec fn view(&self) -> Seq<(Seq<char>, Seq<char>)> {
        self.vars@.map_values(|p: (String, String)| (p.0@, p.1@))
    }
}

/// The value of the first variable named `name`.
pub open spec fn env_lookup(e: Seq<(Seq<char>, Seq<char>)>, name: Seq<char>) -> Option<Seq<char>>
    decreases e.len(),
{
    if e.len() == 0 {
        None
    } else if e[0].0 == name {
        Some(e[0].1)
    } else {
        env_lookup(e.drop_first(), name)
    }
}

impl Env {
    /// An environment holding the given variables.
    pub fn new(vars: Vec<(String, String)>) -> (r: Env)
        ensures
            r@ == vars@.map_values(|p: (String, String)| (p.0@, p.1@)),
    {
        Env { vars }
    }

    /// The value of the variable `name`, if it is set.
    pub fn lookup(&self, name: &str) -> (r: Option<String>)
        ensures
            opt_chars(r) == env_lookup(self@, name@),
    {
        let ghost e = self@;
        assert(e.subrange(0, e.len() as int) =~= e);
        let mut i: usize = 0;
        while i < self.vars.len()
            invariant
                e == self@,
                e.len() == self.vars@.len(),
                i <= self.vars.len(),
                env_lookup(e, name@) == env_lookup(e.subrange(i as int, e.len() as int), name@),
            decreases self.vars.len() - i,
        {
            let ghost rest = e.subrange(i as int, e.len() as int);
            assert(rest[0] == (self.vars@[i as int].0@, self.vars@[i as int].1@));
            assert(rest.drop_first() =~= e.subrange(i + 1, e.len() as int));
            if str_eq(self.vars[i].0.as_str(), name) {
                return Some(self.vars[i].1.clone());
            }
            i = i + 1;
        }
        assert(e.subrange(i as int, e.len() as int) =~= Seq::<(Seq<char>, Seq<char>)>::empty());
        None
    }
}

/// Why a configuration value could not be resolved.
#[derive(Debug, PartialEq, Eq)]
pub enum ResolveError {
    /// The variable is not set and the reference has no default.
    EnvVarNotFound(String),
    /// Secret references cannot be resolved: no secret resolver is registered.
    SecretNotSupported(String),
    /// The resolved text is not a number of the required range.
    ParseError(String),
}

/// The mathematical form of a resolution error.
pub enum ResolveErrorView {
    EnvVarNotFound(Seq<char>),
    SecretNotSupported(Seq<char>),
    ParseError(Seq<char>),
}

impl View for ResolveError {
    type V = ResolveErrorView;

    open spec fn view(&self) -> ResolveErrorView {
        match *self {
            ResolveError::EnvVarNotFound(n) => ResolveErrorView::EnvVarNotFound(n@),
            ResolveError::SecretNotSupported(n) => ResolveErrorView::SecretNotSupported(n@),
            ResolveError::ParseError(t) => ResolveErrorView::ParseError(t@),
        }
    }
}

/// The message a resolution error reads as: the wording of the plugin
/// SDK's resolver errors, the text that failed to parse quoted.
pub open spec fn resolve_message(e: ResolveErrorView) -> Seq<char> {
    match e {
        ResolveErrorView::EnvVarNotFound(n) => "Environment variable '"@ + n
            + "' not found and no default provided"@,
        ResolveErrorView::SecretNotSupported(n) => "Not implemented: Secret resolution not yet implemented for '"@
            + n + "'"@,
        ResolveErrorView::ParseError(t) => "Failed to parse value: '"@ + t + "'"@,
    }
}

impl ResolveError {
    /// The message this error reads as (see `resolve_message`).
    pub fn message(&self) -> (r: String)
        ensures
            r@ == resolve_message(self@),
    {
        match self {
            ResolveError::EnvVarNotFound(n) => owned("Environment variable '").concat(n.as_str()).concat(
                "' not found and no default provided",
            ),
            ResolveError::SecretNotSupported(n) => owned(
                "Not implemented: Secret resolution not yet implemented for '",
            ).concat(n.as_str()).concat("'"),
            ResolveError::ParseError(t) => owned("Failed to parse value: '").concat(t.as_str()).concat("'"),
        }
    }
}

/// The text a reference stands for: the variable's value, else the default.
pub open spec fn reference_text<A>(c: ConfigValueView<A>, e: Seq<(Seq<char>, Seq<char>)>) -> Result<
    Seq<char>,
    ResolveErrorView,
> {
    match c {
        ConfigValueView::Secret { name } => Err(ResolveErrorView::SecretNotSupported(name)),
        ConfigValueView::EnvironmentVariable { name, default } => match env_lookup(e, name) {
            Some(v) => Ok(v),
            None => match default {
                Some(d) => Ok(d),
                None => Err(ResolveErrorView::EnvVarNotFound(name)),
            },
        },
        ConfigValueView::Static(_) => Err(ResolveErrorView::ParseError(Seq::empty())),
    }
}

/// A textual value resolved: static text as it is, references through the
/// environment.
pub open spec fn resolve_string_spec(c: ConfigValueView<Seq<char>>, e: Seq<(Seq<char>, Seq<char>)>) -> Result<
    Seq<char>,
    ResolveErrorView,
> {
    match c {
        ConfigValueView::Static(s) => Ok(s),
        _ => reference_text(c, e),
    }
}

/// A decimal digit.
pub open spec fn is_digit(c: char) -> bool {
    '0' <= c <= '9'
}

/// The number a string of decimal digits denotes.
pub open spec fn digits_value(d: Seq<char>) -> nat
    decreases d.len(),
{
    if d.len() == 0 {
        0
    } else {
        digits_value(d.drop_last()) * 10 + (d.last() as nat - '0' as nat) as nat
    }
}

/// The number a decimal numeral denotes: an optional `+`, then one or more
/// digits.
pub open spec fn decimal_value(s: Seq<char>) -> Option<nat> {
    digits_number(numeral_digits(s))
}

/// The digits of a numeral: the text after an optional leading `+`.
pub open spec fn numeral_digits(s: Seq<char>) -> Seq<char> {
    if s.len() > 0 && s[0] == '+' {
        s.drop_first()
    } else {
        s
    }
}

/// The number a non-empty string of decimal digits denotes.
pub open spec fn digits_number(d: Seq<char>) -> Option<nat> {
    if d.len() > 0 && forall|i: int| 0 <= i < d.len() ==> is_digit(#[trigger] d[i]) {
        Some(digits_value(d))
    } else {
        None
    }
}

/// The number `s` denotes, if it is a numeral of at most `max`.
pub open spec fn number_at_most(s: Seq<char>, max: nat) -> Option<nat> {
    match decimal_value(s) {
        Some(n) => if n <= max { Some(n) } else { None },
        None => None,
    }
}

/// Appending digits never makes a number smaller.
proof fn lemma_digits_prefix(d: Seq<char>, k: int)
    requires
        0 <= k <= d.len(),
        forall|i: int| 0 <= i < d.len() ==> is_digit(#[trigger] d[i]),
    ensures
        digits_value(d.subrange(0, k)) <= digits_value(d),
    decreases d.len() - k,
{
    if k < d.len() {
        let t = d.subrange(0, k + 1);
        assert(t.drop_last() =~= d.subrange(0, k));
        assert(is_digit(d[k]));
        lemma_digits_prefix(d, k + 1);
    } else {
        assert(d.subrange(0, k) =~= d);
    }
}

/// The number `s` denotes, if it is a decimal numeral of at most `max`.
pub fn parse_number(s: &str, max: u64) -> (r: Option<u64>)
    ensures
        match r {
            Some(n) => number_at_most(s@, max as nat) == Some(n as nat),
            None => number_at_most(s@, max as nat) is None,
        },
{
    let t = chars_of(s);
    let start: usize = if t.len() > 0 && t[0] == '+' { 1 } else { 0 };
    let ghost d = numeral_digits(s@);
    assert(d =~= t@.subrange(start as int, t@.len() as int));
    if start >= t.len() {
        assert(d.len() == 0);
        return None;
    }
    let mut acc: u64 = 0;
    let mut i: usize = start;
    while i < t.len()
        invariant
            start <= i <= t.len(),
            t@ == s@,
            d == numeral_digits(s@),
            d =~= t@.subrange(start as int, t@.len() as int),
            forall|j: int| 0 <= j < i - start ==> is_digit(#[trigger] d[j]),
            acc as nat == digits_value(d.subrange(0, i - start)),
            acc <= max,
        decreases t.len() - i,
    {
        let c = t[i];
        assert(d[i - start] == c);
        if !('0' <= c && c <= '9') {
            assert(!is_digit(d[i - start]));
            assert(!(forall|j: int| 0 <= j < d.len() ==> is_digit(#[trigger] d[j])));
            assert(decimal_value(s@) is None);
            return None;
        }
        let dv: u64 = (c as u32 - '0' as u32) as u64;
        assert(d.subrange(0, i + 1 - start).drop_last() =~= d.subrange(0, i - start));
        assert(d.subrange(0, i + 1 - start).last() == c);
        if dv > max || acc > (max - dv) / 10 {
            proof {
                if dv <= max {
                    assert(acc * 10 + dv > max) by (nonlinear_arith)
                        requires
                            acc > (max - dv) / 10,
                            dv <= max,
                    ;
                }
                assert(digits_value(d.subrange(0, i + 1 - start)) == acc * 10 + dv);
                if forall|j: int| 0 <= j < d.len() ==> is_digit(#[trigger] d[j]) {
                    lemma_digits_prefix(d, i + 1 - start);
                    assert(decimal_value(s@) == Some(digits_value(d)));
                } else {
                    assert(decimal_value(s@) is None);
                }
            }
            return None;
        }
        assert(acc * 10 + dv <= max) by (nonlinear_arith)
            requires
                acc <= (max - dv) / 10,
                dv <= max,
        ;
        acc = acc * 10 + dv;
        i = i + 1;
    }
    assert(d.subrange(0, i - start) =~= d);
    Some(acc)
}

/// The text a reference stands for, or why it has none.
fn resolve_reference<T: View>(c: &ConfigValue<T>, env: &Env) -> (r: Result<String, ResolveError>)
    requires
        !(c is Static),
    ensures
        match r {
            Ok(s) => reference_text(c@, env@) == Ok::<_, ResolveErrorView>(s@),
            Err(e) => reference_text(c@, env@) == Err::<Seq<char>, _>(e@),
        },
{
    match c {
        ConfigValue::Secret { name } => Err(ResolveError::SecretNotSupported(name.clone())),
        ConfigValue::EnvironmentVariable { name, default } => match env.lookup(name.as_str()) {
            Some(v) => Ok(v),
            None => match default {
                Some(d) => Ok(d.clone()),
                None => Err(ResolveError::EnvVarNotFound(name.clone())),
            },
        },
        ConfigValue::Static(_) => {
            assert(false);
            Err(ResolveError::ParseError(String::new()))
        },
    }
}

/// Resolve a textual configuration value.
pub fn resolve_string(c: &ConfigValue<String>, env: &Env) -> (r: Result<String, ResolveError>)
    ensures
        match r {
            Ok(s) => resolve_string_spec(c@, env@) == Ok::<_, ResolveErrorView>(s@),
            Err(e) => resolve_string_spec(c@, env@) == Err::<Seq<char>, _>(e@),
        },
{
    match c {
        ConfigValue::Static(s) => Ok(s.clone()),
        _ => resolve_reference(c, env),
    }
}

/// A numeric value resolved: a static number as it is; a reference's text
/// read as a decimal numeral of at most `max`.
pub open spec fn resolve_number_spec(c: ConfigValueView<usize>, e: Seq<(Seq<char>, Seq<char>)>, max: nat) -> Result<
    nat,
    ResolveErrorView,
> {
    match c {
        ConfigValueView::Static(v) => Ok(v as nat),
        _ => match reference_text(c, e) {
            Err(x) => Err(x),
            Ok(t) => match number_at_most(t, max) {
                Some(n) => Ok(n),
                None => Err(ResolveErrorView::ParseError(t)),
            },
        },
    }
}

/// A port value resolved: a static port as it is; a reference's text read as
/// a decimal numeral of at most 65535.
pub open spec fn resolve_port_spec(c: ConfigValueView<u16>, e: Seq<(Seq<char>, Seq<char>)>) -> Result<
    nat,
    ResolveErrorView,
> {
    match c {
        ConfigValueView::Static(v) => Ok(v as nat),
        _ => match reference_text(c, e) {
            Err(x) => Err(x),
            Ok(t) => match number_at_most(t, 65535) {
                Some(n) => Ok(n),
                None => Err(ResolveErrorView::ParseError(t)),
            },
        },
    }
}

/// Resolve a size or capacity.
pub fn resolve_usize(c: &ConfigValue<usize>, env: &Env) -> (r: Result<usize, ResolveError>)
    ensures
        match r {
            Ok(n) => resolve_number_spec(c@, env@, usize::MAX as nat) == Ok::<_, ResolveErrorView>(n as nat),
            Err(e) => resolve_number_spec(c@, env@, usize::MAX as nat) == Err::<nat, _>(e@),
        },
{
    match c {
        ConfigValue::Static(v) => Ok(*v),
        _ => match resolve_reference(c, env) {
            Err(e) => Err(e),
            Ok(t) => match parse_number(t.as_str(), usize::MAX as u64) {
                Some(n) => Ok(n as usize),
                None => Err(ResolveError::ParseError(t)),
            },
        },
    }
}

/// Resolve a port.
pub fn resolve_port(c: &ConfigValue<u16>, env: &Env) -> (r: Result<u16, ResolveError>)
    ensures
        match r {
            Ok(n) => resolve_port_spec(c@, env@) == Ok::<_, ResolveErrorView>(n as nat),
            Err(e) => resolve_port_spec(c@, env@) == Err::<nat, _>(e@),
        },
{
    match c {
        ConfigValue::Static(v) => Ok(*v),
        _ => match resolve_reference(c, env) {
            Err(e) => Err(e),
            Ok(t) => match parse_number(t.as_str(), 65535) {
                Some(n) => Ok(n as u16),
                None => Err(ResolveError::ParseError(t)),
            },
        },
    }
}

} // verus!

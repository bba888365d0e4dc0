//! Validation of the Handlebars templates that reactions carry in a
//! configuration document.

use vstd::prelude::*;
use crate::config_value::opt_chars;
use crate::reaction::strings_view;
use crate::text::{owned, str_eq};
use crate::yaml::{
    YamlValue, YamlView, as_mapping, as_sequence, as_str, lemma_yaml_entries_view, lemma_yaml_seq_view, map_get,
    mapping_get, yaml_entries_view, yaml_seq_view,
};

verus! {

/// What `Handlebars::register_template_string` reports for a template: the
/// text of its error, or nothing when the template parses and compiles.
pub uninterp spec fn template_error(template: Seq<char>) -> Option<Seq<char>>;

/// Compiles `template` with `handlebars::Handlebars::register_template_string`
/// in a fresh registry and returns the text of the error it reports, if any.
/// The contract names that outcome (`template_error`); it is a function of
/// the template alone.
#[verifier::external_body]
fn check_template(template: &str) -> (r: Option<String>)
    ensures
        opt_chars(r) == template_error(template@),
{
    let mut hb = handlebars::Handlebars::new();
    match hb.register_template_string("_validation_", template) {
        Ok(()) => None,
        Err(e) => Some(e.to_string()),
    }
}

/// The message for a template, in context, that does not compile.
pub open spec fn template_messages(t: Seq<char>, ctx: Seq<char>) -> Seq<Seq<char>> {
    match template_error(t) {
        Some(e) => seq![ctx + ": invalid Handlebars template - "@ + e],
        None => Seq::empty(),
    }
}

/// The messages for the string under `key` of a mapping, read as a template.
pub open spec fn str_field_messages(m: Seq<(YamlView, YamlView)>, key: Seq<char>, ctx: Seq<char>) -> Seq<Seq<char>> {
    match map_get(m, key) {
        Some(v) => match as_str(v) {
            Some(t) => template_messages(t, ctx),
            None => Seq::empty(),
        },
        None => Seq::empty(),
    }
}

/// The messages for one call spec (`added`, `updated` or `deleted`) of an
/// HTTP route: its `body` and `url` are templates.
pub open spec fn http_call_messages(route: Seq<(YamlView, YamlView)>, field: Seq<char>, ctx: Seq<char>) -> Seq<Seq<char>> {
    match map_get(route, field) {
        Some(spec) => match as_mapping(spec) {
            Some(sm) => {
                let fctx = ctx + "."@ + field;
                str_field_messages(sm, "body"@, fctx + ".body"@) + str_field_messages(sm, "url"@, fctx + ".url"@)
            },
            None => Seq::empty(),
        },
        None => Seq::empty(),
    }
}

/// The name of a route: its key's text, or `unknown`.
pub open spec fn route_name(key: YamlView) -> Seq<char> {
    match as_str(key) {
        Some(s) => s,
        None => "unknown"@,
    }
}

/// The messages for the first `n` routes of an HTTP reaction.
pub open spec fn http_routes_messages(routes: Seq<(YamlView, YamlView)>, parent: Seq<char>, n: int) -> Seq<Seq<char>>
    decreases n,
{
    if n <= 0 || n > routes.len() {
        Seq::empty()
    } else {
        let ctx = parent + " routes."@ + route_name(routes[n - 1].0);
        http_routes_messages(routes, parent, n - 1) + match as_mapping(routes[n - 1].1) {
            Some(rm) => http_call_messages(rm, "added"@, ctx) + http_call_messages(rm, "updated"@, ctx)
                + http_call_messages(rm, "deleted"@, ctx),
            None => Seq::empty(),
        }
    }
}

/// The messages for one template spec (`added`, `updated` or `deleted`):
/// its `template` is a template.
pub open spec fn template_spec_messages(m: Seq<(YamlView, YamlView)>, field: Seq<char>, ctx: Seq<char>) -> Seq<Seq<char>> {
    match map_get(m, field) {
        Some(spec) => match as_mapping(spec) {
            Some(sm) => str_field_messages(sm, "template"@, ctx + "."@ + field + ".template"@),
            None => Seq::empty(),
        },
        None => Seq::empty(),
    }
}

/// The messages for a template configuration (a route or a default).
pub open spec fn template_config_messages(m: Seq<(YamlView, YamlView)>, ctx: Seq<char>) -> Seq<Seq<char>> {
    template_spec_messages(m, "added"@, ctx) + template_spec_messages(m, "updated"@, ctx) + template_spec_messages(
        m,
        "deleted"@,
        ctx,
    )
}

/// The messages for the first `n` routes of a log or SSE reaction.
pub open spec fn template_routes_messages(routes: Seq<(YamlView, YamlView)>, parent: Seq<char>, n: int) -> Seq<Seq<char>>
    decreases n,
{
    if n <= 0 || n > routes.len() {
        Seq::empty()
    } else {
        let ctx = parent + " routes."@ + route_name(routes[n - 1].0);
        template_routes_messages(routes, parent, n - 1) + match as_mapping(routes[n - 1].1) {
            Some(rm) => template_config_messages(rm, ctx),
            None => Seq::empty(),
        }
    }
}

/// The decimal digit of `d` (below ten).
pub open spec fn digit_char(d: nat) -> char {
    ('0' as u32 + d) as char
}

/// The decimal numeral of `n`.
pub open spec fn decimal_text(n: nat) -> Seq<char>
    decreases n,
{
    if n < 10 {
        seq![digit_char(n)]
    } else {
        decimal_text(n / 10).push(digit_char(n % 10))
    }
}

/// The text of the string under `key`, or `unknown`.
pub open spec fn str_or_unknown(m: Seq<(YamlView, YamlView)>, key: Seq<char>) -> Seq<char> {
    match map_get(m, key) {
        Some(v) => match as_str(v) {
            Some(s) => s,
            None => "unknown"@,
        },
        None => "unknown"@,
    }
}

/// How a reaction is named in messages.
pub open spec fn reaction_context(i: nat, kind: Seq<char>, id: Seq<char>) -> Seq<char> {
    "reaction["@ + decimal_text(i) + "] (kind="@ + kind + ", id="@ + id + ")"@
}

/// The messages for the reaction at position `i`: the routes of an `http` or
/// `http-adaptive` reaction, the routes and default template of a `log` or
/// `sse` reaction.
pub open spec fn reaction_messages(r: YamlView, i: nat) -> Seq<Seq<char>> {
    match as_mapping(r) {
        None => Seq::empty(),
        Some(m) => {
            let kind = str_or_unknown(m, "kind"@);
            let ctx = reaction_context(i, kind, str_or_unknown(m, "id"@));
            let routes = match map_get(m, "routes"@) {
                Some(v) => as_mapping(v),
                None => None,
            };
            (if kind == "http"@ || kind == "http-adaptive"@ {
                match routes {
                    Some(rs) => http_routes_messages(rs, ctx, rs.len() as int),
                    None => Seq::empty(),
                }
            } else {
                Seq::empty()
            }) + (if kind == "log"@ || kind == "sse"@ {
                (match routes {
                    Some(rs) => template_routes_messages(rs, ctx, rs.len() as int),
                    None => Seq::empty(),
                }) + match map_get(m, "defaultTemplate"@) {
                    Some(dt) => match as_mapping(dt) {
                        Some(dm) => template_config_messages(dm, ctx + " defaultTemplate"@),
                        None => Seq::empty(),
                    },
                    None => Seq::empty(),
                }
            } else {
                Seq::empty()
            })
        },
    }
}

/// The messages for the first `n` reactions of a list.
pub open spec fn reactions_messages(items: Seq<YamlView>, n: int) -> Seq<Seq<char>>
    decreases n,
{
    if n <= 0 || n > items.len() {
        Seq::empty()
    } else {
        reactions_messages(items, n - 1) + reaction_messages(items[n - 1], (n - 1) as nat)
    }
}

/// The messages for a `reactions` value.
pub open spec fn reactions_value_messages(v: YamlView) -> Seq<Seq<char>> {
    match as_sequence(v) {
        Some(items) => reactions_messages(items, items.len() as int),
        None => Seq::empty(),
    }
}

/// The messages for the first `n` instances of a list: each one's reactions.
pub open spec fn instances_messages(items: Seq<YamlView>, n: int) -> Seq<Seq<char>>
    decreases n,
{
    if n <= 0 || n > items.len() {
        Seq::empty()
    } else {
        instances_messages(items, n - 1) + match as_mapping(items[n - 1]) {
            Some(m) => match map_get(m, "reactions"@) {
                Some(r) => reactions_value_messages(r),
                None => Seq::empty(),
            },
            None => Seq::empty(),
        }
    }
}

/// Every template problem of a configuration document, in document order:
/// its top-level reactions, then the reactions of its instances.
pub open spec fn config_messages(v: YamlView) -> Seq<Seq<char>> {
    match as_mapping(v) {
        Some(m) => (match map_get(m, "reactions"@) {
            Some(r) => reactions_value_messages(r),
            None => Seq::empty(),
        }) + match map_get(m, "instances"@) {
            Some(x) => match as_sequence(x) {
                Some(items) => instances_messages(items, items.len() as int),
                None => Seq::empty(),
            },
            None => Seq::empty(),
        },
        None => Seq::empty(),
    }
}

/// Validation error for configuration.
#[derive(Debug)]
pub enum ValidationError {
    /// One template does not compile.
    TemplateSyntax(String),
    /// Several templates do not compile.
    Multiple(Vec<String>),
}

/// The mathematical form of a validation error.
pub enum ValidationErrorView {
    TemplateSyntax(Seq<char>),
    Multiple(Seq<Seq<char>>),
}

impl View for ValidationError {
    type V = ValidationErrorView;

    open spec fn view(&self) -> ValidationErrorView {
        match *self {
            ValidationError::TemplateSyntax(m) => ValidationErrorView::TemplateSyntax(m@),
            ValidationError::Multiple(ms) => ValidationErrorView::Multiple(strings_view(ms@)),
        }
    }
}

/// The outcome of validating a document: no problem, one, or several.
pub open spec fn validate_config_spec(v: YamlView) -> Result<(), ValidationErrorView> {
    let msgs = config_messages(v);
    if msgs.len() == 0 {
        Ok(())
    } else if msgs.len() == 1 {
        Err(ValidationErrorView::TemplateSyntax(msgs[0]))
    } else {
        Err(ValidationErrorView::Multiple(msgs))
    }
}

/// A context that names a reaction: it begins with `reaction[`.
pub open spec fn is_reaction_path(ctx: Seq<char>) -> bool {
    ctx.len() >= 9 && ctx.subrange(0, 9) == "reaction["@
}

/// The text of a template problem: where it is, then what handlebars said.
pub open spec fn problem_text(ctx: Seq<char>, err: Seq<char>) -> Seq<char> {
    ctx + ": invalid Handlebars template - "@ + err
}

/// A message that reports an invalid Handlebars template at a path within a
/// reaction.
pub open spec fn template_problem(m: Seq<char>) -> bool {
    exists|ctx: Seq<char>, err: Seq<char>| is_reaction_path(ctx) && #[trigger] problem_text(ctx, err) == m
}

/// Every message of `ms` reports a template problem.
pub open spec fn all_problems(ms: Seq<Seq<char>>) -> bool {
    forall|i: int| 0 <= i < ms.len() ==> template_problem(#[trigger] ms[i])
}

proof fn lemma_problems_concat(a: Seq<Seq<char>>, b: Seq<Seq<char>>)
    requires
        all_problems(a),
        all_problems(b),
    ensures
        all_problems(a + b),
{
    assert forall|i: int| 0 <= i < (a + b).len() implies template_problem(#[trigger] (a + b)[i]) by {
        if i < a.len() {
            assert((a + b)[i] == a[i]);
        } else {
            assert((a + b)[i] == b[i - a.len()]);
        }
    }
}

proof fn lemma_path_extends(ctx: Seq<char>, more: Seq<char>)
    requires
        is_reaction_path(ctx),
    ensures
        is_reaction_path(ctx + more),
{
    assert((ctx + more).subrange(0, 9) =~= ctx.subrange(0, 9));
}

proof fn lemma_field_problems(m: Seq<(YamlView, YamlView)>, key: Seq<char>, ctx: Seq<char>)
    requires
        is_reaction_path(ctx),
    ensures
        all_problems(str_field_messages(m, key, ctx)),
{
    if let Some(v) = map_get(m, key) {
        if let Some(t) = as_str(v) {
            if let Some(e) = template_error(t) {
                let msg = ctx + ": invalid Handlebars template - "@ + e;
                assert(problem_text(ctx, e) == msg);
                assert(template_problem(msg));
                assert(str_field_messages(m, key, ctx) == seq![msg]);
            }
        }
    }
}

proof fn lemma_call_problems(route: Seq<(YamlView, YamlView)>, field: Seq<char>, ctx: Seq<char>)
    requires
        is_reaction_path(ctx),
    ensures
        all_problems(http_call_messages(route, field, ctx)),
{
    if let Some(spec) = map_get(route, field) {
        if let Some(sm) = as_mapping(spec) {
            let fctx = ctx + "."@ + field;
            lemma_path_extends(ctx, "."@ + field);
            assert(ctx + ("."@ + field) =~= fctx);
            lemma_path_extends(fctx, ".body"@);
            lemma_path_extends(fctx, ".url"@);
            lemma_field_problems(sm, "body"@, fctx + ".body"@);
            lemma_field_problems(sm, "url"@, fctx + ".url"@);
            lemma_problems_concat(str_field_messages(sm, "body"@, fctx + ".body"@), str_field_messages(sm, "url"@, fctx + ".url"@));
        }
    }
}

proof fn lemma_http_routes_problems(routes: Seq<(YamlView, YamlView)>, parent: Seq<char>, n: int)
    requires
        is_reaction_path(parent),
    ensures
        all_problems(http_routes_messages(routes, parent, n)),
    decreases n,
{
    if n > 0 && n <= routes.len() {
        lemma_http_routes_problems(routes, parent, n - 1);
        let ctx = parent + " routes."@ + route_name(routes[n - 1].0);
        lemma_path_extends(parent, " routes."@ + route_name(routes[n - 1].0));
        assert(parent + (" routes."@ + route_name(routes[n - 1].0)) =~= ctx);
        if let Some(rm) = as_mapping(routes[n - 1].1) {
            lemma_call_problems(rm, "added"@, ctx);
            lemma_call_problems(rm, "updated"@, ctx);
            lemma_call_problems(rm, "deleted"@, ctx);
            lemma_problems_concat(http_call_messages(rm, "added"@, ctx), http_call_messages(rm, "updated"@, ctx));
            lemma_problems_concat(
                http_call_messages(rm, "added"@, ctx) + http_call_messages(rm, "updated"@, ctx),
                http_call_messages(rm, "deleted"@, ctx),
            );
            lemma_problems_concat(
                http_routes_messages(routes, parent, n - 1),
                http_call_messages(rm, "added"@, ctx) + http_call_messages(rm, "updated"@, ctx)
                    + http_call_messages(rm, "deleted"@, ctx),
            );
        } else {
            lemma_problems_concat(http_routes_messages(routes, parent, n - 1), Seq::empty());
        }
    }
}

proof fn lemma_spec_problems(m: Seq<(YamlView, YamlView)>, field: Seq<char>, ctx: Seq<char>)
    requires
        is_reaction_path(ctx),
    ensures
        all_problems(template_spec_messages(m, field, ctx)),
{
    if let Some(spec) = map_get(m, field) {
        if let Some(sm) = as_mapping(spec) {
            lemma_path_extends(ctx, "."@ + field + ".template"@);
            assert(ctx + ("."@ + field + ".template"@) =~= ctx + "."@ + field + ".template"@);
            lemma_field_problems(sm, "template"@, ctx + "."@ + field + ".template"@);
        }
    }
}

proof fn lemma_config_problems(m: Seq<(YamlView, YamlView)>, ctx: Seq<char>)
    requires
        is_reaction_path(ctx),
    ensures
        all_problems(template_config_messages(m, ctx)),
{
    lemma_spec_problems(m, "added"@, ctx);
    lemma_spec_problems(m, "updated"@, ctx);
    lemma_spec_problems(m, "deleted"@, ctx);
    lemma_problems_concat(template_spec_messages(m, "added"@, ctx), template_spec_messages(m, "updated"@, ctx));
    lemma_problems_concat(
        template_spec_messages(m, "added"@, ctx) + template_spec_messages(m, "updated"@, ctx),
        template_spec_messages(m, "deleted"@, ctx),
    );
}

proof fn lemma_template_routes_problems(routes: Seq<(YamlView, YamlView)>, parent: Seq<char>, n: int)
    requires
        is_reaction_path(parent),
    ensures
        all_problems(template_routes_messages(routes, parent, n)),
    decreases n,
{
    if n > 0 && n <= routes.len() {
        lemma_template_routes_problems(routes, parent, n - 1);
        let ctx = parent + " routes."@ + route_name(routes[n - 1].0);
        lemma_path_extends(parent, " routes."@ + route_name(routes[n - 1].0));
        assert(parent + (" routes."@ + route_name(routes[n - 1].0)) =~= ctx);
        if let Some(rm) = as_mapping(routes[n - 1].1) {
            lemma_config_problems(rm, ctx);
            lemma_problems_concat(template_routes_messages(routes, parent, n - 1), template_config_messages(rm, ctx));
        } else {
            lemma_problems_concat(template_routes_messages(routes, parent, n - 1), Seq::empty());
        }
    }
}

proof fn lemma_reaction_problems(r: YamlView, i: nat)
    ensures
        all_problems(reaction_messages(r, i)),
{
    if let Some(m) = as_mapping(r) {
        let kind = str_or_unknown(m, "kind"@);
        let ctx = reaction_context(i, kind, str_or_unknown(m, "id"@));
        reveal_strlit("reaction[");
        assert(ctx.subrange(0, 9) =~= "reaction["@);
        let routes = match map_get(m, "routes"@) {
            Some(v) => as_mapping(v),
            None => None,
        };
        let a = if kind == "http"@ || kind == "http-adaptive"@ {
            match routes {
                Some(rs) => http_routes_messages(rs, ctx, rs.len() as int),
                None => Seq::empty(),
            }
        } else {
            Seq::empty()
        };
        let b1 = match routes {
            Some(rs) => template_routes_messages(rs, ctx, rs.len() as int),
            None => Seq::empty(),
        };
        let b2 = match map_get(m, "defaultTemplate"@) {
            Some(dt) => match as_mapping(dt) {
                Some(dm) => template_config_messages(dm, ctx + " defaultTemplate"@),
                None => Seq::empty(),
            },
            None => Seq::empty(),
        };
        if let Some(rs) = routes {
            lemma_http_routes_problems(rs, ctx, rs.len() as int);
            lemma_template_routes_problems(rs, ctx, rs.len() as int);
        }
        lemma_path_extends(ctx, " defaultTemplate"@);
        if let Some(dt) = map_get(m, "defaultTemplate"@) {
            if let Some(dm) = as_mapping(dt) {
                lemma_config_problems(dm, ctx + " defaultTemplate"@);
            }
        }
        lemma_problems_concat(b1, b2);
        let b = if kind == "log"@ || kind == "sse"@ { b1 + b2 } else { Seq::empty() };
        lemma_problems_concat(a, b);
    }
}

proof fn lemma_reactions_problems(items: Seq<YamlView>, n: int)
    ensures
        all_problems(reactions_messages(items, n)),
    decreases n,
{
    if n > 0 && n <= items.len() {
        lemma_reactions_problems(items, n - 1);
        lemma_reaction_problems(items[n - 1], (n - 1) as nat);
        lemma_problems_concat(reactions_messages(items, n - 1), reaction_messages(items[n - 1], (n - 1) as nat));
    }
}

proof fn lemma_reactions_value_problems(v: YamlView)
    ensures
        all_problems(reactions_value_messages(v)),
{
    if let Some(items) = as_sequence(v) {
        lemma_reactions_problems(items, items.len() as int);
    }
}

proof fn lemma_instances_problems(items: Seq<YamlView>, n: int)
    ensures
        all_problems(instances_messages(items, n)),
    decreases n,
{
    if n > 0 && n <= items.len() {
        lemma_instances_problems(items, n - 1);
        let last = match as_mapping(items[n - 1]) {
            Some(m) => match map_get(m, "reactions"@) {
                Some(r) => reactions_value_messages(r),
                None => Seq::empty(),
            },
            None => Seq::empty(),
        };
        if let Some(m) = as_mapping(items[n - 1]) {
            if let Some(r) = map_get(m, "reactions"@) {
                lemma_reactions_value_problems(r);
            }
        }
        lemma_problems_concat(instances_messages(items, n - 1), last);
    }
}

/// Every problem that validation reports names a reaction and a path within
/// it (`reaction[i] (kind=.., id=..)`, then the route and field) and says
/// that the template there is an invalid Handlebars template, followed by
/// handlebars' own message.
pub proof fn law_template_messages(v: YamlView)
    ensures
        all_problems(config_messages(v)),
        forall|m: Seq<char>| validate_config_spec(v) == Err::<(), ValidationErrorView>(
            ValidationErrorView::TemplateSyntax(m),
        ) ==> template_problem(m),
{
    if let Some(m) = as_mapping(v) {
        let a = match map_get(m, "reactions"@) {
            Some(r) => reactions_value_messages(r),
            None => Seq::empty(),
        };
        let b = match map_get(m, "instances"@) {
            Some(x) => match as_sequence(x) {
                Some(items) => instances_messages(items, items.len() as int),
                None => Seq::empty(),
            },
            None => Seq::empty(),
        };
        if let Some(r) = map_get(m, "reactions"@) {
            lemma_reactions_value_problems(r);
        }
        if let Some(x) = map_get(m, "instances"@) {
            if let Some(items) = as_sequence(x) {
                lemma_instances_problems(items, items.len() as int);
            }
        }
        lemma_problems_concat(a, b);
    }
    let msgs = config_messages(v);
    if msgs.len() == 1 {
        assert(template_problem(msgs[0]));
    }
}

/// Every template problem is reported, each once: a document is valid
/// exactly when it has no problem; with one problem that problem's message is
/// the error; with several, all of them are reported together, in document
/// order. A document that is not a map, or has neither `reactions` nor
/// `instances`, has no problem.
pub proof fn law_validation_outcome(v: YamlView)
    ensures
        validate_config_spec(v) is Ok <==> config_messages(v).len() == 0,
        config_messages(v).len() == 1 <==> validate_config_spec(v) == Err::<(), ValidationErrorView>(
            ValidationErrorView::TemplateSyntax(config_messages(v)[0]),
        ),
        config_messages(v).len() >= 2 <==> validate_config_spec(v) == Err::<(), ValidationErrorView>(
            ValidationErrorView::Multiple(config_messages(v)),
        ),
        as_mapping(v) is None ==> validate_config_spec(v) is Ok,
        (as_mapping(v) matches Some(m) && map_get(m, "reactions"@) is None && map_get(m, "instances"@) is None)
            ==> validate_config_spec(v) is Ok,
{
    let msgs = config_messages(v);
    if msgs.len() >= 2 {
        assert(ValidationErrorView::Multiple(msgs) != ValidationErrorView::TemplateSyntax(msgs[0]));
    }
    if as_mapping(v) matches Some(m) && map_get(m, "reactions"@) is None && map_get(m, "instances"@) is None {
        assert(msgs =~= Seq::<Seq<char>>::empty());
    }
}

/// `a` followed by `b`.
fn join(a: &str, b: &str) -> (r: String)
    ensures
        r@ == a@ + b@,
{
    let mut s = owned(a);
    s.append(b);
    s
}

/// The decimal numeral of `n`.
pub fn decimal(n: u64) -> (r: String)
    ensures
        r@ == decimal_text(n as nat),
    decreases n,
{
    if n < 10 {
        let mut s = String::new();
        crate::text::push_char(&mut s, digit(n));
        assert(s@ =~= seq![digit_char(n as nat)]);
        s
    } else {
        let mut s = decimal(n / 10);
        crate::text::push_char(&mut s, digit(n % 10));
        s
    }
}

/// The digit character of `d`.
fn digit(d: u64) -> (c: char)
    requires
        d < 10,
    ensures
        c == digit_char(d as nat),
{
    if d == 0 {
        '0'
    } else if d == 1 {
        '1'
    } else if d == 2 {
        '2'
    } else if d == 3 {
        '3'
    } else if d == 4 {
        '4'
    } else if d == 5 {
        '5'
    } else if d == 6 {
        '6'
    } else if d == 7 {
        '7'
    } else if d == 8 {
        '8'
    } else {
        '9'
    }
}

/// Checks one template and records its message, if any.
fn validate_template_syntax(template: &str, context: &str, errors: &mut Vec<String>)
    ensures
        strings_view(final(errors)@) == strings_view(old(errors)@) + template_messages(template@, context@),
{
    match check_template(template) {
        Some(e) => {
            let msg = join(join(context, ": invalid Handlebars template - ").as_str(), e.as_str());
            errors.push(msg);
            assert(strings_view(errors@) =~= strings_view(old(errors)@) + template_messages(template@, context@));
        },
        None => {
            assert(strings_view(errors@) =~= strings_view(old(errors)@) + template_messages(template@, context@));
        },
    }
}

/// Checks the string under `key` of a mapping as a template.
fn validate_str_field(m: &Vec<(YamlValue, YamlValue)>, key: &str, context: &str, errors: &mut Vec<String>)
    ensures
        strings_view(final(errors)@) == strings_view(old(errors)@) + str_field_messages(
            yaml_entries_view(m@),
            key@,
            context@,
        ),
{
    match mapping_get(m, key) {
        Some(v) => match v.as_str() {
            Some(t) => validate_template_syntax(t, context, errors),
            None => {
                assert(strings_view(errors@) =~= strings_view(errors@) + Seq::<Seq<char>>::empty());
            },
        },
        None => {
            assert(strings_view(errors@) =~= strings_view(errors@) + Seq::<Seq<char>>::empty());
        },
    }
}

/// Checks one call spec of an HTTP route.
fn validate_http_call(route: &Vec<(YamlValue, YamlValue)>, field: &str, context: &str, errors: &mut Vec<String>)
    ensures
        strings_view(final(errors)@) == strings_view(old(errors)@) + http_call_messages(
            yaml_entries_view(route@),
            field@,
            context@,
        ),
{
    match mapping_get(route, field) {
        Some(spec) => match spec.as_mapping() {
            Some(sm) => {
                let fctx = join(join(context, ".").as_str(), field);
                let body_ctx = join(fctx.as_str(), ".body");
                let url_ctx = join(fctx.as_str(), ".url");
                let ghost before = strings_view(errors@);
                validate_str_field(sm, "body", body_ctx.as_str(), errors);
                validate_str_field(sm, "url", url_ctx.as_str(), errors);
                proof {
                    let a = str_field_messages(yaml_entries_view(sm@), "body"@, body_ctx@);
                    let b = str_field_messages(yaml_entries_view(sm@), "url"@, url_ctx@);
                    assert(before + a + b =~= before + (a + b));
                }
            },
            None => {
                assert(strings_view(errors@) =~= strings_view(errors@) + Seq::<Seq<char>>::empty());
            },
        },
        None => {
            assert(strings_view(errors@) =~= strings_view(errors@) + Seq::<Seq<char>>::empty());
        },
    }
}

/// The name of a route.
fn route_key_name(key: &YamlValue) -> (r: String)
    ensures
        r@ == route_name(key@),
{
    match key.as_str() {
        Some(s) => owned(s),
        None => owned("unknown"),
    }
}

/// Validate HTTP routes for template syntax only.
fn validate_http_routes_templates(routes: &Vec<(YamlValue, YamlValue)>, parent_context: &str, errors: &mut Vec<String>)
    ensures
        strings_view(final(errors)@) == strings_view(old(errors)@) + http_routes_messages(
            yaml_entries_view(routes@),
            parent_context@,
            routes@.len() as int,
        ),
{
    let ghost e = yaml_entries_view(routes@);
    let ghost start = strings_view(errors@);
    proof {
        lemma_yaml_entries_view(routes@);
        assert(start + http_routes_messages(e, parent_context@, 0) =~= start);
    }
    let mut i: usize = 0;
    while i < routes.len()
        invariant
            e == yaml_entries_view(routes@),
            e.len() == routes@.len(),
            forall|j: int| 0 <= j < routes@.len() ==> #[trigger] e[j] == (routes@[j].0@, routes@[j].1@),
            i <= routes.len(),
            strings_view(errors@) == start + http_routes_messages(e, parent_context@, i as int),
        decreases routes.len() - i,
    {
        let name = route_key_name(&routes[i].0);
        let context = join(join(parent_context, " routes.").as_str(), name.as_str());
        let ghost before = strings_view(errors@);
        assert(e[i as int] == (routes@[i as int].0@, routes@[i as int].1@));
        match routes[i].1.as_mapping() {
            Some(rm) => {
                validate_http_call(rm, "added", context.as_str(), errors);
                validate_http_call(rm, "updated", context.as_str(), errors);
                validate_http_call(rm, "deleted", context.as_str(), errors);
                proof {
                    let r = yaml_entries_view(rm@);
                    let a = http_call_messages(r, "added"@, context@);
                    let b = http_call_messages(r, "updated"@, context@);
                    let c = http_call_messages(r, "deleted"@, context@);
                    assert(before + a + b + c =~= before + (a + b + c));
                }
            },
            None => {},
        }
        proof {
            let prev = http_routes_messages(e, parent_context@, i as int);
            let next = http_routes_messages(e, parent_context@, i + 1);
            assert(strings_view(errors@) =~= start + next);
        }
        i = i + 1;
    }
}

/// Checks one template spec (`added`, `updated` or `deleted`).
fn validate_template_spec(m: &Vec<(YamlValue, YamlValue)>, field: &str, context: &str, errors: &mut Vec<String>)
    ensures
        strings_view(final(errors)@) == strings_view(old(errors)@) + template_spec_messages(
            yaml_entries_view(m@),
            field@,
            context@,
        ),
{
    match mapping_get(m, field) {
        Some(spec) => match spec.as_mapping() {
            Some(sm) => {
                let ctx = join(join(join(context, ".").as_str(), field).as_str(), ".template");
                assert(ctx@ == context@ + "."@ + field@ + ".template"@);
                validate_str_field(sm, "template", ctx.as_str(), errors);
            },
            None => {
                assert(strings_view(errors@) =~= strings_view(errors@) + Seq::<Seq<char>>::empty());
            },
        },
        None => {
            assert(strings_view(errors@) =~= strings_view(errors@) + Seq::<Seq<char>>::empty());
        },
    }
}

/// Checks a template configuration (a route or a default).
fn validate_template_query_config_inner(m: &Vec<(YamlValue, YamlValue)>, context: &str, errors: &mut Vec<String>)
    ensures
        strings_view(final(errors)@) == strings_view(old(errors)@) + template_config_messages(
            yaml_entries_view(m@),
            context@,
        ),
{
    let ghost before = strings_view(errors@);
    validate_template_spec(m, "added", context, errors);
    validate_template_spec(m, "updated", context, errors);
    validate_template_spec(m, "deleted", context, errors);
    proof {
        let r = yaml_entries_view(m@);
        let a = template_spec_messages(r, "added"@, context@);
        let b = template_spec_messages(r, "updated"@, context@);
        let c = template_spec_messages(r, "deleted"@, context@);
        assert(before + a + b + c =~= before + (a + b + c));
    }
}

/// Checks the routes of a log or SSE reaction.
fn validate_template_routes(routes: &Vec<(YamlValue, YamlValue)>, parent_context: &str, errors: &mut Vec<String>)
    ensures
        strings_view(final(errors)@) == strings_view(old(errors)@) + template_routes_messages(
            yaml_entries_view(routes@),
            parent_context@,
            routes@.len() as int,
        ),
{
    let ghost e = yaml_entries_view(routes@);
    let ghost start = strings_view(errors@);
    proof {
        lemma_yaml_entries_view(routes@);
        assert(start + template_routes_messages(e, parent_context@, 0) =~= start);
    }
    let mut i: usize = 0;
    while i < routes.len()
        invariant
            e == yaml_entries_view(routes@),
            e.len() == routes@.len(),
            forall|j: int| 0 <= j < routes@.len() ==> #[trigger] e[j] == (routes@[j].0@, routes@[j].1@),
            i <= routes.len(),
            strings_view(errors@) == start + template_routes_messages(e, parent_context@, i as int),
        decreases routes.len() - i,
    {
        let name = route_key_name(&routes[i].0);
        let context = join(join(parent_context, " routes.").as_str(), name.as_str());
        assert(e[i as int] == (routes@[i as int].0@, routes@[i as int].1@));
        match routes[i].1.as_mapping() {
            Some(rm) => {
                validate_template_query_config_inner(rm, context.as_str(), errors);
            },
            None => {},
        }
        proof {
            let next = template_routes_messages(e, parent_context@, i + 1);
            assert(strings_view(errors@) =~= start + next);
        }
        i = i + 1;
    }
}

/// The text of the string under `key`, or `unknown`.
fn field_or_unknown(m: &Vec<(YamlValue, YamlValue)>, key: &str) -> (r: String)
    ensures
        r@ == str_or_unknown(yaml_entries_view(m@), key@),
{
    match mapping_get(m, key) {
        Some(v) => match v.as_str() {
            Some(s) => owned(s),
            None => owned("unknown"),
        },
        None => owned("unknown"),
    }
}

/// Checks the reaction at position `i`.
fn validate_reaction(reaction: &YamlValue, i: usize, errors: &mut Vec<String>)
    ensures
        strings_view(final(errors)@) == strings_view(old(errors)@) + reaction_messages(reaction@, i as nat),
{
    let ghost before = strings_view(errors@);
    match reaction.as_mapping() {
        None => {
            assert(strings_view(errors@) =~= before + reaction_messages(reaction@, i as nat));
        },
        Some(m) => {
            let kind = field_or_unknown(m, "kind");
            let id = field_or_unknown(m, "id");
            let context = join(
                join(
                    join(join(join(join("reaction[", decimal(i as u64).as_str()).as_str(), "] (kind=").as_str(), kind.as_str()).as_str(), ", id=").as_str(),
                    id.as_str(),
                ).as_str(),
                ")",
            );
            assert(context@ == reaction_context(i as nat, kind@, id@));
            let routes = match mapping_get(m, "routes") {
                Some(v) => v.as_mapping(),
                None => None,
            };
            let k = kind.as_str();
            let ghost rv = match routes {
                Some(rs) => Some(yaml_entries_view(rs@)),
                None => None::<Seq<(YamlView, YamlView)>>,
            };
            assert(rv == match map_get(yaml_entries_view(m@), "routes"@) {
                Some(v) => as_mapping(v),
                None => None,
            });
            proof {
                match routes {
                    Some(rs) => {
                        lemma_yaml_entries_view(rs@);
                    },
                    None => {},
                }
            }
            let ghost mid;
            if str_eq(k, "http") || str_eq(k, "http-adaptive") {
                match routes {
                    Some(rs) => validate_http_routes_templates(rs, context.as_str(), errors),
                    None => {},
                }
                proof {
                    mid = strings_view(errors@);
                }
            } else {
                proof {
                    mid = strings_view(errors@);
                }
            }
            let ghost http_part = if kind@ == "http"@ || kind@ == "http-adaptive"@ {
                match rv {
                    Some(rs) => http_routes_messages(rs, context@, rs.len() as int),
                    None => Seq::empty(),
                }
            } else {
                Seq::<Seq<char>>::empty()
            };
            assert(mid =~= before + http_part);
            if str_eq(k, "log") || str_eq(k, "sse") {
                match routes {
                    Some(rs) => validate_template_routes(rs, context.as_str(), errors),
                    None => {},
                }
                let ghost after_routes = strings_view(errors@);
                match mapping_get(m, "defaultTemplate") {
                    Some(dt) => match dt.as_mapping() {
                        Some(dm) => {
                            let dctx = join(context.as_str(), " defaultTemplate");
                            validate_template_query_config_inner(dm, dctx.as_str(), errors);
                        },
                        None => {},
                    },
                    None => {},
                }
                proof {
                    let a = match rv {
                        Some(rs) => template_routes_messages(rs, context@, rs.len() as int),
                        None => Seq::empty(),
                    };
                    let b = match map_get(yaml_entries_view(m@), "defaultTemplate"@) {
                        Some(dt) => match as_mapping(dt) {
                            Some(dm) => template_config_messages(dm, context@ + " defaultTemplate"@),
                            None => Seq::empty(),
                        },
                        None => Seq::empty(),
                    };
                    assert(after_routes =~= mid + a);
                    assert(strings_view(errors@) =~= mid + a + b);
                    assert(mid + a + b =~= before + (http_part + (a + b)));
                }
            } else {
                assert(strings_view(errors@) =~= before + (http_part + Seq::<Seq<char>>::empty()));
            }
        },
    }
}

/// Validate reaction configurations for template syntax.
fn validate_reactions(reactions: &YamlValue, errors: &mut Vec<String>)
    ensures
        strings_view(final(errors)@) == strings_view(old(errors)@) + reactions_value_messages(reactions@),
{
    let ghost start = strings_view(errors@);
    match reactions.as_sequence() {
        None => {
            assert(strings_view(errors@) =~= start + reactions_value_messages(reactions@));
        },
        Some(arr) => {
            let ghost items = yaml_seq_view(arr@);
            proof {
                lemma_yaml_seq_view(arr@);
                assert(start + reactions_messages(items, 0) =~= start);
            }
            let mut i: usize = 0;
            while i < arr.len()
                invariant
                    items == yaml_seq_view(arr@),
                    items.len() == arr@.len(),
                    forall|j: int| 0 <= j < arr@.len() ==> #[trigger] items[j] == arr@[j]@,
                    i <= arr.len(),
                    strings_view(errors@) == start + reactions_messages(items, i as int),
                decreases arr.len() - i,
            {
                let ghost before = strings_view(errors@);
                validate_reaction(&arr[i], i, errors);
                proof {
                    assert(items[i as int] == arr@[i as int]@);
                    assert(strings_view(errors@) =~= start + reactions_messages(items, i + 1));
                }
                i = i + 1;
            }
        },
    }
}

/// Validate the reactions of each instance.
fn validate_instances(instances: &Vec<YamlValue>, errors: &mut Vec<String>)
    ensures
        strings_view(final(errors)@) == strings_view(old(errors)@) + instances_messages(
            yaml_seq_view(instances@),
            instances@.len() as int,
        ),
{
    let ghost items = yaml_seq_view(instances@);
    let ghost start = strings_view(errors@);
    proof {
        lemma_yaml_seq_view(instances@);
        assert(start + instances_messages(items, 0) =~= start);
    }
    let mut i: usize = 0;
    while i < instances.len()
        invariant
            items == yaml_seq_view(instances@),
            items.len() == instances@.len(),
            forall|j: int| 0 <= j < instances@.len() ==> #[trigger] items[j] == instances@[j]@,
            i <= instances.len(),
            strings_view(errors@) == start + instances_messages(items, i as int),
        decreases instances.len() - i,
    {
        assert(items[i as int] == instances@[i as int]@);
        match instances[i].as_mapping() {
            Some(m) => match mapping_get(m, "reactions") {
                Some(r) => validate_reactions(r, errors),
                None => {},
            },
            None => {},
        }
        proof {
            assert(strings_view(errors@) =~= start + instances_messages(items, i + 1));
        }
        i = i + 1;
    }
}

/// Validate template syntax in a configuration document: the templates of
/// its reactions and of its instances' reactions. One problem is reported as
/// a template syntax error, several together.
pub fn validate_config(value: &YamlValue) -> (r: Result<(), ValidationError>)
    ensures
        match r {
            Ok(()) => validate_config_spec(value@) == Ok::<(), ValidationErrorView>(()),
            Err(e) => validate_config_spec(value@) == Err::<(), ValidationErrorView>(e@),
        },
{
    let mut errors: Vec<String> = Vec::new();
    assert(strings_view(errors@) =~= Seq::<Seq<char>>::empty());
    match value.as_mapping() {
        Some(map) => {
            match mapping_get(map, "reactions") {
                Some(reactions) => validate_reactions(reactions, &mut errors),
                None => {},
            }
            let ghost mid = strings_view(errors@);
            assert(mid =~= match map_get(yaml_entries_view(map@), "reactions"@) {
                Some(r) => reactions_value_messages(r),
                None => Seq::empty(),
            });
            match mapping_get(map, "instances") {
                Some(instances) => match instances.as_sequence() {
                    Some(items) => {
                        proof {
                            lemma_yaml_seq_view(items@);
                        }
                        validate_instances(items, &mut errors);
                    },
                    None => {},
                },
                None => {},
            }
            assert(strings_view(errors@) =~= config_messages(value@));
        },
        None => {
            assert(strings_view(errors@) =~= config_messages(value@));
        },
    }
    if errors.len() == 0 {
        Ok(())
    } else if errors.len() == 1 {
        let msg = errors.remove(0);
        Err(ValidationError::TemplateSyntax(msg))
    } else {
        Err(ValidationError::Multiple(errors))
    }
}

impl ValidationError {
    /// The text the error displays.
    pub fn message(&self) -> (r: String)
        ensures
            match self {
                ValidationError::TemplateSyntax(m) => r@ == "Template syntax error: "@ + m@,
                ValidationError::Multiple(ms) => r@ == "Multiple validation errors:\n"@ + joined_lines(strings_view(ms@)),
            },
    {
        match self {
            ValidationError::TemplateSyntax(m) => join("Template syntax error: ", m.as_str()),
            ValidationError::Multiple(ms) => {
                let mut out = owned("Multiple validation errors:\n");
                let mut i: usize = 0;
                while i < ms.len()
                    invariant
                        i <= ms.len(),
                        out@ == "Multiple validation errors:\n"@ + joined_lines(strings_view(ms@.subrange(0, i as int))),
                    decreases ms.len() - i,
                {
                    if i > 0 {
                        out.append("\n");
                    }
                    out.append(ms[i].as_str());
                    proof {
                        let pre = strings_view(ms@.subrange(0, i as int));
                        let post = strings_view(ms@.subrange(0, i + 1));
                        assert(post =~= pre.push(ms@[i as int]@));
                        assert(post.drop_last() =~= pre);
                    }
                    i = i + 1;
                }
                assert(ms@.subrange(0, ms@.len() as int) =~= ms@);
                out
            },
        }
    }
}

/// Lines joined with newlines.
pub open spec fn joined_lines(lines: Seq<Seq<char>>) -> Seq<char>
    decreases lines.len(),
{
    if lines.len() == 0 {
        Seq::empty()
    } else if lines.len() == 1 {
        lines[0]
    } else {
        joined_lines(lines.drop_last()) + "\n"@ + lines.last()
    }
}


/// The messages of one listed instance: those of its reactions.
pub open spec fn instance_item_messages(item: YamlView) -> Seq<Seq<char>> {
    match as_mapping(item) {
        Some(m) => match map_get(m, "reactions"@) {
            Some(r) => reactions_value_messages(r),
            None => Seq::empty(),
        },
        None => Seq::empty(),
    }
}

proof fn lemma_instance_messages_included(items: Seq<YamlView>, n: int, k: int)
    requires
        0 <= k < n <= items.len(),
    ensures
        forall|j: int| 0 <= j < instance_item_messages(items[k]).len() ==> instances_messages(items, n).contains(
            #[trigger] instance_item_messages(items[k])[j],
        ),
    decreases n,
{
    let prev = instances_messages(items, n - 1);
    let cur = instances_messages(items, n);
    assert(cur == prev + instance_item_messages(items[n - 1]));
    if k < n - 1 {
        lemma_instance_messages_included(items, n - 1, k);
        assert forall|j: int| 0 <= j < instance_item_messages(items[k]).len() implies cur.contains(
            #[trigger] instance_item_messages(items[k])[j],
        ) by {
            let m = instance_item_messages(items[k])[j];
            assert(prev.contains(m));
            let a = choose|a: int| 0 <= a < prev.len() && prev[a] == m;
            assert(cur[a] == m);
        }
    } else {
        assert forall|j: int| 0 <= j < instance_item_messages(items[k]).len() implies cur.contains(
            #[trigger] instance_item_messages(items[k])[j],
        ) by {
            assert(cur[prev.len() + j] == instance_item_messages(items[k])[j]);
        }
    }
}

/// The reactions of every listed instance are validated too: every problem
/// found in the `reactions` of an instance of the `instances` list is among
/// the problems of the document, so a document with such a problem is
/// refused.
pub proof fn law_instance_reactions_validated(v: YamlView, k: int)
    requires
        as_mapping(v) is Some,
        map_get(as_mapping(v)->Some_0, "instances"@) is Some,
        as_sequence(map_get(as_mapping(v)->Some_0, "instances"@)->Some_0) is Some,
        0 <= k < as_sequence(map_get(as_mapping(v)->Some_0, "instances"@)->Some_0)->Some_0.len(),
        as_mapping(as_sequence(map_get(as_mapping(v)->Some_0, "instances"@)->Some_0)->Some_0[k]) is Some,
        map_get(
            as_mapping(as_sequence(map_get(as_mapping(v)->Some_0, "instances"@)->Some_0)->Some_0[k])->Some_0,
            "reactions"@,
        ) is Some,
    ensures
        ({
            let item = as_sequence(map_get(as_mapping(v)->Some_0, "instances"@)->Some_0)->Some_0[k];
            let r = map_get(as_mapping(item)->Some_0, "reactions"@)->Some_0;
            &&& forall|j: int| 0 <= j < reactions_value_messages(r).len() ==> config_messages(v).contains(
                #[trigger] reactions_value_messages(r)[j],
            )
            &&& reactions_value_messages(r).len() > 0 ==> validate_config_spec(v) is Err
        }),
{
    let m = as_mapping(v)->Some_0;
    let items = as_sequence(map_get(m, "instances"@)->Some_0)->Some_0;
    let item = items[k];
    let r = map_get(as_mapping(item)->Some_0, "reactions"@)->Some_0;
    lemma_instance_messages_included(items, items.len() as int, k);
    assert(instance_item_messages(item) == reactions_value_messages(r));
    let top = match map_get(m, "reactions"@) {
        Some(x) => reactions_value_messages(x),
        None => Seq::empty(),
    };
    let inst = instances_messages(items, items.len() as int);
    assert(config_messages(v) == top + inst);
    assert forall|j: int| 0 <= j < reactions_value_messages(r).len() implies config_messages(v).contains(
        #[trigger] reactions_value_messages(r)[j],
    ) by {
        let msg = reactions_value_messages(r)[j];
        assert(instance_item_messages(item)[j] == msg);
        assert(inst.contains(msg));
        let a = choose|a: int| 0 <= a < inst.len() && inst[a] == msg;
        assert(config_messages(v)[top.len() + a] == msg);
    }
    if reactions_value_messages(r).len() > 0 {
        assert(config_messages(v).contains(reactions_value_messages(r)[0]));
        assert(config_messages(v).len() > 0);
    }
}


/// The template under `defaultTemplate.added.template` of a reaction map.
pub open spec fn default_added_template(m: Seq<(YamlView, YamlView)>) -> Option<Seq<char>> {
    match map_get(m, "defaultTemplate"@) {
        Some(dt) => match as_mapping(dt) {
            Some(dm) => match map_get(dm, "added"@) {
                Some(spec) => match as_mapping(spec) {
                    Some(sm) => match map_get(sm, "template"@) {
                        Some(t) => as_str(t),
                        None => None,
                    },
                    None => None,
                },
                None => None,
            },
            None => None,
        },
        None => None,
    }
}

/// A `log` or `sse` reaction whose default `added` template does not
/// compile is reported, at its path, with handlebars' message.
pub proof fn law_invalid_default_template_reported(r: YamlView, i: nat)
    requires
        as_mapping(r) is Some,
        str_or_unknown(as_mapping(r)->Some_0, "kind"@) == "log"@ || str_or_unknown(as_mapping(r)->Some_0, "kind"@)
            == "sse"@,
        default_added_template(as_mapping(r)->Some_0) is Some,
        template_error(default_added_template(as_mapping(r)->Some_0)->Some_0) is Some,
    ensures
        ({
            let m = as_mapping(r)->Some_0;
            let ctx = reaction_context(i, str_or_unknown(m, "kind"@), str_or_unknown(m, "id"@));
            reaction_messages(r, i).contains(
                ctx + " defaultTemplate"@ + "."@ + "added"@ + ".template"@ + ": invalid Handlebars template - "@
                    + template_error(default_added_template(m)->Some_0)->Some_0,
            )
        }),
{
    let m = as_mapping(r)->Some_0;
    let kind = str_or_unknown(m, "kind"@);
    let ctx = reaction_context(i, kind, str_or_unknown(m, "id"@));
    let t = default_added_template(m)->Some_0;
    let e = template_error(t)->Some_0;
    let dm = as_mapping(map_get(m, "defaultTemplate"@)->Some_0)->Some_0;
    let sm = as_mapping(map_get(dm, "added"@)->Some_0)->Some_0;
    let dctx = ctx + " defaultTemplate"@;
    let fctx = dctx + "."@ + "added"@ + ".template"@;
    let msg = fctx + ": invalid Handlebars template - "@ + e;
    assert(str_field_messages(sm, "template"@, fctx) == seq![msg]);
    assert(template_spec_messages(dm, "added"@, dctx) == seq![msg]);
    let b2 = template_config_messages(dm, dctx);
    assert(b2[0] == msg);
    reveal_strlit("log");
    reveal_strlit("sse");
    reveal_strlit("http");
    reveal_strlit("http-adaptive");
    assert(kind != "http"@ && kind != "http-adaptive"@);
    let routes = match map_get(m, "routes"@) {
        Some(v) => as_mapping(v),
        None => None,
    };
    let b1 = match routes {
        Some(rs) => template_routes_messages(rs, ctx, rs.len() as int),
        None => Seq::empty(),
    };
    let all = reaction_messages(r, i);
    assert(all == Seq::<Seq<char>>::empty() + (b1 + b2));
    assert(all[b1.len() as int] == msg);
}

/// Every reaction of a list is validated: whatever validating one reaction
/// reports is among what validating the list reports.
pub proof fn law_each_reaction_validated(items: Seq<YamlView>, k: int)
    requires
        0 <= k < items.len(),
    ensures
        forall|j: int| 0 <= j < reaction_messages(items[k], k as nat).len() ==> reactions_messages(
            items,
            items.len() as int,
        ).contains(#[trigger] reaction_messages(items[k], k as nat)[j]),
{
    lemma_reaction_messages_included(items, items.len() as int, k);
}

proof fn lemma_reaction_messages_included(items: Seq<YamlView>, n: int, k: int)
    requires
        0 <= k < n <= items.len(),
    ensures
        forall|j: int| 0 <= j < reaction_messages(items[k], k as nat).len() ==> reactions_messages(items, n).contains(
            #[trigger] reaction_messages(items[k], k as nat)[j],
        ),
    decreases n,
{
    let prev = reactions_messages(items, n - 1);
    let cur = reactions_messages(items, n);
    assert(cur == prev + reaction_messages(items[n - 1], (n - 1) as nat));
    if k < n - 1 {
        lemma_reaction_messages_included(items, n - 1, k);
        assert forall|j: int| 0 <= j < reaction_messages(items[k], k as nat).len() implies cur.contains(
            #[trigger] reaction_messages(items[k], k as nat)[j],
        ) by {
            let msg = reaction_messages(items[k], k as nat)[j];
            assert(prev.contains(msg));
            let a = choose|a: int| 0 <= a < prev.len() && prev[a] == msg;
            assert(cur[a] == msg);
        }
    } else {
        assert forall|j: int| 0 <= j < reaction_messages(items[k], k as nat).len() implies cur.contains(
            #[trigger] reaction_messages(items[k], k as nat)[j],
        ) by {
            assert(cur[prev.len() + j] == reaction_messages(items[k], k as nat)[j]);
        }
    }
}

} // verus!

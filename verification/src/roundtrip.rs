//! What reading gives back of writing: a configuration written as a
//! document, as `writer` writes it, reads back, as `loader` reads it, as the
//! same configuration.

use vstd::prelude::*;
use crate::config_value::{ConfigValueView, config_string_from_json, posix_reference};
use crate::json::{EntryView, JsonView, obj_get};
use crate::loader::{as_port_value, as_size_value, config_number_from_json, store_from_json};
use crate::state_store::{StateStoreView, redb_settings, state_store_from_entries_spec, store_fold, store_step, StoreDecoderView};
use crate::json::{obj_set, obj_has, keys_unique, lemma_obj_set};
use crate::loader::{
    MapItem, list_in, query_fold, query_from_entries_spec, is_query_setting, texts_fold, text_step,
    plugin_from_entries_spec, identity_from_entries_spec, IdentityView,
};
use crate::writer::{JsonItem, list_json, query_json, plugin_json, identity_json};
use crate::config::{DrasiLibInstanceConfig, DrasiServerConfig, InstanceView, QueryConfigDto, QueryView};
use crate::loader::{
    InstanceDraft, InstanceFields, field_named, instance_default, instance_fold, instance_set,
    instance_from_entries_spec, is_instance_field,
};
use crate::reaction::{ReactionConfig, ReactionView, law_reaction_roundtrip, reaction_reserved};
use crate::models::SourceConfig;
use crate::writer::{instance_entries, opt_size_json, opt_store_json, push_some, server_entries};
use crate::loader::{ServerDraft, server_default, server_fold, server_from_json, server_set, server_fits, top_instance, instance_fits};
use crate::config::{PluginDependency, TrustedIdentity, seq_views};
use crate::config_value::opt_chars;
use crate::models::{
    SourceView, SourceDecoderView, source_fold, source_decoder_empty, source_from_entries_spec,
    source_to_entries, bootstrap_from_json, bootstrap_fold, BootstrapView, source_step, source_key_spec, SourceKey, bootstrap_to_entries, merge_spec, object_entries,
};
use crate::models::{DecodeErrorView, Field};
use crate::resolve::{decimal_value, digits_value, is_digit, numeral_digits};
use crate::validation::{decimal_text, digit_char};
use crate::writer::{env_json, port_value_json, secret_json, size_value_json, store_json, text_value_json};

verus! {

/// The decimal numeral of `n` is made of digits and denotes `n`.
proof fn lemma_decimal_text(n: nat)
    ensures
        decimal_text(n).len() > 0,
        forall|i: int| 0 <= i < decimal_text(n).len() ==> is_digit(#[trigger] decimal_text(n)[i]),
        digits_value(decimal_text(n)) == n,
    decreases n,
{
    if n < 10 {
        let t = decimal_text(n);
        assert(t == seq![digit_char(n)]);
        assert(t.drop_last() =~= Seq::<char>::empty());
        assert(digit_char(n) as nat == 48 + n);
        assert('0' as nat == 48);
        assert(digits_value(t) == digits_value(t.drop_last()) * 10 + (t.last() as nat - '0' as nat) as nat);
    } else {
        lemma_decimal_text(n / 10);
        let t = decimal_text(n / 10);
        let c = digit_char(n % 10);
        assert(c as nat == 48 + n % 10);
        assert(decimal_text(n) == t.push(c));
        assert(t.push(c).drop_last() =~= t);
        assert(decimal_text(n)[decimal_text(n).len() - 1] == c);
        assert('0' as nat == 48);
        assert(digits_value(t.push(c)) == digits_value(t) * 10 + (c as nat - '0' as nat) as nat);
        assert(n == (n / 10) * 10 + n % 10) by (nonlinear_arith);
    }
}

/// The decimal numeral of `n` reads back as `n`.
pub proof fn lemma_decimal_value(n: nat)
    ensures
        decimal_value(decimal_text(n)) == Some(n),
{
    lemma_decimal_text(n);
    let t = decimal_text(n);
    assert(t[0] != '+');
    assert(numeral_digits(t) == t);
}


/// A textual value that is no static text of the `${..}` form, which would
/// read back as an environment reference.
pub open spec fn plain_text(c: ConfigValueView<Seq<char>>) -> bool {
    c matches ConfigValueView::Static(s) ==> posix_reference(s) is None
}

/// The entries of a written reference, looked up.
proof fn lemma_reference_entries(name: Seq<char>, default: Option<Seq<char>>)
    ensures
        secret_json(name) matches JsonView::Object(m) && obj_get(m, "kind"@) == Some(JsonView::String("Secret"@))
            && obj_get(m, "name"@) == Some(JsonView::String(name)),
        env_json(name, default) matches JsonView::Object(m) && obj_get(m, "kind"@) == Some(
            JsonView::String("EnvironmentVariable"@),
        ) && obj_get(m, "name"@) == Some(JsonView::String(name)) && obj_get(m, "default"@) == match default {
            Some(d) => Some(JsonView::String(d)),
            None => None,
        },
        "Secret"@ != "EnvironmentVariable"@,
{
    reveal_strlit("kind");
    reveal_strlit("name");
    reveal_strlit("default");
    reveal_strlit("Secret");
    reveal_strlit("EnvironmentVariable");
    assert("kind"@[0] != "name"@[0]);
    assert("kind"@[0] != "default"@[0]);
    assert("name"@[0] != "default"@[0]);
    assert("kind"@ != "name"@);
    assert("kind"@ != "default"@);
    assert("name"@ != "default"@);
    assert("Secret"@[0] != "EnvironmentVariable"@[0]);
    let m = seq![("kind"@, JsonView::String("Secret"@)), ("name"@, JsonView::String(name))];
    let m1 = m.drop_first();
    assert(m1 =~= seq![("name"@, JsonView::String(name))]);
    assert(m1.drop_first() =~= Seq::<EntryView>::empty());
    assert(obj_get(m, "kind"@) == Some(JsonView::String("Secret"@)));
    assert(obj_get(m1, "name"@) == Some(JsonView::String(name)));
    assert(obj_get(m, "name"@) == obj_get(m1, "name"@));
    assert(secret_json(name) == JsonView::Object(m));
    let e = seq![("kind"@, JsonView::String("EnvironmentVariable"@)), ("name"@, JsonView::String(name))];
    let e1 = e.drop_first();
    assert(e1 =~= seq![("name"@, JsonView::String(name))]);
    assert(e1.drop_first() =~= Seq::<EntryView>::empty());
    assert(obj_get(e, "kind"@) == Some(JsonView::String("EnvironmentVariable"@)));
    assert(obj_get(e1, "name"@) == Some(JsonView::String(name)));
    assert(obj_get(e, "name"@) == obj_get(e1, "name"@));
    match default {
        Some(d) => {
            let e2 = e.push(("default"@, JsonView::String(d)));
            let f1 = e2.drop_first();
            let f2 = f1.drop_first();
            assert(f1 =~= seq![("name"@, JsonView::String(name)), ("default"@, JsonView::String(d))]);
            assert(f2 =~= seq![("default"@, JsonView::String(d))]);
            assert(f2.drop_first() =~= Seq::<EntryView>::empty());
            assert(obj_get(e2, "kind"@) == Some(JsonView::String("EnvironmentVariable"@)));
            assert(obj_get(f1, "name"@) == Some(JsonView::String(name)));
            assert(obj_get(e2, "name"@) == obj_get(f1, "name"@));
            assert(obj_get(f2, "default"@) == Some(JsonView::String(d)));
            assert(obj_get(f1, "default"@) == obj_get(f2, "default"@));
            assert(obj_get(e2, "default"@) == obj_get(f1, "default"@));
            assert(env_json(name, default) == JsonView::Object(e2));
        },
        None => {
            assert(obj_get(e1.drop_first(), "default"@) is None);
            assert(obj_get(e1, "default"@) is None);
            assert(obj_get(e, "default"@) is None);
            assert(env_json(name, default) == JsonView::Object(e));
        },
    }
}

/// A plain textual value reads back as itself.
pub proof fn lemma_text_value(c: ConfigValueView<Seq<char>>, f: Field)
    requires
        plain_text(c),
    ensures
        config_string_from_json(text_value_json(c), f) == Ok::<_, DecodeErrorView>(c),
{
    match c {
        ConfigValueView::Secret { name } => {
            lemma_reference_entries(name, None);
        },
        ConfigValueView::EnvironmentVariable { name, default } => {
            lemma_reference_entries(name, default);
        },
        ConfigValueView::Static(_) => {},
    }
}

/// A port value reads back as itself.
pub proof fn lemma_port_value(c: ConfigValueView<u16>)
    ensures
        config_number_from_json(port_value_json(c), Field::Port, 65535) matches Ok(x) && as_port_value(x) == c,
{
    match c {
        ConfigValueView::Secret { name } => {
            lemma_reference_entries(name, None);
        },
        ConfigValueView::EnvironmentVariable { name, default } => {
            lemma_reference_entries(name, default);
        },
        ConfigValueView::Static(n) => {
            lemma_decimal_value(n as nat);
        },
    }
}

/// A capacity value reads back as itself.
pub proof fn lemma_size_value(c: ConfigValueView<usize>, f: Field)
    ensures
        config_number_from_json(size_value_json(c), f, usize::MAX as nat) matches Ok(x) && as_size_value(x) == c,
{
    match c {
        ConfigValueView::Secret { name } => {
            lemma_reference_entries(name, None);
        },
        ConfigValueView::EnvironmentVariable { name, default } => {
            lemma_reference_entries(name, default);
        },
        ConfigValueView::Static(n) => {
            lemma_decimal_value(n as nat);
        },
    }
}


/// A state store whose path is plain.
pub open spec fn plain_store(s: StateStoreView) -> bool {
    match s {
        StateStoreView::Redb { path } => plain_text(path),
    }
}

/// A state store with a plain path reads back as itself.
pub proof fn lemma_store_value(s: StateStoreView)
    requires
        plain_store(s),
    ensures
        store_from_json(store_json(s)) == Ok::<_, DecodeErrorView>(Some(s)),
{
    reveal_strlit("kind");
    reveal_strlit("path");
    reveal_strlit("redb");
    assert("kind"@[0] != "path"@[0]);
    match s {
        StateStoreView::Redb { path } => {
            let pv = text_value_json(path);
            let e = seq![("kind"@, JsonView::String("redb"@)), ("path"@, pv)];
            let e1 = seq![("kind"@, JsonView::String("redb"@))];
            assert(e.drop_last() =~= e1);
            assert(e1.drop_last() =~= Seq::<EntryView>::empty());
            let d0 = StoreDecoderView { kind: None, remaining: Seq::empty() };
            assert(store_fold(Seq::<EntryView>::empty()) == Ok::<_, DecodeErrorView>(d0));
            let d1 = StoreDecoderView { kind: Some("redb"@), remaining: Seq::empty() };
            assert(store_step(d0, "kind"@, JsonView::String("redb"@)) == Ok::<_, DecodeErrorView>(d1));
            assert(store_fold(e1) == Ok::<_, DecodeErrorView>(d1));
            assert(obj_set(Seq::<EntryView>::empty(), "path"@, pv) =~= seq![("path"@, pv)]);
            let d2 = StoreDecoderView { kind: Some("redb"@), remaining: seq![("path"@, pv)] };
            assert(store_step(d1, "path"@, pv) == Ok::<_, DecodeErrorView>(d2));
            assert(store_fold(e) == Ok::<_, DecodeErrorView>(d2));
            lemma_text_value(path, Field::Path);
            let r = seq![("path"@, pv)];
            assert(r.drop_first() =~= Seq::<EntryView>::empty());
            assert(redb_settings(r.drop_first(), Some(path)) == Ok::<_, DecodeErrorView>(path));
            assert(redb_settings(r, None) == Ok::<_, DecodeErrorView>(path));
            assert(store_json(s) == JsonView::Object(e));
        },
    }
}


/// A `redb` state store with a plain path, written as a map and read back,
/// is the same state store.
pub proof fn law_redb_roundtrip(s: StateStoreView)
    requires
        plain_store(s),
    ensures
        store_json(s) is Object,
        state_store_from_entries_spec(store_json(s)->Object_0) == Ok::<_, DecodeErrorView>(s),
{
    lemma_store_value(s);
}

/// Reading a bootstrap provider's settings after its `kind` collects them in order.
proof fn lemma_bootstrap_fold_settings(kind: Seq<char>, es: Seq<EntryView>, n: int)
    requires
        keys_unique(es),
        forall|i: int| 0 <= i < es.len() ==> (#[trigger] es[i].0) != "kind"@,
        0 <= n <= es.len(),
    ensures
        bootstrap_fold(seq![("kind"@, JsonView::String(kind))] + es.take(n)) == Ok::<_, DecodeErrorView>(
            (Some(kind), es.take(n)),
        ),
    decreases n,
{
    let head = seq![("kind"@, JsonView::String(kind))];
    if n == 0 {
        assert(head + es.take(0) =~= head);
        assert(es.take(0) =~= Seq::<EntryView>::empty());
        assert(head.drop_last() =~= Seq::<EntryView>::empty());
        assert(bootstrap_fold(Seq::<EntryView>::empty()) == Ok::<_, DecodeErrorView>(
            (None::<Seq<char>>, Seq::<EntryView>::empty()),
        ));
    } else {
        lemma_bootstrap_fold_settings(kind, es, n - 1);
        let all = head + es.take(n);
        assert(all.drop_last() =~= head + es.take(n - 1));
        assert(all.last() == es[n - 1]);
        let k = es[n - 1].0;
        lemma_obj_set(es.take(n - 1), k, es[n - 1].1);
        assert(!obj_has(es.take(n - 1), k)) by {
            if obj_has(es.take(n - 1), k) {
                let j = choose|j: int| #[trigger] crate::json::key_at(es.take(n - 1), k, j);
                assert(es[j].0 == es[n - 1].0);
            }
        }
        assert(es.take(n - 1).push((k, es[n - 1].1)) =~= es.take(n));
    }
}

/// A bootstrap provider whose settings are a map with distinct keys, none of
/// them `kind`, written as a map and read back, is the same provider.
pub proof fn law_bootstrap_roundtrip(b: BootstrapView)
    requires
        b.config is Object,
        keys_unique(b.config->Object_0),
        forall|i: int| 0 <= i < b.config->Object_0.len() ==> (#[trigger] b.config->Object_0[i].0) != "kind"@,
    ensures
        bootstrap_from_json(JsonView::Object(bootstrap_to_entries(b))) == Ok::<_, DecodeErrorView>(b),
{
    let es = b.config->Object_0;
    lemma_bootstrap_fold_settings(b.kind, es, es.len() as int);
    assert(es.take(es.len() as int) =~= es);
}

// ---------------------------------------------------------------------------
// Lists
// ---------------------------------------------------------------------------

/// An item written as `W` is a map that reads back, as `R`, as `y`.
pub open spec fn reads_back<W: JsonItem, R: MapItem>(x: W::V, y: R::V) -> bool {
    W::item_json(x) matches JsonView::Object(e) && R::item_spec(e) == Ok::<R::V, DecodeErrorView>(y)
}

/// A list written item by item as `W`, each item a map that reads back as
/// the corresponding `R`, reads back as those items.
pub proof fn lemma_list_roundtrip<W: JsonItem, R: MapItem>(items: Seq<W::V>, reads: Seq<R::V>, f: Field)
    requires
        items.len() == reads.len(),
        forall|i: int| 0 <= i < items.len() ==> #[trigger] reads_back::<W, R>(items[i], reads[i]),
    ensures
        list_in::<R>(list_json::<W>(items), f) == Ok::<Seq<R::V>, DecodeErrorView>(reads),
    decreases items.len(),
{
    let js = items.map_values(|x: W::V| W::item_json(x));
    if items.len() == 0 {
        assert(js =~= Seq::<JsonView>::empty());
        assert(reads =~= Seq::<R::V>::empty());
    } else {
        lemma_list_roundtrip::<W, R>(items.drop_last(), reads.drop_last(), f);
        assert(js.drop_last() =~= items.drop_last().map_values(|x: W::V| W::item_json(x)));
        assert(js.last() == W::item_json(items[items.len() - 1]));
        assert(reads_back::<W, R>(items[items.len() - 1], reads[reads.len() - 1]));
        assert(reads.drop_last().push(reads.last()) =~= reads);
    }
}

// ---------------------------------------------------------------------------
// Items
// ---------------------------------------------------------------------------

/// A plugin dependency reads back as itself.
pub proof fn lemma_plugin_roundtrip(r: Seq<char>)
    ensures
        plugin_json(r) matches JsonView::Object(e) && plugin_from_entries_spec(e) == Ok::<_, DecodeErrorView>(r),
{
    let e = seq![("ref"@, JsonView::String(r))];
    assert(e.drop_last() =~= Seq::<EntryView>::empty());
    assert(texts_fold(Seq::<EntryView>::empty(), Field::Ref, Field::Ref) == Ok::<_, DecodeErrorView>(
        (None::<Seq<char>>, None::<Seq<char>>),
    ));
    assert(Field::Ref.spec_name() == "ref"@);
    assert(e.last() == ("ref"@, JsonView::String(r)));
    assert(text_step(None, Field::Ref, "ref"@, JsonView::String(r)) == Ok::<_, DecodeErrorView>(Some(r)));
    assert(texts_fold(e, Field::Ref, Field::Ref) == Ok::<_, DecodeErrorView>((Some(r), Some(r))));
}

/// A trusted identity reads back as itself.
pub proof fn lemma_identity_roundtrip(i: IdentityView)
    ensures
        identity_json(i) matches JsonView::Object(e) && identity_from_entries_spec(e) == Ok::<_, DecodeErrorView>(i),
{
    reveal_strlit("issuer");
    reveal_strlit("subjectPattern");
    assert("issuer"@[0] != "subjectPattern"@[0]);
    let e1 = seq![("issuer"@, JsonView::String(i.issuer))];
    let e = e1.push(("subjectPattern"@, JsonView::String(i.subject_pattern)));
    assert(e1.drop_last() =~= Seq::<EntryView>::empty());
    assert(texts_fold(Seq::<EntryView>::empty(), Field::Issuer, Field::SubjectPattern) == Ok::<_, DecodeErrorView>(
        (None::<Seq<char>>, None::<Seq<char>>),
    ));
    assert(Field::Issuer.spec_name() == "issuer"@);
    assert(Field::SubjectPattern.spec_name() == "subjectPattern"@);
    assert("issuer"@ != "subjectPattern"@);
    assert(e1.last() == ("issuer"@, JsonView::String(i.issuer)));
    assert(e.last() == ("subjectPattern"@, JsonView::String(i.subject_pattern)));
    assert(texts_fold(e1, Field::Issuer, Field::SubjectPattern) == Ok::<_, DecodeErrorView>((Some(i.issuer), None::<Seq<char>>)));
    assert(e.drop_last() =~= e1);
    assert(texts_fold(e, Field::Issuer, Field::SubjectPattern) == Ok::<_, DecodeErrorView>(
        (Some(i.issuer), Some(i.subject_pattern)),
    ));
    assert(seq![
        ("issuer"@, JsonView::String(i.issuer)),
        ("subjectPattern"@, JsonView::String(i.subject_pattern)),
    ] =~= e);
}

/// A query whose settings are a map with distinct keys, each a setting that
/// a query accepts, among them its `query` text.
pub open spec fn plain_query(q: QueryView) -> bool {
    &&& q.settings is Object
    &&& keys_unique(q.settings->Object_0)
    &&& forall|i: int|
        0 <= i < q.settings->Object_0.len() ==> is_query_setting(#[trigger] q.settings->Object_0[i].0)
    &&& obj_get(q.settings->Object_0, "query"@) matches Some(JsonView::String(_))
}

/// No setting a query accepts is its `id`.
proof fn lemma_query_setting_not_id(k: Seq<char>)
    requires
        is_query_setting(k),
    ensures
        k != "id"@,
{
    reveal_strlit("id");
    reveal_strlit("query");
    reveal_strlit("queryLanguage");
    reveal_strlit("middleware");
    reveal_strlit("sources");
    reveal_strlit("autoStart");
    reveal_strlit("joins");
    reveal_strlit("enableBootstrap");
    reveal_strlit("bootstrapBufferSize");
    reveal_strlit("priorityQueueCapacity");
    reveal_strlit("dispatchBufferCapacity");
    reveal_strlit("dispatchMode");
    reveal_strlit("storageBackend");
    reveal_strlit("recoveryPolicy");
    reveal_strlit("outboxCapacity");
    reveal_strlit("bootstrapTimeoutSecs");
    assert("id"@.len() == 2);
    assert(k.len() > 2);
}

/// Reading a query's settings after its id collects them in order.
proof fn lemma_query_fold_settings(id: Seq<char>, es: Seq<EntryView>, n: int)
    requires
        keys_unique(es),
        forall|i: int| 0 <= i < es.len() ==> is_query_setting(#[trigger] es[i].0),
        0 <= n <= es.len(),
    ensures
        query_fold(seq![("id"@, JsonView::String(id))] + es.take(n)) == Ok::<_, DecodeErrorView>((Some(id), es.take(n))),
    decreases n,
{
    let head = seq![("id"@, JsonView::String(id))];
    if n == 0 {
        assert(head + es.take(0) =~= head);
        assert(es.take(0) =~= Seq::<EntryView>::empty());
        assert(head.drop_last() =~= Seq::<EntryView>::empty());
        assert(head.last() == ("id"@, JsonView::String(id)));
        assert(query_fold(Seq::<EntryView>::empty()) == Ok::<_, DecodeErrorView>(
            (None::<Seq<char>>, Seq::<EntryView>::empty()),
        ));
    } else {
        lemma_query_fold_settings(id, es, n - 1);
        let all = head + es.take(n);
        assert(all.drop_last() =~= head + es.take(n - 1));
        assert(all.last() == es[n - 1]);
        let k = es[n - 1].0;
        assert(is_query_setting(k));
        lemma_query_setting_not_id(k);
        lemma_obj_set(es.take(n - 1), k, es[n - 1].1);
        assert(!obj_has(es.take(n - 1), k)) by {
            if obj_has(es.take(n - 1), k) {
                let j = choose|j: int| #[trigger] crate::json::key_at(es.take(n - 1), k, j);
                assert(es[j].0 == es[n - 1].0);
            }
        }
        assert(es.take(n - 1).push((k, es[n - 1].1)) =~= es.take(n));
    }
}

/// A query with plain settings reads back as itself.
pub proof fn lemma_query_roundtrip(q: QueryView)
    requires
        plain_query(q),
    ensures
        query_json(q) matches JsonView::Object(e) && query_from_entries_spec(e) == Ok::<_, DecodeErrorView>(q),
{
    let es = q.settings->Object_0;
    lemma_query_fold_settings(q.id, es, es.len() as int);
    assert(es.take(es.len() as int) =~= es);
    assert(object_entries(q.settings) == es);
}


/// The keys a source map reads itself, which plugin settings cannot use.
pub open spec fn source_reserved(k: Seq<char>) -> bool {
    ||| k == "kind"@
    ||| k == "id"@
    ||| k == "autoStart"@
    ||| k == "bootstrapProvider"@
    ||| k == "auto_start"@
    ||| k == "bootstrap_provider"@
}

/// A source whose settings are a map with distinct keys, none of them a
/// common field, and whose bootstrap provider, if any, reads back as itself
/// after it inherits the source's settings.
pub open spec fn plain_source(s: SourceView) -> bool {
    &&& s.config is Object
    &&& keys_unique(s.config->Object_0)
    &&& forall|i: int| 0 <= i < s.config->Object_0.len() ==> !source_reserved(#[trigger] s.config->Object_0[i].0)
    &&& match s.bootstrap_provider {
        Some(b) => bootstrap_from_json(merge_spec(s.kind, JsonView::Object(bootstrap_to_entries(b)), s.config))
            == Ok::<_, DecodeErrorView>(b),
        None => true,
    }
}

/// Reading a source's settings after its common fields collects them in order.
proof fn lemma_source_fold_settings(head: Seq<EntryView>, d: SourceDecoderView, es: Seq<EntryView>, n: int)
    requires
        source_fold(head) == Ok::<_, DecodeErrorView>(d),
        d.remaining == Seq::<EntryView>::empty(),
        keys_unique(es),
        forall|i: int| 0 <= i < es.len() ==> !source_reserved(#[trigger] es[i].0),
        0 <= n <= es.len(),
    ensures
        source_fold(head + es.take(n)) == Ok::<_, DecodeErrorView>(SourceDecoderView { remaining: es.take(n), ..d }),
    decreases n,
{
    if n == 0 {
        assert(head + es.take(0) =~= head);
        assert(es.take(0) =~= Seq::<EntryView>::empty());
    } else {
        lemma_source_fold_settings(head, d, es, n - 1);
        let all = head + es.take(n);
        assert(all.drop_last() =~= head + es.take(n - 1));
        assert(all.last() == es[n - 1]);
        let k = es[n - 1].0;
        assert(!source_reserved(k));
        assert(source_key_spec(SourceDecoderView { remaining: es.take(n - 1), ..d }, k) == Ok::<_, DecodeErrorView>(
            SourceKey::Other,
        ));
        lemma_obj_set(es.take(n - 1), k, es[n - 1].1);
        assert(!obj_has(es.take(n - 1), k)) by {
            if obj_has(es.take(n - 1), k) {
                let j = choose|j: int| #[trigger] crate::json::key_at(es.take(n - 1), k, j);
                assert(es[j].0 == es[n - 1].0);
            }
        }
        assert(es.take(n - 1).push((k, es[n - 1].1)) =~= es.take(n));
    }
}

/// A plain source reads back as itself.
pub proof fn lemma_source_roundtrip(s: SourceView)
    requires
        plain_source(s),
    ensures
        source_from_entries_spec(source_to_entries(s)) == Ok::<_, DecodeErrorView>(s),
{
    reveal_strlit("kind");
    reveal_strlit("id");
    reveal_strlit("autoStart");
    reveal_strlit("bootstrapProvider");
    reveal_strlit("auto_start");
    reveal_strlit("bootstrap_provider");
    assert("id"@.len() == 2 && "kind"@.len() == 4 && "autoStart"@.len() == 9);
    assert("bootstrapProvider"@.len() == 17 && "auto_start"@.len() == 10 && "bootstrap_provider"@.len() == 18);
    let es = s.config->Object_0;
    let h1 = seq![("kind"@, JsonView::String(s.kind))];
    let h2 = h1.push(("id"@, JsonView::String(s.id)));
    let h3 = h2.push(("autoStart"@, JsonView::Bool(s.auto_start)));
    let d0 = source_decoder_empty();
    assert(h1.drop_last() =~= Seq::<EntryView>::empty());
    assert(h1.last() == ("kind"@, JsonView::String(s.kind)));
    let d1 = SourceDecoderView { kind: Some(s.kind), ..d0 };
    assert(source_fold(Seq::<EntryView>::empty()) == Ok::<_, DecodeErrorView>(d0));
    assert(source_key_spec(d0, "kind"@) == Ok::<_, DecodeErrorView>(SourceKey::Kind));
    assert(source_step(d0, "kind"@, JsonView::String(s.kind)) == Ok::<_, DecodeErrorView>(d1));
    assert(source_fold(h1) == Ok::<_, DecodeErrorView>(d1));
    assert(h2.drop_last() =~= h1);
    assert(h2.last() == ("id"@, JsonView::String(s.id)));
    let d2 = SourceDecoderView { id: Some(s.id), ..d1 };
    assert(source_fold(h2) == Ok::<_, DecodeErrorView>(d2));
    assert(h3.drop_last() =~= h2);
    assert(h3.last() == ("autoStart"@, JsonView::Bool(s.auto_start)));
    let d3 = SourceDecoderView { auto_start: Some(s.auto_start), ..d2 };
    assert(source_fold(h3) == Ok::<_, DecodeErrorView>(d3));
    match s.bootstrap_provider {
        Some(b) => {
            let bv = JsonView::Object(bootstrap_to_entries(b));
            let h4 = h3.push(("bootstrapProvider"@, bv));
            assert(h4.drop_last() =~= h3);
            assert(h4.last() == ("bootstrapProvider"@, bv));
            let d4 = SourceDecoderView { bootstrap_provider: Some(bv), ..d3 };
            assert(source_fold(h4) == Ok::<_, DecodeErrorView>(d4));
            lemma_source_fold_settings(h4, d4, es, es.len() as int);
            assert(es.take(es.len() as int) =~= es);
            assert(source_to_entries(s) =~= h4 + es);
        },
        None => {
            lemma_source_fold_settings(h3, d3, es, es.len() as int);
            assert(es.take(es.len() as int) =~= es);
            assert(source_to_entries(s) =~= h3 + es);
        },
    }
}


// ---------------------------------------------------------------------------
// Field names
// ---------------------------------------------------------------------------

/// The field each key of the server map names.
pub proof fn lemma_field_named()
    ensures
        field_named("apiVersion"@) == Some(Field::ApiVersion),
        field_named("id"@) == Some(Field::Id),
        field_named("host"@) == Some(Field::Host),
        field_named("port"@) == Some(Field::Port),
        field_named("logLevel"@) == Some(Field::LogLevel),
        field_named("persistConfig"@) == Some(Field::PersistConfig),
        field_named("persistIndex"@) == Some(Field::PersistIndex),
        field_named("stateStore"@) == Some(Field::StateStore),
        field_named("defaultPriorityQueueCapacity"@) == Some(Field::DefaultPriorityQueueCapacity),
        field_named("defaultDispatchBufferCapacity"@) == Some(Field::DefaultDispatchBufferCapacity),
        field_named("sources"@) == Some(Field::Sources),
        field_named("queries"@) == Some(Field::Queries),
        field_named("reactions"@) == Some(Field::Reactions),
        field_named("instances"@) == Some(Field::Instances),
        field_named("pluginRegistry"@) == Some(Field::PluginRegistry),
        field_named("autoInstallPlugins"@) == Some(Field::AutoInstallPlugins),
        field_named("plugins"@) == Some(Field::Plugins),
        field_named("verifyPlugins"@) == Some(Field::VerifyPlugins),
        field_named("trustedIdentities"@) == Some(Field::TrustedIdentities),
{
    reveal_strlit("apiVersion");
    reveal_strlit("id");
    reveal_strlit("host");
    reveal_strlit("port");
    reveal_strlit("logLevel");
    reveal_strlit("persistConfig");
    reveal_strlit("persistIndex");
    reveal_strlit("stateStore");
    reveal_strlit("defaultPriorityQueueCapacity");
    reveal_strlit("defaultDispatchBufferCapacity");
    reveal_strlit("sources");
    reveal_strlit("queries");
    reveal_strlit("reactions");
    reveal_strlit("instances");
    reveal_strlit("pluginRegistry");
    reveal_strlit("autoInstallPlugins");
    reveal_strlit("plugins");
    reveal_strlit("verifyPlugins");
    reveal_strlit("trustedIdentities");
    assert("apiVersion"@.len() == 10);
    assert("id"@.len() == 2);
    assert("host"@.len() == 4);
    assert("port"@.len() == 4);
    assert("logLevel"@.len() == 8);
    assert("persistConfig"@.len() == 13);
    assert("persistIndex"@.len() == 12);
    assert("stateStore"@.len() == 10);
    assert("defaultPriorityQueueCapacity"@.len() == 28);
    assert("defaultDispatchBufferCapacity"@.len() == 29);
    assert("sources"@.len() == 7);
    assert("queries"@.len() == 7);
    assert("reactions"@.len() == 9);
    assert("instances"@.len() == 9);
    assert("pluginRegistry"@.len() == 14);
    assert("autoInstallPlugins"@.len() == 18);
    assert("plugins"@.len() == 7);
    assert("verifyPlugins"@.len() == 13);
    assert("trustedIdentities"@.len() == 17);
    assert("apiVersion"@[0] != "stateStore"@[0]);
    assert("host"@[0] != "port"@[0]);
    assert("persistConfig"@[0] != "verifyPlugins"@[0]);
    assert("sources"@[0] != "queries"@[0]);
    assert("sources"@[0] != "plugins"@[0]);
    assert("queries"@[0] != "plugins"@[0]);
    assert("reactions"@[0] != "instances"@[0]);
}

/// The position of a server setting in the written map.
pub open spec fn field_rank(f: Field) -> int {
    match f {
        Field::ApiVersion => 0,
        Field::Id => 1,
        Field::Host => 2,
        Field::Port => 3,
        Field::LogLevel => 4,
        Field::PersistConfig => 5,
        Field::PersistIndex => 6,
        Field::StateStore => 7,
        Field::DefaultPriorityQueueCapacity => 8,
        Field::DefaultDispatchBufferCapacity => 9,
        Field::Sources => 10,
        Field::Queries => 11,
        Field::Reactions => 12,
        Field::Instances => 13,
        Field::PluginRegistry => 14,
        Field::AutoInstallPlugins => 15,
        Field::Plugins => 16,
        Field::VerifyPlugins => 17,
        Field::TrustedIdentities => 18,
        _ => 19,
    }
}

/// Every field seen comes before position `r`.
pub open spec fn ranks_below(s: Seq<Field>, r: int) -> bool {
    forall|j: int| 0 <= j < s.len() ==> field_rank(#[trigger] s[j]) < r
}

/// A field at or after position `r` has not been seen.
proof fn lemma_ranks_below(s: Seq<Field>, r: int, f: Field)
    requires
        ranks_below(s, r),
        field_rank(f) >= r,
    ensures
        !s.contains(f),
        ranks_below(s.push(f), field_rank(f) + 1),
{
    if s.contains(f) {
        let j = choose|j: int| 0 <= j < s.len() && s[j] == f;
        assert(field_rank(s[j]) < r);
    }
    assert forall|j: int| 0 <= j < s.push(f).len() implies field_rank(#[trigger] s.push(f)[j]) < field_rank(f) + 1 by {
        if j < s.len() {
            assert(s.push(f)[j] == s[j]);
        }
    }
}

// ---------------------------------------------------------------------------
// Instances
// ---------------------------------------------------------------------------

/// A reaction whose settings are a map with distinct keys, none of them a
/// common field.
pub open spec fn plain_reaction(r: ReactionView) -> bool {
    &&& r.config is Object
    &&& keys_unique(r.config->Object_0)
    &&& forall|i: int| 0 <= i < r.config->Object_0.len() ==> !reaction_reserved(#[trigger] r.config->Object_0[i].0)
}

/// An instance whose id is plain and whose state store and components read
/// back as themselves.
pub open spec fn plain_instance(i: InstanceView) -> bool {
    &&& plain_text(i.id)
    &&& i.state_store matches Some(st) ==> plain_store(st)
    &&& forall|j: int| 0 <= j < i.sources.len() ==> plain_source(#[trigger] i.sources[j])
    &&& forall|j: int| 0 <= j < i.queries.len() ==> plain_query(#[trigger] i.queries[j])
    &&& forall|j: int| 0 <= j < i.reactions.len() ==> plain_reaction(#[trigger] i.reactions[j])
}

/// The draft an instance's settings read back as: all of them, its id given.
pub open spec fn instance_draft_of(i: InstanceView) -> InstanceDraft {
    InstanceDraft {
        id: Some(i.id),
        persist_index: i.persist_index,
        state_store: i.state_store,
        default_priority_queue_capacity: i.default_priority_queue_capacity,
        default_dispatch_buffer_capacity: i.default_dispatch_buffer_capacity,
        sources: i.sources,
        queries: i.queries,
        reactions: i.reactions,
    }
}

/// Each setting of a plain instance, written, reads back into a draft.
proof fn lemma_instance_sets(d: InstanceDraft, i: InstanceView)
    requires
        plain_instance(i),
    ensures
        instance_set(d, Field::Id, text_value_json(i.id)) == Ok::<_, DecodeErrorView>(InstanceDraft { id: Some(i.id), ..d }),
        instance_set(d, Field::PersistIndex, JsonView::Bool(i.persist_index)) == Ok::<_, DecodeErrorView>(
            InstanceDraft { persist_index: i.persist_index, ..d },
        ),
        i.state_store is Some ==> instance_set(d, Field::StateStore, opt_store_json(i.state_store)->Some_0)
            == Ok::<_, DecodeErrorView>(InstanceDraft { state_store: i.state_store, ..d }),
        i.default_priority_queue_capacity is Some ==> instance_set(
            d,
            Field::DefaultPriorityQueueCapacity,
            opt_size_json(i.default_priority_queue_capacity)->Some_0,
        ) == Ok::<_, DecodeErrorView>(
            InstanceDraft { default_priority_queue_capacity: i.default_priority_queue_capacity, ..d },
        ),
        i.default_dispatch_buffer_capacity is Some ==> instance_set(
            d,
            Field::DefaultDispatchBufferCapacity,
            opt_size_json(i.default_dispatch_buffer_capacity)->Some_0,
        ) == Ok::<_, DecodeErrorView>(
            InstanceDraft { default_dispatch_buffer_capacity: i.default_dispatch_buffer_capacity, ..d },
        ),
        instance_set(d, Field::Sources, list_json::<SourceConfig>(i.sources)) == Ok::<_, DecodeErrorView>(
            InstanceDraft { sources: i.sources, ..d },
        ),
        instance_set(d, Field::Queries, list_json::<QueryConfigDto>(i.queries)) == Ok::<_, DecodeErrorView>(
            InstanceDraft { queries: i.queries, ..d },
        ),
        instance_set(d, Field::Reactions, list_json::<ReactionConfig>(i.reactions)) == Ok::<_, DecodeErrorView>(
            InstanceDraft { reactions: i.reactions, ..d },
        ),
{
    lemma_text_value(i.id, Field::Id);
    match i.state_store {
        Some(st) => lemma_store_value(st),
        None => {},
    }
    match i.default_priority_queue_capacity {
        Some(c) => lemma_size_value(c, Field::DefaultPriorityQueueCapacity),
        None => {},
    }
    match i.default_dispatch_buffer_capacity {
        Some(c) => lemma_size_value(c, Field::DefaultDispatchBufferCapacity),
        None => {},
    }
    assert forall|j: int| 0 <= j < i.sources.len() implies #[trigger] reads_back::<SourceConfig, SourceConfig>(
        i.sources[j],
        i.sources[j],
    ) by {
        lemma_source_roundtrip(i.sources[j]);
    }
    lemma_list_roundtrip::<SourceConfig, SourceConfig>(i.sources, i.sources, Field::Sources);
    assert forall|j: int| 0 <= j < i.queries.len() implies #[trigger] reads_back::<QueryConfigDto, QueryConfigDto>(
        i.queries[j],
        i.queries[j],
    ) by {
        lemma_query_roundtrip(i.queries[j]);
    }
    lemma_list_roundtrip::<QueryConfigDto, QueryConfigDto>(i.queries, i.queries, Field::Queries);
    assert forall|j: int|
        0 <= j < i.reactions.len() implies #[trigger] reads_back::<ReactionConfig, ReactionConfig>(
        i.reactions[j],
        i.reactions[j],
    ) by {
        law_reaction_roundtrip(i.reactions[j]);
    }
    lemma_list_roundtrip::<ReactionConfig, ReactionConfig>(i.reactions, i.reactions, Field::Reactions);
}


/// Reading one more setting, present or not, of an instance map.
proof fn lemma_instance_advance(
    e: Seq<EntryView>,
    seen: Seq<Field>,
    d: InstanceDraft,
    k: Seq<char>,
    f: Field,
    v: Option<JsonView>,
    d2: InstanceDraft,
) -> (s2: Seq<Field>)
    requires
        instance_fold(e) == Ok::<_, DecodeErrorView>((seen, d)),
        ranks_below(seen, field_rank(f)),
        field_named(k) == Some(f),
        is_instance_field(f),
        v matches Some(x) ==> instance_set(d, f, x) == Ok::<_, DecodeErrorView>(d2),
        v is None ==> d2 == d,
    ensures
        instance_fold(push_some(e, k, v)) == Ok::<_, DecodeErrorView>((s2, d2)),
        ranks_below(s2, field_rank(f) + 1),
{
    match v {
        Some(x) => {
            lemma_ranks_below(seen, field_rank(f), f);
            assert(e.push((k, x)).drop_last() =~= e);
            assert(e.push((k, x)).last() == (k, x));
            seen.push(f)
        },
        None => seen,
    }
}

/// A plain instance, written, reads back as its draft.
pub proof fn lemma_instance_roundtrip(i: InstanceView)
    requires
        plain_instance(i),
    ensures
        instance_from_entries_spec(instance_entries(Seq::empty(), i)) == Ok::<_, DecodeErrorView>(instance_draft_of(i)),
        reads_back::<DrasiLibInstanceConfig, InstanceFields>(i, instance_draft_of(i)),
{
    lemma_field_named();
    let e0 = Seq::<EntryView>::empty();
    let s0 = Seq::<Field>::empty();
    let d0 = instance_default();
    assert(instance_fold(e0) == Ok::<_, DecodeErrorView>((s0, d0)));
    let d1 = InstanceDraft { id: Some(i.id), ..d0 };
    lemma_instance_sets(d0, i);
    let s1 = lemma_instance_advance(e0, s0, d0, "id"@, Field::Id, Some(text_value_json(i.id)), d1);
    let e1 = push_some(e0, "id"@, Some(text_value_json(i.id)));
    let d2 = InstanceDraft { persist_index: i.persist_index, ..d1 };
    lemma_instance_sets(d1, i);
    let s2 = lemma_instance_advance(
        e1,
        s1,
        d1,
        "persistIndex"@,
        Field::PersistIndex,
        Some(JsonView::Bool(i.persist_index)),
        d2,
    );
    let e2 = push_some(e1, "persistIndex"@, Some(JsonView::Bool(i.persist_index)));
    let d3 = InstanceDraft { state_store: i.state_store, ..d2 };
    lemma_instance_sets(d2, i);
    let s3 = lemma_instance_advance(e2, s2, d2, "stateStore"@, Field::StateStore, opt_store_json(i.state_store), d3);
    let e3 = push_some(e2, "stateStore"@, opt_store_json(i.state_store));
    let d4 = InstanceDraft { default_priority_queue_capacity: i.default_priority_queue_capacity, ..d3 };
    lemma_instance_sets(d3, i);
    let s4 = lemma_instance_advance(
        e3,
        s3,
        d3,
        "defaultPriorityQueueCapacity"@,
        Field::DefaultPriorityQueueCapacity,
        opt_size_json(i.default_priority_queue_capacity),
        d4,
    );
    let e4 = push_some(e3, "defaultPriorityQueueCapacity"@, opt_size_json(i.default_priority_queue_capacity));
    let d5 = InstanceDraft { default_dispatch_buffer_capacity: i.default_dispatch_buffer_capacity, ..d4 };
    lemma_instance_sets(d4, i);
    let s5 = lemma_instance_advance(
        e4,
        s4,
        d4,
        "defaultDispatchBufferCapacity"@,
        Field::DefaultDispatchBufferCapacity,
        opt_size_json(i.default_dispatch_buffer_capacity),
        d5,
    );
    let e5 = push_some(e4, "defaultDispatchBufferCapacity"@, opt_size_json(i.default_dispatch_buffer_capacity));
    let d6 = InstanceDraft { sources: i.sources, ..d5 };
    lemma_instance_sets(d5, i);
    let s6 = lemma_instance_advance(
        e5,
        s5,
        d5,
        "sources"@,
        Field::Sources,
        Some(list_json::<SourceConfig>(i.sources)),
        d6,
    );
    let e6 = push_some(e5, "sources"@, Some(list_json::<SourceConfig>(i.sources)));
    let d7 = InstanceDraft { queries: i.queries, ..d6 };
    lemma_instance_sets(d6, i);
    let s7 = lemma_instance_advance(
        e6,
        s6,
        d6,
        "queries"@,
        Field::Queries,
        Some(list_json::<QueryConfigDto>(i.queries)),
        d7,
    );
    let e7 = push_some(e6, "queries"@, Some(list_json::<QueryConfigDto>(i.queries)));
    let d8 = InstanceDraft { reactions: i.reactions, ..d7 };
    lemma_instance_sets(d7, i);
    let s8 = lemma_instance_advance(
        e7,
        s7,
        d7,
        "reactions"@,
        Field::Reactions,
        Some(list_json::<ReactionConfig>(i.reactions)),
        d8,
    );
    let e8 = push_some(e7, "reactions"@, Some(list_json::<ReactionConfig>(i.reactions)));
    assert(e8 == instance_entries(Seq::empty(), i));
    assert(d8 == instance_draft_of(i));
}


// ---------------------------------------------------------------------------
// The server
// ---------------------------------------------------------------------------

/// A configuration that reads back as itself: its default instance and its
/// listed instances are plain, its host and log level are plain, and it names
/// a plugin registry (without one, the default registry is read back).
pub open spec fn plain_config(c: DrasiServerConfig) -> bool {
    &&& plain_instance(top_instance(c))
    &&& plain_text(c.host@)
    &&& plain_text(c.log_level@)
    &&& c.plugin_registry is Some
    &&& forall|j: int| 0 <= j < c.instances@.len() ==> plain_instance(#[trigger] c.instances@[j]@)
}

/// The drafts of a list of instances.
pub open spec fn instance_drafts(s: Seq<InstanceView>) -> Seq<InstanceDraft> {
    s.map_values(|i: InstanceView| instance_draft_of(i))
}

/// The draft a configuration's settings read back as: all of them, its ids
/// given.
pub open spec fn server_draft_of(c: DrasiServerConfig) -> ServerDraft {
    ServerDraft {
        common: instance_draft_of(top_instance(c)),
        api_version: opt_chars(c.api_version),
        host: c.host@,
        port: c.port@,
        log_level: c.log_level@,
        persist_config: c.persist_config,
        instances: instance_drafts(seq_views(c.instances@)),
        plugin_registry: opt_chars(c.plugin_registry),
        auto_install_plugins: c.auto_install_plugins,
        plugins: seq_views(c.plugins@),
        verify_plugins: c.verify_plugins,
        trusted_identities: seq_views(c.trusted_identities@),
    }
}

/// Two configurations with the same settings.
pub open spec fn same_config(a: DrasiServerConfig, b: DrasiServerConfig) -> bool {
    &&& top_instance(a) == top_instance(b)
    &&& opt_chars(a.api_version) == opt_chars(b.api_version)
    &&& a.host@ == b.host@
    &&& a.port@ == b.port@
    &&& a.log_level@ == b.log_level@
    &&& a.persist_config == b.persist_config
    &&& seq_views(a.instances@) == seq_views(b.instances@)
    &&& opt_chars(a.plugin_registry) == opt_chars(b.plugin_registry)
    &&& a.auto_install_plugins == b.auto_install_plugins
    &&& seq_views(a.plugins@) == seq_views(b.plugins@)
    &&& a.verify_plugins == b.verify_plugins
    &&& seq_views(a.trusted_identities@) == seq_views(b.trusted_identities@)
}

/// An instance setting of the server map is read into the default instance.
proof fn lemma_server_set_common(d: ServerDraft, f: Field, v: JsonView)
    requires
        is_instance_field(f),
    ensures
        server_set(d, f, v) == match instance_set(d.common, f, v) {
            Ok(x) => Ok::<_, DecodeErrorView>(ServerDraft { common: x, ..d }),
            Err(e) => Err(e),
        },
{
    reveal(server_set);
}

/// Reading one more setting, present or not, of the server map.
proof fn lemma_server_advance(
    e: Seq<EntryView>,
    seen: Seq<Field>,
    d: ServerDraft,
    k: Seq<char>,
    f: Field,
    v: Option<JsonView>,
    d2: ServerDraft,
) -> (s2: Seq<Field>)
    requires
        server_fold(e) == Ok::<_, DecodeErrorView>((seen, d)),
        ranks_below(seen, field_rank(f)),
        field_named(k) == Some(f),
        v matches Some(x) ==> server_set(d, f, x) == Ok::<_, DecodeErrorView>(d2),
        v is None ==> d2 == d,
    ensures
        server_fold(push_some(e, k, v)) == Ok::<_, DecodeErrorView>((s2, d2)),
        ranks_below(s2, field_rank(f) + 1),
{
    match v {
        Some(x) => {
            lemma_ranks_below(seen, field_rank(f), f);
            assert(e.push((k, x)).drop_last() =~= e);
            assert(e.push((k, x)).last() == (k, x));
            seen.push(f)
        },
        None => seen,
    }
}

/// The lists of the server map read back as themselves.
proof fn lemma_server_lists(c: DrasiServerConfig)
    requires
        plain_config(c),
    ensures
        list_in::<InstanceFields>(list_json::<DrasiLibInstanceConfig>(seq_views(c.instances@)), Field::Instances)
            == Ok::<_, DecodeErrorView>(instance_drafts(seq_views(c.instances@))),
        list_in::<PluginDependency>(list_json::<PluginDependency>(seq_views(c.plugins@)), Field::Plugins)
            == Ok::<_, DecodeErrorView>(seq_views(c.plugins@)),
        list_in::<TrustedIdentity>(list_json::<TrustedIdentity>(seq_views(c.trusted_identities@)), Field::TrustedIdentities)
            == Ok::<_, DecodeErrorView>(seq_views(c.trusted_identities@)),
{
    let insts = seq_views(c.instances@);
    assert forall|j: int| 0 <= j < insts.len() implies #[trigger] reads_back::<DrasiLibInstanceConfig, InstanceFields>(
        insts[j],
        instance_drafts(insts)[j],
    ) by {
        assert(insts[j] == c.instances@[j]@);
        lemma_instance_roundtrip(insts[j]);
    }
    lemma_list_roundtrip::<DrasiLibInstanceConfig, InstanceFields>(insts, instance_drafts(insts), Field::Instances);
    let ps = seq_views(c.plugins@);
    assert forall|j: int| 0 <= j < ps.len() implies #[trigger] reads_back::<PluginDependency, PluginDependency>(
        ps[j],
        ps[j],
    ) by {
        lemma_plugin_roundtrip(ps[j]);
    }
    lemma_list_roundtrip::<PluginDependency, PluginDependency>(ps, ps, Field::Plugins);
    let ts = seq_views(c.trusted_identities@);
    assert forall|j: int| 0 <= j < ts.len() implies #[trigger] reads_back::<TrustedIdentity, TrustedIdentity>(
        ts[j],
        ts[j],
    ) by {
        lemma_identity_roundtrip(ts[j]);
    }
    lemma_list_roundtrip::<TrustedIdentity, TrustedIdentity>(ts, ts, Field::TrustedIdentities);
}


/// The JSON form of an optional string.
pub open spec fn opt_text_json(o: Option<Seq<char>>) -> Option<JsonView> {
    match o {
        Some(s) => Some(JsonView::String(s)),
        None => None,
    }
}

/// The settings of the server map up to the default instance's id,
/// written and read back.
proof fn lemma_server_head(c: DrasiServerConfig) -> (r: (Seq<EntryView>, Seq<Field>, ServerDraft))
    requires
        plain_config(c),
    ensures
        server_fold(r.0) == Ok::<_, DecodeErrorView>((r.1, r.2)),
        ranks_below(r.1, 6),
        r.2 == (ServerDraft {
            common: InstanceDraft { id: Some(top_instance(c).id), ..instance_default() },
            api_version: opt_chars(c.api_version),
            host: c.host@,
            port: c.port@,
            log_level: c.log_level@,
            persist_config: c.persist_config,
            ..server_default()
        }),
        r.0 == push_some(Seq::empty(), "apiVersion"@, opt_text_json(opt_chars(c.api_version))).push(
            ("id"@, text_value_json(top_instance(c).id)),
        ).push(("host"@, text_value_json(c.host@))).push(("port"@, port_value_json(c.port@))).push(
            ("logLevel"@, text_value_json(c.log_level@)),
        ).push(("persistConfig"@, JsonView::Bool(c.persist_config))),
{
    lemma_field_named();
    let top = top_instance(c);
    let e0 = Seq::<EntryView>::empty();
    let s0 = Seq::<Field>::empty();
    let d0 = server_default();
    assert(server_fold(e0) == Ok::<_, DecodeErrorView>((s0, d0)));
    let v1 = opt_text_json(opt_chars(c.api_version));
    let d1 = ServerDraft { api_version: opt_chars(c.api_version), ..d0 };
    assert(v1 matches Some(x) ==> server_set(d0, Field::ApiVersion, x) == Ok::<_, DecodeErrorView>(d1)) by {
        reveal(server_set);
    }
    let s1 = lemma_server_advance(e0, s0, d0, "apiVersion"@, Field::ApiVersion, v1, d1);
    let e1 = push_some(e0, "apiVersion"@, v1);
    let d2 = ServerDraft { common: InstanceDraft { id: Some(top.id), ..d1.common }, ..d1 };
    lemma_instance_sets(d1.common, top);
    lemma_server_set_common(d1, Field::Id, text_value_json(top.id));
    let s2 = lemma_server_advance(e1, s1, d1, "id"@, Field::Id, Some(text_value_json(top.id)), d2);
    let e2 = push_some(e1, "id"@, Some(text_value_json(top.id)));
    let d3 = ServerDraft { host: c.host@, ..d2 };
    assert(server_set(d2, Field::Host, text_value_json(c.host@)) == Ok::<_, DecodeErrorView>(d3)) by {
        reveal(server_set);
        lemma_text_value(c.host@, Field::Host);
    }
    let s3 = lemma_server_advance(e2, s2, d2, "host"@, Field::Host, Some(text_value_json(c.host@)), d3);
    let e3 = push_some(e2, "host"@, Some(text_value_json(c.host@)));
    let d4 = ServerDraft { port: c.port@, ..d3 };
    assert(server_set(d3, Field::Port, port_value_json(c.port@)) == Ok::<_, DecodeErrorView>(d4)) by {
        reveal(server_set);
        lemma_port_value(c.port@);
    }
    let s4 = lemma_server_advance(e3, s3, d3, "port"@, Field::Port, Some(port_value_json(c.port@)), d4);
    let e4 = push_some(e3, "port"@, Some(port_value_json(c.port@)));
    let d5 = ServerDraft { log_level: c.log_level@, ..d4 };
    assert(server_set(d4, Field::LogLevel, text_value_json(c.log_level@)) == Ok::<_, DecodeErrorView>(d5)) by {
        reveal(server_set);
        lemma_text_value(c.log_level@, Field::LogLevel);
    }
    let s5 = lemma_server_advance(e4, s4, d4, "logLevel"@, Field::LogLevel, Some(text_value_json(c.log_level@)), d5);
    let e5 = push_some(e4, "logLevel"@, Some(text_value_json(c.log_level@)));
    let d6 = ServerDraft { persist_config: c.persist_config, ..d5 };
    assert(server_set(d5, Field::PersistConfig, JsonView::Bool(c.persist_config)) == Ok::<_, DecodeErrorView>(d6))
        by {
        reveal(server_set);
    }
    let s6 = lemma_server_advance(
        e5,
        s5,
        d5,
        "persistConfig"@,
        Field::PersistConfig,
        Some(JsonView::Bool(c.persist_config)),
        d6,
    );
    let e6 = push_some(e5, "persistConfig"@, Some(JsonView::Bool(c.persist_config)));
    (e6, s6, d6)
}


/// The settings of the server map after its head, through the default
/// instance's reactions, written and read back.
proof fn lemma_server_middle(c: DrasiServerConfig, e6: Seq<EntryView>, s6: Seq<Field>, d6: ServerDraft) -> (r: (
    Seq<EntryView>,
    Seq<Field>,
    ServerDraft,
))
    requires
        plain_config(c),
        server_fold(e6) == Ok::<_, DecodeErrorView>((s6, d6)),
        ranks_below(s6, 6),
        d6.common == (InstanceDraft { id: Some(top_instance(c).id), ..instance_default() }),
    ensures
        server_fold(r.0) == Ok::<_, DecodeErrorView>((r.1, r.2)),
        ranks_below(r.1, 13),
        r.2 == (ServerDraft { common: instance_draft_of(top_instance(c)), ..d6 }),
        r.0 == push_some(
            push_some(
                push_some(e6.push(("persistIndex"@, JsonView::Bool(top_instance(c).persist_index))), "stateStore"@, opt_store_json(top_instance(c).state_store)),
                "defaultPriorityQueueCapacity"@,
                opt_size_json(top_instance(c).default_priority_queue_capacity),
            ),
            "defaultDispatchBufferCapacity"@,
            opt_size_json(top_instance(c).default_dispatch_buffer_capacity),
        ).push(("sources"@, list_json::<SourceConfig>(top_instance(c).sources))).push(
            ("queries"@, list_json::<QueryConfigDto>(top_instance(c).queries)),
        ).push(("reactions"@, list_json::<ReactionConfig>(top_instance(c).reactions))),
{
    lemma_field_named();
    let top = top_instance(c);
    let d7 = ServerDraft { common: InstanceDraft { persist_index: top.persist_index, ..d6.common }, ..d6 };
    lemma_instance_sets(d6.common, top);
    lemma_server_set_common(d6, Field::PersistIndex, JsonView::Bool(top.persist_index));
    let s7 = lemma_server_advance(
        e6,
        s6,
        d6,
        "persistIndex"@,
        Field::PersistIndex,
        Some(JsonView::Bool(top.persist_index)),
        d7,
    );
    let e7 = push_some(e6, "persistIndex"@, Some(JsonView::Bool(top.persist_index)));
    let d8 = ServerDraft { common: InstanceDraft { state_store: top.state_store, ..d7.common }, ..d7 };
    lemma_instance_sets(d7.common, top);
    let v8 = opt_store_json(top.state_store);
    if v8 is Some {
        lemma_server_set_common(d7, Field::StateStore, v8->Some_0);
    }
    let s8 = lemma_server_advance(e7, s7, d7, "stateStore"@, Field::StateStore, v8, d8);
    let e8 = push_some(e7, "stateStore"@, v8);
    let d9 = ServerDraft {
        common: InstanceDraft { default_priority_queue_capacity: top.default_priority_queue_capacity, ..d8.common },
        ..d8
    };
    lemma_instance_sets(d8.common, top);
    let v9 = opt_size_json(top.default_priority_queue_capacity);
    if v9 is Some {
        lemma_server_set_common(d8, Field::DefaultPriorityQueueCapacity, v9->Some_0);
    }
    let s9 = lemma_server_advance(
        e8,
        s8,
        d8,
        "defaultPriorityQueueCapacity"@,
        Field::DefaultPriorityQueueCapacity,
        v9,
        d9,
    );
    let e9 = push_some(e8, "defaultPriorityQueueCapacity"@, v9);
    let d10 = ServerDraft {
        common: InstanceDraft { default_dispatch_buffer_capacity: top.default_dispatch_buffer_capacity, ..d9.common },
        ..d9
    };
    lemma_instance_sets(d9.common, top);
    let v10 = opt_size_json(top.default_dispatch_buffer_capacity);
    if v10 is Some {
        lemma_server_set_common(d9, Field::DefaultDispatchBufferCapacity, v10->Some_0);
    }
    let s10 = lemma_server_advance(
        e9,
        s9,
        d9,
        "defaultDispatchBufferCapacity"@,
        Field::DefaultDispatchBufferCapacity,
        v10,
        d10,
    );
    let e10 = push_some(e9, "defaultDispatchBufferCapacity"@, v10);
    let d11 = ServerDraft { common: InstanceDraft { sources: top.sources, ..d10.common }, ..d10 };
    lemma_instance_sets(d10.common, top);
    lemma_server_set_common(d10, Field::Sources, list_json::<SourceConfig>(top.sources));
    let s11 = lemma_server_advance(
        e10,
        s10,
        d10,
        "sources"@,
        Field::Sources,
        Some(list_json::<SourceConfig>(top.sources)),
        d11,
    );
    let e11 = push_some(e10, "sources"@, Some(list_json::<SourceConfig>(top.sources)));
    let d12 = ServerDraft { common: InstanceDraft { queries: top.queries, ..d11.common }, ..d11 };
    lemma_instance_sets(d11.common, top);
    lemma_server_set_common(d11, Field::Queries, list_json::<QueryConfigDto>(top.queries));
    let s12 = lemma_server_advance(
        e11,
        s11,
        d11,
        "queries"@,
        Field::Queries,
        Some(list_json::<QueryConfigDto>(top.queries)),
        d12,
    );
    let e12 = push_some(e11, "queries"@, Some(list_json::<QueryConfigDto>(top.queries)));
    let d13 = ServerDraft { common: InstanceDraft { reactions: top.reactions, ..d12.common }, ..d12 };
    lemma_instance_sets(d12.common, top);
    lemma_server_set_common(d12, Field::Reactions, list_json::<ReactionConfig>(top.reactions));
    let s13 = lemma_server_advance(
        e12,
        s12,
        d12,
        "reactions"@,
        Field::Reactions,
        Some(list_json::<ReactionConfig>(top.reactions)),
        d13,
    );
    let e13 = push_some(e12, "reactions"@, Some(list_json::<ReactionConfig>(top.reactions)));
    (e13, s13, d13)
}


/// The optional list written for a plugin list: present when not empty.
pub open spec fn nonempty_json(v: JsonView, n: nat) -> Option<JsonView> {
    if n > 0 {
        Some(v)
    } else {
        None
    }
}

/// The settings of the server map after the default instance, written and
/// read back.
proof fn lemma_server_tail(c: DrasiServerConfig, e13: Seq<EntryView>, s13: Seq<Field>, d13: ServerDraft) -> (r: (
    Seq<EntryView>,
    Seq<Field>,
    ServerDraft,
))
    requires
        plain_config(c),
        server_fold(e13) == Ok::<_, DecodeErrorView>((s13, d13)),
        ranks_below(s13, 13),
        d13.instances == Seq::<InstanceDraft>::empty(),
        d13.plugin_registry == server_default().plugin_registry,
        !d13.auto_install_plugins,
        d13.plugins == Seq::<Seq<char>>::empty(),
        !d13.verify_plugins,
        d13.trusted_identities == Seq::<IdentityView>::empty(),
    ensures
        server_fold(r.0) == Ok::<_, DecodeErrorView>((r.1, r.2)),
        r.2 == (ServerDraft {
            instances: instance_drafts(seq_views(c.instances@)),
            plugin_registry: opt_chars(c.plugin_registry),
            auto_install_plugins: c.auto_install_plugins,
            plugins: seq_views(c.plugins@),
            verify_plugins: c.verify_plugins,
            trusted_identities: seq_views(c.trusted_identities@),
            ..d13
        }),
        r.0 == push_some(
            push_some(
                e13.push(("instances"@, list_json::<DrasiLibInstanceConfig>(seq_views(c.instances@)))).push(
                    ("pluginRegistry"@, JsonView::String(opt_chars(c.plugin_registry)->Some_0)),
                ).push(("autoInstallPlugins"@, JsonView::Bool(c.auto_install_plugins))),
                "plugins"@,
                nonempty_json(list_json::<PluginDependency>(seq_views(c.plugins@)), c.plugins@.len()),
            ).push(("verifyPlugins"@, JsonView::Bool(c.verify_plugins))),
            "trustedIdentities"@,
            nonempty_json(list_json::<TrustedIdentity>(seq_views(c.trusted_identities@)), c.trusted_identities@.len()),
        ),
{
    lemma_field_named();
    lemma_server_lists(c);
    let insts = list_json::<DrasiLibInstanceConfig>(seq_views(c.instances@));
    let d14 = ServerDraft { instances: instance_drafts(seq_views(c.instances@)), ..d13 };
    assert(server_set(d13, Field::Instances, insts) == Ok::<_, DecodeErrorView>(d14)) by {
        reveal(server_set);
    }
    let s14 = lemma_server_advance(e13, s13, d13, "instances"@, Field::Instances, Some(insts), d14);
    let e14 = push_some(e13, "instances"@, Some(insts));
    let reg = JsonView::String(opt_chars(c.plugin_registry)->Some_0);
    let d15 = ServerDraft { plugin_registry: opt_chars(c.plugin_registry), ..d14 };
    assert(server_set(d14, Field::PluginRegistry, reg) == Ok::<_, DecodeErrorView>(d15)) by {
        reveal(server_set);
    }
    let s15 = lemma_server_advance(e14, s14, d14, "pluginRegistry"@, Field::PluginRegistry, Some(reg), d15);
    let e15 = push_some(e14, "pluginRegistry"@, Some(reg));
    let d16 = ServerDraft { auto_install_plugins: c.auto_install_plugins, ..d15 };
    assert(server_set(d15, Field::AutoInstallPlugins, JsonView::Bool(c.auto_install_plugins))
        == Ok::<_, DecodeErrorView>(d16)) by {
        reveal(server_set);
    }
    let s16 = lemma_server_advance(
        e15,
        s15,
        d15,
        "autoInstallPlugins"@,
        Field::AutoInstallPlugins,
        Some(JsonView::Bool(c.auto_install_plugins)),
        d16,
    );
    let e16 = push_some(e15, "autoInstallPlugins"@, Some(JsonView::Bool(c.auto_install_plugins)));
    let v17 = nonempty_json(list_json::<PluginDependency>(seq_views(c.plugins@)), c.plugins@.len());
    let d17 = ServerDraft { plugins: seq_views(c.plugins@), ..d16 };
    assert(v17 matches Some(x) ==> server_set(d16, Field::Plugins, x) == Ok::<_, DecodeErrorView>(d17)) by {
        reveal(server_set);
    }
    assert(v17 is None ==> d17 == d16) by {
        if v17 is None {
            assert(seq_views(c.plugins@) =~= Seq::<Seq<char>>::empty());
        }
    }
    let s17 = lemma_server_advance(e16, s16, d16, "plugins"@, Field::Plugins, v17, d17);
    let e17 = push_some(e16, "plugins"@, v17);
    let d18 = ServerDraft { verify_plugins: c.verify_plugins, ..d17 };
    assert(server_set(d17, Field::VerifyPlugins, JsonView::Bool(c.verify_plugins)) == Ok::<_, DecodeErrorView>(d18))
        by {
        reveal(server_set);
    }
    let s18 = lemma_server_advance(
        e17,
        s17,
        d17,
        "verifyPlugins"@,
        Field::VerifyPlugins,
        Some(JsonView::Bool(c.verify_plugins)),
        d18,
    );
    let e18 = push_some(e17, "verifyPlugins"@, Some(JsonView::Bool(c.verify_plugins)));
    let v19 = nonempty_json(list_json::<TrustedIdentity>(seq_views(c.trusted_identities@)), c.trusted_identities@.len());
    let d19 = ServerDraft { trusted_identities: seq_views(c.trusted_identities@), ..d18 };
    assert(v19 matches Some(x) ==> server_set(d18, Field::TrustedIdentities, x) == Ok::<_, DecodeErrorView>(d19)) by {
        reveal(server_set);
    }
    assert(v19 is None ==> d19 == d18) by {
        if v19 is None {
            assert(seq_views(c.trusted_identities@) =~= Seq::<IdentityView>::empty());
        }
    }
    let s19 = lemma_server_advance(e18, s18, d18, "trustedIdentities"@, Field::TrustedIdentities, v19, d19);
    let e19 = push_some(e18, "trustedIdentities"@, v19);
    (e19, s19, d19)
}

/// Writing a configuration as a document and reading the document back gives
/// a configuration with the same settings: for configurations whose default
/// and listed instances are plain (plain ids and state store paths, and
/// sources, queries and reactions that read back as themselves), whose host
/// and log level are plain, and which name a plugin registry.
pub proof fn law_config_roundtrip(c: DrasiServerConfig)
    requires
        plain_config(c),
    ensures
        server_from_json(JsonView::Object(server_entries(c))) == Ok::<_, DecodeErrorView>(server_draft_of(c)),
        forall|c2: DrasiServerConfig| #[trigger] server_fits(c2, server_draft_of(c)) ==> same_config(c2, c),
{
    let (e6, s6, d6) = lemma_server_head(c);
    let (e13, s13, d13) = lemma_server_middle(c, e6, s6, d6);
    let (e19, s19, d19) = lemma_server_tail(c, e13, s13, d13);
    assert(e19 == server_entries(c));
    assert(d19 == server_draft_of(c));
    assert forall|c2: DrasiServerConfig| #[trigger] server_fits(c2, server_draft_of(c)) implies same_config(c2, c) by {
        let a = seq_views(c2.instances@);
        let b = seq_views(c.instances@);
        assert forall|j: int| 0 <= j < a.len() implies a[j] == b[j] by {
            assert(instance_fits(c2.instances@[j]@, server_draft_of(c).instances[j]));
            assert(a[j] == c2.instances@[j]@);
            assert(b[j] == c.instances@[j]@);
        }
        assert(a =~= b);
    }
}


/// A saved configuration survives a restart: when the configuration map that
/// `save` produces for `c` is read back, as the loader reads the document,
/// the configuration obtained resolves, in any environment, to exactly the
/// instances that `c` resolves to, with the same components (see
/// `saved_layout` for which components `save` puts in `c`).
pub proof fn law_restart_keeps_instances(c: DrasiServerConfig, c2: DrasiServerConfig, e: Seq<(Seq<char>, Seq<char>)>)
    requires
        plain_config(c),
        server_fits(c2, server_draft_of(c)),
    ensures
        server_from_json(JsonView::Object(server_entries(c))) == Ok::<_, DecodeErrorView>(server_draft_of(c)),
        crate::config::resolved_instances_spec(c2, e) == crate::config::resolved_instances_spec(c, e),
{
    law_config_roundtrip(c);
    assert(same_config(c2, c));
    assert(crate::config::raw_instances(c2) =~= crate::config::raw_instances(c));
}

} // verus!

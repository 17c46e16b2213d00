//! The fields that the panel's UI adds to models (test results) and that the
//! OpenClaw CLI rejects: detecting and removing them from `openclaw.json`.
use vstd::prelude::*;
use crate::json::{
    Json, JsonV, FieldHole, take_field, put_field, find_key, drop_key, obj_insert, field,
    field_str, has_key, without_key, assoc_insert, update_field, map_array,
    map_members, entries_deep, elems_deep, lemma_object_deep, lemma_array_deep,
    lemma_remove_insert, lemma_without_key_has, lemma_assoc_insert_has, lemma_field_of_update,
    key_pos, lemma_field_without_key, lemma_field_without_other, lemma_field_assoc_insert,
    lemma_field_is_some,
};

verus! {

/// A model object that carries a UI-only field.
pub open spec fn model_has_ui(m: JsonV) -> bool {
    match m {
        JsonV::Object(es) => has_key(es, "lastTestAt"@) || has_key(es, "latency"@) || has_key(
            es,
            "testStatus"@,
        ) || has_key(es, "testError"@),
        _ => false,
    }
}

/// A provider whose `models` array holds a model with a UI-only field.
pub open spec fn provider_has_ui(p: JsonV) -> bool {
    match field(p, "models"@) {
        Some(ms) => list_has_ui(ms),
        None => false,
    }
}

/// An array that holds a model with a UI-only field.
pub open spec fn list_has_ui(ms: JsonV) -> bool {
    match ms {
        JsonV::Array(a) => exists|i: int| 0 <= i < a.len() && model_has_ui(#[trigger] a[i]),
        _ => false,
    }
}

/// Does `config.models.providers.*.models[*]` carry a UI-only field?
pub open spec fn has_ui(config: JsonV) -> bool {
    match field(config, "models"@) {
        Some(m) => match field(m, "providers"@) {
            Some(ps) => providers_have_ui(ps),
            None => false,
        },
        None => false,
    }
}

/// An object of providers one of which has a model with a UI-only field.
pub open spec fn providers_have_ui(ps: JsonV) -> bool {
    match ps {
        JsonV::Object(es) => exists|i: int| 0 <= i < es.len() && #[trigger] provider_has_ui(es[i].1),
        _ => false,
    }
}

/// A model object without its UI-only fields, with `name` set to `id` when it has no name.
pub open spec fn clean_model(m: JsonV) -> JsonV {
    match m {
        JsonV::Object(es) => {
            let e1 = without_key(
                without_key(
                    without_key(without_key(es, "lastTestAt"@), "latency"@),
                    "testStatus"@,
                ),
                "testError"@,
            );
            match field_str(JsonV::Object(e1), "id"@) {
                Some(id) => if !has_key(e1, "name"@) {
                    JsonV::Object(assoc_insert(e1, "name"@, JsonV::Str(id)))
                } else {
                    JsonV::Object(e1)
                },
                None => JsonV::Object(e1),
            }
        },
        _ => m,
    }
}

pub open spec fn clean_provider(p: JsonV) -> JsonV {
    update_field(p, "models"@, |ms: JsonV| map_array(ms, |m: JsonV| clean_model(m)))
}

pub open spec fn clean_providers(ps: JsonV) -> JsonV {
    map_members(ps, |p: JsonV| clean_provider(p))
}

pub open spec fn clean_models_section(m: JsonV) -> JsonV {
    update_field(m, "providers"@, |ps: JsonV| clean_providers(ps))
}

/// The configuration with every model cleaned by `clean_model`.
pub open spec fn strip_ui(config: JsonV) -> JsonV {
    update_field(config, "models"@, |m: JsonV| clean_models_section(m))
}

fn clean_model_exec(m: Json) -> (r: Json)
    ensures
        r.deep() == clean_model(m.deep()),
{
    match m {
        Json::Object(es) => {
            proof {
                lemma_object_deep(es);
            }
            let e1 = drop_key(es, "lastTestAt");
            let e2 = drop_key(e1, "latency");
            let e3 = drop_key(e2, "testStatus");
            let mut e4 = drop_key(e3, "testError");
            let ghost d4 = entries_deep(e4@);
            proof {
                lemma_object_deep(e4);
            }
            let id = match find_key(&e4, "id") {
                Some(i) => match &e4[i].1 {
                    Json::Str(s) => Some(s.clone()),
                    _ => None,
                },
                None => None,
            };
            proof {
                match &id {
                    Some(s) => {
                        assert(field_str(JsonV::Object(d4), "id"@) == Some(s@));
                    },
                    None => {
                        assert(field_str(JsonV::Object(d4), "id"@) is None);
                    },
                }
            }
            match id {
                Some(s) => {
                    if find_key(&e4, "name").is_none() {
                        let ghost sv = s@;
                        obj_insert(&mut e4, "name".to_string(), Json::Str(s));
                        proof {
                            assert(Json::Str(s).deep() == JsonV::Str(sv));
                            lemma_object_deep(e4);
                        }
                    }
                },
                None => {},
            }
            Json::Object(e4)
        },
        other => other,
    }
}

fn clean_model_list(ms: Vec<Json>) -> (r: Vec<Json>)
    ensures
        elems_deep(r@) == elems_deep(ms@).map_values(|m: JsonV| clean_model(m)),
{
    let ghost src = ms@;
    let mut out: Vec<Json> = Vec::new();
    for m in it: ms.into_iter()
        invariant
            it.seq() == src,
            out@.len() == it.index(),
            forall|j: int|
                0 <= j < it.index() ==> #[trigger] out@[j].deep() == clean_model(src[j].deep()),
    {
        let c = clean_model_exec(m);
        out.push(c);
    }
    proof {
        assert(elems_deep(out@) =~= elems_deep(src).map_values(|m: JsonV| clean_model(m)));
    }
    out
}

fn clean_provider_exec(p: Json) -> (r: Json)
    ensures
        r.deep() == clean_provider(p.deep()),
{
    let ghost pd = p.deep();
    match take_field(p, "models") {
        FieldHole::Found { rest, index, key, value } => {
            let ghost vd = value.deep();
            let nv = match value {
                Json::Array(ms) => {
                    proof {
                        lemma_array_deep(ms);
                    }
                    let c = clean_model_list(ms);
                    proof {
                        lemma_array_deep(c);
                    }
                    Json::Array(c)
                },
                other => other,
            };
            proof {
                assert(nv.deep() == map_array(vd, |m: JsonV| clean_model(m)));
                let es = pd->Object_0;
                lemma_remove_insert(es, index as int, (key@, nv.deep()));
            }
            put_field(rest, index, key, nv)
        },
        FieldHole::Absent(o) => o,
    }
}

fn clean_providers_exec(ps: Json) -> (r: Json)
    ensures
        r.deep() == clean_providers(ps.deep()),
{
    match ps {
        Json::Object(es) => {
            proof {
                lemma_object_deep(es);
            }
            let ghost src = es@;
            let mut out: Vec<(String, Json)> = Vec::new();
            for e in it: es.into_iter()
                invariant
                    it.seq() == src,
                    out@.len() == it.index(),
                    forall|j: int|
                        0 <= j < it.index() ==> #[trigger] out@[j].0@ == src[j].0@ && out@[j].1.deep()
                            == clean_provider(src[j].1.deep()),
            {
                let (k, v) = e;
                let c = clean_provider_exec(v);
                out.push((k, c));
            }
            proof {
                lemma_object_deep(out);
                match clean_providers(JsonV::Object(entries_deep(src))) {
                    JsonV::Object(t) => {
                        assert(t =~= entries_deep(out@));
                    },
                    _ => {},
                }
            }
            Json::Object(out)
        },
        other => other,
    }
}

fn clean_models_section_exec(m: Json) -> (r: Json)
    ensures
        r.deep() == clean_models_section(m.deep()),
{
    let ghost md = m.deep();
    match take_field(m, "providers") {
        FieldHole::Found { rest, index, key, value } => {
            let nv = clean_providers_exec(value);
            proof {
                let es = md->Object_0;
                lemma_remove_insert(es, index as int, (key@, nv.deep()));
            }
            put_field(rest, index, key, nv)
        },
        FieldHole::Absent(o) => o,
    }
}

/// Removes the UI-only fields (`lastTestAt`, `latency`, `testStatus`, `testError`)
/// from every model under `models.providers`, and gives each model without a
/// `name` the name of its string `id`.
pub fn strip_ui_fields(config: Json) -> (r: Json)
    ensures
        r.deep() == strip_ui(config.deep()),
{
    let ghost cd = config.deep();
    match take_field(config, "models") {
        FieldHole::Found { rest, index, key, value } => {
            let nv = clean_models_section_exec(value);
            proof {
                let es = cd->Object_0;
                lemma_remove_insert(es, index as int, (key@, nv.deep()));
            }
            put_field(rest, index, key, nv)
        },
        FieldHole::Absent(o) => o,
    }
}


proof fn lemma_clean_model_no_ui(m: JsonV)
    ensures
        !model_has_ui(clean_model(m)),
{
    reveal_strlit("lastTestAt");
    reveal_strlit("latency");
    reveal_strlit("testStatus");
    reveal_strlit("testError");
    reveal_strlit("name");
    match m {
        JsonV::Object(es) => {
            let a = without_key(es, "lastTestAt"@);
            let b = without_key(a, "latency"@);
            let c = without_key(b, "testStatus"@);
            let e1 = without_key(c, "testError"@);
            let keys = seq!["lastTestAt"@, "latency"@, "testStatus"@, "testError"@];
            assert forall|t: int| 0 <= t < 4 implies !has_key(e1, #[trigger] keys[t]) by {
                let kk = keys[t];
                lemma_without_key_has(es, "lastTestAt"@, kk);
                lemma_without_key_has(a, "latency"@, kk);
                lemma_without_key_has(b, "testStatus"@, kk);
                lemma_without_key_has(c, "testError"@, kk);
            }
            assert(!has_key(e1, keys[0]) && !has_key(e1, keys[1]) && !has_key(e1, keys[2])
                && !has_key(e1, keys[3]));
            match field_str(JsonV::Object(e1), "id"@) {
                Some(id) => {
                    if !has_key(e1, "name"@) {
                        assert forall|t: int| 0 <= t < 4 implies !has_key(
                            assoc_insert(e1, "name"@, JsonV::Str(id)),
                            #[trigger] keys[t],
                        ) by {
                            assert(keys[t].len() != "name"@.len());
                            lemma_assoc_insert_has(e1, "name"@, JsonV::Str(id), keys[t]);
                        }
                        assert(!has_key(assoc_insert(e1, "name"@, JsonV::Str(id)), keys[0]));
                        assert(!has_key(assoc_insert(e1, "name"@, JsonV::Str(id)), keys[1]));
                        assert(!has_key(assoc_insert(e1, "name"@, JsonV::Str(id)), keys[2]));
                        assert(!has_key(assoc_insert(e1, "name"@, JsonV::Str(id)), keys[3]));
                    }
                },
                None => {},
            }
        },
        _ => {},
    }
}

proof fn lemma_clean_provider_no_ui(p: JsonV)
    ensures
        !provider_has_ui(clean_provider(p)),
{
    let f = |ms: JsonV| map_array(ms, |m: JsonV| clean_model(m));
    lemma_field_of_update(p, "models"@, f);
    match field(p, "models"@) {
        Some(ms0) => {
            match ms0 {
                JsonV::Array(a) => {
                    let mapped = a.map_values(|m: JsonV| clean_model(m));
                    assert(field(clean_provider(p), "models"@) == Some(JsonV::Array(mapped)));
                    assert forall|i: int| 0 <= i < mapped.len() implies !model_has_ui(
                        #[trigger] mapped[i],
                    ) by {
                        lemma_clean_model_no_ui(a[i]);
                    }
                },
                _ => {},
            }
        },
        None => {},
    }
}

/// Law: after `strip_ui_fields`, `has_ui_fields` finds no UI-only field left.
pub proof fn law_strip_removes_ui_fields(config: JsonV)
    ensures
        !has_ui(strip_ui(config)),
{
    let g = |m: JsonV| clean_models_section(m);
    lemma_field_of_update(config, "models"@, g);
    match field(config, "models"@) {
        Some(m) => {
            let h = |ps: JsonV| clean_providers(ps);
            lemma_field_of_update(m, "providers"@, h);
            match field(m, "providers"@) {
                Some(ps0) => {
                    match ps0 {
                        JsonV::Object(es) => {
                            let mapped = es.map_values(
                                |e: (Seq<char>, JsonV)| (e.0, clean_provider(e.1)),
                            );
                            match clean_providers(ps0) {
                                JsonV::Object(t) => {
                                    assert(t =~= mapped);
                                },
                                _ => {},
                            }
                            assert forall|i: int| 0 <= i < mapped.len() implies !provider_has_ui(
                                #[trigger] mapped[i].1,
                            ) by {
                                lemma_clean_provider_no_ui(es[i].1);
                            }
                        },
                        _ => {},
                    }
                },
                None => {},
            }
        },
        None => {},
    }
}

proof fn lemma_list_has_ui_witness(md: Seq<JsonV>, j: int)
    requires
        0 <= j < md.len(),
        model_has_ui(md[j]),
    ensures
        list_has_ui(JsonV::Array(md)),
{
    let x = JsonV::Array(md);
    assert(x is Array);
    assert(x->Array_0 == md);
    assert(exists|i: int| 0 <= i < md.len() && model_has_ui(#[trigger] md[i]));
    assert(list_has_ui(x) == exists|i: int| 0 <= i < md.len() && model_has_ui(#[trigger] md[i]));
}

proof fn lemma_providers_have_ui_witness(es: Seq<(Seq<char>, JsonV)>, j: int)
    requires
        0 <= j < es.len(),
        provider_has_ui(es[j].1),
    ensures
        providers_have_ui(JsonV::Object(es)),
{
    let x = JsonV::Object(es);
    assert(x->Object_0 == es);
    assert(providers_have_ui(x) == exists|i: int|
        0 <= i < es.len() && #[trigger] provider_has_ui(es[i].1));
}

proof fn lemma_providers_have_ui_none(es: Seq<(Seq<char>, JsonV)>)
    requires
        forall|i: int| 0 <= i < es.len() ==> !#[trigger] provider_has_ui(es[i].1),
    ensures
        !providers_have_ui(JsonV::Object(es)),
{
    let x = JsonV::Object(es);
    assert(x->Object_0 == es);
    assert(providers_have_ui(x) == exists|i: int|
        0 <= i < es.len() && #[trigger] provider_has_ui(es[i].1));
}

proof fn lemma_list_has_ui_none(md: Seq<JsonV>)
    requires
        forall|i: int| 0 <= i < md.len() ==> !model_has_ui(#[trigger] md[i]),
    ensures
        !list_has_ui(JsonV::Array(md)),
{
    let x = JsonV::Array(md);
    assert(x->Array_0 == md);
    assert(list_has_ui(x) == exists|i: int| 0 <= i < md.len() && model_has_ui(#[trigger] md[i]));
}

proof fn lemma_provider_has_ui_witness(p: JsonV, md: Seq<JsonV>, j: int)
    requires
        field(p, "models"@) == Some(JsonV::Array(md)),
        0 <= j < md.len(),
        model_has_ui(md[j]),
    ensures
        provider_has_ui(p),
{
    lemma_list_has_ui_witness(md, j);
}

/// The members that the UI adds to a model.
pub open spec fn is_ui_key(k: Seq<char>) -> bool {
    k == "lastTestAt"@ || k == "latency"@ || k == "testStatus"@ || k == "testError"@
}

/// `m2` is model `m` as stripping leaves it: anything but an object stays as
/// it is; of an object the UI-only members are gone, `name` is kept, or set
/// to the string `id` when there was none, and every other member is unchanged.
pub open spec fn model_cleaned(m: JsonV, m2: JsonV) -> bool {
    match m {
        JsonV::Object(_) => {
            &&& m2 is Object
            &&& forall|k: Seq<char>| #[trigger] is_ui_key(k) ==> field(m2, k) is None
            &&& forall|k: Seq<char>|
                !is_ui_key(k) && k != "name"@ ==> #[trigger] field(m2, k) == field(m, k)
            &&& field(m2, "name"@) == match field(m, "name"@) {
                Some(n) => Some(n),
                None => match field_str(m, "id"@) {
                    Some(id) => Some(JsonV::Str(id)),
                    None => None,
                },
            }
        },
        _ => m2 == m,
    }
}

/// `b` is `a` with no member but the first `k` changed: an object keeps its
/// keys in their order and every other value; anything else stays as it is.
pub open spec fn only_member_changed(a: JsonV, b: JsonV, k: Seq<char>) -> bool {
    match a {
        JsonV::Object(es) => match b {
            JsonV::Object(es2) => es2.len() == es.len() && forall|i: int|
                #![trigger es2[i]]
                0 <= i < es.len() ==> es2[i].0 == es[i].0 && (key_pos(es, k) != Some(i) ==> es2[i].1
                    == es[i].1),
            _ => false,
        },
        _ => b == a,
    }
}

/// `p2` is provider `p` as stripping leaves it: only its `models` changes, an
/// array of models keeps its length and order with each model cleaned, and
/// any other `models` value stays.
pub open spec fn provider_cleaned(p: JsonV, p2: JsonV) -> bool {
    &&& only_member_changed(p, p2, "models"@)
    &&& match field(p, "models"@) {
        Some(JsonV::Array(a)) => match field(p2, "models"@) {
            Some(JsonV::Array(a2)) => a2.len() == a.len() && forall|j: int|
                #![trigger a2[j]]
                0 <= j < a.len() ==> model_cleaned(a[j], a2[j]),
            _ => false,
        },
        other => field(p2, "models"@) == other,
    }
}

/// `ps2` is the providers object `ps` as stripping leaves it: the same
/// providers in the same order, each cleaned; anything else stays.
pub open spec fn providers_cleaned(ps: JsonV, ps2: JsonV) -> bool {
    match ps {
        JsonV::Object(es) => match ps2 {
            JsonV::Object(es2) => es2.len() == es.len() && forall|i: int|
                #![trigger es2[i]]
                0 <= i < es.len() ==> es2[i].0 == es[i].0 && provider_cleaned(es[i].1, es2[i].1),
            _ => false,
        },
        _ => ps2 == ps,
    }
}

/// `c2` is configuration `c` as stripping leaves it: only `models.providers`
/// changes, and there each provider as `provider_cleaned` says.
pub open spec fn config_cleaned(c: JsonV, c2: JsonV) -> bool {
    &&& only_member_changed(c, c2, "models"@)
    &&& match field(c, "models"@) {
        Some(m) => match field(c2, "models"@) {
            Some(m2) => {
                &&& only_member_changed(m, m2, "providers"@)
                &&& match field(m, "providers"@) {
                    Some(ps) => match field(m2, "providers"@) {
                        Some(ps2) => providers_cleaned(ps, ps2),
                        None => false,
                    },
                    None => field(m2, "providers"@) is None,
                }
            },
            None => false,
        },
        None => field(c2, "models"@) is None,
    }
}

proof fn lemma_update_field_frame(j: JsonV, k: Seq<char>, f: spec_fn(JsonV) -> JsonV)
    ensures
        only_member_changed(j, update_field(j, k, f), k),
{
    match j {
        JsonV::Object(es) => {
            crate::json::lemma_key_pos(es, k);
        },
        _ => {},
    }
}

proof fn lemma_ui_key_names()
    ensures
        !is_ui_key("name"@),
        !is_ui_key("id"@),
        "name"@ != "id"@,
        is_ui_key("lastTestAt"@),
        is_ui_key("latency"@),
        is_ui_key("testStatus"@),
        is_ui_key("testError"@),
        "lastTestAt"@ != "latency"@,
        "lastTestAt"@ != "testStatus"@,
        "lastTestAt"@ != "testError"@,
        "latency"@ != "testStatus"@,
        "latency"@ != "testError"@,
        "testStatus"@ != "testError"@,
{
    reveal_strlit("lastTestAt");
    reveal_strlit("latency");
    reveal_strlit("testStatus");
    reveal_strlit("testError");
    reveal_strlit("name");
    reveal_strlit("id");
    assert("name"@.len() == 4 && "id"@.len() == 2 && "latency"@.len() == 7);
    assert("lastTestAt"@.len() == 10 && "testStatus"@.len() == 10 && "testError"@.len() == 9);
    assert("lastTestAt"@[0] != "testStatus"@[0]);
}

proof fn lemma_clean_model_frame(m: JsonV)
    ensures
        model_cleaned(m, clean_model(m)),
{
    lemma_ui_key_names();
    match m {
        JsonV::Object(es) => {
            let a = without_key(es, "lastTestAt"@);
            let b = without_key(a, "latency"@);
            let c = without_key(b, "testStatus"@);
            let e1 = without_key(c, "testError"@);
            assert forall|k: Seq<char>| !is_ui_key(k) implies field(JsonV::Object(e1), k) == field(
                m,
                k,
            ) by {
                lemma_field_without_other(es, "lastTestAt"@, k);
                lemma_field_without_other(a, "latency"@, k);
                lemma_field_without_other(b, "testStatus"@, k);
                lemma_field_without_other(c, "testError"@, k);
            }
            assert forall|k: Seq<char>| is_ui_key(k) implies field(JsonV::Object(e1), k) is None by {
                if k == "lastTestAt"@ {
                    lemma_field_without_key(es, k);
                    lemma_field_without_other(a, "latency"@, k);
                    lemma_field_without_other(b, "testStatus"@, k);
                    lemma_field_without_other(c, "testError"@, k);
                } else if k == "latency"@ {
                    lemma_field_without_key(a, k);
                    lemma_field_without_other(b, "testStatus"@, k);
                    lemma_field_without_other(c, "testError"@, k);
                } else if k == "testStatus"@ {
                    lemma_field_without_key(b, k);
                    lemma_field_without_other(c, "testError"@, k);
                } else {
                    lemma_field_without_key(c, k);
                }
            }
            assert(field(JsonV::Object(e1), "name"@) == field(m, "name"@));
            assert(field(JsonV::Object(e1), "id"@) == field(m, "id"@));
            lemma_field_is_some(e1, "name"@);
            match field_str(JsonV::Object(e1), "id"@) {
                Some(id) => {
                    if !has_key(e1, "name"@) {
                        let r = assoc_insert(e1, "name"@, JsonV::Str(id));
                        assert forall|k: Seq<char>| #[trigger]
                            field(JsonV::Object(r), k) == if k == "name"@ {
                                Some(JsonV::Str(id))
                            } else {
                                field(JsonV::Object(e1), k)
                            } by {
                            lemma_field_assoc_insert(e1, "name"@, JsonV::Str(id), k);
                        }
                        assert(field(JsonV::Object(r), "name"@) == Some(JsonV::Str(id)));
                    }
                },
                None => {},
            }
        },
        _ => {},
    }
}

proof fn lemma_clean_provider_frame(p: JsonV)
    ensures
        provider_cleaned(p, clean_provider(p)),
{
    let f = |ms: JsonV| map_array(ms, |m: JsonV| clean_model(m));
    lemma_update_field_frame(p, "models"@, f);
    lemma_field_of_update(p, "models"@, f);
    match field(p, "models"@) {
        Some(JsonV::Array(a)) => {
            let a2 = a.map_values(|m: JsonV| clean_model(m));
            assert(field(clean_provider(p), "models"@) == Some(JsonV::Array(a2)));
            assert forall|j: int| 0 <= j < a.len() implies model_cleaned(a[j], #[trigger] a2[j]) by {
                lemma_clean_model_frame(a[j]);
            }
        },
        _ => {},
    }
}

/// Law (what stripping leaves untouched): `strip_ui_fields` changes nothing
/// but the models under `models.providers`; objects keep their keys in order,
/// model arrays keep their length and order, and each model loses only its
/// UI-only members and gains only a `name` taken from its string `id`.
pub proof fn law_strip_keeps_the_rest(config: JsonV)
    ensures
        config_cleaned(config, strip_ui(config)),
{
    let g = |m: JsonV| clean_models_section(m);
    lemma_update_field_frame(config, "models"@, g);
    lemma_field_of_update(config, "models"@, g);
    match field(config, "models"@) {
        Some(m) => {
            let h = |ps: JsonV| clean_providers(ps);
            lemma_update_field_frame(m, "providers"@, h);
            lemma_field_of_update(m, "providers"@, h);
            match field(m, "providers"@) {
                Some(ps) => {
                    match ps {
                        JsonV::Object(es) => {
                            let es2 = es.map_values(
                                |e: (Seq<char>, JsonV)| (e.0, clean_provider(e.1)),
                            );
                            match clean_providers(ps) {
                                JsonV::Object(t) => {
                                    assert(t =~= es2);
                                },
                                _ => {},
                            }
                            assert forall|i: int| 0 <= i < es.len() implies #[trigger] es2[i].0
                                == es[i].0 && provider_cleaned(es[i].1, es2[i].1) by {
                                lemma_clean_provider_frame(es[i].1);
                            }
                        },
                        _ => {},
                    }
                },
                None => {},
            }
        },
        None => {},
    }
}

/// A model that stripping leaves tidy: no UI-only member, and a `name`
/// whenever its `id` is a string.
pub open spec fn tidy_model(m: JsonV) -> bool {
    &&& !model_has_ui(m)
    &&& (field_str(m, "id"@) is Some ==> field(m, "name"@) is Some)
}

/// Every model object under `models.providers.*.models` (each level an
/// object, the last an array) is tidy.
pub open spec fn every_model_tidy(c: JsonV) -> bool {
    match field(c, "models"@) {
        Some(m) => match field(m, "providers"@) {
            Some(JsonV::Object(es)) => forall|i: int|
                #![trigger es[i]]
                0 <= i < es.len() ==> match field(es[i].1, "models"@) {
                    Some(JsonV::Array(a)) => forall|j: int|
                        #![trigger a[j]]
                        0 <= j < a.len() ==> tidy_model(a[j]),
                    _ => true,
                },
            _ => true,
        },
        None => true,
    }
}

proof fn lemma_cleaned_model_tidy(m: JsonV, m2: JsonV)
    requires
        model_cleaned(m, m2),
    ensures
        tidy_model(m2),
{
    lemma_ui_key_names();
    match m2 {
        JsonV::Object(es2) => {
            lemma_field_is_some(es2, "lastTestAt"@);
            lemma_field_is_some(es2, "latency"@);
            lemma_field_is_some(es2, "testStatus"@);
            lemma_field_is_some(es2, "testError"@);
            assert(field(m2, "lastTestAt"@) is None);
            assert(field(m2, "latency"@) is None);
            assert(field(m2, "testStatus"@) is None);
            assert(field(m2, "testError"@) is None);
            if field_str(m2, "id"@) is Some {
                assert(field(m2, "id"@) == field(m, "id"@));
            }
        },
        _ => {},
    }
}

/// Law: after `strip_ui_fields`, every model under `models.providers` has no
/// UI-only member left, and every model whose `id` is a string has a `name`.
pub proof fn law_stripped_models_named(config: JsonV)
    ensures
        every_model_tidy(strip_ui(config)),
{
    law_strip_keeps_the_rest(config);
    let c2 = strip_ui(config);
    match field(c2, "models"@) {
        Some(m2) => {
            let m = field(config, "models"@)->0;
            match field(m2, "providers"@) {
                Some(JsonV::Object(es2)) => {
                    let ps = field(m, "providers"@)->0;
                    assert(providers_cleaned(ps, JsonV::Object(es2)));
                    assert forall|i: int| 0 <= i < es2.len() implies match field(
                        #[trigger] es2[i].1,
                        "models"@,
                    ) {
                        Some(JsonV::Array(a)) => forall|j: int|
                            #![trigger a[j]]
                            0 <= j < a.len() ==> tidy_model(a[j]),
                        _ => true,
                    } by {
                        match ps {
                            JsonV::Object(es) => {
                                assert(provider_cleaned(es[i].1, es2[i].1));
                                match field(es2[i].1, "models"@) {
                                    Some(JsonV::Array(a2)) => {
                                        match field(es[i].1, "models"@) {
                                            Some(JsonV::Array(a)) => {
                                                assert forall|j: int| 0 <= j < a2.len() implies tidy_model(
                                                    #[trigger] a2[j],
                                                ) by {
                                                    lemma_cleaned_model_tidy(a[j], a2[j]);
                                                }
                                            },
                                            _ => {},
                                        }
                                    },
                                    _ => {},
                                }
                            },
                            _ => {},
                        }
                    }
                },
                _ => {},
            }
        },
        None => {},
    }
}

/// `has_ui_fields`: does any model under `models.providers` carry a UI-only field?
pub fn has_ui_fields(config: &Json) -> (r: bool)
    ensures
        r == has_ui(config.deep()),
{
    let models = match config.get("models") {
        Some(m) => m,
        None => return false,
    };
    let ps = match models.get("providers") {
        Some(Json::Object(ps)) => ps,
        _ => return false,
    };
    proof {
        lemma_object_deep(*ps);
    }
    let n = ps.len();
    for i in 0..n
        invariant
            n == ps@.len(),
            field(config.deep(), "models"@) == Some(models.deep()),
            field(models.deep(), "providers"@) == Some(JsonV::Object(entries_deep(ps@))),
            forall|j: int| 0 <= j < i ==> !provider_has_ui(#[trigger] entries_deep(ps@)[j].1),
    {
        let p = &ps[i].1;
        if let Some(Json::Array(ms)) = p.get("models") {
            proof {
                lemma_array_deep(*ms);
            }
            let nm = ms.len();
            for j in 0..nm
                invariant
                    nm == ms@.len(),
                    n == ps@.len(),
                    i < n,
                    p.deep() == entries_deep(ps@)[i as int].1,
                    field(config.deep(), "models"@) == Some(models.deep()),
                    field(models.deep(), "providers"@) == Some(JsonV::Object(entries_deep(ps@))),
                    field(p.deep(), "models"@) == Some(JsonV::Array(elems_deep(ms@))),
                    forall|t: int| 0 <= t < j ==> !model_has_ui(#[trigger] elems_deep(ms@)[t]),
            {
                if let Json::Object(es) = &ms[j] {
                    proof {
                        lemma_object_deep(*es);
                    }
                    if find_key(es, "lastTestAt").is_some() || find_key(es, "latency").is_some()
                        || find_key(es, "testStatus").is_some() || find_key(es, "testError").is_some() {
                        proof {
                            let md = elems_deep(ms@);
                            assert(model_has_ui(md[j as int]));
                            assert(0 <= j < md.len());
                            assert(exists|t: int| 0 <= t < md.len() && #[trigger] model_has_ui(md[t]));
                            assert(field(p.deep(), "models"@) == Some(JsonV::Array(md)));
                            lemma_provider_has_ui_witness(p.deep(), md, j as int);
                            assert(provider_has_ui(p.deep()));
                            assert(provider_has_ui(entries_deep(ps@)[i as int].1));
                            lemma_providers_have_ui_witness(entries_deep(ps@), i as int);
                        }
                        return true;
                    }
                }
            }
            proof {
                lemma_list_has_ui_none(elems_deep(ms@));
                assert(!provider_has_ui(entries_deep(ps@)[i as int].1));
            }
        }
    }
    proof {
        lemma_providers_have_ui_none(entries_deep(ps@));
    }
    false
}

} // verus!

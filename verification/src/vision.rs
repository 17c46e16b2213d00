//! Declaring every configured model able to take images: each model object
//! without an `input` member gets `input: ["text", "image"]`.
use vstd::prelude::*;
use crate::json::{
    Json, JsonV, FieldHole, take_field, put_field, find_key, obj_insert, field, has_key,
    assoc_insert, update_field, map_array, map_members, entries_deep, elems_deep, opt_field,
    lemma_object_deep, lemma_array_deep, lemma_remove_insert, lemma_field_of_update,
    lemma_assoc_insert_has,
};
use crate::text::owned;

verus! {

/// `["text", "image"]`.
pub open spec fn vision_input() -> JsonV {
    JsonV::Array(seq![JsonV::Str("text"@), JsonV::Str("image"@)])
}

/// A model object that declares no `input`.
pub open spec fn lacks_input(m: JsonV) -> bool {
    match m {
        JsonV::Object(es) => !has_key(es, "input"@),
        _ => false,
    }
}

/// A model with `input` set to `["text", "image"]` where it declares none.
pub open spec fn vision_model(m: JsonV) -> JsonV {
    match m {
        JsonV::Object(es) => if !has_key(es, "input"@) {
            JsonV::Object(assoc_insert(es, "input"@, vision_input()))
        } else {
            m
        },
        _ => m,
    }
}

pub open spec fn vision_provider(p: JsonV) -> JsonV {
    update_field(p, "models"@, |ms: JsonV| map_array(ms, |m: JsonV| vision_model(m)))
}

pub open spec fn vision_models_section(m: JsonV) -> JsonV {
    update_field(m, "providers"@, |ps: JsonV| map_members(ps, |p: JsonV| vision_provider(p)))
}

/// The configuration with `vision_model` applied to every model of
/// `models.providers.*.models`.
pub open spec fn vision_config(c: JsonV) -> JsonV {
    update_field(c, "models"@, |m: JsonV| vision_models_section(m))
}

/// A provider whose `models` array holds a model that declares no `input`.
pub open spec fn provider_lacks_input(p: JsonV) -> bool {
    match field(p, "models"@) {
        Some(JsonV::Array(a)) => exists|j: int| 0 <= j < a.len() && lacks_input(#[trigger] a[j]),
        _ => false,
    }
}

/// Does some model under `models.providers` declare no `input`? (Whether the
/// patch changes the file.)
pub open spec fn config_lacks_input(c: JsonV) -> bool {
    match opt_field(field(c, "models"@), "providers"@) {
        Some(JsonV::Object(es)) => exists|i: int|
            0 <= i < es.len() && #[trigger] provider_lacks_input(es[i].1),
        _ => false,
    }
}

fn vision_input_exec() -> (r: Json)
    ensures
        r.deep() == vision_input(),
{
    let mut a: Vec<Json> = Vec::new();
    a.push(Json::text("text"));
    a.push(Json::text("image"));
    proof {
        lemma_array_deep(a);
        assert(elems_deep(a@) =~= seq![JsonV::Str("text"@), JsonV::Str("image"@)]);
    }
    Json::Array(a)
}

fn vision_model_exec(m: Json) -> (r: (Json, bool))
    ensures
        r.0.deep() == vision_model(m.deep()),
        r.1 == lacks_input(m.deep()),
{
    match m {
        Json::Object(es) => {
            let mut es = es;
            proof {
                lemma_object_deep(es);
            }
            if find_key(&es, "input").is_none() {
                obj_insert(&mut es, owned("input"), vision_input_exec());
                proof {
                    lemma_object_deep(es);
                }
                (Json::Object(es), true)
            } else {
                (Json::Object(es), false)
            }
        },
        other => (other, false),
    }
}

fn vision_model_list(ms: Vec<Json>) -> (r: (Vec<Json>, bool))
    ensures
        elems_deep(r.0@) == elems_deep(ms@).map_values(|m: JsonV| vision_model(m)),
        r.1 == exists|j: int| 0 <= j < ms@.len() && lacks_input(#[trigger] elems_deep(ms@)[j]),
{
    let ghost src = ms@;
    let mut out: Vec<Json> = Vec::new();
    let mut changed = false;
    for m in it: ms.into_iter()
        invariant
            it.seq() == src,
            out@.len() == it.index(),
            forall|j: int|
                0 <= j < it.index() ==> #[trigger] out@[j].deep() == vision_model(src[j].deep()),
            changed == exists|j: int| 0 <= j < it.index() && lacks_input(#[trigger] src[j].deep()),
    {
        let ghost i = it.index();
        let (c, ch) = vision_model_exec(m);
        proof {
            if ch {
                assert(lacks_input(src[i as int].deep()));
            }
            if !changed && !ch {
                assert forall|j: int| 0 <= j < i + 1 implies !lacks_input(#[trigger] src[j].deep()) by {
                    if j < i {
                    } else {
                        assert(j == i);
                    }
                }
            }
        }
        out.push(c);
        changed = changed || ch;
    }
    proof {
        assert(elems_deep(out@) =~= elems_deep(src).map_values(|m: JsonV| vision_model(m)));
        if changed {
            let j = choose|j: int| 0 <= j < src.len() && lacks_input(#[trigger] src[j].deep());
            assert(elems_deep(src)[j] == src[j].deep());
        } else {
            assert forall|j: int| 0 <= j < src.len() implies !lacks_input(
                #[trigger] elems_deep(src)[j],
            ) by {
                assert(elems_deep(src)[j] == src[j].deep());
            }
        }
    }
    (out, changed)
}

fn vision_provider_exec(p: Json) -> (r: (Json, bool))
    ensures
        r.0.deep() == vision_provider(p.deep()),
        r.1 == provider_lacks_input(p.deep()),
{
    let ghost pd = p.deep();
    match take_field(p, "models") {
        FieldHole::Found { rest, index, key, value } => {
            let ghost vd = value.deep();
            let (nv, ch) = match value {
                Json::Array(ms) => {
                    proof {
                        lemma_array_deep(ms);
                    }
                    let (c, ch) = vision_model_list(ms);
                    proof {
                        lemma_array_deep(c);
                    }
                    (Json::Array(c), ch)
                },
                other => (other, false),
            };
            proof {
                assert(nv.deep() == map_array(vd, |m: JsonV| vision_model(m)));
                let es = pd->Object_0;
                assert(field(pd, "models"@) == Some(vd));
                lemma_remove_insert(es, index as int, (key@, nv.deep()));
            }
            (put_field(rest, index, key, nv), ch)
        },
        FieldHole::Absent(o) => (o, false),
    }
}

proof fn lemma_config_lacks_witness(es: Seq<(Seq<char>, JsonV)>, i: int)
    requires
        0 <= i < es.len(),
        provider_lacks_input(es[i].1),
    ensures
        exists|t: int| 0 <= t < es.len() && #[trigger] provider_lacks_input(es[t].1),
{
}

fn vision_providers_exec(ps: Json) -> (r: (Json, bool))
    ensures
        r.0.deep() == map_members(ps.deep(), |p: JsonV| vision_provider(p)),
        r.1 == match ps.deep() {
            JsonV::Object(es) => exists|i: int|
                0 <= i < es.len() && #[trigger] provider_lacks_input(es[i].1),
            _ => false,
        },
{
    match ps {
        Json::Object(es) => {
            proof {
                lemma_object_deep(es);
            }
            let ghost src = es@;
            let mut out: Vec<(String, Json)> = Vec::new();
            let mut changed = false;
            for e in it: es.into_iter()
                invariant
                    it.seq() == src,
                    out@.len() == it.index(),
                    forall|j: int|
                        0 <= j < it.index() ==> #[trigger] out@[j].0@ == src[j].0@ && out@[j].1.deep()
                            == vision_provider(src[j].1.deep()),
                    changed == exists|j: int|
                        0 <= j < it.index() && provider_lacks_input(#[trigger] src[j].1.deep()),
            {
                let ghost i = it.index();
                let (k, v) = e;
                let (c, ch) = vision_provider_exec(v);
                proof {
                    if ch {
                        assert(provider_lacks_input(src[i as int].1.deep()));
                    }
                    if !changed && !ch {
                        assert forall|j: int| 0 <= j < i + 1 implies !provider_lacks_input(
                            #[trigger] src[j].1.deep(),
                        ) by {
                            if j < i {
                            } else {
                                assert(j == i);
                            }
                        }
                    }
                }
                out.push((k, c));
                changed = changed || ch;
            }
            proof {
                lemma_object_deep(out);
                let d = entries_deep(src);
                match map_members(JsonV::Object(d), |p: JsonV| vision_provider(p)) {
                    JsonV::Object(t) => {
                        assert(t =~= entries_deep(out@));
                    },
                    _ => {},
                }
                if changed {
                    let j = choose|j: int|
                        0 <= j < src.len() && provider_lacks_input(#[trigger] src[j].1.deep());
                    assert(d[j].1 == src[j].1.deep());
                    lemma_config_lacks_witness(d, j);
                } else {
                    assert forall|j: int| 0 <= j < d.len() implies !provider_lacks_input(
                        #[trigger] d[j].1,
                    ) by {
                        assert(d[j].1 == src[j].1.deep());
                    }
                }
            }
            (Json::Object(out), changed)
        },
        other => (other, false),
    }
}

/// Sets `input: ["text", "image"]` on every model object under
/// `models.providers.*.models` that declares no `input`; the flag says whether
/// any did, and so whether the file must be written back.
pub fn patch_model_vision(config: Json) -> (r: (Json, bool))
    ensures
        r.0.deep() == vision_config(config.deep()),
        r.1 == config_lacks_input(config.deep()),
{
    let ghost cd = config.deep();
    match take_field(config, "models") {
        FieldHole::Found { rest, index, key, value } => {
            let ghost md = value.deep();
            let (nv, ch) = match take_field(value, "providers") {
                FieldHole::Found { rest: r2, index: i2, key: k2, value: v2 } => {
                    let (pv, ch) = vision_providers_exec(v2);
                    proof {
                        let es = md->Object_0;
                        lemma_remove_insert(es, i2 as int, (k2@, pv.deep()));
                    }
                    (put_field(r2, i2, k2, pv), ch)
                },
                FieldHole::Absent(o) => (o, false),
            };
            proof {
                let es = cd->Object_0;
                lemma_remove_insert(es, index as int, (key@, nv.deep()));
            }
            (put_field(rest, index, key, nv), ch)
        },
        FieldHole::Absent(o) => (o, false),
    }
}


proof fn lemma_vision_model(m: JsonV)
    ensures
        !lacks_input(vision_model(m)),
{
    match m {
        JsonV::Object(es) => {
            if !has_key(es, "input"@) {
                lemma_assoc_insert_has(es, "input"@, vision_input(), "input"@);
            }
        },
        _ => {},
    }
}

proof fn lemma_vision_provider(p: JsonV)
    ensures
        !provider_lacks_input(vision_provider(p)),
{
    let f = |ms: JsonV| map_array(ms, |m: JsonV| vision_model(m));
    lemma_field_of_update(p, "models"@, f);
    match field(p, "models"@) {
        Some(JsonV::Array(a)) => {
            let mapped = a.map_values(|m: JsonV| vision_model(m));
            assert(field(vision_provider(p), "models"@) == Some(JsonV::Array(mapped)));
            assert forall|j: int| 0 <= j < mapped.len() implies !lacks_input(#[trigger] mapped[j]) by {
                lemma_vision_model(a[j]);
            }
        },
        _ => {},
    }
}

/// Law: after the patch, every model object under `models.providers` declares
/// an `input`, so a second patch changes nothing.
pub proof fn law_vision_patch_complete(config: JsonV)
    ensures
        !config_lacks_input(vision_config(config)),
{
    let g = |m: JsonV| vision_models_section(m);
    lemma_field_of_update(config, "models"@, g);
    match field(config, "models"@) {
        Some(m) => {
            let h = |ps: JsonV| map_members(ps, |p: JsonV| vision_provider(p));
            lemma_field_of_update(m, "providers"@, h);
            match field(m, "providers"@) {
                Some(JsonV::Object(es)) => {
                    let mapped = es.map_values(|e: (Seq<char>, JsonV)| (e.0, vision_provider(e.1)));
                    match map_members(JsonV::Object(es), |p: JsonV| vision_provider(p)) {
                        JsonV::Object(t) => {
                            assert(t =~= mapped);
                        },
                        _ => {},
                    }
                    assert forall|i: int| 0 <= i < mapped.len() implies !provider_lacks_input(
                        #[trigger] mapped[i].1,
                    ) by {
                        lemma_vision_provider(es[i].1);
                    }
                },
                _ => {},
            }
        },
        None => {},
    }
}

} // verus!

//! Keeping each agent's model registry (`agents/<id>/agent/models.json`) in step
//! with the providers of `openclaw.json`: providers that were removed go, new
//! ones come, connection fields follow, and models that were removed go.
use vstd::prelude::*;
use crate::json::{
    Json, JsonV, FieldHole, take_field, put_field, find_key, obj_insert, obj_take, obj_put_back,
    field, field_str, as_str, has_key, key_pos, assoc_insert, opt_field, entries_deep,
    elems_deep, lemma_object_deep, lemma_array_deep, lemma_entries_deep_push,
    lemma_elems_deep_push, lemma_remove_insert, lemma_key_pos, lemma_key_pos_is,
    lemma_key_pos_none, lemma_key_pos_update, lemma_has_key_exists, lemma_assoc_insert_has,
    lemma_field_assoc_insert,
};
use crate::text::{str_eq, owned, sviews};

verus! {

/// The id of a model entry: its `id` member when that is a string, else the
/// entry itself when it is a string.
pub open spec fn model_id(m: JsonV) -> Option<Seq<char>> {
    match field_str(m, "id"@) {
        Some(s) => Some(s),
        None => as_str(m),
    }
}

/// The model list of a provider: its `models` member when that is an array,
/// else no model at all.
pub open spec fn provider_models(p: JsonV) -> Seq<JsonV> {
    match field(p, "models"@) {
        Some(JsonV::Array(a)) => a,
        _ => Seq::empty(),
    }
}

/// Does some model of `ms` have the id `id`?
pub open spec fn id_listed(ms: Seq<JsonV>, id: Seq<char>) -> bool {
    exists|j: int| 0 <= j < ms.len() && model_id(ms[j]) == Some(id)
}

/// Is the model `m` still listed in `src`? A model without an id counts as id "".
pub open spec fn still_listed(src: Seq<JsonV>) -> spec_fn(JsonV) -> bool {
    |m: JsonV|
        id_listed(
            src,
            match model_id(m) {
                Some(s) => s,
                None => Seq::empty(),
            },
        )
}

/// The model id of a JSON entry, as `model_id` states it.
pub fn model_id_of(m: &Json) -> (r: Option<&str>)
    ensures
        r matches Some(s) ==> model_id(m.deep()) == Some(s@),
        r is None ==> model_id(m.deep()) is None,
{
    match m.get_str("id") {
        Some(s) => Some(s),
        None => m.as_str(),
    }
}

fn id_listed_exec(src: &Vec<Json>, id: &str) -> (r: bool)
    ensures
        r == id_listed(elems_deep(src@), id@),
{
    let n = src.len();
    let ghost d = elems_deep(src@);
    for j in 0..n
        invariant
            n == src@.len(),
            d == elems_deep(src@),
            forall|k: int| 0 <= k < j ==> model_id(#[trigger] d[k]) != Some(id@),
    {
        match model_id_of(&src[j]) {
            Some(s) => {
                if str_eq(s, id) {
                    assert(model_id(d[j as int]) == Some(id@));
                    return true;
                }
            },
            None => {},
        }
    }
    assert(!id_listed(d, id@));
    false
}

/// Keeps the models of `ms` that `src` still lists.
fn prune_list(ms: Vec<Json>, src: &Vec<Json>) -> (r: Vec<Json>)
    ensures
        elems_deep(r@) == elems_deep(ms@).filter(still_listed(elems_deep(src@))),
{
    let ghost s = ms@;
    let ghost pred = still_listed(elems_deep(src@));
    let mut out: Vec<Json> = Vec::new();
    proof {
        reveal(Seq::filter);
        assert(elems_deep(out@) =~= Seq::empty());
        assert(elems_deep(s.take(0)) =~= Seq::empty());
    }
    for m in it: ms.into_iter()
        invariant
            it.seq() == s,
            pred == still_listed(elems_deep(src@)),
            elems_deep(out@) == elems_deep(s.take(it.index() as int)).filter(pred),
    {
        let ghost n = it.index();
        proof {
            reveal(Seq::filter);
            reveal_strlit("");
            assert(elems_deep(s.take(n + 1)).drop_last() =~= elems_deep(s.take(n as int)));
            assert(elems_deep(s.take(n + 1)).last() == m.deep());
        }
        let id = match model_id_of(&m) {
            Some(x) => x,
            None => "",
        };
        proof {
            reveal_strlit("");
            let want = match model_id(m.deep()) {
                Some(x) => x,
                None => Seq::<char>::empty(),
            };
            assert(id@ == want);
            assert(pred(m.deep()) == id_listed(elems_deep(src@), want));
        }
        let keep = id_listed_exec(src, id);
        if keep {
            proof {
                lemma_elems_deep_push(out@, m);
            }
            out.push(m);
        }
    }
    proof {
        assert(s.take(s.len() as int) =~= s);
    }
    out
}


/// `models` of a provider object with the models that `src` no longer lists
/// removed, and whether any was removed.
pub open spec fn prune_spec(es: Seq<(Seq<char>, JsonV)>, src: Seq<JsonV>) -> (
    Seq<(Seq<char>, JsonV)>,
    bool,
) {
    match key_pos(es, "models"@) {
        Some(i) => match es[i].1 {
            JsonV::Array(ms) => {
                let kept = ms.filter(still_listed(src));
                (es.update(i, (es[i].0, JsonV::Array(kept))), kept.len() != ms.len())
            },
            _ => (es, false),
        },
        None => (es, false),
    }
}

fn prune_models(es: &mut Vec<(String, Json)>, src: &Vec<Json>) -> (changed: bool)
    ensures
        (entries_deep(final(es)@), changed) == prune_spec(entries_deep(old(es)@), elems_deep(src@)),
{
    let ghost e0 = es@;
    match find_key(es, "models") {
        Some(i) => {
            let (k, v) = obj_take(es, i);
            match v {
                Json::Array(ms) => {
                    let before = ms.len();
                    proof {
                        lemma_array_deep(ms);
                    }
                    let kept = prune_list(ms, src);
                    let after = kept.len();
                    let nv = Json::Array(kept);
                    proof {
                        lemma_array_deep(kept);
                        lemma_remove_insert(e0, i as int, (k, nv));
                        assert(entries_deep(e0.update(i as int, (k, nv))) =~= entries_deep(e0).update(
                            i as int,
                            (k@, nv.deep()),
                        ));
                    }
                    obj_put_back(es, i, (k, nv));
                    before != after
                },
                other => {
                    proof {
                        lemma_remove_insert(e0, i as int, (k, other));
                        assert(e0.update(i as int, (k, other)) =~= e0);
                    }
                    obj_put_back(es, i, (k, other));
                    false
                },
            }
        },
        None => false,
    }
}

/// Sets member `f` to the string that the configured provider `sp` gives it,
/// where it differs; and whether it did.
pub open spec fn sync_field_spec(es: Seq<(Seq<char>, JsonV)>, sp: JsonV, f: Seq<char>) -> (
    Seq<(Seq<char>, JsonV)>,
    bool,
) {
    match field_str(sp, f) {
        Some(s) => if field_str(JsonV::Object(es), f) != Some(s) {
            (assoc_insert(es, f, JsonV::Str(s)), true)
        } else {
            (es, false)
        },
        None => (es, false),
    }
}

fn sync_field(es: &mut Vec<(String, Json)>, sp: &Json, f: &str) -> (changed: bool)
    ensures
        (entries_deep(final(es)@), changed) == sync_field_spec(entries_deep(old(es)@), sp.deep(), f@),
{
    proof {
        lemma_object_deep(*es);
    }
    match sp.get_str(f) {
        Some(s) => {
            let same = match find_key(es, f) {
                Some(i) => match &es[i].1 {
                    Json::Str(c) => str_eq(c.as_str(), s),
                    _ => false,
                },
                None => false,
            };
            if !same {
                obj_insert(es, owned(f), Json::text(s));
                true
            } else {
                false
            }
        },
        None => false,
    }
}

/// An agent's provider brought in step with the configured provider `sp`:
/// `baseUrl`, `apiKey` and `api` follow it, and models it no longer lists go.
/// Anything but an object stays as it is.
pub open spec fn sync_provider_spec(dp: JsonV, sp: JsonV) -> (JsonV, bool) {
    match dp {
        JsonV::Object(es) => {
            let a = sync_field_spec(es, sp, "baseUrl"@);
            let b = sync_field_spec(a.0, sp, "apiKey"@);
            let c = sync_field_spec(b.0, sp, "api"@);
            let d = prune_spec(c.0, provider_models(sp));
            (JsonV::Object(d.0), a.1 || b.1 || c.1 || d.1)
        },
        _ => (dp, false),
    }
}

fn sync_provider(dp: Json, sp: &Json) -> (r: (Json, bool))
    ensures
        (r.0.deep(), r.1) == sync_provider_spec(dp.deep(), sp.deep()),
{
    match dp {
        Json::Object(es) => {
            let mut es = es;
            proof {
                lemma_object_deep(es);
            }
            let c1 = sync_field(&mut es, sp, "baseUrl");
            let c2 = sync_field(&mut es, sp, "apiKey");
            let c3 = sync_field(&mut es, sp, "api");
            let empty: Vec<Json> = Vec::new();
            let c4 = match sp.get("models") {
                Some(Json::Array(sm)) => {
                    proof {
                        lemma_array_deep(*sm);
                    }
                    prune_models(&mut es, sm)
                },
                _ => {
                    assert(elems_deep(empty@) =~= Seq::empty());
                    prune_models(&mut es, &empty)
                },
            };
            proof {
                lemma_object_deep(es);
            }
            (Json::Object(es), c1 || c2 || c3 || c4)
        },
        other => (other, false),
    }
}


/// Applies `sync_provider_spec` to the agent's provider of each configured
/// provider in turn (those of `src` that the agent has), and whether any changed.
pub open spec fn sync_each_spec(dst: Seq<(Seq<char>, JsonV)>, src: Seq<(Seq<char>, JsonV)>) -> (
    Seq<(Seq<char>, JsonV)>,
    bool,
)
    decreases src.len(),
{
    if src.len() == 0 {
        (dst, false)
    } else {
        let prev = sync_each_spec(dst, src.drop_last());
        let d = prev.0;
        match key_pos(d, src.last().0) {
            Some(j) => {
                let np = sync_provider_spec(d[j].1, src.last().1);
                (d.update(j, (d[j].0, np.0)), prev.1 || np.1)
            },
            None => prev,
        }
    }
}

fn sync_each(dst: &mut Vec<(String, Json)>, src: &Vec<(String, Json)>) -> (changed: bool)
    ensures
        (entries_deep(final(dst)@), changed) == sync_each_spec(
            entries_deep(old(dst)@),
            entries_deep(src@),
        ),
{
    let ghost d0 = entries_deep(dst@);
    let ghost sd = entries_deep(src@);
    let n = src.len();
    let mut changed = false;
    for i in 0..n
        invariant
            n == src@.len(),
            sd == entries_deep(src@),
            (entries_deep(dst@), changed) == sync_each_spec(d0, sd.take(i as int)),
    {
        proof {
            assert(sd.take(i + 1).drop_last() =~= sd.take(i as int));
            assert(sd.take(i + 1).last() == sd[i as int]);
        }
        match find_key(dst, src[i].0.as_str()) {
            Some(j) => {
                let ghost e0 = dst@;
                let (k, v) = obj_take(dst, j);
                let (nv, c) = sync_provider(v, &src[i].1);
                proof {
                    lemma_remove_insert(e0, j as int, (k, nv));
                    assert(entries_deep(e0.update(j as int, (k, nv))) =~= entries_deep(e0).update(
                        j as int,
                        (k@, nv.deep()),
                    ));
                }
                obj_put_back(dst, j, (k, nv));
                changed = changed || c;
            },
            None => {},
        }
    }
    proof {
        assert(sd.take(n as int) =~= sd);
    }
    changed
}

/// Appends each configured provider that the agent does not have, and whether any was.
pub open spec fn add_missing_spec(dst: Seq<(Seq<char>, JsonV)>, src: Seq<(Seq<char>, JsonV)>) -> (
    Seq<(Seq<char>, JsonV)>,
    bool,
)
    decreases src.len(),
{
    if src.len() == 0 {
        (dst, false)
    } else {
        let prev = add_missing_spec(dst, src.drop_last());
        if has_key(prev.0, src.last().0) {
            prev
        } else {
            (prev.0.push(src.last()), true)
        }
    }
}

fn add_missing(dst: &mut Vec<(String, Json)>, src: &Vec<(String, Json)>) -> (changed: bool)
    ensures
        (entries_deep(final(dst)@), changed) == add_missing_spec(
            entries_deep(old(dst)@),
            entries_deep(src@),
        ),
{
    let ghost d0 = entries_deep(dst@);
    let ghost sd = entries_deep(src@);
    let n = src.len();
    let mut changed = false;
    for i in 0..n
        invariant
            n == src@.len(),
            sd == entries_deep(src@),
            (entries_deep(dst@), changed) == add_missing_spec(d0, sd.take(i as int)),
    {
        proof {
            assert(sd.take(i + 1).drop_last() =~= sd.take(i as int));
            assert(sd.take(i + 1).last() == sd[i as int]);
        }
        match find_key(dst, src[i].0.as_str()) {
            Some(_) => {},
            None => {
                let k = src[i].0.clone();
                let v = src[i].1.duplicate();
                proof {
                    lemma_entries_deep_push(dst@, (k, v));
                }
                dst.push((k, v));
                changed = true;
            },
        }
    }
    proof {
        assert(sd.take(n as int) =~= sd);
    }
    changed
}

/// Keeps a provider entry when the configured providers `src` have its name.
pub open spec fn known_in(src: Seq<(Seq<char>, JsonV)>) -> spec_fn((Seq<char>, JsonV)) -> bool {
    |e: (Seq<char>, JsonV)| has_key(src, e.0)
}

fn keep_known(dst: Vec<(String, Json)>, src: &Vec<(String, Json)>) -> (r: Vec<(String, Json)>)
    ensures
        entries_deep(r@) == entries_deep(dst@).filter(known_in(entries_deep(src@))),
{
    let ghost s = dst@;
    let ghost pred = known_in(entries_deep(src@));
    let mut out: Vec<(String, Json)> = Vec::new();
    proof {
        reveal(Seq::filter);
        assert(entries_deep(out@) =~= Seq::empty());
        assert(entries_deep(s.take(0)) =~= Seq::empty());
    }
    for e in it: dst.into_iter()
        invariant
            it.seq() == s,
            pred == known_in(entries_deep(src@)),
            entries_deep(out@) == entries_deep(s.take(it.index() as int)).filter(pred),
    {
        let ghost n = it.index();
        proof {
            reveal(Seq::filter);
            assert(entries_deep(s.take(n + 1)).drop_last() =~= entries_deep(s.take(n as int)));
            assert(entries_deep(s.take(n + 1)).last() == (e.0@, e.1.deep()));
        }
        let known = match find_key(src, e.0.as_str()) {
            Some(_) => true,
            None => false,
        };
        if known {
            proof {
                lemma_entries_deep_push(out@, e);
            }
            out.push(e);
        }
    }
    proof {
        assert(s.take(s.len() as int) =~= s);
    }
    out
}

/// The agent's providers brought in step with the configured ones `src`:
/// unknown providers removed, missing ones added, each one synchronised.
pub open spec fn sync_providers_spec(dst: Seq<(Seq<char>, JsonV)>, src: Seq<(Seq<char>, JsonV)>) -> (
    Seq<(Seq<char>, JsonV)>,
    bool,
) {
    let kept = dst.filter(known_in(src));
    let added = add_missing_spec(kept, src);
    let synced = sync_each_spec(added.0, src);
    (synced.0, kept.len() != dst.len() || added.1 || synced.1)
}

/// `config.models.providers`, when it is an object.
pub open spec fn source_providers(config: JsonV) -> Option<Seq<(Seq<char>, JsonV)>> {
    match opt_field(field(config, "models"@), "providers"@) {
        Some(JsonV::Object(es)) => Some(es),
        _ => None,
    }
}

/// Gives an agent's registry an empty `providers` object when it has none
/// (or one that is not an object), and whether it did.
pub open spec fn ensure_providers(m: JsonV) -> (JsonV, bool) {
    match field(m, "providers"@) {
        Some(JsonV::Object(_)) => (m, false),
        _ => match m {
            JsonV::Object(es) => (
                JsonV::Object(assoc_insert(es, "providers"@, JsonV::Object(Seq::empty()))),
                true,
            ),
            _ => (m, false),
        },
    }
}

/// An agent's `models.json` after synchronisation with `config`, and whether
/// it changed (and so must be written back).
pub open spec fn sync_agent_models_spec(config: JsonV, m: JsonV) -> (JsonV, bool) {
    let e = ensure_providers(m);
    let m1 = e.0;
    match source_providers(config) {
        Some(src) => match m1 {
            JsonV::Object(es) => match key_pos(es, "providers"@) {
                Some(i) => match es[i].1 {
                    JsonV::Object(dst) => {
                        let s = sync_providers_spec(dst, src);
                        (JsonV::Object(es.update(i, (es[i].0, JsonV::Object(s.0)))), e.1 || s.1)
                    },
                    _ => e,
                },
                None => e,
            },
            _ => e,
        },
        None => e,
    }
}

/// Brings an agent's model registry `models_json` in step with the providers of
/// `config` (see `sync_agent_models_spec`); the flag says whether it changed.
pub fn sync_agent_models(config: &Json, models_json: Json) -> (r: (Json, bool))
    ensures
        (r.0.deep(), r.1) == sync_agent_models_spec(config.deep(), models_json.deep()),
{
    let has_obj = match models_json.get("providers") {
        Some(Json::Object(_)) => true,
        _ => false,
    };
    let mut changed = false;
    let m = if has_obj {
        models_json
    } else {
        match models_json {
            Json::Object(es) => {
                let mut es = es;
                let empty: Vec<(String, Json)> = Vec::new();
                proof {
                    lemma_object_deep(es);
                    lemma_object_deep(empty);
                    assert(entries_deep(empty@) =~= Seq::empty());
                }
                obj_insert(&mut es, owned("providers"), Json::Object(empty));
                changed = true;
                proof {
                    lemma_object_deep(es);
                }
                Json::Object(es)
            },
            other => other,
        }
    };
    assert((m.deep(), changed) == ensure_providers(models_json.deep()));
    let src = match config.get("models") {
        Some(mv) => match mv.get("providers") {
            Some(Json::Object(ses)) => {
                proof {
                    lemma_object_deep(*ses);
                }
                Some(ses)
            },
            _ => None,
        },
        None => None,
    };
    match src {
        Some(ses) => {
            let ghost md = m.deep();
            match take_field(m, "providers") {
                FieldHole::Found { rest, index, key, value } => {
                    match value {
                        Json::Object(dst) => {
                            proof {
                                lemma_object_deep(dst);
                            }
                            let before = dst.len();
                            let mut kept = keep_known(dst, ses);
                            let after = kept.len();
                            let ca = add_missing(&mut kept, ses);
                            let cs = sync_each(&mut kept, ses);
                            proof {
                                lemma_object_deep(kept);
                            }
                            let nv = Json::Object(kept);
                            proof {
                                lemma_remove_insert(md->Object_0, index as int, (key@, nv.deep()));
                            }
                            (put_field(rest, index, key, nv), changed || before != after || ca || cs)
                        },
                        other => {
                            proof {
                                let es = md->Object_0;
                                lemma_remove_insert(es, index as int, (key@, other.deep()));
                                assert(es.update(index as int, (key@, other.deep())) =~= es);
                            }
                            (put_field(rest, index, key, other), changed)
                        },
                    }
                },
                FieldHole::Absent(o) => (o, changed),
            }
        },
        None => (m, changed),
    }
}


/// The ids of the agents other than `main` in an `agents.list` array, in order:
/// each element's string `id`, skipping elements without one.
pub open spec fn listed_agent_ids(a: Seq<JsonV>) -> Seq<Seq<char>>
    decreases a.len(),
{
    if a.len() == 0 {
        Seq::empty()
    } else {
        let prev = listed_agent_ids(a.drop_last());
        match field_str(a.last(), "id"@) {
            Some(id) => if id != "main"@ {
                prev.push(id)
            } else {
                prev
            },
            None => prev,
        }
    }
}

/// The agents whose registries are synchronised: `main` first, then those of `agents.list`.
pub open spec fn agent_ids_spec(config: JsonV) -> Seq<Seq<char>> {
    seq!["main"@] + match opt_field(field(config, "agents"@), "list"@) {
        Some(JsonV::Array(a)) => listed_agent_ids(a),
        _ => Seq::empty(),
    }
}

/// The ids of the agents whose model registries follow `config`.
pub fn agent_ids(config: &Json) -> (r: Vec<String>)
    ensures
        sviews(r@) == agent_ids_spec(config.deep()),
{
    let mut out: Vec<String> = Vec::new();
    out.push(owned("main"));
    let list = match config.get("agents") {
        Some(a) => a.get("list"),
        None => None,
    };
    match list {
        Some(Json::Array(a)) => {
            proof {
                lemma_array_deep(*a);
            }
            let ghost d = elems_deep(a@);
            let n = a.len();
            for j in 0..n
                invariant
                    n == a@.len(),
                    d == elems_deep(a@),
                    sviews(out@) == seq!["main"@] + listed_agent_ids(d.take(j as int)),
            {
                proof {
                    assert(d.take(j + 1).drop_last() =~= d.take(j as int));
                    assert(d.take(j + 1).last() == a@[j as int].deep());
                }
                match a[j].get_str("id") {
                    Some(id) => {
                        if !str_eq(id, "main") {
                            let ghost before = out@;
                            out.push(owned(id));
                            proof {
                                assert(sviews(out@) =~= sviews(before).push(id@));
                                assert(seq!["main"@] + listed_agent_ids(d.take(j as int)).push(id@)
                                    =~= (seq!["main"@] + listed_agent_ids(d.take(j as int))).push(id@));
                            }
                        }
                    },
                    None => {},
                }
            }
            proof {
                assert(d.take(n as int) =~= d);
            }
        },
        _ => {
            proof {
                assert(sviews(out@) =~= seq!["main"@] + Seq::<Seq<char>>::empty());
            }
        },
    }
    out
}


proof fn lemma_same_keys(a: Seq<(Seq<char>, JsonV)>, b: Seq<(Seq<char>, JsonV)>, k: Seq<char>)
    requires
        a.len() == b.len(),
        forall|i: int| 0 <= i < a.len() ==> a[i].0 == b[i].0,
    ensures
        key_pos(a, k) == key_pos(b, k),
{
    lemma_key_pos(a, k);
    match key_pos(a, k) {
        Some(p) => {
            assert forall|j: int| 0 <= j < p implies b[j].0 != k by {
                assert(a[j].0 != k);
            }
            lemma_key_pos_is(b, k, p);
        },
        None => {
            assert forall|j: int| 0 <= j < b.len() implies b[j].0 != k by {
                assert(a[j].0 != k);
            }
            lemma_key_pos_none(b, k);
        },
    }
}

proof fn lemma_sync_each_keys(dst: Seq<(Seq<char>, JsonV)>, src: Seq<(Seq<char>, JsonV)>)
    ensures
        sync_each_spec(dst, src).0.len() == dst.len(),
        forall|i: int| 0 <= i < dst.len() ==> #[trigger] sync_each_spec(dst, src).0[i].0 == dst[i].0,
    decreases src.len(),
{
    if src.len() > 0 {
        lemma_sync_each_keys(dst, src.drop_last());
        let d = sync_each_spec(dst, src.drop_last()).0;
        lemma_key_pos(d, src.last().0);
    }
}

proof fn lemma_has_key_drop_last(s: Seq<(Seq<char>, JsonV)>, k: Seq<char>)
    requires
        s.len() > 0,
    ensures
        has_key(s, k) == (has_key(s.drop_last(), k) || s.last().0 == k),
{
    let init = s.drop_last();
    lemma_has_key_exists(s, k);
    lemma_has_key_exists(init, k);
    if has_key(s, k) {
        let j = choose|j: int| 0 <= j < s.len() && #[trigger] s[j].0 == k;
        if j < s.len() - 1 {
            assert(init[j].0 == k);
        }
    }
    if has_key(init, k) {
        let j = choose|j: int| 0 <= j < init.len() && #[trigger] init[j].0 == k;
        assert(s[j].0 == k);
    }
    if s.last().0 == k {
        assert(s[s.len() - 1].0 == k);
    }
}

proof fn lemma_add_missing_has(dst: Seq<(Seq<char>, JsonV)>, src: Seq<(Seq<char>, JsonV)>, k: Seq<char>)
    ensures
        has_key(add_missing_spec(dst, src).0, k) == (has_key(dst, k) || has_key(src, k)),
    decreases src.len(),
{
    if src.len() > 0 {
        let init = src.drop_last();
        lemma_add_missing_has(dst, init, k);
        lemma_has_key_drop_last(src, k);
        let prev = add_missing_spec(dst, init);
        let e = src.last();
        if !has_key(prev.0, e.0) {
            lemma_assoc_insert_has(prev.0, e.0, e.1, k);
            assert(assoc_insert(prev.0, e.0, e.1) == prev.0.push(e));
        }
    }
}

proof fn lemma_filter_known(dst: Seq<(Seq<char>, JsonV)>, src: Seq<(Seq<char>, JsonV)>, k: Seq<char>)
    ensures
        has_key(dst.filter(known_in(src)), k) ==> has_key(src, k),
{
    let f = dst.filter(known_in(src));
    lemma_has_key_exists(f, k);
    if has_key(f, k) {
        let j = choose|j: int| 0 <= j < f.len() && #[trigger] f[j].0 == k;
        dst.lemma_filter_pred(known_in(src), j);
    }
}

/// The registry's `providers` member after `ensure_providers`, for an object registry.
proof fn lemma_ensure_providers(m: JsonV)
    requires
        m is Object,
    ensures
        ensure_providers(m).0 is Object,
        field(ensure_providers(m).0, "providers"@) matches Some(JsonV::Object(_)),
{
    match field(m, "providers"@) {
        Some(JsonV::Object(_)) => {},
        _ => {
            lemma_field_assoc_insert(
                m->Object_0,
                "providers"@,
                JsonV::Object(Seq::empty()),
                "providers"@,
            );
        },
    }
}

/// Law: after synchronisation, an agent's registry holds a `providers` object
/// whose provider names are exactly those of `models.providers` in `config`:
/// removed providers are gone and new ones are there.
pub proof fn law_sync_providers_match(config: JsonV, m: JsonV, k: Seq<char>)
    requires
        m is Object,
        source_providers(config) is Some,
    ensures
        match field(sync_agent_models_spec(config, m).0, "providers"@) {
            Some(JsonV::Object(ps)) => has_key(ps, k) == has_key(source_providers(config)->0, k),
            _ => false,
        },
{
    let src = source_providers(config)->0;
    lemma_ensure_providers(m);
    let e = ensure_providers(m);
    let es = e.0->Object_0;
    lemma_key_pos(es, "providers"@);
    let i = key_pos(es, "providers"@)->0;
    let dst = es[i].1->Object_0;
    let s = sync_providers_spec(dst, src);
    lemma_key_pos_update(es, i, JsonV::Object(s.0), "providers"@);
    let kept = dst.filter(known_in(src));
    let added = add_missing_spec(kept, src);
    lemma_sync_each_keys(added.0, src);
    lemma_same_keys(sync_each_spec(added.0, src).0, added.0, k);
    lemma_add_missing_has(kept, src, k);
    lemma_filter_known(dst, src, k);
}


/// No two entries of the object share a key (as in any object that a JSON parser yields).
pub open spec fn distinct_keys(es: Seq<(Seq<char>, JsonV)>) -> bool {
    forall|i: int, j: int| 0 <= i < j < es.len() ==> es[i].0 != es[j].0
}

/// Every model of the provider `p` is listed by the configured provider `sp`.
pub open spec fn models_listed(p: JsonV, sp: JsonV) -> bool {
    match field(p, "models"@) {
        Some(JsonV::Array(ms)) => forall|j: int|
            0 <= j < ms.len() ==> still_listed(provider_models(sp))(#[trigger] ms[j]),
        _ => true,
    }
}

proof fn lemma_sync_provider_models(dp: JsonV, sp: JsonV)
    ensures
        models_listed(sync_provider_spec(dp, sp).0, sp),
{
    match dp {
        JsonV::Object(es) => {
            let a = sync_field_spec(es, sp, "baseUrl"@);
            let b = sync_field_spec(a.0, sp, "apiKey"@);
            let c = sync_field_spec(b.0, sp, "api"@);
            let c0 = c.0;
            let src = provider_models(sp);
            lemma_key_pos(c0, "models"@);
            match key_pos(c0, "models"@) {
                Some(i) => match c0[i].1 {
                    JsonV::Array(ms) => {
                        let kept = ms.filter(still_listed(src));
                        lemma_key_pos_update(c0, i, JsonV::Array(kept), "models"@);
                        assert forall|j: int| 0 <= j < kept.len() implies still_listed(src)(
                            #[trigger] kept[j],
                        ) by {
                            ms.lemma_filter_pred(still_listed(src), j);
                        }
                    },
                    _ => {},
                },
                None => {},
            }
        },
        _ => {},
    }
}

/// The member `f` of the provider `p` holds the string that the configured
/// provider `sp` gives it, if `sp` gives one.
pub open spec fn field_follows(p: JsonV, sp: JsonV, f: Seq<char>) -> bool {
    field_str(sp, f) is Some ==> field_str(p, f) == field_str(sp, f)
}

/// The connection fields of an agent's provider object follow the configured provider.
pub open spec fn fields_follow(p: JsonV, sp: JsonV) -> bool {
    p is Object ==> field_follows(p, sp, "baseUrl"@) && field_follows(p, sp, "apiKey"@)
        && field_follows(p, sp, "api"@)
}

/// What a synchronised provider satisfies.
pub open spec fn synced_by(p: JsonV, sp: JsonV) -> bool {
    models_listed(p, sp) && fields_follow(p, sp)
}

proof fn lemma_field_after_update(es: Seq<(Seq<char>, JsonV)>, i: int, v: JsonV, k: Seq<char>)
    requires
        0 <= i < es.len(),
        es[i].0 != k,
    ensures
        field(JsonV::Object(es.update(i, (es[i].0, v))), k) == field(JsonV::Object(es), k),
{
    let u = es.update(i, (es[i].0, v));
    lemma_key_pos_update(es, i, v, k);
    lemma_key_pos(es, k);
    match key_pos(es, k) {
        Some(j) => {
            assert(j != i);
            assert(u[j] == es[j]);
        },
        None => {},
    }
}

proof fn lemma_sync_field_follows(es: Seq<(Seq<char>, JsonV)>, sp: JsonV, f: Seq<char>)
    ensures
        field_follows(JsonV::Object(sync_field_spec(es, sp, f).0), sp, f),
        forall|k: Seq<char>|
            k != f ==> #[trigger] field(JsonV::Object(sync_field_spec(es, sp, f).0), k) == field(
                JsonV::Object(es),
                k,
            ),
{
    match field_str(sp, f) {
        Some(s) => {
            if field_str(JsonV::Object(es), f) != Some(s) {
                lemma_field_assoc_insert(es, f, JsonV::Str(s), f);
                assert forall|k: Seq<char>| k != f implies #[trigger] field(
                    JsonV::Object(assoc_insert(es, f, JsonV::Str(s))),
                    k,
                ) == field(JsonV::Object(es), k) by {
                    lemma_field_assoc_insert(es, f, JsonV::Str(s), k);
                }
            }
        },
        None => {},
    }
}

proof fn lemma_sync_provider_synced(dp: JsonV, sp: JsonV)
    ensures
        synced_by(sync_provider_spec(dp, sp).0, sp),
{
    lemma_sync_provider_models(dp, sp);
    match dp {
        JsonV::Object(es) => {
            let a = sync_field_spec(es, sp, "baseUrl"@);
            let b = sync_field_spec(a.0, sp, "apiKey"@);
            let c = sync_field_spec(b.0, sp, "api"@);
            let d = prune_spec(c.0, provider_models(sp));
            reveal_strlit("baseUrl");
            reveal_strlit("apiKey");
            reveal_strlit("api");
            reveal_strlit("models");
            lemma_sync_field_follows(es, sp, "baseUrl"@);
            lemma_sync_field_follows(a.0, sp, "apiKey"@);
            lemma_sync_field_follows(b.0, sp, "api"@);
            assert("baseUrl"@.len() != "apiKey"@.len());
            assert("baseUrl"@.len() != "api"@.len());
            assert("baseUrl"@ != "apiKey"@);
            assert("baseUrl"@ != "api"@);
            assert("apiKey"@ != "api"@);
            assert(field(JsonV::Object(b.0), "baseUrl"@) == field(JsonV::Object(a.0), "baseUrl"@));
            assert(field(JsonV::Object(c.0), "baseUrl"@) == field(JsonV::Object(b.0), "baseUrl"@));
            assert(field(JsonV::Object(c.0), "apiKey"@) == field(JsonV::Object(b.0), "apiKey"@));
            let keys = seq!["baseUrl"@, "apiKey"@, "api"@];
            assert forall|t: int| 0 <= t < 3 implies #[trigger] field(JsonV::Object(d.0), keys[t])
                == field(JsonV::Object(c.0), keys[t]) by {
                lemma_key_pos(c.0, "models"@);
                match key_pos(c.0, "models"@) {
                    Some(i) => match c.0[i].1 {
                        JsonV::Array(ms) => {
                            assert(keys[t] != "models"@) by {
                                assert(keys[t].len() != "models"@.len() || keys[t][0] != 'm');
                            }
                            lemma_field_after_update(
                                c.0,
                                i,
                                JsonV::Array(ms.filter(still_listed(provider_models(sp)))),
                                keys[t],
                            );
                        },
                        _ => {},
                    },
                    None => {},
                }
            }
            assert(field(JsonV::Object(d.0), keys[0]) == field(JsonV::Object(c.0), keys[0]));
            assert(field(JsonV::Object(d.0), keys[1]) == field(JsonV::Object(c.0), keys[1]));
            assert(field(JsonV::Object(d.0), keys[2]) == field(JsonV::Object(c.0), keys[2]));
        },
        _ => {},
    }
}

proof fn lemma_sync_each_synced(dst: Seq<(Seq<char>, JsonV)>, src: Seq<(Seq<char>, JsonV)>)
    requires
        distinct_keys(src),
    ensures
        forall|t: int|
            0 <= t < src.len() ==> match key_pos(sync_each_spec(dst, src).0, #[trigger] src[t].0) {
                Some(j) => synced_by(sync_each_spec(dst, src).0[j].1, src[t].1),
                None => true,
            },
    decreases src.len(),
{
    if src.len() > 0 {
        let init = src.drop_last();
        assert(distinct_keys(init)) by {
            assert forall|i: int, j: int| 0 <= i < j < init.len() implies init[i].0 != init[j].0 by {
                assert(src[i].0 != src[j].0);
            }
        }
        lemma_sync_each_synced(dst, init);
        let d = sync_each_spec(dst, init).0;
        let n = src.last().0;
        let r = sync_each_spec(dst, src).0;
        lemma_key_pos(d, n);
        match key_pos(d, n) {
            Some(j) => {
                let np = sync_provider_spec(d[j].1, src.last().1);
                lemma_sync_provider_synced(d[j].1, src.last().1);
                assert forall|t: int| 0 <= t < src.len() implies match key_pos(r, #[trigger] src[t].0) {
                    Some(q) => synced_by(r[q].1, src[t].1),
                    None => true,
                } by {
                    lemma_key_pos_update(d, j, np.0, src[t].0);
                    if t < src.len() - 1 {
                        assert(init[t] == src[t]);
                        assert(src[t].0 != n);
                        lemma_key_pos(d, src[t].0);
                        match key_pos(d, src[t].0) {
                            Some(q) => {
                                assert(q != j);
                                assert(r[q] == d[q]);
                            },
                            None => {},
                        }
                    } else {
                        assert(src[t] == src.last());
                    }
                }
            },
            None => {
                assert forall|t: int| 0 <= t < src.len() implies match key_pos(r, #[trigger] src[t].0) {
                    Some(q) => synced_by(r[q].1, src[t].1),
                    None => true,
                } by {
                    if t < src.len() - 1 {
                        assert(init[t] == src[t]);
                    } else {
                        assert(src[t] == src.last());
                    }
                }
            },
        }
    }
}

/// Law: after synchronisation, no provider of an agent's registry keeps a model
/// that the configured provider of the same name no longer lists, so the
/// gateway cannot refer to a removed model. (`models.providers` of a parsed
/// configuration never repeats a name.)
pub proof fn law_sync_drops_removed_models(config: JsonV, m: JsonV, name: Seq<char>)
    requires
        m is Object,
        source_providers(config) is Some,
        distinct_keys(source_providers(config)->0),
    ensures
        match field(sync_agent_models_spec(config, m).0, "providers"@) {
            Some(ps) => match (field(ps, name), field(JsonV::Object(source_providers(config)->0), name)) {
                (Some(p), Some(sp)) => models_listed(p, sp),
                _ => true,
            },
            None => false,
        },
{
    lemma_sync_each_for(config, m, name);
}

/// Law: after synchronisation, the `baseUrl`, `apiKey` and `api` of each
/// provider object of an agent's registry are the strings that the configured
/// provider of the same name gives them, where it gives them. (`models.providers`
/// of a parsed configuration never repeats a name.)
pub proof fn law_sync_copies_connection_fields(config: JsonV, m: JsonV, name: Seq<char>)
    requires
        m is Object,
        source_providers(config) is Some,
        distinct_keys(source_providers(config)->0),
    ensures
        match field(sync_agent_models_spec(config, m).0, "providers"@) {
            Some(ps) => match (field(ps, name), field(JsonV::Object(source_providers(config)->0), name)) {
                (Some(p), Some(sp)) => fields_follow(p, sp),
                _ => true,
            },
            None => false,
        },
{
    lemma_sync_each_for(config, m, name);
}

proof fn lemma_sync_each_for(config: JsonV, m: JsonV, name: Seq<char>)
    requires
        m is Object,
        source_providers(config) is Some,
        distinct_keys(source_providers(config)->0),
    ensures
        match field(sync_agent_models_spec(config, m).0, "providers"@) {
            Some(ps) => match (field(ps, name), field(JsonV::Object(source_providers(config)->0), name)) {
                (Some(p), Some(sp)) => synced_by(p, sp),
                _ => true,
            },
            None => false,
        },
{
    let src = source_providers(config)->0;
    lemma_ensure_providers(m);
    let e = ensure_providers(m);
    let es = e.0->Object_0;
    lemma_key_pos(es, "providers"@);
    let i = key_pos(es, "providers"@)->0;
    let dst = es[i].1->Object_0;
    let s = sync_providers_spec(dst, src);
    lemma_key_pos_update(es, i, JsonV::Object(s.0), "providers"@);
    let kept = dst.filter(known_in(src));
    let added = add_missing_spec(kept, src);
    lemma_sync_each_synced(added.0, src);
    lemma_key_pos(src, name);
    match key_pos(src, name) {
        Some(t) => {
            assert(src[t].0 == name);
        },
        None => {},
    }
}

proof fn lemma_filter_all_kept<A>(s: Seq<A>, p: spec_fn(A) -> bool)
    ensures
        s.filter(p).len() <= s.len(),
        s.filter(p).len() == s.len() ==> s.filter(p) == s,
    decreases s.len(),
{
    reveal(Seq::filter);
    if s.len() > 0 {
        lemma_filter_all_kept(s.drop_last(), p);
        if s.filter(p).len() == s.len() {
            assert(p(s.last()));
            assert(s.drop_last().push(s.last()) =~= s);
        }
    }
}

proof fn lemma_prune_changes(es: Seq<(Seq<char>, JsonV)>, src: Seq<JsonV>)
    ensures
        prune_spec(es, src).1 ==> field(JsonV::Object(prune_spec(es, src).0), "models"@) != field(
            JsonV::Object(es),
            "models"@,
        ),
        !prune_spec(es, src).1 ==> prune_spec(es, src).0 == es,
        forall|k: Seq<char>|
            k != "models"@ ==> #[trigger] field(JsonV::Object(prune_spec(es, src).0), k) == field(
                JsonV::Object(es),
                k,
            ),
{
    lemma_key_pos(es, "models"@);
    match key_pos(es, "models"@) {
        Some(i) => match es[i].1 {
            JsonV::Array(ms) => {
                let kept = ms.filter(still_listed(src));
                lemma_filter_all_kept(ms, still_listed(src));
                let u = es.update(i, (es[i].0, JsonV::Array(kept)));
                lemma_key_pos_update(es, i, JsonV::Array(kept), "models"@);
                if kept.len() == ms.len() {
                    assert(u =~= es);
                } else {
                    assert(u[i].1 != es[i].1);
                }
                assert forall|k: Seq<char>| k != "models"@ implies #[trigger] field(
                    JsonV::Object(u),
                    k,
                ) == field(JsonV::Object(es), k) by {
                    lemma_field_after_update(es, i, JsonV::Array(kept), k);
                }
            },
            _ => {},
        },
        None => {},
    }
}

proof fn lemma_sync_field_changes(es: Seq<(Seq<char>, JsonV)>, sp: JsonV, f: Seq<char>)
    ensures
        sync_field_spec(es, sp, f).1 ==> field_str(JsonV::Object(sync_field_spec(es, sp, f).0), f)
            == field_str(sp, f) && field_str(JsonV::Object(es), f) != field_str(sp, f),
        !sync_field_spec(es, sp, f).1 ==> sync_field_spec(es, sp, f).0 == es,
{
    lemma_sync_field_follows(es, sp, f);
}

proof fn lemma_key_names()
    ensures
        "baseUrl"@ != "apiKey"@,
        "baseUrl"@ != "api"@,
        "apiKey"@ != "api"@,
        "baseUrl"@ != "models"@,
        "apiKey"@ != "models"@,
        "api"@ != "models"@,
{
    reveal_strlit("baseUrl");
    reveal_strlit("apiKey");
    reveal_strlit("api");
    reveal_strlit("models");
    assert("baseUrl"@.len() == 7 && "apiKey"@.len() == 6 && "api"@.len() == 3);
    assert("models"@.len() == 6);
    assert("apiKey"@[0] != "models"@[0]);
}

/// A provider's flag says exactly whether it changed.
proof fn lemma_sync_provider_flag(dp: JsonV, sp: JsonV)
    ensures
        sync_provider_spec(dp, sp).1 <==> sync_provider_spec(dp, sp).0 != dp,
{
    match dp {
        JsonV::Object(es) => {
            lemma_key_names();
            let a = sync_field_spec(es, sp, "baseUrl"@);
            let b = sync_field_spec(a.0, sp, "apiKey"@);
            let c = sync_field_spec(b.0, sp, "api"@);
            let d = prune_spec(c.0, provider_models(sp));
            lemma_sync_field_changes(es, sp, "baseUrl"@);
            lemma_sync_field_changes(a.0, sp, "apiKey"@);
            lemma_sync_field_changes(b.0, sp, "api"@);
            lemma_sync_field_follows(es, sp, "baseUrl"@);
            lemma_sync_field_follows(a.0, sp, "apiKey"@);
            lemma_sync_field_follows(b.0, sp, "api"@);
            lemma_prune_changes(c.0, provider_models(sp));
            let r = JsonV::Object(d.0);
            // each member keeps what the steps after the one that sets it leave
            assert(field(r, "baseUrl"@) == field(JsonV::Object(c.0), "baseUrl"@));
            assert(field(JsonV::Object(c.0), "baseUrl"@) == field(JsonV::Object(b.0), "baseUrl"@));
            assert(field(JsonV::Object(b.0), "baseUrl"@) == field(JsonV::Object(a.0), "baseUrl"@));
            assert(field(r, "apiKey"@) == field(JsonV::Object(c.0), "apiKey"@));
            assert(field(JsonV::Object(c.0), "apiKey"@) == field(JsonV::Object(b.0), "apiKey"@));
            assert(field(JsonV::Object(a.0), "apiKey"@) == field(dp, "apiKey"@));
            assert(field(r, "api"@) == field(JsonV::Object(c.0), "api"@));
            assert(field(JsonV::Object(b.0), "api"@) == field(JsonV::Object(a.0), "api"@));
            assert(field(JsonV::Object(a.0), "api"@) == field(dp, "api"@));
            assert(field(JsonV::Object(c.0), "models"@) == field(JsonV::Object(b.0), "models"@));
            assert(field(JsonV::Object(b.0), "models"@) == field(JsonV::Object(a.0), "models"@));
            assert(field(JsonV::Object(a.0), "models"@) == field(dp, "models"@));
            if a.1 {
                assert(field_str(r, "baseUrl"@) != field_str(dp, "baseUrl"@));
            } else if b.1 {
                assert(field_str(r, "apiKey"@) != field_str(dp, "apiKey"@));
            } else if c.1 {
                assert(field_str(r, "api"@) != field_str(dp, "api"@));
            } else if d.1 {
                assert(field(r, "models"@) != field(dp, "models"@));
            } else {
                assert(d.0 == es);
            }
        },
        _ => {},
    }
}

/// What `sync_each_spec` does to each position: the keys stay, a position
/// that no configured provider names stays, a named one is synchronised by
/// that provider; and the flag says whether a synchronisation changed something.
proof fn lemma_sync_each_effect(dst: Seq<(Seq<char>, JsonV)>, src: Seq<(Seq<char>, JsonV)>)
    requires
        distinct_keys(src),
    ensures
        sync_each_spec(dst, src).0.len() == dst.len(),
        forall|q: int| 0 <= q < dst.len() ==> #[trigger] sync_each_spec(dst, src).0[q].0 == dst[q].0,
        forall|q: int|
            0 <= q < dst.len() && (forall|t: int| 0 <= t < src.len() ==> key_pos(dst, #[trigger] src[t].0) != Some(q))
                ==> #[trigger] sync_each_spec(dst, src).0[q].1 == dst[q].1,
        forall|t: int|
            0 <= t < src.len() ==> match key_pos(dst, #[trigger] src[t].0) {
                Some(q) => sync_each_spec(dst, src).0[q].1 == sync_provider_spec(dst[q].1, src[t].1).0,
                None => true,
            },
        sync_each_spec(dst, src).1 <==> exists|t: int|
            0 <= t < src.len() && match key_pos(dst, #[trigger] src[t].0) {
                Some(q) => sync_provider_spec(dst[q].1, src[t].1).1,
                None => false,
            },
    decreases src.len(),
{
    lemma_sync_each_keys(dst, src);
    if src.len() > 0 {
        let init = src.drop_last();
        assert(distinct_keys(init)) by {
            assert forall|i: int, j: int| 0 <= i < j < init.len() implies init[i].0 != init[j].0 by {
                assert(src[i].0 != src[j].0);
            }
        }
        lemma_sync_each_effect(dst, init);
        lemma_sync_each_keys(dst, init);
        let prev = sync_each_spec(dst, init);
        let d = prev.0;
        let last = src.len() - 1;
        let n = src[last].0;
        assert(src.last() == src[last]);
        lemma_same_keys(d, dst, n);
        lemma_key_pos(dst, n);
        let r = sync_each_spec(dst, src);
        match key_pos(dst, n) {
            Some(j) => {
                // no earlier provider names position j
                assert forall|t: int| 0 <= t < init.len() implies key_pos(dst, #[trigger] init[t].0)
                    != Some(j) by {
                    assert(init[t] == src[t]);
                    assert(src[t].0 != src[last].0);
                    lemma_key_pos(dst, init[t].0);
                }
                assert(d[j].1 == dst[j].1);
                let np = sync_provider_spec(dst[j].1, src[last].1);
                assert(r.0 == d.update(j, (d[j].0, np.0)));
                assert forall|q: int|
                    0 <= q < dst.len() && (forall|t: int|
                        0 <= t < src.len() ==> key_pos(dst, #[trigger] src[t].0) != Some(q)) implies #[trigger] r.0[q].1
                    == dst[q].1 by {
                    assert(key_pos(dst, src[last].0) != Some(q));
                    assert forall|t: int| 0 <= t < init.len() implies key_pos(
                        dst,
                        #[trigger] init[t].0,
                    ) != Some(q) by {
                        assert(init[t] == src[t]);
                        assert(key_pos(dst, src[t].0) != Some(q));
                    }
                }
                assert forall|t: int| 0 <= t < src.len() implies match key_pos(dst, #[trigger] src[t].0) {
                    Some(q) => r.0[q].1 == sync_provider_spec(dst[q].1, src[t].1).0,
                    None => true,
                } by {
                    if t < last {
                        assert(init[t] == src[t]);
                        lemma_key_pos(dst, src[t].0);
                        assert(src[t].0 != src[last].0);
                    }
                }
                if r.1 {
                    if prev.1 {
                        let t = choose|t: int|
                            0 <= t < init.len() && match key_pos(dst, #[trigger] init[t].0) {
                                Some(q) => sync_provider_spec(dst[q].1, init[t].1).1,
                                None => false,
                            };
                        assert(init[t] == src[t]);
                        assert(0 <= t < src.len() && match key_pos(dst, src[t].0) {
                            Some(q) => sync_provider_spec(dst[q].1, src[t].1).1,
                            None => false,
                        });
                    } else {
                        assert(np.1);
                        assert(match key_pos(dst, src[last].0) {
                            Some(q) => sync_provider_spec(dst[q].1, src[last].1).1,
                            None => false,
                        });
                    }
                } else {
                    assert forall|t: int| 0 <= t < src.len() implies !match key_pos(
                        dst,
                        #[trigger] src[t].0,
                    ) {
                        Some(q) => sync_provider_spec(dst[q].1, src[t].1).1,
                        None => false,
                    } by {
                        if t < last {
                            assert(init[t] == src[t]);
                            assert(!match key_pos(dst, init[t].0) {
                                Some(q) => sync_provider_spec(dst[q].1, init[t].1).1,
                                None => false,
                            });
                        }
                    }
                }
            },
            None => {
                assert(r == prev);
                assert forall|q: int|
                    0 <= q < dst.len() && (forall|t: int|
                        0 <= t < src.len() ==> key_pos(dst, #[trigger] src[t].0) != Some(q)) implies #[trigger] r.0[q].1
                    == dst[q].1 by {
                    assert forall|t: int| 0 <= t < init.len() implies key_pos(
                        dst,
                        #[trigger] init[t].0,
                    ) != Some(q) by {
                        assert(init[t] == src[t]);
                        assert(key_pos(dst, src[t].0) != Some(q));
                    }
                }
                assert forall|t: int| 0 <= t < src.len() implies match key_pos(dst, #[trigger] src[t].0) {
                    Some(q) => r.0[q].1 == sync_provider_spec(dst[q].1, src[t].1).0,
                    None => true,
                } by {
                    if t < last {
                        assert(init[t] == src[t]);
                    }
                }
                if r.1 {
                    let t = choose|t: int|
                        0 <= t < init.len() && match key_pos(dst, #[trigger] init[t].0) {
                            Some(q) => sync_provider_spec(dst[q].1, init[t].1).1,
                            None => false,
                        };
                    assert(init[t] == src[t]);
                    assert(0 <= t < src.len() && match key_pos(dst, src[t].0) {
                        Some(q) => sync_provider_spec(dst[q].1, src[t].1).1,
                        None => false,
                    });
                } else {
                    assert forall|t: int| 0 <= t < src.len() implies !match key_pos(
                        dst,
                        #[trigger] src[t].0,
                    ) {
                        Some(q) => sync_provider_spec(dst[q].1, src[t].1).1,
                        None => false,
                    } by {
                        if t < last {
                            assert(init[t] == src[t]);
                            assert(!match key_pos(dst, init[t].0) {
                                Some(q) => sync_provider_spec(dst[q].1, init[t].1).1,
                                None => false,
                            });
                        }
                    }
                }
            },
        }
    }
}

proof fn lemma_sync_each_flag(dst: Seq<(Seq<char>, JsonV)>, src: Seq<(Seq<char>, JsonV)>)
    requires
        distinct_keys(src),
    ensures
        sync_each_spec(dst, src).1 <==> sync_each_spec(dst, src).0 != dst,
{
    lemma_sync_each_effect(dst, src);
    let r = sync_each_spec(dst, src);
    if r.1 {
        let t = choose|t: int|
            0 <= t < src.len() && match key_pos(dst, #[trigger] src[t].0) {
                Some(q) => sync_provider_spec(dst[q].1, src[t].1).1,
                None => false,
            };
        let q = key_pos(dst, src[t].0)->0;
        lemma_sync_provider_flag(dst[q].1, src[t].1);
        assert(r.0[q].1 != dst[q].1);
    } else {
        assert forall|q: int| 0 <= q < dst.len() implies #[trigger] r.0[q] == dst[q] by {
            if exists|t: int| 0 <= t < src.len() && key_pos(dst, #[trigger] src[t].0) == Some(q) {
                let t = choose|t: int| 0 <= t < src.len() && key_pos(dst, #[trigger] src[t].0) == Some(q);
                lemma_sync_provider_flag(dst[q].1, src[t].1);
            }
        }
        assert(r.0 =~= dst);
    }
}

proof fn lemma_add_missing_flag(dst: Seq<(Seq<char>, JsonV)>, src: Seq<(Seq<char>, JsonV)>)
    ensures
        !add_missing_spec(dst, src).1 ==> add_missing_spec(dst, src).0 == dst,
        add_missing_spec(dst, src).1 ==> exists|t: int|
            0 <= t < src.len() && !has_key(dst, #[trigger] src[t].0),
    decreases src.len(),
{
    if src.len() > 0 {
        let init = src.drop_last();
        lemma_add_missing_flag(dst, init);
        let prev = add_missing_spec(dst, init);
        let last = src.len() - 1;
        assert(src.last() == src[last]);
        if prev.1 {
            let t = choose|t: int| 0 <= t < init.len() && !has_key(dst, #[trigger] init[t].0);
            assert(init[t] == src[t]);
        } else if !has_key(prev.0, src.last().0) {
            assert(!has_key(dst, src[last].0));
        }
    }
}

/// The providers' flag says exactly whether they changed.
proof fn lemma_sync_providers_flag(dst: Seq<(Seq<char>, JsonV)>, src: Seq<(Seq<char>, JsonV)>)
    requires
        distinct_keys(src),
    ensures
        sync_providers_spec(dst, src).1 <==> sync_providers_spec(dst, src).0 != dst,
{
    let kept = dst.filter(known_in(src));
    let added = add_missing_spec(kept, src);
    let synced = sync_each_spec(added.0, src);
    let s = sync_providers_spec(dst, src);
    lemma_filter_all_kept(dst, known_in(src));
    lemma_add_missing_flag(kept, src);
    lemma_sync_each_keys(added.0, src);
    if kept.len() != dst.len() {
        // a provider that the configuration no longer has is gone
        assert(exists|i: int| 0 <= i < dst.len() && !has_key(src, #[trigger] dst[i].0)) by {
            if forall|i: int| 0 <= i < dst.len() ==> has_key(src, #[trigger] dst[i].0) {
                lemma_filter_keeps_all(dst, known_in(src));
            }
        }
        let i = choose|i: int| 0 <= i < dst.len() && !has_key(src, #[trigger] dst[i].0);
        let k = dst[i].0;
        lemma_same_keys(synced.0, added.0, k);
        lemma_add_missing_has(kept, src, k);
        lemma_filter_known(dst, src, k);
        lemma_has_key_exists(dst, k);
        assert(has_key(dst, k));
        assert(!has_key(s.0, k));
    } else if added.1 {
        let t = choose|t: int| 0 <= t < src.len() && !has_key(kept, #[trigger] src[t].0);
        let k = src[t].0;
        lemma_same_keys(synced.0, added.0, k);
        lemma_add_missing_has(kept, src, k);
        lemma_has_key_exists(src, k);
        assert(has_key(s.0, k));
        assert(!has_key(dst, k));
    } else {
        lemma_sync_each_flag(added.0, src);
    }
}

proof fn lemma_filter_keeps_all<A>(s: Seq<A>, p: spec_fn(A) -> bool)
    requires
        forall|i: int| 0 <= i < s.len() ==> p(#[trigger] s[i]),
    ensures
        s.filter(p) == s,
    decreases s.len(),
{
    reveal(Seq::filter);
    if s.len() > 0 {
        assert forall|i: int| 0 <= i < s.drop_last().len() implies p(#[trigger] s.drop_last()[i]) by {
            assert(s.drop_last()[i] == s[i]);
        }
        lemma_filter_keeps_all(s.drop_last(), p);
        assert(p(s[s.len() - 1]));
        assert(s.drop_last().push(s.last()) =~= s);
    }
}

/// Law: the flag that `sync_agent_models` returns is true exactly when the
/// registry it returns differs from the one it was given, so the registry is
/// written back exactly when synchronisation changed it. (`models.providers`
/// of a parsed configuration never repeats a name.)
pub proof fn law_sync_flag_says_changed(config: JsonV, m: JsonV)
    requires
        source_providers(config) matches Some(src) ==> distinct_keys(src),
    ensures
        sync_agent_models_spec(config, m).1 <==> sync_agent_models_spec(config, m).0 != m,
{
    let e = ensure_providers(m);
    let r = sync_agent_models_spec(config, m);
    if m is Object {
        lemma_ensure_providers(m);
    }
    if e.1 {
        // the registry had no `providers` object; now it has one
        assert(!(field(m, "providers"@) matches Some(JsonV::Object(_))));
        let es = e.0->Object_0;
        lemma_key_pos(es, "providers"@);
        match source_providers(config) {
            Some(src) => {
                let i = key_pos(es, "providers"@)->0;
                let dst = es[i].1->Object_0;
                let s = sync_providers_spec(dst, src);
                lemma_key_pos_update(es, i, JsonV::Object(s.0), "providers"@);
                assert(field(r.0, "providers"@) == Some(JsonV::Object(s.0)));
            },
            None => {},
        }
        assert(field(r.0, "providers"@) matches Some(JsonV::Object(_)));
    } else {
        assert(e.0 == m);
        match source_providers(config) {
            Some(src) => match m {
                JsonV::Object(es) => match key_pos(es, "providers"@) {
                    Some(i) => match es[i].1 {
                        JsonV::Object(dst) => {
                            lemma_sync_providers_flag(dst, src);
                            let s = sync_providers_spec(dst, src);
                            let u = es.update(i, (es[i].0, JsonV::Object(s.0)));
                            lemma_key_pos(es, "providers"@);
                            if s.1 {
                                assert(u[i].1 != es[i].1);
                                assert(u != es);
                            } else {
                                assert(u =~= es);
                            }
                        },
                        _ => {},
                    },
                    None => {},
                },
                _ => {},
            },
            None => {},
        }
    }
}

} // verus!

//! Pairing this desktop device with the Gateway: the entry written to
//! `devices/paired.json`, the check that reads it back, and the origins that
//! the Gateway must allow for the panel's WebSocket.
use vstd::prelude::*;
use vstd::string::*;
use crate::json::{
    Json, JsonV, field, field_str, as_str, key_pos, assoc_insert, entries_deep, elems_deep,
    push_entry, push_elem, object, array, obj_insert, find_key, take_field, put_field, FieldHole,
    lemma_object_deep, lemma_array_deep, lemma_key_pos, lemma_remove_insert, lemma_field_assoc_insert,
};
use crate::messaging::{strs_of, str_values};
use crate::num::dec;
use crate::text::{owned, str_eq, sviews};

verus! {

/// The origins the panel's windows and dev server use.
pub open spec fn required_origins() -> Seq<Seq<char>> {
    seq![
        "tauri://localhost"@,
        "https://tauri.localhost"@,
        "http://tauri.localhost"@,
        "http://localhost:1420"@,
        "http://127.0.0.1:1420"@,
    ]
}

/// `existing` followed by each of `req` that is not yet there, in order.
pub open spec fn merge_origins(existing: Seq<Seq<char>>, req: Seq<Seq<char>>) -> Seq<Seq<char>>
    decreases req.len(),
{
    if req.len() == 0 {
        existing
    } else {
        let m = merge_origins(existing, req.drop_last());
        if m.contains(req.last()) {
            m
        } else {
            m.push(req.last())
        }
    }
}

/// The string origins an object of the control UI allows now.
pub open spec fn existing_origins(cui: Seq<(Seq<char>, JsonV)>) -> Seq<Seq<char>> {
    match field(JsonV::Object(cui), "allowedOrigins"@) {
        Some(JsonV::Array(a)) => strs_of(a),
        _ => Seq::empty(),
    }
}

pub open spec fn with_origins(cui: JsonV) -> JsonV {
    match cui {
        JsonV::Object(ces) => JsonV::Object(
            assoc_insert(
                ces,
                "allowedOrigins"@,
                JsonV::Array(str_values(merge_origins(existing_origins(ces), required_origins()))),
            ),
        ),
        _ => cui,
    }
}

/// Member `k` changed by `f`, or added as `f({})` when missing (`entry(k).or_insert({})`).
pub open spec fn ensure_member(es: Seq<(Seq<char>, JsonV)>, k: Seq<char>, f: spec_fn(JsonV) -> JsonV) -> Seq<
    (Seq<char>, JsonV),
> {
    match key_pos(es, k) {
        Some(i) => es.update(i, (es[i].0, f(es[i].1))),
        None => es.push((k, f(JsonV::Object(Seq::empty())))),
    }
}

pub open spec fn with_control_ui(gw: JsonV) -> JsonV {
    match gw {
        JsonV::Object(ges) => JsonV::Object(ensure_member(ges, "controlUi"@, |c: JsonV| with_origins(c))),
        _ => gw,
    }
}

/// The configuration with `gateway.controlUi.allowedOrigins` holding every
/// required origin; the origins already there stay first.
pub open spec fn patch_origins_spec(cfg: JsonV) -> JsonV {
    match cfg {
        JsonV::Object(es) => JsonV::Object(ensure_member(es, "gateway"@, |g: JsonV| with_control_ui(g))),
        _ => cfg,
    }
}

fn required_origin(i: usize) -> (r: &'static str)
    requires
        i < 5,
    ensures
        r@ == required_origins()[i as int],
{
    if i == 0 {
        "tauri://localhost"
    } else if i == 1 {
        "https://tauri.localhost"
    } else if i == 2 {
        "http://tauri.localhost"
    } else if i == 3 {
        "http://localhost:1420"
    } else {
        "http://127.0.0.1:1420"
    }
}

fn contains_string(v: &Vec<String>, x: &str) -> (r: bool)
    ensures
        r == sviews(v@).contains(x@),
{
    let n = v.len();
    for i in 0..n
        invariant
            n == v@.len(),
            forall|j: int| 0 <= j < i ==> v@[j]@ != x@,
    {
        if str_eq(v[i].as_str(), x) {
            proof {
                assert(sviews(v@)[i as int] == x@);
            }
            return true;
        }
    }
    proof {
        assert forall|j: int| 0 <= j < sviews(v@).len() implies sviews(v@)[j] != x@ by {
            assert(sviews(v@)[j] == v@[j]@);
        }
    }
    false
}

fn existing_origins_exec(ces: &Vec<(String, Json)>) -> (r: Vec<String>)
    ensures
        sviews(r@) == existing_origins(entries_deep(ces@)),
{
    let mut out: Vec<String> = Vec::new();
    proof {
        lemma_object_deep(*ces);
    }
    let obj_field = match find_key(ces, "allowedOrigins") {
        Some(i) => Some(&ces[i].1),
        None => None,
    };
    match obj_field {
        Some(Json::Array(a)) => {
            proof {
                lemma_array_deep(*a);
            }
            let ghost d = elems_deep(a@);
            let n = a.len();
            for i in 0..n
                invariant
                    n == a@.len(),
                    d == elems_deep(a@),
                    sviews(out@) == strs_of(d.take(i as int)),
            {
                proof {
                    assert(d.take(i + 1).drop_last() =~= d.take(i as int));
                    assert(d.take(i + 1).last() == a@[i as int].deep());
                }
                match a[i].as_str() {
                    Some(s) => {
                        let ghost before = out@;
                        out.push(owned(s));
                        proof {
                            assert(sviews(out@) =~= sviews(before).push(s@));
                        }
                    },
                    None => {},
                }
            }
            proof {
                assert(d.take(n as int) =~= d);
            }
        },
        _ => {
            proof {
                assert(sviews(out@) =~= Seq::<Seq<char>>::empty());
            }
        },
    }
    out
}

fn with_origins_exec(cui: Json) -> (r: Json)
    ensures
        r.deep() == with_origins(cui.deep()),
{
    match cui {
        Json::Object(mut ces) => {
            proof {
                lemma_object_deep(ces);
            }
            let mut merged = existing_origins_exec(&ces);
            let ghost ex = sviews(merged@);
            for i in 0..5
                invariant
                    sviews(merged@) == merge_origins(ex, required_origins().take(i as int)),
            {
                proof {
                    assert(required_origins().take(i + 1).drop_last() =~= required_origins().take(i as int));
                    assert(required_origins().take(i + 1).last() == required_origins()[i as int]);
                }
                let r = required_origin(i);
                if !contains_string(&merged, r) {
                    let ghost before = merged@;
                    merged.push(owned(r));
                    proof {
                        assert(sviews(merged@) =~= sviews(before).push(r@));
                    }
                }
            }
            proof {
                assert(required_origins().take(5) =~= required_origins());
            }
            let mut arr: Vec<Json> = Vec::new();
            proof {
                assert(elems_deep(arr@) =~= Seq::<JsonV>::empty());
            }
            let n = merged.len();
            for i in 0..n
                invariant
                    n == merged@.len(),
                    elems_deep(arr@) == str_values(sviews(merged@).take(i as int)),
            {
                push_elem(&mut arr, Json::text(merged[i].as_str()));
                proof {
                    assert(str_values(sviews(merged@).take(i + 1)) =~= str_values(
                        sviews(merged@).take(i as int),
                    ).push(JsonV::Str(merged@[i as int]@)));
                }
            }
            proof {
                assert(sviews(merged@).take(n as int) =~= sviews(merged@));
            }
            obj_insert(&mut ces, owned("allowedOrigins"), array(arr));
            object(ces)
        },
        other => other,
    }
}

fn with_control_ui_exec(gw: Json) -> (r: Json)
    ensures
        r.deep() == with_control_ui(gw.deep()),
{
    let ghost gd = gw.deep();
    match gw {
        Json::Object(ges) => {
            proof {
                lemma_object_deep(ges);
            }
            let g = object(ges);
            match take_field(g, "controlUi") {
                FieldHole::Found { rest, index, key, value } => {
                    let nv = with_origins_exec(value);
                    proof {
                        lemma_remove_insert(gd->Object_0, index as int, (key@, nv.deep()));
                    }
                    put_field(rest, index, key, nv)
                },
                FieldHole::Absent(o) => {
                    match o {
                        Json::Object(mut es) => {
                            proof {
                                lemma_object_deep(es);
                                lemma_key_pos(gd->Object_0, "controlUi"@);
                            }
                            let empty: Vec<(String, Json)> = Vec::new();
                            proof {
                                assert(entries_deep(empty@) =~= Seq::<(Seq<char>, JsonV)>::empty());
                            }
                            let nv = with_origins_exec(object(empty));
                            push_entry(&mut es, "controlUi", nv);
                            object(es)
                        },
                        other => other,
                    }
                },
            }
        },
        other => other,
    }
}

/// Adds the panel's origins to `gateway.controlUi.allowedOrigins`, creating
/// `gateway` and `controlUi` when missing (`patch_gateway_origins`).
pub fn patch_gateway_origins(cfg: Json) -> (r: Json)
    ensures
        r.deep() == patch_origins_spec(cfg.deep()),
{
    let ghost cd = cfg.deep();
    match cfg {
        Json::Object(es) => {
            proof {
                lemma_object_deep(es);
            }
            let c = object(es);
            match take_field(c, "gateway") {
                FieldHole::Found { rest, index, key, value } => {
                    let nv = with_control_ui_exec(value);
                    proof {
                        lemma_remove_insert(cd->Object_0, index as int, (key@, nv.deep()));
                    }
                    put_field(rest, index, key, nv)
                },
                FieldHole::Absent(o) => {
                    match o {
                        Json::Object(mut es2) => {
                            proof {
                                lemma_object_deep(es2);
                                lemma_key_pos(cd->Object_0, "gateway"@);
                            }
                            let empty: Vec<(String, Json)> = Vec::new();
                            proof {
                                assert(entries_deep(empty@) =~= Seq::<(Seq<char>, JsonV)>::empty());
                            }
                            let nv = with_control_ui_exec(object(empty));
                            push_entry(&mut es2, "gateway", nv);
                            object(es2)
                        },
                        other => other,
                    }
                },
            }
        },
        other => other,
    }
}

pub proof fn lemma_merge_origins(existing: Seq<Seq<char>>, req: Seq<Seq<char>>)
    ensures
        merge_origins(existing, req).len() >= existing.len(),
        merge_origins(existing, req).subrange(0, existing.len() as int) == existing,
        forall|i: int| 0 <= i < req.len() ==> merge_origins(existing, req).contains(#[trigger] req[i]),
    decreases req.len(),
{
    if req.len() > 0 {
        let d = req.drop_last();
        lemma_merge_origins(existing, d);
        let m = merge_origins(existing, d);
        assert forall|i: int| 0 <= i < req.len() implies merge_origins(existing, req).contains(
            #[trigger] req[i],
        ) by {
            if i < req.len() - 1 {
                assert(d[i] == req[i]);
                assert(m.contains(d[i]));
                if !m.contains(req.last()) {
                    let j = choose|j: int| 0 <= j < m.len() && m[j] == d[i];
                    assert(m.push(req.last())[j] == req[i]);
                }
            } else if !m.contains(req.last()) {
                assert(m.push(req.last())[m.len() as int] == req[i]);
            }
        }
        if !m.contains(req.last()) {
            assert(m.push(req.last()).subrange(0, existing.len() as int) =~= m.subrange(
                0,
                existing.len() as int,
            ));
        }
    } else {
        assert(existing.subrange(0, existing.len() as int) =~= existing);
    }
}

/// Law: after the patch, `gateway.controlUi.allowedOrigins` (when `gateway` and
/// `controlUi` are objects or missing) lists every required origin, after the
/// string origins that were there.
pub proof fn law_origins_present(cui: Seq<(Seq<char>, JsonV)>)
    ensures
        field(with_origins(JsonV::Object(cui)), "allowedOrigins"@) == Some(
            JsonV::Array(str_values(merge_origins(existing_origins(cui), required_origins()))),
        ),
        merge_origins(existing_origins(cui), required_origins()).subrange(
            0,
            existing_origins(cui).len() as int,
        ) == existing_origins(cui),
        forall|i: int|
            0 <= i < required_origins().len() ==> merge_origins(
                existing_origins(cui),
                required_origins(),
            ).contains(#[trigger] required_origins()[i]),
{
    lemma_merge_origins(existing_origins(cui), required_origins());
    lemma_field_assoc_insert(
        cui,
        "allowedOrigins"@,
        JsonV::Array(str_values(merge_origins(existing_origins(cui), required_origins()))),
        "allowedOrigins"@,
    );
}


/// The operator scopes granted to the panel.
pub open spec fn operator_scopes() -> JsonV {
    JsonV::Array(
        seq![
            JsonV::Str("operator.admin"@),
            JsonV::Str("operator.approvals"@),
            JsonV::Str("operator.pairing"@),
            JsonV::Str("operator.read"@),
            JsonV::Str("operator.write"@),
        ],
    )
}

/// The record of a newly paired device.
pub open spec fn device_record(device_id: Seq<char>, public_key: Seq<char>, os: Seq<char>, now_ms: u64) -> JsonV {
    JsonV::Object(
        seq![
            ("deviceId"@, JsonV::Str(device_id)),
            ("publicKey"@, JsonV::Str(public_key)),
            ("platform"@, JsonV::Str(os)),
            ("deviceFamily"@, JsonV::Str("desktop"@)),
            ("clientId"@, JsonV::Str("openclaw-control-ui"@)),
            ("clientMode"@, JsonV::Str("ui"@)),
            ("role"@, JsonV::Str("operator"@)),
            ("roles"@, JsonV::Array(seq![JsonV::Str("operator"@)])),
            ("scopes"@, operator_scopes()),
            ("approvedScopes"@, operator_scopes()),
            ("tokens"@, JsonV::Object(Seq::empty())),
            ("createdAtMs"@, JsonV::Number(dec(now_ms as nat))),
            ("approvedAtMs"@, JsonV::Number(dec(now_ms as nat))),
        ],
    )
}

/// What pairing does to `paired.json`.
pub struct PairResult {
    /// The new content of `paired.json`.
    pub paired: Json,
    /// Must the file be written?
    pub write: bool,
    pub message: String,
}

/// The outcome of pairing: a known device whose platform is right stays; a known
/// device with another platform gets this platform and the desktop family; an
/// unknown device is added.
pub open spec fn pair_spec(paired: JsonV, device_id: Seq<char>, public_key: Seq<char>, os: Seq<char>, now_ms: u64) -> (
    JsonV,
    bool,
    Seq<char>,
) {
    match field(paired, device_id) {
        Some(existing) => {
            let current = match field_str(existing, "platform"@) {
                Some(p) => p,
                None => Seq::empty(),
            };
            if current != os {
                let fixed = match existing {
                    JsonV::Object(xs) => JsonV::Object(
                        assoc_insert(
                            assoc_insert(xs, "platform"@, JsonV::Str(os)),
                            "deviceFamily"@,
                            JsonV::Str("desktop"@),
                        ),
                    ),
                    _ => existing,
                };
                (
                    JsonV::Object(assoc_insert(paired->Object_0, device_id, fixed)),
                    true,
                    "设备已配对（已修正平台字段）"@,
                )
            } else {
                (paired, false, "设备已配对"@)
            }
        },
        None => {
            let es = match paired {
                JsonV::Object(es) => es,
                _ => Seq::empty(),
            };
            (
                JsonV::Object(assoc_insert(es, device_id, device_record(device_id, public_key, os, now_ms))),
                true,
                "设备配对成功"@,
            )
        },
    }
}

fn str_array(items: Vec<&str>) -> (r: Json)
    ensures
        r.deep() == JsonV::Array(items@.map_values(|s: &str| JsonV::Str(s@))),
{
    let mut a: Vec<Json> = Vec::new();
    proof {
        assert(elems_deep(a@) =~= Seq::<JsonV>::empty());
    }
    let n = items.len();
    for i in 0..n
        invariant
            n == items@.len(),
            elems_deep(a@) == items@.take(i as int).map_values(|s: &str| JsonV::Str(s@)),
    {
        push_elem(&mut a, Json::text(items[i]));
        proof {
            assert(items@.take(i + 1).map_values(|s: &str| JsonV::Str(s@)) =~= items@.take(
                i as int,
            ).map_values(|s: &str| JsonV::Str(s@)).push(JsonV::Str(items@[i as int]@)));
        }
    }
    proof {
        assert(items@.take(n as int) =~= items@);
    }
    array(a)
}

fn scopes_exec() -> (r: Json)
    ensures
        r.deep() == operator_scopes(),
{
    let mut v: Vec<&str> = Vec::new();
    v.push("operator.admin");
    v.push("operator.approvals");
    v.push("operator.pairing");
    v.push("operator.read");
    v.push("operator.write");
    let r = str_array(v);
    proof {
        assert(v@.map_values(|s: &str| JsonV::Str(s@)) =~= operator_scopes()->Array_0);
    }
    r
}

fn device_record_exec(device_id: &str, public_key: &str, os: &str, now_ms: u64) -> (r: Json)
    ensures
        r.deep() == device_record(device_id@, public_key@, os@, now_ms),
{
    let mut o: Vec<(String, Json)> = Vec::new();
    proof {
        assert(entries_deep(o@) =~= Seq::<(Seq<char>, JsonV)>::empty());
    }
    push_entry(&mut o, "deviceId", Json::text(device_id));
    push_entry(&mut o, "publicKey", Json::text(public_key));
    push_entry(&mut o, "platform", Json::text(os));
    push_entry(&mut o, "deviceFamily", Json::text("desktop"));
    push_entry(&mut o, "clientId", Json::text("openclaw-control-ui"));
    push_entry(&mut o, "clientMode", Json::text("ui"));
    push_entry(&mut o, "role", Json::text("operator"));
    let mut roles: Vec<&str> = Vec::new();
    roles.push("operator");
    let roles_j = str_array(roles);
    proof {
        assert(roles@.map_values(|s: &str| JsonV::Str(s@)) =~= seq![JsonV::Str("operator"@)]);
    }
    push_entry(&mut o, "roles", roles_j);
    push_entry(&mut o, "scopes", scopes_exec());
    push_entry(&mut o, "approvedScopes", scopes_exec());
    let tokens: Vec<(String, Json)> = Vec::new();
    proof {
        assert(entries_deep(tokens@) =~= Seq::<(Seq<char>, JsonV)>::empty());
    }
    push_entry(&mut o, "tokens", object(tokens));
    push_entry(&mut o, "createdAtMs", Json::number(now_ms));
    push_entry(&mut o, "approvedAtMs", Json::number(now_ms));
    proof {
        assert(entries_deep(o@) =~= device_record(device_id@, public_key@, os@, now_ms)->Object_0);
    }
    object(o)
}

/// Pairs this device in the content of `paired.json` (`auto_pair_device`); the
/// content must be an object or null, as for `paired[id] = ...`.
pub fn auto_pair_device(paired: Json, device_id: &str, public_key: &str, os: &str, now_ms: u64) -> (r: PairResult)
    requires
        paired.deep() is Object || paired.deep() is Null,
    ensures
        (r.paired.deep(), r.write, r.message@) == pair_spec(paired.deep(), device_id@, public_key@, os@, now_ms),
{
    let ghost pd = paired.deep();
    let found = match paired.get(device_id) {
        Some(existing) => {
            let current: &str = match existing.get_str("platform") {
                Some(p) => p,
                None => "",
            };
            proof {
                reveal_strlit("");
                assert(""@ =~= Seq::<char>::empty());
            }
            Some(str_eq(current, os))
        },
        None => None,
    };
    match found {
        Some(true) => PairResult { paired, write: false, message: owned("设备已配对") },
        Some(false) => {
            match take_field(paired, device_id) {
                FieldHole::Found { rest, index, key, value } => {
                    let ghost vd = value.deep();
                    let fixed = match value {
                        Json::Object(mut xs) => {
                            proof {
                                lemma_object_deep(xs);
                            }
                            obj_insert(&mut xs, owned("platform"), Json::text(os));
                            obj_insert(&mut xs, owned("deviceFamily"), Json::text("desktop"));
                            object(xs)
                        },
                        other => other,
                    };
                    proof {
                        let es = pd->Object_0;
                        lemma_key_pos(es, device_id@);
                        lemma_remove_insert(es, index as int, (key@, fixed.deep()));
                    }
                    PairResult {
                        paired: put_field(rest, index, key, fixed),
                        write: true,
                        message: owned("设备已配对（已修正平台字段）"),
                    }
                },
                // Not reached: the device was found above.
                FieldHole::Absent(o) => PairResult { paired: o, write: false, message: owned("") },
            }
        },
        None => {
            let mut es: Vec<(String, Json)> = match paired {
                Json::Object(es) => {
                    proof {
                        lemma_object_deep(es);
                    }
                    es
                },
                _ => {
                    let e: Vec<(String, Json)> = Vec::new();
                    proof {
                        assert(entries_deep(e@) =~= Seq::<(Seq<char>, JsonV)>::empty());
                    }
                    e
                },
            };
            obj_insert(&mut es, owned(device_id), device_record_exec(device_id, public_key, os, now_ms));
            PairResult { paired: object(es), write: true, message: owned("设备配对成功") }
        },
    }
}

/// Is the device of this key paired? `paired` is the content of `paired.json`,
/// `None` when the file does not exist.
pub open spec fn paired_status_spec(device_key: JsonV, paired: Option<JsonV>) -> Result<bool, Seq<char>> {
    match field_str(device_key, "deviceId"@) {
        Some(id) => match paired {
            Some(p) => Ok(field(p, id) is Some),
            None => Ok(false),
        },
        None => Err("设备 ID 不存在"@),
    }
}

/// `check_pairing_status`, from the device key and the paired list (`None` when missing).
pub fn check_pairing_status(device_key: &Json, paired: Option<&Json>) -> (r: Result<bool, String>)
    ensures
        match r {
            Ok(b) => paired_status_spec(
                device_key.deep(),
                match paired {
                    Some(p) => Some(p.deep()),
                    None => None,
                },
            ) == Ok::<bool, Seq<char>>(b),
            Err(e) => paired_status_spec(
                device_key.deep(),
                match paired {
                    Some(p) => Some(p.deep()),
                    None => None,
                },
            ) == Err::<bool, Seq<char>>(e@),
        },
{
    let id = match device_key.get_str("deviceId") {
        Some(id) => id,
        None => return Err(owned("设备 ID 不存在")),
    };
    match paired {
        Some(p) => Ok(p.get(id).is_some()),
        None => Ok(false),
    }
}

/// Law (read after write): after pairing, the pairing check with the same device
/// id reports the device as paired.
pub proof fn law_pair_then_paired(
    paired: JsonV,
    device_key: JsonV,
    public_key: Seq<char>,
    os: Seq<char>,
    now_ms: u64,
)
    requires
        paired is Object || paired is Null,
        field_str(device_key, "deviceId"@) is Some,
    ensures
        paired_status_spec(
            device_key,
            Some(pair_spec(paired, field_str(device_key, "deviceId"@)->0, public_key, os, now_ms).0),
        ) == Ok::<bool, Seq<char>>(true),
{
    let id = field_str(device_key, "deviceId"@)->0;
    match field(paired, id) {
        Some(existing) => {
            let es = paired->Object_0;
            let current = match field_str(existing, "platform"@) {
                Some(p) => p,
                None => Seq::empty(),
            };
            if current != os {
                let fixed = match existing {
                    JsonV::Object(xs) => JsonV::Object(
                        assoc_insert(
                            assoc_insert(xs, "platform"@, JsonV::Str(os)),
                            "deviceFamily"@,
                            JsonV::Str("desktop"@),
                        ),
                    ),
                    _ => existing,
                };
                lemma_field_assoc_insert(es, id, fixed, id);
            }
        },
        None => {
            let es = match paired {
                JsonV::Object(es) => es,
                _ => Seq::empty(),
            };
            lemma_field_assoc_insert(es, id, device_record(id, public_key, os, now_ms), id);
        },
    }
}

/// Law (pairing a new device): when `paired.json` has no entry for the device,
/// pairing writes one under the device id whose `deviceId` is that id, whose
/// `publicKey` is the key given and whose `platform` is this platform, and
/// leaves every other device's entry as it was.
pub proof fn law_new_device_record(
    paired: JsonV,
    device_id: Seq<char>,
    public_key: Seq<char>,
    os: Seq<char>,
    now_ms: u64,
    other: Seq<char>,
)
    requires
        paired is Object || paired is Null,
        field(paired, device_id) is None,
        other != device_id,
    ensures
        pair_spec(paired, device_id, public_key, os, now_ms).1,
        ({
            let rec = field(pair_spec(paired, device_id, public_key, os, now_ms).0, device_id);
            &&& rec is Some
            &&& field_str(rec->0, "deviceId"@) == Some(device_id)
            &&& field_str(rec->0, "publicKey"@) == Some(public_key)
            &&& field_str(rec->0, "platform"@) == Some(os)
        }),
        field(pair_spec(paired, device_id, public_key, os, now_ms).0, other) == field(paired, other),
{
    reveal_strlit("deviceId");
    reveal_strlit("publicKey");
    reveal_strlit("platform");
    assert("deviceId"@.len() != "publicKey"@.len());
    assert("deviceId"@ != "platform"@) by {
        assert("deviceId"@[0] != "platform"@[0]);
    }
    assert("publicKey"@ != "platform"@) by {
        assert("publicKey"@.len() != "platform"@.len());
    }
    let es = match paired {
        JsonV::Object(es) => es,
        _ => Seq::empty(),
    };
    let r = device_record(device_id, public_key, os, now_ms);
    let res = r->Object_0;
    lemma_field_assoc_insert(es, device_id, r, device_id);
    lemma_field_assoc_insert(es, device_id, r, other);
    crate::json::lemma_key_pos_is(res, "deviceId"@, 0);
    crate::json::lemma_key_pos_is(res, "publicKey"@, 1);
    crate::json::lemma_key_pos_is(res, "platform"@, 2);
    if paired is Null {
        assert(field(paired, other) is None);
    }
}

} // verus!

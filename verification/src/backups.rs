//! Backups of `openclaw.json`: their names, which names a request may use,
//! and how the list of backups is ordered.
use vstd::prelude::*;
use crate::json::{Json, JsonV, entries_deep, elems_deep, push_entry, object, lemma_elems_deep_push};
use crate::text::{contains, contains_str, owned, str_eq};
use crate::num::dec;
use crate::memory::{extension_of, file_extension};

verus! {

/// `openclaw-<stamp>.json`.
pub open spec fn backup_name_spec(stamp: Seq<char>) -> Seq<char> {
    "openclaw-"@ + stamp + ".json"@
}

/// The name of a backup made at `stamp`.
pub fn backup_name_at(stamp: &str) -> (r: String)
    ensures
        r@ == backup_name_spec(stamp@),
{
    let mut m = owned("openclaw-");
    m.append(stamp);
    m.append(".json");
    m
}

/// A backup name that could reach outside the backup directory: it holds
/// `..`, `/` or `\`.
pub open spec fn unsafe_backup_name_spec(name: Seq<char>) -> bool {
    contains(name, ".."@) || contains(name, "/"@) || contains(name, "\\"@)
}

pub fn is_unsafe_backup_name(name: &str) -> (r: bool)
    ensures
        r == unsafe_backup_name_spec(name@),
{
    contains_str(name, "..") || contains_str(name, "/") || contains_str(name, "\\")
}

/// The refusal of a restore or delete request for `name`, if it is refused
/// before the file is looked at.
pub fn check_backup_name(name: &str) -> (r: Result<(), String>)
    ensures
        r is Err <==> unsafe_backup_name_spec(name@),
        r matches Err(e) ==> e@ == "非法文件名"@,
{
    if is_unsafe_backup_name(name) {
        Err(owned("非法文件名"))
    } else {
        Ok(())
    }
}

/// The error when the backup `name` does not exist.
pub fn backup_missing(name: &str) -> (r: String)
    ensures
        r@ == "备份文件不存在: "@ + name@,
{
    let mut m = owned("备份文件不存在: ");
    m.append(name);
    m
}

/// A file of the backup directory: its name, size and time of creation (seconds).
pub struct BackupFile {
    pub name: String,
    pub size: u64,
    pub created_at: u64,
}

pub struct BackupFileV {
    pub name: Seq<char>,
    pub size: u64,
    pub created_at: u64,
}

impl View for BackupFile {
    type V = BackupFileV;

    open spec fn view(&self) -> BackupFileV {
        BackupFileV { name: self.name@, size: self.size, created_at: self.created_at }
    }
}

pub open spec fn files_view(s: Seq<BackupFile>) -> Seq<BackupFileV> {
    s.map_values(|f: BackupFile| f@)
}

/// Is the file a backup? Its extension is `json`.
pub open spec fn is_backup(f: BackupFileV) -> bool {
    extension_of(f.name) == Some("json"@)
}

/// Inserts `x` into a list ordered newest first, after every file not older than it.
pub open spec fn ins_newest(sorted: Seq<BackupFileV>, x: BackupFileV) -> Seq<BackupFileV>
    decreases sorted.len(),
{
    if sorted.len() == 0 {
        seq![x]
    } else if sorted.last().created_at < x.created_at {
        ins_newest(sorted.drop_last(), x).push(sorted.last())
    } else {
        sorted.push(x)
    }
}

/// The files newest first; files of the same time keep their order (a stable sort).
pub open spec fn newest_first(s: Seq<BackupFileV>) -> Seq<BackupFileV>
    decreases s.len(),
{
    if s.len() == 0 {
        s
    } else {
        ins_newest(newest_first(s.drop_last()), s.last())
    }
}

/// `{"name": .., "size": .., "created_at": ..}`.
pub open spec fn backup_entry(f: BackupFileV) -> JsonV {
    JsonV::Object(
        seq![
            ("name"@, JsonV::Str(f.name)),
            ("size"@, JsonV::Number(dec(f.size as nat))),
            ("created_at"@, JsonV::Number(dec(f.created_at as nat))),
        ],
    )
}

/// The backup list: the `.json` files of the directory, newest first.
pub open spec fn backup_listing_spec(files: Seq<BackupFileV>) -> JsonV {
    JsonV::Array(
        newest_first(files.filter(|f: BackupFileV| is_backup(f))).map_values(
            |f: BackupFileV| backup_entry(f),
        ),
    )
}

proof fn lemma_ins_newest_at(sorted: Seq<BackupFileV>, x: BackupFileV, j: int)
    requires
        0 <= j <= sorted.len(),
        forall|t: int| j <= t < sorted.len() ==> (#[trigger] sorted[t]).created_at < x.created_at,
        j == 0 || !(sorted[j - 1].created_at < x.created_at),
    ensures
        ins_newest(sorted, x) == sorted.insert(j, x),
    decreases sorted.len() - j,
{
    if sorted.len() == 0 {
        assert(sorted.insert(j, x) =~= seq![x]);
    } else if j == sorted.len() {
        assert(sorted.insert(j, x) =~= sorted.push(x));
    } else {
        let d = sorted.drop_last();
        assert(sorted[sorted.len() - 1].created_at < x.created_at);
        assert forall|t: int| j <= t < d.len() implies (#[trigger] d[t]).created_at < x.created_at by {
            assert(d[t] == sorted[t]);
        }
        if j > 0 {
            assert(d[j - 1] == sorted[j - 1]);
        }
        lemma_ins_newest_at(d, x, j);
        assert(d.insert(j, x).push(sorted.last()) =~= sorted.insert(j, x));
    }
}

fn backup_entry_exec(f: &BackupFile) -> (r: Json)
    ensures
        r.deep() == backup_entry(f@),
{
    let mut es: Vec<(String, Json)> = Vec::new();
    push_entry(&mut es, "name", Json::Str(f.name.clone()));
    push_entry(&mut es, "size", Json::number(f.size));
    push_entry(&mut es, "created_at", Json::number(f.created_at));
    proof {
        assert(entries_deep(es@) =~= seq![
            ("name"@, JsonV::Str(f.name@)),
            ("size"@, JsonV::Number(dec(f.size as nat))),
            ("created_at"@, JsonV::Number(dec(f.created_at as nat))),
        ]);
    }
    object(es)
}

/// The backup list of a directory that holds `files`: the `.json` files,
/// newest first, as `{name, size, created_at}` objects.
pub fn backup_listing(files: Vec<BackupFile>) -> (r: Json)
    ensures
        r.deep() == backup_listing_spec(files_view(files@)),
{
    let ghost src = files_view(files@);
    let ghost orig = files@;
    let ghost pred = |f: BackupFileV| is_backup(f);
    let mut kept: Vec<BackupFile> = Vec::new();
    proof {
        reveal(Seq::filter);
        assert(files_view(kept@) =~= Seq::empty());
        assert(src.take(0) =~= Seq::<BackupFileV>::empty());
    }
    for f in it: files.into_iter()
        invariant
            it.seq() == orig,
            src == files_view(orig),
            pred == (|f: BackupFileV| is_backup(f)),
            files_view(kept@) == src.take(it.index() as int).filter(pred),
    {
        let ghost i = it.index();
        proof {
            reveal(Seq::filter);
            assert(src.take(i + 1).drop_last() =~= src.take(i as int));
            assert(src.take(i + 1).last() == f@);
        }
        let keep = match file_extension(f.name.as_str()) {
            Some(e) => str_eq(e.as_str(), "json"),
            None => false,
        };
        if keep {
            let ghost before = kept@;
            kept.push(f);
            proof {
                assert(files_view(kept@) =~= files_view(before).push(f@));
            }
        }
    }
    proof {
        assert(src.take(src.len() as int) =~= src);
    }
    let ghost ks = files_view(kept@);
    let ghost korig = kept@;
    let mut out: Vec<BackupFile> = Vec::new();
    proof {
        assert(files_view(out@) =~= Seq::empty());
    }
    for x in it: kept.into_iter()
        invariant
            it.seq() == korig,
            ks == files_view(korig),
            files_view(out@) == newest_first(ks.take(it.index() as int)),
    {
        let ghost i = it.index();
        let mut j = out.len();
        while j > 0 && out[j - 1].created_at < x.created_at
            invariant
                j <= out@.len(),
                forall|t: int| j <= t < out@.len() ==> (#[trigger] out@[t]).created_at < x.created_at,
            decreases j,
        {
            j = j - 1;
        }
        proof {
            let sv = files_view(out@);
            assert forall|t: int| j <= t < sv.len() implies (#[trigger] sv[t]).created_at
                < x.created_at by {
                assert(sv[t] == out@[t]@);
            }
            if j > 0 {
                assert(sv[j - 1] == out@[j - 1]@);
            }
            lemma_ins_newest_at(sv, x@, j as int);
            assert(ks.take(i + 1).drop_last() =~= ks.take(i as int));
            assert(ks.take(i + 1).last() == x@);
        }
        let ghost before = out@;
        let ghost xv = x@;
        out.insert(j, x);
        proof {
            assert(files_view(out@) =~= files_view(before).insert(j as int, xv));
        }
    }
    proof {
        assert(ks.take(ks.len() as int) =~= ks);
    }
    let mut arr: Vec<Json> = Vec::new();
    let n = out.len();
    for i in 0..n
        invariant
            n == out@.len(),
            elems_deep(arr@) == files_view(out@).take(i as int).map_values(
                |f: BackupFileV| backup_entry(f),
            ),
    {
        let e = backup_entry_exec(&out[i]);
        proof {
            lemma_elems_deep_push(arr@, e);
            assert(files_view(out@).take(i + 1).map_values(|f: BackupFileV| backup_entry(f))
                =~= files_view(out@).take(i as int).map_values(|f: BackupFileV| backup_entry(f)).push(
                backup_entry(out@[i as int]@),
            ));
        }
        arr.push(e);
    }
    proof {
        assert(files_view(out@).take(n as int) =~= files_view(out@));
        crate::json::lemma_array_deep(arr);
    }
    Json::Array(arr)
}

/// The answer to a backup request: `{"name": .., "size": ..}`.
pub fn backup_created(name: String, size: u64) -> (r: Json)
    ensures
        r.deep() == JsonV::Object(
            seq![("name"@, JsonV::Str(name@)), ("size"@, JsonV::Number(dec(size as nat)))],
        ),
{
    let ghost nv = name@;
    let mut es: Vec<(String, Json)> = Vec::new();
    push_entry(&mut es, "name", Json::Str(name));
    push_entry(&mut es, "size", Json::number(size));
    proof {
        assert(entries_deep(es@) =~= seq![
            ("name"@, JsonV::Str(nv)),
            ("size"@, JsonV::Number(dec(size as nat))),
        ]);
    }
    object(es)
}


/// Ordered newest first.
pub open spec fn is_newest_first(s: Seq<BackupFileV>) -> bool {
    forall|i: int, j: int| 0 <= i < j < s.len() ==> s[i].created_at >= s[j].created_at
}

/// Where `ins_newest` puts `x`.
spec fn newest_pos(s: Seq<BackupFileV>, x: BackupFileV) -> int
    decreases s.len(),
{
    if s.len() == 0 {
        0
    } else if s.last().created_at < x.created_at {
        newest_pos(s.drop_last(), x)
    } else {
        s.len() as int
    }
}

proof fn lemma_newest_pos(s: Seq<BackupFileV>, x: BackupFileV)
    ensures
        0 <= newest_pos(s, x) <= s.len(),
        forall|t: int| newest_pos(s, x) <= t < s.len() ==> (#[trigger] s[t]).created_at < x.created_at,
        newest_pos(s, x) > 0 ==> !(s[newest_pos(s, x) - 1].created_at < x.created_at),
    decreases s.len(),
{
    if s.len() > 0 && s.last().created_at < x.created_at {
        let d = s.drop_last();
        lemma_newest_pos(d, x);
        assert forall|t: int| newest_pos(s, x) <= t < s.len() implies (#[trigger] s[t]).created_at
            < x.created_at by {
            if t < s.len() - 1 {
                assert(s[t] == d[t]);
            }
        }
        if newest_pos(s, x) > 0 {
            assert(s[newest_pos(s, x) - 1] == d[newest_pos(s, x) - 1]);
        }
    }
}

proof fn lemma_ins_newest(s: Seq<BackupFileV>, x: BackupFileV)
    requires
        is_newest_first(s),
    ensures
        is_newest_first(ins_newest(s, x)),
        ins_newest(s, x).to_multiset() == s.to_multiset().insert(x),
{
    let k = newest_pos(s, x);
    lemma_newest_pos(s, x);
    lemma_ins_newest_at(s, x, k);
    let r = s.insert(k, x);
    assert forall|i: int, j: int| 0 <= i < j < r.len() implies r[i].created_at >= r[j].created_at by {
        if j < k {
            assert(r[i] == s[i] && r[j] == s[j]);
        } else if j == k {
            assert(r[j] == x);
            assert(r[i] == s[i]);
            assert(s[i].created_at >= s[k - 1].created_at);
        } else if i < k {
            assert(r[i] == s[i] && r[j] == s[j - 1]);
        } else if i == k {
            assert(r[i] == x && r[j] == s[j - 1]);
        } else {
            assert(r[i] == s[i - 1] && r[j] == s[j - 1]);
        }
    }
    vstd::seq_lib::to_multiset_insert(s, k, x);
}

/// Law: the backup list is ordered newest first and holds each backup file
/// exactly once (`newest_first` is a permutation that orders by time).
pub proof fn law_backups_newest_first(s: Seq<BackupFileV>)
    ensures
        is_newest_first(newest_first(s)),
        newest_first(s).to_multiset() == s.to_multiset(),
    decreases s.len(),
{
    if s.len() == 0 {
    } else {
        let d = s.drop_last();
        law_backups_newest_first(d);
        lemma_ins_newest(newest_first(d), s.last());
        vstd::seq_lib::to_multiset_build(d, s.last());
        assert(d.push(s.last()) =~= s);
    }
}

} // verus!

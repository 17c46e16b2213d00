//! The memory files of an agent: which paths a request may name, where each
//! category of memory lives, which files are listed, and how an export is named.
use vstd::prelude::*;
use vstd::string::*;
use crate::json::{Json, JsonV, field_str, elems_deep, lemma_array_deep};
use crate::text::{contains, starts_with, contains_str, starts_with_str, str_eq, owned, chars_of};

verus! {

/// Does `path` escape its directory or name an absolute location? It holds
/// `..` or a NUL, starts with `/` or `\`, or has `:` as its second byte (`C:`).
pub open spec fn unsafe_path_spec(p: Seq<char>, bytes: Seq<u8>) -> bool {
    contains(p, ".."@) || contains(p, "\0"@) || starts_with(p, "/"@) || starts_with(p, "\\"@) || (
    bytes.len() >= 2 && bytes[1] == 58u8)
}

pub fn is_unsafe_path(path: &str) -> (r: bool)
    ensures
        r == unsafe_path_spec(path@, path.spec_bytes()),
{
    let b = path.as_bytes();
    contains_str(path, "..") || contains_str(path, "\0") || starts_with_str(path, "/")
        || starts_with_str(path, "\\") || (b.len() >= 2 && b[1] == 58u8)
}

/// The first agent of `agents` with id `id` that has a string `workspace`.
pub open spec fn workspace_in(agents: Seq<JsonV>, id: Seq<char>) -> Option<Seq<char>>
    decreases agents.len(),
{
    if agents.len() == 0 {
        None
    } else if field_str(agents[0], "id"@) == Some(id) && field_str(agents[0], "workspace"@) is Some {
        field_str(agents[0], "workspace"@)
    } else {
        workspace_in(agents.drop_first(), id)
    }
}

/// The workspace of agent `id` in the output of `openclaw agents list --json`.
pub open spec fn agent_workspace_spec(agents: JsonV, id: Seq<char>) -> Result<Seq<char>, Seq<char>> {
    match (match agents {
        JsonV::Array(a) => workspace_in(a, id),
        _ => None,
    }) {
        Some(w) => Ok(w),
        None => Err("Agent「"@ + id + "」不存在或无 workspace"@),
    }
}

/// The workspace directory of agent `agent_id`, from the agent list that the CLI printed.
pub fn agent_workspace(agents: &Json, agent_id: &str) -> (r: Result<String, String>)
    ensures
        match r {
            Ok(w) => agent_workspace_spec(agents.deep(), agent_id@) == Ok::<Seq<char>, Seq<char>>(
                w@,
            ),
            Err(e) => agent_workspace_spec(agents.deep(), agent_id@) == Err::<Seq<char>, Seq<char>>(
                e@,
            ),
        },
{
    match agents {
        Json::Array(a) => {
            proof {
                lemma_array_deep(*a);
            }
            let ghost d = elems_deep(a@);
            let n = a.len();
            proof {
                assert(d.subrange(0, n as int) =~= d);
            }
            for j in 0..n
                invariant
                    n == a@.len(),
                    d == elems_deep(a@),
                    agents.deep() == JsonV::Array(d),
                    workspace_in(d, agent_id@) == workspace_in(d.subrange(j as int, n as int), agent_id@),
            {
                proof {
                    let t = d.subrange(j as int, n as int);
                    assert(t[0] == a@[j as int].deep());
                    assert(t.drop_first() =~= d.subrange(j + 1, n as int));
                }
                match a[j].get_str("id") {
                    Some(id) => {
                        if str_eq(id, agent_id) {
                            match a[j].get_str("workspace") {
                                Some(ws) => {
                                    proof {
                                        let t = d.subrange(j as int, n as int);
                                        assert(field_str(t[0], "id"@) == Some(agent_id@));
                                        assert(field_str(t[0], "workspace"@) == Some(ws@));
                                        assert(workspace_in(t, agent_id@) == Some(ws@));
                                    }
                                    return Ok(owned(ws));
                                },
                                None => {},
                            }
                        }
                    },
                    None => {},
                }
            }
            proof {
                assert(d.subrange(n as int, n as int).len() == 0);
            }
        },
        _ => {},
    }
    let mut e = owned("Agent「");
    e.append(agent_id);
    e.append("」不存在或无 workspace");
    Err(e)
}

/// The message when the agent list cannot be had because the CLI did not start:
/// a hint when it is not installed, else the cause.
pub fn agents_cli_error(not_found: bool, detail: &str) -> (r: String)
    ensures
        r@ == (if not_found {
            "OpenClaw CLI 未找到，请确认已安装并重启 ClawPanel。\n如果使用 nvm 安装，请从终端启动 ClawPanel。"@
        } else {
            "执行 openclaw 失败: "@ + detail@
        }),
{
    if not_found {
        owned(
            "OpenClaw CLI 未找到，请确认已安装并重启 ClawPanel。\n如果使用 nvm 安装，请从终端启动 ClawPanel。",
        )
    } else {
        let mut m = owned("执行 openclaw 失败: ");
        m.append(detail);
        m
    }
}

/// Where a category of memory lives, relative to the agent's workspace.
#[derive(Debug, Clone, Copy, PartialEq, Eq, Structural)]
pub enum MemoryDir {
    /// `<workspace>/memory`.
    Memory,
    /// `workspace-memory` beside the workspace (`<workspace>/memory-archive`
    /// when the workspace has no parent).
    Archive,
    /// The workspace itself.
    Core,
}

pub open spec fn memory_dir_spec(category: Seq<char>) -> MemoryDir {
    if category == "archive"@ {
        MemoryDir::Archive
    } else if category == "core"@ {
        MemoryDir::Core
    } else {
        MemoryDir::Memory
    }
}

/// The place of the memory category `category`; an unknown one means `memory`.
pub fn memory_location(category: &str) -> (r: MemoryDir)
    ensures
        r == memory_dir_spec(category@),
{
    if str_eq(category, "archive") {
        MemoryDir::Archive
    } else if str_eq(category, "core") {
        MemoryDir::Core
    } else {
        MemoryDir::Memory
    }
}

/// The places a file named in a read or a delete is looked for, in order.
pub fn lookup_order() -> (r: Vec<MemoryDir>)
    ensures
        r@ == seq![MemoryDir::Memory, MemoryDir::Archive, MemoryDir::Core],
{
    let mut v: Vec<MemoryDir> = Vec::new();
    v.push(MemoryDir::Memory);
    v.push(MemoryDir::Archive);
    v.push(MemoryDir::Core);
    proof {
        assert(v@ =~= seq![MemoryDir::Memory, MemoryDir::Archive, MemoryDir::Core]);
    }
    v
}

/// Are subdirectories listed too? Everywhere but in `core`, which holds only
/// the files at the workspace's root.
pub fn lists_subdirectories(category: &str) -> (r: bool)
    ensures
        r == (category@ != "core"@),
{
    !str_eq(category, "core")
}

/// The last position of `c` in `s`.
pub open spec fn rfind_char(s: Seq<char>, c: char) -> Option<int>
    decreases s.len(),
{
    if s.len() == 0 {
        None
    } else if s.last() == c {
        Some(s.len() - 1)
    } else {
        rfind_char(s.drop_last(), c)
    }
}

/// The extension of a file name, as `Path::extension` gives it: what follows
/// the last dot, unless there is none, the dot is the first character, or
/// the name is `..`.
pub open spec fn extension_of(name: Seq<char>) -> Option<Seq<char>> {
    if name == ".."@ {
        None
    } else {
        match rfind_char(name, '.') {
            Some(i) => if i == 0 {
                None
            } else {
                Some(name.subrange(i + 1, name.len() as int))
            },
            None => None,
        }
    }
}

proof fn lemma_rfind_char_is(s: Seq<char>, c: char, i: int)
    requires
        0 <= i < s.len(),
        s[i] == c,
        forall|j: int| i < j < s.len() ==> s[j] != c,
    ensures
        rfind_char(s, c) == Some(i),
    decreases s.len(),
{
    if i < s.len() - 1 {
        assert(s.drop_last()[i] == c);
        lemma_rfind_char_is(s.drop_last(), c, i);
    }
}

proof fn lemma_rfind_char_none(s: Seq<char>, c: char)
    requires
        forall|j: int| 0 <= j < s.len() ==> s[j] != c,
    ensures
        rfind_char(s, c) is None,
    decreases s.len(),
{
    if s.len() > 0 {
        lemma_rfind_char_none(s.drop_last(), c);
    }
}

/// The extension of a file name (see `extension_of`).
pub fn file_extension(name: &str) -> (r: Option<String>)
    ensures
        match r {
            Some(e) => extension_of(name@) == Some(e@),
            None => extension_of(name@) is None,
        },
{
    if str_eq(name, "..") {
        return None;
    }
    let cs = chars_of(name);
    let n = cs.len();
    let mut i = n;
    while i > 0
        invariant
            i <= n,
            n == cs@.len(),
            cs@ == name@,
            name@ != ".."@,
            forall|j: int| i <= j < n ==> cs@[j] != '.',
        decreases i,
    {
        if cs[i - 1] == '.' {
            proof {
                lemma_rfind_char_is(name@, '.', i - 1);
            }
            if i - 1 == 0 {
                return None;
            }
            let out = owned(name.substring_char(i, n));
            return Some(out);
        }
        i = i - 1;
    }
    proof {
        lemma_rfind_char_none(name@, '.');
    }
    None
}

/// Is a file with this name listed as memory? Its extension is `md`, `txt`,
/// `json` or `jsonl`.
pub open spec fn memory_file_spec(name: Seq<char>) -> bool {
    match extension_of(name) {
        Some(e) => e == "md"@ || e == "txt"@ || e == "json"@ || e == "jsonl"@,
        None => false,
    }
}

pub fn is_memory_file(name: &str) -> (r: bool)
    ensures
        r == memory_file_spec(name@),
{
    match file_extension(name) {
        Some(e) => {
            let x = e.as_str();
            str_eq(x, "md") || str_eq(x, "txt") || str_eq(x, "json") || str_eq(x, "jsonl")
        },
        None => false,
    }
}

/// `openclaw-<category>-<stamp>.zip`.
pub open spec fn memory_zip_name_spec(category: Seq<char>, stamp: Seq<char>) -> Seq<char> {
    "openclaw-"@ + category + "-"@ + stamp + ".zip"@
}

/// The name of an export of `category` made at `stamp`.
pub fn memory_zip_name_at(category: &str, stamp: &str) -> (r: String)
    ensures
        r@ == memory_zip_name_spec(category@, stamp@),
{
    let mut m = owned("openclaw-");
    m.append(category);
    m.append("-");
    m.append(stamp);
    m.append(".zip");
    m
}

} // verus!

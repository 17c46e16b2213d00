//! Installing, upgrading and removing the OpenClaw CLI through npm: which
//! package and registry, which commands, what the user is told, and the order
//! of the steps, as state machines that the application drives.
use vstd::prelude::*;
use crate::text::{
    contains, trim, join, sviews, str_eq, owned, contains_str, trim_ws, join_strings,
};
use crate::num::{dec, push_dec, int_text, i32_to_string, u64_to_string};
use crate::version::{package_of, npm_package_name, opt_view, panel_version, panel_version_spec};

verus! {

/// The registry used when none is configured.
pub open spec fn default_registry_spec() -> Seq<char> {
    "https://registry.npmmirror.com"@
}

/// The official npm registry.
pub open spec fn npmjs_spec() -> Seq<char> {
    "https://registry.npmjs.org"@
}

/// The registry configured in `npm-registry.txt`: its trimmed content when that
/// is not empty, else the default mirror. `None` when the file cannot be read.
pub open spec fn configured_registry_spec(content: Option<Seq<char>>) -> Seq<char> {
    match content {
        Some(c) => if trim(c).len() > 0 {
            trim(c)
        } else {
            default_registry_spec()
        },
        None => default_registry_spec(),
    }
}

pub fn configured_registry(content: Option<&str>) -> (r: String)
    ensures
        r@ == configured_registry_spec(
            match content {
                Some(c) => Some(c@),
                None => None,
            },
        ),
{
    match content {
        Some(c) => {
            let t = trim_ws(c);
            if !t.is_empty() {
                owned(t)
            } else {
                owned("https://registry.npmmirror.com")
            }
        },
        None => owned("https://registry.npmmirror.com"),
    }
}


/// `code.map(|c| c.to_string()).unwrap_or("unknown")`: how an exit code is shown.
pub open spec fn code_text(code: Option<i32>) -> Seq<char> {
    match code {
        Some(c) => int_text(c as int),
        None => "unknown"@,
    }
}

pub fn exit_code_text(code: Option<i32>) -> (r: String)
    ensures
        r@ == code_text(code),
{
    match code {
        Some(c) => i32_to_string(c),
        None => owned("unknown"),
    }
}

/// The last 15 lines of `lines` (all of them when there are fewer), joined by newlines.
pub open spec fn tail_spec(lines: Seq<Seq<char>>) -> Seq<char> {
    let start: int = if lines.len() > 15 {
        lines.len() - 15
    } else {
        0
    };
    join(lines.subrange(start, lines.len() as int), "\n"@)
}

pub fn stderr_tail(lines: &Vec<String>) -> (r: String)
    ensures
        r@ == tail_spec(sviews(lines@)),
{
    let n = lines.len();
    let start: usize = if n > 15 {
        n - 15
    } else {
        0
    };
    let mut last: Vec<String> = Vec::new();
    for i in start..n
        invariant
            n == lines@.len(),
            start <= n,
            sviews(last@) == sviews(lines@).subrange(start as int, i as int),
    {
        let ghost before = last@;
        last.push(lines[i].clone());
        proof {
            assert(sviews(last@) =~= sviews(before).push(lines@[i as int]@));
            assert(sviews(lines@).subrange(start as int, i + 1) =~= sviews(lines@).subrange(
                start as int,
                i as int,
            ).push(lines@[i as int]@));
        }
    }
    join_strings(&last, "\n")
}

/// Is `registry` one of the Chinese npm mirrors?
pub open spec fn uses_mirror(registry: Seq<char>) -> bool {
    contains(registry, "npmmirror.com"@) || contains(registry, "taobao.org"@)
}

pub fn is_mirror(registry: &str) -> (r: bool)
    ensures
        r == uses_mirror(registry@),
{
    contains_str(registry, "npmmirror.com") || contains_str(registry, "taobao.org")
}

/// The registry an install of `pkg_name` uses: the Chinese build is served only
/// by the Chinese mirrors and the official registry, so any other configured
/// registry gives way to the official one; the official build uses the configured one.
pub open spec fn install_registry_spec(pkg_name: Seq<char>, configured: Seq<char>) -> Seq<char> {
    if contains(pkg_name, "openclaw-zh"@) && !uses_mirror(configured) {
        npmjs_spec()
    } else {
        configured
    }
}

pub fn install_registry(pkg_name: &str, configured: &str) -> (r: String)
    ensures
        r@ == install_registry_spec(pkg_name@, configured@),
{
    if contains_str(pkg_name, "openclaw-zh") && !is_mirror(configured) {
        owned("https://registry.npmjs.org")
    } else {
        owned(configured)
    }
}

/// The version to install: the one asked for, else the recommended one, else `latest`.
pub open spec fn target_version(requested: Option<Seq<char>>, recommended: Option<Seq<char>>) -> Seq<
    char,
> {
    match requested {
        Some(v) => v,
        None => match recommended {
            Some(v) => v,
            None => "latest"@,
        },
    }
}

/// `<package>@<version>` for the distribution `source`.
pub open spec fn package_spec(
    source: Seq<char>,
    requested: Option<Seq<char>>,
    recommended: Option<Seq<char>>,
) -> Seq<char> {
    package_of(source) + "@"@ + target_version(requested, recommended)
}

/// The arguments of `npm install -g <pkg> --force --registry <registry> --verbose`.
pub open spec fn install_args_spec(pkg: Seq<char>, registry: Seq<char>) -> Seq<Seq<char>> {
    seq!["install"@, "-g"@, pkg, "--force"@, "--registry"@, registry, "--verbose"@]
}

pub fn install_args(pkg: &str, registry: &str) -> (r: Vec<String>)
    ensures
        sviews(r@) == install_args_spec(pkg@, registry@),
{
    let mut v: Vec<String> = Vec::new();
    v.push(owned("install"));
    v.push(owned("-g"));
    v.push(owned(pkg));
    v.push(owned("--force"));
    v.push(owned("--registry"));
    v.push(owned(registry));
    v.push(owned("--verbose"));
    proof {
        assert(sviews(v@) =~= install_args_spec(pkg@, registry@));
    }
    v
}


/// Something to show the user while a task runs: a log line or a progress percentage.
#[derive(Debug, PartialEq)]
pub enum Note {
    Log(String),
    Progress(u32),
}

pub enum NoteV {
    Log(Seq<char>),
    Progress(u32),
}

impl View for Note {
    type V = NoteV;

    open spec fn view(&self) -> NoteV {
        match self {
            Note::Log(s) => NoteV::Log(s@),
            Note::Progress(p) => NoteV::Progress(*p),
        }
    }
}

pub open spec fn notes_view(ns: Seq<Note>) -> Seq<NoteV> {
    ns.map_values(|n: Note| n@)
}

fn log_note(s: &str) -> (r: Note)
    ensures
        r@ == NoteV::Log(s@),
{
    Note::Log(owned(s))
}

fn push_note(ns: &mut Vec<Note>, n: Note)
    ensures
        notes_view(final(ns)@) == notes_view(old(ns)@).push(n@),
{
    ns.push(n);
    proof {
        assert(notes_view(ns@) =~= notes_view(old(ns)@).push(n@));
    }
}

/// The next progress value while an install prints its log, starting from 15
/// (20 on the retry): two points per line, up to 75.
pub fn stream_progress(p: u32) -> (r: Option<u32>)
    ensures
        r == (if p < 75 {
            Some((p + 2) as u32)
        } else {
            None
        }),
{
    if p < 75 {
        Some(p + 2)
    } else {
        None
    }
}

/// Where an upgrade stands: what it waits for next.
#[derive(Debug, Clone, Copy, PartialEq, Eq, Structural)]
pub enum UpgradeStage {
    ConfiguringGit,
    CleaningUp,
    Installing,
    Retrying,
    RemovingOld,
    ReinstallingGateway,
    ReadingVersion,
    Done,
}

/// An upgrade (or downgrade, or switch of distribution) of the OpenClaw CLI.
pub struct Upgrade {
    pub stage: UpgradeStage,
    /// `<package>@<version>`.
    pub pkg: String,
    /// The registry of the first attempt.
    pub registry: String,
    /// The package of the distribution installed before.
    pub old_pkg: String,
    /// Whether the distribution changes, so that the old package goes afterwards.
    pub switch_source: bool,
}

pub struct UpgradeV {
    pub stage: UpgradeStage,
    pub pkg: Seq<char>,
    pub registry: Seq<char>,
    pub old_pkg: Seq<char>,
    pub switch_source: bool,
}

impl View for Upgrade {
    type V = UpgradeV;

    open spec fn view(&self) -> UpgradeV {
        UpgradeV {
            stage: self.stage,
            pkg: self.pkg@,
            registry: self.registry@,
            old_pkg: self.old_pkg@,
            switch_source: self.switch_source,
        }
    }
}

/// What happened outside since the last step.
pub enum UpgradeEvent {
    /// This many of the Git HTTPS rewrite rules were configured.
    GitConfigured(usize),
    CleanedUp,
    /// The npm install ended; `stderr` holds the lines it printed there.
    InstallExited { success: bool, code: Option<i32>, stderr: Vec<String> },
    OldRemoved,
    /// Whether `openclaw gateway install` succeeded.
    GatewayReinstalled(bool),
    /// The version now installed, when it could be read.
    VersionRead(Option<String>),
}

pub enum UpgradeEventV {
    GitConfigured(usize),
    CleanedUp,
    InstallExited(bool, Option<i32>, Seq<Seq<char>>),
    OldRemoved,
    GatewayReinstalled(bool),
    VersionRead(Option<Seq<char>>),
}

impl View for UpgradeEvent {
    type V = UpgradeEventV;

    open spec fn view(&self) -> UpgradeEventV {
        match self {
            UpgradeEvent::GitConfigured(n) => UpgradeEventV::GitConfigured(*n),
            UpgradeEvent::CleanedUp => UpgradeEventV::CleanedUp,
            UpgradeEvent::InstallExited { success, code, stderr } => UpgradeEventV::InstallExited(
                *success,
                *code,
                sviews(stderr@),
            ),
            UpgradeEvent::OldRemoved => UpgradeEventV::OldRemoved,
            UpgradeEvent::GatewayReinstalled(b) => UpgradeEventV::GatewayReinstalled(*b),
            UpgradeEvent::VersionRead(v) => UpgradeEventV::VersionRead(opt_view(*v)),
        }
    }
}

/// What the application does next.
#[derive(Debug, PartialEq)]
pub enum UpgradeAction {
    /// Configure the Git HTTPS rewrite rules (`git config --global --add ...`).
    ConfigureGit,
    /// Stop the gateway and remove stale binaries.
    CleanUp,
    /// Run `npm <args>` with the Git environment, logging its output; progress
    /// moves from `progress_from` by `stream_progress` for each line of stderr.
    Install { args: Vec<String>, progress_from: u32 },
    /// Run `npm uninstall -g <package>`, ignoring its outcome.
    RemoveOld(String),
    /// Refresh the search path, stop the gateway and run `openclaw gateway install`.
    ReinstallGateway,
    /// Read the installed version.
    ReadVersion,
    /// The task is over.
    Finish(Result<String, String>),
}

pub enum UpgradeActionV {
    ConfigureGit,
    CleanUp,
    Install(Seq<Seq<char>>, u32),
    RemoveOld(Seq<char>),
    ReinstallGateway,
    ReadVersion,
    Finish(Result<Seq<char>, Seq<char>>),
}

impl View for UpgradeAction {
    type V = UpgradeActionV;

    open spec fn view(&self) -> UpgradeActionV {
        match self {
            UpgradeAction::ConfigureGit => UpgradeActionV::ConfigureGit,
            UpgradeAction::CleanUp => UpgradeActionV::CleanUp,
            UpgradeAction::Install { args, progress_from } => UpgradeActionV::Install(
                sviews(args@),
                *progress_from,
            ),
            UpgradeAction::RemoveOld(p) => UpgradeActionV::RemoveOld(p@),
            UpgradeAction::ReinstallGateway => UpgradeActionV::ReinstallGateway,
            UpgradeAction::ReadVersion => UpgradeActionV::ReadVersion,
            UpgradeAction::Finish(r) => UpgradeActionV::Finish(
                match r {
                    Ok(m) => Ok(m@),
                    Err(e) => Err(e@),
                },
            ),
        }
    }
}

/// The banner shown when no version was asked for.
pub open spec fn banner_spec(panel_version: Seq<char>, recommended: Option<Seq<char>>) -> Seq<char> {
    match recommended {
        Some(r) => "ClawPanel "@ + panel_version + " 默认绑定 OpenClaw 稳定版: "@ + r,
        None => "未找到绑定稳定版，将回退到 latest"@,
    }
}

/// The upgrade as it starts: to `source` from the installed `current_source`,
/// of the version `requested` or else `recommended`, from `configured_registry`.
pub open spec fn start_upgrade_spec(
    source: Seq<char>,
    current_source: Seq<char>,
    requested: Option<Seq<char>>,
    recommended: Option<Seq<char>>,
    configured_registry: Seq<char>,
    panel_version: Seq<char>,
) -> (UpgradeV, Seq<NoteV>, UpgradeActionV) {
    (
        UpgradeV {
            stage: UpgradeStage::ConfiguringGit,
            pkg: package_spec(source, requested, recommended),
            registry: install_registry_spec(package_of(source), configured_registry),
            old_pkg: package_of(current_source),
            switch_source: current_source != source,
        },
        if requested is None {
            seq![NoteV::Log(banner_spec(panel_version, recommended))]
        } else {
            Seq::empty()
        },
        UpgradeActionV::ConfigureGit,
    )
}


pub open spec fn with_stage(u: UpgradeV, stage: UpgradeStage) -> UpgradeV {
    UpgradeV {
        stage,
        pkg: u.pkg,
        registry: u.registry,
        old_pkg: u.old_pkg,
        switch_source: u.switch_source,
    }
}

/// Does the event answer what the upgrade waits for?
pub open spec fn upgrade_fits(stage: UpgradeStage, e: UpgradeEventV) -> bool {
    match e {
        UpgradeEventV::GitConfigured(_) => stage == UpgradeStage::ConfiguringGit,
        UpgradeEventV::CleanedUp => stage == UpgradeStage::CleaningUp,
        UpgradeEventV::InstallExited(..) => stage == UpgradeStage::Installing || stage
            == UpgradeStage::Retrying,
        UpgradeEventV::OldRemoved => stage == UpgradeStage::RemovingOld,
        UpgradeEventV::GatewayReinstalled(_) => stage == UpgradeStage::ReinstallingGateway,
        UpgradeEventV::VersionRead(_) => stage == UpgradeStage::ReadingVersion,
    }
}

/// After a successful install: the old distribution's package goes when the
/// distribution changed; else the new version is read.
pub open spec fn after_install_spec(u: UpgradeV, notes: Seq<NoteV>) -> (
    UpgradeV,
    Seq<NoteV>,
    UpgradeActionV,
) {
    if u.switch_source {
        (
            with_stage(u, UpgradeStage::RemovingOld),
            notes.push(NoteV::Log("清理旧版本 ("@ + u.old_pkg + ")..."@)),
            UpgradeActionV::RemoveOld(u.old_pkg),
        )
    } else {
        (with_stage(u, UpgradeStage::ReadingVersion), notes, UpgradeActionV::ReadVersion)
    }
}

/// One step of an upgrade: the event that came in decides the next stage, what
/// the user is told and what the application does next. A failed install from
/// a Chinese mirror is retried once from the official registry; a failure
/// reports the exit code and the last lines of npm's error output.
pub open spec fn upgrade_step_spec(u: UpgradeV, e: UpgradeEventV) -> (
    UpgradeV,
    Seq<NoteV>,
    UpgradeActionV,
) {
    match e {
        UpgradeEventV::GitConfigured(n) => (
            with_stage(u, UpgradeStage::CleaningUp),
            seq![
                NoteV::Log("Git HTTPS 规则已就绪 ("@ + dec(n as nat) + "/6)"@),
                NoteV::Log("正在停止 Gateway 并清理旧文件..."@),
            ],
            UpgradeActionV::CleanUp,
        ),
        UpgradeEventV::CleanedUp => (
            with_stage(u, UpgradeStage::Installing),
            seq![NoteV::Log("$ npm install -g "@ + u.pkg + " --force"@), NoteV::Progress(10)],
            UpgradeActionV::Install(install_args_spec(u.pkg, u.registry), 15),
        ),
        UpgradeEventV::InstallExited(success, code, stderr) => {
            let base = seq![NoteV::Progress(80), NoteV::Progress(100)];
            if u.stage == UpgradeStage::Installing {
                if success {
                    after_install_spec(u, base)
                } else if uses_mirror(u.registry) {
                    (
                        with_stage(u, UpgradeStage::Retrying),
                        base + seq![
                            NoteV::Log(""@),
                            NoteV::Log("⚠️ 镜像源安装失败，自动切换到官方源重试..."@),
                            NoteV::Progress(15),
                        ],
                        UpgradeActionV::Install(install_args_spec(u.pkg, npmjs_spec()), 20),
                    )
                } else {
                    (
                        with_stage(u, UpgradeStage::Done),
                        base.push(NoteV::Log("❌ 升级失败 (exit code: "@ + code_text(code) + ")"@)),
                        UpgradeActionV::Finish(
                            Err("升级失败，exit code: "@ + code_text(code) + "\n"@ + tail_spec(stderr)),
                        ),
                    )
                }
            } else {
                if success {
                    after_install_spec(u, base.push(NoteV::Log("✅ 官方源安装成功"@)))
                } else {
                    (
                        with_stage(u, UpgradeStage::Done),
                        base,
                        UpgradeActionV::Finish(
                            Err(
                                "升级失败（镜像源和官方源均失败），exit code: "@ + code_text(code) + "\n"@
                                    + tail_spec(stderr),
                            ),
                        ),
                    )
                }
            }
        },
        UpgradeEventV::OldRemoved => (
            with_stage(u, UpgradeStage::ReinstallingGateway),
            seq![NoteV::Log("正在重装 Gateway 服务（更新启动路径）..."@)],
            UpgradeActionV::ReinstallGateway,
        ),
        UpgradeEventV::GatewayReinstalled(ok) => (
            with_stage(u, UpgradeStage::ReadingVersion),
            seq![
                NoteV::Log(
                    if ok {
                        "Gateway 服务已重装"@
                    } else {
                        "⚠️ Gateway 重装失败，请手动执行 openclaw gateway install"@
                    },
                ),
            ],
            UpgradeActionV::ReadVersion,
        ),
        UpgradeEventV::VersionRead(v) => {
            let msg = "✅ 安装完成，当前版本: "@ + match v {
                Some(x) => x,
                None => "未知"@,
            };
            (with_stage(u, UpgradeStage::Done), seq![NoteV::Log(msg)], UpgradeActionV::Finish(Ok(msg)))
        },
    }
}

/// Starts an upgrade (see `start_upgrade_spec`).
pub fn start_upgrade(
    source: &str,
    current_source: &str,
    requested: Option<String>,
    recommended: Option<String>,
    configured_registry: &str,
) -> (r: (Upgrade, Vec<Note>, UpgradeAction))
    ensures
        r.0@ == start_upgrade_spec(
            source@,
            current_source@,
            opt_view(requested),
            opt_view(recommended),
            configured_registry@,
            panel_version_spec(),
        ).0,
        notes_view(r.1@) == start_upgrade_spec(
            source@,
            current_source@,
            opt_view(requested),
            opt_view(recommended),
            configured_registry@,
            panel_version_spec(),
        ).1,
        r.2@ == start_upgrade_spec(
            source@,
            current_source@,
            opt_view(requested),
            opt_view(recommended),
            configured_registry@,
            panel_version_spec(),
        ).2,
{
    let name = npm_package_name(source);
    let mut pkg = owned(name);
    pkg.append("@");
    match &requested {
        Some(v) => pkg.append(v.as_str()),
        None => match &recommended {
            Some(v) => pkg.append(v.as_str()),
            None => pkg.append("latest"),
        },
    }
    let registry = install_registry(name, configured_registry);
    let old_pkg = owned(npm_package_name(current_source));
    let switch_source = !str_eq(current_source, source);
    let mut notes: Vec<Note> = Vec::new();
    proof {
        assert(notes_view(notes@) =~= Seq::empty());
    }
    if requested.is_none() {
        let banner = match &recommended {
            Some(r) => {
                let mut b = owned("ClawPanel ");
                b.append(panel_version());
                b.append(" 默认绑定 OpenClaw 稳定版: ");
                b.append(r.as_str());
                b
            },
            None => owned("未找到绑定稳定版，将回退到 latest"),
        };
        push_note(&mut notes, Note::Log(banner));
    }
    let u = Upgrade {
        stage: UpgradeStage::ConfiguringGit,
        pkg,
        registry,
        old_pkg,
        switch_source,
    };
    (u, notes, UpgradeAction::ConfigureGit)
}


/// Whether `e` answers what an upgrade at `stage` waits for.
pub fn upgrade_expects(stage: UpgradeStage, e: &UpgradeEvent) -> (r: bool)
    ensures
        r == upgrade_fits(stage, e@),
{
    match e {
        UpgradeEvent::GitConfigured(_) => match stage {
            UpgradeStage::ConfiguringGit => true,
            _ => false,
        },
        UpgradeEvent::CleanedUp => match stage {
            UpgradeStage::CleaningUp => true,
            _ => false,
        },
        UpgradeEvent::InstallExited { .. } => match stage {
            UpgradeStage::Installing => true,
            UpgradeStage::Retrying => true,
            _ => false,
        },
        UpgradeEvent::OldRemoved => match stage {
            UpgradeStage::RemovingOld => true,
            _ => false,
        },
        UpgradeEvent::GatewayReinstalled(_) => match stage {
            UpgradeStage::ReinstallingGateway => true,
            _ => false,
        },
        UpgradeEvent::VersionRead(_) => match stage {
            UpgradeStage::ReadingVersion => true,
            _ => false,
        },
    }
}

fn after_install(u: Upgrade, notes: Vec<Note>) -> (r: (Upgrade, Vec<Note>, UpgradeAction))
    ensures
        r.0@ == after_install_spec(u@, notes_view(notes@)).0,
        notes_view(r.1@) == after_install_spec(u@, notes_view(notes@)).1,
        r.2@ == after_install_spec(u@, notes_view(notes@)).2,
{
    let mut notes = notes;
    if u.switch_source {
        let mut m = owned("清理旧版本 (");
        m.append(u.old_pkg.as_str());
        m.append(")...");
        push_note(&mut notes, Note::Log(m));
        let old = u.old_pkg.clone();
        let nu = Upgrade { stage: UpgradeStage::RemovingOld, ..u };
        (nu, notes, UpgradeAction::RemoveOld(old))
    } else {
        let nu = Upgrade { stage: UpgradeStage::ReadingVersion, ..u };
        (nu, notes, UpgradeAction::ReadVersion)
    }
}

fn failure_text(prefix: &str, code: Option<i32>, stderr: &Vec<String>) -> (r: String)
    ensures
        r@ == prefix@ + code_text(code) + "\n"@ + tail_spec(sviews(stderr@)),
{
    let mut m = owned(prefix);
    let c = exit_code_text(code);
    m.append(c.as_str());
    m.append("\n");
    let t = stderr_tail(stderr);
    m.append(t.as_str());
    m
}

/// One step of an upgrade (see `upgrade_step_spec`).
pub fn upgrade_step(u: Upgrade, e: UpgradeEvent) -> (r: (Upgrade, Vec<Note>, UpgradeAction))
    requires
        upgrade_fits(u.stage, e@),
    ensures
        r.0@ == upgrade_step_spec(u@, e@).0,
        notes_view(r.1@) == upgrade_step_spec(u@, e@).1,
        r.2@ == upgrade_step_spec(u@, e@).2,
{
    let ghost uv = u@;
    let ghost ev = e@;
    let mut notes: Vec<Note> = Vec::new();
    proof {
        assert(notes_view(notes@) =~= Seq::empty());
    }
    match e {
        UpgradeEvent::GitConfigured(n) => {
            let mut m = owned("Git HTTPS 规则已就绪 (");
            push_dec(&mut m, n as u64);
            m.append("/6)");
            push_note(&mut notes, Note::Log(m));
            push_note(&mut notes, log_note("正在停止 Gateway 并清理旧文件..."));
            proof {
                assert(notes_view(notes@) =~= upgrade_step_spec(uv, ev).1);
            }
            (Upgrade { stage: UpgradeStage::CleaningUp, ..u }, notes, UpgradeAction::CleanUp)
        },
        UpgradeEvent::CleanedUp => {
            let mut m = owned("$ npm install -g ");
            m.append(u.pkg.as_str());
            m.append(" --force");
            push_note(&mut notes, Note::Log(m));
            push_note(&mut notes, Note::Progress(10));
            proof {
                assert(notes_view(notes@) =~= upgrade_step_spec(uv, ev).1);
            }
            let args = install_args(u.pkg.as_str(), u.registry.as_str());
            (
                Upgrade { stage: UpgradeStage::Installing, ..u },
                notes,
                UpgradeAction::Install { args, progress_from: 15 },
            )
        },
        UpgradeEvent::InstallExited { success, code, stderr } => {
            push_note(&mut notes, Note::Progress(80));
            push_note(&mut notes, Note::Progress(100));
            let first = match u.stage {
                UpgradeStage::Installing => true,
                _ => false,
            };
            if first {
                if success {
                    after_install(u, notes)
                } else if is_mirror(u.registry.as_str()) {
                    push_note(&mut notes, log_note(""));
                    push_note(&mut notes, log_note("⚠️ 镜像源安装失败，自动切换到官方源重试..."));
                    push_note(&mut notes, Note::Progress(15));
                    proof {
                        assert(notes_view(notes@) =~= upgrade_step_spec(uv, ev).1);
                    }
                    let args = install_args(u.pkg.as_str(), "https://registry.npmjs.org");
                    (
                        Upgrade { stage: UpgradeStage::Retrying, ..u },
                        notes,
                        UpgradeAction::Install { args, progress_from: 20 },
                    )
                } else {
                    let mut m = owned("❌ 升级失败 (exit code: ");
                    let c = exit_code_text(code);
                    m.append(c.as_str());
                    m.append(")");
                    push_note(&mut notes, Note::Log(m));
                    proof {
                        assert(notes_view(notes@) =~= upgrade_step_spec(uv, ev).1);
                    }
                    let err = failure_text("升级失败，exit code: ", code, &stderr);
                    (
                        Upgrade { stage: UpgradeStage::Done, ..u },
                        notes,
                        UpgradeAction::Finish(Err(err)),
                    )
                }
            } else {
                if success {
                    push_note(&mut notes, log_note("✅ 官方源安装成功"));
                    after_install(u, notes)
                } else {
                    proof {
                        assert(notes_view(notes@) =~= upgrade_step_spec(uv, ev).1);
                    }
                    let err = failure_text("升级失败（镜像源和官方源均失败），exit code: ", code, &stderr);
                    (
                        Upgrade { stage: UpgradeStage::Done, ..u },
                        notes,
                        UpgradeAction::Finish(Err(err)),
                    )
                }
            }
        },
        UpgradeEvent::OldRemoved => {
            push_note(&mut notes, log_note("正在重装 Gateway 服务（更新启动路径）..."));
            proof {
                assert(notes_view(notes@) =~= upgrade_step_spec(uv, ev).1);
            }
            (
                Upgrade { stage: UpgradeStage::ReinstallingGateway, ..u },
                notes,
                UpgradeAction::ReinstallGateway,
            )
        },
        UpgradeEvent::GatewayReinstalled(ok) => {
            if ok {
                push_note(&mut notes, log_note("Gateway 服务已重装"));
            } else {
                push_note(&mut notes, log_note("⚠️ Gateway 重装失败，请手动执行 openclaw gateway install"));
            }
            proof {
                assert(notes_view(notes@) =~= upgrade_step_spec(uv, ev).1);
            }
            (
                Upgrade { stage: UpgradeStage::ReadingVersion, ..u },
                notes,
                UpgradeAction::ReadVersion,
            )
        },
        UpgradeEvent::VersionRead(v) => {
            let mut m = owned("✅ 安装完成，当前版本: ");
            match &v {
                Some(x) => m.append(x.as_str()),
                None => m.append("未知"),
            }
            let msg = m.clone();
            push_note(&mut notes, Note::Log(m));
            proof {
                assert(notes_view(notes@) =~= upgrade_step_spec(uv, ev).1);
            }
            (Upgrade { stage: UpgradeStage::Done, ..u }, notes, UpgradeAction::Finish(Ok(msg)))
        },
    }
}


/// Law: the package of the distribution installed before is removed only
/// after the new one installed successfully, so a failed install never leaves
/// the machine without a CLI.
pub proof fn law_old_package_removed_only_after_install(u: UpgradeV, e: UpgradeEventV)
    requires
        upgrade_fits(u.stage, e),
    ensures
        upgrade_step_spec(u, e).2 is RemoveOld ==> (e matches UpgradeEventV::InstallExited(
            success,
            _,
            _,
        ) && success),
{
}

/// Law: a failed install is retried at most once: after the retry no further
/// install is started.
pub proof fn law_single_retry(u: UpgradeV, e: UpgradeEventV)
    requires
        upgrade_fits(u.stage, e),
        u.stage == UpgradeStage::Retrying,
    ensures
        !(upgrade_step_spec(u, e).2 is Install),
{
}

/// Law: only a failed install from a Chinese mirror is retried, and the retry
/// installs the same package from the official registry.
pub proof fn law_retry_from_official_registry(u: UpgradeV, e: UpgradeEventV)
    requires
        upgrade_fits(u.stage, e),
        u.stage == UpgradeStage::Installing,
    ensures
        (upgrade_step_spec(u, e).2 is Install) <==> (e matches UpgradeEventV::InstallExited(
            success,
            _,
            _,
        ) && !success && uses_mirror(u.registry)),
        upgrade_step_spec(u, e).2 is Install ==> upgrade_step_spec(u, e).2
            == UpgradeActionV::Install(install_args_spec(u.pkg, npmjs_spec()), 20),
{
}

/// Law: after a successful install (the first attempt or the retry), the
/// package of the distribution installed before is removed exactly when the
/// upgrade switches distribution; otherwise the new version is read at once.
pub proof fn law_removes_old_package_only_on_switch(
    u: UpgradeV,
    code: Option<i32>,
    stderr: Seq<Seq<char>>,
)
    requires
        u.stage == UpgradeStage::Installing || u.stage == UpgradeStage::Retrying,
    ensures
        upgrade_step_spec(u, UpgradeEventV::InstallExited(true, code, stderr)).2 == if u.switch_source {
            UpgradeActionV::RemoveOld(u.old_pkg)
        } else {
            UpgradeActionV::ReadVersion
        },
        upgrade_step_spec(u, UpgradeEventV::InstallExited(true, code, stderr)).0.stage == if u.switch_source {
            UpgradeStage::RemovingOld
        } else {
            UpgradeStage::ReadingVersion
        },
{
}

/// Law (from the request to the first decision after the install): an upgrade
/// asked for distribution `source` while `current_source` is installed
/// removes the old distribution's package after a successful install exactly
/// when the two differ, whether the install succeeded at once or on the retry
/// from the official registry; with the same distribution nothing is removed
/// and the version is read.
pub proof fn law_upgrade_keeps_same_distribution(
    source: Seq<char>,
    current_source: Seq<char>,
    requested: Option<Seq<char>>,
    recommended: Option<Seq<char>>,
    configured_registry: Seq<char>,
    panel_version: Seq<char>,
    n: usize,
    code: Option<i32>,
    stderr: Seq<Seq<char>>,
    first_code: Option<i32>,
    first_stderr: Seq<Seq<char>>,
)
    ensures
        ({
            let s0 = start_upgrade_spec(
                source,
                current_source,
                requested,
                recommended,
                configured_registry,
                panel_version,
            ).0;
            let s1 = upgrade_step_spec(s0, UpgradeEventV::GitConfigured(n)).0;
            let s2 = upgrade_step_spec(s1, UpgradeEventV::CleanedUp).0;
            let ok = upgrade_step_spec(s2, UpgradeEventV::InstallExited(true, code, stderr)).2;
            let failed = upgrade_step_spec(
                s2,
                UpgradeEventV::InstallExited(false, first_code, first_stderr),
            );
            let retried = upgrade_step_spec(
                failed.0,
                UpgradeEventV::InstallExited(true, code, stderr),
            ).2;
            let expected = if current_source == source {
                UpgradeActionV::ReadVersion
            } else {
                UpgradeActionV::RemoveOld(package_of(current_source))
            };
            &&& ok == expected
            &&& (failed.2 is Install ==> retried == expected)
        }),
{
}

/// Law: a finished upgrade takes no further event.
pub proof fn law_upgrade_done_is_final(e: UpgradeEventV)
    ensures
        !upgrade_fits(UpgradeStage::Done, e),
{
}


/// Where a removal of the CLI stands.
#[derive(Debug, Clone, Copy, PartialEq, Eq, Structural)]
pub enum RemovalStage {
    StoppingGateway,
    RemovingService,
    Removing,
    RemovingOther,
    CleaningConfig,
    Done,
}

/// A removal of the OpenClaw CLI.
pub struct Removal {
    pub stage: RemovalStage,
    /// The package of the installed distribution.
    pub pkg: String,
    /// The package of the other distribution, removed too for a clean state.
    pub other_pkg: String,
    /// Whether the configuration directory goes as well.
    pub clean_config: bool,
}

pub struct RemovalV {
    pub stage: RemovalStage,
    pub pkg: Seq<char>,
    pub other_pkg: Seq<char>,
    pub clean_config: bool,
}

impl View for Removal {
    type V = RemovalV;

    open spec fn view(&self) -> RemovalV {
        RemovalV {
            stage: self.stage,
            pkg: self.pkg@,
            other_pkg: self.other_pkg@,
            clean_config: self.clean_config,
        }
    }
}

pub enum RemovalEvent {
    GatewayStopped,
    ServiceRemoved,
    /// `npm uninstall -g <pkg>` ended.
    RemoveExited { success: bool, code: Option<i32> },
    OtherRemoved,
    /// The configuration directory `dir` was removed if it `existed`; `error`
    /// is the failure, if any.
    ConfigCleaned { existed: bool, dir: String, error: Option<String> },
}

pub enum RemovalEventV {
    GatewayStopped,
    ServiceRemoved,
    RemoveExited(bool, Option<i32>),
    OtherRemoved,
    ConfigCleaned(bool, Seq<char>, Option<Seq<char>>),
}

impl View for RemovalEvent {
    type V = RemovalEventV;

    open spec fn view(&self) -> RemovalEventV {
        match self {
            RemovalEvent::GatewayStopped => RemovalEventV::GatewayStopped,
            RemovalEvent::ServiceRemoved => RemovalEventV::ServiceRemoved,
            RemovalEvent::RemoveExited { success, code } => RemovalEventV::RemoveExited(*success, *code),
            RemovalEvent::OtherRemoved => RemovalEventV::OtherRemoved,
            RemovalEvent::ConfigCleaned { existed, dir, error } => RemovalEventV::ConfigCleaned(
                *existed,
                dir@,
                opt_view(*error),
            ),
        }
    }
}

#[derive(Debug, PartialEq)]
pub enum RemovalAction {
    StopGateway,
    /// Uninstall the gateway service (`openclaw gateway uninstall`).
    RemoveService,
    /// Run `npm uninstall -g <package>`, logging its output.
    Remove(String),
    /// Run `npm uninstall -g <package>`, ignoring its outcome.
    RemoveQuietly(String),
    /// Remove the configuration directory.
    CleanConfig,
    Finish(Result<String, String>),
}

pub enum RemovalActionV {
    StopGateway,
    RemoveService,
    Remove(Seq<char>),
    RemoveQuietly(Seq<char>),
    CleanConfig,
    Finish(Result<Seq<char>, Seq<char>>),
}

impl View for RemovalAction {
    type V = RemovalActionV;

    open spec fn view(&self) -> RemovalActionV {
        match self {
            RemovalAction::StopGateway => RemovalActionV::StopGateway,
            RemovalAction::RemoveService => RemovalActionV::RemoveService,
            RemovalAction::Remove(p) => RemovalActionV::Remove(p@),
            RemovalAction::RemoveQuietly(p) => RemovalActionV::RemoveQuietly(p@),
            RemovalAction::CleanConfig => RemovalActionV::CleanConfig,
            RemovalAction::Finish(r) => RemovalActionV::Finish(
                match r {
                    Ok(m) => Ok(m@),
                    Err(e) => Err(e@),
                },
            ),
        }
    }
}

/// The package of the distribution other than `source`.
pub open spec fn other_package(source: Seq<char>) -> Seq<char> {
    if source == "official"@ {
        "@qingchencloud/openclaw-zh"@
    } else {
        "openclaw"@
    }
}

/// The closing message of a removal.
pub open spec fn removal_message(clean_config: bool) -> Seq<char> {
    if clean_config {
        "✅ OpenClaw 已完全卸载（包括配置文件）"@
    } else {
        "✅ OpenClaw 已卸载（配置文件保留在 ~/.openclaw/）"@
    }
}

pub open spec fn start_removal_spec(source: Seq<char>, clean_config: bool) -> (
    RemovalV,
    Seq<NoteV>,
    RemovalActionV,
) {
    (
        RemovalV {
            stage: RemovalStage::StoppingGateway,
            pkg: package_of(source),
            other_pkg: other_package(source),
            clean_config,
        },
        seq![NoteV::Log("正在停止 Gateway..."@)],
        RemovalActionV::StopGateway,
    )
}

pub open spec fn removal_at(r: RemovalV, stage: RemovalStage) -> RemovalV {
    RemovalV { stage, pkg: r.pkg, other_pkg: r.other_pkg, clean_config: r.clean_config }
}

pub open spec fn removal_fits(stage: RemovalStage, e: RemovalEventV) -> bool {
    match e {
        RemovalEventV::GatewayStopped => stage == RemovalStage::StoppingGateway,
        RemovalEventV::ServiceRemoved => stage == RemovalStage::RemovingService,
        RemovalEventV::RemoveExited(..) => stage == RemovalStage::Removing,
        RemovalEventV::OtherRemoved => stage == RemovalStage::RemovingOther,
        RemovalEventV::ConfigCleaned(..) => stage == RemovalStage::CleaningConfig,
    }
}

/// One step of a removal: stop the gateway, remove its service, uninstall the
/// package (a failure ends the removal with the exit code), uninstall the other
/// distribution's package, and remove the configuration directory if asked.
pub open spec fn removal_step_spec(r: RemovalV, e: RemovalEventV) -> (
    RemovalV,
    Seq<NoteV>,
    RemovalActionV,
) {
    match e {
        RemovalEventV::GatewayStopped => (
            removal_at(r, RemovalStage::RemovingService),
            seq![NoteV::Log("正在卸载 Gateway 服务..."@)],
            RemovalActionV::RemoveService,
        ),
        RemovalEventV::ServiceRemoved => (
            removal_at(r, RemovalStage::Removing),
            seq![NoteV::Log("$ npm uninstall -g "@ + r.pkg), NoteV::Progress(20)],
            RemovalActionV::Remove(r.pkg),
        ),
        RemovalEventV::RemoveExited(success, code) => if success {
            (
                removal_at(r, RemovalStage::RemovingOther),
                seq![NoteV::Progress(60), NoteV::Log("清理 "@ + r.other_pkg + "..."@)],
                RemovalActionV::RemoveQuietly(r.other_pkg),
            )
        } else {
            (
                removal_at(r, RemovalStage::Done),
                seq![NoteV::Progress(60)],
                RemovalActionV::Finish(Err("卸载失败，exit code: "@ + code_text(code))),
            )
        },
        RemovalEventV::OtherRemoved => if r.clean_config {
            (
                removal_at(r, RemovalStage::CleaningConfig),
                seq![NoteV::Progress(80)],
                RemovalActionV::CleanConfig,
            )
        } else {
            (
                removal_at(r, RemovalStage::Done),
                seq![
                    NoteV::Progress(80),
                    NoteV::Progress(100),
                    NoteV::Log(removal_message(false)),
                ],
                RemovalActionV::Finish(Ok(removal_message(false))),
            )
        },
        RemovalEventV::ConfigCleaned(existed, dir, error) => {
            let logs = if existed {
                seq![NoteV::Log("清理配置目录: "@ + dir)] + match error {
                    Some(err) => seq![NoteV::Log("⚠️ 清理配置目录失败: "@ + err + "（可能有文件被占用）"@)],
                    None => Seq::empty(),
                }
            } else {
                Seq::empty()
            };
            (
                removal_at(r, RemovalStage::Done),
                logs + seq![NoteV::Progress(100), NoteV::Log(removal_message(r.clean_config))],
                RemovalActionV::Finish(Ok(removal_message(r.clean_config))),
            )
        },
    }
}

/// Starts a removal of the installed distribution `source`.
pub fn start_removal(source: &str, clean_config: bool) -> (r: (Removal, Vec<Note>, RemovalAction))
    ensures
        r.0@ == start_removal_spec(source@, clean_config).0,
        notes_view(r.1@) == start_removal_spec(source@, clean_config).1,
        r.2@ == start_removal_spec(source@, clean_config).2,
{
    let pkg = owned(npm_package_name(source));
    let other = if str_eq(source, "official") {
        owned("@qingchencloud/openclaw-zh")
    } else {
        owned("openclaw")
    };
    let mut notes: Vec<Note> = Vec::new();
    push_note(&mut notes, log_note("正在停止 Gateway..."));
    proof {
        assert(notes_view(notes@) =~= start_removal_spec(source@, clean_config).1);
    }
    (
        Removal { stage: RemovalStage::StoppingGateway, pkg, other_pkg: other, clean_config },
        notes,
        RemovalAction::StopGateway,
    )
}

/// Whether `e` answers what a removal at `stage` waits for.
pub fn removal_expects(stage: RemovalStage, e: &RemovalEvent) -> (r: bool)
    ensures
        r == removal_fits(stage, e@),
{
    match e {
        RemovalEvent::GatewayStopped => match stage {
            RemovalStage::StoppingGateway => true,
            _ => false,
        },
        RemovalEvent::ServiceRemoved => match stage {
            RemovalStage::RemovingService => true,
            _ => false,
        },
        RemovalEvent::RemoveExited { .. } => match stage {
            RemovalStage::Removing => true,
            _ => false,
        },
        RemovalEvent::OtherRemoved => match stage {
            RemovalStage::RemovingOther => true,
            _ => false,
        },
        RemovalEvent::ConfigCleaned { .. } => match stage {
            RemovalStage::CleaningConfig => true,
            _ => false,
        },
    }
}

fn removal_message_exec(clean_config: bool) -> (r: String)
    ensures
        r@ == removal_message(clean_config),
{
    if clean_config {
        owned("✅ OpenClaw 已完全卸载（包括配置文件）")
    } else {
        owned("✅ OpenClaw 已卸载（配置文件保留在 ~/.openclaw/）")
    }
}

/// One step of a removal (see `removal_step_spec`).
pub fn removal_step(r: Removal, e: RemovalEvent) -> (out: (Removal, Vec<Note>, RemovalAction))
    requires
        removal_fits(r.stage, e@),
    ensures
        out.0@ == removal_step_spec(r@, e@).0,
        notes_view(out.1@) == removal_step_spec(r@, e@).1,
        out.2@ == removal_step_spec(r@, e@).2,
{
    let ghost rv = r@;
    let ghost ev = e@;
    let mut notes: Vec<Note> = Vec::new();
    proof {
        assert(notes_view(notes@) =~= Seq::empty());
    }
    match e {
        RemovalEvent::GatewayStopped => {
            push_note(&mut notes, log_note("正在卸载 Gateway 服务..."));
            proof {
                assert(notes_view(notes@) =~= removal_step_spec(rv, ev).1);
            }
            (Removal { stage: RemovalStage::RemovingService, ..r }, notes, RemovalAction::RemoveService)
        },
        RemovalEvent::ServiceRemoved => {
            let mut m = owned("$ npm uninstall -g ");
            m.append(r.pkg.as_str());
            push_note(&mut notes, Note::Log(m));
            push_note(&mut notes, Note::Progress(20));
            proof {
                assert(notes_view(notes@) =~= removal_step_spec(rv, ev).1);
            }
            let p = r.pkg.clone();
            (Removal { stage: RemovalStage::Removing, ..r }, notes, RemovalAction::Remove(p))
        },
        RemovalEvent::RemoveExited { success, code } => {
            push_note(&mut notes, Note::Progress(60));
            if success {
                let mut m = owned("清理 ");
                m.append(r.other_pkg.as_str());
                m.append("...");
                push_note(&mut notes, Note::Log(m));
                proof {
                    assert(notes_view(notes@) =~= removal_step_spec(rv, ev).1);
                }
                let o = r.other_pkg.clone();
                (
                    Removal { stage: RemovalStage::RemovingOther, ..r },
                    notes,
                    RemovalAction::RemoveQuietly(o),
                )
            } else {
                proof {
                    assert(notes_view(notes@) =~= removal_step_spec(rv, ev).1);
                }
                let mut m = owned("卸载失败，exit code: ");
                let c = exit_code_text(code);
                m.append(c.as_str());
                (Removal { stage: RemovalStage::Done, ..r }, notes, RemovalAction::Finish(Err(m)))
            }
        },
        RemovalEvent::OtherRemoved => {
            push_note(&mut notes, Note::Progress(80));
            if r.clean_config {
                proof {
                    assert(notes_view(notes@) =~= removal_step_spec(rv, ev).1);
                }
                (Removal { stage: RemovalStage::CleaningConfig, ..r }, notes, RemovalAction::CleanConfig)
            } else {
                push_note(&mut notes, Note::Progress(100));
                push_note(&mut notes, Note::Log(removal_message_exec(false)));
                proof {
                    assert(notes_view(notes@) =~= removal_step_spec(rv, ev).1);
                }
                let msg = removal_message_exec(false);
                (Removal { stage: RemovalStage::Done, ..r }, notes, RemovalAction::Finish(Ok(msg)))
            }
        },
        RemovalEvent::ConfigCleaned { existed, dir, error } => {
            if existed {
                let mut m = owned("清理配置目录: ");
                m.append(dir.as_str());
                push_note(&mut notes, Note::Log(m));
                match &error {
                    Some(err) => {
                        let mut w = owned("⚠️ 清理配置目录失败: ");
                        w.append(err.as_str());
                        w.append("（可能有文件被占用）");
                        push_note(&mut notes, Note::Log(w));
                    },
                    None => {},
                }
            }
            push_note(&mut notes, Note::Progress(100));
            push_note(&mut notes, Note::Log(removal_message_exec(r.clean_config)));
            proof {
                assert(notes_view(notes@) =~= removal_step_spec(rv, ev).1);
            }
            let msg = removal_message_exec(r.clean_config);
            (Removal { stage: RemovalStage::Done, ..r }, notes, RemovalAction::Finish(Ok(msg)))
        },
    }
}


/// The operating system the panel runs on, where a decision depends on it.
#[derive(Debug, Clone, Copy, PartialEq, Eq, Structural)]
pub enum Platform {
    Windows,
    MacOs,
    Linux,
}

/// The clone URLs of GitHub that are rewritten to HTTPS.
pub open spec fn git_rewrites() -> Seq<Seq<char>> {
    seq![
        "ssh://git@github.com/"@,
        "ssh://git@github.com"@,
        "ssh://git@://github.com/"@,
        "git@github.com:"@,
        "git://github.com/"@,
        "git+ssh://git@github.com/"@,
    ]
}

/// The Git setting that the rewrites go under.
pub open spec fn rewrite_key() -> Seq<char> {
    "url.https://github.com/.insteadOf"@
}

pub fn git_rewrite_list() -> (r: Vec<&'static str>)
    ensures
        r@.map_values(|x: &str| x@) == git_rewrites(),
{
    let mut v: Vec<&'static str> = Vec::new();
    v.push("ssh://git@github.com/");
    v.push("ssh://git@github.com");
    v.push("ssh://git@://github.com/");
    v.push("git@github.com:");
    v.push("git://github.com/");
    v.push("git+ssh://git@github.com/");
    proof {
        assert(v@.map_values(|x: &str| x@) =~= git_rewrites());
    }
    v
}

/// The arguments of `git config --global --unset-all url.https://github.com/.insteadOf`.
pub fn unset_rewrites_args() -> (r: Vec<String>)
    ensures
        sviews(r@) == seq!["config"@, "--global"@, "--unset-all"@, rewrite_key()],
{
    let mut v: Vec<String> = Vec::new();
    v.push(owned("config"));
    v.push(owned("--global"));
    v.push(owned("--unset-all"));
    v.push(owned("url.https://github.com/.insteadOf"));
    proof {
        assert(sviews(v@) =~= seq!["config"@, "--global"@, "--unset-all"@, rewrite_key()]);
    }
    v
}

/// The arguments of `git config --global --add url.https://github.com/.insteadOf <from>`.
pub fn add_rewrite_args(from: &str) -> (r: Vec<String>)
    ensures
        sviews(r@) == seq!["config"@, "--global"@, "--add"@, rewrite_key(), from@],
{
    let mut v: Vec<String> = Vec::new();
    v.push(owned("config"));
    v.push(owned("--global"));
    v.push(owned("--add"));
    v.push(owned("url.https://github.com/.insteadOf"));
    v.push(owned(from));
    proof {
        assert(sviews(v@) =~= seq!["config"@, "--global"@, "--add"@, rewrite_key(), from@]);
    }
    v
}

/// The answer to a request to configure the HTTPS rewrites, of which `configured` took.
pub open spec fn git_https_report_spec(configured: nat) -> Result<Seq<char>, Seq<char>> {
    if configured > 0 {
        Ok("已配置 Git 使用 HTTPS（"@ + dec(configured) + "/6 条规则）"@)
    } else {
        Err("Git 未安装或配置失败"@)
    }
}

pub fn git_https_report(configured: usize) -> (r: Result<String, String>)
    ensures
        match r {
            Ok(m) => git_https_report_spec(configured as nat) == Ok::<Seq<char>, Seq<char>>(m@),
            Err(e) => git_https_report_spec(configured as nat) == Err::<Seq<char>, Seq<char>>(e@),
        },
{
    if configured > 0 {
        let mut m = owned("已配置 Git 使用 HTTPS（");
        push_dec(&mut m, configured as u64);
        m.append("/6 条规则）");
        Ok(m)
    } else {
        Err(owned("Git 未安装或配置失败"))
    }
}

/// The environment entries `GIT_CONFIG_KEY_i` / `GIT_CONFIG_VALUE_i` of the first `n` rewrites.
pub open spec fn rewrite_env(n: nat) -> Seq<(Seq<char>, Seq<char>)>
    decreases n,
{
    if n == 0 {
        Seq::empty()
    } else {
        let i = (n - 1) as nat;
        rewrite_env(i) + seq![
            ("GIT_CONFIG_KEY_"@ + dec(i), rewrite_key()),
            ("GIT_CONFIG_VALUE_"@ + dec(i), git_rewrites()[i as int]),
        ]
    }
}

/// The environment a Git-fetching npm install runs with: no prompts, SSH in
/// batch mode, only HTTP(S) and file transports, and the HTTPS rewrites.
pub open spec fn git_env_spec() -> Seq<(Seq<char>, Seq<char>)> {
    seq![
        ("GIT_TERMINAL_PROMPT"@, "0"@),
        (
            "GIT_SSH_COMMAND"@,
            "ssh -o BatchMode=yes -o StrictHostKeyChecking=no -o IdentitiesOnly=yes"@,
        ),
        ("GIT_ALLOW_PROTOCOL"@, "https:http:file"@),
        ("GIT_CONFIG_COUNT"@, dec(6)),
    ] + rewrite_env(6)
}

pub open spec fn env_view(v: Seq<(String, String)>) -> Seq<(Seq<char>, Seq<char>)> {
    v.map_values(|e: (String, String)| (e.0@, e.1@))
}

fn push_env(v: &mut Vec<(String, String)>, k: String, x: String)
    ensures
        env_view(final(v)@) == env_view(old(v)@).push((k@, x@)),
{
    v.push((k, x));
    proof {
        assert(env_view(v@) =~= env_view(old(v)@).push((k@, x@)));
    }
}

/// The environment entries of `git_env_spec`, in order.
pub fn git_install_env() -> (r: Vec<(String, String)>)
    ensures
        env_view(r@) == git_env_spec(),
{
    let mut v: Vec<(String, String)> = Vec::new();
    push_env(&mut v, owned("GIT_TERMINAL_PROMPT"), owned("0"));
    push_env(
        &mut v,
        owned("GIT_SSH_COMMAND"),
        owned("ssh -o BatchMode=yes -o StrictHostKeyChecking=no -o IdentitiesOnly=yes"),
    );
    push_env(&mut v, owned("GIT_ALLOW_PROTOCOL"), owned("https:http:file"));
    let rewrites = git_rewrite_list();
    let n = rewrites.len();
    push_env(&mut v, owned("GIT_CONFIG_COUNT"), u64_to_string(n as u64));
    let ghost head = env_view(v@);
    proof {
        assert(rewrites@.len() == 6) by {
            assert(rewrites@.map_values(|x: &str| x@).len() == 6);
        }
        assert(head + rewrite_env(0) =~= head);
    }
    for idx in 0..n
        invariant
            n == 6,
            rewrites@.map_values(|x: &str| x@) == git_rewrites(),
            n == rewrites@.len(),
            env_view(v@) == head + rewrite_env(idx as nat),
    {
        let mut key = owned("GIT_CONFIG_KEY_");
        push_dec(&mut key, idx as u64);
        push_env(&mut v, key, owned("url.https://github.com/.insteadOf"));
        let mut val_key = owned("GIT_CONFIG_VALUE_");
        push_dec(&mut val_key, idx as u64);
        push_env(&mut v, val_key, owned(rewrites[idx]));
        proof {
            assert(rewrites@[idx as int]@ == git_rewrites()[idx as int]) by {
                assert(rewrites@.map_values(|x: &str| x@)[idx as int] == rewrites@[idx as int]@);
            }
            assert(head + rewrite_env((idx + 1) as nat) =~= (head + rewrite_env(idx as nat)).push(
                ("GIT_CONFIG_KEY_"@ + dec(idx as nat), rewrite_key()),
            ).push(("GIT_CONFIG_VALUE_"@ + dec(idx as nat), git_rewrites()[idx as int])));
        }
    }
    proof {
        assert(head =~= seq![
            ("GIT_TERMINAL_PROMPT"@, "0"@),
            (
                "GIT_SSH_COMMAND"@,
                "ssh -o BatchMode=yes -o StrictHostKeyChecking=no -o IdentitiesOnly=yes"@,
            ),
            ("GIT_ALLOW_PROTOCOL"@, "https:http:file"@),
            ("GIT_CONFIG_COUNT"@, dec(6)),
        ]);
    }
    v
}


/// The program and leading arguments of the npm command: through `cmd /c` on
/// Windows, and through `sudo -E` on Linux unless the user is root.
pub open spec fn npm_invocation_spec(platform: Platform, is_root: bool, registry: Seq<char>) -> (
    Seq<char>,
    Seq<Seq<char>>,
) {
    match platform {
        Platform::Windows => ("cmd"@, seq!["/c"@, "npm"@, "--registry"@, registry]),
        Platform::MacOs => ("npm"@, seq!["--registry"@, registry]),
        Platform::Linux => if is_root {
            ("npm"@, seq!["--registry"@, registry])
        } else {
            ("sudo"@, seq!["-E"@, "npm"@, "--registry"@, registry])
        },
    }
}

pub fn npm_invocation(platform: Platform, is_root: bool, registry: &str) -> (r: (String, Vec<String>))
    ensures
        (r.0@, sviews(r.1@)) == npm_invocation_spec(platform, is_root, registry@),
{
    let mut args: Vec<String> = Vec::new();
    let program = match platform {
        Platform::Windows => {
            args.push(owned("/c"));
            args.push(owned("npm"));
            owned("cmd")
        },
        Platform::MacOs => owned("npm"),
        Platform::Linux => if is_root {
            owned("npm")
        } else {
            args.push(owned("-E"));
            args.push(owned("npm"));
            owned("sudo")
        },
    };
    args.push(owned("--registry"));
    args.push(owned(registry));
    proof {
        assert(sviews(args@) =~= npm_invocation_spec(platform, is_root, registry@).1);
    }
    (program, args)
}

/// Whether the panel runs as root on Linux: the value of `USER`, or else of
/// `EUID`, is `root` or `0`.
pub open spec fn is_root_spec(user: Option<Seq<char>>, euid: Option<Seq<char>>) -> bool {
    match (match user {
        Some(u) => Some(u),
        None => euid,
    }) {
        Some(v) => v == "root"@ || v == "0"@,
        None => false,
    }
}

pub fn is_root_user(user: Option<&str>, euid: Option<&str>) -> (r: bool)
    ensures
        r == is_root_spec(
            match user {
                Some(u) => Some(u@),
                None => None,
            },
            match euid {
                Some(e) => Some(e@),
                None => None,
            },
        ),
{
    let v = match user {
        Some(u) => Some(u),
        None => euid,
    };
    match v {
        Some(x) => str_eq(x, "root") || str_eq(x, "0"),
        None => false,
    }
}

/// The package managers probed on Linux (`<name> --version`), in order.
pub open spec fn package_managers() -> Seq<Seq<char>> {
    seq!["apt-get"@, "yum"@, "dnf"@, "pacman"@]
}

pub fn package_manager_probes() -> (r: Vec<&'static str>)
    ensures
        r@.map_values(|x: &str| x@) == package_managers(),
{
    let mut v: Vec<&'static str> = Vec::new();
    v.push("apt-get");
    v.push("yum");
    v.push("dnf");
    v.push("pacman");
    proof {
        assert(v@.map_values(|x: &str| x@) =~= package_managers());
    }
    v
}

/// The next move in the search for a package manager, given whether each
/// probed one answered (in the order of `package_managers`).
#[derive(Debug, PartialEq)]
pub enum ManagerProbe {
    /// Ask this package manager for its version.
    Probe(&'static str),
    /// The search is over: the index of the first that answered, if any.
    Found(Option<usize>),
}

/// The next move after the probes `answered`: the first one that answered
/// ends the search; else the next package manager is asked; after the last,
/// none was found.
pub open spec fn probe_step_spec(answered: Seq<bool>) -> (Option<Seq<char>>, Option<int>) {
    if exists|j: int| 0 <= j < answered.len() && answered[j] {
        let j = choose|j: int| 0 <= j < answered.len() && answered[j] && forall|k: int| 0 <= k < j ==> !answered[k];
        (None, Some(j))
    } else if answered.len() < package_managers().len() {
        (Some(package_managers()[answered.len() as int]), None)
    } else {
        (None, None)
    }
}

/// The next move in the search for a package manager (see `probe_step_spec`).
pub fn next_manager_probe(answered: &Vec<bool>) -> (r: ManagerProbe)
    ensures
        match r {
            ManagerProbe::Probe(name) => probe_step_spec(answered@) == (
                Some(name@),
                None::<int>,
            ),
            ManagerProbe::Found(Some(i)) => probe_step_spec(answered@) == (
                None::<Seq<char>>,
                Some(i as int),
            ) && i < answered@.len() && answered@[i as int] && forall|k: int|
                0 <= k < i ==> !answered@[k],
            ManagerProbe::Found(None) => probe_step_spec(answered@) == (None::<Seq<char>>, None::<int>),
        },
{
    let n = answered.len();
    for i in 0..n
        invariant
            n == answered@.len(),
            forall|k: int| 0 <= k < i ==> !answered@[k],
    {
        if answered[i] {
            proof {
                let ghost pick = choose|j: int|
                    0 <= j < answered@.len() && answered@[j] && forall|k: int|
                        0 <= k < j ==> !answered@[k];
                assert(0 <= i < answered@.len() && answered@[i as int] && forall|k: int|
                    0 <= k < i ==> !answered@[k]);
                if pick < i {
                    assert(!answered@[pick]);
                } else if pick > i {
                    assert(!answered@[i as int]);
                }
            }
            return ManagerProbe::Found(Some(i));
        }
    }
    let probes = package_manager_probes();
    proof {
        assert(probes@.map_values(|x: &str| x@).len() == probes@.len());
    }
    if n < probes.len() {
        let name = probes[n];
        proof {
            assert(probes@.map_values(|x: &str| x@)[n as int] == name@);
        }
        ManagerProbe::Probe(name)
    } else {
        ManagerProbe::Found(None)
    }
}

/// How Git gets installed on one platform.
pub struct GitInstall {
    /// Lines to log before the command runs.
    pub logs: Vec<String>,
    pub program: String,
    pub args: Vec<String>,
    /// Whether the command's output is logged line by line.
    pub stream: bool,
    /// The error when the command cannot start, before the cause.
    pub spawn_error: String,
    /// The error when waiting for the command fails, before the cause.
    pub wait_error: String,
    /// The line logged on success.
    pub success_log: String,
    /// The answer on success.
    pub success: String,
    /// The error when the command fails.
    pub failure: String,
}

pub struct GitInstallV {
    pub logs: Seq<Seq<char>>,
    pub program: Seq<char>,
    pub args: Seq<Seq<char>>,
    pub stream: bool,
    pub spawn_error: Seq<char>,
    pub wait_error: Seq<char>,
    pub success_log: Seq<char>,
    pub success: Seq<char>,
    pub failure: Seq<char>,
}

impl View for GitInstall {
    type V = GitInstallV;

    open spec fn view(&self) -> GitInstallV {
        GitInstallV {
            logs: sviews(self.logs@),
            program: self.program@,
            args: sviews(self.args@),
            stream: self.stream,
            spawn_error: self.spawn_error@,
            wait_error: self.wait_error@,
            success_log: self.success_log@,
            success: self.success@,
            failure: self.failure@,
        }
    }
}

/// The arguments that install Git with the package manager at `i` of `package_managers`, after `sudo`.
pub open spec fn manager_args(i: int) -> Seq<Seq<char>> {
    if i == 0 {
        seq!["apt-get"@, "install"@, "-y"@, "git"@]
    } else if i == 1 {
        seq!["yum"@, "install"@, "-y"@, "git"@]
    } else if i == 2 {
        seq!["dnf"@, "install"@, "-y"@, "git"@]
    } else {
        seq!["pacman"@, "-S"@, "--noconfirm"@, "git"@]
    }
}

/// The plan to install Git: with winget on Windows, through `xcode-select` on
/// macOS, and on Linux with the first package manager that answered
/// (`manager`, an index into `package_managers`); an error when none did.
pub open spec fn git_install_spec(platform: Platform, manager: Option<nat>) -> Result<GitInstallV, Seq<char>> {
    match platform {
        Platform::Windows => Ok(
            GitInstallV {
                logs: seq!["尝试使用 winget 安装 Git..."@],
                program: "winget"@,
                args: seq![
                    "install"@,
                    "--id"@,
                    "Git.Git"@,
                    "-e"@,
                    "--source"@,
                    "winget"@,
                    "--accept-package-agreements"@,
                    "--accept-source-agreements"@,
                ],
                stream: true,
                spawn_error: "winget 不可用，请手动安装 Git: "@,
                wait_error: "等待 winget 完成失败: "@,
                success_log: "Git 安装成功！"@,
                success: "Git 已通过 winget 安装"@,
                failure: "winget 安装 Git 失败，请手动下载安装: https://git-scm.com/downloads"@,
            },
        ),
        Platform::MacOs => Ok(
            GitInstallV {
                logs: seq!["尝试通过 xcode-select 安装 Git..."@],
                program: "xcode-select"@,
                args: seq!["--install"@],
                stream: false,
                spawn_error: "xcode-select 不可用: "@,
                wait_error: "等待安装完成失败: "@,
                success_log: "Git 安装已触发，请在弹出的窗口中确认安装。"@,
                success: "已触发 xcode-select 安装，请在弹窗中确认"@,
                failure: "xcode-select 安装失败，请手动安装 Xcode Command Line Tools 或 brew install git"@,
            },
        ),
        Platform::Linux => match manager {
            Some(i) => if i < 4 {
                Ok(
                    GitInstallV {
                        logs: seq!["执行: sudo "@ + join(manager_args(i as int), " "@)],
                        program: "sudo"@,
                        args: manager_args(i as int),
                        stream: true,
                        spawn_error: "安装命令执行失败: "@,
                        wait_error: "等待安装完成失败: "@,
                        success_log: "Git 安装成功！"@,
                        success: "Git 已安装"@,
                        failure: "Git 安装失败，请手动执行: sudo apt install git"@,
                    },
                )
            } else {
                Err("不支持的包管理器"@)
            },
            None => Err("未找到包管理器，请手动安装 Git: sudo apt install git 或 sudo yum install git"@),
        },
    }
}

fn strings4(a: &str, b: &str, c: &str, d: &str) -> (r: Vec<String>)
    ensures
        sviews(r@) == seq![a@, b@, c@, d@],
{
    let mut v: Vec<String> = Vec::new();
    v.push(owned(a));
    v.push(owned(b));
    v.push(owned(c));
    v.push(owned(d));
    proof {
        assert(sviews(v@) =~= seq![a@, b@, c@, d@]);
    }
    v
}

fn one_string(a: &str) -> (r: Vec<String>)
    ensures
        sviews(r@) == seq![a@],
{
    let mut v: Vec<String> = Vec::new();
    v.push(owned(a));
    proof {
        assert(sviews(v@) =~= seq![a@]);
    }
    v
}

/// The plan of `git_install_spec`.
pub fn git_install_plan(platform: Platform, manager: Option<usize>) -> (r: Result<GitInstall, String>)
    ensures
        match r {
            Ok(g) => git_install_spec(
                platform,
                match manager {
                    Some(i) => Some(i as nat),
                    None => None,
                },
            ) == Ok::<GitInstallV, Seq<char>>(g@),
            Err(e) => git_install_spec(
                platform,
                match manager {
                    Some(i) => Some(i as nat),
                    None => None,
                },
            ) == Err::<GitInstallV, Seq<char>>(e@),
        },
{
    match platform {
        Platform::Windows => {
            let mut args: Vec<String> = Vec::new();
            args.push(owned("install"));
            args.push(owned("--id"));
            args.push(owned("Git.Git"));
            args.push(owned("-e"));
            args.push(owned("--source"));
            args.push(owned("winget"));
            args.push(owned("--accept-package-agreements"));
            args.push(owned("--accept-source-agreements"));
            proof {
                assert(sviews(args@) =~= seq![
                    "install"@,
                    "--id"@,
                    "Git.Git"@,
                    "-e"@,
                    "--source"@,
                    "winget"@,
                    "--accept-package-agreements"@,
                    "--accept-source-agreements"@,
                ]);
            }
            Ok(
                GitInstall {
                    logs: one_string("尝试使用 winget 安装 Git..."),
                    program: owned("winget"),
                    args,
                    stream: true,
                    spawn_error: owned("winget 不可用，请手动安装 Git: "),
                    wait_error: owned("等待 winget 完成失败: "),
                    success_log: owned("Git 安装成功！"),
                    success: owned("Git 已通过 winget 安装"),
                    failure: owned("winget 安装 Git 失败，请手动下载安装: https://git-scm.com/downloads"),
                },
            )
        },
        Platform::MacOs => Ok(
            GitInstall {
                logs: one_string("尝试通过 xcode-select 安装 Git..."),
                program: owned("xcode-select"),
                args: one_string("--install"),
                stream: false,
                spawn_error: owned("xcode-select 不可用: "),
                wait_error: owned("等待安装完成失败: "),
                success_log: owned("Git 安装已触发，请在弹出的窗口中确认安装。"),
                success: owned("已触发 xcode-select 安装，请在弹窗中确认"),
                failure: owned(
                    "xcode-select 安装失败，请手动安装 Xcode Command Line Tools 或 brew install git",
                ),
            },
        ),
        Platform::Linux => match manager {
            Some(i) => {
                if i >= 4 {
                    return Err(owned("不支持的包管理器"));
                }
                let args = if i == 0 {
                    strings4("apt-get", "install", "-y", "git")
                } else if i == 1 {
                    strings4("yum", "install", "-y", "git")
                } else if i == 2 {
                    strings4("dnf", "install", "-y", "git")
                } else {
                    strings4("pacman", "-S", "--noconfirm", "git")
                };
                let mut line = owned("执行: sudo ");
                let joined = join_strings(&args, " ");
                line.append(joined.as_str());
                let mut logs: Vec<String> = Vec::new();
                logs.push(line);
                proof {
                    assert(sviews(logs@) =~= seq!["执行: sudo "@ + join(manager_args(i as int), " "@)]);
                }
                Ok(
                    GitInstall {
                        logs,
                        program: owned("sudo"),
                        args,
                        stream: true,
                        spawn_error: owned("安装命令执行失败: "),
                        wait_error: owned("等待安装完成失败: "),
                        success_log: owned("Git 安装成功！"),
                        success: owned("Git 已安装"),
                        failure: owned("Git 安装失败，请手动执行: sudo apt install git"),
                    },
                )
            },
            None => Err(
                owned("未找到包管理器，请手动安装 Git: sudo apt install git 或 sudo yum install git"),
            ),
        },
    }
}


/// The next progress value while the QQBot plugin installs, from 30: ten
/// points per line of output, up to 90.
pub fn plugin_progress(p: u32) -> (r: Option<u32>)
    ensures
        r == (if p < 90 {
            Some((p + 10) as u32)
        } else {
            None
        }),
{
    if p < 90 {
        Some(p + 10)
    } else {
        None
    }
}

/// The closing log line and answer of the QQBot plugin install.
pub fn plugin_install_outcome(success: bool) -> (r: (String, Result<String, String>))
    ensures
        r.0@ == (if success {
            "QQBot 插件安装完成"@
        } else {
            "QQBot 插件安装失败"@
        }),
        match r.1 {
            Ok(m) => success && m@ == "安装成功"@,
            Err(e) => !success && e@ == "插件安装失败，请查看日志"@,
        },
{
    if success {
        (owned("QQBot 插件安装完成"), Ok(owned("安装成功")))
    } else {
        (owned("QQBot 插件安装失败"), Err(owned("插件安装失败，请查看日志")))
    }
}


/// The launchd service of the gateway for user `uid` (`gui/<uid>/ai.openclaw.gateway`).
pub fn gateway_launchd_target(uid: u32) -> (r: String)
    ensures
        r@ == "gui/"@ + dec(uid as nat) + "/ai.openclaw.gateway"@,
{
    let mut m = owned("gui/");
    push_dec(&mut m, uid as u64);
    m.append("/ai.openclaw.gateway");
    m
}

} // verus!

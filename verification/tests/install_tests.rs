use clawpanel::install::{
    add_rewrite_args, configured_registry, exit_code_text, gateway_launchd_target, git_https_report,
    git_install_env, git_install_plan, install_args, install_registry, is_mirror, is_root_user,
    next_manager_probe, npm_invocation, ManagerProbe, plugin_install_outcome, plugin_progress, removal_expects, removal_step,
    start_removal, start_upgrade, stderr_tail, stream_progress, unset_rewrites_args,
    upgrade_expects, upgrade_step, Note, Platform, RemovalAction, RemovalEvent, RemovalStage,
    UpgradeAction, UpgradeEvent, UpgradeStage,
};

fn log(s: &str) -> Note {
    Note::Log(s.to_string())
}

fn strings(v: &[&str]) -> Vec<String> {
    v.iter().map(|x| x.to_string()).collect()
}

#[test]
fn registry_file_content_is_trimmed_with_default() {
    assert_eq!(configured_registry(Some("  https://r.example/ \n")), "https://r.example/");
    assert_eq!(configured_registry(Some(" \n")), "https://registry.npmmirror.com");
    assert_eq!(configured_registry(None), "https://registry.npmmirror.com");
}

#[test]
fn chinese_build_uses_official_registry_unless_mirror() {
    let zh = "@qingchencloud/openclaw-zh";
    assert_eq!(install_registry(zh, "https://registry.npmmirror.com"), "https://registry.npmmirror.com");
    assert_eq!(install_registry(zh, "https://registry.npm.taobao.org"), "https://registry.npm.taobao.org");
    assert_eq!(install_registry(zh, "https://example.com"), "https://registry.npmjs.org");
    assert_eq!(install_registry("openclaw", "https://example.com"), "https://example.com");
    assert!(is_mirror("https://registry.npmmirror.com"));
    assert!(!is_mirror("https://registry.npmjs.org"));
}

#[test]
fn exit_codes_and_tails() {
    assert_eq!(exit_code_text(Some(1)), "1");
    assert_eq!(exit_code_text(Some(-2)), "-2");
    assert_eq!(exit_code_text(Some(i32::MIN)), "-2147483648");
    assert_eq!(exit_code_text(None), "unknown");
    assert_eq!(stderr_tail(&strings(&["a", "b"])), "a\nb");
    let many: Vec<String> = (1..=20).map(|i| format!("l{i}")).collect();
    let expected: Vec<String> = (6..=20).map(|i| format!("l{i}")).collect();
    assert_eq!(stderr_tail(&many), expected.join("\n"));
    assert_eq!(stderr_tail(&vec![]), "");
}

#[test]
fn progress_steps() {
    assert_eq!(stream_progress(15), Some(17));
    assert_eq!(stream_progress(74), Some(76));
    assert_eq!(stream_progress(75), None);
    assert_eq!(plugin_progress(30), Some(40));
    assert_eq!(plugin_progress(90), None);
}

#[test]
fn upgrade_switching_to_chinese_build_retries_then_fails() {
    let (u, notes, action) = start_upgrade(
        "chinese",
        "official",
        None,
        Some("2026.3.13-zh.1".to_string()),
        "https://registry.npmmirror.com",
    );
    assert_eq!(u.pkg, "@qingchencloud/openclaw-zh@2026.3.13-zh.1");
    assert_eq!(u.registry, "https://registry.npmmirror.com");
    assert_eq!(u.old_pkg, "openclaw");
    assert!(u.switch_source);
    assert_eq!(notes, vec![log("ClawPanel 0.9.0 默认绑定 OpenClaw 稳定版: 2026.3.13-zh.1")]);
    assert_eq!(action, UpgradeAction::ConfigureGit);

    let e = UpgradeEvent::GitConfigured(6);
    assert!(upgrade_expects(u.stage, &e));
    assert!(!upgrade_expects(u.stage, &UpgradeEvent::CleanedUp));
    let (u, notes, action) = upgrade_step(u, e);
    assert_eq!(notes, vec![log("Git HTTPS 规则已就绪 (6/6)"), log("正在停止 Gateway 并清理旧文件...")]);
    assert_eq!(action, UpgradeAction::CleanUp);

    let (u, notes, action) = upgrade_step(u, UpgradeEvent::CleanedUp);
    assert_eq!(
        notes,
        vec![log("$ npm install -g @qingchencloud/openclaw-zh@2026.3.13-zh.1 --force"), Note::Progress(10)]
    );
    assert_eq!(
        action,
        UpgradeAction::Install {
            args: strings(&[
                "install",
                "-g",
                "@qingchencloud/openclaw-zh@2026.3.13-zh.1",
                "--force",
                "--registry",
                "https://registry.npmmirror.com",
                "--verbose",
            ]),
            progress_from: 15,
        }
    );

    let stderr: Vec<String> = (1..=20).map(|i| format!("e{i}")).collect();
    let (u, notes, action) = upgrade_step(
        u,
        UpgradeEvent::InstallExited { success: false, code: Some(1), stderr: stderr.clone() },
    );
    assert_eq!(u.stage, UpgradeStage::Retrying);
    assert_eq!(
        notes,
        vec![
            Note::Progress(80),
            Note::Progress(100),
            log(""),
            log("⚠️ 镜像源安装失败，自动切换到官方源重试..."),
            Note::Progress(15),
        ]
    );
    assert_eq!(
        action,
        UpgradeAction::Install {
            args: strings(&[
                "install",
                "-g",
                "@qingchencloud/openclaw-zh@2026.3.13-zh.1",
                "--force",
                "--registry",
                "https://registry.npmjs.org",
                "--verbose",
            ]),
            progress_from: 20,
        }
    );

    let (u, notes, action) =
        upgrade_step(u, UpgradeEvent::InstallExited { success: false, code: None, stderr });
    assert_eq!(u.stage, UpgradeStage::Done);
    assert_eq!(notes, vec![Note::Progress(80), Note::Progress(100)]);
    let tail: Vec<String> = (6..=20).map(|i| format!("e{i}")).collect();
    assert_eq!(
        action,
        UpgradeAction::Finish(Err(format!(
            "升级失败（镜像源和官方源均失败），exit code: unknown\n{}",
            tail.join("\n")
        )))
    );
    for e in [UpgradeEvent::CleanedUp, UpgradeEvent::OldRemoved, UpgradeEvent::VersionRead(None)] {
        assert!(!upgrade_expects(UpgradeStage::Done, &e));
    }
}

#[test]
fn upgrade_success_removes_old_package_and_reinstalls_gateway() {
    let (u, _, _) = start_upgrade("chinese", "official", None, None, "https://registry.npmmirror.com");
    assert_eq!(u.pkg, "@qingchencloud/openclaw-zh@latest");
    let (u, _, _) = upgrade_step(u, UpgradeEvent::GitConfigured(0));
    let (u, _, _) = upgrade_step(u, UpgradeEvent::CleanedUp);
    let (u, notes, action) =
        upgrade_step(u, UpgradeEvent::InstallExited { success: true, code: Some(0), stderr: vec![] });
    assert_eq!(notes, vec![Note::Progress(80), Note::Progress(100), log("清理旧版本 (openclaw)...")]);
    assert_eq!(action, UpgradeAction::RemoveOld("openclaw".to_string()));
    let (u, notes, action) = upgrade_step(u, UpgradeEvent::OldRemoved);
    assert_eq!(notes, vec![log("正在重装 Gateway 服务（更新启动路径）...")]);
    assert_eq!(action, UpgradeAction::ReinstallGateway);
    let (u, notes, action) = upgrade_step(u, UpgradeEvent::GatewayReinstalled(false));
    assert_eq!(notes, vec![log("⚠️ Gateway 重装失败，请手动执行 openclaw gateway install")]);
    assert_eq!(action, UpgradeAction::ReadVersion);
    let (u, notes, action) = upgrade_step(u, UpgradeEvent::VersionRead(None));
    assert_eq!(u.stage, UpgradeStage::Done);
    assert_eq!(notes, vec![log("✅ 安装完成，当前版本: 未知")]);
    assert_eq!(action, UpgradeAction::Finish(Ok("✅ 安装完成，当前版本: 未知".to_string())));
}

#[test]
fn upgrade_without_mirror_fails_at_once_and_keeps_source() {
    let (u, notes, _) = start_upgrade(
        "official",
        "official",
        Some("1.0.0".to_string()),
        Some("2.0.0".to_string()),
        "https://example.com",
    );
    assert!(notes.is_empty());
    assert_eq!(u.pkg, "openclaw@1.0.0");
    assert!(!u.switch_source);
    let (u, _, _) = upgrade_step(u, UpgradeEvent::GitConfigured(3));
    let (u, _, _) = upgrade_step(u, UpgradeEvent::CleanedUp);
    let (u2, notes, action) = upgrade_step(
        u,
        UpgradeEvent::InstallExited { success: false, code: Some(1), stderr: strings(&["boom"]) },
    );
    assert_eq!(u2.stage, UpgradeStage::Done);
    assert_eq!(
        notes,
        vec![Note::Progress(80), Note::Progress(100), log("❌ 升级失败 (exit code: 1)")]
    );
    assert_eq!(action, UpgradeAction::Finish(Err("升级失败，exit code: 1\nboom".to_string())));
}

#[test]
fn upgrade_same_source_success_reads_version() {
    let (u, notes, _) = start_upgrade("official", "official", None, None, "https://registry.npmmirror.com");
    assert_eq!(notes, vec![log("未找到绑定稳定版，将回退到 latest")]);
    assert_eq!(u.pkg, "openclaw@latest");
    let (u, _, _) = upgrade_step(u, UpgradeEvent::GitConfigured(6));
    let (u, _, _) = upgrade_step(u, UpgradeEvent::CleanedUp);
    let (u, _, _) =
        upgrade_step(u, UpgradeEvent::InstallExited { success: false, code: Some(1), stderr: vec![] });
    let (u, notes, action) =
        upgrade_step(u, UpgradeEvent::InstallExited { success: true, code: Some(0), stderr: vec![] });
    assert_eq!(notes, vec![Note::Progress(80), Note::Progress(100), log("✅ 官方源安装成功")]);
    assert_eq!(action, UpgradeAction::ReadVersion);
    let (_, _, action) = upgrade_step(u, UpgradeEvent::VersionRead(Some("2026.3.13".to_string())));
    assert_eq!(action, UpgradeAction::Finish(Ok("✅ 安装完成，当前版本: 2026.3.13".to_string())));
}

#[test]
fn removal_with_config_cleanup() {
    let (r, notes, action) = start_removal("official", true);
    assert_eq!(r.pkg, "openclaw");
    assert_eq!(r.other_pkg, "@qingchencloud/openclaw-zh");
    assert_eq!(notes, vec![log("正在停止 Gateway...")]);
    assert_eq!(action, RemovalAction::StopGateway);
    assert!(removal_expects(r.stage, &RemovalEvent::GatewayStopped));
    let (r, notes, action) = removal_step(r, RemovalEvent::GatewayStopped);
    assert_eq!(notes, vec![log("正在卸载 Gateway 服务...")]);
    assert_eq!(action, RemovalAction::RemoveService);
    let (r, notes, action) = removal_step(r, RemovalEvent::ServiceRemoved);
    assert_eq!(notes, vec![log("$ npm uninstall -g openclaw"), Note::Progress(20)]);
    assert_eq!(action, RemovalAction::Remove("openclaw".to_string()));
    let (r, notes, action) =
        removal_step(r, RemovalEvent::RemoveExited { success: true, code: Some(0) });
    assert_eq!(notes, vec![Note::Progress(60), log("清理 @qingchencloud/openclaw-zh...")]);
    assert_eq!(action, RemovalAction::RemoveQuietly("@qingchencloud/openclaw-zh".to_string()));
    let (r, notes, action) = removal_step(r, RemovalEvent::OtherRemoved);
    assert_eq!(notes, vec![Note::Progress(80)]);
    assert_eq!(action, RemovalAction::CleanConfig);
    let (r, notes, action) = removal_step(
        r,
        RemovalEvent::ConfigCleaned {
            existed: true,
            dir: "/home/u/.openclaw".to_string(),
            error: Some("busy".to_string()),
        },
    );
    assert_eq!(r.stage, RemovalStage::Done);
    assert_eq!(
        notes,
        vec![
            log("清理配置目录: /home/u/.openclaw"),
            log("⚠️ 清理配置目录失败: busy（可能有文件被占用）"),
            Note::Progress(100),
            log("✅ OpenClaw 已完全卸载（包括配置文件）"),
        ]
    );
    assert_eq!(action, RemovalAction::Finish(Ok("✅ OpenClaw 已完全卸载（包括配置文件）".to_string())));
}

#[test]
fn removal_failure_and_keeping_config() {
    let (r, _, _) = start_removal("chinese", false);
    assert_eq!(r.pkg, "@qingchencloud/openclaw-zh");
    assert_eq!(r.other_pkg, "openclaw");
    let (r, _, _) = removal_step(r, RemovalEvent::GatewayStopped);
    let (r, _, _) = removal_step(r, RemovalEvent::ServiceRemoved);
    let (r2, notes, action) =
        removal_step(r, RemovalEvent::RemoveExited { success: false, code: Some(254) });
    assert_eq!(r2.stage, RemovalStage::Done);
    assert_eq!(notes, vec![Note::Progress(60)]);
    assert_eq!(action, RemovalAction::Finish(Err("卸载失败，exit code: 254".to_string())));

    let (r, _, _) = start_removal("chinese", false);
    let (r, _, _) = removal_step(r, RemovalEvent::GatewayStopped);
    let (r, _, _) = removal_step(r, RemovalEvent::ServiceRemoved);
    let (r, _, _) = removal_step(r, RemovalEvent::RemoveExited { success: true, code: Some(0) });
    let (_, notes, action) = removal_step(r, RemovalEvent::OtherRemoved);
    assert_eq!(
        notes,
        vec![Note::Progress(80), Note::Progress(100), log("✅ OpenClaw 已卸载（配置文件保留在 ~/.openclaw/）")]
    );
    assert_eq!(
        action,
        RemovalAction::Finish(Ok("✅ OpenClaw 已卸载（配置文件保留在 ~/.openclaw/）".to_string()))
    );
}

#[test]
fn git_environment_and_rules() {
    let env = git_install_env();
    assert_eq!(env.len(), 16);
    assert_eq!(env[0], ("GIT_TERMINAL_PROMPT".to_string(), "0".to_string()));
    assert_eq!(env[2], ("GIT_ALLOW_PROTOCOL".to_string(), "https:http:file".to_string()));
    assert_eq!(env[3], ("GIT_CONFIG_COUNT".to_string(), "6".to_string()));
    assert_eq!(
        env[4],
        ("GIT_CONFIG_KEY_0".to_string(), "url.https://github.com/.insteadOf".to_string())
    );
    assert_eq!(env[5], ("GIT_CONFIG_VALUE_0".to_string(), "ssh://git@github.com/".to_string()));
    assert_eq!(env[15], ("GIT_CONFIG_VALUE_5".to_string(), "git+ssh://git@github.com/".to_string()));
    assert_eq!(
        unset_rewrites_args(),
        strings(&["config", "--global", "--unset-all", "url.https://github.com/.insteadOf"])
    );
    assert_eq!(
        add_rewrite_args("git@github.com:"),
        strings(&["config", "--global", "--add", "url.https://github.com/.insteadOf", "git@github.com:"])
    );
    assert_eq!(git_https_report(6), Ok("已配置 Git 使用 HTTPS（6/6 条规则）".to_string()));
    assert_eq!(git_https_report(0), Err("Git 未安装或配置失败".to_string()));
}

#[test]
fn npm_command_per_platform() {
    let (p, a) = npm_invocation(Platform::Windows, false, "R");
    assert_eq!(p, "cmd");
    assert_eq!(a, strings(&["/c", "npm", "--registry", "R"]));
    let (p, a) = npm_invocation(Platform::MacOs, false, "R");
    assert_eq!(p, "npm");
    assert_eq!(a, strings(&["--registry", "R"]));
    let (p, a) = npm_invocation(Platform::Linux, false, "R");
    assert_eq!(p, "sudo");
    assert_eq!(a, strings(&["-E", "npm", "--registry", "R"]));
    let (p, _) = npm_invocation(Platform::Linux, true, "R");
    assert_eq!(p, "npm");
    assert_eq!(install_args("openclaw@1", "R").len(), 7);
}

#[test]
fn root_detection() {
    assert!(is_root_user(Some("root"), None));
    assert!(is_root_user(None, Some("0")));
    assert!(!is_root_user(Some("alice"), Some("0")));
    assert!(!is_root_user(None, None));
}

#[test]
fn git_install_plans() {
    let w = git_install_plan(Platform::Windows, None).unwrap();
    assert_eq!(w.program, "winget");
    assert_eq!(w.args.len(), 8);
    assert_eq!(w.success, "Git 已通过 winget 安装");
    let m = git_install_plan(Platform::MacOs, None).unwrap();
    assert_eq!(m.program, "xcode-select");
    assert!(!m.stream);
    let l = git_install_plan(Platform::Linux, Some(3)).unwrap();
    assert_eq!(l.program, "sudo");
    assert_eq!(l.args, strings(&["pacman", "-S", "--noconfirm", "git"]));
    assert_eq!(l.logs, strings(&["执行: sudo pacman -S --noconfirm git"]));
    match git_install_plan(Platform::Linux, None) {
        Err(e) => assert_eq!(e, "未找到包管理器，请手动安装 Git: sudo apt install git 或 sudo yum install git"),
        Ok(_) => panic!("expected an error"),
    }
    match git_install_plan(Platform::Linux, Some(4)) {
        Err(e) => assert_eq!(e, "不支持的包管理器"),
        Ok(_) => panic!("expected an error"),
    }
}

#[test]
fn plugin_outcome_and_launchd_target() {
    let (log_line, r) = plugin_install_outcome(true);
    assert_eq!(log_line, "QQBot 插件安装完成");
    assert_eq!(r, Ok("安装成功".to_string()));
    let (log_line, r) = plugin_install_outcome(false);
    assert_eq!(log_line, "QQBot 插件安装失败");
    assert_eq!(r, Err("插件安装失败，请查看日志".to_string()));
    assert_eq!(gateway_launchd_target(501), "gui/501/ai.openclaw.gateway");
}

#[test]
fn package_manager_search_stops_at_the_first_answer() {
    assert_eq!(next_manager_probe(&vec![]), ManagerProbe::Probe("apt-get"));
    assert_eq!(next_manager_probe(&vec![false]), ManagerProbe::Probe("yum"));
    assert_eq!(next_manager_probe(&vec![false, false]), ManagerProbe::Probe("dnf"));
    assert_eq!(next_manager_probe(&vec![false, false, false]), ManagerProbe::Probe("pacman"));
    assert_eq!(next_manager_probe(&vec![false, true]), ManagerProbe::Found(Some(1)));
    assert_eq!(next_manager_probe(&vec![true]), ManagerProbe::Found(Some(0)));
    assert_eq!(next_manager_probe(&vec![false; 4]), ManagerProbe::Found(None));
}

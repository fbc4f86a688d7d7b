use autonice::cli::{command, unknown_subcommand, Command, UNKNOWN_SUBCOMMAND_EXIT, USAGE};
use autonice::install::{
    install_config, install_self, run, systemctl, write_file, InstallError, Installation, Next, Phase,
    Step, SERVICE,
};
use autonice::schema::DEFAULT_CONFIG;

fn show(steps: &[Step]) -> Vec<String> {
    steps
        .iter()
        .map(|s| match s {
            Step::CreateParent { path } => format!("mkdir of {path}"),
            Step::CopySelf { to } => format!("copy self to {to}"),
            Step::Write { path, contents } => format!("write {path} {}", contents.len()),
            Step::SetMode { path, mode } => format!("chmod {mode:o} {path}"),
            Step::Systemctl { args } => format!("systemctl {}", args.join(" ")),
            Step::Say { line } => format!("say {line}"),
        })
        .collect()
}

#[test]
fn install_needs_root() {
    assert_eq!(run(1000).err(), Some(InstallError::NotRoot));
    assert_eq!(
        InstallError::NotRoot.message(),
        "`autonice install` must run as root (try: sudo autonice install)"
    );
}

#[test]
fn install_goes_in_order() {
    let plan = run(0).unwrap();
    assert_eq!(plan.len(), 4);
    assert!(matches!(plan[0], Phase::InstallSelf));
    assert!(matches!(plan[2], Phase::InstallConfig));
    match &plan[1] {
        Phase::Steps(steps) => assert_eq!(
            show(steps),
            vec![
                "mkdir of /etc/systemd/system/autonice.service".to_string(),
                format!("write /etc/systemd/system/autonice.service {}", SERVICE.len()),
                "chmod 644 /etc/systemd/system/autonice.service".to_string(),
                "say wrote /etc/systemd/system/autonice.service".to_string(),
            ]
        ),
        _ => panic!("the unit is written"),
    }
    match &plan[3] {
        Phase::Steps(steps) => assert_eq!(
            show(steps),
            vec![
                "systemctl daemon-reload".to_string(),
                "systemctl enable --now autonice".to_string(),
                "say \nautonice is installed and running.\n  status: systemctl status autonice\n  logs:   journalctl -u autonice -f".to_string(),
            ]
        ),
        _ => panic!("the service is enabled"),
    }
}

#[test]
fn running_binary_is_copied() {
    let expected = vec![
        "mkdir of /usr/local/bin/autonice".to_string(),
        "copy self to /usr/local/bin/autonice".to_string(),
        "chmod 755 /usr/local/bin/autonice".to_string(),
        "say installed /tmp/autonice -> /usr/local/bin/autonice".to_string(),
    ];
    assert_eq!(show(&install_self("/tmp/autonice", Some(&b"/tmp/autonice"[..]), None)), expected);
    assert_eq!(show(&install_self("/tmp/autonice", Some(&b"/tmp/autonice"[..]), Some(&b"/usr/local/bin/autonice"[..]))), expected);
    assert_eq!(show(&install_self("/tmp/autonice", None, None)), expected);
}

#[test]
fn installed_binary_stays() {
    let real: Option<&[u8]> = Some(b"/usr/local/bin/autonice");
    assert_eq!(
        show(&install_self("/proc/self/exe", real, real)),
        vec!["say /usr/local/bin/autonice is already the running binary; leaving it in place".to_string()]
    );
}

#[test]
fn existing_config_is_kept() {
    assert_eq!(show(&install_config(true)), vec!["say /etc/autonice.toml already exists; keeping it".to_string()]);
}

#[test]
fn missing_config_is_written() {
    let steps = install_config(false);
    assert_eq!(
        show(&steps),
        vec![
            "mkdir of /etc/autonice.toml".to_string(),
            format!("write /etc/autonice.toml {}", DEFAULT_CONFIG.len()),
            "chmod 644 /etc/autonice.toml".to_string(),
            "say wrote default config /etc/autonice.toml".to_string(),
        ]
    );
    assert!(matches!(&steps[1], Step::Write { contents, .. } if contents == DEFAULT_CONFIG));
}

#[test]
fn files_get_their_mode() {
    assert_eq!(
        show(&write_file("/a/b", "xyz", 0o600)),
        vec!["mkdir of /a/b".to_string(), "write /a/b 3".to_string(), "chmod 600 /a/b".to_string()]
    );
}

#[test]
fn systemctl_failures_are_reported() {
    let args = vec!["enable".to_string(), "--now".to_string(), "autonice".to_string()];
    assert_eq!(systemctl(&args, true, ""), Ok(()));
    assert_eq!(
        systemctl(&args, false, "exit status: 1"),
        Err("systemctl enable --now autonice failed (exit status: 1)".to_string())
    );
    assert_eq!(systemctl(&Vec::new(), false, "x"), Err("systemctl  failed (x)".to_string()));
}

#[test]
fn commands() {
    assert_eq!(command(None), Command::Run);
    assert_eq!(command(Some("run")), Command::Run);
    assert_eq!(command(Some("install")), Command::Install);
    assert_eq!(command(Some("default")), Command::Default);
    for word in ["help", "-h", "--help"] {
        assert_eq!(command(Some(word)), Command::Help);
    }
    assert_eq!(command(Some("Install")), Command::Unknown);
    assert_eq!(command(Some("")), Command::Unknown);
}

#[test]
fn usage_text() {
    assert_eq!(unknown_subcommand("foo"), "autonice: unknown subcommand `foo`\n");
    assert_eq!(UNKNOWN_SUBCOMMAND_EXIT, 2);
    assert!(USAGE.starts_with("autonice \u{2014} eBPF-driven automatic renicing\n\nUsage:\n  autonice            Run"));
    assert!(USAGE.ends_with("autonice help       Show this help."));
}

/// Runs an installation in which the step `fails` fails, and returns the steps
/// that were tried.
fn tried(fails: usize) -> Vec<String> {
    let mut installation = Installation::new(run(0).unwrap());
    let mut steps = Vec::new();
    let mut ok = true;
    loop {
        match installation.next(ok) {
            Next::FindBinary => installation.binary_found("/tmp/autonice", None, None),
            Next::FindConfig => installation.config_found(false),
            Next::Take(step) => {
                ok = steps.len() != fails;
                steps.push(step);
            }
            Next::Over => return show(&steps),
        }
    }
}

#[test]
fn every_step_is_taken_in_order() {
    let steps = tried(usize::MAX);
    assert_eq!(steps.len(), 15);
    assert_eq!(steps[..4], show(&install_self("/tmp/autonice", None, None)));
    assert_eq!(steps[7], "say wrote /etc/systemd/system/autonice.service");
    assert_eq!(steps[8..12], show(&install_config(false)));
    assert_eq!(steps[12], "systemctl daemon-reload");
    assert_eq!(steps[13], "systemctl enable --now autonice");
}

#[test]
fn nothing_follows_a_failure() {
    let all = tried(usize::MAX);
    for fails in 0..all.len() {
        assert_eq!(tried(fails), all[..=fails]);
    }
    // not finding the running binary is a failure too
    let mut installation = Installation::new(run(0).unwrap());
    assert!(matches!(installation.next(true), Next::FindBinary));
    assert!(matches!(installation.next(false), Next::Over));
    assert!(matches!(installation.next(true), Next::Over));
}

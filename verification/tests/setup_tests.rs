use plcmon::setup::{
    failure_note, gid_query, group_query, plan_access, plan_group, plan_linux, real_user,
    verification_note, Action, GROUP, LINUX_INTRO, MACOS_INTRO, PLIST, PLIST_PATH, UNSUPPORTED,
};

/// The plan, one step on each line.
fn outline(plan: &Vec<Action>) -> Vec<String> {
    plan.iter()
        .map(|a| match a {
            Action::Print(text) => format!("print {text}"),
            Action::Sudo(words) => format!("sudo {}", words.join(" ")),
            Action::SudoQuietly(words) => format!("quiet {}", words.join(" ")),
            Action::WriteFile { path, .. } => format!("write {path}"),
        })
        .collect()
}

#[test]
fn users() {
    assert_eq!(real_user(Some("alice"), Some("root")), "alice");
    assert_eq!(real_user(None, Some("root")), "root");
    assert_eq!(real_user(None, None), "unknown");
}

#[test]
fn group_plans() {
    assert_eq!(group_query(), vec!["dseditgroup", "-o", "read", "access_bpf"]);
    assert_eq!(gid_query(), vec!["dscl", ".", "-read", "/Groups/access_bpf", "PrimaryGroupID"]);
    assert_eq!(outline(&plan_group(true)), vec!["print already exists\n"]);
    assert_eq!(
        outline(&plan_group(false)),
        vec!["sudo dseditgroup -o create access_bpf", "print done\n"]
    );
}

#[test]
fn macos_plans() {
    let rest = vec![
        "print Adding 'bob' to 'access_bpf'... ",
        "sudo dseditgroup -o edit -a bob -t user access_bpf",
        "print done\n",
        "print Setting BPF permissions... ",
        "sudo sh -c chgrp access_bpf /dev/bpf* && chmod g+rw /dev/bpf*",
        "print done\n",
        "print Installing LaunchDaemon... ",
        "write /tmp/dev.plcmon.ChmodBPF.plist",
        "sudo cp /tmp/dev.plcmon.ChmodBPF.plist /Library/LaunchDaemons/dev.plcmon.ChmodBPF.plist",
        "sudo chown root:wheel /Library/LaunchDaemons/dev.plcmon.ChmodBPF.plist",
        "sudo chmod 644 /Library/LaunchDaemons/dev.plcmon.ChmodBPF.plist",
        "print done\n",
        "print Loading daemon... ",
        "quiet launchctl unload /Library/LaunchDaemons/dev.plcmon.ChmodBPF.plist",
        "sudo launchctl load /Library/LaunchDaemons/dev.plcmon.ChmodBPF.plist",
        "print done\n",
        "print \nSetup complete. You may need to log out/in for group membership.\n",
    ];
    assert_eq!(outline(&plan_access(true, "bob")), rest);
    let mut all = vec![
        "print Assigning GID... ",
        "sudo dscl . -create /Groups/access_bpf PrimaryGroupID 710",
        "print done\n",
    ];
    all.extend(rest);
    assert_eq!(outline(&plan_access(false, "bob")), all);
    assert!(PLIST.contains("<string>chgrp access_bpf /dev/bpf* &amp;&amp; chmod g+rw /dev/bpf*</string>"));
    assert!(PLIST.starts_with("<?xml version=\"1.0\" encoding=\"UTF-8\"?>\n"));
    assert!(PLIST.ends_with("</dict>\n</plist>\n"));
    assert!(MACOS_INTRO.ends_with("Creating group 'access_bpf'... "));
    assert_eq!(GROUP, "access_bpf");
    assert!(PLIST_PATH.ends_with(".plist"));
}

#[test]
fn linux_plans() {
    assert!(LINUX_INTRO.starts_with("plcmon setup (Linux)\n"));
    assert_eq!(outline(&plan_linux("/usr/bin/plcmon")), vec![
        format!("print {LINUX_INTRO}"),
        "print Setting cap_net_raw on /usr/bin/plcmon... ".to_string(),
        "sudo setcap cap_net_raw+ep /usr/bin/plcmon".to_string(),
        "print done\n".to_string(),
    ]);
    assert_eq!(
        verification_note(Some("/usr/bin/plcmon cap_net_raw=ep")),
        Some("\nSetup complete. plcmon can now capture without root.\n")
    );
    assert_eq!(
        verification_note(Some("")),
        Some("\nWarning: capability may not have been set. You may need to run as root.\n")
    );
    assert_eq!(verification_note(None), None);
    assert!(UNSUPPORTED.starts_with("Setup not implemented for this platform.\n"));
}

#[test]
fn failed_commands() {
    let words = vec!["chmod".to_string(), "644".to_string(), "x".to_string()];
    assert_eq!(failure_note(&words), "  warning: command failed: sudo chmod 644 x");
}

//! Platform-specific setup for non-root packet capture.
//! - macOS: creates access_bpf group + LaunchDaemon (like Wireshark's ChmodBPF)
//! - Linux: grants CAP_NET_RAW capability on the plcmon binary
//!
//! The setup is a plan: what to print, which commands to run as root, which file to
//! write. Whoever carries it out answers the questions that the plan depends on.

use crate::text::{contains, has_text, join, joined};
use vstd::prelude::*;
use vstd::string::*;

verus! {

// -- Plans -------------------------------------------------------------------------------

/// One step of a setup.
pub enum Action {
    /// Print the text, without a line break of its own.
    Print(String),
    /// Run the command as root, and warn if it fails.
    Sudo(Vec<String>),
    /// Run the command as root, whether it fails or not.
    SudoQuietly(Vec<String>),
    /// Write the text to the file.
    WriteFile { path: String, text: String },
}

pub enum ActionView {
    Print(Seq<char>),
    Sudo(Seq<Seq<char>>),
    SudoQuietly(Seq<Seq<char>>),
    WriteFile { path: Seq<char>, text: Seq<char> },
}

/// The texts of a list.
pub open spec fn texts(list: Seq<String>) -> Seq<Seq<char>> {
    list.map_values(|s: String| s@)
}

impl View for Action {
    type V = ActionView;

    open spec fn view(&self) -> ActionView {
        match *self {
            Action::Print(text) => ActionView::Print(text@),
            Action::Sudo(words) => ActionView::Sudo(texts(words@)),
            Action::SudoQuietly(words) => ActionView::SudoQuietly(texts(words@)),
            Action::WriteFile { path, text } => ActionView::WriteFile {
                path: path@,
                text: text@,
            },
        }
    }
}

/// The steps of a plan.
pub open spec fn action_views(plan: Seq<Action>) -> Seq<ActionView> {
    plan.map_values(|a: Action| a@)
}

fn owned(words: &[&str]) -> (r: Vec<String>)
    ensures
        texts(r@) == words@.map_values(|w: &str| w@),
{
    let mut r: Vec<String> = Vec::new();
    let mut i: usize = 0;
    while i < words.len()
        invariant
            i <= words.len(),
            r@.len() == i,
            forall|k: int| 0 <= k < i ==> (#[trigger] r@[k])@ == words@[k]@,
        decreases words.len() - i,
    {
        r.push(String::from_str(words[i]));
        i += 1;
    }
    assert(texts(r@) =~= words@.map_values(|w: &str| w@));
    r
}

fn add_print(plan: &mut Vec<Action>, text: &str)
    ensures
        action_views(final(plan)@) == action_views(old(plan)@).push(ActionView::Print(text@)),
{
    let a = Action::Print(String::from_str(text));
    let ghost before = plan@;
    plan.push(a);
    assert(action_views(plan@) == action_views(before).push(a@));
}

fn add_sudo(plan: &mut Vec<Action>, words: &[&str])
    ensures
        action_views(final(plan)@) == action_views(old(plan)@).push(
            ActionView::Sudo(words@.map_values(|w: &str| w@)),
        ),
{
    let a = Action::Sudo(owned(words));
    let ghost before = plan@;
    plan.push(a);
    assert(action_views(plan@) == action_views(before).push(a@));
}

/// What is said of a command that failed.
pub fn failure_note(words: &Vec<String>) -> (r: String)
    ensures
        r@ == "  warning: command failed: sudo "@ + joined(words@, " "@),
{
    let mut r = String::from_str("  warning: command failed: sudo ");
    r.append(join(words, " ").as_str());
    r
}

/// What is said where there is no setup for the platform.
pub const UNSUPPORTED: &'static str =
    "Setup not implemented for this platform.\nYou may need to run plcmon as root.\n";

/// The real user, even when running under sudo: who called sudo, else who is logged
/// in, else nobody known.
pub fn real_user(sudo_user: Option<&str>, user: Option<&str>) -> (r: String)
    ensures
        r@ == match (sudo_user, user) {
            (Some(name), _) => name@,
            (None, Some(name)) => name@,
            (None, None) => "unknown"@,
        },
{
    match sudo_user {
        Some(name) => String::from_str(name),
        None => match user {
            Some(name) => String::from_str(name),
            None => String::from_str("unknown"),
        },
    }
}

// -- macOS -----------------------------------------------------------------------------------

/// The group that may capture.
pub const GROUP: &'static str = "access_bpf";

/// Where the description of the daemon is installed.
pub const PLIST_PATH: &'static str = "/Library/LaunchDaemons/dev.plcmon.ChmodBPF.plist";

/// Where the description of the daemon is written first.
pub const PLIST_TEMP: &'static str = "/tmp/dev.plcmon.ChmodBPF.plist";

/// The description of the daemon.
pub const PLIST: &'static str =
    "<?xml version=\"1.0\" encoding=\"UTF-8\"?>\n<!DOCTYPE plist PUBLIC \"-//Apple//DTD PLIST 1.0//EN\" \"http://www.apple.com/DTDs/PropertyList-1.0.dtd\">\n<plist version=\"1.0\">\n<dict>\n    <key>Label</key>\n    <string>dev.plcmon.ChmodBPF</string>\n    <key>ProgramArguments</key>\n    <array>\n        <string>/bin/sh</string>\n        <string>-c</string>\n        <string>chgrp access_bpf /dev/bpf* &amp;&amp; chmod g+rw /dev/bpf*</string>\n    </array>\n    <key>RunAtLoad</key>\n    <true/>\n</dict>\n</plist>\n";

/// What is printed first.
pub const MACOS_INTRO: &'static str =
    "plcmon setup (macOS)\n====================\nCreates 'access_bpf' group, adds your user, installs LaunchDaemon.\nRequires sudo.\n\nCreating group 'access_bpf'... ";

/// The command that succeeds if the group exists.
pub fn group_query() -> (r: Vec<String>)
    ensures
        texts(r@) == seq!["dseditgroup"@, "-o"@, "read"@, GROUP@],
{
    let words: [&str; 4] = ["dseditgroup", "-o", "read", GROUP];
    let r = owned(words.as_slice());
    assert(texts(r@) == seq!["dseditgroup"@, "-o"@, "read"@, GROUP@]);
    r
}

/// The command that prints the number of the group, if it has one.
pub fn gid_query() -> (r: Vec<String>)
    ensures
        texts(r@) == seq!["dscl"@, "."@, "-read"@, "/Groups/access_bpf"@, "PrimaryGroupID"@],
{
    let words: [&str; 5] = ["dscl", ".", "-read", "/Groups/access_bpf", "PrimaryGroupID"];
    let r = owned(words.as_slice());
    assert(texts(r@) == seq![
        "dscl"@,
        "."@,
        "-read"@,
        "/Groups/access_bpf"@,
        "PrimaryGroupID"@,
    ]);
    r
}

/// The steps that see to the group.
pub open spec fn group_plan(exists_already: bool) -> Seq<ActionView> {
    if exists_already {
        seq![ActionView::Print("already exists\n"@)]
    } else {
        seq![
            ActionView::Sudo(seq!["dseditgroup"@, "-o"@, "create"@, GROUP@]),
            ActionView::Print("done\n"@),
        ]
    }
}

/// The steps that see to the number of the group, which chgrp needs.
pub open spec fn gid_plan(has_gid: bool) -> Seq<ActionView> {
    if has_gid {
        Seq::empty()
    } else {
        seq![
            ActionView::Print("Assigning GID... "@),
            ActionView::Sudo(
                seq![
                    "dscl"@,
                    "."@,
                    "-create"@,
                    "/Groups/access_bpf"@,
                    "PrimaryGroupID"@,
                    "710"@,
                ],
            ),
            ActionView::Print("done\n"@),
        ]
    }
}

/// The steps that let `user` capture, now and after a restart.
pub open spec fn access_plan(user: Seq<char>) -> Seq<ActionView> {
    seq![
        ActionView::Print("Adding '"@ + user + "' to 'access_bpf'... "@),
        ActionView::Sudo(
            seq!["dseditgroup"@, "-o"@, "edit"@, "-a"@, user, "-t"@, "user"@, GROUP@],
        ),
        ActionView::Print("done\n"@),
        ActionView::Print("Setting BPF permissions... "@),
        ActionView::Sudo(
            seq!["sh"@, "-c"@, "chgrp access_bpf /dev/bpf* && chmod g+rw /dev/bpf*"@],
        ),
        ActionView::Print("done\n"@),
    ]
}

/// The steps that install and load the daemon.
pub open spec fn daemon_plan() -> Seq<ActionView> {
    seq![
        ActionView::Print("Installing LaunchDaemon... "@),
        ActionView::WriteFile { path: PLIST_TEMP@, text: PLIST@ },
        ActionView::Sudo(seq!["cp"@, PLIST_TEMP@, PLIST_PATH@]),
        ActionView::Sudo(seq!["chown"@, "root:wheel"@, PLIST_PATH@]),
        ActionView::Sudo(seq!["chmod"@, "644"@, PLIST_PATH@]),
        ActionView::Print("done\n"@),
        ActionView::Print("Loading daemon... "@),
        ActionView::SudoQuietly(seq!["launchctl"@, "unload"@, PLIST_PATH@]),
        ActionView::Sudo(seq!["launchctl"@, "load"@, PLIST_PATH@]),
        ActionView::Print("done\n"@),
        ActionView::Print(
            "\nSetup complete. You may need to log out/in for group membership.\n"@,
        ),
    ]
}

/// Plan what to do once it is known whether the group exists.
pub fn plan_group(exists_already: bool) -> (plan: Vec<Action>)
    ensures
        action_views(plan@) == group_plan(exists_already),
{
    let mut plan: Vec<Action> = Vec::new();
    if exists_already {
        add_print(&mut plan, "already exists\n");
    } else {
        let create: [&str; 4] = ["dseditgroup", "-o", "create", GROUP];
        add_sudo(&mut plan, create.as_slice());
        add_print(&mut plan, "done\n");
        assert(create@.map_values(|w: &str| w@) == seq![
            "dseditgroup"@,
            "-o"@,
            "create"@,
            GROUP@,
        ]);
    }
    assert(action_views(plan@) == group_plan(exists_already));
    plan
}

fn add_gid(plan: &mut Vec<Action>, has_gid: bool)
    ensures
        action_views(final(plan)@) == action_views(old(plan)@) + gid_plan(has_gid),
{
    let ghost start = action_views(plan@);
    if !has_gid {
        add_print(plan, "Assigning GID... ");
        let create: [&str; 6] = [
            "dscl",
            ".",
            "-create",
            "/Groups/access_bpf",
            "PrimaryGroupID",
            "710",
        ];
        add_sudo(plan, create.as_slice());
        add_print(plan, "done\n");
        assert(create@.map_values(|w: &str| w@) == seq![
            "dscl"@,
            "."@,
            "-create"@,
            "/Groups/access_bpf"@,
            "PrimaryGroupID"@,
            "710"@,
        ]);
    }
    assert(action_views(plan@) == start + gid_plan(has_gid));
}

fn add_access(plan: &mut Vec<Action>, user: &str)
    ensures
        action_views(final(plan)@) == action_views(old(plan)@) + access_plan(user@),
{
    let ghost start = action_views(plan@);
    let mut text = String::from_str("Adding '");
    text.append(user);
    text.append("' to 'access_bpf'... ");
    add_print(plan, text.as_str());
    let edit: [&str; 8] = ["dseditgroup", "-o", "edit", "-a", user, "-t", "user", GROUP];
    add_sudo(plan, edit.as_slice());
    assert(edit@.map_values(|w: &str| w@) == seq![
        "dseditgroup"@,
        "-o"@,
        "edit"@,
        "-a"@,
        user@,
        "-t"@,
        "user"@,
        GROUP@,
    ]);
    add_print(plan, "done\n");
    add_print(plan, "Setting BPF permissions... ");
    let open: [&str; 3] = ["sh", "-c", "chgrp access_bpf /dev/bpf* && chmod g+rw /dev/bpf*"];
    add_sudo(plan, open.as_slice());
    assert(open@.map_values(|w: &str| w@) == seq![
        "sh"@,
        "-c"@,
        "chgrp access_bpf /dev/bpf* && chmod g+rw /dev/bpf*"@,
    ]);
    add_print(plan, "done\n");
    assert(action_views(plan@) == start + access_plan(user@));
}

fn add_daemon(plan: &mut Vec<Action>)
    ensures
        action_views(final(plan)@) == action_views(old(plan)@) + daemon_plan(),
{
    let ghost start = action_views(plan@);
    add_print(plan, "Installing LaunchDaemon... ");
    let ghost before = plan@;
    let write = Action::WriteFile {
        path: String::from_str(PLIST_TEMP),
        text: String::from_str(PLIST),
    };
    plan.push(write);
    assert(action_views(plan@) == action_views(before).push(write@));
    let copy: [&str; 3] = ["cp", PLIST_TEMP, PLIST_PATH];
    add_sudo(plan, copy.as_slice());
    assert(copy@.map_values(|w: &str| w@) == seq!["cp"@, PLIST_TEMP@, PLIST_PATH@]);
    let owner: [&str; 3] = ["chown", "root:wheel", PLIST_PATH];
    add_sudo(plan, owner.as_slice());
    assert(owner@.map_values(|w: &str| w@) == seq!["chown"@, "root:wheel"@, PLIST_PATH@]);
    let rights: [&str; 3] = ["chmod", "644", PLIST_PATH];
    add_sudo(plan, rights.as_slice());
    assert(rights@.map_values(|w: &str| w@) == seq!["chmod"@, "644"@, PLIST_PATH@]);
    add_print(plan, "done\n");
    add_print(plan, "Loading daemon... ");
    let unload: [&str; 3] = ["launchctl", "unload", PLIST_PATH];
    let ghost loaded = plan@;
    let quietly = Action::SudoQuietly(owned(unload.as_slice()));
    plan.push(quietly);
    assert(action_views(plan@) == action_views(loaded).push(quietly@));
    assert(unload@.map_values(|w: &str| w@) == seq!["launchctl"@, "unload"@, PLIST_PATH@]);
    let load: [&str; 3] = ["launchctl", "load", PLIST_PATH];
    add_sudo(plan, load.as_slice());
    assert(load@.map_values(|w: &str| w@) == seq!["launchctl"@, "load"@, PLIST_PATH@]);
    add_print(plan, "done\n");
    add_print(plan, "\nSetup complete. You may need to log out/in for group membership.\n");
    assert(action_views(plan@) == start + daemon_plan());
}

/// Plan what to do once it is known whether the group has a number.
pub fn plan_access(has_gid: bool, user: &str) -> (plan: Vec<Action>)
    ensures
        action_views(plan@) == gid_plan(has_gid) + access_plan(user@) + daemon_plan(),
{
    let mut plan: Vec<Action> = Vec::new();
    assert(action_views(plan@) == Seq::<ActionView>::empty());
    add_gid(&mut plan, has_gid);
    add_access(&mut plan, user);
    add_daemon(&mut plan);
    assert(action_views(plan@) == gid_plan(has_gid) + access_plan(user@) + daemon_plan());
    plan
}

// -- Linux -------------------------------------------------------------------------------------

/// What is printed first.
pub const LINUX_INTRO: &'static str =
    "plcmon setup (Linux)\n====================\nGrants CAP_NET_RAW on the plcmon binary so it can capture without root.\nRequires sudo.\n\n";

/// The steps that let the binary `exe` capture.
pub open spec fn linux_plan(exe: Seq<char>) -> Seq<ActionView> {
    seq![
        ActionView::Print(LINUX_INTRO@),
        ActionView::Print("Setting cap_net_raw on "@ + exe + "... "@),
        ActionView::Sudo(seq!["setcap"@, "cap_net_raw+ep"@, exe]),
        ActionView::Print("done\n"@),
    ]
}

/// Plan the setup of the binary `exe`.
pub fn plan_linux(exe: &str) -> (plan: Vec<Action>)
    ensures
        action_views(plan@) == linux_plan(exe@),
{
    let mut plan: Vec<Action> = Vec::new();
    add_print(&mut plan, LINUX_INTRO);
    let mut text = String::from_str("Setting cap_net_raw on ");
    text.append(exe);
    text.append("... ");
    add_print(&mut plan, text.as_str());
    let set: [&str; 3] = ["setcap", "cap_net_raw+ep", exe];
    add_sudo(&mut plan, set.as_slice());
    assert(set@.map_values(|w: &str| w@) == seq!["setcap"@, "cap_net_raw+ep"@, exe@]);
    add_print(&mut plan, "done\n");
    assert(action_views(plan@) == linux_plan(exe@));
    plan
}

/// What is said once the binary's capabilities were read back; nothing where they
/// could not be.
pub fn verification_note(capabilities: Option<&str>) -> (r: Option<&'static str>)
    ensures
        match (capabilities, r) {
            (Some(text), Some(note)) => note@ == if has_text(text@, "cap_net_raw"@) {
                "\nSetup complete. plcmon can now capture without root.\n"@
            } else {
                "\nWarning: capability may not have been set. You may need to run as root.\n"@
            },
            (None, None) => true,
            _ => false,
        },
{
    match capabilities {
        Some(text) => if contains(text, "cap_net_raw") {
            Some("\nSetup complete. plcmon can now capture without root.\n")
        } else {
            Some("\nWarning: capability may not have been set. You may need to run as root.\n")
        },
        None => None,
    }
}

// -- Laws ------------------------------------------------------------------------------------

/// The group is created exactly if it does not exist.
pub proof fn law_group_is_created_once(exists_already: bool)
    ensures
        group_plan(exists_already).contains(
            ActionView::Sudo(seq!["dseditgroup"@, "-o"@, "create"@, "access_bpf"@]),
        ) <==> !exists_already,
        group_plan(exists_already).last() == ActionView::Print(
            if exists_already {
                "already exists\n"@
            } else {
                "done\n"@
            },
        ),
{
    if !exists_already {
        assert(group_plan(exists_already)[0] == ActionView::Sudo(
            seq!["dseditgroup"@, "-o"@, "create"@, "access_bpf"@],
        ));
    } else {
        assert(group_plan(exists_already).len() == 1);
    }
}

/// The group gets a number exactly if it has none.
pub proof fn law_group_is_numbered_once(has_gid: bool)
    ensures
        gid_plan(has_gid).contains(
            ActionView::Sudo(
                seq![
                    "dscl"@,
                    "."@,
                    "-create"@,
                    "/Groups/access_bpf"@,
                    "PrimaryGroupID"@,
                    "710"@,
                ],
            ),
        ) <==> !has_gid,
        has_gid ==> gid_plan(has_gid).len() == 0,
{
    if !has_gid {
        assert(gid_plan(has_gid)[1] == ActionView::Sudo(
            seq![
                "dscl"@,
                "."@,
                "-create"@,
                "/Groups/access_bpf"@,
                "PrimaryGroupID"@,
                "710"@,
            ],
        ));
    }
}

/// Access is given to the user that is named, then to the devices, and then the daemon
/// is installed: written, copied, owned by root, readable, loaded anew.
pub proof fn law_access_is_given(user: Seq<char>, has_gid: bool)
    ensures
        access_plan(user).len() == 6,
        access_plan(user)[1] == ActionView::Sudo(
            seq!["dseditgroup"@, "-o"@, "edit"@, "-a"@, user, "-t"@, "user"@, "access_bpf"@],
        ),
        access_plan(user)[4] == ActionView::Sudo(
            seq!["sh"@, "-c"@, "chgrp access_bpf /dev/bpf* && chmod g+rw /dev/bpf*"@],
        ),
        access_plan(user)[0] == ActionView::Print("Adding '"@ + user + "' to 'access_bpf'... "@),
        daemon_plan().len() == 11,
        daemon_plan()[1] == (ActionView::WriteFile {
            path: "/tmp/dev.plcmon.ChmodBPF.plist"@,
            text: PLIST@,
        }),
        ({
            let path = "/Library/LaunchDaemons/dev.plcmon.ChmodBPF.plist"@;
            &&& daemon_plan()[2] == ActionView::Sudo(
                seq!["cp"@, "/tmp/dev.plcmon.ChmodBPF.plist"@, path],
            )
            &&& daemon_plan()[3] == ActionView::Sudo(seq!["chown"@, "root:wheel"@, path])
            &&& daemon_plan()[4] == ActionView::Sudo(seq!["chmod"@, "644"@, path])
            &&& daemon_plan()[7] == ActionView::SudoQuietly(seq!["launchctl"@, "unload"@, path])
            &&& daemon_plan()[8] == ActionView::Sudo(seq!["launchctl"@, "load"@, path])
        }),
{
}

/// On Linux the one command gives the capability to the binary that is named.
pub proof fn law_capability_is_given(exe: Seq<char>, i: int)
    ensures
        linux_plan(exe)[2] == ActionView::Sudo(seq!["setcap"@, "cap_net_raw+ep"@, exe]),
        linux_plan(exe)[1] == ActionView::Print("Setting cap_net_raw on "@ + exe + "... "@),
        0 <= i < linux_plan(exe).len() && i != 2 ==> linux_plan(exe)[i] is Print,
{
}

}

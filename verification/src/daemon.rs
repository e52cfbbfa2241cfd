//! What the background service needs computed: where its PID and log files
//! live, the arguments a detached copy of the program gets, and the
//! command line and service files that start it when the user logs in.

use vstd::prelude::*;

use crate::config::default_listen_addr;
use crate::net::http::{opt_string_view, strings_view};
use crate::util::paths::{edl_config_dir, join, join_path};
use crate::util::text::{chars_eq_str, chars_of, push_str_chars, string_of, trim, trim_seq};

verus! {

/// The directory for the PID and log files, given the program's
/// configuration directory: that directory, else the current one.
pub open spec fn data_dir_from(config_dir: Option<Seq<char>>) -> Seq<char> {
    match config_dir {
        Some(d) => d,
        None => "."@,
    }
}

/// The directory for the PID and log files (`~/.config/edl` on Linux).
pub fn data_dir() -> (r: String)
    ensures
        exists|d: Option<Seq<char>>| r@ == data_dir_from(d),
{
    let dir = edl_config_dir();
    let ghost dv = opt_string_view(dir);
    let r = data_dir_in(dir);
    assert(r@ == data_dir_from(dv));
    r
}

/// The directory for the PID and log files, given the program's
/// configuration directory if the platform has one.
pub fn data_dir_in(dir: Option<String>) -> (r: String)
    ensures
        r@ == data_dir_from(opt_string_view(dir)),
{
    match dir {
        Some(d) => d,
        None => string_of(chars_of(".").as_slice()),
    }
}

/// Path of the file holding the PID of the background service.
pub fn pid_path() -> (r: String)
    ensures
        exists|d: Option<Seq<char>>| r@ == join_path(data_dir_from(d), "edl.pid"@),
{
    let dir = edl_config_dir();
    let ghost dv = opt_string_view(dir);
    let r = pid_path_in(dir);
    assert(r@ == join_path(data_dir_from(dv), "edl.pid"@));
    r
}

/// Path of the PID file, given the program's configuration directory if
/// the platform has one.
pub fn pid_path_in(dir: Option<String>) -> (r: String)
    ensures
        r@ == join_path(data_dir_from(opt_string_view(dir)), "edl.pid"@),
{
    let d = data_dir_in(dir);
    join(d.as_str(), "edl.pid")
}

/// Path of the background service's log file.
pub fn log_path() -> (r: String)
    ensures
        exists|d: Option<Seq<char>>| r@ == join_path(data_dir_from(d), "edl.log"@),
{
    let dir = edl_config_dir();
    let ghost dv = opt_string_view(dir);
    let r = log_path_in(dir);
    assert(r@ == join_path(data_dir_from(dv), "edl.log"@));
    r
}

/// Path of the log file, given the program's configuration directory if
/// the platform has one.
pub fn log_path_in(dir: Option<String>) -> (r: String)
    ensures
        r@ == join_path(data_dir_from(opt_string_view(dir)), "edl.log"@),
{
    let d = data_dir_in(dir);
    join(d.as_str(), "edl.log")
}

/// The process id as a PID file holds it: its text without surrounding
/// whitespace.
pub fn pid_from_file(content: &str) -> (r: String)
    ensures
        r@ == trim_seq(content@),
{
    let cs = chars_of(content);
    let t = trim(cs.as_slice());
    string_of(t.as_slice())
}

/// A command-line argument that asks for running in the background.
pub open spec fn is_daemon_flag(a: Seq<char>) -> bool {
    a == "--daemon"@ || a == "-D"@
}

/// The arguments without those that ask for running in the background.
pub open spec fn without_daemon_flags(args: Seq<Seq<char>>) -> Seq<Seq<char>>
    decreases args.len(),
{
    if args.len() == 0 {
        Seq::empty()
    } else if is_daemon_flag(args.last()) {
        without_daemon_flags(args.drop_last())
    } else {
        without_daemon_flags(args.drop_last()).push(args.last())
    }
}

/// The arguments the background copy of the program is started with: the
/// program's own arguments (after its name) without `--daemon` and `-D`.
pub fn daemon_child_args(args: &[String]) -> (r: Vec<String>)
    ensures
        strings_view(r@) == without_daemon_flags(strings_view(args@)),
{
    let mut r: Vec<String> = Vec::new();
    let mut i: usize = 0;
    while i < args.len()
        invariant
            i <= args@.len(),
            strings_view(r@) == without_daemon_flags(strings_view(args@.take(i as int))),
        decreases args@.len() - i,
    {
        let a = chars_of(args[i].as_str());
        let flag = chars_eq_str(a.as_slice(), "--daemon") || chars_eq_str(a.as_slice(), "-D");
        proof {
            let p = strings_view(args@.take(i + 1));
            assert(p.drop_last() =~= strings_view(args@.take(i as int)));
            assert(p.last() == args@[i as int]@);
        }
        if !flag {
            let ghost before = r@;
            r.push(string_of(a.as_slice()));
            assert(strings_view(r@) =~= strings_view(before).push(args@[i as int]@));
        }
        i = i + 1;
    }
    assert(args@.take(i as int) =~= args@);
    r
}

/// The command that starts the RPC service at login: the quoted program
/// path and `rpc`, then `-D` where the service must detach itself, then the
/// listen address unless it is the default one, then the secret if any.
pub open spec fn service_command_text(
    exe: Seq<char>,
    listen: Seq<char>,
    secret: Option<Seq<char>>,
    detached: bool,
) -> Seq<char> {
    "\""@ + exe + "\" rpc"@ + (if detached {
        " -D"@
    } else {
        Seq::empty()
    }) + (if listen != default_listen_addr() {
        " --listen "@ + listen
    } else {
        Seq::empty()
    }) + match secret {
        Some(s) => " --secret "@ + s,
        None => Seq::empty(),
    }
}

/// The command line of the login service for `edl rpc`.
pub fn service_command(exe: &str, listen: &str, secret: Option<&str>, detached: bool) -> (r: String)
    ensures
        r@ == service_command_text(exe@, listen@, crate::util::text::opt_str_view(secret), detached),
{
    let mut v: Vec<char> = Vec::new();
    push_str_chars(&mut v, "\"");
    push_str_chars(&mut v, exe);
    push_str_chars(&mut v, "\" rpc");
    let ghost head = v@;
    if detached {
        push_str_chars(&mut v, " -D");
    }
    let ghost with_flag = v@;
    let lc = chars_of(listen);
    let is_default = chars_eq_str(lc.as_slice(), "127.0.0.1:6800");
    if !is_default {
        push_str_chars(&mut v, " --listen ");
        push_str_chars(&mut v, listen);
    }
    let ghost with_listen = v@;
    match secret {
        Some(s) => {
            push_str_chars(&mut v, " --secret ");
            push_str_chars(&mut v, s);
        },
        None => {},
    }
    assert(v@ =~= service_command_text(exe@, listen@, crate::util::text::opt_str_view(secret), detached));
    string_of(v.as_slice())
}

/// The systemd user unit that runs `command`.
pub open spec fn systemd_unit_text(command: Seq<char>) -> Seq<char> {
    "[Unit]\nDescription=ExquisiteDownload RPC Service\nAfter=network.target\n\n[Service]\nExecStart="@
        + command + "\nRestart=on-failure\nRestartSec=5\n\n[Install]\nWantedBy=default.target\n"@
}

/// The contents of the systemd user unit `edl.service`.
pub fn systemd_unit(command: &str) -> (r: String)
    ensures
        r@ == systemd_unit_text(command@),
{
    let mut v: Vec<char> = Vec::new();
    push_str_chars(
        &mut v,
        "[Unit]\nDescription=ExquisiteDownload RPC Service\nAfter=network.target\n\n[Service]\nExecStart=",
    );
    push_str_chars(&mut v, command);
    push_str_chars(&mut v, "\nRestart=on-failure\nRestartSec=5\n\n[Install]\nWantedBy=default.target\n");
    assert(v@ =~= systemd_unit_text(command@));
    string_of(v.as_slice())
}

/// The launchd property list that starts `exe rpc` at login, with the
/// listen address unless it is the default one, and the secret if any.
pub open spec fn launchd_plist_text(exe: Seq<char>, listen: Seq<char>, secret: Option<Seq<char>>) -> Seq<
    char,
> {
    "<?xml version=\"1.0\" encoding=\"UTF-8\"?>\n<!DOCTYPE plist PUBLIC \"-//Apple//DTD PLIST 1.0//EN\" \"http://www.apple.com/DTDs/PropertyList-1.0.dtd\">\n<plist version=\"1.0\">\n<dict>\n\t<key>Label</key><string>com.edl.rpc</string>\n\t<key>ProgramArguments</key>\n\t<array>\n\t\t<string>"@
        + exe + "</string>\n\t\t<string>rpc</string>\n"@ + (if listen != default_listen_addr() {
        "\t\t<string>--listen</string>\n\t\t<string>"@ + listen + "</string>\n"@
    } else {
        Seq::empty()
    }) + match secret {
        Some(s) => "\t\t<string>--secret</string>\n\t\t<string>"@ + s + "</string>\n"@,
        None => Seq::empty(),
    } + "\t</array>\n\t<key>RunAtLoad</key><true/>\n\t<key>KeepAlive</key><true/>\n</dict>\n</plist>\n"@
}

/// The contents of the launch agent `com.edl.rpc.plist`.
pub fn launchd_plist(exe: &str, listen: &str, secret: Option<&str>) -> (r: String)
    ensures
        r@ == launchd_plist_text(exe@, listen@, crate::util::text::opt_str_view(secret)),
{
    let mut v: Vec<char> = Vec::new();
    push_str_chars(
        &mut v,
        "<?xml version=\"1.0\" encoding=\"UTF-8\"?>\n<!DOCTYPE plist PUBLIC \"-//Apple//DTD PLIST 1.0//EN\" \"http://www.apple.com/DTDs/PropertyList-1.0.dtd\">\n<plist version=\"1.0\">\n<dict>\n\t<key>Label</key><string>com.edl.rpc</string>\n\t<key>ProgramArguments</key>\n\t<array>\n\t\t<string>",
    );
    push_str_chars(&mut v, exe);
    push_str_chars(&mut v, "</string>\n\t\t<string>rpc</string>\n");
    let lc = chars_of(listen);
    let is_default = chars_eq_str(lc.as_slice(), "127.0.0.1:6800");
    if !is_default {
        push_str_chars(&mut v, "\t\t<string>--listen</string>\n\t\t<string>");
        push_str_chars(&mut v, listen);
        push_str_chars(&mut v, "</string>\n");
    }
    match secret {
        Some(s) => {
            push_str_chars(&mut v, "\t\t<string>--secret</string>\n\t\t<string>");
            push_str_chars(&mut v, s);
            push_str_chars(&mut v, "</string>\n");
        },
        None => {},
    }
    push_str_chars(
        &mut v,
        "\t</array>\n\t<key>RunAtLoad</key><true/>\n\t<key>KeepAlive</key><true/>\n</dict>\n</plist>\n",
    );
    assert(v@ =~= launchd_plist_text(exe@, listen@, crate::util::text::opt_str_view(secret)));
    string_of(v.as_slice())
}

} // verus!

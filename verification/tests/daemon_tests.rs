use edl::daemon::{data_dir_in, log_path_in, pid_path_in};
use edl::cli::{DownloadArgs, RpcArgs, RpcMode};
use edl::daemon::{daemon_child_args, launchd_plist, log_path, pid_from_file, pid_path, service_command, systemd_unit};

#[test]
fn pid_and_log_paths() {
    assert!(pid_path().ends_with("/edl.pid") || pid_path() == "./edl.pid");
    assert!(log_path().ends_with("edl.log"));
    assert_eq!(pid_from_file(" 1234\n"), "1234");
}

#[test]
fn child_arguments_drop_daemon_flags() {
    let args: Vec<String> = ["rpc", "--daemon", "--listen", "0.0.0.0:1", "-D", "--secret", "s"]
        .iter()
        .map(|s| s.to_string())
        .collect();
    assert_eq!(daemon_child_args(&args), vec!["rpc", "--listen", "0.0.0.0:1", "--secret", "s"]);
}

#[test]
fn service_command_lines() {
    assert_eq!(service_command("/usr/bin/edl", "127.0.0.1:6800", None, false), "\"/usr/bin/edl\" rpc");
    assert_eq!(
        service_command("C:\\edl.exe", "0.0.0.0:7000", Some("k"), true),
        "\"C:\\edl.exe\" rpc -D --listen 0.0.0.0:7000 --secret k"
    );
}

#[test]
fn systemd_unit_text() {
    let unit = systemd_unit("\"/bin/edl\" rpc");
    assert_eq!(
        unit,
        "[Unit]\nDescription=ExquisiteDownload RPC Service\nAfter=network.target\n\n[Service]\nExecStart=\"/bin/edl\" rpc\nRestart=on-failure\nRestartSec=5\n\n[Install]\nWantedBy=default.target\n"
    );
}

#[test]
fn launchd_plist_text() {
    let plain = launchd_plist("/bin/edl", "127.0.0.1:6800", None);
    assert!(plain.contains("\t\t<string>/bin/edl</string>\n\t\t<string>rpc</string>\n\t</array>\n"));
    let full = launchd_plist("/bin/edl", "0.0.0.0:1", Some("s"));
    assert!(full.contains("\t\t<string>--listen</string>\n\t\t<string>0.0.0.0:1</string>\n\t\t<string>--secret</string>\n\t\t<string>s</string>\n\t</array>"));
    assert!(full.starts_with("<?xml version=\"1.0\" encoding=\"UTF-8\"?>\n<!DOCTYPE plist PUBLIC \"-//Apple//DTD PLIST 1.0//EN\" \"http://www.apple.com/DTDs/PropertyList-1.0.dtd\">\n"));
}

#[test]
fn rpc_flag_precedence() {
    let mut a = RpcArgs {
        listen: "127.0.0.1:6800".into(),
        secret: None,
        daemon: true,
        stop: false,
        install: true,
        uninstall: false,
    };
    assert_eq!(a.mode(), RpcMode::Install);
    a.install = false;
    assert_eq!(a.mode(), RpcMode::Daemonize);
    a.daemon = false;
    assert_eq!(a.mode(), RpcMode::Serve);
    a.stop = true;
    assert_eq!(a.mode(), RpcMode::Stop);
}

#[test]
fn download_arguments_become_options() {
    let args = DownloadArgs {
        url: "http://x".into(),
        out: Some("o".into()),
        dir: None,
        split: None,
        max_connections: Some(3),
        limit_speed: None,
        checksum: None,
        header: vec!["A: b".into()],
        cookie: None,
        proxy: None,
        on_complete: None,
    };
    let o = args.options(8);
    assert_eq!(o.url, "http://x");
    assert_eq!(o.split, 8);
    assert_eq!(o.max_connections, 3);
    assert_eq!(o.output.as_deref(), Some("o"));
    assert_eq!(o.extra_headers, vec!["A: b".to_string()]);
}

#[test]
fn paths_from_a_given_directory() {
    assert_eq!(data_dir_in(Some("/home/u/.config/edl".into())), "/home/u/.config/edl");
    assert_eq!(data_dir_in(None), ".");
    assert_eq!(pid_path_in(Some("/home/u/.config/edl".into())), "/home/u/.config/edl/edl.pid");
    assert_eq!(pid_path_in(None), "./edl.pid");
    assert_eq!(log_path_in(Some("/d/".into())), "/d/edl.log");
}

//! The command line of the program, as plain data, and what its arguments
//! ask for.

use vstd::prelude::*;

use crate::download_core::engine::DownloadOptions;
use crate::net::http::{opt_string_view, strings_view};
use crate::util::text::{clone_opt_string, clone_strings};

verus! {

/// ExquisiteDownload - A high-performance download manager
#[derive(Debug)]
pub struct Cli {
    pub command: Commands,
}

#[derive(Debug)]
pub enum Commands {
    /// Download a file from URL
    Download(DownloadArgs),
    /// Start JSON-RPC server daemon
    Rpc(RpcArgs),
    /// Show download status (connects to RPC server)
    Status,
    /// Pause a download task
    Pause { task_id: String },
    /// Resume a paused download task
    Resume { task_id: String },
    /// Remove a download task
    Remove { task_id: String },
}

#[derive(Debug)]
pub struct DownloadArgs {
    /// URL to download
    pub url: String,
    /// Output file name
    pub out: Option<String>,
    /// Download directory
    pub dir: Option<String>,
    /// Number of segments (default: from config, usually 8)
    pub split: Option<u8>,
    /// Max connections per task (default: from config, usually 8)
    pub max_connections: Option<u8>,
    /// Speed limit (e.g., 1M, 500K)
    pub limit_speed: Option<String>,
    /// Verify checksum after download (e.g., sha256=abcdef..., md5=..., sha1=...)
    pub checksum: Option<String>,
    /// Custom HTTP header (can be used multiple times)
    pub header: Vec<String>,
    /// Cookie string (shorthand for --header "Cookie: ...")
    pub cookie: Option<String>,
    /// HTTP/HTTPS/SOCKS5 proxy (e.g., http://127.0.0.1:7890, socks5://...)
    pub proxy: Option<String>,
    /// Command to run after download completes (supports {file}, {size}, {id})
    pub on_complete: Option<String>,
}

#[derive(Debug)]
pub struct RpcArgs {
    /// Listen address
    pub listen: String,
    /// RPC secret token
    pub secret: Option<String>,
    /// Run as background daemon
    pub daemon: bool,
    /// Stop running daemon
    pub stop: bool,
    /// Register as auto-start service (on login)
    pub install: bool,
    /// Unregister auto-start service
    pub uninstall: bool,
}

impl DownloadArgs {
    /// The options of the download these arguments ask for: the number of
    /// segments and of connections default to the configured connections
    /// per task.
    pub fn options(&self, default_connections: u8) -> (o: DownloadOptions)
        ensures
            o.url@ == self.url@,
            opt_string_view(o.output) == opt_string_view(self.out),
            opt_string_view(o.dir) == opt_string_view(self.dir),
            o.split == match self.split {
                Some(s) => s,
                None => default_connections,
            },
            o.max_connections == match self.max_connections {
                Some(m) => m,
                None => default_connections,
            },
            strings_view(o.extra_headers@) == strings_view(self.header@),
            opt_string_view(o.extra_cookie) == opt_string_view(self.cookie),
    {
        DownloadOptions {
            url: crate::util::text::string_of(crate::util::text::chars_of(self.url.as_str()).as_slice()),
            output: clone_opt_string(&self.out),
            dir: clone_opt_string(&self.dir),
            split: match self.split {
                Some(s) => s,
                None => default_connections,
            },
            max_connections: match self.max_connections {
                Some(m) => m,
                None => default_connections,
            },
            extra_headers: clone_strings(&self.header),
            extra_cookie: clone_opt_string(&self.cookie),
        }
    }
}

/// What `edl rpc` does with its flags.
#[derive(Debug, Clone, Copy, PartialEq, Eq, Structural)]
pub enum RpcMode {
    /// Stop the running background service.
    Stop,
    /// Register the service to start at login.
    Install,
    /// Unregister it.
    Uninstall,
    /// Start a copy of the program in the background.
    Daemonize,
    /// Run the server here.
    Serve,
}

impl RpcArgs {
    /// The flags in order of precedence: `--stop`, `--install`,
    /// `--uninstall`, `--daemon`; with none of them the server runs.
    pub fn mode(&self) -> (m: RpcMode)
        ensures
            m == if self.stop {
                RpcMode::Stop
            } else if self.install {
                RpcMode::Install
            } else if self.uninstall {
                RpcMode::Uninstall
            } else if self.daemon {
                RpcMode::Daemonize
            } else {
                RpcMode::Serve
            },
    {
        if self.stop {
            RpcMode::Stop
        } else if self.install {
            RpcMode::Install
        } else if self.uninstall {
            RpcMode::Uninstall
        } else if self.daemon {
            RpcMode::Daemonize
        } else {
            RpcMode::Serve
        }
    }
}

} // verus!

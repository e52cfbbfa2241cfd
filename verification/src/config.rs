//! Runtime configuration: defaults, merging of the settings read from the
//! configuration file, speed-limit strings, and hook command templates.

use vstd::prelude::*;

use crate::net::http::opt_string_view;
use crate::util::paths::{edl_config_dir, join, join_path, user_download_dir};
use crate::util::text::{
    all_digits, all_ws, lemma_trim_ignores_padding, lemma_trim_noop, push_str_chars, chars_of, decimal_seq, lemma_decimal_digits, lemma_parse_decimal_roundtrip, lemma_replace_absent,
    occurs_at, parse_u64, parse_u64_seq, replace_all, replace_all_chars, string_of, trim, trim_seq,
    u64_error, u64_error_kind, IntErrorKind,
};

verus! {

/// Multiplier that a speed-limit suffix stands for (`K`, `M`, `G`, either case).
pub open spec fn speed_suffix_multiplier(c: char) -> Option<nat> {
    if c == 'k' || c == 'K' {
        Some(1024)
    } else if c == 'm' || c == 'M' {
        Some(1024 * 1024)
    } else if c == 'g' || c == 'G' {
        Some(1024 * 1024 * 1024)
    } else {
        None
    }
}

/// The number part of a trimmed speed-limit string and its multiplier.
pub open spec fn speed_parts(t: Seq<char>) -> (Seq<char>, nat) {
    if t.len() > 0 && speed_suffix_multiplier(t.last()) is Some {
        (t.drop_last(), speed_suffix_multiplier(t.last())->0)
    } else {
        (t, 1)
    }
}

/// The bytes per second that a speed-limit string such as `"1M"`, `"500K"`
/// or `"1024"` denotes: surrounding whitespace is ignored, an empty string or
/// `"0"` means no limit (0), and otherwise the number before an optional
/// `K`/`M`/`G` suffix is multiplied by 1024, 1024² or 1024³. `None` when
/// the number part is not a valid `u64`.
pub open spec fn speed_limit_value(s: Seq<char>) -> Option<nat> {
    let t = trim_seq(s);
    if t.len() == 0 || t == seq!['0'] {
        Some(0)
    } else {
        match parse_u64_seq(speed_parts(t).0) {
            Some(n) => Some((n as nat) * speed_parts(t).1),
            None => None,
        }
    }
}

/// The value of the speed-limit string fits in a `u64` (or the string is
/// rejected anyway).
pub open spec fn speed_limit_fits(s: Seq<char>) -> bool {
    match speed_limit_value(s) {
        Some(v) => v <= u64::MAX,
        None => true,
    }
}

/// A speed-limit string whose number part is not a valid unsigned integer,
/// with the reason `u64::from_str` gives.
#[derive(Debug, Clone, Copy, PartialEq, Eq, Structural)]
pub struct SpeedLimitError {
    pub kind: IntErrorKind,
}

/// The error `parse_speed_limit` reports for `s`, if it refuses it.
pub open spec fn speed_error_of(s: Seq<char>) -> Option<SpeedLimitError> {
    if speed_limit_value(s) is Some {
        None
    } else {
        Some(SpeedLimitError { kind: u64_error_kind(speed_parts(trim_seq(s)).0) })
    }
}

/// The message of a refused speed limit, as `ParseIntError` displays it.
pub open spec fn speed_error_text(e: SpeedLimitError) -> Seq<char> {
    match e.kind {
        IntErrorKind::Empty => "cannot parse integer from empty string"@,
        IntErrorKind::InvalidDigit => "invalid digit found in string"@,
        IntErrorKind::PosOverflow => "number too large to fit in target type"@,
    }
}

impl SpeedLimitError {
    pub fn message(&self) -> (r: String)
        ensures
            r@ == speed_error_text(*self),
    {
        let text = match self.kind {
            IntErrorKind::Empty => "cannot parse integer from empty string",
            IntErrorKind::InvalidDigit => "invalid digit found in string",
            IntErrorKind::PosOverflow => "number too large to fit in target type",
        };
        string_of(chars_of(text).as_slice())
    }
}

fn suffix_multiplier(c: char) -> (r: Option<u64>)
    ensures
        r matches Some(m) ==> speed_suffix_multiplier(c) == Some(m as nat),
        r is None ==> speed_suffix_multiplier(c) is None,
{
    if c == 'k' || c == 'K' {
        Some(1024)
    } else if c == 'm' || c == 'M' {
        Some(1024 * 1024)
    } else if c == 'g' || c == 'G' {
        Some(1024 * 1024 * 1024)
    } else {
        None
    }
}

/// Splits a trimmed speed-limit string into its number part and multiplier.
fn split_speed(t: &Vec<char>) -> (r: (Vec<char>, u64))
    ensures
        r.0@ == speed_parts(t@).0,
        r.1 as nat == speed_parts(t@).1,
        r.1 >= 1,
{
    let n = t.len();
    if n > 0 {
        match suffix_multiplier(t[n - 1]) {
            Some(m) => {
                let mut num: Vec<char> = Vec::new();
                let mut i: usize = 0;
                while i < n - 1
                    invariant
                        n == t@.len(),
                        n > 0,
                        i <= n - 1,
                        num@ =~= t@.take(i as int),
                    decreases n - 1 - i,
                {
                    num.push(t[i]);
                    i = i + 1;
                }
                assert(num@ =~= t@.drop_last());
                return (num, m);
            },
            None => {},
        }
    }
    (t.clone(), 1)
}

fn is_single_zero(t: &Vec<char>) -> (r: bool)
    ensures
        r == (t@ == seq!['0']),
{
    if t.len() == 1 && t[0] == '0' {
        assert(t@ =~= seq!['0']);
        true
    } else {
        false
    }
}

/// Reads a speed limit such as `"1M"`, `"500K"` or `"1024"` as bytes per
/// second.
pub fn parse_speed_limit(s: &str) -> (r: Result<u64, SpeedLimitError>)
    requires
        speed_limit_fits(s@),
    ensures
        r is Ok <==> speed_limit_value(s@) is Some,
        r matches Ok(v) ==> speed_limit_value(s@) == Some(v as nat),
        r matches Err(e) ==> speed_error_of(s@) == Some(e),
{
    let chars = chars_of(s);
    let t = trim(chars.as_slice());
    if t.len() == 0 || is_single_zero(&t) {
        return Ok(0);
    }
    let (num, mult) = split_speed(&t);
    match parse_u64(num.as_slice()) {
        Some(n) => {
            assert(n * mult <= u64::MAX);
            Ok(n * mult)
        },
        None => Err(SpeedLimitError { kind: u64_error(num.as_slice()) }),
    }
}

/// Whether `parse_speed_limit` can be called on `s`: the value it denotes
/// fits in a `u64`.
pub fn speed_limit_in_range(s: &str) -> (r: bool)
    ensures
        r == speed_limit_fits(s@),
{
    let chars = chars_of(s);
    let t = trim(chars.as_slice());
    if t.len() == 0 || is_single_zero(&t) {
        return true;
    }
    let (num, mult) = split_speed(&t);
    match parse_u64(num.as_slice()) {
        Some(n) => {
            proof {
                assert(n <= u64::MAX / mult ==> n * mult <= u64::MAX) by (nonlinear_arith)
                    requires
                        mult >= 1,
                ;
                assert(n > u64::MAX / mult ==> n * mult > u64::MAX) by (nonlinear_arith)
                    requires
                        mult >= 1,
                ;
            }
            n <= u64::MAX / mult
        },
        None => true,
    }
}

/// A plain decimal number is read back as itself.
pub proof fn lemma_speed_limit_of_decimal(n: u64)
    ensures
        speed_limit_value(decimal_seq(n as nat)) == Some(n as nat),
{
    lemma_parse_decimal_roundtrip(n);
    let s = decimal_seq(n as nat);
    lemma_decimal_digits(n as nat);
    assert(crate::util::text::is_digit(s[s.len() - 1]));
    assert(speed_suffix_multiplier(s.last()) is None);
    assert(speed_parts(s) == (s, 1nat));
    if s =~= seq!['0'] {
        assert(crate::util::text::digits_value(seq!['0']) == 0) by {
            reveal_with_fuel(crate::util::text::digits_value, 2);
            assert(seq!['0'].drop_last() =~= Seq::<char>::empty());
        }
        assert(n == 0);
    } else {
        assert(s != seq!['0']);
        assert(parse_u64_seq(speed_parts(s).0) == Some(n));
        assert(speed_limit_value(s) == Some((n as nat) * 1));
    }
}

/// Runtime configuration.
#[derive(Debug, Clone)]
pub struct Config {
    pub max_concurrent_tasks: usize,
    pub max_connections_per_task: u8,
    pub download_dir: String,
    pub max_speed: Option<u64>,
    /// Address the RPC server listens on, as `host:port` text.
    pub rpc_listen_addr: String,
    pub rpc_secret: Option<String>,
    pub user_agent: String,
    pub timeout_secs: u64,
    pub retry_count: u32,
    pub max_redirects: u32,
    pub proxy: Option<String>,
    /// Command to run after download completes (supports {file}, {size}, {id})
    pub on_complete: Option<String>,
    /// Command to run when download starts (supports {file}, {id}, {url})
    pub on_start: Option<String>,
    /// Command to run when download is paused (supports {file}, {id})
    pub on_pause: Option<String>,
    /// Command to run when download fails (supports {file}, {id}, {error})
    pub on_error: Option<String>,
    /// Custom HTTP headers (e.g., ["Authorization: Bearer xxx"])
    pub headers: Vec<String>,
    /// Cookie string
    pub cookie: Option<String>,
}

/// The settings a configuration file may give; each one left out keeps its
/// default.
#[derive(Debug, Default)]
pub struct FileConfig {
    pub max_concurrent_tasks: Option<usize>,
    pub max_connections_per_task: Option<u8>,
    pub download_dir: Option<String>,
    /// Speed limit as human string like "1M", "500K"
    pub max_speed: Option<String>,
    pub rpc_listen_addr: Option<String>,
    pub rpc_secret: Option<String>,
    pub user_agent: Option<String>,
    pub timeout_secs: Option<u64>,
    pub retry_count: Option<u32>,
    pub max_redirects: Option<u32>,
    pub proxy: Option<String>,
    pub on_complete: Option<String>,
    pub on_start: Option<String>,
    pub on_pause: Option<String>,
    pub on_error: Option<String>,
    pub headers: Option<Vec<String>>,
    pub cookie: Option<String>,
}

/// The program's version, as it appears in the default user agent.
pub open spec fn version_text() -> Seq<char> {
    "0.1.0"@
}

/// The user agent sent when the configuration names none.
pub open spec fn default_user_agent() -> Seq<char> {
    "ExquisiteDownload/0.1.0"@
}

/// The address the RPC server listens on when the configuration names none.
pub open spec fn default_listen_addr() -> Seq<char> {
    "127.0.0.1:6800"@
}

/// The defaults, with every setting that has a default value.
pub open spec fn is_default_config(c: Config) -> bool {
    &&& c.max_concurrent_tasks == 5
    &&& c.max_connections_per_task == 8
    &&& c.max_speed is None
    &&& c.rpc_listen_addr@ == default_listen_addr()
    &&& c.rpc_secret is None
    &&& c.user_agent@ == default_user_agent()
    &&& c.timeout_secs == 30
    &&& c.retry_count == 3
    &&& c.max_redirects == 10
    &&& c.proxy is None
    &&& c.on_complete is None
    &&& c.on_start is None
    &&& c.on_pause is None
    &&& c.on_error is None
    &&& c.headers@.len() == 0
    &&& c.cookie is None
}

impl Config {
    /// The default configuration, downloading into `download_dir` when one is
    /// known and into the current directory otherwise.
    pub fn with_download_dir(download_dir: Option<String>) -> (c: Self)
        ensures
            is_default_config(c),
            c.download_dir@ == match download_dir {
                Some(d) => d@,
                None => "."@,
            },
    {
        let dir = match download_dir {
            Some(d) => d,
            None => string_of(chars_of(".").as_slice()),
        };
        Config {
            max_concurrent_tasks: 5,
            max_connections_per_task: 8,
            download_dir: dir,
            max_speed: None,
            rpc_listen_addr: string_of(chars_of("127.0.0.1:6800").as_slice()),
            rpc_secret: None,
            user_agent: string_of(chars_of("ExquisiteDownload/0.1.0").as_slice()),
            timeout_secs: 30,
            retry_count: 3,
            max_redirects: 10,
            proxy: None,
            on_complete: None,
            on_start: None,
            on_pause: None,
            on_error: None,
            headers: Vec::new(),
            cookie: None,
        }
    }
}

impl Default for Config {
    /// The defaults, downloading into the user's download directory when the
    /// platform knows one.
    fn default() -> (c: Self)
        ensures
            is_default_config(c),
    {
        Config::with_download_dir(user_download_dir())
    }
}

/// The speed limit a configuration file gives can be read without overflow.
pub open spec fn file_speed_fits(f: FileConfig) -> bool {
    match f.max_speed {
        Some(s) => speed_limit_fits(s@),
        None => true,
    }
}

/// The value a file gives, else the current one.
pub open spec fn given_or<T>(given: Option<T>, current: T) -> T {
    match given {
        Some(v) => v,
        None => current,
    }
}

/// An optional setting a file gives, else the current one.
pub open spec fn given_or_opt<T>(given: Option<T>, current: Option<T>) -> Option<T> {
    match given {
        Some(v) => Some(v),
        None => current,
    }
}

fn take_given<T>(given: Option<T>, current: T) -> (r: T)
    ensures
        r == given_or(given, current),
{
    match given {
        Some(v) => v,
        None => current,
    }
}

fn take_given_opt<T>(given: Option<T>, current: Option<T>) -> (r: Option<T>)
    ensures
        r == given_or_opt(given, current),
{
    match given {
        Some(v) => Some(v),
        None => current,
    }
}

/// The settings of `f` laid over `c`, the speed limit read as a number.
pub open spec fn merged_config(c: Config, f: FileConfig, r: Config) -> bool {
    &&& r.max_concurrent_tasks == given_or(f.max_concurrent_tasks, c.max_concurrent_tasks)
    &&& r.max_connections_per_task == given_or(f.max_connections_per_task, c.max_connections_per_task)
    &&& r.download_dir == given_or(f.download_dir, c.download_dir)
    &&& r.max_speed == (match f.max_speed {
        Some(s) => Some(speed_limit_value(s@)->0 as u64),
        None => c.max_speed,
    })
    &&& r.rpc_listen_addr == given_or(f.rpc_listen_addr, c.rpc_listen_addr)
    &&& r.rpc_secret == given_or_opt(f.rpc_secret, c.rpc_secret)
    &&& r.user_agent == given_or(f.user_agent, c.user_agent)
    &&& r.timeout_secs == given_or(f.timeout_secs, c.timeout_secs)
    &&& r.retry_count == given_or(f.retry_count, c.retry_count)
    &&& r.max_redirects == given_or(f.max_redirects, c.max_redirects)
    &&& r.proxy == given_or_opt(f.proxy, c.proxy)
    &&& r.on_complete == given_or_opt(f.on_complete, c.on_complete)
    &&& r.on_start == given_or_opt(f.on_start, c.on_start)
    &&& r.on_pause == given_or_opt(f.on_pause, c.on_pause)
    &&& r.on_error == given_or_opt(f.on_error, c.on_error)
    &&& r.headers == given_or(f.headers, c.headers)
    &&& r.cookie == given_or_opt(f.cookie, c.cookie)
}

/// Whether `str::parse::<SocketAddr>` accepts the text: an IPv4 address or
/// a bracketed IPv6 address, a colon and a port.
pub uninterp spec fn is_socket_addr(s: Seq<char>) -> bool;

/// `s.parse::<core::net::SocketAddr>().is_ok()`. Only that the answer is a
/// function of the text is stated; the address grammar is not written out.
#[verifier::external_body]
fn socket_addr_ok(s: &str) -> (b: bool)
    ensures
        b == is_socket_addr(s@),
{
    s.parse::<core::net::SocketAddr>().is_ok()
}

/// Why the settings of a configuration file cannot be used.
#[derive(Debug)]
pub enum ConfigError {
    /// The speed limit is not a number with an optional `K`/`M`/`G`.
    InvalidSpeed(SpeedLimitError),
    /// The RPC listen address is not a socket address.
    InvalidListenAddr(String),
}

/// The message a configuration error is reported with.
pub open spec fn config_error_text(e: ConfigError) -> Seq<char> {
    match e {
        ConfigError::InvalidSpeed(k) => speed_error_text(k),
        ConfigError::InvalidListenAddr(a) => "invalid rpc_listen_addr: "@ + a@,
    }
}

impl ConfigError {
    pub fn message(&self) -> (r: String)
        ensures
            r@ == config_error_text(*self),
    {
        match self {
            ConfigError::InvalidSpeed(k) => k.message(),
            ConfigError::InvalidListenAddr(a) => {
                let mut v: Vec<char> = Vec::new();
                push_str_chars(&mut v, "invalid rpc_listen_addr: ");
                push_str_chars(&mut v, a.as_str());
                string_of(v.as_slice())
            },
        }
    }
}

/// The file's speed limit, if it gives one, reads as a number.
pub open spec fn file_speed_ok(f: FileConfig) -> bool {
    match f.max_speed {
        Some(s) => speed_limit_value(s@) is Some,
        None => true,
    }
}

/// The file's listen address, if it gives one, is a socket address.
pub open spec fn file_addr_ok(f: FileConfig) -> bool {
    match f.rpc_listen_addr {
        Some(a) => is_socket_addr(a@),
        None => true,
    }
}

/// Lays the settings read from a configuration file over `config`. Fails
/// when the file's speed limit is not a number with an optional `K`/`M`/`G`,
/// and then when its listen address is not a socket address.
pub fn apply_file_config(config: Config, file: FileConfig) -> (r: Result<Config, ConfigError>)
    requires
        file_speed_fits(file),
    ensures
        !file_speed_ok(file) ==> (r matches Err(ConfigError::InvalidSpeed(e)) && file.max_speed
            matches Some(s) && speed_error_of(s@) == Some(e)),
        file_speed_ok(file) && !file_addr_ok(file) ==> (r matches Err(
            ConfigError::InvalidListenAddr(a),
        ) && file.rpc_listen_addr matches Some(x) && a@ == x@),
        file_speed_ok(file) && file_addr_ok(file) ==> (r matches Ok(c) && merged_config(
            config,
            file,
            c,
        )),
{
    let max_speed = match &file.max_speed {
        Some(s) => match parse_speed_limit(s.as_str()) {
            Ok(v) => Some(v),
            Err(e) => return Err(ConfigError::InvalidSpeed(e)),
        },
        None => config.max_speed,
    };
    match &file.rpc_listen_addr {
        Some(a) => {
            if !socket_addr_ok(a.as_str()) {
                return Err(ConfigError::InvalidListenAddr(string_of(chars_of(a.as_str()).as_slice())));
            }
        },
        None => {},
    }
    let Config {
        max_concurrent_tasks,
        max_connections_per_task,
        download_dir,
        max_speed: _,
        rpc_listen_addr,
        rpc_secret,
        user_agent,
        timeout_secs,
        retry_count,
        max_redirects,
        proxy,
        on_complete,
        on_start,
        on_pause,
        on_error,
        headers,
        cookie,
    } = config;
    Ok(
        Config {
            max_concurrent_tasks: take_given(file.max_concurrent_tasks, max_concurrent_tasks),
            max_connections_per_task: take_given(
                file.max_connections_per_task,
                max_connections_per_task,
            ),
            download_dir: take_given(file.download_dir, download_dir),
            max_speed,
            rpc_listen_addr: take_given(file.rpc_listen_addr, rpc_listen_addr),
            rpc_secret: take_given_opt(file.rpc_secret, rpc_secret),
            user_agent: take_given(file.user_agent, user_agent),
            timeout_secs: take_given(file.timeout_secs, timeout_secs),
            retry_count: take_given(file.retry_count, retry_count),
            max_redirects: take_given(file.max_redirects, max_redirects),
            proxy: take_given_opt(file.proxy, proxy),
            on_complete: take_given_opt(file.on_complete, on_complete),
            on_start: take_given_opt(file.on_start, on_start),
            on_pause: take_given_opt(file.on_pause, on_pause),
            on_error: take_given_opt(file.on_error, on_error),
            headers: take_given(file.headers, headers),
            cookie: take_given_opt(file.cookie, cookie),
        },
    )
}

/// Where the configuration file is, given the program's configuration
/// directory: `config.toml` there, else `edl.config.toml` in the current
/// directory.
pub open spec fn config_file_in(config_dir: Option<Seq<char>>) -> Seq<char> {
    match config_dir {
        Some(d) => join_path(d, "config.toml"@),
        None => "edl.config.toml"@,
    }
}

/// The path of the configuration file (`~/.config/edl/config.toml` on Linux).
pub fn config_path() -> (r: String)
    ensures
        exists|d: Option<Seq<char>>| r@ == config_file_in(d),
{
    let dir = edl_config_dir();
    let ghost dv = opt_string_view(dir);
    let r = config_path_in(dir);
    assert(r@ == config_file_in(dv));
    r
}

/// The path of the configuration file, given the program's configuration
/// directory if the platform has one.
pub fn config_path_in(dir: Option<String>) -> (r: String)
    ensures
        r@ == config_file_in(opt_string_view(dir)),
{
    match dir {
        Some(d) => join(d.as_str(), "config.toml"),
        None => string_of(chars_of("edl.config.toml").as_slice()),
    }
}

/// The placeholder a hook template writes for a variable: `{key}`.
pub open spec fn placeholder(key: Seq<char>) -> Seq<char> {
    "{"@ + key + "}"@
}

/// The hook variables as pairs of texts.
pub open spec fn vars_view(vars: Seq<(&str, &str)>) -> Seq<(Seq<char>, Seq<char>)> {
    vars.map_values(|p: (&str, &str)| (p.0@, p.1@))
}

/// A hook template with each variable's placeholder replaced by its value,
/// one variable after the other, in the order given.
pub open spec fn expand_vars(t: Seq<char>, vars: Seq<(Seq<char>, Seq<char>)>) -> Seq<char>
    decreases vars.len(),
{
    if vars.len() == 0 {
        t
    } else {
        expand_vars(replace_all(t, placeholder(vars[0].0), vars[0].1), vars.skip(1))
    }
}

/// The command a hook template stands for, given the values of its
/// placeholders, such as `[("file", "/path"), ("id", "abc")]`.
pub fn expand_hook(template: &str, vars: &[(&str, &str)]) -> (r: String)
    ensures
        r@ == expand_vars(template@, vars_view(vars@)),
{
    let ghost vv = vars_view(vars@);
    let mut cur = chars_of(template);
    let mut k: usize = 0;
    assert(vv.skip(0) =~= vv);
    while k < vars.len()
        invariant
            k <= vars@.len(),
            vv == vars_view(vars@),
            expand_vars(cur@, vv.skip(k as int)) == expand_vars(template@, vv),
        decreases vars@.len() - k,
    {
        let (key, val) = vars[k];
        let mut pat: Vec<char> = Vec::new();
        pat.push('{');
        let kc = chars_of(key);
        let mut j: usize = 0;
        while j < kc.len()
            invariant
                j <= kc@.len(),
                pat@ == seq!['{'] + kc@.take(j as int),
            decreases kc@.len() - j,
        {
            pat.push(kc[j]);
            j = j + 1;
            assert(kc@.take(j as int) =~= kc@.take(j - 1).push(kc@[j - 1]));
        }
        pat.push('}');
        proof {
            reveal_strlit("{");
            reveal_strlit("}");
            assert(kc@.take(j as int) =~= kc@);
            assert(pat@ =~= placeholder(key@));
            assert(vv.skip(k as int)[0] == (key@, val@));
            assert(vv.skip(k as int).skip(1) =~= vv.skip(k + 1));
        }
        let vc = chars_of(val);
        cur = replace_all_chars(cur.as_slice(), pat.as_slice(), vc.as_slice());
        k = k + 1;
    }
    assert(vv.skip(k as int) =~= Seq::<(Seq<char>, Seq<char>)>::empty());
    string_of(cur.as_slice())
}

/// Expanding a template that holds none of the variables' placeholders gives
/// the template back unchanged.
pub proof fn lemma_expand_without_placeholders(t: Seq<char>, vars: Seq<(Seq<char>, Seq<char>)>)
    requires
        forall|i: int, j: int| 0 <= i < vars.len() ==> !#[trigger] occurs_at(t, placeholder(vars[i].0), j),
    ensures
        expand_vars(t, vars) == t,
    decreases vars.len(),
{
    if vars.len() > 0 {
        assert forall|j: int| !occurs_at(t, placeholder(vars[0].0), j) by {
            assert(!occurs_at(t, placeholder(vars[0].0), j));
        }
        lemma_replace_absent(t, placeholder(vars[0].0), vars[0].1);
        let rest = vars.skip(1);
        assert forall|i: int, j: int| 0 <= i < rest.len() implies !#[trigger] occurs_at(
            t,
            placeholder(rest[i].0),
            j,
        ) by {
            assert(rest[i] == vars[i + 1]);
        }
        lemma_expand_without_placeholders(t, rest);
    }
}

/// The default configuration file up to the download directory it shows.
pub open spec fn default_config_head() -> Seq<char> {
    "# ExquisiteDownload (edl) 配置文件\n# 以 # 开头的行为注释，取消注释即可覆盖默认值\n\n# 最大同时下载任务数\n# max_concurrent_tasks = 5\n\n# 每个任务的最大连接数\n# max_connections_per_task = 8\n\n# 默认下载目录\n# download_dir = \""@
}

/// The default configuration file between the download directory and the
/// version in the user agent it shows.
pub open spec fn default_config_middle() -> Seq<char> {
    "\"\n\n# 全局限速（如 \"1M\", \"500K\", \"0\" 为不限速）\n# max_speed = \"0\"\n\n# RPC 服务器监听地址\n# rpc_listen_addr = \"127.0.0.1:6800\"\n\n# RPC 认证密钥（留空则不启用认证）\n# rpc_secret = \"your_secret_here\"\n\n# HTTP User-Agent\n# user_agent = \"ExquisiteDownload/"@
}

/// The default configuration file after the version.
pub open spec fn default_config_tail() -> Seq<char> {
    "\"\n\n# 连接超时时间（秒）\n# timeout_secs = 30\n\n# 失败重试次数\n# retry_count = 3\n\n# HTTP 最大重定向次数（0 = 禁止重定向）\n# max_redirects = 10\n\n# HTTP/HTTPS/SOCKS5 代理\n# proxy = \"http://127.0.0.1:7890\"\n\n# 下载完成后执行的命令\n# 支持占位符：{file} 文件路径, {size} 文件大小, {id} 任务ID\n# on_complete = \"notify-send '下载完成' '{file}'\"\n\n# 下载开始时执行的命令（支持 {file}, {id}, {url}）\n# on_start = \"echo '开始下载: {file}'\"\n\n# 下载暂停时执行的命令（支持 {file}, {id}）\n# on_pause = \"echo '已暂停: {file}'\"\n\n# 下载出错时执行的命令（支持 {file}, {id}, {error}）\n# on_error = \"echo '下载失败: {file} — {error}'\"\n\n# 自定义 HTTP 请求头（数组格式）\n# headers = [\"Authorization: Bearer xxx\", \"Referer: https://example.com\"]\n\n# Cookie 字符串\n# cookie = \"sid=abc; token=xyz\"\n"@
}

/// The commented default configuration file written on first run, showing
/// `download_dir` (with each backslash doubled, as TOML strings need) as
/// the default download directory.
pub open spec fn default_config_for(download_dir: Seq<char>) -> Seq<char> {
    default_config_head() + replace_all(download_dir, seq!['\\'], seq!['\\', '\\'])
        + default_config_middle() + version_text() + default_config_tail()
}

/// The default configuration file for a given download directory.
pub fn default_config_text(download_dir: &str) -> (r: String)
    ensures
        r@ == default_config_for(download_dir@),
{
    let mut v: Vec<char> = Vec::new();
    push_str_chars(&mut v, "# ExquisiteDownload (edl) 配置文件\n# 以 # 开头的行为注释，取消注释即可覆盖默认值\n\n# 最大同时下载任务数\n# max_concurrent_tasks = 5\n\n# 每个任务的最大连接数\n# max_connections_per_task = 8\n\n# 默认下载目录\n# download_dir = \"");
    let dc = chars_of(download_dir);
    let mut bs: Vec<char> = Vec::new();
    bs.push('\\');
    let mut bs2: Vec<char> = Vec::new();
    bs2.push('\\');
    bs2.push('\\');
    assert(bs@ =~= seq!['\\']);
    assert(bs2@ =~= seq!['\\', '\\']);
    let escaped = replace_all_chars(dc.as_slice(), bs.as_slice(), bs2.as_slice());
    let ghost before = v@;
    let mut i: usize = 0;
    while i < escaped.len()
        invariant
            i <= escaped@.len(),
            v@ == before + escaped@.take(i as int),
        decreases escaped@.len() - i,
    {
        v.push(escaped[i]);
        i = i + 1;
        assert(escaped@.take(i as int) =~= escaped@.take(i - 1).push(escaped@[i - 1]));
    }
    assert(escaped@.take(i as int) =~= escaped@);
    push_str_chars(&mut v, "\"\n\n# 全局限速（如 \"1M\", \"500K\", \"0\" 为不限速）\n# max_speed = \"0\"\n\n# RPC 服务器监听地址\n# rpc_listen_addr = \"127.0.0.1:6800\"\n\n# RPC 认证密钥（留空则不启用认证）\n# rpc_secret = \"your_secret_here\"\n\n# HTTP User-Agent\n# user_agent = \"ExquisiteDownload/");
    push_str_chars(&mut v, "0.1.0");
    push_str_chars(&mut v, "\"\n\n# 连接超时时间（秒）\n# timeout_secs = 30\n\n# 失败重试次数\n# retry_count = 3\n\n# HTTP 最大重定向次数（0 = 禁止重定向）\n# max_redirects = 10\n\n# HTTP/HTTPS/SOCKS5 代理\n# proxy = \"http://127.0.0.1:7890\"\n\n# 下载完成后执行的命令\n# 支持占位符：{file} 文件路径, {size} 文件大小, {id} 任务ID\n# on_complete = \"notify-send '下载完成' '{file}'\"\n\n# 下载开始时执行的命令（支持 {file}, {id}, {url}）\n# on_start = \"echo '开始下载: {file}'\"\n\n# 下载暂停时执行的命令（支持 {file}, {id}）\n# on_pause = \"echo '已暂停: {file}'\"\n\n# 下载出错时执行的命令（支持 {file}, {id}, {error}）\n# on_error = \"echo '下载失败: {file} — {error}'\"\n\n# 自定义 HTTP 请求头（数组格式）\n# headers = [\"Authorization: Bearer xxx\", \"Referer: https://example.com\"]\n\n# Cookie 字符串\n# cookie = \"sid=abc; token=xyz\"\n");
    assert(v@ =~= default_config_for(download_dir@));
    string_of(v.as_slice())
}

/// The default configuration file, showing the user's download directory
/// (or `.` where the platform knows none).
pub fn generate_default_config() -> (r: String)
    ensures
        exists|d: Seq<char>| r@ == default_config_for(d),
{
    let dir = user_download_dir();
    let ghost dv = opt_string_view(dir);
    let r = default_config_with(dir);
    assert(r@ == default_config_for(match dv {
        Some(d) => d,
        None => "."@,
    }));
    r
}

/// The default configuration file, given the user's download directory if
/// the platform knows one (else it shows `.`).
pub fn default_config_with(dir: Option<String>) -> (r: String)
    ensures
        r@ == default_config_for(
            match opt_string_view(dir) {
                Some(d) => d,
                None => "."@,
            },
        ),
{
    let d = match dir {
        Some(d) => d,
        None => string_of(chars_of(".").as_slice()),
    };
    default_config_text(d.as_str())
}

/// A configuration file that gives no setting leaves the configuration as
/// it was.
pub proof fn lemma_empty_file_keeps_config(c: Config, f: FileConfig, r: Config)
    requires
        f.max_concurrent_tasks is None,
        f.max_connections_per_task is None,
        f.download_dir is None,
        f.max_speed is None,
        f.rpc_listen_addr is None,
        f.rpc_secret is None,
        f.user_agent is None,
        f.timeout_secs is None,
        f.retry_count is None,
        f.max_redirects is None,
        f.proxy is None,
        f.on_complete is None,
        f.on_start is None,
        f.on_pause is None,
        f.on_error is None,
        f.headers is None,
        f.cookie is None,
        merged_config(c, f, r),
    ensures
        r == c,
{
}

/// A speed limit is read the same with whitespace around it.
pub proof fn lemma_speed_limit_ignores_padding(w1: Seq<char>, x: Seq<char>, w2: Seq<char>)
    requires
        all_ws(w1),
        all_ws(w2),
    ensures
        speed_limit_value(w1 + x + w2) == speed_limit_value(x),
{
    lemma_trim_ignores_padding(w1, x, w2);
}

/// The number part of `n` followed by one suffix letter.
proof fn lemma_suffixed_parts(n: Seq<char>, c: char)
    requires
        n.len() > 0,
        all_digits(n),
        speed_suffix_multiplier(c) is Some,
    ensures
        trim_seq(n.push(c)) == n.push(c),
        speed_parts(n.push(c)) == (n, speed_suffix_multiplier(c)->0),
        n.push(c) != seq!['0'],
{
    assert(crate::util::text::is_digit(n[0]));
    assert(n.push(c)[0] == n[0]);
    lemma_trim_noop(n.push(c));
    assert(n.push(c).drop_last() =~= n);
    assert(n.push(c).len() >= 2);
}

/// Suffix letters mean the same in either case: `nk` is `nK`, `nm` is
/// `nM`, `ng` is `nG`.
pub proof fn lemma_speed_suffix_case(n: Seq<char>)
    requires
        n.len() > 0,
        all_digits(n),
    ensures
        speed_limit_value(n.push('k')) == speed_limit_value(n.push('K')),
        speed_limit_value(n.push('m')) == speed_limit_value(n.push('M')),
        speed_limit_value(n.push('g')) == speed_limit_value(n.push('G')),
{
    lemma_suffixed_parts(n, 'k');
    lemma_suffixed_parts(n, 'K');
    lemma_suffixed_parts(n, 'm');
    lemma_suffixed_parts(n, 'M');
    lemma_suffixed_parts(n, 'g');
    lemma_suffixed_parts(n, 'G');
}

/// `nK` is 1024 times `n`.
pub proof fn lemma_speed_limit_kib(n: Seq<char>)
    requires
        n.len() > 0,
        all_digits(n),
    ensures
        speed_limit_value(n) matches Some(v) ==> speed_limit_value(n.push('K')) == Some(v * 1024),
{
    lemma_suffixed_parts(n, 'K');
    assert(crate::util::text::is_digit(n[0]));
    assert(crate::util::text::is_digit(n.last()));
    lemma_trim_noop(n);
    assert(speed_suffix_multiplier(n.last()) is None);
    if n == seq!['0'] {
        assert(crate::util::text::digits_value(seq!['0']) == 0) by {
            reveal_with_fuel(crate::util::text::digits_value, 2);
            assert(seq!['0'].drop_last() =~= Seq::<char>::empty());
        }
        assert(parse_u64_seq(n) == Some(0u64));
    }
}

/// Every setting a configuration file gives replaces the current one, and
/// every setting it leaves out keeps its current value; the speed limit is
/// read as a number.
pub proof fn lemma_file_settings_win(c: Config, f: FileConfig, r: Config)
    requires
        merged_config(c, f, r),
    ensures
        f.max_concurrent_tasks matches Some(v) ==> r.max_concurrent_tasks == v,
        f.max_concurrent_tasks is None ==> r.max_concurrent_tasks == c.max_concurrent_tasks,
        f.max_connections_per_task matches Some(v) ==> r.max_connections_per_task == v,
        f.max_connections_per_task is None ==> r.max_connections_per_task == c.max_connections_per_task,
        f.download_dir matches Some(d) ==> r.download_dir == d,
        f.download_dir is None ==> r.download_dir == c.download_dir,
        f.max_speed matches Some(sp) ==> r.max_speed == Some(speed_limit_value(sp@)->0 as u64),
        f.max_speed is None ==> r.max_speed == c.max_speed,
        f.rpc_listen_addr matches Some(a) ==> r.rpc_listen_addr == a,
        f.rpc_listen_addr is None ==> r.rpc_listen_addr == c.rpc_listen_addr,
        f.rpc_secret matches Some(v) ==> r.rpc_secret == Some(v),
        f.rpc_secret is None ==> r.rpc_secret == c.rpc_secret,
        f.user_agent matches Some(v) ==> r.user_agent == v,
        f.user_agent is None ==> r.user_agent == c.user_agent,
        f.timeout_secs matches Some(v) ==> r.timeout_secs == v,
        f.timeout_secs is None ==> r.timeout_secs == c.timeout_secs,
        f.retry_count matches Some(v) ==> r.retry_count == v,
        f.retry_count is None ==> r.retry_count == c.retry_count,
        f.max_redirects matches Some(v) ==> r.max_redirects == v,
        f.max_redirects is None ==> r.max_redirects == c.max_redirects,
        f.proxy matches Some(v) ==> r.proxy == Some(v),
        f.proxy is None ==> r.proxy == c.proxy,
        f.on_complete matches Some(v) ==> r.on_complete == Some(v),
        f.on_complete is None ==> r.on_complete == c.on_complete,
        f.on_start matches Some(v) ==> r.on_start == Some(v),
        f.on_start is None ==> r.on_start == c.on_start,
        f.on_pause matches Some(v) ==> r.on_pause == Some(v),
        f.on_pause is None ==> r.on_pause == c.on_pause,
        f.on_error matches Some(v) ==> r.on_error == Some(v),
        f.on_error is None ==> r.on_error == c.on_error,
        f.headers matches Some(h) ==> r.headers == h,
        f.headers is None ==> r.headers == c.headers,
        f.cookie matches Some(v) ==> r.cookie == Some(v),
        f.cookie is None ==> r.cookie == c.cookie,
{
}

} // verus!

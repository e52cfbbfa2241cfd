//! The JSON-RPC interface: token checks, reading the parameters of a call,
//! and turning a call into a command for the download engine or into the
//! error it is answered with.

use vstd::prelude::*;

use crate::config::{parse_speed_limit, speed_limit_fits, speed_limit_value, SpeedLimitError};
use crate::download_core::engine::DownloadOptions;
use crate::util::text::{chars_eq, chars_of, push_str_chars, string_of};

verus! {

/// Code of the answer to a call whose token is missing or wrong.
pub const UNAUTHORIZED: i32 = -32600;

/// Code of the answer to a call that failed.
pub const SERVER_ERROR: i32 = -32000;

#[verifier::external_type_specification]
#[verifier::external_body]
pub struct ExJsonValue(serde_json::Value);

/// One parameter of a call, as far as the methods read it.
#[derive(Debug)]
pub enum ParamValue {
    Text(String),
    /// A number that fits in a `u64`.
    Unsigned(u64),
    /// Anything else.
    Other,
}

/// The `params` of a call: an array, an object (one entry per key), or
/// anything else.
#[derive(Debug)]
pub enum RpcParams {
    Positional(Vec<ParamValue>),
    Named(Vec<(String, ParamValue)>),
    Other,
}

/// When a secret is set, params[0] is the token, so the real parameters
/// start one place later.
pub fn param_offset(has_secret: bool) -> (r: usize)
    ensures
        r == if has_secret {
            1usize
        } else {
            0usize
        },
{
    if has_secret {
        1
    } else {
        0
    }
}

/// The value at position `i` of an array of parameters.
pub open spec fn param_at(p: RpcParams, i: int) -> Option<ParamValue> {
    match p {
        RpcParams::Positional(v) => if 0 <= i < v@.len() {
            Some(v@[i])
        } else {
            None
        },
        _ => None,
    }
}

/// The value of the first entry named `key` among `entries`.
pub open spec fn first_named(entries: Seq<(String, ParamValue)>, key: Seq<char>) -> Option<ParamValue>
    decreases entries.len(),
{
    if entries.len() == 0 {
        None
    } else if entries[0].0@ == key {
        Some(entries[0].1)
    } else {
        first_named(entries.skip(1), key)
    }
}

/// The value named `key` in an object of parameters.
pub open spec fn param_named(p: RpcParams, key: Seq<char>) -> Option<ParamValue> {
    match p {
        RpcParams::Named(v) => first_named(v@, key),
        _ => None,
    }
}

/// The text of a parameter that is a string.
pub open spec fn text_of(v: Option<ParamValue>) -> Option<Seq<char>> {
    match v {
        Some(ParamValue::Text(s)) => Some(s@),
        _ => None,
    }
}

/// A string parameter given by position `i`, or else by the name `key`.
pub open spec fn text_param(p: RpcParams, i: int, key: Seq<char>) -> Option<Seq<char>> {
    match param_at(p, i) {
        Some(v) => text_of(Some(v)),
        None => text_of(param_named(p, key)),
    }
}

fn value_at(p: &RpcParams, i: usize) -> (r: Option<&ParamValue>)
    ensures
        match r {
            Some(v) => param_at(*p, i as int) == Some(*v),
            None => param_at(*p, i as int) is None,
        },
{
    match p {
        RpcParams::Positional(v) => {
            if i < v.len() {
                Some(&v[i])
            } else {
                None
            }
        },
        _ => None,
    }
}

fn value_named<'a>(p: &'a RpcParams, key: &str) -> (r: Option<&'a ParamValue>)
    ensures
        match r {
            Some(v) => param_named(*p, key@) == Some(*v),
            None => param_named(*p, key@) is None,
        },
{
    match p {
        RpcParams::Named(v) => {
            assert(*p == RpcParams::Named(*v));
            let kc = chars_of(key);
            let mut i: usize = 0;
            assert(v@.skip(0) =~= v@);
            while i < v.len()
                invariant
                    i <= v@.len(),
                    kc@ == key@,
                    *p == RpcParams::Named(*v),
                    first_named(v@, key@) == first_named(v@.skip(i as int), key@),
                decreases v@.len() - i,
            {
                assert(v@.skip(i as int)[0] == v@[i as int]);
                assert(v@.skip(i as int).skip(1) =~= v@.skip(i + 1));
                let name = chars_of(v[i].0.as_str());
                if chars_eq(name.as_slice(), kc.as_slice()) {
                    assert(v@.skip(i as int)[0].0@ == key@);
                    return Some(&v[i].1);
                }
                i = i + 1;
            }
            None
        },
        _ => None,
    }
}

fn text_value(v: Option<&ParamValue>) -> (r: Option<String>)
    ensures
        match v {
            Some(x) => opt_text(r) == text_of(Some(*x)),
            None => r is None,
        },
{
    match v {
        Some(ParamValue::Text(s)) => Some(string_of(chars_of(s.as_str()).as_slice())),
        _ => None,
    }
}

/// The text of an optional string.
pub open spec fn opt_text(o: Option<String>) -> Option<Seq<char>> {
    match o {
        Some(s) => Some(s@),
        None => None,
    }
}

fn text_parameter(p: &RpcParams, i: usize, key: &str) -> (r: Option<String>)
    ensures
        opt_text(r) == text_param(*p, i as int, key@),
{
    match value_at(p, i) {
        Some(v) => text_value(Some(v)),
        None => text_value(value_named(p, key)),
    }
}

/// Whether a call is let through: always without a secret; with one, only
/// when the first positional parameter is the text `token:<secret>`.
pub open spec fn token_ok(secret: Option<Seq<char>>, p: RpcParams) -> bool {
    match secret {
        None => true,
        Some(s) => text_of(param_at(p, 0)) == Some("token:"@ + s),
    }
}

/// Checks the token of a call.
pub fn token_accepted(secret: Option<&str>, params: &RpcParams) -> (r: bool)
    ensures
        r == token_ok(crate::util::text::opt_str_view(secret), *params),
{
    match secret {
        None => true,
        Some(s) => {
            let mut expected: Vec<char> = Vec::new();
            push_str_chars(&mut expected, "token:");
            push_str_chars(&mut expected, s);
            match value_at(params, 0) {
                Some(ParamValue::Text(t)) => {
                    let tc = chars_of(t.as_str());
                    chars_eq(tc.as_slice(), expected.as_slice())
                },
                _ => false,
            }
        },
    }
}

/// Why a call failed before reaching the engine.
#[derive(Debug)]
pub enum RpcFault {
    /// `addUri` without a URL.
    MissingUrl,
    /// A task method without a task id.
    MissingTaskId,
    /// A method this server does not know.
    UnknownMethod(String),
    /// `changeGlobalOption` with a speed limit that is not a number.
    InvalidSpeedLimit(SpeedLimitError),
}

/// The text an error of a call is reported with.
pub open spec fn fault_message(f: RpcFault) -> Seq<char> {
    match f {
        RpcFault::MissingUrl => "missing url parameter"@,
        RpcFault::MissingTaskId => "missing task id"@,
        RpcFault::UnknownMethod(m) => "unknown method: "@ + m@,
        RpcFault::InvalidSpeedLimit(e) => crate::config::speed_error_text(e),
    }
}

impl RpcFault {
    pub fn message(&self) -> (r: String)
        ensures
            r@ == fault_message(*self),
    {
        match self {
            RpcFault::MissingUrl => string_of(chars_of("missing url parameter").as_slice()),
            RpcFault::MissingTaskId => string_of(chars_of("missing task id").as_slice()),
            RpcFault::UnknownMethod(m) => {
                let mut v: Vec<char> = Vec::new();
                push_str_chars(&mut v, "unknown method: ");
                push_str_chars(&mut v, m.as_str());
                string_of(v.as_slice())
            },
            RpcFault::InvalidSpeedLimit(e) => e.message(),
        }
    }
}

/// What a call asks of the download engine.
#[derive(Debug)]
pub enum RpcCommand {
    AddUri(DownloadOptions),
    Pause(String),
    Unpause(String),
    Remove(String),
    TellStatus(String),
    TellActive,
    TellWaiting,
    TellStopped,
    GetGlobalStat,
    /// Set the overall speed limit to this, if given.
    ChangeGlobalOption(Option<u64>),
}

/// The task id of a call: the string parameter at the first real position,
/// or else the one named `gid`.
pub fn extract_task_id(params: &RpcParams, offset: usize) -> (r: Result<String, RpcFault>)
    ensures
        match text_param(*params, offset as int, "gid"@) {
            Some(id) => r matches Ok(s) && s@ == id,
            None => r matches Err(RpcFault::MissingTaskId),
        },
{
    match text_parameter(params, offset, "gid") {
        Some(s) => Ok(s),
        None => Err(RpcFault::MissingTaskId),
    }
}

/// The speed limit a `changeGlobalOption` call gives can be read without
/// overflow.
pub open spec fn speed_option_fits(p: RpcParams) -> bool {
    match param_named(p, "max-overall-download-limit"@) {
        Some(ParamValue::Text(s)) => speed_limit_fits(s@),
        _ => true,
    }
}

/// The options of an `addUri` call: the URL and the output name, by
/// position or by name, `split` by name (kept to a byte), else the engine's
/// default number of connections, which is also the connection limit.
pub open spec fn add_uri_options(o: DownloadOptions, url: Seq<char>, p: RpcParams, off: int, default_conn: u8) -> bool {
    &&& o.url@ == url
    &&& opt_text(o.output) == text_param(p, off + 1, "out"@)
    &&& o.dir is None
    &&& o.split == match param_named(p, "split"@) {
        Some(ParamValue::Unsigned(n)) => (n % 256) as u8,
        _ => default_conn,
    }
    &&& o.max_connections == default_conn
    &&& o.extra_headers@.len() == 0
    &&& o.extra_cookie is None
}

/// The command a call of `method` stands for, or why it cannot be made.
pub open spec fn call_command(method: Seq<char>, p: RpcParams, off: int, default_conn: u8, r: Result<RpcCommand, RpcFault>) -> bool {
    if method == "addUri"@ {
        match text_param(p, off, "url"@) {
            Some(url) => r matches Ok(RpcCommand::AddUri(o)) && add_uri_options(o, url, p, off, default_conn),
            None => r matches Err(RpcFault::MissingUrl),
        }
    } else if method == "pause"@ || method == "unpause"@ || method == "remove"@ || method == "tellStatus"@ {
        match text_param(p, off, "gid"@) {
            Some(id) => match r {
                Ok(RpcCommand::Pause(t)) => method == "pause"@ && t@ == id,
                Ok(RpcCommand::Unpause(t)) => method == "unpause"@ && t@ == id,
                Ok(RpcCommand::Remove(t)) => method == "remove"@ && t@ == id,
                Ok(RpcCommand::TellStatus(t)) => method == "tellStatus"@ && t@ == id,
                _ => false,
            },
            None => r matches Err(RpcFault::MissingTaskId),
        }
    } else if method == "tellActive"@ {
        r matches Ok(RpcCommand::TellActive)
    } else if method == "tellWaiting"@ {
        r matches Ok(RpcCommand::TellWaiting)
    } else if method == "tellStopped"@ {
        r matches Ok(RpcCommand::TellStopped)
    } else if method == "getGlobalStat"@ {
        r matches Ok(RpcCommand::GetGlobalStat)
    } else if method == "changeGlobalOption"@ {
        match param_named(p, "max-overall-download-limit"@) {
            Some(ParamValue::Text(s)) => match speed_limit_value(s@) {
                Some(v) => r == Ok::<RpcCommand, RpcFault>(RpcCommand::ChangeGlobalOption(Some(v as u64))),
                None => r matches Err(RpcFault::InvalidSpeedLimit(e)) && crate::config::speed_error_of(s@) == Some(e),
            },
            Some(ParamValue::Unsigned(n)) => r == Ok::<RpcCommand, RpcFault>(RpcCommand::ChangeGlobalOption(Some(n))),
            _ => r == Ok::<RpcCommand, RpcFault>(RpcCommand::ChangeGlobalOption(None)),
        }
    } else {
        r matches Err(RpcFault::UnknownMethod(m)) && m@ == method
    }
}

fn named_unsigned(p: &RpcParams, key: &str) -> (r: Option<u64>)
    ensures
        match param_named(*p, key@) {
            Some(ParamValue::Unsigned(n)) => r == Some(n),
            _ => r is None,
        },
{
    match value_named(p, key) {
        Some(ParamValue::Unsigned(n)) => Some(*n),
        _ => None,
    }
}

/// Reads a call of `method` with `params` (after the token, when a secret
/// is set) into the command it asks for.
pub fn parse_call(method: &str, params: &RpcParams, has_secret: bool, default_conn: u8) -> (r: Result<RpcCommand, RpcFault>)
    requires
        method@ == "changeGlobalOption"@ ==> speed_option_fits(*params),
    ensures
        call_command(method@, *params, param_offset_spec(has_secret), default_conn, r),
{
    let off = param_offset(has_secret);
    let m = chars_of(method);
    if crate::util::text::chars_eq_str(m.as_slice(), "addUri") {
        let url = match text_parameter(params, off, "url") {
            Some(u) => u,
            None => return Err(RpcFault::MissingUrl),
        };
        let out = if off < usize::MAX {
            text_parameter(params, off + 1, "out")
        } else {
            text_value(value_named(params, "out"))
        };
        let split: u8 = match named_unsigned(params, "split") {
            Some(n) => (n % 256) as u8,
            None => default_conn,
        };
        return Ok(
            RpcCommand::AddUri(
                DownloadOptions {
                    url,
                    output: out,
                    dir: None,
                    split,
                    max_connections: default_conn,
                    extra_headers: Vec::new(),
                    extra_cookie: None,
                },
            ),
        );
    }
    let is_pause = crate::util::text::chars_eq_str(m.as_slice(), "pause");
    let is_unpause = crate::util::text::chars_eq_str(m.as_slice(), "unpause");
    let is_remove = crate::util::text::chars_eq_str(m.as_slice(), "remove");
    let is_status = crate::util::text::chars_eq_str(m.as_slice(), "tellStatus");
    if is_pause || is_unpause || is_remove || is_status {
        let id = match extract_task_id(params, off) {
            Ok(id) => id,
            Err(e) => return Err(e),
        };
        if is_pause {
            return Ok(RpcCommand::Pause(id));
        } else if is_unpause {
            return Ok(RpcCommand::Unpause(id));
        } else if is_remove {
            return Ok(RpcCommand::Remove(id));
        } else {
            return Ok(RpcCommand::TellStatus(id));
        }
    }
    if crate::util::text::chars_eq_str(m.as_slice(), "tellActive") {
        return Ok(RpcCommand::TellActive);
    }
    if crate::util::text::chars_eq_str(m.as_slice(), "tellWaiting") {
        return Ok(RpcCommand::TellWaiting);
    }
    if crate::util::text::chars_eq_str(m.as_slice(), "tellStopped") {
        return Ok(RpcCommand::TellStopped);
    }
    if crate::util::text::chars_eq_str(m.as_slice(), "getGlobalStat") {
        return Ok(RpcCommand::GetGlobalStat);
    }
    if crate::util::text::chars_eq_str(m.as_slice(), "changeGlobalOption") {
        return match value_named(params, "max-overall-download-limit") {
            Some(ParamValue::Text(s)) => match parse_speed_limit(s.as_str()) {
                Ok(v) => Ok(RpcCommand::ChangeGlobalOption(Some(v))),
                Err(e) => Err(RpcFault::InvalidSpeedLimit(e)),
            },
            Some(ParamValue::Unsigned(n)) => Ok(RpcCommand::ChangeGlobalOption(Some(*n))),
            _ => Ok(RpcCommand::ChangeGlobalOption(None)),
        };
    }
    Err(RpcFault::UnknownMethod(string_of(m.as_slice())))
}

/// The parameter offset as a number.
pub open spec fn param_offset_spec(has_secret: bool) -> int {
    if has_secret {
        1
    } else {
        0
    }
}

/// Why a call is answered with an error: its code and message.
#[derive(Debug)]
pub struct RpcFailure {
    pub code: i32,
    pub message: String,
}

/// What the server does with a call: refuse it when the token is wrong,
/// answer with an error when it cannot be read, else run the command.
pub fn handle_call(secret: Option<&str>, method: &str, params: &RpcParams, default_conn: u8) -> (r: Result<RpcCommand, RpcFailure>)
    requires
        token_ok(crate::util::text::opt_str_view(secret), *params) && method@ == "changeGlobalOption"@
            ==> speed_option_fits(*params),
    ensures
        !token_ok(crate::util::text::opt_str_view(secret), *params) ==> (r matches Err(f) && f.code == UNAUTHORIZED
            && f.message@ == "Unauthorized: invalid or missing token"@),
        token_ok(crate::util::text::opt_str_view(secret), *params) ==> (exists|c: Result<RpcCommand, RpcFault>|
            #[trigger] call_command(method@, *params, param_offset_spec(secret is Some), default_conn, c) && match c {
                Ok(cmd) => r == Ok::<RpcCommand, RpcFailure>(cmd),
                Err(fault) => r matches Err(f) && f.code == SERVER_ERROR && f.message@ == fault_message(fault),
            }),
{
    if !token_accepted(secret, params) {
        return Err(
            RpcFailure {
                code: UNAUTHORIZED,
                message: string_of(chars_of("Unauthorized: invalid or missing token").as_slice()),
            },
        );
    }
    let c = parse_call(method, params, secret.is_some(), default_conn);
    match c {
        Ok(cmd) => Ok(cmd),
        Err(fault) => {
            let message = fault.message();
            assert(call_command(method@, *params, param_offset_spec(secret is Some), default_conn, Err::<RpcCommand, RpcFault>(fault)));
            Err(RpcFailure { code: SERVER_ERROR, message })
        },
    }
}

/// The error part of an answer.
#[derive(Debug)]
pub struct RpcError {
    pub code: i32,
    pub message: String,
}

/// An answer to a JSON-RPC call: a result or an error, under the call's id.
#[derive(Debug)]
pub struct RpcResponse {
    pub jsonrpc: String,
    pub id: serde_json::Value,
    pub result: Option<serde_json::Value>,
    pub error: Option<RpcError>,
}

impl RpcResponse {
    pub fn success(id: serde_json::Value, result: serde_json::Value) -> (r: Self)
        ensures
            r.jsonrpc@ == "2.0"@,
            r.id == id,
            r.result == Some(result),
            r.error is None,
    {
        RpcResponse {
            jsonrpc: string_of(chars_of("2.0").as_slice()),
            id,
            result: Some(result),
            error: None,
        }
    }

    pub fn error(id: serde_json::Value, code: i32, message: String) -> (r: Self)
        ensures
            r.jsonrpc@ == "2.0"@,
            r.id == id,
            r.result is None,
            r.error matches Some(e) && e.code == code && e.message == message,
    {
        RpcResponse {
            jsonrpc: string_of(chars_of("2.0").as_slice()),
            id,
            result: None,
            error: Some(RpcError { code, message }),
        }
    }
}

/// `k` is the first entry of `v` named `key`.
pub open spec fn first_entry_named(v: Seq<(String, ParamValue)>, key: Seq<char>, k: int) -> bool {
    &&& 0 <= k < v.len()
    &&& v[k].0@ == key
    &&& forall|j: int| 0 <= j < k ==> (#[trigger] v[j]).0@ != key
}

proof fn lemma_first_named_at(v: Seq<(String, ParamValue)>, key: Seq<char>, k: int)
    requires
        first_entry_named(v, key, k),
    ensures
        first_named(v, key) == Some(v[k].1),
    decreases k,
{
    if k > 0 {
        assert(v[0].0@ != key);
        let rest = v.skip(1);
        assert forall|j: int| 0 <= j < k - 1 implies (#[trigger] rest[j]).0@ != key by {
            assert(rest[j] == v[j + 1]);
        }
        assert(rest[k - 1] == v[k]);
        lemma_first_named_at(rest, key, k - 1);
    }
}

proof fn lemma_first_named_absent(v: Seq<(String, ParamValue)>, key: Seq<char>)
    requires
        forall|j: int| 0 <= j < v.len() ==> (#[trigger] v[j]).0@ != key,
    ensures
        first_named(v, key) is None,
    decreases v.len(),
{
    if v.len() > 0 {
        assert(v[0].0@ != key);
        let rest = v.skip(1);
        assert forall|j: int| 0 <= j < rest.len() implies (#[trigger] rest[j]).0@ != key by {
            assert(rest[j] == v[j + 1]);
        }
        lemma_first_named_absent(rest, key);
    }
}

/// `addUri` with an object of parameters downloads the string named `url`
/// and saves it under the string named `out` when there is one (the first
/// entry of each name counts), with no output name when there is no `out`.
pub proof fn lemma_add_uri_named(
    p: RpcParams,
    off: int,
    dc: u8,
    r: Result<RpcCommand, RpcFault>,
    ku: int,
    u: String,
)
    requires
        call_command("addUri"@, p, off, dc, r),
        p is Named,
        first_entry_named(p->Named_0@, "url"@, ku),
        p->Named_0@[ku].1 == ParamValue::Text(u),
    ensures
        r matches Ok(RpcCommand::AddUri(o)) && o.url@ == u@,
        forall|ko: int|
            #[trigger] first_entry_named(p->Named_0@, "out"@, ko) && p->Named_0@[ko].1 is Text ==> (
            r matches Ok(RpcCommand::AddUri(o)) && opt_text(o.output) == Some(p->Named_0@[ko].1->Text_0@)),
        (forall|j: int| 0 <= j < p->Named_0@.len() ==> (#[trigger] p->Named_0@[j]).0@ != "out"@)
            ==> (r matches Ok(RpcCommand::AddUri(o)) && o.output is None),
        forall|ks: int|
            #[trigger] first_entry_named(p->Named_0@, "split"@, ks) && p->Named_0@[ks].1 is Unsigned
                ==> (r matches Ok(RpcCommand::AddUri(o)) && o.split == (p->Named_0@[ks].1->Unsigned_0
                % 256) as u8),
        (forall|j: int| 0 <= j < p->Named_0@.len() ==> (#[trigger] p->Named_0@[j]).0@ != "split"@)
            ==> (r matches Ok(RpcCommand::AddUri(o)) && o.split == dc),
        r matches Ok(RpcCommand::AddUri(o)) && o.dir is None && o.max_connections == dc
            && o.extra_headers@.len() == 0 && o.extra_cookie is None,
{
    let v = p->Named_0@;
    lemma_first_named_at(v, "url"@, ku);
    assert forall|ko: int| #[trigger] first_entry_named(v, "out"@, ko) && v[ko].1 is Text implies (
    r matches Ok(RpcCommand::AddUri(o)) && opt_text(o.output) == Some(v[ko].1->Text_0@)) by {
        lemma_first_named_at(v, "out"@, ko);
    }
    if forall|j: int| 0 <= j < v.len() ==> (#[trigger] v[j]).0@ != "out"@ {
        lemma_first_named_absent(v, "out"@);
    }
    assert forall|ks: int| #[trigger] first_entry_named(v, "split"@, ks) && v[ks].1 is Unsigned implies (
    r matches Ok(RpcCommand::AddUri(o)) && o.split == (v[ks].1->Unsigned_0 % 256) as u8) by {
        lemma_first_named_at(v, "split"@, ks);
    }
    if forall|j: int| 0 <= j < v.len() ==> (#[trigger] v[j]).0@ != "split"@ {
        lemma_first_named_absent(v, "split"@);
    }
}

/// `addUri` with an array of parameters downloads the string at the first
/// real position and saves it under the string after it, if there is one.
pub proof fn lemma_add_uri_positional(
    p: RpcParams,
    off: int,
    dc: u8,
    r: Result<RpcCommand, RpcFault>,
    u: String,
)
    requires
        call_command("addUri"@, p, off, dc, r),
        p is Positional,
        0 <= off < p->Positional_0@.len(),
        p->Positional_0@[off] == ParamValue::Text(u),
    ensures
        r matches Ok(RpcCommand::AddUri(o)) && o.url@ == u@ && opt_text(o.output) == (if off + 1
            < p->Positional_0@.len() {
            match p->Positional_0@[off + 1] {
                ParamValue::Text(s) => Some(s@),
                _ => None,
            }
        } else {
            None
        }) && o.dir is None && o.max_connections == dc,
{
}

} // verus!

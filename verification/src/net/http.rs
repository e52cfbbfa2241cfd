//! Request headers given on the command line, and the file metadata read
//! from a HEAD response.

use vstd::prelude::*;

use crate::util::text::{
    ascii_lower, ascii_lower_char, chars_eq, chars_of, contains_chars, contains_seq,
    find_chars, find_seq, opt_str_view, parse_u64, parse_u64_seq, push_str_chars, slice_chars, split_chars,
    split_once_chars, split_once_seq, split_seq, string_of, strip_prefix_chars,
    strip_prefix_seq, trim, trim_char, trim_char_seq, trim_seq,
};

verus! {

/// Longest header name the HTTP stack accepts.
pub const MAX_HEADER_NAME_LEN: usize = 65535;

/// Characters allowed in a header name (RFC 7230 `tchar`).
pub open spec fn is_tchar(c: char) -> bool {
    ||| c == '!' || c == '#' || c == '$' || c == '%' || c == '&' || c == '\''
    ||| c == '*' || c == '+' || c == '-' || c == '.' || c == '^' || c == '_'
    ||| c == '`' || c == '|' || c == '~'
    ||| ('0' <= c && c <= '9') || ('A' <= c && c <= 'Z') || ('a' <= c && c <= 'z')
}

/// The normalized (lower-case) header name for `s`, when `s` is a valid name:
/// between 1 and `MAX_HEADER_NAME_LEN` token characters.
pub open spec fn header_name(s: Seq<char>) -> Option<Seq<char>> {
    if 1 <= s.len() <= MAX_HEADER_NAME_LEN && forall|i: int| 0 <= i < s.len() ==> is_tchar(
        #[trigger] s[i],
    ) {
        Some(s.map_values(|c: char| ascii_lower(c)))
    } else {
        None
    }
}

/// A valid header value: no control characters other than tab.
pub open spec fn valid_header_value(s: Seq<char>) -> bool {
    forall|i: int| 0 <= i < s.len() ==> #[trigger] s[i] == '\t' || (' ' <= s[i] && s[i] != '\x7f')
}

/// Why a header could not be used.
#[derive(Debug)]
pub enum HeaderError {
    /// A header without `:` (expected `Key: Value`).
    InvalidFormat(String),
    InvalidName(String),
    InvalidValue(String),
    InvalidCookie,
}

/// `HeaderError` as plain text sequences.
pub enum HeaderFault {
    Format(Seq<char>),
    Name(Seq<char>),
    Value(Seq<char>),
    Cookie,
}

impl View for HeaderError {
    type V = HeaderFault;

    open spec fn view(&self) -> HeaderFault {
        match self {
            HeaderError::InvalidFormat(s) => HeaderFault::Format(s@),
            HeaderError::InvalidName(s) => HeaderFault::Name(s@),
            HeaderError::InvalidValue(s) => HeaderFault::Value(s@),
            HeaderError::InvalidCookie => HeaderFault::Cookie,
        }
    }
}

/// Name and value that a `Key: Value` line stands for.
pub open spec fn header_line(h: Seq<char>) -> Result<(Seq<char>, Seq<char>), HeaderFault> {
    match split_once_seq(h, ':') {
        None => Err(HeaderFault::Format(h)),
        Some(p) => {
            let k = trim_seq(p.0);
            let v = trim_seq(p.1);
            match header_name(k) {
                None => Err(HeaderFault::Name(k)),
                Some(n) => if valid_header_value(v) {
                    Ok((n, v))
                } else {
                    Err(HeaderFault::Value(v))
                },
            }
        },
    }
}

/// The entries for a list of header lines, in order; the first bad line
/// decides the error.
pub open spec fn header_lines(hs: Seq<Seq<char>>) -> Result<Seq<(Seq<char>, Seq<char>)>, HeaderFault>
    decreases hs.len(),
{
    if hs.len() == 0 {
        Ok(Seq::empty())
    } else {
        match header_lines(hs.drop_last()) {
            Err(e) => Err(e),
            Ok(acc) => match header_line(hs.last()) {
                Err(e) => Err(e),
                Ok(e) => Ok(acc.push(e)),
            },
        }
    }
}

/// `entries` without those named `name`.
pub open spec fn without_name(entries: Seq<(Seq<char>, Seq<char>)>, name: Seq<char>) -> Seq<
    (Seq<char>, Seq<char>),
>
    decreases entries.len(),
{
    if entries.len() == 0 {
        Seq::empty()
    } else if entries.last().0 == name {
        without_name(entries.drop_last(), name)
    } else {
        without_name(entries.drop_last(), name).push(entries.last())
    }
}

/// What `parse_headers` builds: the header lines in order, then the cookie,
/// which replaces any `cookie` header given among the lines.
pub open spec fn headers_with_cookie(hs: Seq<Seq<char>>, cookie: Option<Seq<char>>) -> Result<
    Seq<(Seq<char>, Seq<char>)>,
    HeaderFault,
> {
    match header_lines(hs) {
        Err(e) => Err(e),
        Ok(acc) => match cookie {
            None => Ok(acc),
            Some(c) => if valid_header_value(c) {
                Ok(without_name(acc, "cookie"@).push(("cookie"@, c)))
            } else {
                Err(HeaderFault::Cookie)
            },
        },
    }
}

/// Value of the first entry named `name`.
pub open spec fn first_value(entries: Seq<(Seq<char>, Seq<char>)>, name: Seq<char>) -> Option<
    Seq<char>,
>
    decreases entries.len(),
{
    if entries.len() == 0 {
        None
    } else if entries[0].0 == name {
        Some(entries[0].1)
    } else {
        first_value(entries.drop_first(), name)
    }
}

/// An ordered multi-map of request headers with normalized names.
pub struct HeaderList {
    entries: Vec<(String, String)>,
}

pub open spec fn pairs_view(v: Seq<(String, String)>) -> Seq<(Seq<char>, Seq<char>)> {
    v.map_values(|e: (String, String)| (e.0@, e.1@))
}

impl View for HeaderList {
    type V = Seq<(Seq<char>, Seq<char>)>;

    closed spec fn view(&self) -> Seq<(Seq<char>, Seq<char>)> {
        pairs_view(self.entries@)
    }
}

/// `http::header::HeaderName::from_bytes` on the bytes of `s`, read back with
/// `HeaderName::as_str`: the name in lower case when `s` is 1 to 65535
/// token characters (RFC 7230 `tchar`), and no name otherwise.
#[verifier::external_body]
fn http_header_name(s: &str) -> (r: Option<String>)
    ensures
        opt_string_view(r) == header_name(s@),
{
    match http::header::HeaderName::from_bytes(s.as_bytes()) {
        Ok(n) => Some(n.as_str().to_string()),
        Err(_) => None,
    }
}

/// `http::header::HeaderValue::from_str(s).is_ok()`: whether every byte of
/// `s` is a tab or at least a space and not DEL.
#[verifier::external_body]
fn http_header_value_ok(s: &str) -> (r: bool)
    ensures
        r == valid_header_value(s@),
{
    http::header::HeaderValue::from_str(s).is_ok()
}

/// The normalized header name for `s`.
fn normalize_name(s: &[char]) -> (r: Option<Vec<char>>)
    ensures
        r matches Some(v) ==> header_name(s@) == Some(v@),
        r is None ==> header_name(s@) is None,
{
    let text = string_of(s);
    match http_header_name(text.as_str()) {
        Some(n) => Some(chars_of(n.as_str())),
        None => None,
    }
}

/// Whether `s` can be a header value.
fn valid_value_exec(s: &[char]) -> (r: bool)
    ensures
        r == valid_header_value(s@),
{
    let text = string_of(s);
    http_header_value_ok(text.as_str())
}

fn parse_line(h: &str) -> (r: Result<(String, String), HeaderError>)
    ensures
        r matches Ok(e) ==> header_line(h@) == Ok::<(Seq<char>, Seq<char>), HeaderFault>(
            (e.0@, e.1@),
        ),
        r matches Err(e) ==> header_line(h@) == Err::<(Seq<char>, Seq<char>), HeaderFault>(
            e@,
        ),
{
    let hc = chars_of(h);
    match split_once_chars(hc.as_slice(), ':') {
        None => Err(HeaderError::InvalidFormat(string_of(hc.as_slice()))),
        Some((k, v)) => {
            let kt = trim(k.as_slice());
            let vt = trim(v.as_slice());
            match normalize_name(kt.as_slice()) {
                None => Err(HeaderError::InvalidName(string_of(kt.as_slice()))),
                Some(n) => {
                    if valid_value_exec(vt.as_slice()) {
                        Ok((string_of(n.as_slice()), string_of(vt.as_slice())))
                    } else {
                        Err(HeaderError::InvalidValue(string_of(vt.as_slice())))
                    }
                },
            }
        },
    }
}

pub open spec fn strings_view(v: Seq<String>) -> Seq<Seq<char>> {
    v.map_values(|s: String| s@)
}

impl HeaderList {
    pub fn new() -> (r: Self)
        ensures
            r@ == Seq::<(Seq<char>, Seq<char>)>::empty(),
    {
        let r = HeaderList { entries: Vec::new() };
        assert(r@ =~= Seq::<(Seq<char>, Seq<char>)>::empty());
        r
    }

    pub fn len(&self) -> (r: usize)
        ensures
            r == self@.len(),
    {
        self.entries.len()
    }

    pub fn is_empty(&self) -> (r: bool)
        ensures
            r == (self@.len() == 0),
    {
        self.entries.len() == 0
    }

    /// The entries, as (lower-case name, value) pairs in order.
    pub fn entries(&self) -> (r: &Vec<(String, String)>)
        ensures
            pairs_view(r@) == self@,
    {
        &self.entries
    }

    /// Value of the first header with the given name (compared after
    /// normalization).
    pub fn get(&self, name: &str) -> (r: Option<String>)
        ensures
            header_name(name@) is None ==> r is None,
            header_name(name@) matches Some(n) ==> (match first_value(self@, n) {
                Some(v) => r matches Some(x) && x@ == v,
                None => r is None,
            }),
    {
        let nc = chars_of(name);
        let n = match normalize_name(nc.as_slice()) {
            Some(n) => n,
            None => return None,
        };
        let mut i: usize = 0;
        assert(self@.skip(0) =~= self@);
        while i < self.entries.len()
            invariant
                i <= self.entries@.len(),
                self@.len() == self.entries@.len(),
                header_name(name@) == Some(n@),
                first_value(self@, n@) == first_value(self@.skip(i as int), n@),
            decreases self.entries@.len() - i,
        {
            let ec = chars_of(self.entries[i].0.as_str());
            assert(self@.skip(i as int)[0] == self@[i as int]);
            assert(self@[i as int] == (self.entries@[i as int].0@, self.entries@[i as int].1@));
            if chars_eq(ec.as_slice(), n.as_slice()) {
                return Some(self.entries[i].1.clone());
            }
            assert(self@.skip(i as int).drop_first() =~= self@.skip(i + 1));
            i = i + 1;
        }
        assert(self@.skip(i as int).len() == 0);
        None
    }

    fn remove_named(&mut self, name: &str)
        ensures
            final(self)@ == without_name(old(self)@, name@),
    {
        let mut kept: Vec<(String, String)> = Vec::new();
        let mut i: usize = 0;
        let nc = chars_of(name);
        while i < self.entries.len()
            invariant
                i <= self.entries@.len(),
                nc@ == name@,
                pairs_view(kept@) == without_name(self@.take(i as int), name@),
            decreases self.entries@.len() - i,
        {
            let ec = chars_of(self.entries[i].0.as_str());
            assert(self@.take(i + 1).drop_last() =~= self@.take(i as int));
            assert(self@[i as int] == (self.entries@[i as int].0@, self.entries@[i as int].1@));
            assert(self@.take(i + 1).last() == self@[i as int]);
            if !chars_eq(ec.as_slice(), nc.as_slice()) {
                kept.push((self.entries[i].0.clone(), self.entries[i].1.clone()));
                assert(pairs_view(kept@) =~= without_name(self@.take(i as int), name@).push(
                    self@[i as int],
                ));
            }
            i = i + 1;
        }
        assert(self@.take(self@.len() as int) =~= self@);
        self.entries = kept;
    }
}

proof fn lemma_header_lines_error_sticks(s: Seq<Seq<char>>, k: int)
    requires
        0 <= k <= s.len(),
        header_lines(s.take(k)) is Err,
    ensures
        header_lines(s) == header_lines(s.take(k)),
    decreases s.len(),
{
    if k < s.len() {
        assert(s.drop_last().take(k) =~= s.take(k));
        lemma_header_lines_error_sticks(s.drop_last(), k);
    } else {
        assert(s.take(k) =~= s);
    }
}

/// Parse "Key: Value" header strings into a header list; the cookie, when
/// given, becomes the `cookie` header.
pub fn parse_headers(headers: &[String], cookie: Option<&str>) -> (r: Result<HeaderList, HeaderError>)
    ensures
        r matches Ok(l) ==> headers_with_cookie(
            strings_view(headers@),
            opt_str_view(cookie),
        ) == Ok::<Seq<(Seq<char>, Seq<char>)>, HeaderFault>(l@),
        r matches Err(e) ==> headers_with_cookie(strings_view(headers@), opt_str_view(cookie))
            == Err::<Seq<(Seq<char>, Seq<char>)>, HeaderFault>(e@),
{
    let mut list = HeaderList::new();
    let mut i: usize = 0;
    while i < headers.len()
        invariant
            i <= headers@.len(),
            header_lines(strings_view(headers@).take(i as int)) == Ok::<
                Seq<(Seq<char>, Seq<char>)>,
                HeaderFault,
            >(list@),
        decreases headers@.len() - i,
    {
        let ghost hs = strings_view(headers@).take(i + 1);
        assert(hs.drop_last() =~= strings_view(headers@).take(i as int));
        assert(hs.last() == headers@[i as int]@);
        match parse_line(headers[i].as_str()) {
            Ok(e) => {
                let ghost prev = list@;
                let ghost ev = (e.0@, e.1@);
                list.entries.push(e);
                assert(list@ =~= prev.push(ev));
            },
            Err(e) => {
                proof {
                    lemma_header_lines_error_sticks(strings_view(headers@), i + 1);
                    assert(strings_view(headers@).len() == headers@.len());
                }
                return Err(e);
            },
        }
        i = i + 1;
    }
    assert(strings_view(headers@).take(headers@.len() as int) =~= strings_view(headers@));
    match cookie {
        None => Ok(list),
        Some(c) => {
            let cc = chars_of(c);
            if !valid_value_exec(cc.as_slice()) {
                return Err(HeaderError::InvalidCookie);
            }
            list.remove_named("cookie");
            let ghost before = list@;
            list.entries.push((string_of(chars_of("cookie").as_slice()), string_of(cc.as_slice())));
            assert(list@ =~= before.push(("cookie"@, c@)));
            Ok(list)
        },
    }
}


/// Percent-decoding as `urlencoding::decode_binary` performs it: `%` and two
/// hex digits become the byte they denote; a `%` followed by a hex digit and
/// a non-hex character keeps both; any other `%` stays as it is.
pub open spec fn is_hex_byte(b: u8) -> bool {
    (48 <= b && b <= 57) || (65 <= b && b <= 70) || (97 <= b && b <= 102)
}

pub open spec fn hex_byte_val(b: u8) -> int {
    if 48 <= b && b <= 57 {
        b - 48
    } else if 65 <= b && b <= 70 {
        b - 55
    } else {
        b - 87
    }
}

pub open spec fn percent_decode_bytes(b: Seq<u8>) -> Seq<u8>
    decreases b.len(),
{
    if b.len() == 0 {
        Seq::empty()
    } else if b[0] == 37 && b.len() >= 3 && is_hex_byte(b[1]) && is_hex_byte(b[2]) {
        seq![(hex_byte_val(b[1]) * 16 + hex_byte_val(b[2])) as u8] + percent_decode_bytes(
            b.skip(3),
        )
    } else if b[0] == 37 && b.len() >= 3 && is_hex_byte(b[1]) {
        seq![b[0], b[1]] + percent_decode_bytes(b.skip(2))
    } else {
        seq![b[0]] + percent_decode_bytes(b.skip(1))
    }
}

/// What `urlencoding::decode` gives back: the percent-decoded UTF-8 bytes of
/// `s` as text, or `None` when they are not valid UTF-8.
pub open spec fn url_decoded(s: Seq<char>) -> Option<Seq<char>> {
    let d = percent_decode_bytes(vstd::utf8::encode_utf8(s));
    if vstd::utf8::valid_utf8(d) {
        Some(vstd::utf8::decode_utf8(d))
    } else {
        None
    }
}

/// `urlencoding::decode(s)`, keeping `s` itself when the decoded bytes are
/// not UTF-8 (`unwrap_or`).
pub open spec fn decode_or_keep(s: Seq<char>) -> Seq<char> {
    match url_decoded(s) {
        Some(d) => d,
        None => s,
    }
}

/// `urlencoding::decode`: percent-decodes `s` and reads the bytes as UTF-8;
/// `None` when they are not valid UTF-8 (the crate's `FromUtf8Error`).
#[verifier::external_body]
fn url_decode(s: &str) -> (r: Option<String>)
    ensures
        r matches Some(d) ==> url_decoded(s@) == Some(d@),
        r is None ==> url_decoded(s@) is None,
{
    match urlencoding::decode(s) {
        Ok(d) => Some(d.into_owned()),
        Err(_) => None,
    }
}

fn decode_or_keep_exec(s: &[char]) -> (r: String)
    ensures
        r@ == decode_or_keep(s@),
{
    let st = string_of(s);
    match url_decode(st.as_str()) {
        Some(d) => d,
        None => st,
    }
}

/// The last segment of the path of `url` when `url` parses as a URL whose
/// path has segments (`url::Url::parse`, `path_segments`, `next_back`).
pub uninterp spec fn url_last_segment(url: Seq<char>) -> Option<Seq<char>>;

/// `url::Url::parse(url)`, then the last of its `path_segments()`; `None`
/// when the URL does not parse or cannot be a base.
#[verifier::external_body]
fn url_path_last_segment(url: &str) -> (r: Option<String>)
    ensures
        r matches Some(x) ==> url_last_segment(url@) == Some(x@),
        r is None ==> url_last_segment(url@) is None,
{
    let parsed = match url::Url::parse(url) {
        Ok(u) => u,
        Err(_) => return None,
    };
    let mut segments = match parsed.path_segments() {
        Some(s) => s,
        None => return None,
    };
    match segments.next_back() {
        Some(last) => Some(last.to_string()),
        None => None,
    }
}

/// The file name in a `filename*=` value (`UTF-8''encoded_name`): the part
/// after the first `''`, up to the next `''`.
pub open spec fn ext_value_name(rest: Seq<char>) -> Option<Seq<char>> {
    match find_seq(rest, "''"@) {
        None => None,
        Some(i) => {
            let after = rest.skip(i as int + 2);
            match find_seq(after, "''"@) {
                Some(j) => Some(after.take(j as int)),
                None => Some(after),
            }
        },
    }
}

/// First `filename*=` parameter among `parts` that carries a name.
pub open spec fn cd_ext_name(parts: Seq<Seq<char>>) -> Option<Seq<char>>
    decreases parts.len(),
{
    if parts.len() == 0 {
        None
    } else {
        match strip_prefix_seq(trim_seq(parts[0]), "filename*="@) {
            Some(rest) => match ext_value_name(rest) {
                Some(n) => Some(decode_or_keep(n)),
                None => cd_ext_name(parts.drop_first()),
            },
            None => cd_ext_name(parts.drop_first()),
        }
    }
}

/// First `filename=` parameter among `parts`, quotes removed.
pub open spec fn cd_plain_name(parts: Seq<Seq<char>>) -> Option<Seq<char>>
    decreases parts.len(),
{
    if parts.len() == 0 {
        None
    } else {
        match strip_prefix_seq(trim_seq(parts[0]), "filename="@) {
            Some(rest) => Some(trim_char_seq(rest, '"')),
            None => cd_plain_name(parts.drop_first()),
        }
    }
}

/// The file name a `Content-Disposition` value gives: `filename*=` (RFC
/// 5987) first, then `filename=`.
pub open spec fn content_disposition_name(v: Seq<char>) -> Option<Seq<char>> {
    match cd_ext_name(split_seq(v, ';')) {
        Some(n) => Some(n),
        None => cd_plain_name(split_seq(v, ';')),
    }
}

fn ext_value_name_exec(rest: &[char]) -> (r: Option<Vec<char>>)
    ensures
        r matches Some(n) ==> ext_value_name(rest@) == Some(n@),
        r is None ==> ext_value_name(rest@) is None,
{
    let sep = chars_of("''");
    proof {
        reveal_strlit("''");
    }
    assert(sep@.len() == 2);
    match find_chars(rest, sep.as_slice()) {
        None => None,
        Some(i) => {
            assert(i + 2 <= rest@.len());
            assert(rest@.len() == rest.len());
            let after = slice_chars(rest, i + 2, rest.len());
            assert(after@ =~= rest@.skip(i + 2));
            match find_chars(after.as_slice(), sep.as_slice()) {
                Some(j) => {
                    let n = slice_chars(after.as_slice(), 0, j);
                    assert(n@ =~= after@.take(j as int));
                    Some(n)
                },
                None => Some(after),
            }
        },
    }
}

/// Parse filename from Content-Disposition header value
pub fn parse_content_disposition(value: &str) -> (r: Option<String>)
    ensures
        r matches Some(n) ==> content_disposition_name(value@) == Some(n@),
        r is None ==> content_disposition_name(value@) is None,
{
    let vc = chars_of(value);
    let parts = split_chars(vc.as_slice(), ';');
    let ghost ps = split_seq(value@, ';');
    let mut i: usize = 0;
    assert(ps.skip(0) =~= ps);
    while i < parts.len()
        invariant
            i <= parts@.len(),
            parts@.len() == ps.len(),
            ps == split_seq(value@, ';'),
            forall|k: int| 0 <= k < parts@.len() ==> #[trigger] parts@[k]@ == ps[k],
            cd_ext_name(ps) == cd_ext_name(ps.skip(i as int)),
        decreases parts@.len() - i,
    {
        let part = trim(parts[i].as_slice());
        assert(ps.skip(i as int)[0] == ps[i as int]);
        assert(ps.skip(i as int).drop_first() =~= ps.skip(i + 1));
        match strip_prefix_chars(part.as_slice(), "filename*=") {
            Some(rest) => {
                match ext_value_name_exec(rest.as_slice()) {
                    Some(n) => {
                        return Some(decode_or_keep_exec(n.as_slice()));
                    },
                    None => {},
                }
            },
            None => {},
        }
        i = i + 1;
    }
    assert(ps.skip(i as int).len() == 0);
    let mut i: usize = 0;
    assert(ps.skip(0) =~= ps);
    while i < parts.len()
        invariant
            i <= parts@.len(),
            parts@.len() == ps.len(),
            ps == split_seq(value@, ';'),
            forall|k: int| 0 <= k < parts@.len() ==> #[trigger] parts@[k]@ == ps[k],
            cd_ext_name(ps) is None,
            cd_plain_name(ps) == cd_plain_name(ps.skip(i as int)),
        decreases parts@.len() - i,
    {
        let part = trim(parts[i].as_slice());
        assert(ps.skip(i as int)[0] == ps[i as int]);
        assert(ps.skip(i as int).drop_first() =~= ps.skip(i + 1));
        match strip_prefix_chars(part.as_slice(), "filename=") {
            Some(rest) => {
                let name = trim_char(rest.as_slice(), '"');
                return Some(string_of(name.as_slice()));
            },
            None => {},
        }
        i = i + 1;
    }
    assert(ps.skip(i as int).len() == 0);
    None
}

/// The file name a response offers: from its `Content-Disposition` value,
/// else the last segment of the URL's path, percent-decoded; `None` when
/// that segment is empty or missing.
pub open spec fn response_filename(content_disposition: Option<Seq<char>>, url: Seq<char>) -> Option<
    Seq<char>,
> {
    match content_disposition {
        Some(cd) if content_disposition_name(cd) is Some => content_disposition_name(cd),
        _ => match url_last_segment(url) {
            None => None,
            Some(last) => if last.len() == 0 {
                None
            } else {
                Some(decode_or_keep(last))
            },
        },
    }
}

/// Extract filename from Content-Disposition header or URL path
pub fn extract_filename(content_disposition: Option<&str>, url: &str) -> (r: Option<String>)
    ensures
        r matches Some(n) ==> response_filename(opt_str_view(content_disposition), url@) == Some(
            n@,
        ),
        r is None ==> response_filename(opt_str_view(content_disposition), url@) is None,
{
    match content_disposition {
        Some(cd) => match parse_content_disposition(cd) {
            Some(name) => return Some(name),
            None => {},
        },
        None => {},
    }
    match url_path_last_segment(url) {
        None => None,
        Some(last) => {
            let lc = chars_of(last.as_str());
            if lc.len() == 0 {
                None
            } else {
                Some(decode_or_keep_exec(lc.as_slice()))
            }
        },
    }
}

/// File metadata obtained from a HEAD request
#[derive(Debug)]
pub struct FileMetadata {
    pub content_length: Option<u64>,
    pub supports_range: bool,
    pub filename: Option<String>,
    pub etag: Option<String>,
    /// The final URL after following redirects
    pub final_url: Option<String>,
}

/// `StatusCode::is_success`: a 2xx status.
pub fn is_success_status(code: u16) -> (r: bool)
    ensures
        r == (200 <= code && code <= 299),
{
    200 <= code && code <= 299
}

pub open spec fn opt_string_view(o: Option<String>) -> Option<Seq<char>> {
    match o {
        Some(c) => Some(c@),
        None => None,
    }
}

/// Metadata of a successful HEAD response to `request_url`, from the URL the
/// response came from (after redirects) and the text of its
/// `Content-Length`, `Accept-Ranges`, `Content-Disposition` and `ETag`
/// headers, where present and readable as text.
pub fn metadata_from_response(
    request_url: &str,
    response_url: &str,
    content_length: Option<&str>,
    accept_ranges: Option<&str>,
    content_disposition: Option<&str>,
    etag: Option<&str>,
) -> (m: FileMetadata)
    ensures
        m.content_length == (match content_length {
            Some(c) => parse_u64_seq(c@),
            None => None,
        }),
        m.supports_range == (match accept_ranges {
            Some(a) => contains_seq(a@, "bytes"@),
            None => false,
        }),
        opt_string_view(m.filename) == response_filename(
            opt_str_view(content_disposition),
            response_url@,
        ),
        opt_string_view(m.etag) == opt_str_view(etag),
        opt_string_view(m.final_url) == (if response_url@ == request_url@ {
            None
        } else {
            Some(response_url@)
        }),
{
    let rq = chars_of(request_url);
    let rs = chars_of(response_url);
    let final_url = if chars_eq(rq.as_slice(), rs.as_slice()) {
        None
    } else {
        Some(string_of(rs.as_slice()))
    };
    let length = match content_length {
        Some(c) => parse_u64(chars_of(c).as_slice()),
        None => None,
    };
    let supports_range = match accept_ranges {
        Some(a) => contains_chars(chars_of(a).as_slice(), "bytes"),
        None => false,
    };
    let filename = extract_filename(content_disposition, response_url);
    let etag = match etag {
        Some(e) => Some(string_of(chars_of(e).as_slice())),
        None => None,
    };
    FileMetadata { content_length: length, supports_range, filename, etag, final_url }
}

/// The message a header error is reported with.
pub open spec fn header_error_text(e: HeaderFault) -> Seq<char> {
    match e {
        HeaderFault::Format(h) => "invalid header format: '"@ + h + "' (expected 'Key: Value')"@,
        HeaderFault::Name(k) => "invalid header name: '"@ + k + "'"@,
        HeaderFault::Value(v) => "invalid header value: '"@ + v + "'"@,
        HeaderFault::Cookie => "invalid cookie value"@,
    }
}

impl HeaderError {
    pub fn message(&self) -> (r: String)
        ensures
            r@ == header_error_text(self@),
    {
        let mut v: Vec<char> = Vec::new();
        match self {
            HeaderError::InvalidFormat(h) => {
                push_str_chars(&mut v, "invalid header format: '");
                push_str_chars(&mut v, h.as_str());
                push_str_chars(&mut v, "' (expected 'Key: Value')");
            },
            HeaderError::InvalidName(k) => {
                push_str_chars(&mut v, "invalid header name: '");
                push_str_chars(&mut v, k.as_str());
                push_str_chars(&mut v, "'");
            },
            HeaderError::InvalidValue(x) => {
                push_str_chars(&mut v, "invalid header value: '");
                push_str_chars(&mut v, x.as_str());
                push_str_chars(&mut v, "'");
            },
            HeaderError::InvalidCookie => {
                push_str_chars(&mut v, "invalid cookie value");
            },
        }
        string_of(v.as_slice())
    }
}

proof fn lemma_first_value_push(s: Seq<(Seq<char>, Seq<char>)>, x: (Seq<char>, Seq<char>), name: Seq<char>)
    ensures
        first_value(s.push(x), name) == match first_value(s, name) {
            Some(v) => Some(v),
            None => if x.0 == name {
                Some(x.1)
            } else {
                None
            },
        },
    decreases s.len(),
{
    let sx = s.push(x);
    if s.len() > 0 {
        assert(sx[0] == s[0]);
        assert(sx.drop_first() =~= s.drop_first().push(x));
        lemma_first_value_push(s.drop_first(), x, name);
        if s[0].0 != name {
            assert(first_value(sx, name) == first_value(sx.drop_first(), name));
            assert(first_value(s, name) == first_value(s.drop_first(), name));
        }
    } else {
        assert(sx[0] == x);
        assert(sx.drop_first() =~= Seq::<(Seq<char>, Seq<char>)>::empty());
        assert(first_value(sx.drop_first(), name) is None);
        assert(first_value(s, name) is None);
    }
}

proof fn lemma_without_name_absent(s: Seq<(Seq<char>, Seq<char>)>, name: Seq<char>)
    ensures
        first_value(without_name(s, name), name) is None,
    decreases s.len(),
{
    if s.len() > 0 {
        lemma_without_name_absent(s.drop_last(), name);
        if s.last().0 != name {
            lemma_first_value_push(without_name(s.drop_last(), name), s.last(), name);
        }
    }
}

/// The cookie given to `parse_headers` is the cookie the headers carry,
/// whatever `Cookie` header the lines also name.
pub proof fn lemma_cookie_argument_wins(hs: Seq<Seq<char>>, cookie: Seq<char>)
    ensures
        headers_with_cookie(hs, Some(cookie)) matches Ok(entries) ==> first_value(entries, "cookie"@)
            == Some(cookie),
{
    match header_lines(hs) {
        Ok(acc) => {
            if valid_header_value(cookie) {
                lemma_without_name_absent(acc, "cookie"@);
                lemma_first_value_push(without_name(acc, "cookie"@), ("cookie"@, cookie), "cookie"@);
            }
        },
        Err(_) => {},
    }
}

/// The headers a task's own header lines and cookie add to its requests:
/// none when it has neither, and an empty list when they cannot be used.
pub open spec fn task_header_entries(hs: Seq<Seq<char>>, cookie: Option<Seq<char>>) -> Option<
    Seq<(Seq<char>, Seq<char>)>,
> {
    if hs.len() == 0 && cookie is None {
        None
    } else {
        match headers_with_cookie(hs, cookie) {
            Ok(e) => Some(e),
            Err(_) => Some(Seq::empty()),
        }
    }
}

pub fn task_headers(headers: &[String], cookie: Option<&str>) -> (r: Option<HeaderList>)
    ensures
        match r {
            Some(l) => task_header_entries(strings_view(headers@), opt_str_view(cookie)) == Some(l@),
            None => task_header_entries(strings_view(headers@), opt_str_view(cookie)) is None,
        },
{
    if headers.len() == 0 && cookie.is_none() {
        return None;
    }
    match parse_headers(headers, cookie) {
        Ok(l) => Some(l),
        Err(_) => Some(HeaderList::new()),
    }
}

/// Part `i` of a `Content-Disposition` value is a `filename*=` parameter
/// carrying the (still encoded) name `n`.
pub open spec fn ext_param_at(parts: Seq<Seq<char>>, i: int, n: Seq<char>) -> bool {
    &&& 0 <= i < parts.len()
    &&& strip_prefix_seq(trim_seq(parts[i]), "filename*="@) is Some
    &&& ext_value_name(strip_prefix_seq(trim_seq(parts[i]), "filename*="@)->0) == Some(n)
}

/// Part `i` is a `filename*=` parameter that carries some name.
pub open spec fn has_ext_param_at(parts: Seq<Seq<char>>, i: int) -> bool {
    &&& 0 <= i < parts.len()
    &&& strip_prefix_seq(trim_seq(parts[i]), "filename*="@) is Some
    &&& ext_value_name(strip_prefix_seq(trim_seq(parts[i]), "filename*="@)->0) is Some
}

proof fn lemma_cd_ext_first(parts: Seq<Seq<char>>, i: int, n: Seq<char>)
    requires
        ext_param_at(parts, i, n),
        forall|j: int| 0 <= j < i ==> !has_ext_param_at(parts, j),
    ensures
        cd_ext_name(parts) == Some(decode_or_keep(n)),
    decreases i,
{
    if i > 0 {
        assert(!has_ext_param_at(parts, 0));
        let rest = parts.drop_first();
        assert forall|j: int| 0 <= j < i - 1 implies !has_ext_param_at(rest, j) by {
            assert(rest[j] == parts[j + 1]);
            assert(!has_ext_param_at(parts, j + 1));
        }
        assert(rest[i - 1] == parts[i]);
        lemma_cd_ext_first(rest, i - 1, n);
    }
}

proof fn lemma_cd_ext_none(parts: Seq<Seq<char>>)
    requires
        forall|j: int| 0 <= j < parts.len() ==> !has_ext_param_at(parts, j),
    ensures
        cd_ext_name(parts) is None,
    decreases parts.len(),
{
    if parts.len() > 0 {
        assert(!has_ext_param_at(parts, 0));
        let rest = parts.drop_first();
        assert forall|j: int| 0 <= j < rest.len() implies !has_ext_param_at(rest, j) by {
            assert(rest[j] == parts[j + 1]);
            assert(!has_ext_param_at(parts, j + 1));
        }
        lemma_cd_ext_none(rest);
    }
}

proof fn lemma_cd_plain_first(parts: Seq<Seq<char>>, i: int)
    requires
        0 <= i < parts.len(),
        strip_prefix_seq(trim_seq(parts[i]), "filename="@) is Some,
        forall|j: int| 0 <= j < i ==> strip_prefix_seq(trim_seq(#[trigger] parts[j]), "filename="@) is None,
    ensures
        cd_plain_name(parts) == Some(
            trim_char_seq(strip_prefix_seq(trim_seq(parts[i]), "filename="@)->0, '"'),
        ),
    decreases i,
{
    if i > 0 {
        assert(strip_prefix_seq(trim_seq(parts[0]), "filename="@) is None);
        let rest = parts.drop_first();
        assert forall|j: int| 0 <= j < i - 1 implies strip_prefix_seq(
            trim_seq(#[trigger] rest[j]),
            "filename="@,
        ) is None by {
            assert(rest[j] == parts[j + 1]);
        }
        assert(rest[i - 1] == parts[i]);
        lemma_cd_plain_first(rest, i - 1);
    }
}

/// A `filename*=` (RFC 5987) name wins: when some parameter of a
/// `Content-Disposition` value is `filename*=` with a name, the file name is
/// the decoded name of the first such parameter, whatever `filename=`
/// parameters stand before or after it.
pub proof fn lemma_ext_filename_preferred(v: Seq<char>, i: int, n: Seq<char>)
    requires
        ext_param_at(split_seq(v, ';'), i, n),
        forall|j: int| 0 <= j < i ==> !has_ext_param_at(split_seq(v, ';'), j),
    ensures
        content_disposition_name(v) == Some(decode_or_keep(n)),
{
    lemma_cd_ext_first(split_seq(v, ';'), i, n);
}

/// Without a usable `filename*=` parameter, the first `filename=`
/// parameter gives the file name, with surrounding quotes removed.
pub proof fn lemma_plain_filename_fallback(v: Seq<char>, i: int)
    requires
        forall|j: int| 0 <= j < split_seq(v, ';').len() ==> !has_ext_param_at(split_seq(v, ';'), j),
        0 <= i < split_seq(v, ';').len(),
        strip_prefix_seq(trim_seq(split_seq(v, ';')[i]), "filename="@) is Some,
        forall|j: int|
            0 <= j < i ==> strip_prefix_seq(trim_seq(#[trigger] split_seq(v, ';')[j]), "filename="@)
                is None,
    ensures
        content_disposition_name(v) == Some(
            trim_char_seq(strip_prefix_seq(trim_seq(split_seq(v, ';')[i]), "filename="@)->0, '"'),
        ),
{
    lemma_cd_ext_none(split_seq(v, ';'));
    lemma_cd_plain_first(split_seq(v, ';'), i);
}

} // verus!

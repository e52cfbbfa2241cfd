//! Checksum strings (`algo=hex`) and incremental file digests.

use digest::Digest;
use vstd::prelude::*;

use crate::util::text::{
    ascii_lower, ascii_lower_char, chars_eq_str, chars_of, push_str_chars, split_once_chars, split_once_seq, string_of, trim, trim_seq,
};

verus! {

/// Algorithms accepted in a checksum string.
pub open spec fn supported_algo(a: Seq<char>) -> bool {
    a == "sha256"@ || a == "sha1"@ || a == "md5"@
}

#[derive(Debug)]
pub enum ChecksumError {
    /// No `=` between algorithm and digest.
    InvalidFormat,
    /// An algorithm other than sha256, sha1 and md5.
    UnsupportedAlgorithm(String),
    /// The computed digest differs from the expected one.
    Mismatch { algo: String, expected: String, actual: String },
}

/// What `parse_checksum` gives back for `s`: the trimmed text before and
/// after the first `=`, when the first part names a supported algorithm.
pub open spec fn checksum_parts(s: Seq<char>) -> Option<(Seq<char>, Seq<char>)> {
    match split_once_seq(s, '=') {
        Some(p) => Some((trim_seq(p.0), trim_seq(p.1))),
        None => None,
    }
}

/// Parse a checksum string like "sha256=abc123..." into (algorithm, expected_hex)
pub fn parse_checksum(s: &str) -> (r: Result<(String, String), ChecksumError>)
    ensures
        checksum_parts(s@) is None ==> r == Err::<(String, String), ChecksumError>(
            ChecksumError::InvalidFormat,
        ),
        checksum_parts(s@) matches Some(p) ==> {
            &&& supported_algo(p.0) ==> (r matches Ok(v) && v.0@ == p.0 && v.1@ == p.1)
            &&& !supported_algo(p.0) ==> (r matches Err(ChecksumError::UnsupportedAlgorithm(a))
                && a@ == p.0)
        },
{
    let cs = chars_of(s);
    match split_once_chars(cs.as_slice(), '=') {
        None => Err(ChecksumError::InvalidFormat),
        Some((a, h)) => {
            let algo = trim(a.as_slice());
            let hash = trim(h.as_slice());
            let ok = chars_eq_str(algo.as_slice(), "sha256") || chars_eq_str(
                algo.as_slice(),
                "sha1",
            ) || chars_eq_str(algo.as_slice(), "md5");
            if ok {
                Ok((string_of(algo.as_slice()), string_of(hash.as_slice())))
            } else {
                Err(ChecksumError::UnsupportedAlgorithm(string_of(algo.as_slice())))
            }
        },
    }
}


/// Running SHA-256 state (`sha2::Sha256`).
#[verifier::external_body]
pub struct Sha256State {
    inner: sha2::Sha256,
}

/// Running SHA-1 state (`sha1::Sha1`).
#[verifier::external_body]
pub struct Sha1State {
    inner: sha1::Sha1,
}

/// Running MD5 state (`md5::Md5` of the md-5 crate).
#[verifier::external_body]
pub struct Md5State {
    inner: md5::Md5,
}

/// The bytes fed to a SHA-256 state so far.
pub uninterp spec fn sha256_absorbed(s: Sha256State) -> Seq<u8>;

/// The bytes fed to a SHA-1 state so far.
pub uninterp spec fn sha1_absorbed(s: Sha1State) -> Seq<u8>;

/// The bytes fed to an MD5 state so far.
pub uninterp spec fn md5_absorbed(s: Md5State) -> Seq<u8>;

/// The SHA-256 digest of `data`.
pub uninterp spec fn sha256_digest(data: Seq<u8>) -> Seq<u8>;

/// The SHA-1 digest of `data`.
pub uninterp spec fn sha1_digest(data: Seq<u8>) -> Seq<u8>;

/// The MD5 digest of `data`.
pub uninterp spec fn md5_digest(data: Seq<u8>) -> Seq<u8>;

/// `sha2::Sha256::new()`: a state that has absorbed nothing.
#[verifier::external_body]
fn sha256_start() -> (s: Sha256State)
    ensures
        sha256_absorbed(s) == Seq::<u8>::empty(),
{
    Sha256State { inner: sha2::Sha256::new() }
}

/// `Digest::update` on a SHA-256 state: `data` is appended to what it has
/// absorbed.
#[verifier::external_body]
fn sha256_feed(s: &mut Sha256State, data: &[u8])
    ensures
        sha256_absorbed(*final(s)) == sha256_absorbed(*old(s)) + data@,
{
    s.inner.update(data);
}

/// `Digest::finalize` on a SHA-256 state: the 32-byte digest of all it absorbed.
#[verifier::external_body]
fn sha256_finish(s: Sha256State) -> (d: Vec<u8>)
    ensures
        d@ == sha256_digest(sha256_absorbed(s)),
        d@.len() == 32,
{
    s.inner.finalize().to_vec()
}

/// `sha1::Sha1::new()`: a state that has absorbed nothing.
#[verifier::external_body]
fn sha1_start() -> (s: Sha1State)
    ensures
        sha1_absorbed(s) == Seq::<u8>::empty(),
{
    Sha1State { inner: sha1::Sha1::new() }
}

/// `Digest::update` on a SHA-1 state: `data` is appended to what it has absorbed.
#[verifier::external_body]
fn sha1_feed(s: &mut Sha1State, data: &[u8])
    ensures
        sha1_absorbed(*final(s)) == sha1_absorbed(*old(s)) + data@,
{
    s.inner.update(data);
}

/// `Digest::finalize` on a SHA-1 state: the 20-byte digest of all it absorbed.
#[verifier::external_body]
fn sha1_finish(s: Sha1State) -> (d: Vec<u8>)
    ensures
        d@ == sha1_digest(sha1_absorbed(s)),
        d@.len() == 20,
{
    s.inner.finalize().to_vec()
}

/// `md5::Md5::new()`: a state that has absorbed nothing.
#[verifier::external_body]
fn md5_start() -> (s: Md5State)
    ensures
        md5_absorbed(s) == Seq::<u8>::empty(),
{
    Md5State { inner: md5::Md5::new() }
}

/// `Digest::update` on an MD5 state: `data` is appended to what it has absorbed.
#[verifier::external_body]
fn md5_feed(s: &mut Md5State, data: &[u8])
    ensures
        md5_absorbed(*final(s)) == md5_absorbed(*old(s)) + data@,
{
    s.inner.update(data);
}

/// `Digest::finalize` on an MD5 state: the 16-byte digest of all it absorbed.
#[verifier::external_body]
fn md5_finish(s: Md5State) -> (d: Vec<u8>)
    ensures
        d@ == md5_digest(md5_absorbed(s)),
        d@.len() == 16,
{
    s.inner.finalize().to_vec()
}

#[derive(Debug, Clone, Copy, PartialEq, Eq, Structural)]
pub enum ChecksumAlgo {
    Sha256,
    Sha1,
    Md5,
}

/// The algorithm a supported name stands for.
pub open spec fn algo_named(a: Seq<char>) -> Option<ChecksumAlgo> {
    if a == "sha256"@ {
        Some(ChecksumAlgo::Sha256)
    } else if a == "sha1"@ {
        Some(ChecksumAlgo::Sha1)
    } else if a == "md5"@ {
        Some(ChecksumAlgo::Md5)
    } else {
        None
    }
}

/// Digest of `data` under `algo`.
pub open spec fn digest_of(algo: ChecksumAlgo, data: Seq<u8>) -> Seq<u8> {
    match algo {
        ChecksumAlgo::Sha256 => sha256_digest(data),
        ChecksumAlgo::Sha1 => sha1_digest(data),
        ChecksumAlgo::Md5 => md5_digest(data),
    }
}

pub open spec fn hex_digit(v: nat) -> char {
    if v < 10 {
        (v + '0' as int) as char
    } else {
        (v - 10 + 'a' as int) as char
    }
}

/// Lower-case hexadecimal text of `bytes`, two digits per byte, as `{:x}`
/// writes a digest.
pub open spec fn hex_lower(bytes: Seq<u8>) -> Seq<char>
    decreases bytes.len(),
{
    if bytes.len() == 0 {
        Seq::empty()
    } else {
        hex_lower(bytes.drop_last()) + seq![
            hex_digit((bytes.last() / 16) as nat),
            hex_digit((bytes.last() % 16) as nat),
        ]
    }
}

fn hex_char(v: u8) -> (c: char)
    requires
        v < 16,
    ensures
        c == hex_digit(v as nat),
{
    if v < 10 {
        (48u8 + v) as char
    } else {
        (87u8 + v) as char
    }
}

fn hex_string(bytes: &[u8]) -> (r: String)
    ensures
        r@ == hex_lower(bytes@),
{
    let mut v: Vec<char> = Vec::new();
    let mut i: usize = 0;
    while i < bytes.len()
        invariant
            i <= bytes@.len(),
            v@ == hex_lower(bytes@.take(i as int)),
        decreases bytes@.len() - i,
    {
        let b = bytes[i];
        v.push(hex_char(b / 16));
        v.push(hex_char(b % 16));
        i = i + 1;
        assert(bytes@.take(i as int).drop_last() =~= bytes@.take(i - 1));
        assert(v@ =~= hex_lower(bytes@.take(i as int)));
    }
    assert(bytes@.take(bytes@.len() as int) =~= bytes@);
    string_of(v.as_slice())
}

/// Incremental digest of a file's bytes under one of the supported algorithms.
pub enum ChecksumHasher {
    Sha256(Sha256State),
    Sha1(Sha1State),
    Md5(Md5State),
}

impl ChecksumHasher {
    pub closed spec fn algo(self) -> ChecksumAlgo {
        match self {
            ChecksumHasher::Sha256(_) => ChecksumAlgo::Sha256,
            ChecksumHasher::Sha1(_) => ChecksumAlgo::Sha1,
            ChecksumHasher::Md5(_) => ChecksumAlgo::Md5,
        }
    }

    /// Bytes fed so far.
    pub closed spec fn absorbed(self) -> Seq<u8> {
        match self {
            ChecksumHasher::Sha256(s) => sha256_absorbed(s),
            ChecksumHasher::Sha1(s) => sha1_absorbed(s),
            ChecksumHasher::Md5(s) => md5_absorbed(s),
        }
    }

    /// A hasher for the algorithm named `algo` (sha256, sha1 or md5).
    pub fn new(algo: &str) -> (r: Result<Self, ChecksumError>)
        ensures
            algo_named(algo@) matches Some(a) ==> (r matches Ok(h) && h.algo() == a
                && h.absorbed() == Seq::<u8>::empty()),
            algo_named(algo@) is None ==> (r matches Err(ChecksumError::UnsupportedAlgorithm(n))
                && n@ == algo@),
    {
        let cs = chars_of(algo);
        if chars_eq_str(cs.as_slice(), "sha256") {
            Ok(ChecksumHasher::Sha256(sha256_start()))
        } else if chars_eq_str(cs.as_slice(), "sha1") {
            Ok(ChecksumHasher::Sha1(sha1_start()))
        } else if chars_eq_str(cs.as_slice(), "md5") {
            Ok(ChecksumHasher::Md5(md5_start()))
        } else {
            Err(ChecksumError::UnsupportedAlgorithm(string_of(cs.as_slice())))
        }
    }

    /// Feeds the next chunk of the file.
    pub fn update(&mut self, data: &[u8])
        ensures
            final(self).algo() == old(self).algo(),
            final(self).absorbed() == old(self).absorbed() + data@,
    {
        match self {
            ChecksumHasher::Sha256(s) => sha256_feed(s, data),
            ChecksumHasher::Sha1(s) => sha1_feed(s, data),
            ChecksumHasher::Md5(s) => md5_feed(s, data),
        }
    }

    /// Lower-case hex digest of everything fed.
    pub fn finalize_hex(self) -> (r: String)
        ensures
            r@ == hex_lower(digest_of(self.algo(), self.absorbed())),
    {
        match self {
            ChecksumHasher::Sha256(s) => {
                let d = sha256_finish(s);
                hex_string(d.as_slice())
            },
            ChecksumHasher::Sha1(s) => {
                let d = sha1_finish(s);
                hex_string(d.as_slice())
            },
            ChecksumHasher::Md5(s) => {
                let d = md5_finish(s);
                hex_string(d.as_slice())
            },
        }
    }
}

/// What `str::eq_ignore_ascii_case` decides.
pub open spec fn eq_ignore_ascii_case(a: Seq<char>, b: Seq<char>) -> bool {
    a.len() == b.len() && forall|i: int| 0 <= i < a.len() ==> ascii_lower(#[trigger] a[i])
        == ascii_lower(b[i])
}

/// Compares a computed digest with the expected one, ignoring ASCII case.
pub fn verify_digest(algo: &str, actual: &str, expected: &str) -> (r: Result<(), ChecksumError>)
    ensures
        eq_ignore_ascii_case(actual@, expected@) ==> r is Ok,
        !eq_ignore_ascii_case(actual@, expected@) ==> (r matches Err(
            ChecksumError::Mismatch { algo: a, expected: e, actual: x },
        ) && a@ == algo@ && e@ == expected@ && x@ == actual@),
{
    let a = chars_of(actual);
    let e = chars_of(expected);
    let same = a.len() == e.len();
    let mut i: usize = 0;
    if same {
        while i < a.len()
            invariant
                a@.len() == e@.len(),
                i <= a@.len(),
                a@ == actual@,
                e@ == expected@,
                forall|k: int| 0 <= k < i ==> ascii_lower(#[trigger] a@[k]) == ascii_lower(e@[k]),
            decreases a@.len() - i,
        {
            if ascii_lower_char(a[i]) != ascii_lower_char(e[i]) {
                return Err(
                    ChecksumError::Mismatch {
                        algo: string_of(chars_of(algo).as_slice()),
                        expected: string_of(e.as_slice()),
                        actual: string_of(a.as_slice()),
                    },
                );
            }
            i = i + 1;
        }
        Ok(())
    } else {
        Err(
            ChecksumError::Mismatch {
                algo: string_of(chars_of(algo).as_slice()),
                expected: string_of(e.as_slice()),
                actual: string_of(a.as_slice()),
            },
        )
    }
}

/// The message a checksum error is reported with.
pub open spec fn checksum_error_text(e: ChecksumError) -> Seq<char> {
    match e {
        ChecksumError::InvalidFormat => "invalid checksum format, expected algo=hex (e.g., sha256=abc123)"@,
        ChecksumError::UnsupportedAlgorithm(a) => "unsupported checksum algorithm: "@ + a@
            + " (supported: sha256, sha1, md5)"@,
        ChecksumError::Mismatch { algo, expected, actual } => "checksum mismatch ("@ + algo@
            + "): expected "@ + expected@ + ", got "@ + actual@,
    }
}

impl ChecksumError {
    pub fn message(&self) -> (r: String)
        ensures
            r@ == checksum_error_text(*self),
    {
        let mut v: Vec<char> = Vec::new();
        match self {
            ChecksumError::InvalidFormat => {
                push_str_chars(&mut v, "invalid checksum format, expected algo=hex (e.g., sha256=abc123)");
            },
            ChecksumError::UnsupportedAlgorithm(a) => {
                push_str_chars(&mut v, "unsupported checksum algorithm: ");
                push_str_chars(&mut v, a.as_str());
                push_str_chars(&mut v, " (supported: sha256, sha1, md5)");
            },
            ChecksumError::Mismatch { algo, expected, actual } => {
                push_str_chars(&mut v, "checksum mismatch (");
                push_str_chars(&mut v, algo.as_str());
                push_str_chars(&mut v, "): expected ");
                push_str_chars(&mut v, expected.as_str());
                push_str_chars(&mut v, ", got ");
                push_str_chars(&mut v, actual.as_str());
            },
        }
        string_of(v.as_slice())
    }
}

} // verus!

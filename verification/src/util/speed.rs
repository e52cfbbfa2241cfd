//! Token-bucket speed limiting and human-readable byte counts.

use vstd::prelude::*;

use crate::util::text::{decimal_seq, digit_char, push_decimal, push_str_chars, string_of};

verus! {

/// Length of one limiting window, in milliseconds.
pub const WINDOW_MS: u64 = 100;

#[verifier::external_type_specification]
#[verifier::external_body]
pub struct ExInstant(std::time::Instant);

/// The current instant of the monotonic clock (`std::time::Instant::now`).
/// Nothing is stated of the value: it comes from the machine's clock.
#[verifier::external_body]
fn instant_now() -> std::time::Instant {
    std::time::Instant::now()
}

/// Whole milliseconds elapsed since `t` (`Instant::elapsed`, read with
/// `Duration::as_millis`). Nothing is stated of the value: it depends on the
/// clock.
#[verifier::external_body]
fn elapsed_millis(t: &std::time::Instant) -> u128 {
    t.elapsed().as_millis()
}

/// What the limiter remembers: the configured limit and the bytes consumed
/// in the current window.
pub struct LimiterState {
    pub limit: u64,
    pub consumed: u64,
}

/// Bytes that went over the window's budget, and the limit in force; the
/// caller turns these into a pause.
#[derive(Debug, Clone, Copy, PartialEq, Eq, Structural)]
pub struct Overshoot {
    pub bytes: u64,
    pub limit: u64,
}

/// Byte budget of one window for a limit in bytes per second.
pub open spec fn window_budget(limit: u64) -> int {
    (limit * WINDOW_MS) / 1000
}

/// Bytes consumed in the window before a request of `bytes` is counted; the
/// window restarts when it has lasted `WINDOW_MS` or longer.
pub open spec fn consumed_before(s: LimiterState, restarted: bool) -> int {
    if restarted {
        0
    } else {
        s.consumed as int
    }
}

/// Outcome of consuming `bytes`: `None` when the window's total stays within
/// budget (and always when the limit is 0, meaning unlimited), otherwise the
/// number of bytes over budget.
pub open spec fn consume_outcome(s: LimiterState, bytes: u64, restarted: bool) -> Option<
    Overshoot,
> {
    if s.limit == 0 {
        None
    } else {
        let total = consumed_before(s, restarted) + bytes;
        if total > window_budget(s.limit) {
            Some(Overshoot { bytes: (total - window_budget(s.limit)) as u64, limit: s.limit })
        } else {
            None
        }
    }
}

/// State after consuming `bytes`.
pub open spec fn consume_next(s: LimiterState, bytes: u64, restarted: bool) -> LimiterState {
    if s.limit == 0 {
        s
    } else {
        LimiterState { limit: s.limit, consumed: (consumed_before(s, restarted) + bytes) as u64 }
    }
}

/// The arithmetic of a request stays within `u64`.
pub open spec fn consume_fits(s: LimiterState, bytes: u64, restarted: bool) -> bool {
    s.limit == 0 || (s.limit * WINDOW_MS <= u64::MAX && consumed_before(s, restarted) + bytes
        <= u64::MAX)
}

/// Token-bucket style speed limiter shared across all workers
pub struct SpeedLimiter {
    /// Max bytes per second (0 = unlimited)
    limit: u64,
    /// Bytes consumed in the current window
    consumed: u64,
    /// Window start time
    window_start: std::time::Instant,
}

impl View for SpeedLimiter {
    type V = LimiterState;

    closed spec fn view(&self) -> LimiterState {
        LimiterState { limit: self.limit, consumed: self.consumed }
    }
}

impl SpeedLimiter {
    pub fn new(limit: u64) -> (r: Self)
        ensures
            r@ == (LimiterState { limit, consumed: 0 }),
    {
        SpeedLimiter { limit, consumed: 0, window_start: instant_now() }
    }

    pub fn set_limit(&mut self, limit: u64)
        ensures
            final(self)@ == (LimiterState { limit, consumed: old(self)@.consumed }),
    {
        self.limit = limit;
    }

    pub fn limit(&self) -> (r: u64)
        ensures
            r == self@.limit,
    {
        self.limit
    }

    pub fn consumed(&self) -> (r: u64)
        ensures
            r == self@.consumed,
    {
        self.consumed
    }

    /// Consume `bytes` from the bucket when `elapsed_ms` milliseconds have
    /// passed since the current window started. Windows last `WINDOW_MS`
    /// (100 ms) for smoother throughput than 1-second bursts.
    pub fn consume_after(&mut self, bytes: u64, elapsed_ms: u128) -> (r: Option<Overshoot>)
        requires
            consume_fits(old(self)@, bytes, elapsed_ms >= WINDOW_MS as u128),
        ensures
            r == consume_outcome(old(self)@, bytes, elapsed_ms >= WINDOW_MS as u128),
            final(self)@ == consume_next(old(self)@, bytes, elapsed_ms >= WINDOW_MS as u128),
    {
        let limit = self.limit;
        if limit == 0 {
            return None;
        }
        if elapsed_ms >= WINDOW_MS as u128 {
            self.window_start = instant_now();
            self.consumed = 0;
        }
        let window_budget = limit * WINDOW_MS / 1000;
        let prev = self.consumed;
        let total = prev + bytes;
        self.consumed = total;
        if total > window_budget {
            Some(Overshoot { bytes: total - window_budget, limit })
        } else {
            None
        }
    }

    /// Consume `bytes` from the bucket. Returns the bytes over budget if the
    /// request goes over the limit; the window restarts once it has lasted
    /// `WINDOW_MS`, which depends on the clock.
    pub fn consume(&mut self, bytes: u64) -> (r: Option<Overshoot>)
        requires
            consume_fits(old(self)@, bytes, false),
        ensures
            ({
                ||| r == consume_outcome(old(self)@, bytes, true) && final(self)@ == consume_next(
                    old(self)@,
                    bytes,
                    true,
                )
                ||| r == consume_outcome(old(self)@, bytes, false) && final(self)@
                    == consume_next(old(self)@, bytes, false)
            }),
    {
        if self.limit == 0 {
            return None;
        }
        let elapsed = elapsed_millis(&self.window_start);
        self.consume_after(bytes, elapsed)
    }
}

/// With a limit of 0 nothing is ever throttled and nothing is counted.
pub proof fn lemma_unlimited_never_throttles(s: LimiterState, bytes: u64, restarted: bool)
    requires
        s.limit == 0,
    ensures
        consume_outcome(s, bytes, restarted) is None,
        consume_next(s, bytes, restarted) == s,
{
}

/// Within one window, a request is throttled exactly when the bytes of the
/// window, this request included, exceed a tenth of the limit.
pub proof fn lemma_throttled_iff_over_budget(s: LimiterState, bytes: u64)
    requires
        s.limit > 0,
    ensures
        consume_outcome(s, bytes, false) is Some <==> s.consumed + bytes > (s.limit * 100) / 1000,
{
}

/// Size units used by `format_bytes`.
pub open spec fn kib() -> nat {
    1024
}

pub open spec fn mib() -> nat {
    1024 * 1024
}

pub open spec fn gib() -> nat {
    1024 * 1024 * 1024
}

/// Largest integer below which every integer converts to `f64` exactly.
pub open spec fn f64_exact_limit() -> nat {
    0x20_0000_0000_0000
}

/// Smallest power of two, at least `u`, by which `n` can be divided to leave
/// fewer than 53 significant bits.
pub open spec fn sig_unit(n: nat, u: nat) -> nat
    decreases n - u,
    when u >= 1
{
    if n / u < f64_exact_limit() || 2 * u > n {
        u
    } else {
        sig_unit(n, 2 * u)
    }
}

/// The value that `n as f64` holds: `n` itself below 2^53, otherwise `n`
/// rounded to 53 significant bits, ties to even.
pub open spec fn f64_value(n: nat) -> nat {
    if n < f64_exact_limit() {
        n
    } else {
        let u = sig_unit(n, 1);
        let q = n / u;
        let r = n % u;
        if 2 * r > u || (2 * r == u && q % 2 == 1) {
            (q + 1) * u
        } else {
            q * u
        }
    }
}

/// `num / den` rounded to hundredths (ties to even), counted in hundredths.
pub open spec fn hundredths(num: nat, den: nat) -> nat {
    let q = (num * 100) / den;
    let r = (num * 100) % den;
    if 2 * r > den || (2 * r == den && q % 2 == 1) {
        q + 1
    } else {
        q
    }
}

/// `num / den` written with two decimals, as `{:.2}` writes it.
pub open spec fn fixed2(num: nat, den: nat) -> Seq<char> {
    let h = hundredths(num, den);
    decimal_seq(h / 100) + seq!['.', digit_char((h % 100) / 10), digit_char(h % 10)]
}

/// Human-readable size: bytes below 1 KiB as an integer, otherwise in KB, MB
/// or GB (powers of 1024) with two decimals.
pub open spec fn format_bytes_spec(bytes: u64) -> Seq<char> {
    if bytes >= gib() {
        fixed2(f64_value(bytes as nat), gib()) + " GB"@
    } else if bytes >= mib() {
        fixed2(bytes as nat, mib()) + " MB"@
    } else if bytes >= kib() {
        fixed2(bytes as nat, kib()) + " KB"@
    } else {
        decimal_seq(bytes as nat) + " B"@
    }
}

fn push_fixed2(out: &mut Vec<char>, num: u128, den: u128)
    requires
        1024 <= den <= 0x1_0000_0000_0000_0000,
        num <= 0x2_0000_0000_0000_0000,
    ensures
        final(out)@ == old(out)@ + fixed2(num as nat, den as nat),
{
    let x = num * 100;
    let q = x / den;
    let r = x % den;
    let h: u128 = if 2 * r > den || (2 * r == den && q % 2 == 1) {
        q + 1
    } else {
        q
    };
    assert(h == hundredths(num as nat, den as nat));
    assert(q * den <= x) by (nonlinear_arith)
        requires
            q == x / den,
            den > 0,
    ;
    assert(q * 1024 <= x) by (nonlinear_arith)
        requires
            q * den <= x,
            den >= 1024,
    ;
    assert(h / 100 <= u64::MAX);
    push_decimal(out, (h / 100) as u64);
    out.push('.');
    let tens: u8 = ((h % 100) / 10) as u8;
    let ones: u8 = (h % 10) as u8;
    out.push((48u8 + tens) as char);
    out.push((48u8 + ones) as char);
    assert(final(out)@ =~= old(out)@ + fixed2(num as nat, den as nat));
}

/// `n as f64`, as an exact integer.
fn f64_value_of(n: u64) -> (r: u128)
    ensures
        r as nat == f64_value(n as nat),
        r <= 0x2_0000_0000_0000_0000,
{
    if n < 0x20_0000_0000_0000 {
        return n as u128;
    }
    let mut u: u64 = 1;
    while n / u >= 0x20_0000_0000_0000 && u <= n / 2
        invariant
            1 <= u <= n,
            sig_unit(n as nat, u as nat) == sig_unit(n as nat, 1),
        decreases n - u,
    {
        u = u * 2;
    }
    assert(sig_unit(n as nat, u as nat) == u);
    let q = n / u;
    let r = n % u;
    let q2: u128 = if 2 * (r as u128) > u as u128 || (2 * (r as u128) == u as u128 && q % 2 == 1) {
        (q as u128) + 1
    } else {
        q as u128
    };
    assert(q * u <= n) by (nonlinear_arith)
        requires
            q == n / u,
            u >= 1,
    ;
    assert(q2 * (u as u128) <= 0x2_0000_0000_0000_0000) by (nonlinear_arith)
        requires
            q2 <= q + 1,
            q * u <= n,
            u <= n,
            n <= u64::MAX,
    ;
    q2 * (u as u128)
}

/// Format bytes to human-readable string
pub fn format_bytes(bytes: u64) -> (r: String)
    ensures
        r@ == format_bytes_spec(bytes),
{
    let mut v: Vec<char> = Vec::new();
    if bytes >= 1024 * 1024 * 1024 {
        let m = f64_value_of(bytes);
        push_fixed2(&mut v, m, 1024 * 1024 * 1024);
        push_str_chars(&mut v, " GB");
    } else if bytes >= 1024 * 1024 {
        push_fixed2(&mut v, bytes as u128, 1024 * 1024);
        push_str_chars(&mut v, " MB");
    } else if bytes >= 1024 {
        push_fixed2(&mut v, bytes as u128, 1024);
        push_str_chars(&mut v, " KB");
    } else {
        push_decimal(&mut v, bytes);
        push_str_chars(&mut v, " B");
    }
    assert(v@ =~= format_bytes_spec(bytes));
    string_of(&v)
}

/// How a speed limit is shown: `none` for no limit, else the bytes per
/// second as `format_bytes` writes them, followed by `/s`.
pub open spec fn speed_limit_text_spec(limit: u64) -> Seq<char> {
    if limit == 0 {
        "none"@
    } else {
        format_bytes_spec(limit) + "/s"@
    }
}

pub fn speed_limit_text(limit: u64) -> (r: String)
    ensures
        r@ == speed_limit_text_spec(limit),
{
    if limit == 0 {
        return string_of(crate::util::text::chars_of("none").as_slice());
    }
    let mut v = crate::util::text::chars_of(format_bytes(limit).as_str());
    push_str_chars(&mut v, "/s");
    string_of(v.as_slice())
}

} // verus!

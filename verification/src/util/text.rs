//! Character-level text utilities shared by the parsers and formatters.

use vstd::prelude::*;

verus! {

/// Unicode `White_Space` characters, the set that `char::is_whitespace` and
/// `str::trim` use.
pub open spec fn is_ws(c: char) -> bool {
    ||| c == '\t' || c == '\n' || c == '\u{0B}' || c == '\u{0C}' || c == '\r' || c == ' '
    ||| c == '\u{85}' || c == '\u{A0}' || c == '\u{1680}'
    ||| ('\u{2000}' <= c && c <= '\u{200A}')
    ||| c == '\u{2028}' || c == '\u{2029}' || c == '\u{202F}' || c == '\u{205F}'
    ||| c == '\u{3000}'
}

pub open spec fn trim_start_seq(s: Seq<char>) -> Seq<char>
    decreases s.len(),
{
    if s.len() > 0 && is_ws(s[0]) {
        trim_start_seq(s.drop_first())
    } else {
        s
    }
}

pub open spec fn trim_end_seq(s: Seq<char>) -> Seq<char>
    decreases s.len(),
{
    if s.len() > 0 && is_ws(s.last()) {
        trim_end_seq(s.drop_last())
    } else {
        s
    }
}

/// What `str::trim` gives back: leading and trailing whitespace removed.
pub open spec fn trim_seq(s: Seq<char>) -> Seq<char> {
    trim_end_seq(trim_start_seq(s))
}

pub fn is_ws_char(c: char) -> (r: bool)
    ensures
        r == is_ws(c),
{
    c == '\t' || c == '\n' || c == '\u{0B}' || c == '\u{0C}' || c == '\r' || c == ' '
        || c == '\u{85}' || c == '\u{A0}' || c == '\u{1680}' || ('\u{2000}' <= c && c
        <= '\u{200A}') || c == '\u{2028}' || c == '\u{2029}' || c == '\u{202F}' || c
        == '\u{205F}' || c == '\u{3000}'
}

/// The characters of `s`, in order.
pub fn chars_of(s: &str) -> (v: Vec<char>)
    ensures
        v@ == s@,
{
    let mut v: Vec<char> = Vec::new();
    for c in it: s.chars()
        invariant
            v@ == it.seq().take(it.index() as int),
    {
        v.push(c);
    }
    v
}


/// Appends one character to a string.
#[verifier::external_body]
pub fn push_char(s: &mut String, c: char)
    ensures
        final(s)@ == old(s)@.push(c),
{
    s.push(c);
}

/// Appends the characters of `s` to `v`.
pub fn push_str_chars(v: &mut Vec<char>, s: &str)
    ensures
        final(v)@ == old(v)@ + s@,
{
    let cs = chars_of(s);
    let mut i: usize = 0;
    while i < cs.len()
        invariant
            i <= cs@.len(),
            cs@ == s@,
            v@ =~= old(v)@ + s@.take(i as int),
        decreases cs@.len() - i,
    {
        v.push(cs[i]);
        i = i + 1;
        assert(v@ =~= old(v)@ + s@.take(i as int));
    }
    assert(s@.take(s@.len() as int) =~= s@);
}

/// A string holding exactly the characters `v`.
pub fn string_of(v: &[char]) -> (s: String)
    ensures
        s@ == v@,
{
    let mut s = String::new();
    let mut i: usize = 0;
    while i < v.len()
        invariant
            i <= v@.len(),
            s@ == v@.take(i as int),
        decreases v@.len() - i,
    {
        push_char(&mut s, v[i]);
        i = i + 1;
        assert(s@ =~= v@.take(i as int));
    }
    assert(v@.take(v@.len() as int) =~= v@);
    s
}

proof fn lemma_trim_start_skip(s: Seq<char>, i: int)
    requires
        0 <= i <= s.len(),
        forall|k: int| 0 <= k < i ==> is_ws(#[trigger] s[k]),
    ensures
        trim_start_seq(s) == trim_start_seq(s.skip(i)),
    decreases i,
{
    if i > 0 {
        assert(s.drop_first().skip(i - 1) =~= s.skip(i));
        lemma_trim_start_skip(s.drop_first(), i - 1);
    } else {
        assert(s.skip(0) =~= s);
    }
}

proof fn lemma_trim_end_take(s: Seq<char>, j: int)
    requires
        0 <= j <= s.len(),
        forall|k: int| j <= k < s.len() ==> is_ws(#[trigger] s[k]),
    ensures
        trim_end_seq(s) == trim_end_seq(s.take(j)),
    decreases s.len() - j,
{
    if j < s.len() {
        assert(s.drop_last().take(j) =~= s.take(j));
        lemma_trim_end_take(s.drop_last(), j);
    } else {
        assert(s.take(j) =~= s);
    }
}

/// `s` with leading and trailing whitespace removed, as `str::trim` does.
pub fn trim(s: &[char]) -> (r: Vec<char>)
    ensures
        r@ == trim_seq(s@),
{
    let n = s.len();
    let mut i: usize = 0;
    while i < n && is_ws_char(s[i])
        invariant
            i <= n,
            n == s@.len(),
            forall|k: int| 0 <= k < i ==> is_ws(#[trigger] s@[k]),
        decreases n - i,
    {
        i = i + 1;
    }
    proof {
        lemma_trim_start_skip(s@, i as int);
    }
    let mut j: usize = n;
    while j > i && is_ws_char(s[j - 1])
        invariant
            i <= j <= n,
            n == s@.len(),
            forall|k: int| j <= k < n ==> is_ws(#[trigger] s@[k]),
        decreases j,
    {
        j = j - 1;
    }
    let ghost t = s@.skip(i as int);
    proof {
        assert(i == n || !is_ws(s@[i as int]));
        assert(trim_start_seq(t) == t);
        assert forall|k: int| (j - i) <= k < t.len() implies is_ws(#[trigger] t[k]) by {
            assert(t[k] == s@[k + i]);
        }
        lemma_trim_end_take(t, j - i);
        let u = t.take(j - i);
        assert(j == i || !is_ws(u.last()));
        assert(trim_end_seq(u) == u);
    }
    let mut r: Vec<char> = Vec::new();
    let mut k: usize = i;
    while k < j
        invariant
            i <= k <= j <= n,
            n == s@.len(),
            r@ =~= s@.subrange(i as int, k as int),
        decreases j - k,
    {
        r.push(s[k]);
        k = k + 1;
    }
    assert(r@ =~= t.take(j - i));
    r
}


pub open spec fn is_digit(c: char) -> bool {
    '0' <= c && c <= '9'
}

pub open spec fn digit_val(c: char) -> nat {
    (c as int - '0' as int) as nat
}

pub open spec fn digit_char(d: nat) -> char {
    (d + '0' as int) as char
}

pub open spec fn all_digits(s: Seq<char>) -> bool {
    forall|i: int| 0 <= i < s.len() ==> is_digit(#[trigger] s[i])
}

/// The number that a string of decimal digits denotes.
pub open spec fn digits_value(s: Seq<char>) -> nat
    decreases s.len(),
{
    if s.len() == 0 {
        0
    } else {
        digits_value(s.drop_last()) * 10 + digit_val(s.last())
    }
}

/// What `u64::from_str` gives back: an optional `+`, then at least one ASCII
/// digit and nothing else, denoting a value that fits in a `u64`.
pub open spec fn parse_u64_seq(s: Seq<char>) -> Option<u64> {
    let d = if s.len() > 0 && s[0] == '+' {
        s.drop_first()
    } else {
        s
    };
    if d.len() > 0 && all_digits(d) && digits_value(d) <= u64::MAX {
        Some(digits_value(d) as u64)
    } else {
        None
    }
}

/// The decimal representation of `n`, as `u64::to_string` writes it.
pub open spec fn decimal_seq(n: nat) -> Seq<char>
    decreases n,
{
    if n < 10 {
        seq![digit_char(n)]
    } else {
        decimal_seq(n / 10).push(digit_char(n % 10))
    }
}

proof fn lemma_digits_value_prefix(s: Seq<char>, k: int)
    requires
        0 <= k <= s.len(),
    ensures
        digits_value(s.take(k)) <= digits_value(s),
    decreases s.len(),
{
    if k < s.len() {
        assert(s.drop_last().take(k) =~= s.take(k));
        lemma_digits_value_prefix(s.drop_last(), k);
    } else {
        assert(s.take(k) =~= s);
    }
}

/// The value of `s`, when `s` is an optional `+` then decimal digits that fit
/// in a `u64`; `None` otherwise.
pub fn parse_u64(s: &[char]) -> (r: Option<u64>)
    ensures
        r == parse_u64_seq(s@),
{
    let n = s.len();
    let start: usize = if n > 0 && s[0] == '+' {
        1
    } else {
        0
    };
    let ghost d = if s@.len() > 0 && s@[0] == '+' {
        s@.drop_first()
    } else {
        s@
    };
    assert(d =~= s@.skip(start as int));
    if start >= n {
        return None;
    }
    let mut acc: u64 = 0;
    let mut i: usize = start;
    while i < n
        invariant
            start <= i <= n,
            n == s@.len(),
            d =~= s@.skip(start as int),
            d == (if s@.len() > 0 && s@[0] == '+' {
                s@.drop_first()
            } else {
                s@
            }),
            d.len() > 0,
            all_digits(d.take(i - start)),
            acc as nat == digits_value(d.take(i - start)),
        decreases n - i,
    {
        let c = s[i];
        if !('0' <= c && c <= '9') {
            assert(d[i - start] == s@[i as int]);
            assert(!is_digit(d[i - start]));
            assert(!all_digits(d));
            return None;
        }
        let dv: u64 = (c as u32 - '0' as u32) as u64;
        assert(d.take(i - start + 1).drop_last() =~= d.take(i - start));
        assert(d.take(i - start + 1).last() == c);
        if acc > (u64::MAX - dv) / 10 {
            proof {
                assert(acc * 10 + dv > u64::MAX) by (nonlinear_arith)
                    requires
                        acc > (u64::MAX - dv) / 10,
                        dv <= 9,
                ;
                lemma_digits_value_prefix(d, i - start + 1);
                assert(digit_val(c) == dv);
                assert(digits_value(d.take(i - start + 1)) == acc * 10 + dv);
                assert(digits_value(d) > u64::MAX);
            }
            return None;
        }
        acc = acc * 10 + dv;
        i = i + 1;
        assert(all_digits(d.take(i - start)));
    }
    assert(d.take(n - start) =~= d);
    Some(acc)
}

/// Why `u64::from_str` refuses a string, as `std::num::IntErrorKind` names it.
#[derive(Debug, Clone, Copy, PartialEq, Eq, Structural)]
pub enum IntErrorKind {
    Empty,
    InvalidDigit,
    PosOverflow,
}

/// The digits `u64::from_str` reads: the string without a leading `+`.
pub open spec fn unsigned_digits(s: Seq<char>) -> Seq<char> {
    if s.len() > 0 && s[0] == '+' {
        s.drop_first()
    } else {
        s
    }
}

/// Some prefix of the digits, made of digits only, is already too large for
/// a `u64`: reading them left to right overflows before anything else fails.
pub open spec fn overflows_early(d: Seq<char>) -> bool {
    exists|j: int| 0 <= j <= d.len() && all_digits(#[trigger] d.take(j)) && digits_value(d.take(j)) > u64::MAX
}

/// The error `u64::from_str` reports for a string it refuses: `Empty` for
/// the empty string, `PosOverflow` when the digits read before the first
/// non-digit already exceed `u64::MAX`, `InvalidDigit` otherwise (a lone
/// sign among them).
pub open spec fn u64_error_kind(s: Seq<char>) -> IntErrorKind {
    if s.len() == 0 {
        IntErrorKind::Empty
    } else if s == seq!['+'] || s == seq!['-'] {
        IntErrorKind::InvalidDigit
    } else if overflows_early(unsigned_digits(s)) {
        IntErrorKind::PosOverflow
    } else {
        IntErrorKind::InvalidDigit
    }
}

/// The error `u64::from_str` reports for `s`, which it refuses.
pub fn u64_error(s: &[char]) -> (r: IntErrorKind)
    requires
        parse_u64_seq(s@) is None,
    ensures
        r == u64_error_kind(s@),
{
    let n = s.len();
    if n == 0 {
        return IntErrorKind::Empty;
    }
    if n == 1 && (s[0] == '+' || s[0] == '-') {
        proof {
            if s[0] == '+' {
                assert(s@ =~= seq!['+']);
            } else {
                assert(s@ =~= seq!['-']);
            }
        }
        return IntErrorKind::InvalidDigit;
    }
    assert(!(s@ == seq!['+'] || s@ == seq!['-'])) by {
        if s@ == seq!['+'] || s@ == seq!['-'] {
            assert(s@.len() == 1);
        }
    }
    let start: usize = if s[0] == '+' {
        1
    } else {
        0
    };
    let ghost d = unsigned_digits(s@);
    assert(d =~= s@.skip(start as int));
    let mut acc: u64 = 0;
    let mut i: usize = start;
    while i < n && '0' <= s[i] && s[i] <= '9'
        invariant
            start <= i <= n,
            n == s@.len(),
            d =~= s@.skip(start as int),
            d == unsigned_digits(s@),
            all_digits(d.take(i - start)),
            acc as nat == digits_value(d.take(i - start)),
        decreases n - i,
    {
        let c = s[i];
        let dv: u64 = (c as u32 - '0' as u32) as u64;
        assert(d.take(i - start + 1).drop_last() =~= d.take(i - start));
        assert(d.take(i - start + 1).last() == c);
        assert(all_digits(d.take(i - start + 1)));
        if acc > (u64::MAX - dv) / 10 {
            proof {
                assert(acc * 10 + dv > u64::MAX) by (nonlinear_arith)
                    requires
                        acc > (u64::MAX - dv) / 10,
                        dv <= 9,
                ;
                assert(digit_val(c) == dv);
                assert(digits_value(d.take(i - start + 1)) > u64::MAX);
                assert(overflows_early(d));
            }
            return IntErrorKind::PosOverflow;
        }
        acc = acc * 10 + dv;
        i = i + 1;
    }
    let ghost k = i - start;
    proof {
        if i == n {
            assert(d.take(k) =~= d);
            assert(d.len() > 0);
            assert(parse_u64_seq(s@) == Some(acc));
        }
        assert(k < d.len());
        assert(!is_digit(d[k]));
        assert forall|j: int| 0 <= j <= d.len() && all_digits(#[trigger] d.take(j)) implies digits_value(d.take(j)) <= u64::MAX by {
            if j > k {
                assert(d.take(j)[k] == d[k]);
            } else {
                assert(d.take(k).take(j) =~= d.take(j));
                lemma_digits_value_prefix(d.take(k), j);
            }
        }
    }
    IntErrorKind::InvalidDigit
}

proof fn lemma_decimal_seq_facts(n: nat)
    ensures
        decimal_seq(n).len() > 0,
        all_digits(decimal_seq(n)),
        digits_value(decimal_seq(n)) == n,
    decreases n,
{
    if n >= 10 {
        lemma_decimal_seq_facts(n / 10);
        let s = decimal_seq(n);
        assert(s.drop_last() =~= decimal_seq(n / 10));
        let k = (n % 10) as nat;
        assert(digit_val(digit_char(k)) == k);
        assert(s.last() == digit_char(k));
        assert(digits_value(s) == digits_value(s.drop_last()) * 10 + digit_val(s.last()));
        assert((n / 10) * 10 + n % 10 == n) by (nonlinear_arith);
        assert(all_digits(s));
    } else {
        let s = decimal_seq(n);
        assert(s.drop_last() =~= Seq::<char>::empty());
        assert(digit_val(digit_char(n)) == n);
        assert(digits_value(s) == digits_value(s.drop_last()) * 10 + digit_val(s.last()));
    }
}

/// Writing a number in decimal and reading it back gives the number.
pub proof fn lemma_parse_decimal_roundtrip(n: u64)
    ensures
        parse_u64_seq(decimal_seq(n as nat)) == Some(n),
{
    lemma_decimal_seq_facts(n as nat);
    let s = decimal_seq(n as nat);
    assert(is_digit(s[0]));
}

/// A string that neither starts nor ends with whitespace is its own trim.
pub proof fn lemma_trim_noop(s: Seq<char>)
    requires
        s.len() == 0 || (!is_ws(s[0]) && !is_ws(s.last())),
    ensures
        trim_seq(s) == s,
{
}

/// Decimal representations are non-empty digit strings, hence untouched by
/// trimming and free of suffix letters.
pub proof fn lemma_decimal_digits(n: nat)
    ensures
        decimal_seq(n).len() > 0,
        all_digits(decimal_seq(n)),
        digits_value(decimal_seq(n)) == n,
        trim_seq(decimal_seq(n)) == decimal_seq(n),
{
    lemma_decimal_seq_facts(n);
    let s = decimal_seq(n);
    assert(is_digit(s[0]));
    assert(is_digit(s[s.len() - 1]));
    lemma_trim_noop(s);
}

/// Appends the decimal digits of `n` to `out`.
pub fn push_decimal(out: &mut Vec<char>, n: u64)
    ensures
        final(out)@ == old(out)@ + decimal_seq(n as nat),
    decreases n,
{
    if n >= 10 {
        push_decimal(out, n / 10);
    }
    let d: u8 = (n % 10) as u8;
    out.push((48u8 + d) as char);
    proof {
        if n >= 10 {
            assert(decimal_seq(n as nat) == decimal_seq((n / 10) as nat).push(digit_char((n % 10) as nat)));
        }
    }
    assert(out@ =~= old(out)@ + decimal_seq(n as nat));
}

/// The decimal representation of `n`.
pub fn decimal_string(n: u64) -> (s: String)
    ensures
        s@ == decimal_seq(n as nat),
{
    let mut v: Vec<char> = Vec::new();
    push_decimal(&mut v, n);
    assert(v@ =~= decimal_seq(n as nat));
    string_of(&v)
}


/// Position of the first `c` in `s`.
pub open spec fn find_char(s: Seq<char>, c: char) -> Option<nat>
    decreases s.len(),
{
    if s.len() == 0 {
        None
    } else if s[0] == c {
        Some(0)
    } else {
        match find_char(s.drop_first(), c) {
            Some(i) => Some(i + 1),
            None => None,
        }
    }
}

/// What `str::split_once(c)` gives back: the text before and after the
/// first `c`.
pub open spec fn split_once_seq(s: Seq<char>, c: char) -> Option<(Seq<char>, Seq<char>)> {
    match find_char(s, c) {
        Some(i) => Some((s.take(i as int), s.skip(i as int + 1))),
        None => None,
    }
}

proof fn lemma_find_char(s: Seq<char>, c: char, i: int)
    requires
        0 <= i <= s.len(),
        forall|k: int| 0 <= k < i ==> #[trigger] s[k] != c,
        i < s.len() ==> s[i] == c,
    ensures
        find_char(s, c) == (if i < s.len() {
            Some(i as nat)
        } else {
            None
        }),
    decreases i,
{
    if i > 0 {
        assert forall|k: int| 0 <= k < i - 1 implies #[trigger] s.drop_first()[k] != c by {
            assert(s.drop_first()[k] == s[k + 1]);
        }
        lemma_find_char(s.drop_first(), c, i - 1);
    }
}

/// Index of the first `c` in `s`.
pub fn find_char_index(s: &[char], c: char) -> (r: Option<usize>)
    ensures
        r matches Some(i) ==> find_char(s@, c) == Some(i as nat) && i < s@.len() && s@[i as int]
            == c,
        r is None ==> find_char(s@, c) is None,
{
    let mut i: usize = 0;
    while i < s.len()
        invariant
            i <= s@.len(),
            forall|k: int| 0 <= k < i ==> #[trigger] s@[k] != c,
        decreases s@.len() - i,
    {
        if s[i] == c {
            proof {
                lemma_find_char(s@, c, i as int);
            }
            return Some(i);
        }
        i = i + 1;
    }
    proof {
        lemma_find_char(s@, c, i as int);
    }
    None
}

/// Copy of `s[from..to]`.
pub fn slice_chars(s: &[char], from: usize, to: usize) -> (r: Vec<char>)
    requires
        from <= to <= s@.len(),
    ensures
        r@ == s@.subrange(from as int, to as int),
{
    let mut r: Vec<char> = Vec::new();
    let mut k: usize = from;
    while k < to
        invariant
            from <= k <= to <= s@.len(),
            r@ =~= s@.subrange(from as int, k as int),
        decreases to - k,
    {
        r.push(s[k]);
        k = k + 1;
    }
    r
}

/// The two sides of the first `c` in `s`, as `str::split_once` gives them.
pub fn split_once_chars(s: &[char], c: char) -> (r: Option<(Vec<char>, Vec<char>)>)
    ensures
        r matches Some(p) ==> split_once_seq(s@, c) == Some((p.0@, p.1@)),
        r is None ==> split_once_seq(s@, c) is None,
{
    match find_char_index(s, c) {
        Some(i) => {
            assert(i < s.len());
            let a = slice_chars(s, 0, i);
            let b = slice_chars(s, i + 1, s.len());
            assert(a@ =~= s@.take(i as int));
            assert(b@ =~= s@.skip(i + 1));
            Some((a, b))
        },
        None => None,
    }
}

/// Whether two character sequences are equal.
pub fn chars_eq(a: &[char], b: &[char]) -> (r: bool)
    ensures
        r == (a@ == b@),
{
    if a.len() != b.len() {
        return false;
    }
    let mut i: usize = 0;
    while i < a.len()
        invariant
            i <= a@.len(),
            a@.len() == b@.len(),
            forall|k: int| 0 <= k < i ==> a@[k] == b@[k],
        decreases a@.len() - i,
    {
        if a[i] != b[i] {
            return false;
        }
        i = i + 1;
    }
    assert(a@ =~= b@);
    true
}

/// Whether the characters `a` spell the string `b`.
pub fn chars_eq_str(a: &[char], b: &str) -> (r: bool)
    ensures
        r == (a@ == b@),
{
    let bc = chars_of(b);
    chars_eq(a, bc.as_slice())
}


/// `s` starts with `p`.
pub open spec fn has_prefix(s: Seq<char>, p: Seq<char>) -> bool {
    p.len() <= s.len() && s.take(p.len() as int) == p
}

/// What `str::strip_prefix` gives back.
pub open spec fn strip_prefix_seq(s: Seq<char>, p: Seq<char>) -> Option<Seq<char>> {
    if has_prefix(s, p) {
        Some(s.skip(p.len() as int))
    } else {
        None
    }
}

/// `p` occurs in `s` at position `i`.
pub open spec fn occurs_at(s: Seq<char>, p: Seq<char>, i: int) -> bool {
    0 <= i && i + p.len() <= s.len() && s.subrange(i, i + p.len()) == p
}

/// Position of the first occurrence of `p` in `s` at or after `i`.
pub open spec fn find_seq_from(s: Seq<char>, p: Seq<char>, i: int) -> Option<nat>
    decreases s.len() - i,
{
    if i < 0 || i + p.len() > s.len() {
        None
    } else if occurs_at(s, p, i) {
        Some(i as nat)
    } else {
        proof {
            if p.len() == 0 {
                assert(s.subrange(i, i) =~= p);
            }
        }
        find_seq_from(s, p, i + 1)
    }
}

/// Position of the first occurrence of `p` in `s`.
pub open spec fn find_seq(s: Seq<char>, p: Seq<char>) -> Option<nat> {
    find_seq_from(s, p, 0)
}

/// What `str::contains` decides for a string pattern.
pub open spec fn contains_seq(s: Seq<char>, p: Seq<char>) -> bool {
    exists|i: int| occurs_at(s, p, i)
}

/// Removes `p` from the front of `s` when `s` starts with it.
pub fn strip_prefix_chars(s: &[char], p: &str) -> (r: Option<Vec<char>>)
    ensures
        r matches Some(v) ==> strip_prefix_seq(s@, p@) == Some(v@),
        r is None ==> strip_prefix_seq(s@, p@) is None,
{
    let pc = chars_of(p);
    if pc.len() > s.len() {
        return None;
    }
    let head = slice_chars(s, 0, pc.len());
    if chars_eq(head.as_slice(), pc.as_slice()) {
        assert(head@ =~= s@.take(p@.len() as int));
        let rest = slice_chars(s, pc.len(), s.len());
        assert(rest@ =~= s@.skip(p@.len() as int));
        Some(rest)
    } else {
        assert(head@ =~= s@.take(p@.len() as int));
        None
    }
}

pub(crate) fn occurs_at_exec(s: &[char], p: &[char], i: usize) -> (r: bool)
    requires
        i + p@.len() <= s@.len(),
    ensures
        r == occurs_at(s@, p@, i as int),
{
    let mut k: usize = 0;
    while k < p.len()
        invariant
            k <= p@.len(),
            i + p@.len() <= s@.len(),
            forall|j: int| 0 <= j < k ==> s@[i + j] == p@[j],
        decreases p@.len() - k,
    {
        assert(i + k < s.len());
        if s[i + k] != p[k] {
            assert(s@.subrange(i as int, i + p@.len())[k as int] != p@[k as int]);
            return false;
        }
        k = k + 1;
    }
    assert(s@.subrange(i as int, i + p@.len()) =~= p@);
    true
}

/// Position of the first occurrence of `p` in `s`.
pub fn find_chars(s: &[char], p: &[char]) -> (r: Option<usize>)
    ensures
        r matches Some(i) ==> find_seq(s@, p@) == Some(i as nat) && occurs_at(s@, p@, i as int),
        r is None ==> find_seq(s@, p@) is None && forall|j: int| !occurs_at(s@, p@, j),
{
    if p.len() > s.len() {
        return None;
    }
    if p.len() == 0 {
        assert(s@.subrange(0, 0) =~= p@);
        return Some(0);
    }
    let last = s.len() - p.len();
    let mut i: usize = 0;
    while i <= last
        invariant
            last + p@.len() == s@.len(),
            p@.len() >= 1,
            last < s.len(),
            i <= last + 1,
            forall|j: int| 0 <= j < i ==> !occurs_at(s@, p@, j),
            find_seq(s@, p@) == find_seq_from(s@, p@, i as int),
        decreases last + 1 - i,
    {
        if occurs_at_exec(s, p, i) {
            return Some(i);
        }
        i = i + 1;
    }
    assert forall|j: int| !occurs_at(s@, p@, j) by {
        if 0 <= j && j + p@.len() <= s@.len() {
            assert(j <= last);
        }
    }
    None
}

/// Whether `p` occurs in `s`.
pub fn contains_chars(s: &[char], p: &str) -> (r: bool)
    ensures
        r == contains_seq(s@, p@),
{
    let pc = chars_of(p);
    match find_chars(s, pc.as_slice()) {
        Some(_) => true,
        None => false,
    }
}

/// The pieces of `s` between occurrences of `c`, as `str::split(c)` yields
/// them: always at least one piece.
pub open spec fn split_seq(s: Seq<char>, c: char) -> Seq<Seq<char>>
    decreases s.len(),
{
    match find_char(s, c) {
        Some(i) => {
            proof {
                lemma_find_char_bound(s, c);
            }
            seq![s.take(i as int)] + split_seq(s.skip(i as int + 1), c)
        },
        None => seq![s],
    }
}

pub proof fn lemma_find_char_bound(s: Seq<char>, c: char)
    ensures
        find_char(s, c) matches Some(i) ==> i < s.len() && s[i as int] == c,
    decreases s.len(),
{
    if s.len() > 0 && s[0] != c {
        lemma_find_char_bound(s.drop_first(), c);
    }
}

/// The pieces of `s` between occurrences of `c`.
pub fn split_chars(s: &[char], c: char) -> (r: Vec<Vec<char>>)
    ensures
        r@.len() == split_seq(s@, c).len(),
        forall|i: int| 0 <= i < r@.len() ==> #[trigger] r@[i]@ == split_seq(s@, c)[i],
    decreases s@.len(),
{
    match find_char_index(s, c) {
        Some(i) => {
            assert(i < s.len());
            let head = slice_chars(s, 0, i);
            let tail = slice_chars(s, i + 1, s.len());
            let rest = split_chars(tail.as_slice(), c);
            let mut r: Vec<Vec<char>> = Vec::new();
            r.push(head);
            let mut k: usize = 0;
            assert(tail@ =~= s@.skip(i as int + 1));
            assert(head@ =~= s@.take(i as int));
            while k < rest.len()
                invariant
                    k <= rest@.len(),
                    r@.len() == k + 1,
                    r@[0]@ == s@.take(i as int),
                    forall|j: int| 1 <= j <= k ==> #[trigger] r@[j]@ == rest@[j - 1]@,
                decreases rest@.len() - k,
            {
                r.push(rest[k].clone());
                k = k + 1;
            }
            proof {
                let sp = split_seq(s@, c);
                assert(sp == seq![s@.take(i as int)] + split_seq(s@.skip(i as int + 1), c));
                assert forall|j: int| 0 <= j < r@.len() implies #[trigger] r@[j]@ == sp[j] by {
                    if j > 0 {
                        assert(rest@[j - 1]@ == split_seq(tail@, c)[j - 1]);
                    }
                }
            }
            r
        },
        None => {
            let mut r: Vec<Vec<char>> = Vec::new();
            r.push(slice_chars(s, 0, s.len()));
            assert(s@.subrange(0, s@.len() as int) =~= s@);
            r
        },
    }
}

/// `s` with every leading and trailing `c` removed, as `str::trim_matches`
/// does for a single character.
pub open spec fn trim_char_seq(s: Seq<char>, c: char) -> Seq<char>
    decreases s.len(),
{
    if s.len() > 0 && s[0] == c {
        trim_char_seq(s.drop_first(), c)
    } else if s.len() > 0 && s.last() == c {
        trim_char_seq(s.drop_last(), c)
    } else {
        s
    }
}

/// `s` with every leading and trailing `c` removed.
pub fn trim_char(s: &[char], c: char) -> (r: Vec<char>)
    ensures
        r@ == trim_char_seq(s@, c),
    decreases s@.len(),
{
    let n = s.len();
    if n > 0 && s[0] == c {
        let t = slice_chars(s, 1, n);
        assert(t@ =~= s@.drop_first());
        trim_char(t.as_slice(), c)
    } else if n > 0 && s[n - 1] == c {
        let t = slice_chars(s, 0, n - 1);
        assert(t@ =~= s@.drop_last());
        trim_char(t.as_slice(), c)
    } else {
        slice_chars(s, 0, n)
    }
}


/// ASCII lower-casing of one character (`char::to_ascii_lowercase`).
pub open spec fn ascii_lower(c: char) -> char {
    if 'A' <= c && c <= 'Z' {
        (c as int + 32) as char
    } else {
        c
    }
}

pub fn ascii_lower_char(c: char) -> (r: char)
    ensures
        r == ascii_lower(c),
{
    if 'A' <= c && c <= 'Z' {
        ((c as u32 + 32) as u8) as char
    } else {
        c
    }
}


/// The characters of an optional string.
pub open spec fn opt_str_view(o: Option<&str>) -> Option<Seq<char>> {
    match o {
        Some(c) => Some(c@),
        None => None,
    }
}


/// A copy of an optional string.
pub fn clone_opt_string(o: &Option<String>) -> (r: Option<String>)
    ensures
        r == *o,
{
    match o {
        Some(s) => Some(s.clone()),
        None => None,
    }
}

/// A copy of a list of strings.
pub fn clone_strings(v: &Vec<String>) -> (r: Vec<String>)
    ensures
        r@ == v@,
{
    let mut r: Vec<String> = Vec::new();
    let mut i: usize = 0;
    while i < v.len()
        invariant
            i <= v@.len(),
            r@ =~= v@.take(i as int),
        decreases v@.len() - i,
    {
        r.push(v[i].clone());
        i = i + 1;
    }
    assert(v@.take(v@.len() as int) =~= v@);
    r
}


/// Position of the last `c` in `s`.
pub open spec fn rfind_char(s: Seq<char>, c: char) -> Option<nat>
    decreases s.len(),
{
    if s.len() == 0 {
        None
    } else if s.last() == c {
        Some((s.len() - 1) as nat)
    } else {
        rfind_char(s.drop_last(), c)
    }
}

/// Index of the last `c` in `s`.
pub fn rfind_char_index(s: &[char], c: char) -> (r: Option<usize>)
    ensures
        r matches Some(i) ==> rfind_char(s@, c) == Some(i as nat) && i < s@.len(),
        r is None ==> rfind_char(s@, c) is None,
{
    let mut j: usize = s.len();
    assert(s@.take(j as int) =~= s@);
    while j > 0
        invariant
            j <= s@.len(),
            rfind_char(s@, c) == rfind_char(s@.take(j as int), c),
        decreases j,
    {
        assert(s@.take(j as int).last() == s@[j - 1]);
        assert(s@.take(j as int).drop_last() =~= s@.take(j - 1));
        if s[j - 1] == c {
            return Some(j - 1);
        }
        j = j - 1;
    }
    None
}

/// `s` from position `i` on, with every occurrence of `pat` replaced by `rep`,
/// scanning left to right as `str::replace` does (occurrences do not overlap).
pub open spec fn replace_from(s: Seq<char>, pat: Seq<char>, rep: Seq<char>, i: int) -> Seq<char>
    decreases s.len() - i,
{
    if i < 0 || i >= s.len() {
        Seq::empty()
    } else if pat.len() == 0 {
        s.skip(i)
    } else if occurs_at(s, pat, i) {
        rep + replace_from(s, pat, rep, i + pat.len())
    } else {
        seq![s[i]] + replace_from(s, pat, rep, i + 1)
    }
}

/// What `str::replace(pat, rep)` gives back for a non-empty `pat`.
pub open spec fn replace_all(s: Seq<char>, pat: Seq<char>, rep: Seq<char>) -> Seq<char> {
    replace_from(s, pat, rep, 0)
}

/// Replaces every occurrence of the non-empty `pat` in `s` by `rep`.
pub fn replace_all_chars(s: &[char], pat: &[char], rep: &[char]) -> (r: Vec<char>)
    requires
        pat@.len() > 0,
    ensures
        r@ == replace_all(s@, pat@, rep@),
{
    let mut v: Vec<char> = Vec::new();
    let mut i: usize = 0;
    while i < s.len()
        invariant
            i <= s@.len(),
            pat@.len() > 0,
            v@ + replace_from(s@, pat@, rep@, i as int) == replace_all(s@, pat@, rep@),
        decreases s@.len() - i,
    {
        let ghost before = v@;
        if pat.len() <= s.len() - i && occurs_at_exec(s, pat, i) {
            let mut k: usize = 0;
            while k < rep.len()
                invariant
                    k <= rep@.len(),
                    v@ == before + rep@.take(k as int),
                decreases rep@.len() - k,
            {
                v.push(rep[k]);
                k = k + 1;
                assert(rep@.take(k as int) =~= rep@.take(k - 1).push(rep@[k - 1]));
            }
            assert(rep@.take(k as int) =~= rep@);
            assert(before + replace_from(s@, pat@, rep@, i as int) =~= v@ + replace_from(
                s@,
                pat@,
                rep@,
                i + pat@.len(),
            ));
            i = i + pat.len();
        } else {
            assert(!occurs_at(s@, pat@, i as int));
            v.push(s[i]);
            assert(before + replace_from(s@, pat@, rep@, i as int) =~= v@ + replace_from(
                s@,
                pat@,
                rep@,
                i + 1,
            ));
            i = i + 1;
        }
    }
    assert(v@ + replace_from(s@, pat@, rep@, i as int) =~= v@);
    v
}

/// Replacing a pattern that does not occur changes nothing.
pub proof fn lemma_replace_absent(s: Seq<char>, pat: Seq<char>, rep: Seq<char>)
    requires
        forall|j: int| !occurs_at(s, pat, j),
    ensures
        replace_all(s, pat, rep) == s,
{
    lemma_replace_from_absent(s, pat, rep, 0);
    assert(s.skip(0) =~= s);
}

proof fn lemma_replace_from_absent(s: Seq<char>, pat: Seq<char>, rep: Seq<char>, i: int)
    requires
        0 <= i <= s.len(),
        forall|j: int| !occurs_at(s, pat, j),
    ensures
        replace_from(s, pat, rep, i) == s.skip(i),
    decreases s.len() - i,
{
    if i >= s.len() {
        assert(s.skip(i) =~= Seq::<char>::empty());
    } else if pat.len() == 0 {
    } else {
        assert(!occurs_at(s, pat, i));
        lemma_replace_from_absent(s, pat, rep, i + 1);
        assert(s.skip(i) =~= seq![s[i]] + s.skip(i + 1));
    }
}

/// The last `c` found lies inside the text.
pub proof fn lemma_rfind_char_bound(s: Seq<char>, c: char)
    ensures
        rfind_char(s, c) matches Some(i) ==> i < s.len() && s[i as int] == c,
    decreases s.len(),
{
    if s.len() > 0 && s.last() != c {
        lemma_rfind_char_bound(s.drop_last(), c);
    }
}

/// Different numbers are written differently.
pub proof fn lemma_decimal_injective(a: u64, b: u64)
    requires
        decimal_seq(a as nat) == decimal_seq(b as nat),
    ensures
        a == b,
{
    lemma_parse_decimal_roundtrip(a);
    lemma_parse_decimal_roundtrip(b);
}

/// Every character of `s` is whitespace.
pub open spec fn all_ws(s: Seq<char>) -> bool {
    forall|i: int| 0 <= i < s.len() ==> is_ws(#[trigger] s[i])
}

proof fn lemma_trim_start_ws_prefix(w: Seq<char>, y: Seq<char>)
    requires
        all_ws(w),
    ensures
        trim_start_seq(w + y) == trim_start_seq(y),
    decreases w.len(),
{
    if w.len() > 0 {
        assert((w + y)[0] == w[0]);
        assert((w + y).drop_first() =~= w.drop_first() + y);
        assert(all_ws(w.drop_first())) by {
            assert forall|i: int| 0 <= i < w.drop_first().len() implies is_ws(
                #[trigger] w.drop_first()[i],
            ) by {
                assert(w.drop_first()[i] == w[i + 1]);
            }
        }
        lemma_trim_start_ws_prefix(w.drop_first(), y);
    } else {
        assert(w + y =~= y);
    }
}

proof fn lemma_trim_end_ws_suffix(z: Seq<char>, w: Seq<char>)
    requires
        all_ws(w),
    ensures
        trim_end_seq(z + w) == trim_end_seq(z),
    decreases w.len(),
{
    if w.len() > 0 {
        assert((z + w).last() == w.last());
        assert((z + w).drop_last() =~= z + w.drop_last());
        assert(all_ws(w.drop_last())) by {
            assert forall|i: int| 0 <= i < w.drop_last().len() implies is_ws(
                #[trigger] w.drop_last()[i],
            ) by {
                assert(w.drop_last()[i] == w[i]);
            }
        }
        lemma_trim_end_ws_suffix(z, w.drop_last());
    } else {
        assert(z + w =~= z);
    }
}

proof fn lemma_trim_ws_suffix(x: Seq<char>, w: Seq<char>)
    requires
        all_ws(w),
    ensures
        trim_seq(x + w) == trim_seq(x),
    decreases x.len(),
{
    if x.len() == 0 {
        assert(x + w =~= w + Seq::<char>::empty());
        lemma_trim_start_ws_prefix(w, Seq::<char>::empty());
    } else if is_ws(x[0]) {
        assert((x + w)[0] == x[0]);
        assert((x + w).drop_first() =~= x.drop_first() + w);
        lemma_trim_ws_suffix(x.drop_first(), w);
    } else {
        assert((x + w)[0] == x[0]);
        lemma_trim_end_ws_suffix(x, w);
    }
}

/// Whitespace before and after a text does not change what trimming leaves.
pub proof fn lemma_trim_ignores_padding(w1: Seq<char>, x: Seq<char>, w2: Seq<char>)
    requires
        all_ws(w1),
        all_ws(w2),
    ensures
        trim_seq(w1 + x + w2) == trim_seq(x),
{
    assert(w1 + x + w2 =~= w1 + (x + w2));
    lemma_trim_start_ws_prefix(w1, x + w2);
    lemma_trim_ws_suffix(x, w2);
}

} // verus!

//! Parsing the OS-exposed timing counters.
//!
//! The timing sources are line-oriented ASCII text. The aggregate source
//! exposes seconds as decimal fractions ("12345.67"), parsed here into
//! whole nanoseconds; the per-core source exposes idle time in clock
//! ticks, converted to nanoseconds with the clock-tick frequency. A
//! malformed field, like a value outside the nanosecond range of a
//! 64-bit duration, parses to `None`, which callers treat as the fatal
//! condition it is.

use crate::snapshot::{Snapshot, SnapshotView};
use vstd::prelude::*;
use vstd::slice::slice_subrange;

verus! {

/// A whitespace byte: space or tab, the separators of the counter files.
pub open spec fn is_ws(b: u8) -> bool {
    b == 32 || b == 9
}

/// An ASCII decimal digit.
pub open spec fn is_digit(b: u8) -> bool {
    48 <= b <= 57
}

/// Every byte of `t` is a decimal digit.
pub open spec fn all_digits(t: Seq<u8>) -> bool {
    forall|k: int| 0 <= k < t.len() ==> #[trigger] is_digit(t[k])
}

/// The first index at or after `i` that does not hold whitespace.
pub open spec fn skip_ws_idx(s: Seq<u8>, i: int) -> int
    decreases s.len() - i,
{
    if 0 <= i && i < s.len() && is_ws(s[i]) {
        skip_ws_idx(s, i + 1)
    } else {
        i
    }
}

/// The first index at or after `i` that holds whitespace (or the end).
pub open spec fn token_end_idx(s: Seq<u8>, i: int) -> int
    decreases s.len() - i,
{
    if 0 <= i && i < s.len() && !is_ws(s[i]) {
        token_end_idx(s, i + 1)
    } else {
        i
    }
}

/// The first index at or after `i` that does not hold a digit.
pub open spec fn digits_end(t: Seq<u8>, i: int) -> int
    decreases t.len() - i,
{
    if 0 <= i && i < t.len() && is_digit(t[i]) {
        digits_end(t, i + 1)
    } else {
        i
    }
}

/// The bounds of the `k`-th whitespace-separated token of `s` (counted
/// from zero), scanning from `from`: the token is `s[start, end)`, and
/// `start == end` when fewer than `k + 1` tokens remain.
pub open spec fn token_at(s: Seq<u8>, from: int, k: nat) -> (int, int)
    decreases k,
{
    let a = skip_ws_idx(s, from);
    let b = token_end_idx(s, a);
    if k == 0 {
        (a, b)
    } else {
        token_at(s, b, (k - 1) as nat)
    }
}

/// The value of a digit string, most significant digit first.
pub open spec fn digits_val(t: Seq<u8>) -> int
    decreases t.len(),
{
    if t.len() == 0 {
        0
    } else {
        digits_val(t.drop_last()) * 10 + (t.last() - 48)
    }
}

/// Ten to the `k`-th power.
pub open spec fn pow10(k: nat) -> int
    decreases k,
{
    if k == 0 {
        1
    } else {
        10 * pow10((k - 1) as nat)
    }
}

/// The nanoseconds contributed by the fractional digits of a decimal
/// seconds value: the first nine digits, scaled to nanosecond places;
/// digits beyond the ninth are below one nanosecond and are dropped.
pub open spec fn frac_nanos(f: Seq<u8>) -> int {
    if f.len() >= 9 {
        digits_val(f.take(9))
    } else {
        digits_val(f) * pow10((9 - f.len()) as nat)
    }
}

/// Whether `t` is a decimal seconds value: a non-empty run of digits,
/// optionally followed by a point and any run of digits.
pub open spec fn dec_valid(t: Seq<u8>) -> bool {
    let p = digits_end(t, 0);
    &&& p > 0
    &&& (p == t.len() || (t[p] == 46 && digits_end(t, p + 1) == t.len()))
}

/// The nanosecond value of a decimal seconds string.
pub open spec fn dec_nanos(t: Seq<u8>) -> int {
    let p = digits_end(t, 0);
    let f = if p == t.len() {
        Seq::<u8>::empty()
    } else {
        t.subrange(p + 1, t.len() as int)
    };
    digits_val(t.take(p)) * 1000000000 + frac_nanos(f)
}

/// What parsing a decimal seconds string yields: its nanosecond value,
/// if the string is well formed and the value fits a 64-bit duration.
pub open spec fn dec_nanos_opt(t: Seq<u8>) -> Option<int> {
    if dec_valid(t) && dec_nanos(t) <= i64::MAX {
        Some(dec_nanos(t))
    } else {
        None
    }
}

/// Bounds of the digit scan: it moves forward, stays in range, covers
/// digits only, and stops only at the end or at a non-digit.
pub proof fn lemma_digits_end_props(t: Seq<u8>, i: int)
    requires
        0 <= i <= t.len(),
    ensures
        i <= digits_end(t, i) <= t.len(),
        forall|k: int| i <= k < digits_end(t, i) ==> is_digit(#[trigger] t[k]),
        digits_end(t, i) == t.len() || !is_digit(t[digits_end(t, i)]),
    decreases t.len() - i,
{
    if i < t.len() && is_digit(t[i]) {
        lemma_digits_end_props(t, i + 1);
    }
}

/// The value of a digit string is non-negative.
pub proof fn lemma_digits_val_nonneg(t: Seq<u8>)
    requires
        all_digits(t),
    ensures
        0 <= digits_val(t),
    decreases t.len(),
{
    if t.len() > 0 {
        assert(is_digit(t[t.len() - 1]));
        assert(all_digits(t.drop_last()));
        lemma_digits_val_nonneg(t.drop_last());
    }
}

/// A digit string of length `n` stays below ten to the `n`-th power.
pub proof fn lemma_digits_val_upper(t: Seq<u8>)
    requires
        all_digits(t),
    ensures
        digits_val(t) < pow10(t.len()),
    decreases t.len(),
{
    if t.len() > 0 {
        assert(is_digit(t[t.len() - 1]));
        assert(all_digits(t.drop_last()));
        lemma_digits_val_upper(t.drop_last());
        lemma_digits_val_nonneg(t.drop_last());
    }
}

/// Ten to any power is positive.
pub proof fn lemma_pow10_pos(k: nat)
    ensures
        pow10(k) >= 1,
    decreases k,
{
    if k > 0 {
        lemma_pow10_pos((k - 1) as nat);
    }
}

/// Extending a digit string never lowers its value.
pub proof fn lemma_digits_val_prefix(t: Seq<u8>, j: int)
    requires
        all_digits(t),
        0 <= j <= t.len(),
    ensures
        digits_val(t.take(j)) <= digits_val(t),
    decreases t.len(),
{
    if j == t.len() {
        assert(t.take(j) =~= t);
    } else {
        assert(is_digit(t[t.len() - 1]));
        assert(all_digits(t.drop_last()));
        assert(t.drop_last().take(j) =~= t.take(j));
        lemma_digits_val_prefix(t.drop_last(), j);
        lemma_digits_val_nonneg(t.drop_last());
    }
}

/// Parses a decimal seconds string into whole nanoseconds.
///
/// `None` marks a malformed string or a value beyond the nanosecond
/// range of a 64-bit duration; the counter sources never legitimately
/// produce either, so callers treat it as fatal.
pub fn parse_dec(t: &[u8]) -> (r: Option<i64>)
    ensures
        match r {
            Some(v) => dec_nanos_opt(t@) == Some(v as int) && 0 <= v,
            None => dec_nanos_opt(t@) is None,
        },
{
    let n = t.len();
    let mut j: usize = 0;
    let mut val: u128 = 0;
    while j < n && 48 <= t[j] && t[j] <= 57
        invariant
            0 <= j <= n,
            n == t@.len(),
            digits_end(t@, 0) == digits_end(t@, j as int),
            all_digits(t@.take(j as int)),
            val == digits_val(t@.take(j as int)),
            val <= i64::MAX as u128,
        decreases n - j,
    {
        proof {
            assert(t@.take(j + 1).drop_last() =~= t@.take(j as int));
            assert(all_digits(t@.take(j + 1)));
        }
        let newval = val * 10 + (t[j] - 48) as u128;
        if newval > i64::MAX as u128 {
            proof {
                lemma_digits_end_props(t@, j + 1);
                assert(digits_end(t@, 0) >= j + 1);
                lemma_dec_too_large(t@, j + 1, newval as int);
            }
            return None;
        }
        val = newval;
        j = j + 1;
    }
    let p = j;
    if p == 0 {
        return None;
    }
    let ghost fspec: Seq<u8> = if p == n {
        Seq::<u8>::empty()
    } else {
        t@.subrange(p + 1, n as int)
    };
    let mut fval: u128 = 0;
    if p < n {
        if t[p] != 46 {
            return None;
        }
        let fstart = p + 1;
        proof {
            lemma_digits_val_nonneg(Seq::<u8>::empty());
        }
        let mut k = fstart;
        while k < n
            invariant
                fstart <= k <= n,
                n == t@.len(),
                0 < p < n,
                p + 1 == fstart,
                digits_end(t@, 0) == p,
                t@[p as int] == 46,
                val == digits_val(t@.take(p as int)),
                val <= i64::MAX as u128,
                fspec == t@.subrange(fstart as int, n as int),
                digits_end(t@, fstart as int) == digits_end(t@, k as int),
                all_digits(t@.subrange(fstart as int, k as int)),
                fval == digits_val(fspec.take(if k - fstart <= 9 { k - fstart } else { 9 } as int)),
                fval < 1000000000,
            decreases n - k,
        {
            if t[k] < 48 || t[k] > 57 {
                proof {
                    assert(digits_end(t@, p as int) == p);
                    assert(digits_end(t@, k as int) == k);
                    assert(!dec_valid(t@));
                }
                return None;
            }
            if k - fstart < 9 {
                proof {
                    let m = (k - fstart) as int;
                    assert(fspec.take(m + 1).drop_last() =~= fspec.take(m));
                    assert(fspec[m] == t@[k as int]);
                    assert(all_digits(fspec.take(m + 1)));
                    lemma_digits_val_upper(fspec.take(m + 1));
                    lemma_pow10_bound(m + 1);
                }
                fval = fval * 10 + (t[k] - 48) as u128;
            }
            proof {
                assert(all_digits(t@.subrange(fstart as int, k + 1)));
                if k - fstart >= 9 {
                    assert(fspec.take(9) =~= fspec.take(
                        if k + 1 - fstart <= 9 {
                            k + 1 - fstart
                        } else {
                            9
                        } as int,
                    ));
                }
            }
            k = k + 1;
        }
        let flen = n - fstart;
        if flen < 9 {
            proof {
                assert(fspec.take(flen as int) =~= fspec);
                assert(all_digits(fspec));
                lemma_digits_val_upper(fspec);
                lemma_digits_val_nonneg(fspec);
            }
            let mut z: usize = 0;
            while z < 9 - flen
                invariant
                    0 <= z <= 9 - flen,
                    n == t@.len(),
                    0 < p < n,
                    p + 1 == fstart,
                    digits_end(t@, 0) == p,
                    t@[p as int] == 46,
                    digits_end(t@, fstart as int) == n,
                    val == digits_val(t@.take(p as int)),
                    val <= i64::MAX as u128,
                    fspec == t@.subrange(fstart as int, n as int),
                    flen == n - fstart < 9,
                    fspec.len() == flen,
                    all_digits(fspec),
                    fval == digits_val(fspec) * pow10(z as nat),
                    fval < pow10((flen + z) as nat),
                decreases 9 - flen - z,
            {
                proof {
                    lemma_pow10_bound((flen + z + 1) as int);
                    assert(pow10((z + 1) as nat) == 10 * pow10(z as nat));
                    assert(digits_val(fspec) * pow10((z + 1) as nat) == (digits_val(fspec) * pow10(
                        z as nat,
                    )) * 10) by (nonlinear_arith);
                    assert(pow10(((flen + z) + 1) as nat) == 10 * pow10((flen + z) as nat));
                }
                fval = fval * 10;
                z = z + 1;
            }
        }
    }
    proof {
        lemma_pow10_bound(9);
        assert(dec_valid(t@));
        assert(t@.take(p as int) =~= t@.take(digits_end(t@, 0)));
        if p < n {
            if n - p - 1 >= 9 {
                assert(fval == digits_val(fspec.take(9)));
                assert(frac_nanos(fspec) == fval);
            } else {
                assert(frac_nanos(fspec) == fval);
            }
        } else {
            assert(frac_nanos(fspec) == 0);
        }
        assert(dec_nanos(t@) == val * 1000000000 + fval);
        lemma_digits_val_nonneg(t@.take(p as int));
    }
    let total = val * 1000000000 + fval;
    if total > i64::MAX as u128 {
        return None;
    }
    Some(total as i64)
}

/// Once a digit prefix already exceeds the duration range, the whole
/// decimal string does: parsing must refuse it.
proof fn lemma_dec_too_large(t: Seq<u8>, j: int, prefix_val: int)
    requires
        0 < j <= t.len(),
        all_digits(t.take(j)),
        digits_end(t, 0) >= j,
        prefix_val == digits_val(t.take(j)),
        prefix_val > i64::MAX,
    ensures
        dec_nanos_opt(t) is None,
{
    if dec_valid(t) {
        let p = digits_end(t, 0);
        lemma_digits_end_props(t, 0);
        assert(all_digits(t.take(p))) by {
            assert(forall|k: int|
                0 <= k < p ==> is_digit(#[trigger] t.take(p)[k]) == is_digit(t[k]));
        }
        assert(t.take(p).take(j) =~= t.take(j));
        lemma_digits_val_prefix(t.take(p), j);
        let ip = digits_val(t.take(p));
        assert(ip >= prefix_val);
        let f = if p == t.len() {
            Seq::<u8>::empty()
        } else {
            t.subrange(p + 1, t.len() as int)
        };
        assert(all_digits(f)) by {
            if p < t.len() {
                lemma_digits_end_props(t, p + 1);
                assert(forall|k: int|
                    0 <= k < f.len() ==> is_digit(#[trigger] f[k]) == is_digit(t[p + 1 + k]));
            }
        }
        lemma_frac_nanos_nonneg(f);
        assert(ip * 1000000000 >= ip * 1) by (nonlinear_arith)
            requires
                ip >= 0,
        ;
        assert(dec_nanos(t) > i64::MAX);
    }
}

/// The fractional contribution of a digit string is non-negative.
proof fn lemma_frac_nanos_nonneg(f: Seq<u8>)
    requires
        all_digits(f),
    ensures
        0 <= frac_nanos(f),
{
    if f.len() >= 9 {
        assert(all_digits(f.take(9))) by {
            assert(forall|k: int|
                0 <= k < 9 ==> is_digit(#[trigger] f.take(9)[k]) == is_digit(f[k]));
        }
        lemma_digits_val_nonneg(f.take(9));
    } else {
        lemma_digits_val_nonneg(f);
        lemma_pow10_pos((9 - f.len()) as nat);
        vstd::arithmetic::mul::lemma_mul_nonnegative(digits_val(f), pow10((9 - f.len()) as nat));
    }
}

/// Numeric bounds of small powers of ten, up to the nanosecond scale.
proof fn lemma_pow10_bound(k: int)
    requires
        0 <= k <= 9,
    ensures
        pow10(k as nat) <= 1000000000,
    decreases k,
{
    reveal_with_fuel(pow10, 10);
}

/// Scans past whitespace.
fn skip_ws(s: &[u8], from: usize) -> (j: usize)
    requires
        from <= s@.len(),
    ensures
        j as int == skip_ws_idx(s@, from as int),
        from <= j <= s@.len(),
{
    let n = s.len();
    let mut j = from;
    while j < n && (s[j] == 32 || s[j] == 9)
        invariant
            from <= j <= n,
            n == s@.len(),
            skip_ws_idx(s@, from as int) == skip_ws_idx(s@, j as int),
        decreases n - j,
    {
        j = j + 1;
    }
    j
}

/// Scans to the end of the token that starts at `from`.
fn token_end(s: &[u8], from: usize) -> (j: usize)
    requires
        from <= s@.len(),
    ensures
        j as int == token_end_idx(s@, from as int),
        from <= j <= s@.len(),
{
    let n = s.len();
    let mut j = from;
    while j < n && s[j] != 32 && s[j] != 9
        invariant
            from <= j <= n,
            n == s@.len(),
            token_end_idx(s@, from as int) == token_end_idx(s@, j as int),
        decreases n - j,
    {
        j = j + 1;
    }
    j
}

/// Finds the bounds of the `k`-th whitespace-separated token.
fn nth_token(s: &[u8], k: usize) -> (r: (usize, usize))
    ensures
        (r.0 as int, r.1 as int) == token_at(s@, 0, k as nat),
        r.0 <= r.1 <= s@.len(),
{
    let mut from: usize = 0;
    let mut count: usize = 0;
    while count < k
        invariant
            count <= k,
            from <= s@.len(),
            token_at(s@, 0, k as nat) == token_at(s@, from as int, (k - count) as nat),
        decreases k - count,
    {
        let a = skip_ws(s, from);
        let b = token_end(s, a);
        from = b;
        count = count + 1;
    }
    let a = skip_ws(s, from);
    let b = token_end(s, a);
    (a, b)
}

/// Parses a clock-tick counter: a non-empty run of digits whose value
/// fits an unsigned 64-bit integer.
fn parse_ticks(t: &[u8]) -> (r: Option<u64>)
    ensures
        match r {
            Some(v) => t@.len() > 0 && all_digits(t@) && digits_val(t@) == v as int,
            None => !(t@.len() > 0 && all_digits(t@) && digits_val(t@) <= u64::MAX),
        },
{
    let n = t.len();
    if n == 0 {
        return None;
    }
    let mut j: usize = 0;
    let mut val: u128 = 0;
    while j < n
        invariant
            0 <= j <= n,
            n == t@.len(),
            all_digits(t@.take(j as int)),
            val == digits_val(t@.take(j as int)),
            val <= u64::MAX as u128,
        decreases n - j,
    {
        if t[j] < 48 || t[j] > 57 {
            proof {
                assert(!is_digit(t@[j as int]));
            }
            return None;
        }
        proof {
            assert(t@.take(j + 1).drop_last() =~= t@.take(j as int));
            assert(all_digits(t@.take(j + 1)));
        }
        let newval = val * 10 + (t[j] - 48) as u128;
        if newval > u64::MAX as u128 {
            proof {
                if all_digits(t@) {
                    assert(t@.take(t@.len() as int) =~= t@);
                    lemma_digits_val_prefix(t@, j + 1);
                }
            }
            return None;
        }
        val = newval;
        j = j + 1;
    }
    proof {
        assert(t@.take(n as int) =~= t@);
    }
    Some(val as u64)
}

/// The clock-tick count of one core expressed in whole nanoseconds.
pub open spec fn ticks_nanos(ticks: int, tps: int) -> int {
    ticks * 1000000000 / tps
}

/// What parsing one per-core line yields: the idle nanoseconds taken
/// from its fifth column, a tick counter divided by the clock-tick
/// frequency `tps`.
pub open spec fn core_line_nanos(line: Seq<u8>, tps: int) -> Option<int> {
    let tok = token_at(line, 0, 4);
    let t = line.subrange(tok.0, tok.1);
    if t.len() > 0 && all_digits(t) && digits_val(t) <= u64::MAX && ticks_nanos(
        digits_val(t),
        tps,
    ) <= i64::MAX {
        Some(ticks_nanos(digits_val(t), tps))
    } else {
        None
    }
}

/// Parses one per-core line into idle nanoseconds.
pub fn parse_core_line(line: &[u8], tps: u64) -> (r: Option<i64>)
    requires
        1 <= tps,
    ensures
        match r {
            Some(v) => core_line_nanos(line@, tps as int) == Some(v as int) && 0 <= v,
            None => core_line_nanos(line@, tps as int) is None,
        },
{
    let (a, b) = nth_token(line, 4);
    let t = slice_subrange(line, a, b);
    let ticks = match parse_ticks(t) {
        Some(v) => v,
        None => { return None; },
    };
    proof {
        lemma_digits_val_nonneg(t@);
    }
    let nanos = (ticks as u128) * 1000000000 / (tps as u128);
    if nanos > i64::MAX as u128 {
        None
    } else {
        Some(nanos as i64)
    }
}

/// The label of the aggregate summary row of the per-core source,
/// `cpu`, which the scan skips.
pub open spec fn cpu_label() -> Seq<u8> {
    seq![99u8, 112u8, 117u8]
}

/// The label that ends the per-core block, `intr`: the scan must stop
/// there, since later sections use an incompatible column layout.
pub open spec fn intr_label() -> Seq<u8> {
    seq![105u8, 110u8, 116u8, 114u8]
}

/// Whether the token `s[a, b)` is the aggregate summary label.
fn token_is_cpu(s: &[u8], a: usize, b: usize) -> (r: bool)
    requires
        a <= b <= s@.len(),
    ensures
        r == (s@.subrange(a as int, b as int) == cpu_label()),
{
    let ghost t = s@.subrange(a as int, b as int);
    if b - a == 3 && s[a] == 99 && s[a + 1] == 112 && s[a + 2] == 117 {
        proof {
            assert(t =~= cpu_label());
        }
        true
    } else {
        proof {
            if t == cpu_label() {
                assert(t.len() == 3);
                assert(t[0] == 99 && t[1] == 112 && t[2] == 117);
            }
        }
        false
    }
}

/// Whether the token `s[a, b)` is the label that ends the per-core
/// block.
fn token_is_intr(s: &[u8], a: usize, b: usize) -> (r: bool)
    requires
        a <= b <= s@.len(),
    ensures
        r == (s@.subrange(a as int, b as int) == intr_label()),
{
    let ghost t = s@.subrange(a as int, b as int);
    if b - a == 4 && s[a] == 105 && s[a + 1] == 110 && s[a + 2] == 116 && s[a + 3] == 114 {
        proof {
            assert(t =~= intr_label());
        }
        true
    } else {
        proof {
            if t == intr_label() {
                assert(t.len() == 4);
                assert(t[0] == 105 && t[1] == 110 && t[2] == 116 && t[3] == 114);
            }
        }
        false
    }
}

/// Glues a parsed prefix onto the outcome of scanning the remaining
/// lines.
pub open spec fn prepend(a: Seq<int>, r: Option<Seq<int>>) -> Option<Seq<int>> {
    match r {
        Some(s) => Some(a + s),
        None => None,
    }
}

/// What scanning the per-core source yields: one idle duration per
/// core line, in order. The aggregate summary row is skipped, the scan
/// stops at the end of the per-core block, and any malformed core line
/// is fatal.
pub open spec fn stat_lines_spec(lines: Seq<Seq<u8>>, tps: int) -> Option<Seq<int>>
    decreases lines.len(),
{
    if lines.len() == 0 {
        Some(Seq::empty())
    } else {
        let line = lines[0];
        let tok = token_at(line, 0, 0);
        let t0 = line.subrange(tok.0, tok.1);
        if t0 == intr_label() {
            Some(Seq::empty())
        } else if t0 == cpu_label() {
            stat_lines_spec(lines.skip(1), tps)
        } else {
            match (core_line_nanos(line, tps), stat_lines_spec(lines.skip(1), tps)) {
                (Some(v), Some(rest)) => Some(seq![v] + rest),
                _ => None,
            }
        }
    }
}

/// Scans the lines of the per-core source into one idle duration per
/// core.
pub fn parse_stat_lines(lines: &Vec<Vec<u8>>, tps: u64) -> (r: Option<Vec<i64>>)
    requires
        1 <= tps,
    ensures
        match r {
            Some(v) => {
                &&& stat_lines_spec(lines.deep_view(), tps as int) == Some(
                    v@.map_values(|x: i64| x as int),
                )
                &&& forall|j: int| 0 <= j < v@.len() ==> 0 <= #[trigger] v@[j]
            },
            None => stat_lines_spec(lines.deep_view(), tps as int) is None,
        },
{
    let ghost gl = lines.deep_view();
    let n = lines.len();
    let mut out: Vec<i64> = Vec::new();
    let mut i: usize = 0;
    proof {
        assert(gl.skip(0) =~= gl);
        assert(out@.map_values(|x: i64| x as int) =~= Seq::<int>::empty());
        if stat_lines_spec(gl, tps as int) is Some {
            assert(Seq::<int>::empty() + stat_lines_spec(gl, tps as int).unwrap()
                =~= stat_lines_spec(gl, tps as int).unwrap());
        }
    }
    while i < n
        invariant
            0 <= i <= n,
            1 <= tps,
            n == lines@.len(),
            gl == lines.deep_view(),
            gl.len() == n,
            prepend(out@.map_values(|x: i64| x as int), stat_lines_spec(gl.skip(i as int), tps as int))
                == stat_lines_spec(gl, tps as int),
            forall|j: int| 0 <= j < out@.len() ==> 0 <= #[trigger] out@[j],
        decreases n - i,
    {
        let line: &Vec<u8> = &lines[i];
        proof {
            assert(gl[i as int] =~= line@);
            assert(gl.skip(i as int)[0] == gl[i as int]);
            assert(gl.skip(i as int).skip(1) =~= gl.skip(i + 1));
        }
        let (a, b) = nth_token(line.as_slice(), 0);
        if token_is_intr(line.as_slice(), a, b) {
            proof {
                assert(stat_lines_spec(gl.skip(i as int), tps as int) == Some(Seq::<int>::empty()));
                assert(out@.map_values(|x: i64| x as int) + Seq::<int>::empty() =~= out@.map_values(
                    |x: i64| x as int,
                ));
            }
            return Some(out);
        }
        if !token_is_cpu(line.as_slice(), a, b) {
            match parse_core_line(line.as_slice(), tps) {
                Some(v) => {
                    let ghost old_out = out@;
                    out.push(v);
                    proof {
                        assert(out@.map_values(|x: i64| x as int) =~= old_out.map_values(
                            |x: i64| x as int,
                        ) + seq![v as int]);
                        if stat_lines_spec(gl.skip(i + 1), tps as int) is Some {
                            let rest = stat_lines_spec(gl.skip(i + 1), tps as int).unwrap();
                            assert(old_out.map_values(|x: i64| x as int) + (seq![v as int] + rest)
                                =~= out@.map_values(|x: i64| x as int) + rest);
                        }
                    }
                },
                None => {
                    return None;
                },
            }
        }
        i = i + 1;
    }
    proof {
        assert(gl.skip(n as int) =~= Seq::<Seq<u8>>::empty());
        assert(stat_lines_spec(gl.skip(n as int), tps as int) == Some(Seq::<int>::empty()));
        assert(out@.map_values(|x: i64| x as int) + Seq::<int>::empty() =~= out@.map_values(
            |x: i64| x as int,
        ));
    }
    Some(out)
}

/// What parsing the aggregate uptime line yields: uptime nanoseconds
/// from the first field, and the idle nanoseconds of the second field
/// averaged over the `cores` logical cores.
pub open spec fn uptime_line_spec(s: Seq<u8>, cores: int) -> Option<(int, int)> {
    let tok0 = token_at(s, 0, 0);
    let tok1 = token_at(s, 0, 1);
    let r0 = dec_nanos_opt(s.subrange(tok0.0, tok0.1));
    let r1 = dec_nanos_opt(s.subrange(tok1.0, tok1.1));
    if r0 is Some && r1 is Some {
        Some((r0.unwrap(), r1.unwrap() / cores))
    } else {
        None
    }
}

/// Parses the aggregate uptime line: total seconds since boot, and
/// cumulative idle seconds summed over all cores, which is divided by
/// the core count to an average per-core idle duration.
pub fn parse_uptime_line(line: &[u8], total_cores: u64) -> (r: Option<(i64, i64)>)
    requires
        1 <= total_cores <= i64::MAX as u64,
    ensures
        match r {
            Some(v) => uptime_line_spec(line@, total_cores as int) == Some(
                (v.0 as int, v.1 as int),
            ) && 0 <= v.0 && 0 <= v.1,
            None => uptime_line_spec(line@, total_cores as int) is None,
        },
{
    let (a0, b0) = nth_token(line, 0);
    let t0 = slice_subrange(line, a0, b0);
    let uptime = match parse_dec(t0) {
        Some(v) => v,
        None => { return None; },
    };
    let (a1, b1) = nth_token(line, 1);
    let t1 = slice_subrange(line, a1, b1);
    let idle_total = match parse_dec(t1) {
        Some(v) => v,
        None => { return None; },
    };
    let idle = idle_total / (total_cores as i64);
    Some((uptime, idle))
}

/// What one full read of the timing counters yields: the aggregate
/// fields always, and the per-core durations only when per-core display
/// is on (the per-core source is not consulted otherwise).
pub open spec fn counters_spec(
    uptime_line: Seq<u8>,
    stat_lines: Seq<Seq<u8>>,
    show_per_core: bool,
    cores: int,
    tps: int,
) -> Option<SnapshotView> {
    match uptime_line_spec(uptime_line, cores) {
        None => None,
        Some(agg) => if !show_per_core {
            Some(SnapshotView { uptime_ns: agg.0, idle_ns: agg.1, core_idle_ns: Seq::empty() })
        } else {
            match stat_lines_spec(stat_lines, tps) {
                None => None,
                Some(cs) => Some(
                    SnapshotView { uptime_ns: agg.0, idle_ns: agg.1, core_idle_ns: cs },
                ),
            }
        },
    }
}

/// Builds the snapshot of one invocation from the text of the timing
/// sources and the two platform constants.
///
/// `None` marks a malformed counter field, which the caller must treat
/// as fatal: there is no fallback value.
pub fn read_counters(
    uptime_line: &[u8],
    stat_lines: &Vec<Vec<u8>>,
    show_per_core: bool,
    total_cores: u64,
    ticks_per_second: u64,
) -> (r: Option<Snapshot>)
    requires
        1 <= total_cores <= i64::MAX as u64,
        1 <= ticks_per_second,
    ensures
        match r {
            Some(s) => {
                &&& counters_spec(
                    uptime_line@,
                    stat_lines.deep_view(),
                    show_per_core,
                    total_cores as int,
                    ticks_per_second as int,
                ) == Some(s@)
                &&& s.wf()
            },
            None => counters_spec(
                uptime_line@,
                stat_lines.deep_view(),
                show_per_core,
                total_cores as int,
                ticks_per_second as int,
            ) is None,
        },
{
    let (uptime_ns, idle_ns) = match parse_uptime_line(uptime_line, total_cores) {
        Some(v) => v,
        None => { return None; },
    };
    let core_idle_ns: Vec<i64> = if show_per_core {
        match parse_stat_lines(stat_lines, ticks_per_second) {
            Some(v) => v,
            None => { return None; },
        }
    } else {
        Vec::new()
    };
    let s = Snapshot { uptime_ns, idle_ns, core_idle_ns };
    proof {
        let expected = counters_spec(
            uptime_line@,
            stat_lines.deep_view(),
            show_per_core,
            total_cores as int,
            ticks_per_second as int,
        );
        assert(s@.core_idle_ns =~= expected.unwrap().core_idle_ns);
        assert(s@ == expected.unwrap());
        assert(forall|i: int|
            0 <= i < s@.core_idle_ns.len() ==> 0 <= #[trigger] s@.core_idle_ns[i] <= i64::MAX);
    }
    Some(s)
}

} // verus!

//! Rendering a delta snapshot as the printed status line: an overall
//! activity percentage with two decimal digits, and one bar glyph per
//! core when per-core data is present.
//!
//! All fractions are handled as exact integer ratios of nanosecond
//! counts. The percentage is computed in hundredths of a percent and the
//! glyph level by rounding half away from zero; negative durations (a
//! delta taken across a reboot) are clamped at display time, never
//! earlier.

use crate::snapshot::{Snapshot, SnapshotView};
use vstd::arithmetic::div_mod::{
    lemma_basic_div, lemma_div_pos_is_pos, lemma_fundamental_div_mod,
    lemma_fundamental_div_mod_converse_div, lemma_multiply_divide_lt,
};
use vstd::prelude::*;
use vstd::string::StringExecFns;

verus! {

/// `x` clamped into `[0, hi]`.
pub open spec fn clamped(x: int, hi: int) -> int {
    if x < 0 {
        0
    } else if x > hi {
        hi
    } else {
        x
    }
}

/// The overall activity of a delta snapshot, in hundredths of a percent,
/// rounded half away from zero.
///
/// The activity fraction is `1 - clamp(idle, 0, uptime) / uptime`, and is
/// defined as `0` for a degenerate interval without elapsed time.
pub open spec fn percent_hundredths(uptime: int, idle: int) -> int {
    if uptime <= 0 {
        0
    } else {
        ((uptime - clamped(idle, uptime)) * 20000 + uptime) / (2 * uptime)
    }
}

/// The glyph level of one core of a delta snapshot: the per-core idle
/// fraction `clamp(core_idle, 0, uptime) / uptime` scaled to the glyph
/// range and rounded half away from zero. A degenerate interval counts
/// as fully idle.
pub open spec fn glyph_index(uptime: int, core_idle: int) -> int {
    if uptime <= 0 {
        8
    } else {
        (16 * clamped(core_idle, uptime) + uptime) / (2 * uptime)
    }
}

/// The decimal digit `d` as a character.
pub open spec fn digit_char(d: int) -> char {
    if d == 0 {
        '0'
    } else if d == 1 {
        '1'
    } else if d == 2 {
        '2'
    } else if d == 3 {
        '3'
    } else if d == 4 {
        '4'
    } else if d == 5 {
        '5'
    } else if d == 6 {
        '6'
    } else if d == 7 {
        '7'
    } else if d == 8 {
        '8'
    } else {
        '9'
    }
}

/// The decimal representation of `n`, most significant digit first, with
/// no leading zeros (a single zero for `n == 0`).
pub open spec fn dec_chars(n: nat) -> Seq<char>
    decreases n,
{
    if n < 10 {
        seq![digit_char(n as int)]
    } else {
        dec_chars(n / 10) + seq![digit_char((n % 10) as int)]
    }
}

/// The percentage text for `h` hundredths of a percent: the whole part,
/// a point, and exactly two fractional digits.
pub open spec fn percent_chars(h: int) -> Seq<char> {
    dec_chars((h / 100) as nat) + seq!['.', digit_char(h % 100 / 10), digit_char(h % 10)]
}

/// The bar glyph for level `i`, ordered from fully busy (a full block)
/// to fully idle (a blank).
pub open spec fn glyph_char(i: int) -> char {
    if i == 0 {
        '\u{2588}'
    } else if i == 1 {
        '\u{2587}'
    } else if i == 2 {
        '\u{2586}'
    } else if i == 3 {
        '\u{2585}'
    } else if i == 4 {
        '\u{2584}'
    } else if i == 5 {
        '\u{2583}'
    } else if i == 6 {
        '\u{2582}'
    } else if i == 7 {
        '\u{2581}'
    } else {
        ' '
    }
}

/// The fixed label that opens the printed line.
pub open spec fn label_chars() -> Seq<char> {
    seq!['C', 'P', 'U', ':', ' ']
}

/// One glyph per core of a delta snapshot.
pub open spec fn glyph_row(v: SnapshotView) -> Seq<char> {
    Seq::new(v.core_idle_ns.len(), |j: int| glyph_char(glyph_index(v.uptime_ns, v.core_idle_ns[j])))
}

/// The whole printed line for a delta snapshot: the label, the
/// percentage, and, when per-core data is present, a space and the glyph
/// row.
pub open spec fn rendered(v: SnapshotView) -> Seq<char> {
    let percent = label_chars() + percent_chars(percent_hundredths(v.uptime_ns, v.idle_ns))
        + seq!['%'];
    if v.core_idle_ns.len() == 0 {
        percent
    } else {
        percent + seq![' '] + glyph_row(v)
    }
}

/// Computes the overall activity of a delta snapshot in hundredths of a
/// percent.
pub fn percent_of(uptime: i64, idle: i64) -> (h: u64)
    ensures
        h == percent_hundredths(uptime as int, idle as int),
        h <= 10000,
{
    if uptime <= 0 {
        return 0;
    }
    let u = uptime as u128;
    let c: u128 = if idle < 0 {
        0
    } else if idle > uptime {
        u
    } else {
        idle as u128
    };
    let active = u - c;
    proof {
        lemma_div_pos_is_pos((active * 20000 + u) as int, 2 * u as int);
        lemma_multiply_divide_lt((active * 20000 + u) as int, 2 * u as int, 10001);
    }
    ((active * 20000 + u) / (2 * u)) as u64
}

/// Computes the glyph level of one core of a delta snapshot.
pub fn level_of(uptime: i64, core_idle: i64) -> (level: u64)
    ensures
        level == glyph_index(uptime as int, core_idle as int),
        level <= 8,
{
    if uptime <= 0 {
        return 8;
    }
    let u = uptime as u128;
    let c: u128 = if core_idle < 0 {
        0
    } else if core_idle > uptime {
        u
    } else {
        core_idle as u128
    };
    proof {
        lemma_div_pos_is_pos((16 * c + u) as int, 2 * u as int);
        lemma_multiply_divide_lt((16 * c + u) as int, 2 * u as int, 9);
    }
    ((16 * c + u) / (2 * u)) as u64
}

/// The decimal digit `d` as a one-character string.
fn digit_str(d: u64) -> (r: &'static str)
    requires
        d < 10,
    ensures
        r@ == seq![digit_char(d as int)],
{
    match d {
        0 => {
            proof {
                reveal_strlit("0");
                assert("0"@ =~= seq![digit_char(0)]);
            }
            "0"
        },
        1 => {
            proof {
                reveal_strlit("1");
                assert("1"@ =~= seq![digit_char(1)]);
            }
            "1"
        },
        2 => {
            proof {
                reveal_strlit("2");
                assert("2"@ =~= seq![digit_char(2)]);
            }
            "2"
        },
        3 => {
            proof {
                reveal_strlit("3");
                assert("3"@ =~= seq![digit_char(3)]);
            }
            "3"
        },
        4 => {
            proof {
                reveal_strlit("4");
                assert("4"@ =~= seq![digit_char(4)]);
            }
            "4"
        },
        5 => {
            proof {
                reveal_strlit("5");
                assert("5"@ =~= seq![digit_char(5)]);
            }
            "5"
        },
        6 => {
            proof {
                reveal_strlit("6");
                assert("6"@ =~= seq![digit_char(6)]);
            }
            "6"
        },
        7 => {
            proof {
                reveal_strlit("7");
                assert("7"@ =~= seq![digit_char(7)]);
            }
            "7"
        },
        8 => {
            proof {
                reveal_strlit("8");
                assert("8"@ =~= seq![digit_char(8)]);
            }
            "8"
        },
        _ => {
            proof {
                reveal_strlit("9");
                assert("9"@ =~= seq![digit_char(9)]);
            }
            "9"
        },
    }
}

/// The bar glyph for level `level` as a one-character string.
fn glyph_str(level: u64) -> (r: &'static str)
    requires
        level <= 8,
    ensures
        r@ == seq![glyph_char(level as int)],
{
    match level {
        0 => {
            proof {
                reveal_strlit("\u{2588}");
                assert("\u{2588}"@ =~= seq![glyph_char(0)]);
            }
            "\u{2588}"
        },
        1 => {
            proof {
                reveal_strlit("\u{2587}");
                assert("\u{2587}"@ =~= seq![glyph_char(1)]);
            }
            "\u{2587}"
        },
        2 => {
            proof {
                reveal_strlit("\u{2586}");
                assert("\u{2586}"@ =~= seq![glyph_char(2)]);
            }
            "\u{2586}"
        },
        3 => {
            proof {
                reveal_strlit("\u{2585}");
                assert("\u{2585}"@ =~= seq![glyph_char(3)]);
            }
            "\u{2585}"
        },
        4 => {
            proof {
                reveal_strlit("\u{2584}");
                assert("\u{2584}"@ =~= seq![glyph_char(4)]);
            }
            "\u{2584}"
        },
        5 => {
            proof {
                reveal_strlit("\u{2583}");
                assert("\u{2583}"@ =~= seq![glyph_char(5)]);
            }
            "\u{2583}"
        },
        6 => {
            proof {
                reveal_strlit("\u{2582}");
                assert("\u{2582}"@ =~= seq![glyph_char(6)]);
            }
            "\u{2582}"
        },
        7 => {
            proof {
                reveal_strlit("\u{2581}");
                assert("\u{2581}"@ =~= seq![glyph_char(7)]);
            }
            "\u{2581}"
        },
        _ => {
            proof {
                reveal_strlit(" ");
                assert(" "@ =~= seq![glyph_char(8)]);
            }
            " "
        },
    }
}

/// The decimal representation of `n` as a string.
pub fn dec_string(n: u64) -> (r: String)
    ensures
        r@ == dec_chars(n as nat),
    decreases n,
{
    if n < 10 {
        digit_str(n).to_owned()
    } else {
        let mut r = dec_string(n / 10);
        r.append(digit_str(n % 10));
        r
    }
}

/// Formats a delta snapshot as the printed line.
pub fn render(s: &Snapshot) -> (line: String)
    ensures
        line@ == rendered(s@),
{
    let mut line = "CPU: ".to_owned();
    proof {
        reveal_strlit("CPU: ");
        assert(line@ =~= label_chars());
    }
    let h = percent_of(s.uptime_ns, s.idle_ns);
    let whole = dec_string(h / 100);
    line.append(whole.as_str());
    line.append(".");
    line.append(digit_str(h % 100 / 10));
    line.append(digit_str(h % 10));
    line.append("%");
    proof {
        reveal_strlit(".");
        reveal_strlit("%");
        assert("."@ =~= seq!['.']);
        assert("%"@ =~= seq!['%']);
        assert(line@ =~= label_chars() + percent_chars(h as int) + seq!['%']);
    }
    let n = s.core_idle_ns.len();
    if n > 0 {
        line.append(" ");
        proof {
            reveal_strlit(" ");
            assert(" "@ =~= seq![' ']);
        }
        let ghost base = label_chars() + percent_chars(h as int) + seq!['%'] + seq![' '];
        let mut i: usize = 0;
        while i < n
            invariant
                n == s.core_idle_ns@.len(),
                i <= n,
                h == percent_hundredths(s@.uptime_ns, s@.idle_ns),
                base == label_chars() + percent_chars(h as int) + seq!['%'] + seq![' '],
                line@ == base + glyph_row(s@).take(i as int),
            decreases n - i,
        {
            proof {
                assert(s@.core_idle_ns[i as int] == s.core_idle_ns@[i as int] as int);
            }
            let level = level_of(s.uptime_ns, s.core_idle_ns[i]);
            line.append(glyph_str(level));
            proof {
                assert(glyph_row(s@).take(i + 1) =~= glyph_row(s@).take(i as int) + seq![
                    glyph_char(glyph_index(s@.uptime_ns, s@.core_idle_ns[i as int])),
                ]);
            }
            i = i + 1;
        }
        proof {
            assert(glyph_row(s@).take(n as int) =~= glyph_row(s@));
            assert(line@ =~= rendered(s@));
        }
    } else {
        proof {
            assert(line@ =~= rendered(s@));
        }
    }
    line
}

/// A fully idle interval renders as zero percent: when the clamped idle
/// time equals the uptime, the percentage text is `0.00` and the line
/// opens with `CPU: 0.00%`.
pub proof fn lemma_render_fully_idle(v: SnapshotView)
    requires
        0 <= v.uptime_ns,
        v.idle_ns == v.uptime_ns,
    ensures
        percent_hundredths(v.uptime_ns, v.idle_ns) == 0,
        rendered(v).take(10) == label_chars() + seq!['0', '.', '0', '0', '%'],
{
    let u = v.uptime_ns;
    if u > 0 {
        lemma_basic_div(u, 2 * u);
        assert((u - clamped(v.idle_ns, u)) * 20000 == 0);
    }
    assert(rendered(v).take(10) =~= label_chars() + seq!['0', '.', '0', '0', '%']);
}

/// A fully busy interval renders as one hundred percent: with no idle
/// time and positive uptime, the percentage text is `100.00` and the
/// line opens with `CPU: 100.00%`.
pub proof fn lemma_render_fully_busy(v: SnapshotView)
    requires
        0 < v.uptime_ns,
        v.idle_ns == 0,
    ensures
        percent_hundredths(v.uptime_ns, v.idle_ns) == 10000,
        rendered(v).take(12) == label_chars() + seq!['1', '0', '0', '.', '0', '0', '%'],
{
    let u = v.uptime_ns;
    assert(clamped(0, u) == 0);
    assert(u * 20000 + u == 10000 * (2 * u) + u) by (nonlinear_arith);
    lemma_fundamental_div_mod_converse_div(u * 20000 + u, 2 * u, 10000, u);
    assert(dec_chars(100) =~= seq!['1', '0', '0']) by {
        assert(dec_chars(1) =~= seq!['1']);
        assert(dec_chars(10) =~= dec_chars(1) + seq!['0']);
        assert(dec_chars(100) =~= dec_chars(10) + seq!['0']);
    }
    assert(rendered(v).take(12) =~= label_chars() + seq!['1', '0', '0', '.', '0', '0', '%']);
}

/// A degenerate interval without elapsed time renders as zero percent,
/// and every core glyph is the fully idle blank.
pub proof fn lemma_render_degenerate(v: SnapshotView)
    requires
        v.uptime_ns == 0,
    ensures
        percent_hundredths(v.uptime_ns, v.idle_ns) == 0,
        rendered(v).take(10) == label_chars() + seq!['0', '.', '0', '0', '%'],
        forall|j: int| 0 <= j < v.core_idle_ns.len() ==> glyph_row(v)[j] == ' ',
{
    assert(rendered(v).take(10) =~= label_chars() + seq!['0', '.', '0', '0', '%']);
}

/// The endpoints of the glyph mapping: a per-core idle fraction of zero
/// maps to the busiest glyph level and a fraction of one to the idlest.
pub proof fn lemma_glyph_endpoints(u: int)
    requires
        0 < u,
    ensures
        glyph_index(u, 0) == 0,
        glyph_index(u, u) == 8,
{
    lemma_basic_div(u, 2 * u);
    assert(16 * u + u == 8 * (2 * u) + u) by (nonlinear_arith);
    lemma_fundamental_div_mod_converse_div(16 * u + u, 2 * u, 8, u);
}

/// A per-core idle fraction exactly midway between two glyph levels
/// rounds away from zero: `core_idle / u == (2k + 1) / 16` picks level
/// `k + 1`.
pub proof fn lemma_glyph_tie_rounds_up(u: int, core_idle: int, k: int)
    requires
        0 < u,
        0 <= k < 8,
        core_idle <= u,
        16 * core_idle == (2 * k + 1) * u,
    ensures
        glyph_index(u, core_idle) == k + 1,
{
    assert(0 <= core_idle) by (nonlinear_arith)
        requires
            0 < u && 16 * core_idle == (2 * k + 1) * u && 0 <= k,
    ;
    assert(16 * core_idle + u == (k + 1) * (2 * u) + 0) by (nonlinear_arith)
        requires
            16 * core_idle == (2 * k + 1) * u,
    ;
    lemma_fundamental_div_mod_converse_div(16 * core_idle + u, 2 * u, k + 1, 0);
}

/// The glyph level is the nearest level to the per-core idle fraction:
/// level `g` is picked exactly when `16 * core_idle` lies within half a
/// level step of `2 * u * g`, the lower tie included (it rounds up to
/// `g`).
pub proof fn lemma_glyph_is_nearest(u: int, core_idle: int)
    requires
        0 < u,
        0 <= core_idle <= u,
    ensures
        2 * u * glyph_index(u, core_idle) - u <= 16 * core_idle < 2 * u * glyph_index(
            u,
            core_idle,
        ) + u,
{
    lemma_fundamental_div_mod(16 * core_idle + u, 2 * u);
    let g = glyph_index(u, core_idle);
    let r = (16 * core_idle + u) % (2 * u);
    assert(16 * core_idle + u == (2 * u) * g + r);
    vstd::arithmetic::mul::lemma_mul_is_commutative(2 * u, g);
}

} // verus!

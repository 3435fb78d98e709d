//! An upper bound on the seconds a humantime duration text can spell.
//!
//! The text is read as humantime reads it: a number is a digit followed by
//! digits and whitespace; a `.` starts a fraction; a run of letters (or `µ`)
//! is the unit, which ends at whitespace or at the next number's first digit.
//! Each span contributes its number times the unit's length in seconds, plus
//! one unit for a fraction and a few seconds for nanosecond carries. Texts
//! humantime refuses may be bounded loosely: only texts it accepts matter.

use vstd::prelude::*;
use vstd::arithmetic::div_mod::{lemma_div_is_ordered, lemma_div_is_ordered_by_denominator};

use crate::strmap::str_eq;
use crate::text::string_of_chars;

verus! {

/// The seconds of one unit as numerator and denominator, for humantime's unit
/// names; any other word gets the longest unit, a year.
pub open spec fn unit_scale(u: Seq<char>) -> (int, int) {
    if u == "nanos"@ || u == "nsec"@ || u == "ns"@ {
        (1, 1_000_000_000)
    } else if u == "usec"@ || u == "us"@ || u == "µs"@ {
        (1, 1_000_000)
    } else if u == "millis"@ || u == "msec"@ || u == "ms"@ {
        (1, 1000)
    } else if u == "seconds"@ || u == "second"@ || u == "secs"@ || u == "sec"@ || u == "s"@ {
        (1, 1)
    } else if u == "minutes"@ || u == "minute"@ || u == "min"@ || u == "mins"@ || u == "m"@ {
        (60, 1)
    } else if u == "hours"@ || u == "hour"@ || u == "hr"@ || u == "hrs"@ || u == "h"@ {
        (3600, 1)
    } else if u == "days"@ || u == "day"@ || u == "d"@ {
        (86400, 1)
    } else if u == "weeks"@ || u == "week"@ || u == "wk"@ || u == "wks"@ || u == "w"@ {
        (604800, 1)
    } else if u == "months"@ || u == "month"@ || u == "M"@ {
        (2_630_016, 1)
    } else {
        (31_557_600, 1)
    }
}

/// At most the seconds one span of number `v` and unit `u` adds: the whole
/// units, one more unit for a fraction, and three seconds of carries.
pub open spec fn span_bound(v: int, u: Seq<char>) -> int {
    v * unit_scale(u).0 / unit_scale(u).1 + unit_scale(u).0 + 3
}

/// Where the reading of a duration text stands.
pub enum ScanState {
    Idle,
    Number(int),
    Fraction(int),
    Unit(int, Seq<char>),
}

pub open spec fn is_digit(c: char) -> bool {
    '0' <= c && c <= '9'
}

pub open spec fn is_unit_char(c: char) -> bool {
    ('a' <= c && c <= 'z') || ('A' <= c && c <= 'Z') || c == 'µ'
}

pub open spec fn digit_value(c: char) -> int {
    c as int - '0' as int
}

/// The state after one more character, and the bound of a span it closes.
pub open spec fn scan_step(st: ScanState, c: char) -> (ScanState, int) {
    match st {
        ScanState::Idle => if is_digit(c) {
            (ScanState::Number(digit_value(c)), 0)
        } else {
            (ScanState::Idle, 0)
        },
        ScanState::Number(v) => if is_digit(c) {
            (ScanState::Number(v * 10 + digit_value(c)), 0)
        } else if c == '.' {
            (ScanState::Fraction(v), 0)
        } else if is_unit_char(c) {
            (ScanState::Unit(v, seq![c]), 0)
        } else {
            (ScanState::Number(v), 0)
        },
        ScanState::Fraction(v) => if is_unit_char(c) {
            (ScanState::Unit(v, seq![c]), 0)
        } else {
            (ScanState::Fraction(v), 0)
        },
        ScanState::Unit(v, w) => if is_unit_char(c) {
            (ScanState::Unit(v, w.push(c)), 0)
        } else if is_digit(c) {
            (ScanState::Number(digit_value(c)), span_bound(v, w))
        } else {
            (ScanState::Idle, span_bound(v, w))
        },
    }
}

/// The bound of the span still open at the end of the text.
pub open spec fn pending(st: ScanState) -> int {
    match st {
        ScanState::Idle => 0,
        ScanState::Number(v) => span_bound(v, Seq::empty()),
        ScanState::Fraction(v) => span_bound(v, Seq::empty()),
        ScanState::Unit(v, w) => span_bound(v, w),
    }
}

/// `acc` plus the bounds of the spans of `s` read from state `st`.
pub open spec fn scan_bound(s: Seq<char>, st: ScanState, acc: int) -> int
    decreases s.len(),
{
    if s.len() == 0 {
        acc + pending(st)
    } else {
        scan_bound(s.drop_first(), scan_step(st, s[0]).0, acc + scan_step(st, s[0]).1)
    }
}

/// An upper bound on the seconds text `s` spells, if humantime accepts it.
pub open spec fn duration_bound(s: Seq<char>) -> int {
    scan_bound(s, ScanState::Idle, 0)
}

/// The number a state carries, in whole seconds at the shortest unit.
spec fn low(st: ScanState) -> int {
    match st {
        ScanState::Idle => 0,
        ScanState::Number(v) => v / 1_000_000_000,
        ScanState::Fraction(v) => v / 1_000_000_000,
        ScanState::Unit(v, _) => v / 1_000_000_000,
    }
}

spec fn state_ok(st: ScanState) -> bool {
    match st {
        ScanState::Idle => true,
        ScanState::Number(v) => v >= 0,
        ScanState::Fraction(v) => v >= 0,
        ScanState::Unit(v, _) => v >= 0,
    }
}

proof fn lemma_span_at_least(v: int, u: Seq<char>)
    requires
        v >= 0,
    ensures
        span_bound(v, u) >= v / 1_000_000_000,
        span_bound(v, u) >= 0,
{
    let (num, den) = unit_scale(u);
    assert(1 <= num && 1 <= den <= 1_000_000_000);
    assert(v * num >= v) by (nonlinear_arith)
        requires
            v >= 0,
            num >= 1,
    ;
    lemma_div_is_ordered(v, v * num, den);
    lemma_div_is_ordered_by_denominator(v, den, 1_000_000_000);
    assert(v / den >= 0) by (nonlinear_arith)
        requires
            v >= 0,
            den >= 1,
    ;
}

/// Reading on never lowers the bound below what is already counted.
proof fn lemma_scan_at_least(s: Seq<char>, st: ScanState, acc: int)
    requires
        state_ok(st),
    ensures
        scan_bound(s, st, acc) >= acc + low(st),
        low(st) >= 0,
    decreases s.len(),
{
    match st {
        ScanState::Idle => {},
        ScanState::Number(v) => lemma_span_at_least(v, Seq::empty()),
        ScanState::Fraction(v) => lemma_span_at_least(v, Seq::empty()),
        ScanState::Unit(v, w) => lemma_span_at_least(v, w),
    }
    if s.len() > 0 {
        let c = s[0];
        let (st2, f) = scan_step(st, c);
        match st {
            ScanState::Number(v) => {
                if is_digit(c) {
                    lemma_div_is_ordered(v, v * 10 + digit_value(c), 1_000_000_000);
                }
            },
            ScanState::Unit(v, w) => {
                lemma_span_at_least(v, w);
            },
            _ => {},
        }
        assert(state_ok(st2));
        lemma_scan_at_least(s.drop_first(), st2, acc + f);
    }
}

/// `u64::MAX`, the most seconds a duration holds.
pub open spec fn max_seconds() -> int {
    18_446_744_073_709_551_615
}

/// The texts handed to humantime: those whose bound stays below `u64::MAX`
/// seconds. On any other text humantime's final carry into `Duration::new`
/// could overflow; a text it accepts is held back only when what it spells
/// comes within a few units of `u64::MAX` seconds, over 5 * 10^11 years.
pub open spec fn duration_text_in_range(s: Seq<char>) -> bool {
    duration_bound(s) < max_seconds()
}

/// The seconds of one unit for the unit word `w` (see [`unit_scale`]).
fn unit_scale_exec(w: &Vec<char>) -> (r: (u128, u128))
    ensures
        r.0 == unit_scale(w@).0,
        r.1 == unit_scale(w@).1,
{
    let s = string_of_chars(w);
    let u = s.as_str();
    if str_eq(u, "nanos") || str_eq(u, "nsec") || str_eq(u, "ns") {
        (1, 1_000_000_000)
    } else if str_eq(u, "usec") || str_eq(u, "us") || str_eq(u, "µs") {
        (1, 1_000_000)
    } else if str_eq(u, "millis") || str_eq(u, "msec") || str_eq(u, "ms") {
        (1, 1000)
    } else if str_eq(u, "seconds") || str_eq(u, "second") || str_eq(u, "secs") || str_eq(u, "sec") || str_eq(
        u,
        "s",
    ) {
        (1, 1)
    } else if str_eq(u, "minutes") || str_eq(u, "minute") || str_eq(u, "min") || str_eq(u, "mins")
        || str_eq(u, "m") {
        (60, 1)
    } else if str_eq(u, "hours") || str_eq(u, "hour") || str_eq(u, "hr") || str_eq(u, "hrs") || str_eq(
        u,
        "h",
    ) {
        (3600, 1)
    } else if str_eq(u, "days") || str_eq(u, "day") || str_eq(u, "d") {
        (86400, 1)
    } else if str_eq(u, "weeks") || str_eq(u, "week") || str_eq(u, "wk") || str_eq(u, "wks") || str_eq(
        u,
        "w",
    ) {
        (604800, 1)
    } else if str_eq(u, "months") || str_eq(u, "month") || str_eq(u, "M") {
        (2_630_016, 1)
    } else {
        (31_557_600, 1)
    }
}

/// The largest number a state may carry before the bound is known too big.
spec fn number_cap() -> int {
    18_446_744_073_709_551_615_000_000_000
}

/// [`span_bound`] for a number below the cap.
fn span_bound_exec(v: u128, w: &Vec<char>) -> (r: u128)
    requires
        v < number_cap(),
    ensures
        r == span_bound(v as int, w@),
{
    let (num, den) = unit_scale_exec(w);
    assert(v * num <= number_cap() * 31_557_600) by (nonlinear_arith)
        requires
            v < number_cap(),
            num <= 31_557_600,
            num >= 1,
            v >= 0,
    ;
    let p = v * num;
    assert(p / den <= p) by (nonlinear_arith)
        requires
            p >= 0,
            den >= 1,
    ;
    p / den + num + 3
}

/// Whether humantime may be handed `text`: its bound stays below `u64::MAX`
/// seconds.
pub fn duration_text_in_range_exec(text: &str) -> (r: bool)
    ensures
        r == duration_text_in_range(text@),
{
    let cs = crate::text::chars_of(text);
    let ghost s = cs@;
    let limit: u128 = 18_446_744_073_709_551_615;
    let cap: u128 = 18_446_744_073_709_551_615_000_000_000;
    // 0 idle, 1 number, 2 fraction, 3 unit
    let mut mode: u8 = 0;
    let mut v: u128 = 0;
    let mut word: Vec<char> = Vec::new();
    let mut acc: u128 = 0;
    let mut i: usize = 0;
    assert(s.skip(0) =~= s);
    while i < cs.len()
        invariant
            s == cs@,
            s == text@,
            i <= s.len(),
            mode <= 3,
            acc < limit,
            limit == max_seconds(),
            cap == number_cap(),
            v < cap,
            duration_bound(s) == scan_bound(
                s.skip(i as int),
                if mode == 0 {
                    ScanState::Idle
                } else if mode == 1 {
                    ScanState::Number(v as int)
                } else if mode == 2 {
                    ScanState::Fraction(v as int)
                } else {
                    ScanState::Unit(v as int, word@)
                },
                acc as int,
            ),
        decreases s.len() - i,
    {
        let ghost st = if mode == 0 {
            ScanState::Idle
        } else if mode == 1 {
            ScanState::Number(v as int)
        } else if mode == 2 {
            ScanState::Fraction(v as int)
        } else {
            ScanState::Unit(v as int, word@)
        };
        let c = cs[i];
        proof {
            assert(s.skip(i as int)[0] == c);
            assert(s.skip(i as int).drop_first() =~= s.skip(i + 1));
        }
        let digit = '0' <= c && c <= '9';
        let unit_char = ('a' <= c && c <= 'z') || ('A' <= c && c <= 'Z') || c == 'µ';
        let d: u128 = if digit {
            (c as u32 - '0' as u32) as u128
        } else {
            0
        };
        assert(digit ==> d == digit_value(c));
        if mode == 0 {
            if digit {
                mode = 1;
                v = d;
            }
        } else if mode == 1 {
            if digit {
                let nv = v * 10 + d;
                if nv >= cap {
                    proof {
                        lemma_scan_at_least(s.skip(i + 1), ScanState::Number(nv as int), acc as int);
                        assert(nv as int / 1_000_000_000 >= max_seconds()) by (nonlinear_arith)
                            requires
                                nv >= number_cap(),
                                number_cap() == max_seconds() * 1_000_000_000,
                        ;
                    }
                    return false;
                }
                v = nv;
            } else if c == '.' {
                mode = 2;
            } else if unit_char {
                mode = 3;
                word = Vec::new();
                word.push(c);
                assert(word@ =~= seq![c]);
            }
        } else if mode == 2 {
            if unit_char {
                mode = 3;
                word = Vec::new();
                word.push(c);
                assert(word@ =~= seq![c]);
            }
        } else {
            if unit_char {
                word.push(c);
            } else {
                let f = span_bound_exec(v, &word);
                if f >= limit - acc {
                    proof {
                        let (st2, _) = scan_step(st, c);
                        lemma_scan_at_least(s.skip(i + 1), st2, (acc + f) as int);
                        match st2 {
                            ScanState::Number(x) => {
                                assert(x >= 0);
                            },
                            _ => {},
                        }
                    }
                    return false;
                }
                acc = acc + f;
                if digit {
                    mode = 1;
                    v = d;
                } else {
                    mode = 0;
                    v = 0;
                }
            }
        }
        i = i + 1;
    }
    proof {
        assert(s.skip(i as int).len() == 0);
    }
    let p: u128 = if mode == 0 {
        0
    } else if mode == 3 {
        span_bound_exec(v, &word)
    } else {
        let empty: Vec<char> = Vec::new();
        assert(empty@ =~= Seq::<char>::empty());
        span_bound_exec(v, &empty)
    };
    p < limit - acc
}

} // verus!

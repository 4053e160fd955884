//! Parsing of ISO-8601-like duration strings into whole seconds.
//!
//! A duration string such as `"PT1H10M10S"` is read from the right: every
//! maximal run of decimal digits is one number, the right-most run counts
//! seconds, the run before it minutes, the one before that hours, and each
//! further run gets another factor of sixty. Characters that are not digits
//! only separate the runs.

use vstd::prelude::*;

verus! {

/// Why a duration string was rejected.
#[derive(Clone, Copy, Debug, PartialEq, Eq, Structural)]
pub enum DurationError {
    /// The denoted number of seconds does not fit in a `u64`.
    Overflow,
}

pub open spec fn is_digit_char(c: char) -> bool {
    '0' <= c && c <= '9'
}

pub open spec fn digit_value(c: char) -> int {
    c as int - '0' as int
}

/// The seconds denoted by `s`, scanned from the right.
///
/// `pow` is the weight of the run currently open (a power of sixty), `place`
/// the decimal place of the next digit inside that run, and `in_run` says
/// whether the character just to the right was a digit, so that a separator
/// closes the run and moves the weight up by a factor of sixty.
pub open spec fn duration_value_rec(s: Seq<char>, pow: int, place: int, in_run: bool) -> int
    decreases s.len(),
{
    if s.len() == 0 {
        0
    } else {
        let c = s.last();
        let rest = s.drop_last();
        if is_digit_char(c) {
            digit_value(c) * place * pow + duration_value_rec(rest, pow, place * 10, true)
        } else if in_run {
            duration_value_rec(rest, pow * 60, 1, false)
        } else {
            duration_value_rec(rest, pow, 1, false)
        }
    }
}

/// The total number of seconds denoted by the duration string `s`.
pub open spec fn duration_value(s: Seq<char>) -> int {
    duration_value_rec(s, 1, 1, false)
}

/// A duration string is acceptable when the seconds it denotes fit in a `u64`.
pub open spec fn duration_fits(s: Seq<char>) -> bool {
    duration_value(s) <= u64::MAX
}

proof fn lemma_duration_value_rec_nonneg(s: Seq<char>, pow: int, place: int, in_run: bool)
    requires
        pow >= 0,
        place >= 0,
    ensures
        duration_value_rec(s, pow, place, in_run) >= 0,
    decreases s.len(),
{
    if s.len() > 0 {
        let c = s.last();
        let rest = s.drop_last();
        if is_digit_char(c) {
            lemma_duration_value_rec_nonneg(rest, pow, place * 10, true);
        } else if in_run {
            lemma_duration_value_rec_nonneg(rest, pow * 60, 1, false);
        } else {
            lemma_duration_value_rec_nonneg(rest, pow, 1, false);
        }
    }
}

/// A duration string never denotes a negative number of seconds.
pub proof fn lemma_duration_value_nonneg(s: Seq<char>)
    ensures
        duration_value(s) >= 0,
{
    lemma_duration_value_rec_nonneg(s, 1, 1, false);
}

/// The characters of `s`, in order, as a vector.
pub(crate) fn str_chars(s: &str) -> (r: Vec<char>)
    ensures
        r@ == s@,
{
    let mut r: Vec<char> = Vec::new();
    for c in it: s.chars()
        invariant
            it.seq() == s@,
            r@ == it.seq().take(it.index() as int),
    {
        r.push(c);
    }
    proof {
        assert(r@ =~= s@);
    }
    r
}

/// Returns the total seconds denoted by a duration string, as in
/// `"PT1H10M10S"` giving `1*3600 + 10*60 + 10 = 4210`, or an error when the
/// total does not fit in a `u64`.
pub fn duration_to_seconds(duration: &str) -> (r: Result<u64, DurationError>)
    ensures
        match r {
            Ok(v) => duration_value(duration@) == v as int,
            Err(e) => duration_value(duration@) > u64::MAX && e == DurationError::Overflow,
        },
{
    let chars = str_chars(duration);
    let ghost s = duration@;
    let mut i: usize = chars.len();
    let mut total: u64 = 0;
    let mut pow: u64 = 1;
    let mut pow_ok: bool = true;
    let ghost mut pow_g: int = 1;
    let mut place: u64 = 1;
    let mut place_ok: bool = true;
    let ghost mut place_g: int = 1;
    let mut in_run: bool = false;
    proof {
        assert(s.take(i as int) =~= s);
    }
    while i > 0
        invariant
            s == duration@,
            chars@ == s,
            i <= chars.len(),
            pow_g >= 1,
            place_g >= 1,
            pow_ok ==> pow == pow_g,
            !pow_ok ==> pow_g > u64::MAX,
            place_ok ==> place == place_g,
            !place_ok ==> place_g > u64::MAX,
            !in_run ==> place_g == 1 && place == 1 && place_ok,
            duration_value(s) == total + duration_value_rec(
                s.take(i as int),
                pow_g,
                place_g,
                in_run,
            ),
        decreases i,
    {
        i = i - 1;
        let c = chars[i];
        proof {
            assert(s.take(i as int + 1).last() == c);
            assert(s.take(i as int + 1).drop_last() =~= s.take(i as int));
        }
        if c >= '0' && c <= '9' {
            let d: u64 = (c as u32 - 48) as u64;
            proof {
                assert(d == digit_value(c));
                assert(duration_value_rec(s.take(i as int + 1), pow_g, place_g, in_run)
                    == digit_value(c) * place_g * pow_g + duration_value_rec(
                        s.take(i as int),
                        pow_g,
                        place_g * 10,
                        true,
                    ));
                lemma_duration_value_rec_nonneg(s.take(i as int), pow_g, place_g * 10, true);
            }
            if d > 0 {
                if !place_ok || !pow_ok {
                    assert(d * place_g * pow_g > u64::MAX) by (nonlinear_arith)
                        requires
                            d >= 1,
                            pow_g >= 1,
                            place_g >= 1,
                            place_g > u64::MAX || pow_g > u64::MAX,
                    ;
                    return Err(DurationError::Overflow);
                }
                let term0 = match d.checked_mul(place) {
                    Some(t) => t,
                    None => {
                        assert(d * place_g * pow_g > u64::MAX) by (nonlinear_arith)
                            requires
                                d * place_g > u64::MAX,
                                pow_g >= 1,
                                d >= 1,
                                place_g >= 1,
                        ;
                        return Err(DurationError::Overflow);
                    },
                };
                let term = match term0.checked_mul(pow) {
                    Some(t) => t,
                    None => {
                        assert(d * place_g * pow_g > u64::MAX) by (nonlinear_arith)
                            requires
                                term0 == d * place_g,
                                term0 * pow_g > u64::MAX,
                        ;
                        return Err(DurationError::Overflow);
                    },
                };
                total = match total.checked_add(term) {
                    Some(t) => t,
                    None => {
                        assert(d * place_g * pow_g == term) by (nonlinear_arith)
                            requires
                                term0 == d * place_g,
                                term == term0 * pow_g,
                        ;
                        return Err(DurationError::Overflow);
                    },
                };
                proof {
                    assert(d * place_g * pow_g == term) by (nonlinear_arith)
                        requires
                            term0 == d * place_g,
                            term == term0 * pow_g,
                    ;
                }
            } else {
                assert(d * place_g * pow_g == 0) by (nonlinear_arith)
                    requires
                        d == 0,
                ;
            }
            if place_ok {
                match place.checked_mul(10) {
                    Some(p) => {
                        place = p;
                    },
                    None => {
                        place_ok = false;
                    },
                }
            }
            proof {
                place_g = place_g * 10;
            }
            in_run = true;
        } else {
            proof {
                if in_run {
                    assert(duration_value_rec(s.take(i as int + 1), pow_g, place_g, true)
                        == duration_value_rec(s.take(i as int), pow_g * 60, 1, false));
                } else {
                    assert(duration_value_rec(s.take(i as int + 1), pow_g, place_g, false)
                        == duration_value_rec(s.take(i as int), pow_g, 1, false));
                }
            }
            if in_run {
                if pow_ok {
                    match pow.checked_mul(60) {
                        Some(p) => {
                            pow = p;
                        },
                        None => {
                            pow_ok = false;
                        },
                    }
                }
                proof {
                    pow_g = pow_g * 60;
                }
                place = 1;
                place_ok = true;
                proof {
                    place_g = 1;
                }
            }
            in_run = false;
        }
    }
    proof {
        assert(s.take(0) =~= Seq::<char>::empty());
    }
    Ok(total)
}

} // verus!

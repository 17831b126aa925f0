//! Verified numeric text handling: parsing a decimal duration into whole
//! milliseconds, and rendering an integer year as decimal text.

use vstd::prelude::*;
use vstd::string::StrSliceExecFns;
use vstd::string::StringExecFns;

use crate::strutil::find_char_from;

verus! {

/// `c` is a decimal digit.
pub open spec fn is_digit(c: char) -> bool {
    48 <= c as u32 <= 57
}

/// Numeric value of a digit character.
pub open spec fn digit_val(c: char) -> u64 {
    ((c as u32) - 48) as u64
}

/// Every character of `s` is a decimal digit.
pub open spec fn all_digits(s: Seq<char>) -> bool {
    forall|i: int| 0 <= i < s.len() ==> is_digit(s[i])
}

/// One step of reading a decimal numeral left to right, saturating at the
/// largest representable value.
pub open spec fn sat_step(acc: u64, d: u64) -> u64 {
    if acc * 10 + d > u64::MAX {
        u64::MAX
    } else {
        (acc * 10 + d) as u64
    }
}

/// Value of the first `i` digit characters of `s`, saturating.
pub open spec fn int_val(s: Seq<char>, i: int) -> u64
    decreases i,
{
    if i <= 0 {
        0
    } else {
        sat_step(int_val(s, i - 1), digit_val(s[i - 1]))
    }
}

/// `a * 1000`, saturating.
pub open spec fn sat_thousand(a: u64) -> u64 {
    if a * 1000 > u64::MAX {
        u64::MAX
    } else {
        (a * 1000) as u64
    }
}

/// `a + b`, saturating.
pub open spec fn sat_add(a: u64, b: u64) -> u64 {
    if a + b > u64::MAX {
        u64::MAX
    } else {
        (a + b) as u64
    }
}

/// Milliseconds contributed by a fractional-seconds digit string: the first
/// three digits, scaled; further digits are beyond millisecond precision.
pub open spec fn frac_ms(f: Seq<char>) -> u64 {
    ((if f.len() > 0 {
        digit_val(f[0]) * 100
    } else {
        0
    }) + (if f.len() > 1 {
        digit_val(f[1]) * 10
    } else {
        0
    }) + (if f.len() > 2 {
        digit_val(f[2])
    } else {
        0
    })) as u64
}

/// Position of the first `.` in `s` at or after `j`.
pub open spec fn first_dot_from(s: Seq<char>, j: int) -> Option<int>
    decreases s.len() - j,
{
    if j < 0 || j >= s.len() {
        None
    } else if s[j] == '.' {
        Some(j)
    } else {
        first_dot_from(s, j + 1)
    }
}

/// A duration numeral: an optional single `.` with digits around it and at
/// least one character beside the dot.
pub open spec fn duration_shape_ok(s: Seq<char>) -> bool {
    match first_dot_from(s, 0) {
        None => s.len() > 0 && all_digits(s),
        Some(p) => s.len() > 1 && all_digits(s.subrange(0, p)) && all_digits(
            s.subrange(p + 1, s.len() as int),
        ),
    }
}

/// The duration numeral `s`, in whole milliseconds, saturating at the
/// largest representable value; `None` when the shape is not a numeral.
pub open spec fn duration_ms_spec(s: Seq<char>) -> Option<u64> {
    if duration_shape_ok(s) {
        match first_dot_from(s, 0) {
            None => Some(sat_thousand(int_val(s, s.len() as int))),
            Some(p) => Some(
                sat_add(
                    sat_thousand(int_val(s.subrange(0, p), p)),
                    frac_ms(s.subrange(p + 1, s.len() as int)),
                ),
            ),
        }
    } else {
        None
    }
}

proof fn lemma_first_dot_of_find(s: Seq<char>, r: Option<usize>)
    requires
        match r {
            Some(i) => 0 <= i < s.len() && s[i as int] == '.' && forall|j: int|
                0 <= j < i ==> s[j] != '.',
            None => forall|j: int| 0 <= j < s.len() ==> s[j] != '.',
        },
    ensures
        first_dot_from(s, 0) == (match r {
            Some(i) => Some(i as int),
            None => None::<int>,
        }),
{
    let end: int = match r {
        Some(i) => i as int,
        None => s.len() as int,
    };
    assert forall|j: int| 0 <= j <= end implies first_dot_from(s, j) == first_dot_from(s, end) by {
        lemma_first_dot_step(s, j, end);
    }
}

proof fn lemma_first_dot_step(s: Seq<char>, j: int, end: int)
    requires
        0 <= j <= end <= s.len(),
        forall|k: int| 0 <= k < end ==> s[k] != '.',
    ensures
        first_dot_from(s, j) == first_dot_from(s, end),
    decreases end - j,
{
    if j < end {
        lemma_first_dot_step(s, j + 1, end);
    }
}

/// Saturating read of a digit range `[from, to)` of `s`, exact against
/// [`int_val`] of that range.
fn read_int_part(s: &str, from: usize, to: usize) -> (r: Result<u64, ()>)
    requires
        from <= to <= s@.len(),
    ensures
        match r {
            Ok(v) => all_digits(s@.subrange(from as int, to as int)) && v == int_val(
                s@.subrange(from as int, to as int),
                (to - from) as int,
            ),
            Err(()) => !all_digits(s@.subrange(from as int, to as int)),
        },
{
    let ghost part = s@.subrange(from as int, to as int);
    let mut acc: u64 = 0;
    let mut i: usize = from;
    while i < to
        invariant
            from <= i <= to <= s@.len(),
            part == s@.subrange(from as int, to as int),
            all_digits(part.subrange(0, i - from)),
            acc == int_val(part, i - from),
        decreases to - i,
    {
        let c = s.get_char(i);
        let cu = c as u32;
        if !(48 <= cu && cu <= 57) {
            proof {
                assert(part[i - from] == s@[i as int]);
            }
            return Err(());
        }
        let d: u64 = (cu - 48) as u64;
        acc = match acc.checked_mul(10) {
            Some(m) => match m.checked_add(d) {
                Some(v) => v,
                None => u64::MAX,
            },
            None => u64::MAX,
        };
        proof {
            assert(part[i - from] == s@[i as int]);
            assert(all_digits(part.subrange(0, i + 1 - from))) by {
                assert(forall|k: int| 0 <= k < i - from ==> #[trigger] part.subrange(
                    0,
                    i + 1 - from,
                )[k] == part.subrange(0, i - from)[k]);
                assert(part.subrange(0, i + 1 - from)[i - from] == part[i - from]);
            }
        }
        i = i + 1;
    }
    proof {
        assert(part.subrange(0, to - from) =~= part);
    }
    Ok(acc)
}

/// Parse a decimal duration in seconds into whole milliseconds, saturating.
/// Fails exactly on strings that are not plain decimal numerals.
pub fn parse_duration_ms(s: &str) -> (r: Option<u64>)
    ensures
        r == duration_ms_spec(s@),
{
    let len = s.unicode_len();
    let dot = find_char_from(s, '.', 0);
    proof {
        lemma_first_dot_of_find(s@, dot);
    }
    match dot {
        None => {
            if len == 0 {
                return None;
            }
            match read_int_part(s, 0, len) {
                Ok(v) => {
                    proof {
                        assert(s@.subrange(0, len as int) =~= s@);
                    }
                    let ms = match v.checked_mul(1000) {
                        Some(m) => m,
                        None => u64::MAX,
                    };
                    Some(ms)
                },
                Err(()) => {
                    proof {
                        assert(s@.subrange(0, len as int) =~= s@);
                    }
                    None
                },
            }
        },
        Some(p) => {
            if len <= 1 {
                return None;
            }
            let int_part = match read_int_part(s, 0, p) {
                Ok(v) => v,
                Err(()) => {
                    return None;
                },
            };
            let frac_ok = match read_int_part(s, p + 1, len) {
                Ok(_) => true,
                Err(()) => false,
            };
            if !frac_ok {
                return None;
            }
            let ghost frac = s@.subrange(p + 1, len as int);
            let sec_ms = match int_part.checked_mul(1000) {
                Some(m) => m,
                None => u64::MAX,
            };
            let mut extra: u64 = 0;
            if p + 1 < len {
                extra = (s.get_char(p + 1) as u32 - 48) as u64 * 100;
                proof {
                    assert(frac[0] == s@[p + 1]);
                    assert(is_digit(frac[0]));
                }
                if p + 2 < len {
                    extra = extra + (s.get_char(p + 2) as u32 - 48) as u64 * 10;
                    proof {
                        assert(frac[1] == s@[p + 2]);
                        assert(is_digit(frac[1]));
                    }
                    if p + 3 < len {
                        extra = extra + (s.get_char(p + 3) as u32 - 48) as u64;
                        proof {
                            assert(frac[2] == s@[p + 3]);
                            assert(is_digit(frac[2]));
                        }
                    }
                }
            }
            proof {
                assert(extra == frac_ms(frac));
            }
            let ms = match sec_ms.checked_add(extra) {
                Some(m) => m,
                None => u64::MAX,
            };
            Some(ms)
        },
    }
}

/// Decimal digit character for a value below ten.
pub open spec fn digit_char(d: nat) -> char {
    if d == 0 {
        '0'
    } else if d == 1 {
        '1'
    } else if d == 2 {
        '2'
    } else if d == 3 {
        '3'
    } else if d == 4 {
        '4'
    } else if d == 5 {
        '5'
    } else if d == 6 {
        '6'
    } else if d == 7 {
        '7'
    } else if d == 8 {
        '8'
    } else {
        '9'
    }
}

/// Decimal rendering of `n`, most significant digit first.
pub open spec fn dec_of(n: nat) -> Seq<char>
    decreases n,
{
    if n < 10 {
        seq![digit_char(n)]
    } else {
        dec_of(n / 10).push(digit_char(n % 10))
    }
}

/// One digit as owned text.
fn digit_string(d: u32) -> (r: String)
    requires
        d < 10,
    ensures
        r@ == seq![digit_char(d as nat)],
{
    proof {
        reveal_strlit("0");
        reveal_strlit("1");
        reveal_strlit("2");
        reveal_strlit("3");
        reveal_strlit("4");
        reveal_strlit("5");
        reveal_strlit("6");
        reveal_strlit("7");
        reveal_strlit("8");
        reveal_strlit("9");
    }
    let t = if d == 0 {
        "0"
    } else if d == 1 {
        "1"
    } else if d == 2 {
        "2"
    } else if d == 3 {
        "3"
    } else if d == 4 {
        "4"
    } else if d == 5 {
        "5"
    } else if d == 6 {
        "6"
    } else if d == 7 {
        "7"
    } else if d == 8 {
        "8"
    } else {
        "9"
    };
    let r = t.to_owned();
    proof {
        assert(r@ =~= seq![digit_char(d as nat)]);
    }
    r
}

/// Decimal rendering of a year (or any small integer) as owned text.
pub fn u32_to_string(n: u32) -> (r: String)
    ensures
        r@ == dec_of(n as nat),
    decreases n,
{
    if n < 10 {
        digit_string(n)
    } else {
        let mut s = u32_to_string(n / 10);
        let d = digit_string(n % 10);
        s.append(d.as_str());
        proof {
            assert(s@ =~= dec_of((n / 10) as nat).push(digit_char((n % 10) as nat)));
        }
        s
    }
}

} // verus!

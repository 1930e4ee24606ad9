//! Parsing of signed decimal and hexadecimal numerals from text.

use vstd::prelude::*;
use vstd::string::StrSliceExecFns;
use vstd::string::StringExecFns;

verus! {

/// The base a numeral was written in.
#[derive(Clone, Copy, Debug, PartialEq, Eq, Structural)]
pub enum NumberType {
    /// Base ten.
    Decimal,
    /// Base sixteen.
    Hexadecimal,
}

/// The value of `c` as a digit: `0..=9` for `'0'..='9'`, `10..=35` for
/// letters of either case, and an out-of-range marker otherwise.
pub open spec fn digit_value(c: char) -> int {
    let u = c as int;
    if 48 <= u <= 57 {
        u - 48
    } else if 97 <= u <= 122 {
        u - 87
    } else if 65 <= u <= 90 {
        u - 55
    } else {
        99
    }
}

/// Whether `ds` is a nonempty run of digits valid in base `radix`.
pub open spec fn all_digits(ds: Seq<char>, radix: int) -> bool {
    ds.len() > 0 && forall|i: int| 0 <= i < ds.len() ==> digit_value(ds[i]) < radix
}

/// The unsigned value of the digit run `ds` in base `radix`, most
/// significant digit first.
pub open spec fn radix_value(ds: Seq<char>, radix: int) -> int
    decreases ds.len(),
{
    if ds.len() == 0 {
        0
    } else {
        radix_value(ds.drop_last(), radix) * radix + digit_value(ds.last())
    }
}

/// The integer a numeral denotes: one optional sign, then one or more
/// digits of the base, and a result within `[min, max]`.  Anything else
/// denotes nothing.
pub open spec fn spec_parse_int(cs: Seq<char>, radix: int, min: int, max: int) -> Option<int> {
    let neg = cs.len() > 0 && cs[0] == '-';
    let ds = if cs.len() > 0 && (cs[0] == '-' || cs[0] == '+') {
        cs.skip(1)
    } else {
        cs
    };
    if !all_digits(ds, radix) {
        Option::None
    } else {
        let v = if neg {
            -radix_value(ds, radix)
        } else {
            radix_value(ds, radix)
        };
        if min <= v <= max {
            Option::Some(v)
        } else {
            Option::None
        }
    }
}

/// A digit run has a value of at least zero.
pub proof fn lemma_radix_value_nonneg(ds: Seq<char>, radix: int)
    requires
        radix >= 2,
        forall|i: int| 0 <= i < ds.len() ==> digit_value(ds[i]) < radix,
    ensures
        radix_value(ds, radix) >= 0,
    decreases ds.len(),
{
    if ds.len() > 0 {
        assert forall|i: int| 0 <= i < ds.drop_last().len() implies digit_value(
            ds.drop_last()[i],
        ) < radix by {
            assert(ds.drop_last()[i] == ds[i]);
        }
        lemma_radix_value_nonneg(ds.drop_last(), radix);
        assert(radix_value(ds.drop_last(), radix) * radix >= 0) by (nonlinear_arith)
            requires
                radix_value(ds.drop_last(), radix) >= 0,
                radix >= 2,
        ;
        assert(digit_value(ds.last()) >= 0);
    }
}

/// Extending a digit run does not shrink its value.
pub proof fn lemma_radix_value_prefix_bound(ds: Seq<char>, i: int, radix: int)
    requires
        radix >= 2,
        0 <= i <= ds.len(),
        forall|k: int| 0 <= k < ds.len() ==> digit_value(ds[k]) < radix,
    ensures
        radix_value(ds.take(i), radix) <= radix_value(ds, radix),
    decreases ds.len() - i,
{
    if i == ds.len() {
        assert(ds.take(i) =~= ds);
    } else {
        lemma_radix_value_prefix_bound(ds, i + 1, radix);
        let p = ds.take(i + 1);
        assert(p.drop_last() =~= ds.take(i));
        assert(p.last() == ds[i]);
        let v = radix_value(ds.take(i), radix);
        assert forall|k: int| 0 <= k < ds.take(i).len() implies digit_value(
            ds.take(i)[k],
        ) < radix by {
            assert(ds.take(i)[k] == ds[k]);
        }
        lemma_radix_value_nonneg(ds.take(i), radix);
        assert(v * radix >= v) by (nonlinear_arith)
            requires
                v >= 0,
                radix >= 2,
        ;
        assert(radix_value(p, radix) == v * radix + digit_value(ds[i]));
        assert(digit_value(ds[i]) >= 0);
    }
}

/// Parses the numeral formed by an optional leading `'-'` (when `pre_neg`
/// is set) followed by the characters of `s` from index `from` on, in base
/// `radix`, accepting values in `[min, max]`.
fn parse_int_span(s: &str, from: usize, pre_neg: bool, radix: u16, min: i64, max: i64) -> (r:
    Option<i64>)
    requires
        from <= s@.len(),
        2 <= radix <= 36,
        min <= 0 <= max,
        -0x8000_0000_0000 <= min,
        max <= 0x8000_0000_0000,
    ensures
        ({
            let cs = if pre_neg {
                seq!['-'] + s@.skip(from as int)
            } else {
                s@.skip(from as int)
            };
            match r {
                Option::Some(v) => spec_parse_int(cs, radix as int, min as int, max as int)
                    == Option::Some(v as int),
                Option::None => spec_parse_int(cs, radix as int, min as int, max as int)
                    is None,
            }
        }),
{
    let ghost cs: Seq<char> = if pre_neg {
        seq!['-'] + s@.skip(from as int)
    } else {
        s@.skip(from as int)
    };
    let n: usize = s.unicode_len();
    let mut neg: bool = pre_neg;
    let mut i: usize = from;
    if !pre_neg && from < n {
        let c0 = s.get_char(from);
        if c0 == '-' {
            neg = true;
            i = from + 1;
        } else if c0 == '+' {
            i = from + 1;
        }
    }
    let ghost ds: Seq<char> = s@.skip(i as int);
    proof {
        assert(cs.len() > 0 && (cs[0] == '-' || cs[0] == '+') ==> cs.skip(1) =~= ds);
        assert(!(cs.len() > 0 && (cs[0] == '-' || cs[0] == '+')) ==> cs =~= ds);
    }
    if i >= n {
        // No digits at all.
        return Option::None;
    }
    let max_mag: u64 = if neg {
        (-min) as u64
    } else {
        max as u64
    };
    let mut acc: u64 = 0;
    let mut j: usize = i;
    while j < n
        invariant
            i <= j <= n,
            n == s@.len(),
            i <= s@.len(),
            ds == s@.skip(i as int),
            cs == if pre_neg {
                seq!['-'] + s@.skip(from as int)
            } else {
                s@.skip(from as int)
            },
            cs.len() > 0 && (cs[0] == '-' || cs[0] == '+') ==> cs.skip(1) == ds,
            !(cs.len() > 0 && (cs[0] == '-' || cs[0] == '+')) ==> cs == ds,
            neg == (cs.len() > 0 && cs[0] == '-'),
            neg ==> max_mag == -min,
            !neg ==> max_mag == max,
            min <= 0 <= max,
            -0x8000_0000_0000 <= min,
            max <= 0x8000_0000_0000,
            2 <= radix <= 36,
            acc <= max_mag,
            max_mag <= 0x8000_0000_0000,
            acc == radix_value(ds.take(j - i), radix as int),
            forall|k: int| 0 <= k < j - i ==> digit_value(ds[k]) < radix,
        decreases n - j,
    {
        let c = s.get_char(j);
        let cu: u32 = c as u32;
        let d: u32 = if 48 <= cu && cu <= 57 {
            cu - 48
        } else if 97 <= cu && cu <= 122 {
            cu - 87
        } else if 65 <= cu && cu <= 90 {
            cu - 55
        } else {
            99
        };
        proof {
            assert(ds[j - i] == s@[j as int]);
            assert(d == digit_value(s@[j as int]) || (d == 99 && digit_value(s@[j as int])
                == 99));
        }
        if d >= radix as u32 {
            // The run holds a character that is no digit of this base.
            proof {
                assert(digit_value(ds[j - i]) >= radix);
                assert(!all_digits(ds, radix as int));
            }
            return Option::None;
        }
        proof {
            assert(acc as int * (radix as int) <= 0x8000_0000_0000 * 36) by (nonlinear_arith)
                requires
                    0 <= acc <= 0x8000_0000_0000,
                    0 <= radix <= 36,
            ;
        }
        let next: u64 = acc * (radix as u64) + (d as u64);
        proof {
            assert(ds.take(j - i + 1).drop_last() =~= ds.take(j - i));
            assert(ds.take(j - i + 1).last() == ds[j - i]);
        }
        if next > max_mag {
            // Too large already; growing the run cannot shrink the value.
            proof {
                if all_digits(ds, radix as int) {
                    lemma_radix_value_prefix_bound(ds, j - i + 1, radix as int);
                }
            }
            return Option::None;
        }
        acc = next;
        j = j + 1;
    }
    proof {
        assert(ds.take(n - i) =~= ds);
        assert(all_digits(ds, radix as int));
    }
    if neg {
        Option::Some(-(acc as i64))
    } else {
        Option::Some(acc as i64)
    }
}

/// Reads the characters of `s` from index `from` on as an unsigned decimal
/// numeral that fits in 8 bits.
pub fn parse_u8_span(s: &str, from: usize) -> (r: Option<u8>)
    requires
        from <= s@.len(),
    ensures
        match r {
            Option::Some(v) => spec_parse_int(s@.skip(from as int), 10, 0, 255) == Option::Some(
                v as int,
            ),
            Option::None => spec_parse_int(s@.skip(from as int), 10, 0, 255) is None,
        },
{
    match parse_int_span(s, from, false, 10, 0, 255) {
        Option::Some(v) => Option::Some(v as u8),
        Option::None => Option::None,
    }
}

/// The reading `parse_numeric_value_as_i16` and `parse_numeric_value_as_i32`
/// give to `cs` for results in `[min, max]`: a `-0x` prefix starts a negative
/// hexadecimal numeral, a `0x` prefix a hexadecimal one, and anything else is
/// read as signed decimal.  A failed hexadecimal reading after a `0x` prefix
/// is not retried as decimal; a failed `-0x` reading falls through.
pub open spec fn spec_parse_numeric(cs: Seq<char>, min: int, max: int) -> Option<(
    NumberType,
    int,
)> {
    let neg_hex = if cs.len() > 3 && cs.subrange(0, 3) == seq!['-', '0', 'x'] {
        spec_parse_int(seq!['-'] + cs.skip(3), 16, min, max)
    } else {
        Option::None
    };
    match neg_hex {
        Option::Some(v) => Option::Some((NumberType::Hexadecimal, v)),
        Option::None => {
            if cs.len() > 2 && cs.subrange(0, 2) == seq!['0', 'x'] {
                match spec_parse_int(cs.skip(2), 16, min, max) {
                    Option::Some(v) => Option::Some((NumberType::Hexadecimal, v)),
                    Option::None => Option::None,
                }
            } else if cs.len() > 0 {
                match spec_parse_int(cs, 10, min, max) {
                    Option::Some(v) => Option::Some((NumberType::Decimal, v)),
                    Option::None => Option::None,
                }
            } else {
                Option::None
            }
        },
    }
}

/// Reads `value` as a 16-bit numeral, reporting the base it was written in.
pub fn parse_numeric_value_as_i16(value: &str) -> (r: Result<(NumberType, i16), String>)
    ensures
        match r {
            Result::Ok((t, v)) => spec_parse_numeric(value@, i16::MIN as int, i16::MAX as int)
                == Option::Some((t, v as int)),
            Result::Err(e) => spec_parse_numeric(value@, i16::MIN as int, i16::MAX as int)
                is None && e@ == "Failed to parse numeric value."@,
        },
{
    match parse_numeric_span(value, -0x8000, 0x7FFF) {
        Option::Some((t, v)) => Result::Ok((t, v as i16)),
        Option::None => Result::Err(String::from_str("Failed to parse numeric value.")),
    }
}

/// Reads `value` as a 32-bit numeral, reporting the base it was written in.
pub fn parse_numeric_value_as_i32(value: &str) -> (r: Result<(NumberType, i32), String>)
    ensures
        match r {
            Result::Ok((t, v)) => spec_parse_numeric(value@, i32::MIN as int, i32::MAX as int)
                == Option::Some((t, v as int)),
            Result::Err(e) => spec_parse_numeric(value@, i32::MIN as int, i32::MAX as int)
                is None && e@ == "Failed to parse numeric value."@,
        },
{
    match parse_numeric_span(value, -0x8000_0000, 0x7FFF_FFFF) {
        Option::Some((t, v)) => Result::Ok((t, v as i32)),
        Option::None => Result::Err(String::from_str("Failed to parse numeric value.")),
    }
}

/// Shared reading behind the two public numeral parsers.
fn parse_numeric_span(value: &str, min: i64, max: i64) -> (r: Option<(NumberType, i64)>)
    requires
        min <= 0 <= max,
        -0x8000_0000_0000 <= min,
        max <= 0x8000_0000_0000,
    ensures
        match r {
            Option::Some((t, v)) => spec_parse_numeric(value@, min as int, max as int)
                == Option::Some((t, v as int)) && min <= v <= max,
            Option::None => spec_parse_numeric(value@, min as int, max as int) is None,
        },
{
    let n: usize = value.unicode_len();
    if n > 3 && value.get_char(0) == '-' && value.get_char(1) == '0' && value.get_char(2)
        == 'x' {
        proof {
            assert(value@.subrange(0, 3) =~= seq!['-', '0', 'x']);
        }
        match parse_int_span(value, 3, true, 16, min, max) {
            Option::Some(v) => {
                return Option::Some((NumberType::Hexadecimal, v));
            },
            Option::None => {},
        }
    }
    proof {
        if n > 3 && value@.subrange(0, 3) == seq!['-', '0', 'x'] {
            assert(value@[0] == '-' && value@[1] == '0' && value@[2] == 'x');
        }
    }
    if n > 2 && value.get_char(0) == '0' && value.get_char(1) == 'x' {
        proof {
            assert(value@.subrange(0, 2) =~= seq!['0', 'x']);
        }
        match parse_int_span(value, 2, false, 16, min, max) {
            Option::Some(v) => Option::Some((NumberType::Hexadecimal, v)),
            Option::None => Option::None,
        }
    } else if n > 0 {
        proof {
            if n > 2 && value@.subrange(0, 2) == seq!['0', 'x'] {
                assert(value@[0] == '0' && value@[1] == 'x');
            }
            assert(value@.skip(0) =~= value@);
        }
        match parse_int_span(value, 0, false, 10, min, max) {
            Option::Some(v) => Option::Some((NumberType::Decimal, v)),
            Option::None => Option::None,
        }
    } else {
        Option::None
    }
}

} // verus!

use vstd::prelude::*;

verus! {

/// The character for one decimal digit value.
pub open spec fn spec_digit_char(d: int) -> char {
    if d == 0 {
        '0'
    } else if d == 1 {
        '1'
    } else if d == 2 {
        '2'
    } else if d == 3 {
        '3'
    } else if d == 4 {
        '4'
    } else if d == 5 {
        '5'
    } else if d == 6 {
        '6'
    } else if d == 7 {
        '7'
    } else if d == 8 {
        '8'
    } else {
        '9'
    }
}

/// The base-10 digit string of a natural number, most significant digit
/// first, with no leading zeros (a single `'0'` for zero).
pub open spec fn spec_nat_to_string(n: nat) -> Seq<char>
    decreases n,
{
    if n < 10 {
        seq![spec_digit_char(n as int)]
    } else {
        spec_nat_to_string(n / 10) + seq![spec_digit_char((n % 10) as int)]
    }
}

/// The base-10 rendering of a signed integer: a `'-'` before the digit
/// string of the magnitude for negative values.
pub open spec fn spec_i64_to_string(i: int) -> Seq<char> {
    if i < 0 {
        seq!['-'] + spec_nat_to_string((-i) as nat)
    } else {
        spec_nat_to_string(i as nat)
    }
}

/// One-character string slice for a decimal digit value.
fn digit_str(d: u64) -> (r: &'static str)
    requires
        d < 10,
    ensures
        r@ == seq![spec_digit_char(d as int)],
{
    if d == 0 {
        proof {
            reveal_strlit("0");
            assert("0"@ =~= seq![spec_digit_char(0int)]);
        }
        "0"
    } else if d == 1 {
        proof {
            reveal_strlit("1");
            assert("1"@ =~= seq![spec_digit_char(1int)]);
        }
        "1"
    } else if d == 2 {
        proof {
            reveal_strlit("2");
            assert("2"@ =~= seq![spec_digit_char(2int)]);
        }
        "2"
    } else if d == 3 {
        proof {
            reveal_strlit("3");
            assert("3"@ =~= seq![spec_digit_char(3int)]);
        }
        "3"
    } else if d == 4 {
        proof {
            reveal_strlit("4");
            assert("4"@ =~= seq![spec_digit_char(4int)]);
        }
        "4"
    } else if d == 5 {
        proof {
            reveal_strlit("5");
            assert("5"@ =~= seq![spec_digit_char(5int)]);
        }
        "5"
    } else if d == 6 {
        proof {
            reveal_strlit("6");
            assert("6"@ =~= seq![spec_digit_char(6int)]);
        }
        "6"
    } else if d == 7 {
        proof {
            reveal_strlit("7");
            assert("7"@ =~= seq![spec_digit_char(7int)]);
        }
        "7"
    } else if d == 8 {
        proof {
            reveal_strlit("8");
            assert("8"@ =~= seq![spec_digit_char(8int)]);
        }
        "8"
    } else {
        proof {
            reveal_strlit("9");
            assert("9"@ =~= seq![spec_digit_char(9int)]);
        }
        "9"
    }
}

/// Digit string of an unsigned 64-bit value, most significant digit first.
fn u64_to_dec_string(n: u64) -> (r: String)
    ensures
        r@ == spec_nat_to_string(n as nat),
    decreases n,
{
    let d: u64 = n % 10;
    let ds = digit_str(d);
    if n < 10 {
        ds.to_owned()
    } else {
        let mut r = u64_to_dec_string(n / 10);
        r.append(ds);
        r
    }
}

/// Base-10 rendering of a signed 64-bit integer.
pub fn i64_to_string(i: i64) -> (r: String)
    ensures
        r@ == spec_i64_to_string(i as int),
{
    if i >= 0 {
        u64_to_dec_string(i as u64)
    } else {
        let mag: u64 = if i == i64::MIN {
            9223372036854775808u64
        } else {
            (-i) as u64
        };
        assert(mag as nat == (-(i as int)) as nat);
        let digits = u64_to_dec_string(mag);
        let mut r = "-".to_owned();
        r.append(digits.as_str());
        proof {
            reveal_strlit("-");
            assert("-"@ =~= seq!['-']);
        }
        r
    }
}

/// Whether `c` is an ASCII decimal digit.
pub open spec fn spec_is_digit(c: char) -> bool {
    48 <= c as int <= 57
}

/// The numeric value of an ASCII decimal digit character.
pub open spec fn spec_digit_value(c: char) -> int {
    c as int - 48
}

/// Whether every character of `s` is an ASCII decimal digit.
pub open spec fn spec_all_digits(s: Seq<char>) -> bool {
    forall|i: int| 0 <= i < s.len() ==> spec_is_digit(#[trigger] s[i])
}

/// The numeric value of a digit string, most significant digit first.
pub open spec fn spec_digits_value(s: Seq<char>) -> int
    decreases s.len(),
{
    if s.len() == 0 {
        0
    } else {
        spec_digits_value(s.drop_last()) * 10 + spec_digit_value(s.last())
    }
}

/// What parsing a 64-bit signed integer literal accepts: an optional sign
/// followed by at least one ASCII decimal digit, and a value in range.
pub open spec fn spec_parse_i64(s: Seq<char>) -> Option<i64> {
    let neg = s.len() > 0 && s[0] == '-';
    let body = if s.len() > 0 && (s[0] == '-' || s[0] == '+') {
        s.drop_first()
    } else {
        s
    };
    if body.len() > 0 && spec_all_digits(body) {
        let m = spec_digits_value(body);
        if neg {
            if m <= 0x8000_0000_0000_0000 {
                Some((-m) as i64)
            } else {
                None
            }
        } else {
            if m <= 0x7fff_ffff_ffff_ffff {
                Some(m as i64)
            } else {
                None
            }
        }
    } else {
        None
    }
}

/// A digit string has a non-negative value.
proof fn lemma_digits_value_nonneg(s: Seq<char>)
    requires
        spec_all_digits(s),
    ensures
        spec_digits_value(s) >= 0,
    decreases s.len(),
{
    if s.len() > 0 {
        assert(spec_all_digits(s.drop_last()));
        lemma_digits_value_nonneg(s.drop_last());
    }
}

/// A digit string is worth at least any of its prefixes.
proof fn lemma_digits_value_prefix_le(s: Seq<char>, k: int)
    requires
        spec_all_digits(s),
        0 <= k <= s.len(),
    ensures
        spec_digits_value(s.subrange(0, k)) <= spec_digits_value(s),
    decreases s.len() - k,
{
    if k == s.len() {
        assert(s.subrange(0, k) =~= s);
    } else {
        let shorter = s.subrange(0, k);
        let longer = s.subrange(0, k + 1);
        assert(longer.drop_last() =~= shorter);
        assert(longer.last() == s[k]);
        assert(spec_all_digits(shorter));
        lemma_digits_value_nonneg(shorter);
        assert(spec_digits_value(longer) == spec_digits_value(shorter) * 10 + spec_digit_value(
            s[k],
        ));
        assert(spec_digits_value(shorter) <= spec_digits_value(longer));
        lemma_digits_value_prefix_le(s, k + 1);
    }
}

/// Parses a base-10 signed 64-bit integer literal: an optional `+` or `-`
/// sign followed by one or more ASCII decimal digits, rejecting anything
/// else and any value out of range.
pub fn parse_i64(s: &str) -> (r: Option<i64>)
    ensures
        r == spec_parse_i64(s@),
{
    let len = s.unicode_len();
    if len == 0 {
        return None;
    }
    let first = s.get_char(0);
    let has_sign = first == '-' || first == '+';
    let neg = first == '-';
    let start: usize = if has_sign {
        1
    } else {
        0
    };
    let ghost body = if has_sign {
        s@.drop_first()
    } else {
        s@
    };
    if start == len {
        assert(body.len() == 0);
        return None;
    }
    let limit: u64 = if neg {
        9223372036854775808u64
    } else {
        9223372036854775807u64
    };
    let mut mag: u64 = 0;
    let mut i: usize = start;
    proof {
        assert(body.subrange(0, 0) =~= Seq::<char>::empty());
    }
    while i < len
        invariant
            len == s@.len(),
            0 < len,
            first == s@[0],
            has_sign == (s@[0] == '-' || s@[0] == '+'),
            neg == (s@[0] == '-'),
            start == (if has_sign {
                1usize
            } else {
                0usize
            }),
            start < len,
            start <= i <= len,
            body == (if has_sign {
                s@.drop_first()
            } else {
                s@
            }),
            body.len() == len - start,
            limit == (if neg {
                9223372036854775808u64
            } else {
                9223372036854775807u64
            }),
            spec_all_digits(body.subrange(0, i - start)),
            mag == spec_digits_value(body.subrange(0, i - start)),
            mag <= limit,
        decreases len - i,
    {
        let c = s.get_char(i);
        let cu = c as u32;
        proof {
            assert(body[i - start] == s@[i as int]);
        }
        if cu < 48 || cu > 57 {
            proof {
                assert(!spec_is_digit(body[i - start]));
            }
            return None;
        }
        let d: u64 = (cu - 48) as u64;
        proof {
            assert(spec_is_digit(body[i - start]));
            assert(d == spec_digit_value(body[i - start]));
        }
        let ghost shorter = body.subrange(0, i - start);
        let ghost longer = body.subrange(0, i - start + 1);
        proof {
            assert(longer.drop_last() =~= shorter);
            assert(longer.last() == body[i - start]);
            assert(spec_digits_value(longer) == mag * 10 + d);
            assert(spec_all_digits(longer));
        }
        if mag > (limit - d) / 10 {
            proof {
                assert(((limit - d) / 10) * 10 <= limit - d);
                assert(mag * 10 + d > limit);
                lemma_digits_value_nonneg(longer);
                if spec_all_digits(body) {
                    lemma_digits_value_prefix_le(body, i - start + 1);
                    assert(spec_digits_value(body) > limit);
                }
            }
            return None;
        }
        proof {
            assert(mag <= (limit - d) / 10);
            assert(((limit - d) / 10) * 10 <= limit - d);
            assert(mag * 10 <= limit - d) by {
                assert(mag * 10 <= ((limit - d) / 10) * 10);
            }
        }
        mag = mag * 10 + d;
        i = i + 1;
    }
    proof {
        assert(body.subrange(0, len - start) =~= body);
    }
    if neg {
        if mag == 9223372036854775808u64 {
            Some(i64::MIN)
        } else {
            Some(-(mag as i64))
        }
    } else {
        Some(mag as i64)
    }
}

} // verus!

use vstd::prelude::*;
use vstd::string::StrSliceExecFns;

verus! {

/// Whether `c` is an ASCII decimal digit.
pub open spec fn is_decimal_digit(c: char) -> bool {
    48 <= c as int <= 57
}

/// The numeric value of a decimal digit.
pub open spec fn digit_value(c: char) -> int {
    c as int - 48
}

/// The value of a string of decimal digits, most significant first.
pub open spec fn digits_value(s: Seq<char>) -> int
    decreases s.len(),
{
    if s.len() == 0 {
        0
    } else {
        digits_value(s.drop_last()) * 10 + digit_value(s.last())
    }
}

/// Whether every character of `s` is a decimal digit.
pub open spec fn all_digits(s: Seq<char>) -> bool {
    forall|i: int| 0 <= i < s.len() ==> is_decimal_digit(#[trigger] s[i])
}

/// The digits of a numeral: everything behind an optional leading plus sign.
pub open spec fn numeral_body(s: Seq<char>) -> Seq<char> {
    if s.len() > 0 && s[0] == '+' {
        s.skip(1)
    } else {
        s
    }
}

/// Whether `s` is a decimal numeral whose value fits a sixteen-bit word: an
/// optional plus sign, then at least one digit, any number of leading zeros
/// allowed, with a value of at most 65535.
pub open spec fn is_u16_numeral(s: Seq<char>) -> bool {
    &&& numeral_body(s).len() > 0
    &&& all_digits(numeral_body(s))
    &&& digits_value(numeral_body(s)) <= 65535
}

/// A string of digits has a non-negative value.
proof fn lemma_digits_nonneg(b: Seq<char>)
    requires
        all_digits(b),
    ensures
        digits_value(b) >= 0,
    decreases b.len(),
{
    if b.len() > 0 {
        assert(forall|i: int| 0 <= i < b.drop_last().len() ==> is_decimal_digit(
            #[trigger] b.drop_last()[i],
        ));
        lemma_digits_nonneg(b.drop_last());
        assert(is_decimal_digit(b.last()));
    }
}

/// Extending a string of digits never shrinks its value, so once a prefix
/// exceeds a bound, the whole numeral does.
proof fn lemma_digits_prefix_le(b: Seq<char>, k: int)
    requires
        all_digits(b),
        0 <= k <= b.len(),
    ensures
        digits_value(b.take(k)) <= digits_value(b),
    decreases b.len() - k,
{
    if k == b.len() {
        assert(b.take(k) =~= b);
    } else {
        lemma_digits_prefix_le(b, k + 1);
        let longer = b.take(k + 1);
        assert(longer.drop_last() =~= b.take(k));
        assert(longer.last() == b[k]);
        assert(forall|i: int| 0 <= i < b.take(k).len() ==> is_decimal_digit(
            #[trigger] b.take(k)[i],
        ));
        lemma_digits_nonneg(b.take(k));
        assert(is_decimal_digit(b[k]));
        assert(digits_value(b.take(k)) <= digits_value(longer));
    }
}

/// Parse a decimal numeral as std does for a sixteen-bit unsigned integer:
/// an optional leading plus sign, then one or more digits, rejected when the
/// value overflows.
pub fn parse_u16(s: &str) -> (r: Option<u16>)
    ensures
        is_u16_numeral(s@) ==> r == Some((digits_value(numeral_body(s@)) as u16)),
        !is_u16_numeral(s@) ==> r == None::<u16>,
{
    let len = s.unicode_len();
    let start: usize = if len > 0 && s.get_char(0) == '+' {
        1
    } else {
        0
    };
    proof {
        assert(numeral_body(s@) =~= s@.subrange(start as int, len as int));
    }
    if start >= len {
        return None;
    }
    let ghost body = s@.subrange(start as int, len as int);
    let mut acc: u32 = 0;
    let mut i: usize = start;
    while i < len
        invariant
            start <= i <= len,
            start < len,
            len == s@.len(),
            body == s@.subrange(start as int, len as int),
            body == numeral_body(s@),
            acc <= 65535,
            forall|k: int| 0 <= k < i - start ==> is_decimal_digit(#[trigger] body[k]),
            acc as int == digits_value(body.take(i - start)),
        decreases len - i,
    {
        let c = s.get_char(i);
        let cu = c as u32;
        proof {
            assert(body[i - start] == s@[i as int]);
        }
        if cu < 48 || cu > 57 {
            proof {
                assert(!is_decimal_digit(s@[i as int]));
                assert(!all_digits(body));
            }
            return None;
        }
        let d = cu - 48;
        let next = acc * 10 + d;
        let ghost upto = body.take(i + 1 - start);
        proof {
            assert(upto.drop_last() =~= body.take(i - start));
            assert(upto.last() == body[i - start]);
            assert(next as int == digits_value(upto));
        }
        if next > 65535 {
            proof {
                if is_u16_numeral(s@) {
                    lemma_digits_prefix_le(body, i + 1 - start);
                }
            }
            return None;
        }
        acc = next;
        i = i + 1;
    }
    proof {
        assert(body.take(len - start) =~= body);
        assert(all_digits(body));
    }
    Some(acc as u16)
}

/// Whether the two strings hold the same characters.
fn str_eq(a: &str, b: &str) -> (r: bool)
    ensures
        r == (a@ == b@),
{
    let a_owned: String = a.to_owned();
    let b_owned: String = b.to_owned();
    a_owned == b_owned
}

/// The configuration names whose values must parse as a port-sized number.
pub open spec fn is_number_env(s: Seq<char>) -> bool {
    ||| s == "DATABASE_MIN_TIME_AFTER_UPDATE"@
    ||| s == "NETWORK_TABLE_PORT"@
    ||| s == "TIME_BETWEEN_RECONNECT_ATTEMPTS"@
    ||| s == "SERVER_PORT"@
}

/// Whether the configuration option named `s` must hold a number.
pub fn is_supposed_to_be_number(s: &str) -> (r: bool)
    ensures
        r == is_number_env(s@),
{
    str_eq(s, "DATABASE_MIN_TIME_AFTER_UPDATE") || str_eq(s, "NETWORK_TABLE_PORT") || str_eq(
        s,
        "TIME_BETWEEN_RECONNECT_ATTEMPTS",
    ) || str_eq(s, "SERVER_PORT")
}

/// How many configuration options the process needs.
pub const REQUIRED_ENV_COUNT: usize = 6;

/// The i-th required configuration name, in their fixed declaration order.
pub open spec fn required_env_name(i: int) -> Seq<char> {
    if i == 0 {
        "DATABASE_PATH"@
    } else if i == 1 {
        "DATABASE_MIN_TIME_AFTER_UPDATE"@
    } else if i == 2 {
        "SERVER_PORT"@
    } else if i == 3 {
        "NETWORK_TABLE_IP"@
    } else if i == 4 {
        "NETWORK_TABLE_PORT"@
    } else {
        "TIME_BETWEEN_RECONNECT_ATTEMPTS"@
    }
}

/// The i-th required configuration name as a string slice.
pub fn required_env_name_at(i: usize) -> (s: &'static str)
    requires
        i < REQUIRED_ENV_COUNT,
    ensures
        s@ == required_env_name(i as int),
{
    if i == 0 {
        "DATABASE_PATH"
    } else if i == 1 {
        "DATABASE_MIN_TIME_AFTER_UPDATE"
    } else if i == 2 {
        "SERVER_PORT"
    } else if i == 3 {
        "NETWORK_TABLE_IP"
    } else if i == 4 {
        "NETWORK_TABLE_PORT"
    } else {
        "TIME_BETWEEN_RECONNECT_ATTEMPTS"
    }
}

/// A provided configuration value is unusable when it is missing entirely,
/// or when its name demands a number and the value does not parse as one.
pub open spec fn env_entry_invalid(name: Seq<char>, value: Option<Seq<char>>) -> bool {
    match value {
        None => true,
        Some(v) => is_number_env(name) && !is_u16_numeral(v),
    }
}

/// The names among the first `i` required options whose values are
/// unusable, in declaration order.
pub open spec fn invalid_env_prefix(values: Seq<Option<Seq<char>>>, i: int) -> Seq<Seq<char>>
    decreases i,
{
    if i <= 0 {
        Seq::empty()
    } else {
        let rest = invalid_env_prefix(values, i - 1);
        if 0 <= i - 1 < values.len() && env_entry_invalid(required_env_name(i - 1), values[i - 1]) {
            rest.push(required_env_name(i - 1))
        } else {
            rest
        }
    }
}

/// The required configuration names whose provided values are unusable, in
/// declaration order. `values[i]` is what was provided for the i-th name.
pub fn get_invalid_env_list(values: &Vec<Option<String>>) -> (r: Vec<String>)
    requires
        values@.len() == REQUIRED_ENV_COUNT,
    ensures
        r.deep_view() == invalid_env_prefix(values.deep_view(), REQUIRED_ENV_COUNT as int),
{
    let mut r: Vec<String> = Vec::new();
    let mut i: usize = 0;
    while i < REQUIRED_ENV_COUNT
        invariant
            i <= REQUIRED_ENV_COUNT,
            values@.len() == REQUIRED_ENV_COUNT,
            r.deep_view() == invalid_env_prefix(values.deep_view(), i as int),
        decreases REQUIRED_ENV_COUNT - i,
    {
        let name = required_env_name_at(i);
        let invalid = match &values[i] {
            None => true,
            Some(v) => is_supposed_to_be_number(name) && parse_u16(v.as_str()).is_none(),
        };
        proof {
            assert(values.deep_view()[i as int] == values@[i as int].deep_view());
            assert(invalid == env_entry_invalid(
                required_env_name(i as int),
                values.deep_view()[i as int],
            ));
        }
        let ghost r_before = r.deep_view();
        if invalid {
            r.push(name.to_owned());
            proof {
                assert(r.deep_view() =~= r_before.push(required_env_name(i as int)));
            }
        }
        i = i + 1;
    }
    r
}

} // verus!

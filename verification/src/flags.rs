//! Command-line flag scanning and numeric-token parsing.
//!
//! A flag list is scanned linearly for a key followed by its value token; a
//! missing key, a trailing key with no following token, or a token that does
//! not parse all fall back silently to the caller's default — bad input never
//! fails a run.

use vstd::prelude::*;
use vstd::string::StrSliceExecFns;

verus! {

/// A decimal digit, as a character.
pub open spec fn is_digit(c: char) -> bool {
    48 <= c as u32 && c as u32 <= 57
}

/// The numeric value of a digit character.
pub open spec fn digit_value(c: char) -> int {
    c as u32 - 48
}

/// Whether every character of a sequence is a decimal digit.
pub open spec fn all_digits(s: Seq<char>) -> bool {
    forall|i: int| 0 <= i < s.len() ==> is_digit(#[trigger] s[i])
}

/// The number a digit sequence denotes in decimal, most significant digit
/// first.
pub open spec fn dec_value(s: Seq<char>) -> int
    decreases s.len(),
{
    if s.len() == 0 {
        0
    } else {
        dec_value(s.drop_last()) * 10 + digit_value(s.last())
    }
}

/// The digits of a numeric token: a single leading `+` sign is dropped.
pub open spec fn digits_part(s: Seq<char>) -> Seq<char> {
    if s.len() > 0 && s[0] == '+' {
        s.skip(1)
    } else {
        s
    }
}

/// What parsing a token as an unsigned 64-bit decimal yields: the denoted
/// number when the token is an optional `+` sign followed by one or more
/// digits and the number fits in 64 bits, nothing otherwise.
pub open spec fn parsed_u64(s: Seq<char>) -> Option<u64> {
    let d = digits_part(s);
    if d.len() > 0 && all_digits(d) && dec_value(d) <= u64::MAX {
        Some(dec_value(d) as u64)
    } else {
        None
    }
}

/// What parsing a token as an unsigned machine-word decimal yields.
pub open spec fn parsed_usize(s: Seq<char>) -> Option<usize> {
    let d = digits_part(s);
    if d.len() > 0 && all_digits(d) && dec_value(d) <= usize::MAX {
        Some(dec_value(d) as usize)
    } else {
        None
    }
}

/// The value token of `key` in an argument list: the token right after the
/// first occurrence of `key` that still has a token after it.
pub open spec fn flag_lookup(args: Seq<Seq<char>>, key: Seq<char>) -> Option<Seq<char>>
    decreases args.len(),
{
    if args.len() < 2 {
        None
    } else if args[0] == key {
        Some(args[1])
    } else {
        flag_lookup(args.skip(1), key)
    }
}

/// The character sequences of a list of argument strings.
pub open spec fn arg_views(args: Seq<String>) -> Seq<Seq<char>> {
    args.map_values(|a: String| a@)
}

/// What a 64-bit flag reads as: the parsed value token of `key`, or `default`
/// when the key is absent, trailing, or its token does not parse.
pub open spec fn flag_u64(args: Seq<Seq<char>>, key: Seq<char>, default: u64) -> u64 {
    match flag_lookup(args, key) {
        Some(tok) => match parsed_u64(tok) {
            Some(v) => v,
            None => default,
        },
        None => default,
    }
}

/// What a positive-count flag reads as: as `flag_u64`, except that a token
/// parsing to zero also falls back to `default` — the count must be positive.
pub open spec fn flag_usize(args: Seq<Seq<char>>, key: Seq<char>, default: usize) -> usize {
    match flag_lookup(args, key) {
        Some(tok) => match parsed_usize(tok) {
            Some(v) => if v == 0 {
                default
            } else {
                v
            },
            None => default,
        },
        None => default,
    }
}

/// Default-substitution law: a count flag whose key is absent or trailing,
/// whose token does not parse, or whose token parses to zero reads exactly as
/// the default — bad input never changes behaviour beyond that.
pub proof fn lemma_count_default_substitution(args: Seq<Seq<char>>, key: Seq<char>, default: usize)
    requires
        flag_lookup(args, key) is None || parsed_usize(flag_lookup(args, key).unwrap()) is None
            || parsed_usize(flag_lookup(args, key).unwrap()) == Some(0usize),
    ensures
        flag_usize(args, key, default) == default,
{
}

/// Dropping the last character of an all-digit sequence keeps it all digits.
proof fn lemma_all_digits_drop_last(s: Seq<char>)
    requires
        s.len() > 0,
        all_digits(s),
    ensures
        all_digits(s.drop_last()),
{
    assert forall|i: int| 0 <= i < s.drop_last().len() implies is_digit(
        #[trigger] s.drop_last()[i],
    ) by {
        assert(s.drop_last()[i] == s[i]);
    }
}

/// A digit prefix followed by one more digit is a digit prefix.
proof fn lemma_all_digits_extend(s: Seq<char>, j: int)
    requires
        0 <= j < s.len(),
        all_digits(s.take(j)),
        is_digit(s[j]),
    ensures
        all_digits(s.take(j + 1)),
{
    assert forall|i: int| 0 <= i < s.take(j + 1).len() implies is_digit(
        #[trigger] s.take(j + 1)[i],
    ) by {
        assert(s.take(j + 1)[i] == s[i]);
        if i < j {
            assert(s.take(j)[i] == s[i]);
            assert(is_digit(s.take(j)[i]));
        }
    }
}

/// A prefix of an all-digit sequence is all digits.
proof fn lemma_all_digits_take(s: Seq<char>, j: int)
    requires
        all_digits(s),
        0 <= j <= s.len(),
    ensures
        all_digits(s.take(j)),
{
    assert forall|i: int| 0 <= i < s.take(j).len() implies is_digit(#[trigger] s.take(j)[i]) by {
        assert(s.take(j)[i] == s[i]);
    }
}

/// A decimal value is never negative.
proof fn lemma_dec_value_nonneg(s: Seq<char>)
    requires
        all_digits(s),
    ensures
        dec_value(s) >= 0,
    decreases s.len(),
{
    if s.len() > 0 {
        lemma_all_digits_drop_last(s);
        lemma_dec_value_nonneg(s.drop_last());
        assert(is_digit(s[s.len() - 1]));
    }
}

/// Appending one digit multiplies the denoted number by ten and adds the
/// digit.
proof fn lemma_dec_value_take_step(s: Seq<char>, j: int)
    requires
        0 <= j < s.len(),
    ensures
        dec_value(s.take(j + 1)) == dec_value(s.take(j)) * 10 + digit_value(s[j]),
{
    assert(s.take(j + 1).drop_last() =~= s.take(j));
    assert(s.take(j + 1).last() == s[j]);
}

/// The number denoted by a prefix never exceeds the number denoted by the
/// whole digit sequence.
proof fn lemma_dec_value_take_mono(s: Seq<char>, j: int)
    requires
        all_digits(s),
        0 <= j <= s.len(),
    ensures
        dec_value(s.take(j)) <= dec_value(s),
    decreases s.len() - j,
{
    if j == s.len() {
        assert(s.take(j) =~= s);
    } else {
        lemma_dec_value_take_step(s, j);
        lemma_all_digits_take(s, j);
        lemma_dec_value_nonneg(s.take(j));
        assert(is_digit(s[j]));
        lemma_dec_value_take_mono(s, j + 1);
    }
}

/// If the accumulator would pass the 64-bit bound on the next digit, the
/// denoted number does not fit in 64 bits.
proof fn lemma_next_digit_overflows(acc: u64, dv: u64)
    requires
        dv <= 9,
        acc > (u64::MAX - dv) / 10,
    ensures
        acc * 10 + dv > u64::MAX,
{
    let x = (u64::MAX - dv) as int;
    vstd::arithmetic::div_mod::lemma_fundamental_div_mod(x, 10);
    vstd::arithmetic::div_mod::lemma_mod_bound(x, 10);
}

/// Parses an unsigned 64-bit decimal token: an optional leading `+` sign,
/// then one or more decimal digits.
pub fn parse_u64(s: &str) -> (r: Option<u64>)
    ensures
        r == parsed_u64(s@),
{
    let n: usize = s.unicode_len();
    let offset: usize = if n > 0 && s.get_char(0) == '+' {
        1
    } else {
        0
    };
    let ghost d = digits_part(s@);
    proof {
        assert(d =~= s@.skip(offset as int));
    }
    if offset >= n {
        return None;
    }
    let mut acc: u64 = 0;
    let mut i: usize = offset;
    while i < n
        invariant
            offset <= i <= n,
            n == s@.len(),
            d == s@.skip(offset as int),
            d == digits_part(s@),
            all_digits(d.take(i - offset)),
            acc == dec_value(d.take(i - offset)),
        decreases n - i,
    {
        let c = s.get_char(i);
        let cv: u32 = c as u32;
        proof {
            assert(d[i - offset] == s@[i as int]);
        }
        if cv < 48 || cv > 57 {
            assert(!is_digit(d[i - offset]));
            return None;
        }
        let dv: u64 = (cv - 48) as u64;
        proof {
            assert(is_digit(d[i - offset]));
            lemma_dec_value_take_step(d, i - offset);
            lemma_all_digits_extend(d, i - offset);
        }
        if acc > (u64::MAX - dv) / 10 {
            proof {
                lemma_next_digit_overflows(acc, dv);
                if all_digits(d) {
                    lemma_dec_value_take_mono(d, i - offset + 1);
                }
            }
            return None;
        }
        acc = acc * 10 + dv;
        i = i + 1;
    }
    proof {
        assert(d.take(i - offset) =~= d);
    }
    Some(acc)
}

/// Parses an unsigned machine-word decimal token, in the same format as
/// `parse_u64`.
pub fn parse_usize(s: &str) -> (r: Option<usize>)
    ensures
        r == parsed_usize(s@),
{
    proof {
        assert(usize::MAX <= u64::MAX);
        let d = digits_part(s@);
        if d.len() > 0 && all_digits(d) {
            lemma_dec_value_nonneg(d);
        }
    }
    match parse_u64(s) {
        Some(v) => {
            if v <= usize::MAX as u64 {
                Some(v as usize)
            } else {
                None
            }
        },
        None => None,
    }
}

/// Returns the value token of `key`: the token right after the first
/// occurrence of `key` that still has a token after it.
pub fn flag_value(args: &[String], key: &str) -> (r: Option<String>)
    ensures
        r.deep_view() == flag_lookup(arg_views(args@), key@),
{
    let key_owned: String = key.to_owned();
    let ghost v = arg_views(args@);
    let n: usize = args.len();
    let bound: usize = if n == 0 {
        0
    } else {
        n - 1
    };
    let mut i: usize = 0;
    proof {
        assert(v.skip(0) =~= v);
    }
    while i < bound
        invariant
            i <= bound,
            n == args@.len(),
            bound == (if n == 0 { 0int } else { n - 1 }),
            v == arg_views(args@),
            key_owned@ == key@,
            flag_lookup(v, key@) == flag_lookup(v.skip(i as int), key@),
        decreases bound - i,
    {
        proof {
            assert(v[i as int] == args@[i as int]@);
            assert(v[i as int + 1] == args@[i as int + 1]@);
            assert(v.skip(i as int)[0] == v[i as int]);
            assert(v.skip(i as int)[1] == v[i as int + 1]);
        }
        if args[i] == key_owned {
            return Some(args[i + 1].clone());
        }
        proof {
            assert(v.skip(i as int).skip(1) =~= v.skip(i as int + 1));
        }
        i = i + 1;
    }
    proof {
        assert(v.skip(i as int).len() < 2);
    }
    None
}

/// Reads a 64-bit flag from the argument list, falling back to `default`
/// when the key is absent, trailing, or its value token does not parse.
pub fn parse_flag_u64(args: &[String], key: &str, default: u64) -> (r: u64)
    ensures
        r == flag_u64(arg_views(args@), key@, default),
{
    match flag_value(args, key) {
        Some(tok) => match parse_u64(tok.as_str()) {
            Some(v) => v,
            None => default,
        },
        None => default,
    }
}

/// Reads a positive-count flag from the argument list: as `parse_flag_u64`,
/// except that a value token parsing to zero also falls back to `default`.
pub fn parse_flag_usize(args: &[String], key: &str, default: usize) -> (r: usize)
    ensures
        r == flag_usize(arg_views(args@), key@, default),
{
    match flag_value(args, key) {
        Some(tok) => match parse_usize(tok.as_str()) {
            Some(v) => {
                if v == 0 {
                    default
                } else {
                    v
                }
            },
            None => default,
        },
        None => default,
    }
}

} // verus!

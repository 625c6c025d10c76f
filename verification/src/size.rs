//! The human-readable size codec: parsing strings such as `"5M"` or
//! `"1.5K"` into byte counts, and rendering byte counts back into text.
//!
//! Units are binary (1024-based). The numeric part of a size is decimal
//! digits with an optional fraction; fractional digits beyond the 27th
//! cannot move the result by a whole byte and are ignored. Rendering uses
//! two decimal places, rounding half to even.

use vstd::prelude::*;
use vstd::string::StrSliceExecFns;
use vstd::string::StringExecFns;

use crate::errors::CliError;
use crate::errors::ErrorKind;
use crate::strutil::find_first;
use crate::strutil::lemma_find_first;
use crate::strutil::lemma_find_first_is;

verus! {

// ---------------------------------------------------------------------
// Trimming ASCII whitespace
// ---------------------------------------------------------------------

pub open spec fn is_ascii_space(c: char) -> bool {
    c == ' ' || c == '\t' || c == '\n' || c == '\r' || c == '\u{b}' || c == '\u{c}'
}

pub open spec fn trim_start_spaces(s: Seq<char>) -> Seq<char>
    decreases s.len(),
{
    if s.len() > 0 && is_ascii_space(s[0]) {
        trim_start_spaces(s.drop_first())
    } else {
        s
    }
}

pub open spec fn trim_end_spaces(s: Seq<char>) -> Seq<char>
    decreases s.len(),
{
    if s.len() > 0 && is_ascii_space(s[s.len() - 1]) {
        trim_end_spaces(s.drop_last())
    } else {
        s
    }
}

/// `s` with ASCII whitespace removed from both ends.
pub open spec fn trim_spaces(s: Seq<char>) -> Seq<char> {
    trim_end_spaces(trim_start_spaces(s))
}

proof fn lemma_trim_start_spaces_is(s: Seq<char>, a: int)
    requires
        0 <= a <= s.len(),
        forall|i: int| 0 <= i < a ==> is_ascii_space(s[i]),
        a < s.len() ==> !is_ascii_space(s[a]),
    ensures
        trim_start_spaces(s) == s.skip(a),
    decreases s.len(),
{
    if s.len() > 0 && is_ascii_space(s[0]) {
        assert(a > 0);
        lemma_trim_start_spaces_is(s.drop_first(), a - 1);
        assert(s.drop_first().skip(a - 1) =~= s.skip(a));
    } else {
        assert(a == 0);
        assert(s.skip(0) =~= s);
    }
}

proof fn lemma_trim_end_spaces_is(s: Seq<char>, b: int)
    requires
        0 <= b <= s.len(),
        forall|i: int| b <= i < s.len() ==> is_ascii_space(s[i]),
        b > 0 ==> !is_ascii_space(s[b - 1]),
    ensures
        trim_end_spaces(s) == s.take(b),
    decreases s.len(),
{
    if s.len() > 0 && is_ascii_space(s[s.len() - 1]) {
        assert(b < s.len());
        lemma_trim_end_spaces_is(s.drop_last(), b);
        assert(s.drop_last().take(b) =~= s.take(b));
    } else {
        assert(b == s.len());
        assert(s.take(b) =~= s);
    }
}

// ---------------------------------------------------------------------
// The unit suffix
// ---------------------------------------------------------------------

pub open spec fn is_unit_b(c: char) -> bool {
    c == 'B' || c == 'b'
}

pub open spec fn is_unit_k(c: char) -> bool {
    c == 'K' || c == 'k'
}

pub open spec fn is_unit_m(c: char) -> bool {
    c == 'M' || c == 'm'
}

pub open spec fn is_unit_g(c: char) -> bool {
    c == 'G' || c == 'g'
}

pub open spec fn is_unit_letter(c: char) -> bool {
    is_unit_b(c) || is_unit_k(c) || is_unit_m(c) || is_unit_g(c)
}

/// Bytes per one of the given unit letter.
pub open spec fn unit_value(c: char) -> int {
    if is_unit_k(c) {
        1024
    } else if is_unit_m(c) {
        1048576
    } else if is_unit_g(c) {
        1073741824
    } else {
        1
    }
}

/// The numeric part of a trimmed size string: everything before the unit
/// suffix. The suffix is a unit letter optionally followed by a literal
/// `B`, or a lone `B`; a string without one is all numeric.
pub open spec fn size_num_part(t: Seq<char>) -> Seq<char> {
    if t.len() >= 2 && is_unit_b(t[t.len() - 1]) && is_unit_letter(t[t.len() - 2]) {
        t.take(t.len() - 2)
    } else if t.len() >= 1 && is_unit_b(t[t.len() - 1]) {
        t.take(t.len() - 1)
    } else if t.len() >= 1 && is_unit_letter(t[t.len() - 1]) {
        t.take(t.len() - 1)
    } else {
        t
    }
}

/// The multiplier named by the unit suffix of a trimmed size string.
pub open spec fn size_multiplier(t: Seq<char>) -> int {
    if t.len() >= 2 && is_unit_b(t[t.len() - 1]) && is_unit_letter(t[t.len() - 2]) {
        unit_value(t[t.len() - 2])
    } else if t.len() >= 1 && is_unit_b(t[t.len() - 1]) {
        1
    } else if t.len() >= 1 && is_unit_letter(t[t.len() - 1]) {
        unit_value(t[t.len() - 1])
    } else {
        1
    }
}

// ---------------------------------------------------------------------
// Decimal numbers
// ---------------------------------------------------------------------

pub open spec fn is_digit(c: char) -> bool {
    48 <= c as int && c as int <= 57
}

pub open spec fn digit_val(c: char) -> int {
    c as int - 48
}

pub open spec fn all_digits(s: Seq<char>) -> bool {
    forall|i: int| 0 <= i < s.len() ==> is_digit(s[i])
}

/// The value of a digit string, most significant digit first.
pub open spec fn seq_digits_val(s: Seq<char>) -> int
    decreases s.len(),
{
    if s.len() == 0 {
        0
    } else {
        seq_digits_val(s.drop_last()) * 10 + digit_val(s[s.len() - 1])
    }
}

pub open spec fn pow10(n: nat) -> int
    decreases n,
{
    if n == 0 {
        1
    } else {
        10 * pow10((n - 1) as nat)
    }
}

proof fn lemma_pow10_pos(n: nat)
    ensures
        pow10(n) >= 1,
    decreases n,
{
    if n > 0 {
        lemma_pow10_pos((n - 1) as nat);
    }
}

proof fn lemma_digits_val_bounds(s: Seq<char>)
    requires
        all_digits(s),
    ensures
        0 <= seq_digits_val(s) < pow10(s.len()),
    decreases s.len(),
{
    if s.len() > 0 {
        assert(all_digits(s.drop_last())) by {
            assert(forall|i: int|
                0 <= i < s.len() - 1 ==> s.drop_last()[i] == s[i]);
        }
        lemma_digits_val_bounds(s.drop_last());
    }
}

/// Appending digits never decreases the value.
proof fn lemma_digits_val_prefix_le(s: Seq<char>, k: int)
    requires
        all_digits(s),
        0 <= k <= s.len(),
    ensures
        0 <= seq_digits_val(s.take(k)) <= seq_digits_val(s),
    decreases s.len() - k,
{
    assert(all_digits(s.take(k)));
    lemma_digits_val_bounds(s.take(k));
    if k < s.len() {
        lemma_digits_val_prefix_le(s, k + 1);
        assert(s.take(k + 1).drop_last() =~= s.take(k));
        assert(s.take(k + 1)[k] == s[k]);
        assert(seq_digits_val(s.take(k)) <= seq_digits_val(s.take(k)) * 10 + digit_val(s[k]));
    } else {
        assert(s.take(k) =~= s);
    }
}

/// A valid numeric part: non-empty, not a lone dot, and digits everywhere
/// except a single optional dot.
pub open spec fn num_valid(s: Seq<char>) -> bool {
    let d = find_first(s, '.');
    &&& s.len() > 0
    &&& !(s.len() == 1 && d == 0)
    &&& all_digits(s.take(d))
    &&& (d < s.len() ==> all_digits(s.skip(d + 1)))
}

/// The integer digits of a numeric part.
pub open spec fn int_digits(s: Seq<char>) -> Seq<char> {
    s.take(find_first(s, '.'))
}

/// The fractional digits kept: at most 27, which bounds the ignored tail
/// below what could move the byte count.
pub open spec fn frac_digits(s: Seq<char>) -> Seq<char> {
    let d = find_first(s, '.');
    if d < s.len() {
        let f = s.skip(d + 1);
        if f.len() <= 27 {
            f
        } else {
            f.take(27)
        }
    } else {
        Seq::empty()
    }
}

/// The byte count of a numeric part under a multiplier, the fraction
/// floored: `ip * mult + floor(fp * mult / 10^d)`.
pub open spec fn num_scaled_bytes(s: Seq<char>, mult: int) -> int {
    seq_digits_val(int_digits(s)) * mult + (seq_digits_val(frac_digits(s)) * mult) / pow10(
        frac_digits(s).len(),
    )
}

/// What a size string parses to: the byte count, or `None` when the
/// string is empty after trimming, the numeric part is malformed, or the
/// value does not fit the platform's size range.
pub open spec fn parse_size_spec(s: Seq<char>) -> Option<int> {
    let t = trim_spaces(s);
    if t.len() == 0 {
        Option::None
    } else {
        let num = size_num_part(t);
        if !num_valid(num) {
            Option::None
        } else {
            let b = num_scaled_bytes(num, size_multiplier(t));
            if b > usize::MAX as int {
                Option::None
            } else {
                Option::Some(b)
            }
        }
    }
}

// ---------------------------------------------------------------------
// Parsing, executable
// ---------------------------------------------------------------------

fn is_space_char(c: char) -> (r: bool)
    ensures
        r == is_ascii_space(c),
{
    c == ' ' || c == '\t' || c == '\n' || c == '\r' || c == '\u{b}' || c == '\u{c}'
}

fn is_digit_char(c: char) -> (r: bool)
    ensures
        r == is_digit(c),
{
    let u = c as u32;
    48 <= u && u <= 57
}

fn digit_of(c: char) -> (r: u8)
    requires
        is_digit(c),
    ensures
        r as int == digit_val(c),
{
    (c as u32 - 48) as u8
}

fn is_b_char(c: char) -> (r: bool)
    ensures
        r == is_unit_b(c),
{
    c == 'B' || c == 'b'
}

fn is_unit_char(c: char) -> (r: bool)
    ensures
        r == is_unit_letter(c),
{
    c == 'B' || c == 'b' || c == 'K' || c == 'k' || c == 'M' || c == 'm' || c == 'G' || c == 'g'
}

fn unit_value_of(c: char) -> (r: u64)
    ensures
        r as int == unit_value(c),
{
    if c == 'K' || c == 'k' {
        1024
    } else if c == 'M' || c == 'm' {
        1048576
    } else if c == 'G' || c == 'g' {
        1073741824
    } else {
        1
    }
}

fn pow10_u128(n: usize) -> (r: u128)
    requires
        n <= 27,
    ensures
        r as int == pow10(n as nat),
{
    proof {
        reveal_with_fuel(pow10, 29);
    }
    let mut r: u128 = 1;
    let mut i: usize = 0;
    while i < n
        invariant
            i <= n <= 27,
            r as int == pow10(i as nat),
            r <= 1000000000000000000000000000,
        decreases n - i,
    {
        r = r * 10;
        i += 1;
        proof {
            assert(pow10(i as nat) == 10 * pow10((i - 1) as nat));
            assert forall|m: nat| m <= 27 implies pow10(m) <= 1000000000000000000000000000 by {
                lemma_pow10_le_27(m);
            }
        }
    }
    r
}

proof fn lemma_pow10_le_27(m: nat)
    requires
        m <= 27,
    ensures
        pow10(m) <= 1000000000000000000000000000,
    decreases 27 - m,
{
    reveal_with_fuel(pow10, 29);
    if m < 27 {
        lemma_pow10_le_27(m + 1);
        lemma_pow10_pos(m);
        assert(pow10(m + 1) == 10 * pow10(m));
    } else {
        assert(pow10(27nat) == 1000000000000000000000000000) by {
            reveal_with_fuel(pow10, 29);
        }
    }
}

/// Parses a human-readable size such as `"5M"`, `"1.5K"`, `"512"` or
/// The bounds of the trimmed middle of `s`.
fn find_trim_bounds(s: &str) -> (r: (usize, usize))
    ensures
        r.0 <= r.1 <= s@.len(),
        trim_spaces(s@) == s@.subrange(r.0 as int, r.1 as int),
{
    let n = s.unicode_len();
    let mut a: usize = 0;
    while a < n && is_space_char(s.get_char(a))
        invariant
            a <= n,
            n == s@.len(),
            forall|j: int| 0 <= j < a ==> is_ascii_space(s@[j]),
        decreases n - a,
    {
        a += 1;
    }
    let mut b: usize = n;
    while b > a && is_space_char(s.get_char(b - 1))
        invariant
            a <= b <= n,
            n == s@.len(),
            forall|j: int| b <= j < n ==> is_ascii_space(s@[j]),
        decreases b,
    {
        b -= 1;
    }
    proof {
        lemma_trim_start_spaces_is(s@, a as int);
        let rest = s@.skip(a as int);
        lemma_trim_end_spaces_is(rest, b - a);
        assert(rest.take(b - a) =~= s@.subrange(a as int, b as int));
    }
    (a, b)
}

/// Splits the unit suffix off the trimmed range `[a, b)`: returns the end
/// of the numeric part and the multiplier the suffix names.
fn split_suffix(s: &str, a: usize, b: usize) -> (r: (usize, u64))
    requires
        a < b <= s@.len(),
    ensures
        a <= r.0 <= b,
        size_num_part(s@.subrange(a as int, b as int)) == s@.subrange(a as int, r.0 as int),
        r.1 as int == size_multiplier(s@.subrange(a as int, b as int)),
        r.1 >= 1,
{
    let ghost t = s@.subrange(a as int, b as int);
    proof {
        assert(t[t.len() - 1] == s@[b - 1]);
        if b - a >= 2 {
            assert(t[t.len() - 2] == s@[b - 2]);
        }
    }
    let last = s.get_char(b - 1);
    if is_b_char(last) {
        if b - a >= 2 && is_unit_char(s.get_char(b - 2)) {
            proof {
                assert(t.take(t.len() - 2) =~= s@.subrange(a as int, b - 2));
            }
            (b - 2, unit_value_of(s.get_char(b - 2)))
        } else {
            proof {
                assert(t.take(t.len() - 1) =~= s@.subrange(a as int, b - 1));
            }
            (b - 1, 1)
        }
    } else if is_unit_char(last) {
        proof {
            assert(t.take(t.len() - 1) =~= s@.subrange(a as int, b - 1));
        }
        (b - 1, unit_value_of(last))
    } else {
        (b, 1)
    }
}

/// Scans the numeric part in `[a, ne)`. On success returns the position
/// of the dot (`ne` when there is none); on failure the part is invalid.
fn scan_number(s: &str, a: usize, ne: usize) -> (r: Option<usize>)
    requires
        a <= ne <= s@.len(),
    ensures
        ({
            let num = s@.subrange(a as int, ne as int);
            match r {
                Option::Some(dot) => {
                    &&& num_valid(num)
                    &&& a <= dot <= ne
                    &&& find_first(num, '.') == dot - a
                    &&& forall|j: int| a <= j < ne && j != dot ==> is_digit(s@[j])
                },
                Option::None => !num_valid(num),
            }
        }),
{
    let ghost num = s@.subrange(a as int, ne as int);
    let mut dot: usize = ne;
    let mut i: usize = a;
    while i < ne
        invariant
            a <= i <= ne <= s@.len(),
            a <= dot <= ne,
            num == s@.subrange(a as int, ne as int),
            dot < ne ==> dot < i && s@[dot as int] == '.',
            forall|j: int| a <= j < i && j != dot ==> is_digit(s@[j]) && s@[j] != '.',
        decreases ne - i,
    {
        let c = s.get_char(i);
        if c == '.' {
            if dot < ne {
                proof {
                    assert forall|j: int| 0 <= j < dot - a implies num[j] != '.' by {
                        assert(num[j] == s@[a + j]);
                    }
                    lemma_find_first_is(num, '.', dot - a);
                    assert(num.skip(dot - a + 1)[i - dot - 1] == s@[i as int]);
                    assert(!is_digit(s@[i as int]));
                    assert(!num_valid(num));
                }
                return Option::None;
            }
            dot = i;
        } else if !is_digit_char(c) {
            proof {
                let d = find_first(num, '.');
                lemma_find_first(num, '.');
                if dot < ne {
                    assert forall|j: int| 0 <= j < dot - a implies num[j] != '.' by {
                        assert(num[j] == s@[a + j]);
                    }
                    lemma_find_first_is(num, '.', dot - a);
                    assert(num.skip(dot - a + 1)[i - dot - 1] == s@[i as int]);
                } else {
                    // no dot up to i, and the bad character is not one,
                    // so the first dot (if any) lies beyond i
                    assert(num[i - a] == s@[i as int]);
                    if d <= i - a {
                        if d < num.len() {
                            assert(num[d] == '.');
                            assert(num[d] == s@[a + d]);
                            assert(false);
                        } else {
                            assert(false);
                        }
                    }
                    assert(num.take(d)[i - a] == s@[i as int]);
                }
                assert(!num_valid(num));
            }
            return Option::None;
        }
        i += 1;
    }
    if a == ne {
        return Option::None;
    }
    proof {
        assert forall|j: int| 0 <= j < dot - a implies num[j] != '.' by {
            assert(num[j] == s@[a + j]);
        }
        lemma_find_first_is(num, '.', dot - a);
    }
    if ne - a == 1 && dot == a {
        // a lone dot
        return Option::None;
    }
    proof {
        let d = find_first(num, '.');
        assert(num_valid(num)) by {
            assert(all_digits(num.take(d))) by {
                assert(forall|j: int| 0 <= j < d ==> #[trigger] num.take(d)[j] == s@[a + j]);
            }
            if d < num.len() {
                assert(all_digits(num.skip(d + 1))) by {
                    assert(forall|j: int|
                        0 <= j < num.len() - d - 1 ==> #[trigger] num.skip(d + 1)[j] == s@[a + d
                            + 1 + j]);
                }
            }
        }
    }
    Option::Some(dot)
}

/// Accumulates the decimal value of the digits in `[from, to)`, giving up
/// as soon as the value exceeds `limit`.
fn accum_digits(s: &str, from: usize, to: usize, limit: u128) -> (r: Option<u128>)
    requires
        from <= to <= s@.len(),
        limit <= 0xffffffffffffffffffffffffff,
        forall|j: int| from <= j < to ==> is_digit(s@[j]),
    ensures
        ({
            let ds = s@.subrange(from as int, to as int);
            match r {
                Option::Some(v) => v as int == seq_digits_val(ds) && v <= limit,
                Option::None => seq_digits_val(ds) > limit,
            }
        }),
{
    let ghost ds = s@.subrange(from as int, to as int);
    proof {
        assert(all_digits(ds));
    }
    let mut v: u128 = 0;
    let mut i: usize = from;
    while i < to
        invariant
            from <= i <= to <= s@.len(),
            ds == s@.subrange(from as int, to as int),
            all_digits(ds),
            limit <= 0xffffffffffffffffffffffffff,
            forall|j: int| from <= j < to ==> is_digit(s@[j]),
            v as int == seq_digits_val(s@.subrange(from as int, i as int)),
            v <= limit,
        decreases to - i,
    {
        let d = digit_of(s.get_char(i));
        let next: u128 = v * 10 + d as u128;
        proof {
            assert(s@.subrange(from as int, i + 1).drop_last() =~= s@.subrange(
                from as int,
                i as int,
            ));
            assert(s@.subrange(from as int, i + 1)[i - from] == s@[i as int]);
        }
        if next > limit {
            proof {
                assert(s@.subrange(from as int, i + 1) =~= ds.take(i + 1 - from));
                lemma_digits_val_prefix_le(ds, i + 1 - from);
            }
            return Option::None;
        }
        v = next;
        i += 1;
    }
    proof {
        assert(s@.subrange(from as int, i as int) =~= ds);
    }
    Option::Some(v)
}

/// Parses a human-readable size such as `"5M"`, `"1.5K"`, `"512"` or
/// `"2GB"` into a byte count, exactly as `parse_size_spec` states.
pub fn parse_human_size(s: &str) -> (r: Result<usize, CliError>)
    ensures
        match r {
            Result::Ok(n) => parse_size_spec(s@) == Option::Some(n as int),
            Result::Err(e) => parse_size_spec(s@) is None && e.kind == ErrorKind::InvalidSize,
        },
{
    let (a, b) = find_trim_bounds(s);
    let ghost t = trim_spaces(s@);
    if a == b {
        return Result::Err(CliError::new(
            ErrorKind::InvalidSize,
            String::from_str("Size cannot be empty"),
        ));
    }
    let (ne, mult) = split_suffix(s, a, b);
    let ghost num = size_num_part(t);
    let dot = match scan_number(s, a, ne) {
        Option::None => {
            return Result::Err(CliError::new(
                ErrorKind::InvalidSize,
                String::from_str("Invalid number"),
            ));
        },
        Option::Some(dot) => dot,
    };
    let ghost ipd = int_digits(num);
    proof {
        assert(ipd =~= s@.subrange(a as int, dot as int));
    }
    let ip = match accum_digits(s, a, dot, usize::MAX as u128) {
        Option::None => {
            // the integer part alone exceeds the size range
            proof {
                lemma_frac_digits_shape(num);
                lemma_mult_le_bytes(num, size_multiplier(t));
            }
            return Result::Err(CliError::new(
                ErrorKind::InvalidSize,
                String::from_str("Size out of range"),
            ));
        },
        Option::Some(v) => v,
    };
    let fstart = if dot < ne {
        dot + 1
    } else {
        ne
    };
    let mut fcount: usize = ne - fstart;
    if fcount > 27 {
        fcount = 27;
    }
    let ghost fd = frac_digits(num);
    proof {
        if dot < ne {
            assert(num.skip(dot - a + 1) =~= s@.subrange(fstart as int, ne as int));
            assert(fd =~= s@.subrange(fstart as int, fstart + fcount));
        } else {
            assert(fd =~= s@.subrange(fstart as int, fstart + fcount));
        }
        assert forall|j: int| fstart <= j < fstart + fcount implies is_digit(s@[j]) by {
            assert(fd[j - fstart] == s@[j]);
        }
    }
    let fp = match accum_digits(s, fstart, fstart + fcount, 0xffffffffffffffffffffffffff) {
        Option::None => {
            proof {
                lemma_digits_val_bounds(fd);
                lemma_pow10_le_27(fd.len());
                assert(false);
            }
            return Result::Err(CliError::new(
                ErrorKind::InvalidSize,
                String::from_str("Size out of range"),
            ));
        },
        Option::Some(v) => v,
    };
    proof {
        lemma_digits_val_bounds(fd);
        lemma_pow10_le_27(fd.len());
    }
    let p = pow10_u128(fcount);
    proof {
        lemma_pow10_pos(fcount as nat);
        lemma_u128_products(ip, fp, mult);
    }
    let total: u128 = ip * (mult as u128) + (fp * (mult as u128)) / p;
    proof {
        vstd::arithmetic::div_mod::lemma_div_pos_is_pos(fp as int * mult as int, p as int);
        assert(total as int == num_scaled_bytes(num, size_multiplier(t)));
    }
    if total > usize::MAX as u128 {
        return Result::Err(CliError::new(
            ErrorKind::InvalidSize,
            String::from_str("Size out of range"),
        ));
    }
    Result::Ok(total as usize)
}

/// The fractional digits are digits whenever the numeric part is valid.
proof fn lemma_frac_digits_shape(num: Seq<char>)
    requires
        num_valid(num),
    ensures
        all_digits(int_digits(num)),
        all_digits(frac_digits(num)),
{
    let d = find_first(num, '.');
    lemma_find_first(num, '.');
    if d < num.len() {
        let f = num.skip(d + 1);
        if f.len() > 27 {
            assert(all_digits(f.take(27))) by {
                assert(forall|j: int| 0 <= j < 27 ==> #[trigger] f.take(27)[j] == f[j]);
            }
        }
    }
}

/// Bounds for the final combination, so the products fit in 128 bits.
proof fn lemma_u128_products(ip: u128, fp: u128, mult: u64)
    requires
        ip <= usize::MAX as u128,
        fp < 1000000000000000000000000000,
        mult <= 1073741824,
    ensures
        (ip as int) * (mult as int) <= (usize::MAX as int) * 1073741824,
        (fp as int) * (mult as int) < 1073741824000000000000000000000000000,
        (ip as int) * (mult as int) >= 0,
        (fp as int) * (mult as int) >= 0,
    decreases 0int,
{
    assert((ip as int) * (mult as int) <= (usize::MAX as int) * 1073741824) by (nonlinear_arith)
        requires
            ip <= usize::MAX as u128,
            mult <= 1073741824,
    ;
    assert((fp as int) * (mult as int) < 1073741824000000000000000000000000000) by (
    nonlinear_arith)
        requires
            fp < 1000000000000000000000000000,
            mult <= 1073741824,
    ;
    assert((ip as int) * (mult as int) >= 0) by (nonlinear_arith);
    assert((fp as int) * (mult as int) >= 0) by (nonlinear_arith);
}

/// When the integer digits alone exceed the size range, so does the
/// whole scaled value.
proof fn lemma_mult_le_bytes(num: Seq<char>, mult: int)
    requires
        mult >= 1,
        all_digits(int_digits(num)),
        all_digits(frac_digits(num)),
    ensures
        num_scaled_bytes(num, mult) >= seq_digits_val(int_digits(num)),
{
    let ip = seq_digits_val(int_digits(num));
    let fp = seq_digits_val(frac_digits(num));
    let d = frac_digits(num).len();
    lemma_digits_val_bounds(int_digits(num));
    lemma_digits_val_bounds(frac_digits(num));
    lemma_pow10_pos(d);
    assert(ip * mult >= ip) by (nonlinear_arith)
        requires
            ip >= 0,
            mult >= 1,
    ;
    assert(fp * mult >= 0) by (nonlinear_arith)
        requires
            fp >= 0,
            mult >= 0,
    ;
    vstd::arithmetic::div_mod::lemma_div_pos_is_pos(fp * mult, pow10(d));
}

// ---------------------------------------------------------------------
// Formatting
// ---------------------------------------------------------------------

pub open spec fn digit_char(d: int) -> char {
    if d == 0 {
        '0'
    } else if d == 1 {
        '1'
    } else if d == 2 {
        '2'
    } else if d == 3 {
        '3'
    } else if d == 4 {
        '4'
    } else if d == 5 {
        '5'
    } else if d == 6 {
        '6'
    } else if d == 7 {
        '7'
    } else if d == 8 {
        '8'
    } else {
        '9'
    }
}

/// The decimal rendering of a non-negative integer.
pub open spec fn dec_str(n: int) -> Seq<char>
    decreases n,
{
    if n < 10 {
        seq![digit_char(n)]
    } else {
        dec_str(n / 10).push(digit_char(n % 10))
    }
}

/// `a / b` rounded to the nearest integer, ties to even.
pub open spec fn round_half_even(a: int, b: int) -> int {
    let q = a / b;
    let r = a % b;
    if 2 * r < b {
        q
    } else if 2 * r > b {
        q + 1
    } else if q % 2 == 0 {
        q
    } else {
        q + 1
    }
}

/// A count of hundredths rendered with two decimal places.
pub open spec fn two_dec_str(h: int) -> Seq<char> {
    dec_str(h / 100) + seq!['.'] + seq![digit_char((h / 10) % 10), digit_char(h % 10)]
}

/// What `format_size` renders: bytes verbatim below 1024, otherwise the
/// value in the largest binary unit below it, to two decimal places with
/// ties rounded to even.
pub open spec fn format_size_spec(n: int) -> Seq<char> {
    if n < 1024 {
        dec_str(n) + seq![' ', 'B']
    } else if n < 1048576 {
        two_dec_str(round_half_even(n * 25, 256)) + seq![' ', 'K', 'B']
    } else if n < 1073741824 {
        two_dec_str(round_half_even(n * 25, 262144)) + seq![' ', 'M', 'B']
    } else {
        two_dec_str(round_half_even(n * 25, 268435456)) + seq![' ', 'G', 'B']
    }
}

fn digit_str(d: u8) -> (r: &'static str)
    requires
        d < 10,
    ensures
        r@ == seq![digit_char(d as int)],
{
    proof {
        reveal_strlit("0");
        reveal_strlit("1");
        reveal_strlit("2");
        reveal_strlit("3");
        reveal_strlit("4");
        reveal_strlit("5");
        reveal_strlit("6");
        reveal_strlit("7");
        reveal_strlit("8");
        reveal_strlit("9");
    }
    let r = match d {
        0 => "0",
        1 => "1",
        2 => "2",
        3 => "3",
        4 => "4",
        5 => "5",
        6 => "6",
        7 => "7",
        8 => "8",
        _ => "9",
    };
    proof {
        assert(r@ =~= seq![digit_char(d as int)]);
    }
    r
}

/// The decimal rendering of `n`, as `dec_str` states.
pub fn u128_to_dec(n: u128) -> (r: String)
    ensures
        r@ == dec_str(n as int),
    decreases n,
{
    if n < 10 {
        digit_str(n as u8).to_owned()
    } else {
        let mut s = u128_to_dec(n / 10);
        s.append(digit_str((n % 10) as u8));
        proof {
            assert(s@ =~= dec_str(n as int));
        }
        s
    }
}

/// The decimal rendering of `n`, as `dec_str` states.
pub fn u64_to_dec(n: u64) -> (r: String)
    ensures
        r@ == dec_str(n as int),
{
    u128_to_dec(n as u128)
}

fn round_half_even_u128(a: u128, b: u128) -> (r: u128)
    requires
        0 < b <= 0x10000000,
        a <= 0xffffffffffffffffff,
    ensures
        r as int == round_half_even(a as int, b as int),
{
    let q = a / b;
    let rm = a % b;
    if 2 * rm < b {
        q
    } else if 2 * rm > b {
        q + 1
    } else if q % 2 == 0 {
        q
    } else {
        q + 1
    }
}

fn two_dec_string(h: u128) -> (r: String)
    ensures
        r@ == two_dec_str(h as int),
{
    let mut s = u128_to_dec(h / 100);
    s.append(".");
    s.append(digit_str(((h / 10) % 10) as u8));
    s.append(digit_str((h % 10) as u8));
    proof {
        reveal_strlit(".");
        assert(s@ =~= two_dec_str(h as int));
    }
    s
}

/// Renders a byte count with binary units, as `format_size_spec` states:
/// `"512 B"`, `"2.00 MB"`.
pub fn format_size(size: u64) -> (r: String)
    ensures
        r@ == format_size_spec(size as int),
{
    proof {
        reveal_strlit(" B");
        reveal_strlit(" KB");
        reveal_strlit(" MB");
        reveal_strlit(" GB");
    }
    if size < 1024 {
        let mut s = u128_to_dec(size as u128);
        s.append(" B");
        proof {
            assert(s@ =~= format_size_spec(size as int));
        }
        s
    } else if size < 1048576 {
        let h = round_half_even_u128((size as u128) * 25, 256);
        let mut s = two_dec_string(h);
        s.append(" KB");
        proof {
            assert(s@ =~= format_size_spec(size as int));
        }
        s
    } else if size < 1073741824 {
        let h = round_half_even_u128((size as u128) * 25, 262144);
        let mut s = two_dec_string(h);
        s.append(" MB");
        proof {
            assert(s@ =~= format_size_spec(size as int));
        }
        s
    } else {
        let h = round_half_even_u128((size as u128) * 25, 268435456);
        let mut s = two_dec_string(h);
        s.append(" GB");
        proof {
            assert(s@ =~= format_size_spec(size as int));
        }
        s
    }
}

} // verus!

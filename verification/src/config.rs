//! Service configuration, read from the text of an env file.
//!
//! The text is a sequence of `KEY=value` lines; blank lines and lines
//! opening with `#` are ignored, keys and values are trimmed, and a later
//! line overrides an earlier one under the same key.  The endpoint URL and
//! its credential are required; every numeric setting falls back to its
//! default when missing or unreadable.  Construction enforces the one
//! cross-setting constraint: the worst-case cumulative retry sleep must stay
//! strictly below the poll interval, so piled-up retries can never outlast a
//! poll tick.

use crate::utils::retry::{
    backoff_ms_spec,
    lemma_backoff_bounds,
    lemma_total_backoff_step,
    total_backoff_spec,
};
use vstd::arithmetic::mul::{lemma_mul_basics, lemma_mul_inequality};
use vstd::arithmetic::power2::{
    lemma2_to64,
    lemma2_to64_rest,
    lemma_pow2_pos,
    lemma_pow2_strictly_increases,
    pow2,
};
use vstd::bits::{lemma_u64_mul_pow2_le_max_iff_max_shr, lemma_u64_shl_is_mul};
use vstd::prelude::*;

verus! {

/// The characters trimmed off keys and values.
pub open spec fn is_env_space(c: char) -> bool {
    c == ' ' || c == '\t' || c == '\r'
}

/// The string with its leading spaces dropped.
pub open spec fn trim_start_spec(s: Seq<char>) -> Seq<char>
    decreases s.len(),
{
    if s.len() > 0 && is_env_space(s[0]) {
        trim_start_spec(s.drop_first())
    } else {
        s
    }
}

/// The string with its trailing spaces dropped.
pub open spec fn trim_end_spec(s: Seq<char>) -> Seq<char>
    decreases s.len(),
{
    if s.len() > 0 && is_env_space(s.last()) {
        trim_end_spec(s.drop_last())
    } else {
        s
    }
}

/// The string with spaces dropped from both ends.
pub open spec fn trim_spec(s: Seq<char>) -> Seq<char> {
    trim_end_spec(trim_start_spec(s))
}

/// The position of the first `c` at or after `from`, or the length when
/// there is none.
pub open spec fn find_char_spec(s: Seq<char>, c: char, from: nat) -> nat
    decreases s.len() - from,
{
    if from >= s.len() {
        s.len()
    } else if s[from as int] == c {
        from
    } else {
        find_char_spec(s, c, (from + 1) as nat)
    }
}

/// `find_char_spec` answers within `[from, len]`, the characters it skipped
/// differ from `c`, and a found position holds `c`.
proof fn lemma_find_char_spec(s: Seq<char>, c: char, from: nat)
    requires
        from <= s.len(),
    ensures
        from <= find_char_spec(s, c, from) <= s.len(),
        forall|j: int| from <= j < find_char_spec(s, c, from) ==> s[j] != c,
        find_char_spec(s, c, from) < s.len() ==> s[find_char_spec(s, c, from) as int] == c,
    decreases s.len() - from,
{
    if from < s.len() && s[from as int] != c {
        lemma_find_char_spec(s, c, (from + 1) as nat);
    }
}

/// Whether the character is trimmed off keys and values.
fn is_space(c: char) -> (space: bool)
    ensures
        space == is_env_space(c),
{
    c == ' ' || c == '\t' || c == '\r'
}

/// The position of the first `c` at or after `from`, or the length when
/// there is none.
fn find_char(s: &str, c: char, from: usize) -> (position: usize)
    requires
        from <= s@.len(),
    ensures
        position == find_char_spec(s@, c, from as nat),
{
    let n = s.unicode_len();
    let mut i = from;
    while i < n
        invariant
            from <= i <= n,
            n == s@.len(),
            find_char_spec(s@, c, from as nat) == find_char_spec(s@, c, i as nat),
        decreases n - i,
    {
        if s.get_char(i) == c {
            return i;
        }
        i += 1;
    }
    i
}

/// Dropping leading spaces is the same as skipping past them.
proof fn lemma_trim_start_at(s: Seq<char>, a: nat)
    requires
        a <= s.len(),
        forall|j: int| 0 <= j < a ==> is_env_space(s[j]),
        a < s.len() ==> !is_env_space(s[a as int]),
    ensures
        trim_start_spec(s) == s.skip(a as int),
    decreases a,
{
    if a == 0 {
        assert(s.skip(0) =~= s);
    } else {
        assert(is_env_space(s[0]));
        lemma_trim_start_at(s.drop_first(), (a - 1) as nat);
        assert(s.drop_first().skip(a as int - 1) =~= s.skip(a as int));
    }
}

/// Dropping trailing spaces is the same as cutting the string off before
/// them.
proof fn lemma_trim_end_at(s: Seq<char>, b: nat)
    requires
        b <= s.len(),
        forall|j: int| b <= j < s.len() ==> is_env_space(s[j]),
        b > 0 ==> !is_env_space(s[b as int - 1]),
    ensures
        trim_end_spec(s) == s.take(b as int),
    decreases s.len(),
{
    if b == s.len() {
        if s.len() > 0 {
            assert(!is_env_space(s.last()));
        }
        assert(s.take(s.len() as int) =~= s);
    } else {
        assert(is_env_space(s.last()));
        lemma_trim_end_at(s.drop_last(), b);
        assert(s.drop_last().take(b as int) =~= s.take(b as int));
    }
}

/// A freshly owned copy of the string with spaces dropped from both ends.
fn trim_str(s: &str) -> (trimmed: String)
    ensures
        trimmed@ == trim_spec(s@),
{
    let n = s.unicode_len();
    let mut a: usize = 0;
    while a < n && is_space(s.get_char(a))
        invariant
            a <= n,
            n == s@.len(),
            forall|j: int| 0 <= j < a ==> is_env_space(s@[j]),
        decreases n - a,
    {
        a += 1;
    }
    proof {
        lemma_trim_start_at(s@, a as nat);
    }
    if a == n {
        proof {
            assert(s@.skip(a as int) =~= Seq::<char>::empty());
        }
        return String::new();
    }
    let mut b: usize = n;
    while b > a && is_space(s.get_char(b - 1))
        invariant
            a <= b <= n,
            n == s@.len(),
            forall|j: int| b <= j < n ==> is_env_space(s@[j]),
        decreases b,
    {
        b -= 1;
    }
    proof {
        let t = s@.skip(a as int);
        assert(b > a);
        assert(!is_env_space(s@[b as int - 1]));
        assert forall|j: int| b - a <= j < t.len() implies is_env_space(t[j]) by {
            assert(t[j] == s@[j + a]);
        }
        assert(t[b as int - a as int - 1] == s@[b as int - 1]);
        lemma_trim_end_at(t, (b - a) as nat);
        assert(t.take(b as int - a as int) =~= s@.subrange(a as int, b as int));
    }
    String::from_str(s.substring_char(a, b))
}

/// Whether two strings hold the same characters.
fn str_eq(a: &str, b: &str) -> (eq: bool)
    ensures
        eq == (a@ == b@),
{
    let na = a.unicode_len();
    let nb = b.unicode_len();
    if na != nb {
        return false;
    }
    let mut i: usize = 0;
    while i < na
        invariant
            i <= na,
            na == a@.len(),
            nb == b@.len(),
            na == nb,
            forall|j: int| 0 <= j < i ==> a@[j] == b@[j],
        decreases na - i,
    {
        if a.get_char(i) != b.get_char(i) {
            return false;
        }
        i += 1;
    }
    proof {
        assert(a@ =~= b@);
    }
    true
}

/// Whether the character is a decimal digit.
pub open spec fn is_digit(c: char) -> bool {
    48 <= c as u32 <= 57
}

/// The numeric value of a decimal digit.
pub open spec fn digit_val(c: char) -> int {
    c as u32 - 48
}

/// Whether the string holds decimal digits only.
pub open spec fn all_digits(s: Seq<char>) -> bool {
    forall|j: int| 0 <= j < s.len() ==> is_digit(#[trigger] s[j])
}

/// The number a digit string denotes.
pub open spec fn digits_val(s: Seq<char>) -> int
    decreases s.len(),
{
    if s.len() == 0 {
        0
    } else {
        digits_val(s.drop_last()) * 10 + digit_val(s.last())
    }
}

/// What parsing an unsigned decimal yields: the denoted number, if the
/// string is a nonempty run of digits whose value fits.
pub open spec fn parse_u64_spec(s: Seq<char>) -> Option<u64> {
    if s.len() > 0 && all_digits(s) && digits_val(s) <= u64::MAX {
        Some(digits_val(s) as u64)
    } else {
        None
    }
}

/// A digit string denotes a nonnegative number.
proof fn lemma_digits_val_nonneg(s: Seq<char>)
    requires
        all_digits(s),
    ensures
        digits_val(s) >= 0,
    decreases s.len(),
{
    if s.len() > 0 {
        assert(is_digit(s[s.len() - 1]));
        assert(all_digits(s.drop_last())) by {
            assert(forall|j: int| 0 <= j < s.len() - 1 ==> s.drop_last()[j] == s[j]);
        }
        lemma_digits_val_nonneg(s.drop_last());
    }
}

/// Extending a digit string by more digits never shrinks its value.
proof fn lemma_digits_val_extend(s: Seq<char>, i: nat)
    requires
        all_digits(s),
        i <= s.len(),
    ensures
        digits_val(s.take(i as int)) <= digits_val(s),
    decreases s.len() - i,
{
    if i < s.len() {
        let t = s.take(i as int + 1);
        assert(t.drop_last() =~= s.take(i as int));
        assert(all_digits(t)) by {
            assert(forall|j: int| 0 <= j < t.len() ==> t[j] == s[j]);
        }
        assert(all_digits(s.take(i as int))) by {
            assert(forall|j: int|
                0 <= j < i ==> s.take(i as int)[j] == s[j]);
        }
        lemma_digits_val_nonneg(s.take(i as int));
        assert(is_digit(t.last()));
        assert(digits_val(t) == digits_val(s.take(i as int)) * 10 + digit_val(t.last()));
        assert(digits_val(s.take(i as int)) * 10 >= digits_val(s.take(i as int))) by {
            lemma_digits_val_nonneg(s.take(i as int));
            assert(digits_val(s.take(i as int)) * 10 == digits_val(s.take(i as int)) * 10);
            assert(digits_val(s.take(i as int)) * 9 >= 0) by (nonlinear_arith)
                requires
                    digits_val(s.take(i as int)) >= 0,
            ;
            assert(digits_val(s.take(i as int)) * 10 - digits_val(s.take(i as int))
                == digits_val(s.take(i as int)) * 9) by (nonlinear_arith);
        }
        lemma_digits_val_extend(s, i + 1);
    } else {
        assert(s.take(i as int) =~= s);
    }
}

/// Parses an unsigned decimal: the denoted number, if the string is a
/// nonempty run of digits whose value fits.
pub fn parse_u64(s: &str) -> (parsed: Option<u64>)
    ensures
        parsed == parse_u64_spec(s@),
{
    let n = s.unicode_len();
    if n == 0 {
        return None;
    }
    let mut acc: u64 = 0;
    let mut i: usize = 0;
    while i < n
        invariant
            i <= n,
            n == s@.len(),
            all_digits(s@.take(i as int)),
            acc == digits_val(s@.take(i as int)),
        decreases n - i,
    {
        let c = s.get_char(i);
        let code: u32 = c as u32;
        if code < 48 || code > 57 {
            proof {
                assert(!is_digit(s@[i as int]));
            }
            return None;
        }
        let d: u64 = (code - 48) as u64;
        proof {
            assert(s@.take(i as int + 1).drop_last() =~= s@.take(i as int));
            assert(all_digits(s@.take(i as int + 1))) by {
                assert(forall|j: int|
                    0 <= j < i ==> s@.take(i as int + 1)[j] == s@.take(i as int)[j]);
                assert(s@.take(i as int + 1)[i as int] == s@[i as int]);
            }
            lemma_digits_val_nonneg(s@.take(i as int));
        }
        if acc > 1844674407370955161u64 || (acc == 1844674407370955161u64 && d > 5) {
            proof {
                assert(digits_val(s@.take(i as int + 1)) == acc * 10 + d);
                assert(digits_val(s@.take(i as int + 1)) > u64::MAX);
                if all_digits(s@) {
                    lemma_digits_val_extend(s@, i as nat + 1);
                    assert(digits_val(s@) > u64::MAX);
                }
            }
            return None;
        }
        acc = acc * 10 + d;
        proof {
            assert(acc == digits_val(s@.take(i as int + 1)));
        }
        i += 1;
    }
    proof {
        assert(s@.take(n as int) =~= s@);
    }
    Some(acc)
}

/// One line's contribution: a key/value pair split at the first `=` and
/// trimmed, unless the line is blank, opens with `#`, or has no `=`.
pub open spec fn line_pair_spec(line: Seq<char>) -> Option<(Seq<char>, Seq<char>)> {
    if line.len() == 0 || line[0] == '#' {
        None
    } else {
        let i = find_char_spec(line, '=', 0);
        if i < line.len() {
            Some((trim_spec(line.take(i as int)), trim_spec(line.skip(i as int + 1))))
        } else {
            None
        }
    }
}

/// One line's contribution as a (possibly empty) run of pairs.
pub open spec fn line_pairs(line: Seq<char>) -> Seq<(Seq<char>, Seq<char>)> {
    match line_pair_spec(line) {
        Some(p) => seq![p],
        None => Seq::empty(),
    }
}

/// The pairs the text from position `from` on contributes, line by line.
pub open spec fn env_pairs_from(s: Seq<char>, from: nat) -> Seq<(Seq<char>, Seq<char>)>
    decreases s.len() - from,
    via env_pairs_from_decreases
{
    if from >= s.len() {
        Seq::empty()
    } else {
        let i = find_char_spec(s, '\n', from);
        if i < s.len() {
            line_pairs(s.subrange(from as int, i as int)) + env_pairs_from(s, i + 1)
        } else {
            line_pairs(s.subrange(from as int, s.len() as int))
        }
    }
}

#[via_fn]
proof fn env_pairs_from_decreases(s: Seq<char>, from: nat) {
    if from < s.len() {
        lemma_find_char_spec(s, '\n', from);
    }
}

/// Every key/value pair the text contributes, in order.
pub open spec fn env_pairs_spec(s: Seq<char>) -> Seq<(Seq<char>, Seq<char>)> {
    env_pairs_from(s, 0)
}

/// The value under a key; a later pair overrides an earlier one.
pub open spec fn lookup_pairs_spec(pairs: Seq<(Seq<char>, Seq<char>)>, key: Seq<char>) -> Option<
    Seq<char>,
>
    decreases pairs.len(),
{
    if pairs.len() == 0 {
        None
    } else if pairs.last().0 == key {
        Some(pairs.last().1)
    } else {
        lookup_pairs_spec(pairs.drop_last(), key)
    }
}

/// The value the text assigns to a key, if any.
pub open spec fn env_value_spec(s: Seq<char>, key: Seq<char>) -> Option<Seq<char>> {
    lookup_pairs_spec(env_pairs_spec(s), key)
}

/// The owned pairs a parse produces, seen as character sequences.
pub open spec fn pairs_view(pairs: Seq<(String, String)>) -> Seq<(Seq<char>, Seq<char>)> {
    pairs.map_values(|p: (String, String)| (p.0@, p.1@))
}

/// Parses one line into its key/value pair, if it contributes one.
fn parse_line(line: &str) -> (pair: Option<(String, String)>)
    ensures
        match pair {
            Some(p) => line_pair_spec(line@) == Some((p.0@, p.1@)),
            None => line_pair_spec(line@) is None,
        },
{
    let n = line.unicode_len();
    if n == 0 {
        return None;
    }
    if line.get_char(0) == '#' {
        return None;
    }
    let i = find_char(line, '=', 0);
    proof {
        lemma_find_char_spec(line@, '=', 0);
    }
    if i < n {
        let key = trim_str(line.substring_char(0, i));
        let value = trim_str(line.substring_char(i + 1, n));
        proof {
            assert(line@.subrange(0, i as int) =~= line@.take(i as int));
            assert(line@.subrange(i as int + 1, n as int) =~= line@.skip(i as int + 1));
        }
        Some((key, value))
    } else {
        None
    }
}

/// Parses the whole text into its pairs, line by line.
fn parse_env_pairs(content: &str) -> (pairs: Vec<(String, String)>)
    ensures
        pairs_view(pairs@) == env_pairs_spec(content@),
{
    let n = content.unicode_len();
    let mut pairs: Vec<(String, String)> = Vec::new();
    let mut pos: usize = 0;
    proof {
        assert(pairs_view(pairs@) =~= Seq::<(Seq<char>, Seq<char>)>::empty());
    }
    while pos < n
        invariant
            pos <= n,
            n == content@.len(),
            env_pairs_spec(content@) == pairs_view(pairs@) + env_pairs_from(content@, pos as nat),
        decreases n - pos,
    {
        let nl = find_char(content, '\n', pos);
        proof {
            lemma_find_char_spec(content@, '\n', pos as nat);
        }
        let line = content.substring_char(pos, nl);
        let ghost prev = pairs_view(pairs@);
        let ghost contributed = line_pairs(line@);
        match parse_line(line) {
            Some(p) => {
                pairs.push(p);
            },
            None => {},
        }
        proof {
            assert(pairs_view(pairs@) =~= prev + contributed);
        }
        if nl < n {
            pos = nl + 1;
        } else {
            proof {
                assert(prev + contributed + env_pairs_from(content@, n as nat) =~= prev
                    + contributed);
            }
            pos = n;
        }
        proof {
            assert(env_pairs_spec(content@) == pairs_view(pairs@) + env_pairs_from(
                content@,
                pos as nat,
            )) by {
                assert(prev + contributed + env_pairs_from(content@, pos as nat) =~= pairs_view(
                    pairs@,
                ) + env_pairs_from(content@, pos as nat));
            }
        }
    }
    proof {
        assert(pairs_view(pairs@) + env_pairs_from(content@, pos as nat) =~= pairs_view(pairs@));
    }
    pairs
}

/// Looks a key up among the parsed pairs; a later pair overrides an earlier
/// one.
fn lookup(pairs: &Vec<(String, String)>, key: &str) -> (value: Option<String>)
    ensures
        match value {
            Some(v) => lookup_pairs_spec(pairs_view(pairs@), key@) == Some(v@),
            None => lookup_pairs_spec(pairs_view(pairs@), key@) is None,
        },
{
    let ghost view = pairs_view(pairs@);
    let mut i: usize = pairs.len();
    proof {
        assert(view.take(view.len() as int) =~= view);
    }
    while i > 0
        invariant
            i <= pairs@.len(),
            view == pairs_view(pairs@),
            view.len() == pairs@.len(),
            lookup_pairs_spec(view, key@) == lookup_pairs_spec(view.take(i as int), key@),
        decreases i,
    {
        i -= 1;
        proof {
            assert(view.take(i as int + 1).last() == view[i as int]);
            assert(view.take(i as int + 1).drop_last() =~= view.take(i as int));
        }
        if str_eq(pairs[i].0.as_str(), key) {
            return Some(pairs[i].1.clone());
        }
    }
    None
}

/// The parsed number a value denotes, or the default when the value is
/// missing or unreadable.
pub open spec fn u64_or_default(value: Option<Seq<char>>, default: u64) -> u64 {
    match value {
        Some(s) => match parse_u64_spec(s) {
            Some(x) => x,
            None => default,
        },
        None => default,
    }
}

/// As `u64_or_default`, held to the `u32` range.
pub open spec fn u32_or_default(value: Option<Seq<char>>, default: u32) -> u32 {
    match value {
        Some(s) => match parse_u64_spec(s) {
            Some(x) => if x <= u32::MAX {
                x as u32
            } else {
                default
            },
            None => default,
        },
        None => default,
    }
}

/// As `u64_or_default`, held to the `usize` range.
pub open spec fn usize_or_default(value: Option<Seq<char>>, default: usize) -> usize {
    match value {
        Some(s) => match parse_u64_spec(s) {
            Some(x) => if x <= usize::MAX {
                x as usize
            } else {
                default
            },
            None => default,
        },
        None => default,
    }
}

fn get_u64(pairs: &Vec<(String, String)>, key: &str, default: u64) -> (value: u64)
    ensures
        value == u64_or_default(lookup_pairs_spec(pairs_view(pairs@), key@), default),
{
    match lookup(pairs, key) {
        Some(v) => match parse_u64(v.as_str()) {
            Some(x) => x,
            None => default,
        },
        None => default,
    }
}

fn get_u32(pairs: &Vec<(String, String)>, key: &str, default: u32) -> (value: u32)
    ensures
        value == u32_or_default(lookup_pairs_spec(pairs_view(pairs@), key@), default),
{
    match lookup(pairs, key) {
        Some(v) => match parse_u64(v.as_str()) {
            Some(x) => if x <= u32::MAX as u64 {
                x as u32
            } else {
                default
            },
            None => default,
        },
        None => default,
    }
}

fn get_usize(pairs: &Vec<(String, String)>, key: &str, default: usize) -> (value: usize)
    ensures
        value == usize_or_default(lookup_pairs_spec(pairs_view(pairs@), key@), default),
{
    match lookup(pairs, key) {
        Some(v) => match parse_u64(v.as_str()) {
            Some(x) => if x <= usize::MAX as u64 {
                x as usize
            } else {
                default
            },
            None => default,
        },
        None => default,
    }
}

/// Seconds as milliseconds, saturating at the clock's end.
pub open spec fn ms_of_secs(secs: u64) -> u64 {
    if secs * 1000 > u64::MAX {
        u64::MAX
    } else {
        (secs * 1000) as u64
    }
}

fn secs_to_ms(secs: u64) -> (ms: u64)
    ensures
        ms == ms_of_secs(secs),
{
    if secs > 18446744073709551u64 {
        u64::MAX
    } else {
        secs * 1000
    }
}

/// The worst-case cumulative retry sleep, or `None` when it exceeds what a
/// clock value can hold.
fn compute_total_backoff(initial_backoff_ms: u64, max_retries: u32) -> (total: Option<u64>)
    ensures
        match total {
            Some(t) => t == total_backoff_spec(initial_backoff_ms, max_retries as nat),
            None => total_backoff_spec(initial_backoff_ms, max_retries as nat) > u64::MAX,
        },
{
    let mut total: u64 = 0;
    let mut i: u32 = 0;
    proof {
        lemma2_to64();
    }
    while i < max_retries
        invariant
            i <= max_retries,
            total == total_backoff_spec(initial_backoff_ms, i as nat),
        decreases max_retries - i,
    {
        proof {
            lemma_pow2_pos(i as nat);
        }
        let term: u64;
        if initial_backoff_ms == 0 {
            proof {
                lemma_mul_basics(pow2(i as nat) as int);
            }
            term = 0;
        } else {
            if i >= 64 {
                proof {
                    lemma2_to64_rest();
                    if i > 64 {
                        lemma_pow2_strictly_increases(64, i as nat);
                    }
                    lemma_mul_inequality(1, initial_backoff_ms as int, pow2(i as nat) as int);
                    lemma_mul_basics(pow2(i as nat) as int);
                    assert(backoff_ms_spec(initial_backoff_ms, (i + 1) as u32) > u64::MAX);
                    lemma_total_backoff_step(initial_backoff_ms, (i + 1) as u32);
                    lemma_backoff_bounds(initial_backoff_ms, (i + 1) as u32, max_retries);
                }
                return None;
            }
            if initial_backoff_ms > (u64::MAX >> (i as u64)) {
                proof {
                    lemma_u64_mul_pow2_le_max_iff_max_shr(initial_backoff_ms, i as u64, u64::MAX);
                    lemma_total_backoff_step(initial_backoff_ms, (i + 1) as u32);
                    lemma_backoff_bounds(initial_backoff_ms, (i + 1) as u32, max_retries);
                }
                return None;
            }
            proof {
                lemma_u64_mul_pow2_le_max_iff_max_shr(initial_backoff_ms, i as u64, u64::MAX);
                lemma_u64_shl_is_mul(initial_backoff_ms, i as u64);
            }
            term = initial_backoff_ms << (i as u64);
        }
        proof {
            lemma_total_backoff_step(initial_backoff_ms, (i + 1) as u32);
            lemma_backoff_bounds(initial_backoff_ms, (i + 1) as u32, max_retries);
        }
        if term > u64::MAX - total {
            return None;
        }
        total = total + term;
        i += 1;
    }
    Some(total)
}

/// Why a configuration was rejected.
#[derive(Clone, Copy, Debug, PartialEq, Eq, Structural)]
pub enum ConfigError {
    /// The endpoint URL is not set.
    MissingRpcUrl,
    /// The endpoint credential is not set.
    MissingApiKey,
    /// The worst-case cumulative retry sleep reaches the poll interval.
    RetryExceedsPollInterval,
}

pub const DEFAULT_POLL_INTERVAL_SECONDS: u64 = 15;
pub const DEFAULT_CACHE_CAPACITY: usize = 1000;
pub const DEFAULT_LRU_CACHE_CAPACITY: usize = 1000;
pub const DEFAULT_MAX_RETRIES: u32 = 3;
pub const DEFAULT_INITIAL_BACKOFF_MS: u64 = 500;
pub const DEFAULT_CIRCUIT_FAILURE_THRESHOLD: u32 = 3;
pub const DEFAULT_CIRCUIT_OPEN_DURATION_MS: u64 = 10000;

/// The settings the service is constructed from.  Durations are carried as
/// milliseconds.
#[derive(Clone, Debug)]
pub struct Config {
    pub rpc_url: String,
    pub api_key: String,
    pub poll_interval_ms: u64,
    pub cache_capacity: usize,
    pub lru_cache_capacity: usize,
    pub max_retries: u32,
    pub initial_backoff_ms: u64,
    pub circuit_failure_threshold: u32,
    pub circuit_open_duration_ms: u64,
}

/// How each accepted setting relates to the text it was read from.
pub open spec fn config_matches_env(config: Config, c: Seq<char>) -> bool {
    &&& env_value_spec(c, "SOLANA_RPC_URL"@) == Some(config.rpc_url@)
    &&& env_value_spec(c, "API_KEY"@) == Some(config.api_key@)
    &&& config.poll_interval_ms == ms_of_secs(
        u64_or_default(env_value_spec(c, "POLL_INTERVAL_SECONDS"@), DEFAULT_POLL_INTERVAL_SECONDS),
    )
    &&& config.cache_capacity == usize_or_default(
        env_value_spec(c, "CACHE_CAPACITY"@),
        DEFAULT_CACHE_CAPACITY,
    )
    &&& config.lru_cache_capacity == usize_or_default(
        env_value_spec(c, "LRU_CACHE_CAPACITY"@),
        DEFAULT_LRU_CACHE_CAPACITY,
    )
    &&& config.max_retries == u32_or_default(
        env_value_spec(c, "MAX_RETRIES"@),
        DEFAULT_MAX_RETRIES,
    )
    &&& config.initial_backoff_ms == u64_or_default(
        env_value_spec(c, "INITIAL_BACKOFF_MS"@),
        DEFAULT_INITIAL_BACKOFF_MS,
    )
    &&& config.circuit_failure_threshold == u32_or_default(
        env_value_spec(c, "CIRCUIT_FAILURE_THRESHOLD"@),
        DEFAULT_CIRCUIT_FAILURE_THRESHOLD,
    )
    &&& config.circuit_open_duration_ms == u64_or_default(
        env_value_spec(c, "CIRCUIT_OPEN_DURATION_MS"@),
        DEFAULT_CIRCUIT_OPEN_DURATION_MS,
    )
}

impl Config {
    /// Reads a configuration from the text of an env file.  The endpoint
    /// URL and credential are required; every numeric setting falls back to
    /// its default when missing or unreadable; and a configuration whose
    /// worst-case cumulative retry sleep reaches the poll interval is
    /// rejected.
    pub fn from_env_file(content: &str) -> (config: Result<Config, ConfigError>)
        ensures
            match config {
                Ok(accepted) => config_matches_env(accepted, content@) && total_backoff_spec(
                    accepted.initial_backoff_ms,
                    accepted.max_retries as nat,
                ) < accepted.poll_interval_ms,
                Err(ConfigError::MissingRpcUrl) => env_value_spec(content@, "SOLANA_RPC_URL"@)
                    is None,
                Err(ConfigError::MissingApiKey) => env_value_spec(content@, "SOLANA_RPC_URL"@)
                    is Some && env_value_spec(content@, "API_KEY"@) is None,
                Err(ConfigError::RetryExceedsPollInterval) => env_value_spec(
                    content@,
                    "SOLANA_RPC_URL"@,
                ) is Some && env_value_spec(content@, "API_KEY"@) is Some && total_backoff_spec(
                    u64_or_default(
                        env_value_spec(content@, "INITIAL_BACKOFF_MS"@),
                        DEFAULT_INITIAL_BACKOFF_MS,
                    ),
                    u32_or_default(env_value_spec(content@, "MAX_RETRIES"@), DEFAULT_MAX_RETRIES)
                        as nat,
                ) >= ms_of_secs(
                    u64_or_default(
                        env_value_spec(content@, "POLL_INTERVAL_SECONDS"@),
                        DEFAULT_POLL_INTERVAL_SECONDS,
                    ),
                ),
            },
    {
        let pairs = parse_env_pairs(content);
        let rpc_url = match lookup(&pairs, "SOLANA_RPC_URL") {
            Some(v) => v,
            None => {
                return Err(ConfigError::MissingRpcUrl);
            },
        };
        let api_key = match lookup(&pairs, "API_KEY") {
            Some(v) => v,
            None => {
                return Err(ConfigError::MissingApiKey);
            },
        };
        let poll_interval_secs = get_u64(
            &pairs,
            "POLL_INTERVAL_SECONDS",
            DEFAULT_POLL_INTERVAL_SECONDS,
        );
        let poll_interval_ms = secs_to_ms(poll_interval_secs);
        let cache_capacity = get_usize(&pairs, "CACHE_CAPACITY", DEFAULT_CACHE_CAPACITY);
        let lru_cache_capacity = get_usize(&pairs, "LRU_CACHE_CAPACITY", DEFAULT_LRU_CACHE_CAPACITY);
        let max_retries = get_u32(&pairs, "MAX_RETRIES", DEFAULT_MAX_RETRIES);
        let initial_backoff_ms = get_u64(&pairs, "INITIAL_BACKOFF_MS", DEFAULT_INITIAL_BACKOFF_MS);
        let circuit_failure_threshold = get_u32(
            &pairs,
            "CIRCUIT_FAILURE_THRESHOLD",
            DEFAULT_CIRCUIT_FAILURE_THRESHOLD,
        );
        let circuit_open_duration_ms = get_u64(
            &pairs,
            "CIRCUIT_OPEN_DURATION_MS",
            DEFAULT_CIRCUIT_OPEN_DURATION_MS,
        );
        let within_interval = match compute_total_backoff(initial_backoff_ms, max_retries) {
            Some(total) => total < poll_interval_ms,
            None => false,
        };
        if !within_interval {
            return Err(ConfigError::RetryExceedsPollInterval);
        }
        Ok(
            Config {
                rpc_url,
                api_key,
                poll_interval_ms,
                cache_capacity,
                lru_cache_capacity,
                max_retries,
                initial_backoff_ms,
                circuit_failure_threshold,
                circuit_open_duration_ms,
            },
        )
    }
}

} // verus!

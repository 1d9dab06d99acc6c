//! Command-line value parsing: human-readable sizes and binary-name
//! overrides.

use vstd::prelude::*;
use vstd::string::StrSliceExecFns;
use crate::text::{alphabetic, char_is_alphabetic, trim_bounds, trim_spec};

verus! {

/// Bytes a character takes in UTF-8, as `char::len_utf8` documents.
pub open spec fn utf8_width(c: char) -> nat {
    if (c as u32) < 0x80 {
        1
    } else if (c as u32) < 0x800 {
        2
    } else if (c as u32) < 0x10000 {
        3
    } else {
        4
    }
}

/// Bytes a string takes in UTF-8.
pub open spec fn utf8_len(s: Seq<char>) -> nat
    decreases s.len(),
{
    if s.len() == 0 {
        0
    } else {
        utf8_len(s.drop_last()) + utf8_width(s.last())
    }
}

/// The number of alphabetic characters at the end of `s`.
pub open spec fn trailing_alphabetic(s: Seq<char>) -> nat
    decreases s.len(),
{
    if s.len() > 0 && alphabetic(s.last()) {
        trailing_alphabetic(s.drop_last()) + 1
    } else {
        0
    }
}

/// The character index at which the first `byte_index` bytes of `s` end,
/// if that byte index falls on a character boundary.
pub open spec fn char_index_at_byte(s: Seq<char>, byte_index: int) -> Option<int> {
    if exists|j: int| 0 <= j <= s.len() && utf8_len(s.take(j)) == byte_index {
        Some(choose|j: int| 0 <= j <= s.len() && utf8_len(s.take(j)) == byte_index)
    } else {
        None
    }
}

/// `c` is an ASCII decimal digit.
pub open spec fn is_digit(c: char) -> bool {
    '0' <= c && c <= '9'
}

/// The number that a string of decimal digits spells.
pub open spec fn decimal_value(s: Seq<char>) -> nat
    decreases s.len(),
{
    if s.len() == 0 {
        0
    } else {
        decimal_value(s.drop_last()) * 10 + ((s.last() as u32) - ('0' as u32)) as nat
    }
}

/// `s` without one leading `+`, if it has one.
pub open spec fn sign_stripped(s: Seq<char>) -> Seq<char> {
    if s.len() > 0 && s[0] == '+' {
        s.drop_first()
    } else {
        s
    }
}

/// Every character of `s` is an ASCII digit.
pub open spec fn all_digits(s: Seq<char>) -> bool {
    forall|i: int| 0 <= i < s.len() ==> is_digit(#[trigger] s[i])
}

/// What `str::parse::<u64>` makes of `s`: an optional `+`, then one or more
/// ASCII digits whose value fits in a `u64`; `None` otherwise.
pub open spec fn parse_u64_spec(s: Seq<char>) -> Option<nat> {
    if sign_stripped(s).len() > 0 && all_digits(sign_stripped(s)) && decimal_value(sign_stripped(s)) <= u64::MAX {
        Some(decimal_value(sign_stripped(s)))
    } else {
        None
    }
}

/// `c` upper-cased as `char::to_ascii_uppercase` does: ASCII letters only.
pub open spec fn ascii_upper(c: char) -> char {
    if 'a' <= c && c <= 'z' {
        ((c as u32) - 32) as char
    } else {
        c
    }
}

/// `s`, ASCII upper-cased, is `pattern`.
pub open spec fn upper_is(s: Seq<char>, pattern: Seq<char>) -> bool {
    s.len() == pattern.len() && forall|i: int| 0 <= i < s.len() ==> ascii_upper(#[trigger] s[i]) == pattern[i]
}

/// The multiplier that a size suffix stands for, matched without regard to
/// ASCII case: none or `B` for bytes, then `K`/`KB`/`KIB`, `M`/`MB`/`MIB`,
/// `G`/`GB`/`GIB` and `T`/`TB`/`TIB` for powers of 1024.
pub open spec fn multiplier_of(suffix: Seq<char>) -> Option<nat> {
    if upper_is(suffix, ""@) || upper_is(suffix, "B"@) {
        Some(1)
    } else if upper_is(suffix, "K"@) || upper_is(suffix, "KB"@) || upper_is(suffix, "KIB"@) {
        Some(1024)
    } else if upper_is(suffix, "M"@) || upper_is(suffix, "MB"@) || upper_is(suffix, "MIB"@) {
        Some(1024 * 1024)
    } else if upper_is(suffix, "G"@) || upper_is(suffix, "GB"@) || upper_is(suffix, "GIB"@) {
        Some(1024 * 1024 * 1024)
    } else if upper_is(suffix, "T"@) || upper_is(suffix, "TB"@) || upper_is(suffix, "TIB"@) {
        Some(1024 * 1024 * 1024 * 1024)
    } else {
        None
    }
}

/// How a size string reads.
pub enum SizeReading {
    /// Nothing but white space.
    Empty,
    /// The number part would end inside a multi-byte character: the string
    /// is split at the byte count of its trailing alphabetic run measured in
    /// characters, which is no character boundary.
    Unsplittable,
    /// The number part (before trimming) is not a `u64`.
    NotANumber(Seq<char>),
    /// The suffix is none of the known ones.
    UnknownSuffix(Seq<char>),
    /// A number and the multiplier of its suffix.
    Scaled(nat, nat),
}

/// How `s` reads as a size: trimmed of white space, split where its trailing
/// run of alphabetic characters starts (that run counted in characters but
/// the split made at a byte index), the number part trimmed and parsed, the
/// suffix looked up.
pub open spec fn size_reading(s: Seq<char>) -> SizeReading {
    let t = trim_spec(s);
    if t.len() == 0 {
        SizeReading::Empty
    } else {
        match char_index_at_byte(t, utf8_len(t) - trailing_alphabetic(t)) {
            None => SizeReading::Unsplittable,
            Some(j) => {
                let digits = t.take(j);
                let suffix = t.skip(j);
                match parse_u64_spec(trim_spec(digits)) {
                    None => SizeReading::NotANumber(digits),
                    Some(v) => match multiplier_of(suffix) {
                        None => SizeReading::UnknownSuffix(suffix),
                        Some(m) => SizeReading::Scaled(v, m),
                    },
                }
            },
        }
    }
}

/// Parsing `s` as a size panics: the split falls inside a character, or
/// the number times its multiplier overflows a `u64`.
pub open spec fn size_parse_panics(s: Seq<char>) -> bool {
    match size_reading(s) {
        SizeReading::Unsplittable => true,
        SizeReading::Scaled(v, m) => v * m > u64::MAX,
        _ => false,
    }
}

/// Why a size string was rejected.
#[derive(Clone, Debug)]
pub enum SizeError {
    /// The string is empty or white space.
    Empty,
    /// The number part, as it stood before trimming, is not a number.
    NotANumber(String),
    /// The suffix, as written, is not a known size suffix.
    UnknownSuffix(String),
}

proof fn lemma_utf8_len_step(s: Seq<char>, j: int)
    requires
        0 <= j < s.len(),
    ensures
        utf8_len(s.take(j + 1)) == utf8_len(s.take(j)) + utf8_width(s[j]),
{
    assert(s.take(j + 1).drop_last() =~= s.take(j));
}

proof fn lemma_utf8_len_increasing(s: Seq<char>, j1: int, j2: int)
    requires
        0 <= j1 <= j2 <= s.len(),
    ensures
        utf8_len(s.take(j1)) + (j2 - j1) <= utf8_len(s.take(j2)),
        utf8_len(s.take(j2)) <= utf8_len(s.take(j1)) + 4 * (j2 - j1),
    decreases j2 - j1,
{
    if j1 < j2 {
        lemma_utf8_len_increasing(s, j1, j2 - 1);
        lemma_utf8_len_step(s, j2 - 1);
    }
}

proof fn lemma_trailing_alphabetic(s: Seq<char>, k: int)
    requires
        0 <= k <= s.len(),
        forall|i: int| s.len() - k <= i < s.len() ==> alphabetic(#[trigger] s[i]),
        k == s.len() || !alphabetic(s[s.len() - k - 1]),
    ensures
        trailing_alphabetic(s) == k,
    decreases k,
{
    if k > 0 {
        let t = s.drop_last();
        assert forall|i: int| t.len() - (k - 1) <= i < t.len() implies alphabetic(#[trigger] t[i]) by {
            assert(t[i] == s[i]);
        }
        if k - 1 < t.len() {
            assert(t[t.len() - (k - 1) - 1] == s[s.len() - k - 1]);
        }
        lemma_trailing_alphabetic(t, k - 1);
    }
}

/// The number of alphabetic characters at the end of `t`.
fn count_trailing_alphabetic(t: &str) -> (k: usize)
    ensures
        k == trailing_alphabetic(t@),
        k <= t@.len(),
{
    let n = t.unicode_len();
    let mut k: usize = 0;
    while k < n && char_is_alphabetic(t.get_char(n - 1 - k))
        invariant
            n == t@.len(),
            0 <= k <= n,
            forall|i: int| n - k <= i < n ==> alphabetic(#[trigger] t@[i]),
        decreases n - k,
    {
        k = k + 1;
    }
    proof {
        lemma_trailing_alphabetic(t@, k as int);
    }
    k
}

/// The UTF-8 width of `c`, as `char::len_utf8` documents it.
fn char_width(c: char) -> (w: u128)
    ensures
        w == utf8_width(c),
{
    let v = c as u32;
    if v < 0x80 {
        1
    } else if v < 0x800 {
        2
    } else if v < 0x10000 {
        3
    } else {
        4
    }
}

/// The character index of `t` at which byte `target` falls, if it falls on a
/// character boundary.
fn char_index_at(t: &str, target: u128) -> (r: Option<usize>)
    ensures
        r is Some <==> char_index_at_byte(t@, target as int) is Some,
        r matches Some(j) ==> char_index_at_byte(t@, target as int) == Some(j as int),
{
    let n = t.unicode_len();
    let mut j: usize = 0;
    let mut acc: u128 = 0;
    while j < n && acc < target
        invariant
            n == t@.len(),
            0 <= j <= n,
            acc == utf8_len(t@.take(j as int)),
            acc <= 4 * j,
            forall|j0: int| 0 <= j0 < j ==> utf8_len(t@.take(j0)) < target,
        decreases n - j,
    {
        proof {
            lemma_utf8_len_step(t@, j as int);
        }
        acc = acc + char_width(t.get_char(j));
        j = j + 1;
    }
    if acc == target {
        assert(utf8_len(t@.take(j as int)) == target);
        proof {
            let c = choose|j1: int| 0 <= j1 <= t@.len() && utf8_len(t@.take(j1)) == target;
            if c < j {
                assert(utf8_len(t@.take(c)) < target);
            } else if c > j {
                lemma_utf8_len_increasing(t@, j as int, c);
            }
        }
        Some(j)
    } else {
        proof {
            assert forall|j1: int| 0 <= j1 <= t@.len() implies utf8_len(t@.take(j1)) != target by {
                if j1 < j {
                } else if j1 > j {
                    lemma_utf8_len_increasing(t@, j as int, j1);
                } else {
                }
            }
        }
        None
    }
}

proof fn lemma_decimal_value_grows(s: Seq<char>, i: int)
    requires
        0 <= i <= s.len(),
    ensures
        decimal_value(s.take(i)) <= decimal_value(s),
    decreases s.len() - i,
{
    if i < s.len() {
        lemma_decimal_value_grows(s, i + 1);
        assert(s.take(i + 1).drop_last() =~= s.take(i));
    } else {
        assert(s.take(i) =~= s);
    }
}

/// Parses `s` as `str::parse::<u64>` does: an optional `+` and one or more
/// ASCII digits, within range.
pub fn parse_u64(s: &str) -> (r: Option<u64>)
    ensures
        match r {
            Some(v) => parse_u64_spec(s@) == Some(v as nat),
            None => parse_u64_spec(s@) is None,
        },
{
    let n = s.unicode_len();
    let start: usize = if n > 0 && s.get_char(0) == '+' { 1 } else { 0 };
    let ghost body = sign_stripped(s@);
    assert(body =~= s@.subrange(start as int, n as int));
    if start == n {
        return None;
    }
    let mut i: usize = start;
    let mut value: u64 = 0;
    while i < n
        invariant
            n == s@.len(),
            start <= i <= n,
            start < n,
            body == s@.subrange(start as int, n as int),
            body == sign_stripped(s@),
            forall|k: int| 0 <= k < i - start ==> is_digit(#[trigger] body[k]),
            value == decimal_value(body.take(i - start)),
        decreases n - i,
    {
        let c = s.get_char(i);
        assert(body[i - start] == c);
        if !('0' <= c && c <= '9') {
            assert(!is_digit(body[i - start]));
            assert(!all_digits(body));
            return None;
        }
        let d = (c as u32 - '0' as u32) as u64;
        proof {
            assert(body.take(i - start + 1).drop_last() =~= body.take(i - start));
            assert(body.take(i - start + 1).last() == c);
        }
        if value > (u64::MAX - d) / 10 {
            proof {
                assert(decimal_value(body.take(i - start + 1)) == value * 10 + d);
                assert(value * 10 + d > u64::MAX) by (nonlinear_arith)
                    requires value > (u64::MAX - d) / 10, d <= 9;
                lemma_decimal_value_grows(body, i - start + 1);
            }
            return None;
        }
        proof {
            assert(value * 10 + d <= u64::MAX) by (nonlinear_arith)
                requires value <= (u64::MAX - d) / 10, d <= 9;
        }
        value = value * 10 + d;
        i = i + 1;
    }
    assert(body.take(n - start) =~= body);
    Some(value)
}

/// Whether `s`, ASCII upper-cased, is `pattern`.
fn upper_matches(s: &str, pattern: &str) -> (r: bool)
    ensures
        r == upper_is(s@, pattern@),
{
    let n = s.unicode_len();
    if n != pattern.unicode_len() {
        return false;
    }
    let mut i: usize = 0;
    while i < n
        invariant
            n == s@.len(),
            n == pattern@.len(),
            0 <= i <= n,
            forall|k: int| 0 <= k < i ==> ascii_upper(#[trigger] s@[k]) == pattern@[k],
        decreases n - i,
    {
        let c = s.get_char(i);
        let p = pattern.get_char(i);
        let same = if 'a' <= c && c <= 'z' {
            (c as u32) - 32 == (p as u32)
        } else {
            c == p
        };
        if !same {
            return false;
        }
        i = i + 1;
    }
    true
}

/// The multiplier of a size suffix, if it is a known one.
fn suffix_multiplier(suffix: &str) -> (r: Option<u64>)
    ensures
        match r {
            Some(m) => multiplier_of(suffix@) == Some(m as nat),
            None => multiplier_of(suffix@) is None,
        },
{
    if upper_matches(suffix, "") || upper_matches(suffix, "B") {
        Some(1)
    } else if upper_matches(suffix, "K") || upper_matches(suffix, "KB") || upper_matches(suffix, "KIB") {
        Some(1024)
    } else if upper_matches(suffix, "M") || upper_matches(suffix, "MB") || upper_matches(suffix, "MIB") {
        Some(1024 * 1024)
    } else if upper_matches(suffix, "G") || upper_matches(suffix, "GB") || upper_matches(suffix, "GIB") {
        Some(1024 * 1024 * 1024)
    } else if upper_matches(suffix, "T") || upper_matches(suffix, "TB") || upper_matches(suffix, "TIB") {
        Some(1024 * 1024 * 1024 * 1024)
    } else {
        None
    }
}

/// The UTF-8 byte length of `t`.
fn utf8_length(t: &str) -> (len: u128)
    ensures
        len == utf8_len(t@),
{
    let n = t.unicode_len();
    let mut j: usize = 0;
    let mut acc: u128 = 0;
    while j < n
        invariant
            n == t@.len(),
            0 <= j <= n,
            acc == utf8_len(t@.take(j as int)),
            acc <= 4 * j,
        decreases n - j,
    {
        proof {
            lemma_utf8_len_step(t@, j as int);
        }
        acc = acc + char_width(t.get_char(j));
        j = j + 1;
    }
    assert(t@.take(n as int) =~= t@);
    acc
}

/// How a size string reads, with its parts as strings.
enum Reading {
    Empty,
    Unsplittable,
    NotANumber(String),
    UnknownSuffix(String),
    Scaled(u64, u64),
}

/// Reads `s` as a size, as [`size_reading`] states.
fn read_size(s: &str) -> (r: Reading)
    ensures
        match (size_reading(s@), r) {
            (SizeReading::Empty, Reading::Empty) => true,
            (SizeReading::Unsplittable, Reading::Unsplittable) => true,
            (SizeReading::NotANumber(d), Reading::NotANumber(x)) => x@ == d,
            (SizeReading::UnknownSuffix(u), Reading::UnknownSuffix(x)) => x@ == u,
            (SizeReading::Scaled(v, m), Reading::Scaled(x, y)) => x == v && y == m,
            _ => false,
        },
{
    let (a, b) = trim_bounds(s);
    if a == b {
        return Reading::Empty;
    }
    let t = s.substring_char(a, b);
    let n = t.unicode_len();
    let k = count_trailing_alphabetic(t);
    let total = utf8_length(t);
    proof {
        lemma_utf8_len_increasing(t@, 0, n as int);
        assert(t@.take(0) =~= Seq::<char>::empty());
        assert(t@.take(n as int) =~= t@);
    }
    let target: u128 = total - k as u128;
    match char_index_at(t, target) {
        None => Reading::Unsplittable,
        Some(j) => {
            let digits = t.substring_char(0, j);
            let suffix = t.substring_char(j, n);
            assert(digits@ == t@.take(j as int));
            assert(suffix@ == t@.skip(j as int));
            let (da, db) = trim_bounds(digits);
            let number = digits.substring_char(da, db);
            match parse_u64(number) {
                None => Reading::NotANumber(digits.to_owned()),
                Some(v) => match suffix_multiplier(suffix) {
                    None => Reading::UnknownSuffix(suffix.to_owned()),
                    Some(m) => Reading::Scaled(v, m),
                },
            }
        },
    }
}

/// Whether parsing `s` as a size would panic (see [`size_parse_panics`]),
/// so that a caller can fail before calling [`parse_size`].
pub fn size_input_panics(s: &str) -> (r: bool)
    ensures
        r == size_parse_panics(s@),
{
    match read_size(s) {
        Reading::Unsplittable => true,
        Reading::Scaled(v, m) => {
            let wide: u128 = v as u128;
            assert(wide * (m as u128) <= 0xffff_ffff_ffff_ffff * 0xffff_ffff_ffff_ffff) by (nonlinear_arith)
                requires wide <= 0xffff_ffff_ffff_ffff, m <= 0xffff_ffff_ffff_ffff;
            wide * (m as u128) > 0xffff_ffff_ffff_ffff
        },
        _ => false,
    }
}

/// Parses a human-readable size such as `100M` or `1G` into bytes: white
/// space around it is ignored, the number is a `u64`, and the suffix is
/// matched without regard to ASCII case.
pub fn parse_size(s: &str) -> (r: Result<u64, SizeError>)
    requires
        !size_parse_panics(s@),
    ensures
        match size_reading(s@) {
            SizeReading::Empty => r matches Err(SizeError::Empty),
            SizeReading::NotANumber(d) => r matches Err(SizeError::NotANumber(x)) && x@ == d,
            SizeReading::UnknownSuffix(u) => r matches Err(SizeError::UnknownSuffix(x)) && x@ == u,
            SizeReading::Scaled(v, m) => r == Ok::<u64, SizeError>((v * m) as u64),
            SizeReading::Unsplittable => false,
        },
{
    match read_size(s) {
        Reading::Empty => Err(SizeError::Empty),
        Reading::Unsplittable => Err(SizeError::Empty),
        Reading::NotANumber(d) => Err(SizeError::NotANumber(d)),
        Reading::UnknownSuffix(u) => Err(SizeError::UnknownSuffix(u)),
        Reading::Scaled(v, m) => {
            assert(v * m <= u64::MAX);
            Ok(v * m)
        },
    }
}

/// Parses `s` as a size where that cannot panic: `None` for the inputs on
/// which [`parse_size`] would panic, else what it returns.
pub fn parse_size_checked(s: &str) -> (r: Option<Result<u64, SizeError>>)
    ensures
        r is None <==> size_parse_panics(s@),
        r matches Some(res) ==> match size_reading(s@) {
            SizeReading::Empty => res matches Err(SizeError::Empty),
            SizeReading::NotANumber(d) => res matches Err(SizeError::NotANumber(x)) && x@ == d,
            SizeReading::UnknownSuffix(u) => res matches Err(SizeError::UnknownSuffix(x)) && x@ == u,
            SizeReading::Scaled(v, m) => res == Ok::<u64, SizeError>((v * m) as u64),
            SizeReading::Unsplittable => false,
        },
{
    if size_input_panics(s) {
        None
    } else {
        Some(parse_size(s))
    }
}

/// Why a `CRATE=BIN` override was rejected.
#[derive(Clone, Copy, Debug, PartialEq, Eq, Structural)]
pub enum OverrideError {
    /// There is no `=`.
    MissingEquals,
    /// Nothing stands before the first `=`.
    EmptyCrate,
    /// Nothing stands after the first `=`.
    EmptyBin,
}

/// The index of the first `=` in `s`, if any.
pub open spec fn first_equals(s: Seq<char>) -> Option<int> {
    if exists|i: int| 0 <= i < s.len() && s[i] == '=' {
        Some(choose|i: int| 0 <= i < s.len() && s[i] == '=' && forall|j: int| 0 <= j < i ==> s[j] != '=')
    } else {
        None
    }
}

/// Parses a `--bin-name CRATE=BIN` value: the crate name is what precedes
/// the first `=`, the binary name what follows it; neither may be empty.
pub fn parse_bin_name_override(s: &str) -> (r: Result<(String, String), OverrideError>)
    ensures
        match first_equals(s@) {
            None => r == Err::<(String, String), OverrideError>(OverrideError::MissingEquals),
            Some(i) => if i == 0 {
                r == Err::<(String, String), OverrideError>(OverrideError::EmptyCrate)
            } else if i == s@.len() - 1 {
                r == Err::<(String, String), OverrideError>(OverrideError::EmptyBin)
            } else {
                r matches Ok((c, b)) && c@ == s@.take(i) && b@ == s@.skip(i + 1)
            },
        },
{
    let n = s.unicode_len();
    let mut i: usize = 0;
    while i < n && s.get_char(i) != '='
        invariant
            n == s@.len(),
            0 <= i <= n,
            forall|j: int| 0 <= j < i ==> s@[j] != '=',
        decreases n - i,
    {
        i = i + 1;
    }
    if i == n {
        return Err(OverrideError::MissingEquals);
    }
    proof {
        let c = choose|k: int| 0 <= k < s@.len() && s@[k] == '=' && forall|j: int| 0 <= j < k ==> s@[j] != '=';
        assert(s@[i as int] == '=');
        if c < i {
        } else if c > i {
            assert(s@[i as int] != '=');
        }
    }
    if i == 0 {
        return Err(OverrideError::EmptyCrate);
    }
    if i == n - 1 {
        return Err(OverrideError::EmptyBin);
    }
    let krate = s.substring_char(0, i).to_owned();
    let bin = s.substring_char(i + 1, n).to_owned();
    Ok((krate, bin))
}


/// 1024 to the power `e`.
pub open spec fn power_of_1024(e: nat) -> nat
    decreases e,
{
    if e == 0 {
        1
    } else {
        1024 * power_of_1024((e - 1) as nat)
    }
}


/// A unit's spellings share its multiplier, in any ASCII case: the unit
/// `"KMGT"[e - 1]` alone, followed by `B`, or followed by `IB` stands for
/// 1024 to the power `e`; nothing or `B` alone stands for 1.
pub proof fn unit_spellings_share_a_multiplier(suffix: Seq<char>, e: nat)
    requires
        1 <= e <= 4,
    ensures
        ({
            let u = "KMGT"@[e - 1];
            upper_is(suffix, seq![u]) || upper_is(suffix, seq![u, 'B']) || upper_is(suffix, seq![u, 'I', 'B'])
        }) ==> multiplier_of(suffix) == Some(power_of_1024(e)),
        upper_is(suffix, Seq::empty()) || upper_is(suffix, seq!['B']) ==> multiplier_of(suffix) == Some(1nat),
{
    reveal_strlit("KMGT");
    reveal_strlit("");
    reveal_strlit("B");
    reveal_strlit("K");
    reveal_strlit("KB");
    reveal_strlit("KIB");
    reveal_strlit("M");
    reveal_strlit("MB");
    reveal_strlit("MIB");
    reveal_strlit("G");
    reveal_strlit("GB");
    reveal_strlit("GIB");
    reveal_strlit("T");
    reveal_strlit("TB");
    reveal_strlit("TIB");
    reveal_with_fuel(power_of_1024, 5);
    assert(""@ =~= Seq::<char>::empty());
    assert("B"@ =~= seq!['B']);
    assert("K"@ =~= seq!['K'] && "KB"@ =~= seq!['K', 'B'] && "KIB"@ =~= seq!['K', 'I', 'B']);
    assert("M"@ =~= seq!['M'] && "MB"@ =~= seq!['M', 'B'] && "MIB"@ =~= seq!['M', 'I', 'B']);
    assert("G"@ =~= seq!['G'] && "GB"@ =~= seq!['G', 'B'] && "GIB"@ =~= seq!['G', 'I', 'B']);
    assert("T"@ =~= seq!['T'] && "TB"@ =~= seq!['T', 'B'] && "TIB"@ =~= seq!['T', 'I', 'B']);
    assert(power_of_1024(1) == 1024);
    assert(power_of_1024(2) == 1024 * 1024);
    assert(power_of_1024(3) == 1024 * 1024 * 1024);
    assert(power_of_1024(4) == 1024 * 1024 * 1024 * 1024);
    let u = "KMGT"@[e - 1];
    assert("KMGT"@ =~= seq!['K', 'M', 'G', 'T']);
    let lits = seq![""@, "B"@, "K"@, "KB"@, "KIB"@, "M"@, "MB"@, "MIB"@, "G"@, "GB"@, "GIB"@, "T"@, "TB"@, "TIB"@];
    assert forall|x: int| 0 <= x < lits.len() implies upper_is(suffix, #[trigger] lits[x]) == (upper_seq(suffix) == lits[x]) by {
        lemma_upper_is_equal(suffix, lits[x]);
    }
    assert(lits[0] == ""@ && lits[1] == "B"@ && lits[2] == "K"@ && lits[3] == "KB"@ && lits[4] == "KIB"@);
    assert(lits[5] == "M"@ && lits[6] == "MB"@ && lits[7] == "MIB"@ && lits[8] == "G"@ && lits[9] == "GB"@);
    assert(lits[10] == "GIB"@ && lits[11] == "T"@ && lits[12] == "TB"@ && lits[13] == "TIB"@);
    assert("B"@[0] == 'B' && "K"@[0] == 'K' && "KB"@[0] == 'K' && "KIB"@[0] == 'K' && "M"@[0] == 'M');
    assert("MB"@[0] == 'M' && "MIB"@[0] == 'M' && "G"@[0] == 'G' && "GB"@[0] == 'G' && "GIB"@[0] == 'G');
    assert("T"@[0] == 'T' && "TB"@[0] == 'T' && "TIB"@[0] == 'T');
    assert("KB"@[1] == 'B' && "MB"@[1] == 'B' && "GB"@[1] == 'B' && "TB"@[1] == 'B');
    assert(seq![u][0] == u && seq![u, 'B'][0] == u && seq![u, 'I', 'B'][0] == u && seq!['B'][0] == 'B');
    assert(seq![u, 'B'][1] == 'B' && seq![u, 'I', 'B'][1] == 'I');
    lemma_upper_is_equal(suffix, seq![u]);
    lemma_upper_is_equal(suffix, seq![u, 'B']);
    lemma_upper_is_equal(suffix, seq![u, 'I', 'B']);
    lemma_upper_is_equal(suffix, Seq::empty());
    lemma_upper_is_equal(suffix, seq!['B']);
    if e == 1 {
        assert(u == 'K');
    } else if e == 2 {
        assert(u == 'M');
    } else if e == 3 {
        assert(u == 'G');
    } else {
        assert(u == 'T');
    }
}

/// `s` upper-cased in ASCII.
pub open spec fn upper_seq(s: Seq<char>) -> Seq<char> {
    Seq::new(s.len(), |i: int| ascii_upper(s[i]))
}

proof fn lemma_upper_is_equal(s: Seq<char>, p: Seq<char>)
    ensures
        upper_is(s, p) == (upper_seq(s) == p),
{
    if upper_is(s, p) {
        assert(upper_seq(s) =~= p);
    }
    if upper_seq(s) == p {
        assert forall|i: int| 0 <= i < s.len() implies ascii_upper(#[trigger] s[i]) == p[i] by {
            assert(upper_seq(s)[i] == ascii_upper(s[i]));
        }
    }
}


} // verus!

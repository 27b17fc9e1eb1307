//! Character-level text utilities shared by the response parsers and the
//! telemetry decoder: splitting on a separator, joining, substring search
//! (exact and ASCII-case-insensitive), digit runs and decimal rendering.
use vstd::prelude::*;

verus! {

/// Index of the first occurrence of `sep` in `s`, or `s.len()` when `sep` is absent.
pub open spec fn first_sep(s: Seq<char>, sep: char) -> int
    decreases s.len(),
{
    if s.len() == 0 {
        0
    } else if s[0] == sep {
        0
    } else {
        1 + first_sep(s.drop_first(), sep)
    }
}

pub proof fn lemma_first_sep(s: Seq<char>, sep: char)
    ensures
        0 <= first_sep(s, sep) <= s.len(),
        first_sep(s, sep) < s.len() ==> s[first_sep(s, sep)] == sep,
        forall|j: int| 0 <= j < first_sep(s, sep) ==> s[j] != sep,
    decreases s.len(),
{
    if s.len() == 0 || s[0] == sep {
    } else {
        lemma_first_sep(s.drop_first(), sep);
        assert forall|j: int| 0 <= j < first_sep(s, sep) implies s[j] != sep by {
            if j > 0 {
                assert(s.drop_first()[j - 1] != sep);
            }
        }
    }
}

/// The segments of `s` delimited by `sep`; there is always at least one
/// segment, and separators are not part of any segment.
pub open spec fn spec_split(s: Seq<char>, sep: char) -> Seq<Seq<char>>
    decreases s.len(),
    via spec_split_decreases
{
    let i = first_sep(s, sep);
    if i == s.len() {
        seq![s]
    } else {
        seq![s.take(i)] + spec_split(s.skip(i + 1), sep)
    }
}

#[via_fn]
proof fn spec_split_decreases(s: Seq<char>, sep: char) {
    lemma_first_sep(s, sep);
}

/// First index at or after `from` holding `sep`.
pub fn find_char(s: &str, from: usize, sep: char) -> (r: Option<usize>)
    requires
        from <= s@.len(),
    ensures
        match r {
            Some(i) => from <= i < s@.len() && s@[i as int] == sep && forall|j: int|
                from <= j < i ==> s@[j] != sep,
            None => forall|j: int| from <= j < s@.len() ==> s@[j] != sep,
        },
{
    let len: usize = s.unicode_len();
    let mut i: usize = from;
    while i < len
        invariant
            from <= i <= len,
            len == s@.len(),
            forall|j: int| from <= j < i ==> s@[j] != sep,
        decreases len - i,
    {
        if s.get_char(i) == sep {
            return Some(i);
        }
        i = i + 1;
    }
    None
}

/// Splits `s` at every occurrence of `sep`, as `spec_split` describes.
pub fn split_on(s: &str, sep: char) -> (r: Vec<String>)
    ensures
        r.deep_view() == spec_split(s@, sep),
        r.len() >= 1,
    decreases s@.len(),
{
    proof {
        lemma_first_sep(s@, sep);
    }
    let len: usize = s.unicode_len();
    match find_char(s, 0, sep) {
        None => {
            let mut v: Vec<String> = Vec::new();
            v.push(String::from_str(s));
            proof {
                assert(first_sep(s@, sep) == s@.len());
                assert(v.deep_view() =~= spec_split(s@, sep));
            }
            v
        },
        Some(i) => {
            let head = s.substring_char(0, i);
            let tail = s.substring_char(i + 1, len);
            let mut rest = split_on(tail, sep);
            rest.insert(0, String::from_str(head));
            proof {
                assert(first_sep(s@, sep) == i);
                assert(rest.deep_view() =~= spec_split(s@, sep));
            }
            rest
        },
    }
}

/// The segments of `parts` concatenated with `sep` between consecutive segments.
pub open spec fn spec_join(parts: Seq<Seq<char>>, sep: Seq<char>) -> Seq<char>
    decreases parts.len(),
{
    if parts.len() == 0 {
        Seq::empty()
    } else if parts.len() == 1 {
        parts[0]
    } else {
        parts[0] + sep + spec_join(parts.drop_first(), sep)
    }
}

fn join_from(parts: &Vec<String>, from: usize, sep: &str) -> (r: String)
    requires
        from <= parts.len(),
    ensures
        r@ == spec_join(parts.deep_view().skip(from as int), sep@),
    decreases parts.len() - from,
{
    if from == parts.len() {
        String::new()
    } else if from + 1 == parts.len() {
        let r = parts[from].clone();
        proof {
            assert(parts.deep_view().skip(from as int) =~= seq![parts[from as int]@]);
        }
        r
    } else {
        let mut out = parts[from].clone();
        out.append(sep);
        let rest = join_from(parts, from + 1, sep);
        out.append(rest.as_str());
        proof {
            let suffix = parts.deep_view().skip(from as int);
            assert(suffix.drop_first() =~= parts.deep_view().skip(from + 1));
            assert(suffix[0] == parts[from as int]@);
        }
        out
    }
}

/// Joins the segments with `sep` between them, as `spec_join` describes.
pub fn join(parts: &Vec<String>, sep: &str) -> (r: String)
    ensures
        r@ == spec_join(parts.deep_view(), sep@),
{
    let r = join_from(parts, 0, sep);
    proof {
        assert(parts.deep_view().skip(0) =~= parts.deep_view());
    }
    r
}

/// `n` occurs in `h` starting exactly at index `i`.
pub open spec fn contains_at(h: Seq<char>, n: Seq<char>, i: int) -> bool {
    0 <= i && i + n.len() <= h.len() && h.subrange(i, i + n.len()) == n
}

/// `n` occurs somewhere in `h`.
pub open spec fn contains_seq(h: Seq<char>, n: Seq<char>) -> bool {
    exists|i: int| contains_at(h, n, i)
}

fn match_at(h: &str, n: &str, i: usize, h_len: usize, n_len: usize) -> (r: bool)
    requires
        h_len == h@.len(),
        n_len == n@.len(),
        i + n_len <= h_len,
    ensures
        r == contains_at(h@, n@, i as int),
{
    let mut j: usize = 0;
    while j < n_len
        invariant
            0 <= j <= n_len,
            h_len == h@.len(),
            n_len == n@.len(),
            i + n_len <= h_len,
            forall|k: int| 0 <= k < j ==> h@[i + k] == n@[k],
        decreases n_len - j,
    {
        if s_get(h, i + j) != s_get(n, j) {
            proof {
                assert(h@.subrange(i as int, i + n@.len())[j as int] != n@[j as int]);
            }
            return false;
        }
        j = j + 1;
    }
    proof {
        assert(h@.subrange(i as int, i + n@.len()) =~= n@);
    }
    true
}

fn s_get(s: &str, i: usize) -> (c: char)
    requires
        i < s@.len(),
    ensures
        c == s@[i as int],
{
    s.get_char(i)
}

/// Substring search: true exactly when `n` occurs somewhere in `h`.
pub fn contains_str(h: &str, n: &str) -> (r: bool)
    ensures
        r == contains_seq(h@, n@),
{
    let h_len: usize = h.unicode_len();
    let n_len: usize = n.unicode_len();
    if n_len > h_len {
        proof {
            assert(forall|i: int| !contains_at(h@, n@, i));
        }
        return false;
    }
    if n_len == 0 {
        proof {
            assert(h@.subrange(0, 0) =~= n@);
            assert(contains_at(h@, n@, 0));
        }
        return true;
    }
    let mut i: usize = 0;
    while i <= h_len - n_len
        invariant
            h_len == h@.len(),
            n_len == n@.len(),
            1 <= n_len <= h_len,
            0 <= i <= h_len - n_len + 1,
            forall|k: int| 0 <= k < i ==> !contains_at(h@, n@, k),
        decreases h_len - n_len + 1 - i,
    {
        if match_at(h, n, i, h_len, n_len) {
            return true;
        }
        i = i + 1;
    }
    proof {
        assert(forall|k: int| contains_at(h@, n@, k) ==> 0 <= k <= h@.len() - n@.len());
    }
    false
}

/// ASCII-lowercased code point of `c`: letters `A` through `Z` map to their
/// lower-case forms, every other character is unchanged.
pub open spec fn lower_code(c: char) -> int {
    if 65 <= c as int <= 90 {
        c as int + 32
    } else {
        c as int
    }
}

/// ASCII-case-insensitive character equality.
pub open spec fn ci_eq(a: char, b: char) -> bool {
    lower_code(a) == lower_code(b)
}

fn ci_eq_exec(a: char, b: char) -> (r: bool)
    ensures
        r == ci_eq(a, b),
{
    let x: u32 = a as u32;
    let y: u32 = b as u32;
    let xl: u32 = if 65 <= x && x <= 90 {
        x + 32
    } else {
        x
    };
    let yl: u32 = if 65 <= y && y <= 90 {
        y + 32
    } else {
        y
    };
    xl == yl
}

/// `n` occurs in `h` at index `i` up to ASCII case.
pub open spec fn ci_contains_at(h: Seq<char>, n: Seq<char>, i: int) -> bool {
    0 <= i && i + n.len() <= h.len() && forall|k: int| 0 <= k < n.len() ==> ci_eq(h[i + k], n[k])
}

/// `n` occurs somewhere in `h` up to ASCII case.
pub open spec fn ci_contains(h: Seq<char>, n: Seq<char>) -> bool {
    exists|i: int| ci_contains_at(h, n, i)
}

fn ci_match_at(h: &str, n: &str, i: usize, h_len: usize, n_len: usize) -> (r: bool)
    requires
        h_len == h@.len(),
        n_len == n@.len(),
        i + n_len <= h_len,
    ensures
        r == ci_contains_at(h@, n@, i as int),
{
    let mut j: usize = 0;
    while j < n_len
        invariant
            0 <= j <= n_len,
            h_len == h@.len(),
            n_len == n@.len(),
            i + n_len <= h_len,
            forall|k: int| 0 <= k < j ==> ci_eq(h@[i + k], n@[k]),
        decreases n_len - j,
    {
        if !ci_eq_exec(s_get(h, i + j), s_get(n, j)) {
            return false;
        }
        j = j + 1;
    }
    true
}

/// ASCII-case-insensitive substring search.
pub fn ci_contains_str(h: &str, n: &str) -> (r: bool)
    ensures
        r == ci_contains(h@, n@),
{
    let h_len: usize = h.unicode_len();
    let n_len: usize = n.unicode_len();
    if n_len > h_len {
        proof {
            assert(forall|i: int| !ci_contains_at(h@, n@, i));
        }
        return false;
    }
    if n_len == 0 {
        proof {
            assert(ci_contains_at(h@, n@, 0));
        }
        return true;
    }
    let mut i: usize = 0;
    while i <= h_len - n_len
        invariant
            h_len == h@.len(),
            n_len == n@.len(),
            1 <= n_len <= h_len,
            0 <= i <= h_len - n_len + 1,
            forall|k: int| 0 <= k < i ==> !ci_contains_at(h@, n@, k),
        decreases h_len - n_len + 1 - i,
    {
        if ci_match_at(h, n, i, h_len, n_len) {
            return true;
        }
        i = i + 1;
    }
    proof {
        assert(forall|k: int| ci_contains_at(h@, n@, k) ==> 0 <= k <= h@.len() - n@.len());
    }
    false
}

/// Decimal digit test.
pub open spec fn is_digit(c: char) -> bool {
    48 <= c as int <= 57
}

/// Numeric value of a decimal digit character.
pub open spec fn digit_val(c: char) -> int {
    c as int - 48
}

/// Every character of `s` in `[a, b)` is a decimal digit.
pub open spec fn all_digits(s: Seq<char>, a: int, b: int) -> bool {
    forall|j: int| a <= j < b ==> is_digit(s[j])
}

pub fn is_digit_exec(c: char) -> (r: bool)
    ensures
        r == is_digit(c),
{
    let u: u32 = c as u32;
    48 <= u && u <= 57
}

/// Length of the run of decimal digits in `s` starting at `from`.
pub fn digit_run(s: &str, from: usize, len: usize) -> (n: usize)
    requires
        len == s@.len(),
        from <= len,
    ensures
        from + n <= len,
        all_digits(s@, from as int, from + n),
        from + n < len ==> !is_digit(s@[from + n]),
        from + n == len || !is_digit(s@[from + n]),
{
    let mut i: usize = from;
    while i < len
        invariant
            from <= i <= len,
            len == s@.len(),
            all_digits(s@, from as int, i as int),
        decreases len - i,
    {
        if !is_digit_exec(s.get_char(i)) {
            return i - from;
        }
        i = i + 1;
    }
    len - from
}

/// Value of the decimal digit string `s` (most significant digit first).
pub open spec fn digits_value(s: Seq<char>) -> int
    decreases s.len(),
{
    if s.len() == 0 {
        0
    } else {
        digits_value(s.drop_last()) * 10 + digit_val(s.last())
    }
}

/// The value of a digit string never shrinks as more digits are appended.
pub proof fn lemma_digits_value_prefix(s: Seq<char>, i: int)
    requires
        0 <= i <= s.len(),
        all_digits(s, 0, s.len() as int),
    ensures
        digits_value(s.take(i)) <= digits_value(s),
    decreases s.len() - i,
{
    if i < s.len() {
        lemma_digits_value_prefix(s, i + 1);
        assert(s.take(i + 1).drop_last() =~= s.take(i));
        assert(s.take(i + 1).last() == s[i]);
        assert(digits_value(s.take(i)) >= 0) by {
            lemma_digits_value_nonneg(s.take(i));
        }
        assert(digits_value(s.take(i + 1)) >= digits_value(s.take(i))) by {
            assert(digit_val(s[i]) >= 0);
        }
    } else {
        assert(s.take(i) =~= s);
    }
}

pub proof fn lemma_digits_value_nonneg(s: Seq<char>)
    requires
        all_digits(s, 0, s.len() as int),
    ensures
        digits_value(s) >= 0,
    decreases s.len(),
{
    if s.len() > 0 {
        assert(all_digits(s.drop_last(), 0, s.drop_last().len() as int));
        lemma_digits_value_nonneg(s.drop_last());
    }
}

/// Parses the digit characters `s[from..to]` as a decimal number; `None`
/// exactly when the value exceeds `u64::MAX`.
pub fn parse_digits(s: &str, from: usize, to: usize) -> (r: Option<u64>)
    requires
        from <= to <= s@.len(),
        all_digits(s@, from as int, to as int),
    ensures
        match r {
            Some(v) => v == digits_value(s@.subrange(from as int, to as int)),
            None => digits_value(s@.subrange(from as int, to as int)) > u64::MAX,
        },
{
    let ghost whole = s@.subrange(from as int, to as int);
    proof {
        assert(all_digits(whole, 0, whole.len() as int));
    }
    let mut acc: u64 = 0;
    let mut i: usize = from;
    while i < to
        invariant
            from <= i <= to <= s@.len(),
            whole == s@.subrange(from as int, to as int),
            all_digits(whole, 0, whole.len() as int),
            acc == digits_value(whole.take(i - from)),
        decreases to - i,
    {
        let c = s.get_char(i);
        proof {
            assert(whole[i - from] == s@[i as int]);
            assert(is_digit(s@[i as int]));
        }
        let d: u64 = (c as u32 as u64) - 48;
        if acc > (u64::MAX - d) / 10 {
            proof {
                assert(whole.take(i - from + 1).drop_last() =~= whole.take(i - from));
                assert(whole.take(i - from + 1).last() == whole[i - from]);
                assert(digits_value(whole.take(i - from + 1)) > u64::MAX);
                lemma_digits_value_prefix(whole, i - from + 1);
            }
            return None;
        }
        acc = acc * 10 + d;
        proof {
            assert(whole.take(i + 1 - from).drop_last() =~= whole.take(i - from));
            assert(whole.take(i + 1 - from).last() == whole[i - from]);
        }
        i = i + 1;
    }
    proof {
        assert(whole.take(to - from) =~= whole);
    }
    Some(acc)
}

/// The decimal digit character for `d`.
pub open spec fn digit_char(d: int) -> char {
    if d == 0 {
        '0'
    } else if d == 1 {
        '1'
    } else if d == 2 {
        '2'
    } else if d == 3 {
        '3'
    } else if d == 4 {
        '4'
    } else if d == 5 {
        '5'
    } else if d == 6 {
        '6'
    } else if d == 7 {
        '7'
    } else if d == 8 {
        '8'
    } else {
        '9'
    }
}

/// Decimal rendering of `n`, most significant digit first, no leading zeros
/// (a single `0` for zero).
pub open spec fn spec_dec(n: nat) -> Seq<char>
    decreases n,
{
    if n < 10 {
        seq![digit_char(n as int)]
    } else {
        spec_dec(n / 10).push(digit_char((n % 10) as int))
    }
}

fn digit_str(d: u64) -> (r: &'static str)
    requires
        d < 10,
    ensures
        r@ == seq![digit_char(d as int)],
{
    let r = if d == 0 {
        "0"
    } else if d == 1 {
        "1"
    } else if d == 2 {
        "2"
    } else if d == 3 {
        "3"
    } else if d == 4 {
        "4"
    } else if d == 5 {
        "5"
    } else if d == 6 {
        "6"
    } else if d == 7 {
        "7"
    } else if d == 8 {
        "8"
    } else {
        "9"
    };
    proof {
        reveal_strlit("0");
        reveal_strlit("1");
        reveal_strlit("2");
        reveal_strlit("3");
        reveal_strlit("4");
        reveal_strlit("5");
        reveal_strlit("6");
        reveal_strlit("7");
        reveal_strlit("8");
        reveal_strlit("9");
        assert(r@ =~= seq![digit_char(d as int)]);
    }
    r
}

/// Renders `n` in decimal, as `spec_dec` describes.
pub fn u64_to_dec(n: u64) -> (r: String)
    ensures
        r@ == spec_dec(n as nat),
    decreases n,
{
    if n < 10 {
        String::from_str(digit_str(n))
    } else {
        let mut head = u64_to_dec(n / 10);
        head.append(digit_str(n % 10));
        proof {
            assert(head@ =~= spec_dec((n / 10) as nat).push(digit_char((n % 10) as int)));
        }
        head
    }
}

} // verus!

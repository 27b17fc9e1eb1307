//! Telemetry decoder: parses line-oriented key/value memory-statistics text
//! (`MemTotal:  16384000 kB` and its siblings) into a `MemInfo` record.
//!
//! The policy is lenient on shape: a line whose tail is not `<digits> kB`,
//! or whose key is none of the known five, is ignored without error, and a
//! missing key leaves its field at zero. A matched count too large for 64
//! bits is an error.
use crate::text::{
    all_digits, ci_contains, ci_contains_str, digits_value, is_digit, is_digit_exec, parse_digits,
    spec_split, split_on,
};
use crate::RconError;
use vstd::prelude::*;

verus! {

/// Memory statistics in kilobyte counts, as the kernel reports them.
#[derive(Debug, Clone, Copy, PartialEq, Eq, Structural)]
pub struct MemInfo {
    pub mem_total: u64,
    pub mem_free: u64,
    pub mem_available: u64,
    pub buffers: u64,
    pub cached: u64,
}

/// The record with every field at zero, the starting point of parsing.
pub open spec fn zero_meminfo() -> MemInfo {
    MemInfo { mem_total: 0, mem_free: 0, mem_available: 0, buffers: 0, cached: 0 }
}

impl Default for MemInfo {
    /// The all-zero record.
    fn default() -> (r: Self)
        ensures
            r == zero_meminfo(),
    {
        MemInfo { mem_total: 0, mem_free: 0, mem_available: 0, buffers: 0, cached: 0 }
    }
}

impl MemInfo {
    /// Used memory, derived as total minus available; absent when available
    /// exceeds total.
    pub fn used(&self) -> (r: Option<u64>)
        ensures
            r is Some <==> self.mem_available <= self.mem_total,
            r matches Some(u) ==> u == self.mem_total - self.mem_available,
    {
        if self.mem_available <= self.mem_total {
            Some(self.mem_total - self.mem_available)
        } else {
            None
        }
    }
}

/// The field a matched line assigns to.
pub enum MemKey {
    Total,
    Free,
    Available,
    Buffers,
    Cached,
}

/// Width of the run of decimal digits that ends exactly at index `e`.
pub open spec fn run_back(s: Seq<char>, e: int) -> int
    decreases e,
{
    if e <= 0 {
        0
    } else if 0 < e <= s.len() && is_digit(s[e - 1]) {
        1 + run_back(s, e - 1)
    } else {
        0
    }
}

/// A maximal digit run `[j, e)` pins `run_back` down.
proof fn lemma_run_back(s: Seq<char>, e: int, j: int)
    requires
        0 <= j <= e <= s.len(),
        all_digits(s, j, e),
        j == 0 || !is_digit(s[j - 1]),
    ensures
        run_back(s, e) == e - j,
    decreases e - j,
{
    if e > j {
        lemma_run_back(s, e - 1, j);
    }
}

/// The line carries a byte count: it ends in `<digits> kB` with at least
/// one digit.
pub open spec fn line_has_count(line: Seq<char>) -> bool {
    let n = line.len() as int;
    n >= 4 && line[n - 3] == ' ' && line[n - 2] == 'k' && line[n - 1] == 'B' && is_digit(
        line[n - 4],
    )
}

/// The digits the count pattern matches: the digit run before ` kB`, at
/// most its last 99 digits.
pub open spec fn count_digits(line: Seq<char>) -> Seq<char> {
    let n = line.len() as int;
    let r = run_back(line, n - 3);
    let w = if r > 99 {
        99
    } else {
        r
    };
    line.subrange(n - 3 - w, n - 3)
}

/// The byte count a matched line declares.
pub open spec fn line_count_value(line: Seq<char>) -> int {
    digits_value(count_digits(line))
}

/// The field a line's key selects, tested ASCII-case-insensitively. The
/// `Cached` key deliberately rejects lines that carry `SwapCached`.
pub open spec fn line_key(line: Seq<char>) -> Option<MemKey> {
    if ci_contains(line, "memtotal:"@) {
        Some(MemKey::Total)
    } else if ci_contains(line, "memfree:"@) {
        Some(MemKey::Free)
    } else if ci_contains(line, "memavailable:"@) {
        Some(MemKey::Available)
    } else if ci_contains(line, "buffers:"@) {
        Some(MemKey::Buffers)
    } else if ci_contains(line, "cached:"@) && !ci_contains(line, "swapcached:"@) {
        Some(MemKey::Cached)
    } else {
        None
    }
}

/// `m` with the field `k` set to `v`.
pub open spec fn set_key(m: MemInfo, k: MemKey, v: u64) -> MemInfo {
    match k {
        MemKey::Total => MemInfo { mem_total: v, ..m },
        MemKey::Free => MemInfo { mem_free: v, ..m },
        MemKey::Available => MemInfo { mem_available: v, ..m },
        MemKey::Buffers => MemInfo { buffers: v, ..m },
        MemKey::Cached => MemInfo { cached: v, ..m },
    }
}

/// The effect of one line: ignored without a count pattern or a known key;
/// otherwise its count is assigned to its key's field, and a count beyond
/// 64 bits is an error (`None`).
pub open spec fn apply_line(m: MemInfo, line: Seq<char>) -> Option<MemInfo> {
    if !line_has_count(line) {
        Some(m)
    } else {
        match line_key(line) {
            None => Some(m),
            Some(k) => if line_count_value(line) > u64::MAX {
                None
            } else {
                Some(set_key(m, k, line_count_value(line) as u64))
            },
        }
    }
}

/// The lines folded in order over `apply_line`.
pub open spec fn spec_meminfo_lines(lines: Seq<Seq<char>>, m: MemInfo) -> Option<MemInfo>
    decreases lines.len(),
{
    if lines.len() == 0 {
        Some(m)
    } else {
        match apply_line(m, lines[0]) {
            None => None,
            Some(m2) => spec_meminfo_lines(lines.drop_first(), m2),
        }
    }
}

/// The record that memory-statistics text parses to, starting from the
/// all-zero record; `None` when some matched line's count overflows.
pub open spec fn spec_parse_meminfo(text: Seq<char>) -> Option<MemInfo> {
    spec_meminfo_lines(spec_split(text, '\n'), zero_meminfo())
}

/// One line's effect, executably: `Ok` with the updated record, `Err` on a
/// matched count beyond 64 bits.
fn apply_line_exec(m: MemInfo, line: &str) -> (r: Result<MemInfo, RconError>)
    ensures
        r matches Ok(m2) ==> apply_line(m, line@) == Some(m2),
        r is Err ==> apply_line(m, line@) is None,
        r matches Err(e) ==> e == RconError::Parse,
{
    let n = line.unicode_len();
    if !(n >= 4 && line.get_char(n - 3) == ' ' && line.get_char(n - 2) == 'k' && line.get_char(
        n - 1,
    ) == 'B' && is_digit_exec(line.get_char(n - 4))) {
        return Ok(m);
    }
    let e = n - 3;
    let mut w: usize = 0;
    while w < e && is_digit_exec(line.get_char(e - w - 1))
        invariant
            0 <= w <= e <= line@.len(),
            e == line@.len() - 3,
            all_digits(line@, e - w, e as int),
        decreases e - w,
    {
        w = w + 1;
    }
    proof {
        lemma_run_back(line@, e as int, e - w);
        assert(run_back(line@, e as int) == w);
    }
    let cap: usize = if w > 99 {
        99
    } else {
        w
    };
    proof {
        assert(line@.subrange(e - cap, e as int) == count_digits(line@));
    }
    let key: Option<MemKey> = if ci_contains_str(line, "memtotal:") {
        Some(MemKey::Total)
    } else if ci_contains_str(line, "memfree:") {
        Some(MemKey::Free)
    } else if ci_contains_str(line, "memavailable:") {
        Some(MemKey::Available)
    } else if ci_contains_str(line, "buffers:") {
        Some(MemKey::Buffers)
    } else if ci_contains_str(line, "cached:") && !ci_contains_str(line, "swapcached:") {
        Some(MemKey::Cached)
    } else {
        None
    };
    match key {
        None => Ok(m),
        Some(k) => {
            match parse_digits(line, e - cap, e) {
                None => Err(RconError::Parse),
                Some(v) => Ok(
                    match k {
                        MemKey::Total => MemInfo { mem_total: v, ..m },
                        MemKey::Free => MemInfo { mem_free: v, ..m },
                        MemKey::Available => MemInfo { mem_available: v, ..m },
                        MemKey::Buffers => MemInfo { buffers: v, ..m },
                        MemKey::Cached => MemInfo { cached: v, ..m },
                    },
                ),
            }
        },
    }
}

/// Parses memory-statistics text, as `spec_parse_meminfo` describes.
pub fn parse_meminfo(text: &str) -> (r: Result<MemInfo, RconError>)
    ensures
        r matches Ok(m) ==> spec_parse_meminfo(text@) == Some(m),
        r is Err <==> spec_parse_meminfo(text@) is None,
        r matches Err(e) ==> e == RconError::Parse,
{
    let lines = split_on(text, '\n');
    let ghost whole = lines.deep_view();
    let mut m = MemInfo { mem_total: 0, mem_free: 0, mem_available: 0, buffers: 0, cached: 0 };
    let mut i: usize = 0;
    proof {
        assert(whole.skip(0) =~= whole);
    }
    while i < lines.len()
        invariant
            0 <= i <= lines.len(),
            whole == lines.deep_view(),
            whole == spec_split(text@, '\n'),
            whole.len() == lines.len(),
            spec_meminfo_lines(whole, zero_meminfo()) == spec_meminfo_lines(
                whole.skip(i as int),
                m,
            ),
        decreases lines.len() - i,
    {
        proof {
            assert(whole.skip(i as int)[0] == whole[i as int]);
            assert(whole.skip(i as int).drop_first() =~= whole.skip(i + 1));
            assert(whole[i as int] == lines[i as int]@);
        }
        match apply_line_exec(m, lines[i].as_str()) {
            Ok(m2) => {
                m = m2;
            },
            Err(e) => {
                proof {
                    assert(apply_line(m, whole.skip(i as int)[0]) is None);
                    assert(spec_meminfo_lines(whole.skip(i as int), m) is None);
                }
                return Err(e);
            },
        }
        i = i + 1;
    }
    proof {
        assert(whole.skip(lines.len() as int) =~= Seq::<Seq<char>>::empty());
    }
    Ok(m)
}

} // verus!

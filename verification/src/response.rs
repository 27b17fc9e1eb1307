//! Parsers for the server's semi-structured text replies, and the builders
//! of the command strings that elicit them: the player roster, the bracketed
//! version string, the save and shutdown acknowledgement markers, and the
//! broadcast message rewriting.
use crate::text::{
    all_digits, contains_seq, contains_str, digit_run, is_digit, join, spec_dec, spec_join,
    spec_split, split_on, u64_to_dec,
};
use crate::RconError;
use vstd::prelude::*;

verus! {

/// One row of the player roster.
#[derive(Debug)]
pub struct PlayerInfo {
    /// Player's name.
    pub name: String,
    /// Player's unique id inside the server.
    pub uid: String,
    /// Player's Steam id.
    pub steamid: String,
}

/// Mathematical image of a `PlayerInfo`.
pub struct SpecPlayerInfo {
    pub name: Seq<char>,
    pub uid: Seq<char>,
    pub steamid: Seq<char>,
}

impl View for PlayerInfo {
    type V = SpecPlayerInfo;

    open spec fn view(&self) -> SpecPlayerInfo {
        SpecPlayerInfo { name: self.name@, uid: self.uid@, steamid: self.steamid@ }
    }
}

impl DeepView for PlayerInfo {
    type V = SpecPlayerInfo;

    open spec fn deep_view(&self) -> SpecPlayerInfo {
        self.view()
    }
}

/// The record a roster line yields: `Some` exactly for a well-formed line of
/// three comma-separated fields.
pub open spec fn roster_row(line: Seq<char>) -> Option<SpecPlayerInfo> {
    let fields = spec_split(line, ',');
    if fields.len() == 3 {
        Some(SpecPlayerInfo { name: fields[0], uid: fields[1], steamid: fields[2] })
    } else {
        None
    }
}

/// `roster_row` as a first-class function, shared by spec and proof sites.
pub open spec fn roster_row_fn() -> spec_fn(Seq<char>) -> Option<SpecPlayerInfo> {
    |line: Seq<char>| roster_row(line)
}

/// The records of a roster reply: every line after the header line, in
/// original order, that splits into exactly three fields; malformed lines
/// and the header are dropped silently.
pub open spec fn spec_parse_roster(text: Seq<char>) -> Seq<SpecPlayerInfo> {
    spec_split(text, '\n').skip(1).filter_map(roster_row_fn())
}

/// Parses a roster reply, as `spec_parse_roster` describes. A reply in which
/// no line is well formed yields an empty roster, which is a valid result.
pub fn parse_player_roster(text: &str) -> (r: Vec<PlayerInfo>)
    ensures
        r.deep_view() == spec_parse_roster(text@),
{
    let lines = split_on(text, '\n');
    let ghost lseq = lines.deep_view().skip(1);
    let mut out: Vec<PlayerInfo> = Vec::new();
    let mut i: usize = 1;
    proof {
        assert(lseq.take(0) =~= Seq::<Seq<char>>::empty());
        assert(out.deep_view() =~= lseq.take(0).filter_map(roster_row_fn()));
    }
    while i < lines.len()
        invariant
            1 <= i,
            i <= lines.len() || i == 1,
            lines.len() >= 1,
            lines.deep_view() == spec_split(text@, '\n'),
            lseq == lines.deep_view().skip(1),
            out.deep_view() == lseq.take(i - 1).filter_map(roster_row_fn()),
        decreases lines.len() - i,
    {
        let fields = split_on(lines[i].as_str(), ',');
        proof {
            assert(lines.deep_view()[i as int] == lines[i as int]@);
            assert(lseq[i - 1] == lines.deep_view()[i as int]);
            lseq.lemma_filter_map_take_succ(roster_row_fn(), i - 1);
            assert(fields.deep_view() == spec_split(lines[i as int]@, ','));
        }
        if fields.len() == 3 {
            let rec = PlayerInfo {
                name: fields[0].clone(),
                uid: fields[1].clone(),
                steamid: fields[2].clone(),
            };
            out.push(rec);
            proof {
                assert(rec@ == roster_row(lseq[i - 1])->0);
                assert(out.deep_view() =~= lseq.take(i as int).filter_map(roster_row_fn()));
            }
        } else {
            proof {
                assert(roster_row(lseq[i - 1]) is None);
                assert(out.deep_view() =~= lseq.take(i as int).filter_map(roster_row_fn()));
            }
        }
        i = i + 1;
    }
    proof {
        if lines.len() >= 1 {
            assert(lseq.take(lines.len() - 1) =~= lseq);
        }
    }
    out
}

/// `filter_map` distributes over concatenation.
proof fn lemma_filter_map_add<A, B>(a: Seq<A>, b: Seq<A>, f: spec_fn(A) -> Option<B>)
    ensures
        (a + b).filter_map(f) == a.filter_map(f) + b.filter_map(f),
    decreases b.len(),
{
    if b.len() == 0 {
        assert(a + b =~= a);
        assert(b.filter_map(f) =~= Seq::<B>::empty());
        assert(a.filter_map(f) + b.filter_map(f) =~= a.filter_map(f));
    } else {
        lemma_filter_map_add(a, b.drop_last(), f);
        assert((a + b).drop_last() =~= a + b.drop_last());
        assert((a + b).last() == b.last());
        match f(b.last()) {
            Some(y) => {
                assert((a + b).filter_map(f) =~= a.filter_map(f) + b.filter_map(f));
            },
            None => {
                assert((a + b).filter_map(f) =~= a.filter_map(f) + b.filter_map(f));
            },
        }
    }
}

/// A malformed line is ignored wherever it stands among the roster rows:
/// parsing the rows with it present yields exactly what parsing the rows
/// without it yields.
pub proof fn lemma_roster_ignores_malformed(a: Seq<Seq<char>>, x: Seq<char>, b: Seq<Seq<char>>)
    requires
        roster_row(x) is None,
    ensures
        (a + seq![x] + b).filter_map(roster_row_fn()) == (a + b).filter_map(roster_row_fn()),
{
    let f = roster_row_fn();
    lemma_filter_map_add(a + seq![x], b, f);
    lemma_filter_map_add(a, seq![x], f);
    lemma_filter_map_add(a, b, f);
    Seq::<Seq<char>>::lemma_filter_map_singleton(x, f);
    assert((a + seq![x] + b).filter_map(f) =~= (a + b).filter_map(f));
}

/// A well-formed line contributes exactly one record, standing between the
/// records of the rows before it and those of the rows after it: parsing
/// keeps every well-formed row, in original order.
pub proof fn lemma_roster_keeps_wellformed(
    a: Seq<Seq<char>>,
    x: Seq<char>,
    rec: SpecPlayerInfo,
    b: Seq<Seq<char>>,
)
    requires
        roster_row(x) == Some(rec),
    ensures
        (a + seq![x] + b).filter_map(roster_row_fn()) == a.filter_map(roster_row_fn()) + seq![rec]
            + b.filter_map(roster_row_fn()),
{
    let f = roster_row_fn();
    lemma_filter_map_add(a + seq![x], b, f);
    lemma_filter_map_add(a, seq![x], f);
    Seq::<Seq<char>>::lemma_filter_map_singleton(x, f);
    assert((a + seq![x] + b).filter_map(f) =~= a.filter_map(f) + seq![rec] + b.filter_map(f));
}

/// A version string stands at `i` with component widths `d1` through `d4`:
/// a `[`, a `v`, four dot-separated runs of one to nine digits, and a `]`.
pub open spec fn version_span(s: Seq<char>, i: int, d1: int, d2: int, d3: int, d4: int) -> bool {
    &&& 1 <= d1 <= 9
    &&& 1 <= d2 <= 9
    &&& 1 <= d3 <= 9
    &&& 1 <= d4 <= 9
    &&& 0 <= i
    &&& i + d1 + d2 + d3 + d4 + 6 <= s.len()
    &&& s[i] == '['
    &&& s[i + 1] == 'v'
    &&& all_digits(s, i + 2, i + 2 + d1)
    &&& s[i + 2 + d1] == '.'
    &&& all_digits(s, i + 3 + d1, i + 3 + d1 + d2)
    &&& s[i + 3 + d1 + d2] == '.'
    &&& all_digits(s, i + 4 + d1 + d2, i + 4 + d1 + d2 + d3)
    &&& s[i + 4 + d1 + d2 + d3] == '.'
    &&& all_digits(s, i + 5 + d1 + d2 + d3, i + 5 + d1 + d2 + d3 + d4)
    &&& s[i + 5 + d1 + d2 + d3 + d4] == ']'
}

/// A version string starts at index `i` of `s`.
pub open spec fn version_match_at(s: Seq<char>, i: int) -> bool {
    exists|d1: int, d2: int, d3: int, d4: int| version_span(s, i, d1, d2, d3, d4)
}

/// `s` holds a bracketed four-component version string somewhere.
pub open spec fn has_version(s: Seq<char>) -> bool {
    exists|i: int| version_match_at(s, i)
}

/// One stage of the version pattern: a run of one to nine digits starting at
/// `a`, followed directly by the character `expected`. Returns the run width
/// exactly when the stage matches.
fn run_then(s: &str, a: usize, len: usize, expected: char) -> (r: Option<usize>)
    requires
        len == s@.len(),
        a <= len,
        !is_digit(expected),
    ensures
        match r {
            Some(d) => 1 <= d <= 9 && a + d < len && all_digits(s@, a as int, a + d) && s@[a + d]
                == expected,
            None => forall|d: int|
                1 <= d <= 9 ==> !(a + d < s@.len() && #[trigger] all_digits(s@, a as int, a + d)
                    && s@[a + d] == expected),
        },
{
    let run = digit_run(s, a, len);
    if run == 0 || run > 9 {
        proof {
            assert forall|d: int|
                1 <= d <= 9 && a + d < s@.len() && #[trigger] all_digits(s@, a as int, a + d)
                    implies s@[a + d] != expected by {
                if run == 0 {
                    assert(is_digit(s@[a as int]));
                } else {
                    assert(is_digit(s@[a + d]));
                }
            }
        }
        return None;
    }
    if a + run >= len {
        proof {
            assert forall|d: int|
                1 <= d <= 9 && a + d < s@.len() && #[trigger] all_digits(s@, a as int, a + d)
                    implies s@[a + d] != expected by {
                if d < run {
                    assert(is_digit(s@[a + d]));
                } else {
                    assert(is_digit(s@[a + run]));
                }
            }
        }
        return None;
    }
    if s.get_char(a + run) == expected {
        Some(run)
    } else {
        proof {
            assert forall|d: int|
                1 <= d <= 9 && a + d < s@.len() && #[trigger] all_digits(s@, a as int, a + d)
                    implies s@[a + d] != expected by {
                if d < run {
                    assert(is_digit(s@[a + d]));
                } else if d > run {
                    assert(is_digit(s@[a + run]));
                }
            }
        }
        None
    }
}

/// Two digit runs from the same start, each ending at a non-digit, have the
/// same width.
proof fn lemma_run_width_unique(s: Seq<char>, a: int, d1: int, d2: int)
    requires
        0 <= a,
        1 <= d1,
        1 <= d2,
        a + d1 < s.len(),
        a + d2 < s.len(),
        all_digits(s, a, a + d1),
        all_digits(s, a, a + d2),
        !is_digit(s[a + d1]),
        !is_digit(s[a + d2]),
    ensures
        d1 == d2,
{
    if d1 < d2 {
        assert(is_digit(s[a + d1]));
    } else if d2 < d1 {
        assert(is_digit(s[a + d2]));
    }
}

/// Decides whether a version string starts at `i`, returning the index one
/// past its closing bracket when it does.
fn check_version_at(s: &str, i: usize, len: usize) -> (r: Option<usize>)
    requires
        len == s@.len(),
        i < len,
    ensures
        match r {
            Some(e) => exists|d1: int, d2: int, d3: int, d4: int|
                version_span(s@, i as int, d1, d2, d3, d4) && e == i + d1 + d2 + d3 + d4 + 6,
            None => !version_match_at(s@, i as int),
        },
{
    proof {
        assert(!is_digit('.'));
        assert(!is_digit(']'));
        assert(!is_digit('['));
        assert(!is_digit('v'));
    }
    if s.get_char(i) != '[' {
        return None;
    }
    if i + 1 >= len || s.get_char(i + 1) != 'v' {
        return None;
    }
    let d1 = match run_then(s, i + 2, len, '.') {
        Some(d) => d,
        None => {
            proof {
                assert forall|a1: int, a2: int, a3: int, a4: int|
                    !version_span(s@, i as int, a1, a2, a3, a4) by {
                    if version_span(s@, i as int, a1, a2, a3, a4) {
                        assert(i + 2 + a1 < s@.len() && all_digits(s@, i + 2, i + 2 + a1) && s@[i
                            + 2 + a1] == '.');
                    }
                }
            }
            return None;
        },
    };
    let d2 = match run_then(s, i + 3 + d1, len, '.') {
        Some(d) => d,
        None => {
            proof {
                assert forall|a1: int, a2: int, a3: int, a4: int|
                    !version_span(s@, i as int, a1, a2, a3, a4) by {
                    if version_span(s@, i as int, a1, a2, a3, a4) {
                        lemma_run_width_unique(s@, i + 2, a1, d1 as int);
                        assert(i + 3 + d1 + a2 < s@.len() && all_digits(
                            s@,
                            i + 3 + d1,
                            i + 3 + d1 + a2,
                        ) && s@[i + 3 + d1 + a2] == '.');
                    }
                }
            }
            return None;
        },
    };
    let d3 = match run_then(s, i + 4 + d1 + d2, len, '.') {
        Some(d) => d,
        None => {
            proof {
                assert forall|a1: int, a2: int, a3: int, a4: int|
                    !version_span(s@, i as int, a1, a2, a3, a4) by {
                    if version_span(s@, i as int, a1, a2, a3, a4) {
                        lemma_run_width_unique(s@, i + 2, a1, d1 as int);
                        lemma_run_width_unique(s@, i + 3 + d1, a2, d2 as int);
                        assert(i + 4 + d1 + d2 + a3 < s@.len() && all_digits(
                            s@,
                            i + 4 + d1 + d2,
                            i + 4 + d1 + d2 + a3,
                        ) && s@[i + 4 + d1 + d2 + a3] == '.');
                    }
                }
            }
            return None;
        },
    };
    let d4 = match run_then(s, i + 5 + d1 + d2 + d3, len, ']') {
        Some(d) => d,
        None => {
            proof {
                assert forall|a1: int, a2: int, a3: int, a4: int|
                    !version_span(s@, i as int, a1, a2, a3, a4) by {
                    if version_span(s@, i as int, a1, a2, a3, a4) {
                        lemma_run_width_unique(s@, i + 2, a1, d1 as int);
                        lemma_run_width_unique(s@, i + 3 + d1, a2, d2 as int);
                        lemma_run_width_unique(s@, i + 4 + d1 + d2, a3, d3 as int);
                        assert(i + 5 + d1 + d2 + d3 + a4 < s@.len() && all_digits(
                            s@,
                            i + 5 + d1 + d2 + d3,
                            i + 5 + d1 + d2 + d3 + a4,
                        ) && s@[i + 5 + d1 + d2 + d3 + a4] == ']');
                    }
                }
            }
            return None;
        },
    };
    proof {
        assert(version_span(s@, i as int, d1 as int, d2 as int, d3 as int, d4 as int));
    }
    Some(i + 6 + d1 + d2 + d3 + d4)
}

/// Extracts the first bracketed four-component version string from banner
/// text, brackets stripped; its absence is a parse error, not an empty
/// value.
pub fn extract_version(text: &str) -> (r: Result<String, RconError>)
    ensures
        r is Ok <==> has_version(text@),
        r matches Err(e) ==> e == RconError::Parse,
        r matches Ok(v) ==> exists|i: int, d1: int, d2: int, d3: int, d4: int|
            {
                &&& version_span(text@, i, d1, d2, d3, d4)
                &&& (forall|j: int| 0 <= j < i ==> !version_match_at(text@, j))
                &&& v@ == text@.subrange(i + 1, i + d1 + d2 + d3 + d4 + 5)
            },
{
    let len: usize = text.unicode_len();
    let mut i: usize = 0;
    while i < len
        invariant
            0 <= i <= len,
            len == text@.len(),
            forall|j: int| 0 <= j < i ==> !version_match_at(text@, j),
        decreases len - i,
    {
        match check_version_at(text, i, len) {
            Some(e) => {
                let v = text.substring_char(i + 1, e - 1);
                proof {
                    assert(version_match_at(text@, i as int));
                }
                return Ok(String::from_str(v));
            },
            None => {
                i = i + 1;
            },
        }
    }
    proof {
        assert forall|j: int| !version_match_at(text@, j) by {
            if version_match_at(text@, j) {
                let (d1, d2, d3, d4) = choose|d1: int, d2: int, d3: int, d4: int|
                    version_span(text@, j, d1, d2, d3, d4);
                assert(0 <= j < text@.len());
            }
        }
    }
    Err(RconError::Parse)
}

/// True exactly when the save command's reply carries its completion marker.
pub fn save_success(text: &str) -> (r: bool)
    ensures
        r == contains_seq(text@, "Complete Save"@),
{
    contains_str(text, "Complete Save")
}

/// True exactly when the shutdown command's reply carries its
/// acknowledgement marker.
pub fn shutdown_success(text: &str) -> (r: bool)
    ensures
        r == contains_seq(text@, "The server will shut down in"@),
{
    contains_str(text, "The server will shut down in")
}

/// The broadcast command string: the message follows the command word, with
/// every space rewritten to `rep` when a replacement is given (the server
/// cannot transport literal spaces in this command).
pub open spec fn spec_broadcast_command(message: Seq<char>, rep: Option<Seq<char>>) -> Seq<char> {
    "broadcast "@ + (match rep {
        Some(r) => spec_join(spec_split(message, ' '), r),
        None => message,
    })
}

/// Builds the broadcast command, as `spec_broadcast_command` describes.
pub fn broadcast_command(message: &str, replace_space: Option<&str>) -> (r: String)
    ensures
        r@ == spec_broadcast_command(
            message@,
            match replace_space {
                Some(rep) => Some(rep@),
                None => None,
            },
        ),
{
    let mut out = String::from_str("broadcast ");
    match replace_space {
        Some(rep) => {
            let parts = split_on(message, ' ');
            let rewritten = join(&parts, rep);
            out.append(rewritten.as_str());
        },
        None => {
            out.append(message);
        },
    }
    out
}

/// The shutdown command string: the delay in seconds (30 when none is
/// given) and the message, both as plain-text arguments.
pub open spec fn spec_shutdown_command(delay_secs: Option<u64>, message: Seq<char>) -> Seq<char> {
    "shutdown "@ + spec_dec(
        (match delay_secs {
            Some(d) => d,
            None => 30u64,
        }) as nat,
    ) + " "@ + message
}

/// Builds the shutdown command, as `spec_shutdown_command` describes.
pub fn shutdown_command(delay_secs: Option<u64>, message: &str) -> (r: String)
    ensures
        r@ == spec_shutdown_command(delay_secs, message@),
{
    let d = match delay_secs {
        Some(d) => d,
        None => 30,
    };
    let mut out = String::from_str("shutdown ");
    let dec = u64_to_dec(d);
    out.append(dec.as_str());
    out.append(" ");
    out.append(message);
    out
}

} // verus!

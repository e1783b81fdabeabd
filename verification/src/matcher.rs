//! Success-code matching: which HTTP status codes count as a successful
//! exchange. A matcher is an ordered list of inclusive code ranges.

use crate::util::chars_of;
use vstd::prelude::*;

verus! {

/// Why a success-code specification string was rejected.
#[derive(Clone, Copy, Debug, PartialEq, Eq, Structural)]
pub enum ParseError {
    /// A token (or range endpoint) is not a decimal status code.
    InvalidCode,
    /// A range's low endpoint exceeds its high endpoint.
    InvalidRange,
    /// A code exceeds 599.
    CodeOutOfRange,
    /// No token survived; nothing was specified.
    EmptySpec,
}

/// Outcome of reading one comma-separated token.
pub enum TokenResult {
    /// The token was all whitespace and is skipped.
    Blank,
    /// The token named this inclusive range.
    Range(u16, u16),
    /// The token is malformed.
    Fail(ParseError),
}

/// ASCII whitespace, as trimmed from the edges of each token.
pub open spec fn is_space(c: char) -> bool {
    c == ' ' || c == '\t' || c == '\n' || c == '\r' || c == '\u{b}' || c == '\u{c}'
}

pub open spec fn is_digit(c: char) -> bool {
    '0' <= c && c <= '9'
}

pub open spec fn trim_start_rec(s: Seq<char>) -> Seq<char>
    decreases s.len(),
{
    if s.len() > 0 && is_space(s[0]) {
        trim_start_rec(s.drop_first())
    } else {
        s
    }
}

pub open spec fn trim_end_rec(s: Seq<char>) -> Seq<char>
    decreases s.len(),
{
    if s.len() > 0 && is_space(s.last()) {
        trim_end_rec(s.drop_last())
    } else {
        s
    }
}

/// The token with ASCII whitespace removed from both edges.
pub open spec fn spec_trim(s: Seq<char>) -> Seq<char> {
    trim_end_rec(trim_start_rec(s))
}

/// Numeric value of a digit string, most significant digit first.
pub open spec fn digits_val(s: Seq<char>) -> int
    decreases s.len(),
{
    if s.len() == 0 {
        0
    } else {
        digits_val(s.drop_last()) * 10 + (s.last() as int - '0' as int)
    }
}

pub open spec fn all_digits(s: Seq<char>) -> bool {
    forall|i: int| 0 <= i < s.len() ==> is_digit(#[trigger] s[i])
}

/// The digits of a numeric token: one leading `+` sign is allowed.
pub open spec fn num_body(t: Seq<char>) -> Seq<char> {
    if t.len() > 0 && t[0] == '+' {
        t.drop_first()
    } else {
        t
    }
}

/// How a token parses as a `u16`, mirroring decimal string-to-integer
/// conversion: an optional `+`, then at least one digit, value in range.
pub open spec fn parse_u16_spec(t: Seq<char>) -> Option<u16> {
    let d = num_body(t);
    if d.len() >= 1 && all_digits(d) && digits_val(d) <= u16::MAX as int {
        Some(digits_val(d) as u16)
    } else {
        None
    }
}

/// Position of the first occurrence of `c` in `s` at or after `i`
/// (`s.len()` when there is none).
pub open spec fn first_occur_from(s: Seq<char>, c: char, i: int) -> int
    decreases s.len() - i,
{
    if i >= s.len() {
        s.len() as int
    } else if s[i] == c {
        i
    } else {
        first_occur_from(s, c, i + 1)
    }
}

/// How one already-trimmed token is read: empty tokens are skipped; a token
/// with a dash is an inclusive range whose endpoints are trimmed and parsed;
/// a bare token is a single-code range. High endpoints above 599 are
/// rejected, as is a low endpoint above the high one.
pub open spec fn parse_token_spec(t: Seq<char>) -> TokenResult {
    if t.len() == 0 {
        TokenResult::Blank
    } else {
        let h = first_occur_from(t, '-', 0);
        if h < t.len() {
            let lo_tok = spec_trim(t.subrange(0, h));
            let hi_tok = spec_trim(t.subrange(h + 1, t.len() as int));
            match parse_u16_spec(lo_tok) {
                Option::None => TokenResult::Fail(ParseError::InvalidCode),
                Option::Some(lo) => match parse_u16_spec(hi_tok) {
                    Option::None => TokenResult::Fail(ParseError::InvalidCode),
                    Option::Some(hi) => if lo > hi {
                        TokenResult::Fail(ParseError::InvalidRange)
                    } else if hi > 599 {
                        TokenResult::Fail(ParseError::CodeOutOfRange)
                    } else {
                        TokenResult::Range(lo, hi)
                    },
                },
            }
        } else {
            match parse_u16_spec(t) {
                Option::None => TokenResult::Fail(ParseError::InvalidCode),
                Option::Some(c) => if c > 599 {
                    TokenResult::Fail(ParseError::CodeOutOfRange)
                } else {
                    TokenResult::Range(c, c)
                },
            }
        }
    }
}

#[via_fn]
proof fn parse_list_from_decreases(s: Seq<char>, i: int) {
    lemma_first_occur_at_least(s, ',', i);
}

/// The ranges named by the comma-separated tokens of `s` from position `i`
/// on, or the first token's error. Blank tokens are skipped.
pub open spec fn parse_list_from(s: Seq<char>, i: int) -> Result<Seq<(u16, u16)>, ParseError>
    decreases s.len() - i,
        via parse_list_from_decreases
{
    let j = first_occur_from(s, ',', i);
    let tok = spec_trim(s.subrange(i, j));
    let rest: Result<Seq<(u16, u16)>, ParseError> = if j >= s.len() {
        Ok(Seq::empty())
    } else {
        parse_list_from(s, j + 1)
    };
    match parse_token_spec(tok) {
        TokenResult::Fail(e) => Err(e),
        TokenResult::Blank => rest,
        TokenResult::Range(lo, hi) => match rest {
            Err(e) => Err(e),
            Ok(t) => Ok(seq![(lo, hi)] + t),
        },
    }
}

/// All ranges named by the whole specification string.
pub open spec fn spec_parse(s: Seq<char>) -> Result<Seq<(u16, u16)>, ParseError> {
    parse_list_from(s, 0)
}

proof fn lemma_first_occur_at_least(s: Seq<char>, c: char, i: int)
    ensures
        first_occur_from(s, c, i) < s.len() ==> first_occur_from(s, c, i) >= i,
        first_occur_from(s, c, i) <= s.len(),
    decreases s.len() - i,
{
    if i >= s.len() {
    } else if s[i] == c {
    } else {
        lemma_first_occur_at_least(s, c, i + 1);
    }
}

proof fn lemma_first_occur_char(s: Seq<char>, c: char, i: int, j: int)
    requires
        0 <= i <= j <= s.len(),
        forall|k: int| i <= k < j ==> #[trigger] s[k] != c,
        j == s.len() || s[j] == c,
    ensures
        first_occur_from(s, c, i) == j,
    decreases j - i,
{
    if i < j {
        lemma_first_occur_char(s, c, i + 1, j);
    }
}

proof fn lemma_trim_start_skip(s: Seq<char>, a: int, b: int)
    requires
        0 <= a < b <= s.len(),
        is_space(s[a]),
    ensures
        trim_start_rec(s.subrange(a, b)) == trim_start_rec(s.subrange(a + 1, b)),
{
    assert(s.subrange(a, b).drop_first() =~= s.subrange(a + 1, b));
}

proof fn lemma_trim_end_skip(s: Seq<char>, a: int, b: int)
    requires
        0 <= a < b <= s.len(),
        is_space(s[b - 1]),
    ensures
        trim_end_rec(s.subrange(a, b)) == trim_end_rec(s.subrange(a, b - 1)),
{
    assert(s.subrange(a, b).drop_last() =~= s.subrange(a, b - 1));
}

proof fn lemma_digits_val_nonneg(s: Seq<char>)
    requires
        all_digits(s),
    ensures
        digits_val(s) >= 0,
    decreases s.len(),
{
    if s.len() > 0 {
        assert(all_digits(s.drop_last())) by {
            assert(forall|i: int|
                0 <= i < s.len() - 1 ==> #[trigger] s.drop_last()[i] == s[i]);
        }
        lemma_digits_val_nonneg(s.drop_last());
    }
}

/// Extending an all-digit string on the right never shrinks its value.
proof fn lemma_digits_val_prefix_le(s: Seq<char>, m: int)
    requires
        all_digits(s),
        0 <= m <= s.len(),
    ensures
        digits_val(s.subrange(0, m)) <= digits_val(s),
    decreases s.len() - m,
{
    if m < s.len() {
        lemma_digits_val_prefix_le(s, m + 1);
        let p = s.subrange(0, m + 1);
        assert(p.drop_last() =~= s.subrange(0, m));
        assert(all_digits(s.subrange(0, m + 1)));
        lemma_digits_val_nonneg(s.subrange(0, m));
        assert(digits_val(p) == digits_val(s.subrange(0, m)) * 10 + (p.last() as int
            - '0' as int));
        assert(digits_val(s.subrange(0, m)) * 10 >= digits_val(s.subrange(0, m)));
        assert(p.last() as int - '0' as int >= 0);
    } else {
        assert(s.subrange(0, m) =~= s);
    }
}

/// Decides which HTTP status codes a run counts as success.
/// Immutable once constructed; shared read-only by every iteration.
pub struct SuccessMatcher {
    /// Inclusive (low, high) ranges; a code matches when any range covers it.
    pub ranges: Vec<(u16, u16)>,
}

/// A code is covered when some range of `ranges` contains it.
pub open spec fn spec_covered(ranges: Seq<(u16, u16)>, code: u16) -> bool {
    exists|i: int| 0 <= i < ranges.len() && (#[trigger] ranges[i]).0 <= code <= ranges[i].1
}

fn is_space_exec(c: char) -> (r: bool)
    ensures
        r == is_space(c),
{
    c == ' ' || c == '\t' || c == '\n' || c == '\r' || c == '\u{b}' || c == '\u{c}'
}

/// Narrows `[from, to)` to the bounds of its whitespace-trimmed core.
fn trim_range(cs: &Vec<char>, from: usize, to: usize) -> (r: (usize, usize))
    requires
        from <= to <= cs@.len(),
    ensures
        from <= r.0 <= r.1 <= to,
        cs@.subrange(r.0 as int, r.1 as int) == spec_trim(cs@.subrange(from as int, to as int)),
{
    let ghost s = cs@;
    let mut a = from;
    while a < to && is_space_exec(cs[a])
        invariant
            from <= a <= to <= s.len(),
            cs@ == s,
            trim_start_rec(s.subrange(from as int, to as int)) == trim_start_rec(
                s.subrange(a as int, to as int),
            ),
        decreases to - a,
    {
        proof {
            lemma_trim_start_skip(s, a as int, to as int);
        }
        a = a + 1;
    }
    proof {
        assert(trim_start_rec(s.subrange(a as int, to as int)) == s.subrange(
            a as int,
            to as int,
        ));
    }
    let mut b = to;
    while b > a && is_space_exec(cs[b - 1])
        invariant
            from <= a <= b <= to <= s.len(),
            cs@ == s,
            trim_start_rec(s.subrange(from as int, to as int)) == s.subrange(a as int, to as int),
            trim_end_rec(s.subrange(a as int, to as int)) == trim_end_rec(
                s.subrange(a as int, b as int),
            ),
        decreases b,
    {
        proof {
            lemma_trim_end_skip(s, a as int, b as int);
        }
        b = b - 1;
    }
    proof {
        assert(trim_end_rec(s.subrange(a as int, b as int)) == s.subrange(a as int, b as int));
    }
    (a, b)
}

/// Reads `[from, to)` as a decimal `u16`, as `parse_u16_spec` says.
fn parse_code(cs: &Vec<char>, from: usize, to: usize) -> (r: Option<u16>)
    requires
        from <= to <= cs@.len(),
    ensures
        r == parse_u16_spec(cs@.subrange(from as int, to as int)),
{
    let ghost t = cs@.subrange(from as int, to as int);
    let mut p = from;
    if p < to && cs[p] == '+' {
        p = p + 1;
    }
    let ghost d = num_body(t);
    proof {
        assert(d =~= cs@.subrange(p as int, to as int));
    }
    if p == to {
        return None;
    }
    let mut val: u32 = 0;
    let mut k = p;
    while k < to
        invariant
            from <= p <= k <= to <= cs@.len(),
            p < to,
            t == cs@.subrange(from as int, to as int),
            d =~= cs@.subrange(p as int, to as int),
            d == num_body(t),
            all_digits(d.subrange(0, k - p)),
            val == digits_val(d.subrange(0, k - p)),
            val <= u16::MAX,
        decreases to - k,
    {
        let c = cs[k];
        if !('0' <= c && c <= '9') {
            proof {
                assert(!is_digit(d[k - p]));
            }
            return None;
        }
        let dv: u32 = (c as u32) - ('0' as u32);
        let nv: u32 = val * 10 + dv;
        proof {
            assert(d.subrange(0, k - p + 1).drop_last() =~= d.subrange(0, k - p));
            assert(digits_val(d.subrange(0, k - p + 1)) == nv as int);
        }
        if nv > u16::MAX as u32 {
            proof {
                if all_digits(d) {
                    lemma_digits_val_prefix_le(d, k - p + 1);
                }
            }
            return None;
        }
        val = nv;
        k = k + 1;
    }
    proof {
        assert(d.subrange(0, to - p) =~= d);
    }
    Some(val as u16)
}

/// Reads the already-trimmed token at `[a, b)` as `parse_token_spec` says.
fn read_token(cs: &Vec<char>, a: usize, b: usize) -> (r: TokenResult)
    requires
        a <= b <= cs@.len(),
    ensures
        r == parse_token_spec(cs@.subrange(a as int, b as int)),
{
    let ghost tok = cs@.subrange(a as int, b as int);
    if a == b {
        return TokenResult::Blank;
    }
    // find the first dash, if any
    let mut h = a;
    while h < b && cs[h] != '-'
        invariant
            a <= h <= b <= cs@.len(),
            forall|k: int| a <= k < h ==> #[trigger] cs@[k] != '-',
        decreases b - h,
    {
        h = h + 1;
    }
    proof {
        assert forall|k: int| 0 <= k < h - a implies #[trigger] tok[k] != '-' by {
            assert(tok[k] == cs@[a + k]);
        }
        if h < b {
            assert(tok[h - a] == cs@[h as int]);
        }
        lemma_first_occur_char(tok, '-', 0, h - a);
    }
    if h < b {
        let (la, lb) = trim_range(cs, a, h);
        proof {
            assert(tok.subrange(0, h - a) =~= cs@.subrange(a as int, h as int));
        }
        let lo = parse_code(cs, la, lb);
        let (ha, hb) = trim_range(cs, h + 1, b);
        proof {
            assert(tok.subrange(h - a + 1, tok.len() as int) =~= cs@.subrange(
                h as int + 1,
                b as int,
            ));
        }
        let hi = parse_code(cs, ha, hb);
        match (lo, hi) {
            (Some(l), Some(u)) => {
                if l > u {
                    TokenResult::Fail(ParseError::InvalidRange)
                } else if u > 599 {
                    TokenResult::Fail(ParseError::CodeOutOfRange)
                } else {
                    TokenResult::Range(l, u)
                }
            },
            _ => TokenResult::Fail(ParseError::InvalidCode),
        }
    } else {
        match parse_code(cs, a, b) {
            Some(c) => {
                if c > 599 {
                    TokenResult::Fail(ParseError::CodeOutOfRange)
                } else {
                    TokenResult::Range(c, c)
                }
            },
            None => TokenResult::Fail(ParseError::InvalidCode),
        }
    }
}

impl SuccessMatcher {
    /// The default rule: codes 200 through 400 inclusive are success.
    pub fn default() -> (r: Self)
        ensures
            r.ranges@ =~= seq![(200u16, 400u16)],
    {
        let mut ranges: Vec<(u16, u16)> = Vec::new();
        ranges.push((200, 400));
        Self { ranges }
    }

    /// Reads a comma-separated list of status codes and inclusive ranges
    /// ("200-299,404"): blank tokens are skipped, codes above 599 and
    /// inverted ranges are rejected, and an empty result is an error.
    pub fn parse(s: &str) -> (r: Result<Self, ParseError>)
        ensures
            match r {
                Ok(m) => spec_parse(s@) matches Ok(rs) && rs.len() > 0 && m.ranges@ == rs,
                Err(e) => match spec_parse(s@) {
                    Ok(rs) => rs.len() == 0 && e == ParseError::EmptySpec,
                    Err(e2) => e == e2,
                },
            },
    {
        let cs = chars_of(s);
        let n = cs.len();
        let mut ranges: Vec<(u16, u16)> = Vec::new();
        let mut i: usize = 0;
        while i <= n
            invariant
                cs@ == s@,
                n == cs@.len(),
                i <= n,
                match (parse_list_from(s@, 0), parse_list_from(s@, i as int)) {
                    (Ok(all), Ok(t)) => all == ranges@ + t,
                    (Err(e1), Err(e2)) => e1 == e2,
                    _ => false,
                },
            decreases n + 1 - i,
        {
            // find the end of the current token
            let mut j = i;
            while j < n && cs[j] != ','
                invariant
                    i <= j <= n == cs@.len(),
                    forall|k: int| i <= k < j ==> #[trigger] cs@[k] != ',',
                decreases n - j,
            {
                j = j + 1;
            }
            proof {
                lemma_first_occur_char(s@, ',', i as int, j as int);
            }
            let (a, b) = trim_range(&cs, i, j);
            let ghost tok = spec_trim(s@.subrange(i as int, j as int));
            let ghost prev = ranges@;
            match read_token(&cs, a, b) {
                TokenResult::Fail(e) => {
                    proof {
                        assert(parse_list_from(s@, i as int) == Err::<Seq<(u16, u16)>,
                            ParseError>(e));
                    }
                    return Err(e);
                },
                TokenResult::Blank => {},
                TokenResult::Range(lo, hi) => {
                    ranges.push((lo, hi));
                    proof {
                        assert(ranges@ =~= prev + seq![(lo, hi)]);
                    }
                },
            }
            proof {
                if j < n {
                    assert(parse_list_from(s@, i as int) == (match (parse_token_spec(tok),
                    parse_list_from(s@, j + 1)) {
                        (TokenResult::Fail(e), _) => Err::<Seq<(u16, u16)>, ParseError>(e),
                        (TokenResult::Blank, rest) => rest,
                        (TokenResult::Range(lo, hi), Ok(t)) => Ok(seq![(lo, hi)] + t),
                        (TokenResult::Range(lo, hi), Err(e)) => Err(e),
                    }));
                    if parse_list_from(s@, j + 1) is Ok {
                        let t = parse_list_from(s@, j + 1)->Ok_0;
                        if parse_token_spec(tok) is Range {
                            let lo = parse_token_spec(tok)->Range_0;
                            let hi = parse_token_spec(tok)->Range_1;
                            assert(prev + (seq![(lo, hi)] + t) =~= (prev + seq![(lo, hi)]) + t);
                        }
                    }
                } else {
                    assert(parse_list_from(s@, i as int) == (match parse_token_spec(tok) {
                        TokenResult::Fail(e) => Err::<Seq<(u16, u16)>, ParseError>(e),
                        TokenResult::Blank => Ok(Seq::<(u16, u16)>::empty()),
                        TokenResult::Range(lo, hi) => Ok(seq![(lo, hi)]),
                    }));
                    if parse_list_from(s@, 0) is Ok {
                        assert(parse_list_from(s@, 0)->Ok_0 =~= ranges@);
                    }
                }
            }
            if j == n {
                if ranges.len() == 0 {
                    return Err(ParseError::EmptySpec);
                }
                return Ok(Self { ranges });
            }
            i = j + 1;
        }
        // never reached: the token ending at the string's end returns above
        proof {
            assert(false);
        }
        Err(ParseError::EmptySpec)
    }

    /// True iff any declared range covers `code`.
    pub fn contains(&self, code: u16) -> (r: bool)
        ensures
            r == spec_covered(self.ranges@, code),
    {
        let mut i: usize = 0;
        while i < self.ranges.len()
            invariant
                0 <= i <= self.ranges@.len(),
                forall|j: int|
                    0 <= j < i ==> !((#[trigger] self.ranges@[j]).0 <= code
                        <= self.ranges@[j].1),
            decreases self.ranges@.len() - i,
        {
            let (lo, hi) = self.ranges[i];
            if lo <= code && code <= hi {
                return true;
            }
            i = i + 1;
        }
        false
    }
}

} // verus!

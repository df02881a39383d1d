//! Interpretation of the lines the user types: whitespace trimming,
//! non-negative decimal tokens, and the two command vocabularies of the
//! controller (top-level and per-entry).

use vstd::prelude::*;

verus! {

use vstd::string::StrSliceExecFns;
use vstd::string::StringExecFns;

/// The whitespace characters stripped from the ends of line input: the
/// Unicode White_Space set, as `str::trim` strips it.
pub open spec fn is_space(c: char) -> bool {
    let u = c as u32;
    ||| u == 0x09
    ||| u == 0x0A
    ||| u == 0x0B
    ||| u == 0x0C
    ||| u == 0x0D
    ||| u == 0x20
    ||| u == 0x85
    ||| u == 0xA0
    ||| u == 0x1680
    ||| (0x2000 <= u && u <= 0x200A)
    ||| u == 0x2028
    ||| u == 0x2029
    ||| u == 0x202F
    ||| u == 0x205F
    ||| u == 0x3000
}

/// How many whitespace characters `s` starts with.
pub open spec fn leading_ws(s: Seq<char>) -> int
    decreases s.len(),
{
    if s.len() == 0 || !is_space(s[0]) {
        0
    } else {
        1 + leading_ws(s.drop_first())
    }
}

/// How many whitespace characters `s` ends with.
pub open spec fn trailing_ws(s: Seq<char>) -> int
    decreases s.len(),
{
    if s.len() == 0 || !is_space(s.last()) {
        0
    } else {
        1 + trailing_ws(s.drop_last())
    }
}

/// `s` with leading and trailing whitespace removed.
pub open spec fn trim_spec(s: Seq<char>) -> Seq<char> {
    if leading_ws(s) == s.len() {
        Seq::empty()
    } else {
        s.subrange(leading_ws(s), s.len() - trailing_ws(s))
    }
}

proof fn lemma_leading_ws_at(s: Seq<char>, i: int)
    requires
        0 <= i <= s.len(),
        forall|k: int| 0 <= k < i ==> is_space(s[k]),
        i < s.len() ==> !is_space(s[i]),
    ensures
        leading_ws(s) == i,
    decreases i,
{
    if i == 0 {
    } else {
        assert(is_space(s[0]));
        let s2 = s.drop_first();
        assert forall|k: int| 0 <= k < i - 1 implies is_space(s2[k]) by {
            assert(s2[k] == s[k + 1]);
        }
        if i - 1 < s2.len() {
            assert(s2[i - 1] == s[i]);
        }
        lemma_leading_ws_at(s2, i - 1);
    }
}

proof fn lemma_trailing_ws_at(s: Seq<char>, j: int)
    requires
        0 <= j <= s.len(),
        forall|k: int| j <= k < s.len() ==> is_space(s[k]),
        j > 0 ==> !is_space(s[j - 1]),
    ensures
        trailing_ws(s) == s.len() - j,
    decreases s.len() - j,
{
    if j == s.len() {
        if s.len() > 0 {
            assert(!is_space(s.last()));
        }
    } else {
        assert(is_space(s.last()));
        let s2 = s.drop_last();
        lemma_trailing_ws_at(s2, j);
    }
}

fn is_space_char(c: char) -> (b: bool)
    ensures
        b == is_space(c),
{
    let u = c as u32;
    u == 0x09 || u == 0x0A || u == 0x0B || u == 0x0C || u == 0x0D || u == 0x20 || u == 0x85
        || u == 0xA0 || u == 0x1680 || (0x2000 <= u && u <= 0x200A) || u == 0x2028 || u == 0x2029
        || u == 0x202F || u == 0x205F || u == 0x3000
}

/// A copy of `s` with surrounding whitespace removed.
pub fn trim_of(s: &str) -> (r: String)
    ensures
        r@ == trim_spec(s@),
{
    let n = s.unicode_len();
    let mut start: usize = 0;
    while start < n && is_space_char(s.get_char(start))
        invariant
            n == s@.len(),
            start <= n,
            forall|k: int| 0 <= k < start ==> is_space(s@[k]),
        decreases n - start,
    {
        start += 1;
    }
    let mut end: usize = n;
    while end > start && is_space_char(s.get_char(end - 1))
        invariant
            n == s@.len(),
            start <= end <= n,
            forall|k: int| end <= k < n ==> is_space(s@[k]),
        decreases end,
    {
        end -= 1;
    }
    proof {
        if start == n {
            lemma_leading_ws_at(s@, start as int);
        } else {
            lemma_leading_ws_at(s@, start as int);
            assert(end > start);
            lemma_trailing_ws_at(s@, end as int);
        }
    }
    let sub = s.substring_char(start, end);
    String::from_str(sub)
}

/// A decimal digit.
pub open spec fn is_digit(c: char) -> bool {
    48 <= c as u32 && c as u32 <= 57
}

/// The numeric value of one decimal digit.
pub open spec fn digit_val(c: char) -> int {
    c as u32 - 48
}

pub open spec fn all_digits(s: Seq<char>) -> bool {
    forall|i: int| 0 <= i < s.len() ==> is_digit(s[i])
}

/// The value of a string of decimal digits, most significant first.
pub open spec fn digits_value(s: Seq<char>) -> int
    decreases s.len(),
{
    if s.len() == 0 {
        0
    } else {
        digits_value(s.drop_last()) * 10 + digit_val(s.last())
    }
}

proof fn lemma_digits_value_nonneg(s: Seq<char>)
    requires
        all_digits(s),
    ensures
        digits_value(s) >= 0,
    decreases s.len(),
{
    if s.len() > 0 {
        assert(all_digits(s.drop_last()));
        lemma_digits_value_nonneg(s.drop_last());
    }
}

proof fn lemma_digits_value_take_le(s: Seq<char>, j: int)
    requires
        all_digits(s),
        0 <= j <= s.len(),
    ensures
        digits_value(s.take(j)) <= digits_value(s),
    decreases s.len() - j,
{
    if j == s.len() {
        assert(s.take(j) =~= s);
    } else {
        assert(s.take(j + 1).drop_last() =~= s.take(j));
        assert(s.take(j + 1).last() == s[j]);
        assert(all_digits(s.take(j)));
        lemma_digits_value_nonneg(s.take(j));
        assert(digits_value(s.take(j + 1)) == digits_value(s.take(j)) * 10 + digit_val(s[j]));
        assert(digits_value(s.take(j)) <= digits_value(s.take(j + 1)));
        lemma_digits_value_take_le(s, j + 1);
    }
}

/// What a whole token denotes as a non-negative index, if anything: an
/// optional leading plus sign, then at least one decimal digit, with a
/// value that fits the machine's index type.
pub open spec fn spec_index_token(t: Seq<char>) -> Option<usize> {
    let d = if t.len() > 0 && t[0] == '+' {
        t.drop_first()
    } else {
        t
    };
    if d.len() > 0 && all_digits(d) && digits_value(d) <= usize::MAX as int {
        Some(digits_value(d) as usize)
    } else {
        None
    }
}

/// Reads a whole token as a non-negative index.
pub fn parse_index_token(t: &str) -> (r: Option<usize>)
    ensures
        r == spec_index_token(t@),
{
    let n = t.unicode_len();
    let mut i: usize = 0;
    if n > 0 && t.get_char(0) == '+' {
        i = 1;
    }
    let ghost d = if i == 1 {
        t@.drop_first()
    } else {
        t@
    };
    proof {
        assert(d.len() == n - i);
        assert(forall|k: int| 0 <= k < d.len() ==> d[k] == t@[k + i]);
    }
    if i == n {
        return None;
    }
    let mut acc: usize = 0;
    let mut j: usize = i;
    while j < n
        invariant
            n == t@.len(),
            i <= j <= n,
            i <= 1,
            d == (if t@.len() > 0 && t@[0] == '+' {
                t@.drop_first()
            } else {
                t@
            }),
            d.len() == n - i,
            forall|k: int| 0 <= k < d.len() ==> d[k] == t@[k + i],
            all_digits(d.take(j - i)),
            acc == digits_value(d.take(j - i)),
        decreases n - j,
    {
        let c = t.get_char(j);
        let u = c as u32;
        if !(48 <= u && u <= 57) {
            proof {
                assert(d[j - i] == t@[j as int]);
                assert(!is_digit(d[j - i]));
                if all_digits(d) {
                    assert(is_digit(d[j - i]));
                }
            }
            return None;
        }
        let dg = (u - 48) as usize;
        proof {
            assert(d[j - i] == t@[j as int]);
            assert(is_digit(d[j - i]));
            assert(dg == digit_val(d[j - i]));
            assert(d.take(j - i + 1).drop_last() =~= d.take(j - i));
            assert(d.take(j - i + 1).last() == d[j - i]);
            assert(all_digits(d.take(j - i + 1)));
        }
        if acc > (usize::MAX - dg) / 10 {
            proof {
                let m = usize::MAX - dg;
                assert(m == 10 * (m / 10) + m % 10) by (nonlinear_arith);
                assert(0 <= m % 10 < 10) by (nonlinear_arith);
                assert(acc >= m / 10 + 1);
                assert(acc * 10 >= (m / 10 + 1) * 10) by (nonlinear_arith)
                    requires
                        acc >= m / 10 + 1,
                ;
                assert(acc * 10 + dg > usize::MAX as int);
                assert(digits_value(d.take(j - i + 1)) == acc * 10 + dg);
                if all_digits(d) {
                    lemma_digits_value_take_le(d, j - i + 1);
                    assert(digits_value(d) > usize::MAX as int);
                }
            }
            return None;
        }
        proof {
            let m = usize::MAX - dg;
            assert(m == 10 * (m / 10) + m % 10) by (nonlinear_arith);
            assert(0 <= m % 10 < 10) by (nonlinear_arith);
            assert(acc * 10 <= (m / 10) * 10) by (nonlinear_arith)
                requires
                    acc <= m / 10,
            ;
            assert(acc * 10 + dg <= usize::MAX as int);
        }
        acc = acc * 10 + dg;
        j += 1;
    }
    proof {
        assert(d.take(n - i) =~= d);
        assert(all_digits(d));
        assert(digits_value(d) == acc);
    }
    Some(acc)
}

/// What a line means at the top-level prompt, after trimming.
#[derive(PartialEq, Eq, Structural, Clone, Copy, Debug)]
pub enum TopCmd {
    Quit,
    Save,
    DedupPrune,
    NewEntry,
    Index(usize),
    Unrecognized,
}

pub open spec fn spec_top_cmd(s: Seq<char>) -> TopCmd {
    let t = trim_spec(s);
    if t.len() == 1 && t[0] == 'q' {
        TopCmd::Quit
    } else if t.len() == 1 && t[0] == 's' {
        TopCmd::Save
    } else if t.len() == 2 && t[0] == 'd' && t[1] == 'd' {
        TopCmd::DedupPrune
    } else if t.len() == 1 && t[0] == 'n' {
        TopCmd::NewEntry
    } else if spec_index_token(t) is Some {
        TopCmd::Index(spec_index_token(t).unwrap())
    } else {
        TopCmd::Unrecognized
    }
}

/// Reads one top-level command from the line as typed.
pub fn parse_top(line: &str) -> (c: TopCmd)
    ensures
        c == spec_top_cmd(line@),
{
    let t = trim_of(line);
    let ts = t.as_str();
    let m = ts.unicode_len();
    if m == 1 && ts.get_char(0) == 'q' {
        TopCmd::Quit
    } else if m == 1 && ts.get_char(0) == 's' {
        TopCmd::Save
    } else if m == 2 && ts.get_char(0) == 'd' && ts.get_char(1) == 'd' {
        TopCmd::DedupPrune
    } else if m == 1 && ts.get_char(0) == 'n' {
        TopCmd::NewEntry
    } else {
        match parse_index_token(ts) {
            Some(v) => TopCmd::Index(v),
            None => TopCmd::Unrecognized,
        }
    }
}

/// What a line means at the per-entry prompt; the line is used exactly as
/// typed, without trimming.
#[derive(PartialEq, Eq, Structural, Clone, Copy, Debug)]
pub enum EntryCmd {
    Delete,
    Edit,
    Bottom,
    Pos(usize),
    Invalid,
}

pub open spec fn spec_entry_cmd(s: Seq<char>) -> EntryCmd {
    if s.len() == 1 && s[0] == 'd' {
        EntryCmd::Delete
    } else if s.len() == 1 && s[0] == 'e' {
        EntryCmd::Edit
    } else if s.len() == 1 && s[0] == 'b' {
        EntryCmd::Bottom
    } else if spec_index_token(s) is Some {
        EntryCmd::Pos(spec_index_token(s).unwrap())
    } else {
        EntryCmd::Invalid
    }
}

/// Reads one per-entry sub-command from the line as typed.
pub fn parse_entry(line: &str) -> (c: EntryCmd)
    ensures
        c == spec_entry_cmd(line@),
{
    let m = line.unicode_len();
    if m == 1 && line.get_char(0) == 'd' {
        EntryCmd::Delete
    } else if m == 1 && line.get_char(0) == 'e' {
        EntryCmd::Edit
    } else if m == 1 && line.get_char(0) == 'b' {
        EntryCmd::Bottom
    } else {
        match parse_index_token(line) {
            Some(v) => EntryCmd::Pos(v),
            None => EntryCmd::Invalid,
        }
    }
}

} // verus!

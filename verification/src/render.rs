//! Output rendering rules: the cells of a record, and the lines of text that
//! the table and CSV renderers print for a list of records.

use vstd::prelude::*;
use crate::text;
use crate::schema::{ColumnType, ColumnView, TableView};

verus! {

/// One value of an output record.
#[derive(Debug, PartialEq, Eq)]
pub enum Cell {
    Null,
    Bool(bool),
    Int(u64),
    Text(String),
}

impl Clone for Cell {
    fn clone(&self) -> (r: Self)
        ensures
            r == *self,
    {
        match self {
            Cell::Null => Cell::Null,
            Cell::Bool(b) => Cell::Bool(*b),
            Cell::Int(n) => Cell::Int(*n),
            Cell::Text(s) => Cell::Text(s.clone()),
        }
    }
}

/// One output record: its fields as (name, value) pairs, in field-name order.
#[derive(Debug, PartialEq, Eq)]
pub struct Row {
    pub fields: Vec<(String, Cell)>,
}

// ── Numbers ───────────────────────────────────────────────────────────────────

/// The decimal digit character of `d` (`d < 10`).
pub open spec fn digit_char(d: nat) -> char {
    seq!['0', '1', '2', '3', '4', '5', '6', '7', '8', '9'][d as int]
}

/// The decimal notation of `n`, without leading zeros.
pub open spec fn decimal(n: nat) -> Seq<char>
    decreases n,
{
    if n < 10 {
        seq![digit_char(n)]
    } else {
        decimal(n / 10).push(digit_char(n % 10))
    }
}

fn digit(d: u64) -> (c: char)
    requires
        d < 10,
    ensures
        c == digit_char(d as nat),
{
    match d {
        0 => '0',
        1 => '1',
        2 => '2',
        3 => '3',
        4 => '4',
        5 => '5',
        6 => '6',
        7 => '7',
        8 => '8',
        _ => '9',
    }
}

fn decimal_chars(n: u64) -> (r: Vec<char>)
    ensures
        r@ == decimal(n as nat),
    decreases n,
{
    if n < 10 {
        let mut v: Vec<char> = Vec::new();
        v.push(digit(n));
        assert(v@ =~= seq![digit_char(n as nat)]);
        v
    } else {
        let mut v = decimal_chars(n / 10);
        v.push(digit(n % 10));
        v
    }
}

/// The decimal text of `n`.
pub fn decimal_text(n: u64) -> (r: String)
    ensures
        r@ == decimal(n as nat),
{
    let cs = decimal_chars(n);
    text::string_from_chars(&cs)
}

// ── Date-time offsets ─────────────────────────────────────────────────────────

/// An ASCII decimal digit.
pub open spec fn is_digit(c: char) -> bool {
    '0' <= c && c <= '9'
}

/// A character that begins a UTC offset.
pub open spec fn is_sign(c: char) -> bool {
    c == '+' || c == '-'
}

/// The first `y` characters of `s` are a year: four digits, or a sign
/// followed by at least four digits (how years outside 0..=9999 are written).
pub open spec fn is_year_field(s: Seq<char>, y: int) -> bool {
    ||| (y == 4 && s.len() >= 4 && forall|i: int| 0 <= i < 4 ==> is_digit(#[trigger] s[i]))
    ||| (y >= 5 && s.len() >= y && is_sign(s[0]) && forall|i: int|
        1 <= i < y ==> is_digit(#[trigger] s[i]))
}

/// The position of a character within `-MM-DDTHH:MM:SS`, the part of a
/// date-time after its year, and what stands there.
pub open spec fn head_char_ok(j: int, c: char) -> bool {
    if j == 0 || j == 3 {
        c == '-'
    } else if j == 6 {
        c == 'T'
    } else if j == 9 || j == 12 {
        c == ':'
    } else {
        is_digit(c)
    }
}

/// `s` begins with a date and time `YEAR-MM-DDTHH:MM:SS` whose year takes
/// the first `y` characters.
pub open spec fn has_date_time_head(s: Seq<char>, y: int) -> bool {
    &&& s.len() >= y + 15
    &&& is_year_field(s, y)
    &&& forall|j: int| 0 <= j < 15 ==> head_char_ok(j, #[trigger] s[y + j])
}

/// The characters of `s` from `start` up to `end` are nothing, or a `.`
/// followed by at least one digit (the fraction of a second).
pub open spec fn is_fraction(s: Seq<char>, start: int, end: int) -> bool {
    start == end || (end - start >= 2 && s[start] == '.' && forall|i: int|
        start < i < end ==> is_digit(#[trigger] s[i]))
}

/// `s` ends with a UTC offset `+HH:MM` or `-HH:MM`.
pub open spec fn has_offset_tail(s: Seq<char>) -> bool {
    let n = s.len() as int;
    &&& n >= 6
    &&& is_sign(s[n - 6])
    &&& is_digit(s[n - 5])
    &&& is_digit(s[n - 4])
    &&& s[n - 3] == ':'
    &&& is_digit(s[n - 2])
    &&& is_digit(s[n - 1])
}

/// `s` is a date-time `YEAR-MM-DDTHH:MM:SS[.fraction]±HH:MM` whose year takes
/// the first `y` characters.
pub open spec fn is_offset_datetime_at(s: Seq<char>, y: int) -> bool {
    &&& s.len() >= y + 21
    &&& has_date_time_head(s, y)
    &&& is_fraction(s, y + 15, s.len() - 6)
    &&& has_offset_tail(s)
}

/// `s` is an RFC 3339 date-time with a numeric UTC offset, in the form
/// `YEAR-MM-DDTHH:MM:SS[.fraction]±HH:MM` that date-time cells are written in
/// (the year four digits, or a sign and at least four digits).
pub open spec fn is_offset_datetime(s: Seq<char>) -> bool {
    exists|y: int| is_offset_datetime_at(s, y)
}

/// `s` without its UTC offset when it is an RFC 3339 date-time with one;
/// any other text unchanged.
pub open spec fn strip_datetime_tz_spec(s: Seq<char>) -> Seq<char> {
    if is_offset_datetime(s) {
        s.take(s.len() - 6)
    } else {
        s
    }
}

/// The length of the year field of `s` if it is a date-time: after a sign,
/// the run of digits that follows; otherwise four.
pub open spec fn year_candidate(s: Seq<char>, y: int) -> bool {
    if s.len() > 0 && is_sign(s[0]) {
        &&& 1 <= y <= s.len()
        &&& forall|i: int| 1 <= i < y ==> is_digit(#[trigger] s[i])
        &&& (y == s.len() || !is_digit(s[y]))
    } else {
        y == 4
    }
}

/// A date-time's year field has only one possible length.
proof fn lemma_year_unique(s: Seq<char>, y: int, z: int)
    requires
        year_candidate(s, y),
        has_date_time_head(s, z),
    ensures
        y == z,
{
    assert(head_char_ok(0, s[z + 0]));
    if s.len() > 0 && is_sign(s[0]) {
        assert(z >= 5);
        if y < z {
            assert(is_digit(s[y]));
        } else if z < y {
            assert(is_digit(s[z]));
        }
    } else if z >= 5 {
        assert(is_sign(s[0]));
    }
}

fn char_is_digit(c: char) -> (r: bool)
    ensures
        r == is_digit(c),
{
    '0' <= c && c <= '9'
}

/// The candidate length of the year field of `cs` (see [`year_candidate`]).
fn year_length(cs: &Vec<char>) -> (y: usize)
    ensures
        year_candidate(cs@, y as int),
        y <= cs@.len() || y == 4,
{
    let n = cs.len();
    if n == 0 || !(cs[0] == '+' || cs[0] == '-') {
        return 4;
    }
    let mut y: usize = 1;
    while y < n
        invariant
            n == cs@.len(),
            n > 0,
            is_sign(cs@[0]),
            1 <= y <= n,
            forall|i: int| 1 <= i < y ==> is_digit(#[trigger] cs@[i]),
        ensures
            1 <= y <= n,
            forall|i: int| 1 <= i < y ==> is_digit(#[trigger] cs@[i]),
            y == n || !is_digit(cs@[y as int]),
        decreases n - y,
    {
        if !char_is_digit(cs[y]) {
            break;
        }
        y += 1;
    }
    y
}

fn chars_are_offset_datetime_at(cs: &Vec<char>, y: usize) -> (r: bool)
    ensures
        r == is_offset_datetime_at(cs@, y as int),
{
    let n = cs.len();
    if n < 21 || y > n - 21 {
        return false;
    }
    // The year.
    if y == 4 {
        for i in 0..4
            invariant
                n == cs@.len(),
                n >= 21,
                y == 4,
                forall|k: int| 0 <= k < i ==> is_digit(#[trigger] cs@[k]),
        {
            if !char_is_digit(cs[i]) {
                proof {
                    assert(!is_year_field(cs@, 4)) by {
                        assert(!is_digit(cs@[i as int]));
                    }
                }
                return false;
            }
        }
    } else {
        if y < 5 || !(cs[0] == '+' || cs[0] == '-') {
            return false;
        }
        for i in 1..y
            invariant
                n == cs@.len(),
                y <= n,
                1 <= i <= y,
                forall|k: int| 1 <= k < i ==> is_digit(#[trigger] cs@[k]),
        {
            if !char_is_digit(cs[i]) {
                proof {
                    assert(!is_year_field(cs@, y as int)) by {
                        assert(!is_digit(cs@[i as int]));
                    }
                }
                return false;
            }
        }
    }
    assert(is_year_field(cs@, y as int));
    // `-MM-DDTHH:MM:SS`
    for j in 0..15
        invariant
            n == cs@.len(),
            y + 21 <= n,
            forall|k: int| 0 <= k < j ==> head_char_ok(k, #[trigger] cs@[y + k]),
    {
        let c = cs[y + j];
        let ok = if j == 0 || j == 3 {
            c == '-'
        } else if j == 6 {
            c == 'T'
        } else if j == 9 || j == 12 {
            c == ':'
        } else {
            char_is_digit(c)
        };
        if !ok {
            proof {
                assert(!head_char_ok(j as int, cs@[y + j]));
            }
            return false;
        }
    }
    assert(has_date_time_head(cs@, y as int));
    let start = y + 15;
    let end = n - 6;
    if end > start {
        if end - start < 2 || cs[start] != '.' {
            return false;
        }
        for i in start + 1..end
            invariant
                n == cs@.len(),
                end == n - 6,
                start < end,
                start == y + 15,
                forall|k: int| start < k < i ==> is_digit(#[trigger] cs@[k]),
        {
            if !char_is_digit(cs[i]) {
                proof {
                    assert(!is_fraction(cs@, start as int, end as int)) by {
                        assert(!is_digit(cs@[i as int]));
                    }
                }
                return false;
            }
        }
    }
    let sign = cs[n - 6];
    (sign == '+' || sign == '-') && char_is_digit(cs[n - 5]) && char_is_digit(cs[n - 4]) && cs[n
        - 3] == ':' && char_is_digit(cs[n - 2]) && char_is_digit(cs[n - 1])
}

fn chars_are_offset_datetime(cs: &Vec<char>) -> (r: bool)
    ensures
        r == is_offset_datetime(cs@),
{
    let y = year_length(cs);
    let r = chars_are_offset_datetime_at(cs, y);
    proof {
        if !r && is_offset_datetime(cs@) {
            let z = choose|z: int| is_offset_datetime_at(cs@, z);
            lemma_year_unique(cs@, y as int, z);
        }
    }
    r
}

/// Strip the timezone offset from an RFC 3339 date-time string for CSV output.
///
/// A text of the form `YEAR-MM-DDTHH:MM:SS[.fraction]±HH:MM` (the year four
/// digits, or a sign and at least four digits) loses its trailing `±HH:MM`;
/// every other text (file names, paths, date-times without an offset) passes
/// through unchanged.
pub fn strip_datetime_tz(s: &str) -> (r: String)
    ensures
        r@ == strip_datetime_tz_spec(s@),
{
    let cs = text::chars_of(s);
    if !chars_are_offset_datetime(&cs) {
        return s.to_owned();
    }
    let keep = cs.len() - 6;
    let mut kept: Vec<char> = Vec::new();
    for k in 0..keep
        invariant
            keep <= cs@.len(),
            kept@ == cs@.take(k as int),
    {
        kept.push(cs[k]);
        proof {
            assert(cs@.take(k + 1) =~= cs@.take(k as int).push(cs@[k as int]));
        }
    }
    text::string_from_chars(&kept)
}

/// Stripping is idempotent: a stripped date-time has no offset left to strip.
pub proof fn lemma_strip_datetime_tz_idempotent(s: Seq<char>)
    ensures
        strip_datetime_tz_spec(strip_datetime_tz_spec(s)) == strip_datetime_tz_spec(s),
{
    if is_offset_datetime(s) {
        let y = choose|y: int| is_offset_datetime_at(s, y);
        let r = s.take(s.len() - 6);
        if is_offset_datetime(r) {
            let z = choose|z: int| is_offset_datetime_at(r, z);
            // The year fields of `s` and `r` agree: they share their first y + 15 characters.
            assert(has_date_time_head(r, y)) by {
                assert forall|j: int| 0 <= j < 15 implies head_char_ok(j, #[trigger] r[y + j]) by {
                    assert(r[y + j] == s[y + j]);
                    assert(head_char_ok(j, s[y + j]));
                }
                if y == 4 {
                    assert forall|i: int| 0 <= i < 4 implies is_digit(#[trigger] r[i]) by {
                        assert(r[i] == s[i]);
                    }
                } else {
                    assert(r[0] == s[0]);
                    assert forall|i: int| 1 <= i < y implies is_digit(#[trigger] r[i]) by {
                        assert(r[i] == s[i]);
                    }
                }
            }
            assert(y == z) by {
                assert(head_char_ok(0, r[z + 0]));
                assert(head_char_ok(0, r[y + 0]));
                if r.len() > 0 && is_sign(r[0]) {
                    if y < z {
                        assert(is_digit(r[y]));
                    } else if z < y {
                        assert(is_digit(r[z]));
                    }
                } else {
                    if y >= 5 {
                        assert(is_sign(r[0]));
                    }
                    if z >= 5 {
                        assert(is_sign(r[0]));
                    }
                }
            }
            let k = r.len() - 6;
            assert(y + 15 <= k < s.len() - 6);
            assert(r[k] == s[k]);
            if k > y + 15 {
                assert(is_digit(s[k]));
            } else {
                assert(s[y + 15] == '.');
            }
            assert(false);
        }
    }
}

/// `year`, `rest`, `frac` and `offset` are the parts of a date-time
/// `YEAR-MM-DDTHH:MM:SS[.DIGITS]±HH:MM`: a year of four digits, or a sign and
/// four or more digits; `-MM-DDTHH:MM:SS`; nothing, or a `.` and one or more
/// digits (of any number); and `+HH:MM` or `-HH:MM`.
pub open spec fn is_datetime_parts(
    year: Seq<char>,
    rest: Seq<char>,
    frac: Seq<char>,
    offset: Seq<char>,
) -> bool {
    &&& (year.len() == 4 && forall|i: int| 0 <= i < 4 ==> '0' <= #[trigger] year[i] && year[i] <= '9')
        || (year.len() >= 5 && (year[0] == '+' || year[0] == '-') && forall|i: int|
        1 <= i < year.len() ==> '0' <= #[trigger] year[i] && year[i] <= '9')
    &&& rest.len() == 15
    &&& rest[0] == '-' && rest[3] == '-' && rest[6] == 'T' && rest[9] == ':' && rest[12] == ':'
    &&& forall|j: int|
        0 <= j < 15 && j != 0 && j != 3 && j != 6 && j != 9 && j != 12 ==> '0' <= #[trigger] rest[j]
            && rest[j] <= '9'
    &&& frac.len() == 0 || (frac.len() >= 2 && frac[0] == '.' && forall|i: int|
        1 <= i < frac.len() ==> '0' <= #[trigger] frac[i] && frac[i] <= '9')
    &&& offset.len() == 6
    &&& offset[0] == '+' || offset[0] == '-'
    &&& '0' <= offset[1] <= '9' && '0' <= offset[2] <= '9'
    &&& offset[3] == ':'
    &&& '0' <= offset[4] <= '9' && '0' <= offset[5] <= '9'
}

/// Every date-time `YEAR-MM-DDTHH:MM:SS[.DIGITS]±HH:MM` loses exactly its
/// trailing `±HH:MM`, whatever the number of digits of its fraction of a
/// second (none, or any run of one or more) and whether its year is four
/// digits or a sign followed by four or more digits.
pub proof fn lemma_strip_datetime_tz_any_fraction(
    year: Seq<char>,
    rest: Seq<char>,
    frac: Seq<char>,
    offset: Seq<char>,
)
    requires
        is_datetime_parts(year, rest, frac, offset),
    ensures
        strip_datetime_tz_spec(year + rest + frac + offset) == year + rest + frac,
{
    let s = year + rest + frac + offset;
    let y = year.len() as int;
    let n = s.len() as int;
    assert(is_year_field(s, y)) by {
        if y == 4 {
            assert forall|i: int| 0 <= i < 4 implies is_digit(#[trigger] s[i]) by {
                assert(s[i] == year[i]);
            }
        } else {
            assert(s[0] == year[0]);
            assert forall|i: int| 1 <= i < y implies is_digit(#[trigger] s[i]) by {
                assert(s[i] == year[i]);
            }
        }
    }
    assert forall|j: int| 0 <= j < 15 implies head_char_ok(j, #[trigger] s[y + j]) by {
        assert(s[y + j] == rest[j]);
    }
    assert(is_fraction(s, y + 15, n - 6)) by {
        if frac.len() > 0 {
            assert(s[y + 15] == frac[0]);
            assert forall|i: int| y + 15 < i < n - 6 implies is_digit(#[trigger] s[i]) by {
                assert(s[i] == frac[i - y - 15]);
            }
        }
    }
    assert(has_offset_tail(s)) by {
        assert(s[n - 6] == offset[0]);
        assert(s[n - 5] == offset[1]);
        assert(s[n - 4] == offset[2]);
        assert(s[n - 3] == offset[3]);
        assert(s[n - 2] == offset[4]);
        assert(s[n - 1] == offset[5]);
    }
    assert(is_offset_datetime_at(s, y));
    assert(s.take(n - 6) =~= year + rest + frac);
}

/// Stripping changes a text only when it is such a date-time, and then only
/// its offset goes.
pub proof fn lemma_strip_datetime_tz_changes_only_datetimes(s: Seq<char>)
    ensures
        strip_datetime_tz_spec(s) == s || exists|year: Seq<char>, rest: Seq<char>, frac: Seq<char>, offset: Seq<char>|
            #![trigger is_datetime_parts(year, rest, frac, offset)]
            is_datetime_parts(year, rest, frac, offset) && s == year + rest + frac + offset
                && strip_datetime_tz_spec(s) == year + rest + frac,
{
    if is_offset_datetime(s) {
        let y = choose|y: int| is_offset_datetime_at(s, y);
        let n = s.len() as int;
        let year = s.take(y);
        let rest = s.subrange(y, y + 15);
        let frac = s.subrange(y + 15, n - 6);
        let offset = s.skip(n - 6);
        assert(head_char_ok(0, s[y + 0]) && head_char_ok(3, s[y + 3]) && head_char_ok(6, s[y + 6]));
        assert(head_char_ok(9, s[y + 9]) && head_char_ok(12, s[y + 12]));
        assert forall|j: int|
            0 <= j < 15 && j != 0 && j != 3 && j != 6 && j != 9 && j != 12 implies '0' <= #[trigger] rest[j]
                && rest[j] <= '9' by {
            assert(rest[j] == s[y + j]);
            assert(head_char_ok(j, s[y + j]));
        }
        if y == 4 {
            assert forall|i: int| 0 <= i < 4 implies '0' <= #[trigger] year[i] && year[i] <= '9' by {
                assert(is_digit(s[i]));
            }
        } else {
            assert forall|i: int| 1 <= i < year.len() implies '0' <= #[trigger] year[i] && year[i] <= '9' by {
                assert(is_digit(s[i]));
            }
        }
        if frac.len() > 0 {
            assert forall|i: int| 1 <= i < frac.len() implies '0' <= #[trigger] frac[i] && frac[i] <= '9' by {
                assert(frac[i] == s[y + 15 + i]);
                assert(is_digit(s[y + 15 + i]));
            }
        }
        assert(is_datetime_parts(year, rest, frac, offset));
        assert(s =~= year + rest + frac + offset);
        assert(strip_datetime_tz_spec(s) =~= year + rest + frac);
    }
}

/// Only a date-time with an offset changes, and then exactly its trailing
/// `±HH:MM` is removed: what was removed is an offset, and the rest is kept.
pub proof fn lemma_strip_datetime_tz_removes_only_offset(s: Seq<char>)
    ensures
        !is_offset_datetime(s) ==> strip_datetime_tz_spec(s) == s,
        is_offset_datetime(s) ==> strip_datetime_tz_spec(s) + s.skip(s.len() - 6) == s
            && has_offset_tail(s.skip(s.len() - 6)),
{
    if is_offset_datetime(s) {
        assert(s.take(s.len() - 6) + s.skip(s.len() - 6) =~= s);
        let t = s.skip(s.len() - 6);
        assert(t[0] == s[s.len() - 6]);
        assert(t[5] == s[s.len() - 1]);
    }
}

// ── Lines of text ─────────────────────────────────────────────────────────────

/// The hexadecimal digit of `d` (`d < 16`), in lower case.
pub open spec fn hex_digit(d: int) -> char {
    seq!['0', '1', '2', '3', '4', '5', '6', '7', '8', '9', 'a', 'b', 'c', 'd', 'e', 'f'][d]
}

/// How JSON writes one character inside a string: `"` and `\` with a
/// backslash, backspace, tab, line feed, form feed and carriage return as
/// `\b \t \n \f \r`, other control characters below U+0020 as `\u00XX`, and
/// every other character as itself.
pub open spec fn json_escape_char(c: char) -> Seq<char> {
    if c == '"' {
        seq!['\\', '"']
    } else if c == '\\' {
        seq!['\\', '\\']
    } else if c == '\u{8}' {
        seq!['\\', 'b']
    } else if c == '\t' {
        seq!['\\', 't']
    } else if c == '\n' {
        seq!['\\', 'n']
    } else if c == '\u{c}' {
        seq!['\\', 'f']
    } else if c == '\r' {
        seq!['\\', 'r']
    } else if (c as int) < 0x20 {
        seq!['\\', 'u', '0', '0', hex_digit((c as int) / 16), hex_digit((c as int) % 16)]
    } else {
        seq![c]
    }
}

/// The characters of `s`, each escaped as JSON writes it inside a string.
pub open spec fn json_escaped(s: Seq<char>) -> Seq<char>
    decreases s.len(),
{
    if s.len() == 0 {
        Seq::empty()
    } else {
        json_escaped(s.drop_last()) + json_escape_char(s.last())
    }
}

/// The JSON text of the string `s`: quoted, with its characters escaped.
pub open spec fn json_string_text(s: Seq<char>) -> Seq<char> {
    seq!['"'] + json_escaped(s) + seq!['"']
}

/// Calls `serde_json::Value::to_string` on a JSON string value holding `s`,
/// which writes the string quoted, escaping as [`json_escape_char`] says
/// (serde_json's `format_escaped_str_contents` and its `ESCAPE` table).
#[verifier::external_body]
fn json_string(s: &String) -> (r: String)
    ensures
        r@ == json_string_text(s@),
{
    serde_json::Value::String(s.clone()).to_string()
}

/// How a cell reads in a CSV file: nothing for a null, `true`/`false`, the
/// decimal number, or the text with any date-time offset stripped.
pub open spec fn csv_text(c: Cell) -> Seq<char> {
    match c {
        Cell::Null => Seq::empty(),
        Cell::Bool(b) => if b {
            "true"@
        } else {
            "false"@
        },
        Cell::Int(n) => decimal(n as nat),
        Cell::Text(s) => strip_datetime_tz_spec(s@),
    }
}

/// How a cell reads in a table: its JSON text (`null`, `true`/`false`, the
/// decimal number, or the quoted string).
pub open spec fn table_text(c: Cell) -> Seq<char> {
    match c {
        Cell::Null => "null"@,
        Cell::Bool(b) => if b {
            "true"@
        } else {
            "false"@
        },
        Cell::Int(n) => decimal(n as nat),
        Cell::Text(s) => json_string_text(s@),
    }
}

/// The text of a cell for CSV (`for_csv`) or table output.
pub open spec fn cell_text(for_csv: bool, c: Cell) -> Seq<char> {
    if for_csv {
        csv_text(c)
    } else {
        table_text(c)
    }
}

/// The value of the first field of `fields` named `name`.
pub open spec fn lookup(fields: Seq<(String, Cell)>, name: Seq<char>) -> Option<Cell>
    decreases fields.len(),
{
    if fields.len() == 0 {
        None
    } else if fields[0].0@ == name {
        Some(fields[0].1)
    } else {
        lookup(fields.drop_first(), name)
    }
}

/// The field names of a row, in order.
pub open spec fn field_names(fields: Seq<(String, Cell)>) -> Seq<Seq<char>> {
    fields.map_values(|f: (String, Cell)| f.0@)
}

/// The line printed for a row under `headers`: per header, the text of the
/// row's field of that name, or nothing when the row has no such field.
pub open spec fn line_for(for_csv: bool, fields: Seq<(String, Cell)>, headers: Seq<Seq<char>>) -> Seq<
    Seq<char>,
> {
    headers.map_values(
        |h: Seq<char>|
            match lookup(fields, h) {
                Some(c) => cell_text(for_csv, c),
                None => Seq::<char>::empty(),
            },
    )
}

/// The lines printed for `rows`: nothing for no rows; otherwise a header line
/// holding the field names of the first row, then one line per row.
pub open spec fn rendered_lines(for_csv: bool, rows: Seq<Row>) -> Seq<Seq<Seq<char>>> {
    if rows.len() == 0 {
        Seq::empty()
    } else {
        let headers = field_names(rows[0].fields@);
        seq![headers] + rows.map_values(|r: Row| line_for(for_csv, r.fields@, headers))
    }
}

/// The texts of a list of strings.
pub open spec fn texts_of(xs: Seq<String>) -> Seq<Seq<char>> {
    xs.map_values(|x: String| x@)
}

/// The text of a list of lines.
pub open spec fn lines_view(lines: Seq<Vec<String>>) -> Seq<Seq<Seq<char>>> {
    lines.map_values(|l: Vec<String>| texts_of(l@))
}

fn cell_string(for_csv: bool, c: &Cell) -> (r: String)
    ensures
        r@ == cell_text(for_csv, *c),
{
    match c {
        Cell::Null => if for_csv {
            String::new()
        } else {
            "null".to_owned()
        },
        Cell::Bool(b) => if *b {
            "true".to_owned()
        } else {
            "false".to_owned()
        },
        Cell::Int(n) => decimal_text(*n),
        Cell::Text(s) => if for_csv {
            strip_datetime_tz(s.as_str())
        } else {
            json_string(s)
        },
    }
}

fn find_field(fields: &Vec<(String, Cell)>, name: &String) -> (r: Option<usize>)
    ensures
        match r {
            Some(i) => i < fields@.len() && lookup(fields@, name@) == Some(fields@[i as int].1),
            None => lookup(fields@, name@) is None,
        },
{
    let n = fields.len();
    assert(fields@.skip(0) =~= fields@);
    for i in 0..n
        invariant
            n == fields@.len(),
            lookup(fields@, name@) == lookup(fields@.skip(i as int), name@),
    {
        proof {
            assert(fields@.skip(i as int).drop_first() =~= fields@.skip(i + 1));
            assert(fields@.skip(i as int)[0] == fields@[i as int]);
        }
        if fields[i].0 == *name {
            return Some(i);
        }
    }
    proof {
        assert(fields@.skip(n as int).len() == 0);
    }
    None
}

fn render_line(for_csv: bool, row: &Row, headers: &Vec<String>) -> (r: Vec<String>)
    ensures
        r@.map_values(|x: String| x@) == line_for(
            for_csv,
            row.fields@,
            headers@.map_values(|h: String| h@),
        ),
{
    let mut line: Vec<String> = Vec::new();
    let n = headers.len();
    let ghost hv = headers@.map_values(|h: String| h@);
    for i in 0..n
        invariant
            n == headers@.len(),
            hv == headers@.map_values(|h: String| h@),
            line@.map_values(|x: String| x@) == line_for(for_csv, row.fields@, hv.take(i as int)),
    {
        let text = match find_field(&row.fields, &headers[i]) {
            Some(j) => cell_string(for_csv, &row.fields[j].1),
            None => String::new(),
        };
        let ghost before = line@;
        line.push(text);
        proof {
            assert(hv.take(i + 1) =~= hv.take(i as int).push(hv[i as int]));
            assert(line@.map_values(|x: String| x@) =~= before.map_values(|x: String| x@).push(
                text@,
            ));
            assert(line@.map_values(|x: String| x@) =~= line_for(
                for_csv,
                row.fields@,
                hv.take(i + 1),
            ));
        }
    }
    proof {
        assert(hv.take(n as int) =~= hv);
    }
    line
}

fn render_lines(for_csv: bool, rows: &Vec<Row>) -> (r: Vec<Vec<String>>)
    ensures
        lines_view(r@) == rendered_lines(for_csv, rows@),
{
    let mut lines: Vec<Vec<String>> = Vec::new();
    if rows.len() == 0 {
        assert(lines_view(lines@) =~= rendered_lines(for_csv, rows@));
        return lines;
    }
    let mut headers: Vec<String> = Vec::new();
    let first = &rows[0].fields;
    let nf = first.len();
    for i in 0..nf
        invariant
            nf == first@.len(),
            rows@.len() > 0,
            first@ == rows@[0].fields@,
            headers@.map_values(|h: String| h@) == field_names(first@.take(i as int)),
    {
        let ghost before = headers@;
        headers.push(first[i].0.clone());
        proof {
            assert(first@.take(i + 1) =~= first@.take(i as int).push(first@[i as int]));
            assert(headers@.map_values(|h: String| h@) =~= before.map_values(|h: String| h@).push(
                first@[i as int].0@,
            ));
            assert(headers@.map_values(|h: String| h@) =~= field_names(first@.take(i + 1)));
        }
    }
    proof {
        assert(first@.take(nf as int) =~= first@);
    }
    let ghost hv = headers@.map_values(|h: String| h@);
    let ghost hseq = headers@;
    lines.push(headers);
    let n = rows.len();
    for i in 0..n
        invariant
            n == rows@.len(),
            n > 0,
            hv == field_names(rows@[0].fields@),
            hseq.map_values(|h: String| h@) == hv,
            lines@.len() == i + 1,
            lines@[0]@ == hseq,
            forall|k: int|
                0 <= k < i ==> #[trigger] texts_of(lines@[k + 1]@) == line_for(
                    for_csv,
                    rows@[k].fields@,
                    hv,
                ),
    {
        let line = render_line(for_csv, &rows[i], &lines[0]);
        lines.push(line);
    }
    proof {
        let expect = rendered_lines(for_csv, rows@);
        let got = lines_view(lines@);
        assert(got.len() == expect.len());
        assert forall|k: int| 0 <= k < got.len() implies got[k] == expect[k] by {
            if k > 0 {
                assert(texts_of(lines@[(k - 1) + 1]@) == line_for(
                    for_csv,
                    rows@[k - 1].fields@,
                    hv,
                ));
            }
        }
        assert(got =~= expect);
    }
    lines
}

/// The lines the CSV renderer writes for `rows`: a header line holding the
/// field names of the first row, then one line per row with each cell's CSV
/// text (see [`csv_text`]); nothing for no rows.
pub fn csv_records(rows: &Vec<Row>) -> (r: Vec<Vec<String>>)
    ensures
        lines_view(r@) == rendered_lines(true, rows@),
{
    render_lines(true, rows)
}

/// The header and body lines the table renderer draws for `rows`: the field
/// names of the first row, then one line per row with each cell's JSON text
/// (see [`table_text`]); nothing for no rows.
pub fn table_records(rows: &Vec<Row>) -> (r: Vec<Vec<String>>)
    ensures
        lines_view(r@) == rendered_lines(false, rows@),
{
    render_lines(false, rows)
}

// ── Records and their schema ──────────────────────────────────────────────────

/// The cell of an optional text.
pub open spec fn opt_text(o: Option<String>) -> Cell {
    match o {
        Some(s) => Cell::Text(s),
        None => Cell::Null,
    }
}

/// The cell of an optional integer.
pub open spec fn opt_int(o: Option<u64>) -> Cell {
    match o {
        Some(n) => Cell::Int(n),
        None => Cell::Null,
    }
}

/// The cell for an optional text.
pub fn text_cell(o: &Option<String>) -> (r: Cell)
    ensures
        r == opt_text(*o),
{
    match o {
        Some(s) => Cell::Text(s.clone()),
        None => Cell::Null,
    }
}

/// The cell for an optional integer.
pub fn int_cell(o: Option<u64>) -> (r: Cell)
    ensures
        r == opt_int(o),
{
    match o {
        Some(n) => Cell::Int(n),
        None => Cell::Null,
    }
}

/// A cell of this kind may stand in a column of this description: null only
/// in a nullable column, otherwise a value of the column's type.
pub open spec fn cell_fits(c: Cell, col: ColumnView) -> bool {
    match c {
        Cell::Null => col.2,
        Cell::Bool(_) => col.1 == ColumnType::Boolean,
        Cell::Int(_) => col.1 == ColumnType::Integer,
        Cell::Text(_) => col.1 == ColumnType::String || col.1 == ColumnType::DateTime,
    }
}

/// The fields of a row are, in order, the columns `cols`, each holding a
/// value that fits its column.
pub open spec fn row_fits(fields: Seq<(String, Cell)>, cols: TableView) -> bool {
    &&& fields.len() == cols.len()
    &&& forall|i: int|
        0 <= i < fields.len() ==> #[trigger] fields[i].0@ == cols[i].0 && cell_fits(
            fields[i].1,
            cols[i],
        )
}

/// The values of a row's fields, in order.
pub open spec fn field_values(fields: Seq<(String, Cell)>) -> Seq<Cell> {
    fields.map_values(|f: (String, Cell)| f.1)
}

/// The header that the renderers print for records that fit a table schema
/// is exactly the schema's column names, in order.
pub proof fn lemma_header_is_schema(for_csv: bool, rows: Seq<Row>, cols: TableView)
    requires
        rows.len() > 0,
        row_fits(rows[0].fields@, cols),
    ensures
        rendered_lines(for_csv, rows)[0] == cols.map_values(|c: ColumnView| c.0),
        forall|k: int|
            1 <= k < rendered_lines(for_csv, rows).len() ==> #[trigger] rendered_lines(
                for_csv,
                rows,
            )[k].len() == cols.len(),
{
    let lines = rendered_lines(for_csv, rows);
    assert(lines[0] =~= cols.map_values(|c: ColumnView| c.0));
}

} // verus!

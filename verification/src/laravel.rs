//! The Laravel log-line parser.
//!
//! Recognises lines of the shape
//! `[YYYY-MM-DD HH:MM:SS] channel.LEVEL: message {"optional":"context"}`
//! and, in batches, stack-trace continuation lines that belong to the
//! record started on a matching line.  The grammar is stated as spec
//! functions over the character sequence and the parser is proved to
//! decide it exactly.

use vstd::prelude::*;
use vstd::multiset::Multiset;
use vstd::string::StrSliceExecFns;
use vstd::string::StringExecFns;
use crate::log_entry::{EntryModel, LogEntry};
use crate::log_level::LogLevel;
use crate::text::{is_space, is_space_exec, trim_start_idx, spec_trim, spec_dec, is_prefix,
    u64_to_dec, trim_str, str_starts_with, str_eq};
use crate::timestamp::Timestamp;

verus! {

/// Whether a string is accepted as JSON.  Acceptance is decided by the
/// JSON grammar alone, so it is a function of the string; the library
/// does not restate that grammar, it only names the result.
pub uninterp spec fn json_accepts(s: Seq<char>) -> bool;

/// Relies on `serde_json::from_str::<serde_json::Value>`: whether a
/// string parses as a JSON document depends on the string alone.
#[verifier::external_body]
fn json_accepts_exec(s: &str) -> (r: bool)
    ensures
        r == json_accepts(s@),
{
    serde_json::from_str::<serde_json::Value>(s).is_ok()
}

/// An ASCII word character: letter, digit or underscore.
pub open spec fn is_word_char(c: char) -> bool {
    (48 <= c as u32 && c as u32 <= 57) || (65 <= c as u32 && c as u32 <= 90) || (97 <= c as u32
        && c as u32 <= 122) || c == '_'
}

pub open spec fn is_digit(c: char) -> bool {
    48 <= c as u32 && c as u32 <= 57
}

/// End of the maximal run of word characters starting at `i`.
pub open spec fn word_end(s: Seq<char>, i: int) -> int
    decreases s.len() - i,
{
    if 0 <= i < s.len() && is_word_char(s[i]) {
        word_end(s, i + 1)
    } else {
        i
    }
}

/// End of the maximal run of digits starting at `i`.
pub open spec fn digit_end(s: Seq<char>, i: int) -> int
    decreases s.len() - i,
{
    if 0 <= i < s.len() && is_digit(s[i]) {
        digit_end(s, i + 1)
    } else {
        i
    }
}

/// Start of the time-of-day part: first non-whitespace index after the
/// fixed-width date.
pub open spec fn time_start(s: Seq<char>) -> int {
    trim_start_idx(s, 11)
}

/// Index of the closing bracket after the timestamp.
pub open spec fn ts_end(s: Seq<char>) -> int {
    time_start(s) + 8
}

/// Start of the channel name.
pub open spec fn channel_start(s: Seq<char>) -> int {
    trim_start_idx(s, ts_end(s) + 1)
}

/// End of the channel name.
pub open spec fn channel_end(s: Seq<char>) -> int {
    word_end(s, channel_start(s))
}

/// End of the level token (which starts right after the dot).
pub open spec fn level_end(s: Seq<char>) -> int {
    word_end(s, channel_end(s) + 1)
}

/// Start of the message: first non-whitespace index after the colon.
pub open spec fn msg_start(s: Seq<char>) -> int {
    trim_start_idx(s, level_end(s) + 1)
}

/// Whether a line matches the Laravel record-start shape
/// `[<date> <time>] <word>.<word>: <rest>`, with ASCII word characters,
/// any amount of whitespace where shown and none of the rest containing
/// a newline.
pub open spec fn laravel_match(s: Seq<char>) -> bool {
    &&& s.len() > 11
    &&& s[0] == '['
    &&& is_digit(s[1]) && is_digit(s[2]) && is_digit(s[3]) && is_digit(s[4])
    &&& s[5] == '-'
    &&& is_digit(s[6]) && is_digit(s[7])
    &&& s[8] == '-'
    &&& is_digit(s[9]) && is_digit(s[10])
    &&& is_space(s[11])
    &&& ts_end(s) < s.len()
    &&& is_digit(s[time_start(s)]) && is_digit(s[time_start(s) + 1])
    &&& s[time_start(s) + 2] == ':'
    &&& is_digit(s[time_start(s) + 3]) && is_digit(s[time_start(s) + 4])
    &&& s[time_start(s) + 5] == ':'
    &&& is_digit(s[time_start(s) + 6]) && is_digit(s[time_start(s) + 7])
    &&& s[ts_end(s)] == ']'
    &&& ts_end(s) + 1 < s.len() && is_space(s[ts_end(s) + 1])
    &&& channel_start(s) < s.len() && is_word_char(s[channel_start(s)])
    &&& channel_end(s) < s.len() && s[channel_end(s)] == '.'
    &&& channel_end(s) + 1 < s.len() && is_word_char(s[channel_end(s) + 1])
    &&& level_end(s) < s.len() && s[level_end(s)] == ':'
    &&& forall|j: int| msg_start(s) <= j < s.len() ==> s[j] != '\n'
}

/// The channel of a matching line.
pub open spec fn channel_of(s: Seq<char>) -> Seq<char> {
    s.subrange(channel_start(s), channel_end(s))
}

/// The level token of a matching line.
pub open spec fn level_of(s: Seq<char>) -> Seq<char> {
    s.subrange(channel_end(s) + 1, level_end(s))
}

/// The raw message of a matching line, context not yet split off.
pub open spec fn message_of(s: Seq<char>) -> Seq<char> {
    s.subrange(msg_start(s), s.len() as int)
}

/// The numeric value of a digit character.
pub open spec fn dval(c: char) -> int {
    c as u32 - 48
}

/// The timestamp of a matching line, when its fields form a real
/// calendar date and time of day.
pub open spec fn timestamp_of(s: Seq<char>) -> Option<Timestamp> {
    let t = time_start(s);
    let ts = Timestamp {
        year: (dval(s[1]) * 1000 + dval(s[2]) * 100 + dval(s[3]) * 10 + dval(s[4])) as u32,
        month: (dval(s[6]) * 10 + dval(s[7])) as u8,
        day: (dval(s[9]) * 10 + dval(s[10])) as u8,
        hour: (dval(s[t]) * 10 + dval(s[t + 1])) as u8,
        minute: (dval(s[t + 3]) * 10 + dval(s[t + 4])) as u8,
        second: (dval(s[t + 6]) * 10 + dval(s[t + 7])) as u8,
    };
    if ts.wf() {
        Some(ts)
    } else {
        None
    }
}

/// Index of the last occurrence of `" {"` in `m` (the index of the
/// space), or -1.
pub open spec fn last_brace(m: Seq<char>) -> int
    decreases m.len(),
{
    if m.len() < 2 {
        -1
    } else if m[m.len() - 2] == ' ' && m[m.len() - 1] == '{' {
        m.len() - 2
    } else {
        last_brace(m.drop_last())
    }
}

/// Splitting a message into clean text and JSON context: when the last
/// `" {"` starts a suffix that ends in `'}'` and is accepted as JSON,
/// the suffix becomes the context and the trimmed prefix the message;
/// otherwise the message stays whole with no context.
pub open spec fn spec_extract(m: Seq<char>) -> (Seq<char>, Option<Seq<char>>) {
    let i = last_brace(m);
    if i >= 0 {
        let json = m.subrange(i + 1, m.len() as int);
        if json.len() > 0 && json[json.len() - 1] == '}' && json_accepts(json) {
            (spec_trim(m.subrange(0, i)), Some(json))
        } else {
            (m, None)
        }
    } else {
        (m, None)
    }
}

/// The record a matching line parses to (stack trace not yet attached).
pub open spec fn parse_entry_model(s: Seq<char>, line_number: u64) -> EntryModel {
    let ex = spec_extract(message_of(s));
    EntryModel {
        id: "laravel-"@ + spec_dec(line_number as int),
        timestamp: timestamp_of(s),
        level: LogLevel::spec_parse(level_of(s)),
        message: ex.0,
        raw: s,
        line_number,
        context: ex.1,
        stack_trace: None,
        channel: Some(channel_of(s)),
    }
}

/// A stack frame line: `#` followed by digits and whitespace.
pub open spec fn is_frame_line(s: Seq<char>) -> bool {
    &&& s.len() > 0
    &&& s[0] == '#'
    &&& digit_end(s, 1) > 1
    &&& digit_end(s, 1) < s.len()
    &&& is_space(s[digit_end(s, 1)])
}

/// An indented `at`/`in`/`thrown` continuation line.
pub open spec fn is_cont_marker(s: Seq<char>) -> bool {
    let w = trim_start_idx(s, 0);
    &&& w > 0
    &&& {
        ||| (w + 2 < s.len() && s.subrange(w, w + 2) == "at"@ && is_space(s[w + 2]))
        ||| (w + 2 < s.len() && s.subrange(w, w + 2) == "in"@ && is_space(s[w + 2]))
        ||| (w + 6 < s.len() && s.subrange(w, w + 6) == "thrown"@ && is_space(s[w + 6]))
    }
}

/// A line that belongs to a stack trace.
pub open spec fn is_stack_trace_line_spec(s: Seq<char>) -> bool {
    ||| is_frame_line(s)
    ||| is_cont_marker(s)
    ||| is_prefix("Stack trace:"@, spec_trim(s))
    ||| is_prefix("[stacktrace]"@, spec_trim(s))
}

/// Where consumption of a multi-line record stops, scanning from
/// position `j` with `collected` telling whether continuation lines
/// have been taken already.  A new record start stops consumption; a
/// blank line is taken as a single trailing blank only after
/// continuation lines; a non-continuation non-blank line stops
/// consumption when nothing was collected yet.
pub open spec fn consume_from(lines: Seq<Seq<char>>, j: int, collected: bool) -> int
    decreases lines.len() - j,
{
    if j < 0 || j >= lines.len() {
        j
    } else {
        let l = lines[j];
        if laravel_match(l) {
            j
        } else if spec_trim(l).len() == 0 {
            if collected {
                j + 1
            } else {
                j
            }
        } else if is_stack_trace_line_spec(l) || collected {
            consume_from(lines, j + 1, true)
        } else {
            j
        }
    }
}

/// How many lines of the batch the record starting at line 0 consumes.
pub open spec fn multiline_consumed(lines: Seq<Seq<char>>) -> int {
    consume_from(lines, 1, false)
}

pub proof fn lemma_consume_bounds(lines: Seq<Seq<char>>, j: int, collected: bool)
    requires
        1 <= j <= lines.len(),
    ensures
        j <= consume_from(lines, j, collected) <= lines.len(),
    decreases lines.len() - j,
{
    if j < lines.len() {
        let l = lines[j];
        if !laravel_match(l) && spec_trim(l).len() != 0 && (is_stack_trace_line_spec(l)
            || collected) {
            lemma_consume_bounds(lines, j + 1, true);
        }
    }
}

/// The record a matching batch parses to: the first line's record with
/// the consumed continuation lines attached as its stack trace.
pub open spec fn multiline_entry_model(lines: Seq<Seq<char>>, start_line: u64) -> EntryModel {
    let base = parse_entry_model(lines[0], start_line);
    let c = multiline_consumed(lines);
    if c > 1 {
        EntryModel { stack_trace: Some(lines.subrange(1, c)), ..base }
    } else {
        base
    }
}

/// The boundaries of a matching line, as the scanner finds them.
struct Bounds {
    t: usize,
    ch_s: usize,
    ch_e: usize,
    lv_e: usize,
    msg_s: usize,
}

/// Skips whitespace from `i`.
fn skip_ws(s: &str, i: usize) -> (r: usize)
    requires
        i <= s@.len(),
    ensures
        r == trim_start_idx(s@, i as int),
        i <= r <= s@.len(),
{
    let n = s.unicode_len();
    let mut j = i;
    while j < n && is_space_exec(s.get_char(j))
        invariant
            i <= j <= n,
            n == s@.len(),
            trim_start_idx(s@, i as int) == trim_start_idx(s@, j as int),
        decreases n - j,
    {
        proof {
            assert(trim_start_idx(s@, j as int) == trim_start_idx(s@, j + 1));
        }
        j = j + 1;
    }
    proof {
        assert(trim_start_idx(s@, j as int) == j as int);
    }
    j
}

fn is_word_char_exec(c: char) -> (r: bool)
    ensures
        r == is_word_char(c),
{
    let u = c as u32;
    (48 <= u && u <= 57) || (65 <= u && u <= 90) || (97 <= u && u <= 122) || c == '_'
}

fn is_digit_exec(c: char) -> (r: bool)
    ensures
        r == is_digit(c),
{
    let u = c as u32;
    48 <= u && u <= 57
}

/// Skips word characters from `i`.
fn skip_word(s: &str, i: usize) -> (r: usize)
    requires
        i <= s@.len(),
    ensures
        r == word_end(s@, i as int),
        i <= r <= s@.len(),
{
    let n = s.unicode_len();
    let mut j = i;
    while j < n && is_word_char_exec(s.get_char(j))
        invariant
            i <= j <= n,
            n == s@.len(),
            word_end(s@, i as int) == word_end(s@, j as int),
        decreases n - j,
    {
        proof {
            assert(word_end(s@, j as int) == word_end(s@, j + 1));
        }
        j = j + 1;
    }
    proof {
        assert(word_end(s@, j as int) == j as int);
    }
    j
}

/// Skips digits from `i`.
fn skip_digits(s: &str, i: usize) -> (r: usize)
    requires
        i <= s@.len(),
    ensures
        r == digit_end(s@, i as int),
        i <= r <= s@.len(),
{
    let n = s.unicode_len();
    let mut j = i;
    while j < n && is_digit_exec(s.get_char(j))
        invariant
            i <= j <= n,
            n == s@.len(),
            digit_end(s@, i as int) == digit_end(s@, j as int),
        decreases n - j,
    {
        proof {
            assert(digit_end(s@, j as int) == digit_end(s@, j + 1));
        }
        j = j + 1;
    }
    proof {
        assert(digit_end(s@, j as int) == j as int);
    }
    j
}

/// Scans a line against the record-start grammar, returning its
/// boundaries exactly when it matches.
#[verifier::loop_isolation(false)]
fn scan(line: &str) -> (r: Option<Bounds>)
    ensures
        r is Some <==> laravel_match(line@),
        r is Some ==> {
            let b = r->0;
            &&& b.t == time_start(line@)
            &&& b.ch_s == channel_start(line@)
            &&& b.ch_e == channel_end(line@)
            &&& b.lv_e == level_end(line@)
            &&& b.msg_s == msg_start(line@)
            &&& 11 <= b.t
            &&& b.t + 8 < line@.len()
            &&& b.ch_s <= b.ch_e
            &&& b.ch_e < line@.len()
            &&& b.ch_e + 1 <= b.lv_e
            &&& b.lv_e < line@.len()
            &&& b.lv_e + 1 <= b.msg_s <= line@.len()
        },
{
    let n = line.unicode_len();
    if n <= 11 {
        return None;
    }
    if line.get_char(0) != '[' {
        return None;
    }
    if !(is_digit_exec(line.get_char(1)) && is_digit_exec(line.get_char(2)) && is_digit_exec(
        line.get_char(3),
    ) && is_digit_exec(line.get_char(4))) {
        return None;
    }
    if line.get_char(5) != '-' {
        return None;
    }
    if !(is_digit_exec(line.get_char(6)) && is_digit_exec(line.get_char(7))) {
        return None;
    }
    if line.get_char(8) != '-' {
        return None;
    }
    if !(is_digit_exec(line.get_char(9)) && is_digit_exec(line.get_char(10))) {
        return None;
    }
    if !is_space_exec(line.get_char(11)) {
        return None;
    }
    let t = skip_ws(line, 11);
    if n - t < 9 {
        return None;
    }
    if !(is_digit_exec(line.get_char(t)) && is_digit_exec(line.get_char(t + 1))) {
        return None;
    }
    if line.get_char(t + 2) != ':' {
        return None;
    }
    if !(is_digit_exec(line.get_char(t + 3)) && is_digit_exec(line.get_char(t + 4))) {
        return None;
    }
    if line.get_char(t + 5) != ':' {
        return None;
    }
    if !(is_digit_exec(line.get_char(t + 6)) && is_digit_exec(line.get_char(t + 7))) {
        return None;
    }
    if line.get_char(t + 8) != ']' {
        return None;
    }
    if n - t < 10 {
        return None;
    }
    if !is_space_exec(line.get_char(t + 9)) {
        return None;
    }
    let ch_s = skip_ws(line, t + 9);
    if ch_s >= n || !is_word_char_exec(line.get_char(ch_s)) {
        return None;
    }
    let ch_e = skip_word(line, ch_s);
    if ch_e >= n || line.get_char(ch_e) != '.' {
        return None;
    }
    if ch_e + 1 >= n || !is_word_char_exec(line.get_char(ch_e + 1)) {
        return None;
    }
    let lv_e = skip_word(line, ch_e + 1);
    if lv_e >= n || line.get_char(lv_e) != ':' {
        return None;
    }
    let msg_s = skip_ws(line, lv_e + 1);
    let mut j = msg_s;
    while j < n
        invariant
            msg_s <= j <= n,
            n == line@.len(),
            forall|k: int| msg_s <= k < j ==> line@[k] != '\n',
        decreases n - j,
    {
        if line.get_char(j) == '\n' {
            return None;
        }
        j = j + 1;
    }
    Some(Bounds { t, ch_s, ch_e, lv_e, msg_s })
}

/// The Laravel log parser.
#[derive(Debug, Clone)]
pub struct LaravelLogParser;

impl Default for LaravelLogParser {
    fn default() -> (r: Self)
        ensures
            r == LaravelLogParser,
    {
        LaravelLogParser
    }
}

impl LaravelLogParser {
    /// Creates a new Laravel log parser.
    pub fn new() -> (r: Self)
        ensures
            r == LaravelLogParser,
    {
        LaravelLogParser
    }

    /// The name of this parser.
    pub fn name(&self) -> (r: &'static str)
        ensures
            r@ == "Laravel"@,
    {
        "Laravel"
    }

    /// Checks whether this parser can handle the given line.
    pub fn can_parse(&self, line: &str) -> (r: bool)
        ensures
            r == laravel_match(line@),
    {
        scan(line).is_some()
    }

    /// Splits the JSON context, if any, off a message.
    pub fn extract_context(&self, message: &str) -> (r: (String, Option<String>))
        ensures
            r.0@ == spec_extract(message@).0,
            r.1.deep_view() == spec_extract(message@).1,
    {
        let n = message.unicode_len();
        let mut i: usize = n;
        while i >= 2
            invariant
                0 <= i <= n,
                n == message@.len(),
                forall|p: int|
                    i - 1 <= p && p + 1 < n ==> !(#[trigger] message@[p] == ' ' && message@[p + 1]
                        == '{'),
            decreases i,
        {
            if message.get_char(i - 2) == ' ' && message.get_char(i - 1) == '{' {
                proof {
                    lemma_last_brace_pin(message@, i - 2);
                }
                let json = message.substring_char(i - 1, n);
                let ok = json.unicode_len() > 0 && json.get_char(json.unicode_len() - 1) == '}'
                    && json_accepts_exec(json);
                if ok {
                    let clean = trim_str(message.substring_char(0, i - 2));
                    return (clean, Some(String::from_str(json)));
                } else {
                    return (String::from_str(message), None);
                }
            }
            i = i - 1;
        }
        proof {
            lemma_last_brace_none(message@);
        }
        (String::from_str(message), None)
    }

    /// Checks if a line is part of a stack trace.
    pub fn is_stack_trace_line(&self, line: &str) -> (r: bool)
        ensures
            r == is_stack_trace_line_spec(line@),
    {
        let n = line.unicode_len();
        // frame lines: '#', digits, whitespace
        let mut frame = false;
        if n > 0 && line.get_char(0) == '#' {
            let d = skip_digits(line, 1);
            if d > 1 && d < n && is_space_exec(line.get_char(d)) {
                frame = true;
            }
        }
        assert(frame == is_frame_line(line@));
        // indented at/in/thrown continuation
        let w = skip_ws(line, 0);
        let mut cont = false;
        if w > 0 && w < n {
            if n - w > 2 {
                let pair = line.substring_char(w, w + 2);
                if (str_eq(pair, "at") || str_eq(pair, "in")) && is_space_exec(
                    line.get_char(w + 2),
                ) {
                    cont = true;
                }
            }
            if !cont && n - w > 6 {
                let kw = line.substring_char(w, w + 6);
                if str_eq(kw, "thrown") && is_space_exec(line.get_char(w + 6)) {
                    cont = true;
                }
            }
        }
        proof {
            reveal_strlit("at");
            reveal_strlit("in");
            reveal_strlit("thrown");
            assert(cont == is_cont_marker(line@));
        }
        let trimmed = trim_str(line);
        let marker = str_starts_with(trimmed.as_str(), "Stack trace:") || str_starts_with(
            trimmed.as_str(),
            "[stacktrace]",
        );
        frame || cont || marker
    }

    /// Attempts to parse a single log line; returns the record exactly
    /// when the line matches the grammar.
    pub fn parse(&self, line: &str, line_number: u64) -> (r: Option<LogEntry>)
        ensures
            r is Some <==> laravel_match(line@),
            r is Some ==> r->0@ == parse_entry_model(line@, line_number),
    {
        let b = match scan(line) {
            Some(b) => b,
            None => {
                return None;
            },
        };
        let n = line.unicode_len();
        // timestamp digits
        let y = (line.get_char(1) as u32 - 48) * 1000 + (line.get_char(2) as u32 - 48) * 100 + (
        line.get_char(3) as u32 - 48) * 10 + (line.get_char(4) as u32 - 48);
        let mo = ((line.get_char(6) as u32 - 48) * 10 + (line.get_char(7) as u32 - 48)) as u8;
        let d = ((line.get_char(9) as u32 - 48) * 10 + (line.get_char(10) as u32 - 48)) as u8;
        let h = ((line.get_char(b.t) as u32 - 48) * 10 + (line.get_char(b.t + 1) as u32 - 48)) as u8;
        let mi = ((line.get_char(b.t + 3) as u32 - 48) * 10 + (line.get_char(b.t + 4) as u32 - 48))
            as u8;
        let sec = ((line.get_char(b.t + 6) as u32 - 48) * 10 + (line.get_char(b.t + 7) as u32 - 48))
            as u8;
        let timestamp = Timestamp::new(y, mo, d, h, mi, sec);
        assert(timestamp == timestamp_of(line@));
        let channel = String::from_str(line.substring_char(b.ch_s, b.ch_e));
        let level_str = line.substring_char(b.ch_e + 1, b.lv_e);
        let level = LogLevel::parse(level_str);
        let raw_message = line.substring_char(b.msg_s, n);
        let (clean_message, context) = self.extract_context(raw_message);
        let mut id = String::from_str("laravel-");
        let num = u64_to_dec(line_number);
        id.append(num.as_str());
        let entry = LogEntry::new(
            id,
            timestamp,
            level,
            clean_message,
            String::from_str(line),
            line_number,
            context,
            None,
            Some(channel),
        );
        Some(entry)
    }

    /// Parses a multi-line record: the first line must match the
    /// grammar; subsequent lines are consumed by the continuation rule
    /// and attached as the stack trace.  Returns the record and the
    /// number of lines consumed.
    #[verifier::loop_isolation(false)]
    pub fn parse_multiline(&self, lines: &Vec<String>, start_line: u64) -> (r: Option<
        (LogEntry, usize),
    >)
        ensures
            r is Some <==> (lines@.len() > 0 && laravel_match(lines@[0]@)),
            r is Some ==> {
                let c = multiline_consumed(lines.deep_view());
                &&& (r->0).1 == c
                &&& (r->0).0@ == multiline_entry_model(lines.deep_view(), start_line)
            },
    {
        if lines.len() == 0 {
            return None;
        }
        let ghost lv = lines.deep_view();
        assert(lv[0] == lines@[0]@);
        let entry = match self.parse(lines[0].as_str(), start_line) {
            Some(e) => e,
            None => {
                return None;
            },
        };
        let n = lines.len();
        let mut trace: Vec<String> = Vec::new();
        let mut j: usize = 1;
        let mut stop = false;
        while !stop && j < n
            invariant
                1 <= j <= n,
                n == lv.len(),
                lv == lines.deep_view(),
                trace.len() == j - 1,
                forall|k: int| 0 <= k < trace.len() ==> trace[k]@ == lv[k + 1],
                !stop ==> multiline_consumed(lv) == consume_from(lv, j as int, trace.len() > 0),
                stop ==> multiline_consumed(lv) == j,
            decreases n - j, (if stop { 0int } else { 1int }),
        {
            let line = lines[j].as_str();
            assert(line@ == lv[j as int]);
            if self.can_parse(line) {
                stop = true;
            } else {
                let (a, b) = crate::text::trim_bounds(line);
                let blank = a >= b;
                proof {
                    assert(blank == (spec_trim(line@).len() == 0));
                }
                if blank {
                    if trace.len() > 0 {
                        trace.push(String::from_str(line));
                        j = j + 1;
                    }
                    stop = true;
                } else if self.is_stack_trace_line(line) || trace.len() > 0 {
                    trace.push(String::from_str(line));
                    j = j + 1;
                } else {
                    stop = true;
                }
            }
        }
        proof {
            if !stop {
                assert(j == n);
                assert(consume_from(lv, j as int, trace.len() > 0) == j);
            }
        }
        let consumed = j;
        assert(consumed == multiline_consumed(lv));
        if trace.len() > 0 {
            proof {
                assert(trace.deep_view() =~= lv.subrange(1, consumed as int));
            }
            let entry2 = entry.with_stack_trace(trace);
            Some((entry2, consumed))
        } else {
            assert(consumed == 1);
            Some((entry, consumed))
        }
    }
}

/// A file name in the shape of a Laravel daily log as the detector
/// accepts it: prefix `laravel-` and suffix `.log`.
pub open spec fn daily_log_name(n: Seq<char>) -> bool {
    is_prefix("laravel-"@, n) && crate::text::is_suffix(".log"@, n)
}

fn is_daily_log_name(name: &str) -> (r: bool)
    ensures
        r == daily_log_name(name@),
{
    str_starts_with(name, "laravel-") && crate::text::str_ends_with(name, ".log")
}

/// The views of a list of names.
pub open spec fn name_models(v: Seq<String>) -> Seq<Seq<char>> {
    v.map_values(|s: String| s@)
}

/// Non-strict descending lexicographic order.
pub open spec fn lex_geq(a: Seq<char>, b: Seq<char>) -> bool {
    a == b || crate::text::lex_lt(b, a)
}

/// Finds log files named like Laravel daily logs in a directory
/// listing, handed in as the list of file names.
#[derive(Debug, Default)]
pub struct LaravelDailyLogDetector;

/// The glob pattern for Laravel daily logs.
pub const DAILY_PATTERN: &'static str = "laravel-*.log";

impl LaravelDailyLogDetector {
    /// Checks whether a directory listing holds any Laravel daily log.
    pub fn detect(names: &Vec<String>) -> (r: bool)
        ensures
            r == exists|i: int| 0 <= i < names@.len() && daily_log_name(#[trigger] names@[i]@),
    {
        let n = names.len();
        let mut i: usize = 0;
        while i < n
            invariant
                0 <= i <= n,
                n == names@.len(),
                forall|j: int| 0 <= j < i ==> !daily_log_name(#[trigger] names@[j]@),
            decreases n - i,
        {
            if is_daily_log_name(names[i].as_str()) {
                return true;
            }
            i = i + 1;
        }
        false
    }

    /// Picks the most recent Laravel daily log of a listing: the
    /// lexicographically greatest matching name (chronological for the
    /// date-suffixed names).
    pub fn get_latest(names: &Vec<String>) -> (r: Option<String>)
        ensures
            match r {
                Some(best) => {
                    &&& daily_log_name(best@)
                    &&& exists|i: int| 0 <= i < names@.len() && names@[i]@ == best@
                    &&& forall|j: int|
                        0 <= j < names@.len() && daily_log_name(#[trigger] names@[j]@) ==> lex_geq(
                            best@,
                            names@[j]@,
                        )
                },
                None => forall|j: int|
                    0 <= j < names@.len() ==> !daily_log_name(#[trigger] names@[j]@),
            },
    {
        let n = names.len();
        let mut best: Option<String> = None;
        let mut i: usize = 0;
        while i < n
            invariant
                0 <= i <= n,
                n == names@.len(),
                match best {
                    Some(b) => {
                        &&& daily_log_name(b@)
                        &&& exists|k: int| 0 <= k < i && names@[k]@ == b@
                        &&& forall|j: int|
                            0 <= j < i && daily_log_name(#[trigger] names@[j]@) ==> lex_geq(
                                b@,
                                names@[j]@,
                            )
                    },
                    None => forall|j: int| 0 <= j < i ==> !daily_log_name(#[trigger] names@[j]@),
                },
            decreases n - i,
        {
            let name = &names[i];
            if is_daily_log_name(name.as_str()) {
                let ghost old_best = best;
                let replace = match &best {
                    None => true,
                    Some(b) => crate::text::str_lt(b.as_str(), name.as_str()),
                };
                if replace {
                    best = Some(name.clone());
                    proof {
                        if old_best is Some {
                            let bv = old_best->0@;
                            assert forall|j: int|
                                0 <= j < i + 1 && daily_log_name(#[trigger] names@[j]@)
                                implies lex_geq(name@, names@[j]@) by {
                                if j < i {
                                    if names@[j]@ != bv {
                                        crate::text::lemma_lex_lt_trans(names@[j]@, bv, name@);
                                    }
                                }
                            }
                        }
                    }
                } else {
                    proof {
                        let bv = best->0@;
                        crate::text::lemma_lex_trichotomy(bv, name@);
                    }
                }
            }
            i = i + 1;
        }
        best
    }

    /// Returns all Laravel daily logs of a listing, newest first: the
    /// matching names in descending lexicographic order, none lost and
    /// none invented.
    pub fn get_all(names: &Vec<String>) -> (r: Vec<String>)
        ensures
            name_models(r@).to_multiset() == name_models(names@).filter(
                |s: Seq<char>| daily_log_name(s),
            ).to_multiset(),
            forall|i: int, j: int|
                0 <= i <= j < r@.len() ==> lex_geq(#[trigger] name_models(r@)[i], #[trigger] name_models(
                    r@,
                )[j]),
    {
        let n = names.len();
        let mut work: Vec<String> = Vec::new();
        let mut i: usize = 0;
        while i < n
            invariant
                0 <= i <= n,
                n == names@.len(),
                name_models(work@) == name_models(names@).subrange(0, i as int).filter(
                    |s: Seq<char>| daily_log_name(s),
                ),
            decreases n - i,
        {
            let ghost prefix = name_models(names@).subrange(0, i as int);
            proof {
                assert(name_models(names@).subrange(0, i + 1) =~= prefix.push(names@[i as int]@));
                Seq::lemma_filter_push(prefix, names@[i as int]@, |s: Seq<char>| daily_log_name(s));
            }
            if is_daily_log_name(names[i].as_str()) {
                work.push(names[i].clone());
            }
            proof {
                assert(name_models(work@) =~= name_models(names@).subrange(0, i + 1).filter(
                    |s: Seq<char>| daily_log_name(s),
                ));
            }
            i = i + 1;
        }
        proof {
            assert(name_models(names@).subrange(0, n as int) =~= name_models(names@));
        }
        sort_names_desc(work)
    }
}

/// Sorts names in descending lexicographic order by repeatedly moving
/// the greatest remaining name to the output.
#[verifier::loop_isolation(false)]
fn sort_names_desc(input: Vec<String>) -> (r: Vec<String>)
    ensures
        name_models(r@).to_multiset() == name_models(input@).to_multiset(),
        forall|i: int, j: int|
            0 <= i <= j < r@.len() ==> lex_geq(#[trigger] name_models(r@)[i], #[trigger] name_models(
                r@,
            )[j]),
{
    broadcast use vstd::seq_lib::group_to_multiset_ensures;

    let ghost init = name_models(input@);
    let mut work = input;
    let mut out: Vec<String> = Vec::new();
    while work.len() > 0
        invariant
            name_models(out@).to_multiset().add(name_models(work@).to_multiset())
                =~= init.to_multiset(),
            forall|i: int, j: int|
                0 <= i <= j < out@.len() ==> lex_geq(
                    #[trigger] name_models(out@)[i],
                    #[trigger] name_models(out@)[j],
                ),
            forall|i: int, j: int|
                0 <= i < out@.len() && 0 <= j < work@.len() ==> lex_geq(
                    #[trigger] name_models(out@)[i],
                    #[trigger] name_models(work@)[j],
                ),
        decreases work.len(),
    {
        let m = work.len();
        let mut mi: usize = 0;
        let mut k: usize = 1;
        while k < m
            invariant
                0 <= mi < m,
                mi < k <= m,
                m == work@.len(),
                forall|j: int| 0 <= j < k ==> lex_geq(work@[mi as int]@, #[trigger] work@[j]@),
            decreases m - k,
        {
            if crate::text::str_lt(work[mi].as_str(), work[k].as_str()) {
                let ghost old_mi = mi as int;
                mi = k;
                proof {
                    assert forall|j: int| 0 <= j < k + 1 implies lex_geq(
                        work@[mi as int]@,
                        #[trigger] work@[j]@,
                    ) by {
                        if j < k {
                            if work@[j]@ == work@[old_mi]@ {
                            } else {
                                crate::text::lemma_lex_lt_trans(
                                    work@[j]@,
                                    work@[old_mi]@,
                                    work@[k as int]@,
                                );
                            }
                        }
                    }
                }
            } else {
                proof {
                    crate::text::lemma_lex_trichotomy(work@[mi as int]@, work@[k as int]@);
                }
            }
            k = k + 1;
        }
        let ghost pre_work = name_models(work@);
        let ghost pre_out = name_models(out@);
        let picked = work.remove(mi);
        out.push(picked);
        proof {
            assert(name_models(work@) =~= pre_work.remove(mi as int));
            assert(name_models(out@) =~= pre_out.push(picked@));
            assert(pre_work[mi as int] == picked@);
            assert(name_models(out@).to_multiset().add(name_models(work@).to_multiset())
                =~= pre_out.to_multiset().add(pre_work.to_multiset()));
        }
    }
    proof {
        assert(name_models(work@).to_multiset() =~= Multiset::<Seq<char>>::empty());
        assert(name_models(out@).to_multiset() =~= init.to_multiset());
    }
    out
}

proof fn lemma_last_brace_pin(m: Seq<char>, i: int)
    requires
        0 <= i,
        i + 1 < m.len(),
        m[i] == ' ',
        m[i + 1] == '{',
        forall|k: int| i < k && k + 1 < m.len() ==> !(#[trigger] m[k] == ' ' && m[k + 1] == '{'),
    ensures
        last_brace(m) == i,
    decreases m.len(),
{
    if i + 2 == m.len() {
    } else {
        assert(!(m[m.len() - 2] == ' ' && m[m.len() - 1] == '{'));
        lemma_last_brace_pin(m.drop_last(), i);
    }
}

proof fn lemma_last_brace_none(m: Seq<char>)
    requires
        forall|k: int| 0 <= k && k + 1 < m.len() ==> !(#[trigger] m[k] == ' ' && m[k + 1] == '{'),
    ensures
        last_brace(m) == -1,
    decreases m.len(),
{
    if m.len() >= 2 {
        assert(!(m[m.len() - 2] == ' ' && m[m.len() - 1] == '{'));
        lemma_last_brace_none(m.drop_last());
    }
}

} // verus!

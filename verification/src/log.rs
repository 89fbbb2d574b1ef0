//! Log viewer: parsing of log lines, query parameters, filtering and pagination.
use crate::url::{lookup, parse_unsigned, UrlParams};
use crate::text::{
    chars_of, contains, contains_chars, eq_chars, eq_ignore_ascii_case, eq_ignore_ascii_case_chars, first_segment, first_segment_chars, opt_chars, split_once, split_once_chars,
    insert_sorted, strictly_sorted, string_of, texts, to_uppercase, trim, trim_chars, uppercase, find_from, find_from_bounds, is_ws, lemma_contains_char, lemma_find_at, lemma_find_first,
    lemma_find_none, lemma_trim_ends, lemma_trim_exact,
};
use vstd::prelude::*;

verus! {

/// What `chrono::DateTime::parse_from_rfc3339` makes of a text: `None` where it
/// refuses the text; otherwise the Unix time in seconds (`timestamp()`) and the
/// text `to_rfc3339_opts(SecondsFormat::Secs, true)` writes for it.
pub uninterp spec fn rfc3339(text: Seq<char>) -> Option<(i64, Seq<char>)>;

/// Calls `DateTime::parse_from_rfc3339` and, on success, `timestamp` and
/// `to_rfc3339_opts(SecondsFormat::Secs, true)` on the parsed value. The contract
/// only ties the result to `rfc3339`; which texts chrono accepts is not stated.
#[verifier::external_body]
fn parse_rfc3339(text: &str) -> (r: Option<(i64, String)>)
    ensures
        r is None <==> rfc3339(text@) is None,
        r matches Some(p) ==> rfc3339(text@) == Some((p.0, p.1@)),
{
    match chrono::DateTime::parse_from_rfc3339(text) {
        Ok(dt) => Some((dt.timestamp(), dt.to_rfc3339_opts(chrono::SecondsFormat::Secs, true))),
        Err(_) => None,
    }
}

/// Seconds since the Unix epoch of an RFC 3339 text, where chrono accepts it.
pub open spec fn rfc3339_seconds(text: Seq<char>) -> Option<i64> {
    match rfc3339(text) {
        Some(p) => Some(p.0),
        None => None,
    }
}

/// `DateTime::parse_from_rfc3339(text).ok().map(|dt| dt.timestamp())`.
pub fn rfc3339_timestamp(text: &str) -> (r: Option<i64>)
    ensures
        r == rfc3339_seconds(text@),
{
    match parse_rfc3339(text) {
        Some(p) => Some(p.0),
        None => None,
    }
}

/// One parsed line of the server log.
pub struct LogEntry {
    pub timestamp: String,
    pub level: String,
    pub level_color: &'static str,
    pub event: String,
    pub event_id: String,
    pub details: String,
    pub service: Option<String>,
}

/// A log entry taken by its characters.
pub struct LogEntryView {
    pub timestamp: Seq<char>,
    pub level: Seq<char>,
    pub level_color: Seq<char>,
    pub event: Seq<char>,
    pub event_id: Seq<char>,
    pub details: Seq<char>,
    pub service: Option<Seq<char>>,
}

impl View for LogEntry {
    type V = LogEntryView;

    open spec fn view(&self) -> LogEntryView {
        LogEntryView {
            timestamp: self.timestamp@,
            level: self.level@,
            level_color: self.level_color@,
            event: self.event@,
            event_id: self.event_id@,
            details: self.details@,
            service: opt_chars(self.service),
        }
    }
}

/// The raw fields of a log line, before the time stamp and level are normalised.
pub struct LogLineParts {
    pub timestamp: String,
    pub level: String,
    pub event: String,
    pub event_id: String,
    pub details: String,
}

/// Raw fields of a log line taken by their characters.
pub struct LinePartsView {
    pub timestamp: Seq<char>,
    pub level: Seq<char>,
    pub event: Seq<char>,
    pub event_id: Seq<char>,
    pub details: Seq<char>,
}

impl View for LogLineParts {
    type V = LinePartsView;

    open spec fn view(&self) -> LinePartsView {
        LinePartsView {
            timestamp: self.timestamp@,
            level: self.level@,
            event: self.event@,
            event_id: self.event_id@,
            details: self.details@,
        }
    }
}

/// A line reads `<timestamp> <level> <event> (<event id>)<details>`: the time
/// stamp ends at the first space; level and event are read after trimming.
pub open spec fn split_line(line: Seq<char>) -> Option<LinePartsView> {
    match split_once(line, seq![' ']) {
        None => None,
        Some(first) => match split_once(trim(first.1), seq![' ']) {
            None => None,
            Some(second) => match split_once(trim(second.1), seq![' ', '(']) {
                None => None,
                Some(third) => match split_once(third.1, seq![')']) {
                    None => None,
                    Some(fourth) => Some(
                        LinePartsView {
                            timestamp: first.0,
                            level: second.0,
                            event: third.0,
                            event_id: fourth.0,
                            details: fourth.1,
                        },
                    ),
                },
            },
        },
    }
}

/// The display colour of an upper-cased level.
pub open spec fn level_color(level: Seq<char>) -> Seq<char> {
    if level == seq!['E', 'R', 'R', 'O', 'R'] {
        seq!['#', 'f', 'f', '4', '4', '4', '4']
    } else if level == seq!['W', 'A', 'R', 'N'] {
        seq!['#', 'f', 'f', 'a', 'a', '0', '0']
    } else if level == seq!['I', 'N', 'F', 'O'] {
        seq!['#', '4', '4', 'b', 'b', '4', '4']
    } else if level == seq!['D', 'E', 'B', 'U', 'G'] {
        seq!['#', '4', '4', '8', '8', 'f', 'f']
    } else if level == seq!['T', 'R', 'A', 'C', 'E'] {
        seq!['#', '8', '8', '8', '8', '8', '8']
    } else {
        seq!['#', 'c', 'c', 'c', 'c', 'c', 'c']
    }
}

/// The entry built from the raw fields, the canonical time stamp and the upper-cased level;
/// its service is the category of the dotted event name in parentheses (`smtp.delivery` gives `smtp`).
pub open spec fn entry_of(parts: LinePartsView, timestamp: Seq<char>, level: Seq<char>) -> LogEntryView {
    LogEntryView {
        timestamp: timestamp,
        level: level,
        level_color: level_color(level),
        event: parts.event,
        event_id: parts.event_id,
        details: trim(parts.details),
        service: Some(first_segment(parts.event_id, '.')),
    }
}

/// What parsing a log line gives: `None` unless the line splits into its fields
/// and chrono accepts its time stamp.
pub open spec fn parse_line(line: Seq<char>) -> Option<LogEntryView> {
    match split_line(line) {
        None => None,
        Some(parts) => match rfc3339(parts.timestamp) {
            None => None,
            Some(ts) => Some(entry_of(parts, ts.1, uppercase(parts.level))),
        },
    }
}

/// An optional entry taken by its view.
pub open spec fn opt_entry(o: Option<LogEntry>) -> Option<LogEntryView> {
    match o {
        Some(e) => Some(e@),
        None => None,
    }
}

fn color_of(level: &str) -> (r: &'static str)
    ensures
        r@ == level_color(level@),
{
    let l = chars_of(level);
    let error = ['E', 'R', 'R', 'O', 'R'];
    let warn = ['W', 'A', 'R', 'N'];
    let info = ['I', 'N', 'F', 'O'];
    let debug = ['D', 'E', 'B', 'U', 'G'];
    let trace = ['T', 'R', 'A', 'C', 'E'];
    proof {
        reveal_strlit("#ff4444");
        reveal_strlit("#ffaa00");
        reveal_strlit("#44bb44");
        reveal_strlit("#4488ff");
        reveal_strlit("#888888");
        reveal_strlit("#cccccc");
        assert(error@ =~= seq!['E', 'R', 'R', 'O', 'R']);
        assert(warn@ =~= seq!['W', 'A', 'R', 'N']);
        assert(info@ =~= seq!['I', 'N', 'F', 'O']);
        assert(debug@ =~= seq!['D', 'E', 'B', 'U', 'G']);
        assert(trace@ =~= seq!['T', 'R', 'A', 'C', 'E']);
    }
    if eq_chars(&l, &error) {
        "#ff4444"
    } else if eq_chars(&l, &warn) {
        "#ffaa00"
    } else if eq_chars(&l, &info) {
        "#44bb44"
    } else if eq_chars(&l, &debug) {
        "#4488ff"
    } else if eq_chars(&l, &trace) {
        "#888888"
    } else {
        "#cccccc"
    }
}

impl LogLineParts {
    /// Splits a line into its raw fields.
    pub fn split(line: &str) -> (r: Option<LogLineParts>)
        ensures
            r is None <==> split_line(line@) is None,
            r matches Some(p) ==> split_line(line@) == Some(p@),
    {
        let v = chars_of(line);
        let space = [' '];
        let open = [' ', '('];
        let close = [')'];
        assert(space@ =~= seq![' ']);
        assert(open@ =~= seq![' ', '(']);
        assert(close@ =~= seq![')']);
        let (ts, rest) = match split_once_chars(&v, &space) {
            Some(p) => p,
            None => return None,
        };
        let rest = trim_chars(&rest);
        let (level, rest) = match split_once_chars(&rest, &space) {
            Some(p) => p,
            None => return None,
        };
        let rest = trim_chars(&rest);
        let (event, rest) = match split_once_chars(&rest, &open) {
            Some(p) => p,
            None => return None,
        };
        let (event_id, details) = match split_once_chars(&rest, &close) {
            Some(p) => p,
            None => return None,
        };
        Some(
            LogLineParts {
                timestamp: string_of(&ts),
                level: string_of(&level),
                event: string_of(&event),
                event_id: string_of(&event_id),
                details: string_of(&details),
            },
        )
    }
}

impl LogEntry {
    /// Builds an entry from the raw fields of a line, the canonical form of its
    /// time stamp and its upper-cased level.
    pub fn from_parts(parts: LogLineParts, timestamp: String, level: String) -> (r: LogEntry)
        ensures
            r@ == entry_of(parts@, timestamp@, level@),
    {
        let service = string_of(&first_segment_chars(&chars_of(parts.event_id.as_str()), '.'));
        let details = string_of(&trim_chars(&chars_of(parts.details.as_str())));
        let level_color = color_of(level.as_str());
        LogEntry {
            timestamp,
            level,
            level_color,
            event: parts.event,
            event_id: parts.event_id,
            details,
            service: Some(service),
        }
    }

    /// Parses one line of the server log.
    pub fn from_line(line: &str) -> (r: Option<LogEntry>)
        ensures
            opt_entry(r) == parse_line(line@),
    {
        let parts = match LogLineParts::split(line) {
            Some(p) => p,
            None => return None,
        };
        let timestamp = match parse_rfc3339(parts.timestamp.as_str()) {
            Some(p) => p.1,
            None => return None,
        };
        let level = to_uppercase(parts.level.as_str());
        Some(LogEntry::from_parts(parts, timestamp, level))
    }
}

} // verus!

verus! {

/// The line that renders an entry: `<timestamp> <level> <event> (<event id>) <details>`.
pub open spec fn rendered_line(e: LogEntryView) -> Seq<char> {
    e.timestamp + seq![' '] + e.level + seq![' '] + e.event + seq![' ', '('] + e.event_id + seq![')', ' '] + e.details
}

/// What parsing leaves of the fields of a line: the event is not empty, starts
/// with a character that is not whitespace and holds no " ("; the event id holds
/// no ')'; the details are trimmed; the service and colour follow from the event id and level.
proof fn lemma_parsed_entry_shape(line: Seq<char>, e: LogEntryView)
    requires
        parse_line(line) == Some(e),
    ensures
        e.event.len() > 0,
        !is_ws(e.event[0]),
        !contains(e.event, seq![' ', '(']),
        !contains(e.event_id, seq![')']),
        e.details.len() > 0 ==> !is_ws(e.details[0]) && !is_ws(e.details[e.details.len() - 1]),
        e.service == Some(first_segment(e.event_id, '.')),
        e.level_color == level_color(e.level),
{
    let first = split_once(line, seq![' ']).unwrap();
    let second = split_once(trim(first.1), seq![' ']).unwrap();
    let t = trim(second.1);
    let sp = seq![' ', '('];
    let third = split_once(t, sp).unwrap();
    let fourth = split_once(third.1, seq![')']).unwrap();
    let k = find_from(t, sp, 0)->0;
    find_from_bounds(t, sp, 0);
    lemma_find_first(t, sp, 0);
    lemma_trim_ends(second.1);
    assert(t.subrange(k, k + 2)[0] == ' ');
    if k == 0 {
        assert(t[0] == ' ');
    }
    assert(e.event == t.take(k));
    assert(e.event[0] == t[0]);
    assert forall|j: int| 0 <= j && j + 2 <= e.event.len() implies #[trigger] e.event.subrange(j, j + 2) != sp by {
        assert(e.event.subrange(j, j + 2) =~= t.subrange(j, j + 2));
    }
    lemma_find_none(e.event, sp, 0);
    let m = find_from(third.1, seq![')'], 0)->0;
    find_from_bounds(third.1, seq![')'], 0);
    lemma_find_first(third.1, seq![')'], 0);
    assert forall|j: int| 0 <= j && j + 1 <= e.event_id.len() implies #[trigger] e.event_id.subrange(j, j + 1) != seq![')'] by {
        assert(e.event_id.subrange(j, j + 1) =~= third.1.subrange(j, j + 1));
    }
    lemma_find_none(e.event_id, seq![')'], 0);
    lemma_trim_ends(fourth.1);
}

/// A text without the character, followed by it, splits there.
proof fn lemma_split_at_char(a: Seq<char>, c: char, b: Seq<char>)
    requires
        !contains(a, seq![c]),
    ensures
        split_once(a + seq![c] + b, seq![c]) == Some((a, b)),
{
    let s = a + seq![c] + b;
    let p = seq![c];
    lemma_contains_char(a, c);
    assert forall|j: int| 0 <= j < a.len() implies #[trigger] s.subrange(j, j + 1) != p by {
        assert(s.subrange(j, j + 1)[0] == a[j]);
    }
    assert(s.subrange(a.len() as int, (a.len() + 1) as int) =~= p);
    lemma_find_at(s, p, 0, a.len() as int);
    assert(s.take(a.len() as int) =~= a);
    assert(s.skip((a.len() + 1) as int) =~= b);
}

/// An event without " (", followed by " (", splits there.
proof fn lemma_split_at_open(ev: Seq<char>, b: Seq<char>)
    requires
        !contains(ev, seq![' ', '(']),
    ensures
        split_once(ev + seq![' ', '('] + b, seq![' ', '(']) == Some((ev, b)),
{
    let op = seq![' ', '('];
    let s = ev + op + b;
    lemma_find_none(ev, op, 0);
    assert forall|j: int| 0 <= j < ev.len() implies #[trigger] s.subrange(j, j + 2) != op by {
        if j + 2 <= ev.len() {
            assert(s.subrange(j, j + 2) =~= ev.subrange(j, j + 2));
        } else {
            assert(s.subrange(j, j + 2)[1] == ' ');
        }
    }
    assert(s.subrange(ev.len() as int, (ev.len() + 2) as int) =~= op);
    lemma_find_at(s, op, 0, ev.len() as int);
    assert(s.take(ev.len() as int) =~= ev);
    assert(s.skip((ev.len() + 2) as int) =~= b);
}

/// The part of a rendered line after the level: event, id and details, with the
/// space before the details only where there are details.
pub open spec fn rendered_rest(e: LogEntryView) -> Seq<char> {
    e.event + seq![' ', '('] + e.event_id + seq![')'] + rendered_tail(e.details)
}

/// The details as they follow the event id: after a space, or nothing.
pub open spec fn rendered_tail(d: Seq<char>) -> Seq<char> {
    if d.len() > 0 {
        seq![' '] + d
    } else {
        Seq::empty()
    }
}

proof fn lemma_trim_rendered(e: LogEntryView, line: Seq<char>)
    requires
        parse_line(line) == Some(e),
        e.level.len() > 0,
        !is_ws(e.level[0]),
    ensures
        trim(e.level + seq![' '] + e.event + seq![' ', '('] + e.event_id + seq![')', ' '] + e.details)
            == e.level + seq![' '] + rendered_rest(e),
        trim(rendered_rest(e)) == rendered_rest(e),
        trim(rendered_tail(e.details)) == e.details,
{
    lemma_parsed_entry_shape(line, e);
    let d = e.details;
    let rest1 = e.level + seq![' '] + e.event + seq![' ', '('] + e.event_id + seq![')', ' '] + d;
    let t1 = e.level + seq![' '] + rendered_rest(e);
    let rest2 = rendered_rest(e);
    let tail = rendered_tail(d);
    assert(is_ws(' '));
    assert(!is_ws(')'));
    if d.len() > 0 {
        assert(rest1 =~= t1);
        assert(rest1[rest1.len() - 1] == d[d.len() - 1]);
        lemma_trim_exact(rest1, 0, rest1.len() as int);
        assert(rest1.subrange(0, rest1.len() as int) =~= rest1);
        assert(rest2[rest2.len() - 1] == d[d.len() - 1]);
        lemma_trim_exact(tail, 1, tail.len() as int);
        assert(tail.subrange(1, tail.len() as int) =~= d);
    } else {
        assert(rest1.subrange(0, rest1.len() - 1) =~= t1);
        assert(rest1[rest1.len() - 2] == ')');
        lemma_trim_exact(rest1, 0, rest1.len() - 1);
        assert(rest2[rest2.len() - 1] == ')');
        assert(trim(tail) =~= tail);
        assert(d =~= tail);
    }
    assert(rest2[0] == e.event[0]);
    lemma_trim_exact(rest2, 0, rest2.len() as int);
    assert(rest2.subrange(0, rest2.len() as int) =~= rest2);
}

/// Rendering a parsed entry as a line and parsing that line gives the entry back,
/// where chrono reads its canonical time stamp as itself and upper-casing leaves
/// its level as it is (a level that does not start with whitespace and holds no space).
pub proof fn lemma_rendered_entry_parses_back(line: Seq<char>, e: LogEntryView)
    requires
        parse_line(line) == Some(e),
        !contains(e.timestamp, seq![' ']),
        rfc3339(e.timestamp) matches Some(p) && p.1 == e.timestamp,
        e.level.len() > 0,
        !is_ws(e.level[0]),
        !contains(e.level, seq![' ']),
        uppercase(e.level) == e.level,
    ensures
        parse_line(rendered_line(e)) == Some(e),
{
    lemma_parsed_entry_shape(line, e);
    lemma_trim_rendered(e, line);
    let sp = seq![' '];
    let rest1 = e.level + sp + e.event + seq![' ', '('] + e.event_id + seq![')', ' '] + e.details;
    let rest2 = rendered_rest(e);
    let rest3 = e.event_id + seq![')'] + rendered_tail(e.details);
    assert(rendered_line(e) =~= e.timestamp + sp + rest1);
    lemma_split_at_char(e.timestamp, ' ', rest1);
    lemma_split_at_char(e.level, ' ', rest2);
    assert(rest2 =~= e.event + seq![' ', '('] + rest3);
    lemma_split_at_open(e.event, rest3);
    lemma_split_at_char(e.event_id, ')', rendered_tail(e.details));
    let parts = LinePartsView {
        timestamp: e.timestamp,
        level: e.level,
        event: e.event,
        event_id: e.event_id,
        details: rendered_tail(e.details),
    };
    assert(split_line(rendered_line(e)) == Some(parts));
    assert(entry_of(parts, e.timestamp, e.level) == e);
}

} // verus!

verus! {

/// Filter parameters for log queries.
pub struct LogFilter {
    pub text: String,
    pub level: Option<String>,
    pub service: Option<String>,
    pub from: Option<i64>,
    pub to: Option<i64>,
}

/// A log filter taken by its characters.
pub struct LogFilterView {
    pub text: Seq<char>,
    pub level: Option<Seq<char>>,
    pub service: Option<Seq<char>>,
    pub from: Option<i64>,
    pub to: Option<i64>,
}

impl View for LogFilter {
    type V = LogFilterView;

    open spec fn view(&self) -> LogFilterView {
        LogFilterView {
            text: self.text@,
            level: opt_chars(self.level),
            service: opt_chars(self.service),
            from: self.from,
            to: self.to,
        }
    }
}

/// What the scan does with one line.
pub enum LineVerdict {
    /// The line is passed over.
    Skip,
    /// The line is older than the `from` bound: the rest of its file is passed over.
    EndOfFile,
    /// The line matches the filter.
    Keep(LogEntryView),
}

/// An entry belongs to a service when its service or the category of its dotted
/// event name (the event id's part before the first '.') equals the name, ignoring ASCII case.
pub open spec fn service_matches(e: LogEntryView, service: Seq<char>) -> bool {
    (e.service matches Some(s) && eq_ignore_ascii_case(s, service))
        || eq_ignore_ascii_case(first_segment(e.event_id, '.'), service)
}

/// The verdict of the filter on a parsed entry whose time stamp reads as
/// `seconds`, in the order the checks are made.
pub open spec fn entry_verdict(f: LogFilterView, e: LogEntryView, seconds: Option<i64>) -> LineVerdict {
    if f.level matches Some(l) && e.level != l {
        LineVerdict::Skip
    } else if f.service matches Some(s) && !service_matches(e, s) {
        LineVerdict::Skip
    } else if f.from matches Some(from) && seconds matches Some(ts) && ts < from {
        LineVerdict::EndOfFile
    } else if f.to matches Some(to) && seconds matches Some(ts) && ts > to {
        LineVerdict::Skip
    } else {
        LineVerdict::Keep(e)
    }
}

/// The verdict of the filter on one line: lines without the text or that do not
/// parse are passed over; otherwise the entry is judged.
pub open spec fn judge_line(f: LogFilterView, line: Seq<char>) -> LineVerdict {
    if f.text.len() > 0 && !contains(line, f.text) {
        LineVerdict::Skip
    } else {
        match parse_line(line) {
            None => LineVerdict::Skip,
            Some(e) => entry_verdict(f, e, rfc3339_seconds(e.timestamp)),
        }
    }
}

/// The text filter is a search of the whole raw line: a line that parses, holds
/// the filter text anywhere (or the text is empty), and whose entry meets the
/// level, service and time filters is kept; a line without the text is passed over.
pub proof fn lemma_text_filter_searches_whole_line(f: LogFilterView, line: Seq<char>, e: LogEntryView)
    ensures
        (f.text.len() == 0 || contains(line, f.text)) && parse_line(line) == Some(e) && entry_matches(f, e)
            ==> judge_line(f, line) == LineVerdict::Keep(e),
        f.text.len() > 0 && !contains(line, f.text) ==> judge_line(f, line) == LineVerdict::Skip,
        parse_line(line) is None ==> judge_line(f, line) == LineVerdict::Skip,
{
}

/// What the filter makes of a parsed entry.
pub enum EntryVerdict {
    Skip,
    EndOfFile,
    Keep,
}

/// The verdict of the filter on an entry, given the seconds its time stamp reads as.
pub fn filter_entry(filter: &LogFilter, entry: &LogEntry, seconds: Option<i64>) -> (r: EntryVerdict)
    ensures
        match entry_verdict(filter@, entry@, seconds) {
            LineVerdict::Skip => r is Skip,
            LineVerdict::EndOfFile => r is EndOfFile,
            LineVerdict::Keep(_) => r is Keep,
        },
{
    if let Some(level) = &filter.level {
        if !eq_chars(&chars_of(entry.level.as_str()), &chars_of(level.as_str())) {
            return EntryVerdict::Skip;
        }
    }
    if let Some(service) = &filter.service {
        if !service_ok(entry, service) {
            return EntryVerdict::Skip;
        }
    }
    if let (Some(from), Some(ts)) = (filter.from, seconds) {
        if ts < from {
            return EntryVerdict::EndOfFile;
        }
    }
    if let (Some(to), Some(ts)) = (filter.to, seconds) {
        if ts > to {
            return EntryVerdict::Skip;
        }
    }
    EntryVerdict::Keep
}

fn service_ok(entry: &LogEntry, service: &String) -> (r: bool)
    ensures
        r == service_matches(entry@, service@),
{
    let s = chars_of(service.as_str());
    let by_service = match &entry.service {
        Some(name) => eq_ignore_ascii_case_chars(&chars_of(name.as_str()), &s),
        None => false,
    };
    by_service || eq_ignore_ascii_case_chars(&first_segment_chars(&chars_of(entry.event_id.as_str()), '.'), &s)
}

/// An entry meets the filter: its level is the one asked for, it belongs to the
/// service asked for, and its time is within the bounds asked for.
pub open spec fn entry_matches(f: LogFilterView, e: LogEntryView) -> bool {
    &&& f.level matches Some(l) ==> e.level == l
    &&& f.service matches Some(s) ==> service_matches(e, s)
    &&& f.from matches Some(from) ==> (rfc3339_seconds(e.timestamp) matches Some(ts) ==> ts >= from)
    &&& f.to matches Some(to) ==> (rfc3339_seconds(e.timestamp) matches Some(ts) ==> ts <= to)
}

/// The page of matches that the scan keeps: those after the first `offset`.
pub open spec fn page(matched: Seq<LogEntryView>, offset: nat) -> Seq<LogEntryView> {
    if matched.len() <= offset {
        Seq::empty()
    } else {
        matched.skip(offset as int)
    }
}

/// What the reader of the log files does after a line.
pub enum ScanStep {
    /// Read the next line of the same file.
    NextLine,
    /// Pass over the rest of this file and go on with the next one.
    NextFile,
    /// The page is full: stop reading, and report whether anything was left.
    Full,
}

/// The state of a scan through the log files, newest line first.
pub struct LogScanner {
    filter: LogFilter,
    skip: usize,
    limit: usize,
    total: usize,
    entries: Vec<LogEntry>,
    matched: Ghost<Seq<LogEntryView>>,
    offset: Ghost<nat>,
}

impl LogScanner {
    /// The lines that matched the filter so far, in the order they were read.
    pub closed spec fn matched(&self) -> Seq<LogEntryView> {
        self.matched@
    }

    /// The number of matches to pass over before entries are kept.
    pub closed spec fn offset(&self) -> nat {
        self.offset@
    }

    /// The page size.
    pub closed spec fn limit(&self) -> nat {
        self.limit as nat
    }

    /// The filter of the scan.
    pub closed spec fn filter(&self) -> LogFilterView {
        self.filter@
    }

    /// The number of matches counted so far.
    pub closed spec fn total(&self) -> nat {
        self.total as nat
    }

    /// The entries kept so far.
    pub closed spec fn entries(&self) -> Seq<LogEntryView> {
        self.entries@.map_values(|e: LogEntry| e@)
    }

    /// Matches still to be passed over.
    pub closed spec fn to_skip(&self) -> nat {
        self.skip as nat
    }

    /// The counters agree with the matches seen: every match is counted, the
    /// first `offset` are passed over and the rest are kept, up to `limit`.
    pub open spec fn wf(&self) -> bool {
        &&& self.total() == self.matched().len()
        &&& self.entries() == page(self.matched(), self.offset())
        &&& self.to_skip() == (if self.matched().len() <= self.offset() {
            self.offset() - self.matched().len()
        } else {
            0
        })
        &&& self.limit() > 0 ==> self.entries().len() <= self.limit()
        &&& forall|i: int| 0 <= i < self.matched().len() ==> entry_matches(self.filter(), #[trigger] self.matched()[i])
    }

    /// The page is full once `limit` entries are kept (never, for a limit of 0).
    pub open spec fn is_full(&self) -> bool {
        self.limit() > 0 && self.entries().len() == self.limit()
    }

    /// A scan that passes over `offset` matches and keeps up to `limit`.
    pub fn new(filter: LogFilter, offset: usize, limit: usize) -> (r: LogScanner)
        ensures
            r.wf(),
            r.filter() == filter@,
            r.offset() == offset,
            r.limit() == limit,
            r.matched() == Seq::<LogEntryView>::empty(),
    {
        let r = LogScanner {
            filter,
            skip: offset,
            limit,
            total: 0,
            entries: Vec::new(),
            matched: Ghost(Seq::empty()),
            offset: Ghost(offset as nat),
        };
        assert(r.entries() =~= Seq::<LogEntryView>::empty());
        r
    }

    /// Applies the filter to the next line read.
    pub fn feed(&mut self, line: &str) -> (r: ScanStep)
        requires
            old(self).wf(),
            !old(self).is_full(),
            old(self).total() < usize::MAX,
        ensures
            final(self).wf(),
            final(self).filter() == old(self).filter(),
            final(self).offset() == old(self).offset(),
            final(self).limit() == old(self).limit(),
            match judge_line(old(self).filter(), line@) {
                LineVerdict::Skip => final(self).matched() == old(self).matched() && r is NextLine,
                LineVerdict::EndOfFile => final(self).matched() == old(self).matched() && r is NextFile,
                LineVerdict::Keep(e) => {
                    &&& final(self).matched() == old(self).matched().push(e)
                    &&& final(self).is_full() ==> r is Full
                    &&& !final(self).is_full() ==> r is NextLine
                },
            },
    {
        let v = chars_of(line);
        let t = chars_of(self.filter.text.as_str());
        if t.len() > 0 && !contains_chars(&v, &t) {
            return ScanStep::NextLine;
        }
        let entry = match LogEntry::from_line(line) {
            Some(e) => e,
            None => return ScanStep::NextLine,
        };
        let seconds = rfc3339_timestamp(entry.timestamp.as_str());
        match filter_entry(&self.filter, &entry, seconds) {
            EntryVerdict::Skip => return ScanStep::NextLine,
            EntryVerdict::EndOfFile => return ScanStep::NextFile,
            EntryVerdict::Keep => {},
        }
        let ghost old_matched = self.matched@;
        let ghost old_entries = self.entries();
        let ghost e = entry@;
        self.total = self.total + 1;
        self.matched = Ghost(self.matched@.push(entry@));
        if self.skip == 0 {
            self.entries.push(entry);
            proof {
                assert(self.entries() =~= old_entries.push(e));
                assert(page(self.matched@, self.offset@) =~= page(old_matched, self.offset@).push(e));
            }
            if self.entries.len() == self.limit {
                return ScanStep::Full;
            }
        } else {
            self.skip = self.skip - 1;
            proof {
                assert(self.entries() =~= old_entries);
                assert(page(self.matched@, self.offset@) =~= page(old_matched, self.offset@));
            }
        }
        ScanStep::NextLine
    }

    /// The number of matches counted so far.
    pub fn counted(&self) -> (r: usize)
        ensures
            r == self.total(),
    {
        self.total
    }

    /// The page size of the scan.
    pub fn page_size(&self) -> (r: usize)
        ensures
            r == self.limit(),
    {
        self.limit
    }

    /// Every entry a scan keeps meets its filter.
    pub proof fn lemma_kept_entries_match(&self)
        requires
            self.wf(),
        ensures
            forall|i: int| 0 <= i < self.entries().len() ==> entry_matches(self.filter(), #[trigger] self.entries()[i]),
    {
        assert forall|i: int| 0 <= i < self.entries().len() implies entry_matches(self.filter(), #[trigger] self.entries()[i]) by {
            assert(self.entries()[i] == self.matched()[self.offset() + i]);
        }
    }

    /// The number of matches and the kept entries; when the page is full and
    /// more was left to read, the count is raised by the page size.
    pub fn finish(self, more: bool) -> (r: (usize, Vec<LogEntry>))
        requires
            self.wf(),
            self.is_full() && more ==> self.total() + self.limit() <= usize::MAX,
        ensures
            r.0 == self.total() + (if self.is_full() && more {
                self.limit()
            } else {
                0
            }),
            r.1@.map_values(|e: LogEntry| e@) == self.entries(),
    {
        let total = if more && self.limit > 0 && self.entries.len() == self.limit {
            self.total + self.limit
        } else {
            self.total
        };
        (total, self.entries)
    }
}

} // verus!

verus! {

/// The number of recent lines that are read to find service names.
pub const SERVICE_SCAN_LINES: usize = 500;

/// A line that parses names a service: its own, or the category of its dotted event name.
pub open spec fn names_service(line: Seq<char>, name: Seq<char>) -> bool {
    match parse_line(line) {
        Some(e) => e.service == Some(name) || first_segment(e.event_id, '.') == name,
        None => false,
    }
}

/// The service names that the first `SERVICE_SCAN_LINES` lines mention.
pub open spec fn services_in(lines: Seq<Seq<char>>) -> Set<Seq<char>> {
    Set::new(
        |name: Seq<char>|
            exists|i: int|
                0 <= i < lines.len() && i < SERVICE_SCAN_LINES && #[trigger] names_service(lines[i], name),
    )
}

/// The service and component names found in recent log lines (newest first),
/// sorted and without repeats.
pub fn discover_log_services(lines: &Vec<String>) -> (r: Vec<String>)
    ensures
        strictly_sorted(texts(r@)),
        texts(r@).to_set() == services_in(texts(lines@)),
{
    let ghost ls = texts(lines@);
    let mut services: Vec<String> = Vec::new();
    let n = if lines.len() < SERVICE_SCAN_LINES {
        lines.len()
    } else {
        SERVICE_SCAN_LINES
    };
    let mut i: usize = 0;
    while i < n
        invariant
            i <= n <= lines.len(),
            n <= SERVICE_SCAN_LINES,
            n == lines.len() || n == SERVICE_SCAN_LINES,
            ls == texts(lines@),
            strictly_sorted(texts(services@)),
            texts(services@).to_set() == services_in(ls.take(i as int)),
        decreases n - i,
    {
        let ghost before = services_in(ls.take(i as int));
        let entry = LogEntry::from_line(lines[i].as_str());
        assert(ls[i as int] == lines@[i as int]@);
        match entry {
            Some(e) => {
                let category = string_of(&first_segment_chars(&chars_of(e.event_id.as_str()), '.'));
                if let Some(svc) = e.service {
                    insert_sorted(&mut services, svc);
                }
                insert_sorted(&mut services, category);
            },
            None => {},
        }
        proof {
            let step = ls.take(i + 1);
            assert(step =~= ls.take(i as int).push(ls[i as int]));
            assert forall|name: Seq<char>| #[trigger] services_in(step).contains(name) <==> (
            before.contains(name) || names_service(ls[i as int], name)) by {
                if services_in(step).contains(name) {
                    let j = choose|j: int|
                        0 <= j < step.len() && j < SERVICE_SCAN_LINES && #[trigger] names_service(step[j], name);
                    if j < i {
                        assert(ls.take(i as int)[j] == step[j]);
                    }
                }
                if before.contains(name) {
                    let j = choose|j: int|
                        0 <= j < i && j < SERVICE_SCAN_LINES && #[trigger] names_service(ls.take(i as int)[j], name);
                    assert(step[j] == ls.take(i as int)[j]);
                }
                if names_service(ls[i as int], name) {
                    assert(step[i as int] == ls[i as int]);
                }
            }
            assert(texts(services@).to_set() =~= services_in(step));
        }
        i += 1;
    }
    proof {
        assert forall|name: Seq<char>| #[trigger] services_in(ls).contains(name) <==> services_in(
            ls.take(n as int),
        ).contains(name) by {
            if services_in(ls).contains(name) {
                let j = choose|j: int|
                    0 <= j < ls.len() && j < SERVICE_SCAN_LINES && #[trigger] names_service(ls[j], name);
                assert(ls.take(n as int)[j] == ls[j]);
            }
            if services_in(ls.take(n as int)).contains(name) {
                let j = choose|j: int|
                    0 <= j < n && j < SERVICE_SCAN_LINES && #[trigger] names_service(ls.take(n as int)[j], name);
                assert(ls.take(n as int)[j] == ls[j]);
            }
        }
        assert(services_in(ls) =~= services_in(ls.take(n as int)));
    }
    services
}

} // verus!

verus! {

/// A log query: the filter and the page asked for.
pub struct LogQuery {
    pub filter: LogFilter,
    pub offset: usize,
    pub limit: usize,
}

/// A number parameter, or the default where it is missing or not a number.
pub open spec fn number_param(params: Seq<(Seq<char>, Seq<char>)>, key: Seq<char>, default: usize) -> usize {
    match lookup(params, key) {
        Some(v) => match parse_unsigned(v) {
            Some(n) => n,
            None => default,
        },
        None => default,
    }
}

/// A time parameter in seconds, where it is given and chrono reads it.
pub open spec fn time_param(params: Seq<(Seq<char>, Seq<char>)>, key: Seq<char>) -> Option<i64> {
    match lookup(params, key) {
        Some(v) => rfc3339_seconds(v),
        None => None,
    }
}

/// The filter a log query asks for: `filter` (default empty), `level` upper-cased,
/// `service`, and the `from` and `to` times.
pub open spec fn filter_of(params: Seq<(Seq<char>, Seq<char>)>) -> LogFilterView {
    LogFilterView {
        text: match lookup(params, "filter"@) {
            Some(t) => t,
            None => Seq::empty(),
        },
        level: match lookup(params, "level"@) {
            Some(l) => Some(uppercase(l)),
            None => None,
        },
        service: lookup(params, "service"@),
        from: time_param(params, "from"@),
        to: time_param(params, "to"@),
    }
}

/// The page number asked for (default 0).
pub open spec fn page_of(params: Seq<(Seq<char>, Seq<char>)>) -> usize {
    number_param(params, "page"@, 0)
}

/// The page size asked for (default 100).
pub open spec fn limit_of(params: Seq<(Seq<char>, Seq<char>)>) -> usize {
    number_param(params, "limit"@, 100)
}

/// The number of matches before the page: pages count from 1, and page 0 is page 1.
pub open spec fn offset_of(page: usize, limit: usize) -> int {
    (if page >= 1 {
        page - 1
    } else {
        0
    }) * limit
}

impl LogQuery {
    /// Reads a log query from the request parameters; `None` where the offset of
    /// the page asked for does not fit in a `usize`.
    pub fn from_params(params: &UrlParams) -> (r: Option<LogQuery>)
        ensures
            r is None <==> offset_of(page_of(params@), limit_of(params@)) > usize::MAX,
            r matches Some(q) ==> {
                &&& q.filter@ == filter_of(params@)
                &&& q.limit == limit_of(params@)
                &&& q.offset == offset_of(page_of(params@), limit_of(params@))
            },
    {
        let text = match params.get("filter") {
            Some(t) => t,
            None => String::new(),
        };
        let level = match params.get("level") {
            Some(l) => Some(to_uppercase(l.as_str())),
            None => None,
        };
        let service = params.get("service");
        let from = match params.get("from") {
            Some(v) => rfc3339_timestamp(v.as_str()),
            None => None,
        };
        let to = match params.get("to") {
            Some(v) => rfc3339_timestamp(v.as_str()),
            None => None,
        };
        let page: usize = match params.parse_usize("page") {
            Some(n) => n,
            None => 0,
        };
        let limit: usize = match params.parse_usize("limit") {
            Some(n) => n,
            None => 100,
        };
        let offset = match page.saturating_sub(1).checked_mul(limit) {
            Some(o) => o,
            None => return None,
        };
        Some(LogQuery { filter: LogFilter { text, level, service, from, to }, offset, limit })
    }
}

/// A log query reads each parameter by its own name: `filter` is the text
/// (empty when missing), `level` is upper-cased, `service` is taken as it is, and
/// `from` and `to` are the seconds of the RFC 3339 times given (none where missing
/// or not read); `page` and `limit` are the numbers given, by default 0 and 100.
pub proof fn lemma_query_reads_parameters(params: Seq<(Seq<char>, Seq<char>)>)
    ensures
        filter_of(params).text == (match lookup(params, "filter"@) {
            Some(t) => t,
            None => Seq::<char>::empty(),
        }),
        filter_of(params).level == (match lookup(params, "level"@) {
            Some(l) => Some(uppercase(l)),
            None => None,
        }),
        filter_of(params).service == lookup(params, "service"@),
        filter_of(params).from == (match lookup(params, "from"@) {
            Some(v) => rfc3339_seconds(v),
            None => None,
        }),
        filter_of(params).to == (match lookup(params, "to"@) {
            Some(v) => rfc3339_seconds(v),
            None => None,
        }),
        lookup(params, "to"@) matches Some(v) ==> (rfc3339(v) matches Some(p) ==> filter_of(params).to == Some(p.0)),
        lookup(params, "from"@) matches Some(v) ==> (rfc3339(v) matches Some(p) ==> filter_of(params).from == Some(p.0)),
        page_of(params) == (match lookup(params, "page"@) {
            Some(v) => match parse_unsigned(v) {
                Some(n) => n,
                None => 0,
            },
            None => 0,
        }),
        limit_of(params) == (match lookup(params, "limit"@) {
            Some(v) => match parse_unsigned(v) {
                Some(n) => n,
                None => 100,
            },
            None => 100,
        }),
{
    if let Some(v) = lookup(params, "to"@) {
        assert(filter_of(params).to == rfc3339_seconds(v));
    }
    if let Some(v) = lookup(params, "from"@) {
        assert(filter_of(params).from == rfc3339_seconds(v));
    }
}

} // verus!

//! Trace records and the grammar of a `tracing_mark_write` line.
use vstd::prelude::*;

use crate::text::{
    all_digits, chars_of, digits_end, digits_end_exec, digits_start, digits_start_exec,
    digits_value, find_from, find_from_exec, occurs_at, occurs_at_exec, parse_u64, push_text,
    spaces_end, spaces_end_exec, string_of, lemma_digits_end, lemma_spaces_end,
    lemma_digits_start, lemma_find_from_some, lemma_digits_start_after, decimal,
    is_space, lemma_decimal, lemma_digits_end_at, lemma_digits_start_at, lemma_find_from_skip,
    push_char, push_decimal,
};

verus! {

/// The tag that separates the line header from the marker.
pub open spec fn trace_tag() -> Seq<char> {
    seq![
        ':', ' ', 't', 'r', 'a', 'c', 'i', 'n', 'g', '_', 'm', 'a', 'r', 'k', '_', 'w', 'r', 'i',
        't', 'e', ':', ' ',
    ]
}

/// The moment a trace was written.
#[derive(Clone, Copy, Debug, PartialEq, Eq, Structural)]
pub struct TimeStamp {
    pub seconds: u64,
    pub micro: u64,
}

/// The single-character marker of a trace: the start or end of a span, or a point.
#[derive(Clone, Copy, Debug, PartialEq, Eq, Structural)]
pub enum TraceMarker {
    StartSync,
    EndSync,
    StartAsync,
    EndAsync,
    Dot,
}

/// Why a line in trace shape could not be read.
#[derive(Clone, Copy, Debug, PartialEq, Eq, Structural)]
pub enum TraceError {
    /// The marker character is none of `B`, `E`, `S`, `F`, `C`.
    UnknownMarker,
    /// A numeric field does not fit in 64 bits.
    NumberOutOfRange,
}

/// A signed length of time, in microseconds.
#[derive(Clone, Copy, Debug, PartialEq, Eq, Structural)]
pub struct Duration {
    pub micros: i128,
}

pub open spec fn marker_of_char(c: char) -> Option<TraceMarker> {
    if c == 'B' {
        Some(TraceMarker::StartSync)
    } else if c == 'E' {
        Some(TraceMarker::EndSync)
    } else if c == 'S' {
        Some(TraceMarker::StartAsync)
    } else if c == 'F' {
        Some(TraceMarker::EndAsync)
    } else if c == 'C' {
        Some(TraceMarker::Dot)
    } else {
        None
    }
}

pub open spec fn marker_char(m: TraceMarker) -> char {
    match m {
        TraceMarker::StartSync => 'B',
        TraceMarker::EndSync => 'E',
        TraceMarker::StartAsync => 'S',
        TraceMarker::EndAsync => 'F',
        TraceMarker::Dot => 'C',
    }
}

impl TraceMarker {
    pub open spec fn from_text(s: Seq<char>) -> Option<TraceMarker> {
        if s.len() == 1 {
            marker_of_char(s[0])
        } else {
            None
        }
    }

    /// Reads a marker from its one-character text.
    pub fn from(val: &str) -> (r: Result<TraceMarker, TraceError>)
        ensures
            r matches Ok(m) ==> TraceMarker::from_text(val@) == Some(m),
            r is Err <==> TraceMarker::from_text(val@) is None,
            r matches Err(e) ==> e == TraceError::UnknownMarker,
    {
        let v = chars_of(val);
        if v.len() != 1 {
            return Err(TraceError::UnknownMarker);
        }
        match marker_from_char(v[0]) {
            Some(m) => Ok(m),
            None => Err(TraceError::UnknownMarker),
        }
    }
}

fn marker_from_char(c: char) -> (r: Option<TraceMarker>)
    ensures
        r == marker_of_char(c),
{
    if c == 'B' {
        Some(TraceMarker::StartSync)
    } else if c == 'E' {
        Some(TraceMarker::EndSync)
    } else if c == 'S' {
        Some(TraceMarker::StartAsync)
    } else if c == 'F' {
        Some(TraceMarker::EndAsync)
    } else if c == 'C' {
        Some(TraceMarker::Dot)
    } else {
        None
    }
}

/// One parsed trace line.
#[derive(Debug)]
pub struct Trace {
    /// Name of the thread, such as `org.servo.servo` or `Constellation`.
    pub name: String,
    pub pid: u64,
    /// The second id of the line header, the one in parentheses.
    pub cpu: u64,
    pub timestamp: TimeStamp,
    pub trace_marker: TraceMarker,
    /// The sequence number between the first two `|`.
    pub number: String,
    /// The short code before the first `:` of the message.
    pub shorthand: String,
    /// The message itself.
    pub function: String,
}

/// What a trace holds, with its text as character sequences.
pub struct TraceView {
    pub name: Seq<char>,
    pub pid: u64,
    pub cpu: u64,
    pub timestamp: TimeStamp,
    pub trace_marker: TraceMarker,
    pub number: Seq<char>,
    pub shorthand: Seq<char>,
    pub function: Seq<char>,
}

impl View for Trace {
    type V = TraceView;

    open spec fn view(&self) -> TraceView {
        TraceView {
            name: self.name@,
            pid: self.pid,
            cpu: self.cpu,
            timestamp: self.timestamp,
            trace_marker: self.trace_marker,
            number: self.number@,
            shorthand: self.shorthand@,
            function: self.function@,
        }
    }
}

pub open spec fn timestamp_micros(t: TimeStamp) -> int {
    t.seconds * 1_000_000 + t.micro
}

/// `t1 - t2` in microseconds.
pub open spec fn difference_spec(t1: TraceView, t2: TraceView) -> int {
    (t1.timestamp.seconds - t2.timestamp.seconds) * 1_000_000 + (t1.timestamp.micro
        - t2.timestamp.micro)
}

impl Trace {
    /// A trace of thread `Test` at whole second `timestamp_secs`.
    pub fn new(pid: u64, timestamp_secs: u64, trace_marker: TraceMarker, function: &str) -> (r:
        Trace)
        ensures
            r@.name == "Test"@,
            r@.pid == pid,
            r@.cpu == 1,
            r@.timestamp == (TimeStamp { seconds: timestamp_secs, micro: 0 }),
            r@.trace_marker == trace_marker,
            r@.number == "1"@,
            r@.shorthand == "1"@,
            r@.function == function@,
    {
        Trace {
            name: String::from_str("Test"),
            pid,
            cpu: 1,
            timestamp: TimeStamp { seconds: timestamp_secs, micro: 0 },
            trace_marker,
            number: String::from_str("1"),
            shorthand: String::from_str("1"),
            function: String::from_str(function),
        }
    }
}

/// The time from `trace2` to `trace1`.
pub fn difference_of_traces(trace1: &Trace, trace2: &Trace) -> (r: Duration)
    ensures
        r.micros == difference_spec(trace1@, trace2@),
{
    let s = trace1.timestamp.seconds as i128 - trace2.timestamp.seconds as i128;
    let m = trace1.timestamp.micro as i128 - trace2.timestamp.micro as i128;
    Duration { micros: s * 1_000_000 + m }
}

// The grammar of a trace line:
//
//     <name>-<pid> <ws>* ( <ws>* <cpu> ) <any>* <sec>.<usec>: tracing_mark_write: <m>|<number>|<shorthand>:<payload>
//
// after leading whitespace.  The name ends at the first `-` that starts a well-formed
// `-<pid> (<cpu>)` header; the time stamp is the first `<sec>.<usec>` that the tag
// follows; the shorthand ends at the first `:` after the number.
/// At `i` starts a header `-<digits> <ws>* ( <ws>* <digits> )`.
pub open spec fn head_at(s: Seq<char>, i: int) -> bool {
    let pe = digits_end(s, i + 1);
    let a = spaces_end(s, pe);
    let b = spaces_end(s, a + 1);
    let be = digits_end(s, b);
    &&& 0 <= i < s.len()
    &&& s[i] == '-'
    &&& pe > i + 1
    &&& a < s.len()
    &&& s[a] == '('
    &&& be > b
    &&& be < s.len()
    &&& s[be] == ')'
}

/// The first header at or after `i`.
pub open spec fn find_head(s: Seq<char>, i: int) -> Option<int>
    decreases s.len() - i,
{
    if i < 0 || i >= s.len() {
        None
    } else if head_at(s, i) {
        Some(i)
    } else {
        find_head(s, i + 1)
    }
}

/// At `k` stands the tag, just after `<digits>.<digits>`.
pub open spec fn stamp_at(s: Seq<char>, k: int) -> bool {
    let us = digits_start(s, k);
    &&& occurs_at(s, trace_tag(), k)
    &&& 1 <= us < k
    &&& s[us - 1] == '.'
    &&& digits_start(s, us - 1) < us - 1
}

/// The first time stamp at or after `i`.
pub open spec fn find_stamp(s: Seq<char>, i: int) -> Option<int>
    decreases s.len() - i,
{
    if i < 0 || i >= s.len() {
        None
    } else if stamp_at(s, i) {
        Some(i)
    } else {
        find_stamp(s, i + 1)
    }
}

/// The positions that delimit the fields of a trace line.
pub struct LineSpans {
    pub name_start: int,
    pub dash: int,
    pub pid_end: int,
    pub cpu_start: int,
    pub cpu_end: int,
    pub sec_start: int,
    pub usec_start: int,
    pub tag: int,
    pub marker: int,
    pub number_end: int,
    pub colon: int,
}

/// The fields of a line, where it has the shape of a trace line.
pub open spec fn line_spans(s: Seq<char>) -> Option<LineSpans> {
    let s0 = spaces_end(s, 0);
    match find_head(s, s0) {
        None => None,
        Some(dash) => {
            let pe = digits_end(s, dash + 1);
            let a = spaces_end(s, pe);
            let b = spaces_end(s, a + 1);
            let be = digits_end(s, b);
            match find_stamp(s, be + 1) {
                None => None,
                Some(k) => {
                    let us = digits_start(s, k);
                    let ss = digits_start(s, us - 1);
                    let t = k + trace_tag().len();
                    let ne = digits_end(s, t + 2);
                    if t + 1 < s.len() && s[t + 1] == '|' && ne > t + 2 && ne < s.len() && s[ne]
                        == '|' {
                        match find_from(s, seq![':'], ne + 1) {
                            None => None,
                            Some(c) => Some(
                                LineSpans {
                                    name_start: s0,
                                    dash,
                                    pid_end: pe,
                                    cpu_start: b,
                                    cpu_end: be,
                                    sec_start: ss,
                                    usec_start: us,
                                    tag: k,
                                    marker: t,
                                    number_end: ne,
                                    colon: c,
                                },
                            ),
                        }
                    } else {
                        None
                    }
                },
            }
        },
    }
}

pub open spec fn fits_u64(s: Seq<char>) -> bool {
    digits_value(s) <= u64::MAX
}

/// The trace that the fields of a line give, or why they give none.
pub open spec fn trace_of_spans(s: Seq<char>, sp: LineSpans) -> Result<TraceView, TraceError> {
    let sec = s.subrange(sp.sec_start, sp.usec_start - 1);
    let usec = s.subrange(sp.usec_start, sp.tag);
    let pid = s.subrange(sp.dash + 1, sp.pid_end);
    let cpu = s.subrange(sp.cpu_start, sp.cpu_end);
    if !fits_u64(sec) || !fits_u64(usec) {
        Err(TraceError::NumberOutOfRange)
    } else if marker_of_char(s[sp.marker]) is None {
        Err(TraceError::UnknownMarker)
    } else if !fits_u64(pid) || !fits_u64(cpu) {
        Err(TraceError::NumberOutOfRange)
    } else {
        Ok(
            TraceView {
                name: s.subrange(sp.name_start, sp.dash),
                pid: digits_value(pid) as u64,
                cpu: digits_value(cpu) as u64,
                timestamp: TimeStamp {
                    seconds: digits_value(sec) as u64,
                    micro: digits_value(usec) as u64,
                },
                trace_marker: marker_of_char(s[sp.marker])->0,
                number: s.subrange(sp.marker + 2, sp.number_end),
                shorthand: s.subrange(sp.number_end + 1, sp.colon),
                function: s.subrange(sp.colon + 1, s.len() as int),
            },
        )
    }
}

/// What a line reads as: nothing where it is no trace line, else a trace or an error.
pub open spec fn parse_line_spec(s: Seq<char>) -> Option<Result<TraceView, TraceError>> {
    match line_spans(s) {
        None => None,
        Some(sp) => Some(trace_of_spans(s, sp)),
    }
}

pub open spec fn parsed_view(r: Option<Result<Trace, TraceError>>) -> Option<
    Result<TraceView, TraceError>,
> {
    match r {
        None => None,
        Some(Ok(t)) => Some(Ok(t@)),
        Some(Err(e)) => Some(Err(e)),
    }
}

fn head_at_exec(v: &Vec<char>, i: usize) -> (r: bool)
    requires
        i < v@.len(),
    ensures
        r == head_at(v@, i as int),
{
    let n = v.len();
    if v[i] != '-' {
        return false;
    }
    let pe = digits_end_exec(v, i + 1);
    if pe == i + 1 {
        return false;
    }
    let a = spaces_end_exec(v, pe);
    if a >= v.len() || v[a] != '(' {
        return false;
    }
    let b = spaces_end_exec(v, a + 1);
    let be = digits_end_exec(v, b);
    be > b && be < v.len() && v[be] == ')'
}

fn find_head_exec(v: &Vec<char>, start: usize) -> (r: Option<usize>)
    requires
        start <= v@.len(),
    ensures
        r matches Some(k) ==> find_head(v@, start as int) == Some(k as int),
        r is None ==> find_head(v@, start as int) is None,
{
    let mut i: usize = start;
    while i < v.len()
        invariant
            start <= i <= v@.len(),
            find_head(v@, start as int) == find_head(v@, i as int),
        decreases v@.len() - i,
    {
        if head_at_exec(v, i) {
            return Some(i);
        }
        i = i + 1;
    }
    None
}

fn stamp_at_exec(v: &Vec<char>, tag: &Vec<char>, k: usize) -> (r: bool)
    requires
        k <= v@.len(),
        tag@ == trace_tag(),
    ensures
        r == stamp_at(v@, k as int),
{
    if !occurs_at_exec(v, tag, k) {
        return false;
    }
    let us = digits_start_exec(v, k);
    if us < 1 || us >= k || v[us - 1] != '.' {
        return false;
    }
    let ss = digits_start_exec(v, us - 1);
    ss < us - 1
}

fn find_stamp_exec(v: &Vec<char>, tag: &Vec<char>, start: usize) -> (r: Option<usize>)
    requires
        start <= v@.len(),
        tag@ == trace_tag(),
    ensures
        r matches Some(k) ==> find_stamp(v@, start as int) == Some(k as int),
        r is None ==> find_stamp(v@, start as int) is None,
{
    let mut i: usize = start;
    while i < v.len()
        invariant
            start <= i <= v@.len(),
            tag@ == trace_tag(),
            find_stamp(v@, start as int) == find_stamp(v@, i as int),
        decreases v@.len() - i,
    {
        if stamp_at_exec(v, tag, i) {
            return Some(i);
        }
        i = i + 1;
    }
    None
}

fn tag_exec() -> (r: Vec<char>)
    ensures
        r@ == trace_tag(),
{
    let r = chars_of(": tracing_mark_write: ");
    proof {
        reveal_strlit(": tracing_mark_write: ");
    }
    assert(r@ =~= trace_tag());
    r
}

/// Builds the trace from the fields of a line.
fn match_to_trace(v: &Vec<char>, sp: &LineSpansExec) -> (r: Result<Trace, TraceError>)
    requires
        line_spans(v@) == Some(sp.spec()),
    ensures
        match r {
            Ok(t) => trace_of_spans(v@, sp.spec()) == Ok::<TraceView, TraceError>(t@),
            Err(e) => trace_of_spans(v@, sp.spec()) == Err::<TraceView, TraceError>(e),
        },
{
    proof {
        lemma_spans_ordered(v@);
    }
    let n = v.len();
    let seconds = match parse_u64(v, sp.sec_start, sp.usec_start - 1) {
        Some(x) => x,
        None => return Err(TraceError::NumberOutOfRange),
    };
    let micro = match parse_u64(v, sp.usec_start, sp.tag) {
        Some(x) => x,
        None => return Err(TraceError::NumberOutOfRange),
    };
    let trace_marker = match marker_from_char(v[sp.marker]) {
        Some(m) => m,
        None => return Err(TraceError::UnknownMarker),
    };
    let pid = match parse_u64(v, sp.dash + 1, sp.pid_end) {
        Some(x) => x,
        None => return Err(TraceError::NumberOutOfRange),
    };
    let cpu = match parse_u64(v, sp.cpu_start, sp.cpu_end) {
        Some(x) => x,
        None => return Err(TraceError::NumberOutOfRange),
    };
    Ok(
        Trace {
            name: string_of(v, sp.name_start, sp.dash),
            pid,
            cpu,
            timestamp: TimeStamp { seconds, micro },
            trace_marker,
            number: string_of(v, sp.marker + 2, sp.number_end),
            shorthand: string_of(v, sp.number_end + 1, sp.colon),
            function: string_of(v, sp.colon + 1, v.len()),
        },
    )
}

/// The fields of a trace line, as positions in its characters.
pub struct LineSpansExec {
    pub name_start: usize,
    pub dash: usize,
    pub pid_end: usize,
    pub cpu_start: usize,
    pub cpu_end: usize,
    pub sec_start: usize,
    pub usec_start: usize,
    pub tag: usize,
    pub marker: usize,
    pub number_end: usize,
    pub colon: usize,
}

impl LineSpansExec {
    pub open spec fn spec(&self) -> LineSpans {
        LineSpans {
            name_start: self.name_start as int,
            dash: self.dash as int,
            pid_end: self.pid_end as int,
            cpu_start: self.cpu_start as int,
            cpu_end: self.cpu_end as int,
            sec_start: self.sec_start as int,
            usec_start: self.usec_start as int,
            tag: self.tag as int,
            marker: self.marker as int,
            number_end: self.number_end as int,
            colon: self.colon as int,
        }
    }
}

proof fn lemma_find_head(s: Seq<char>, i: int)
    requires
        0 <= i,
    ensures
        find_head(s, i) matches Some(k) ==> i <= k < s.len() && head_at(s, k),
    decreases s.len() - i,
{
    if i < s.len() && !head_at(s, i) {
        lemma_find_head(s, i + 1);
    }
}

proof fn lemma_find_stamp(s: Seq<char>, i: int)
    requires
        0 <= i,
    ensures
        find_stamp(s, i) matches Some(k) ==> i <= k < s.len() && stamp_at(s, k),
    decreases s.len() - i,
{
    if i < s.len() && !stamp_at(s, i) {
        lemma_find_stamp(s, i + 1);
    }
}

/// The fields of a line lie in order within it, and the numeric ones are digits.
proof fn lemma_spans_ordered(s: Seq<char>)
    ensures
        line_spans(s) matches Some(sp) ==> {
            &&& 0 <= sp.name_start <= sp.dash
            &&& sp.dash + 1 <= sp.pid_end <= sp.cpu_start <= sp.cpu_end < sp.sec_start
            &&& sp.sec_start < sp.usec_start - 1 < sp.usec_start < sp.tag
            &&& sp.marker == sp.tag + trace_tag().len()
            &&& sp.marker + 2 < sp.number_end < sp.colon < s.len()
            &&& all_digits(s.subrange(sp.dash + 1, sp.pid_end))
            &&& all_digits(s.subrange(sp.cpu_start, sp.cpu_end))
            &&& all_digits(s.subrange(sp.sec_start, sp.usec_start - 1))
            &&& all_digits(s.subrange(sp.usec_start, sp.tag))
        },
{
    lemma_spaces_end(s, 0);
    let s0 = spaces_end(s, 0);
    lemma_find_head(s, s0);
    if let Some(dash) = find_head(s, s0) {
        lemma_digits_end(s, dash + 1);
        let pe = digits_end(s, dash + 1);
        lemma_spaces_end(s, pe);
        let a = spaces_end(s, pe);
        lemma_spaces_end(s, a + 1);
        let b = spaces_end(s, a + 1);
        lemma_digits_end(s, b);
        let be = digits_end(s, b);
        lemma_find_stamp(s, be + 1);
        if let Some(k) = find_stamp(s, be + 1) {
            lemma_digits_start(s, k);
            let us = digits_start(s, k);
            lemma_digits_start_after(s, k, be);
            if 1 <= us < k && s[us - 1] == '.' {
                lemma_digits_start(s, us - 1);
                lemma_digits_start_after(s, us - 1, be);
            }
            let t = k + trace_tag().len();
            if t + 1 < s.len() {
                lemma_digits_end(s, t + 2);
                let ne = digits_end(s, t + 2);
                lemma_find_from_some(s, seq![':'], ne + 1);
            }
        }
    }
}

/// Reads one line: `None` where it is no trace line, else the trace or why it is malformed.
pub fn line_to_trace(line: &str) -> (r: Option<Result<Trace, TraceError>>)
    ensures
        parsed_view(r) == parse_line_spec(line@),
{
    let v = chars_of(line);
    proof {
        lemma_spans_ordered(v@);
        lemma_spaces_end(v@, 0);
    }
    let n = v.len();
    let s0 = spaces_end_exec(&v, 0);
    let dash = match find_head_exec(&v, s0) {
        Some(d) => d,
        None => return None,
    };
    proof {
        lemma_find_head(v@, s0 as int);
    }
    let pe = digits_end_exec(&v, dash + 1);
    let a = spaces_end_exec(&v, pe);
    let b = spaces_end_exec(&v, a + 1);
    let be = digits_end_exec(&v, b);
    let tag = tag_exec();
    let k = match find_stamp_exec(&v, &tag, be + 1) {
        Some(k) => k,
        None => return None,
    };
    proof {
        lemma_find_stamp(v@, be + 1);
    }
    let us = digits_start_exec(&v, k);
    let ss = digits_start_exec(&v, us - 1);
    let t = k + tag.len();
    if !(t < n && t + 1 < n && v[t + 1] == '|') {
        return None;
    }
    let ne = digits_end_exec(&v, t + 2);
    if !(ne > t + 2 && ne < v.len() && v[ne] == '|') {
        return None;
    }
    let colon_pat = vec![':'];
    assert(colon_pat@ =~= seq![':']);
    let c = match find_from_exec(&v, &colon_pat, ne + 1) {
        Some(c) => c,
        None => return None,
    };
    let sp = LineSpansExec {
        name_start: s0,
        dash,
        pid_end: pe,
        cpu_start: b,
        cpu_end: be,
        sec_start: ss,
        usec_start: us,
        tag: k,
        marker: t,
        number_end: ne,
        colon: c,
    };
    assert(line_spans(v@) == Some(sp.spec()));
    Some(match_to_trace(&v, &sp))
}

/// The traces of a capture, and the indices of the lines in trace shape that were malformed.
pub struct Capture {
    pub traces: Vec<Trace>,
    pub malformed: Vec<usize>,
}

pub open spec fn traces_view(ts: Seq<Trace>) -> Seq<TraceView> {
    ts.map_values(|t: Trace| t@)
}

/// The traces that the first lines of a capture give, in order.
pub open spec fn parsed_traces(lines: Seq<Seq<char>>) -> Seq<TraceView>
    decreases lines.len(),
{
    if lines.len() == 0 {
        Seq::empty()
    } else {
        let prev = parsed_traces(lines.drop_last());
        match parse_line_spec(lines.last()) {
            Some(Ok(t)) => prev.push(t),
            _ => prev,
        }
    }
}

/// The indices of the malformed lines among the first lines of a capture, in order.
pub open spec fn malformed_lines(lines: Seq<Seq<char>>) -> Seq<usize>
    decreases lines.len(),
{
    if lines.len() == 0 {
        Seq::empty()
    } else {
        let prev = malformed_lines(lines.drop_last());
        match parse_line_spec(lines.last()) {
            Some(Err(_)) => prev.push((lines.len() - 1) as usize),
            _ => prev,
        }
    }
}

pub open spec fn lines_view(lines: Seq<String>) -> Seq<Seq<char>> {
    lines.map_values(|l: String| l@)
}

/// Reads every line of a capture; a malformed line is skipped and its index kept.
pub fn read_lines(lines: &Vec<String>) -> (r: Capture)
    ensures
        traces_view(r.traces@) == parsed_traces(lines_view(lines@)),
        r.malformed@ == malformed_lines(lines_view(lines@)),
{
    let mut traces: Vec<Trace> = Vec::new();
    let mut malformed: Vec<usize> = Vec::new();
    let mut i: usize = 0;
    while i < lines.len()
        invariant
            0 <= i <= lines@.len(),
            traces_view(traces@) == parsed_traces(lines_view(lines@.take(i as int))),
            malformed@ == malformed_lines(lines_view(lines@.take(i as int))),
        decreases lines@.len() - i,
    {
        let ghost before = lines_view(lines@.take(i as int));
        let ghost after = lines_view(lines@.take(i + 1));
        assert(after.drop_last() =~= before);
        assert(after.last() == lines@[i as int]@);
        let ghost old_traces = traces@;
        match line_to_trace(lines[i].as_str()) {
            Some(Ok(t)) => {
                traces.push(t);
                assert(traces_view(traces@) =~= traces_view(old_traces).push(traces@.last()@));
            },
            Some(Err(_)) => {
                malformed.push(i);
            },
            None => {},
        }
        i = i + 1;
    }
    assert(lines@.take(i as int) =~= lines@);
    Capture { traces, malformed }
}

/// The header of a written line: `<name>-<pid> (<cpu>) `.
pub open spec fn head_part(t: TraceView) -> Seq<char> {
    t.name + seq!['-'] + decimal(t.pid as nat) + seq![' ', '('] + decimal(t.cpu as nat) + seq![
        ')',
        ' ',
    ]
}

/// The time stamp and tag of a written line: `<sec>.<usec>: tracing_mark_write: `.
pub open spec fn stamp_part(t: TraceView) -> Seq<char> {
    decimal(t.timestamp.seconds as nat) + seq!['.'] + decimal(t.timestamp.micro as nat)
        + trace_tag()
}

/// The rest of a written line: `<m>|<number>|<shorthand>:<payload>`.
pub open spec fn body_part(t: TraceView) -> Seq<char> {
    seq![marker_char(t.trace_marker), '|'] + t.number + seq!['|'] + t.shorthand + seq![':']
        + t.function
}

/// The line that writes a trace in the grammar above.
pub open spec fn line_of(t: TraceView) -> Seq<char> {
    head_part(t) + stamp_part(t) + body_part(t)
}

/// A trace that a line can carry: the name neither starts with whitespace nor holds a
/// `-`, the sequence number is digits, and the short code holds no `:`.
pub open spec fn writable(t: TraceView) -> bool {
    &&& (t.name.len() == 0 || !is_space(t.name[0]))
    &&& forall|i: int| 0 <= i < t.name.len() ==> #[trigger] t.name[i] != '-'
    &&& t.number.len() > 0
    &&& all_digits(t.number)
    &&& forall|i: int| 0 <= i < t.shorthand.len() ==> #[trigger] t.shorthand[i] != ':'
}

fn marker_to_char(m: TraceMarker) -> (c: char)
    ensures
        c == marker_char(m),
{
    match m {
        TraceMarker::StartSync => 'B',
        TraceMarker::EndSync => 'E',
        TraceMarker::StartAsync => 'S',
        TraceMarker::EndAsync => 'F',
        TraceMarker::Dot => 'C',
    }
}

impl Trace {
    /// The trace written as a line of a capture.
    pub fn to_line(&self) -> (r: String)
        ensures
            r@ == line_of(self@),
    {
        let mut r = String::new();
        push_text(&mut r, self.name.as_str());
        push_char(&mut r, '-');
        push_decimal(&mut r, self.pid);
        push_char(&mut r, ' ');
        push_char(&mut r, '(');
        push_decimal(&mut r, self.cpu);
        push_char(&mut r, ')');
        push_char(&mut r, ' ');
        push_decimal(&mut r, self.timestamp.seconds);
        push_char(&mut r, '.');
        push_decimal(&mut r, self.timestamp.micro);
        let tag = tag_exec();
        let mut i: usize = 0;
        let ghost start = r@;
        while i < tag.len()
            invariant
                0 <= i <= tag@.len(),
                tag@ == trace_tag(),
                r@ == start + tag@.take(i as int),
            decreases tag@.len() - i,
        {
            push_char(&mut r, tag[i]);
            i = i + 1;
            assert(r@ =~= start + tag@.take(i as int));
        }
        assert(tag@.take(i as int) =~= tag@);
        push_char(&mut r, marker_to_char(self.trace_marker));
        push_char(&mut r, '|');
        push_text(&mut r, self.number.as_str());
        push_char(&mut r, '|');
        push_text(&mut r, self.shorthand.as_str());
        push_char(&mut r, ':');
        push_text(&mut r, self.function.as_str());
        assert(r@ =~= line_of(self@));
        r
    }
}

proof fn lemma_find_head_skip(s: Seq<char>, i: int, j: int)
    requires
        0 <= i <= j,
        forall|k: int| i <= k < j ==> !head_at(s, k),
    ensures
        find_head(s, i) == find_head(s, j) || j > s.len(),
    decreases j - i,
{
    if i < j && i < s.len() {
        lemma_find_head_skip(s, i + 1, j);
    }
}

proof fn lemma_find_stamp_skip(s: Seq<char>, i: int, j: int)
    requires
        0 <= i <= j <= s.len(),
        forall|k: int| i <= k < j ==> !stamp_at(s, k),
    ensures
        find_stamp(s, i) == find_stamp(s, j),
    decreases j - i,
{
    if i < j {
        lemma_find_stamp_skip(s, i + 1, j);
    }
}

/// Where each field of a trace stands in a line, by the lengths of the fields.
pub open spec fn laid_out(s: Seq<char>, t: TraceView) -> bool {
    let pd = decimal(t.pid as nat);
    let cd = decimal(t.cpu as nat);
    let sd = decimal(t.timestamp.seconds as nat);
    let ud = decimal(t.timestamp.micro as nat);
    let n = t.name.len() as int;
    let a0 = n + 1 + pd.len();
    let b = a0 + 2;
    let be = b + cd.len();
    let ss = be + 2;
    let dot = ss + sd.len();
    let us = dot + 1;
    let k = us + ud.len();
    let tt = k + 22;
    let ne = tt + 2 + t.number.len();
    let c = ne + 1 + t.shorthand.len();
    &&& s.len() == c + 1 + t.function.len()
    &&& s.subrange(0, n) == t.name
    &&& s[n] == '-'
    &&& s.subrange(n + 1, a0) == pd
    &&& s[a0] == ' '
    &&& s[a0 + 1] == '('
    &&& s.subrange(b, be) == cd
    &&& s[be] == ')'
    &&& s[be + 1] == ' '
    &&& s.subrange(ss, dot) == sd
    &&& s[dot] == '.'
    &&& s.subrange(us, k) == ud
    &&& s.subrange(k, k + 22) == trace_tag()
    &&& s[tt] == marker_char(t.trace_marker)
    &&& s[tt + 1] == '|'
    &&& s.subrange(tt + 2, ne) == t.number
    &&& s[ne] == '|'
    &&& s.subrange(ne + 1, c) == t.shorthand
    &&& s[c] == ':'
    &&& s.subrange(c + 1, s.len() as int) == t.function
}

proof fn lemma_line_laid_out(t: TraceView)
    ensures
        laid_out(line_of(t), t),
{
    let h = head_part(t);
    let m = stamp_part(t);
    let bd = body_part(t);
    let s = line_of(t);
    let pd = decimal(t.pid as nat);
    let cd = decimal(t.cpu as nat);
    let sd = decimal(t.timestamp.seconds as nat);
    let ud = decimal(t.timestamp.micro as nat);
    let n = t.name.len() as int;
    let a0 = n + 1 + pd.len();
    let b = a0 + 2;
    let be = b + cd.len();
    assert(h.len() == be + 2);
    assert(h.subrange(0, n) =~= t.name);
    assert(h.subrange(n + 1, a0) =~= pd);
    assert(h.subrange(b, be) =~= cd);
    assert(h[n] == '-' && h[a0] == ' ' && h[a0 + 1] == '(' && h[be] == ')' && h[be + 1] == ' ');
    let hl = h.len() as int;
    let dl = sd.len() as int;
    let ul = ud.len() as int;
    assert(m.len() == dl + 1 + ul + 22);
    assert(m.subrange(0, dl) =~= sd);
    assert(m[dl] == '.');
    assert(m.subrange(dl + 1, dl + 1 + ul) =~= ud);
    assert(m.subrange(dl + 1 + ul, dl + 1 + ul + 22) =~= trace_tag());
    let ml = m.len() as int;
    let nl = t.number.len() as int;
    let sl = t.shorthand.len() as int;
    assert(bd[0] == marker_char(t.trace_marker) && bd[1] == '|');
    assert(bd.subrange(2, 2 + nl) =~= t.number);
    assert(bd[2 + nl] == '|');
    assert(bd.subrange(3 + nl, 3 + nl + sl) =~= t.shorthand);
    assert(bd[3 + nl + sl] == ':');
    assert(bd.subrange(4 + nl + sl, bd.len() as int) =~= t.function);
    assert(s.subrange(0, hl) =~= h);
    assert(s.subrange(hl, hl + ml) =~= m);
    assert(s.subrange(hl + ml, s.len() as int) =~= bd);
    assert(s.subrange(0, n) =~= h.subrange(0, n));
    assert(s.subrange(n + 1, a0) =~= h.subrange(n + 1, a0));
    assert(s.subrange(b, be) =~= h.subrange(b, be));
    assert(s[n] == h[n] && s[a0] == h[a0] && s[a0 + 1] == h[a0 + 1] && s[be] == h[be] && s[be
        + 1] == h[be + 1]);
    assert(s.subrange(hl, hl + dl) =~= m.subrange(0, dl));
    assert(s[hl + dl] == m[dl]);
    assert(s.subrange(hl + dl + 1, hl + dl + 1 + ul) =~= m.subrange(dl + 1, dl + 1 + ul));
    assert(s.subrange(hl + dl + 1 + ul, hl + ml) =~= m.subrange(dl + 1 + ul, ml));
    let o = hl + ml;
    assert(s[o] == bd[0] && s[o + 1] == bd[1] && s[o + 2 + nl] == bd[2 + nl] && s[o + 3 + nl
        + sl] == bd[3 + nl + sl]);
    assert(s.subrange(o + 2, o + 2 + nl) =~= bd.subrange(2, 2 + nl));
    assert(s.subrange(o + 3 + nl, o + 3 + nl + sl) =~= bd.subrange(3 + nl, 3 + nl + sl));
    assert(s.subrange(o + 4 + nl + sl, s.len() as int) =~= bd.subrange(4 + nl + sl, bd.len() as int));
}

/// Reading a line in which the fields of a trace are laid out gives the trace.
#[verifier::rlimit(40)]
proof fn lemma_parse_laid_out(s: Seq<char>, t: TraceView)
    requires
        writable(t),
        laid_out(s, t),
    ensures
        parse_line_spec(s) == Some(Ok::<TraceView, TraceError>(t)),
{
    let pd = decimal(t.pid as nat);
    let cd = decimal(t.cpu as nat);
    let sd = decimal(t.timestamp.seconds as nat);
    let ud = decimal(t.timestamp.micro as nat);
    lemma_decimal(t.pid as nat);
    lemma_decimal(t.cpu as nat);
    lemma_decimal(t.timestamp.seconds as nat);
    lemma_decimal(t.timestamp.micro as nat);
    let n = t.name.len() as int;
    let a0 = n + 1 + pd.len();
    let b = a0 + 2;
    let be = b + cd.len();
    let ss = be + 2;
    let dot = ss + sd.len();
    let us = dot + 1;
    let k = us + ud.len();
    let tt = k + 22;
    let ne = tt + 2 + t.number.len();
    let c = ne + 1 + t.shorthand.len();
    // The header.
    assert(spaces_end(s, 0) == 0) by {
        if n > 0 {
            assert(s[0] == s.subrange(0, n)[0]);
        }
    }
    assert forall|i: int| 0 <= i < n implies !head_at(s, i) by {
        assert(s[i] == s.subrange(0, n)[i]);
    }
    lemma_find_head_skip(s, 0, n);
    assert(s[b] == s.subrange(b, be)[0]);
    lemma_digits_end_at(s, n + 1, a0);
    lemma_digits_end_at(s, b, be);
    assert(spaces_end(s, a0 + 1) == a0 + 1);
    assert(spaces_end(s, a0) == a0 + 1);
    assert(spaces_end(s, b) == b);
    assert(head_at(s, n));
    assert(find_head(s, 0) == Some(n));
    // The time stamp.
    assert(trace_tag()[0] == ':');
    assert forall|i: int| be + 1 <= i < k implies !stamp_at(s, i) by {
        if ss <= i < dot {
            assert(s[i] == s.subrange(ss, dot)[i - ss]);
        } else if us <= i < k {
            assert(s[i] == s.subrange(us, k)[i - us]);
        }
        if occurs_at(s, trace_tag(), i) {
            assert(s.subrange(i, i + 22)[0] == s[i]);
        }
    }
    lemma_find_stamp_skip(s, be + 1, k);
    lemma_digits_start_at(s, us, k);
    lemma_digits_start_at(s, ss, dot);
    assert(occurs_at(s, trace_tag(), k));
    assert(stamp_at(s, k));
    assert(find_stamp(s, be + 1) == Some(k));
    // The marker, the number and the short code.
    lemma_digits_end_at(s, tt + 2, ne);
    assert forall|i: int| ne + 1 <= i < c implies !occurs_at(s, seq![':'], i) by {
        assert(s[i] == s.subrange(ne + 1, c)[i - ne - 1]);
        if occurs_at(s, seq![':'], i) {
            assert(s.subrange(i, i + 1)[0] == s[i]);
        }
    }
    lemma_find_from_skip(s, seq![':'], ne + 1, c);
    assert(s.subrange(c, c + 1) =~= seq![':']);
    assert(find_from(s, seq![':'], c) == Some(c));
    let sp = LineSpans {
        name_start: 0,
        dash: n,
        pid_end: a0,
        cpu_start: b,
        cpu_end: be,
        sec_start: ss,
        usec_start: us,
        tag: k,
        marker: tt,
        number_end: ne,
        colon: c,
    };
    assert(line_spans(s) == Some(sp));
    assert(trace_of_spans(s, sp) == Ok::<TraceView, TraceError>(t));
}

/// Reading the line that writes a trace gives the trace back.
pub proof fn lemma_round_trip(t: TraceView)
    requires
        writable(t),
    ensures
        parse_line_spec(line_of(t)) == Some(Ok::<TraceView, TraceError>(t)),
{
    lemma_line_laid_out(t);
    lemma_parse_laid_out(line_of(t), t);
}

} // verus!

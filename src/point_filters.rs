//! Point filters: scalar measurements read from single trace messages.
use vstd::prelude::*;

use crate::text::{
    all_digits, chars_of, digits_end, digits_end_exec, digits_start, digits_start_exec,
    digits_value, find_from, find_from_exec, is_space, is_word, occurs_at, occurs_at_exec,
    parse_u64, rfind_before, rfind_before_exec, spaces_end, spaces_end_exec, lemma_digits_end,
    lemma_digits_start, lemma_find_from_some, lemma_find_from_contains, push_char, push_text,
    seq_contains, string_of, contains,
};
use crate::trace::{Trace, TraceMarker, TraceView, traces_view};

verus! {

/// How the points of one filter that share a name are combined.
#[derive(Clone, Copy, Debug, PartialEq, Eq, Structural)]
pub enum PointFilterType {
    /// Each name may be matched once; a Testcase or MemoryReport seen twice is dropped.
    Default,
    /// Points that share a name are summed.
    Combined,
    /// Of the points that share a name the largest is kept.
    Largest,
}

/// The kind of a point, without its value.
#[derive(Clone, Copy, Debug, PartialEq, Eq, Structural)]
pub enum PointKind {
    MemoryUrl,
    MemoryReport,
    Smaps,
    Testcase,
    Combined,
    LargestContentfulPaint,
}

/// The kinds of points, each with its value.
#[derive(Clone, Copy, Debug, PartialEq, Eq, Structural)]
pub enum PointType {
    /// A memory report that has a url attached, like LayoutThread.
    MemoryUrl(u64),
    /// A plain memory report, such as resident memory.
    MemoryReport(u64),
    /// A report of smaps.
    Smaps(u64),
    /// A testcase point.
    Testcase(u64),
    /// The sum of the points that share a name.
    Combined(u64),
    /// A paint timing or area, or the largest of the points that share a name.
    LargestContentfulPaint(u64),
}

impl PointType {
    pub open spec fn value(self) -> u64 {
        match self {
            PointType::MemoryUrl(v) => v,
            PointType::MemoryReport(v) => v,
            PointType::Smaps(v) => v,
            PointType::Testcase(v) => v,
            PointType::Combined(v) => v,
            PointType::LargestContentfulPaint(v) => v,
        }
    }

    pub open spec fn kind_of(self) -> PointKind {
        match self {
            PointType::MemoryUrl(_) => PointKind::MemoryUrl,
            PointType::MemoryReport(_) => PointKind::MemoryReport,
            PointType::Smaps(_) => PointKind::Smaps,
            PointType::Testcase(_) => PointKind::Testcase,
            PointType::Combined(_) => PointKind::Combined,
            PointType::LargestContentfulPaint(_) => PointKind::LargestContentfulPaint,
        }
    }

    /// The value that the point carries.
    pub fn numeric_value(&self) -> (r: Option<u64>)
        ensures
            r == Some(self.value()),
    {
        match self {
            PointType::MemoryUrl(v)
            | PointType::MemoryReport(v)
            | PointType::Smaps(v)
            | PointType::Testcase(v)
            | PointType::Combined(v)
            | PointType::LargestContentfulPaint(v) => Some(*v),
        }
    }

    /// The kind of the point.
    pub fn kind(&self) -> (r: PointKind)
        ensures
            r == self.kind_of(),
    {
        match self {
            PointType::MemoryUrl(_) => PointKind::MemoryUrl,
            PointType::MemoryReport(_) => PointKind::MemoryReport,
            PointType::Smaps(_) => PointKind::Smaps,
            PointType::Testcase(_) => PointKind::Testcase,
            PointType::Combined(_) => PointKind::Combined,
            PointType::LargestContentfulPaint(_) => PointKind::LargestContentfulPaint,
        }
    }
}

// The grammars of the messages that carry points.  A value stands at the end of the
// message, in one of two forms:
//
//     <path> <ws> <digits>              (older captures)
//     <path>|<digits>|<word chars>      (newer captures)
//
// The first form is tried first.
/// Where the path of a message ends and where its value stands.
pub struct Tail {
    pub path_end: int,
    pub digits_start: int,
    pub digits_end: int,
}

pub open spec fn all_word(s: Seq<char>) -> bool {
    forall|i: int| 0 <= i < s.len() ==> is_word(#[trigger] s[i])
}

/// `<path> <ws> <digits>` at the end, the path starting at `lo`; with `literal_space` the
/// separator must be a plain space.
pub open spec fn space_tail(f: Seq<char>, lo: int, literal_space: bool) -> Option<Tail> {
    let ds = digits_start(f, f.len() as int);
    if ds < f.len() && ds - 1 >= lo && (if literal_space {
        f[ds - 1] == ' '
    } else {
        is_space(f[ds - 1])
    }) {
        Some(Tail { path_end: ds - 1, digits_start: ds, digits_end: f.len() as int })
    } else {
        None
    }
}

/// `<path>|<digits>|<word chars>` at the end, the path starting at `lo`.
pub open spec fn bar_tail(f: Seq<char>, lo: int) -> Option<Tail> {
    match rfind_before(f, '|', f.len() as int) {
        None => None,
        Some(last_bar) => if all_word(f.subrange(last_bar + 1, f.len() as int)) {
            match rfind_before(f, '|', last_bar) {
                None => None,
                Some(prev_bar) => if prev_bar >= lo && prev_bar + 1 < last_bar && all_digits(f.subrange(prev_bar + 1, last_bar)) {
                    Some(Tail { path_end: prev_bar, digits_start: prev_bar + 1, digits_end: last_bar })
                } else {
                    None
                },
            }
        } else {
            None
        },
    }
}

/// In a memory report with a url, `url(<url>)/<path>`: the end of the url, which is
/// the first `)/` that ends before the path does.
pub open spec fn url_split(f: Seq<char>, lo: int, path_end: int) -> Option<int> {
    match find_from(f, ")/"@, lo) {
        Some(c) => if c + 2 <= path_end {
            Some(c)
        } else {
            None
        },
        None => None,
    }
}

pub open spec fn tail_ok(f: Seq<char>, lo: int, with_url: bool, t: Tail) -> bool {
    !with_url || url_split(f, lo, t.path_end) is Some
}

/// The value at the end of a message whose path starts at `lo`.
pub open spec fn value_tail(f: Seq<char>, lo: int, literal_space: bool, with_url: bool) -> Option<
    Tail,
> {
    match space_tail(f, lo, literal_space) {
        Some(t) if tail_ok(f, lo, with_url, t) => Some(t),
        _ => match bar_tail(f, lo) {
            Some(t) if tail_ok(f, lo, with_url, t) => Some(t),
            _ => None,
        },
    }
}

proof fn lemma_rfind_before(s: Seq<char>, c: char, j: int)
    requires
        0 <= j <= s.len(),
    ensures
        rfind_before(s, c, j) matches Some(k) ==> 0 <= k < j && s[k] == c,
    decreases j,
{
    if j > 0 && s[j - 1] != c {
        lemma_rfind_before(s, c, j - 1);
    }
}

pub proof fn lemma_value_tail(f: Seq<char>, lo: int, literal_space: bool, with_url: bool)
    requires
        0 <= lo,
    ensures
        value_tail(f, lo, literal_space, with_url) matches Some(t) ==> {
            &&& lo <= t.path_end < t.digits_start < t.digits_end <= f.len()
            &&& all_digits(f.subrange(t.digits_start, t.digits_end))
            &&& with_url ==> url_split(f, lo, t.path_end) is Some
        },
{
    lemma_digits_start(f, f.len() as int);
    lemma_rfind_before(f, '|', f.len() as int);
    if let Some(last_bar) = rfind_before(f, '|', f.len() as int) {
        lemma_rfind_before(f, '|', last_bar);
    }
}

fn all_word_exec(v: &Vec<char>, lo: usize) -> (r: bool)
    requires
        lo <= v@.len(),
    ensures
        r == all_word(v@.subrange(lo as int, v@.len() as int)),
{
    let mut i: usize = lo;
    while i < v.len()
        invariant
            lo <= i <= v@.len(),
            forall|k: int| lo <= k < i ==> is_word(#[trigger] v@[k]),
        decreases v@.len() - i,
    {
        let c = v[i];
        if !(('a' <= c && c <= 'z') || ('A' <= c && c <= 'Z') || ('0' <= c && c <= '9') || c
            == '_') {
            assert(v@.subrange(lo as int, v@.len() as int)[i - lo] == c);
            return false;
        }
        i = i + 1;
    }
    assert forall|k: int| 0 <= k < v@.len() - lo implies is_word(
        #[trigger] v@.subrange(lo as int, v@.len() as int)[k],
    ) by {
        assert(v@.subrange(lo as int, v@.len() as int)[k] == v@[lo + k]);
    }
    true
}

fn digits_between(v: &Vec<char>, lo: usize, hi: usize) -> (r: bool)
    requires
        lo <= hi <= v@.len(),
    ensures
        r == all_digits(v@.subrange(lo as int, hi as int)),
{
    let e = digits_end_exec(v, lo);
    proof {
        lemma_digits_end(v@, lo as int);
    }
    if e >= hi {
        assert forall|k: int| 0 <= k < hi - lo implies crate::text::is_digit(
            #[trigger] v@.subrange(lo as int, hi as int)[k],
        ) by {
            assert(v@.subrange(lo as int, hi as int)[k] == v@.subrange(lo as int, e as int)[k]);
        }
        true
    } else {
        assert(v@.subrange(lo as int, hi as int)[e - lo] == v@[e as int]);
        false
    }
}

/// Where the path of a message ends and where its value stands, as exec positions.
pub struct TailExec {
    pub path_end: usize,
    pub digits_start: usize,
    pub digits_end: usize,
}

impl TailExec {
    pub open spec fn spec(&self) -> Tail {
        Tail {
            path_end: self.path_end as int,
            digits_start: self.digits_start as int,
            digits_end: self.digits_end as int,
        }
    }
}

fn space_tail_exec(v: &Vec<char>, lo: usize, literal_space: bool) -> (r: Option<TailExec>)
    requires
        lo <= v@.len(),
    ensures
        match r {
            Some(t) => space_tail(v@, lo as int, literal_space) == Some(t.spec()),
            None => space_tail(v@, lo as int, literal_space) is None,
        },
{
    let n = v.len();
    let ds = digits_start_exec(v, n);
    if ds < n && ds >= 1 && ds - 1 >= lo {
        let c = v[ds - 1];
        let sep_ok = if literal_space {
            c == ' '
        } else {
            c == ' ' || c == '\t' || c == '\n' || c == '\r' || c == '\x0B' || c == '\x0C'
        };
        if sep_ok {
            return Some(TailExec { path_end: ds - 1, digits_start: ds, digits_end: n });
        }
    }
    None
}

fn bar_tail_exec(v: &Vec<char>, lo: usize) -> (r: Option<TailExec>)
    requires
        lo <= v@.len(),
    ensures
        match r {
            Some(t) => bar_tail(v@, lo as int) == Some(t.spec()),
            None => bar_tail(v@, lo as int) is None,
        },
{
    let n = v.len();
    proof {
        lemma_rfind_before(v@, '|', n as int);
    }
    let last_bar = match rfind_before_exec(v, '|', n) {
        Some(p) => p,
        None => return None,
    };
    if !all_word_exec(v, last_bar + 1) {
        return None;
    }
    proof {
        lemma_rfind_before(v@, '|', last_bar as int);
    }
    let prev_bar = match rfind_before_exec(v, '|', last_bar) {
        Some(p) => p,
        None => return None,
    };
    if prev_bar >= lo && prev_bar + 1 < last_bar && digits_between(v, prev_bar + 1, last_bar) {
        Some(TailExec { path_end: prev_bar, digits_start: prev_bar + 1, digits_end: last_bar })
    } else {
        None
    }
}

fn url_split_exec(v: &Vec<char>, lo: usize, path_end: usize) -> (r: Option<usize>)
    requires
        lo <= v@.len(),
    ensures
        match r {
            Some(c) => url_split(v@, lo as int, path_end as int) == Some(c as int),
            None => url_split(v@, lo as int, path_end as int) is None,
        },
{
    let pat = chars_of(")/");
    proof {
        lemma_find_from_some(v@, pat@, lo as int);
    }
    match find_from_exec(v, &pat, lo) {
        Some(c) => if c <= path_end && 2 <= path_end - c {
            Some(c)
        } else {
            None
        },
        None => None,
    }
}

fn tail_ok_exec(v: &Vec<char>, lo: usize, with_url: bool, t: &TailExec) -> (r: bool)
    requires
        lo <= v@.len(),
    ensures
        r == tail_ok(v@, lo as int, with_url, t.spec()),
{
    !with_url || url_split_exec(v, lo, t.path_end).is_some()
}

/// The value at the end of a message whose path starts at `lo`.
pub fn value_tail_exec(v: &Vec<char>, lo: usize, literal_space: bool, with_url: bool) -> (r:
    Option<TailExec>)
    requires
        lo <= v@.len(),
    ensures
        match r {
            Some(t) => value_tail(v@, lo as int, literal_space, with_url) == Some(t.spec()),
            None => value_tail(v@, lo as int, literal_space, with_url) is None,
        },
{
    if let Some(t) = space_tail_exec(v, lo, literal_space) {
        if tail_ok_exec(v, lo, with_url, &t) {
            return Some(t);
        }
    }
    if let Some(t) = bar_tail_exec(v, lo) {
        if tail_ok_exec(v, lo, with_url, &t) {
            return Some(t);
        }
    }
    None
}

pub open spec fn memory_url_prefix() -> Seq<char> {
    "servo_memory_profiling:url("@
}

pub open spec fn smaps_prefix() -> Seq<char> {
    "servo_memory_profiling:resident-according-to-smaps/"@
}

pub open spec fn memory_prefix() -> Seq<char> {
    "servo_memory_profiling:"@
}

pub open spec fn testcase_prefix() -> Seq<char> {
    "TESTCASE_PROFILING: "@
}

pub open spec fn lcp_prefix() -> Seq<char> {
    "LargestContentfulPaint|"@
}

pub open spec fn fcp_prefix() -> Seq<char> {
    "FirstContentfulPaint|"@
}

/// The end of the run of word characters that starts at `i`.
pub open spec fn word_end(s: Seq<char>, i: int) -> int
    decreases s.len() - i,
{
    if 0 <= i < s.len() && is_word(s[i]) {
        word_end(s, i + 1)
    } else {
        i
    }
}

/// A paint message `<prefix><word chars>|<key=value list>`: where its list starts.
pub open spec fn paint_list_start(f: Seq<char>, prefix: Seq<char>) -> Option<int> {
    let we = word_end(f, prefix.len() as int);
    if occurs_at(f, prefix, 0) && we < f.len() && f[we] == '|' {
        Some(we + 1)
    } else {
        None
    }
}

/// The shape of a message, by the first of the grammars, in this order, that it has.
pub enum PayloadForm {
    MemoryUrl { url_end: int, tail: Tail },
    Smaps { tail: Tail },
    MemoryReport { tail: Tail },
    Testcase { tail: Tail },
    Lcp { list_start: int },
    Fcp { list_start: int },
    Other,
}

pub open spec fn payload_form(f: Seq<char>) -> PayloadForm {
    let mu = value_tail(f, memory_url_prefix().len() as int, false, true);
    let sm = value_tail(f, smaps_prefix().len() as int, false, false);
    let mr = value_tail(f, memory_prefix().len() as int, false, false);
    let tc = value_tail(f, testcase_prefix().len() as int, true, false);
    if occurs_at(f, memory_url_prefix(), 0) && mu is Some {
        PayloadForm::MemoryUrl {
            url_end: url_split(f, memory_url_prefix().len() as int, mu->0.path_end)->0,
            tail: mu->0,
        }
    } else if occurs_at(f, smaps_prefix(), 0) && sm is Some {
        PayloadForm::Smaps { tail: sm->0 }
    } else if occurs_at(f, memory_prefix(), 0) && mr is Some {
        PayloadForm::MemoryReport { tail: mr->0 }
    } else if occurs_at(f, testcase_prefix(), 0) && tc is Some {
        PayloadForm::Testcase { tail: tc->0 }
    } else if paint_list_start(f, lcp_prefix()) is Some {
        PayloadForm::Lcp { list_start: paint_list_start(f, lcp_prefix())->0 }
    } else if paint_list_start(f, fcp_prefix()) is Some {
        PayloadForm::Fcp { list_start: paint_list_start(f, fcp_prefix())->0 }
    } else {
        PayloadForm::Other
    }
}

// The key=value list of a paint message, such as
//     paint_time=CrossProcessInstant { value: 231277222481376 },area=4095,lcp_type=Image
/// At `i` a field of the list starts with `key` (which ends in `=`).
pub open spec fn field_at(kv: Seq<char>, key: Seq<char>, i: int) -> bool {
    (i == 0 || (0 < i <= kv.len() && kv[i - 1] == ',')) && occurs_at(kv, key, i)
}

/// The first field at or after `i` that starts with `key`.
pub open spec fn find_field(kv: Seq<char>, key: Seq<char>, i: int) -> Option<int>
    decreases kv.len() + 1 - i,
{
    if i < 0 || i > kv.len() {
        None
    } else if field_at(kv, key, i) {
        Some(i)
    } else {
        find_field(kv, key, i + 1)
    }
}

/// The text of the first field that starts with `key`, up to the next `,`.
pub open spec fn field_text(kv: Seq<char>, key: Seq<char>) -> Option<Seq<char>> {
    match find_field(kv, key, 0) {
        None => None,
        Some(i) => {
            let vs = i + key.len();
            let ve = match find_from(kv, ","@, vs) {
                Some(e) => e,
                None => kv.len() as int,
            };
            Some(kv.subrange(vs, ve))
        },
    }
}

/// A number, bare or wrapped as `<TypeName> { value: <digits> }`.
pub open spec fn instant_value(v: Seq<char>) -> Option<nat> {
    if v.len() > 0 && all_digits(v) {
        Some(digits_value(v))
    } else {
        match find_from(v, "{"@, 0) {
            None => None,
            Some(b) => {
                let p = spaces_end(v, b + 1);
                let q = spaces_end(v, p + "value:"@.len());
                let de = digits_end(v, q);
                let r = spaces_end(v, de);
                if occurs_at(v, "value:"@, p) && de > q && r + 1 == v.len() && v[r] == '}' {
                    Some(digits_value(v.subrange(q, de)))
                } else {
                    None
                }
            },
        }
    }
}

/// The number in the field `key` of a key=value list, where there is one that fits in 64 bits.
pub open spec fn field_number(kv: Seq<char>, key: Seq<char>) -> Option<u64> {
    match field_text(kv, key) {
        None => None,
        Some(t) => match instant_value(t) {
            Some(n) if n <= u64::MAX => Some(n as u64),
            _ => None,
        },
    }
}

fn word_end_exec(v: &Vec<char>, i: usize) -> (r: usize)
    requires
        i <= v@.len(),
    ensures
        r as int == word_end(v@, i as int),
        i <= r <= v@.len(),
{
    let mut j: usize = i;
    while j < v.len() && (('a' <= v[j] && v[j] <= 'z') || ('A' <= v[j] && v[j] <= 'Z') || ('0'
        <= v[j] && v[j] <= '9') || v[j] == '_')
        invariant
            i <= j <= v@.len(),
            word_end(v@, i as int) == word_end(v@, j as int),
        decreases v@.len() - j,
    {
        j = j + 1;
    }
    j
}

fn paint_list_start_exec(v: &Vec<char>, prefix: &Vec<char>) -> (r: Option<usize>)
    ensures
        match r {
            Some(k) => paint_list_start(v@, prefix@) == Some(k as int),
            None => paint_list_start(v@, prefix@) is None,
        },
{
    if !occurs_at_exec(v, prefix, 0) {
        return None;
    }
    let we = word_end_exec(v, prefix.len());
    if we < v.len() && v[we] == '|' {
        Some(we + 1)
    } else {
        None
    }
}

/// The shape of a message, as an exec value.
pub enum PayloadFormExec {
    MemoryUrl { url_end: usize, tail: TailExec },
    Smaps { tail: TailExec },
    MemoryReport { tail: TailExec },
    Testcase { tail: TailExec },
    Lcp { list_start: usize },
    Fcp { list_start: usize },
    Other,
}

impl PayloadFormExec {
    pub open spec fn spec(&self) -> PayloadForm {
        match self {
            PayloadFormExec::MemoryUrl { url_end, tail } => PayloadForm::MemoryUrl {
                url_end: *url_end as int,
                tail: tail.spec(),
            },
            PayloadFormExec::Smaps { tail } => PayloadForm::Smaps { tail: tail.spec() },
            PayloadFormExec::MemoryReport { tail } => PayloadForm::MemoryReport { tail: tail.spec() },
            PayloadFormExec::Testcase { tail } => PayloadForm::Testcase { tail: tail.spec() },
            PayloadFormExec::Lcp { list_start } => PayloadForm::Lcp { list_start: *list_start as int },
            PayloadFormExec::Fcp { list_start } => PayloadForm::Fcp { list_start: *list_start as int },
            PayloadFormExec::Other => PayloadForm::Other,
        }
    }
}

/// Tells which grammar a message follows, trying them in their order of priority.
pub fn payload_form_exec(v: &Vec<char>) -> (r: PayloadFormExec)
    ensures
        r.spec() == payload_form(v@),
{
    let mu_prefix = chars_of("servo_memory_profiling:url(");
    let sm_prefix = chars_of("servo_memory_profiling:resident-according-to-smaps/");
    let mr_prefix = chars_of("servo_memory_profiling:");
    let tc_prefix = chars_of("TESTCASE_PROFILING: ");
    let lcp = chars_of("LargestContentfulPaint|");
    let fcp = chars_of("FirstContentfulPaint|");
    if occurs_at_exec(v, &mu_prefix, 0) {
        if let Some(t) = value_tail_exec(v, mu_prefix.len(), false, true) {
            proof {
                lemma_value_tail(v@, mu_prefix@.len() as int, false, true);
            }
            let c = url_split_exec(v, mu_prefix.len(), t.path_end);
            if let Some(c) = c {
                return PayloadFormExec::MemoryUrl { url_end: c, tail: t };
            }
        }
    }
    if occurs_at_exec(v, &sm_prefix, 0) {
        if let Some(t) = value_tail_exec(v, sm_prefix.len(), false, false) {
            return PayloadFormExec::Smaps { tail: t };
        }
    }
    if occurs_at_exec(v, &mr_prefix, 0) {
        if let Some(t) = value_tail_exec(v, mr_prefix.len(), false, false) {
            return PayloadFormExec::MemoryReport { tail: t };
        }
    }
    if occurs_at_exec(v, &tc_prefix, 0) {
        if let Some(t) = value_tail_exec(v, tc_prefix.len(), true, false) {
            return PayloadFormExec::Testcase { tail: t };
        }
    }
    if let Some(k) = paint_list_start_exec(v, &lcp) {
        return PayloadFormExec::Lcp { list_start: k };
    }
    if let Some(k) = paint_list_start_exec(v, &fcp) {
        return PayloadFormExec::Fcp { list_start: k };
    }
    PayloadFormExec::Other
}

fn find_field_exec(kv: &Vec<char>, key: &Vec<char>) -> (r: Option<usize>)
    ensures
        match r {
            Some(i) => find_field(kv@, key@, 0) == Some(i as int),
            None => find_field(kv@, key@, 0) is None,
        },
{
    let mut i: usize = 0;
    while i <= kv.len()
        invariant
            0 <= i <= kv@.len() + 1,
            find_field(kv@, key@, 0) == find_field(kv@, key@, i as int),
        decreases kv@.len() + 1 - i,
    {
        if (i == 0 || kv[i - 1] == ',') && occurs_at_exec(kv, key, i) {
            return Some(i);
        }
        if i == kv.len() {
            assert(find_field(kv@, key@, i + 1) is None);
            return None;
        }
        i = i + 1;
    }
    None
}

proof fn lemma_find_field(kv: Seq<char>, key: Seq<char>, i: int)
    requires
        0 <= i,
    ensures
        find_field(kv, key, i) matches Some(k) ==> i <= k && occurs_at(kv, key, k),
    decreases kv.len() + 1 - i,
{
    if i <= kv.len() && !field_at(kv, key, i) {
        lemma_find_field(kv, key, i + 1);
    }
}

fn instant_value_exec(v: &Vec<char>, lo: usize, hi: usize) -> (r: Option<u64>)
    requires
        lo <= hi <= v@.len(),
    ensures
        r == (match instant_value(v@.subrange(lo as int, hi as int)) {
            Some(n) if n <= u64::MAX => Some(n as u64),
            _ => None::<u64>,
        }),
{
    let ghost t = v@.subrange(lo as int, hi as int);
    let w = copy_range(v, lo, hi);
    assert(w@ == t);
    if hi > lo && digits_between(v, lo, hi) {
        return parse_u64(v, lo, hi);
    }
    let brace = chars_of("{");
    let value_tag = chars_of("value:");
    let wl = w.len();
    let b = match find_from_exec(&w, &brace, 0) {
        Some(b) => b,
        None => return None,
    };
    proof {
        reveal_strlit("{");
        lemma_find_from_some(w@, brace@, 0);
    }
    let p = spaces_end_exec(&w, b + 1);
    if !occurs_at_exec(&w, &value_tag, p) {
        return None;
    }
    let q = spaces_end_exec(&w, p + value_tag.len());
    let de = digits_end_exec(&w, q);
    let r = spaces_end_exec(&w, de);
    proof {
        lemma_digits_end(w@, q as int);
    }
    if de > q && r < w.len() && r + 1 == w.len() && w[r] == '}' {
        parse_u64(&w, q, de)
    } else {
        None
    }
}

fn copy_range(v: &Vec<char>, lo: usize, hi: usize) -> (r: Vec<char>)
    requires
        lo <= hi <= v@.len(),
    ensures
        r@ == v@.subrange(lo as int, hi as int),
{
    let mut r: Vec<char> = Vec::new();
    let mut i: usize = lo;
    while i < hi
        invariant
            lo <= i <= hi <= v@.len(),
            r@ == v@.subrange(lo as int, i as int),
        decreases hi - i,
    {
        r.push(v[i]);
        i = i + 1;
        assert(r@ =~= v@.subrange(lo as int, i as int));
    }
    r
}

/// The number in the field `key` (which ends in `=`) of a key=value list.
pub fn field_number_exec(kv: &Vec<char>, key: &Vec<char>) -> (r: Option<u64>)
    ensures
        r == field_number(kv@, key@),
{
    let n = kv.len();
    let i = match find_field_exec(kv, key) {
        Some(i) => i,
        None => return None,
    };
    proof {
        lemma_find_field(kv@, key@, 0);
    }
    let vs = i + key.len();
    let comma = chars_of(",");
    proof {
        lemma_find_from_some(kv@, comma@, vs as int);
    }
    let ve = match find_from_exec(kv, &comma, vs) {
        Some(e) => e,
        None => kv.len(),
    };
    instant_value_exec(kv, vs, ve)
}

/// The values of a largest-contentful-paint message.
#[derive(Clone, Copy, Debug, PartialEq, Eq, Structural)]
pub struct LCPTraceValues {
    pub paint_time: u64,
    pub area: u64,
}

/// The value of a first-contentful-paint message.
#[derive(Clone, Copy, Debug, PartialEq, Eq, Structural)]
pub struct FCPTraceValue {
    pub paint_time: u64,
}

pub open spec fn lcp_values(kv: Seq<char>) -> Option<LCPTraceValues> {
    match (field_number(kv, "paint_time="@), field_number(kv, "area="@)) {
        (Some(p), Some(a)) => Some(LCPTraceValues { paint_time: p, area: a }),
        _ => None,
    }
}

pub open spec fn fcp_value(kv: Seq<char>) -> Option<FCPTraceValue> {
    match field_number(kv, "paint_time="@) {
        Some(p) => Some(FCPTraceValue { paint_time: p }),
        None => None,
    }
}

fn lcp_values_exec(kv: &Vec<char>) -> (r: Option<LCPTraceValues>)
    ensures
        r == lcp_values(kv@),
{
    let paint_key = chars_of("paint_time=");
    let area_key = chars_of("area=");
    match (field_number_exec(kv, &paint_key), field_number_exec(kv, &area_key)) {
        (Some(p), Some(a)) => Some(LCPTraceValues { paint_time: p, area: a }),
        _ => None,
    }
}

fn fcp_value_exec(kv: &Vec<char>) -> (r: Option<FCPTraceValue>)
    ensures
        r == fcp_value(kv@),
{
    let paint_key = chars_of("paint_time=");
    match field_number_exec(kv, &paint_key) {
        Some(p) => Some(FCPTraceValue { paint_time: p }),
        None => None,
    }
}

/// Reads the paint time and area from the key=value list of a largest-contentful-paint
/// message; `None` where either is missing or malformed.
pub fn parse_lcp_trace(input: &str) -> (r: Option<LCPTraceValues>)
    ensures
        r == lcp_values(input@),
{
    let kv = chars_of(input);
    lcp_values_exec(&kv)
}

/// Reads the paint time from the key=value list of a first-contentful-paint message.
pub fn parse_fcp_trace(input: &str) -> (r: Option<FCPTraceValue>)
    ensures
        r == fcp_value(input@),
{
    let kv = chars_of(input);
    fcp_value_exec(&kv)
}

/// One extracted measurement.
#[derive(Debug)]
pub struct Point {
    /// The name of the measurement: the filter's name and a suffix (empty for a testcase).
    pub name: String,
    /// The value is a count rather than a quantity of bytes.
    pub no_unit_conversion: bool,
    pub point_type: PointType,
    /// The index of the trace this point was read from; none for a combined point.
    pub trace: Option<usize>,
}

pub struct PointView {
    pub name: Seq<char>,
    pub no_unit_conversion: bool,
    pub point_type: PointType,
    pub trace: Option<usize>,
}

impl View for Point {
    type V = PointView;

    open spec fn view(&self) -> PointView {
        PointView {
            name: self.name@,
            no_unit_conversion: self.no_unit_conversion,
            point_type: self.point_type,
            trace: self.trace,
        }
    }
}

impl Point {
    /// A copy of this point.
    pub fn duplicate(&self) -> (r: Point)
        ensures
            r@ == self@,
    {
        Point {
            name: self.name.clone(),
            no_unit_conversion: self.no_unit_conversion,
            point_type: self.point_type,
            trace: self.trace,
        }
    }
}

/// A specification of a point to extract.
#[derive(Debug)]
pub struct PointFilter {
    /// The name the points will carry.
    pub name: String,
    /// A message must contain this text to be considered.
    pub match_str: String,
    /// The value is a count rather than a quantity of bytes.
    pub no_unit_conversion: bool,
    pub point_filter_type: PointFilterType,
}

pub struct PointFilterView {
    pub name: Seq<char>,
    pub match_str: Seq<char>,
    pub no_unit_conversion: bool,
    pub point_filter_type: PointFilterType,
}

impl View for PointFilter {
    type V = PointFilterView;

    open spec fn view(&self) -> PointFilterView {
        PointFilterView {
            name: self.name@,
            match_str: self.match_str@,
            no_unit_conversion: self.no_unit_conversion,
            point_filter_type: self.point_filter_type,
        }
    }
}

/// Why a filter's points for one run are incomplete.
#[derive(Debug)]
pub enum PointError {
    /// Under the default policy more than one point of this kind matched; all were dropped.
    TooManyTracesMatching { kind: PointKind, traces: Vec<usize> },
    /// The trace at this index has a message in point shape whose value cannot be read.
    MalformedTrace { trace: usize },
}

pub enum PointErrorView {
    TooManyTracesMatching { kind: PointKind, traces: Seq<usize> },
    MalformedTrace { trace: usize },
}

impl View for PointError {
    type V = PointErrorView;

    open spec fn view(&self) -> PointErrorView {
        match self {
            PointError::TooManyTracesMatching { kind, traces } => PointErrorView::TooManyTracesMatching {
                kind: *kind,
                traces: traces@,
            },
            PointError::MalformedTrace { trace } => PointErrorView::MalformedTrace { trace: *trace },
        }
    }
}

pub open spec fn points_view(ps: Seq<Point>) -> Seq<PointView> {
    ps.map_values(|p: Point| p@)
}

pub open spec fn errors_view(es: Seq<PointError>) -> Seq<PointErrorView> {
    es.map_values(|e: PointError| e@)
}

/// What follows the first `/` of a memory path, with a `/` before it where it is not empty.
pub open spec fn url_suffix(path: Seq<char>) -> Seq<char> {
    match find_from(path, seq!['/'], 0) {
        None => Seq::empty(),
        Some(j) => {
            let rest = path.subrange(j + 1, path.len() as int);
            if rest.len() == 0 {
                Seq::empty()
            } else {
                seq!['/'] + rest
            }
        },
    }
}

pub open spec fn base_name(pf: PointFilterView) -> Seq<char> {
    pf.name
}

pub open spec fn point_of(name: Seq<char>, pf: PointFilterView, pt: PointType, idx: usize) -> PointView {
    PointView { name, no_unit_conversion: pf.no_unit_conversion, point_type: pt, trace: Some(idx) }
}

pub open spec fn tail_value(f: Seq<char>, t: Tail) -> nat {
    digits_value(f.subrange(t.digits_start, t.digits_end))
}

/// The points that the message `f` of the trace at `idx` gives; `None` where it is malformed.
pub open spec fn trace_points(pf: PointFilterView, url: Seq<char>, f: Seq<char>, idx: usize) -> Option<
    Seq<PointView>,
> {
    match payload_form(f) {
        PayloadForm::MemoryUrl { url_end, tail } => {
            let v = tail_value(f, tail);
            if v > u64::MAX {
                None
            } else if seq_contains(f.subrange(memory_url_prefix().len() as int, url_end), url) {
                Some(
                    seq![
                        point_of(
                            base_name(pf) + url_suffix(f.subrange(url_end + 2, tail.path_end)),
                            pf,
                            PointType::MemoryUrl(v as u64),
                            idx,
                        ),
                    ],
                )
            } else {
                Some(Seq::empty())
            }
        },
        PayloadForm::Smaps { tail } => {
            let v = tail_value(f, tail);
            if f.subrange(smaps_prefix().len() as int, tail.path_end) != pf.match_str {
                Some(Seq::empty())
            } else if v > u64::MAX {
                None
            } else {
                Some(seq![point_of(base_name(pf), pf, PointType::Smaps(v as u64), idx)])
            }
        },
        PayloadForm::MemoryReport { tail } => {
            let v = tail_value(f, tail);
            if v > u64::MAX {
                None
            } else {
                Some(seq![point_of(base_name(pf), pf, PointType::MemoryReport(v as u64), idx)])
            }
        },
        PayloadForm::Testcase { tail } => {
            let v = tail_value(f, tail);
            if v > u64::MAX {
                None
            } else if seq_contains(
                f.subrange(testcase_prefix().len() as int, tail.path_end),
                pf.match_str,
            ) {
                Some(seq![point_of(Seq::empty(), pf, PointType::Testcase(v as u64), idx)])
            } else {
                Some(Seq::empty())
            }
        },
        PayloadForm::Lcp { list_start } => match lcp_values(f.subrange(list_start, f.len() as int)) {
            None => None,
            Some(lv) => Some(
                seq![
                    point_of(
                        base_name(pf) + "/paint_time"@,
                        pf,
                        PointType::LargestContentfulPaint(lv.paint_time),
                        idx,
                    ),
                    point_of(
                        base_name(pf) + "/area"@,
                        pf,
                        PointType::LargestContentfulPaint(lv.area),
                        idx,
                    ),
                ],
            ),
        },
        PayloadForm::Fcp { list_start } => match fcp_value(f.subrange(list_start, f.len() as int)) {
            None => None,
            Some(fv) => Some(
                seq![
                    point_of(
                        base_name(pf) + "/paint_time"@,
                        pf,
                        PointType::LargestContentfulPaint(fv.paint_time),
                        idx,
                    ),
                ],
            ),
        },
        PayloadForm::Other => Some(Seq::empty()),
    }
}

pub open spec fn points_view_opt(r: Option<Vec<Point>>) -> Option<Seq<PointView>> {
    match r {
        None => None,
        Some(v) => Some(points_view(v@)),
    }
}

/// Whether `n` occurs in `v[lo..hi]`.
fn contains_in(v: &Vec<char>, lo: usize, hi: usize, n: &Vec<char>) -> (r: bool)
    requires
        lo <= hi <= v@.len(),
    ensures
        r == seq_contains(v@.subrange(lo as int, hi as int), n@),
{
    let w = copy_range(v, lo, hi);
    proof {
        lemma_find_from_contains(w@, n@, 0);
    }
    find_from_exec(&w, n, 0).is_some()
}

fn url_suffix_exec(v: &Vec<char>, lo: usize, hi: usize) -> (r: String)
    requires
        lo <= hi <= v@.len(),
    ensures
        r@ == url_suffix(v@.subrange(lo as int, hi as int)),
{
    let w = copy_range(v, lo, hi);
    let slash = vec!['/'];
    assert(slash@ =~= seq!['/']);
    proof {
        lemma_find_from_some(w@, slash@, 0);
    }
    let mut r = String::new();
    match find_from_exec(&w, &slash, 0) {
        None => {},
        Some(j) => {
            if j + 1 < w.len() {
                push_char(&mut r, '/');
                let rest = string_of(&w, j + 1, w.len());
                push_text(&mut r, rest.as_str());
            }
        },
    }
    assert(r@ =~= url_suffix(w@));
    r
}

fn name_of(name: &String) -> (r: String)
    ensures
        r@ == name@,
{
    name.clone()
}

impl PointFilter {
    /// A point filter under the default policy, for byte quantities.
    pub fn new(name: String, match_str: String) -> (r: PointFilter)
        ensures
            r@.name == name@,
            r@.match_str == match_str@,
            !r@.no_unit_conversion,
            r@.point_filter_type == PointFilterType::Default,
    {
        PointFilter {
            name,
            match_str,
            no_unit_conversion: false,
            point_filter_type: PointFilterType::Default,
        }
    }

    fn point(&self, name: String, pt: PointType, idx: usize) -> (r: Point)
        ensures
            r@ == point_of(name@, self@, pt, idx),
    {
        Point { name, no_unit_conversion: self.no_unit_conversion, point_type: pt, trace: Some(idx) }
    }

    /// A memory report with a url: kept only where the url contains the target url.
    fn filter_memory_url(&self, url: &str, f: &Vec<char>, url_end: usize, tail: &TailExec, idx: usize) -> (r: Option<Vec<Point>>)
        requires
            payload_form(f@) == (PayloadForm::MemoryUrl { url_end: url_end as int, tail: tail.spec() }),
        ensures
            points_view_opt(r) == trace_points(self@, url@, f@, idx),
    {
        proof {
            lemma_value_tail(f@, memory_url_prefix().len() as int, false, true);
            reveal_strlit(")/");
            lemma_find_from_some(f@, ")/"@, memory_url_prefix().len() as int);
        }
        let lo = chars_of("servo_memory_profiling:url(").len();
        let value = match parse_u64(f, tail.digits_start, tail.digits_end) {
            Some(v) => v,
            None => return None,
        };
        let target = chars_of(url);
        let mut points: Vec<Point> = Vec::new();
        if contains_in(f, lo, url_end, &target) {
            let mut name = name_of(&self.name);
            let suffix = url_suffix_exec(f, url_end + 2, tail.path_end);
            push_text(&mut name, suffix.as_str());
            points.push(self.point(name, PointType::MemoryUrl(value), idx));
        }
        assert(points_view(points@) =~= trace_points(self@, url@, f@, idx)->0);
        Some(points)
    }

    /// A report of smaps: kept only where its tag is the match text itself.
    fn filter_smaps(&self, url: &str, f: &Vec<char>, tail: &TailExec, idx: usize) -> (r: Option<Vec<Point>>)
        requires
            payload_form(f@) == (PayloadForm::Smaps { tail: tail.spec() }),
        ensures
            points_view_opt(r) == trace_points(self@, url@, f@, idx),
    {
        proof {
            lemma_value_tail(f@, smaps_prefix().len() as int, false, false);
        }
        let lo = chars_of("servo_memory_profiling:resident-according-to-smaps/").len();
        let mut points: Vec<Point> = Vec::new();
        let tag = string_of(f, lo, tail.path_end);
        if tag == self.match_str {
            let value = match parse_u64(f, tail.digits_start, tail.digits_end) {
                Some(v) => v,
                None => return None,
            };
            points.push(self.point(name_of(&self.name), PointType::Smaps(value), idx));
        }
        assert(points_view(points@) =~= trace_points(self@, url@, f@, idx)->0);
        Some(points)
    }

    /// A plain memory report.
    fn filter_memory(&self, url: &str, f: &Vec<char>, tail: &TailExec, idx: usize) -> (r: Option<Vec<Point>>)
        requires
            payload_form(f@) == (PayloadForm::MemoryReport { tail: tail.spec() }),
        ensures
            points_view_opt(r) == trace_points(self@, url@, f@, idx),
    {
        proof {
            lemma_value_tail(f@, memory_prefix().len() as int, false, false);
        }
        let value = match parse_u64(f, tail.digits_start, tail.digits_end) {
            Some(v) => v,
            None => return None,
        };
        let mut points: Vec<Point> = Vec::new();
        points.push(self.point(name_of(&self.name), PointType::MemoryReport(value), idx));
        assert(points_view(points@) =~= trace_points(self@, url@, f@, idx)->0);
        Some(points)
    }

    /// A testcase point: kept only where the case name contains the match text.
    fn filter_testcase(&self, url: &str, f: &Vec<char>, tail: &TailExec, idx: usize) -> (r: Option<Vec<Point>>)
        requires
            payload_form(f@) == (PayloadForm::Testcase { tail: tail.spec() }),
        ensures
            points_view_opt(r) == trace_points(self@, url@, f@, idx),
    {
        proof {
            lemma_value_tail(f@, testcase_prefix().len() as int, true, false);
        }
        let lo = chars_of("TESTCASE_PROFILING: ").len();
        let value = match parse_u64(f, tail.digits_start, tail.digits_end) {
            Some(v) => v,
            None => return None,
        };
        let key = chars_of(self.match_str.as_str());
        let mut points: Vec<Point> = Vec::new();
        if contains_in(f, lo, tail.path_end, &key) {
            let name = String::new();
            points.push(self.point(name, PointType::Testcase(value), idx));
        }
        assert(points_view(points@) =~= trace_points(self@, url@, f@, idx)->0);
        Some(points)
    }

    /// A paint timing: two points for the largest contentful paint, one for the first.
    fn filter_lcp_or_fcp(&self, url: &str, f: &Vec<char>, largest: bool, list_start: usize, idx: usize) -> (r: Option<Vec<Point>>)
        requires
            largest ==> payload_form(f@) == (PayloadForm::Lcp { list_start: list_start as int }),
            !largest ==> payload_form(f@) == (PayloadForm::Fcp { list_start: list_start as int }),
            list_start <= f@.len(),
        ensures
            points_view_opt(r) == trace_points(self@, url@, f@, idx),
    {
        let kv = copy_range(f, list_start, f.len());
        let mut points: Vec<Point> = Vec::new();
        if largest {
            let lv = match lcp_values_exec(&kv) {
                Some(lv) => lv,
                None => return None,
            };
            let mut paint_name = name_of(&self.name);
            push_text(&mut paint_name, "/paint_time");
            let mut area_name = name_of(&self.name);
            push_text(&mut area_name, "/area");
            points.push(self.point(paint_name, PointType::LargestContentfulPaint(lv.paint_time), idx));
            points.push(self.point(area_name, PointType::LargestContentfulPaint(lv.area), idx));
        } else {
            let fv = match fcp_value_exec(&kv) {
                Some(fv) => fv,
                None => return None,
            };
            let mut paint_name = name_of(&self.name);
            push_text(&mut paint_name, "/paint_time");
            points.push(self.point(paint_name, PointType::LargestContentfulPaint(fv.paint_time), idx));
        }
        assert(points_view(points@) =~= trace_points(self@, url@, f@, idx)->0);
        Some(points)
    }

    /// The points of one message, by the first grammar it follows; `None` where malformed.
    pub fn filter_trace_to_option_point(&self, trace: &Trace, idx: usize, url: &str) -> (r: Option<Vec<Point>>)
        ensures
            points_view_opt(r) == trace_points(self@, url@, trace@.function, idx),
    {
        let f = chars_of(trace.function.as_str());
        match payload_form_exec(&f) {
            PayloadFormExec::MemoryUrl { url_end, tail } => self.filter_memory_url(url, &f, url_end, &tail, idx),
            PayloadFormExec::Smaps { tail } => self.filter_smaps(url, &f, &tail, idx),
            PayloadFormExec::MemoryReport { tail } => self.filter_memory(url, &f, &tail, idx),
            PayloadFormExec::Testcase { tail } => self.filter_testcase(url, &f, &tail, idx),
            PayloadFormExec::Lcp { list_start } => self.filter_lcp_or_fcp(url, &f, true, list_start, idx),
            PayloadFormExec::Fcp { list_start } => self.filter_lcp_or_fcp(url, &f, false, list_start, idx),
            PayloadFormExec::Other => {
                let points: Vec<Point> = Vec::new();
                assert(points_view(points@) =~= Seq::<PointView>::empty());
                Some(points)
            },
        }
    }
}

/// A trace is considered where it is a point or a span start, mentions one of the
/// profiling tags, and contains the filter's match text.
pub open spec fn considered(pf: PointFilterView, t: TraceView) -> bool {
    &&& (t.trace_marker == TraceMarker::Dot || t.trace_marker == TraceMarker::StartSync)
    &&& (seq_contains(t.function, "servo_memory_profiling"@) || seq_contains(
        t.function,
        "TESTCASE_PROFILING"@,
    ) || seq_contains(t.function, "LargestContentfulPaint"@) || seq_contains(
        t.function,
        "FirstContentfulPaint"@,
    ))
    &&& seq_contains(t.function, pf.match_str)
}

/// The points of the considered traces, in order, and the indices of the malformed ones.
pub open spec fn gathered(pf: PointFilterView, url: Seq<char>, ts: Seq<TraceView>) -> (
    Seq<PointView>,
    Seq<usize>,
)
    decreases ts.len(),
{
    if ts.len() == 0 {
        (Seq::empty(), Seq::empty())
    } else {
        let (ps, bad) = gathered(pf, url, ts.drop_last());
        let i = (ts.len() - 1) as usize;
        if considered(pf, ts.last()) {
            match trace_points(pf, url, ts.last().function, i) {
                Some(q) => (ps + q, bad),
                None => (ps, bad.push(i)),
            }
        } else {
            (ps, bad)
        }
    }
}

pub open spec fn kind_count(ps: Seq<PointView>, k: PointKind) -> nat
    decreases ps.len(),
{
    if ps.len() == 0 {
        0
    } else {
        kind_count(ps.drop_last(), k) + if ps.last().point_type.kind_of() == k {
            1nat
        } else {
            0nat
        }
    }
}

/// The points that are not of kind `k`, in order.
pub open spec fn without_kind(ps: Seq<PointView>, k: PointKind) -> Seq<PointView>
    decreases ps.len(),
{
    if ps.len() == 0 {
        Seq::empty()
    } else {
        let r = without_kind(ps.drop_last(), k);
        if ps.last().point_type.kind_of() == k {
            r
        } else {
            r.push(ps.last())
        }
    }
}

/// The traces of the points of kind `k`, in order.
pub open spec fn traces_of_kind(ps: Seq<PointView>, k: PointKind) -> Seq<usize>
    decreases ps.len(),
{
    if ps.len() == 0 {
        Seq::empty()
    } else {
        let r = traces_of_kind(ps.drop_last(), k);
        if ps.last().point_type.kind_of() == k && ps.last().trace is Some {
            r.push(ps.last().trace->0)
        } else {
            r
        }
    }
}

/// Under the default policy: where more than one point is of kind `k`, all of them go, and
/// the error names their traces.
pub open spec fn dedup_kind(ps: Seq<PointView>, k: PointKind) -> (Seq<PointView>, Seq<PointErrorView>) {
    if kind_count(ps, k) > 1 {
        (
            without_kind(ps, k),
            seq![PointErrorView::TooManyTracesMatching { kind: k, traces: traces_of_kind(ps, k) }],
        )
    } else {
        (ps, Seq::empty())
    }
}

pub open spec fn deduplicated(ps: Seq<PointView>) -> (Seq<PointView>, Seq<PointErrorView>) {
    let (no_testcase, testcase_errors) = dedup_kind(ps, PointKind::Testcase);
    let (kept, report_errors) = dedup_kind(no_testcase, PointKind::MemoryReport);
    (kept, testcase_errors + report_errors)
}

/// The points of one name under the combining policies.
pub struct Group {
    pub name: Seq<char>,
    /// The index of the first point of the name.
    pub first: int,
    pub count: nat,
    pub total: u64,
    pub largest: u64,
}

pub open spec fn sat_add(a: u64, b: u64) -> u64 {
    if a + b > u64::MAX {
        u64::MAX
    } else {
        (a + b) as u64
    }
}

pub open spec fn max_u64(a: u64, b: u64) -> u64 {
    if a >= b {
        a
    } else {
        b
    }
}

/// The first group at or after `i` with this name.
pub open spec fn find_group(gs: Seq<Group>, name: Seq<char>, i: int) -> Option<int>
    decreases gs.len() - i,
{
    if i < 0 || i >= gs.len() {
        None
    } else if gs[i].name == name {
        Some(i)
    } else {
        find_group(gs, name, i + 1)
    }
}

/// The groups of the points by name, in the order in which names first appear.
pub open spec fn grouped(ps: Seq<PointView>) -> Seq<Group>
    decreases ps.len(),
{
    if ps.len() == 0 {
        Seq::empty()
    } else {
        let gs = grouped(ps.drop_last());
        let p = ps.last();
        let v = p.point_type.value();
        match find_group(gs, p.name, 0) {
            Some(i) => gs.update(
                i,
                Group {
                    name: gs[i].name,
                    first: gs[i].first,
                    count: gs[i].count + 1,
                    total: sat_add(gs[i].total, v),
                    largest: max_u64(gs[i].largest, v),
                },
            ),
            None => gs.push(Group { name: p.name, first: ps.len() - 1, count: 1, total: v, largest: v }),
        }
    }
}

/// The point that stands for a group: its only point, or their sum (saturating) or maximum.
pub open spec fn finish(ps: Seq<PointView>, g: Group, policy: PointFilterType) -> PointView {
    if g.count == 1 {
        ps[g.first]
    } else {
        PointView {
            name: g.name,
            no_unit_conversion: ps[g.first].no_unit_conversion,
            point_type: if policy == PointFilterType::Largest {
                PointType::LargestContentfulPaint(g.largest)
            } else {
                PointType::Combined(g.total)
            },
            trace: None,
        }
    }
}

pub open spec fn combined(ps: Seq<PointView>, policy: PointFilterType) -> Seq<PointView> {
    grouped(ps).map_values(|g: Group| finish(ps, g, policy))
}

/// The points and errors of one filter over one capture.
pub open spec fn extraction(pf: PointFilterView, url: Seq<char>, ts: Seq<TraceView>) -> (
    Seq<PointView>,
    Seq<PointErrorView>,
) {
    let (ps, bad) = gathered(pf, url, ts);
    let malformed = bad.map_values(|i: usize| PointErrorView::MalformedTrace { trace: i });
    if pf.point_filter_type == PointFilterType::Default {
        let (kept, duplicate_errors) = deduplicated(ps);
        (kept, malformed + duplicate_errors)
    } else {
        (combined(ps, pf.point_filter_type), malformed)
    }
}

proof fn lemma_grouped(ps: Seq<PointView>)
    ensures
        forall|j: int|
            0 <= j < grouped(ps).len() ==> {
                &&& 0 <= #[trigger] grouped(ps)[j].first < ps.len()
                &&& grouped(ps)[j].name == ps[grouped(ps)[j].first].name
                &&& grouped(ps)[j].count >= 1
            },
    decreases ps.len(),
{
    if ps.len() > 0 {
        lemma_grouped(ps.drop_last());
        lemma_find_group(grouped(ps.drop_last()), ps.last().name, 0);
    }
}

proof fn lemma_find_group(gs: Seq<Group>, name: Seq<char>, i: int)
    requires
        0 <= i,
    ensures
        find_group(gs, name, i) matches Some(k) ==> i <= k < gs.len() && gs[k].name == name,
    decreases gs.len() - i,
{
    if i < gs.len() && gs[i].name != name {
        lemma_find_group(gs, name, i + 1);
    }
}

/// The exec state of a group: the name is that of its first point.
#[derive(Clone, Copy)]
pub struct GroupAcc {
    pub first: usize,
    pub count: usize,
    pub total: u64,
    pub largest: u64,
}

pub open spec fn acc_matches(a: GroupAcc, g: Group) -> bool {
    &&& a.first as int == g.first
    &&& a.count as nat == g.count
    &&& a.total == g.total
    &&& a.largest == g.largest
}

pub open spec fn groups_valid(points: Seq<Point>, gs: Seq<GroupAcc>, spec_gs: Seq<Group>) -> bool {
    &&& gs.len() == spec_gs.len()
    &&& forall|j: int|
        #![trigger gs[j]]
        #![trigger spec_gs[j]]
        0 <= j < gs.len() ==> {
            &&& acc_matches(gs[j], spec_gs[j])
            &&& 0 <= spec_gs[j].first < points.len()
            &&& spec_gs[j].name == points[spec_gs[j].first]@.name
        }
}

impl PointFilter {
    /// Drops every point of kind `k` where more than one has it, and says so.
    fn drop_repeated_kind(points: &mut Vec<Point>, k: PointKind) -> (r: Option<PointError>)
        ensures
            points_view(final(points)@) == dedup_kind(points_view(old(points)@), k).0,
            match r {
                Some(e) => dedup_kind(points_view(old(points)@), k).1 == seq![e@],
                None => dedup_kind(points_view(old(points)@), k).1 == Seq::<PointErrorView>::empty(),
            },
    {
        let ghost ps = points_view(points@);
        let mut count: usize = 0;
        let mut kept: Vec<Point> = Vec::new();
        let mut traces: Vec<usize> = Vec::new();
        let mut i: usize = 0;
        while i < points.len()
            invariant
                0 <= i <= points@.len(),
                ps == points_view(points@),
                count as nat == kind_count(ps.take(i as int), k),
                count <= i,
                points_view(kept@) == without_kind(ps.take(i as int), k),
                traces@ == traces_of_kind(ps.take(i as int), k),
            decreases points@.len() - i,
        {
            let ghost pre = ps.take(i as int);
            assert(ps.take(i + 1).drop_last() =~= pre);
            assert(ps.take(i + 1).last() == points@[i as int]@);
            let ghost old_kept = kept@;
            if points[i].point_type.kind() == k {
                count = count + 1;
                if let Some(t) = points[i].trace {
                    traces.push(t);
                }
            } else {
                kept.push(points[i].duplicate());
                assert(points_view(kept@) =~= points_view(old_kept).push(points@[i as int]@));
            }
            i = i + 1;
        }
        assert(ps.take(i as int) =~= ps);
        if count > 1 {
            *points = kept;
            Some(PointError::TooManyTracesMatching { kind: k, traces })
        } else {
            None
        }
    }

    /// Under the default policy, drops repeated Testcase and MemoryReport points and
    /// returns an error for each kind that was repeated.
    pub fn remove_duplicates(&self, points: &mut Vec<Point>) -> (r: Vec<PointError>)
        ensures
            points_view(final(points)@) == deduplicated(points_view(old(points)@)).0,
            errors_view(r@) == deduplicated(points_view(old(points)@)).1,
    {
        let mut errors: Vec<PointError> = Vec::new();
        let testcase_error = Self::drop_repeated_kind(points, PointKind::Testcase);
        if let Some(e) = testcase_error {
            errors.push(e);
        }
        let report_error = Self::drop_repeated_kind(points, PointKind::MemoryReport);
        if let Some(e) = report_error {
            errors.push(e);
        }
        assert(errors_view(errors@) =~= deduplicated(points_view(old(points)@)).1);
        errors
    }

    fn find_group_exec(points: &Vec<Point>, gs: &Vec<GroupAcc>, name: &String, Ghost(
        spec_gs,
    ): Ghost<Seq<Group>>) -> (r: Option<usize>)
        requires
            groups_valid(points@, gs@, spec_gs),
        ensures
            match r {
                Some(j) => find_group(spec_gs, name@, 0) == Some(j as int),
                None => find_group(spec_gs, name@, 0) is None,
            },
    {
        let mut j: usize = 0;
        while j < gs.len()
            invariant
                0 <= j <= gs@.len(),
                groups_valid(points@, gs@, spec_gs),
                find_group(spec_gs, name@, 0) == find_group(spec_gs, name@, j as int),
            decreases gs@.len() - j,
        {
            let acc = gs[j];
            if points[acc.first].name == *name {
                return Some(j);
            }
            j = j + 1;
        }
        None
    }

    /// Replaces the points that share a name by one: their sum or their maximum.
    fn combine(points: &Vec<Point>, policy: PointFilterType) -> (r: Vec<Point>)
        requires
            policy != PointFilterType::Default,
        ensures
            points_view(r@) == combined(points_view(points@), policy),
    {
        let ghost ps = points_view(points@);
        let mut gs: Vec<GroupAcc> = Vec::new();
        let mut i: usize = 0;
        while i < points.len()
            invariant
                0 <= i <= points@.len(),
                ps == points_view(points@),
                gs@.len() == grouped(ps.take(i as int)).len(),
                forall|j: int|
                    0 <= j < gs@.len() ==> acc_matches(
                        #[trigger] gs@[j],
                        grouped(ps.take(i as int))[j],
                    ) && 0 <= grouped(ps.take(i as int))[j].first < i && grouped(
                        ps.take(i as int),
                    )[j].name == points@[grouped(ps.take(i as int))[j].first]@.name
                        && gs@[j].count <= i,
            decreases points@.len() - i,
        {
            let ghost pre = ps.take(i as int);
            let ghost next = ps.take(i + 1);
            assert(next.drop_last() =~= pre);
            assert(next.last() == points@[i as int]@);
            proof {
                lemma_grouped(pre);
                lemma_find_group(grouped(pre), points@[i as int]@.name, 0);
            }
            let v = match points[i].point_type.numeric_value() {
                Some(v) => v,
                None => 0,
            };
            match Self::find_group_exec(points, &gs, &points[i].name, Ghost(grouped(pre))) {
                Some(j) => {
                    let a = gs[j];
                    let total = a.total.saturating_add(v);
                    let largest = if a.largest >= v {
                        a.largest
                    } else {
                        v
                    };
                    gs.set(j, GroupAcc { first: a.first, count: a.count + 1, total, largest });
                },
                None => {
                    gs.push(GroupAcc { first: i, count: 1, total: v, largest: v });
                },
            }
            i = i + 1;
            assert forall|j: int| 0 <= j < gs@.len() implies acc_matches(
                #[trigger] gs@[j],
                grouped(next)[j],
            ) && 0 <= grouped(next)[j].first < i && grouped(next)[j].name
                == points@[grouped(next)[j].first]@.name && gs@[j].count <= i by {}
        }
        assert(ps.take(i as int) =~= ps);
        let ghost gsp = grouped(ps);
        assert(grouped(ps.take(i as int)) == gsp);
        assert forall|j: int| #![trigger gs@[j]] #![trigger gsp[j]] 0 <= j < gs@.len() implies {
            &&& acc_matches(gs@[j], gsp[j])
            &&& 0 <= gsp[j].first < points@.len()
            &&& gsp[j].name == points@[gsp[j].first]@.name
        } by {
            assert(acc_matches(gs@[j], grouped(ps.take(i as int))[j]));
            assert(grouped(ps.take(i as int))[j].first < i);
        }
        assert(gs@.len() == gsp.len());
        assert(groups_valid(points@, gs@, gsp));
        let mut r: Vec<Point> = Vec::new();
        let mut j: usize = 0;
        while j < gs.len()
            invariant
                0 <= j <= gs@.len(),
                ps == points_view(points@),
                gsp == grouped(ps),
                groups_valid(points@, gs@, gsp),
                policy != PointFilterType::Default,
                points_view(r@) == gsp.take(j as int).map_values(|g: Group| finish(ps, g, policy)),
            decreases gs@.len() - j,
        {
            let a = gs[j];
            assert(acc_matches(gs@[j as int], gsp[j as int]));
            let p = &points[a.first];
            let q = if a.count == 1 {
                p.duplicate()
            } else {
                Point {
                    name: p.name.clone(),
                    no_unit_conversion: p.no_unit_conversion,
                    point_type: match policy {
                        PointFilterType::Largest => PointType::LargestContentfulPaint(a.largest),
                        _ => PointType::Combined(a.total),
                    },
                    trace: None,
                }
            };
            let ghost old_r = r@;
            r.push(q);
            j = j + 1;
            assert(points_view(r@) =~= points_view(old_r).push(q@));
            assert(gsp.take(j as int).map_values(|g: Group| finish(ps, g, policy)) =~= gsp.take(
                j - 1,
            ).map_values(|g: Group| finish(ps, g, policy)).push(finish(ps, gsp[j - 1], policy)));
        }
        assert(gsp.take(j as int) =~= gsp);
        r
    }
}

/// The points of one filter over one capture, and what went wrong on the way.
pub struct PointExtraction {
    pub points: Vec<Point>,
    pub errors: Vec<PointError>,
}

impl PointFilter {
    /// Whether this filter looks at the trace at all.
    pub fn considers(&self, t: &Trace) -> (r: bool)
        ensures
            r == considered(self@, t@),
    {
        if !(t.trace_marker == TraceMarker::Dot || t.trace_marker == TraceMarker::StartSync) {
            return false;
        }
        let f = t.function.as_str();
        let tagged = contains(f, "servo_memory_profiling") || contains(f, "TESTCASE_PROFILING")
            || contains(f, "LargestContentfulPaint") || contains(f, "FirstContentfulPaint");
        tagged && contains(f, self.match_str.as_str())
    }

    /// Extracts this filter's points from a capture whose target url is `url`: each
    /// considered trace by the first message grammar it follows, then the filter's policy.
    pub fn pointfilter_to_point(&self, traces: &Vec<Trace>, url: &str) -> (r: PointExtraction)
        ensures
            points_view(r.points@) == extraction(self@, url@, traces_view(traces@)).0,
            errors_view(r.errors@) == extraction(self@, url@, traces_view(traces@)).1,
    {
        let ghost ts = traces_view(traces@);
        let mut points: Vec<Point> = Vec::new();
        let mut bad: Vec<usize> = Vec::new();
        let mut i: usize = 0;
        while i < traces.len()
            invariant
                0 <= i <= traces@.len(),
                ts == traces_view(traces@),
                gathered(self@, url@, ts.take(i as int)) == (points_view(points@), bad@),
            decreases traces@.len() - i,
        {
            let ghost pre = ts.take(i as int);
            assert(ts.take(i + 1).drop_last() =~= pre);
            assert(ts.take(i + 1).last() == traces@[i as int]@);
            if self.considers(&traces[i]) {
                match self.filter_trace_to_option_point(&traces[i], i, url) {
                    Some(q) => {
                        let ghost old_points = points@;
                        let mut q = q;
                        let ghost qv = q@;
                        points.append(&mut q);
                        assert(points_view(points@) =~= points_view(old_points) + points_view(qv));
                    },
                    None => {
                        bad.push(i);
                    },
                }
            }
            i = i + 1;
        }
        assert(ts.take(i as int) =~= ts);
        let ghost bad_seq = bad@;
        let mut errors: Vec<PointError> = Vec::new();
        let mut k: usize = 0;
        while k < bad.len()
            invariant
                0 <= k <= bad@.len(),
                bad_seq == bad@,
                errors_view(errors@) =~= bad@.take(k as int).map_values(
                    |i: usize| PointErrorView::MalformedTrace { trace: i },
                ),
            decreases bad@.len() - k,
        {
            let ghost old_errors = errors@;
            errors.push(PointError::MalformedTrace { trace: bad[k] });
            assert(errors_view(errors@) =~= errors_view(old_errors).push(
                PointErrorView::MalformedTrace { trace: bad@[k as int] },
            ));
            assert(bad@.take(k + 1).map_values(|i: usize| PointErrorView::MalformedTrace { trace: i })
                =~= bad@.take(k as int).map_values(
                |i: usize| PointErrorView::MalformedTrace { trace: i },
            ).push(PointErrorView::MalformedTrace { trace: bad@[k as int] }));
            k = k + 1;
            assert(errors_view(errors@) =~= bad@.take(k as int).map_values(
                |i: usize| PointErrorView::MalformedTrace { trace: i },
            ));
        }
        assert(bad@.take(k as int) =~= bad@);
        match self.point_filter_type {
            PointFilterType::Default => {
                let ghost before = errors@;
                let mut dup = self.remove_duplicates(&mut points);
                let ghost dv = dup@;
                errors.append(&mut dup);
                assert(errors_view(errors@) =~= errors_view(before) + errors_view(dv));
                PointExtraction { points, errors }
            },
            _ => {
                let combined_points = Self::combine(&points, self.point_filter_type);
                PointExtraction { points: combined_points, errors }
            },
        }
    }
}

proof fn lemma_without_kind(ps: Seq<PointView>, k: PointKind, other: PointKind)
    ensures
        kind_count(without_kind(ps, k), k) == 0,
        other != k ==> kind_count(without_kind(ps, k), other) == kind_count(ps, other),
    decreases ps.len(),
{
    if ps.len() > 0 {
        lemma_without_kind(ps.drop_last(), k, other);
        let r = without_kind(ps.drop_last(), k);
        if ps.last().point_type.kind_of() != k {
            assert(r.push(ps.last()).drop_last() =~= r);
        }
    }
}

/// Under the default policy, where more than one point is a memory report, none of them
/// is kept, and exactly one error, the last, names them.
pub proof fn lemma_default_drops_repeated_reports(ps: Seq<PointView>)
    requires
        kind_count(ps, PointKind::MemoryReport) > 1,
    ensures
        kind_count(deduplicated(ps).0, PointKind::MemoryReport) == 0,
        deduplicated(ps).1.len() >= 1,
        deduplicated(ps).1.last() == (PointErrorView::TooManyTracesMatching {
            kind: PointKind::MemoryReport,
            traces: traces_of_kind(dedup_kind(ps, PointKind::Testcase).0, PointKind::MemoryReport),
        }),
        forall|i: int|
            0 <= i < deduplicated(ps).1.len() - 1 ==> #[trigger] deduplicated(ps).1[i] matches PointErrorView::TooManyTracesMatching { kind: PointKind::Testcase, .. },
{
    lemma_without_kind(ps, PointKind::Testcase, PointKind::MemoryReport);
    let no_testcase = dedup_kind(ps, PointKind::Testcase).0;
    lemma_without_kind(no_testcase, PointKind::MemoryReport, PointKind::MemoryReport);
}

/// The value of the last point, or of the first points added up, saturating at the
/// largest `u64`.
pub open spec fn saturating_total(ps: Seq<PointView>) -> u64
    decreases ps.len(),
{
    if ps.len() <= 1 {
        ps[0].point_type.value()
    } else {
        sat_add(saturating_total(ps.drop_last()), ps.last().point_type.value())
    }
}

pub open spec fn largest_value(ps: Seq<PointView>) -> u64
    decreases ps.len(),
{
    if ps.len() <= 1 {
        ps[0].point_type.value()
    } else {
        max_u64(largest_value(ps.drop_last()), ps.last().point_type.value())
    }
}

proof fn lemma_grouped_one_name(ps: Seq<PointView>)
    requires
        ps.len() >= 1,
        forall|i: int| 0 <= i < ps.len() ==> #[trigger] ps[i].name == ps[0].name,
    ensures
        grouped(ps) == seq![
            Group {
                name: ps[0].name,
                first: 0,
                count: ps.len(),
                total: saturating_total(ps),
                largest: largest_value(ps),
            },
        ],
    decreases ps.len(),
{
    if ps.len() == 1 {
        assert(ps.drop_last() =~= Seq::<PointView>::empty());
        assert(grouped(ps.drop_last()) =~= Seq::<Group>::empty());
        assert(find_group(Seq::<Group>::empty(), ps.last().name, 0) is None);
    } else {
        let t = ps.drop_last();
        assert forall|i: int| 0 <= i < t.len() implies #[trigger] t[i].name == t[0].name by {
            assert(t[i] == ps[i]);
        }
        lemma_grouped_one_name(t);
        assert(find_group(grouped(t), ps.last().name, 0) == Some(0int));
        assert(grouped(ps) =~= seq![
            Group {
                name: ps[0].name,
                first: 0,
                count: ps.len(),
                total: saturating_total(ps),
                largest: largest_value(ps),
            },
        ]);
    }
}

/// Points that all share one name combine into one point: their sum (saturating) under
/// the combining policy, their maximum under the largest policy.
pub proof fn lemma_one_name_combines(ps: Seq<PointView>, policy: PointFilterType)
    requires
        ps.len() >= 2,
        policy != PointFilterType::Default,
        forall|i: int| 0 <= i < ps.len() ==> #[trigger] ps[i].name == ps[0].name,
    ensures
        combined(ps, policy) == seq![
            PointView {
                name: ps[0].name,
                no_unit_conversion: ps[0].no_unit_conversion,
                point_type: if policy == PointFilterType::Largest {
                    PointType::LargestContentfulPaint(largest_value(ps))
                } else {
                    PointType::Combined(saturating_total(ps))
                },
                trace: None,
            },
        ],
{
    lemma_grouped_one_name(ps);
    assert(combined(ps, policy) =~= seq![finish(ps, grouped(ps)[0], policy)]);
}

} // verus!

//! Reading the task tracker's statistics report: removing terminal colour
//! codes, and turning the report's lines into a [`Stats`] record.
use vstd::prelude::*;
use crate::chars::{
    law_trim_idempotent,
    chars_of, contains, contains_range, parse_u32_range, parsed_u32, push_char, starts_with,
    starts_with_range, string_of_range, trim, trim_end, trim_range, is_ws, is_whitespace,
};

verus! {

// ---------------------------------------------------------------------------
// ANSI escape sequences
// ---------------------------------------------------------------------------

/// The escape character that starts an ANSI control sequence.
pub open spec fn esc() -> char {
    '\x1b'
}

/// A final byte of a control sequence (`0x40..=0x7E`).
pub open spec fn is_final_byte(c: char) -> bool {
    0x40 <= (c as u32) <= 0x7E
}

/// Where the scanner of [`strip_ansi`] stands: in plain text, just after an
/// escape character, or inside a control sequence.
pub enum EscState {
    Text,
    Escape,
    Sequence,
}

/// The text that remains of `s` when the scanner starts in `st`.
///
/// In plain text every character but the escape is kept. After an escape, a
/// `[` opens the sequence; any other character is the sequence's first
/// character. A sequence runs up to and including its first final byte (or to
/// the end of the text), and all of it is dropped.
pub open spec fn stripped(s: Seq<char>, st: EscState) -> Seq<char>
    decreases s.len(),
{
    if s.len() == 0 {
        Seq::empty()
    } else {
        let c = s[0];
        let rest = s.drop_first();
        match st {
            EscState::Text => if c == esc() {
                stripped(rest, EscState::Escape)
            } else {
                seq![c] + stripped(rest, EscState::Text)
            },
            EscState::Escape => if c == '[' {
                stripped(rest, EscState::Sequence)
            } else if is_final_byte(c) {
                stripped(rest, EscState::Text)
            } else {
                stripped(rest, EscState::Sequence)
            },
            EscState::Sequence => if is_final_byte(c) {
                stripped(rest, EscState::Text)
            } else {
                stripped(rest, EscState::Sequence)
            },
        }
    }
}

/// Removes ANSI escape sequences (`ESC [ ... final-byte`) from `s`.
pub fn strip_ansi(s: &str) -> (out: String)
    ensures
        out@ == stripped(s@, EscState::Text),
{
    let v = chars_of(s);
    let mut out = String::new();
    let mut st = EscState::Text;
    let mut i: usize = 0;
    assert(v@.skip(0) =~= v@);
    assert(out@ + stripped(v@, st) =~= stripped(v@, st));
    while i < v.len()
        invariant
            0 <= i <= v@.len(),
            v@ == s@,
            out@ + stripped(v@.skip(i as int), st) == stripped(s@, EscState::Text),
        decreases v@.len() - i,
    {
        let c = v[i];
        assert(v@.skip(i as int).drop_first() =~= v@.skip(i + 1));
        let ghost old_out = out@;
        st = match st {
            EscState::Text => {
                if c == '\x1b' {
                    EscState::Escape
                } else {
                    push_char(&mut out, c);
                    assert(out@ =~= old_out + seq![c]);
                    EscState::Text
                }
            },
            EscState::Escape => {
                if c == '[' {
                    EscState::Sequence
                } else if 0x40 <= (c as u32) && (c as u32) <= 0x7E {
                    EscState::Text
                } else {
                    EscState::Sequence
                }
            },
            EscState::Sequence => {
                if 0x40 <= (c as u32) && (c as u32) <= 0x7E {
                    EscState::Text
                } else {
                    EscState::Sequence
                }
            },
        };
        i = i + 1;
    }
    assert(v@.skip(i as int) =~= Seq::<char>::empty());
    assert(out@ =~= out@ + Seq::<char>::empty());
    out
}

proof fn lemma_stripped_no_esc(s: Seq<char>, st: EscState)
    ensures
        !stripped(s, st).contains(esc()),
    decreases s.len(),
{
    if s.len() > 0 {
        let rest = s.drop_first();
        lemma_stripped_no_esc(rest, EscState::Text);
        lemma_stripped_no_esc(rest, EscState::Escape);
        lemma_stripped_no_esc(rest, EscState::Sequence);
        if st is Text && s[0] != esc() {
            let r = stripped(s, st);
            assert forall|i: int| 0 <= i < r.len() implies r[i] != esc() by {
                if i > 0 {
                    assert(r[i] == stripped(rest, EscState::Text)[i - 1]);
                }
            }
        }
    }
}

proof fn lemma_stripped_plain(s: Seq<char>)
    requires
        !s.contains(esc()),
    ensures
        stripped(s, EscState::Text) == s,
    decreases s.len(),
{
    if s.len() > 0 {
        assert(s[0] != esc());
        let rest = s.drop_first();
        assert(!rest.contains(esc())) by {
            if rest.contains(esc()) {
                let k = choose|k: int| 0 <= k < rest.len() && rest[k] == esc();
                assert(s[k + 1] == esc());
            }
        }
        lemma_stripped_plain(rest);
        assert(seq![s[0]] + rest =~= s);
    }
}

/// Law: the text that [`strip_ansi`] returns holds no escape character.
pub proof fn law_stripped_has_no_escape(s: Seq<char>)
    ensures
        !stripped(s, EscState::Text).contains(esc()),
{
    lemma_stripped_no_esc(s, EscState::Text);
}

/// Law: text without escape characters passes through unchanged.
pub proof fn law_strip_plain_text_unchanged(s: Seq<char>)
    requires
        !s.contains(esc()),
    ensures
        stripped(s, EscState::Text) == s,
{
    lemma_stripped_plain(s);
}

/// Law: stripping twice is stripping once.
pub proof fn law_strip_idempotent(s: Seq<char>)
    ensures
        stripped(stripped(s, EscState::Text), EscState::Text) == stripped(s, EscState::Text),
{
    lemma_stripped_no_esc(s, EscState::Text);
    lemma_stripped_plain(stripped(s, EscState::Text));
}

proof fn lemma_stripped_after_plain(p: Seq<char>, r: Seq<char>)
    requires
        !p.contains(esc()),
    ensures
        stripped(p + r, EscState::Text) == p + stripped(r, EscState::Text),
    decreases p.len(),
{
    if p.len() > 0 {
        let tail = p.drop_first();
        assert(p[0] != esc());
        assert(!tail.contains(esc())) by {
            if tail.contains(esc()) {
                let k = choose|k: int| 0 <= k < tail.len() && tail[k] == esc();
                assert(p[k + 1] == esc());
            }
        }
        lemma_stripped_after_plain(tail, r);
        assert((p + r)[0] == p[0]);
        assert((p + r).drop_first() =~= tail + r);
        assert(seq![p[0]] + (tail + stripped(r, EscState::Text)) =~= p + stripped(r, EscState::Text));
    }
}

proof fn lemma_stripped_sequence_end(mid: Seq<char>, f: char, q: Seq<char>)
    requires
        forall|i: int| 0 <= i < mid.len() ==> !is_final_byte(#[trigger] mid[i]),
        is_final_byte(f),
    ensures
        stripped(mid + seq![f] + q, EscState::Sequence) == stripped(q, EscState::Text),
    decreases mid.len(),
{
    let t = mid + seq![f] + q;
    if mid.len() == 0 {
        assert(t[0] == f);
        assert(t.drop_first() =~= q);
    } else {
        let rest = mid.drop_first();
        assert(!is_final_byte(mid[0]));
        assert(t[0] == mid[0]);
        assert(t.drop_first() =~= rest + seq![f] + q);
        assert forall|i: int| 0 <= i < rest.len() implies !is_final_byte(#[trigger] rest[i]) by {
            assert(rest[i] == mid[i + 1]);
        }
        lemma_stripped_sequence_end(rest, f, q);
    }
}

/// Law: an escape sequence that is not a control sequence — the escape
/// character, then characters outside `0x40..=0x7E` (which cannot be `[`),
/// then a final byte in `0x40..=0x7E` (not `[` when nothing stands between)
/// — is removed whole, and nothing before or after it changes: for text `p`
/// without an escape, stripping `p`, the sequence and `q` gives `p` followed
/// by `q` stripped (`q` itself when it holds no escape). `ESC ( B` is such
/// a sequence.
pub proof fn law_strip_drops_escape_sequence(p: Seq<char>, mid: Seq<char>, f: char, q: Seq<char>)
    requires
        !p.contains(esc()),
        forall|i: int| 0 <= i < mid.len() ==> !is_final_byte(#[trigger] mid[i]),
        is_final_byte(f),
        mid.len() > 0 || f != '[',
    ensures
        stripped(p + seq![esc()] + mid + seq![f] + q, EscState::Text) == p + stripped(
            q,
            EscState::Text,
        ),
        !q.contains(esc()) ==> stripped(p + seq![esc()] + mid + seq![f] + q, EscState::Text) == p
            + q,
{
    let r = seq![esc()] + mid + seq![f] + q;
    assert(p + seq![esc()] + mid + seq![f] + q =~= p + r);
    lemma_stripped_after_plain(p, r);
    assert(r[0] == esc());
    let after = r.drop_first();
    assert(after =~= mid + seq![f] + q);
    assert(stripped(r, EscState::Text) == stripped(after, EscState::Escape));
    assert(is_final_byte('['));
    if mid.len() == 0 {
        assert(after[0] == f);
        assert(after.drop_first() =~= q);
        assert(stripped(after, EscState::Escape) == stripped(q, EscState::Text));
    } else {
        assert(!is_final_byte(mid[0]));
        assert(mid[0] != '[');
        assert(after[0] == mid[0]);
        let rest = mid.drop_first();
        assert(after.drop_first() =~= rest + seq![f] + q);
        assert(stripped(after, EscState::Escape) == stripped(rest + seq![f] + q, EscState::Sequence));
        assert forall|i: int| 0 <= i < rest.len() implies !is_final_byte(#[trigger] rest[i]) by {
            assert(rest[i] == mid[i + 1]);
        }
        lemma_stripped_sequence_end(rest, f, q);
    }
    if !q.contains(esc()) {
        lemma_stripped_plain(q);
    }
}

/// Law: a control sequence — the escape character, `[`, parameter
/// characters outside `0x40..=0x7E`, and a final byte in `0x40..=0x7E` — is
/// removed whole, and nothing before or after it changes (see
/// [`law_strip_drops_escape_sequence`]). `ESC [ 1 ; 3 1 m` is such a
/// sequence.
pub proof fn law_strip_drops_control_sequence(p: Seq<char>, mid: Seq<char>, f: char, q: Seq<char>)
    requires
        !p.contains(esc()),
        forall|i: int| 0 <= i < mid.len() ==> !is_final_byte(#[trigger] mid[i]),
        is_final_byte(f),
    ensures
        stripped(p + seq![esc(), '['] + mid + seq![f] + q, EscState::Text) == p + stripped(
            q,
            EscState::Text,
        ),
        !q.contains(esc()) ==> stripped(p + seq![esc(), '['] + mid + seq![f] + q, EscState::Text)
            == p + q,
{
    let r = seq![esc(), '['] + mid + seq![f] + q;
    assert(p + seq![esc(), '['] + mid + seq![f] + q =~= p + r);
    lemma_stripped_after_plain(p, r);
    assert(r[0] == esc());
    assert(stripped(r, EscState::Text) == stripped(r.drop_first(), EscState::Escape));
    assert(r.drop_first()[0] == '[');
    assert(r.drop_first().drop_first() =~= mid + seq![f] + q);
    assert(stripped(r.drop_first(), EscState::Escape) == stripped(
        mid + seq![f] + q,
        EscState::Sequence,
    ));
    lemma_stripped_sequence_end(mid, f, q);
    if !q.contains(esc()) {
        lemma_stripped_plain(q);
    }
}

/// `a` is what remains of `b` after deleting some of its characters: the
/// characters of `a` occur in `b` in the same order.
pub open spec fn is_subsequence(a: Seq<char>, b: Seq<char>) -> bool
    decreases b.len(),
{
    a.len() == 0 || (b.len() > 0 && ((a[0] == b[0] && is_subsequence(a.drop_first(), b.drop_first()))
        || is_subsequence(a, b.drop_first())))
}

proof fn lemma_stripped_subsequence(s: Seq<char>, st: EscState)
    ensures
        is_subsequence(stripped(s, st), s),
        stripped(s, st).len() <= s.len(),
    decreases s.len(),
{
    if s.len() > 0 {
        let rest = s.drop_first();
        let next = match st {
            EscState::Text => if s[0] == esc() {
                EscState::Escape
            } else {
                EscState::Text
            },
            EscState::Escape => if s[0] == '[' {
                EscState::Sequence
            } else if is_final_byte(s[0]) {
                EscState::Text
            } else {
                EscState::Sequence
            },
            EscState::Sequence => if is_final_byte(s[0]) {
                EscState::Text
            } else {
                EscState::Sequence
            },
        };
        lemma_stripped_subsequence(rest, next);
        let r = stripped(s, st);
        if st == EscState::Text && s[0] != esc() {
            assert(r == seq![s[0]] + stripped(rest, EscState::Text));
            assert(r[0] == s[0]);
            assert(r.drop_first() =~= stripped(rest, EscState::Text));
        } else {
            assert(r == stripped(rest, next));
        }
    }
}

/// Law: stripping only deletes characters: the result is a subsequence of
/// the text, so it is no longer than the text.
pub proof fn law_strip_deletes_only(s: Seq<char>)
    ensures
        is_subsequence(stripped(s, EscState::Text), s),
        stripped(s, EscState::Text).len() <= s.len(),
{
    lemma_stripped_subsequence(s, EscState::Text);
}

// ---------------------------------------------------------------------------
// Numbers at the end of a line
// ---------------------------------------------------------------------------

/// The index just past the last whitespace character of `e` (0 if none).
pub open spec fn after_last_ws(e: Seq<char>) -> nat
    decreases e.len(),
{
    if e.len() == 0 {
        0
    } else if is_ws(e.last()) {
        e.len()
    } else {
        after_last_ws(e.drop_last())
    }
}

/// The last whitespace-separated word of `s` (`s.split_whitespace().last()`).
pub open spec fn last_word(s: Seq<char>) -> Option<Seq<char>> {
    let e = trim_end(s);
    if e.len() == 0 {
        None
    } else {
        Some(e.skip(after_last_ws(e) as int))
    }
}

/// The number that ends line `s`: its last word read as a `u32`, or 0 when
/// there is no such word or it is not a number that fits.
pub open spec fn line_number(s: Seq<char>) -> u32 {
    match last_word(s) {
        Some(w) => match parsed_u32(w) {
            Some(n) => n,
            None => 0,
        },
        None => 0,
    }
}

proof fn lemma_after_last_ws_bound(e: Seq<char>)
    ensures
        after_last_ws(e) <= e.len(),
    decreases e.len(),
{
    if e.len() > 0 && !is_ws(e.last()) {
        lemma_after_last_ws_bound(e.drop_last());
    }
}

/// [`line_number`] of `v[lo..hi]`.
fn line_number_range(v: &Vec<char>, lo: usize, hi: usize) -> (n: u32)
    requires
        lo <= hi <= v@.len(),
    ensures
        n == line_number(v@.subrange(lo as int, hi as int)),
{
    let ghost s = v@.subrange(lo as int, hi as int);
    // trailing whitespace
    let mut e = hi;
    while e > lo && is_whitespace(v[e - 1])
        invariant
            lo <= e <= hi <= v@.len(),
            trim_end(s) == trim_end(v@.subrange(lo as int, e as int)),
        decreases e - lo,
    {
        assert(v@.subrange(lo as int, e as int).drop_last() =~= v@.subrange(lo as int, e - 1));
        e = e - 1;
    }
    let ghost t = v@.subrange(lo as int, e as int);
    assert(trim_end(t) == t);
    if e == lo {
        return 0;
    }
    let mut k = e;
    while k > lo && !is_whitespace(v[k - 1])
        invariant
            lo <= k <= e <= hi <= v@.len(),
            e > lo,
            t == v@.subrange(lo as int, e as int),
            after_last_ws(t) == after_last_ws(v@.subrange(lo as int, k as int)),
        decreases k - lo,
    {
        assert(v@.subrange(lo as int, k as int).drop_last() =~= v@.subrange(lo as int, k - 1));
        k = k - 1;
    }
    assert(after_last_ws(t) == k - lo);
    assert(t.skip(k - lo) =~= v@.subrange(k as int, e as int));
    match parse_u32_range(v, k, e) {
        Some(n) => n,
        None => 0,
    }
}

/// The number at the end of `line` (`split_whitespace().last()` parsed as
/// `u32`), or 0 when there is none.
pub fn parse_u32(line: &str) -> (n: u32)
    ensures
        n == line_number(line@),
{
    let v = chars_of(line);
    assert(v@.subrange(0, v@.len() as int) =~= v@);
    line_number_range(&v, 0, v.len())
}

// ---------------------------------------------------------------------------
// The statistics record
// ---------------------------------------------------------------------------

/// The figures of a report, as mathematical values.
pub struct StatsView {
    pub total: u32,
    pub overdue: u32,
    pub projects: u32,
    pub todo: u32,
    pub in_prog: u32,
    pub done: u32,
    pub cancelled: u32,
    pub low: u32,
    pub medium: u32,
    pub high: u32,
    pub urgent: u32,
    /// Project names and their task counts, in report order.
    pub by_project: Seq<(Seq<char>, u32)>,
}

impl StatsView {
    /// All counts zero, no projects.
    pub open spec fn empty() -> StatsView {
        StatsView {
            total: 0,
            overdue: 0,
            projects: 0,
            todo: 0,
            in_prog: 0,
            done: 0,
            cancelled: 0,
            low: 0,
            medium: 0,
            high: 0,
            urgent: 0,
            by_project: Seq::empty(),
        }
    }
}

/// The figures of the task tracker's statistics report.
#[derive(Clone)]
pub struct Stats {
    pub total: u32,
    pub overdue: u32,
    pub projects: u32,
    pub todo: u32,
    pub in_prog: u32,
    pub done: u32,
    pub cancelled: u32,
    pub low: u32,
    pub medium: u32,
    pub high: u32,
    pub urgent: u32,
    pub by_project: Vec<(String, u32)>,
}

/// The view of a project entry.
pub open spec fn entry_view(p: (String, u32)) -> (Seq<char>, u32) {
    (p.0@, p.1)
}

impl View for Stats {
    type V = StatsView;

    open spec fn view(&self) -> StatsView {
        StatsView {
            total: self.total,
            overdue: self.overdue,
            projects: self.projects,
            todo: self.todo,
            in_prog: self.in_prog,
            done: self.done,
            cancelled: self.cancelled,
            low: self.low,
            medium: self.medium,
            high: self.high,
            urgent: self.urgent,
            by_project: self.by_project@.map_values(|p: (String, u32)| entry_view(p)),
        }
    }
}

impl Default for Stats {
    fn default() -> (s: Stats)
        ensures
            s@ == StatsView::empty(),
    {
        let s = Stats {
            total: 0,
            overdue: 0,
            projects: 0,
            todo: 0,
            in_prog: 0,
            done: 0,
            cancelled: 0,
            low: 0,
            medium: 0,
            high: 0,
            urgent: 0,
            by_project: Vec::new(),
        };
        assert(s@.by_project =~= Seq::<(Seq<char>, u32)>::empty());
        s
    }
}

// ---------------------------------------------------------------------------
// Reading the report
// ---------------------------------------------------------------------------

/// The index of the last `c` in `t`, or -1.
pub open spec fn last_index_of(t: Seq<char>, c: char) -> int
    decreases t.len(),
{
    if t.len() == 0 {
        -1
    } else if t.last() == c {
        t.len() - 1
    } else {
        last_index_of(t.drop_last(), c)
    }
}

/// A line of the project section, `NAME COUNT`, split at its last space
/// (`rsplitn(2, ' ')`): the name trimmed, and the count (0 when it is not a
/// number). There is no entry when the line has no space or the name is empty.
pub open spec fn project_entry(t: Seq<char>) -> Option<(Seq<char>, u32)> {
    let k = last_index_of(t, ' ');
    if k < 0 {
        None
    } else {
        let count = match parsed_u32(trim(t.skip(k + 1))) {
            Some(n) => n,
            None => 0,
        };
        let name = trim(t.take(k));
        if name.len() == 0 {
            None
        } else {
            Some((name, count))
        }
    }
}

/// One line of the report applied to the figures read so far and to whether
/// the project section is open.
///
/// A blank line closes the project section. Otherwise the first rule that
/// matches the trimmed line applies: the keyed figures take the number at the
/// end of the line; `By Project:` opens the project section; inside it, a
/// line adds a project entry.
pub open spec fn read_line(acc: (StatsView, bool), line: Seq<char>) -> (StatsView, bool) {
    let s = acc.0;
    let p = acc.1;
    let t = trim(line);
    let n = line_number(t);
    if t.len() == 0 {
        (s, false)
    } else if starts_with(t, "Total tasks:"@) {
        (StatsView { total: n, ..s }, p)
    } else if starts_with(t, "Overdue:"@) {
        (StatsView { overdue: n, ..s }, p)
    } else if starts_with(t, "Projects:"@) {
        (StatsView { projects: n, ..s }, p)
    } else if contains(t, "Todo"@) {
        (StatsView { todo: n, ..s }, p)
    } else if contains(t, "In progress"@) {
        (StatsView { in_prog: n, ..s }, p)
    } else if contains(t, "Done"@) {
        (StatsView { done: n, ..s }, p)
    } else if contains(t, "Cancelled"@) {
        (StatsView { cancelled: n, ..s }, p)
    } else if contains(t, "Low"@) {
        (StatsView { low: n, ..s }, p)
    } else if contains(t, "Medium"@) {
        (StatsView { medium: n, ..s }, p)
    } else if contains(t, "High"@) {
        (StatsView { high: n, ..s }, p)
    } else if contains(t, "Urgent"@) {
        (StatsView { urgent: n, ..s }, p)
    } else if starts_with(t, "By Project:"@) {
        (s, true)
    } else if p {
        match project_entry(t) {
            Some(e) => (StatsView { by_project: s.by_project.push(e), ..s }, p),
            None => (s, p),
        }
    } else {
        (s, p)
    }
}

/// The length of the first line of `s`: the index of its first newline, or
/// the length of `s` when it has none.
pub open spec fn first_newline(s: Seq<char>) -> nat
    decreases s.len(),
{
    if s.len() == 0 {
        0
    } else if s[0] == '\n' {
        0
    } else {
        1 + first_newline(s.drop_first())
    }
}

/// The lines of `s` (as `str::lines` splits them) applied in order to `acc`.
/// A line's trailing carriage return, which `str::lines` drops, is whitespace
/// that [`read_line`] trims anyway.
pub open spec fn read_lines(acc: (StatsView, bool), s: Seq<char>) -> (StatsView, bool)
    decreases s.len(),
{
    if s.len() == 0 {
        acc
    } else {
        let i = first_newline(s);
        let next = read_line(acc, s.take(i as int));
        if i >= s.len() {
            next
        } else {
            read_lines(next, s.skip(i + 1 as int))
        }
    }
}

/// The figures of a whole report.
pub open spec fn report_stats(text: Seq<char>) -> StatsView {
    read_lines((StatsView::empty(), false), text).0
}

proof fn lemma_first_newline(s: Seq<char>, k: int)
    requires
        0 <= k <= s.len(),
        forall|i: int| 0 <= i < k ==> s[i] != '\n',
        k == s.len() || s[k] == '\n',
    ensures
        first_newline(s) == k,
    decreases k,
{
    if k > 0 {
        lemma_first_newline(s.drop_first(), k - 1);
    }
}

/// Reads the task tracker's statistics report. Every line that is not
/// understood is skipped, so a report always yields a record.
pub fn parse_stats(text: &str) -> (r: Option<Stats>)
    ensures
        r matches Some(s) && s@ == report_stats(text@),
{
    let v = chars_of(text);
    let k_total = chars_of("Total tasks:");
    let k_overdue = chars_of("Overdue:");
    let k_projects = chars_of("Projects:");
    let k_todo = chars_of("Todo");
    let k_in_prog = chars_of("In progress");
    let k_done = chars_of("Done");
    let k_cancelled = chars_of("Cancelled");
    let k_low = chars_of("Low");
    let k_medium = chars_of("Medium");
    let k_high = chars_of("High");
    let k_urgent = chars_of("Urgent");
    let k_by_project = chars_of("By Project:");

    let mut s = Stats::default();
    let mut in_project = false;
    let mut pos: usize = 0;
    assert(v@.skip(0) =~= v@);
    while pos < v.len()
        invariant
            0 <= pos <= v@.len(),
            v@ == text@,
            k_total@ == "Total tasks:"@,
            k_overdue@ == "Overdue:"@,
            k_projects@ == "Projects:"@,
            k_todo@ == "Todo"@,
            k_in_prog@ == "In progress"@,
            k_done@ == "Done"@,
            k_cancelled@ == "Cancelled"@,
            k_low@ == "Low"@,
            k_medium@ == "Medium"@,
            k_high@ == "High"@,
            k_urgent@ == "Urgent"@,
            k_by_project@ == "By Project:"@,
            read_lines((s@, in_project), v@.skip(pos as int)) == read_lines(
                (StatsView::empty(), false),
                text@,
            ),
        decreases v@.len() - pos,
    {
        let mut j = pos;
        while j < v.len() && v[j] != '\n'
            invariant
                pos <= j <= v@.len(),
                forall|i: int| pos <= i < j ==> v@[i] != '\n',
            decreases v@.len() - j,
        {
            j = j + 1;
        }
        let ghost rest = v@.skip(pos as int);
        proof {
            lemma_first_newline(rest, j - pos);
            assert(rest.take(j - pos) =~= v@.subrange(pos as int, j as int));
            if j < v.len() {
                assert(rest.skip(j - pos + 1) =~= v@.skip(j + 1));
            }
        }
        let ghost before = (s@, in_project);
        let ghost line = v@.subrange(pos as int, j as int);
        let (a, b) = trim_range(&v, pos, j);
        let ghost t = v@.subrange(a as int, b as int);
        if a == b {
            in_project = false;
        } else if starts_with_range(&v, a, b, &k_total) {
            s.total = line_number_range(&v, a, b);
        } else if starts_with_range(&v, a, b, &k_overdue) {
            s.overdue = line_number_range(&v, a, b);
        } else if starts_with_range(&v, a, b, &k_projects) {
            s.projects = line_number_range(&v, a, b);
        } else if contains_range(&v, a, b, &k_todo) {
            s.todo = line_number_range(&v, a, b);
        } else if contains_range(&v, a, b, &k_in_prog) {
            s.in_prog = line_number_range(&v, a, b);
        } else if contains_range(&v, a, b, &k_done) {
            s.done = line_number_range(&v, a, b);
        } else if contains_range(&v, a, b, &k_cancelled) {
            s.cancelled = line_number_range(&v, a, b);
        } else if contains_range(&v, a, b, &k_low) {
            s.low = line_number_range(&v, a, b);
        } else if contains_range(&v, a, b, &k_medium) {
            s.medium = line_number_range(&v, a, b);
        } else if contains_range(&v, a, b, &k_high) {
            s.high = line_number_range(&v, a, b);
        } else if contains_range(&v, a, b, &k_urgent) {
            s.urgent = line_number_range(&v, a, b);
        } else if starts_with_range(&v, a, b, &k_by_project) {
            in_project = true;
        } else if in_project {
            // split at the last space
            let mut k = b;
            while k > a && v[k - 1] != ' '
                invariant
                    a <= k <= b <= v@.len(),
                    t == v@.subrange(a as int, b as int),
                    last_index_of(t, ' ') == last_index_of(v@.subrange(a as int, k as int), ' '),
                decreases k - a,
            {
                assert(v@.subrange(a as int, k as int).drop_last() =~= v@.subrange(
                    a as int,
                    k - 1,
                ));
                k = k - 1;
            }
            if k > a {
                assert(last_index_of(t, ' ') == k - 1 - a);
                assert(t.skip(k - a) =~= v@.subrange(k as int, b as int));
                assert(t.take(k - 1 - a) =~= v@.subrange(a as int, k - 1));
                let (ca, cb) = trim_range(&v, k, b);
                let count = match parse_u32_range(&v, ca, cb) {
                    Some(n) => n,
                    None => 0,
                };
                let (na, nb) = trim_range(&v, a, k - 1);
                if na < nb {
                    let name = string_of_range(&v, na, nb);
                    let ghost old_list = s.by_project@;
                    s.by_project.push((name, count));
                    assert(s.by_project@.map_values(|p: (String, u32)| entry_view(p))
                        =~= old_list.map_values(|p: (String, u32)| entry_view(p)).push(
                        (v@.subrange(na as int, nb as int), count),
                    ));
                }
            } else {
                assert(last_index_of(v@.subrange(a as int, k as int), ' ') == -1);
            }
        }
        assert(read_line(before, line) == (s@, in_project));
        if j == v.len() {
            pos = j;
            assert(v@.skip(pos as int) =~= Seq::<char>::empty());
        } else {
            pos = j + 1;
        }
    }
    Some(s)
}

/// Every project name is non-empty and has no whitespace at either end.
pub open spec fn clean_names(ps: Seq<(Seq<char>, u32)>) -> bool {
    forall|i: int| 0 <= i < ps.len() ==> #[trigger] ps[i].0.len() > 0 && trim(ps[i].0) == ps[i].0
}

proof fn lemma_read_line_clean(acc: (StatsView, bool), line: Seq<char>)
    requires
        clean_names(acc.0.by_project),
    ensures
        clean_names(read_line(acc, line).0.by_project),
{
    let t = trim(line);
    let k = last_index_of(t, ' ');
    if k >= 0 {
        law_trim_idempotent(t.take(k));
    }
    let r = read_line(acc, line).0.by_project;
    let old_ps = acc.0.by_project;
    if r.len() == old_ps.len() + 1 {
        assert forall|i: int| 0 <= i < r.len() implies #[trigger] r[i].0.len() > 0 && trim(r[i].0)
            == r[i].0 by {
            if i < old_ps.len() {
                assert(r[i] == old_ps[i]);
            }
        }
    }
}

proof fn lemma_read_lines_clean(acc: (StatsView, bool), s: Seq<char>)
    requires
        clean_names(acc.0.by_project),
    ensures
        clean_names(read_lines(acc, s).0.by_project),
    decreases s.len(),
{
    if s.len() > 0 {
        let i = first_newline(s);
        lemma_read_line_clean(acc, s.take(i as int));
        if i < s.len() {
            lemma_read_lines_clean(read_line(acc, s.take(i as int)), s.skip(i + 1 as int));
        }
    }
}

/// Law: the project names that a report yields are never empty and never
/// start or end with whitespace.
pub proof fn law_project_names_are_trimmed(text: Seq<char>)
    ensures
        clean_names(report_stats(text).by_project),
{
    lemma_read_lines_clean((StatsView::empty(), false), text);
}

// ---------------------------------------------------------------------------
// The output of the report command
// ---------------------------------------------------------------------------

/// The text that `String::from_utf8_lossy` decodes from `bytes`.
pub uninterp spec fn lossy_text(bytes: Seq<u8>) -> Seq<char>;

/// `String::from_utf8_lossy`, made an owned `String`: the bytes decoded as
/// UTF-8, each invalid sequence replaced by U+FFFD. The contract names the
/// result ([`lossy_text`]) and states only that bytes that are all ASCII
/// decode to the characters with the same codes; the decoding of other bytes
/// is left unstated.
#[verifier::external_body]
fn decode_lossy(bytes: &[u8]) -> (r: String)
    ensures
        r@ == lossy_text(bytes@),
        (forall|i: int| 0 <= i < bytes@.len() ==> bytes@[i] < 128) ==> r@ == bytes@.map_values(
            |b: u8| b as char,
        ),
{
    String::from_utf8_lossy(bytes).into_owned()
}

/// The record that the report command's output gives: none when the command
/// failed, else its standard output decoded (invalid UTF-8 replaced), its
/// escape sequences removed, and read as a report.
pub fn report_from_output(success: bool, stdout: &[u8]) -> (r: Option<Stats>)
    ensures
        r.is_some() == success,
        r matches Some(s) ==> s@ == report_stats(stripped(lossy_text(stdout@), EscState::Text)),
{
    if !success {
        return None;
    }
    let text = decode_lossy(stdout);
    let clean = strip_ansi(text.as_str());
    parse_stats(clean.as_str())
}

} // verus!

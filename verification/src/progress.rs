use vstd::prelude::*;

use crate::text::{chars_of, decimal, lemma_decimal_digits, push_char, push_decimal, push_str};

verus! {

/// Width of the rendered progress bar, in characters.
pub const BAR_WIDTH: usize = 20;

/// `a * b`, saturated at `usize::MAX`.
pub open spec fn saturating_mul(a: nat, b: nat) -> nat {
    if a * b > usize::MAX {
        usize::MAX as nat
    } else {
        a * b
    }
}

/// How many of the `BAR_WIDTH` cells are filled for `current` out of `total`
/// (an empty task counts as complete).
pub open spec fn filled_cells(current: nat, total: nat) -> nat {
    if total == 0 {
        BAR_WIDTH as nat
    } else {
        saturating_mul(current, BAR_WIDTH as nat) / total
    }
}

/// The percentage shown for `current` out of `total` (an empty task is 100%).
pub open spec fn percent(current: nat, total: nat) -> nat {
    if total == 0 {
        100
    } else {
        saturating_mul(current, 100) / total
    }
}

/// Whether a character is kept in a progress label: printable ASCII.
pub open spec fn is_printable_ascii(c: char) -> bool {
    32 <= c as u32 && c as u32 <= 126
}

/// The label with every character that is not printable ASCII replaced by `?`.
pub open spec fn spec_ascii_label(label: Seq<char>) -> Seq<char> {
    Seq::new(label.len(), |i: int| if is_printable_ascii(label[i]) { label[i] } else { '?' })
}

/// `n` copies of `c`.
pub open spec fn repeat_char(c: char, n: nat) -> Seq<char> {
    Seq::new(n, |i: int| c)
}

/// The progress line for `current` out of `total`, `current` clamped to
/// `total`: `[####----] current/total percent% label`.
pub open spec fn spec_progress_line(current: nat, total: nat, label: Seq<char>) -> Seq<char> {
    let c = if current <= total { current } else { total };
    let filled = filled_cells(c, total);
    seq!['['] + repeat_char('#', filled) + repeat_char('-', (BAR_WIDTH - filled) as nat)
        + seq![']', ' '] + decimal(c) + seq!['/'] + decimal(total) + seq![' '] + decimal(
        percent(c, total),
    ) + seq!['%', ' '] + spec_ascii_label(label)
}

/// Replaces every character of `label` that is not printable ASCII by `?`.
pub fn ascii_label(label: &str) -> (result: String)
    ensures
        result@ == spec_ascii_label(label@),
{
    let chars = chars_of(label);
    let mut result = String::new();
    let mut i: usize = 0;
    while i < chars.len()
        invariant
            i <= chars@.len(),
            chars@ == label@,
            result@ == spec_ascii_label(label@).take(i as int),
        decreases chars@.len() - i,
    {
        let c = chars[i];
        let kept = if (c as u32) >= 32 && (c as u32) <= 126 { c } else { '?' };
        push_char(&mut result, kept);
        assert(spec_ascii_label(label@).take(i + 1) =~= spec_ascii_label(label@).take(
            i as int,
        ).push(kept));
        i = i + 1;
    }
    assert(spec_ascii_label(label@).take(i as int) =~= spec_ascii_label(label@));
    result
}

/// Appends `n` copies of the one-character string `c`.
fn push_repeated(s: &mut String, c: char, n: usize)
    ensures
        final(s)@ == old(s)@ + repeat_char(c, n as nat),
{
    let mut i: usize = 0;
    while i < n
        invariant
            i <= n,
            s@ == old(s)@ + repeat_char(c, i as nat),
        decreases n - i,
    {
        push_char(s, c);
        assert(old(s)@ + repeat_char(c, (i + 1) as nat) =~= (old(s)@ + repeat_char(
            c,
            i as nat,
        )).push(c));
        i = i + 1;
    }
}

/// `a * b` saturated at `usize::MAX`.
fn saturating_mul_usize(a: usize, b: usize) -> (r: usize)
    requires
        b > 0,
    ensures
        r == saturating_mul(a as nat, b as nat),
{
    if a > usize::MAX / b {
        assert(a * b > usize::MAX) by (nonlinear_arith)
            requires
                a > usize::MAX / b,
                b > 0,
        ;
        usize::MAX
    } else {
        assert(a * b <= usize::MAX) by (nonlinear_arith)
            requires
                a <= usize::MAX / b,
                b > 0,
        ;
        a * b
    }
}

/// The number of filled bar cells for a clamped `current`.
fn filled_cells_usize(current: usize, total: usize) -> (r: usize)
    requires
        current <= total,
    ensures
        r == filled_cells(current as nat, total as nat),
        r <= BAR_WIDTH,
{
    if total == 0 {
        BAR_WIDTH
    } else {
        let scaled = saturating_mul_usize(current, BAR_WIDTH);
        proof {
            assert(saturating_mul(current as nat, 20) <= total * 20) by (nonlinear_arith)
                requires
                    current <= total,
            ;
            let sm = saturating_mul(current as nat, 20);
            assert(sm / (total as nat) <= 20) by (nonlinear_arith)
                requires
                    sm <= total * 20,
                    total > 0,
            ;
        }
        scaled / total
    }
}

/// The percentage for a clamped `current`.
fn percent_usize(current: usize, total: usize) -> (r: usize)
    ensures
        r == percent(current as nat, total as nat),
{
    if total == 0 {
        100
    } else {
        saturating_mul_usize(current, 100) / total
    }
}

/// Renders one progress line: a 20-cell bar, `current/total`, the
/// percentage and the label reduced to printable ASCII. `current` is clamped
/// to `total`; a task with `total == 0` renders as complete.
pub fn render_progress_line(current: usize, total: usize, label: &str) -> (line: String)
    ensures
        line@ == spec_progress_line(current as nat, total as nat, label@),
{
    let current = if current <= total { current } else { total };
    let filled = filled_cells_usize(current, total);
    let pct = percent_usize(current, total);
    let empty = BAR_WIDTH - filled;
    let mut line = String::new();
    push_char(&mut line, '[');
    push_repeated(&mut line, '#', filled);
    push_repeated(&mut line, '-', empty);
    let ghost bar = line@;
    push_char(&mut line, ']');
    push_char(&mut line, ' ');
    assert(line@ =~= bar + seq![']', ' ']);
    let ghost head = line@;
    push_decimal(&mut line, current);
    push_char(&mut line, '/');
    assert(line@ =~= head + decimal(current as nat) + seq!['/']);
    let ghost counts = line@;
    push_decimal(&mut line, total);
    push_char(&mut line, ' ');
    assert(line@ =~= counts + decimal(total as nat) + seq![' ']);
    let ghost totals = line@;
    push_decimal(&mut line, pct);
    push_char(&mut line, '%');
    push_char(&mut line, ' ');
    assert(line@ =~= totals + decimal(pct as nat) + seq!['%', ' ']);
    let label_text = ascii_label(label);
    push_str(&mut line, label_text.as_str());
    line
}

/// The byte length of a character sequence in UTF-8, as `str::len` reports it.
pub open spec fn utf8_len(s: Seq<char>) -> nat {
    (vstd::utf8::encode_utf8(s).len() as usize) as nat
}

/// What a progress output sends to its writer for one line: a carriage
/// return, the line, spaces that blank out the rest of a longer previous
/// line, and a newline when the task finished.
pub open spec fn spec_output_text(last_len: nat, line: Seq<char>, finished: bool) -> Seq<char> {
    let padding = if last_len > utf8_len(line) { (last_len - utf8_len(line)) as nat } else { 0 };
    seq!['\r'] + line + repeat_char(' ', padding) + if finished {
        seq!['\n']
    } else {
        Seq::<char>::empty()
    }
}

/// The remembered line length after writing `line`.
pub open spec fn spec_next_last_len(line: Seq<char>, finished: bool) -> nat {
    if finished {
        0
    } else {
        utf8_len(line)
    }
}

/// The state of a progress output: the byte length of the line it last left
/// on screen. The writer itself belongs to the caller, who sends it the text
/// that `write_line` returns.
pub struct ProgressOutput {
    last_len: usize,
}

impl ProgressOutput {
    /// The byte length of the unfinished line on screen (0 after a finished line).
    pub closed spec fn spec_last_len(&self) -> nat {
        self.last_len as nat
    }

    /// A fresh output with nothing on screen.
    pub fn new() -> (output: Self)
        ensures
            output.spec_last_len() == 0,
    {
        Self { last_len: 0 }
    }

    /// The byte length of the line left on screen.
    pub fn last_len(&self) -> (len: usize)
        ensures
            len == self.spec_last_len(),
    {
        self.last_len
    }

    /// Computes the text for one progress line and remembers its length;
    /// the caller sends the returned text to its writer and flushes it.
    pub fn write_line(&mut self, line: &str, finished: bool) -> (text: String)
        ensures
            text@ == spec_output_text(old(self).spec_last_len(), line@, finished),
            final(self).spec_last_len() == spec_next_last_len(line@, finished),
    {
        let line_len = line.len();
        assert(line_len as nat == utf8_len(line@));
        let padding = self.last_len.saturating_sub(line_len);
        let mut text = String::new();
        push_char(&mut text, '\r');
        push_str(&mut text, line);
        push_repeated(&mut text, ' ', padding);
        if finished {
            push_char(&mut text, '\n');
            self.last_len = 0;
        } else {
            self.last_len = line_len;
        }
        proof {
            let padding_spec = if old(self).spec_last_len() > utf8_len(line@) {
                (old(self).spec_last_len() - utf8_len(line@)) as nat
            } else {
                0
            };
            assert(padding as nat == padding_spec);
            if finished {
                assert(text@ =~= spec_output_text(old(self).spec_last_len(), line@, finished));
            } else {
                assert(text@ =~= spec_output_text(old(self).spec_last_len(), line@, finished));
            }
        }
        text
    }
}

/// `current + 1`, saturated, and capped at `total`.
pub open spec fn spec_increment(current: nat, total: nat) -> nat {
    let next = if current + 1 > usize::MAX { usize::MAX as nat } else { current + 1 };
    if next <= total {
        next
    } else {
        total
    }
}

/// The next position of a task after one tick.
pub fn increment_current(current: usize, total: usize) -> (next: usize)
    ensures
        next == spec_increment(current as nat, total as nat),
        next <= total,
{
    let next = current.saturating_add(1);
    if next <= total {
        next
    } else {
        total
    }
}

/// The abstract state of a progress task.
pub ghost struct ProgressTaskView {
    /// Whether the task was created by a reporter with an output.
    pub enabled: bool,
    pub total: nat,
    pub label: Seq<char>,
    pub current: nat,
    /// Whether the task has written its finished line.
    pub finished: bool,
}

/// The mutable state shared by the handles of one task.
pub(crate) struct ProgressTaskState {
    pub(crate) enabled: bool,
    pub(crate) total: usize,
    pub(crate) label: String,
    pub(crate) current: usize,
    pub(crate) finished: bool,
}

impl ProgressTaskState {
    /// A task state at position 0, not finished.
    pub(crate) fn new(enabled: bool, total: usize, label: String) -> (state: Self)
        ensures
            state.enabled == enabled,
            state.total == total,
            state.label@ == label@,
            state.current == 0,
            !state.finished,
    {
        Self { enabled, total, label, current: 0, finished: false }
    }
}

/// One tracked unit of work whose position is rendered as a progress line.
pub struct ProgressTask {
    state: ProgressTaskState,
}

/// The abstract state of a reporter: the remembered line length of its
/// output, or `None` when progress is disabled.
pub ghost struct ProgressReporterView {
    pub output: Option<nat>,
}

/// Creates progress tasks that share one output.
pub struct ProgressReporter {
    output: Option<ProgressOutput>,
}

impl View for ProgressReporter {
    type V = ProgressReporterView;

    closed spec fn view(&self) -> ProgressReporterView {
        ProgressReporterView {
            output: match self.output {
                Some(o) => Some(o.spec_last_len()),
                None => None,
            },
        }
    }
}

impl View for ProgressTask {
    type V = ProgressTaskView;

    closed spec fn view(&self) -> ProgressTaskView {
        ProgressTaskView {
            enabled: self.state.enabled,
            total: self.state.total as nat,
            label: self.state.label@,
            current: self.state.current as nat,
            finished: self.state.finished,
        }
    }
}

/// The task's well-formedness: its position never passes its total.
pub open spec fn task_wf(t: ProgressTaskView) -> bool {
    t.current <= t.total <= usize::MAX
}

/// What a reporter's output sends for `line`, and its state afterwards.
pub open spec fn reporter_write(r: ProgressReporterView, line: Seq<char>, finished: bool) -> (
    Seq<char>,
    ProgressReporterView,
) {
    match r.output {
        Some(last_len) => (
            spec_output_text(last_len, line, finished),
            ProgressReporterView { output: Some(spec_next_last_len(line, finished)) },
        ),
        None => (Seq::<char>::empty(), r),
    }
}

/// The effect of writing position `current` (finished or not) on a task and
/// its reporter: the text sent, the task afterwards, the reporter afterwards.
/// A finished line is written at most once; a disabled task writes nothing.
pub open spec fn spec_task_write(
    t: ProgressTaskView,
    r: ProgressReporterView,
    current: nat,
    finished: bool,
) -> (Seq<char>, ProgressTaskView, ProgressReporterView) {
    if finished && t.finished {
        (Seq::<char>::empty(), t, r)
    } else {
        let t2 = ProgressTaskView { finished: t.finished || finished, ..t };
        if !t.enabled {
            (Seq::<char>::empty(), t2, r)
        } else {
            let line = spec_progress_line(current, t.total, t.label);
            let (text, r2) = reporter_write(r, line, finished);
            (text, t2, r2)
        }
    }
}

/// The effect of one tick: a disabled task does nothing; an enabled one
/// advances by one (capped at its total) and writes its line, finished when
/// the total is reached.
pub open spec fn spec_tick(t: ProgressTaskView, r: ProgressReporterView) -> (
    Seq<char>,
    ProgressTaskView,
    ProgressReporterView,
) {
    if !t.enabled {
        (Seq::<char>::empty(), t, r)
    } else {
        let next = spec_increment(t.current, t.total);
        spec_task_write(ProgressTaskView { current: next, ..t }, r, next, next >= t.total)
    }
}

/// The effect of finishing: write the current position as finished.
pub open spec fn spec_finish(t: ProgressTaskView, r: ProgressReporterView) -> (
    Seq<char>,
    ProgressTaskView,
    ProgressReporterView,
) {
    let c = if t.current <= t.total { t.current } else { t.total };
    spec_task_write(t, r, c, true)
}

impl ProgressTask {
    /// A task's position never passes its total.
    #[verifier::type_invariant]
    spec fn position_within_total(self) -> bool {
        self.state.current <= self.state.total
    }

    /// A task that never writes anything.
    pub fn disabled() -> (task: Self)
        ensures
            !task@.enabled,
            task@.total == 0,
            task@.label == Seq::<char>::empty(),
            task@.current == 0,
            !task@.finished,
    {
        Self::new(false, 0, String::new())
    }

    /// A task at position 0 of `total`.
    pub(crate) fn new(enabled: bool, total: usize, label: String) -> (task: Self)
        ensures
            task@.enabled == enabled,
            task@.total == total,
            task@.label == label@,
            task@.current == 0,
            !task@.finished,
    {
        Self { state: ProgressTaskState::new(enabled, total, label) }
    }

    /// Advances the task by one and returns the text for the reporter's writer.
    pub fn tick(&mut self, reporter: &mut ProgressReporter) -> (text: String)
        ensures
            (text@, final(self)@, final(reporter)@) == spec_tick(old(self)@, old(reporter)@),
            task_wf(final(self)@),
    {
        proof {
            use_type_invariant(&*self);
        }
        if !self.state.enabled {
            return String::new();
        }
        let current = increment_current(self.state.current, self.state.total);
        self.state.current = current;
        let finished = current >= self.state.total;
        self.write(reporter, current, finished)
    }

    /// Writes the task's current position as finished (once).
    pub fn finish(&mut self, reporter: &mut ProgressReporter) -> (text: String)
        ensures
            (text@, final(self)@, final(reporter)@) == spec_finish(old(self)@, old(reporter)@),
            task_wf(final(self)@),
    {
        proof {
            use_type_invariant(&*self);
        }
        let current = self.state.current;
        let c = if current <= self.state.total { current } else { self.state.total };
        self.write(reporter, c, true)
    }

    fn write(&mut self, reporter: &mut ProgressReporter, current: usize, finished: bool) -> (text:
        String)
        ensures
            (text@, final(self)@, final(reporter)@) == spec_task_write(
                old(self)@,
                old(reporter)@,
                current as nat,
                finished,
            ),
    {
        proof {
            use_type_invariant(&*self);
        }
        if finished && self.state.finished {
            return String::new();
        }
        if finished {
            self.state.finished = true;
        }
        if !self.state.enabled {
            return String::new();
        }
        let line = render_progress_line(current, self.state.total, self.state.label.as_str());
        match &mut reporter.output {
            Some(output) => output.write_line(line.as_str(), finished),
            None => String::new(),
        }
    }
}

impl ProgressReporter {
    /// A reporter whose tasks write nothing.
    pub fn disabled() -> (reporter: Self)
        ensures
            reporter@.output is None,
    {
        Self { output: None }
    }

    /// A reporter with an output; the caller owns the writer and sends it
    /// the text that the tasks return.
    pub fn with_writer() -> (reporter: Self)
        ensures
            reporter@.output == Some(0nat),
    {
        Self::from_writer()
    }

    fn from_writer() -> (reporter: Self)
        ensures
            reporter@.output == Some(0nat),
    {
        Self { output: Some(ProgressOutput::new()) }
    }

    /// A new task of `total` steps named `label`, enabled when this reporter
    /// has an output.
    pub fn task(&self, total: usize, label: String) -> (task: ProgressTask)
        ensures
            task@.enabled == (self@.output is Some),
            task@.total == total,
            task@.label == label@,
            task@.current == 0,
            !task@.finished,
    {
        ProgressTask::new(self.output.is_some(), total, label)
    }
}

/// Every character of `s` is ASCII (code below 128).
pub open spec fn all_ascii(s: Seq<char>) -> bool {
    forall|i: int| 0 <= i < s.len() ==> (#[trigger] s[i] as u32) < 128
}

/// Concatenating two ASCII sequences gives an ASCII sequence.
proof fn lemma_ascii_concat(a: Seq<char>, b: Seq<char>)
    requires
        all_ascii(a),
        all_ascii(b),
    ensures
        all_ascii(a + b),
{
    assert forall|i: int| 0 <= i < (a + b).len() implies (#[trigger] (a + b)[i] as u32) < 128 by {
        if i < a.len() {
            assert((a + b)[i] == a[i]);
        } else {
            assert((a + b)[i] == b[i - a.len()]);
        }
    }
}

/// A rendered progress line is pure ASCII, whatever the label holds.
pub proof fn lemma_progress_line_is_ascii(current: nat, total: nat, label: Seq<char>)
    ensures
        all_ascii(spec_progress_line(current, total, label)),
{
    let c = if current <= total { current } else { total };
    let filled = filled_cells(c, total);
    lemma_decimal_digits(c);
    lemma_decimal_digits(total);
    lemma_decimal_digits(percent(c, total));
    let l = spec_ascii_label(label);
    let d1 = decimal(c);
    let d2 = decimal(total);
    let d3 = decimal(percent(c, total));
    assert(all_ascii(d1));
    assert(all_ascii(d2));
    assert(all_ascii(d3));
    assert(all_ascii(l));
    let p0 = seq!['['];
    let p1 = repeat_char('#', filled);
    let p2 = repeat_char('-', (BAR_WIDTH - filled) as nat);
    let p3 = seq![']', ' '];
    let p5 = seq!['/'];
    let p7 = seq![' '];
    let p9 = seq!['%', ' '];
    assert(all_ascii(p0));
    assert(all_ascii(p1));
    assert(all_ascii(p2));
    assert(all_ascii(p3));
    assert(all_ascii(p5));
    assert(all_ascii(p7));
    assert(all_ascii(p9));
    lemma_ascii_concat(p0, p1);
    lemma_ascii_concat(p0 + p1, p2);
    lemma_ascii_concat(p0 + p1 + p2, p3);
    lemma_ascii_concat(p0 + p1 + p2 + p3, d1);
    lemma_ascii_concat(p0 + p1 + p2 + p3 + d1, p5);
    lemma_ascii_concat(p0 + p1 + p2 + p3 + d1 + p5, d2);
    lemma_ascii_concat(p0 + p1 + p2 + p3 + d1 + p5 + d2, p7);
    lemma_ascii_concat(p0 + p1 + p2 + p3 + d1 + p5 + d2 + p7, d3);
    lemma_ascii_concat(p0 + p1 + p2 + p3 + d1 + p5 + d2 + p7 + d3, p9);
    lemma_ascii_concat(p0 + p1 + p2 + p3 + d1 + p5 + d2 + p7 + d3 + p9, l);
}

/// The bar always has exactly `BAR_WIDTH` cells and the percentage never
/// exceeds 100; a complete task shows a full bar at 100% (for totals whose
/// percentage does not saturate).
pub proof fn lemma_progress_bar_bounds(current: nat, total: nat)
    requires
        current <= total,
    ensures
        filled_cells(current, total) <= BAR_WIDTH,
        percent(current, total) <= 100,
        current == total && total * 100 <= usize::MAX ==> filled_cells(current, total)
            == BAR_WIDTH && percent(current, total) == 100,
{
    if total > 0 {
        assert(saturating_mul(current, 20) <= total * 20) by (nonlinear_arith)
            requires
                current <= total,
        ;
        assert(saturating_mul(current, 100) <= total * 100) by (nonlinear_arith)
            requires
                current <= total,
        ;
        let a = saturating_mul(current, 20);
        let b = saturating_mul(current, 100);
        assert(a / total <= 20) by (nonlinear_arith)
            requires
                a <= total * 20,
                total > 0,
        ;
        assert(b / total <= 100) by (nonlinear_arith)
            requires
                b <= total * 100,
                total > 0,
        ;
        if current == total && total * 100 <= usize::MAX {
            assert(a == total * 20);
            assert(b == total * 100);
            assert((total * 20) / total == 20) by (nonlinear_arith)
                requires
                    total > 0,
            ;
            assert((total * 100) / total == 100) by (nonlinear_arith)
                requires
                    total > 0,
            ;
        }
    }
}

/// Ticking keeps a task within its total and never moves it backwards; a
/// disabled task is left unchanged and writes nothing.
pub proof fn lemma_tick_monotone(t: ProgressTaskView, r: ProgressReporterView)
    requires
        task_wf(t),
    ensures
        task_wf(spec_tick(t, r).1),
        spec_tick(t, r).1.current >= t.current,
        spec_tick(t, r).1.total == t.total,
        !t.enabled ==> spec_tick(t, r) == (Seq::<char>::empty(), t, r),
{
}

/// Once a task has written its finished line, finishing again writes
/// nothing and changes nothing.
pub proof fn lemma_finish_writes_once(t: ProgressTaskView, r: ProgressReporterView)
    requires
        t.finished,
    ensures
        spec_finish(t, r) == (Seq::<char>::empty(), t, r),
{
}


/// The texts that `m` ticks in a row send, one per tick.
pub open spec fn tick_texts(t: ProgressTaskView, r: ProgressReporterView, m: nat) -> Seq<Seq<char>>
    decreases m,
{
    if m == 0 {
        Seq::empty()
    } else {
        let (text, t2, r2) = spec_tick(t, r);
        seq![text] + tick_texts(t2, r2, (m - 1) as nat)
    }
}

/// The shape of one written progress text: a carriage return, the line for
/// `count` out of `total`, blanking spaces, and a newline exactly when the
/// count reaches the total.
pub open spec fn is_progress_text(text: Seq<char>, count: nat, total: nat, label: Seq<char>) -> bool {
    exists|pad: nat|
        text == seq!['\r'] + spec_progress_line(count, total, label) + repeat_char(' ', pad) + if count == total {
            seq!['\n']
        } else {
            Seq::<char>::empty()
        }
}

/// Ticks of an enabled task from position `c` write the counts `c + 1` up to
/// the total, each once and in order, the last one ending its line with the
/// one newline of the task; once the total is reached, further ticks write
/// nothing.
pub proof fn lemma_ticks_render_each_count_once(t: ProgressTaskView, r: ProgressReporterView, m: nat)
    requires
        t.enabled,
        task_wf(t),
        t.total >= 1,
        t.finished == (t.current == t.total),
        r.output is Some,
    ensures
        tick_texts(t, r, m).len() == m,
        forall|j: int|
            0 <= j < m ==> if t.current + j < t.total {
                is_progress_text(#[trigger] tick_texts(t, r, m)[j], (t.current + j + 1) as nat, t.total, t.label)
            } else {
                tick_texts(t, r, m)[j] == Seq::<char>::empty()
            },
    decreases m,
{
    if m > 0 {
        let (text, t2, r2) = spec_tick(t, r);
        let n = t.total;
        let c = t.current;
        if c < n {
            assert(spec_increment(c, n) == c + 1);
            let line = spec_progress_line(c + 1, n, t.label);
            let last = r.output->0;
            let pad: nat = if last > utf8_len(line) { (last - utf8_len(line)) as nat } else { 0 };
            assert(text == seq!['\r'] + line + repeat_char(' ', pad) + if c + 1 == n {
                seq!['\n']
            } else {
                Seq::<char>::empty()
            });
            assert(is_progress_text(text, c + 1, n, t.label));
        } else {
            assert(spec_increment(c, n) == n);
            assert(text == Seq::<char>::empty());
        }
        lemma_ticks_render_each_count_once(t2, r2, (m - 1) as nat);
        let rest = tick_texts(t2, r2, (m - 1) as nat);
        assert(tick_texts(t, r, m) == seq![text] + rest);
        assert forall|j: int| 0 <= j < m implies if t.current + j < t.total {
            is_progress_text(#[trigger] tick_texts(t, r, m)[j], (t.current + j + 1) as nat, t.total, t.label)
        } else {
            tick_texts(t, r, m)[j] == Seq::<char>::empty()
        } by {
            if j > 0 {
                assert(tick_texts(t, r, m)[j] == rest[j - 1]);
                if c < n {
                    assert(t2.current == c + 1);
                } else {
                    assert(t2.current == c);
                }
            }
        }
    }
}

} // verus!

//! Bounded, line-oriented scrollback of a session.
//!
//! Output arrives in chunks; it is cut at each `'\n'`, and a trailing partial
//! line waits in `pending` until its newline arrives (or until `flush`). The
//! buffer keeps the newest lines that fit both of its caps, a number of lines
//! and a number of UTF-8 bytes, and drops the oldest ones.
use std::collections::VecDeque;
use vstd::prelude::*;

use crate::text::{chars_of, string_of, utf8_len, utf8_len_of};
use crate::types::views;

verus! {

/// The scrollback caps a session gets by default.
pub const DEFAULT_MAX_LINES: usize = 5000;

/// The scrollback size, in bytes, that a session gets by default.
pub const DEFAULT_MAX_BYTES: usize = 256 * 1024;

/// Cuts `s` at each `'\n'`: the lines that a newline ended (without it), and
/// the text after the last newline.
pub open spec fn split_lines(s: Seq<char>) -> (Seq<Seq<char>>, Seq<char>)
    decreases s.len(),
{
    if s.len() == 0 {
        (Seq::empty(), Seq::empty())
    } else {
        let prefix = split_lines(s.drop_last());
        if s.last() == '\n' {
            (prefix.0.push(prefix.1), Seq::empty())
        } else {
            (prefix.0, prefix.1.push(s.last()))
        }
    }
}

/// A line as the buffer stores it: one trailing `'\r'` removed.
pub open spec fn without_cr(line: Seq<char>) -> Seq<char> {
    if line.len() > 0 && line.last() == '\r' {
        line.drop_last()
    } else {
        line
    }
}

/// The lines that `s` completes, as stored.
pub open spec fn completed_lines(s: Seq<char>) -> Seq<Seq<char>> {
    split_lines(s).0.map_values(|l: Seq<char>| without_cr(l))
}

/// The number of UTF-8 bytes in all of `lines`.
pub open spec fn total_bytes(lines: Seq<Seq<char>>) -> nat
    decreases lines.len(),
{
    if lines.len() == 0 {
        0
    } else {
        total_bytes(lines.drop_last()) + utf8_len(lines.last())
    }
}

/// `lines` are within both caps.
pub open spec fn fits(lines: Seq<Seq<char>>, max_lines: nat, max_bytes: nat) -> bool {
    lines.len() <= max_lines && total_bytes(lines) <= max_bytes
}

/// What a buffer with these caps keeps of the output lines `lines`: the oldest
/// lines are dropped until the rest fits.
pub open spec fn retained(lines: Seq<Seq<char>>, max_lines: nat, max_bytes: nat) -> Seq<
    Seq<char>,
>
    decreases lines.len(),
{
    if lines.len() == 0 || fits(lines, max_lines, max_bytes) {
        lines
    } else {
        retained(lines.drop_first(), max_lines, max_bytes)
    }
}

/// The `n` newest lines of `lines`.
pub open spec fn newest(lines: Seq<Seq<char>>, n: int) -> Seq<Seq<char>> {
    lines.subrange(lines.len() - n, lines.len() as int)
}

/// The abstract state of a `RingBuffer`.
pub struct BufferView {
    /// Every line the buffer has completed since it was made, oldest first.
    pub history: Seq<Seq<char>>,
    /// The partial line that waits for its newline.
    pub pending: Seq<char>,
    /// The cap on the number of lines kept.
    pub max_lines: nat,
    /// The cap on the number of bytes kept.
    pub max_bytes: nat,
}

impl BufferView {
    /// The lines the buffer holds: the newest lines of the history that fit.
    pub open spec fn held(self) -> Seq<Seq<char>> {
        retained(self.history, self.max_lines, self.max_bytes)
    }

    /// Some line of the history is no longer held.
    pub open spec fn dropped(self) -> bool {
        self.held().len() < self.history.len()
    }

    /// The state after a chunk of output arrives.
    pub open spec fn after_append(self, chunk: Seq<char>) -> BufferView {
        let text = self.pending + chunk;
        BufferView {
            history: self.history + completed_lines(text),
            pending: split_lines(text).1,
            ..self
        }
    }

    /// The state after the partial line is forced in.
    pub open spec fn after_flush(self) -> BufferView {
        if self.pending.len() == 0 {
            self
        } else {
            BufferView { history: self.history.push(self.pending), pending: Seq::empty(), ..self }
        }
    }
}

/// The end (exclusive) of a read window of `total` lines.
pub open spec fn window_end(offset: int, limit: Option<usize>, total: int) -> int {
    match limit {
        Some(l) => if offset + l < total {
            offset + l
        } else {
            total
        },
        None => total,
    }
}

/// Result of a buffer read: a contiguous slice of lines plus addressing metadata.
pub struct ReadSlice {
    pub lines: Vec<String>,
    pub offset: usize,
    pub total: usize,
    pub truncated: bool,
}

/// Bounded, line-oriented scrollback. Stores raw lines; drops oldest on overflow.
pub struct RingBuffer {
    lines: VecDeque<String>,
    pending: Vec<char>,
    max_lines: usize,
    max_bytes: usize,
    bytes: u128,
    dropped: bool,
    history: Ghost<Seq<Seq<char>>>,
}

// ---------------------------------------------------------------------------
// Lemmas on the model
// ---------------------------------------------------------------------------

/// Text without a newline completes no line.
pub proof fn lemma_split_no_newline(s: Seq<char>)
    requires
        !s.contains('\n'),
    ensures
        split_lines(s) == (Seq::<Seq<char>>::empty(), s),
    decreases s.len(),
{
    if s.len() > 0 {
        assert(!s.drop_last().contains('\n')) by {
            if s.drop_last().contains('\n') {
                let i = choose|i: int| 0 <= i < s.drop_last().len() && s.drop_last()[i] == '\n';
                assert(s[i] == '\n');
            }
        }
        lemma_split_no_newline(s.drop_last());
        assert(s.last() != '\n') by {
            assert(s[s.len() - 1] == s.last());
        }
        assert(s.drop_last().push(s.last()) =~= s);
    }
}

/// The text after the last newline holds no newline.
pub proof fn lemma_split_rest_has_no_newline(s: Seq<char>)
    ensures
        !split_lines(s).1.contains('\n'),
    decreases s.len(),
{
    if s.len() > 0 {
        lemma_split_rest_has_no_newline(s.drop_last());
        let prefix = split_lines(s.drop_last());
        if s.last() != '\n' {
            assert forall|i: int| 0 <= i < prefix.1.push(s.last()).len() implies prefix.1.push(
                s.last(),
            )[i] != '\n' by {
                if i < prefix.1.len() {
                    assert(prefix.1.push(s.last())[i] == prefix.1[i]);
                }
            }
        }
    }
}

/// Cutting `x + y` is cutting `x`, then cutting its rest followed by `y`.
pub proof fn lemma_split_concat(x: Seq<char>, y: Seq<char>)
    ensures
        split_lines(x + y).0 == split_lines(x).0 + split_lines(split_lines(x).1 + y).0,
        split_lines(x + y).1 == split_lines(split_lines(x).1 + y).1,
    decreases y.len(),
{
    let r = split_lines(x).1;
    if y.len() == 0 {
        assert(x + y =~= x);
        assert(r + y =~= r);
        lemma_split_rest_has_no_newline(x);
        lemma_split_no_newline(r);
        assert(split_lines(x).0 + Seq::<Seq<char>>::empty() =~= split_lines(x).0);
    } else {
        lemma_split_concat(x, y.drop_last());
        assert((x + y).drop_last() =~= x + y.drop_last());
        assert((r + y).drop_last() =~= r + y.drop_last());
        assert((x + y).last() == y.last());
        assert((r + y).last() == y.last());
        let a = split_lines(x).0;
        let b = split_lines(r + y.drop_last()).0;
        if y.last() == '\n' {
            assert((a + b).push(split_lines(r + y.drop_last()).1) =~= a + b.push(
                split_lines(r + y.drop_last()).1,
            ));
        }
    }
}

/// Byte counts split at the first line.
pub proof fn lemma_total_bytes_first(lines: Seq<Seq<char>>)
    requires
        lines.len() > 0,
    ensures
        total_bytes(lines) == utf8_len(lines[0]) + total_bytes(lines.drop_first()),
    decreases lines.len(),
{
    if lines.len() > 1 {
        lemma_total_bytes_first(lines.drop_last());
        assert(lines.drop_last().drop_first() =~= lines.drop_first().drop_last());
        assert(lines.drop_first().last() == lines.last());
    } else {
        assert(lines.drop_first() =~= Seq::<Seq<char>>::empty());
        assert(lines.drop_last() =~= Seq::<Seq<char>>::empty());
    }
}

/// What is kept is the newest part of the lines.
pub proof fn lemma_retained_is_newest(lines: Seq<Seq<char>>, max_lines: nat, max_bytes: nat)
    ensures
        retained(lines, max_lines, max_bytes).len() <= lines.len(),
        retained(lines, max_lines, max_bytes) == newest(
            lines,
            retained(lines, max_lines, max_bytes).len() as int,
        ),
        fits(retained(lines, max_lines, max_bytes), max_lines, max_bytes),
    decreases lines.len(),
{
    if lines.len() == 0 {
        assert(newest(lines, 0) =~= lines);
    } else if fits(lines, max_lines, max_bytes) {
        assert(newest(lines, lines.len() as int) =~= lines);
    } else {
        lemma_retained_is_newest(lines.drop_first(), max_lines, max_bytes);
        let k = retained(lines, max_lines, max_bytes).len() as int;
        assert(newest(lines.drop_first(), k) =~= newest(lines, k));
    }
}

/// A line added after the kept lines is kept as if added after all of them.
pub proof fn lemma_retained_push(lines: Seq<Seq<char>>, line: Seq<char>, max_lines: nat, max_bytes: nat)
    ensures
        retained(retained(lines, max_lines, max_bytes).push(line), max_lines, max_bytes)
            == retained(lines.push(line), max_lines, max_bytes),
    decreases lines.len(),
{
    if lines.len() == 0 || fits(lines, max_lines, max_bytes) {
    } else {
        assert(lines.push(line).drop_last() =~= lines);
        assert(!fits(lines.push(line), max_lines, max_bytes));
        assert(lines.push(line).drop_first() =~= lines.drop_first().push(line));
        lemma_retained_push(lines.drop_first(), line, max_lines, max_bytes);
    }
}

/// Lines that fit are kept whole.
pub proof fn lemma_retained_fits(lines: Seq<Seq<char>>, max_lines: nat, max_bytes: nat)
    requires
        fits(lines, max_lines, max_bytes),
    ensures
        retained(lines, max_lines, max_bytes) == lines,
{
}

/// Dropping the oldest line of lines that do not fit keeps the same lines.
pub proof fn lemma_retained_step(lines: Seq<Seq<char>>, max_lines: nat, max_bytes: nat)
    requires
        lines.len() > 0,
        !fits(lines, max_lines, max_bytes),
    ensures
        retained(lines.drop_first(), max_lines, max_bytes) == retained(
            lines,
            max_lines,
            max_bytes,
        ),
{
}

// ---------------------------------------------------------------------------
// The buffer
// ---------------------------------------------------------------------------

/// Names what `strip_ansi_escapes::strip_str` returns for a text.
pub uninterp spec fn ansi_stripped(text: Seq<char>) -> Seq<char>;

/// Removes ANSI escape sequences with `strip_ansi_escapes::strip_str`. The
/// contract claims only that the result is a function of the text, named
/// `ansi_stripped`; which sequences it removes is that crate's terminal parser.
#[verifier::external_body]
fn strip_ansi(s: &str) -> (r: String)
    ensures
        r@ == ansi_stripped(s@),
{
    strip_ansi_escapes::strip_str(s)
}

impl View for RingBuffer {
    type V = BufferView;

    closed spec fn view(&self) -> BufferView {
        BufferView {
            history: self.history@,
            pending: self.pending@,
            max_lines: self.max_lines as nat,
            max_bytes: self.max_bytes as nat,
        }
    }
}

impl RingBuffer {
    /// The buffer's fields agree with its abstract state.
    pub closed spec fn wf(&self) -> bool {
        &&& views(self.lines@) == self@.held()
        &&& self.bytes == total_bytes(self@.held())
        &&& self.dropped == self@.dropped()
        &&& !self.pending@.contains('\n')
    }

    /// Create a new `RingBuffer` capped at `max_lines` lines and `max_bytes` bytes.
    pub fn new(max_lines: usize, max_bytes: usize) -> (b: Self)
        ensures
            b.wf(),
            b@.history == Seq::<Seq<char>>::empty(),
            b@.pending == Seq::<char>::empty(),
            b@.max_lines == max_lines,
            b@.max_bytes == max_bytes,
    {
        let b = RingBuffer {
            lines: VecDeque::new(),
            pending: Vec::new(),
            max_lines,
            max_bytes,
            bytes: 0,
            dropped: false,
            history: Ghost(Seq::empty()),
        };
        assert(views(b.lines@) =~= Seq::<Seq<char>>::empty());
        b
    }

    /// Adds one completed line and drops the oldest lines until the rest fits.
    fn push_line(&mut self, line: String)
        requires
            old(self).wf(),
        ensures
            final(self).wf(),
            final(self)@ == (BufferView { history: old(self)@.history.push(line@), ..old(self)@ }),
    {
        let ghost before = self@;
        let ghost old_held = before.held();
        let ghost target = retained(before.history.push(line@), before.max_lines, before.max_bytes);
        proof {
            lemma_retained_is_newest(before.history, before.max_lines, before.max_bytes);
            lemma_retained_push(before.history, line@, before.max_lines, before.max_bytes);
        }
        let cs = chars_of(line.as_str());
        let n = utf8_len_of(&cs);
        let count = cs.len();
        assert(n <= 4 * count);
        self.bytes = self.bytes + n;
        self.lines.push_back(line);
        self.history = Ghost(before.history.push(line@));
        proof {
            assert(views(self.lines@) =~= old_held.push(line@));
            assert(old_held.push(line@).drop_last() =~= old_held);
            assert(newest(old_held.push(line@), (old_held.len() + 1) as int) =~= old_held.push(line@));
        }
        while self.lines.len() > self.max_lines || self.bytes > self.max_bytes as u128
            invariant
                retained(views(self.lines@), before.max_lines, before.max_bytes) == target,
                views(self.lines@).len() <= old_held.len() + 1,
                views(self.lines@) == newest(
                    old_held.push(line@),
                    views(self.lines@).len() as int,
                ),
                self.bytes == total_bytes(views(self.lines@)),
                self.dropped == (before.dropped() || views(self.lines@).len() < old_held.len()
                    + 1),
                self.pending@ == before.pending,
                self.max_lines == before.max_lines,
                self.max_bytes == before.max_bytes,
                self.history@ == before.history.push(line@),
                target == retained(before.history.push(line@), before.max_lines, before.max_bytes),
            decreases self.lines@.len(),
        {
            let ghost cur = views(self.lines@);
            proof {
                if cur.len() == 0 {
                    assert(total_bytes(cur) == 0);
                }
                lemma_total_bytes_first(cur);
                lemma_retained_step(cur, before.max_lines, before.max_bytes);
            }
            let oldest = self.lines.pop_front().unwrap();
            let ocs = chars_of(oldest.as_str());
            let m = utf8_len_of(&ocs);
            self.bytes = self.bytes - m;
            self.dropped = true;
            proof {
                assert(views(self.lines@) =~= cur.drop_first());
                let k = cur.len() - 1;
                assert(newest(old_held.push(line@), k) =~= cur.drop_first());
            }
        }
        proof {
            let cur = views(self.lines@);
            lemma_retained_fits(cur, before.max_lines, before.max_bytes);
            lemma_retained_is_newest(before.history.push(line@), before.max_lines, before.max_bytes);
            if !before.dropped() {
                assert(old_held =~= before.history);
            }
        }
    }

    /// Append a chunk of raw PTY output, splitting on `\n`. A trailing partial
    /// line is held in `pending` until its newline arrives.
    pub fn append(&mut self, chunk: &str)
        requires
            old(self).wf(),
        ensures
            final(self).wf(),
            final(self)@ == old(self)@.after_append(chunk@),
    {
        let ghost start = self@;
        let cs = chars_of(chunk);
        proof {
            lemma_split_no_newline(start.pending);
            assert(start.pending + cs@.take(0) =~= start.pending);
            assert(start.history + completed_lines(start.pending) =~= start.history);
        }
        let mut i: usize = 0;
        while i < cs.len()
            invariant
                self.wf(),
                i <= cs.len(),
                cs@ == chunk@,
                self@ == start.after_append(cs@.take(i as int)),
            decreases cs.len() - i,
        {
            let c = cs[i];
            let ghost t = start.pending + cs@.take(i as int);
            proof {
                assert(start.pending + cs@.take(i + 1) =~= t.push(c));
                assert(t.push(c).drop_last() =~= t);
            }
            if c == '\n' {
                let mut line_chars: Vec<char> = Vec::new();
                std::mem::swap(&mut line_chars, &mut self.pending);
                proof {
                    assert(views(self.lines@) == self@.held());
                }
                let n = line_chars.len();
                if n > 0 && line_chars[n - 1] == '\r' {
                    line_chars.pop();
                    proof {
                        assert(line_chars@ =~= split_lines(t).1.drop_last());
                    }
                }
                let line = string_of(&line_chars);
                self.push_line(line);
                proof {
                    assert(completed_lines(t.push(c)) =~= completed_lines(t).push(
                        without_cr(split_lines(t).1),
                    ));
                    assert(self@.history =~= start.history + completed_lines(t.push(c)));
                }
            } else {
                self.pending.push(c);
                proof {
                    lemma_split_rest_has_no_newline(t.push(c));
                }
            }
            i = i + 1;
        }
        proof {
            assert(cs@.take(cs.len() as int) =~= chunk@);
        }
    }

    /// Force any held partial line into the buffer. Call on process exit.
    pub fn flush(&mut self)
        requires
            old(self).wf(),
        ensures
            final(self).wf(),
            final(self)@ == old(self)@.after_flush(),
    {
        if self.pending.len() > 0 {
            let mut line_chars: Vec<char> = Vec::new();
            std::mem::swap(&mut line_chars, &mut self.pending);
            let line = string_of(&line_chars);
            self.push_line(line);
        }
    }

    /// Read a line range starting at `offset`, up to `limit` lines.
    /// `raw = false` strips ANSI escape sequences before returning.
    pub fn read(&self, offset: usize, limit: Option<usize>, raw: bool) -> (r: ReadSlice)
        requires
            self.wf(),
        ensures
            r.offset == offset,
            r.total == self@.held().len(),
            r.truncated == self@.dropped(),
            r.lines@.len() == (if offset < window_end(offset as int, limit, self@.held().len() as int) {
                window_end(offset as int, limit, self@.held().len() as int) - offset
            } else {
                0
            }),
            forall|i: int|
                #![trigger r.lines@[i]]
                0 <= i < r.lines@.len() ==> r.lines@[i]@ == (if raw {
                    self@.held()[offset + i]
                } else {
                    ansi_stripped(self@.held()[offset + i])
                }),
    {
        let total = self.lines.len();
        let end = match limit {
            Some(l) => {
                let reach = offset.saturating_add(l);
                if reach < total {
                    reach
                } else {
                    total
                }
            },
            None => total,
        };
        let mut lines: Vec<String> = Vec::new();
        let mut j = offset;
        while j < end
            invariant
                self.wf(),
                total == self@.held().len(),
                end <= total,
                offset <= j <= end || (j == offset && end <= offset),
                lines@.len() == j - offset,
                forall|i: int|
                    #![trigger lines@[i]]
                    0 <= i < lines@.len() ==> lines@[i]@ == (if raw {
                        self@.held()[offset + i]
                    } else {
                        ansi_stripped(self@.held()[offset + i])
                    }),
            decreases end - j,
        {
            proof {
                assert(views(self.lines@)[j as int] == self.lines@[j as int]@);
            }
            let text = &self.lines[j];
            if raw {
                lines.push(text.clone());
            } else {
                lines.push(strip_ansi(text.as_str()));
            }
            j = j + 1;
        }
        ReadSlice { lines, offset, total, truncated: self.dropped }
    }

    /// Returns the number of lines currently held in the buffer.
    pub fn len(&self) -> (n: usize)
        requires
            self.wf(),
        ensures
            n == self@.held().len(),
    {
        self.lines.len()
    }

    /// Returns `true` if the buffer holds no lines.
    pub fn is_empty(&self) -> (e: bool)
        requires
            self.wf(),
        ensures
            e == (self@.held().len() == 0),
    {
        self.lines.len() == 0
    }
}

// ---------------------------------------------------------------------------
// Laws
// ---------------------------------------------------------------------------

/// Bounded memory: a buffer never holds more lines or more bytes than its caps.
pub proof fn law_held_within_caps(b: &RingBuffer)
    requires
        b.wf(),
    ensures
        b@.held().len() <= b@.max_lines,
        total_bytes(b@.held()) <= b@.max_bytes,
{
    lemma_retained_is_newest(b@.history, b@.max_lines, b@.max_bytes);
}

/// Oldest dropped first: the held lines are the newest lines of the output,
/// and they are the longest such run that fits the caps.
pub proof fn law_held_is_longest_newest_run(v: BufferView, k: int)
    requires
        v.held().len() < k <= v.history.len(),
    ensures
        v.held() == newest(v.history, v.held().len() as int),
        fits(v.held(), v.max_lines, v.max_bytes),
        !fits(newest(v.history, k), v.max_lines, v.max_bytes),
{
    lemma_retained_is_newest(v.history, v.max_lines, v.max_bytes);
    lemma_retained_longest(v.history, v.max_lines, v.max_bytes, k);
}

/// No run of newest lines longer than the kept one fits.
proof fn lemma_retained_longest(lines: Seq<Seq<char>>, max_lines: nat, max_bytes: nat, k: int)
    requires
        retained(lines, max_lines, max_bytes).len() < k <= lines.len(),
    ensures
        !fits(newest(lines, k), max_lines, max_bytes),
    decreases lines.len(),
{
    if lines.len() == 0 || fits(lines, max_lines, max_bytes) {
    } else if k == lines.len() {
        assert(newest(lines, k) =~= lines);
    } else {
        assert(newest(lines.drop_first(), k) =~= newest(lines, k));
        lemma_retained_longest(lines.drop_first(), max_lines, max_bytes, k);
    }
}

/// Chunk boundaries do not matter: output appended in two chunks leaves the
/// buffer as the same output appended at once.
pub proof fn law_append_is_chunking_invariant(v: BufferView, a: Seq<char>, b: Seq<char>)
    requires
        !v.pending.contains('\n'),
    ensures
        v.after_append(a).after_append(b) == v.after_append(a + b),
{
    let x = v.pending + a;
    let r = split_lines(x).1;
    lemma_split_concat(x, b);
    assert(v.pending + (a + b) =~= x + b);
    let f = |l: Seq<char>| without_cr(l);
    assert(split_lines(x + b).0.map_values(f) =~= split_lines(x).0.map_values(f) + split_lines(
        r + b,
    ).0.map_values(f));
    assert(v.after_append(a).after_append(b).history =~= v.after_append(a + b).history);
}

/// A buffer never holds a partial line with a newline in it.
pub proof fn law_pending_has_no_newline(b: &RingBuffer)
    requires
        b.wf(),
    ensures
        !b@.pending.contains('\n'),
{
}

/// Flushing twice is flushing once, and a flushed buffer has no partial line.
pub proof fn law_flush_idempotent(v: BufferView)
    ensures
        v.after_flush().pending.len() == 0,
        v.after_flush().after_flush() == v.after_flush(),
{
}

/// The text that `lines` and `rest` stand for: each line followed by its
/// newline, then the rest.
pub open spec fn unsplit(lines: Seq<Seq<char>>, rest: Seq<char>) -> Seq<char>
    decreases lines.len(),
{
    if lines.len() == 0 {
        rest
    } else {
        unsplit(lines.drop_last(), Seq::empty()) + lines.last() + seq!['\n'] + rest
    }
}

/// Cutting output into lines loses nothing: the completed lines, each with
/// its newline, followed by the partial line, are the output.
pub proof fn law_split_loses_nothing(s: Seq<char>)
    ensures
        unsplit(split_lines(s).0, split_lines(s).1) == s,
    decreases s.len(),
{
    if s.len() > 0 {
        let p = split_lines(s.drop_last());
        law_split_loses_nothing(s.drop_last());
        lemma_unsplit_append(p.0, p.1);
        if s.last() == '\n' {
            assert(p.0.push(p.1).drop_last() =~= p.0);
            assert(unsplit(p.0, Seq::empty()) + p.1 =~= unsplit(p.0, p.1));
            assert(unsplit(p.0.push(p.1), Seq::empty()) =~= s);
        } else {
            lemma_unsplit_append(p.0, p.1.push(s.last()));
            assert(unsplit(p.0, Seq::empty()) + p.1.push(s.last()) =~= (unsplit(p.0, Seq::empty())
                + p.1).push(s.last()));
            assert(s.drop_last().push(s.last()) =~= s);
        }
    }
}

/// The rest comes last in the text.
proof fn lemma_unsplit_append(lines: Seq<Seq<char>>, rest: Seq<char>)
    ensures
        unsplit(lines, rest) == unsplit(lines, Seq::empty()) + rest,
    decreases lines.len(),
{
    if lines.len() == 0 {
        assert(Seq::<char>::empty() + rest =~= rest);
    } else {
        assert(unsplit(lines, Seq::empty()) + rest =~= unsplit(lines.drop_last(), Seq::empty())
            + lines.last() + seq!['\n'] + rest);
    }
}

/// What a reader can observe of a buffer: the held lines, the partial line,
/// the caps and whether a line was ever dropped.
pub open spec fn observed(v: BufferView) -> (Seq<Seq<char>>, Seq<char>, nat, nat, bool) {
    (v.held(), v.pending, v.max_lines, v.max_bytes, v.dropped())
}

/// Lines added after the kept lines are kept as if added after all of them.
proof fn lemma_retained_concat(h: Seq<Seq<char>>, l: Seq<Seq<char>>, max_lines: nat, max_bytes: nat)
    ensures
        retained(retained(h, max_lines, max_bytes) + l, max_lines, max_bytes) == retained(
            h + l,
            max_lines,
            max_bytes,
        ),
    decreases l.len(),
{
    let kept = retained(h, max_lines, max_bytes);
    if l.len() == 0 {
        assert(kept + l =~= kept);
        assert(h + l =~= h);
        lemma_retained_is_newest(h, max_lines, max_bytes);
        lemma_retained_fits(kept, max_lines, max_bytes);
    } else {
        let l0 = l.drop_last();
        let x = l.last();
        lemma_retained_concat(h, l0, max_lines, max_bytes);
        assert(kept + l =~= (kept + l0).push(x));
        assert(h + l =~= (h + l0).push(x));
        lemma_retained_push(kept + l0, x, max_lines, max_bytes);
        lemma_retained_push(h + l0, x, max_lines, max_bytes);
    }
}

/// Adding lines drops something exactly when something was dropped already
/// or the kept lines plus the new ones do not all stay.
proof fn lemma_added_observed(v: BufferView, l: Seq<Seq<char>>)
    ensures
        retained(v.history + l, v.max_lines, v.max_bytes) == retained(
            v.held() + l,
            v.max_lines,
            v.max_bytes,
        ),
        (retained(v.history + l, v.max_lines, v.max_bytes).len() < v.history.len() + l.len())
            == (v.dropped() || retained(v.held() + l, v.max_lines, v.max_bytes).len()
            < v.held().len() + l.len()),
{
    lemma_retained_concat(v.history, l, v.max_lines, v.max_bytes);
    lemma_retained_is_newest(v.history, v.max_lines, v.max_bytes);
    lemma_retained_is_newest(v.held() + l, v.max_lines, v.max_bytes);
    if !v.dropped() {
        assert(v.held() =~= v.history);
    }
}

/// What a reader observes after an append or a flush depends only on what it
/// observed before.
pub proof fn law_observed_is_self_contained(v1: BufferView, v2: BufferView, chunk: Seq<char>)
    requires
        observed(v1) == observed(v2),
    ensures
        observed(v1.after_append(chunk)) == observed(v2.after_append(chunk)),
        observed(v1.after_flush()) == observed(v2.after_flush()),
{
    let c = completed_lines(v1.pending + chunk);
    lemma_added_observed(v1, c);
    lemma_added_observed(v2, c);
    assert(v1.after_append(chunk).history == v1.history + c);
    assert(v2.after_append(chunk).history == v2.history + c);
    if v1.pending.len() > 0 {
        let p = seq![v1.pending];
        lemma_added_observed(v1, p);
        lemma_added_observed(v2, p);
        assert(v1.history.push(v1.pending) =~= v1.history + p);
        assert(v2.history.push(v2.pending) =~= v2.history + p);
    }
}

/// Chunk boundaries do not matter to a reader: two buffers that a reader
/// cannot tell apart stay so when one gets output in two chunks and the other
/// the same output at once, and after both are flushed.
pub proof fn law_append_chunking_observed(v1: BufferView, v2: BufferView, a: Seq<char>, b: Seq<char>)
    requires
        observed(v1) == observed(v2),
        !v1.pending.contains('\n'),
    ensures
        observed(v1.after_append(a).after_append(b)) == observed(v2.after_append(a + b)),
        observed(v1.after_append(a).after_append(b).after_flush()) == observed(
            v2.after_append(a + b).after_flush(),
        ),
{
    law_append_is_chunking_invariant(v1, a, b);
    law_observed_is_self_contained(v1, v2, a + b);
    law_observed_is_self_contained(v1.after_append(a + b), v2.after_append(a + b), b);
}

/// Once a line has been dropped, the buffer reports it for good: appends and
/// flushes never clear the flag.
pub proof fn law_dropped_stays(v: BufferView, chunk: Seq<char>)
    requires
        v.dropped(),
    ensures
        v.after_append(chunk).dropped(),
        v.after_flush().dropped(),
{
    let c = completed_lines(v.pending + chunk);
    lemma_added_observed(v, c);
    if v.pending.len() > 0 {
        let p = seq![v.pending];
        lemma_added_observed(v, p);
        assert(v.history.push(v.pending) =~= v.history + p);
    }
}

} // verus!

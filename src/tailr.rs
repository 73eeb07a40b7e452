//! The tail engine: selection modes, the counting pass, the extracting pass
//! and the bounded window for sources that can be read only once.
//!
//! Each pass is a state machine fed the source in chunks of any size; what it
//! has seen so far is its view.
use std::collections::VecDeque;

use vstd::prelude::*;
use vstd::string::StringExecFns;

use crate::lines::{
    ends_open, last_bytes, lemma_newlines_bound, lemma_newlines_concat, lemma_skip_bytes_concat,
    lemma_skip_lines_concat, lemma_skip_lines_newlines, lemma_skip_lines_total,
    lemma_skip_lines_twice, line_total, newlines, sat_sub, skip_bytes, skip_lines, NEWLINE,
};

verus! {

/// Which part of a source to emit.
#[derive(Clone, Copy, Debug, PartialEq, Eq, Structural)]
pub enum Mode {
    /// The final `count` lines.
    LastLines(u64),
    /// The final `count` bytes.
    LastBytes(u64),
    /// Every line from the given one (1-based; 0 means 1) to the end.
    FromLine(u64),
    /// Every byte from the given one (1-based; 0 means 1) to the end.
    FromByte(u64),
}

/// The unit a mode addresses.
#[derive(Clone, Copy, Debug, PartialEq, Eq, Structural)]
pub enum Unit {
    Lines,
    Bytes,
}

/// How many leading units the extracting pass drops before it copies the rest.
#[derive(Clone, Copy, Debug, PartialEq, Eq, Structural)]
pub enum Plan {
    SkipLines(u64),
    SkipBytes(u64),
}

/// What a mode selects from the source `s`.
pub open spec fn select(mode: Mode, s: Seq<u8>) -> Seq<u8> {
    match mode {
        Mode::LastLines(count) => skip_lines(s, sat_sub(line_total(s), count as nat)),
        Mode::LastBytes(count) => last_bytes(s, count as nat),
        Mode::FromLine(start) => skip_lines(s, sat_sub(start as nat, 1)),
        Mode::FromByte(start) => skip_bytes(s, sat_sub(start as nat, 1)),
    }
}

/// Whether a mode is anchored at the end, and so needs the source's totals.
pub open spec fn anchored_at_end(mode: Mode) -> bool {
    mode is LastLines || mode is LastBytes
}

pub open spec fn sub_u64(a: u64, b: u64) -> u64 {
    if a >= b {
        (a - b) as u64
    } else {
        0
    }
}

/// The plan for a mode, given the source's line and byte totals.
pub open spec fn plan_for(mode: Mode, lines: u64, bytes: u64) -> Plan {
    match mode {
        Mode::LastLines(count) => Plan::SkipLines(sub_u64(lines, count)),
        Mode::LastBytes(count) => Plan::SkipBytes(sub_u64(bytes, count)),
        Mode::FromLine(start) => Plan::SkipLines(sub_u64(start, 1)),
        Mode::FromByte(start) => Plan::SkipBytes(sub_u64(start, 1)),
    }
}

/// What the extracting pass emits from `s` under a plan.
pub open spec fn apply(plan: Plan, s: Seq<u8>) -> Seq<u8> {
    match plan {
        Plan::SkipLines(n) => skip_lines(s, n as nat),
        Plan::SkipBytes(n) => skip_bytes(s, n as nat),
    }
}

/// The two-pass algorithm: count, plan, then drop and copy.
pub open spec fn two_pass(mode: Mode, s: Seq<u8>) -> Seq<u8> {
    apply(plan_for(mode, line_total(s) as u64, s.len() as u64), s)
}

/// The content of the bounded line window after it has been fed `s`: each
/// byte is appended, and the oldest line leaves once there are more than `count`.
pub open spec fn window_lines(s: Seq<u8>, count: nat) -> Seq<u8>
    decreases s.len(),
{
    if s.len() == 0 || count == 0 {
        Seq::empty()
    } else {
        let w = window_lines(s.drop_last(), count).push(s.last());
        if line_total(w) > count {
            skip_lines(w, 1)
        } else {
            w
        }
    }
}

/// The content of the bounded byte window after it has been fed `s`.
pub open spec fn window_bytes(s: Seq<u8>, count: nat) -> Seq<u8>
    decreases s.len(),
{
    if s.len() == 0 {
        Seq::empty()
    } else {
        let w = window_bytes(s.drop_last(), count).push(s.last());
        if w.len() > count {
            w.drop_first()
        } else {
            w
        }
    }
}

/// What the single-pass algorithm emits for an end-anchored mode.
pub open spec fn single_pass(mode: Mode, s: Seq<u8>) -> Seq<u8> {
    match mode {
        Mode::LastLines(count) => window_lines(s, count as nat),
        Mode::LastBytes(count) => window_bytes(s, count as nat),
        _ => apply(plan_for(mode, 0, 0), s),
    }
}

impl Mode {
    /// Whether the mode needs the counting pass before extraction.
    pub fn needs_totals(&self) -> (r: bool)
        ensures
            r == anchored_at_end(*self),
    {
        match self {
            Mode::LastLines(_) | Mode::LastBytes(_) => true,
            _ => false,
        }
    }

    /// The unit the mode addresses.
    pub fn unit(&self) -> (r: Unit)
        ensures
            r == (if self is LastLines || self is FromLine {
                Unit::Lines
            } else {
                Unit::Bytes
            }),
    {
        match self {
            Mode::LastLines(_) | Mode::FromLine(_) => Unit::Lines,
            _ => Unit::Bytes,
        }
    }

    /// The plan for this mode over a source with the given totals; the totals
    /// are read only by the end-anchored modes.
    pub fn plan(&self, lines: u64, bytes: u64) -> (r: Plan)
        ensures
            r == plan_for(*self, lines, bytes),
    {
        match *self {
            Mode::LastLines(count) => Plan::SkipLines(lines.saturating_sub(count)),
            Mode::LastBytes(count) => Plan::SkipBytes(bytes.saturating_sub(count)),
            Mode::FromLine(start) => Plan::SkipLines(start.saturating_sub(1)),
            Mode::FromByte(start) => Plan::SkipBytes(start.saturating_sub(1)),
        }
    }
}

/// A plan made from the source's true totals selects what the mode names.
pub proof fn lemma_plan_selects(mode: Mode, s: Seq<u8>, lines: u64, bytes: u64)
    requires
        anchored_at_end(mode) ==> lines == line_total(s) && bytes == s.len(),
    ensures
        apply(plan_for(mode, lines, bytes), s) == select(mode, s),
{
    if let Mode::LastBytes(count) = mode {
        assert(skip_bytes(s, sub_u64(bytes, count) as nat) =~= last_bytes(s, count as nat));
    }
}

/// The bytes of `v` from index `start` on, as a new vector.
fn copy_from(v: &[u8], start: usize) -> (r: Vec<u8>)
    requires
        start <= v@.len(),
    ensures
        r@ == v@.subrange(start as int, v@.len() as int),
{
    let mut r: Vec<u8> = Vec::new();
    let mut i: usize = start;
    while i < v.len()
        invariant
            start <= i <= v@.len(),
            r@ == v@.subrange(start as int, i as int),
        decreases v@.len() - i,
    {
        r.push(v[i]);
        i = i + 1;
        assert(r@ =~= v@.subrange(start as int, i as int));
    }
    r
}

/// Scans `v` past its first `k` lines. Returns where the rest starts, and how
/// many of the `k` lines were not found in `v`.
fn scan_lines(v: &[u8], k: u64) -> (r: (usize, u64))
    ensures
        r.0 <= v@.len(),
        v@.subrange(r.0 as int, v@.len() as int) == skip_lines(v@, k as nat),
        r.1 == sat_sub(k as nat, newlines(v@)),
{
    let mut i: usize = 0;
    let mut rem: u64 = k;
    assert(v@.subrange(0, v@.len() as int) =~= v@);
    assert(v@.subrange(0, 0) =~= Seq::<u8>::empty());
    while rem > 0 && i < v.len()
        invariant
            i <= v@.len(),
            rem <= k,
            skip_lines(v@, k as nat) == skip_lines(v@.subrange(i as int, v@.len() as int), rem as nat),
            newlines(v@.subrange(0, i as int)) + rem == k,
        decreases v@.len() - i,
    {
        let ghost rest = v@.subrange(i as int, v@.len() as int);
        assert(rest[0] == v@[i as int]);
        assert(rest.drop_first() =~= v@.subrange(i + 1, v@.len() as int));
        assert(v@.subrange(0, i + 1).drop_last() =~= v@.subrange(0, i as int));
        if v[i] == NEWLINE {
            rem = rem - 1;
        }
        i = i + 1;
    }
    proof {
        lemma_newlines_concat(v@.subrange(0, i as int), v@.subrange(i as int, v@.len() as int));
        assert(v@.subrange(0, i as int) + v@.subrange(i as int, v@.len() as int) =~= v@);
    }
    (i, rem)
}

/// The counting pass: the line and byte totals of what it has been fed, in
/// constant space.
pub struct Counter {
    newlines: u64,
    bytes: u64,
    open: bool,
    seen: Ghost<Seq<u8>>,
}

impl View for Counter {
    type V = Seq<u8>;

    closed spec fn view(&self) -> Seq<u8> {
        self.seen@
    }
}

impl Counter {
    pub closed spec fn wf(&self) -> bool {
        &&& self.newlines == newlines(self.seen@)
        &&& self.bytes == self.seen@.len()
        &&& self.open == ends_open(self.seen@)
    }

    pub fn new() -> (r: Counter)
        ensures
            r.wf(),
            r@ == Seq::<u8>::empty(),
    {
        Counter { newlines: 0, bytes: 0, open: false, seen: Ghost(Seq::empty()) }
    }

    /// Takes in the next chunk of the source.
    pub fn feed(&mut self, chunk: &[u8])
        requires
            old(self).wf(),
            old(self)@.len() + chunk@.len() <= u64::MAX,
        ensures
            final(self).wf(),
            final(self)@ == old(self)@ + chunk@,
    {
        let mut i: usize = 0;
        while i < chunk.len()
            invariant
                self.wf(),
                i <= chunk@.len(),
                self@ == old(self)@ + chunk@.subrange(0, i as int),
                old(self)@.len() + chunk@.len() <= u64::MAX,
            decreases chunk@.len() - i,
        {
            let b = chunk[i];
            proof {
                lemma_newlines_bound(self.seen@);
            }
            let ghost next = self.seen@.push(b);
            assert(next.drop_last() =~= self.seen@);
            self.bytes = self.bytes + 1;
            if b == NEWLINE {
                self.newlines = self.newlines + 1;
            }
            self.open = b != NEWLINE;
            self.seen = Ghost(next);
            assert(chunk@.subrange(0, i + 1) =~= chunk@.subrange(0, i as int).push(b));
            i = i + 1;
        }
        assert(chunk@.subrange(0, i as int) =~= chunk@);
    }

    /// The number of bytes fed so far.
    pub fn bytes(&self) -> (r: u64)
        requires
            self.wf(),
        ensures
            r == self@.len(),
    {
        self.bytes
    }

    /// The number of lines fed so far.
    pub fn lines(&self) -> (r: u64)
        requires
            self.wf(),
        ensures
            r == line_total(self@),
    {
        proof {
            lemma_newlines_bound(self.seen@);
        }
        if self.open {
            self.newlines + 1
        } else {
            self.newlines
        }
    }
}

/// The extracting pass: drops what its plan says and copies the rest.
pub struct Extractor {
    remaining: u64,
    plan: Plan,
    seen: Ghost<Seq<u8>>,
}

impl View for Extractor {
    type V = Seq<u8>;

    closed spec fn view(&self) -> Seq<u8> {
        self.seen@
    }
}

impl Extractor {
    pub closed spec fn wf(&self) -> bool {
        match self.plan {
            Plan::SkipLines(n) => self.remaining == sat_sub(n as nat, newlines(self.seen@)),
            Plan::SkipBytes(n) => self.remaining == sat_sub(n as nat, self.seen@.len()),
        }
    }

    pub closed spec fn plan(&self) -> Plan {
        self.plan
    }

    pub fn new(plan: Plan) -> (r: Extractor)
        ensures
            r.wf(),
            r.plan() == plan,
            r@ == Seq::<u8>::empty(),
    {
        let remaining = match plan {
            Plan::SkipLines(n) => n,
            Plan::SkipBytes(n) => n,
        };
        Extractor { remaining, plan, seen: Ghost(Seq::empty()) }
    }

    /// Takes in the next chunk of the source and returns what of it is emitted.
    /// The outputs of all calls, in order, are what the plan selects from the
    /// whole source.
    pub fn feed(&mut self, chunk: &[u8]) -> (out: Vec<u8>)
        requires
            old(self).wf(),
        ensures
            final(self).wf(),
            final(self).plan() == old(self).plan(),
            final(self)@ == old(self)@ + chunk@,
            apply(final(self).plan(), final(self)@) == apply(old(self).plan(), old(self)@) + out@,
    {
        let ghost before = self.seen@;
        match self.plan {
            Plan::SkipLines(n) => {
                let (start, rem) = scan_lines(chunk, self.remaining);
                proof {
                    lemma_newlines_concat(before, chunk@);
                    lemma_skip_lines_concat(before, chunk@, n as nat);
                    lemma_skip_lines_concat(before, Seq::<u8>::empty(), n as nat);
                    assert(before + Seq::<u8>::empty() =~= before);
                }
                self.remaining = rem;
                self.seen = Ghost(before + chunk@);
                let out = copy_from(chunk, start);
                assert(apply(self.plan, self.seen@) =~= apply(self.plan, before) + out@);
                out
            },
            Plan::SkipBytes(n) => {
                let start: usize = if self.remaining < chunk.len() as u64 {
                    self.remaining as usize
                } else {
                    chunk.len()
                };
                proof {
                    lemma_skip_bytes_concat(before, chunk@, n as nat);
                }
                self.remaining = self.remaining - start as u64;
                self.seen = Ghost(before + chunk@);
                let out = copy_from(chunk, start);
                assert(apply(self.plan, self.seen@) =~= apply(self.plan, before) + out@);
                out
            },
        }
    }
}

/// Appending one byte to `s` leaves exactly one line more than `s` has newlines.
pub proof fn lemma_push_line_total(s: Seq<u8>, b: u8)
    ensures
        newlines(s.push(b)) == newlines(s) + if b == NEWLINE {
            1nat
        } else {
            0nat
        },
        line_total(s.push(b)) == newlines(s) + 1,
{
    assert(s.push(b).drop_last() =~= s);
}

/// The line window always holds the source less some whole leading lines, at
/// most `count` lines, and exactly `count` once it has dropped any.
pub proof fn lemma_window_lines_shape(s: Seq<u8>, count: nat) -> (d: nat)
    requires
        count >= 1,
    ensures
        window_lines(s, count) == skip_lines(s, d),
        d <= newlines(s),
        line_total(window_lines(s, count)) <= count,
        d > 0 ==> line_total(window_lines(s, count)) == count,
    decreases s.len(),
{
    if s.len() == 0 {
        0
    } else {
        let t = s.drop_last();
        let b = s.last();
        let d0 = lemma_window_lines_shape(t, count);
        let w0 = window_lines(t, count);
        let w1 = w0.push(b);
        assert(t + seq![b] =~= s);
        assert(w0 + seq![b] =~= w1);
        lemma_newlines_concat(t, seq![b]);
        lemma_skip_lines_concat(t, seq![b], d0);
        lemma_push_line_total(w0, b);
        lemma_push_line_total(t, b);
        assert(t.push(b) =~= s);
        lemma_skip_lines_newlines(s, d0);
        if line_total(w1) > count {
            lemma_skip_lines_twice(s, d0, 1);
            lemma_skip_lines_total(w1, 1);
            d0 + 1
        } else {
            d0
        }
    }
}

/// The byte window holds the last `count` bytes fed to it.
pub proof fn lemma_window_bytes_content(s: Seq<u8>, count: nat)
    ensures
        window_bytes(s, count) == last_bytes(s, count),
    decreases s.len(),
{
    if s.len() == 0 {
        assert(last_bytes(s, count) =~= Seq::<u8>::empty());
    } else {
        let t = s.drop_last();
        lemma_window_bytes_content(t, count);
        let w1 = last_bytes(t, count).push(s.last());
        if count <= t.len() {
            assert(w1.drop_first() =~= last_bytes(s, count));
        } else {
            assert(w1 =~= last_bytes(s, count));
        }
    }
}

/// The line window selects what `LastLines(count)` names.
pub proof fn lemma_window_lines_content(s: Seq<u8>, count: nat)
    ensures
        window_lines(s, count) == skip_lines(s, sat_sub(line_total(s), count)),
{
    lemma_newlines_bound(s);
    if count == 0 {
        lemma_skip_lines_total(s, line_total(s));
        if s.len() > 0 {
            assert(window_lines(s, count) =~= Seq::<u8>::empty());
        }
        assert(skip_lines(s, line_total(s)) =~= Seq::<u8>::empty());
    } else {
        let d = lemma_window_lines_shape(s, count);
        lemma_skip_lines_total(s, d);
    }
}

/// A source too long for the totals to be counted is outside the engine's
/// reach; within it, the line total fits too.
pub proof fn lemma_line_total_bound(s: Seq<u8>)
    ensures
        line_total(s) <= s.len(),
{
    lemma_newlines_bound(s);
}

/// Removes the first line, its newline included, from the front of `buf`.
fn drop_first_line(buf: &mut VecDeque<u8>)
    ensures
        final(buf)@ == skip_lines(old(buf)@, 1),
{
    loop
        invariant_except_break
            skip_lines(old(buf)@, 1) == skip_lines(buf@, 1),
        ensures
            buf@ == skip_lines(old(buf)@, 1),
        decreases buf@.len(),
    {
        let ghost cur = buf@;
        match buf.pop_front() {
            None => {
                break ;
            },
            Some(x) => {
                assert(cur.drop_first() =~= buf@);
                if x == NEWLINE {
                    assert(skip_lines(cur, 1) == skip_lines(cur.drop_first(), 0));
                    break ;
                }
            },
        }
    }
}

/// The end-anchored mode of a unit and a count.
pub open spec fn last_mode(unit: Unit, count: u64) -> Mode {
    match unit {
        Unit::Lines => Mode::LastLines(count),
        Unit::Bytes => Mode::LastBytes(count),
    }
}

/// The bounded window for a source that can be read only once: it keeps the
/// last `count` lines or bytes seen, and nothing older.
pub struct Window {
    unit: Unit,
    count: u64,
    buf: VecDeque<u8>,
    buf_newlines: u64,
    seen: Ghost<Seq<u8>>,
}

impl View for Window {
    type V = Seq<u8>;

    closed spec fn view(&self) -> Seq<u8> {
        self.seen@
    }
}

impl Window {
    pub closed spec fn wf(&self) -> bool {
        match self.unit {
            Unit::Lines => {
                &&& self.buf@ == window_lines(self.seen@, self.count as nat)
                &&& self.buf_newlines == newlines(self.buf@)
            },
            Unit::Bytes => self.buf@ == window_bytes(self.seen@, self.count as nat),
        }
    }

    /// The mode this window answers.
    pub closed spec fn mode(&self) -> Mode {
        last_mode(self.unit, self.count)
    }

    pub fn new(unit: Unit, count: u64) -> (r: Window)
        ensures
            r.wf(),
            r.mode() == last_mode(unit, count),
            r@ == Seq::<u8>::empty(),
    {
        Window { unit, count, buf: VecDeque::new(), buf_newlines: 0, seen: Ghost(Seq::empty()) }
    }

    fn push_byte(&mut self, b: u8)
        requires
            old(self).wf(),
        ensures
            final(self).wf(),
            final(self).mode() == old(self).mode(),
            final(self)@ == old(self)@.push(b),
    {
        let ghost next = self.seen@.push(b);
        assert(next.drop_last() =~= self.seen@);
        match self.unit {
            Unit::Lines => {
                if self.count == 0 {
                    self.seen = Ghost(next);
                    return ;
                }
                let ghost w1 = self.buf@.push(b);
                proof {
                    lemma_push_line_total(self.buf@, b);
                }
                let over = self.buf_newlines >= self.count;
                self.buf.push_back(b);
                if over {
                    proof {
                        lemma_skip_lines_newlines(w1, 1);
                    }
                    drop_first_line(&mut self.buf);
                    if b != NEWLINE {
                        self.buf_newlines = self.buf_newlines - 1;
                    }
                } else if b == NEWLINE {
                    self.buf_newlines = self.buf_newlines + 1;
                }
            },
            Unit::Bytes => {
                let over = self.buf.len() as u64 >= self.count;
                self.buf.push_back(b);
                if over {
                    let ghost w1 = self.buf@;
                    let _ = self.buf.pop_front();
                    assert(w1.drop_first() =~= self.buf@);
                }
            },
        }
        self.seen = Ghost(next);
    }

    /// Takes in the next chunk of the source.
    pub fn feed(&mut self, chunk: &[u8])
        requires
            old(self).wf(),
        ensures
            final(self).wf(),
            final(self).mode() == old(self).mode(),
            final(self)@ == old(self)@ + chunk@,
    {
        let mut i: usize = 0;
        while i < chunk.len()
            invariant
                self.wf(),
                self.mode() == old(self).mode(),
                i <= chunk@.len(),
                self@ == old(self)@ + chunk@.subrange(0, i as int),
            decreases chunk@.len() - i,
        {
            self.push_byte(chunk[i]);
            assert(chunk@.subrange(0, i + 1) =~= chunk@.subrange(0, i as int).push(chunk@[i as int]));
            i = i + 1;
        }
        assert(chunk@.subrange(0, i as int) =~= chunk@);
    }

    /// What the window holds: the selection of its mode from all it was fed.
    pub fn contents(&self) -> (r: Vec<u8>)
        requires
            self.wf(),
        ensures
            r@ == single_pass(self.mode(), self@),
            r@ == select(self.mode(), self@),
    {
        let mut r: Vec<u8> = Vec::new();
        let mut i: usize = 0;
        while i < self.buf.len()
            invariant
                i <= self.buf@.len(),
                r@ == self.buf@.subrange(0, i as int),
            decreases self.buf@.len() - i,
        {
            r.push(self.buf[i]);
            i = i + 1;
            assert(r@ =~= self.buf@.subrange(0, i as int));
        }
        assert(r@ =~= self.buf@);
        proof {
            lemma_window_lines_content(self.seen@, self.count as nat);
            lemma_window_bytes_content(self.seen@, self.count as nat);
        }
        r
    }
}

/// The counting pass over a whole source: its line and byte totals.
pub fn count_lines_and_bytes(data: &[u8]) -> (r: (u64, u64))
    ensures
        r.0 == line_total(data@),
        r.1 == data@.len(),
{
    let _ = data.len();
    let mut counter = Counter::new();
    assert(Seq::<u8>::empty() + data@ =~= data@);
    counter.feed(data);
    (counter.lines(), counter.bytes())
}

/// The engine on a source that can be read twice: a counting pass where the
/// mode needs the totals, then the extracting pass.
pub fn extract(data: &[u8], mode: Mode) -> (r: Vec<u8>)
    ensures
        r@ == select(mode, data@),
        r@ == two_pass(mode, data@),
{
    let (lines, bytes) = if mode.needs_totals() {
        count_lines_and_bytes(data)
    } else {
        (0, 0)
    };
    let plan = mode.plan(lines, bytes);
    let mut extractor = Extractor::new(plan);
    let out = extractor.feed(data);
    proof {
        assert(Seq::<u8>::empty() + data@ =~= data@);
        assert(apply(plan, Seq::<u8>::empty()) =~= Seq::<u8>::empty());
        assert(apply(plan, Seq::<u8>::empty()) + out@ =~= out@);
        lemma_plan_selects(mode, data@, lines, bytes);
    }
    out
}

/// The engine on a source that can be read only once: the bounded window for
/// the end-anchored modes, the forward scan for the others.
pub fn extract_single_pass(data: &[u8], mode: Mode) -> (r: Vec<u8>)
    ensures
        r@ == select(mode, data@),
        r@ == single_pass(mode, data@),
{
    assert(Seq::<u8>::empty() + data@ =~= data@);
    match mode {
        Mode::LastLines(count) => {
            let mut window = Window::new(Unit::Lines, count);
            window.feed(data);
            window.contents()
        },
        Mode::LastBytes(count) => {
            let mut window = Window::new(Unit::Bytes, count);
            window.feed(data);
            window.contents()
        },
        _ => {
            let plan = mode.plan(0, 0);
            let mut extractor = Extractor::new(plan);
            let out = extractor.feed(data);
            proof {
                assert(apply(plan, Seq::<u8>::empty()) =~= Seq::<u8>::empty());
                assert(apply(plan, Seq::<u8>::empty()) + out@ =~= out@);
                lemma_plan_selects(mode, data@, 0, 0);
            }
            out
        },
    }
}

/// `LastLines(count)` emits the final `min(count, L)` lines of a source of `L`
/// lines, in their order: what is left once the first `L - min(count, L)` lines
/// are dropped, a suffix of the source.
pub proof fn law_last_lines(s: Seq<u8>, count: u64)
    ensures
        ({
            let out = select(Mode::LastLines(count), s);
            let n = if count as nat <= line_total(s) {
                count as nat
            } else {
                line_total(s)
            };
            &&& line_total(out) == n
            &&& out == skip_lines(s, (line_total(s) - n) as nat)
            &&& out.len() <= s.len()
            &&& out == s.subrange(s.len() - out.len(), s.len() as int)
        }),
{
    let k = sat_sub(line_total(s), count as nat);
    lemma_skip_lines_total(s, k);
    crate::lines::lemma_skip_lines_suffix(s, k);
}

/// `LastBytes(count)` emits the final `min(count, B)` bytes of a source of `B`
/// bytes, byte for byte.
pub proof fn law_last_bytes(s: Seq<u8>, count: u64)
    ensures
        ({
            let out = select(Mode::LastBytes(count), s);
            let n = if count as nat <= s.len() {
                count as nat
            } else {
                s.len()
            };
            &&& out.len() == n
            &&& out == s.subrange(s.len() - n, s.len() as int)
        }),
{
    assert(s.subrange(0, s.len() as int) =~= s);
}

/// `FromLine(0)` and `FromLine(1)` emit the whole source; a start past the
/// last line emits nothing.
pub proof fn law_from_line(s: Seq<u8>, start: u64)
    ensures
        select(Mode::FromLine(0), s) == s,
        select(Mode::FromLine(1), s) == s,
        start as nat > line_total(s) ==> select(Mode::FromLine(start), s).len() == 0,
{
    lemma_skip_lines_total(s, sat_sub(start as nat, 1));
}

/// `FromByte(0)` and `FromByte(1)` emit the whole source; a start past the
/// last byte emits nothing.
pub proof fn law_from_byte(s: Seq<u8>, start: u64)
    ensures
        select(Mode::FromByte(0), s) == s,
        select(Mode::FromByte(1), s) == s,
        start as nat > s.len() ==> select(Mode::FromByte(start), s).len() == 0,
{
    assert(s.subrange(0, s.len() as int) =~= s);
}

/// The two-pass engine selects what the mode names, on any source whose
/// totals fit its counters.
pub proof fn law_two_pass_selects(mode: Mode, s: Seq<u8>)
    requires
        s.len() <= u64::MAX,
    ensures
        two_pass(mode, s) == select(mode, s),
{
    lemma_line_total_bound(s);
    lemma_plan_selects(mode, s, line_total(s) as u64, s.len() as u64);
}

/// Running the two-pass engine again on an unchanged source, with the same
/// mode, gives the same bytes: its output depends on the content alone.
pub proof fn law_rerun_same_output(mode: Mode, first: Seq<u8>, second: Seq<u8>)
    requires
        first == second,
        first.len() <= u64::MAX,
    ensures
        two_pass(mode, first) == two_pass(mode, second),
        two_pass(mode, first) == select(mode, first),
{
    law_two_pass_selects(mode, first);
}

/// The single-pass algorithm, with its bounded window, emits what the two-pass
/// algorithm emits from the same content.
pub proof fn law_single_pass_matches_two_pass(mode: Mode, s: Seq<u8>)
    requires
        s.len() <= u64::MAX,
    ensures
        single_pass(mode, s) == two_pass(mode, s),
{
    law_two_pass_selects(mode, s);
    match mode {
        Mode::LastLines(count) => lemma_window_lines_content(s, count as nat),
        Mode::LastBytes(count) => lemma_window_bytes_content(s, count as nat),
        _ => lemma_plan_selects(mode, s, 0, 0),
    }
}

/// How one source is processed.
#[derive(Clone, Copy, Debug, PartialEq, Eq, Structural)]
pub enum Strategy {
    /// A counting pass, then an extracting pass over the source read again.
    CountThenExtract,
    /// One pass through the bounded window.
    Window,
    /// One extracting pass; no totals are needed.
    Extract,
}

/// Chooses the passes for a mode over a source that can, or cannot, be read
/// a second time.
pub fn strategy(mode: Mode, reopenable: bool) -> (r: Strategy)
    ensures
        anchored_at_end(mode) && reopenable ==> r == Strategy::CountThenExtract,
        anchored_at_end(mode) && !reopenable ==> r == Strategy::Window,
        !anchored_at_end(mode) ==> r == Strategy::Extract,
{
    if mode.needs_totals() {
        if reopenable {
            Strategy::CountThenExtract
        } else {
            Strategy::Window
        }
    } else {
        Strategy::Extract
    }
}

/// Whether each source's output is preceded by a header naming it: only for
/// several sources, and not when asked to be quiet.
pub fn shows_headers(quiet: bool, sources: usize) -> (r: bool)
    ensures
        r == (!quiet && sources > 1),
{
    !quiet && sources > 1
}

/// Whether a blank line follows the output of the source at `index`: between
/// sources when headers are shown, never after the last.
pub fn separator_after(index: usize, sources: usize, headers: bool) -> (r: bool)
    ensures
        r == (headers && index + 1 < sources),
{
    headers && index < sources && sources - index > 1
}

/// The header line that names a source, without its line end.
pub fn header(name: &str) -> (r: String)
    ensures
        r@ == "==> "@ + name@ + " <=="@,
{
    let mut s = String::new();
    s.append("==> ");
    s.append(name);
    s.append(" <==");
    assert(s@ =~= "==> "@ + name@ + " <=="@);
    s
}

} // verus!

//! Passive scanner for OSC 133 "semantic prompt" marks in a terminal's byte stream.
//!
//! Shells bracket their prompts and commands with `OSC 133 ; A/B/C/D[;args] ST` (prompt start,
//! command start, execution start, and command end with exit code). The scanner never consumes or
//! alters bytes, it only watches, and reports finished commands' exit codes. `D` is only reported
//! when a `C` (execution start) preceded it, so shell startup and empty prompts do not count as
//! commands.

use crate::text;
use crate::text::{chars_of, read_i32, trimmed, utf8_text};
use vstd::prelude::*;
use vstd::slice::*;
use vstd::utf8::*;

verus! {

/// Longest OSC payload we bother buffering. `133;…` marks are tiny; anything bigger (clipboard
/// blobs, title strings) is skipped without storing.
pub const CAP: usize = 64;

#[derive(Debug, Clone, Copy, PartialEq, Eq, Structural)]
pub enum State {
    Ground,
    /// Saw ESC; `]` opens an OSC.
    Esc,
    /// Inside an OSC, collecting the payload.
    Osc,
    /// Saw ESC inside an OSC; `\` (making ST) terminates it.
    OscEsc,
}

#[derive(Debug, PartialEq, Eq)]
pub struct Scanner {
    state: State,
    buf: Vec<u8>,
    /// Payload outgrew `CAP`: keep tracking the sequence to its end, but do not parse it.
    overflow: bool,
    /// A `133;C` was seen since the last `133;D`: a command is actually running.
    executing: bool,
}

/// What a scanner remembers between bytes.
pub struct Scan {
    pub state: State,
    pub buf: Seq<u8>,
    pub overflow: bool,
    pub executing: bool,
}

/// What the front of an OSC payload says about the running command.
pub enum Mark {
    /// Execution started.
    Start,
    /// A new prompt: the previous command is over.
    Prompt,
    /// A command ended; the rest of the payload carries its exit code.
    End(Seq<u8>),
    Other,
}

/// Read an OSC payload as a mark.
pub open spec fn mark_of(p: Seq<u8>) -> Mark {
    if p.len() > 4 && p.take(4) == seq![0x31u8, 0x33, 0x33, 0x3b] {
        if p[4] == 0x43 {
            Mark::Start
        } else if p[4] == 0x41 {
            Mark::Prompt
        } else if p[4] == 0x44 {
            Mark::End(p.skip(5))
        } else {
            Mark::Other
        }
    } else {
        Mark::Other
    }
}

/// The bytes of `s` up to the first semicolon.
pub open spec fn first_field(s: Seq<u8>) -> Seq<u8>
    decreases s.len(),
{
    if s.len() == 0 || s[0] == 0x3b {
        seq![]
    } else {
        seq![s[0]] + first_field(s.skip(1))
    }
}

/// The exit code after `133;D`: empty or malformed reads as 0. Only the first field counts, since
/// some integrations append parameters that must not spoil the number.
pub open spec fn exit_code(rest: Seq<u8>) -> int {
    if rest.len() > 0 && rest[0] == 0x3b && valid_utf8(first_field(rest.skip(1))) {
        match text::parse_i32(text::trim(decode_utf8(first_field(rest.skip(1))))) {
            Some(n) => n,
            None => 0,
        }
    } else {
        0
    }
}

/// A complete payload has been collected: the new state, and the exit code it reports, if any.
pub open spec fn finished(v: Scan) -> (Scan, Option<int>) {
    let idle = Scan { state: State::Ground, ..v };
    if v.overflow {
        (idle, None)
    } else {
        match mark_of(v.buf) {
            Mark::Start => (Scan { executing: true, ..idle }, None),
            Mark::Prompt => (Scan { executing: false, ..idle }, None),
            Mark::End(rest) if v.executing => (
                Scan { executing: false, ..idle },
                Some(exit_code(rest)),
            ),
            _ => (idle, None),
        }
    }
}

/// The byte after an ESC.
pub open spec fn after_esc(v: Scan, b: u8) -> Scan {
    if b == 0x5d {
        Scan { state: State::Osc, buf: seq![], overflow: false, ..v }
    } else if b == 0x1b {
        Scan { state: State::Esc, ..v }
    } else {
        Scan { state: State::Ground, ..v }
    }
}

/// One byte of the stream: the new state, and the exit code it reports, if any.
pub open spec fn step(v: Scan, b: u8) -> (Scan, Option<int>) {
    match v.state {
        State::Ground => {
            if b == 0x1b {
                (Scan { state: State::Esc, ..v }, None)
            } else {
                (v, None)
            }
        },
        State::Esc => (after_esc(v, b), None),
        State::Osc => {
            if b == 0x07 {
                finished(v)
            } else if b == 0x1b {
                (Scan { state: State::OscEsc, ..v }, None)
            } else if v.buf.len() < CAP {
                (Scan { buf: v.buf.push(b), ..v }, None)
            } else {
                (Scan { overflow: true, ..v }, None)
            }
        },
        State::OscEsc => {
            if b == 0x5c {
                finished(v)
            } else {
                (after_esc(v, b), None)
            }
        },
    }
}

/// A scanner that has seen nothing.
pub open spec fn fresh() -> Scan {
    Scan { state: State::Ground, buf: seq![], overflow: false, executing: false }
}

/// A stretch of the stream: the state after it, and the exit codes it reports, oldest first.
pub open spec fn run(v: Scan, s: Seq<u8>) -> (Scan, Seq<int>)
    decreases s.len(),
{
    if s.len() == 0 {
        (v, seq![])
    } else {
        let (w, codes) = run(v, s.drop_last());
        let (x, code) = step(w, s.last());
        match code {
            Some(c) => (x, codes.push(c)),
            None => (x, codes),
        }
    }
}

/// Exit codes as the numbers they are.
pub open spec fn codes(done: Seq<i32>) -> Seq<int> {
    done.map_values(|c: i32| c as int)
}

impl View for Scanner {
    type V = Scan;

    closed spec fn view(&self) -> Scan {
        Scan {
            state: self.state,
            buf: self.buf@,
            overflow: self.overflow,
            executing: self.executing,
        }
    }
}

impl Default for Scanner {
    fn default() -> (s: Scanner)
        ensures
            s@ == fresh(),
    {
        Scanner { state: State::Ground, buf: Vec::new(), overflow: false, executing: false }
    }
}

impl Scanner {
    /// Watch a chunk of output (sequences may span chunks). Returns the exit codes of any commands
    /// that finished in this chunk, oldest first.
    pub fn scan(&mut self, bytes: &[u8]) -> (done: Vec<i32>)
        ensures
            (final(self)@, codes(done@)) == run(old(self)@, bytes@),
    {
        let mut done: Vec<i32> = Vec::new();
        let mut i: usize = 0;
        assert(bytes@.take(0) =~= seq![]);
        assert(codes(done@) =~= seq![]);
        while i < bytes.len()
            invariant
                i <= bytes.len(),
                (self@, codes(done@)) == run(old(self)@, bytes@.take(i as int)),
            decreases bytes.len() - i,
        {
            let b: u8 = bytes[i];
            let ghost before = self@;
            let ghost so_far = done@;
            assert(bytes@.take(i + 1).drop_last() =~= bytes@.take(i as int));
            match self.state {
                State::Ground => {
                    if b == 0x1b {
                        self.state = State::Esc;
                    }
                },
                State::Esc => {
                    self.dispatch_after_esc(b);
                },
                State::Osc => {
                    if b == 0x07 {
                        self.finish(&mut done);
                    } else if b == 0x1b {
                        self.state = State::OscEsc;
                    } else if self.buf.len() < CAP {
                        self.buf.push(b);
                    } else {
                        self.overflow = true;
                    }
                },
                State::OscEsc => {
                    if b == 0x5c {
                        self.finish(&mut done);
                    } else {
                        // Not an ST: the OSC was aborted mid-sequence. The ESC we swallowed starts
                        // something new; this byte follows it.
                        self.dispatch_after_esc(b);
                    }
                },
            }
            i = i + 1;
        }
        assert(bytes@.take(i as int) =~= bytes@);
        done
    }

    fn dispatch_after_esc(&mut self, b: u8)
        ensures
            final(self)@ == after_esc(old(self)@, b),
    {
        if b == 0x5d {
            self.buf.clear();
            self.overflow = false;
            self.state = State::Osc;
        } else if b == 0x1b {
            self.state = State::Esc;
        } else {
            self.state = State::Ground;
        }
    }

    /// A complete OSC payload is in `buf`: react if it is a 133 mark.
    fn finish(&mut self, done: &mut Vec<i32>)
        ensures
            ({
                let (w, code) = finished(old(self)@);
                &&& final(self)@ == w
                &&& codes(final(done)@) == match code {
                    Some(c) => codes(old(done)@).push(c),
                    None => codes(old(done)@),
                }
            }),
    {
        self.state = State::Ground;
        if self.overflow || self.buf.len() <= 4 {
            return;
        }
        if self.buf[0] == 0x31 && self.buf[1] == 0x33 && self.buf[2] == 0x33 && self.buf[3]
            == 0x3b {
            assert(self.buf@.take(4) =~= seq![0x31u8, 0x33, 0x33, 0x3b]);
            let kind: u8 = self.buf[4];
            if kind == 0x43 {
                self.executing = true;
            } else if kind == 0x41 {
                self.executing = false;
            } else if kind == 0x44 && self.executing {
                self.executing = false;
                let all = self.buf.as_slice();
                let code: i32 = parse_code(slice_subrange(all, 5, all.len()));
                assert(self.buf@.subrange(5, self.buf@.len() as int) =~= self.buf@.skip(5));
                done.push(code);
                assert(codes(done@) =~= codes(old(done)@).push(code as int));
            }
        } else {
            assert(self.buf@.take(4) != seq![0x31u8, 0x33, 0x33, 0x3b]) by {
                if self.buf@.take(4) == seq![0x31u8, 0x33, 0x33, 0x3b] {
                    assert(self.buf@.take(4)[0] == 0x31);
                    assert(self.buf@.take(4)[1] == 0x33);
                    assert(self.buf@.take(4)[2] == 0x33);
                    assert(self.buf@.take(4)[3] == 0x3b);
                }
            }
        }
    }
}

fn parse_code(rest: &[u8]) -> (code: i32)
    ensures
        code == exit_code(rest@),
{
    if rest.len() == 0 || rest[0] != 0x3b {
        return 0;
    }
    let args = slice_subrange(rest, 1, rest.len());
    assert(args@ =~= rest@.skip(1));
    let mut n: usize = 0;
    assert(args@.take(0) + first_field(args@.skip(0)) =~= first_field(args@)) by {
        assert(args@.skip(0) =~= args@);
    }
    while n < args.len() && args[n] != 0x3b
        invariant
            n <= args.len(),
            args@.take(n as int) + first_field(args@.skip(n as int)) == first_field(args@),
        decreases args.len() - n,
    {
        assert(args@.skip(n as int).skip(1) =~= args@.skip(n + 1));
        assert(args@.take(n as int) + (seq![args@[n as int]] + first_field(args@.skip(n + 1)))
            =~= args@.take(n + 1) + first_field(args@.skip(n + 1)));
        n = n + 1;
    }
    assert(args@.take(n as int) + Seq::<u8>::empty() =~= args@.take(n as int));
    let first = slice_subrange(args, 0, n);
    assert(first@ =~= first_field(args@));
    match utf8_text(first) {
        Some(s) => {
            let cs = chars_of(s.as_str());
            match read_i32(trimmed(cs.as_slice())) {
                Some(code) => code,
                None => 0,
            }
        },
        None => 0,
    }
}

/// How the stream is cut into chunks does not matter: scanning `s` and then `t` reports what
/// scanning both at once does, and ends in the same state.
pub proof fn chunks_do_not_matter(v: Scan, s: Seq<u8>, t: Seq<u8>)
    ensures
        run(v, s + t).0 == run(run(v, s).0, t).0,
        run(v, s + t).1 == run(v, s).1 + run(run(v, s).0, t).1,
    decreases t.len(),
{
    if t.len() == 0 {
        assert(s + t =~= s);
        assert(run(v, s).1 + seq![] =~= run(v, s).1);
    } else {
        chunks_do_not_matter(v, s, t.drop_last());
        assert((s + t).drop_last() =~= s + t.drop_last());
        assert(run(v, s + t).1 =~= run(v, s).1 + run(run(v, s).0, t).1);
    }
}

/// Bytes outside any sequence report nothing and leave the scanner as it was.
pub proof fn plain_output_is_ignored(v: Scan, s: Seq<u8>)
    requires
        v.state == State::Ground,
        !s.contains(0x1b),
    ensures
        run(v, s) == (v, Seq::<int>::empty()),
    decreases s.len(),
{
    if s.len() > 0 {
        assert(s.last() == s[s.len() - 1]);
        assert forall|i: int| 0 <= i < s.drop_last().len() implies s.drop_last()[i] != 0x1b by {
            assert(s.drop_last()[i] == s[i]);
        }
        plain_output_is_ignored(v, s.drop_last());
    }
}

/// Collecting a payload: as far as it fits it is stored, and more than fits marks it as too long.
proof fn lemma_collect(v: Scan, p: Seq<u8>)
    requires
        v.state == State::Osc,
        v.buf.len() == 0,
        !v.overflow,
        !p.contains(0x07),
        !p.contains(0x1b),
    ensures
        run(v, p).1 == Seq::<int>::empty(),
        run(v, p).0.state == State::Osc,
        run(v, p).0.executing == v.executing,
        run(v, p).0.overflow == (p.len() > CAP),
        p.len() <= CAP ==> run(v, p).0.buf == p,
        p.len() > CAP ==> run(v, p).0.buf.len() == CAP,
    decreases p.len(),
{
    if p.len() > 0 {
        let q = p.drop_last();
        assert(p.last() == p[p.len() - 1]);
        assert forall|i: int| 0 <= i < q.len() implies q[i] != 0x07 && q[i] != 0x1b by {
            assert(q[i] == p[i]);
        }
        lemma_collect(v, q);
        if p.len() <= CAP {
            assert(q.push(p.last()) =~= p);
        }
    } else {
        assert(v.buf =~= p);
    }
}

/// The whole life of one OSC sequence, ended by BEL or by ST: the scanner is back where it was,
/// having read the payload as a mark if it fits, and having ignored it if it does not.
pub proof fn complete_sequence(v: Scan, p: Seq<u8>, end: Seq<u8>)
    requires
        v.state == State::Ground || v.state == State::Esc,
        !p.contains(0x07),
        !p.contains(0x1b),
        end == seq![0x07u8] || end == seq![0x1bu8, 0x5c],
    ensures
        ({
            let (w, codes) = run(v, seq![0x1bu8, 0x5d] + p + end);
            let got = Scan { state: State::Osc, buf: p, overflow: p.len() > CAP, ..v };
            &&& w.state == State::Ground
            &&& w.executing == finished(got).0.executing
            &&& codes == match finished(got).1 {
                Some(c) => seq![c],
                None => Seq::<int>::empty(),
            }
        }),
{
    let open = seq![0x1bu8, 0x5d];
    reveal_with_fuel(run, 3);
    assert(open.drop_last() =~= seq![0x1bu8]);
    assert(open.drop_last().drop_last() =~= seq![]);
    let opened = run(v, open).0;
    assert(run(v, open).1 =~= seq![]);
    assert(opened == Scan { state: State::Osc, buf: seq![], overflow: false, ..v });
    lemma_collect(opened, p);
    chunks_do_not_matter(v, open, p);
    chunks_do_not_matter(v, open + p, end);
    let w = run(v, open + p).0;
    assert(run(v, open + p).1 =~= seq![]);
    if end == seq![0x07u8] {
        assert(end.drop_last() =~= seq![]);
    } else {
        assert(end.drop_last() =~= seq![0x1bu8]);
        assert(end.drop_last().drop_last() =~= seq![]);
    }
    assert(run(v, open + p + end).1 =~= run(w, end).1);
}

/// A payload is being sent at the end of a stream: the sequence was opened at `i`, and nothing
/// has ended or aborted it.
pub open spec fn open_at(s: Seq<u8>, i: int) -> bool {
    &&& 0 <= i
    &&& i + 2 <= s.len()
    &&& s[i] == 0x1b
    &&& s[i + 1] == 0x5d
    &&& forall|k: int| i + 2 <= k < s.len() ==> s[k] != 0x07 && s[k] != 0x1b
}

/// A whole sequence stands at the end of a stream: `ESC ]` at `i`, a payload free of ESC and BEL,
/// and BEL or ST.
pub open spec fn sequence_at(s: Seq<u8>, i: int) -> bool {
    ||| s.len() >= 1 && s.last() == 0x07 && open_at(s.drop_last(), i)
    ||| s.len() >= 2 && s.last() == 0x5c && s[s.len() - 2] == 0x1b && open_at(
        s.drop_last().drop_last(),
        i,
    )
}

/// The payload of the sequence at the end of a stream that was opened at `i`.
pub open spec fn payload_at(s: Seq<u8>, i: int) -> Seq<u8> {
    s.subrange(
        i + 2,
        if s.last() == 0x07 {
            s.len() - 1
        } else {
            s.len() - 2
        },
    )
}

/// The mark that a stream ends with. A payload that is too long is no mark.
pub open spec fn last_mark(s: Seq<u8>) -> Mark {
    if exists|i: int| sequence_at(s, i) {
        let p = payload_at(s, choose|i: int| sequence_at(s, i));
        if p.len() <= CAP {
            mark_of(p)
        } else {
            Mark::Other
        }
    } else {
        Mark::Other
    }
}

/// Whether the last mark of a stream says that a command started.
pub open spec fn command_runs(s: Seq<u8>) -> bool {
    exists|k: int| #[trigger] started_at(s, k)
}

/// The last mark of a stream ends at `k`, and says that a command started.
pub open spec fn started_at(s: Seq<u8>, k: int) -> bool {
    &&& 0 <= k <= s.len()
    &&& last_mark(s.take(k)) is Start
    &&& forall|j: int| k < j <= s.len() ==> last_mark(#[trigger] s.take(j)) is Other
}

/// The exit codes that a whole stream tells of: one for each end mark whose nearest earlier mark
/// is a start, in order.
pub open spec fn told(s: Seq<u8>) -> Seq<int>
    decreases s.len(),
{
    if s.len() == 0 {
        seq![]
    } else {
        match last_mark(s) {
            Mark::End(rest) if command_runs(s.drop_last()) => told(s.drop_last()).push(
                exit_code(rest),
            ),
            _ => told(s.drop_last()),
        }
    }
}

/// What a scanner holds of a payload.
spec fn holds(v: Scan, p: Seq<u8>) -> bool {
    &&& v.overflow == (p.len() > CAP)
    &&& p.len() <= CAP ==> v.buf == p
    &&& p.len() > CAP ==> v.buf.len() == CAP
}

/// How a scanner stands to the stream that it has seen.
spec fn tracks(v: Scan, s: Seq<u8>) -> bool {
    &&& (v.state == State::Esc || v.state == State::OscEsc) == (s.len() > 0 && s.last() == 0x1b)
    &&& (v.state == State::Osc) == (exists|i: int| open_at(s, i))
    &&& forall|i: int| open_at(s, i) ==> holds(v, #[trigger] s.skip(i + 2))
    &&& (v.state == State::OscEsc) == (s.len() > 0 && s.last() == 0x1b && exists|i: int|
        open_at(s.drop_last(), i))
    &&& v.state == State::OscEsc ==> forall|i: int|
        open_at(s.drop_last(), i) ==> holds(v, #[trigger] s.drop_last().skip(i + 2))
    &&& v.executing == command_runs(s)
}

proof fn lemma_one_opening(s: Seq<u8>, i: int, j: int)
    requires
        open_at(s, i),
        open_at(s, j),
    ensures
        i == j,
{
    if i < j {
        assert(s[j] == 0x1b);
        assert(s[i + 1] == 0x5d);
    } else if j < i {
        assert(s[i] == 0x1b);
        assert(s[j + 1] == 0x5d);
    }
}

proof fn lemma_last_mark(s: Seq<u8>, i: int)
    requires
        sequence_at(s, i),
    ensures
        last_mark(s) == (if payload_at(s, i).len() <= CAP {
            mark_of(payload_at(s, i))
        } else {
            Mark::Other
        }),
{
    let j = choose|j: int| sequence_at(s, j);
    if s.last() == 0x07 {
        lemma_one_opening(s.drop_last(), i, j);
    } else {
        lemma_one_opening(s.drop_last().drop_last(), i, j);
    }
}

proof fn lemma_command_runs(s: Seq<u8>)
    requires
        s.len() > 0,
    ensures
        command_runs(s) == (match last_mark(s) {
            Mark::Start => true,
            Mark::Other => command_runs(s.drop_last()),
            _ => false,
        }),
{
    let t = s.drop_last();
    let n = s.len() as int;
    assert(s.take(n) =~= s);
    assert forall|k: int| 0 <= k <= t.len() implies #[trigger] t.take(k) == s.take(k) by {
        assert(t.take(k) =~= s.take(k));
    }
    if last_mark(s) is Start {
        assert(started_at(s, n));
    }
    if command_runs(s) {
        let k = choose|k: int| started_at(s, k);
        if k < n {
            assert(last_mark(s.take(n)) is Other);
            assert forall|j: int| k < j <= t.len() implies last_mark(
                #[trigger] t.take(j),
            ) is Other by {
                assert(t.take(j) == s.take(j));
            }
            assert(t.take(k) == s.take(k));
            assert(started_at(t, k));
        }
    }
    if last_mark(s) is Other && command_runs(t) {
        let k = choose|k: int| started_at(t, k);
        assert(s.take(k) == t.take(k));
        assert forall|j: int| k < j <= s.len() implies last_mark(#[trigger] s.take(j)) is Other by {
            if j < n {
                assert(t.take(j) == s.take(j));
            }
        }
        assert(started_at(s, k));
    }
}

proof fn lemma_open_push(t: Seq<u8>, b: u8, i: int)
    ensures
        open_at(t.push(b), i) == (i + 1 == t.len() && 0 <= i && t[i] == 0x1b && b == 0x5d || b
            != 0x07 && b != 0x1b && open_at(t, i)),
        b != 0x07 && b != 0x1b && open_at(t, i) ==> t.push(b).skip(i + 2) == t.skip(i + 2).push(b),
{
    let s = t.push(b);
    if open_at(s, i) && i + 1 != t.len() {
        assert(s[t.len() as int] == b);
        assert forall|k: int| i + 2 <= k < t.len() implies t[k] != 0x07 && t[k] != 0x1b by {
            assert(s[k] == t[k]);
        }
        assert(t[i] == s[i] && t[i + 1] == s[i + 1]);
        assert(open_at(t, i));
    }
    if b != 0x07 && b != 0x1b && open_at(t, i) {
        assert(s[i] == t[i] && s[i + 1] == t[i + 1]);
        assert(open_at(s, i));
        assert(s.skip(i + 2) =~= t.skip(i + 2).push(b));
    }
}

/// The sequence that ends with a byte, as the scanner finishes it.
proof fn lemma_ends(v: Scan, t: Seq<u8>, b: u8)
    requires
        tracks(v, t),
    ensures
        v.state == State::Osc && b == 0x07 || v.state == State::OscEsc && b == 0x5c ==> ({
            &&& last_mark(t.push(b)) == if v.overflow {
                Mark::Other
            } else {
                mark_of(v.buf)
            }
        }),
        !(v.state == State::Osc && b == 0x07) && !(v.state == State::OscEsc && b == 0x5c)
            ==> last_mark(t.push(b)) is Other,
{
    let s = t.push(b);
    assert(s.drop_last() =~= t);
    assert(s.last() == b);
    if v.state == State::Osc && b == 0x07 {
        let i = choose|i: int| open_at(t, i);
        assert(sequence_at(s, i));
        lemma_last_mark(s, i);
        assert(payload_at(s, i) =~= t.skip(i + 2));
        assert(holds(v, t.skip(i + 2)));
    } else if v.state == State::OscEsc && b == 0x5c {
        let u = t.drop_last();
        let i = choose|i: int| open_at(u, i);
        assert(s[s.len() - 2] == t.last());
        assert(s.drop_last().drop_last() =~= u);
        assert(sequence_at(s, i));
        lemma_last_mark(s, i);
        assert(payload_at(s, i) =~= u.skip(i + 2));
        assert(holds(v, u.skip(i + 2)));
    } else if exists|i: int| sequence_at(s, i) {
        let i = choose|i: int| sequence_at(s, i);
        if b == 0x07 {
            assert(open_at(t, i));
        } else {
            assert(s[s.len() - 2] == t.last());
            assert(open_at(t.drop_last(), i));
        }
    }
}

proof fn lemma_tracks_open(v: Scan, t: Seq<u8>, b: u8)
    requires
        tracks(v, t),
    ensures
        ({
            let w = step(v, b).0;
            let s = t.push(b);
            &&& (w.state == State::Osc) == (exists|i: int| open_at(s, i))
            &&& forall|i: int| open_at(s, i) ==> holds(w, #[trigger] s.skip(i + 2))
        }),
{
    let w = step(v, b).0;
    let s = t.push(b);
    if w.state == State::Osc {
        if v.state == State::Osc {
            let i = choose|i: int| open_at(t, i);
            lemma_open_push(t, b, i);
            assert(open_at(s, i));
        } else {
            let i = t.len() - 1;
            lemma_open_push(t, b, i);
            assert(open_at(s, i));
        }
    }
    assert forall|i: int| open_at(s, i) implies holds(w, #[trigger] s.skip(i + 2)) && w.state
        == State::Osc by {
        lemma_open_push(t, b, i);
        if i + 1 == t.len() {
            assert(t.last() == t[i]);
            assert(s.skip(i + 2) =~= seq![]);
        } else {
            assert(holds(v, t.skip(i + 2)));
            let p = t.skip(i + 2);
            assert(s.skip(i + 2) == p.push(b));
        }
    }
    if exists|i: int| open_at(s, i) {
        let i = choose|i: int| open_at(s, i);
        assert(holds(w, s.skip(i + 2)));
    }
}

proof fn lemma_tracks(v: Scan, t: Seq<u8>, b: u8)
    requires
        tracks(v, t),
    ensures
        tracks(step(v, b).0, t.push(b)),
{
    let w = step(v, b).0;
    let s = t.push(b);
    assert(s.drop_last() =~= t);
    assert(s.last() == b);
    lemma_tracks_open(v, t, b);
    lemma_ends(v, t, b);
    lemma_command_runs(s);
    if w.state == State::OscEsc {
        assert forall|i: int| open_at(t, i) implies holds(w, #[trigger] t.skip(i + 2)) by {
            assert(holds(v, t.skip(i + 2)));
        }
    }
}

/// What a scanner reports of a whole stream is what the marks in it say: exactly one code for each
/// end mark whose nearest earlier mark is a start, in the order of the stream. All other bytes,
/// sequences that nothing ends and payloads that are too long add nothing and change nothing.
pub proof fn every_ended_command_is_reported(s: Seq<u8>)
    ensures
        run(fresh(), s).1 == told(s),
        run(fresh(), s).0.executing == command_runs(s),
{
    lemma_run_tracks(s);
}

proof fn lemma_run_tracks(s: Seq<u8>)
    ensures
        tracks(run(fresh(), s).0, s),
        run(fresh(), s).1 == told(s),
    decreases s.len(),
{
    if s.len() == 0 {
        assert forall|k: int| !started_at(s, k) by {
            if started_at(s, k) {
                assert(s.take(k) =~= s);
            }
        }
    } else {
        let t = s.drop_last();
        let b = s.last();
        lemma_run_tracks(t);
        let v = run(fresh(), t).0;
        assert(t.push(b) =~= s);
        lemma_tracks(v, t, b);
        lemma_ends(v, t, b);
    }
}

/// An exit code is reported only for a command that was seen to start.
pub proof fn reports_only_started_commands(v: Scan, b: u8)
    ensures
        step(v, b).1 is Some ==> v.executing && !step(v, b).0.executing,
{
}

} // verus!

//! The simple pipes: pass-through, discard, appended and prepended text,
//! sequential composition, two-way structural branching, and a counting
//! pass-through.

use vstd::prelude::*;

use crate::CreateDisplayPipe;
use crate::DisplayPipe;

verus! {

/// Append `s[from..to]` to `out`.
pub(crate) fn push_range(out: &mut Vec<char>, s: &Vec<char>, from: usize, to: usize)
    requires
        from <= to,
        to <= s@.len(),
    ensures
        final(out)@ == old(out)@ + s@.subrange(from as int, to as int),
{
    let ghost out0 = out@;
    let mut j: usize = from;
    while j < to
        invariant
            from <= j <= to,
            to <= s@.len(),
            out@ == out0 + s@.subrange(from as int, j as int),
        decreases to - j,
    {
        out.push(s[j]);
        proof {
            assert(s@.subrange(from as int, j + 1 as int) =~= s@.subrange(
                from as int,
                j as int,
            ).push(s@[j as int]));
        }
        j += 1;
    }
    proof {
        if from == to {
            assert(out@ =~= out0 + s@.subrange(from as int, to as int));
        }
    }
}

/// A fresh vector holding the same characters as `s`.
pub(crate) fn clone_chars(s: &Vec<char>) -> (r: Vec<char>)
    ensures
        r@ == s@,
{
    let mut r: Vec<char> = Vec::new();
    push_range(&mut r, s, 0, s.len());
    proof {
        assert(r@ =~= s@);
    }
    r
}

/// Swallows all input and produces nothing, ever.
pub struct Discard;

/// A discarding pipe (and its own factory).
pub fn discard() -> (r: Discard)
    ensures
        r == Discard,
{
    Discard
}

impl DisplayPipe for Discard {
    open spec fn inv(self) -> bool {
        true
    }

    open spec fn feed(self, s: Seq<char>) -> (Self, Seq<char>) {
        (self, Seq::<char>::empty())
    }

    open spec fn flush(self) -> (Self, Seq<char>) {
        (self, Seq::<char>::empty())
    }

    open spec fn quiet(self) -> bool {
        true
    }

    open spec fn oblivious(self) -> bool {
        true
    }

    proof fn step_wf(self, s: Seq<char>) {
    }

    proof fn empty_law(self) {
    }

    proof fn quiet_law(self) {
    }

    proof fn concat_law(self, a: Seq<char>, b: Seq<char>) {
        assert(Seq::<char>::empty() + Seq::<char>::empty() =~= Seq::<char>::empty());
    }

    open spec fn equiv(self, other: Self) -> bool {
        true
    }

    proof fn equiv_law(self, other: Self, s: Seq<char>) {
    }

    fn handle(&mut self, out: &mut Vec<char>, s: &Vec<char>) {
        proof {
            assert(out@ + Seq::<char>::empty() =~= out@);
        }
    }

    fn end(&mut self, out: &mut Vec<char>) {
        proof {
            assert(out@ + Seq::<char>::empty() =~= out@);
        }
    }
}

impl CreateDisplayPipe for Discard {
    type Pipe = Discard;

    open spec fn fac_inv(&self) -> bool {
        true
    }

    open spec fn creates(&self, p: Self::Pipe) -> bool {
        true
    }

    proof fn creates_wf(&self, p: Self::Pipe) {
    }

    proof fn creates_equiv(&self, p: Self::Pipe, q: Self::Pipe) {
    }

    fn create_pipe(&self) -> (r: Self::Pipe) {
        Discard
    }
}

/// Forwards input unchanged; `end` is a no-op.
pub struct Origin;

/// A pass-through pipe (and its own factory).
pub fn origin() -> (r: Origin)
    ensures
        r == Origin,
{
    Origin
}

impl DisplayPipe for Origin {
    open spec fn inv(self) -> bool {
        true
    }

    open spec fn feed(self, s: Seq<char>) -> (Self, Seq<char>) {
        (self, s)
    }

    open spec fn flush(self) -> (Self, Seq<char>) {
        (self, Seq::<char>::empty())
    }

    open spec fn quiet(self) -> bool {
        true
    }

    open spec fn oblivious(self) -> bool {
        true
    }

    proof fn step_wf(self, s: Seq<char>) {
    }

    proof fn empty_law(self) {
    }

    proof fn quiet_law(self) {
    }

    proof fn concat_law(self, a: Seq<char>, b: Seq<char>) {
    }

    open spec fn equiv(self, other: Self) -> bool {
        true
    }

    proof fn equiv_law(self, other: Self, s: Seq<char>) {
    }

    fn handle(&mut self, out: &mut Vec<char>, s: &Vec<char>) {
        push_range(out, s, 0, s.len());
        proof {
            assert(s@.subrange(0, s@.len() as int) =~= s@);
        }
    }

    fn end(&mut self, out: &mut Vec<char>) {
        proof {
            assert(out@ + Seq::<char>::empty() =~= out@);
        }
    }
}

impl CreateDisplayPipe for Origin {
    type Pipe = Origin;

    open spec fn fac_inv(&self) -> bool {
        true
    }

    open spec fn creates(&self, p: Self::Pipe) -> bool {
        true
    }

    proof fn creates_wf(&self, p: Self::Pipe) {
    }

    proof fn creates_equiv(&self, p: Self::Pipe, q: Self::Pipe) {
    }

    fn create_pipe(&self) -> (r: Self::Pipe) {
        Origin
    }
}

/// Passes input through unchanged and appends `text` at `end`.
pub struct Terminated {
    pub text: Vec<char>,
}

/// A pipe that appends `text` once the stream ends.
pub fn terminated(text: Vec<char>) -> (r: Terminated)
    ensures
        r.text@ == text@,
{
    Terminated { text }
}

impl DisplayPipe for Terminated {
    open spec fn inv(self) -> bool {
        true
    }

    open spec fn feed(self, s: Seq<char>) -> (Self, Seq<char>) {
        (self, s)
    }

    open spec fn flush(self) -> (Self, Seq<char>) {
        (self, self.text@)
    }

    open spec fn quiet(self) -> bool {
        false
    }

    open spec fn oblivious(self) -> bool {
        true
    }

    proof fn step_wf(self, s: Seq<char>) {
    }

    proof fn empty_law(self) {
    }

    proof fn quiet_law(self) {
    }

    proof fn concat_law(self, a: Seq<char>, b: Seq<char>) {
    }

    open spec fn equiv(self, other: Self) -> bool {
        self.text@ == other.text@
    }

    proof fn equiv_law(self, other: Self, s: Seq<char>) {
    }

    fn handle(&mut self, out: &mut Vec<char>, s: &Vec<char>) {
        push_range(out, s, 0, s.len());
        proof {
            assert(s@.subrange(0, s@.len() as int) =~= s@);
        }
    }

    fn end(&mut self, out: &mut Vec<char>) {
        let text = clone_chars(&self.text);
        push_range(out, &text, 0, text.len());
        proof {
            assert(text@.subrange(0, text@.len() as int) =~= self.text@);
        }
    }
}

impl CreateDisplayPipe for Terminated {
    type Pipe = Terminated;

    open spec fn fac_inv(&self) -> bool {
        true
    }

    open spec fn creates(&self, p: Self::Pipe) -> bool {
        p.text@ == self.text@
    }

    proof fn creates_wf(&self, p: Self::Pipe) {
    }

    proof fn creates_equiv(&self, p: Self::Pipe, q: Self::Pipe) {
    }

    fn create_pipe(&self) -> (r: Self::Pipe) {
        Terminated { text: clone_chars(&self.text) }
    }
}

/// Factory for a pipe that emits `text` once, before any other output.
pub struct Preceded {
    pub text: Vec<char>,
}

/// The running pipe of [`Preceded`]: `pending` records whether the
/// prefix text is still owed.
pub struct PrecededRt {
    pub text: Vec<char>,
    pub pending: bool,
}

impl DisplayPipe for PrecededRt {
    open spec fn inv(self) -> bool {
        true
    }

    open spec fn feed(self, s: Seq<char>) -> (Self, Seq<char>) {
        if s.len() == 0 {
            (self, Seq::<char>::empty())
        } else if self.pending {
            (PrecededRt { text: self.text, pending: false }, self.text@ + s)
        } else {
            (self, s)
        }
    }

    open spec fn flush(self) -> (Self, Seq<char>) {
        if self.pending {
            (PrecededRt { text: self.text, pending: false }, self.text@)
        } else {
            (self, Seq::<char>::empty())
        }
    }

    open spec fn quiet(self) -> bool {
        false
    }

    open spec fn oblivious(self) -> bool {
        true
    }

    proof fn step_wf(self, s: Seq<char>) {
    }

    proof fn empty_law(self) {
    }

    proof fn quiet_law(self) {
    }

    proof fn concat_law(self, a: Seq<char>, b: Seq<char>) {
        if a.len() == 0 {
            assert(a + b =~= b);
            assert(Seq::<char>::empty() + self.feed(b).1 =~= self.feed(b).1);
        } else if b.len() == 0 {
            assert(a + b =~= a);
            assert(self.feed(a).1 + Seq::<char>::empty() =~= self.feed(a).1);
        } else {
            if self.pending {
                assert((self.text@ + a) + b =~= self.text@ + (a + b));
            } else {
                assert(a + b =~= a + b);
            }
        }
    }

    open spec fn equiv(self, other: Self) -> bool {
        self.text@ == other.text@ && self.pending == other.pending
    }

    proof fn equiv_law(self, other: Self, s: Seq<char>) {
    }

    fn handle(&mut self, out: &mut Vec<char>, s: &Vec<char>) {
        if s.len() == 0 {
            proof {
                assert(out@ + Seq::<char>::empty() =~= out@);
            }
        } else {
            if self.pending {
                self.pending = false;
                let text = clone_chars(&self.text);
                push_range(out, &text, 0, text.len());
                proof {
                    assert(text@.subrange(0, text@.len() as int) =~= self.text@);
                }
            }
            push_range(out, s, 0, s.len());
            proof {
                assert(s@.subrange(0, s@.len() as int) =~= s@);
                assert(old(out)@ + (old(self).feed(s@).1) =~= out@);
            }
        }
    }

    fn end(&mut self, out: &mut Vec<char>) {
        if self.pending {
            self.pending = false;
            let text = clone_chars(&self.text);
            push_range(out, &text, 0, text.len());
            proof {
                assert(text@.subrange(0, text@.len() as int) =~= self.text@);
            }
        } else {
            proof {
                assert(out@ + Seq::<char>::empty() =~= out@);
            }
        }
    }
}

impl CreateDisplayPipe for Preceded {
    type Pipe = PrecededRt;

    open spec fn fac_inv(&self) -> bool {
        true
    }

    open spec fn creates(&self, p: Self::Pipe) -> bool {
        p.text@ == self.text@ && p.pending
    }

    proof fn creates_wf(&self, p: Self::Pipe) {
    }

    proof fn creates_equiv(&self, p: Self::Pipe, q: Self::Pipe) {
    }

    fn create_pipe(&self) -> (r: Self::Pipe) {
        PrecededRt { text: clone_chars(&self.text), pending: true }
    }
}

/// Sequential composition: the first pipe's output is the second's input.
/// With factories inside it is itself a factory; with running pipes inside
/// it is a running pipe.
pub struct Piped<A, B>(pub A, pub B);

impl<A: DisplayPipe, B: DisplayPipe> DisplayPipe for Piped<A, B> {
    open spec fn inv(self) -> bool {
        self.0.inv() && self.1.inv()
    }

    open spec fn feed(self, s: Seq<char>) -> (Self, Seq<char>) {
        let (a, oa) = self.0.feed(s);
        let (b, ob) = self.1.feed(oa);
        (Piped(a, b), ob)
    }

    open spec fn flush(self) -> (Self, Seq<char>) {
        let (a, oa) = self.0.flush();
        let (b1, ob1) = self.1.feed(oa);
        let (b2, ob2) = b1.flush();
        (Piped(a, b2), ob1 + ob2)
    }

    open spec fn quiet(self) -> bool {
        self.0.quiet() && self.1.quiet()
    }

    open spec fn oblivious(self) -> bool {
        self.0.oblivious() && self.1.oblivious()
    }

    proof fn step_wf(self, s: Seq<char>) {
        let (a, oa) = self.0.feed(s);
        self.0.step_wf(s);
        self.1.step_wf(oa);
        let (af, oaf) = self.0.flush();
        self.1.step_wf(oaf);
        self.1.feed(oaf).0.step_wf(Seq::<char>::empty());
    }

    proof fn empty_law(self) {
        self.0.empty_law();
        self.1.empty_law();
    }

    proof fn quiet_law(self) {
        self.0.quiet_law();
        self.1.empty_law();
        self.1.quiet_law();
        assert(Seq::<char>::empty() + Seq::<char>::empty() =~= Seq::<char>::empty());
    }

    proof fn concat_law(self, a: Seq<char>, b: Seq<char>) {
        let (a1, oa1) = self.0.feed(a);
        let (a2, oa2) = a1.feed(b);
        self.0.concat_law(a, b);
        self.0.step_wf(a);
        self.1.concat_law(oa1, oa2);
    }

    open spec fn equiv(self, other: Self) -> bool {
        self.0.equiv(other.0) && self.1.equiv(other.1)
    }

    proof fn equiv_law(self, other: Self, s: Seq<char>) {
        self.0.equiv_law(other.0, s);
        let (a1, oa) = self.0.feed(s);
        self.1.equiv_law(other.1, oa);
        let (af, oaf) = self.0.flush();
        self.1.equiv_law(other.1, oaf);
        let (b1, ob1) = self.1.feed(oaf);
        let (b1o, _) = other.1.feed(oaf);
        self.1.step_wf(oaf);
        other.1.step_wf(oaf);
        b1.equiv_law(b1o, Seq::<char>::empty());
    }

    fn handle(&mut self, out: &mut Vec<char>, s: &Vec<char>) {
        let mut tmp: Vec<char> = Vec::new();
        self.0.handle(&mut tmp, s);
        proof {
            assert(tmp@ =~= old(self).0.feed(s@).1);
        }
        self.1.handle(out, &tmp);
    }

    fn end(&mut self, out: &mut Vec<char>) {
        let mut tmp: Vec<char> = Vec::new();
        self.0.end(&mut tmp);
        proof {
            assert(tmp@ =~= old(self).0.flush().1);
        }
        self.1.handle(out, &tmp);
        self.1.end(out);
        proof {
            assert(out@ =~= old(out)@ + old(self).flush().1);
        }
    }
}

impl<A: CreateDisplayPipe, B: CreateDisplayPipe> CreateDisplayPipe for Piped<A, B> {
    type Pipe = Piped<A::Pipe, B::Pipe>;

    open spec fn fac_inv(&self) -> bool {
        self.0.fac_inv() && self.1.fac_inv()
    }

    open spec fn creates(&self, p: Self::Pipe) -> bool {
        self.0.creates(p.0) && self.1.creates(p.1)
    }

    proof fn creates_wf(&self, p: Self::Pipe) {
        self.0.creates_wf(p.0);
        self.1.creates_wf(p.1);
    }

    proof fn creates_equiv(&self, p: Self::Pipe, q: Self::Pipe) {
        self.0.creates_equiv(p.0, q.0);
        self.1.creates_equiv(p.1, q.1);
    }

    fn create_pipe(&self) -> (r: Self::Pipe) {
        Piped(self.0.create_pipe(), self.1.create_pipe())
    }
}

/// A structural choice between two pipe shapes, fixed at construction.
pub enum Branched<A, B> {
    A(A),
    B(B),
}

impl<A: DisplayPipe, B: DisplayPipe> DisplayPipe for Branched<A, B> {
    open spec fn inv(self) -> bool {
        match self {
            Branched::A(p) => p.inv(),
            Branched::B(p) => p.inv(),
        }
    }

    open spec fn feed(self, s: Seq<char>) -> (Self, Seq<char>) {
        match self {
            Branched::A(p) => {
                let (q, o) = p.feed(s);
                (Branched::A(q), o)
            },
            Branched::B(p) => {
                let (q, o) = p.feed(s);
                (Branched::B(q), o)
            },
        }
    }

    open spec fn flush(self) -> (Self, Seq<char>) {
        match self {
            Branched::A(p) => {
                let (q, o) = p.flush();
                (Branched::A(q), o)
            },
            Branched::B(p) => {
                let (q, o) = p.flush();
                (Branched::B(q), o)
            },
        }
    }

    open spec fn quiet(self) -> bool {
        match self {
            Branched::A(p) => p.quiet(),
            Branched::B(p) => p.quiet(),
        }
    }

    open spec fn oblivious(self) -> bool {
        match self {
            Branched::A(p) => p.oblivious(),
            Branched::B(p) => p.oblivious(),
        }
    }

    proof fn step_wf(self, s: Seq<char>) {
        match self {
            Branched::A(p) => p.step_wf(s),
            Branched::B(p) => p.step_wf(s),
        }
    }

    proof fn empty_law(self) {
        match self {
            Branched::A(p) => p.empty_law(),
            Branched::B(p) => p.empty_law(),
        }
    }

    proof fn quiet_law(self) {
        match self {
            Branched::A(p) => p.quiet_law(),
            Branched::B(p) => p.quiet_law(),
        }
    }

    proof fn concat_law(self, a: Seq<char>, b: Seq<char>) {
        match self {
            Branched::A(p) => p.concat_law(a, b),
            Branched::B(p) => p.concat_law(a, b),
        }
    }

    open spec fn equiv(self, other: Self) -> bool {
        match (self, other) {
            (Branched::A(p), Branched::A(q)) => p.equiv(q),
            (Branched::B(p), Branched::B(q)) => p.equiv(q),
            _ => false,
        }
    }

    proof fn equiv_law(self, other: Self, s: Seq<char>) {
        match (self, other) {
            (Branched::A(p), Branched::A(q)) => p.equiv_law(q, s),
            (Branched::B(p), Branched::B(q)) => p.equiv_law(q, s),
            _ => (),
        }
    }

    fn handle(&mut self, out: &mut Vec<char>, s: &Vec<char>) {
        match self {
            Branched::A(p) => p.handle(out, s),
            Branched::B(p) => p.handle(out, s),
        }
    }

    fn end(&mut self, out: &mut Vec<char>) {
        match self {
            Branched::A(p) => p.end(out),
            Branched::B(p) => p.end(out),
        }
    }
}

impl<A: CreateDisplayPipe, B: CreateDisplayPipe> CreateDisplayPipe for Branched<A, B> {
    type Pipe = Branched<A::Pipe, B::Pipe>;

    open spec fn fac_inv(&self) -> bool {
        match self {
            Branched::A(f) => f.fac_inv(),
            Branched::B(f) => f.fac_inv(),
        }
    }

    open spec fn creates(&self, p: Self::Pipe) -> bool {
        match (self, p) {
            (Branched::A(f), Branched::A(q)) => f.creates(q),
            (Branched::B(f), Branched::B(q)) => f.creates(q),
            _ => false,
        }
    }

    proof fn creates_wf(&self, p: Self::Pipe) {
        match (self, p) {
            (Branched::A(f), Branched::A(q)) => f.creates_wf(q),
            (Branched::B(f), Branched::B(q)) => f.creates_wf(q),
            _ => (),
        }
    }

    proof fn creates_equiv(&self, p: Self::Pipe, q: Self::Pipe) {
        match (self, p, q) {
            (Branched::A(f), Branched::A(x), Branched::A(y)) => f.creates_equiv(x, y),
            (Branched::B(f), Branched::B(x), Branched::B(y)) => f.creates_equiv(x, y),
            _ => (),
        }
    }

    fn create_pipe(&self) -> (r: Self::Pipe) {
        match self {
            Branched::A(f) => Branched::A(f.create_pipe()),
            Branched::B(f) => Branched::B(f.create_pipe()),
        }
    }
}

/// Pick one of two factories depending on an optional value.
pub fn optioned<A, B>(opt: Option<A>, if_none: B) -> (r: Branched<A, B>)
    ensures
        opt matches Some(a) ==> r == Branched::<A, B>::A(a),
        opt is None ==> r == Branched::<A, B>::B(if_none),
{
    match opt {
        Some(a) => Branched::A(a),
        None => Branched::B(if_none),
    }
}

/// A pass-through pipe that counts the characters it has seen, saturating
/// at the largest `usize`.
pub struct CountChars {
    pub count: usize,
}

/// The number `n + m`, capped at the largest `usize`.
pub open spec fn sat_add(n: usize, m: nat) -> usize {
    if n + m <= usize::MAX {
        (n + m) as usize
    } else {
        usize::MAX
    }
}

impl DisplayPipe for CountChars {
    open spec fn inv(self) -> bool {
        true
    }

    open spec fn feed(self, s: Seq<char>) -> (Self, Seq<char>) {
        (CountChars { count: sat_add(self.count, s.len()) }, s)
    }

    open spec fn flush(self) -> (Self, Seq<char>) {
        (self, Seq::<char>::empty())
    }

    open spec fn quiet(self) -> bool {
        true
    }

    open spec fn oblivious(self) -> bool {
        true
    }

    proof fn step_wf(self, s: Seq<char>) {
    }

    proof fn empty_law(self) {
    }

    proof fn quiet_law(self) {
    }

    proof fn concat_law(self, a: Seq<char>, b: Seq<char>) {
    }

    open spec fn equiv(self, other: Self) -> bool {
        self.count == other.count
    }

    proof fn equiv_law(self, other: Self, s: Seq<char>) {
    }

    fn handle(&mut self, out: &mut Vec<char>, s: &Vec<char>) {
        let n = s.len();
        if n <= usize::MAX - self.count {
            self.count = self.count + n;
        } else {
            self.count = usize::MAX;
        }
        push_range(out, s, 0, n);
        proof {
            assert(s@.subrange(0, s@.len() as int) =~= s@);
        }
    }

    fn end(&mut self, out: &mut Vec<char>) {
        proof {
            assert(out@ + Seq::<char>::empty() =~= out@);
        }
    }
}

} // verus!

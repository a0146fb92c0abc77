//! The stream splitter: routes characters to a "before" pipe until a
//! predicate first fires, then to an "after" pipe for the rest of the
//! stream, with state surviving arbitrary chunk boundaries.

use vstd::prelude::*;

use crate::simple::push_range;
use crate::CreateDisplayPipe;
use crate::DisplayPipe;

verus! {

/// A per-character split predicate: fires after a fixed number of
/// characters, or on the first occurrence of a target character.
#[derive(Clone, Copy)]
pub enum Spliter {
    Count { limit: usize, seen: usize },
    Char { target: char },
}

/// Well-formedness of a predicate's running state.
pub open spec fn sp_inv(sp: Spliter) -> bool {
    match sp {
        Spliter::Count { limit, seen } => seen <= limit,
        Spliter::Char { .. } => true,
    }
}

/// Does the predicate fire on this character?
pub open spec fn sp_fire(sp: Spliter, c: char) -> bool {
    match sp {
        Spliter::Count { limit, seen } => seen == limit,
        Spliter::Char { target } => c == target,
    }
}

/// The predicate's state after examining one non-firing character.
pub open spec fn sp_next(sp: Spliter, c: char) -> Spliter {
    match sp {
        Spliter::Count { limit, seen } => Spliter::Count { limit, seen: (seen + 1) as usize },
        Spliter::Char { target } => Spliter::Char { target },
    }
}

/// Scan a chunk: the predicate state after the scan and the index of the
/// first firing character, if any.
pub open spec fn sp_scan(sp: Spliter, s: Seq<char>) -> (Spliter, Option<int>)
    decreases s.len(),
{
    if s.len() == 0 {
        (sp, None)
    } else if sp_fire(sp, s[0]) {
        (sp, Some(0int))
    } else {
        let (sp2, h) = sp_scan(sp_next(sp, s[0]), s.skip(1));
        (
            sp2,
            match h {
                Some(i) => Some(i + 1),
                None => None,
            },
        )
    }
}

/// Scanning preserves well-formedness of the predicate state.
pub proof fn lemma_scan_inv(sp: Spliter, s: Seq<char>)
    requires
        sp_inv(sp),
    ensures
        sp_inv(sp_scan(sp, s).0),
        sp_scan(sp, s).1 matches Some(i) ==> 0 <= i < s.len(),
    decreases s.len(),
{
    if s.len() == 0 {
    } else if sp_fire(sp, s[0]) {
    } else {
        lemma_scan_inv(sp_next(sp, s[0]), s.skip(1));
    }
}

/// Scanning a concatenation equals scanning its parts in order.
pub proof fn lemma_scan_concat(sp: Spliter, a: Seq<char>, b: Seq<char>)
    ensures
        ({
            let (sp1, h1) = sp_scan(sp, a);
            match h1 {
                Some(i) => sp_scan(sp, a + b) == (sp1, Some(i)),
                None => ({
                    let (sp2, h2) = sp_scan(sp1, b);
                    sp_scan(sp, a + b) == (
                        sp2,
                        match h2 {
                            Some(j) => Some(a.len() + j),
                            None => None::<int>,
                        },
                    )
                }),
            }
        }),
    decreases a.len(),
{
    if a.len() == 0 {
        assert(a + b =~= b);
        let (sp2, h2) = sp_scan(sp, b);
        match h2 {
            Some(j) => {
                assert(a.len() + j == j);
            },
            None => {},
        }
    } else if sp_fire(sp, a[0]) {
        assert((a + b)[0] == a[0]);
    } else {
        assert((a + b)[0] == a[0]);
        assert((a + b).skip(1) =~= a.skip(1) + b);
        lemma_scan_concat(sp_next(sp, a[0]), a.skip(1), b);
    }
}

/// How a counting predicate scans: it fires exactly when more than
/// `limit - seen` characters are offered.
pub proof fn lemma_scan_count(limit: usize, seen: usize, s: Seq<char>)
    requires
        seen <= limit,
    ensures
        ({
            let (sp2, h) = sp_scan(Spliter::Count { limit, seen }, s);
            if s.len() > limit - seen {
                h == Some(limit - seen) && sp2 == (Spliter::Count { limit, seen: limit })
            } else {
                h == None::<int> && sp2 == (Spliter::Count {
                    limit,
                    seen: (seen + s.len()) as usize,
                })
            }
        }),
    decreases s.len(),
{
    if s.len() == 0 {
    } else if seen == limit {
    } else {
        lemma_scan_count(limit, (seen + 1) as usize, s.skip(1));
    }
}

/// How a character predicate scans: it fires exactly at the first
/// occurrence of the target character.
pub proof fn lemma_scan_char(target: char, s: Seq<char>)
    ensures
        ({
            let (sp2, h) = sp_scan(Spliter::Char { target }, s);
            sp2 == (Spliter::Char { target }) && (match h {
                Some(i) => 0 <= i < s.len() && s[i] == target && (forall|j: int|
                    0 <= j < i ==> s[j] != target),
                None => forall|j: int| 0 <= j < s.len() ==> s[j] != target,
            })
        }),
    decreases s.len(),
{
    if s.len() == 0 {
    } else if s[0] == target {
    } else {
        lemma_scan_char(target, s.skip(1));
        let (sp2, h) = sp_scan(Spliter::Char { target }, s.skip(1));
        match h {
            Some(i) => {
                assert forall|j: int| 0 <= j < i + 1 implies s[j] != target by {
                    if j > 0 {
                        assert(s.skip(1)[j - 1] != target);
                    }
                }
            },
            None => {
                assert forall|j: int| 0 <= j < s.len() implies s[j] != target by {
                    if j > 0 {
                        assert(s.skip(1)[j - 1] != target);
                    }
                }
            },
        }
    }
}

/// Exact exec mirror of [`sp_fire`].
fn fire_exec(sp: Spliter, c: char) -> (r: bool)
    ensures
        r == sp_fire(sp, c),
{
    match sp {
        Spliter::Count { limit, seen } => seen == limit,
        Spliter::Char { target } => c == target,
    }
}

/// Exact exec mirror of [`sp_next`], for a non-firing character.
fn next_exec(sp: Spliter, c: char) -> (r: Spliter)
    requires
        sp_inv(sp),
        !sp_fire(sp, c),
    ensures
        r == sp_next(sp, c),
{
    match sp {
        Spliter::Count { limit, seen } => Spliter::Count { limit, seen: seen + 1 },
        Spliter::Char { target } => Spliter::Char { target },
    }
}

/// Scan a chunk for the first firing character.
fn scan_exec(sp0: Spliter, s: &Vec<char>) -> (r: (Spliter, Option<usize>))
    requires
        sp_inv(sp0),
    ensures
        sp_inv(r.0),
        r.0 == sp_scan(sp0, s@).0,
        sp_scan(sp0, s@).1 == (match r.1 {
            Some(i) => Some(i as int),
            None => None::<int>,
        }),
        r.1 matches Some(i) ==> i < s@.len(),
{
    let mut sp = sp0;
    let mut i: usize = 0;
    proof {
        assert(s@.skip(0) =~= s@);
    }
    while i < s.len()
        invariant
            sp_inv(sp),
            i <= s@.len(),
            sp_scan(sp0, s@).0 == sp_scan(sp, s@.skip(i as int)).0,
            sp_scan(sp0, s@).1 == (match sp_scan(sp, s@.skip(i as int)).1 {
                Some(j) => Some(i + j),
                None => None::<int>,
            }),
        decreases s@.len() - i,
    {
        let c = s[i];
        proof {
            assert(s@.skip(i as int).len() > 0);
            assert(s@.skip(i as int)[0] == s@[i as int]);
        }
        if fire_exec(sp, c) {
            return (sp, Some(i));
        }
        proof {
            assert(s@.skip(i as int).skip(1) =~= s@.skip(i + 1 as int));
        }
        sp = next_exec(sp, c);
        i = i + 1;
    }
    proof {
        assert(s@.skip(s@.len() as int) =~= Seq::<char>::empty());
    }
    (sp, None)
}

/// A fresh vector holding `s[from..to]`.
pub(crate) fn sub_vec(s: &Vec<char>, from: usize, to: usize) -> (r: Vec<char>)
    requires
        from <= to,
        to <= s@.len(),
    ensures
        r@ == s@.subrange(from as int, to as int),
{
    let mut r: Vec<char> = Vec::new();
    push_range(&mut r, s, from, to);
    proof {
        assert(r@ =~= s@.subrange(from as int, to as int));
    }
    r
}

/// Anything that can serve as a split predicate: a character count or a
/// target character.
pub trait IntoSpliter: Sized {
    /// The predicate this value stands for.
    spec fn spliter_of(self) -> Spliter;

    /// Build the predicate's initial state.
    fn into_spliter(self) -> (r: Spliter)
        ensures
            r == self.spliter_of(),
            sp_inv(r),
    ;
}

impl IntoSpliter for usize {
    open spec fn spliter_of(self) -> Spliter {
        Spliter::Count { limit: self, seen: 0 }
    }

    fn into_spliter(self) -> (r: Spliter) {
        Spliter::Count { limit: self, seen: 0 }
    }
}

impl IntoSpliter for char {
    open spec fn spliter_of(self) -> Spliter {
        Spliter::Char { target: self }
    }

    fn into_spliter(self) -> (r: Spliter) {
        Spliter::Char { target: self }
    }
}

/// Factory for the stream splitter.
pub struct SplitAt<P1, P2> {
    pub spliter: Spliter,
    pub pipe1: P1,
    pub pipe2: P2,
}

/// The running splitter: `spliter` is `None` once the predicate has fired,
/// after which everything goes to `pipe2`.
pub struct SplitAtRt<P1, P2> {
    pub spliter: Option<Spliter>,
    pub pipe1: P1,
    pub pipe2: P2,
}

/// Split a stream at a predicate, routing the part before it to `pipe1`
/// and the rest (including the firing character) to `pipe2`.
pub fn split_at<S: IntoSpliter, P1, P2>(spl: S, pipe1: P1, pipe2: P2) -> (r: SplitAt<P1, P2>)
    ensures
        r.spliter == spl.spliter_of(),
        sp_inv(r.spliter),
        r.pipe1 == pipe1,
        r.pipe2 == pipe2,
{
    SplitAt { spliter: spl.into_spliter(), pipe1, pipe2 }
}

impl<P1: DisplayPipe, P2: DisplayPipe> DisplayPipe for SplitAtRt<P1, P2> {
    open spec fn inv(self) -> bool {
        self.pipe1.inv() && self.pipe2.inv() && (match self.spliter {
            Some(sp) => sp_inv(sp),
            None => true,
        })
    }

    open spec fn feed(self, s: Seq<char>) -> (Self, Seq<char>) {
        match self.spliter {
            None => {
                let (q2, o) = self.pipe2.feed(s);
                (SplitAtRt { spliter: None, pipe1: self.pipe1, pipe2: q2 }, o)
            },
            Some(sp) => {
                let (sp2, h) = sp_scan(sp, s);
                match h {
                    None => {
                        let (q1, o) = self.pipe1.feed(s);
                        (SplitAtRt { spliter: Some(sp2), pipe1: q1, pipe2: self.pipe2 }, o)
                    },
                    Some(i) => {
                        let (qa, o0) = self.pipe1.flush();
                        let (qb, o1) = qa.feed(s.take(i));
                        let (q2, o2) = self.pipe2.feed(s.skip(i));
                        (
                            SplitAtRt { spliter: None, pipe1: qb, pipe2: q2 },
                            o0 + o1 + o2,
                        )
                    },
                }
            },
        }
    }

    open spec fn flush(self) -> (Self, Seq<char>) {
        match self.spliter {
            Some(_) => {
                let (q1, o1) = self.pipe1.flush();
                let (q2, o2) = self.pipe2.flush();
                (SplitAtRt { spliter: self.spliter, pipe1: q1, pipe2: q2 }, o1 + o2)
            },
            None => {
                let (q2, o2) = self.pipe2.flush();
                (SplitAtRt { spliter: None, pipe1: self.pipe1, pipe2: q2 }, o2)
            },
        }
    }

    open spec fn quiet(self) -> bool {
        self.pipe1.quiet() && self.pipe2.quiet()
    }

    open spec fn oblivious(self) -> bool {
        self.pipe1.quiet() && self.pipe1.oblivious() && self.pipe2.oblivious()
    }

    proof fn step_wf(self, s: Seq<char>) {
        self.pipe1.step_wf(s);
        self.pipe2.step_wf(s);
        match self.spliter {
            None => {},
            Some(sp) => {
                lemma_scan_inv(sp, s);
                let (sp2, h) = sp_scan(sp, s);
                match h {
                    None => {},
                    Some(i) => {
                        let (qa, o0) = self.pipe1.flush();
                        qa.step_wf(s.take(i));
                        self.pipe2.step_wf(s.skip(i));
                        if self.pipe1.quiet() {
                            self.pipe1.quiet_law();
                        }
                    },
                }
            },
        }
    }

    proof fn empty_law(self) {
        self.pipe1.empty_law();
        self.pipe2.empty_law();
    }

    proof fn quiet_law(self) {
        self.pipe1.quiet_law();
        self.pipe2.quiet_law();
        assert(Seq::<char>::empty() + Seq::<char>::empty() =~= Seq::<char>::empty());
    }

    proof fn concat_law(self, a: Seq<char>, b: Seq<char>) {
        let e = Seq::<char>::empty();
        match self.spliter {
            None => {
                self.pipe2.concat_law(a, b);
            },
            Some(sp) => {
                lemma_scan_concat(sp, a, b);
                lemma_scan_inv(sp, a);
                self.pipe1.quiet_law();
                let (spA, hA) = sp_scan(sp, a);
                match hA {
                    Some(i) => {
                        // the split fired inside `a`
                        assert((a + b).take(i) =~= a.take(i));
                        assert((a + b).skip(i) =~= a.skip(i) + b);
                        self.pipe2.concat_law(a.skip(i), b);
                        let o1 = self.pipe1.feed(a.take(i)).1;
                        let o2a = self.pipe2.feed(a.skip(i)).1;
                        let o2b = self.pipe2.feed(a.skip(i)).0.feed(b).1;
                        assert((e + o1 + (o2a + o2b)) =~= ((e + o1 + o2a) + o2b));
                    },
                    None => {
                        let (spB, hB) = sp_scan(spA, b);
                        lemma_scan_inv(spA, b);
                        self.pipe1.step_wf(a);
                        let q1A = self.pipe1.feed(a).0;
                        q1A.quiet_law();
                        match hB {
                            Some(j) => {
                                // the split fires inside `b`
                                assert((a + b).take(a.len() + j) =~= a + b.take(j));
                                assert((a + b).skip(a.len() + j) =~= b.skip(j));
                                self.pipe1.concat_law(a, b.take(j));
                                let oA = self.pipe1.feed(a).1;
                                let oB1 = q1A.feed(b.take(j)).1;
                                let oB2 = self.pipe2.feed(b.skip(j)).1;
                                assert((e + (oA + oB1) + oB2) =~= (oA + (e + oB1 + oB2)));
                            },
                            None => {
                                self.pipe1.concat_law(a, b);
                            },
                        }
                    },
                }
            },
        }
    }

    open spec fn equiv(self, other: Self) -> bool {
        self.spliter == other.spliter && self.pipe1.equiv(other.pipe1) && self.pipe2.equiv(
            other.pipe2,
        )
    }

    proof fn equiv_law(self, other: Self, s: Seq<char>) {
        self.pipe1.equiv_law(other.pipe1, s);
        self.pipe2.equiv_law(other.pipe2, s);
        match self.spliter {
            None => {},
            Some(sp) => {
                let (sp2, h) = sp_scan(sp, s);
                match h {
                    None => {},
                    Some(i) => {
                        let (qa, o0) = self.pipe1.flush();
                        let (qb, _) = other.pipe1.flush();
                        self.pipe1.step_wf(s);
                        other.pipe1.step_wf(s);
                        qa.equiv_law(qb, s.take(i));
                        self.pipe2.equiv_law(other.pipe2, s.skip(i));
                    },
                }
            },
        }
    }

    fn handle(&mut self, out: &mut Vec<char>, s: &Vec<char>) {
        let ghost self0 = *self;
        match self.spliter {
            None => {
                self.pipe2.handle(out, s);
            },
            Some(sp0) => {
                let (sp2, hit) = scan_exec(sp0, s);
                match hit {
                    None => {
                        self.spliter = Some(sp2);
                        self.pipe1.handle(out, s);
                    },
                    Some(i) => {
                        self.spliter = None;
                        self.pipe1.end(out);
                        let pre = sub_vec(s, 0, i);
                        self.pipe1.handle(out, &pre);
                        let post = sub_vec(s, i, s.len());
                        self.pipe2.handle(out, &post);
                        proof {
                            assert(pre@ =~= s@.take(i as int));
                            assert(post@ =~= s@.skip(i as int));
                            let o0 = self0.pipe1.flush().1;
                            let o1 = self0.pipe1.flush().0.feed(s@.take(i as int)).1;
                            let o2 = self0.pipe2.feed(s@.skip(i as int)).1;
                            assert(out@ =~= old(out)@ + (o0 + o1 + o2));
                        }
                    },
                }
            },
        }
    }

    fn end(&mut self, out: &mut Vec<char>) {
        let ghost self0 = *self;
        match self.spliter {
            Some(_) => {
                self.pipe1.end(out);
                self.pipe2.end(out);
                proof {
                    assert(out@ =~= old(out)@ + (self0.pipe1.flush().1 + self0.pipe2.flush().1));
                }
            },
            None => {
                self.pipe2.end(out);
            },
        }
    }
}

impl<P1: CreateDisplayPipe, P2: CreateDisplayPipe> CreateDisplayPipe for SplitAt<P1, P2> {
    type Pipe = SplitAtRt<P1::Pipe, P2::Pipe>;

    open spec fn fac_inv(&self) -> bool {
        sp_inv(self.spliter) && self.pipe1.fac_inv() && self.pipe2.fac_inv()
    }

    open spec fn creates(&self, p: Self::Pipe) -> bool {
        p.spliter == Some(self.spliter) && self.pipe1.creates(p.pipe1) && self.pipe2.creates(
            p.pipe2,
        )
    }

    proof fn creates_wf(&self, p: Self::Pipe) {
        self.pipe1.creates_wf(p.pipe1);
        self.pipe2.creates_wf(p.pipe2);
    }

    proof fn creates_equiv(&self, p: Self::Pipe, q: Self::Pipe) {
        self.pipe1.creates_equiv(p.pipe1, q.pipe1);
        self.pipe2.creates_equiv(p.pipe2, q.pipe2);
    }

    fn create_pipe(&self) -> (r: Self::Pipe) {
        SplitAtRt {
            spliter: Some(self.spliter),
            pipe1: self.pipe1.create_pipe(),
            pipe2: self.pipe2.create_pipe(),
        }
    }
}

} // verus!

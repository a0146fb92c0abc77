//! Streaming text-transformation pipelines.
//!
//! A *pipe* consumes a stream of character chunks and forwards transformed
//! text to an output buffer; after the last chunk it receives exactly one
//! `end` call that flushes any retained state.  A *factory* is an immutable
//! template that builds a fresh pipe for every rendering pass.  Small pipes
//! (replace, split-at, truncate-with-summary, range slice) compose into
//! pipelines whose behaviour is specified against a whole-string semantics.
#![allow(unused_imports)]

use vstd::prelude::*;

pub use crate::join::JoinExt;

pub mod join;
pub mod replace;
pub mod simple;
pub mod slice;
pub mod split_at;

verus! {

/// A single-pass streaming transformer.
///
/// The specification of a pipe is given by two functions: `feed`, the effect
/// of handling one chunk (new state plus emitted text), and `flush`, the
/// effect of the final `end` call.  `inv` is the pipe's well-formedness
/// invariant; `quiet` marks pipes whose `flush` emits nothing and changes
/// nothing; `oblivious` marks pipes whose total output does not depend on
/// how the input stream is cut into chunks.
pub trait DisplayPipe: Sized {
    /// Well-formedness of the pipe's state.
    spec fn inv(self) -> bool;

    /// State and output after handling one chunk.
    spec fn feed(self, s: Seq<char>) -> (Self, Seq<char>);

    /// State and output of the final `end` call.
    spec fn flush(self) -> (Self, Seq<char>);

    /// The pipe's `flush` emits nothing and leaves the state unchanged.
    spec fn quiet(self) -> bool;

    /// The pipe's output is invariant under re-chunking of its input.
    spec fn oblivious(self) -> bool;

    /// `feed` and `flush` preserve the invariant and the two markers.
    proof fn step_wf(self, s: Seq<char>)
        requires
            self.inv(),
        ensures
            self.feed(s).0.inv(),
            self.flush().0.inv(),
            self.quiet() ==> self.feed(s).0.quiet(),
            self.oblivious() ==> self.feed(s).0.oblivious(),
    ;

    /// An empty chunk is a no-op.
    proof fn empty_law(self)
        requires
            self.inv(),
        ensures
            self.feed(Seq::<char>::empty()) == (self, Seq::<char>::empty()),
    ;

    /// A quiet pipe's `flush` emits nothing and keeps the state.
    proof fn quiet_law(self)
        requires
            self.inv(),
            self.quiet(),
        ensures
            self.flush() == (self, Seq::<char>::empty()),
    ;

    /// Handling one chunk and then another equals handling their
    /// concatenation: the heart of chunk-size invariance.
    proof fn concat_law(self, a: Seq<char>, b: Seq<char>)
        requires
            self.inv(),
            self.oblivious(),
        ensures
            ({
                let (p1, o1) = self.feed(a);
                let (p2, o2) = p1.feed(b);
                self.feed(a + b) == (p2, o1 + o2)
            }),
    ;

    /// Do these two pipes agree in state?  Agreeing pipes behave
    /// identically, whatever distinct allocations they hold.
    spec fn equiv(self, other: Self) -> bool;

    /// Agreeing pipes emit the same text and stay in agreement.
    proof fn equiv_law(self, other: Self, s: Seq<char>)
        requires
            self.inv(),
            other.inv(),
            self.equiv(other),
        ensures
            self.feed(s).1 == other.feed(s).1,
            self.feed(s).0.equiv(other.feed(s).0),
            self.flush().1 == other.flush().1,
            self.flush().0.equiv(other.flush().0),
    ;

    /// Consume one chunk, appending whatever the pipe emits to `out`.
    fn handle(&mut self, out: &mut Vec<char>, s: &Vec<char>)
        requires
            old(self).inv(),
        ensures
            final(self).inv(),
            *final(self) == old(self).feed(s@).0,
            final(out)@ == old(out)@ + old(self).feed(s@).1,
    ;

    /// Signal the end of the stream, appending any retained text to `out`.
    fn end(&mut self, out: &mut Vec<char>)
        requires
            old(self).inv(),
        ensures
            final(self).inv(),
            *final(self) == old(self).flush().0,
            final(out)@ == old(out)@ + old(self).flush().1,
    ;
}

/// An immutable template that builds a fresh pipe for each rendering pass.
pub trait CreateDisplayPipe: Sized {
    /// The kind of pipe this factory builds.
    type Pipe: DisplayPipe;

    /// Well-formedness of the factory itself.
    spec fn fac_inv(&self) -> bool;

    /// Which pipes this factory may hand out (all of them equivalent).
    spec fn creates(&self, p: Self::Pipe) -> bool;

    /// Every created pipe is well formed.
    proof fn creates_wf(&self, p: Self::Pipe)
        requires
            self.fac_inv(),
            self.creates(p),
        ensures
            p.inv(),
    ;

    /// Any two pipes this factory may hand out agree in state.
    proof fn creates_equiv(&self, p: Self::Pipe, q: Self::Pipe)
        requires
            self.fac_inv(),
            self.creates(p),
            self.creates(q),
        ensures
            p.equiv(q),
    ;

    /// Build a fresh pipe, sharing no mutable state with any other.
    fn create_pipe(&self) -> (r: Self::Pipe)
        requires
            self.fac_inv(),
        ensures
            self.creates(r),
            r.inv(),
    ;
}

/// Total output of a pipe on a whole input handled as one chunk and ended.
pub open spec fn emit<P: DisplayPipe>(p: P, s: Seq<char>) -> Seq<char> {
    let (q, o) = p.feed(s);
    o + q.flush().1
}

/// State and output after feeding a sequence of chunks in order.
pub open spec fn feed_all<P: DisplayPipe>(p: P, chunks: Seq<Seq<char>>) -> (P, Seq<char>)
    decreases chunks.len(),
{
    if chunks.len() == 0 {
        (p, Seq::<char>::empty())
    } else {
        let (q, o) = p.feed(chunks[0]);
        let (z, o2) = feed_all(q, chunks.skip(1));
        (z, o + o2)
    }
}

/// Total output of a pipe on a chunked stream: all chunks, then `end`.
pub open spec fn run_pipe<P: DisplayPipe>(p: P, chunks: Seq<Seq<char>>) -> Seq<char> {
    let (q, o) = feed_all(p, chunks);
    o + q.flush().1
}

/// The whole text carried by a sequence of chunks.
pub open spec fn concat_all(chunks: Seq<Seq<char>>) -> Seq<char>
    decreases chunks.len(),
{
    if chunks.len() == 0 {
        Seq::<char>::empty()
    } else {
        chunks[0] + concat_all(chunks.skip(1))
    }
}

/// A vector never holds more elements than the largest `usize`.
pub proof fn lemma_vec_len_bound<T>(v: &Vec<T>)
    ensures
        v@.len() <= usize::MAX,
{
    assert(vstd::std_specs::vec::spec_vec_len(v) == v@.len());
}

/// Chunk-size invariance: an oblivious pipe produces the same output
/// however its input is cut into chunks.
pub proof fn lemma_chunk_invariance<P: DisplayPipe>(p: P, chunks: Seq<Seq<char>>)
    requires
        p.inv(),
        p.oblivious(),
    ensures
        feed_all(p, chunks) == p.feed(concat_all(chunks)),
        run_pipe(p, chunks) == emit(p, concat_all(chunks)),
    decreases chunks.len(),
{
    if chunks.len() == 0 {
        p.empty_law();
        assert(concat_all(chunks) == Seq::<char>::empty());
    } else {
        let (q, o) = p.feed(chunks[0]);
        p.step_wf(chunks[0]);
        lemma_chunk_invariance(q, chunks.skip(1));
        p.concat_law(chunks[0], concat_all(chunks.skip(1)));
    }
}

/// Agreeing pipes produce the same output on any chunked stream.
pub proof fn lemma_equiv_run<P: DisplayPipe>(p: P, q: P, chunks: Seq<Seq<char>>)
    requires
        p.inv(),
        q.inv(),
        p.equiv(q),
    ensures
        feed_all(p, chunks).1 == feed_all(q, chunks).1,
        feed_all(p, chunks).0.inv(),
        feed_all(q, chunks).0.inv(),
        feed_all(p, chunks).0.equiv(feed_all(q, chunks).0),
        run_pipe(p, chunks) == run_pipe(q, chunks),
    decreases chunks.len(),
{
    if chunks.len() == 0 {
        p.equiv_law(q, Seq::<char>::empty());
    } else {
        p.equiv_law(q, chunks[0]);
        p.step_wf(chunks[0]);
        q.step_wf(chunks[0]);
        lemma_equiv_run(p.feed(chunks[0]).0, q.feed(chunks[0]).0, chunks.skip(1));
        let pz = feed_all(p, chunks).0;
        let qz = feed_all(q, chunks).0;
        pz.equiv_law(qz, Seq::<char>::empty());
    }
}

/// The views of a sequence of chunk vectors.
pub open spec fn chunk_views(cs: Seq<Vec<char>>) -> Seq<Seq<char>> {
    cs.map_values(|v: Vec<char>| v@)
}

/// Feeding one more chunk extends a chunk-by-chunk run.
pub proof fn lemma_feed_all_snoc<P: DisplayPipe>(p: P, chunks: Seq<Seq<char>>, i: int)
    requires
        0 <= i < chunks.len(),
    ensures
        ({
            let (q, o) = feed_all(p, chunks.take(i));
            let (q2, o2) = q.feed(chunks[i]);
            feed_all(p, chunks.take(i + 1)) == (q2, o + o2)
        }),
    decreases i,
{
    if i == 0 {
        assert(chunks.take(0) =~= Seq::<Seq<char>>::empty());
        assert(chunks.take(1)[0] == chunks[0]);
        assert(chunks.take(1).skip(1) =~= Seq::<Seq<char>>::empty());
        let (q2, o2) = p.feed(chunks[0]);
        assert(feed_all(q2, Seq::<Seq<char>>::empty()) == (q2, Seq::<char>::empty()));
        assert(feed_all(p, chunks.take(1)) == (q2, o2 + Seq::<char>::empty()));
        assert(o2 + Seq::<char>::empty() =~= Seq::<char>::empty() + o2);
    } else {
        let (q0, o0) = p.feed(chunks[0]);
        assert(chunks.take(i)[0] == chunks[0]);
        assert(chunks.take(i + 1)[0] == chunks[0]);
        assert(chunks.take(i).skip(1) =~= chunks.skip(1).take(i - 1));
        assert(chunks.take(i + 1).skip(1) =~= chunks.skip(1).take(i));
        assert(chunks[i] == chunks.skip(1)[i - 1]);
        lemma_feed_all_snoc(q0, chunks.skip(1), i - 1);
        let (q, o) = feed_all(q0, chunks.skip(1).take(i - 1));
        let (q2, o2) = q.feed(chunks[i]);
        assert(o0 + (o + o2) =~= (o0 + o) + o2);
    }
}

/// The number of bytes in the UTF-8 encoding of one character.
pub open spec fn char_utf8_len(c: char) -> nat {
    if (c as u32) < 0x80 {
        1
    } else if (c as u32) < 0x800 {
        2
    } else if (c as u32) < 0x10000 {
        3
    } else {
        4
    }
}

/// The number of bytes in the UTF-8 encoding of a character sequence.
pub open spec fn utf8_len(s: Seq<char>) -> nat
    decreases s.len(),
{
    if s.len() == 0 {
        0
    } else {
        char_utf8_len(s[0]) + utf8_len(s.skip(1))
    }
}

/// A natural number clipped to the largest `usize`.
pub open spec fn cap_usize(x: nat) -> usize {
    if x <= usize::MAX {
        x as usize
    } else {
        usize::MAX
    }
}

/// One more character extends a prefix's UTF-8 length.
pub proof fn lemma_utf8_len_snoc(s: Seq<char>, i: int)
    requires
        0 <= i < s.len(),
    ensures
        utf8_len(s.take(i + 1)) == utf8_len(s.take(i)) + char_utf8_len(s[i]),
    decreases i,
{
    if i == 0 {
        assert(s.take(0) =~= Seq::<char>::empty());
        assert(s.take(1)[0] == s[0]);
        assert(s.take(1).skip(1) =~= Seq::<char>::empty());
    } else {
        assert(s.take(i)[0] == s[0]);
        assert(s.take(i + 1)[0] == s[0]);
        assert(s.take(i).skip(1) =~= s.skip(1).take(i - 1));
        assert(s.take(i + 1).skip(1) =~= s.skip(1).take(i));
        assert(s[i] == s.skip(1)[i - 1]);
        lemma_utf8_len_snoc(s.skip(1), i - 1);
    }
}

/// The number of bytes in the UTF-8 encoding of one character.
fn char_len(c: char) -> (n: usize)
    ensures
        n as nat == char_utf8_len(c),
{
    let u = c as u32;
    if u < 0x80 {
        1
    } else if u < 0x800 {
        2
    } else if u < 0x10000 {
        3
    } else {
        4
    }
}

/// A pre-chunked character stream together with the pipeline to run it
/// through: the composed, renderable value.
pub struct UsePipe<F> {
    pub source: Vec<Vec<char>>,
    pub create_pipe: F,
}

impl<F: CreateDisplayPipe> UsePipe<F> {
    /// Render the source through a freshly built pipe: every chunk in
    /// order, then the end signal.
    pub fn render(&self) -> (r: Vec<char>)
        requires
            self.create_pipe.fac_inv(),
        ensures
            exists|p: F::Pipe| #[trigger] self.create_pipe.creates(p) && p.inv(),
            forall|p: F::Pipe|
                #[trigger] self.create_pipe.creates(p) && p.inv() ==> r@ == run_pipe(
                    p,
                    chunk_views(self.source@),
                ),
    {
        let mut pipe = self.create_pipe.create_pipe();
        let ghost p0 = pipe;
        let ghost cs = chunk_views(self.source@);
        let mut out: Vec<char> = Vec::new();
        let mut i: usize = 0;
        proof {
            assert(cs.take(0) =~= Seq::<Seq<char>>::empty());
        }
        while i < self.source.len()
            invariant
                i <= self.source@.len(),
                cs == chunk_views(self.source@),
                self.create_pipe.creates(p0),
                p0.inv(),
                pipe.inv(),
                feed_all(p0, cs.take(i as int)) == (pipe, out@),
            decreases self.source@.len() - i,
        {
            proof {
                lemma_feed_all_snoc(p0, cs, i as int);
                assert(cs[i as int] == self.source@[i as int]@);
            }
            pipe.handle(&mut out, &self.source[i]);
            i = i + 1;
        }
        proof {
            assert(cs.take(cs.len() as int) =~= cs);
        }
        pipe.end(&mut out);
        proof {
            assert forall|p: F::Pipe|
                self.create_pipe.creates(p) && p.inv() implies out@ == run_pipe(p, cs) by {
                self.create_pipe.creates_equiv(p0, p);
                lemma_equiv_run(p0, p, cs);
            }
        }
        out
    }

    /// The byte length of the fully rendered output (clipped to the
    /// largest `usize`), found by a full rendering pass.
    pub fn compute_len(&self) -> (n: usize)
        requires
            self.create_pipe.fac_inv(),
        ensures
            exists|p: F::Pipe| #[trigger] self.create_pipe.creates(p) && p.inv(),
            forall|p: F::Pipe|
                #[trigger] self.create_pipe.creates(p) && p.inv() ==> n == cap_usize(
                    utf8_len(run_pipe(p, chunk_views(self.source@))),
                ),
    {
        let out = self.render();
        let mut n: usize = 0;
        let mut i: usize = 0;
        proof {
            assert(out@.take(0) =~= Seq::<char>::empty());
        }
        while i < out.len()
            invariant
                i <= out@.len(),
                n == cap_usize(utf8_len(out@.take(i as int))),
            decreases out@.len() - i,
        {
            let cl = char_len(out[i]);
            proof {
                lemma_utf8_len_snoc(out@, i as int);
            }
            if cl <= usize::MAX - n {
                n = n + cl;
            } else {
                n = usize::MAX;
            }
            i = i + 1;
        }
        proof {
            assert(out@.take(out@.len() as int) =~= out@);
        }
        n
    }
}

} // verus!

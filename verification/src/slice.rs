//! Derived pipelines, built purely by composing the splitter with the
//! simple pipes: character-range slicing and truncation with a summary.

use vstd::prelude::*;

use crate::simple::discard;
use crate::simple::optioned;
use crate::simple::origin;
use crate::simple::push_range;
use crate::simple::sat_add;
use crate::simple::terminated;
use crate::simple::Branched;
use crate::simple::Discard;
use crate::simple::Origin;
use crate::simple::Piped;
use crate::simple::Terminated;
use crate::split_at::lemma_scan_count;
use crate::split_at::split_at;
use crate::split_at::sp_inv;
use crate::split_at::SplitAt;
use crate::split_at::SplitAtRt;
use crate::split_at::Spliter;
use crate::CreateDisplayPipe;
use crate::DisplayPipe;

verus! {

/// The decimal digit character for `n < 10`.
pub open spec fn dec_digit(n: nat) -> char {
    if n == 0 {
        '0'
    } else if n == 1 {
        '1'
    } else if n == 2 {
        '2'
    } else if n == 3 {
        '3'
    } else if n == 4 {
        '4'
    } else if n == 5 {
        '5'
    } else if n == 6 {
        '6'
    } else if n == 7 {
        '7'
    } else if n == 8 {
        '8'
    } else {
        '9'
    }
}

/// The decimal rendering of `n`, most significant digit first.
pub open spec fn dec_digits(n: nat) -> Seq<char>
    decreases n,
{
    if n < 10 {
        seq![dec_digit(n)]
    } else {
        dec_digits(n / 10).push(dec_digit(n % 10))
    }
}

/// The digit character for `d`.
fn digit_char(d: usize) -> (c: char)
    requires
        d < 10,
    ensures
        c == dec_digit(d as nat),
{
    if d == 0 {
        '0'
    } else if d == 1 {
        '1'
    } else if d == 2 {
        '2'
    } else if d == 3 {
        '3'
    } else if d == 4 {
        '4'
    } else if d == 5 {
        '5'
    } else if d == 6 {
        '6'
    } else if d == 7 {
        '7'
    } else if d == 8 {
        '8'
    } else {
        '9'
    }
}

/// Append the decimal rendering of `n` to `out`.
fn push_dec(out: &mut Vec<char>, n: usize)
    ensures
        final(out)@ == old(out)@ + dec_digits(n as nat),
    decreases n,
{
    if n < 10 {
        out.push(digit_char(n));
        proof {
            assert(old(out)@.push(dec_digit(n as nat)) =~= old(out)@ + dec_digits(n as nat));
        }
    } else {
        push_dec(out, n / 10);
        out.push(digit_char(n % 10));
        proof {
            assert((old(out)@ + dec_digits(n as nat / 10)).push(dec_digit(n as nat % 10)) =~= old(
                out,
            )@ + dec_digits(n as nat));
        }
    }
}

/// Factory for the counting summary stage of [`omitted_with`].
pub struct Omitted {
    pub prefix: Vec<char>,
    pub suffix: Vec<char>,
}

/// The running summary stage: swallows its input, counts its characters
/// (saturating), and at `end` emits `prefix`, the count in decimal, and
/// `suffix`.
pub struct OmittedTerm {
    pub count: usize,
    pub prefix: Vec<char>,
    pub suffix: Vec<char>,
}

impl DisplayPipe for OmittedTerm {
    open spec fn inv(self) -> bool {
        true
    }

    open spec fn feed(self, s: Seq<char>) -> (Self, Seq<char>) {
        (
            OmittedTerm {
                count: sat_add(self.count, s.len()),
                prefix: self.prefix,
                suffix: self.suffix,
            },
            Seq::<char>::empty(),
        )
    }

    open spec fn flush(self) -> (Self, Seq<char>) {
        (self, self.prefix@ + dec_digits(self.count as nat) + self.suffix@)
    }

    open spec fn quiet(self) -> bool {
        false
    }

    open spec fn oblivious(self) -> bool {
        true
    }

    proof fn step_wf(self, s: Seq<char>) {
    }

    proof fn empty_law(self) {
    }

    proof fn quiet_law(self) {
    }

    proof fn concat_law(self, a: Seq<char>, b: Seq<char>) {
        assert(Seq::<char>::empty() + Seq::<char>::empty() =~= Seq::<char>::empty());
    }

    open spec fn equiv(self, other: Self) -> bool {
        self.count == other.count && self.prefix@ == other.prefix@ && self.suffix@
            == other.suffix@
    }

    proof fn equiv_law(self, other: Self, s: Seq<char>) {
    }

    fn handle(&mut self, out: &mut Vec<char>, s: &Vec<char>) {
        let n = s.len();
        if n <= usize::MAX - self.count {
            self.count = self.count + n;
        } else {
            self.count = usize::MAX;
        }
        proof {
            assert(out@ + Seq::<char>::empty() =~= out@);
        }
    }

    fn end(&mut self, out: &mut Vec<char>) {
        let prefix = crate::simple::clone_chars(&self.prefix);
        push_range(out, &prefix, 0, prefix.len());
        push_dec(out, self.count);
        let suffix = crate::simple::clone_chars(&self.suffix);
        push_range(out, &suffix, 0, suffix.len());
        proof {
            assert(prefix@.subrange(0, prefix@.len() as int) =~= self.prefix@);
            assert(suffix@.subrange(0, suffix@.len() as int) =~= self.suffix@);
            assert(out@ =~= old(out)@ + (self.prefix@ + dec_digits(self.count as nat)
                + self.suffix@));
        }
    }
}

impl CreateDisplayPipe for Omitted {
    type Pipe = OmittedTerm;

    open spec fn fac_inv(&self) -> bool {
        true
    }

    open spec fn creates(&self, p: Self::Pipe) -> bool {
        p.count == 0 && p.prefix@ == self.prefix@ && p.suffix@ == self.suffix@
    }

    proof fn creates_wf(&self, p: Self::Pipe) {
    }

    proof fn creates_equiv(&self, p: Self::Pipe, q: Self::Pipe) {
    }

    fn create_pipe(&self) -> (r: Self::Pipe) {
        OmittedTerm {
            count: 0,
            prefix: crate::simple::clone_chars(&self.prefix),
            suffix: crate::simple::clone_chars(&self.suffix),
        }
    }
}

/// Pass the first `exceed_chars` characters through unchanged and append
/// `exceed_text` at the end of the stream; everything beyond the
/// threshold is swallowed.
pub fn omitted(exceed_chars: usize, exceed_text: Vec<char>) -> (r: SplitAt<
    Origin,
    Piped<Discard, Terminated>,
>)
    ensures
        r.spliter == (Spliter::Count { limit: exceed_chars, seen: 0 }),
        r.pipe1 == Origin,
        r.pipe2.0 == Discard,
        r.pipe2.1.text@ == exceed_text@,
{
    split_at(exceed_chars, origin(), Piped(discard(), terminated(exceed_text)))
}

/// Like [`omitted`], but the appended summary is built from the number of
/// swallowed characters: `prefix`, the count in decimal, then `suffix`.
pub fn omitted_with(exceed_chars: usize, prefix: Vec<char>, suffix: Vec<char>) -> (r: SplitAt<
    Origin,
    Omitted,
>)
    ensures
        r.spliter == (Spliter::Count { limit: exceed_chars, seen: 0 }),
        r.pipe1 == Origin,
        r.pipe2.prefix@ == prefix@,
        r.pipe2.suffix@ == suffix@,
{
    split_at(exceed_chars, origin(), Omitted { prefix, suffix })
}

/// Keep only the characters with indices in `[start, end)` (to the end of
/// the stream when `end` is `None`); a reversed range keeps nothing.
pub fn slice(start: usize, end: Option<usize>) -> (r: SplitAt<
    Discard,
    Branched<SplitAt<Origin, Discard>, Origin>,
>)
    ensures
        r.spliter == (Spliter::Count { limit: start, seen: 0 }),
        r.pipe1 == Discard,
        (match end {
            Some(e) => r.pipe2 matches Branched::A(inner) && inner.spliter == (Spliter::Count {
                limit: ((if e >= start {
                    e - start
                } else {
                    0
                }) as usize),
                seen: 0,
            }) && inner.pipe1 == Origin && inner.pipe2 == Discard,
            None => r.pipe2 == Branched::<SplitAt<Origin, Discard>, Origin>::B(Origin),
        }),
{
    let inner = match end {
        Some(e) => {
            let display_len = if e >= start {
                e - start
            } else {
                0
            };
            Some(split_at(display_len, origin(), discard()))
        },
        None => None,
    };
    split_at(start, discard(), optioned(inner, origin()))
}

/// A counting pass-through pipe, starting at zero: it forwards its input
/// unchanged and tallies the characters seen.
pub fn count_chars() -> (r: crate::simple::CountChars)
    ensures
        r.count == 0,
{
    crate::simple::CountChars { count: 0 }
}

/// What a freshly created [`slice`] pipe emits: exactly the characters
/// with indices in the requested range, clipped to the stream's length.
pub proof fn lemma_slice_emit(
    q: SplitAtRt<Discard, Branched<SplitAtRt<Origin, Discard>, Origin>>,
    start: usize,
    end: Option<usize>,
    s: Seq<char>,
)
    requires
        q.spliter == Some(Spliter::Count { limit: start, seen: 0 }),
        match end {
            Some(e) => q.pipe2 matches Branched::A(inner) && inner.spliter == Some(
                Spliter::Count {
                    limit: ((if e >= start {
                        e - start
                    } else {
                        0
                    }) as usize),
                    seen: 0,
                },
            ),
            None => q.pipe2 is B,
        },
    ensures
        ({
            let l = s.len() as int;
            let lo = if (start as int) < l {
                start as int
            } else {
                l
            };
            let hi = match end {
                None => l,
                Some(e) => {
                    let stop = if e >= start {
                        e as int
                    } else {
                        start as int
                    };
                    if stop < l {
                        stop
                    } else {
                        l
                    }
                },
            };
            crate::emit(q, s) == s.subrange(lo, hi)
        }),
{
    let l = s.len() as int;
    lemma_scan_count(start, 0, s);
    if l > start {
        match q.pipe2 {
            Branched::A(inner) => {
                let e = end->Some_0;
                let dlen: usize = if e >= start {
                    (e - start) as usize
                } else {
                    0
                };
                lemma_scan_count(dlen, 0, s.skip(start as int));
                if s.skip(start as int).len() > dlen {
                    assert(s.skip(start as int).take(dlen as int) =~= s.subrange(
                        start as int,
                        start + dlen,
                    ));
                    assert(crate::emit(q, s) =~= s.subrange(start as int, start + dlen));
                } else {
                    assert(s.skip(start as int) =~= s.subrange(start as int, l));
                    assert(crate::emit(q, s) =~= s.subrange(start as int, l));
                }
            },
            Branched::B(og) => {
                assert(s.skip(start as int) =~= s.subrange(start as int, l));
                assert(crate::emit(q, s) =~= s.subrange(start as int, l));
            },
        }
    } else {
        match q.pipe2 {
            Branched::A(inner) => {
                assert(crate::emit(q, s) =~= s.subrange(l, l));
            },
            Branched::B(og) => {
                assert(crate::emit(q, s) =~= s.subrange(l, l));
            },
        }
    }
}

/// [`lemma_slice_emit`], for a stream cut into chunks in any way.
pub proof fn lemma_slice_run(
    q: SplitAtRt<Discard, Branched<SplitAtRt<Origin, Discard>, Origin>>,
    start: usize,
    end: Option<usize>,
    chunks: Seq<Seq<char>>,
)
    requires
        q.spliter == Some(Spliter::Count { limit: start, seen: 0 }),
        match end {
            Some(e) => q.pipe2 matches Branched::A(inner) && inner.spliter == Some(
                Spliter::Count {
                    limit: ((if e >= start {
                        e - start
                    } else {
                        0
                    }) as usize),
                    seen: 0,
                },
            ) && inner.pipe1 == Origin && inner.pipe2 == Discard,
            None => q.pipe2 == Branched::<SplitAtRt<Origin, Discard>, Origin>::B(Origin),
        },
    ensures
        ({
            let s = crate::concat_all(chunks);
            let l = s.len() as int;
            let lo = if (start as int) < l {
                start as int
            } else {
                l
            };
            let hi = match end {
                None => l,
                Some(e) => {
                    let stop = if e >= start {
                        e as int
                    } else {
                        start as int
                    };
                    if stop < l {
                        stop
                    } else {
                        l
                    }
                },
            };
            crate::run_pipe(q, chunks) == s.subrange(lo, hi)
        }),
{
    crate::lemma_chunk_invariance(q, chunks);
    lemma_slice_emit(q, start, end, crate::concat_all(chunks));
}

/// What a freshly created [`omitted`] pipe emits: the first
/// `exceed_chars` characters (all of them on a short stream), with the
/// fixed summary text appended at the end of the stream.
pub proof fn lemma_omitted_emit(
    q: SplitAtRt<Origin, Piped<Discard, Terminated>>,
    n: usize,
    s: Seq<char>,
)
    requires
        q.spliter == Some(Spliter::Count { limit: n, seen: 0 }),
    ensures
        ({
            let l = s.len() as int;
            let keep = if (n as int) < l {
                n as int
            } else {
                l
            };
            crate::emit(q, s) == s.take(keep) + q.pipe2.1.text@
        }),
{
    let l = s.len() as int;
    lemma_scan_count(n, 0, s);
    if l > n {
        assert(crate::emit(q, s) =~= s.take(n as int) + q.pipe2.1.text@);
    } else {
        assert(s.take(l) =~= s);
        assert(crate::emit(q, s) =~= s.take(l) + q.pipe2.1.text@);
    }
}

/// [`lemma_omitted_emit`], for a stream cut into chunks in any way.
pub proof fn lemma_omitted_run(
    q: SplitAtRt<Origin, Piped<Discard, Terminated>>,
    n: usize,
    chunks: Seq<Seq<char>>,
)
    requires
        q.spliter == Some(Spliter::Count { limit: n, seen: 0 }),
    ensures
        ({
            let s = crate::concat_all(chunks);
            let l = s.len() as int;
            let keep = if (n as int) < l {
                n as int
            } else {
                l
            };
            crate::run_pipe(q, chunks) == s.take(keep) + q.pipe2.1.text@
        }),
{
    crate::lemma_chunk_invariance(q, chunks);
    lemma_omitted_emit(q, n, crate::concat_all(chunks));
}

/// What a freshly created [`omitted_with`] pipe emits: the first
/// `exceed_chars` characters, then `prefix`, the number of omitted
/// characters in decimal, and `suffix`.
pub proof fn lemma_omitted_with_emit(q: SplitAtRt<Origin, OmittedTerm>, n: usize, s: Seq<char>)
    requires
        q.spliter == Some(Spliter::Count { limit: n, seen: 0 }),
        q.pipe2.count == 0,
        s.len() <= usize::MAX,
    ensures
        ({
            let l = s.len() as int;
            let keep = if (n as int) < l {
                n as int
            } else {
                l
            };
            crate::emit(q, s) == s.take(keep) + q.pipe2.prefix@ + dec_digits((l - keep) as nat)
                + q.pipe2.suffix@
        }),
{
    let l = s.len() as int;
    lemma_scan_count(n, 0, s);
    if l > n {
        assert(sat_add(0, s.skip(n as int).len()) == l - n);
        assert(crate::emit(q, s) =~= s.take(n as int) + q.pipe2.prefix@ + dec_digits(
            (l - n) as nat,
        ) + q.pipe2.suffix@);
    } else {
        assert(s.take(l) =~= s);
        assert(crate::emit(q, s) =~= s.take(l) + q.pipe2.prefix@ + dec_digits(0) + q.pipe2.suffix@);
    }
}

/// [`lemma_omitted_with_emit`], for a stream cut into chunks in any way.
pub proof fn lemma_omitted_with_run(q: SplitAtRt<Origin, OmittedTerm>, n: usize, chunks: Seq<
    Seq<char>,
>)
    requires
        q.spliter == Some(Spliter::Count { limit: n, seen: 0 }),
        q.pipe2.count == 0,
        crate::concat_all(chunks).len() <= usize::MAX,
    ensures
        ({
            let s = crate::concat_all(chunks);
            let l = s.len() as int;
            let keep = if (n as int) < l {
                n as int
            } else {
                l
            };
            crate::run_pipe(q, chunks) == s.take(keep) + q.pipe2.prefix@ + dec_digits(
                (l - keep) as nat,
            ) + q.pipe2.suffix@
        }),
{
    crate::lemma_chunk_invariance(q, chunks);
    lemma_omitted_with_emit(q, n, crate::concat_all(chunks));
}

} // verus!

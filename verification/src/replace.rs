//! The streaming pattern-replace matcher: substitutes a fixed non-empty
//! pattern across arbitrary chunk boundaries, with an optional bound on the
//! number of replacements.  On a mismatch it recovers only by a
//! one-character restart (when the mismatching character equals the
//! pattern's first character), which matches a standard whole-string
//! replace for patterns whose first character does not recur before the
//! pattern's last position.

use vstd::prelude::*;

use crate::simple::push_range;
use crate::CreateDisplayPipe;
use crate::DisplayPipe;

verus! {

/// One step of bounded-count bookkeeping.
pub open spec fn rem_dec(rem: Option<usize>) -> Option<usize> {
    match rem {
        Some(k) => Some((k - 1) as usize),
        None => None,
    }
}

/// The matcher's transition over a whole chunk: final cursor, remaining
/// budget, and emitted text.
pub open spec fn rep_fold(
    p: Seq<char>,
    r: Seq<char>,
    cur: nat,
    rem: Option<usize>,
    s: Seq<char>,
) -> (nat, Option<usize>, Seq<char>)
    decreases s.len(),
{
    if s.len() == 0 {
        (cur, rem, Seq::<char>::empty())
    } else if rem == Some(0usize) {
        (cur, rem, s)
    } else {
        let c = s[0];
        if cur < p.len() && c == p[cur as int] {
            if cur + 1 == p.len() {
                let rem2 = rem_dec(rem);
                let (c3, r3, o3) = rep_fold(p, r, 0, rem2, s.skip(1));
                (c3, r3, r + o3)
            } else {
                rep_fold(p, r, cur + 1, rem, s.skip(1))
            }
        } else {
            let flushed = p.take(cur as int);
            if p.len() > 0 && c == p[0] {
                let (c3, r3, o3) = rep_fold(p, r, 1, rem, s.skip(1));
                (c3, r3, flushed + o3)
            } else {
                let (c3, r3, o3) = rep_fold(p, r, 0, rem, s.skip(1));
                (c3, r3, flushed.push(c) + o3)
            }
        }
    }
}

/// The matcher's cursor stays inside the pattern, and a spent budget
/// forces a reset cursor.
pub proof fn lemma_rep_fold_inv(
    p: Seq<char>,
    r: Seq<char>,
    cur: nat,
    rem: Option<usize>,
    s: Seq<char>,
)
    requires
        p.len() > 0,
        cur < p.len(),
        rem == Some(0usize) ==> cur == 0,
    ensures
        rep_fold(p, r, cur, rem, s).0 < p.len(),
        rep_fold(p, r, cur, rem, s).1 == Some(0usize) ==> rep_fold(p, r, cur, rem, s).0 == 0,
    decreases s.len(),
{
    if s.len() == 0 {
    } else if rem == Some(0usize) {
    } else {
        let c = s[0];
        if cur < p.len() && c == p[cur as int] {
            if cur + 1 == p.len() {
                lemma_rep_fold_inv(p, r, 0, rem_dec(rem), s.skip(1));
            } else {
                lemma_rep_fold_inv(p, r, cur + 1, rem, s.skip(1));
            }
        } else {
            if p.len() > 0 && c == p[0] {
                lemma_rep_fold_inv(p, r, 1, rem, s.skip(1));
            } else {
                lemma_rep_fold_inv(p, r, 0, rem, s.skip(1));
            }
        }
    }
}

/// Folding a concatenation equals folding its parts in order.
pub proof fn lemma_rep_fold_concat(
    p: Seq<char>,
    r: Seq<char>,
    cur: nat,
    rem: Option<usize>,
    a: Seq<char>,
    b: Seq<char>,
)
    ensures
        ({
            let (c1, r1, o1) = rep_fold(p, r, cur, rem, a);
            let (c2, r2, o2) = rep_fold(p, r, c1, r1, b);
            rep_fold(p, r, cur, rem, a + b) == (c2, r2, o1 + o2)
        }),
    decreases a.len(),
{
    let (c1, r1, o1) = rep_fold(p, r, cur, rem, a);
    let (c2, r2, o2) = rep_fold(p, r, c1, r1, b);
    if a.len() == 0 {
        assert(a + b =~= b);
        assert(Seq::<char>::empty() + o2 =~= o2);
    } else if rem == Some(0usize) {
        if b.len() == 0 {
            assert(a + b =~= a);
            assert(o1 + o2 =~= a);
        } else {
            assert(o1 + o2 =~= a + b);
        }
    } else {
        let c = a[0];
        assert((a + b)[0] == c);
        assert((a + b).skip(1) =~= a.skip(1) + b);
        if cur < p.len() && c == p[cur as int] {
            if cur + 1 == p.len() {
                lemma_rep_fold_concat(p, r, 0, rem_dec(rem), a.skip(1), b);
                let (c3, r3, o3) = rep_fold(p, r, 0, rem_dec(rem), a.skip(1));
                let (c4, r4, o4) = rep_fold(p, r, c3, r3, b);
                assert(r + (o3 + o4) =~= (r + o3) + o4);
            } else {
                lemma_rep_fold_concat(p, r, cur + 1, rem, a.skip(1), b);
            }
        } else {
            let flushed = p.take(cur as int);
            if p.len() > 0 && c == p[0] {
                lemma_rep_fold_concat(p, r, 1, rem, a.skip(1), b);
                let (c3, r3, o3) = rep_fold(p, r, 1, rem, a.skip(1));
                let (c4, r4, o4) = rep_fold(p, r, c3, r3, b);
                assert(flushed + (o3 + o4) =~= (flushed + o3) + o4);
            } else {
                lemma_rep_fold_concat(p, r, 0, rem, a.skip(1), b);
                let (c3, r3, o3) = rep_fold(p, r, 0, rem, a.skip(1));
                let (c4, r4, o4) = rep_fold(p, r, c3, r3, b);
                assert(flushed.push(c) + (o3 + o4) =~= (flushed.push(c) + o3) + o4);
            }
        }
    }
}

/// Does the pattern `p` occur in `s` at position `t`?
pub open spec fn is_match_at(s: Seq<char>, p: Seq<char>, t: int) -> bool {
    0 <= t && t + p.len() <= s.len() && s.subrange(t, t + p.len()) == p
}

/// The pattern's first character does not recur strictly before its last
/// position: exactly the patterns for which a one-character restart
/// recovers every occurrence.
pub open spec fn simple_pattern(p: Seq<char>) -> bool {
    forall|t: int| 1 <= t < p.len() - 1 ==> #[trigger] p[t] != p[0]
}

/// Standard whole-string replace: the leftmost occurrence is replaced,
/// then the rest of the string after it, up to an optional budget.
pub open spec fn str_replace_n(
    s: Seq<char>,
    p: Seq<char>,
    r: Seq<char>,
    rem: Option<usize>,
) -> Seq<char>
    decreases s.len(),
{
    if p.len() == 0 {
        s
    } else if rem == Some(0usize) {
        s
    } else if s.len() == 0 {
        s
    } else if is_match_at(s, p, 0) {
        r + str_replace_n(s.skip(p.len() as int), p, r, rem_dec(rem))
    } else {
        s.take(1) + str_replace_n(s.skip(1), p, r, rem)
    }
}

/// A string shorter than the pattern is left unchanged.
pub proof fn lemma_str_replace_short(s: Seq<char>, p: Seq<char>, r: Seq<char>, rem: Option<usize>)
    requires
        s.len() < p.len(),
    ensures
        str_replace_n(s, p, r, rem) == s,
    decreases s.len(),
{
    if p.len() == 0 || rem == Some(0usize) || s.len() == 0 {
    } else {
        lemma_str_replace_short(s.skip(1), p, r, rem);
        assert(s.take(1) + s.skip(1) =~= s);
    }
}

/// A prefix free of occurrences passes through a whole-string replace
/// unchanged.
pub proof fn lemma_str_replace_skip(
    s: Seq<char>,
    p: Seq<char>,
    r: Seq<char>,
    rem: Option<usize>,
    m: int,
)
    requires
        p.len() > 0,
        0 <= m <= s.len(),
        forall|t: int| 0 <= t < m ==> !is_match_at(s, p, t),
    ensures
        str_replace_n(s, p, r, rem) == s.take(m) + str_replace_n(s.skip(m), p, r, rem),
    decreases m,
{
    if m == 0 {
        assert(s.skip(0) =~= s);
        assert(s.take(0) + str_replace_n(s, p, r, rem) =~= str_replace_n(s, p, r, rem));
    } else if rem == Some(0usize) {
        assert(s.take(m) + s.skip(m) =~= s);
    } else {
        assert(!is_match_at(s, p, 0));
        assert forall|t: int| 0 <= t < m - 1 implies !is_match_at(s.skip(1), p, t) by {
            if is_match_at(s.skip(1), p, t) {
                assert(s.skip(1).subrange(t, t + p.len()) =~= s.subrange(t + 1, t + 1 + p.len()));
                assert(is_match_at(s, p, t + 1));
            }
        }
        lemma_str_replace_skip(s.skip(1), p, r, rem, m - 1);
        assert(s.skip(1).take(m - 1) =~= s.subrange(1, m));
        assert(s.skip(1).skip(m - 1) =~= s.skip(m));
        assert(s.take(1) + (s.subrange(1, m) + str_replace_n(s.skip(m), p, r, rem)) =~= s.take(m)
            + str_replace_n(s.skip(m), p, r, rem));
    }
}

/// The streaming matcher, run to the end of the stream and flushed, equals
/// the standard whole-string replace — for simple patterns, starting from
/// any matched prefix held in the cursor.
pub proof fn lemma_rep_emit(p: Seq<char>, r: Seq<char>, rem: Option<usize>, cur: nat, s: Seq<char>)
    requires
        p.len() > 0,
        simple_pattern(p),
        cur < p.len(),
        rem == Some(0usize) ==> cur == 0,
    ensures
        ({
            let (c2, r2, o) = rep_fold(p, r, cur, rem, s);
            o + p.take(c2 as int) == str_replace_n(p.take(cur as int) + s, p, r, rem)
        }),
    decreases s.len(),
{
    let u = p.take(cur as int) + s;
    let (c2, r2, o) = rep_fold(p, r, cur, rem, s);
    if s.len() == 0 {
        assert(u =~= p.take(cur as int));
        lemma_str_replace_short(p.take(cur as int), p, r, rem);
        assert(Seq::<char>::empty() + p.take(cur as int) =~= p.take(cur as int));
    } else if rem == Some(0usize) {
        assert(u =~= s);
        assert(s + p.take(0) =~= s);
    } else {
        let c = s[0];
        if cur < p.len() && c == p[cur as int] {
            if cur + 1 == p.len() {
                let rem2 = rem_dec(rem);
                lemma_rep_emit(p, r, rem2, 0, s.skip(1));
                let (c3, r3, o3) = rep_fold(p, r, 0, rem2, s.skip(1));
                // `u` starts with the whole pattern
                assert(u.subrange(0, p.len() as int) =~= p);
                assert(is_match_at(u, p, 0));
                assert(u.skip(p.len() as int) =~= s.skip(1));
                assert(p.take(0) + s.skip(1) =~= s.skip(1));
                assert((r + o3) + p.take(c3 as int) =~= r + (o3 + p.take(c3 as int)));
            } else {
                lemma_rep_emit(p, r, rem, cur + 1, s.skip(1));
                assert(p.take(cur + 1 as int) + s.skip(1) =~= u);
            }
        } else {
            // mismatch: no occurrence can start inside the matched prefix
            assert forall|t: int| 0 <= t < cur implies !is_match_at(u, p, t) by {
                if is_match_at(u, p, t) {
                    assert(u.subrange(t, t + p.len())[cur - t] == p[cur - t]);
                    if t == 0 {
                        assert(u[cur as int] == p[cur as int]);
                        assert(u[cur as int] == c);
                    } else {
                        assert(u.subrange(t, t + p.len())[0] == p[0]);
                        assert(u[t] == p[0]);
                        assert(u[t] == p[t]);
                    }
                }
            }
            let flushed = p.take(cur as int);
            if p.len() > 0 && c == p[0] {
                assert(cur >= 1);
                assert(p.len() >= 2);
                lemma_rep_emit(p, r, rem, 1, s.skip(1));
                let (c3, r3, o3) = rep_fold(p, r, 1, rem, s.skip(1));
                lemma_str_replace_skip(u, p, r, rem, cur as int);
                assert(u.take(cur as int) =~= flushed);
                assert(u.skip(cur as int) =~= s);
                assert(p.take(1) + s.skip(1) =~= s);
                assert((flushed + o3) + p.take(c3 as int) =~= flushed + (o3 + p.take(c3 as int)));
            } else {
                assert(!is_match_at(u, p, cur as int)) by {
                    if is_match_at(u, p, cur as int) {
                        assert(u.subrange(cur as int, cur as int + p.len())[0] == p[0]);
                        assert(u[cur as int] == p[0]);
                    }
                }
                lemma_rep_emit(p, r, rem, 0, s.skip(1));
                let (c3, r3, o3) = rep_fold(p, r, 0, rem, s.skip(1));
                lemma_str_replace_skip(u, p, r, rem, cur as int + 1);
                assert(u.take(cur as int + 1) =~= flushed.push(c));
                assert(u.skip(cur as int + 1) =~= s.skip(1));
                assert(p.take(0) + s.skip(1) =~= s.skip(1));
                assert((flushed.push(c) + o3) + p.take(c3 as int) =~= flushed.push(c) + (o3
                    + p.take(c3 as int)));
            }
        }
    }
}

/// Factory for the streaming replace matcher.
pub struct Replace {
    pub pattern: Vec<char>,
    pub with_text: Vec<char>,
    pub count: Option<usize>,
}

/// The running matcher: `cursor` counts how many pattern characters match
/// the tail of the input seen so far; `remaining` is the replacement
/// budget.
pub struct ReplaceRt {
    pub pattern: Vec<char>,
    pub with_text: Vec<char>,
    pub cursor: usize,
    pub remaining: Option<usize>,
}

/// Replace each occurrence of the non-empty `pattern` with `with_text`,
/// capped at `count` occurrences when a count is given.
pub fn replace(pattern: Vec<char>, with_text: Vec<char>, count: Option<usize>) -> (r: Replace)
    requires
        pattern@.len() > 0,
    ensures
        r.pattern@ == pattern@,
        r.with_text@ == with_text@,
        r.count == count,
{
    Replace { pattern, with_text, count }
}

impl DisplayPipe for ReplaceRt {
    open spec fn inv(self) -> bool {
        self.pattern@.len() > 0 && self.cursor < self.pattern@.len() && (self.remaining == Some(
            0usize,
        ) ==> self.cursor == 0)
    }

    open spec fn feed(self, s: Seq<char>) -> (Self, Seq<char>) {
        let (c2, r2, o) = rep_fold(
            self.pattern@,
            self.with_text@,
            self.cursor as nat,
            self.remaining,
            s,
        );
        (
            ReplaceRt {
                pattern: self.pattern,
                with_text: self.with_text,
                cursor: c2 as usize,
                remaining: r2,
            },
            o,
        )
    }

    open spec fn flush(self) -> (Self, Seq<char>) {
        (
            ReplaceRt {
                pattern: self.pattern,
                with_text: self.with_text,
                cursor: 0,
                remaining: self.remaining,
            },
            self.pattern@.take(self.cursor as int),
        )
    }

    open spec fn quiet(self) -> bool {
        false
    }

    open spec fn oblivious(self) -> bool {
        true
    }

    proof fn step_wf(self, s: Seq<char>) {
        lemma_rep_fold_inv(
            self.pattern@,
            self.with_text@,
            self.cursor as nat,
            self.remaining,
            s,
        );
    }

    proof fn empty_law(self) {
    }

    proof fn quiet_law(self) {
    }

    proof fn concat_law(self, a: Seq<char>, b: Seq<char>) {
        crate::lemma_vec_len_bound(&self.pattern);
        lemma_rep_fold_inv(self.pattern@, self.with_text@, self.cursor as nat, self.remaining, a);
        lemma_rep_fold_concat(
            self.pattern@,
            self.with_text@,
            self.cursor as nat,
            self.remaining,
            a,
            b,
        );
        let (c1, r1, o1) = rep_fold(
            self.pattern@,
            self.with_text@,
            self.cursor as nat,
            self.remaining,
            a,
        );
        assert((c1 as usize) as nat == c1);
    }

    open spec fn equiv(self, other: Self) -> bool {
        self.pattern@ == other.pattern@ && self.with_text@ == other.with_text@ && self.cursor
            == other.cursor && self.remaining == other.remaining
    }

    proof fn equiv_law(self, other: Self, s: Seq<char>) {
    }

    fn handle(&mut self, out: &mut Vec<char>, s: &Vec<char>) {
        let ghost p = self.pattern@;
        let ghost w = self.with_text@;
        let ghost out0 = out@;
        let ghost fold_full = rep_fold(p, w, self.cursor as nat, self.remaining, s@);
        let mut cur = self.cursor;
        let mut rem = self.remaining;
        let plen = self.pattern.len();
        let mut i: usize = 0;
        let ghost mut emitted = Seq::<char>::empty();
        proof {
            assert(s@.skip(0) =~= s@);
            assert(out0 + emitted =~= out0);
        }
        while i < s.len()
            invariant
                i <= s@.len(),
                self.pattern@ == p,
                self.with_text@ == w,
                p.len() > 0,
                plen == p.len(),
                cur < p.len(),
                rem == Some(0usize) ==> cur == 0,
                out@ == out0 + emitted,
                ({
                    let (c2, r2, o2) = rep_fold(p, w, cur as nat, rem, s@.skip(i as int));
                    fold_full == (c2, r2, emitted + o2)
                }),
            decreases s@.len() - i,
        {
            let ghost rest = s@.skip(i as int);
            proof {
                assert(rest.len() > 0);
                assert(rest[0] == s@[i as int]);
                assert(rest.skip(1) =~= s@.skip(i + 1 as int));
            }
            let c = s[i];
            let mut done = false;
            match rem {
                Some(k) => {
                    if k == 0 {
                        push_range(out, s, i, s.len());
                        proof {
                            assert(rest =~= s@.subrange(i as int, s@.len() as int));
                            emitted = emitted + rest;
                            assert(out@ == out0 + emitted);
                            assert(s@.skip(s@.len() as int) =~= Seq::<char>::empty());
                            assert(fold_full == (
                                cur as nat,
                                rem,
                                emitted + Seq::<char>::empty(),
                            )) by {
                                assert(emitted + Seq::<char>::empty() =~= emitted);
                            }
                        }
                        i = s.len();
                        done = true;
                    }
                },
                None => {},
            }
            if !done {
                if c == self.pattern[cur] {
                    if cur + 1 == plen {
                        let with_text = crate::simple::clone_chars(&self.with_text);
                        push_range(out, &with_text, 0, with_text.len());
                        proof {
                            assert(with_text@.subrange(0, with_text@.len() as int) =~= w);
                        }
                        cur = 0;
                        match rem {
                            Some(k) => {
                                rem = Some(k - 1);
                            },
                            None => {},
                        }
                        proof {
                            let prev = emitted;
                            emitted = emitted + w;
                            assert(out@ =~= out0 + emitted);
                            let (c3, r3, o3) = rep_fold(p, w, 0, rem, rest.skip(1));
                            assert(fold_full == (c3, r3, emitted + o3)) by {
                                assert(prev + (w + o3) =~= (prev + w) + o3);
                            }
                        }
                        i = i + 1;
                    } else {
                        cur = cur + 1;
                        i = i + 1;
                    }
                } else {
                    push_range(out, &self.pattern, 0, cur);
                    proof {
                        assert(self.pattern@.subrange(0, cur as int) =~= p.take(cur as int));
                    }
                    let ghost flushed = p.take(cur as int);
                    if c == self.pattern[0] {
                        cur = 1;
                        proof {
                            let prev = emitted;
                            emitted = emitted + flushed;
                            let (c3, r3, o3) = rep_fold(p, w, 1, rem, rest.skip(1));
                            assert(fold_full == (c3, r3, emitted + o3)) by {
                                assert(prev + (flushed + o3) =~= (prev + flushed) + o3);
                            }
                        }
                    } else {
                        out.push(c);
                        cur = 0;
                        proof {
                            let prev = emitted;
                            emitted = emitted + flushed.push(c);
                            assert(out@ =~= out0 + emitted);
                            let (c3, r3, o3) = rep_fold(p, w, 0, rem, rest.skip(1));
                            assert(fold_full == (c3, r3, emitted + o3)) by {
                                assert(prev + (flushed.push(c) + o3) =~= (prev + flushed.push(c))
                                    + o3);
                            }
                        }
                    }
                    i = i + 1;
                }
            }
        }
        proof {
            assert(s@.skip(s@.len() as int) =~= Seq::<char>::empty());
            assert(emitted + Seq::<char>::empty() =~= emitted);
        }
        self.cursor = cur;
        self.remaining = rem;
    }

    fn end(&mut self, out: &mut Vec<char>) {
        push_range(out, &self.pattern, 0, self.cursor);
        proof {
            assert(self.pattern@.subrange(0, self.cursor as int) =~= self.pattern@.take(
                self.cursor as int,
            ));
        }
        self.cursor = 0;
    }
}

impl CreateDisplayPipe for Replace {
    type Pipe = ReplaceRt;

    open spec fn fac_inv(&self) -> bool {
        self.pattern@.len() > 0
    }

    open spec fn creates(&self, p: Self::Pipe) -> bool {
        p.pattern@ == self.pattern@ && p.with_text@ == self.with_text@ && p.cursor == 0
            && p.remaining == self.count
    }

    proof fn creates_wf(&self, p: Self::Pipe) {
    }

    proof fn creates_equiv(&self, p: Self::Pipe, q: Self::Pipe) {
    }

    fn create_pipe(&self) -> (r: Self::Pipe) {
        ReplaceRt {
            pattern: crate::simple::clone_chars(&self.pattern),
            with_text: crate::simple::clone_chars(&self.with_text),
            cursor: 0,
            remaining: self.count,
        }
    }
}

/// A freshly created replace matcher, run over a whole stream, performs a
/// standard bounded whole-string replace — for simple patterns.
pub proof fn lemma_replace_correct(q: ReplaceRt, s: Seq<char>)
    requires
        q.inv(),
        q.cursor == 0,
        simple_pattern(q.pattern@),
    ensures
        crate::emit(q, s) == str_replace_n(s, q.pattern@, q.with_text@, q.remaining),
{
    let p = q.pattern@;
    crate::lemma_vec_len_bound(&q.pattern);
    lemma_rep_emit(p, q.with_text@, q.remaining, 0, s);
    lemma_rep_fold_inv(p, q.with_text@, 0, q.remaining, s);
    assert(p.take(0) + s =~= s);
    let (c2, r2, o) = rep_fold(p, q.with_text@, 0, q.remaining, s);
    assert((c2 as usize) as int == c2 as int);
    assert(crate::emit(q, s) == o + p.take(c2 as int));
}

/// [`lemma_replace_correct`], for a stream cut into chunks in any way:
/// the matcher replaces across chunk boundaries as if the stream were one
/// string.
pub proof fn lemma_replace_run(q: ReplaceRt, chunks: Seq<Seq<char>>)
    requires
        q.inv(),
        q.cursor == 0,
        simple_pattern(q.pattern@),
    ensures
        crate::run_pipe(q, chunks) == str_replace_n(
            crate::concat_all(chunks),
            q.pattern@,
            q.with_text@,
            q.remaining,
        ),
{
    crate::lemma_chunk_invariance(q, chunks);
    lemma_replace_correct(q, crate::concat_all(chunks));
}

} // verus!

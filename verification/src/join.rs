//! Joining a finite sequence of text items with a separator: the
//! separator stands between consecutive items only — never before the
//! first or after the last.

use vstd::prelude::*;

use crate::chunk_views;
use crate::simple::push_range;

verus! {

/// The items joined by the separator.
pub open spec fn join_spec(items: Seq<Seq<char>>, sep: Seq<char>) -> Seq<char>
    decreases items.len(),
{
    if items.len() == 0 {
        Seq::<char>::empty()
    } else if items.len() == 1 {
        items[0]
    } else {
        items[0] + sep + join_spec(items.skip(1), sep)
    }
}

/// Joining one more item appends a separator and the item.
pub proof fn lemma_join_snoc(items: Seq<Seq<char>>, sep: Seq<char>, i: int)
    requires
        1 <= i < items.len(),
    ensures
        join_spec(items.take(i + 1), sep) == join_spec(items.take(i), sep) + sep + items[i],
    decreases i,
{
    if i == 1 {
        assert(items.take(1)[0] == items[0]);
        assert(items.take(2)[0] == items[0]);
        assert(items.take(2).skip(1) =~= seq![items[1]]);
        assert(join_spec(items.take(2).skip(1), sep) == items[1]);
    } else {
        assert(items.take(i)[0] == items[0]);
        assert(items.take(i + 1)[0] == items[0]);
        assert(items.take(i).skip(1) =~= items.skip(1).take(i - 1));
        assert(items.take(i + 1).skip(1) =~= items.skip(1).take(i));
        assert(items[i] == items.skip(1)[i - 1]);
        lemma_join_snoc(items.skip(1), sep, i - 1);
        assert((items[0] + sep + (join_spec(items.skip(1).take(i - 1), sep) + sep + items[i]))
            =~= ((items[0] + sep + join_spec(items.skip(1).take(i - 1), sep)) + sep + items[i]));
    }
}

/// A finite sequence of text items and a separator, joined on demand.
pub struct Join {
    pub items: Vec<Vec<char>>,
    pub sep: Vec<char>,
}

impl Join {
    /// The joined text: each item in order, the separator between
    /// consecutive items only.
    pub fn render(&self) -> (r: Vec<char>)
        ensures
            r@ == join_spec(chunk_views(self.items@), self.sep@),
    {
        let ghost vs = chunk_views(self.items@);
        let mut out: Vec<char> = Vec::new();
        let mut i: usize = 0;
        proof {
            assert(vs.take(0) =~= Seq::<Seq<char>>::empty());
        }
        while i < self.items.len()
            invariant
                i <= self.items@.len(),
                vs == chunk_views(self.items@),
                out@ == join_spec(vs.take(i as int), self.sep@),
            decreases self.items@.len() - i,
        {
            if i > 0 {
                push_range(&mut out, &self.sep, 0, self.sep.len());
                proof {
                    assert(self.sep@.subrange(0, self.sep@.len() as int) =~= self.sep@);
                }
            }
            push_range(&mut out, &self.items[i], 0, self.items[i].len());
            proof {
                assert(vs[i as int] == self.items@[i as int]@);
                assert(self.items@[i as int]@.subrange(
                    0,
                    self.items@[i as int]@.len() as int,
                ) =~= vs[i as int]);
                if i == 0 {
                    assert(vs.take(1)[0] == vs[0]);
                    assert(join_spec(vs.take(1), self.sep@) == vs[0]);
                    assert(out@ =~= vs[0]);
                } else {
                    lemma_join_snoc(vs, self.sep@, i as int);
                    assert(out@ =~= join_spec(vs.take(i as int), self.sep@) + self.sep@ + vs[
                        i as int
                    ]);
                }
            }
            i = i + 1;
        }
        proof {
            assert(vs.take(vs.len() as int) =~= vs);
        }
        out
    }
}

/// Anything that can be joined item by item with a separator.
pub trait JoinExt: Sized {
    /// Wrap the items and the separator for later rendering.
    fn lazy_join(self, sep: Vec<char>) -> Join;
}

impl JoinExt for Vec<Vec<char>> {
    fn lazy_join(self, sep: Vec<char>) -> (j: Join)
        ensures
            j.items == self,
            j.sep == sep,
    {
        Join { items: self, sep }
    }
}

} // verus!

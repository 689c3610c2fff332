//! Splitting a sequence of items by a function that accepts or rejects each.

use vstd::prelude::*;

verus! {

/// The accepted values of a sequence of results, in order.
pub open spec fn oks<L, R>(rs: Seq<Result<L, R>>) -> Seq<L>
    decreases rs.len(),
{
    if rs.len() == 0 {
        Seq::empty()
    } else {
        let prev = oks(rs.drop_last());
        match rs.last() {
            Ok(l) => prev.push(l),
            Err(_) => prev,
        }
    }
}

/// The rejected values of a sequence of results, in order.
pub open spec fn errs<L, R>(rs: Seq<Result<L, R>>) -> Seq<R>
    decreases rs.len(),
{
    if rs.len() == 0 {
        Seq::empty()
    } else {
        let prev = errs(rs.drop_last());
        match rs.last() {
            Ok(_) => prev,
            Err(r) => prev.push(r),
        }
    }
}

/// Collections whose items can be partitioned.
pub trait Itertools<T>: Sized {
    /// The items, in order.
    spec fn items(&self) -> Seq<T>;

    /// Applies `predicate` to each item in order and gathers what it accepts
    /// and what it rejects, each in order.
    fn partition_result<L, R, F: Fn(T) -> Result<L, R>>(self, predicate: F) -> (r: (Vec<L>, Vec<R>))
        requires
            forall|x: T| call_requires(predicate, (x,)),
        ensures
            exists|res: Seq<Result<L, R>>|
                #![trigger oks(res)]
                res.len() == self.items().len() && (forall|i: int|
                    0 <= i < res.len() ==> call_ensures(predicate, (self.items()[i],), #[trigger] res[i]))
                    && r.0@ == oks(res) && r.1@ == errs(res),
    ;
}

impl<T> Itertools<T> for Vec<T> {
    open spec fn items(&self) -> Seq<T> {
        self@
    }

    fn partition_result<L, R, F: Fn(T) -> Result<L, R>>(self, predicate: F) -> (r: (Vec<L>, Vec<R>)) {
        let ghost orig = self@;
        let mut rest = self;
        let mut left: Vec<L> = Vec::new();
        let mut right: Vec<R> = Vec::new();
        let ghost mut res: Seq<Result<L, R>> = Seq::empty();
        while rest.len() > 0
            invariant
                res.len() + rest.len() == orig.len(),
                rest@ == orig.skip(res.len() as int),
                forall|x: T| call_requires(predicate, (x,)),
                forall|i: int|
                    0 <= i < res.len() ==> call_ensures(predicate, (orig[i],), #[trigger] res[i]),
                left@ == oks(res),
                right@ == errs(res),
            decreases rest.len(),
        {
            let ghost before = rest@;
            let x = rest.remove(0);
            assert(rest@ =~= orig.skip(res.len() as int + 1));
            let out = predicate(x);
            let ghost o = out;
            let ghost prev = res;
            proof {
                res = res.push(o);
                assert(res.drop_last() =~= prev);
            }
            match out {
                Ok(v) => {
                    left.push(v);
                },
                Err(e) => {
                    right.push(e);
                },
            }
            assert forall|i: int| 0 <= i < res.len() implies call_ensures(
                predicate,
                (orig[i],),
                #[trigger] res[i],
            ) by {
                if i < prev.len() {
                    assert(res[i] == prev[i]);
                } else {
                    assert(orig[i] == before[0]);
                }
            }
        }
        (left, right)
    }
}

/// Partitioning loses nothing: every result is accepted or rejected.
pub proof fn lemma_partition_sizes<L, R>(rs: Seq<Result<L, R>>)
    ensures
        oks(rs).len() + errs(rs).len() == rs.len(),
    decreases rs.len(),
{
    if rs.len() > 0 {
        lemma_partition_sizes(rs.drop_last());
    }
}

} // verus!

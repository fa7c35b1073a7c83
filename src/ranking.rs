//! A stable ordering of values by a rank, highest rank first.
use vstd::prelude::*;

verus! {

broadcast use vstd::seq_lib::group_seq_properties;

/// Values that carry an integer rank.
pub trait Ranked: Copy + Sized {
    spec fn rank(&self) -> int;

    fn rank_of(&self) -> (r: i128)
        ensures
            r as int == self.rank(),
    ;
}

/// No element ranks above an earlier one.
pub open spec fn descending<T: Ranked>(s: Seq<T>) -> bool {
    forall|i: int, j: int| 0 <= i < j < s.len() ==> (#[trigger] s[i]).rank() >= (#[trigger] s[j]).rank()
}

/// The elements of `s` of rank `k`, in order.
pub open spec fn of_rank<T: Ranked>(s: Seq<T>, k: int) -> Seq<T> {
    s.filter(|x: T| x.rank() == k)
}

/// `x` placed into `r` after every element that ranks at least as high.
pub open spec fn insert_ranked<T: Ranked>(r: Seq<T>, x: T) -> Seq<T>
    decreases r.len(),
{
    if r.len() == 0 {
        seq![x]
    } else if r.last().rank() >= x.rank() {
        r.push(x)
    } else {
        insert_ranked(r.drop_last(), x).push(r.last())
    }
}

/// `s` stably ordered by rank, highest first: equal ranks keep their order.
pub open spec fn by_rank<T: Ranked>(s: Seq<T>) -> Seq<T>
    decreases s.len(),
{
    if s.len() == 0 {
        s
    } else {
        insert_ranked(by_rank(s.drop_last()), s.last())
    }
}

proof fn lemma_insert_len<T: Ranked>(r: Seq<T>, x: T)
    ensures
        insert_ranked(r, x).len() == r.len() + 1,
    decreases r.len(),
{
    if r.len() > 0 && r.last().rank() < x.rank() {
        lemma_insert_len(r.drop_last(), x);
    }
}

proof fn lemma_insert_bound<T: Ranked>(r: Seq<T>, x: T, b: int)
    requires
        forall|i: int| 0 <= i < r.len() ==> (#[trigger] r[i]).rank() >= b,
        x.rank() >= b,
    ensures
        forall|i: int|
            0 <= i < insert_ranked(r, x).len() ==> (#[trigger] insert_ranked(r, x)[i]).rank() >= b,
    decreases r.len(),
{
    if r.len() > 0 && r.last().rank() < x.rank() {
        lemma_insert_len(r.drop_last(), x);
        lemma_insert_bound(r.drop_last(), x, b);
    }
}

proof fn lemma_insert_descending<T: Ranked>(r: Seq<T>, x: T)
    requires
        descending(r),
    ensures
        descending(insert_ranked(r, x)),
    decreases r.len(),
{
    if r.len() > 0 && r.last().rank() < x.rank() {
        let r0 = r.drop_last();
        lemma_insert_descending(r0, x);
        lemma_insert_bound(r0, x, r.last().rank());
    }
}

proof fn lemma_insert_of_rank<T: Ranked>(r: Seq<T>, x: T, k: int)
    ensures
        of_rank(insert_ranked(r, x), k) == if x.rank() == k {
            of_rank(r, k).push(x)
        } else {
            of_rank(r, k)
        },
    decreases r.len(),
{
    broadcast use Seq::lemma_filter_push;

    let p = |y: T| y.rank() == k;
    if r.len() == 0 {
        assert(seq![x] == Seq::<T>::empty().push(x));
        assert(Seq::<T>::empty().filter(p) =~= Seq::<T>::empty());
    } else if r.last().rank() >= x.rank() {
    } else {
        let r0 = r.drop_last();
        lemma_insert_of_rank(r0, x, k);
        assert(r0.push(r.last()) == r);
    }
}

/// The rank order lists every element once, highest rank first, and keeps
/// the order of the elements of each rank.
pub proof fn lemma_by_rank<T: Ranked>(s: Seq<T>)
    ensures
        by_rank(s).len() == s.len(),
        descending(by_rank(s)),
        forall|k: int| #[trigger] of_rank(by_rank(s), k) == of_rank(s, k),
    decreases s.len(),
{
    broadcast use Seq::lemma_filter_push;

    if s.len() == 0 {
    } else {
        let s0 = s.drop_last();
        lemma_by_rank(s0);
        lemma_insert_descending(by_rank(s0), s.last());
        lemma_insert_len(by_rank(s0), s.last());
        assert forall|k: int| #[trigger] of_rank(by_rank(s), k) == of_rank(s, k) by {
            lemma_insert_of_rank(by_rank(s0), s.last(), k);
            assert(s0.push(s.last()) == s);
        }
    }
}

/// `s` in rank order, highest first; elements of equal rank keep their order.
pub fn sort_by_rank<T: Ranked>(s: &Vec<T>) -> (r: Vec<T>)
    ensures
        r@ == by_rank(s@),
{
    let mut out: Vec<T> = Vec::new();
    let mut i: usize = 0;
    while i < s.len()
        invariant
            i <= s@.len(),
            out@ == by_rank(s@.subrange(0, i as int)),
        decreases s@.len() - i,
    {
        let x = s[i];
        let xr = x.rank_of();
        let mut p: usize = out.len();
        assert(out@.subrange(0, p as int) =~= out@);
        assert(out@.subrange(p as int, p as int) =~= Seq::<T>::empty());
        while p > 0 && out[p - 1].rank_of() < xr
            invariant
                p <= out@.len(),
                xr as int == x.rank(),
                insert_ranked(out@, x) == insert_ranked(out@.subrange(0, p as int), x) + out@.subrange(
                    p as int,
                    out@.len() as int,
                ),
            decreases p,
        {
            let ghost head = out@.subrange(0, p as int);
            assert(head.drop_last() =~= out@.subrange(0, p - 1));
            assert(insert_ranked(out@.subrange(0, p - 1), x).push(head.last()) + out@.subrange(
                p as int,
                out@.len() as int,
            ) =~= insert_ranked(out@.subrange(0, p - 1), x) + out@.subrange(
                p - 1,
                out@.len() as int,
            ));
            p -= 1;
        }
        proof {
            let head = out@.subrange(0, p as int);
            if p == 0 {
                assert(head =~= Seq::<T>::empty());
            }
            assert(insert_ranked(out@, x) =~= out@.insert(p as int, x));
            assert(s@.subrange(0, i + 1).drop_last() =~= s@.subrange(0, i as int));
        }
        out.insert(p, x);
        i += 1;
    }
    assert(s@.subrange(0, i as int) =~= s@);
    out
}

} // verus!

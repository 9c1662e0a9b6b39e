use vstd::prelude::*;
use crate::step::{Step, StepModel, steps_view};

verus! {

/// Steps in ascending timestamp order.
pub open spec fn time_sorted(r: Seq<StepModel>) -> bool {
    forall|i: int, j: int| 0 <= i < j < r.len() ==> r[i].timestamp <= r[j].timestamp
}

pub open spec fn at_time(t: u64) -> spec_fn(StepModel) -> bool {
    |s: StepModel| s.timestamp == t
}

/// `r` is `h` sorted by timestamp, steps with equal timestamps kept in the
/// order they have in `h`.
pub open spec fn stable_time_order(r: Seq<StepModel>, h: Seq<StepModel>) -> bool {
    &&& time_sorted(r)
    &&& forall|t: u64| #[trigger] r.filter(at_time(t)) == h.filter(at_time(t))
}

proof fn lemma_filter_none(b: Seq<StepModel>, t: u64)
    requires
        forall|k: int| 0 <= k < b.len() ==> b[k].timestamp != t,
    ensures
        b.filter(at_time(t)) == Seq::<StepModel>::empty(),
    decreases b.len(),
{
    reveal(Seq::filter);
    if b.len() > 0 {
        lemma_filter_none(b.drop_last(), t);
    }
}

proof fn lemma_filter_push(a: Seq<StepModel>, x: StepModel, t: u64)
    ensures
        a.push(x).filter(at_time(t)) == (if x.timestamp == t {
            a.filter(at_time(t)).push(x)
        } else {
            a.filter(at_time(t))
        }),
{
    reveal(Seq::filter);
    assert(a.push(x).drop_last() =~= a);
}

/// Inserting `x` after every step that is not later than it, and before every
/// later one, keeps each timestamp's steps in order with `x` last among its own.
proof fn lemma_filter_insert(s: Seq<StepModel>, pos: int, x: StepModel, t: u64)
    requires
        0 <= pos <= s.len(),
        forall|k: int| pos <= k < s.len() ==> s[k].timestamp > x.timestamp,
    ensures
        s.insert(pos, x).filter(at_time(t)) == (if x.timestamp == t {
            s.filter(at_time(t)).push(x)
        } else {
            s.filter(at_time(t))
        }),
{
    let a = s.subrange(0, pos);
    let b = s.subrange(pos, s.len() as int);
    assert(s.insert(pos, x) =~= a.push(x) + b);
    assert(s =~= a + b);
    Seq::filter_distributes_over_add(a.push(x), b, at_time(t));
    Seq::filter_distributes_over_add(a, b, at_time(t));
    lemma_filter_push(a, x, t);
    if x.timestamp == t {
        lemma_filter_none(b, t);
        assert(a.filter(at_time(t)).push(x) + b.filter(at_time(t)) =~= (a.filter(at_time(t))
            + b.filter(at_time(t))).push(x));
    }
}

/// The steps of `h` sorted by timestamp; equal timestamps keep their order.
pub fn sort_by_time(h: &Vec<Step>) -> (r: Vec<Step>)
    ensures
        r@.len() == h@.len(),
        stable_time_order(steps_view(r@), steps_view(h@)),
{
    let n = h.len();
    let mut out: Vec<Step> = Vec::new();
    let mut i: usize = 0;
    while i < n
        invariant
            n == h@.len(),
            i <= n,
            out@.len() == i,
            time_sorted(steps_view(out@)),
            forall|t: u64| #[trigger]
                steps_view(out@).filter(at_time(t)) == steps_view(h@).take(i as int).filter(
                    at_time(t),
                ),
        decreases n - i,
    {
        let x = h[i].duplicate();
        let ts = x.timestamp;
        let ghost ov = steps_view(out@);
        let mut pos: usize = 0;
        while pos < out.len() && out[pos].timestamp <= ts
            invariant
                pos <= out@.len(),
                ov == steps_view(out@),
                forall|k: int| 0 <= k < pos ==> ov[k].timestamp <= ts,
            decreases out@.len() - pos,
        {
            pos = pos + 1;
        }
        assert forall|k: int| pos <= k < ov.len() implies ov[k].timestamp > ts by {
            assert(ov[pos as int].timestamp > ts);
        }
        let ghost xv = x@;
        out.insert(pos, x);
        proof {
            assert(steps_view(out@) =~= ov.insert(pos as int, xv));
            let nv = ov.insert(pos as int, xv);
            assert forall|a: int, b: int| 0 <= a < b < nv.len() implies nv[a].timestamp
                <= nv[b].timestamp by {
                if b < pos {
                } else if b == pos {
                } else if a < pos {
                    assert(nv[b] == ov[b - 1]);
                } else if a == pos {
                    assert(nv[b] == ov[b - 1]);
                } else {
                    assert(nv[a] == ov[a - 1]);
                    assert(nv[b] == ov[b - 1]);
                }
            }
            let hv = steps_view(h@);
            assert(hv.take(i + 1) =~= hv.take(i as int).push(xv));
            assert forall|t: u64| #[trigger]
                steps_view(out@).filter(at_time(t)) == hv.take(i + 1).filter(at_time(t)) by {
                lemma_filter_insert(ov, pos as int, xv, t);
                lemma_filter_push(hv.take(i as int), xv, t);
            }
        }
        i = i + 1;
    }
    proof {
        assert(steps_view(h@).take(n as int) =~= steps_view(h@));
    }
    out
}

} // verus!

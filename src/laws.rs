use vstd::prelude::*;
use crate::ledger::{
    appended, has_product, history, index_of, lemma_history_at, ledger_wf, products, restored, total,
};
use crate::order::{at_time, stable_time_order};
use crate::step::{first_blank_field, stamped, StepModel};
use crate::text::blank;

verus! {

/// The sum of the history lengths of the products `ps`.
pub open spec fn history_lengths(m: Seq<(Seq<char>, Seq<StepModel>)>, ps: Seq<Seq<char>>) -> int
    decreases ps.len(),
{
    if ps.len() == 0 {
        0
    } else {
        history_lengths(m, ps.drop_last()) + history(m, ps.last()).len()
    }
}

/// Appending a step adds it at the end of its product's history and leaves
/// every other history as it was.
pub proof fn appended_history(m: Seq<(Seq<char>, Seq<StepModel>)>, s: StepModel, p: Seq<char>)
    requires
        ledger_wf(m),
    ensures
        history(appended(m, s), s.product_id) == history(m, s.product_id).push(s),
        p != s.product_id ==> history(appended(m, s), p) == history(m, p),
{
    let a = appended(m, s);
    if has_product(m, s.product_id) {
        let i = index_of(m, s.product_id);
        lemma_history_at(m, i);
        assert(a[i].0 == s.product_id);
        let j = index_of(a, s.product_id);
        if j != i {
            assert(a[j] == m[j]);
            if j < i {
                assert(m[j].0 != m[i].0);
            } else {
                assert(m[i].0 != m[j].0);
            }
        }
        if p != s.product_id {
            if has_product(m, p) {
                let k = index_of(m, p);
                lemma_history_at(m, k);
                assert(a[k].0 == p);
                let h = index_of(a, p);
                assert(a[h] == m[h]);
                if h < k {
                    assert(m[h].0 != m[k].0);
                } else if h > k {
                    assert(m[k].0 != m[h].0);
                }
            } else {
                if has_product(a, p) {
                    let h = index_of(a, p);
                    assert(m[h].0 == p);
                }
            }
        }
    } else {
        let n = m.len() as int;
        assert(a[n].0 == s.product_id);
        let j = index_of(a, s.product_id);
        if j < n {
            assert(m[j].0 == s.product_id);
        }
        assert(seq![s] =~= Seq::<StepModel>::empty().push(s));
        if p != s.product_id {
            if has_product(m, p) {
                let k = index_of(m, p);
                lemma_history_at(m, k);
                assert(a[k].0 == p);
                let h = index_of(a, p);
                assert(a[h] == m[h]);
                if h < k {
                    assert(m[h].0 != m[k].0);
                } else if h > k {
                    assert(m[k].0 != m[h].0);
                }
            } else {
                if has_product(a, p) {
                    let h = index_of(a, p);
                    assert(m[h].0 == p);
                }
            }
        }
    }
}

proof fn lemma_filter_all(r: Seq<StepModel>, t: u64)
    requires
        forall|k: int| 0 <= k < r.len() ==> r[k].timestamp == t,
    ensures
        r.filter(at_time(t)) == r,
    decreases r.len(),
{
    reveal(Seq::filter);
    if r.len() > 0 {
        lemma_filter_all(r.drop_last(), t);
        assert(r.drop_last().push(r.last()) =~= r);
    }
}

/// A history of one step reads back as exactly that step.
pub proof fn single_step_order(r: Seq<StepModel>, x: StepModel)
    requires
        stable_time_order(r, seq![x]),
    ensures
        r == seq![x],
{
    broadcast use Seq::lemma_filter_contains;

    let t = x.timestamp;
    assert forall|k: int| 0 <= k < r.len() implies r[k].timestamp == t by {
        let u = r[k].timestamp;
        if u != t {
            assert(r.filter(at_time(u)) == seq![x].filter(at_time(u)));
            assert(r.filter(at_time(u)).contains(r[k]));
            assert(seq![x].filter(at_time(u)) == Seq::<StepModel>::empty()) by {
                reveal_with_fuel(Seq::filter, 2);
                assert(seq![x].drop_last() =~= Seq::<StepModel>::empty());
            }
        }
    }
    lemma_filter_all(r, t);
    lemma_filter_all(seq![x], t);
    assert(r.filter(at_time(t)) == seq![x].filter(at_time(t)));
}

/// A valid step submitted for a new product becomes that product's whole
/// history, carrying the store's timestamp in place of the caller's.
pub proof fn first_step_of_new_product(
    m: Seq<(Seq<char>, Seq<StepModel>)>,
    s: StepModel,
    now: u64,
    r: Seq<StepModel>,
)
    requires
        ledger_wf(m),
        first_blank_field(s) is None,
        !has_product(m, s.product_id),
        stable_time_order(r, history(appended(m, stamped(s, now)), s.product_id)),
    ensures
        r == seq![stamped(s, now)],
        r[0].timestamp == now,
{
    appended_history(m, stamped(s, now), s.product_id);
    assert(history(m, s.product_id).push(stamped(s, now)) =~= seq![stamped(s, now)]);
    single_step_order(r, stamped(s, now));
}

/// Notes that are empty or only whitespace are recorded as absent.
pub proof fn blank_notes_recorded_absent(s: StepModel, now: u64)
    requires
        s.notes matches Some(t) && blank(t),
    ensures
        stamped(s, now).notes is None,
{
}

/// Every listed product has at least one step.
pub proof fn listed_products_have_steps(m: Seq<(Seq<char>, Seq<StepModel>)>, i: int)
    requires
        ledger_wf(m),
        0 <= i < products(m).len(),
    ensures
        history(m, products(m)[i]).len() > 0,
{
    lemma_history_at(m, i);
}

/// After a step is appended, its product is listed.
pub proof fn appended_product_is_listed(m: Seq<(Seq<char>, Seq<StepModel>)>, s: StepModel)
    requires
        ledger_wf(m),
    ensures
        products(appended(m, s)).contains(s.product_id),
{
    let a = appended(m, s);
    if has_product(m, s.product_id) {
        let i = index_of(m, s.product_id);
        assert(products(a)[i] == s.product_id);
    } else {
        assert(products(a)[m.len() as int] == s.product_id);
    }
}

/// The step count equals the sum of the history lengths of the listed
/// products.
pub proof fn total_is_sum_of_histories(m: Seq<(Seq<char>, Seq<StepModel>)>)
    requires
        ledger_wf(m),
    ensures
        total(m) == history_lengths(m, products(m)),
{
    lemma_prefix_sums(m, m.len() as int);
    assert(m.take(m.len() as int) =~= m);
    assert(products(m).take(m.len() as int) =~= products(m));
}

proof fn lemma_prefix_sums(m: Seq<(Seq<char>, Seq<StepModel>)>, k: int)
    requires
        ledger_wf(m),
        0 <= k <= m.len(),
    ensures
        total(m.take(k)) == history_lengths(m, products(m).take(k)),
    decreases k,
{
    if k > 0 {
        lemma_prefix_sums(m, k - 1);
        assert(m.take(k).drop_last() =~= m.take(k - 1));
        assert(products(m).take(k).drop_last() =~= products(m).take(k - 1));
        lemma_history_at(m, k - 1);
    } else {
        assert(m.take(0) =~= Seq::<(Seq<char>, Seq<StepModel>)>::empty());
        assert(products(m).take(0) =~= Seq::<Seq<char>>::empty());
    }
}

/// Restoring from a snapshot of a ledger gives back that ledger: the same
/// products in the same order, the same steps with the same fields.
pub proof fn snapshot_restore_round_trip(m: Seq<(Seq<char>, Seq<StepModel>)>)
    requires
        ledger_wf(m),
    ensures
        restored(m) == Some(m),
{
}

} // verus!

use vstd::prelude::*;
use vstd::string::*;
use crate::order::{sort_by_time, stable_time_order};
use crate::step::{
    field_message, first_blank_field, stamped, steps_view, valid_step, validate, AddStepResult,
    Step, StepModel,
};
use crate::text::{decimal, push_decimal};

verus! {

/// All steps recorded for one product, in the order they were appended.
#[derive(Debug)]
pub struct ProductHistory {
    pub product_id: String,
    pub steps: Vec<Step>,
}

impl View for ProductHistory {
    type V = (Seq<char>, Seq<StepModel>);

    open spec fn view(&self) -> (Seq<char>, Seq<StepModel>) {
        (self.product_id@, steps_view(self.steps@))
    }
}

/// The models of a sequence of product histories.
pub open spec fn entries_view(v: Seq<ProductHistory>) -> Seq<(Seq<char>, Seq<StepModel>)> {
    v.map_values(|e: ProductHistory| e@)
}

/// Whether some entry is filed under `p`.
pub open spec fn has_product(m: Seq<(Seq<char>, Seq<StepModel>)>, p: Seq<char>) -> bool {
    exists|i: int| 0 <= i < m.len() && #[trigger] m[i].0 == p
}

/// The position of an entry filed under `p`, where there is one.
pub open spec fn index_of(m: Seq<(Seq<char>, Seq<StepModel>)>, p: Seq<char>) -> int {
    choose|i: int| 0 <= i < m.len() && #[trigger] m[i].0 == p
}

/// The steps recorded for `p`, in append order; empty for an unknown product.
pub open spec fn history(m: Seq<(Seq<char>, Seq<StepModel>)>, p: Seq<char>) -> Seq<StepModel> {
    if has_product(m, p) {
        m[index_of(m, p)].1
    } else {
        Seq::empty()
    }
}

/// The product ids, in the order the products first appeared.
pub open spec fn products(m: Seq<(Seq<char>, Seq<StepModel>)>) -> Seq<Seq<char>> {
    m.map_values(|e: (Seq<char>, Seq<StepModel>)| e.0)
}

/// The number of steps over all products.
pub open spec fn total(m: Seq<(Seq<char>, Seq<StepModel>)>) -> int
    decreases m.len(),
{
    if m.len() == 0 {
        0
    } else {
        total(m.drop_last()) + m.last().1.len()
    }
}

/// Distinct product ids, no product without steps, every step valid and filed
/// under its own product id, and a step count that fits in a `u64`.
pub open spec fn ledger_wf(m: Seq<(Seq<char>, Seq<StepModel>)>) -> bool {
    &&& forall|i: int, j: int| 0 <= i < j < m.len() ==> m[i].0 != m[j].0
    &&& forall|i: int| 0 <= i < m.len() ==> (#[trigger] m[i]).1.len() > 0
    &&& forall|i: int, k: int|
        0 <= i < m.len() && 0 <= k < m[i].1.len() ==> valid_step(#[trigger] m[i].1[k])
            && m[i].1[k].product_id == m[i].0
    &&& total(m) <= u64::MAX
}

/// The ledger after `s` is appended to the history of its product.
pub open spec fn appended(m: Seq<(Seq<char>, Seq<StepModel>)>, s: StepModel) -> Seq<
    (Seq<char>, Seq<StepModel>),
> {
    if has_product(m, s.product_id) {
        let i = index_of(m, s.product_id);
        m.update(i, (m[i].0, m[i].1.push(s)))
    } else {
        m.push((s.product_id, seq![s]))
    }
}

/// What restoring from `m` yields: the ledger it describes, if well formed.
pub open spec fn restored(m: Seq<(Seq<char>, Seq<StepModel>)>) -> Option<
    Seq<(Seq<char>, Seq<StepModel>)>,
> {
    if ledger_wf(m) {
        Some(m)
    } else {
        None
    }
}

/// The message that confirms a step was recorded for `p`.
pub open spec fn confirmation(p: Seq<char>) -> Seq<char> {
    "Step added successfully for product "@ + p
}

/// The one-line summary of a ledger with these counts.
pub open spec fn info_text(products: nat, steps: nat) -> Seq<char> {
    "BlockTrace Canister - Products: "@ + decimal(products) + ", Total Steps: "@ + decimal(steps)
}

/// In a well-formed ledger the history of a listed product is its own entry.
pub proof fn lemma_history_at(m: Seq<(Seq<char>, Seq<StepModel>)>, i: int)
    requires
        ledger_wf(m),
        0 <= i < m.len(),
    ensures
        has_product(m, m[i].0),
        index_of(m, m[i].0) == i,
        history(m, m[i].0) == m[i].1,
{
    assert(m[i].0 == m[i].0);
    let j = index_of(m, m[i].0);
    if j < i {
        assert(m[j].0 != m[i].0);
    } else if j > i {
        assert(m[i].0 != m[j].0);
    }
}

proof fn lemma_total_update(
    m: Seq<(Seq<char>, Seq<StepModel>)>,
    i: int,
    e: (Seq<char>, Seq<StepModel>),
)
    requires
        0 <= i < m.len(),
    ensures
        total(m.update(i, e)) == total(m) - m[i].1.len() + e.1.len(),
    decreases m.len(),
{
    let u = m.update(i, e);
    if i < m.len() - 1 {
        assert(u.drop_last() =~= m.drop_last().update(i, e));
        lemma_total_update(m.drop_last(), i, e);
    } else {
        assert(u.drop_last() =~= m.drop_last());
    }
}

proof fn lemma_total_push(m: Seq<(Seq<char>, Seq<StepModel>)>, e: (Seq<char>, Seq<StepModel>))
    ensures
        total(m.push(e)) == total(m) + e.1.len(),
{
    assert(m.push(e).drop_last() =~= m);
}

proof fn lemma_total_nonneg(m: Seq<(Seq<char>, Seq<StepModel>)>)
    ensures
        total(m) >= 0,
    decreases m.len(),
{
    if m.len() > 0 {
        lemma_total_nonneg(m.drop_last());
    }
}

/// The store: for each product, the steps recorded for it.
pub struct Ledger {
    entries: Vec<ProductHistory>,
}

impl View for Ledger {
    type V = Seq<(Seq<char>, Seq<StepModel>)>;

    closed spec fn view(&self) -> Seq<(Seq<char>, Seq<StepModel>)> {
        entries_view(self.entries@)
    }
}

impl Ledger {
    /// An empty ledger.
    pub fn new() -> (r: Ledger)
        ensures
            r@ == Seq::<(Seq<char>, Seq<StepModel>)>::empty(),
            ledger_wf(r@),
    {
        let r = Ledger { entries: Vec::new() };
        assert(r@ =~= Seq::<(Seq<char>, Seq<StepModel>)>::empty());
        r
    }

    fn find(&self, p: &String) -> (r: Option<usize>)
        ensures
            match r {
                Some(i) => i < self@.len() && self@[i as int].0 == p@,
                None => !has_product(self@, p@),
            },
    {
        let n = self.entries.len();
        let mut i: usize = 0;
        while i < n
            invariant
                n == self.entries@.len(),
                i <= n,
                forall|k: int| 0 <= k < i ==> self@[k].0 != p@,
            decreases n - i,
        {
            if self.entries[i].product_id == *p {
                return Some(i);
            }
            i = i + 1;
        }
        None
    }

    /// Validates `step`, stamps it with `now` and appends it to its product's
    /// history. A rejected step leaves the ledger unchanged.
    pub fn add_step(&mut self, step: Step, now: u64) -> (r: AddStepResult)
        requires
            ledger_wf(old(self)@),
            total(old(self)@) < u64::MAX,
        ensures
            ledger_wf(final(self)@),
            match first_blank_field(step@) {
                Some(f) => final(self)@ == old(self)@ && (r matches AddStepResult::Rejected(msg)
                    && msg@ == field_message(f)),
                None => final(self)@ == appended(old(self)@, stamped(step@, now)) && (
                r matches AddStepResult::Added(msg) && msg@ == confirmation(step@.product_id)),
            },
    {
        match validate(step) {
            Err(f) => AddStepResult::Rejected(f.message()),
            Ok(s) => {
                let mut s = s;
                s.timestamp = now;
                let ghost sv = s@;
                let ghost m = self@;
                let msg = String::from_str("Step added successfully for product ").concat(
                    s.product_id.as_str(),
                );
                match self.find(&s.product_id) {
                    Some(i) => {
                        proof {
                            lemma_history_at(m, i as int);
                            lemma_total_update(m, i as int, (m[i as int].0, m[i as int].1.push(sv)));
                        }
                        let mut e = self.entries.remove(i);
                        e.steps.push(s);
                        self.entries.insert(i, e);
                        assert(steps_view(e.steps@) =~= m[i as int].1.push(sv));
                        assert(self@ =~= m.update(i as int, (m[i as int].0, m[i as int].1.push(sv))));
                    },
                    None => {
                        let id = s.product_id.clone();
                        let mut steps: Vec<Step> = Vec::new();
                        steps.push(s);
                        self.entries.push(ProductHistory { product_id: id, steps });
                        proof {
                            lemma_total_push(m, (sv.product_id, seq![sv]));
                        }
                        assert(steps_view(steps@) =~= seq![sv]);
                        assert(self@ =~= m.push((sv.product_id, seq![sv])));
                    },
                }
                AddStepResult::Added(msg)
            },
        }
    }

    /// The steps of `product_id` in ascending timestamp order, equal
    /// timestamps in append order; empty for an unknown product.
    pub fn get_product_history(&self, product_id: &String) -> (r: Vec<Step>)
        requires
            ledger_wf(self@),
        ensures
            r@.len() == history(self@, product_id@).len(),
            stable_time_order(steps_view(r@), history(self@, product_id@)),
    {
        match self.find(product_id) {
            Some(i) => {
                proof {
                    lemma_history_at(self@, i as int);
                }
                sort_by_time(&self.entries[i].steps)
            },
            None => {
                let none: Vec<Step> = Vec::new();
                assert(steps_view(none@) =~= Seq::<StepModel>::empty());
                sort_by_time(&none)
            },
        }
    }

    /// The ids of all products that have steps.
    pub fn get_all_products(&self) -> (r: Vec<String>)
        ensures
            r@.map_values(|t: String| t@) == products(self@),
    {
        let n = self.entries.len();
        let mut r: Vec<String> = Vec::new();
        let mut i: usize = 0;
        while i < n
            invariant
                n == self.entries@.len(),
                i <= n,
                r@.map_values(|t: String| t@) == products(self@).take(i as int),
            decreases n - i,
        {
            r.push(self.entries[i].product_id.clone());
            assert(products(self@).take(i + 1) =~= products(self@).take(i as int).push(
                self@[i as int].0,
            ));
            assert(r@.map_values(|t: String| t@) =~= products(self@).take(i + 1));
            i = i + 1;
        }
        assert(products(self@).take(n as int) =~= products(self@));
        r
    }

    /// The number of steps over all products, counted afresh.
    pub fn get_total_steps_count(&self) -> (r: u64)
        requires
            ledger_wf(self@),
        ensures
            r == total(self@),
    {
        let n = self.entries.len();
        let mut sum: u64 = 0;
        let mut i: usize = 0;
        while i < n
            invariant
                n == self.entries@.len(),
                i <= n,
                total(self@) <= u64::MAX,
                sum == total(self@.take(i as int)),
            decreases n - i,
        {
            proof {
                assert(self@.take(i + 1).drop_last() =~= self@.take(i as int));
                lemma_total_prefix(self@, i + 1);
            }
            sum = sum + self.entries[i].steps.len() as u64;
            i = i + 1;
        }
        assert(self@.take(n as int) =~= self@);
        sum
    }

    /// A one-line summary: the number of products and of steps.
    pub fn get_canister_info(&self) -> (r: String)
        requires
            ledger_wf(self@),
        ensures
            r@ == info_text(self@.len(), total(self@) as nat),
    {
        let products = self.entries.len() as u64;
        let steps = self.get_total_steps_count();
        let mut r = String::from_str("BlockTrace Canister - Products: ");
        push_decimal(&mut r, products);
        r.append(", Total Steps: ");
        push_decimal(&mut r, steps);
        proof {
            lemma_total_nonneg(self@);
        }
        r
    }

    /// A copy of every product's history, to be persisted.
    pub fn snapshot(&self) -> (r: Vec<ProductHistory>)
        ensures
            entries_view(r@) == self@,
    {
        let n = self.entries.len();
        let mut r: Vec<ProductHistory> = Vec::new();
        let mut i: usize = 0;
        while i < n
            invariant
                n == self.entries@.len(),
                i <= n,
                entries_view(r@) == self@.take(i as int),
            decreases n - i,
        {
            let ghost prev = entries_view(r@);
            let e = &self.entries[i];
            let c = ProductHistory { product_id: e.product_id.clone(), steps: copy_steps(&e.steps) };
            assert(c@ == self@[i as int]);
            r.push(c);
            assert(entries_view(r@) =~= prev.push(c@));
            assert(entries_view(r@) =~= self@.take(i + 1));
            i = i + 1;
        }
        assert(self@.take(n as int) =~= self@);
        r
    }

    /// The ledger that `entries` describes, or `None` where they could not
    /// have come from a ledger.
    pub fn restore(entries: Vec<ProductHistory>) -> (r: Option<Ledger>)
        ensures
            match restored(entries_view(entries@)) {
                Some(m) => r matches Some(l) && l@ == m && ledger_wf(l@),
                None => r is None,
            },
    {
        if is_valid_snapshot(&entries) {
            Some(Ledger { entries })
        } else {
            None
        }
    }
}

proof fn lemma_total_prefix(m: Seq<(Seq<char>, Seq<StepModel>)>, i: int)
    requires
        0 <= i <= m.len(),
    ensures
        total(m.take(i)) <= total(m),
    decreases m.len(),
{
    if i == m.len() {
        assert(m.take(i) =~= m);
    } else {
        assert(m.take(i) =~= m.drop_last().take(i));
        lemma_total_prefix(m.drop_last(), i);
    }
}

fn copy_steps(v: &Vec<Step>) -> (r: Vec<Step>)
    ensures
        steps_view(r@) == steps_view(v@),
{
    let n = v.len();
    let mut r: Vec<Step> = Vec::new();
    let mut i: usize = 0;
    while i < n
        invariant
            n == v@.len(),
            i <= n,
            steps_view(r@) == steps_view(v@).take(i as int),
        decreases n - i,
    {
        let ghost prev = steps_view(r@);
        let d = v[i].duplicate();
        r.push(d);
        assert(steps_view(r@) =~= prev.push(d@));
        assert(steps_view(r@) =~= steps_view(v@).take(i + 1));
        i = i + 1;
    }
    assert(steps_view(v@).take(n as int) =~= steps_view(v@));
    r
}

fn entry_is_valid(e: &ProductHistory) -> (r: bool)
    ensures
        r == (e@.1.len() > 0 && forall|k: int|
            0 <= k < e@.1.len() ==> valid_step(#[trigger] e@.1[k]) && e@.1[k].product_id == e@.0),
{
    let n = e.steps.len();
    if n == 0 {
        return false;
    }
    let mut k: usize = 0;
    while k < n
        invariant
            n == e.steps@.len(),
            k <= n,
            forall|j: int|
                0 <= j < k ==> valid_step(#[trigger] e@.1[j]) && e@.1[j].product_id == e@.0,
        decreases n - k,
    {
        let s = &e.steps[k];
        if !s.is_valid() || !(s.product_id == e.product_id) {
            assert(e@.1[k as int] == s@);
            return false;
        }
        k = k + 1;
    }
    true
}

fn ids_are_distinct(v: &Vec<ProductHistory>) -> (r: bool)
    ensures
        r == (forall|a: int, b: int|
            0 <= a < b < v@.len() ==> entries_view(v@)[a].0 != entries_view(v@)[b].0),
{
    let ghost m = entries_view(v@);
    let n = v.len();
    let mut i: usize = 0;
    while i < n
        invariant
            n == v@.len(),
            m == entries_view(v@),
            i <= n,
            forall|a: int, b: int| 0 <= a < b < i ==> m[a].0 != m[b].0,
        decreases n - i,
    {
        let mut j: usize = 0;
        while j < i
            invariant
                n == v@.len(),
                m == entries_view(v@),
                j <= i < n,
                forall|a: int| 0 <= a < j ==> m[a].0 != m[i as int].0,
            decreases i - j,
        {
            if v[j].product_id == v[i].product_id {
                assert(m[j as int].0 == m[i as int].0);
                return false;
            }
            j = j + 1;
        }
        i = i + 1;
    }
    true
}

fn step_count_fits(v: &Vec<ProductHistory>) -> (r: bool)
    ensures
        r == (total(entries_view(v@)) <= u64::MAX),
{
    let ghost m = entries_view(v@);
    let n = v.len();
    let mut sum: u64 = 0;
    let mut i: usize = 0;
    while i < n
        invariant
            n == v@.len(),
            m == entries_view(v@),
            i <= n,
            sum == total(m.take(i as int)),
        decreases n - i,
    {
        let len = v[i].steps.len();
        proof {
            assert(m.take(i + 1).drop_last() =~= m.take(i as int));
            lemma_total_prefix(m, i + 1);
        }
        if len as u64 > u64::MAX - sum {
            return false;
        }
        sum = sum + len as u64;
        i = i + 1;
    }
    assert(m.take(n as int) =~= m);
    true
}

/// Whether `v` describes a well-formed ledger.
pub fn is_valid_snapshot(v: &Vec<ProductHistory>) -> (r: bool)
    ensures
        r == ledger_wf(entries_view(v@)),
{
    let ghost m = entries_view(v@);
    let n = v.len();
    let mut i: usize = 0;
    while i < n
        invariant
            n == v@.len(),
            m == entries_view(v@),
            i <= n,
            forall|a: int| 0 <= a < i ==> (#[trigger] m[a]).1.len() > 0,
            forall|a: int, k: int|
                0 <= a < i && 0 <= k < m[a].1.len() ==> valid_step(#[trigger] m[a].1[k])
                    && m[a].1[k].product_id == m[a].0,
        decreases n - i,
    {
        if !entry_is_valid(&v[i]) {
            assert(m[i as int] == v@[i as int]@);
            return false;
        }
        i = i + 1;
    }
    ids_are_distinct(v) && step_count_fits(v)
}

} // verus!

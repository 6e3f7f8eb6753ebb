//! The ordering engine: one key per criterion for each document, then the
//! order of the documents under all criteria at once.
//!
//! Sorting by each criterion in turn with a stable sort leaves the last
//! declared criterion dominant and the first the weakest tie-breaker. The
//! engine gets the same order in one pass, with a comparison that takes the
//! criteria from the last declared to the first, and that leaves documents
//! equal under every criterion in the order in which they were added.
use crate::compare::{
    directed, key_of, lemma_directed_flip, lemma_directed_transitive, reverse, PairValue,
};
use crate::json::{lookup, target_at};
use crate::raw_sort::{Order, Sort as RawSort, SortPair};
use core::cmp::Ordering;
use vstd::prelude::*;

verus! {

/// Comparison of two documents' keys under the first `n` criteria, the
/// later criterion first.
pub open spec fn keys_cmp(a: Seq<PairValue>, b: Seq<PairValue>, orders: Seq<Order>, n: int) -> Ordering
    decreases n,
{
    if n <= 0 {
        Ordering::Equal
    } else {
        let c = directed(a[n - 1].cmp_spec(b[n - 1]), orders[n - 1]);
        if c != Ordering::Equal {
            c
        } else {
            keys_cmp(a, b, orders, n - 1)
        }
    }
}

/// Whether document `x` comes before document `y`: by the keys under all
/// criteria, and by insertion position where they tie.
pub open spec fn precedes(keys: Seq<Seq<PairValue>>, orders: Seq<Order>, x: int, y: int) -> bool {
    let c = keys_cmp(keys[x], keys[y], orders, orders.len() as int);
    c == Ordering::Less || (c == Ordering::Equal && x < y)
}

/// `r` lists every position of `keys` once, and each position in it
/// precedes every position listed after it.
pub open spec fn is_sorted_permutation(
    r: Seq<usize>,
    keys: Seq<Seq<PairValue>>,
    orders: Seq<Order>,
) -> bool {
    &&& r.len() == keys.len()
    &&& forall|i: int| 0 <= i < r.len() ==> #[trigger] r[i] < keys.len()
    &&& forall|i: int, j: int| 0 <= i < j < r.len() ==> r[i] != r[j]
    &&& forall|i: int, j: int|
        0 <= i < j < r.len() ==> #[trigger] precedes(keys, orders, r[i] as int, r[j] as int)
}

/// The comparison of documents is transitive.
pub proof fn lemma_keys_transitive(
    a: Seq<PairValue>,
    b: Seq<PairValue>,
    c: Seq<PairValue>,
    orders: Seq<Order>,
    n: int,
)
    ensures
        keys_cmp(a, b, orders, n) == Ordering::Equal && keys_cmp(b, c, orders, n)
            == Ordering::Equal ==> keys_cmp(a, c, orders, n) == Ordering::Equal,
        keys_cmp(a, b, orders, n) == Ordering::Less && keys_cmp(b, c, orders, n)
            != Ordering::Greater ==> keys_cmp(a, c, orders, n) == Ordering::Less,
        keys_cmp(a, b, orders, n) != Ordering::Greater && keys_cmp(b, c, orders, n)
            == Ordering::Less ==> keys_cmp(a, c, orders, n) == Ordering::Less,
    decreases n,
{
    if n > 0 {
        lemma_directed_transitive(a[n - 1], b[n - 1], c[n - 1], orders[n - 1]);
        lemma_keys_transitive(a, b, c, orders, n - 1);
    }
}

/// The keys of `doc` under the criteria.
pub open spec fn doc_keys(criteria: Seq<(Seq<char>, Order)>, doc: serde_json::Value) -> Seq<
    PairValue,
> {
    Seq::new(criteria.len(), |i: int| key_of(target_at(doc, criteria[i].0)))
}

/// Swapping two documents reverses their comparison.
pub proof fn lemma_keys_flip(a: Seq<PairValue>, b: Seq<PairValue>, orders: Seq<Order>, n: int)
    ensures
        keys_cmp(b, a, orders, n) == reverse(keys_cmp(a, b, orders, n)),
    decreases n,
{
    if n > 0 {
        lemma_directed_flip(a[n - 1], b[n - 1], orders[n - 1]);
        lemma_keys_flip(a, b, orders, n - 1);
    }
}

/// A sequence of distinct values below `n` is no longer than `n`.
proof fn lemma_distinct_below(s: Seq<usize>, n: int)
    requires
        0 <= n,
        forall|i: int| 0 <= i < s.len() ==> #[trigger] s[i] < n,
        forall|i: int, j: int| 0 <= i < j < s.len() ==> s[i] != s[j],
    ensures
        s.len() <= n,
    decreases n,
{
    if n == 0 {
        if s.len() > 0 {
            assert(s[0] < n);
        }
    } else {
        if exists|j: int| 0 <= j < s.len() && s[j] as int == n - 1 {
            let j = choose|j: int| 0 <= j < s.len() && s[j] as int == n - 1;
            let t = s.remove(j);
            assert forall|i: int| 0 <= i < t.len() implies #[trigger] t[i] < n - 1 by {
                if i < j {
                    assert(t[i] == s[i]);
                } else {
                    assert(t[i] == s[i + 1]);
                }
            }
            assert forall|a: int, b: int| 0 <= a < b < t.len() implies t[a] != t[b] by {
                let oa = if a < j { a } else { a + 1 };
                let ob = if b < j { b } else { b + 1 };
                assert(t[a] == s[oa] && t[b] == s[ob]);
            }
            lemma_distinct_below(t, n - 1);
        } else {
            assert forall|i: int| 0 <= i < s.len() implies #[trigger] s[i] < n - 1 by {
                assert(s[i] as int != n - 1);
            }
            lemma_distinct_below(s, n - 1);
        }
    }
}

/// `n` distinct values below `n` take every value below `n`.
proof fn lemma_distinct_covers(s: Seq<usize>, x: usize)
    requires
        forall|i: int| 0 <= i < s.len() ==> #[trigger] s[i] < s.len(),
        forall|i: int, j: int| 0 <= i < j < s.len() ==> s[i] != s[j],
        x < s.len(),
    ensures
        exists|j: int| 0 <= j < s.len() && s[j] == x,
{
    if !exists|j: int| 0 <= j < s.len() && s[j] == x {
        // move the largest value onto the missing one: still distinct, all
        // below `len - 1`
        let t = s.map_values(|v: usize| if v as int == s.len() - 1 { x } else { v });
        assert forall|i: int| 0 <= i < t.len() implies #[trigger] t[i] < s.len() - 1 by {
            assert(s[i] != x);
        }
        assert forall|a: int, b: int| 0 <= a < b < t.len() implies t[a] != t[b] by {
            assert(s[a] != s[b]);
            assert(s[a] != x && s[b] != x);
        }
        lemma_distinct_below(t, s.len() - 1);
    }
}

/// No two different documents each precede the other.
proof fn lemma_precedes_asymmetric(keys: Seq<Seq<PairValue>>, orders: Seq<Order>, x: int, y: int)
    ensures
        !(precedes(keys, orders, x, y) && precedes(keys, orders, y, x)),
{
    lemma_keys_flip(keys[x], keys[y], orders, orders.len() as int);
}

/// The contract of the ordering engine fixes its result: two orders that
/// both list every document once, each before all that it precedes, are the
/// same.
pub proof fn lemma_sorted_permutation_unique(
    r1: Seq<usize>,
    r2: Seq<usize>,
    keys: Seq<Seq<PairValue>>,
    orders: Seq<Order>,
)
    requires
        is_sorted_permutation(r1, keys, orders),
        is_sorted_permutation(r2, keys, orders),
    ensures
        r1 == r2,
{
    assert forall|i: int| 0 <= i < r1.len() implies r1[i] == r2[i] by {
        lemma_sorted_prefix(r1, r2, keys, orders, i);
    }
    assert(r1 =~= r2);
}

proof fn lemma_sorted_prefix(
    r1: Seq<usize>,
    r2: Seq<usize>,
    keys: Seq<Seq<PairValue>>,
    orders: Seq<Order>,
    i: int,
)
    requires
        is_sorted_permutation(r1, keys, orders),
        is_sorted_permutation(r2, keys, orders),
        0 <= i < r1.len(),
    ensures
        forall|j: int| 0 <= j <= i ==> r1[j] == r2[j],
    decreases i,
{
    if i > 0 {
        lemma_sorted_prefix(r1, r2, keys, orders, i - 1);
    }
    let a = r1[i];
    let b = r2[i];
    if a != b {
        lemma_distinct_covers(r1, b);
        lemma_distinct_covers(r2, a);
        let j1 = choose|j: int| 0 <= j < r1.len() && r1[j] == b;
        let j2 = choose|j: int| 0 <= j < r2.len() && r2[j] == a;
        if j1 < i {
            assert(r2[j1] == b);
        }
        if j2 < i {
            assert(r1[j2] == a);
        }
        assert(precedes(keys, orders, a as int, b as int));
        assert(precedes(keys, orders, b as int, a as int));
        lemma_precedes_asymmetric(keys, orders, a as int, b as int);
    }
}

/// A JSON pointer and a direction.
struct PairSetting(String, Order);

/// Sort criteria, in declared order.
pub struct PairsListSettings(Vec<PairSetting>);

impl View for PairsListSettings {
    type V = Seq<(Seq<char>, Order)>;

    closed spec fn view(&self) -> Seq<(Seq<char>, Order)> {
        self.0@.map_values(|s: PairSetting| (s.0@, s.1))
    }
}

impl PairsListSettings {
    /// No criteria.
    pub fn new() -> (r: PairsListSettings)
        ensures
            r@ == Seq::<(Seq<char>, Order)>::empty(),
    {
        let r = PairsListSettings(Vec::new());
        proof {
            assert(r@ =~= Seq::<(Seq<char>, Order)>::empty());
        }
        r
    }

    /// Declares one more criterion.
    pub fn add(&mut self, pointer: String, order: Order)
        ensures
            final(self)@ == old(self)@.push((pointer@, order)),
    {
        self.0.push(PairSetting(pointer, order));
        proof {
            assert(self@ =~= old(self)@.push((pointer@, order)));
        }
    }

    /// A builder with these criteria and no documents.
    pub fn builder(self) -> (r: PairsListBuilder)
        ensures
            r.criteria() == self@,
            r.keys() == Seq::<Seq<PairValue>>::empty(),
            r.wf(),
    {
        PairsListBuilder::from(self)
    }
}

/// The keys of one document, one per criterion.
struct Pairs {
    pairs: Vec<PairValue>,
}

/// Collects the keys of documents.
pub struct PairsListBuilder {
    settings: Vec<PairSetting>,
    list: Vec<Pairs>,
}

impl PairsListBuilder {
    pub closed spec fn criteria(&self) -> Seq<(Seq<char>, Order)> {
        self.settings@.map_values(|s: PairSetting| (s.0@, s.1))
    }

    /// The keys of each document added, in insertion order.
    pub closed spec fn keys(&self) -> Seq<Seq<PairValue>> {
        self.list@.map_values(|p: Pairs| p.pairs@)
    }

    /// Every document has one key per criterion.
    pub open spec fn wf(&self) -> bool {
        forall|k: int| 0 <= k < self.keys().len() ==> #[trigger] self.keys()[k].len()
            == self.criteria().len()
    }

    pub fn from(v: PairsListSettings) -> (r: PairsListBuilder)
        ensures
            r.criteria() == v@,
            r.keys() == Seq::<Seq<PairValue>>::empty(),
            r.wf(),
    {
        let r = PairsListBuilder { settings: v.0, list: Vec::new() };
        proof {
            assert(r.keys() =~= Seq::<Seq<PairValue>>::empty());
        }
        r
    }

    /// Takes the keys of one more document: for each criterion, the value
    /// that its pointer addresses, or `Null` where it addresses nothing.
    pub fn add(&mut self, value: serde_json::Value)
        requires
            old(self).wf(),
        ensures
            final(self).wf(),
            final(self).criteria() == old(self).criteria(),
            final(self).keys() == old(self).keys().push(doc_keys(old(self).criteria(), value)),
    {
        let mut pairs: Vec<PairValue> = Vec::new();
        let mut i: usize = 0;
        while i < self.settings.len()
            invariant
                self.criteria() == old(self).criteria(),
                self.keys() == old(self).keys(),
                i <= self.settings@.len(),
                pairs@.len() == i,
                forall|j: int|
                    0 <= j < i ==> pairs@[j] == key_of(target_at(value, self.criteria()[j].0)),
            decreases self.settings@.len() - i,
        {
            let t = lookup(&value, self.settings[i].0.as_str());
            pairs.push(PairValue::from_target(t));
            i = i + 1;
        }
        proof {
            assert(pairs@ =~= doc_keys(old(self).criteria(), value));
        }
        self.list.push(Pairs { pairs });
        proof {
            assert(self.keys() =~= old(self).keys().push(doc_keys(old(self).criteria(), value)));
            assert(self.criteria() =~= old(self).criteria());
        }
    }

    /// The collected documents, in insertion order.
    pub fn build(self) -> (r: PairsList)
        requires
            self.wf(),
        ensures
            r.wf(),
            r.criteria() == self.criteria(),
            r.keys() == self.keys(),
            r.positions() == Seq::new(self.keys().len(), |i: int| i as usize),
    {
        PairsList::from(self)
    }
}

/// Documents' keys, and an order of their positions.
pub struct PairsList {
    list: Vec<Pairs>,
    settings: Vec<PairSetting>,
    order: Vec<usize>,
}

impl PairsList {
    pub closed spec fn criteria(&self) -> Seq<(Seq<char>, Order)> {
        self.settings@.map_values(|s: PairSetting| (s.0@, s.1))
    }

    pub open spec fn orders(&self) -> Seq<Order> {
        self.criteria().map_values(|c: (Seq<char>, Order)| c.1)
    }

    pub closed spec fn keys(&self) -> Seq<Seq<PairValue>> {
        self.list@.map_values(|p: Pairs| p.pairs@)
    }

    /// Insertion positions of the documents, in their current order.
    pub closed spec fn positions(&self) -> Seq<usize> {
        self.order@
    }

    pub open spec fn wf(&self) -> bool {
        forall|k: int| 0 <= k < self.keys().len() ==> #[trigger] self.keys()[k].len()
            == self.criteria().len()
    }

    pub fn from(v: PairsListBuilder) -> (r: PairsList)
        requires
            v.wf(),
        ensures
            r.wf(),
            r.criteria() == v.criteria(),
            r.keys() == v.keys(),
            r.positions() == Seq::new(v.keys().len(), |i: int| i as usize),
    {
        let mut order: Vec<usize> = Vec::new();
        let mut i: usize = 0;
        while i < v.list.len()
            invariant
                i <= v.list@.len(),
                order@ == Seq::new(i as nat, |j: int| j as usize),
            decreases v.list@.len() - i,
        {
            order.push(i);
            i = i + 1;
            proof {
                assert(order@ =~= Seq::new(i as nat, |j: int| j as usize));
            }
        }
        let r = PairsList { list: v.list, settings: v.settings, order };
        proof {
            assert(r.keys() =~= v.keys());
            assert(r.criteria() =~= v.criteria());
        }
        r
    }

    /// `keys_cmp` of the documents at positions `a` and `b`.
    fn cmp_at(&self, a: usize, b: usize) -> (c: Ordering)
        requires
            self.wf(),
            a < self.keys().len(),
            b < self.keys().len(),
        ensures
            c == keys_cmp(
                self.keys()[a as int],
                self.keys()[b as int],
                self.orders(),
                self.orders().len() as int,
            ),
    {
        let ghost ka = self.keys()[a as int];
        let ghost kb = self.keys()[b as int];
        let ghost n = self.orders().len() as int;
        let x = &self.list[a].pairs;
        let y = &self.list[b].pairs;
        assert(x@ == ka && y@ == kb);
        let mut i: usize = self.settings.len();
        while i > 0
            invariant
                i <= self.settings@.len(),
                n == self.settings@.len(),
                x@.len() == n && y@.len() == n,
                x@ == ka && y@ == kb,
                ka == self.keys()[a as int] && kb == self.keys()[b as int],
                n == self.orders().len(),
                keys_cmp(ka, kb, self.orders(), n) == keys_cmp(ka, kb, self.orders(), i as int),
            decreases i,
        {
            let up = x[i - 1].compare(&y[i - 1]);
            let d = match self.settings[i - 1].1 {
                Order::Asc => up,
                Order::Desc => match up {
                    Ordering::Less => Ordering::Greater,
                    Ordering::Equal => Ordering::Equal,
                    Ordering::Greater => Ordering::Less,
                },
            };
            proof {
                assert(self.orders()[i - 1] == self.settings@[i - 1].1);
                assert(keys_cmp(ka, kb, self.orders(), i as int) == (if d != Ordering::Equal {
                    d
                } else {
                    keys_cmp(ka, kb, self.orders(), i - 1)
                }));
            }
            match d {
                Ordering::Equal => {},
                _ => return d,
            }
            i = i - 1;
        }
        Ordering::Equal
    }

    /// Whether the document at position `a` comes before the one at `b`
    /// under the keys alone.
    fn less_at(&self, a: usize, b: usize) -> (r: bool)
        requires
            self.wf(),
            a < self.keys().len(),
            b < self.keys().len(),
        ensures
            r == (keys_cmp(
                self.keys()[a as int],
                self.keys()[b as int],
                self.orders(),
                self.orders().len() as int,
            ) == Ordering::Less),
    {
        match self.cmp_at(a, b) {
            Ordering::Less => true,
            _ => false,
        }
    }

    /// Orders the positions: by the keys under the last declared criterion
    /// first and the first declared last, and by insertion position where
    /// all keys tie.
    pub fn sort(&mut self)
        requires
            old(self).wf(),
        ensures
            final(self).wf(),
            final(self).criteria() == old(self).criteria(),
            final(self).keys() == old(self).keys(),
            is_sorted_permutation(final(self).positions(), final(self).keys(), final(self).orders()),
    {
        let ghost keys = self.keys();
        let ghost orders = self.orders();
        let ghost m = orders.len() as int;
        let n = self.list.len();
        let mut r: Vec<usize> = Vec::new();
        let mut k: usize = 0;
        while k < n
            invariant
                self.wf(),
                keys == self.keys(),
                orders == self.orders(),
                m == orders.len(),
                n == keys.len(),
                k <= n,
                r@.len() == k,
                forall|i: int| 0 <= i < r@.len() ==> #[trigger] r@[i] < k,
                forall|i: int, j: int| 0 <= i < j < r@.len() ==> r@[i] != r@[j],
                forall|i: int, j: int|
                    0 <= i < j < r@.len() ==> #[trigger] precedes(
                        keys,
                        orders,
                        r@[i] as int,
                        r@[j] as int,
                    ),
            decreases n - k,
        {
            // the first place whose document `k` comes strictly before; ties
            // stay ahead of `k`, which was added after them
            let mut lo: usize = 0;
            let mut hi: usize = r.len();
            while lo < hi
                invariant
                    self.wf(),
                    keys == self.keys(),
                    orders == self.orders(),
                    m == orders.len(),
                    n == keys.len(),
                    k < n,
                    r@.len() == k,
                    lo <= hi <= r@.len(),
                    forall|i: int| 0 <= i < r@.len() ==> #[trigger] r@[i] < k,
                    forall|i: int, j: int|
                        0 <= i < j < r@.len() ==> #[trigger] precedes(
                            keys,
                            orders,
                            r@[i] as int,
                            r@[j] as int,
                        ),
                    forall|q: int|
                        0 <= q < lo ==> keys_cmp(keys[k as int], keys[#[trigger] r@[q] as int], orders, m)
                            != Ordering::Less,
                    forall|q: int|
                        hi <= q < r@.len() ==> keys_cmp(keys[k as int], keys[#[trigger] r@[q] as int], orders, m)
                            == Ordering::Less,
                decreases hi - lo,
            {
                let mid = lo + (hi - lo) / 2;
                let before = self.less_at(k, r[mid]);
                proof {
                    let x = keys[k as int];
                    let y = keys[r@[mid as int] as int];
                    if before {
                        assert forall|q: int| mid <= q < r@.len() implies keys_cmp(
                            keys[k as int],
                            keys[#[trigger] r@[q] as int],
                            orders,
                            m,
                        ) == Ordering::Less by {
                            if q > mid {
                                assert(precedes(keys, orders, r@[mid as int] as int, r@[q] as int));
                                lemma_keys_transitive(x, y, keys[r@[q] as int], orders, m);
                            }
                        }
                    } else {
                        lemma_keys_flip(x, y, orders, m);
                        assert forall|q: int| 0 <= q <= mid implies keys_cmp(
                            keys[k as int],
                            keys[#[trigger] r@[q] as int],
                            orders,
                            m,
                        ) != Ordering::Less by {
                            if q < mid {
                                let z = keys[r@[q] as int];
                                assert(precedes(keys, orders, r@[q] as int, r@[mid as int] as int));
                                lemma_keys_transitive(z, y, x, orders, m);
                                lemma_keys_flip(z, x, orders, m);
                            }
                        }
                    }
                }
                if before {
                    hi = mid;
                } else {
                    lo = mid + 1;
                }
            }
            let p = lo;
            let ghost old_r = r@;
            r.insert(p, k);
            proof {
                assert forall|i: int, j: int| 0 <= i < j < r@.len() implies #[trigger] precedes(
                    keys,
                    orders,
                    r@[i] as int,
                    r@[j] as int,
                ) by {
                    if i == p {
                        assert(r@[j] == old_r[j - 1]);
                    } else if j == p {
                        assert(r@[i] == old_r[i]);
                        lemma_keys_flip(keys[k as int], keys[old_r[i] as int], orders, m);
                    } else {
                        let oi = if i < p { i } else { i - 1 };
                        let oj = if j < p { j } else { j - 1 };
                        assert(r@[i] == old_r[oi] && r@[j] == old_r[oj]);
                        assert(precedes(keys, orders, old_r[oi] as int, old_r[oj] as int));
                    }
                }
                assert forall|i: int, j: int| 0 <= i < j < r@.len() implies r@[i] != r@[j] by {
                    if i != p && j != p {
                        let oi = if i < p { i } else { i - 1 };
                        let oj = if j < p { j } else { j - 1 };
                        assert(r@[i] == old_r[oi] && r@[j] == old_r[oj]);
                    } else if i == p {
                        let oj = if j < p { j } else { j - 1 };
                        assert(r@[j] == old_r[oj]);
                    } else {
                        assert(r@[i] == old_r[i]);
                    }
                }
                assert forall|i: int| 0 <= i < r@.len() implies #[trigger] r@[i] < k + 1 by {
                    if i < p {
                        assert(r@[i] == old_r[i]);
                    } else if i > p {
                        assert(r@[i] == old_r[i - 1]);
                    }
                }
            }
            k = k + 1;
        }
        self.order = r;
    }

    /// The insertion positions, in the current order.
    pub fn indexes(&self) -> (r: Vec<usize>)
        ensures
            r@ == self.positions(),
    {
        self.order.clone()
    }
}

/// Of two documents in a sorted order under criteria `[c0, c1]`, the earlier
/// never comes after the later by `c1`, and where they tie by `c1`, never by
/// `c0`: the last declared criterion is the primary key and the first breaks
/// ties.
pub proof fn lemma_last_criterion_dominates(
    r: Seq<usize>,
    keys: Seq<Seq<PairValue>>,
    orders: Seq<Order>,
)
    requires
        is_sorted_permutation(r, keys, orders),
        orders.len() == 2,
        forall|k: int| 0 <= k < keys.len() ==> #[trigger] keys[k].len() == 2,
    ensures
        forall|i: int, j: int|
            0 <= i < j < r.len() ==> {
                let x = #[trigger] keys[r[i] as int];
                let y = #[trigger] keys[r[j] as int];
                &&& directed(x[1].cmp_spec(y[1]), orders[1]) != Ordering::Greater
                &&& directed(x[1].cmp_spec(y[1]), orders[1]) == Ordering::Equal ==> directed(
                    x[0].cmp_spec(y[0]),
                    orders[0],
                ) != Ordering::Greater
            },
{
    assert forall|i: int, j: int| 0 <= i < j < r.len() implies {
        let x = #[trigger] keys[r[i] as int];
        let y = #[trigger] keys[r[j] as int];
        &&& directed(x[1].cmp_spec(y[1]), orders[1]) != Ordering::Greater
        &&& directed(x[1].cmp_spec(y[1]), orders[1]) == Ordering::Equal ==> directed(
            x[0].cmp_spec(y[0]),
            orders[0],
        ) != Ordering::Greater
    } by {
        assert(precedes(keys, orders, r[i] as int, r[j] as int));
        reveal_with_fuel(keys_cmp, 3);
    }
}

/// The criteria of a sort specification, a missing direction read as
/// ascending.
pub open spec fn raw_criteria(v: RawSort) -> Seq<(Seq<char>, Order)> {
    v.sort@.map_values(
        |p: SortPair|
            (
                p.pointer@,
                match p.order {
                    Some(o) => o,
                    None => Order::Asc,
                },
            ),
    )
}

/// Sorts documents by declared criteria.
pub struct Sort {
    builder: PairsListBuilder,
}

impl Sort {
    pub closed spec fn criteria(&self) -> Seq<(Seq<char>, Order)> {
        self.builder.criteria()
    }

    pub open spec fn orders(&self) -> Seq<Order> {
        self.criteria().map_values(|c: (Seq<char>, Order)| c.1)
    }

    /// The keys of each document added, in insertion order.
    pub closed spec fn keys(&self) -> Seq<Seq<PairValue>> {
        self.builder.keys()
    }

    pub open spec fn wf(&self) -> bool {
        forall|k: int| 0 <= k < self.keys().len() ==> #[trigger] self.keys()[k].len()
            == self.criteria().len()
    }

    /// A sorter for the criteria of `v`, with no documents yet.
    pub fn from(v: RawSort) -> (r: Sort)
        ensures
            r.criteria() == raw_criteria(v),
            r.keys() == Seq::<Seq<PairValue>>::empty(),
            r.wf(),
    {
        let mut s = PairsListSettings::new();
        let mut i: usize = 0;
        while i < v.sort.len()
            invariant
                i <= v.sort@.len(),
                s@ == raw_criteria(v).subrange(0, i as int),
            decreases v.sort@.len() - i,
        {
            let p = &v.sort[i];
            let order = match p.order {
                Some(o) => o,
                None => Order::Asc,
            };
            s.add(p.pointer.clone(), order);
            proof {
                assert(s@ =~= raw_criteria(v).subrange(0, i + 1));
            }
            i = i + 1;
        }
        proof {
            assert(raw_criteria(v).subrange(0, i as int) =~= raw_criteria(v));
        }
        Sort { builder: s.builder() }
    }

    /// Takes the keys of one more document.
    pub fn add(&mut self, value: serde_json::Value)
        requires
            old(self).wf(),
        ensures
            final(self).wf(),
            final(self).criteria() == old(self).criteria(),
            final(self).keys() == old(self).keys().push(doc_keys(old(self).criteria(), value)),
    {
        self.builder.add(value);
    }

    /// The insertion positions of the documents, sorted.
    pub fn sorted_indexes(self) -> (r: Vec<usize>)
        requires
            self.wf(),
        ensures
            is_sorted_permutation(r@, self.keys(), self.orders()),
    {
        assert(self.builder.wf()) by {
            assert forall|k: int| 0 <= k < self.builder.keys().len() implies #[trigger] self.builder.keys()[k].len()
                == self.builder.criteria().len() by {
                assert(self.keys()[k].len() == self.criteria().len());
            }
        }
        let mut list = self.builder.build();
        assert(list.wf());
        list.sort();
        list.indexes()
    }
}

} // verus!

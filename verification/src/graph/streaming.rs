//! Which parameters stay in device memory and which are streamed from the host.
use crate::graph::Graph;
use crate::scalar::Scalar;
use crate::tensor::{product, Device};
use vstd::prelude::*;

verus! {

/// Which parameters stay in device memory, which are streamed, and what that takes.
pub struct StreamingReport {
    pub resident_param_ids: Vec<usize>,
    pub streamed_param_ids: Vec<usize>,
    pub resident_bytes: usize,
    pub resident_headroom_bytes: usize,
    pub streamed_bytes: usize,
    /// The bytes of the largest streamed parameter.
    pub streaming_headroom_bytes: usize,
}

/// The elements of tensor `id`.
pub open spec fn size_of<T: Scalar>(g: Graph<T>, id: usize) -> int {
    product(g.tensors@[id as int].shape@) as int
}

/// The bytes that a resident parameter takes: its elements, its gradient and two moments.
pub open spec fn cost_of<T: Scalar>(g: Graph<T>, id: usize) -> int {
    size_of(g, id) * 16
}

/// The costs of parameters added up.
pub open spec fn costs<T: Scalar>(g: Graph<T>, ids: Seq<usize>) -> int
    decreases ids.len(),
{
    if ids.len() == 0 {
        0
    } else {
        costs(g, ids.drop_last()) + cost_of(g, ids.last())
    }
}

/// `x` less `y`, or zero.
pub open spec fn less(x: int, y: int) -> int {
    if x >= y {
        x - y
    } else {
        0
    }
}

/// What the budget leaves for parameters that are not pinned.
pub open spec fn budget_left<T: Scalar>(
    g: Graph<T>,
    budget: int,
    reserve: int,
    pinned: Seq<usize>,
) -> int {
    less(less(budget, reserve), costs(g, pinned))
}

/// A first division: every parameter that is not pinned stays, in order, as long as it fits.
pub struct Division {
    pub resident: Seq<usize>,
    pub streamed: Seq<usize>,
    pub used: int,
}

/// The first division of the first `n` parameters.
pub open spec fn divided<T: Scalar>(
    g: Graph<T>,
    pinned: Seq<usize>,
    budget: int,
    n: nat,
) -> Division
    decreases n,
{
    if n == 0 {
        Division { resident: Seq::empty(), streamed: Seq::empty(), used: 0 }
    } else {
        let d = divided(g, pinned, budget, (n - 1) as nat);
        let id = (n - 1) as usize;
        if pinned.contains(id) {
            d
        } else if d.used + cost_of(g, id) <= budget {
            Division { resident: d.resident.push(id), used: d.used + cost_of(g, id), ..d }
        } else {
            Division { streamed: d.streamed.push(id), ..d }
        }
    }
}

/// The bytes of the largest of the first `n` of some parameters.
pub open spec fn largest_bytes<T: Scalar>(g: Graph<T>, ids: Seq<usize>, n: nat) -> int
    decreases n,
{
    if n == 0 {
        0
    } else {
        let m = largest_bytes(g, ids, (n - 1) as nat);
        let b = size_of(g, ids[n - 1]) * 4;
        if b >= m {
            b
        } else {
            m
        }
    }
}

/// The place of the largest of the first `n` of some parameters, the last where there are several.
pub open spec fn largest_at<T: Scalar>(g: Graph<T>, ids: Seq<usize>, n: nat) -> int
    decreases n,
{
    if n <= 1 {
        0
    } else {
        let m = largest_at(g, ids, (n - 1) as nat);
        if size_of(g, ids[n - 1]) >= size_of(g, ids[m]) {
            n - 1
        } else {
            m
        }
    }
}

/// As long as the largest streamed parameter does not fit beside the resident ones, the largest of
/// these is streamed as well.
pub open spec fn relieved<T: Scalar>(g: Graph<T>, d: Division, peak: int, budget: int) -> Division
    decreases d.resident.len(),
{
    if peak > less(budget, d.used) && d.resident.len() > 0 {
        let at = largest_at(g, d.resident, d.resident.len());
        let id = d.resident[at];
        if 0 <= at < d.resident.len() {
            relieved(
                g,
                Division {
                    resident: d.resident.remove(at),
                    streamed: d.streamed.push(id),
                    used: d.used - cost_of(g, id),
                },
                peak,
                budget,
            )
        } else {
            d
        }
    } else {
        d
    }
}

/// The final division.
pub open spec fn division<T: Scalar>(
    g: Graph<T>,
    pinned: Seq<usize>,
    budget: int,
) -> Division {
    let d = divided(g, pinned, budget, g.num_params as nat);
    relieved(g, d, largest_bytes(g, d.streamed, d.streamed.len()), budget)
}

proof fn lemma_largest_at<T: Scalar>(g: Graph<T>, ids: Seq<usize>, n: nat)
    requires
        1 <= n <= ids.len(),
    ensures
        0 <= largest_at(g, ids, n) < n,
        forall|j: int|
            0 <= j < n ==> size_of(g, #[trigger] ids[j]) <= size_of(
                g,
                ids[largest_at(g, ids, n)],
            ),
    decreases n,
{
    if n > 1 {
        lemma_largest_at(g, ids, (n - 1) as nat);
    }
}

proof fn lemma_costs_push<T: Scalar>(g: Graph<T>, ids: Seq<usize>, id: usize)
    ensures
        costs(g, ids.push(id)) == costs(g, ids) + cost_of(g, id),
{
    assert(ids.push(id).drop_last() =~= ids);
}

proof fn lemma_costs_concat<T: Scalar>(g: Graph<T>, a: Seq<usize>, b: Seq<usize>)
    ensures
        costs(g, a + b) == costs(g, a) + costs(g, b),
    decreases b.len(),
{
    if b.len() == 0 {
        assert(a + b =~= a);
    } else {
        lemma_costs_concat(g, a, b.drop_last());
        assert((a + b).drop_last() =~= a + b.drop_last());
    }
}

proof fn lemma_costs_remove<T: Scalar>(g: Graph<T>, ids: Seq<usize>, at: int)
    requires
        0 <= at < ids.len(),
    ensures
        costs(g, ids.remove(at)) == costs(g, ids) - cost_of(g, ids[at]),
{
    let front = ids.take(at);
    let back = ids.skip(at + 1);
    assert(ids =~= front + seq![ids[at]] + back);
    assert(ids.remove(at) =~= front + back);
    lemma_costs_concat(g, front + seq![ids[at]], back);
    lemma_costs_concat(g, front, seq![ids[at]]);
    lemma_costs_concat(g, front, back);
    assert(front + seq![ids[at]] =~= front.push(ids[at]));
    lemma_costs_push(g, front, ids[at]);
}

proof fn lemma_costs_nonneg<T: Scalar>(g: Graph<T>, ids: Seq<usize>)
    ensures
        costs(g, ids) >= 0,
    decreases ids.len(),
{
    if ids.len() > 0 {
        lemma_costs_nonneg(g, ids.drop_last());
    }
}

proof fn lemma_costs_take<T: Scalar>(g: Graph<T>, ids: Seq<usize>, n: int)
    requires
        0 <= n <= ids.len(),
    ensures
        costs(g, ids.take(n)) <= costs(g, ids),
{
    assert(ids =~= ids.take(n) + ids.skip(n));
    lemma_costs_concat(g, ids.take(n), ids.skip(n));
    lemma_costs_nonneg(g, ids.skip(n));
}

/// The ids below `n`.
pub open spec fn below(n: nat) -> Seq<usize> {
    Seq::new(n, |i: int| i as usize)
}

/// All parameters are there, and their costs can be counted.
pub open spec fn costs_fit<T: Scalar>(g: Graph<T>, pinned: Seq<usize>) -> bool {
    &&& g.num_params <= g.tensors@.len()
    &&& forall|i: int| 0 <= i < pinned.len() ==> #[trigger] pinned[i] < g.tensors@.len()
    &&& costs(g, below(g.num_params as nat)) + costs(g, pinned) <= usize::MAX
}

/// The facts about a division of the first `n` parameters that the way to it keeps.
pub open spec fn sound<T: Scalar>(g: Graph<T>, d: Division, n: int) -> bool {
    &&& d.used == costs(g, d.resident)
    &&& costs(g, d.resident) + costs(g, d.streamed) <= costs(g, below(n as nat))
    &&& forall|i: int| 0 <= i < d.resident.len() ==> #[trigger] d.resident[i] < n
    &&& forall|i: int| 0 <= i < d.streamed.len() ==> #[trigger] d.streamed[i] < n
}

proof fn lemma_divided<T: Scalar>(g: Graph<T>, pinned: Seq<usize>, budget: int, n: nat)
    requires
        n <= usize::MAX,
    ensures
        sound(g, divided(g, pinned, budget, n), n as int),
        budget >= 0 ==> divided(g, pinned, budget, n).used <= budget,
    decreases n,
{
    if n > 0 {
        lemma_divided(g, pinned, budget, (n - 1) as nat);
        let d = divided(g, pinned, budget, (n - 1) as nat);
        let id = (n - 1) as usize;
        assert(below(n).drop_last() =~= below((n - 1) as nat));
        assert(below(n).last() == id);
        lemma_costs_push(g, d.resident, id);
        lemma_costs_push(g, d.streamed, id);
        assert(cost_of(g, id) >= 0);
    }
}

/// A member of either part is a member after one has changed sides, and no other is.
pub open spec fn part_of(d: Division, id: usize) -> bool {
    d.resident.contains(id) || d.streamed.contains(id)
}

/// No parameter is in both parts, and none is in a part twice.
pub open spec fn no_doubles(d: Division) -> bool {
    (d.resident + d.streamed).no_duplicates()
}

proof fn lemma_divided_members<T: Scalar>(
    g: Graph<T>,
    pinned: Seq<usize>,
    budget: int,
    n: nat,
    id: usize,
)
    requires
        n <= usize::MAX,
    ensures
        part_of(divided(g, pinned, budget, n), id) <==> id < n && !pinned.contains(id),
    decreases n,
{
    if n > 0 {
        lemma_divided_members(g, pinned, budget, (n - 1) as nat, id);
        let d = divided(g, pinned, budget, (n - 1) as nat);
        let last = (n - 1) as usize;
        let r = d.resident.push(last);
        let s = d.streamed.push(last);
        assert(r[r.len() - 1] == last);
        assert(s[s.len() - 1] == last);
        assert forall|x: usize| #[trigger] r.contains(x) <==> d.resident.contains(x) || x == last by {
            if d.resident.contains(x) {
                let k = choose|k: int| 0 <= k < d.resident.len() && d.resident[k] == x;
                assert(r[k] == x);
            }
        }
        assert forall|x: usize| #[trigger] s.contains(x) <==> d.streamed.contains(x) || x == last by {
            if d.streamed.contains(x) {
                let k = choose|k: int| 0 <= k < d.streamed.len() && d.streamed[k] == x;
                assert(s[k] == x);
            }
        }
    }
}

proof fn lemma_divided_no_doubles<T: Scalar>(g: Graph<T>, pinned: Seq<usize>, budget: int, n: nat)
    requires
        n <= usize::MAX,
    ensures
        no_doubles(divided(g, pinned, budget, n)),
    decreases n,
{
    if n > 0 {
        lemma_divided_no_doubles(g, pinned, budget, (n - 1) as nat);
        lemma_divided(g, pinned, budget, (n - 1) as nat);
        let d = divided(g, pinned, budget, (n - 1) as nat);
        let e = divided(g, pinned, budget, n);
        let a = d.resident + d.streamed;
        let b = e.resident + e.streamed;
        assert forall|i: int| 0 <= i < a.len() implies a[i] < n - 1 by {
            if i < d.resident.len() {
                assert(d.resident[i] < n - 1);
            } else {
                assert(d.streamed[i - d.resident.len()] < n - 1);
            }
        }
        let k = d.resident.len() as int;
        assert forall|i: int, j: int| 0 <= i < b.len() && 0 <= j < b.len() && i != j implies b[i]
            != b[j] by {
            if b.len() > a.len() {
                if e.resident.len() > d.resident.len() {
                    // The new one stands at place `k`.
                    let x = if i < k { i } else { i - 1 };
                    let y = if j < k { j } else { j - 1 };
                    if i != k {
                        assert(b[i] == a[x]);
                    }
                    if j != k {
                        assert(b[j] == a[y]);
                    }
                } else {
                    if i < a.len() {
                        assert(b[i] == a[i]);
                    }
                    if j < a.len() {
                        assert(b[j] == a[j]);
                    }
                }
            }
        }
    }
}

/// Every streamed parameter is no larger than `peak`, or fits beside the resident ones.
spec fn has_room<T: Scalar>(g: Graph<T>, d: Division, peak: int, budget: int) -> bool {
    forall|i: int|
        0 <= i < d.streamed.len() ==> {
            ||| size_of(g, #[trigger] d.streamed[i]) * 4 <= peak
            ||| size_of(g, d.streamed[i]) * 4 <= budget - d.used
        }
}

proof fn lemma_largest_bytes<T: Scalar>(g: Graph<T>, ids: Seq<usize>, n: nat)
    requires
        n <= ids.len(),
    ensures
        largest_bytes(g, ids, n) >= 0,
        forall|i: int|
            0 <= i < n ==> size_of(g, #[trigger] ids[i]) * 4 <= largest_bytes(g, ids, n),
        n > 0 ==> exists|i: int|
            0 <= i < n && size_of(g, #[trigger] ids[i]) * 4 == largest_bytes(g, ids, n),
    decreases n,
{
    if n > 0 {
        let m = (n - 1) as nat;
        lemma_largest_bytes(g, ids, m);
        if size_of(g, ids[n - 1]) * 4 < largest_bytes(g, ids, m) {
            let i = choose|i: int|
                0 <= i < m && size_of(g, #[trigger] ids[i]) * 4 == largest_bytes(g, ids, m);
            assert(size_of(g, ids[i]) * 4 == largest_bytes(g, ids, n));
        } else {
            assert(size_of(g, ids[n - 1]) * 4 == largest_bytes(g, ids, n));
        }
    }
}

proof fn lemma_relieved<T: Scalar>(g: Graph<T>, d: Division, peak: int, budget: int, n: int)
    requires
        sound(g, d, n),
    ensures
        sound(g, relieved(g, d, peak, budget), n),
        relieved(g, d, peak, budget).used <= d.used,
        relieved(g, d, peak, budget).resident.len() == 0 || peak <= less(
            budget,
            relieved(g, d, peak, budget).used,
        ),
        d.used <= budget && has_room(g, d, peak, budget) ==> has_room(
            g,
            relieved(g, d, peak, budget),
            peak,
            budget,
        ),
    decreases d.resident.len(),
{
    if peak > less(budget, d.used) && d.resident.len() > 0 {
        lemma_largest_at(g, d.resident, d.resident.len());
        let at = largest_at(g, d.resident, d.resident.len());
        let id = d.resident[at];
        let e = Division {
            resident: d.resident.remove(at),
            streamed: d.streamed.push(id),
            used: d.used - cost_of(g, id),
        };
        lemma_costs_remove(g, d.resident, at);
        lemma_costs_push(g, d.streamed, id);
        lemma_costs_nonneg(g, e.resident);
        assert forall|i: int|
            0 <= i < e.streamed.len() && d.used <= budget && has_room(g, d, peak, budget) implies {
            ||| size_of(g, #[trigger] e.streamed[i]) * 4 <= peak
            ||| size_of(g, e.streamed[i]) * 4 <= budget - e.used
        } by {
            if i < d.streamed.len() {
                assert(e.streamed[i] == d.streamed[i]);
            }
        }
        lemma_relieved(g, e, peak, budget, n);
    }
}

proof fn lemma_relieved_members<T: Scalar>(g: Graph<T>, d: Division, peak: int, budget: int)
    requires
        no_doubles(d),
    ensures
        no_doubles(relieved(g, d, peak, budget)),
        forall|id: usize|
            #[trigger] part_of(relieved(g, d, peak, budget), id) <==> part_of(d, id),
    decreases d.resident.len(),
{
    if peak > less(budget, d.used) && d.resident.len() > 0 {
        lemma_largest_at(g, d.resident, d.resident.len());
        let at = largest_at(g, d.resident, d.resident.len());
        let id = d.resident[at];
        let e = Division {
            resident: d.resident.remove(at),
            streamed: d.streamed.push(id),
            used: d.used - cost_of(g, id),
        };
        let a = d.resident + d.streamed;
        let b = e.resident + e.streamed;
        let k = d.resident.len() as int;
        let n = a.len() as int;
        assert(b.len() == n);
        assert forall|i: int, j: int| 0 <= i < n && 0 <= j < n && i != j implies b[i] != b[j] by {
            let x = if i < at {
                i
            } else if i < n - 1 {
                i + 1
            } else {
                at
            };
            let y = if j < at {
                j
            } else if j < n - 1 {
                j + 1
            } else {
                at
            };
            assert(b[i] == a[x]);
            assert(b[j] == a[y]);
        }
        assert forall|x: usize| #[trigger] part_of(e, x) <==> part_of(d, x) by {
            if d.resident.contains(x) {
                let i = choose|i: int| 0 <= i < d.resident.len() && d.resident[i] == x;
                if i < at {
                    assert(e.resident[i] == x);
                } else if i > at {
                    assert(e.resident[i - 1] == x);
                } else {
                    assert(e.streamed[e.streamed.len() - 1] == x);
                }
            }
            if d.streamed.contains(x) {
                let i = choose|i: int| 0 <= i < d.streamed.len() && d.streamed[i] == x;
                assert(e.streamed[i] == x);
            }
            if e.resident.contains(x) {
                let i = choose|i: int| 0 <= i < e.resident.len() && e.resident[i] == x;
                if i < at {
                    assert(d.resident[i] == x);
                } else {
                    assert(d.resident[i + 1] == x);
                }
            }
            if e.streamed.contains(x) {
                let i = choose|i: int| 0 <= i < e.streamed.len() && e.streamed[i] == x;
                if i < d.streamed.len() {
                    assert(d.streamed[i] == x);
                } else {
                    assert(d.resident[at] == x);
                }
            }
        }
        lemma_relieved_members(g, e, peak, budget);
        let r = relieved(g, d, peak, budget);
        assert forall|x: usize| #[trigger] part_of(r, x) <==> part_of(d, x) by {
            assert(part_of(e, x) <==> part_of(d, x));
        }
    }
}

/// Every parameter that is not pinned is either resident or streamed, never both and never twice,
/// and the resident ones fit into what the budget leaves for them.
pub proof fn division_is_sound<T: Scalar>(g: Graph<T>, pinned: Seq<usize>, budget: int)
    requires
        budget >= 0,
    ensures
        no_doubles(division(g, pinned, budget)),
        forall|id: usize|
            #[trigger] part_of(division(g, pinned, budget), id) <==> id < g.num_params
                && !pinned.contains(id),
        costs(g, division(g, pinned, budget).resident) <= budget,
{
    let n = g.num_params as nat;
    let d = divided(g, pinned, budget, n);
    let peak = largest_bytes(g, d.streamed, d.streamed.len());
    lemma_divided(g, pinned, budget, n);
    lemma_divided_no_doubles(g, pinned, budget, n);
    lemma_relieved(g, d, peak, budget, n as int);
    lemma_relieved_members(g, d, peak, budget);
    assert forall|id: usize|
        #[trigger] part_of(division(g, pinned, budget), id) <==> id < g.num_params
            && !pinned.contains(id) by {
        lemma_divided_members(g, pinned, budget, n, id);
        assert(part_of(division(g, pinned, budget), id) <==> part_of(d, id));
    }
}

/// Beside the resident parameters there is room for the largest streamed one, unless no parameter
/// is resident.
pub proof fn streaming_has_room<T: Scalar>(g: Graph<T>, pinned: Seq<usize>, budget: int)
    requires
        budget >= 0,
    ensures
        ({
            let d = division(g, pinned, budget);
            d.resident.len() == 0 || largest_bytes(g, d.streamed, d.streamed.len()) + costs(
                g,
                d.resident,
            ) <= budget
        }),
{
    let n = g.num_params as nat;
    let first = divided(g, pinned, budget, n);
    let peak = largest_bytes(g, first.streamed, first.streamed.len());
    let d = division(g, pinned, budget);
    lemma_divided(g, pinned, budget, n);
    lemma_largest_bytes(g, first.streamed, first.streamed.len());
    lemma_relieved(g, first, peak, budget, n as int);
    lemma_largest_bytes(g, d.streamed, d.streamed.len());
    assert(has_room(g, d, peak, budget));
}

fn in_list(ids: &[usize], id: usize) -> (r: bool)
    ensures
        r == ids@.contains(id),
{
    let mut i: usize = 0;
    while i < ids.len()
        invariant
            i <= ids@.len(),
            forall|j: int| 0 <= j < i ==> #[trigger] ids@[j] != id,
        decreases ids@.len() - i,
    {
        if ids[i] == id {
            assert(ids@[i as int] == id);
            return true;
        }
        i += 1;
    }
    false
}

proof fn lemma_cost_member<T: Scalar>(g: Graph<T>, n: nat, id: usize)
    requires
        id < n,
        n <= usize::MAX,
    ensures
        0 <= cost_of(g, id) <= costs(g, below(n)),
    decreases n,
{
    assert(below(n).drop_last() =~= below((n - 1) as nat));
    assert(below(n).last() == n - 1);
    lemma_costs_nonneg(g, below((n - 1) as nat));
    if id < n - 1 {
        lemma_cost_member(g, (n - 1) as nat, id);
    }
}

impl<T: Scalar> Graph<T> {
    fn cost(&self, id: usize) -> (r: usize)
        requires
            self.wf(),
            id < self.tensors@.len(),
            cost_of(*self, id) <= usize::MAX,
        ensures
            r == cost_of(*self, id),
    {
        assert(self.tensors@[id as int].shape_wf());
        self.tensors[id].size() * 4 * 4
    }

    fn total_cost(&self, ids: &[usize]) -> (r: usize)
        requires
            self.wf(),
            forall|i: int| 0 <= i < ids@.len() ==> #[trigger] ids@[i] < self.tensors@.len(),
            costs(*self, ids@) <= usize::MAX,
        ensures
            r == costs(*self, ids@),
    {
        let mut r: usize = 0;
        let mut i: usize = 0;
        assert(ids@.take(0) =~= Seq::empty());
        while i < ids.len()
            invariant
                i <= ids@.len(),
                self.wf(),
                forall|i: int| 0 <= i < ids@.len() ==> #[trigger] ids@[i] < self.tensors@.len(),
                costs(*self, ids@) <= usize::MAX,
                r == costs(*self, ids@.take(i as int)),
            decreases ids@.len() - i,
        {
            proof {
                assert(ids@.take(i + 1).drop_last() =~= ids@.take(i as int));
                assert(ids@.take(i + 1).last() == ids@[i as int]);
                lemma_costs_take(*self, ids@, i + 1);
                lemma_costs_nonneg(*self, ids@.take(i as int));
            }
            r = r + self.cost(ids[i]);
            i += 1;
        }
        assert(ids@.take(ids@.len() as int) =~= ids@);
        r
    }

    /// The first division.
    fn divide(&self, pinned: &[usize], budget: usize) -> (r: (Vec<usize>, Vec<usize>, usize))
        requires
            self.wf(),
            self.num_params <= self.tensors@.len(),
            costs(*self, below(self.num_params as nat)) <= usize::MAX,
        ensures
            ({
                let d = divided(*self, pinned@, budget as int, self.num_params as nat);
                r.0@ == d.resident && r.1@ == d.streamed && r.2 == d.used
            }),
    {
        let mut resident: Vec<usize> = Vec::new();
        let mut streamed: Vec<usize> = Vec::new();
        let mut used: usize = 0;
        let mut i: usize = 0;
        while i < self.num_params
            invariant
                i <= self.num_params,
                self.wf(),
                self.num_params <= self.tensors@.len(),
                costs(*self, below(self.num_params as nat)) <= usize::MAX,
                ({
                    let d = divided(*self, pinned@, budget as int, i as nat);
                    resident@ == d.resident && streamed@ == d.streamed && used == d.used
                }),
                used <= budget,
            decreases self.num_params - i,
        {
            if !in_list(pinned, i) {
                proof {
                    lemma_cost_member(*self, self.num_params as nat, i);
                }
                let cost: usize = self.cost(i);
                if cost <= budget - used {
                    used = used + cost;
                    resident.push(i);
                } else {
                    streamed.push(i);
                }
            }
            i += 1;
        }
        (resident, streamed, used)
    }

    /// The place of the largest of some parameters.
    fn largest(&self, ids: &Vec<usize>) -> (r: usize)
        requires
            self.wf(),
            ids@.len() > 0,
            forall|i: int| 0 <= i < ids@.len() ==> #[trigger] ids@[i] < self.tensors@.len(),
        ensures
            r == largest_at(*self, ids@, ids@.len()),
            r < ids@.len(),
    {
        let mut at: usize = 0;
        let mut i: usize = 1;
        while i < ids.len()
            invariant
                1 <= i <= ids@.len(),
                self.wf(),
                forall|i: int| 0 <= i < ids@.len() ==> #[trigger] ids@[i] < self.tensors@.len(),
                at == largest_at(*self, ids@, i as nat),
                at < i,
            decreases ids@.len() - i,
        {
            assert(self.tensors@[ids@[i as int] as int].shape_wf());
            assert(self.tensors@[ids@[at as int] as int].shape_wf());
            if self.tensors[ids[i]].size() >= self.tensors[ids[at]].size() {
                at = i;
            }
            i += 1;
        }
        at
    }

    /// Decides which parameters stay in device memory. Pinned ones do; the others stay as long as
    /// they fit into the budget, of which a part is reserved for activations.
    pub fn plan_streaming(
        &self,
        vram_budget_bytes: usize,
        activation_reserve_bytes: usize,
        pinned_ids: &[usize],
    ) -> (r: StreamingReport)
        requires
            self.wf(),
            self.device == Device::Gpu,
            self.num_params > 0,
            costs_fit(*self, pinned_ids@),
        ensures
            ({
                let budget = budget_left(
                    *self,
                    vram_budget_bytes as int,
                    activation_reserve_bytes as int,
                    pinned_ids@,
                );
                let d = division(*self, pinned_ids@, budget);
                &&& r.resident_param_ids@ == pinned_ids@ + d.resident
                &&& r.streamed_param_ids@ == d.streamed
                &&& r.resident_bytes == costs(*self, pinned_ids@ + d.resident)
                &&& r.streamed_bytes * 4 == costs(*self, d.streamed)
                &&& r.streaming_headroom_bytes == largest_bytes(
                    *self,
                    d.streamed,
                    d.streamed.len(),
                )
                &&& r.resident_headroom_bytes == 0
            }),
    {
        let ghost n = self.num_params as nat;
        proof {
            lemma_costs_nonneg(*self, pinned_ids@);
            lemma_costs_nonneg(*self, below(n));
        }
        let pinned_vram: usize = self.total_cost(pinned_ids);
        let after_reserve: usize = if vram_budget_bytes >= activation_reserve_bytes {
            vram_budget_bytes - activation_reserve_bytes
        } else {
            0
        };
        let budget: usize = if after_reserve >= pinned_vram {
            after_reserve - pinned_vram
        } else {
            0
        };
        let (mut resident, mut streamed, mut used) = self.divide(pinned_ids, budget);
        let ghost first = divided(*self, pinned_ids@, budget as int, n);
        proof {
            lemma_divided(*self, pinned_ids@, budget as int, n);
        }
        let peak: usize = self.peak_bytes(&streamed);
        let ghost goal = relieved(*self, first, peak as int, budget as int);
        while peak > budget - used && resident.len() > 0
            invariant
                used <= budget,
                self.wf(),
                self.num_params <= self.tensors@.len(),
                n == self.num_params,
                costs(*self, below(n)) <= usize::MAX,
                sound(
                    *self,
                    (Division { resident: resident@, streamed: streamed@, used: used as int }),
                    n as int,
                ),
                relieved(
                    *self,
                    (Division { resident: resident@, streamed: streamed@, used: used as int }),
                    peak as int,
                    budget as int,
                ) == goal,
            decreases resident@.len(),
        {
            let ghost d = Division { resident: resident@, streamed: streamed@, used: used as int };
            let at: usize = self.largest(&resident);
            let id: usize = resident.remove(at);
            proof {
                lemma_costs_remove(*self, d.resident, at as int);
                lemma_costs_push(*self, d.streamed, id);
                lemma_costs_nonneg(*self, resident@);
                lemma_costs_nonneg(*self, d.streamed);
                assert(resident@ =~= d.resident.remove(at as int));
                assert(d.resident[at as int] == id);
            }
            used = used - self.cost(id);
            streamed.push(id);
        }
        assert(goal.resident == resident@ && goal.streamed == streamed@);
        let mut resident_ids: Vec<usize> = Vec::new();
        let mut i: usize = 0;
        while i < pinned_ids.len()
            invariant
                i <= pinned_ids@.len(),
                resident_ids@ == pinned_ids@.take(i as int),
            decreases pinned_ids@.len() - i,
        {
            assert(pinned_ids@.take(i + 1) =~= pinned_ids@.take(i as int).push(
                pinned_ids@[i as int],
            ));
            resident_ids.push(pinned_ids[i]);
            i += 1;
        }
        assert(pinned_ids@.take(pinned_ids@.len() as int) =~= pinned_ids@);
        let ghost parts = resident@;
        resident_ids.append(&mut resident);
        proof {
            assert(resident_ids@ =~= pinned_ids@ + parts);
            lemma_costs_concat(*self, pinned_ids@, parts);
            lemma_costs_nonneg(*self, streamed@);
            lemma_costs_nonneg(*self, parts);
            assert forall|i: int| 0 <= i < resident_ids@.len() implies #[trigger] resident_ids@[i]
                < self.tensors@.len() by {
                if i >= pinned_ids@.len() {
                    assert(parts[i - pinned_ids@.len()] < n);
                }
            }
            assert forall|i: int| 0 <= i < streamed@.len() implies #[trigger] streamed@[i]
                < self.tensors@.len() by {
                assert(goal.streamed[i] < n);
            }
        }
        let resident_bytes: usize = self.total_cost(resident_ids.as_slice());
        let streamed_cost: usize = self.total_cost(streamed.as_slice());
        let streaming_headroom_bytes: usize = self.peak_bytes(&streamed);
        proof {
            lemma_costs_divisible(*self, streamed@);
        }
        StreamingReport {
            resident_param_ids: resident_ids,
            streamed_param_ids: streamed,
            resident_bytes,
            resident_headroom_bytes: 0,
            streamed_bytes: streamed_cost / 4,
            streaming_headroom_bytes,
        }
    }

    fn peak_bytes(&self, ids: &Vec<usize>) -> (r: usize)
        requires
            self.wf(),
            self.num_params <= self.tensors@.len(),
            costs(*self, below(self.num_params as nat)) <= usize::MAX,
            forall|i: int| 0 <= i < ids@.len() ==> #[trigger] ids@[i] < self.num_params,
        ensures
            r == largest_bytes(*self, ids@, ids@.len()),
    {
        let mut peak: usize = 0;
        let mut i: usize = 0;
        while i < ids.len()
            invariant
                i <= ids@.len(),
                self.wf(),
                self.num_params <= self.tensors@.len(),
                costs(*self, below(self.num_params as nat)) <= usize::MAX,
                forall|i: int| 0 <= i < ids@.len() ==> #[trigger] ids@[i] < self.num_params,
                peak == largest_bytes(*self, ids@, i as nat),
            decreases ids@.len() - i,
        {
            proof {
                lemma_cost_member(*self, self.num_params as nat, ids@[i as int]);
                assert(self.tensors@[ids@[i as int] as int].shape_wf());
            }
            let b: usize = self.tensors[ids[i]].size() * 4;
            if b >= peak {
                peak = b;
            }
            i += 1;
        }
        peak
    }
}

proof fn lemma_costs_divisible<T: Scalar>(g: Graph<T>, ids: Seq<usize>)
    ensures
        costs(g, ids) % 4 == 0,
    decreases ids.len(),
{
    if ids.len() > 0 {
        lemma_costs_divisible(g, ids.drop_last());
    }
}

} // verus!

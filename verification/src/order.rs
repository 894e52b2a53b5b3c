//! The order of evaluation of a circuit: a depth-first walk from each
//! endpoint, each gate after its inputs. A circuit is given here by the
//! input handles (first, second) of each gate.
use vstd::prelude::*;

verus! {

/// Every gate's inputs come before it.
pub open spec fn links_ok(links: Seq<(Option<usize>, Option<usize>)>) -> bool {
    forall|g: int| 0 <= g < links.len() ==> #[trigger] inputs_earlier(links, g)
}

pub open spec fn inputs_earlier(links: Seq<(Option<usize>, Option<usize>)>, g: int) -> bool {
    &&& (links[g].0 matches Some(x) ==> x < g)
    &&& (links[g].1 matches Some(y) ==> y < g)
}

/// The order in which a depth-first walk from gate g, past this gates already
/// in `order`, evaluates gates: first input x, then input y, then g.
pub open spec fn visit_spec(links: Seq<(Option<usize>, Option<usize>)>, g: int, order: Seq<usize>) -> Seq<usize>
    decreases g,
{
    if g < 0 || g >= links.len() || order.contains(g as usize) {
        order
    } else {
        let d = links[g];
        let o1 = match d.0 {
            Some(x) => if x < g { visit_spec(links, x as int, order) } else { order },
            None => order,
        };
        let o2 = match d.1 {
            Some(y) => if y < g { visit_spec(links, y as int, o1) } else { o1 },
            None => o1,
        };
        o2.push(g as usize)
    }
}

/// The walk from each endpoint in turn.
pub open spec fn order_from(links: Seq<(Option<usize>, Option<usize>)>, endpoints: Seq<usize>) -> Seq<usize>
    decreases endpoints.len(),
{
    if endpoints.len() == 0 {
        Seq::<usize>::empty()
    } else {
        visit_spec(links, endpoints.last() as int, order_from(links, endpoints.drop_last()))
    }
}

/// The inputs of this gate at position k of `order` come earlier in it.
pub open spec fn inputs_before(links: Seq<(Option<usize>, Option<usize>)>, order: Seq<usize>, k: int) -> bool {
    let d = links[order[k] as int];
    &&& (d.0 matches Some(x) ==> order.subrange(0, k).contains(x))
    &&& (d.1 matches Some(y) ==> order.subrange(0, k).contains(y))
}

/// Every gate of `order` comes after its inputs.
pub open spec fn topological(links: Seq<(Option<usize>, Option<usize>)>, order: Seq<usize>) -> bool {
    forall|k: int| 0 <= k < order.len() ==> #[trigger] inputs_before(links, order, k)
}

/// An order of evaluation: distinct gates, each after its inputs.
pub open spec fn valid_order(links: Seq<(Option<usize>, Option<usize>)>, order: Seq<usize>) -> bool {
    &&& order.no_duplicates()
    &&& forall|k: int| 0 <= k < order.len() ==> #[trigger] order[k] < links.len()
    &&& topological(links, order)
}

proof fn lemma_extend_keeps_topological(links: Seq<(Option<usize>, Option<usize>)>, order: Seq<usize>, r: Seq<usize>)
    requires
        topological(links, order),
        r.len() >= order.len(),
        r.subrange(0, order.len() as int) == order,
    ensures
        forall|k: int| 0 <= k < order.len() ==> #[trigger] inputs_before(links, r, k),
{
    assert forall|k: int| 0 <= k < order.len() implies #[trigger] inputs_before(links, r, k) by {
        assert(inputs_before(links, order, k));
        assert(r.subrange(0, k) =~= order.subrange(0, k));
        assert(r[k] == order[k]);
    }
}

/// The walk from g extends `order` by gates up to g, keeps it a valid
/// order, and ends with g in it.
pub proof fn lemma_visit_valid(links: Seq<(Option<usize>, Option<usize>)>, g: int, order: Seq<usize>)
    requires
        0 <= g < links.len(),
        links.len() <= usize::MAX,
        links_ok(links),
        valid_order(links, order),
    ensures
        visit_spec(links, g, order).len() >= order.len(),
        visit_spec(links, g, order).subrange(0, order.len() as int) == order,
        forall|k: int| order.len() <= k < visit_spec(links, g, order).len() ==> #[trigger] visit_spec(links, g, order)[k] <= g,
        valid_order(links, visit_spec(links, g, order)),
        visit_spec(links, g, order).contains(g as usize),
    decreases g,
{
    let r = visit_spec(links, g, order);
    if order.contains(g as usize) {
        assert(r.subrange(0, order.len() as int) =~= order);
    } else {
        assert(inputs_earlier(links, g));
        let d = links[g];
        let o1 = match d.0 {
            Some(x) => if x < g { visit_spec(links, x as int, order) } else { order },
            None => order,
        };
        let o2 = match d.1 {
            Some(y) => if y < g { visit_spec(links, y as int, o1) } else { o1 },
            None => o1,
        };
        if let Some(x) = d.0 {
            if x < g {
                lemma_visit_valid(links, x as int, order);
            }
        }
        assert(o1.len() >= order.len());
        assert(o1.subrange(0, order.len() as int) == order) by {
            if o1 == order {
                assert(o1.subrange(0, order.len() as int) =~= order);
            }
        }
        assert(forall|k: int| order.len() <= k < o1.len() ==> #[trigger] o1[k] < g);
        if let Some(y) = d.1 {
            if y < g {
                lemma_visit_valid(links, y as int, o1);
            }
        }
        assert(o2.len() >= o1.len());
        assert(o2.subrange(0, o1.len() as int) == o1) by {
            if o2 == o1 {
                assert(o2.subrange(0, o1.len() as int) =~= o1);
            }
        }
        assert(forall|k: int| o1.len() <= k < o2.len() ==> #[trigger] o2[k] < g);
        assert forall|k: int| order.len() <= k < o2.len() implies #[trigger] o2[k] < g by {
            if k < o1.len() {
                assert(o2[k] == o2.subrange(0, o1.len() as int)[k]);
            }
        }
        assert(o2.subrange(0, order.len() as int) =~= order) by {
            assert forall|k: int| 0 <= k < order.len() implies o2[k] == order[k] by {
                assert(o2[k] == o2.subrange(0, o1.len() as int)[k]);
                assert(o1[k] == o1.subrange(0, order.len() as int)[k]);
            }
        }
        assert(!o2.contains(g as usize)) by {
            if o2.contains(g as usize) {
                let k = choose|k: int| 0 <= k < o2.len() && o2[k] == g as usize;
                if k < order.len() {
                    assert(order[k] == o2[k]);
                    assert(order.contains(g as usize));
                }
            }
        }
        assert(r == o2.push(g as usize));
        assert(r.subrange(0, order.len() as int) =~= order);
        assert(r.no_duplicates()) by {
            assert forall|i: int, j: int| 0 <= i < r.len() && 0 <= j < r.len() && i != j implies r[i] != r[j] by {
                if i < o2.len() && j < o2.len() {
                    assert(o2.no_duplicates());
                } else if i == o2.len() {
                    assert(r[i] == g as usize);
                    if r[j] == g as usize {
                        assert(o2.contains(g as usize));
                    }
                } else {
                    assert(r[j] == g as usize);
                    if r[i] == g as usize {
                        assert(o2.contains(g as usize));
                    }
                }
            }
        }
        assert(r.subrange(0, o2.len() as int) =~= o2);
        lemma_extend_keeps_topological(links, o2, r);
        assert(inputs_before(links, r, o2.len() as int)) by {
            assert(r.subrange(0, o2.len() as int) =~= o2);
            if let Some(x) = d.0 {
                assert(o1.contains(x));
                let k = choose|k: int| 0 <= k < o1.len() && o1[k] == x;
                assert(o2[k] == o2.subrange(0, o1.len() as int)[k]);
                assert(o2.contains(x));
            }
            if let Some(y) = d.1 {
                assert(o2.contains(y));
            }
        }
        assert(r.contains(g as usize)) by {
            assert(r[o2.len() as int] == g as usize);
        }
    }
}

/// The walk from the endpoints gives a valid order holding every endpoint.
pub proof fn lemma_order_valid(links: Seq<(Option<usize>, Option<usize>)>, endpoints: Seq<usize>)
    requires
        links.len() <= usize::MAX,
        links_ok(links),
        forall|k: int| 0 <= k < endpoints.len() ==> #[trigger] endpoints[k] < links.len(),
    ensures
        valid_order(links, order_from(links, endpoints)),
        forall|k: int| 0 <= k < endpoints.len() ==> order_from(links, endpoints).contains(#[trigger] endpoints[k]),
    decreases endpoints.len(),
{
    if endpoints.len() > 0 {
        let prev = order_from(links, endpoints.drop_last());
        lemma_order_valid(links, endpoints.drop_last());
        lemma_visit_valid(links, endpoints.last() as int, prev);
        let r = order_from(links, endpoints);
        assert forall|k: int| 0 <= k < endpoints.len() implies r.contains(#[trigger] endpoints[k]) by {
            if k < endpoints.len() - 1 {
                assert(endpoints.drop_last()[k] == endpoints[k]);
                assert(prev.contains(endpoints[k]));
                let j = choose|j: int| 0 <= j < prev.len() && prev[j] == endpoints[k];
                assert(r[j] == r.subrange(0, prev.len() as int)[j]);
            }
        }
    } else {
        assert(order_from(links, endpoints) =~= Seq::<usize>::empty());
    }
}


} // verus!

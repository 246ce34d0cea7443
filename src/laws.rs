use vstd::prelude::*;

use crate::warehouse::{
    InventoryItem, Line, OrderRequest, Reservation, Warehouse, item_outcome, lines,
    local_reserved, local_shortfall, stock_of,
};

verus! {

/// The total quantity of `product` over a sequence of lines.
pub open spec fn total_lines(s: Seq<Line>, product: Seq<char>) -> int
    decreases s.len(),
{
    if s.len() == 0 {
        0
    } else {
        total_lines(s.drop_last(), product) + if s.last().product == product {
            s.last().qty
        } else {
            0
        }
    }
}

/// The total quantity of `product` over a sequence of reservations.
pub open spec fn total_reserved(s: Seq<Reservation>, product: Seq<char>) -> int
    decreases s.len(),
{
    if s.len() == 0 {
        0
    } else {
        total_reserved(s.drop_last(), product) + if s.last().product == product {
            s.last().qty
        } else {
            0
        }
    }
}

proof fn lemma_total_reserved_concat(a: Seq<Reservation>, b: Seq<Reservation>, product: Seq<char>)
    ensures
        total_reserved(a + b, product) == total_reserved(a, product) + total_reserved(b, product),
    decreases b.len(),
{
    if b.len() == 0 {
        assert(a + b =~= a);
    } else {
        assert((a + b).drop_last() =~= a + b.drop_last());
        lemma_total_reserved_concat(a, b.drop_last(), product);
    }
}

/// Every shortfall a single warehouse leaves is of a positive quantity.
pub proof fn lemma_shortfall_positive(warehouse: Seq<char>, inventories: Seq<InventoryItem>, reqs: Seq<Line>)
    ensures
        forall|k: int|
            0 <= k < local_shortfall(warehouse, inventories, reqs).len() ==> local_shortfall(
                warehouse,
                inventories,
                reqs,
            )[k].qty > 0,
    decreases reqs.len(),
{
    if reqs.len() > 0 {
        lemma_shortfall_positive(warehouse, inventories, reqs.drop_last());
        let prev = local_shortfall(warehouse, inventories, reqs.drop_last());
        match item_outcome(warehouse, inventories, reqs.last()).1 {
            Some(l) => {
                assert(l.qty > 0);
                assert(local_shortfall(warehouse, inventories, reqs) == prev.push(l));
            },
            None => {},
        }
    }
}

/// Every reservation a single warehouse makes is of a positive quantity.
pub proof fn lemma_reserved_positive(warehouse: Seq<char>, inventories: Seq<InventoryItem>, reqs: Seq<Line>)
    ensures
        forall|k: int|
            0 <= k < local_reserved(warehouse, inventories, reqs).len() ==> local_reserved(
                warehouse,
                inventories,
                reqs,
            )[k].qty > 0,
    decreases reqs.len(),
{
    if reqs.len() > 0 {
        lemma_reserved_positive(warehouse, inventories, reqs.drop_last());
        let prev = local_reserved(warehouse, inventories, reqs.drop_last());
        match item_outcome(warehouse, inventories, reqs.last()).0 {
            Some(r) => {
                assert(r.qty > 0);
                assert(local_reserved(warehouse, inventories, reqs) == prev.push(r));
            },
            None => {},
        }
    }
}

/// A single warehouse conserves each product: what it reserves plus what it
/// leaves short is what was asked for.
proof fn lemma_local_conservation(
    warehouse: Seq<char>,
    inventories: Seq<InventoryItem>,
    reqs: Seq<Line>,
    product: Seq<char>,
)
    requires
        forall|k: int| 0 <= k < reqs.len() ==> reqs[k].qty >= 0,
    ensures
        total_reserved(local_reserved(warehouse, inventories, reqs), product) + total_lines(
            local_shortfall(warehouse, inventories, reqs),
            product,
        ) == total_lines(reqs, product),
    decreases reqs.len(),
{
    if reqs.len() > 0 {
        lemma_local_conservation(warehouse, inventories, reqs.drop_last(), product);
        let prev_r = local_reserved(warehouse, inventories, reqs.drop_last());
        let prev_s = local_shortfall(warehouse, inventories, reqs.drop_last());
        let outcome = item_outcome(warehouse, inventories, reqs.last());
        assert(reqs.last().qty >= 0);
        match outcome.0 {
            Some(r) => {
                assert(local_reserved(warehouse, inventories, reqs) == prev_r.push(r));
                assert(prev_r.push(r).drop_last() =~= prev_r);
            },
            None => {},
        }
        match outcome.1 {
            Some(l) => {
                assert(local_shortfall(warehouse, inventories, reqs) == prev_s.push(l));
                assert(prev_s.push(l).drop_last() =~= prev_s);
            },
            None => {},
        }
    }
}

/// Conservation: for every product, the quantities reserved anywhere along
/// the chain plus the quantities left unreserved add up to the quantity
/// requested.
pub proof fn law_conservation<'a>(w: &Warehouse<'a>, requests: Seq<OrderRequest>, product: Seq<char>)
    requires
        forall|i: int| 0 <= i < requests.len() ==> requests[i].stock >= 0,
    ensures
        total_reserved(w.ledger(lines(requests)).reserved, product) + total_lines(
            w.ledger(lines(requests)).not_reserved,
            product,
        ) == total_lines(lines(requests), product),
{
    lemma_chain_conservation(w, lines(requests), product);
}

proof fn lemma_chain_conservation<'a>(w: &Warehouse<'a>, reqs: Seq<Line>, product: Seq<char>)
    requires
        forall|k: int| 0 <= k < reqs.len() ==> reqs[k].qty >= 0,
    ensures
        total_reserved(w.ledger(reqs).reserved, product) + total_lines(
            w.ledger(reqs).not_reserved,
            product,
        ) == total_lines(reqs, product),
    decreases w,
{
    let own = local_reserved(w.name@, w.inventories@, reqs);
    let short = local_shortfall(w.name@, w.inventories@, reqs);
    lemma_local_conservation(w.name@, w.inventories@, reqs, product);
    match w.linked_warehouse {
        None => {},
        Some(next) => {
            if short.len() == 0 {
                assert(total_lines(Seq::<Line>::empty(), product) == 0);
            } else {
                lemma_shortfall_positive(w.name@, w.inventories@, reqs);
                lemma_chain_conservation(next, short, product);
                lemma_total_reserved_concat(own, next.ledger(short).reserved, product);
            }
        },
    }
}

/// No entry of quantity zero: every reservation and every unreserved line
/// in a ledger has a positive quantity.
pub proof fn law_no_zero_entries<'a>(w: &Warehouse<'a>, reqs: Seq<Line>)
    ensures
        forall|k: int|
            0 <= k < w.ledger(reqs).reserved.len() ==> #[trigger] w.ledger(reqs).reserved[k].qty > 0,
        forall|k: int|
            0 <= k < w.ledger(reqs).not_reserved.len() ==> #[trigger] w.ledger(
                reqs,
            ).not_reserved[k].qty > 0,
    decreases w,
{
    let own = local_reserved(w.name@, w.inventories@, reqs);
    let short = local_shortfall(w.name@, w.inventories@, reqs);
    lemma_reserved_positive(w.name@, w.inventories@, reqs);
    lemma_shortfall_positive(w.name@, w.inventories@, reqs);
    match w.linked_warehouse {
        None => {},
        Some(next) => {
            if short.len() > 0 {
                law_no_zero_entries(next, short);
                let all = w.ledger(reqs).reserved;
                assert(all == own + next.ledger(short).reserved);
                assert forall|k: int| 0 <= k < all.len() implies #[trigger] all[k].qty > 0 by {
                    if k >= own.len() {
                        assert(all[k] == next.ledger(short).reserved[k - own.len()]);
                    }
                }
            }
        },
    }
}

proof fn lemma_local_concat(warehouse: Seq<char>, inventories: Seq<InventoryItem>, a: Seq<Line>, b: Seq<Line>)
    ensures
        local_reserved(warehouse, inventories, a + b) == local_reserved(warehouse, inventories, a)
            + local_reserved(warehouse, inventories, b),
        local_shortfall(warehouse, inventories, a + b) == local_shortfall(warehouse, inventories, a)
            + local_shortfall(warehouse, inventories, b),
    decreases b.len(),
{
    if b.len() == 0 {
        assert(a + b =~= a);
        assert(local_reserved(warehouse, inventories, a) + Seq::<Reservation>::empty() =~= local_reserved(warehouse, inventories, a));
        assert(local_shortfall(warehouse, inventories, a) + Seq::<Line>::empty() =~= local_shortfall(warehouse, inventories, a));
    } else {
        assert((a + b).drop_last() =~= a + b.drop_last());
        assert((a + b).last() == b.last());
        lemma_local_concat(warehouse, inventories, a, b.drop_last());
        let ra = local_reserved(warehouse, inventories, a);
        let rb = local_reserved(warehouse, inventories, b.drop_last());
        let sa = local_shortfall(warehouse, inventories, a);
        let sb = local_shortfall(warehouse, inventories, b.drop_last());
        let outcome = item_outcome(warehouse, inventories, b.last());
        match outcome.0 {
            Some(r) => assert((ra + rb).push(r) =~= ra + rb.push(r)),
            None => {},
        }
        match outcome.1 {
            Some(l) => assert((sa + sb).push(l) =~= sa + sb.push(l)),
            None => {},
        }
    }
}

/// Request order within a warehouse: for two request sets one after the
/// other, a warehouse by itself makes the reservations and leaves the
/// shortfalls of the first, followed by those of the second.
pub proof fn law_local_order<'a>(w: &Warehouse<'a>, first: Seq<OrderRequest>, second: Seq<OrderRequest>)
    ensures
        local_reserved(w.name@, w.inventories@, lines(first + second)) == local_reserved(
            w.name@,
            w.inventories@,
            lines(first),
        ) + local_reserved(w.name@, w.inventories@, lines(second)),
        local_shortfall(w.name@, w.inventories@, lines(first + second)) == local_shortfall(
            w.name@,
            w.inventories@,
            lines(first),
        ) + local_shortfall(w.name@, w.inventories@, lines(second)),
{
    assert(lines(first + second) =~= lines(first) + lines(second));
    lemma_local_concat(w.name@, w.inventories@, lines(first), lines(second));
}

/// Near before far: a ledger's reservations begin with the warehouse's own,
/// and, where it has a fallback and left shortfalls, continue with exactly
/// the fallback's ledger for those shortfalls, whose unreserved lines are
/// the ledger's.
pub proof fn law_chain_order<'a>(w: &Warehouse<'a>, requests: Seq<OrderRequest>)
    ensures
        ({
            let reqs = lines(requests);
            let own = local_reserved(w.name@, w.inventories@, reqs);
            let short = local_shortfall(w.name@, w.inventories@, reqs);
            let ledger = w.ledger(reqs);
            &&& own.len() <= ledger.reserved.len()
            &&& ledger.reserved.subrange(0, own.len() as int) == own
            &&& match w.linked_warehouse {
                Some(next) => if short.len() > 0 {
                    &&& ledger.reserved.subrange(own.len() as int, ledger.reserved.len() as int)
                        == next.ledger(short).reserved
                    &&& ledger.not_reserved == next.ledger(short).not_reserved
                } else {
                    &&& ledger.reserved == own
                    &&& ledger.not_reserved.len() == 0
                },
                None => ledger.reserved == own && ledger.not_reserved == short,
            }
        }),
{
    let reqs = lines(requests);
    let own = local_reserved(w.name@, w.inventories@, reqs);
    let short = local_shortfall(w.name@, w.inventories@, reqs);
    let ledger = w.ledger(reqs);
    match w.linked_warehouse {
        Some(next) => if short.len() > 0 {
            assert(ledger.reserved.subrange(0, own.len() as int) =~= own);
            assert(ledger.reserved.subrange(own.len() as int, ledger.reserved.len() as int)
                =~= next.ledger(short).reserved);
        } else {
            assert(ledger.reserved.subrange(0, own.len() as int) =~= own);
        },
        None => {
            assert(ledger.reserved.subrange(0, own.len() as int) =~= own);
        },
    }
}

/// The end of the chain: a single line for a product that a warehouse
/// without fallback does not stock is left unreserved whole, with nothing
/// reserved.
pub proof fn law_terminal<'a>(w: &Warehouse<'a>, request: OrderRequest)
    requires
        w.linked_warehouse is None,
        stock_of(w.inventories@, request.product_name@) is None,
        request.stock > 0,
    ensures
        w.ledger(lines(seq![request])).reserved.len() == 0,
        w.ledger(lines(seq![request])).not_reserved == seq![request@],
{
    let reqs = lines(seq![request]);
    assert(reqs =~= seq![request@]);
    assert(reqs.drop_last() =~= Seq::<Line>::empty());
    assert(reqs.last() == request@);
    assert(local_reserved(w.name@, w.inventories@, Seq::<Line>::empty()) == Seq::<Reservation>::empty());
    assert(local_shortfall(w.name@, w.inventories@, Seq::<Line>::empty()) == Seq::<Line>::empty());
    assert(item_outcome(w.name@, w.inventories@, request@) == (
        Option::<Reservation>::None,
        Some(request@),
    ));
    assert(local_shortfall(w.name@, w.inventories@, reqs) =~= seq![request@]);
}

} // verus!

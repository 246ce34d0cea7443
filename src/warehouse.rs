use vstd::prelude::*;

use crate::laws::{
    law_conservation, law_no_zero_entries, lemma_shortfall_positive, total_lines, total_reserved,
};

verus! {

/// One requested line: a product and the quantity asked for.
#[derive(Debug, PartialEq)]
pub struct OrderRequest {
    pub product_name: String,
    pub stock: i32,
}

/// The ledger of one reservation call.
#[derive(Debug, PartialEq)]
pub struct OrderResult {
    pub reserved: Vec<OrderReserved>,
    pub not_reserved: Vec<OrderNotReserved>,
}

/// A quantity of a product drawn from the named warehouse.
#[derive(Debug, PartialEq)]
pub struct OrderReserved {
    pub warehouse: String,
    pub product_name: String,
    pub stock: i32,
}

/// A quantity of a product that the chain could not cover.
#[derive(Debug, PartialEq)]
pub struct OrderNotReserved {
    pub product_name: String,
    pub stock: i32,
}

/// The stock a warehouse holds of one product.
#[derive(Debug, PartialEq)]
pub struct InventoryItem {
    pub product_name: String,
    pub stock: i32,
}

/// A warehouse with its stock and an optional fallback warehouse.
#[derive(Debug, PartialEq)]
pub struct Warehouse<'a> {
    pub name: String,
    pub inventories: Vec<InventoryItem>,
    pub linked_warehouse: Option<&'a Warehouse<'a>>,
}

/// A line of a request, or a shortfall, as a mathematical value.
pub struct Line {
    pub product: Seq<char>,
    pub qty: int,
}

/// A reservation as a mathematical value.
pub struct Reservation {
    pub warehouse: Seq<char>,
    pub product: Seq<char>,
    pub qty: int,
}

/// A ledger as a mathematical value.
pub struct Ledger {
    pub reserved: Seq<Reservation>,
    pub not_reserved: Seq<Line>,
}

impl View for OrderRequest {
    type V = Line;

    open spec fn view(&self) -> Line {
        Line { product: self.product_name@, qty: self.stock as int }
    }
}

impl View for OrderNotReserved {
    type V = Line;

    open spec fn view(&self) -> Line {
        Line { product: self.product_name@, qty: self.stock as int }
    }
}

impl View for OrderReserved {
    type V = Reservation;

    open spec fn view(&self) -> Reservation {
        Reservation { warehouse: self.warehouse@, product: self.product_name@, qty: self.stock as int }
    }
}

impl View for OrderResult {
    type V = Ledger;

    open spec fn view(&self) -> Ledger {
        Ledger {
            reserved: reservations(self.reserved@),
            not_reserved: shortfalls(self.not_reserved@),
        }
    }
}

/// The reservations of a sequence, in order.
pub open spec fn reservations(v: Seq<OrderReserved>) -> Seq<Reservation> {
    v.map_values(|r: OrderReserved| r@)
}

/// The shortfalls of a sequence, in order.
pub open spec fn shortfalls(v: Seq<OrderNotReserved>) -> Seq<Line> {
    v.map_values(|n: OrderNotReserved| n@)
}

/// The lines of a request set, in order.
pub open spec fn lines(requests: Seq<OrderRequest>) -> Seq<Line> {
    requests.map_values(|r: OrderRequest| r@)
}

/// The stock of the first inventory record for `product`, if there is one.
pub open spec fn stock_of(inventories: Seq<InventoryItem>, product: Seq<char>) -> Option<i32>
    decreases inventories.len(),
{
    if inventories.len() == 0 {
        None
    } else if inventories[0].product_name@ == product {
        Some(inventories[0].stock)
    } else {
        stock_of(inventories.drop_first(), product)
    }
}

/// What one warehouse alone makes of one line: an optional reservation and
/// an optional shortfall. A line of quantity zero gives neither, and no
/// reservation of quantity zero is made: a record whose stock is not
/// positive covers nothing.
pub open spec fn item_outcome(warehouse: Seq<char>, inventories: Seq<InventoryItem>, req: Line) -> (
    Option<Reservation>,
    Option<Line>,
) {
    if req.qty <= 0 {
        (None, None)
    } else {
        match stock_of(inventories, req.product) {
            None => (None, Some(req)),
            Some(available) => if available >= req.qty {
                (Some(Reservation { warehouse, product: req.product, qty: req.qty }), None)
            } else if available > 0 {
                (
                    Some(Reservation { warehouse, product: req.product, qty: available as int }),
                    Some(Line { product: req.product, qty: req.qty - available }),
                )
            } else {
                (None, Some(req))
            },
        }
    }
}

/// The reservations one warehouse makes by itself for `reqs`, in request order.
pub open spec fn local_reserved(warehouse: Seq<char>, inventories: Seq<InventoryItem>, reqs: Seq<Line>) -> Seq<Reservation>
    decreases reqs.len(),
{
    if reqs.len() == 0 {
        Seq::empty()
    } else {
        let prev = local_reserved(warehouse, inventories, reqs.drop_last());
        match item_outcome(warehouse, inventories, reqs.last()).0 {
            Some(r) => prev.push(r),
            None => prev,
        }
    }
}

/// The shortfalls one warehouse leaves by itself for `reqs`, in request order.
pub open spec fn local_shortfall(warehouse: Seq<char>, inventories: Seq<InventoryItem>, reqs: Seq<Line>) -> Seq<Line>
    decreases reqs.len(),
{
    if reqs.len() == 0 {
        Seq::empty()
    } else {
        let prev = local_shortfall(warehouse, inventories, reqs.drop_last());
        match item_outcome(warehouse, inventories, reqs.last()).1 {
            Some(l) => prev.push(l),
            None => prev,
        }
    }
}

/// An optional reservation as a mathematical value.
pub open spec fn reserved_view(r: Option<OrderReserved>) -> Option<Reservation> {
    match r {
        Some(x) => Some(x@),
        None => None,
    }
}

/// An optional shortfall as a mathematical value.
pub open spec fn not_reserved_view(r: Option<OrderNotReserved>) -> Option<Line> {
    match r {
        Some(x) => Some(x@),
        None => None,
    }
}

impl<'a> Warehouse<'a> {
    /// The ledger of a reservation of `reqs` against the chain that starts here:
    /// this warehouse's own reservations first, then whatever its fallback
    /// makes of the shortfalls, which it is handed only when there are any.
    /// Without a fallback the shortfalls are the ledger's unreserved lines.
    pub open spec fn ledger(&self, reqs: Seq<Line>) -> Ledger
        decreases self,
    {
        let own = local_reserved(self.name@, self.inventories@, reqs);
        let short = local_shortfall(self.name@, self.inventories@, reqs);
        match self.linked_warehouse {
            None => Ledger { reserved: own, not_reserved: short },
            Some(next) => if short.len() == 0 {
                Ledger { reserved: own, not_reserved: Seq::empty() }
            } else {
                let rest = next.ledger(short);
                Ledger { reserved: own + rest.reserved, not_reserved: rest.not_reserved }
            },
        }
    }

    /// Reserves `requests` against this warehouse and, for what it cannot
    /// cover, against its chain of fallbacks. No stock is changed.
    pub fn reserve(&self, requests: &Vec<OrderRequest>) -> (r: OrderResult)
        requires
            forall|i: int| 0 <= i < requests@.len() ==> requests@[i].stock >= 0,
        ensures
            r@ == self.ledger(lines(requests@)),
            forall|p: Seq<char>|
                #[trigger] total_reserved(r@.reserved, p) + total_lines(r@.not_reserved, p)
                    == total_lines(lines(requests@), p),
            forall|k: int| 0 <= k < r@.reserved.len() ==> #[trigger] r@.reserved[k].qty > 0,
            forall|k: int| 0 <= k < r@.not_reserved.len() ==> #[trigger] r@.not_reserved[k].qty > 0,
        decreases self,
    {
        let ghost name = self.name@;
        let ghost inv = self.inventories@;
        let mut reserved: Vec<OrderReserved> = Vec::new();
        let mut not_reserved: Vec<OrderNotReserved> = Vec::new();
        let mut forwarded: Vec<OrderRequest> = Vec::new();
        let mut i: usize = 0;
        while i < requests.len()
            invariant
                i <= requests@.len(),
                name == self.name@,
                inv == self.inventories@,
                reservations(reserved@) == local_reserved(
                    name,
                    inv,
                    lines(requests@.take(i as int)),
                ),
                self.linked_warehouse is None ==> forwarded@.len() == 0
                    && shortfalls(not_reserved@) == local_shortfall(
                    name,
                    inv,
                    lines(requests@.take(i as int)),
                ),
                self.linked_warehouse is Some ==> not_reserved@.len() == 0 && lines(forwarded@)
                    == local_shortfall(name, inv, lines(requests@.take(i as int))),
            decreases requests@.len() - i,
        {
            let request = &requests[i];
            let outcome = self.reserve_item(request);
            let one_reserved = outcome.0;
            let one_not_reserved = outcome.1;
            let ghost before = lines(requests@.take(i as int));
            assert(lines(requests@.take(i + 1)).drop_last() =~= before);
            assert(lines(requests@.take(i + 1)).last() == request@);
            assert(local_reserved(name, inv, lines(requests@.take(i + 1))) == match item_outcome(
                name,
                inv,
                request@,
            ).0 {
                Some(x) => local_reserved(name, inv, before).push(x),
                None => local_reserved(name, inv, before),
            });
            assert(local_shortfall(name, inv, lines(requests@.take(i + 1))) == match item_outcome(
                name,
                inv,
                request@,
            ).1 {
                Some(x) => local_shortfall(name, inv, before).push(x),
                None => local_shortfall(name, inv, before),
            });
            let ghost r0 = reserved@;
            let ghost n0 = not_reserved@;
            let ghost f0 = forwarded@;
            assert(reserved_view(one_reserved) == item_outcome(name, inv, request@).0);
            assert(not_reserved_view(one_not_reserved) == item_outcome(name, inv, request@).1);
            if let Some(x) = one_reserved {
                reserved.push(x);
                assert(reservations(reserved@) =~= reservations(r0).push(x@));
            }
            if let Some(x) = one_not_reserved {
                match self.linked_warehouse {
                    Some(_) => {
                        forwarded.push(OrderRequest { product_name: x.product_name, stock: x.stock });
                        assert(lines(forwarded@) =~= lines(f0).push(x@));
                    },
                    None => {
                        not_reserved.push(x);
                        assert(shortfalls(not_reserved@) =~= shortfalls(n0).push(x@));
                    },
                }
            }
            i += 1;
        }
        assert(requests@.take(requests@.len() as int) =~= requests@);
        let ghost all = lines(requests@);
        let ghost own = local_reserved(name, inv, all);
        let ghost short = local_shortfall(name, inv, all);
        match self.linked_warehouse {
            None => {},
            Some(next) => {
                if forwarded.len() > 0 {
                    proof {
                        lemma_shortfall_positive(name, inv, all);
                        assert forall|k: int| 0 <= k < forwarded@.len() implies forwarded@[k].stock
                            >= 0 by {
                            assert(lines(forwarded@)[k] == forwarded@[k]@);
                        }
                    }
                    let rest = next.reserve(&forwarded);
                    let ghost rest_view = rest@;
                    let OrderResult { reserved: mut more, not_reserved: mut more_not } = rest;
                    reserved.append(&mut more);
                    not_reserved.append(&mut more_not);
                    assert(reservations(reserved@) =~= own + rest_view.reserved);
                    assert(shortfalls(not_reserved@) =~= rest_view.not_reserved);
                } else {
                    assert(short.len() == 0);
                    assert(shortfalls(not_reserved@) =~= Seq::<Line>::empty());
                }
            },
        }
        let r = OrderResult { reserved, not_reserved };
        assert(r@.reserved == reservations(reserved@));
        assert(r@.not_reserved == shortfalls(not_reserved@));
        proof {
            assert forall|p: Seq<char>|
                #[trigger] total_reserved(r@.reserved, p) + total_lines(r@.not_reserved, p)
                    == total_lines(all, p) by {
                law_conservation(self, requests@, p);
            }
            law_no_zero_entries(self, all);
        }
        r
    }

    fn find_stock(&self, product_name: &String) -> (r: Option<i32>)
        ensures
            r == stock_of(self.inventories@, product_name@),
    {
        let mut i: usize = 0;
        assert(self.inventories@.skip(0) =~= self.inventories@);
        while i < self.inventories.len()
            invariant
                0 <= i <= self.inventories@.len(),
                stock_of(self.inventories@, product_name@) == stock_of(
                    self.inventories@.skip(i as int),
                    product_name@,
                ),
            decreases self.inventories@.len() - i,
        {
            let item = &self.inventories[i];
            assert(self.inventories@.skip(i as int).drop_first() =~= self.inventories@.skip(
                i as int + 1,
            ));
            if item.product_name == *product_name {
                return Some(item.stock);
            }
            i += 1;
        }
        assert(self.inventories@.skip(i as int) =~= Seq::<InventoryItem>::empty());
        None
    }

    /// Resolves one line against this warehouse's own stock, reading it only.
    pub fn reserve_item(&self, request: &OrderRequest) -> (r: (
        Option<OrderReserved>,
        Option<OrderNotReserved>,
    ))
        ensures
            reserved_view(r.0) == item_outcome(self.name@, self.inventories@, request@).0,
            not_reserved_view(r.1) == item_outcome(self.name@, self.inventories@, request@).1,
    {
        if request.stock <= 0 {
            return (None, None);
        }
        match self.find_stock(&request.product_name) {
            None => (None, Some(OrderNotReserved { product_name: request.product_name.clone(), stock: request.stock })),
            Some(available) => {
                if available >= request.stock {
                    (
                        Some(OrderReserved {
                            warehouse: self.name.clone(),
                            product_name: request.product_name.clone(),
                            stock: request.stock,
                        }),
                        None,
                    )
                } else if available > 0 {
                    (
                        Some(OrderReserved {
                            warehouse: self.name.clone(),
                            product_name: request.product_name.clone(),
                            stock: available,
                        }),
                        Some(OrderNotReserved {
                            product_name: request.product_name.clone(),
                            stock: request.stock - available,
                        }),
                    )
                } else {
                    (None, Some(OrderNotReserved { product_name: request.product_name.clone(), stock: request.stock }))
                }
            },
        }
    }
}

} // verus!

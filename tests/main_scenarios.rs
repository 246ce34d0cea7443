use stock_reserve::{InventoryItem, OrderNotReserved, OrderRequest, OrderReserved, Warehouse};

#[test]
fn main_reserve_single_success() {
    let w1 = Warehouse {
        name: String::from("倉庫1"),
        inventories: vec![
            InventoryItem { product_name: String::from("商品A"), stock: 100 },
            InventoryItem { product_name: String::from("商品B"), stock: 100 },
            InventoryItem { product_name: String::from("商品C"), stock: 100 },
        ],
        linked_warehouse: None,
    };
    let result = w1.reserve(&vec![OrderRequest { product_name: String::from("商品A"), stock: 30 }]);

    assert_eq!(result.reserved.len(), 1);
    assert_eq!(result.not_reserved.len(), 0);
    assert_eq!(result.reserved[0], OrderReserved { warehouse: String::from("倉庫1"), product_name: String::from("商品A"), stock: 30 });

    assert_eq!(w1.inventories[0], InventoryItem { product_name: String::from("商品A"), stock: 100 });
}

#[test]
fn main_reserve_success_and_failure() {
    let w1 = Warehouse {
        name: String::from("倉庫1"),
        inventories: vec![
            InventoryItem { product_name: String::from("商品A"), stock: 100 },
            InventoryItem { product_name: String::from("商品B"), stock: 100 },
            InventoryItem { product_name: String::from("商品C"), stock: 100 },
        ],
        linked_warehouse: None,
    };
    let result = w1.reserve(&vec![OrderRequest { product_name: String::from("商品A"), stock: 150 }, OrderRequest { product_name: String::from("商品X"), stock: 999 }]);

    assert_eq!(result.reserved.len(), 1);
    assert_eq!(result.not_reserved.len(), 2);
    assert_eq!(result.reserved[0], OrderReserved { warehouse: String::from("倉庫1"), product_name: String::from("商品A"), stock: 100 });
    assert_eq!(result.not_reserved[0], OrderNotReserved { product_name: String::from("商品A"), stock: 50 });
    assert_eq!(result.not_reserved[1], OrderNotReserved { product_name: String::from("商品X"), stock: 999 });
}

#[test]
fn main_reserve_three_linked_warehouses() {
    let w1 = Warehouse {
        name: String::from("倉庫1"),
        inventories: vec![
            InventoryItem { product_name: String::from("商品A"), stock: 100 },
            InventoryItem { product_name: String::from("商品B"), stock: 100 },
            InventoryItem { product_name: String::from("商品C"), stock: 100 },
        ],
        linked_warehouse: None,
    };
    let w2 = Warehouse {
        name: String::from("倉庫2"),
        inventories: vec![
            InventoryItem { product_name: String::from("商品A"), stock: 100 },
            InventoryItem { product_name: String::from("商品B"), stock: 20 },
            InventoryItem { product_name: String::from("商品C"), stock: 20 },
        ],
        linked_warehouse: Some(&w1),
    };
    let w3 = Warehouse {
        name: String::from("倉庫3"),
        inventories: vec![
            InventoryItem { product_name: String::from("商品A"), stock: 200 },
            InventoryItem { product_name: String::from("商品B"), stock: 80 },
            InventoryItem { product_name: String::from("商品C"), stock: 60 },
        ],
        linked_warehouse: Some(&w2),
    };

    let result = w3.reserve(&vec![OrderRequest { product_name: String::from("商品A"), stock: 50 }, OrderRequest { product_name: String::from("商品B"), stock: 100 }, OrderRequest { product_name: String::from("商品C"), stock: 100 }]);

    assert_eq!(result.reserved.len(), 6);
    assert_eq!(result.not_reserved.len(), 0);
    assert_eq!(result.reserved[0], OrderReserved { warehouse: String::from("倉庫3"), product_name: String::from("商品A"), stock: 50 });
    assert_eq!(result.reserved[1], OrderReserved { warehouse: String::from("倉庫3"), product_name: String::from("商品B"), stock: 80 });
    assert_eq!(result.reserved[2], OrderReserved { warehouse: String::from("倉庫3"), product_name: String::from("商品C"), stock: 60 });
    assert_eq!(result.reserved[3], OrderReserved { warehouse: String::from("倉庫2"), product_name: String::from("商品B"), stock: 20 });
    assert_eq!(result.reserved[4], OrderReserved { warehouse: String::from("倉庫2"), product_name: String::from("商品C"), stock: 20 });
    assert_eq!(result.reserved[5], OrderReserved { warehouse: String::from("倉庫1"), product_name: String::from("商品C"), stock: 20 });
}

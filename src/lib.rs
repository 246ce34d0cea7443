//! Chained stock reservation: requested quantities of products are drawn
//! from a warehouse's stock, and whatever it cannot cover overflows to its
//! linked fallback warehouse, down the chain.

pub mod laws;
pub mod warehouse;

pub use warehouse::{InventoryItem, OrderNotReserved, OrderRequest, OrderReserved, OrderResult, Warehouse};

pub mod block;
pub mod chain;
pub mod ledger;
pub mod node;
pub mod pow;
pub mod u256;

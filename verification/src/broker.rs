//! Brokers: what they do with an order, and how their answers are read.

pub mod ibkr;
pub mod multi;
pub mod paper;
pub mod revolutx;

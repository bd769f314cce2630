//! Trading console and lottery analysis, with the logic proved in Verus.

pub mod app;
pub mod backtest;
pub mod belop;
pub mod broker;
pub mod calendar;
pub mod config;
pub mod dato;
pub mod engine;
pub mod gui;
pub mod import;
pub mod json;
pub mod market;
pub mod marketdata;
pub mod morgan;
pub mod nordnet;
pub mod notify;
pub mod number_text;
pub mod order;
pub mod pnl;
pub mod risk;
pub mod state;
pub mod store;
pub mod strategy;
pub mod tabell;
pub mod text;
pub mod tipping;
pub mod types;

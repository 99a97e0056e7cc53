pub mod candle;
pub mod config;
pub mod result;
pub mod strategy;
pub mod trade;

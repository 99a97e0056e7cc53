pub mod averages;
pub mod channels;
pub mod executor;
pub mod indicators;
pub mod metrics;
pub mod numeric;
pub mod optimizer;
pub mod orders;
pub mod oscillators;
pub mod position;
pub mod series;
pub mod strategy;

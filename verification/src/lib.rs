//! Rule-driven CPU and power management: the decision logic of the daemon.
pub mod cpu;
pub mod text;
pub mod expression;
pub mod power_supply;
pub mod config;
pub mod system;
pub mod cpu_info;

//! Micropayment settlement core: a batch state-delta engine over a fixed
//! binary wire format, the credit and voucher logic of a payment gateway,
//! and the codec of the startup message its front-end reads.

pub mod crypto;
pub mod wire;
pub mod bsde;
pub mod voucher;
pub mod oracle;
pub mod balance;
pub mod auth;
pub mod engine;
pub mod settle;
pub mod startup;

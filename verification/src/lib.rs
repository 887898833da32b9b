//! Single-use access codes ("vouchers") scoped to named WiFi network
//! profiles: a voucher lifecycle and redemption-state model, bulk import of
//! codes from delimited text, in-memory stores with cascade delete, and a
//! renderer that turns network credentials into a scannable provisioning
//! image.

pub mod config;
pub mod import;
pub mod network_store;
pub mod qr_generator;
mod sys;
pub mod templates;
pub mod text;
pub mod voucher;
pub mod voucher_store;
pub mod wifi_network;

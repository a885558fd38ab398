//! Reconciliation and reporting for a dataset of geotagged places.
//!
//! A freshly fetched dataset is compared with the stored snapshot, every
//! effective change becomes one audit event, and per-region statistics are
//! computed over the resulting snapshot.

pub mod actor;
pub mod auth;
pub mod category;
pub mod cycle_laws;
pub mod dates;
pub mod decimal;
pub mod element;
pub mod event;
pub mod json;
pub mod keys;
pub mod notify;
pub mod reconcile;
pub mod region;
pub mod report;
pub mod report_laws;
pub mod sanity;
pub mod secondary;
pub mod tag_edit;
pub mod text;
pub mod verification;

//! Credential pool manager: a verified core for keeping a pool of
//! OAuth-style credentials healthy and load-balanced.
//!
//! The pool owns a set of credential records, selects the best enabled
//! record by priority, tracks per-credential failures, disables records
//! that fail repeatedly, coordinates token refresh so that at most one
//! refresh per credential is in flight, and reconciles bulk imports
//! without duplicating records or destroying health state.

pub mod admin;
pub mod decimal;
pub mod pool;
pub mod reconciler;
pub mod record;
pub mod refresh;
pub mod selector;
pub mod tracker;

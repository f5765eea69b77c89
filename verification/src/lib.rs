//! Owned, heap-resident cells whose cleanup hook runs exactly once.
//!
//! An [`OwnedCell`](cell::OwnedCell) owns one payload on the heap from its
//! construction to its release. The payload's type says, through
//! [`CleanupHook`](hook::CleanupHook), what is to happen on release. Release
//! takes the cell by value, so that it happens once and cannot happen again.
//!
//! A [`Scope`](scope::Scope) holds the cells constructed between its entry and
//! its end. A cell in it is released on request, or else by the end of the
//! scope, which releases what is still live in reverse order of construction.
//! [`model`] describes a scope as a sequence of events acting on an abstract
//! state, and [`laws`] proves what holds of every such sequence: each hook runs
//! exactly once, release on request forestalls release by the end of the scope,
//! and a released cell stays released.
//!
//! Nothing in the library prints. A hook reports by appending its line to a
//! `Vec<String>` that the caller hands in, and the caller does with the lines
//! what it likes. [`entry::run`] is the whole run of the smallest program: one
//! cell around the minimal payload [`S`](hook::S), released on request.

pub mod cell;
pub mod entry;
pub mod error;
pub mod hook;
pub mod laws;
pub mod model;
pub mod scope;

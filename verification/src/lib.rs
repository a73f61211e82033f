//! Core engine for decomposing one large feature branch into several small,
//! independently reviewable "chunk" branches, each owning a disjoint subset of
//! the changed files.
//!
//! The library is the decision layer: it validates chunk plans, derives branch
//! names and commit messages, computes the exact sequence of repository
//! actions a caller must perform (and the rollback sequence when one fails),
//! mutates chunk membership, and audits declared state for consistency.
//! Everything here is pure with respect to the repository: an action is a
//! value describing a git operation, and the surrounding binary carries it
//! out. That split is what lets the transactional core be verified.

pub mod action;

pub mod doctor;

pub mod error;

pub mod group;

pub mod laws;

pub mod model;

pub mod mutate;

pub mod names;

pub mod plan;

pub mod remote;

pub mod state;

pub mod sync;

pub mod text;

//! Audits a student's transcript against a declarative degree-requirement
//! rule language: a small assertion grammar for quotas ("count >= 6"), a
//! closed set of requirement-rule combinators, and the claim/reservation
//! bookkeeping that keeps one course from satisfying mutually exclusive
//! requirements.

pub mod action;
pub mod claim;
pub mod eval;
pub mod filter;
pub mod laws;
pub mod report;
pub mod rule_result;
pub mod rules;
pub mod student;
pub mod text;

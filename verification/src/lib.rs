//! Permission resolution for dotted permission names, together with a small
//! RGB colour codec.
//!
//! A permission pattern is a dot-delimited string whose final segment may be
//! the wildcard `*`. Given a set of (pattern, allowed) rules and a concrete
//! query, [`permission::has_permission`] decides whether the query is allowed,
//! denied, or undetermined, picking the most specific matching rule.

pub mod color;
pub mod permission;

//! The paged-document root: page geometry, the placement of children, lines and table rows on
//! pages, and the page sequence that results.
//!
//! Simple normal-flow blocks continue at child boundaries, retained paragraph lines at line
//! boundaries, retained table rows at row boundaries. Content that cannot be divided may overflow
//! its page; nothing is clipped or dropped.
pub mod flow;
pub mod flow_laws;
pub mod fragment_laws;
pub mod geometry;
pub mod inline_flow;
pub mod inline_laws;
pub mod laws;
pub mod record_laws;
pub mod sequence;
pub mod table_flow;
pub mod table_laws;
pub mod table_place;
pub mod table_record_laws;
pub mod table_rule_laws;
pub mod table_rules;

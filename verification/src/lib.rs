//! A personal contact-book library: a property-list codec for contact
//! records, an email sender-header extractor, a tab-separated index built
//! from a contact directory, query-result parsing with three output
//! projections, collision-free identifier generation, and the decision
//! logic of the edit workflow.

pub mod codec;
pub mod config;
pub mod edit;
pub mod ident;
pub mod header;
pub mod index;
pub mod query;
pub mod record;
pub mod strutil;

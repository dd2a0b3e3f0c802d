//! Verified core of a subdomain discovery engine: template loading and
//! placeholder substitution, the matcher/extractor pipeline over HTTP
//! responses, the retry policy, zone-transfer bookkeeping and result
//! aggregation.

pub mod document;
pub mod manager;
pub mod parse;
pub mod requests;
pub mod results;
pub mod retry;
pub mod secrets;
pub mod subst;
pub mod template;
pub mod text;
pub mod zone;

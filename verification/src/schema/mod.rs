//! The schema pipeline's data: a JSON value as the library holds it, its
//! mathematical model, and the lookups every schema rule is written with.
//!
//! One output schema per mode feeds both the tool surface and the provider.
//! Between the two sits the sanitizer (the provider accepts only a grammar
//! subset), and at registration the flat + closed check.
pub mod json;
pub mod sanitize;
pub mod flat;
pub mod validate;

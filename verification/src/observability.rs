//! What telemetry says of a model call: the provider a model id belongs to.
use vstd::prelude::*;
use crate::research::has_prefix;
use crate::text::{chars_eq, chars_of, sub_chars};

verus! {

/// The provider a model id belongs to: Voyage AI for `voyage` models,
/// Anthropic for every other.
pub open spec fn spec_provider_of(model: Seq<char>) -> Seq<char> {
    if has_prefix(model, "voyage"@) {
        "voyageai"@
    } else {
        "anthropic"@
    }
}

/// The provider name telemetry reports for a model id.
pub fn provider_of(model: &str) -> (r: &'static str)
    ensures
        r@ == spec_provider_of(model@),
{
    let v = chars_of(model);
    let p = chars_of("voyage");
    if p.len() <= v.len() {
        let head = sub_chars(v.as_slice(), 0, p.len());
        if chars_eq(head.as_slice(), p.as_slice()) {
            return "voyageai";
        }
    }
    "anthropic"
}

} // verus!

//! The external text transform applied to JSON response bodies before they
//! are stored: the body is parsed and re-rendered for display. The
//! transform is a black box to the core; only that it is a function of the
//! text alone is relied on.

use vstd::prelude::*;

verus! {

/// What the external transform returns for a body text; a function of the
/// text alone.
pub uninterp spec fn render_of(s: Seq<char>) -> Seq<char>;

/// Relies on `serde_json::from_str` and `serde_json::to_string_pretty`:
/// parsing and pretty-printing depend on the input text alone (object keys
/// are held in an ordered map). A text they cannot handle is returned
/// unchanged.
#[verifier::external_body]
pub(crate) fn render_json(s: &String) -> (r: String)
    ensures
        r@ == render_of(s@),
{
    match serde_json::from_str::<serde_json::Value>(s) {
        Ok(v) => match serde_json::to_string_pretty(&v) {
            Ok(t) => t,
            Err(_) => s.clone(),
        },
        Err(_) => s.clone(),
    }
}

} // verus!

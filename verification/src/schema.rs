//! Namespace schema URIs declared on root-of-fragment elements.

use vstd::prelude::*;

verus! {

/// The main wordprocessing schema URI, bound to the `w` prefix.
pub open spec fn spec_schema_main() -> Seq<char> {
    "http://schemas.openxmlformats.org/wordprocessingml/2006/main"@
}

/// The relationships schema URI, bound to the `r` prefix.
pub open spec fn spec_schema_relationships() -> Seq<char> {
    "http://schemas.openxmlformats.org/officeDocument/2006/relationships"@
}

/// The main wordprocessing schema URI, bound to the `w` prefix.
pub fn schema_main() -> (r: &'static str)
    ensures
        r@ == spec_schema_main(),
{
    "http://schemas.openxmlformats.org/wordprocessingml/2006/main"
}

/// The relationships schema URI, bound to the `r` prefix.
pub fn schema_relationships() -> (r: &'static str)
    ensures
        r@ == spec_schema_relationships(),
{
    "http://schemas.openxmlformats.org/officeDocument/2006/relationships"
}

} // verus!

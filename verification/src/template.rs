//! Template resolution from a page's properties.

use vstd::prelude::*;

use crate::doc::{lookup, spec_lookup};
use crate::tera::{spec_get_template, tera_templates};

verus! {

/// Resolve the template for a page from its property map: the `template`
/// property, the template named after the page's path, or the kind's
/// default.
pub fn get_template(
    tera: &tera::Tera,
    properties: &Vec<(String, String)>,
    path: &str,
    index: bool,
) -> (r: String)
    ensures
        r@ == spec_get_template(
            tera_templates(*tera),
            spec_lookup(properties@, "template"@),
            path@,
            index,
        ),
{
    crate::tera::get_template(tera, lookup(properties, "template"), path, index)
}

} // verus!

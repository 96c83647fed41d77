//! The search query of the colour-substitution routes.

use vstd::prelude::*;

use crate::color_subs::{spec_color_subs, ColorSubs};
use crate::query_params::{color_subs_of, opt_view};

verus! {

/// An optional string of colour substitutions given as `search`.
pub struct SearchQuery {
    pub search: Option<String>,
}

impl SearchQuery {
    /// The colour substitutions that the search string asks for.
    pub fn get_color_subs(self) -> (subs: ColorSubs)
        ensures
            subs@ == spec_color_subs(opt_view(self.search)),
    {
        color_subs_of(self.search)
    }
}

} // verus!

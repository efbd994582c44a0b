//! The two pages the service serves around the core: the landing page,
//! which picks the opaque token out of its query string and calls the
//! now-playing route, and the compose page. Rendering is the outer layer's
//! work; the core pins down only which page lives where, so the landing
//! redirect built after a callback and the landing page's path agree.

use vstd::prelude::*;

verus! {

/// The landing page: reads `token` from its query string and queries the
/// now-playing route.
pub struct IndexTemplate;

impl IndexTemplate {
    /// The path the landing page is served under; the callback's redirect
    /// (`/?token=...`) leads here.
    pub fn path(&self) -> (r: &'static str)
        ensures
            r@ == "/"@,
    {
        "/"
    }
}

/// The compose page.
pub struct ComposeTemplate;

impl ComposeTemplate {
    /// The path the compose page is served under.
    pub fn path(&self) -> (r: &'static str)
        ensures
            r@ == "/compose"@,
    {
        "/compose"
    }
}

} // verus!

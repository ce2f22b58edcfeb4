//! The data of a page, as the templating side fills it into its layout.

use vstd::prelude::*;

verus! {

/// What a page is made of: the two texts that go into the layout.
#[derive(Clone, Copy, Debug)]
pub struct PageLayout {
    pub title: &'static str,
    pub body: &'static str,
}

} // verus!

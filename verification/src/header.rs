//! A plain header pair, as the line-splicing header model stores it.

use vstd::prelude::*;
use crate::http::headers::HeaderView;

verus! {

/// One HTTP header: a name and a value.
#[derive(Debug)]
pub struct Header {
    pub name: String,
    pub value: String,
}

impl View for Header {
    type V = HeaderView;

    open spec fn view(&self) -> HeaderView {
        HeaderView { name: self.name@, value: self.value@ }
    }
}

} // verus!

//! A standalone header pair and a line-by-line parser over a raw block,
//! with the same splitting rules as the full header model.

use vstd::prelude::*;
use super::headers::{self, HeaderView};

verus! {

/// One HTTP header: a name and a value.
pub struct Header {
    pub name: String,
    pub value: String,
}

impl View for Header {
    type V = HeaderView;

    open spec fn view(&self) -> HeaderView {
        HeaderView { name: self.name@, value: self.value@ }
    }
}

/// The views of a header list.
pub open spec fn views_of(list: Seq<Header>) -> Seq<HeaderView> {
    list.map_values(|h: Header| h@)
}

impl Header {
    /// Parses a raw block into its header pairs.
    pub fn parse(heads: String) -> (r: Vec<Header>)
        ensures
            views_of(r@) == headers::parse_list(heads@),
    {
        let parsed = headers::Headers::from_string(heads);
        let mut out: Vec<Header> = Vec::new();
        let mut i: usize = 0;
        while i < parsed.list.len()
            invariant
                i <= parsed.list@.len(),
                views_of(out@) =~= headers::views_of(parsed.list@).take(i as int),
            decreases parsed.list@.len() - i,
        {
            let h = &parsed.list[i];
            out.push(Header { name: h.name.clone(), value: h.value.clone() });
            i = i + 1;
            proof {
                let vs = headers::views_of(parsed.list@);
                assert(vs.take(i as int) =~= vs.take(i as int - 1).push(vs[i as int - 1]));
                assert(views_of(out@) =~= vs.take(i as int));
            }
        }
        proof {
            let vs = headers::views_of(parsed.list@);
            assert(vs.take(vs.len() as int) =~= vs);
        }
        out
    }
}

} // verus!

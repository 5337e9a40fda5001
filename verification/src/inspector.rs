//! A report of the annotations a pass attached: variable references in
//! traversal order, each with its resolution if one was recorded.

use vstd::prelude::*;

use crate::debrujin::DeBrujinIdx;

verus! {

/// Collects, reference by reference, what an annotating pass recorded.
pub struct Inspector {
    entries: Vec<(String, Option<DeBrujinIdx>)>,
}

/// The views of the collected entries.
pub open spec fn entry_views(s: Seq<(String, Option<DeBrujinIdx>)>) -> Seq<
    (Seq<char>, Option<DeBrujinIdx>),
> {
    s.map_values(|p: (String, Option<DeBrujinIdx>)| (p.0@, p.1))
}

impl Inspector {
    /// The collected entries, oldest first.
    pub closed spec fn report(&self) -> Seq<(Seq<char>, Option<DeBrujinIdx>)> {
        entry_views(self.entries@)
    }

    /// An empty report.
    pub fn new() -> (r: Self)
        ensures
            r.report() == Seq::<(Seq<char>, Option<DeBrujinIdx>)>::empty(),
    {
        let r = Inspector { entries: Vec::new() };
        proof {
            assert(r.report() =~= Seq::<(Seq<char>, Option<DeBrujinIdx>)>::empty());
        }
        r
    }

    /// Records what one reference resolved to.
    pub fn note(&mut self, id: &String, ix: Option<DeBrujinIdx>)
        ensures
            final(self).report() == old(self).report().push((id@, ix)),
    {
        self.entries.push((id.clone(), ix));
        proof {
            assert(self.report() =~= old(self).report().push((id@, ix)));
        }
    }

    /// Hands the collected entries out.
    pub fn entries(self) -> (r: Vec<(String, Option<DeBrujinIdx>)>)
        ensures
            entry_views(r@) == self.report(),
    {
        self.entries
    }
}

} // verus!

//! A secret code: an ordered sequence of distinct keyword indices.

use vstd::prelude::*;

verus! {

/// One team's secret code for one round: `clue_count` distinct keyword
/// indices, zero-based, each below `keyword_count`. An index refers to a
/// position in the owning team's own keyword list.
#[derive(Debug, Clone)]
pub struct Code(pub Vec<usize>);

impl View for Code {
    type V = Seq<usize>;

    open spec fn view(&self) -> Seq<usize> {
        self.0@
    }
}

/// A well-formed code for the given settings bounds: the right number of
/// indices, all distinct, all in range.
pub open spec fn code_wf(c: Seq<usize>, clue_count: usize, keyword_count: usize) -> bool {
    &&& c.len() == clue_count
    &&& forall|i: int| 0 <= i < c.len() ==> c[i] < keyword_count
    &&& forall|i: int, j: int| 0 <= i < j < c.len() ==> c[i] != c[j]
}

impl Code {
    pub fn len(&self) -> (n: usize)
        ensures
            n == self@.len(),
    {
        self.0.len()
    }
}

impl PartialEq for Code {
    fn eq(&self, other: &Code) -> (r: bool) {
        if self.0.len() != other.0.len() {
            return false;
        }
        let n = self.0.len();
        let mut i: usize = 0;
        while i < n
            invariant
                n == self@.len(),
                n == other@.len(),
                i <= n,
                forall|k: int| 0 <= k < i ==> self@[k] == other@[k],
            decreases n - i,
        {
            if self.0[i] != other.0[i] {
                return false;
            }
            i += 1;
        }
        proof {
            assert(self@ =~= other@);
        }
        true
    }
}

impl vstd::std_specs::cmp::PartialEqSpecImpl for Code {
    open spec fn obeys_eq_spec() -> bool {
        true
    }

    open spec fn eq_spec(&self, other: &Code) -> bool {
        self@ == other@
    }
}

impl Eq for Code {

}

} // verus!

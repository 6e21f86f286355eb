//! Loading the variants of a diff, with a record of what was loaded.

use vstd::prelude::*;
use crate::error::TuicrError;
use crate::model::DiffFile;
use crate::whitespace::WhitespaceComparison;

verus! {

/// One load of a variant: which was asked for, and what came back.
pub struct Load {
    pub comparison: WhitespaceComparison,
    pub result: Result<Vec<DiffFile>, TuicrError>,
}

/// Loads the variants of a diff. The loads are on record, in order, for contracts to speak of.
pub struct DiffLoader<F> {
    function: F,
    loads: Ghost<Seq<Load>>,
}

impl<F: Fn(WhitespaceComparison) -> Result<Vec<DiffFile>, TuicrError>> DiffLoader<F> {
    /// The function that loads a variant.
    pub closed spec fn function(self) -> F {
        self.function
    }

    /// What was loaded so far.
    pub closed spec fn loads(self) -> Seq<Load> {
        self.loads@
    }

    /// Whether every variant can be asked for.
    pub open spec fn takes_any_comparison(self) -> bool {
        forall|comparison: WhitespaceComparison| #[trigger]
            self.function().requires((comparison,))
    }

    /// Whether a load is one that the function can give.
    pub open spec fn can_give(self, load: Load) -> bool {
        self.function().ensures((load.comparison,), load.result)
    }

    /// A loader that has loaded nothing yet.
    pub fn new(function: F) -> (res: Self)
        ensures
            res.function() == function,
            res.loads() == Seq::<Load>::empty(),
    {
        DiffLoader { function, loads: Ghost(Seq::empty()) }
    }

    /// Loads a variant.
    pub fn load(&mut self, comparison: WhitespaceComparison) -> (res: Result<
        Vec<DiffFile>,
        TuicrError,
    >)
        requires
            old(self).takes_any_comparison(),
        ensures
            ({
                let load = Load { comparison, result: res };
                &&& old(self).can_give(load)
                &&& final(self).loads() == old(self).loads().push(load)
            }),
            final(self).function() == old(self).function(),
    {
        assert(self.function().requires((comparison,)));
        let result = (self.function)(comparison);
        self.loads = Ghost(self.loads@.push(Load { comparison, result }));
        result
    }
}

} // verus!

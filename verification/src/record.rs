//! Records of calls: what was added to a record since an earlier moment.

use vstd::prelude::*;

verus! {

/// What a record holds beyond what it held before.
pub open spec fn since<T>(before: Seq<T>, after: Seq<T>) -> Seq<T> {
    after.skip(before.len() as int)
}

/// Whether a record still holds what it held before, in front of what was added.
pub open spec fn extends<T>(before: Seq<T>, after: Seq<T>) -> bool {
    after == before + since(before, after)
}

pub proof fn lemma_extends<T>(before: Seq<T>, after: Seq<T>, added: Seq<T>)
    requires
        after =~= before + added,
    ensures
        extends(before, after),
        since(before, after) == added,
{
    assert(since(before, after) =~= added);
}

} // verus!

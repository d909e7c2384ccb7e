//! Resolving `.` and `..` in a path without looking at the file system.
use vstd::prelude::*;

use crate::keys::int_of;

verus! {

/// The kind of one component of a path.
#[derive(Debug, Clone, Copy, PartialEq, Eq, Structural)]
pub enum PartKind {
    /// The root, or a prefix that stands for one.
    Root,
    /// `.`
    Current,
    /// `..`
    Parent,
    /// A name.
    Name,
}

/// The positions of the components that a path keeps once `.` and `..` are
/// resolved, in order: a `.` is dropped, and a `..` drops the name before it;
/// `None` where a `..` has no name before it to drop (it would climb above
/// the root, or above the start of a relative path).
pub open spec fn normalized(kinds: Seq<PartKind>) -> Option<Seq<usize>>
    decreases kinds.len(),
{
    if kinds.len() == 0 {
        Some(Seq::empty())
    } else {
        let last = (kinds.len() - 1) as usize;
        match normalized(kinds.drop_last()) {
            None => None,
            Some(kept) => match kinds.last() {
                PartKind::Current => Some(kept),
                PartKind::Parent => if kept.len() > 0 && kinds[int_of(kept.last())] == PartKind::Name {
                    Some(kept.drop_last())
                } else {
                    None
                },
                _ => Some(kept.push(last)),
            },
        }
    }
}

/// Resolves `.` and `..` among the components of a path, given their kinds:
/// the positions of the components kept, or `None` where a `..` would climb
/// above the root.
pub fn normalize_lexically(kinds: &Vec<PartKind>) -> (r: Option<Vec<usize>>)
    ensures
        match r {
            Some(kept) => normalized(kinds@) == Some(kept@),
            None => normalized(kinds@) is None,
        },
{
    let mut kept: Vec<usize> = Vec::new();
    let mut i: usize = 0;
    assert(kinds@.take(0) =~= Seq::<PartKind>::empty());
    while i < kinds.len()
        invariant
            i <= kinds@.len(),
            normalized(kinds@.take(int_of(i))) == Some(kept@),
            forall|k: int| 0 <= k < kept@.len() ==> #[trigger] int_of(kept@[k]) < i,
        decreases kinds.len() - i,
    {
        let ghost before = kinds@.take(int_of(i));
        let ghost upto = kinds@.take(int_of(i) + 1);
        assert(upto.drop_last() =~= before);
        assert(upto.last() == kinds@[int_of(i)]);
        match kinds[i] {
            PartKind::Current => {},
            PartKind::Parent => {
                let n = kept.len();
                if n > 0 && kinds[kept[n - 1]] == PartKind::Name {
                    assert(int_of(kept@[n - 1]) < i);
                    assert(upto[int_of(kept@.last())] == kinds@[int_of(kept@.last())]);
                    kept.pop();
                } else {
                    if n > 0 {
                        assert(int_of(kept@[n - 1]) < i);
                        assert(upto[int_of(kept@.last())] == kinds@[int_of(kept@.last())]);
                    }
                    assert(kinds@.take(int_of(i) + 1) == upto);
                    proof {
                        lemma_none_stays(kinds@, int_of(i) + 1);
                    }
                    assert(kinds@.take(kinds@.len() as int) =~= kinds@);
                    return None;
                }
            },
            _ => {
                kept.push(i);
            },
        }
        i = i + 1;
    }
    assert(kinds@.take(kinds@.len() as int) =~= kinds@);
    Some(kept)
}

/// Once a `..` has climbed above the root, no later component mends it.
proof fn lemma_none_stays(kinds: Seq<PartKind>, n: int)
    requires
        0 <= n <= kinds.len(),
        normalized(kinds.take(n)) is None,
    ensures
        normalized(kinds) is None,
    decreases kinds.len() - n,
{
    if n < kinds.len() {
        assert(kinds.take(n + 1).drop_last() =~= kinds.take(n));
        lemma_none_stays(kinds, n + 1);
    } else {
        assert(kinds.take(n) =~= kinds);
    }
}

} // verus!

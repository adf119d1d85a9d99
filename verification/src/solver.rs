//! Shape checks and column substitution for the direct solvers. Nothing here
//! computes with the entries, so the element type is left open.

use vstd::prelude::*;

verus! {

/// Whether the rows form a square matrix: each row has as many entries as
/// there are rows.
pub open spec fn is_square_spec<T>(a: Seq<Vec<T>>) -> bool {
    forall|i: int| 0 <= i < a.len() ==> (#[trigger] a[i]).len() == a.len()
}

/// The rows of `a` after column `col` has been overwritten with `b`, row by
/// row as far as `b` reaches.
pub open spec fn column_replaced<T>(a: Seq<Vec<T>>, b: Seq<T>, col: int, after: Seq<Vec<T>>) -> bool {
    &&& after.len() == a.len()
    &&& forall|i: int|
        0 <= i < a.len() ==> (#[trigger] after[i])@ == if i < b.len() {
            a[i]@.update(col, b[i])
        } else {
            a[i]@
        }
}

/// Tells whether `a` is a square matrix.
pub fn is_square<T>(a: &[Vec<T>]) -> (square: bool)
    ensures
        square == is_square_spec(a@),
{
    let n = a.len();
    let mut i: usize = 0;
    while i < n
        invariant
            i <= n,
            n == a.len(),
            forall|k: int| 0 <= k < i ==> (#[trigger] a[k]).len() == n,
        decreases n - i,
    {
        if a[i].len() != n {
            return false;
        }
        i += 1;
    }
    true
}

/// Tells whether `a` and `b` have the shape of a system with one solution
/// vector: `a` is square and `b` has one entry per row.
pub fn is_square_system<T>(a: &[Vec<T>], b: &[T]) -> (fits: bool)
    ensures
        fits == (a.len() == b.len() && is_square_spec(a@)),
{
    a.len() == b.len() && is_square(a)
}

/// Overwrites column `a_n` of `a` with the entries of `b`. Does nothing and
/// returns `None` where `a` has no rows or no row `a_n`.
pub fn replace_column<T: Copy>(a: &mut [Vec<T>], b: &[T], a_n: usize) -> (done: Option<()>)
    requires
        a_n < old(a).len() ==> b.len() <= old(a).len(),
        a_n < old(a).len() ==> forall|i: int| 0 <= i < b.len() ==> a_n < (#[trigger] old(a)[i]).len(),
    ensures
        done.is_some() <==> a_n < old(a).len(),
        done.is_none() ==> final(a)@ == old(a)@,
        done.is_some() ==> column_replaced(old(a)@, b@, a_n as int, final(a)@),
{
    if a.is_empty() {
        return None;
    }
    if a_n >= a.len() {
        return None;
    }
    let n = b.len();
    let mut i: usize = 0;
    while i < n
        invariant
            i <= n,
            n == b.len(),
            n <= a.len(),
            a.len() == old(a).len(),
            forall|k: int| 0 <= k < i ==> (#[trigger] a[k])@ == old(a)[k]@.update(a_n as int, b[k]),
            forall|k: int| i <= k < a.len() ==> (#[trigger] a[k]) == old(a)[k],
            forall|k: int| 0 <= k < n ==> a_n < (#[trigger] old(a)[k]).len(),
        decreases n - i,
    {
        a[i][a_n] = b[i];
        i += 1;
    }
    Some(())
}

} // verus!

//! The three linked quantities of a gear pair, and the "third of three" rule.

use vstd::prelude::*;

verus! {

/// One of the three linked quantities: the teeth of the left gear (the
/// motor), the ratio, or the teeth of the right gear (the wheel).
#[derive(Clone, Copy, Debug, PartialEq, Eq, Structural)]
pub enum Column {
    Left,
    Ratio,
    Right,
}

impl Column {
    /// The column that is neither `c1` nor `c2`, for two different columns.
    pub open spec fn missing(c1: Column, c2: Column) -> Column {
        match (c1, c2) {
            (Column::Left, Column::Ratio) | (Column::Ratio, Column::Left) => Column::Right,
            (Column::Left, Column::Right) | (Column::Right, Column::Left) => Column::Ratio,
            _ => Column::Left,
        }
    }

    /// Gets the missing third column for two columns, which may not be equal.
    pub fn get_missing(c1: Column, c2: Column) -> (c: Column)
        requires
            c1 != c2,
        ensures
            c == Column::missing(c1, c2),
            c != c1,
            c != c2,
    {
        match c1 {
            Column::Left => match c2 {
                Column::Ratio => Column::Right,
                _ => Column::Ratio,
            },
            Column::Ratio => match c2 {
                Column::Left => Column::Right,
                _ => Column::Left,
            },
            Column::Right => match c2 {
                Column::Left => Column::Ratio,
                _ => Column::Left,
            },
        }
    }
}

/// Order independence: the missing column of a pair does not depend on
/// which of the two columns is named first.
pub proof fn lemma_missing_symmetric(a: Column, b: Column)
    requires
        a != b,
    ensures
        Column::missing(a, b) == Column::missing(b, a),
{
}

/// Two different columns and their missing column are the three columns:
/// every column is one of them.
pub proof fn lemma_missing_completes(a: Column, b: Column, c: Column)
    requires
        a != b,
    ensures
        Column::missing(a, b) != a,
        Column::missing(a, b) != b,
        c == a || c == b || c == Column::missing(a, b),
{
}

/// Taking the missing column is one-to-one on unordered pairs: two pairs of
/// different columns have the same missing column exactly when they are the
/// same pair, in either order.
pub proof fn lemma_missing_injective(a: Column, b: Column, c: Column, d: Column)
    requires
        a != b,
        c != d,
    ensures
        Column::missing(a, b) == Column::missing(c, d) <==> (a == c && b == d) || (a == d && b
            == c),
{
}

/// Taking the missing column reaches every column: each column is the missing
/// one of the pair formed by the two others.
pub proof fn lemma_missing_surjective(c: Column)
    ensures
        exists|a: Column, b: Column| a != b && a != c && b != c && Column::missing(a, b) == c,
{
    match c {
        Column::Left => {
            assert(Column::missing(Column::Ratio, Column::Right) == Column::Left);
        },
        Column::Ratio => {
            assert(Column::missing(Column::Left, Column::Right) == Column::Ratio);
        },
        Column::Right => {
            assert(Column::missing(Column::Left, Column::Ratio) == Column::Right);
        },
    }
}

/// The missing column of a column and the missing column of a pair is the
/// other column of that pair.
pub proof fn lemma_missing_involutive(a: Column, b: Column)
    requires
        a != b,
    ensures
        Column::missing(a, Column::missing(a, b)) == b,
        Column::missing(Column::missing(a, b), b) == a,
{
}

} // verus!

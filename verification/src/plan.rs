//! What the tables answer when the engine asks how it may scan them. Both
//! take the robots.txt text through a hidden column, and can be scanned
//! only where the query binds that column to a value by equality.

use vstd::prelude::*;

verus! {

/// The operator of a constraint that the engine proposes.
#[derive(Debug, Clone, Copy, PartialEq, Eq)]
pub enum ConstraintOperator {
    EQ,
    GT,
    LE,
    LT,
    GE,
    MATCH,
    LIKE,
    GLOB,
    REGEXP,
    NE,
    ISNOT,
    ISNOTNULL,
    ISNULL,
    IS,
    LIMIT,
    OFFSET,
    FUNCTION(u8),
}

/// A constraint that the engine proposes to hand to the table.
#[derive(Debug, Clone, Copy, PartialEq, Eq)]
pub struct Constraint {
    /// The number of the column that the constraint is on.
    pub column: i32,
    /// Whether the engine can hand the table the value of the constraint.
    pub usable: bool,
    /// The operator, where the engine names one that is known.
    pub op: Option<ConstraintOperator>,
}

/// What the table asks of the engine for one constraint.
#[derive(Debug, Clone, Copy, PartialEq, Eq, Structural)]
pub struct ConstraintUsage {
    /// The place, counted from one, at which the cursor gets the value of the
    /// constraint; zero where it does not get it.
    pub argv_index: i32,
    /// Whether the engine may leave out its own test of the constraint.
    pub omit: bool,
}

/// How the table is scanned.
#[derive(Debug, Clone, PartialEq, Eq)]
pub struct IndexPlan {
    /// One entry for each constraint, in the order of the constraints.
    pub usage: Vec<ConstraintUsage>,
    pub estimated_cost: u32,
    pub estimated_rows: i64,
    pub idx_num: i32,
}

/// Why the table cannot be scanned as the engine proposes.
#[derive(Debug, Clone, Copy, PartialEq, Eq, Structural)]
pub enum BestIndexError {
    /// A constraint on the hidden column is unusable or is no equality.
    Constraint,
    /// No constraint is on the hidden column.
    Error,
}

/// The cost that every plan reports: a placeholder, since nothing is known
/// of a text before it is parsed.
pub const ESTIMATED_COST: u32 = 100000;

/// The number of rows that every plan reports: a placeholder as well.
pub const ESTIMATED_ROWS: i64 = 100000;

/// The number of the one plan that there is.
pub const PLAN_NUMBER: i32 = 1;

/// Whether a constraint binds the hidden column by equality to a value that
/// the cursor can get.
pub open spec fn binds(constraint: Constraint, hidden: i32) -> bool {
    constraint.column == hidden && constraint.usable && constraint.op == Some(
        ConstraintOperator::EQ,
    )
}

/// Whether a constraint is on the hidden column and does not bind it.
pub open spec fn blocks(constraint: Constraint, hidden: i32) -> bool {
    constraint.column == hidden && !binds(constraint, hidden)
}

/// Whether the table can be scanned: some constraint binds the hidden column
/// and none blocks it.
pub open spec fn feasible(constraints: Seq<Constraint>, hidden: i32) -> bool {
    &&& exists|i: int| 0 <= i < constraints.len() && binds(#[trigger] constraints[i], hidden)
    &&& forall|i: int| 0 <= i < constraints.len() ==> !blocks(#[trigger] constraints[i], hidden)
}

/// What a plan asks for a constraint: the value of one on the hidden column
/// goes to the cursor in the first place and is not tested again; any other
/// constraint is left to the engine.
pub open spec fn usage_of(constraint: Constraint, hidden: i32) -> ConstraintUsage {
    if constraint.column == hidden {
        ConstraintUsage { argv_index: 1, omit: true }
    } else {
        ConstraintUsage { argv_index: 0, omit: false }
    }
}

/// What a plan asks for each of the constraints.
pub open spec fn usages(constraints: Seq<Constraint>, hidden: i32) -> Seq<ConstraintUsage> {
    Seq::new(constraints.len(), |i: int| usage_of(constraints[i], hidden))
}

/// Decides whether the table whose hidden column has the number `hidden` can
/// be scanned under `constraints`, and how.
pub fn negotiate(constraints: &Vec<Constraint>, hidden: i32) -> (plan: Result<
    IndexPlan,
    BestIndexError,
>)
    ensures
        plan is Ok <==> feasible(constraints@, hidden),
        plan == Err::<IndexPlan, BestIndexError>(BestIndexError::Constraint) <==> exists|i: int|
            0 <= i < constraints.len() && blocks(#[trigger] constraints[i], hidden),
        plan == Err::<IndexPlan, BestIndexError>(BestIndexError::Error) <==> forall|i: int|
            0 <= i < constraints.len() ==> (#[trigger] constraints[i]).column != hidden,
        plan matches Ok(found) ==> {
            &&& found.usage@ == usages(constraints@, hidden)
            &&& found.estimated_cost == ESTIMATED_COST
            &&& found.estimated_rows == ESTIMATED_ROWS
            &&& found.idx_num == PLAN_NUMBER
        },
{
    let mut has_robotstxt = false;
    let mut usage: Vec<ConstraintUsage> = Vec::new();
    let mut at: usize = 0;
    while at < constraints.len()
        invariant
            at <= constraints.len(),
            usage@ == usages(constraints@.take(at as int), hidden),
            has_robotstxt <==> exists|i: int|
                0 <= i < at && binds(#[trigger] constraints[i], hidden),
            forall|i: int| 0 <= i < at ==> !blocks(#[trigger] constraints[i], hidden),
            !has_robotstxt ==> forall|i: int|
                0 <= i < at ==> (#[trigger] constraints[i]).column != hidden,
        decreases constraints.len() - at,
    {
        let constraint = constraints[at];
        if constraint.column == hidden {
            let equality = match constraint.op {
                Some(ConstraintOperator::EQ) => true,
                _ => false,
            };
            if constraint.usable && equality {
                usage.push(ConstraintUsage { argv_index: 1, omit: true });
                has_robotstxt = true;
            } else {
                assert(blocks(constraints[at as int], hidden));
                return Err(BestIndexError::Constraint);
            }
        } else {
            usage.push(ConstraintUsage { argv_index: 0, omit: false });
        }
        assert(usage@ =~= usages(constraints@.take(at + 1), hidden));
        at = at + 1;
    }
    assert(constraints@.take(at as int) =~= constraints@);
    if !has_robotstxt {
        return Err(BestIndexError::Error);
    }
    Ok(
        IndexPlan {
            usage,
            estimated_cost: ESTIMATED_COST,
            estimated_rows: ESTIMATED_ROWS,
            idx_num: PLAN_NUMBER,
        },
    )
}

} // verus!

//! The table of user agents: one row for each group of a robots.txt text, in
//! the order of the text.

use crate::events::robots_events;
use crate::plan::{
    blocks, feasible, negotiate, usages, BestIndexError, Constraint, IndexPlan, ESTIMATED_COST,
    ESTIMATED_ROWS, PLAN_NUMBER,
};
use crate::rows::{agent_rows, AgentRow};
use crate::text::{accepts, parser_accepts, UnsupportedText};
use crate::utils::{document_of, in_source_order, parse, InfoView, RobotsInfo};
use crate::value::{ColumnValue, ColumnValueView};
use vstd::prelude::*;

verus! {

/// The columns of the table, in the order of its declaration.
#[derive(Debug, Clone, Copy, PartialEq, Eq, Structural)]
pub enum Columns {
    Name,
    Source,
    Rules,
    /// The hidden column that takes the robots.txt text.
    Robotstxt,
}

/// The column with the given number, if the table has one.
pub open spec fn column_at(index: int) -> Option<Columns> {
    if index == 0 {
        Some(Columns::Name)
    } else if index == 1 {
        Some(Columns::Source)
    } else if index == 2 {
        Some(Columns::Rules)
    } else if index == 3 {
        Some(Columns::Robotstxt)
    } else {
        None
    }
}

/// The column with the given number, if the table has one.
pub fn column(index: i32) -> (found: Option<Columns>)
    ensures
        found == column_at(index as int),
{
    match index {
        0 => Some(Columns::Name),
        1 => Some(Columns::Source),
        2 => Some(Columns::Rules),
        3 => Some(Columns::Robotstxt),
        _ => None,
    }
}

/// What a row holds in the column with the given number: the name and the
/// line of the group, and nothing in any other column.
pub open spec fn row_column(row: AgentRow, index: int) -> ColumnValueView {
    match column_at(index) {
        Some(Columns::Name) => ColumnValueView::Text(row.name),
        Some(Columns::Source) => ColumnValueView::Integer(row.source as i64),
        _ => ColumnValueView::Null,
    }
}

/// The declaration of the table.
pub const CREATE_SQL: &'static str = "CREATE TABLE x(name text, source int, rules, robotstxt hidden)";

/// The number of the hidden column.
pub const ROBOTSTXT_COLUMN: i32 = 3;

/// The table of user agents.
pub struct UserAgentsTable {}

impl UserAgentsTable {
    /// The declaration of the table, and the table.
    pub fn connect() -> (made: (String, UserAgentsTable))
        ensures
            made.0@ == CREATE_SQL@,
    {
        (CREATE_SQL.to_owned(), UserAgentsTable {  })
    }

    /// The table holds nothing that would have to be given back.
    pub fn destroy(&self) {
    }

    /// Decides whether the table can be scanned under `constraints`: only
    /// where one of them binds the hidden column by equality and none is on
    /// that column without binding it.
    pub fn best_index(&self, constraints: &Vec<Constraint>) -> (plan: Result<
        IndexPlan,
        BestIndexError,
    >)
        ensures
            column_at(ROBOTSTXT_COLUMN as int) == Some(Columns::Robotstxt),
            plan is Ok <==> feasible(constraints@, ROBOTSTXT_COLUMN),
            plan == Err::<IndexPlan, BestIndexError>(BestIndexError::Constraint) <==> exists|
                i: int,
            |
                0 <= i < constraints.len() && blocks(#[trigger] constraints[i], ROBOTSTXT_COLUMN),
            plan == Err::<IndexPlan, BestIndexError>(BestIndexError::Error) <==> forall|i: int|
                0 <= i < constraints.len() ==> (#[trigger] constraints[i]).column
                    != ROBOTSTXT_COLUMN,
            plan matches Ok(found) ==> {
                &&& found.usage@ == usages(constraints@, ROBOTSTXT_COLUMN)
                &&& found.estimated_cost == ESTIMATED_COST
                &&& found.estimated_rows == ESTIMATED_ROWS
                &&& found.idx_num == PLAN_NUMBER
            },
    {
        negotiate(constraints, ROBOTSTXT_COLUMN)
    }

    /// A fresh cursor over the table: it has no document yet and has moved
    /// past no row. The table stays as it is.
    pub fn open(&mut self) -> (cursor: UserAgentsCursor)
        ensures
            cursor.wf(),
            cursor.document() is None,
            cursor.position() == 0,
            *final(self) == *old(self),
    {
        UserAgentsCursor::new()
    }
}

/// A cursor over the rows of the table of user agents.
pub struct UserAgentsCursor {
    rowid: i64,
    info: Option<RobotsInfo>,
}

impl UserAgentsCursor {
    /// The document that the cursor walks, once it has been given one.
    pub closed spec fn document(&self) -> Option<InfoView> {
        match self.info {
            Some(info) => Some(info@),
            None => None,
        }
    }

    /// The rows of the document, in the order in which the cursor yields
    /// them.
    pub open spec fn rows(&self) -> Seq<AgentRow> {
        agent_rows(self.document().unwrap().user_agents)
    }

    /// The number of rows that the cursor has moved past.
    pub closed spec fn position(&self) -> int {
        self.rowid as int
    }

    /// Whether the cursor has moved past the last row.
    pub open spec fn at_end(&self) -> bool {
        self.position() >= self.rows().len()
    }

    /// The cursor never stands before the first row.
    pub closed spec fn wf(&self) -> bool {
        0 <= self.rowid
    }

    /// A cursor never stands before the first row.
    pub proof fn lemma_position_not_negative(self)
        requires
            self.wf(),
        ensures
            0 <= self.position(),
    {
    }

    /// A cursor that has no document yet and has moved past no row.
    pub fn new() -> (cursor: UserAgentsCursor)
        ensures
            cursor.wf(),
            cursor.document() is None,
            cursor.position() == 0,
    {
        UserAgentsCursor { rowid: 0, info: None }
    }

    /// Gives the cursor a document and puts it on the first row.
    pub fn load(&mut self, info: RobotsInfo)
        ensures
            final(self).wf(),
            final(self).document() == Some(info@),
            final(self).position() == 0,
    {
        self.info = Some(info);
        self.rowid = 0;
    }

    /// Parses `robotstxt` and puts the cursor on the first of its groups. A
    /// text that the parser cannot take is refused, and the cursor stays as
    /// it is.
    pub fn filter(&mut self, robotstxt: &str) -> (done: Result<(), UnsupportedText>)
        requires
            old(self).wf(),
        ensures
            final(self).wf(),
            parser_accepts(robotstxt@) ==> done is Ok && final(self).position() == 0
                && final(self).document() == Some(document_of(robots_events(robotstxt@)))
                && in_source_order(final(self).document().unwrap().user_agents),
            !parser_accepts(robotstxt@) ==> done is Err && *final(self) == *old(self),
    {
        if !accepts(robotstxt) {
            return Err(UnsupportedText {  });
        }
        let info = parse(robotstxt);
        self.load(info);
        Ok(())
    }

    /// Moves the cursor to the next row; past the last row it only counts on.
    pub fn next(&mut self)
        requires
            old(self).wf(),
            old(self).position() < i64::MAX,
        ensures
            final(self).wf(),
            final(self).document() == old(self).document(),
            final(self).position() == old(self).position() + 1,
    {
        self.rowid = self.rowid + 1;
    }

    /// Whether the cursor has moved past the last row.
    pub fn eof(&self) -> (end: bool)
        requires
            self.wf(),
            self.document() is Some,
        ensures
            end == self.at_end(),
    {
        self.rowid as u64 >= self.info.as_ref().unwrap().user_agents.len() as u64
    }

    /// The value of the row under the cursor in the column with the given
    /// number.
    pub fn column(&self, i: i32) -> (value: ColumnValue)
        requires
            self.wf(),
            self.document() is Some,
            !self.at_end(),
        ensures
            value@ == row_column(self.rows()[self.position()], i as int),
    {
        let user_agents = &self.info.as_ref().unwrap().user_agents;
        assert(self.rows().len() == user_agents.len());
        let current = &user_agents[self.rowid as usize];
        match column(i) {
            Some(Columns::Name) => ColumnValue::Text(current.name.clone()),
            Some(Columns::Source) => ColumnValue::Integer(current.line_number as i64),
            _ => ColumnValue::Null,
        }
    }

    /// The number of the row under the cursor, counted from zero.
    pub fn rowid(&self) -> (id: i64)
        ensures
            id == self.position(),
    {
        self.rowid
    }
}

} // verus!

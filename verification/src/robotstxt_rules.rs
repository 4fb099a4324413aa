//! The table of rules: one row for each rule of each group of a robots.txt
//! text, in the order of the text.

use crate::events::robots_events;
use crate::plan::{
    blocks, feasible, negotiate, usages, BestIndexError, Constraint, IndexPlan, ESTIMATED_COST,
    ESTIMATED_ROWS, PLAN_NUMBER,
};
use crate::rows::{
    is_rule_at, lemma_row_at, lemma_rows_before_step, lemma_rows_prefix, rows_before, rule_rows,
    RuleRow,
};
use crate::text::{accepts, parser_accepts, UnsupportedText};
use crate::utils::{
    document_of, groups_view, in_source_order, parse, InfoView, RobotsInfo, RobotsUserAgentInfo,
    RobotsUserAgentRuleType,
};
use crate::value::{ColumnValue, ColumnValueView};
use vstd::prelude::*;

verus! {

/// The columns of the table, in the order of its declaration.
#[derive(Debug, Clone, Copy, PartialEq, Eq, Structural)]
pub enum Columns {
    UserAgent,
    Source,
    RuleType,
    Path,
    /// The hidden column that takes the robots.txt text.
    Robotstxt,
}

/// The column with the given number, if the table has one.
pub open spec fn column_at(index: int) -> Option<Columns> {
    if index == 0 {
        Some(Columns::UserAgent)
    } else if index == 1 {
        Some(Columns::Source)
    } else if index == 2 {
        Some(Columns::RuleType)
    } else if index == 3 {
        Some(Columns::Path)
    } else if index == 4 {
        Some(Columns::Robotstxt)
    } else {
        None
    }
}

/// The column with the given number, if the table has one.
pub fn column(index: i32) -> (found: Option<Columns>)
    ensures
        found == column_at(index as int),
{
    match index {
        0 => Some(Columns::UserAgent),
        1 => Some(Columns::Source),
        2 => Some(Columns::RuleType),
        3 => Some(Columns::Path),
        4 => Some(Columns::Robotstxt),
        _ => None,
    }
}

/// How the kind of a rule reads in a row.
pub open spec fn rule_type_text(rule_type: RobotsUserAgentRuleType) -> Seq<char> {
    match rule_type {
        RobotsUserAgentRuleType::Allow => "allow"@,
        RobotsUserAgentRuleType::Disallow => "disallow"@,
    }
}

/// What a row holds in the column with the given number; nothing in the
/// hidden column and in a column that the table does not have.
pub open spec fn row_column(row: RuleRow, index: int) -> ColumnValueView {
    match column_at(index) {
        Some(Columns::UserAgent) => ColumnValueView::Text(row.user_agent),
        Some(Columns::Source) => ColumnValueView::Integer(row.source as i64),
        Some(Columns::RuleType) => ColumnValueView::Text(rule_type_text(row.rule_type)),
        Some(Columns::Path) => ColumnValueView::Text(row.path),
        _ => ColumnValueView::Null,
    }
}

/// The declaration of the table.
pub const CREATE_SQL: &'static str =
    "CREATE TABLE x(user_agent text, source int, rule_type text, path text, robotstxt hidden)";

/// The number of the hidden column.
pub const ROBOTSTXT_COLUMN: i32 = 4;

/// The table of rules.
pub struct RulesTable {}

impl RulesTable {
    /// The declaration of the table, and the table.
    pub fn connect() -> (made: (String, RulesTable))
        ensures
            made.0@ == CREATE_SQL@,
    {
        (CREATE_SQL.to_owned(), RulesTable {  })
    }

    /// The table holds nothing that would have to be given back.
    pub fn destroy(&self) {
    }

    /// Decides whether the table can be scanned under `constraints`: only
    /// where one of them binds the hidden column by equality and none is on
    /// that column without binding it.
    pub fn best_index(&self, constraints: &Vec<Constraint>) -> (plan: Result<
        IndexPlan,
        BestIndexError,
    >)
        ensures
            column_at(ROBOTSTXT_COLUMN as int) == Some(Columns::Robotstxt),
            plan is Ok <==> feasible(constraints@, ROBOTSTXT_COLUMN),
            plan == Err::<IndexPlan, BestIndexError>(BestIndexError::Constraint) <==> exists|
                i: int,
            |
                0 <= i < constraints.len() && blocks(#[trigger] constraints[i], ROBOTSTXT_COLUMN),
            plan == Err::<IndexPlan, BestIndexError>(BestIndexError::Error) <==> forall|i: int|
                0 <= i < constraints.len() ==> (#[trigger] constraints[i]).column
                    != ROBOTSTXT_COLUMN,
            plan matches Ok(found) ==> {
                &&& found.usage@ == usages(constraints@, ROBOTSTXT_COLUMN)
                &&& found.estimated_cost == ESTIMATED_COST
                &&& found.estimated_rows == ESTIMATED_ROWS
                &&& found.idx_num == PLAN_NUMBER
            },
    {
        negotiate(constraints, ROBOTSTXT_COLUMN)
    }

    /// A fresh cursor over the table: it has no document yet and has moved
    /// past no row. The table stays as it is.
    pub fn open(&mut self) -> (cursor: RulesCursor)
        ensures
            cursor.wf(),
            cursor.document() is None,
            cursor.position() == 0,
            *final(self) == *old(self),
    {
        RulesCursor::new()
    }
}

/// The first group from `start` on that has a rule, or the number of groups
/// where none has.
fn skip_empty(groups: &Vec<RobotsUserAgentInfo>, start: usize) -> (found: usize)
    requires
        start <= groups.len(),
    ensures
        start <= found <= groups.len(),
        found < groups.len() ==> groups[found as int].rules.len() > 0,
        rows_before(groups_view(groups@), found as int) == rows_before(
            groups_view(groups@),
            start as int,
        ),
{
    let mut found: usize = start;
    while found < groups.len() && groups[found].rules.len() == 0
        invariant
            start <= found <= groups.len(),
            rows_before(groups_view(groups@), found as int) == rows_before(
                groups_view(groups@),
                start as int,
            ),
        decreases groups.len() - found,
    {
        proof {
            lemma_rows_before_step(groups_view(groups@), found as int);
        }
        found = found + 1;
    }
    found
}

/// A cursor over the rows of the table of rules.
pub struct RulesCursor {
    rowid: i64,
    useragent_rowid: usize,
    rule_rowid: usize,
    info: Option<RobotsInfo>,
}

impl RulesCursor {
    /// The document that the cursor walks, once it has been given one.
    pub closed spec fn document(&self) -> Option<InfoView> {
        match self.info {
            Some(info) => Some(info@),
            None => None,
        }
    }

    /// The rows of the document, in the order in which the cursor yields
    /// them.
    pub open spec fn rows(&self) -> Seq<RuleRow> {
        rule_rows(self.document().unwrap().user_agents)
    }

    /// The number of rows that the cursor has moved past.
    pub closed spec fn position(&self) -> int {
        self.rowid as int
    }

    /// Whether the cursor has moved past the last row.
    pub open spec fn at_end(&self) -> bool {
        self.position() >= self.rows().len()
    }

    /// Whether the cursor stands on the rule whose row is at its position, or
    /// behind the last group and on its first rule once it is past the last
    /// row.
    pub closed spec fn wf(&self) -> bool {
        &&& 0 <= self.rowid
        &&& match self.info {
            Some(info) => {
                let groups = info@.user_agents;
                if self.rowid < rule_rows(groups).len() {
                    &&& is_rule_at(groups, self.useragent_rowid as int, self.rule_rowid as int)
                    &&& rows_before(groups, self.useragent_rowid as int) + self.rule_rowid
                        == self.rowid
                } else {
                    self.useragent_rowid == groups.len() && self.rule_rowid == 0
                }
            },
            None => true,
        }
    }

    /// A cursor never stands before the first row.
    pub proof fn lemma_position_not_negative(self)
        requires
            self.wf(),
        ensures
            0 <= self.position(),
    {
    }

    /// A cursor that is not past the last row stands on the row of a rule:
    /// on no group without rules, and on no row without a rule.
    pub proof fn lemma_stands_on_a_rule(self) -> (place: (int, int))
        requires
            self.wf(),
            self.document() is Some,
            !self.at_end(),
        ensures
            is_rule_at(self.document().unwrap().user_agents, place.0, place.1),
            rows_before(self.document().unwrap().user_agents, place.0) + place.1
                == self.position(),
    {
        (self.useragent_rowid as int, self.rule_rowid as int)
    }

    /// A cursor that has no document yet and has moved past no row.
    pub fn new() -> (cursor: RulesCursor)
        ensures
            cursor.wf(),
            cursor.document() is None,
            cursor.position() == 0,
    {
        RulesCursor { rowid: 0, useragent_rowid: 0, rule_rowid: 0, info: None }
    }

    /// Gives the cursor a document and puts it on the first row.
    pub fn load(&mut self, info: RobotsInfo)
        ensures
            final(self).wf(),
            final(self).document() == Some(info@),
            final(self).position() == 0,
    {
        let first = skip_empty(&info.user_agents, 0);
        proof {
            let groups = info@.user_agents;
            assert(groups.take(0) =~= Seq::empty());
            lemma_rows_prefix(groups, first as int);
            if first < groups.len() {
                lemma_row_at(groups, first as int, 0);
            } else {
                assert(groups.take(first as int) =~= groups);
            }
        }
        self.rowid = 0;
        self.useragent_rowid = first;
        self.rule_rowid = 0;
        self.info = Some(info);
    }

    /// Parses `robotstxt` and puts the cursor on the first row of its rules.
    /// A text that the parser cannot take is refused, and the cursor stays as
    /// it is.
    pub fn filter(&mut self, robotstxt: &str) -> (done: Result<(), UnsupportedText>)
        requires
            old(self).wf(),
        ensures
            final(self).wf(),
            parser_accepts(robotstxt@) ==> done is Ok && final(self).position() == 0
                && final(self).document() == Some(document_of(robots_events(robotstxt@)))
                && in_source_order(final(self).document().unwrap().user_agents),
            !parser_accepts(robotstxt@) ==> done is Err && *final(self) == *old(self),
    {
        if !accepts(robotstxt) {
            return Err(UnsupportedText {  });
        }
        let info = parse(robotstxt);
        self.load(info);
        Ok(())
    }

    /// Moves the cursor to the next row; past the last row it only counts on.
    pub fn next(&mut self)
        requires
            old(self).wf(),
            old(self).document() is Some,
            old(self).position() < i64::MAX,
        ensures
            final(self).wf(),
            final(self).document() == old(self).document(),
            final(self).position() == old(self).position() + 1,
    {
        let ghost groups = self.info.unwrap()@.user_agents;
        self.rowid = self.rowid + 1;
        let info = self.info.as_ref().unwrap();
        if self.useragent_rowid >= info.user_agents.len() {
            return ;
        }
        proof {
            assert(groups.len() == info.user_agents.len());
            assert(old(self).rowid < rule_rows(groups).len());
            assert(is_rule_at(groups, self.useragent_rowid as int, self.rule_rowid as int));
            assert(groups[self.useragent_rowid as int].rules.len()
                == info.user_agents[self.useragent_rowid as int].rules.len());
            lemma_row_at(groups, self.useragent_rowid as int, self.rule_rowid as int);
            lemma_rows_before_step(groups, self.useragent_rowid as int);
            lemma_rows_prefix(groups, self.useragent_rowid + 1);
        }
        if self.rule_rowid + 1 < info.user_agents[self.useragent_rowid].rules.len() {
            self.rule_rowid = self.rule_rowid + 1;
            proof {
                lemma_row_at(groups, self.useragent_rowid as int, self.rule_rowid as int);
            }
        } else {
            let found = skip_empty(&info.user_agents, self.useragent_rowid + 1);
            proof {
                if found < groups.len() {
                    lemma_row_at(groups, found as int, 0);
                } else {
                    assert(groups.take(found as int) =~= groups);
                }
            }
            self.useragent_rowid = found;
            self.rule_rowid = 0;
        }
    }

    /// Whether the cursor has moved past the last row.
    pub fn eof(&self) -> (end: bool)
        requires
            self.wf(),
            self.document() is Some,
        ensures
            end == self.at_end(),
    {
        self.useragent_rowid >= self.info.as_ref().unwrap().user_agents.len()
    }

    /// The value of the row under the cursor in the column with the given
    /// number.
    pub fn column(&self, i: i32) -> (value: ColumnValue)
        requires
            self.wf(),
            self.document() is Some,
            !self.at_end(),
        ensures
            value@ == row_column(self.rows()[self.position()], i as int),
    {
        let user_agents = &self.info.as_ref().unwrap().user_agents;
        let info = &user_agents[self.useragent_rowid];
        let rule = &info.rules[self.rule_rowid];
        proof {
            lemma_row_at(
                groups_view(user_agents@),
                self.useragent_rowid as int,
                self.rule_rowid as int,
            );
        }
        match column(i) {
            Some(Columns::UserAgent) => ColumnValue::Text(info.name.clone()),
            Some(Columns::Source) => ColumnValue::Integer(rule.line_number as i64),
            Some(Columns::RuleType) => match rule.rule_type {
                RobotsUserAgentRuleType::Allow => ColumnValue::Text("allow".to_owned()),
                RobotsUserAgentRuleType::Disallow => ColumnValue::Text("disallow".to_owned()),
            },
            Some(Columns::Path) => ColumnValue::Text(rule.value.clone()),
            _ => ColumnValue::Null,
        }
    }

    /// The number of the row under the cursor, counted from zero.
    pub fn rowid(&self) -> (id: i64)
        ensures
            id == self.position(),
    {
        self.rowid
    }
}

} // verus!

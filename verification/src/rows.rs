//! The rows that a document gives: one for each group, and one for each rule
//! of each group, in the order of the document.

use crate::events::RobotsEventView;
use crate::utils::{
    document_of, group_below, group_in_order, in_source_order, GroupView,
    RobotsUserAgentRuleType,
};
use vstd::prelude::*;

verus! {

/// A row of the table of user agents.
pub struct AgentRow {
    pub name: Seq<char>,
    pub source: u32,
}

/// A row of the table of rules.
pub struct RuleRow {
    pub user_agent: Seq<char>,
    pub source: u32,
    pub rule_type: RobotsUserAgentRuleType,
    pub path: Seq<char>,
}

/// One row for each group, in the order of the groups.
pub open spec fn agent_rows(groups: Seq<GroupView>) -> Seq<AgentRow> {
    Seq::new(
        groups.len(),
        |i: int| AgentRow { name: groups[i].name, source: groups[i].line_number },
    )
}

/// One row for each rule of a group, in the order of its rules.
pub open spec fn group_rows(group: GroupView) -> Seq<RuleRow> {
    Seq::new(
        group.rules.len(),
        |i: int|
            RuleRow {
                user_agent: group.name,
                source: group.rules[i].line_number,
                rule_type: group.rules[i].rule_type,
                path: group.rules[i].value,
            },
    )
}

/// The rows of all groups, one group after the other.
pub open spec fn rule_rows(groups: Seq<GroupView>) -> Seq<RuleRow>
    decreases groups.len(),
{
    if groups.len() == 0 {
        Seq::empty()
    } else {
        rule_rows(groups.drop_last()) + group_rows(groups.last())
    }
}

/// The number of rules in all groups together.
pub open spec fn rule_count(groups: Seq<GroupView>) -> nat
    decreases groups.len(),
{
    if groups.len() == 0 {
        0
    } else {
        rule_count(groups.drop_last()) + groups.last().rules.len()
    }
}

/// The number of rows that stand before those of the group at `group`.
pub open spec fn rows_before(groups: Seq<GroupView>, group: int) -> nat {
    rule_rows(groups.take(group)).len()
}

/// Whether `group` and `rule` name a rule of the document.
pub open spec fn is_rule_at(groups: Seq<GroupView>, group: int, rule: int) -> bool {
    0 <= group < groups.len() && 0 <= rule < groups[group].rules.len()
}

/// The rows of one more group follow those of the groups before it.
pub proof fn lemma_rows_before_step(groups: Seq<GroupView>, group: int)
    requires
        0 <= group < groups.len(),
    ensures
        rule_rows(groups.take(group + 1)) == rule_rows(groups.take(group)) + group_rows(
            groups[group],
        ),
        rows_before(groups, group + 1) == rows_before(groups, group) + groups[group].rules.len(),
{
    assert(groups.take(group + 1).drop_last() =~= groups.take(group));
    assert(groups.take(group + 1).last() == groups[group]);
}

/// The rows of the first groups are the first rows of the document.
pub proof fn lemma_rows_prefix(groups: Seq<GroupView>, group: int)
    requires
        0 <= group <= groups.len(),
    ensures
        rows_before(groups, group) <= rule_rows(groups).len(),
        rule_rows(groups).take(rows_before(groups, group) as int) == rule_rows(
            groups.take(group),
        ),
    decreases groups.len() - group,
{
    if group == groups.len() {
        assert(groups.take(group) =~= groups);
        assert(rule_rows(groups).take(rule_rows(groups).len() as int) =~= rule_rows(groups));
    } else {
        lemma_rows_prefix(groups, group + 1);
        lemma_rows_before_step(groups, group);
        let longer = rule_rows(groups.take(group + 1));
        let shorter = rule_rows(groups.take(group));
        assert(longer.take(shorter.len() as int) =~= shorter);
        assert(rule_rows(groups).take(shorter.len() as int) =~= rule_rows(groups).take(
            longer.len() as int,
        ).take(shorter.len() as int));
    }
}

/// The rows of the rules are as many as the rules of all groups together: a
/// group without rules adds none.
pub proof fn lemma_row_count(groups: Seq<GroupView>)
    ensures
        rule_rows(groups).len() == rule_count(groups),
    decreases groups.len(),
{
    if groups.len() > 0 {
        lemma_row_count(groups.drop_last());
    }
}

/// The row of a rule stands where the rows before its group and the rules
/// before it in its group put it, and it holds the name of that group and
/// what that rule says.
pub proof fn lemma_row_at(groups: Seq<GroupView>, group: int, rule: int)
    requires
        is_rule_at(groups, group, rule),
    ensures
        rows_before(groups, group) + rule < rule_rows(groups).len(),
        rule_rows(groups)[rows_before(groups, group) + rule] == group_rows(groups[group])[rule],
{
    lemma_rows_prefix(groups, group + 1);
    lemma_rows_before_step(groups, group);
    let index = rows_before(groups, group) + rule;
    let upto = rule_rows(groups.take(group + 1));
    assert(upto[index] == group_rows(groups[group])[rule]);
    assert(rule_rows(groups).take(upto.len() as int)[index] == rule_rows(groups)[index]);
}

/// Rows keep the order of the document: of two rules, the one in the earlier
/// group, or the earlier one in the same group, has the earlier row.
pub proof fn lemma_row_order(
    groups: Seq<GroupView>,
    group1: int,
    rule1: int,
    group2: int,
    rule2: int,
)
    requires
        is_rule_at(groups, group1, rule1),
        is_rule_at(groups, group2, rule2),
        group1 < group2 || (group1 == group2 && rule1 < rule2),
    ensures
        rows_before(groups, group1) + rule1 < rows_before(groups, group2) + rule2,
    decreases group2 - group1,
{
    if group1 < group2 {
        lemma_rows_before_step(groups, group2 - 1);
        if group1 < group2 - 1 {
            if groups[group2 - 1].rules.len() > 0 {
                lemma_row_order(groups, group1, rule1, group2 - 1, 0);
            } else {
                lemma_rows_monotone(groups, group1 + 1, group2 - 1);
                lemma_rows_before_step(groups, group1);
            }
        }
    }
}

/// Later groups have no fewer rows before them.
pub proof fn lemma_rows_monotone(groups: Seq<GroupView>, group1: int, group2: int)
    requires
        0 <= group1 <= group2 <= groups.len(),
    ensures
        rows_before(groups, group1) <= rows_before(groups, group2),
    decreases group2 - group1,
{
    if group1 < group2 {
        lemma_rows_before_step(groups, group2 - 1);
        lemma_rows_monotone(groups, group1, group2 - 1);
    }
}

/// Every row is the row of a rule: none stands for a group without rules.
pub proof fn lemma_row_origin(groups: Seq<GroupView>, index: int) -> (place: (int, int))
    requires
        0 <= index < rule_rows(groups).len(),
    ensures
        is_rule_at(groups, place.0, place.1),
        rows_before(groups, place.0) + place.1 == index,
    decreases groups.len(),
{
    let before = rule_rows(groups.drop_last()).len();
    assert(groups.take(groups.len() - 1) =~= groups.drop_last());
    if index < before {
        let place = lemma_row_origin(groups.drop_last(), index);
        assert(groups.drop_last().take(place.0) =~= groups.take(place.0));
        place
    } else {
        (groups.len() - 1, index - before)
    }
}

/// Whether a group is open after the events: the last `User-agent:`
/// directive among them is followed by no end of a text.
pub open spec fn open_after(events: Seq<RobotsEventView>) -> bool
    decreases events.len(),
{
    if events.len() == 0 {
        false
    } else if events.last() is UserAgent {
        true
    } else if events.last() is End {
        false
    } else {
        open_after(events.drop_last())
    }
}

/// The number of `Allow:` and `Disallow:` directives among the events that
/// come while a group is open.
pub open spec fn rules_taken(events: Seq<RobotsEventView>) -> nat
    decreases events.len(),
{
    if events.len() == 0 {
        0
    } else {
        rules_taken(events.drop_last()) + if (events.last() is Allow || events.last() is Disallow)
            && open_after(events.drop_last()) {
            1nat
        } else {
            0nat
        }
    }
}

/// A document holds one rule for each `Allow:` and `Disallow:` directive that
/// came while a group was open, and so has as many rows of rules; a
/// directive that came before any group gave none.
pub proof fn lemma_rules_taken(events: Seq<RobotsEventView>)
    ensures
        document_of(events).current_user_agent is Some <==> open_after(events),
        rule_count(document_of(events).all_groups()) == rules_taken(events),
        rule_rows(document_of(events).all_groups()).len() == rules_taken(events),
    decreases events.len(),
{
    if events.len() == 0 {
        assert(document_of(events).all_groups() =~= Seq::empty());
    } else {
        let before = document_of(events.drop_last());
        let after = document_of(events);
        lemma_rules_taken(events.drop_last());
        let old_groups = before.all_groups();
        let new_groups = after.all_groups();
        match events.last() {
            RobotsEventView::UserAgent { line, name } => {
                let opened = GroupView { name, line_number: line, rules: Seq::empty() };
                assert(new_groups =~= old_groups.push(opened));
                assert(new_groups.drop_last() =~= old_groups);
            },
            RobotsEventView::Allow { .. } | RobotsEventView::Disallow { .. } => {
                if before.current_user_agent is Some {
                    assert(new_groups.drop_last() =~= old_groups.drop_last());
                    assert(new_groups.last().rules.len() == old_groups.last().rules.len() + 1);
                } else {
                    assert(new_groups =~= old_groups);
                }
            },
            _ => {
                assert(new_groups =~= old_groups);
            },
        }
    }
    lemma_row_count(document_of(events).all_groups());
}

/// Where the groups and rules of a document follow one another as their
/// lines do, so do the rows of the user agents: a later row comes from a
/// later line.
pub proof fn lemma_agent_rows_rise(groups: Seq<GroupView>, earlier: int, later: int)
    requires
        in_source_order(groups),
        0 <= earlier < later < agent_rows(groups).len(),
    ensures
        agent_rows(groups)[earlier].source < agent_rows(groups)[later].source,
        agent_rows(groups)[earlier].name == groups[earlier].name,
        agent_rows(groups)[later].name == groups[later].name,
{
    assert(group_below(groups[earlier], groups[later].line_number as int));
}

/// Where the groups and rules of a document follow one another as their
/// lines do, so do the rows of the rules: a later row comes from a later
/// line.
pub proof fn lemma_rule_rows_rise(groups: Seq<GroupView>, earlier: int, later: int)
    requires
        in_source_order(groups),
        0 <= earlier < later < rule_rows(groups).len(),
    ensures
        rule_rows(groups)[earlier].source < rule_rows(groups)[later].source,
{
    let first = lemma_row_origin(groups, earlier);
    let second = lemma_row_origin(groups, later);
    lemma_row_at(groups, first.0, first.1);
    lemma_row_at(groups, second.0, second.1);
    if second.0 < first.0 || (second.0 == first.0 && second.1 < first.1) {
        lemma_row_order(groups, second.0, second.1, first.0, first.1);
    }
    assert(group_in_order(groups[first.0]));
    assert(group_in_order(groups[second.0]));
    if first.0 < second.0 {
        assert(group_below(groups[first.0], groups[second.0].line_number as int));
    }
}

} // verus!

//! The parsed structure of a robots.txt text: user-agent groups and the
//! allow/disallow rules that each of them owns, together with the builder
//! that accumulates them from a stream of directive events.

use crate::events::{
    events_view, lines_rise, report_events, robots_events, RobotsEvent, RobotsEventView,
};
use crate::text::parser_accepts;
use vstd::prelude::*;

verus! {

/// Whether a rule permits or forbids the paths that its pattern matches.
#[derive(Debug, Clone, Copy, PartialEq, Eq, Structural)]
pub enum RobotsUserAgentRuleType {
    Allow,
    Disallow,
}

/// One `Allow:` or `Disallow:` directive.
#[derive(Debug, Clone, PartialEq, Eq)]
pub struct RobotsUserAgentRule {
    pub rule_type: RobotsUserAgentRuleType,
    /// The path pattern as the directive gave it.
    pub value: String,
    /// The line of the text, counted from one, on which the directive stands.
    pub line_number: u32,
}

/// The rules declared under one `User-agent:` directive.
#[derive(Debug, Clone, PartialEq, Eq)]
pub struct RobotsUserAgentInfo {
    /// The agent token as the directive gave it.
    pub name: String,
    /// The line of the text, counted from one, on which the group opens.
    pub line_number: u32,
    pub rules: Vec<RobotsUserAgentRule>,
}

/// A document under construction: the groups that are complete, in the order
/// in which they were opened, and the group that later rules still go to.
#[derive(Debug, Clone, PartialEq, Eq)]
pub struct RobotsInfo {
    pub user_agents: Vec<RobotsUserAgentInfo>,
    pub current_user_agent: Option<RobotsUserAgentInfo>,
}

/// Mathematical value of a [`RobotsUserAgentRule`].
pub struct RuleView {
    pub rule_type: RobotsUserAgentRuleType,
    pub value: Seq<char>,
    pub line_number: u32,
}

/// Mathematical value of a [`RobotsUserAgentInfo`].
pub struct GroupView {
    pub name: Seq<char>,
    pub line_number: u32,
    pub rules: Seq<RuleView>,
}

/// Mathematical value of a [`RobotsInfo`].
pub struct InfoView {
    pub user_agents: Seq<GroupView>,
    pub current_user_agent: Option<GroupView>,
}

impl View for RobotsUserAgentRule {
    type V = RuleView;

    open spec fn view(&self) -> RuleView {
        RuleView { rule_type: self.rule_type, value: self.value@, line_number: self.line_number }
    }
}

/// The values of a sequence of rules, element by element.
pub open spec fn rules_view(rules: Seq<RobotsUserAgentRule>) -> Seq<RuleView> {
    Seq::new(rules.len(), |i: int| rules[i]@)
}

impl View for RobotsUserAgentInfo {
    type V = GroupView;

    open spec fn view(&self) -> GroupView {
        GroupView {
            name: self.name@,
            line_number: self.line_number,
            rules: rules_view(self.rules@),
        }
    }
}

/// The values of a sequence of groups, element by element.
pub open spec fn groups_view(groups: Seq<RobotsUserAgentInfo>) -> Seq<GroupView> {
    Seq::new(groups.len(), |i: int| groups[i]@)
}

impl View for RobotsInfo {
    type V = InfoView;

    open spec fn view(&self) -> InfoView {
        InfoView {
            user_agents: groups_view(self.user_agents@),
            current_user_agent: match self.current_user_agent {
                Some(group) => Some(group@),
                None => None,
            },
        }
    }
}

impl InfoView {
    /// The document in which nothing has been seen yet.
    pub open spec fn empty() -> InfoView {
        InfoView { user_agents: Seq::empty(), current_user_agent: None }
    }

    /// Completes the open group, if there is one, by appending it to the
    /// complete groups.
    pub open spec fn seal(self) -> InfoView {
        match self.current_user_agent {
            Some(group) => InfoView {
                user_agents: self.user_agents.push(group),
                current_user_agent: None,
            },
            None => self,
        }
    }

    /// Completes the open group and opens a new, empty one.
    pub open spec fn open_group(self, line_number: u32, name: Seq<char>) -> InfoView {
        InfoView {
            user_agents: self.seal().user_agents,
            current_user_agent: Some(GroupView { name, line_number, rules: Seq::empty() }),
        }
    }

    /// Appends a rule to the open group; without an open group the rule has
    /// nowhere to go and the document stays as it is.
    pub open spec fn add_rule(self, rule: RuleView) -> InfoView {
        match self.current_user_agent {
            Some(group) => InfoView {
                user_agents: self.user_agents,
                current_user_agent: Some(
                    GroupView {
                        name: group.name,
                        line_number: group.line_number,
                        rules: group.rules.push(rule),
                    },
                ),
            },
            None => self,
        }
    }

    /// The document after one more event.
    pub open spec fn step(self, event: RobotsEventView) -> InfoView {
        match event {
            RobotsEventView::Start => self,
            RobotsEventView::End => self.seal(),
            RobotsEventView::UserAgent { line, name } => self.open_group(line, name),
            RobotsEventView::Allow { line, value } => self.add_rule(
                RuleView { rule_type: RobotsUserAgentRuleType::Allow, value, line_number: line },
            ),
            RobotsEventView::Disallow { line, value } => self.add_rule(
                RuleView { rule_type: RobotsUserAgentRuleType::Disallow, value, line_number: line },
            ),
            RobotsEventView::Sitemap { .. } => self,
            RobotsEventView::Unknown { .. } => self,
        }
    }

    /// The document after a sequence of events, taken first to last.
    pub open spec fn run(self, events: Seq<RobotsEventView>) -> InfoView
        decreases events.len(),
    {
        if events.len() == 0 {
            self
        } else {
            self.run(events.drop_last()).step(events.last())
        }
    }
}

/// The document that a sequence of events describes.
pub open spec fn document_of(events: Seq<RobotsEventView>) -> InfoView {
    InfoView::empty().run(events)
}

impl RobotsInfo {
    /// A document in which nothing has been seen yet.
    pub fn new() -> (info: RobotsInfo)
        ensures
            info@ == InfoView::empty(),
    {
        let info = RobotsInfo { user_agents: Vec::new(), current_user_agent: None };
        assert(info@.user_agents =~= Seq::empty());
        info
    }

    /// The start of a text changes nothing.
    pub fn handle_robots_start(&mut self)
        ensures
            *final(self) == *old(self),
    {
    }

    /// The end of a text completes the open group.
    pub fn handle_robots_end(&mut self)
        ensures
            final(self)@ == old(self)@.seal(),
    {
        if let Some(prev) = self.current_user_agent.take() {
            self.user_agents.push(prev);
            assert(self@.user_agents =~= old(self)@.user_agents.push(prev@));
        }
    }

    /// A `User-agent:` directive completes the open group and opens a new one
    /// under the name it gives.
    pub fn handle_user_agent(&mut self, line_num: u32, user_agent: &str)
        ensures
            final(self)@ == old(self)@.open_group(line_num, user_agent@),
    {
        let current = RobotsUserAgentInfo {
            name: user_agent.to_owned(),
            line_number: line_num,
            rules: Vec::new(),
        };
        assert(current@.rules =~= Seq::empty());
        if let Some(prev) = self.current_user_agent.take() {
            self.user_agents.push(prev);
            assert(self@.user_agents =~= old(self)@.user_agents.push(prev@));
        }
        self.current_user_agent = Some(current);
    }

    /// An `Allow:` directive adds an allow rule to the open group.
    pub fn handle_allow(&mut self, line_num: u32, value: &str)
        ensures
            final(self)@ == old(self)@.add_rule(
                RuleView {
                    rule_type: RobotsUserAgentRuleType::Allow,
                    value: value@,
                    line_number: line_num,
                },
            ),
    {
        self.push_rule(RobotsUserAgentRuleType::Allow, line_num, value);
    }

    /// A `Disallow:` directive adds a disallow rule to the open group.
    pub fn handle_disallow(&mut self, line_num: u32, value: &str)
        ensures
            final(self)@ == old(self)@.add_rule(
                RuleView {
                    rule_type: RobotsUserAgentRuleType::Disallow,
                    value: value@,
                    line_number: line_num,
                },
            ),
    {
        self.push_rule(RobotsUserAgentRuleType::Disallow, line_num, value);
    }

    /// A `Sitemap:` directive belongs to no group and changes nothing.
    pub fn handle_sitemap(&mut self, line_num: u32, value: &str)
        ensures
            *final(self) == *old(self),
    {
    }

    /// A directive of any other kind changes nothing.
    pub fn handle_unknown_action(&mut self, line_num: u32, action: &str, value: &str)
        ensures
            *final(self) == *old(self),
    {
    }

    /// Takes one event of any kind.
    pub fn apply(&mut self, event: &RobotsEvent)
        ensures
            final(self)@ == old(self)@.step(event@),
    {
        match event {
            RobotsEvent::Start => self.handle_robots_start(),
            RobotsEvent::End => self.handle_robots_end(),
            RobotsEvent::UserAgent { line, name } => self.handle_user_agent(*line, name.as_str()),
            RobotsEvent::Allow { line, value } => self.handle_allow(*line, value.as_str()),
            RobotsEvent::Disallow { line, value } => self.handle_disallow(*line, value.as_str()),
            RobotsEvent::Sitemap { line, value } => self.handle_sitemap(*line, value.as_str()),
            RobotsEvent::Unknown { line, action, value } => self.handle_unknown_action(
                *line,
                action.as_str(),
                value.as_str(),
            ),
        }
    }

    /// Builds the document that `events` describe.
    pub fn from_events(events: &Vec<RobotsEvent>) -> (info: RobotsInfo)
        ensures
            info@ == document_of(events_view(events@)),
    {
        let mut info = RobotsInfo::new();
        let ghost all = events_view(events@);
        let mut i: usize = 0;
        while i < events.len()
            invariant
                i <= events.len(),
                all == events_view(events@),
                info@ == InfoView::empty().run(all.take(i as int)),
            decreases events.len() - i,
        {
            proof {
                assert(all.take(i + 1).drop_last() =~= all.take(i as int));
                assert(all.take(i + 1).last() == events@[i as int]@);
            }
            info.apply(&events[i]);
            i = i + 1;
        }
        assert(all.take(i as int) =~= all);
        info
    }

    fn push_rule(&mut self, rule_type: RobotsUserAgentRuleType, line_num: u32, value: &str)
        ensures
            final(self)@ == old(self)@.add_rule(
                RuleView { rule_type, value: value@, line_number: line_num },
            ),
    {
        if let Some(mut current) = self.current_user_agent.take() {
            let ghost before = current@;
            let rule = RobotsUserAgentRule {
                rule_type,
                value: value.to_owned(),
                line_number: line_num,
            };
            current.rules.push(rule);
            assert(current@.rules =~= before.rules.push(rule@));
            self.current_user_agent = Some(current);
        }
    }
}

/// The number of `User-agent:` directives among the events.
pub open spec fn user_agent_events(events: Seq<RobotsEventView>) -> nat
    decreases events.len(),
{
    if events.len() == 0 {
        0
    } else {
        user_agent_events(events.drop_last()) + if events.last() is UserAgent {
            1nat
        } else {
            0nat
        }
    }
}

impl InfoView {
    /// The number of groups, the open one counted in.
    pub open spec fn group_count(self) -> nat {
        self.user_agents.len() + if self.current_user_agent is Some {
            1nat
        } else {
            0nat
        }
    }

    /// The groups in the order in which they were opened, the open one last.
    pub open spec fn all_groups(self) -> Seq<GroupView> {
        self.seal().user_agents
    }
}

/// An event changes no group that is complete and takes none away, and it
/// leaves the rules that the open group has in their places: what the text
/// said first stays first.
pub proof fn lemma_step_keeps_order(before: InfoView, event: RobotsEventView)
    ensures
        before.user_agents.len() <= before.step(event).user_agents.len(),
        before.step(event).user_agents.take(before.user_agents.len() as int)
            == before.user_agents,
        before.all_groups().len() <= before.step(event).all_groups().len(),
        forall|i: int|
            0 <= i < before.all_groups().len() ==> {
                let old_group = #[trigger] before.all_groups()[i];
                let new_group = before.step(event).all_groups()[i];
                &&& new_group.name == old_group.name
                &&& new_group.line_number == old_group.line_number
                &&& old_group.rules.len() <= new_group.rules.len()
                &&& new_group.rules.take(old_group.rules.len() as int) == old_group.rules
            },
{
    let after = before.step(event);
    assert(after.user_agents.take(before.user_agents.len() as int) =~= before.user_agents);
    assert forall|i: int| 0 <= i < before.all_groups().len() implies {
        let old_group = #[trigger] before.all_groups()[i];
        let new_group = after.all_groups()[i];
        &&& new_group.name == old_group.name
        &&& new_group.line_number == old_group.line_number
        &&& old_group.rules.len() <= new_group.rules.len()
        &&& new_group.rules.take(old_group.rules.len() as int) == old_group.rules
    } by {
        let old_group = before.all_groups()[i];
        let new_group = after.all_groups()[i];
        assert(new_group.rules.take(old_group.rules.len() as int) =~= old_group.rules);
    }
}

/// Every `User-agent:` directive gives a group of its own, also where no
/// rule stands between two of them, and nothing else gives a group.
pub proof fn lemma_group_count(before: InfoView, events: Seq<RobotsEventView>)
    ensures
        before.run(events).group_count() == before.group_count() + user_agent_events(events),
    decreases events.len(),
{
    if events.len() > 0 {
        lemma_group_count(before, events.drop_last());
    }
}

/// Whether the rules of a group stand on lines after the line of the group,
/// each on a later line than the one before.
pub open spec fn group_in_order(group: GroupView) -> bool {
    &&& forall|r: int|
        0 <= r < group.rules.len() ==> group.line_number < (#[trigger] group.rules[r]).line_number
    &&& forall|r: int, s: int|
        0 <= r < s < group.rules.len() ==> (#[trigger] group.rules[r]).line_number < (
        #[trigger] group.rules[s]).line_number
}

/// Whether a group and all its rules stand on lines before `bound`.
pub open spec fn group_below(group: GroupView, bound: int) -> bool {
    &&& group.line_number < bound
    &&& forall|r: int|
        0 <= r < group.rules.len() ==> (#[trigger] group.rules[r]).line_number < bound
}

/// Whether all groups and all their rules stand on lines before `bound`.
pub open spec fn groups_below(groups: Seq<GroupView>, bound: int) -> bool {
    forall|g: int| 0 <= g < groups.len() ==> group_below(#[trigger] groups[g], bound)
}

/// Whether the groups and their rules follow one another as their lines do:
/// a group after the groups before it and all their rules, and its rules
/// after it, one after the other.
pub open spec fn in_source_order(groups: Seq<GroupView>) -> bool {
    &&& forall|g: int| 0 <= g < groups.len() ==> group_in_order(#[trigger] groups[g])
    &&& forall|g: int, h: int|
        0 <= g < h < groups.len() ==> group_below(
            #[trigger] groups[g],
            (#[trigger] groups[h]).line_number as int,
        )
}

/// One more than the last line that an event comes from; one where none
/// comes from a line.
pub open spec fn line_bound(events: Seq<RobotsEventView>) -> int
    decreases events.len(),
{
    if events.len() == 0 {
        1
    } else {
        let before = line_bound(events.drop_last());
        match events.last().line() {
            Some(line) => if line + 1 > before {
                line + 1
            } else {
                before
            },
            None => before,
        }
    }
}

/// Where lines rise, the last event comes from the last line.
proof fn lemma_last_line(events: Seq<RobotsEventView>)
    requires
        lines_rise(events),
        events.len() > 0,
        events.last().line() is Some,
    ensures
        line_bound(events.drop_last()) <= events.last().line().unwrap(),
{
    let before = events.drop_last();
    let last = events.len() - 1;
    lemma_bound_is_reached(before);
    assert(events[last].line().unwrap() >= 1);
    if line_bound(before) > 1 {
        let i = choose|i: int|
            0 <= i < before.len() && (#[trigger] before[i]).line() is Some
                && before[i].line().unwrap() + 1 == line_bound(before);
        assert(events[i] == before[i]);
        assert(events[i].line().unwrap() < events[last].line().unwrap());
    }
}

/// The bound is one, or one more than the line of some event.
proof fn lemma_bound_is_reached(events: Seq<RobotsEventView>)
    ensures
        line_bound(events) >= 1,
        line_bound(events) > 1 ==> exists|i: int|
            0 <= i < events.len() && (#[trigger] events[i]).line() is Some
                && events[i].line().unwrap() + 1 == line_bound(events),
    decreases events.len(),
{
    if events.len() > 0 {
        let before = events.drop_last();
        lemma_bound_is_reached(before);
        if line_bound(events) > 1 {
            if line_bound(events) == line_bound(before) {
                let i = choose|i: int|
                    0 <= i < before.len() && (#[trigger] before[i]).line() is Some
                        && before[i].line().unwrap() + 1 == line_bound(before);
                assert(events[i] == before[i]);
            } else {
                let last = events.len() - 1;
                assert(events[last].line() is Some);
                assert(events[last].line().unwrap() + 1 == line_bound(events));
            }
        }
    }
}

/// An event from a later line than all before keeps the groups and rules in
/// the order of their lines.
proof fn lemma_step_in_order(before: InfoView, event: RobotsEventView, bound: int)
    requires
        in_source_order(before.all_groups()),
        groups_below(before.all_groups(), bound),
        event.line() is Some ==> bound <= event.line().unwrap(),
    ensures
        in_source_order(before.step(event).all_groups()),
        groups_below(
            before.step(event).all_groups(),
            match event.line() {
                Some(line) => line + 1,
                None => bound,
            },
        ),
{
    let old_groups = before.all_groups();
    let after = before.step(event);
    let new_groups = after.all_groups();
    match event {
        RobotsEventView::UserAgent { line, name } => {
            let opened = GroupView { name, line_number: line, rules: Seq::empty() };
            assert(new_groups =~= old_groups.push(opened));
            assert forall|g: int| 0 <= g < new_groups.len() implies group_below(
                #[trigger] new_groups[g],
                line + 1,
            ) by {
                if g < old_groups.len() {
                    assert(group_below(old_groups[g], bound));
                }
            }
            assert forall|g: int| 0 <= g < new_groups.len() implies group_in_order(
                #[trigger] new_groups[g],
            ) by {
                if g < old_groups.len() {
                    assert(group_in_order(old_groups[g]));
                }
            }
            assert forall|g: int, h: int| 0 <= g < h < new_groups.len() implies group_below(
                #[trigger] new_groups[g],
                (#[trigger] new_groups[h]).line_number as int,
            ) by {
                assert(group_below(old_groups[g], bound));
                if h < old_groups.len() {
                    assert(group_below(old_groups[g], old_groups[h].line_number as int));
                }
            }
        },
        RobotsEventView::Allow { line, value } => {
            lemma_rule_in_order(
                before,
                RuleView { rule_type: RobotsUserAgentRuleType::Allow, value, line_number: line },
                bound,
            );
        },
        RobotsEventView::Disallow { line, value } => {
            lemma_rule_in_order(
                before,
                RuleView { rule_type: RobotsUserAgentRuleType::Disallow, value, line_number: line },
                bound,
            );
        },
        RobotsEventView::Start => {
            assert(new_groups =~= old_groups);
        },
        RobotsEventView::End => {
            assert(new_groups =~= old_groups);
        },
        RobotsEventView::Sitemap { line, .. } => {
            assert(new_groups =~= old_groups);
            assert forall|g: int| 0 <= g < new_groups.len() implies group_below(
                #[trigger] new_groups[g],
                line + 1,
            ) by {
                assert(group_below(old_groups[g], bound));
            }
        },
        RobotsEventView::Unknown { line, .. } => {
            assert(new_groups =~= old_groups);
            assert forall|g: int| 0 <= g < new_groups.len() implies group_below(
                #[trigger] new_groups[g],
                line + 1,
            ) by {
                assert(group_below(old_groups[g], bound));
            }
        },
    }
}

/// A rule from a later line than all before keeps the groups and rules in
/// the order of their lines.
proof fn lemma_rule_in_order(before: InfoView, rule: RuleView, bound: int)
    requires
        in_source_order(before.all_groups()),
        groups_below(before.all_groups(), bound),
        bound <= rule.line_number,
    ensures
        in_source_order(before.add_rule(rule).all_groups()),
        groups_below(before.add_rule(rule).all_groups(), rule.line_number + 1),
{
    let old_groups = before.all_groups();
    let new_groups = before.add_rule(rule).all_groups();
    assert(new_groups.len() == old_groups.len());
    let last = old_groups.len() - 1;
    assert forall|g: int| 0 <= g < new_groups.len() implies {
        &&& group_below(#[trigger] new_groups[g], rule.line_number + 1)
        &&& group_in_order(new_groups[g])
        &&& new_groups[g].line_number == old_groups[g].line_number
        &&& g < last ==> new_groups[g] == old_groups[g]
    } by {
        assert(group_below(old_groups[g], bound));
        assert(group_in_order(old_groups[g]));
        if before.current_user_agent is Some && g == last {
            let old_rules = old_groups[g].rules;
            assert(new_groups[g].rules =~= old_rules.push(rule));
            assert forall|r: int, s: int| 0 <= r < s < new_groups[g].rules.len() implies (
            #[trigger] new_groups[g].rules[r]).line_number < (
            #[trigger] new_groups[g].rules[s]).line_number by {
                if s < old_rules.len() {
                    assert(old_rules[r].line_number < old_rules[s].line_number);
                } else {
                    assert(old_rules[r].line_number < bound);
                }
            }
        } else {
            assert(new_groups[g] == old_groups[g]);
        }
    }
    assert forall|g: int, h: int| 0 <= g < h < new_groups.len() implies group_below(
        #[trigger] new_groups[g],
        (#[trigger] new_groups[h]).line_number as int,
    ) by {
        assert(group_below(old_groups[g], old_groups[h].line_number as int));
        assert(new_groups[g] == old_groups[g]);
        assert(new_groups[h].line_number == old_groups[h].line_number);
    }
}

/// Events from rising lines give a document whose groups, and the rules of
/// each group, follow one another as their lines do.
pub proof fn lemma_document_in_source_order(events: Seq<RobotsEventView>)
    requires
        lines_rise(events),
    ensures
        in_source_order(document_of(events).all_groups()),
        groups_below(document_of(events).all_groups(), line_bound(events)),
    decreases events.len(),
{
    if events.len() == 0 {
        assert(document_of(events).all_groups() =~= Seq::empty());
    } else {
        let before = events.drop_last();
        assert(lines_rise(before)) by {
            assert forall|i: int| 0 <= i < before.len() implies before[i] == events[i] by {}
        }
        lemma_document_in_source_order(before);
        if events.last().line() is Some {
            lemma_last_line(events);
        }
        lemma_step_in_order(document_of(before), events.last(), line_bound(before));
        let groups = document_of(events).all_groups();
        let bound = line_bound(events);
        assert forall|g: int| 0 <= g < groups.len() implies group_below(
            #[trigger] groups[g],
            bound,
        ) by {
            match events.last().line() {
                Some(line) => {
                    assert(group_below(groups[g], line + 1));
                },
                None => {
                    assert(group_below(groups[g], line_bound(before)));
                },
            }
        }
    }
}

/// Parsing is a function of the text: two documents parsed from the same
/// text have the same groups, with the same names, lines and rules.
pub proof fn lemma_parse_twice(first: RobotsInfo, second: RobotsInfo, text: Seq<char>)
    requires
        first@ == document_of(robots_events(text)),
        second@ == document_of(robots_events(text)),
    ensures
        first@ == second@,
        first.user_agents@.len() == second.user_agents@.len(),
        forall|i: int|
            0 <= i < first.user_agents@.len() ==> {
                &&& (#[trigger] first.user_agents@[i]).name@ == second.user_agents@[i].name@
                &&& first.user_agents@[i].line_number == second.user_agents@[i].line_number
                &&& rules_view(first.user_agents@[i].rules@) == rules_view(
                    second.user_agents@[i].rules@,
                )
            },
{
    let groups = first@.user_agents;
    assert(groups == groups_view(first.user_agents@));
    assert(groups == groups_view(second.user_agents@));
    assert(groups.len() == first.user_agents@.len());
    assert(groups.len() == second.user_agents@.len());
    assert forall|i: int| 0 <= i < first.user_agents@.len() implies {
        &&& (#[trigger] first.user_agents@[i]).name@ == second.user_agents@[i].name@
        &&& first.user_agents@[i].line_number == second.user_agents@[i].line_number
        &&& rules_view(first.user_agents@[i].rules@) == rules_view(
            second.user_agents@[i].rules@,
        )
    } by {
        assert(groups[i] == first.user_agents@[i]@);
        assert(groups[i] == second.user_agents@[i]@);
    }
}

/// Parses a robots.txt text into its document: the groups in the order of
/// the text, each with its rules in the order of the text; nothing is left
/// open.
pub fn parse(source: &str) -> (info: RobotsInfo)
    requires
        parser_accepts(source@),
    ensures
        info@ == document_of(robots_events(source@)),
        info@.current_user_agent is None,
        in_source_order(info@.user_agents),
{
    let events = report_events(source);
    proof {
        lemma_document_in_source_order(events_view(events@));
    }
    RobotsInfo::from_events(&events)
}

} // verus!

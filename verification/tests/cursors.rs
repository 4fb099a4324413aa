use sqlite_robotstxt::events::RobotsEvent;
use sqlite_robotstxt::robotstxt_rules::{self, RulesCursor, RulesTable};
use sqlite_robotstxt::robotstxt_user_agents::{self, UserAgentsCursor, UserAgentsTable};
use sqlite_robotstxt::text::UnsupportedText;
use sqlite_robotstxt::utils::{parse, RobotsInfo};
use sqlite_robotstxt::value::ColumnValue;

fn text(value: &str) -> ColumnValue {
    ColumnValue::Text(value.to_owned())
}

fn rule_rows(cursor: &mut RulesCursor) -> Vec<(i64, Vec<ColumnValue>)> {
    let mut rows = Vec::new();
    while !cursor.eof() {
        let values = (0..5).map(|i| cursor.column(i)).collect();
        rows.push((cursor.rowid(), values));
        cursor.next();
    }
    rows
}

fn agent_rows(cursor: &mut UserAgentsCursor) -> Vec<(i64, Vec<ColumnValue>)> {
    let mut rows = Vec::new();
    while !cursor.eof() {
        let values = (0..4).map(|i| cursor.column(i)).collect();
        rows.push((cursor.rowid(), values));
        cursor.next();
    }
    rows
}

fn rule_row(agent: &str, line: i64, kind: &str, path: &str) -> Vec<ColumnValue> {
    vec![text(agent), ColumnValue::Integer(line), text(kind), text(path), ColumnValue::Null]
}

fn agent_row(name: &str, line: i64) -> Vec<ColumnValue> {
    vec![text(name), ColumnValue::Integer(line), ColumnValue::Null, ColumnValue::Null]
}

#[test]
fn rules_cursor_skips_groups_without_rules() {
    let events = vec![
        RobotsEvent::Start,
        RobotsEvent::UserAgent { line: 1, name: "A".to_owned() },
        RobotsEvent::UserAgent { line: 2, name: "B".to_owned() },
        RobotsEvent::Allow { line: 3, value: "/x".to_owned() },
        RobotsEvent::UserAgent { line: 4, name: "C".to_owned() },
        RobotsEvent::UserAgent { line: 5, name: "D".to_owned() },
        RobotsEvent::Disallow { line: 6, value: "/y".to_owned() },
        RobotsEvent::Allow { line: 7, value: "/z".to_owned() },
        RobotsEvent::End,
    ];
    let mut cursor = RulesCursor::new();
    cursor.load(RobotsInfo::from_events(&events));
    assert_eq!(
        rule_rows(&mut cursor),
        vec![
            (0, rule_row("B", 3, "allow", "/x")),
            (1, rule_row("D", 6, "disallow", "/y")),
            (2, rule_row("D", 7, "allow", "/z")),
        ]
    );
    assert!(cursor.eof());
    assert_eq!(cursor.rowid(), 3);
}

#[test]
fn rules_cursor_skips_groups_without_rules_in_a_text() {
    let mut cursor = RulesTable::connect().1.open();
    let done = cursor
        .filter("User-agent: A\nUser-agent: B\nAllow: /x\nUser-agent: C\nUser-agent: D\nDisallow: /y\nAllow: /z\nUser-agent: E\n");
    assert_eq!(done, Ok(()));
    assert_eq!(
        rule_rows(&mut cursor),
        vec![
            (0, rule_row("B", 3, "allow", "/x")),
            (1, rule_row("D", 6, "disallow", "/y")),
            (2, rule_row("D", 7, "allow", "/z")),
        ]
    );
}

#[test]
fn both_tables_over_one_text() {
    let source = "User-agent: bot\nAllow: /a\nDisallow: /b\nUser-agent: other\n";
    let mut agents = UserAgentsTable::connect().1.open();
    assert_eq!(agents.filter(source), Ok(()));
    assert_eq!(
        agent_rows(&mut agents),
        vec![(0, agent_row("bot", 1)), (1, agent_row("other", 4))]
    );
    let mut rules = RulesCursor::new();
    assert_eq!(rules.filter(source), Ok(()));
    assert_eq!(
        rule_rows(&mut rules),
        vec![
            (0, rule_row("bot", 2, "allow", "/a")),
            (1, rule_row("bot", 3, "disallow", "/b")),
        ]
    );
}

#[test]
fn rules_cursor_yields_one_row_for_each_rule() {
    let source = "User-agent: a\nAllow: /1\nAllow: /2\nUser-agent: b\nUser-agent: c\nDisallow: /3\nUser-agent: d\nAllow: /4\nDisallow: /5\nAllow: /6\n";
    let info = parse(source);
    let rules: usize = info.user_agents.iter().map(|group| group.rules.len()).sum();
    assert_eq!(rules, 6);
    let mut cursor = RulesCursor::new();
    cursor.load(info.clone());
    let rows = rule_rows(&mut cursor);
    assert_eq!(rows.len(), rules);
    let mut expected = Vec::new();
    for group in &info.user_agents {
        for rule in &group.rules {
            expected.push(rule.value.clone());
        }
    }
    for (at, (rowid, values)) in rows.iter().enumerate() {
        assert_eq!(*rowid, at as i64);
        assert_eq!(values[3], ColumnValue::Text(expected[at].clone()));
    }
    assert_eq!(expected, vec!["/1", "/2", "/3", "/4", "/5", "/6"]);
}

#[test]
fn cursors_over_texts_without_rows_start_at_the_end() {
    let mut rules = RulesCursor::new();
    assert_eq!(rules.filter(""), Ok(()));
    assert!(rules.eof());
    assert_eq!(rules.filter("User-agent: a\nUser-agent: b\n"), Ok(()));
    assert!(rules.eof());
    assert_eq!(rules.rowid(), 0);
    rules.next();
    assert!(rules.eof());
    assert_eq!(rules.rowid(), 1);

    let mut agents = UserAgentsCursor::new();
    assert_eq!(agents.filter("Disallow: /\n"), Ok(()));
    assert!(agents.eof());
    agents.next();
    assert!(agents.eof());
    assert_eq!(agents.rowid(), 1);
}

#[test]
fn filter_starts_over() {
    let mut rules = RulesCursor::new();
    assert_eq!(rules.filter("User-agent: a\nAllow: /1\nAllow: /2\n"), Ok(()));
    rules.next();
    assert_eq!(rules.rowid(), 1);
    assert_eq!(rules.filter("User-agent: b\nDisallow: /3\n"), Ok(()));
    assert_eq!(rule_rows(&mut rules), vec![(0, rule_row("b", 2, "disallow", "/3"))]);

    let mut agents = UserAgentsCursor::new();
    assert_eq!(agents.filter("User-agent: a\nUser-agent: b\n"), Ok(()));
    agents.next();
    assert_eq!(agents.filter("User-agent: c\n"), Ok(()));
    assert_eq!(agent_rows(&mut agents), vec![(0, agent_row("c", 1))]);
}

#[test]
fn filter_refuses_a_text_that_the_parser_cannot_take() {
    let broken = format!("User-agent: z\nAllow: /{}\u{20ac}\nAllow: /q\n", "x".repeat(17000));
    let mut rules = RulesCursor::new();
    assert_eq!(rules.filter("User-agent: a\nAllow: /1\nAllow: /2\n"), Ok(()));
    rules.next();
    assert_eq!(rules.filter(&broken), Err(UnsupportedText {}));
    assert_eq!(rules.rowid(), 1);
    assert_eq!(rule_rows(&mut rules), vec![(1, rule_row("a", 3, "allow", "/2"))]);

    let mut agents = UserAgentsCursor::new();
    assert_eq!(agents.filter("User-agent: a\n"), Ok(()));
    assert_eq!(agents.filter(&broken), Err(UnsupportedText {}));
    assert_eq!(agent_rows(&mut agents), vec![(0, agent_row("a", 1))]);
}

#[test]
fn columns_by_number() {
    assert_eq!(robotstxt_rules::column(0), Some(robotstxt_rules::Columns::UserAgent));
    assert_eq!(robotstxt_rules::column(1), Some(robotstxt_rules::Columns::Source));
    assert_eq!(robotstxt_rules::column(2), Some(robotstxt_rules::Columns::RuleType));
    assert_eq!(robotstxt_rules::column(3), Some(robotstxt_rules::Columns::Path));
    assert_eq!(robotstxt_rules::column(4), Some(robotstxt_rules::Columns::Robotstxt));
    assert_eq!(robotstxt_rules::column(5), None);
    assert_eq!(robotstxt_rules::column(-1), None);
    assert_eq!(robotstxt_user_agents::column(0), Some(robotstxt_user_agents::Columns::Name));
    assert_eq!(robotstxt_user_agents::column(1), Some(robotstxt_user_agents::Columns::Source));
    assert_eq!(robotstxt_user_agents::column(2), Some(robotstxt_user_agents::Columns::Rules));
    assert_eq!(
        robotstxt_user_agents::column(3),
        Some(robotstxt_user_agents::Columns::Robotstxt)
    );
    assert_eq!(robotstxt_user_agents::column(4), None);
    assert_eq!(robotstxt_user_agents::column(i32::MIN), None);
}

#[test]
fn a_column_that_the_table_does_not_have_holds_nothing() {
    let mut rules = RulesCursor::new();
    assert_eq!(rules.filter("User-agent: a\nAllow: /1\n"), Ok(()));
    assert_eq!(rules.column(5), ColumnValue::Null);
    assert_eq!(rules.column(-3), ColumnValue::Null);
    let mut agents = UserAgentsCursor::new();
    assert_eq!(agents.filter("User-agent: a\nAllow: /1\n"), Ok(()));
    assert_eq!(agents.column(2), ColumnValue::Null);
    assert_eq!(agents.column(77), ColumnValue::Null);
}

#[test]
fn tables_declare_their_columns() {
    assert_eq!(
        RulesTable::connect().0,
        "CREATE TABLE x(user_agent text, source int, rule_type text, path text, robotstxt hidden)"
    );
    assert_eq!(
        UserAgentsTable::connect().0,
        "CREATE TABLE x(name text, source int, rules, robotstxt hidden)"
    );
    RulesTable::connect().1.destroy();
    UserAgentsTable::connect().1.destroy();
}

#[test]
fn a_fresh_cursor_has_moved_past_no_row() {
    assert_eq!(RulesCursor::new().rowid(), 0);
    assert_eq!(RulesTable::connect().1.open().rowid(), 0);
    assert_eq!(UserAgentsCursor::new().rowid(), 0);
    assert_eq!(UserAgentsTable::connect().1.open().rowid(), 0);
}

#[test]
fn filter_takes_an_over_long_last_line_with_wide_characters() {
    let one_line = format!("{}\u{e9}", "x".repeat(16663));
    let mut rules = RulesCursor::new();
    assert_eq!(rules.filter(&one_line), Ok(()));
    assert!(rules.eof());
    let mut agents = UserAgentsCursor::new();
    assert_eq!(agents.filter(&one_line), Ok(()));
    assert!(agents.eof());

    let minified = format!("User-agent: a\nDisallow: /{}\u{20ac}", "z".repeat(30000));
    assert_eq!(agents.filter(&minified), Ok(()));
    assert_eq!(agent_rows(&mut agents), vec![(0, agent_row("a", 1))]);
    assert_eq!(rules.filter(&minified), Ok(()));
    let rows = rule_rows(&mut rules);
    assert_eq!(rows.len(), 1);
    assert_eq!(rows[0].1[0], text("a"));
    assert_eq!(rows[0].1[1], ColumnValue::Integer(2));
    assert_eq!(rows[0].1[2], text("disallow"));
}

#[test]
fn rows_come_in_the_order_of_their_lines() {
    let source = "Sitemap: /s\nUser-agent: a\n\nAllow: /1\r\nUser-agent: b\rUser-agent: c\nDisallow: /2\n# note\nAllow: /3\nUser-agent: d\nAllow: /4";
    let mut agents = UserAgentsCursor::new();
    assert_eq!(agents.filter(source), Ok(()));
    let lines: Vec<ColumnValue> =
        agent_rows(&mut agents).into_iter().map(|(_, values)| values[1].clone()).collect();
    assert_eq!(
        lines,
        vec![
            ColumnValue::Integer(2),
            ColumnValue::Integer(5),
            ColumnValue::Integer(6),
            ColumnValue::Integer(10),
        ]
    );
    let mut rules = RulesCursor::new();
    assert_eq!(rules.filter(source), Ok(()));
    let lines: Vec<ColumnValue> =
        rule_rows(&mut rules).into_iter().map(|(_, values)| values[1].clone()).collect();
    assert_eq!(
        lines,
        vec![
            ColumnValue::Integer(4),
            ColumnValue::Integer(7),
            ColumnValue::Integer(9),
            ColumnValue::Integer(11),
        ]
    );
}

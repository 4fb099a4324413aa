use sqlite_robotstxt::plan::{
    negotiate, BestIndexError, Constraint, ConstraintOperator, ConstraintUsage,
};
use sqlite_robotstxt::robotstxt_rules::RulesTable;
use sqlite_robotstxt::robotstxt_user_agents::UserAgentsTable;
use sqlite_robotstxt::text::UnsupportedText;
use sqlite_robotstxt::{robotstxt_debug, robotstxt_matches, robotstxt_version};

fn on(column: i32, usable: bool, op: Option<ConstraintOperator>) -> Constraint {
    Constraint { column, usable, op }
}

#[test]
fn version_has_the_letter_v_in_front() {
    assert_eq!(robotstxt_version("0.1.0"), "v0.1.0");
    assert_eq!(robotstxt_version(""), "v");
}

#[test]
fn debug_gives_two_lines() {
    assert_eq!(robotstxt_debug("0.1.0", "abc123"), "Version: v0.1.0\nSource: abc123\n");
}

#[test]
fn matches_gives_the_answer_of_the_matcher() {
    let robots = "User-agent: *\nDisallow: /private";
    assert_eq!(robotstxt_matches(robots, "anyagent", "http://x/private"), Ok(false));
    assert_eq!(robotstxt_matches(robots, "anyagent", "http://x/public"), Ok(true));
}

#[test]
fn matches_goes_by_the_longest_pattern_and_the_closest_group() {
    let robots = "User-agent: *\nDisallow: /\n\nUser-agent: FooBot\nAllow: /\nDisallow: /cgi-bin\n";
    assert_eq!(robotstxt_matches(robots, "FooBot", "https://e.com/index"), Ok(true));
    assert_eq!(robotstxt_matches(robots, "FooBot", "https://e.com/cgi-bin/x"), Ok(false));
    assert_eq!(robotstxt_matches(robots, "BarBot", "https://e.com/index"), Ok(false));
    assert_eq!(robotstxt_matches("", "BarBot", "https://e.com/index"), Ok(true));
}

#[test]
fn matches_refuses_a_text_that_the_parser_cannot_take() {
    let broken = format!("User-agent: *\nDisallow: /{}\u{20ac}\nAllow: /q\n", "x".repeat(17000));
    assert_eq!(robotstxt_matches(&broken, "a", "http://x/"), Err(UnsupportedText {}));
}

#[test]
fn a_plan_needs_an_equality_on_the_text() {
    let rules = RulesTable::connect().1;
    let agents = UserAgentsTable::connect().1;
    assert_eq!(rules.best_index(&vec![]), Err(BestIndexError::Error));
    assert_eq!(agents.best_index(&vec![]), Err(BestIndexError::Error));
    let elsewhere = vec![on(0, true, Some(ConstraintOperator::EQ))];
    assert_eq!(rules.best_index(&elsewhere), Err(BestIndexError::Error));
    assert_eq!(agents.best_index(&elsewhere), Err(BestIndexError::Error));
    assert_eq!(
        rules.best_index(&vec![on(3, true, Some(ConstraintOperator::EQ))]),
        Err(BestIndexError::Error)
    );
    assert_eq!(
        agents.best_index(&vec![on(4, true, Some(ConstraintOperator::EQ))]),
        Err(BestIndexError::Error)
    );
}

#[test]
fn a_plan_takes_no_other_constraint_on_the_text() {
    let rules = RulesTable::connect().1;
    let agents = UserAgentsTable::connect().1;
    for op in [
        Some(ConstraintOperator::GT),
        Some(ConstraintOperator::LIKE),
        Some(ConstraintOperator::IS),
        Some(ConstraintOperator::FUNCTION(150)),
        None,
    ] {
        assert_eq!(rules.best_index(&vec![on(4, true, op)]), Err(BestIndexError::Constraint));
        assert_eq!(agents.best_index(&vec![on(3, true, op)]), Err(BestIndexError::Constraint));
    }
    let unusable = on(4, false, Some(ConstraintOperator::EQ));
    assert_eq!(rules.best_index(&vec![unusable]), Err(BestIndexError::Constraint));
    let good = on(4, true, Some(ConstraintOperator::EQ));
    assert_eq!(rules.best_index(&vec![good, unusable]), Err(BestIndexError::Constraint));
    assert_eq!(rules.best_index(&vec![unusable, good]), Err(BestIndexError::Constraint));
}

#[test]
fn a_plan_hands_the_text_to_the_cursor() {
    let rules = RulesTable::connect().1;
    let plan = rules
        .best_index(&vec![
            on(0, true, Some(ConstraintOperator::EQ)),
            on(4, true, Some(ConstraintOperator::EQ)),
            on(1, false, Some(ConstraintOperator::GT)),
        ])
        .unwrap();
    assert_eq!(
        plan.usage,
        vec![
            ConstraintUsage { argv_index: 0, omit: false },
            ConstraintUsage { argv_index: 1, omit: true },
            ConstraintUsage { argv_index: 0, omit: false },
        ]
    );
    assert_eq!(plan.estimated_cost, 100000);
    assert_eq!(plan.estimated_rows, 100000);
    assert_eq!(plan.idx_num, 1);

    let agents = UserAgentsTable::connect().1;
    let plan = agents.best_index(&vec![on(3, true, Some(ConstraintOperator::EQ))]).unwrap();
    assert_eq!(plan.usage, vec![ConstraintUsage { argv_index: 1, omit: true }]);
    assert_eq!(plan.estimated_cost, 100000);
    assert_eq!(plan.estimated_rows, 100000);
    assert_eq!(plan.idx_num, 1);

    let plan = negotiate(&vec![on(9, true, Some(ConstraintOperator::EQ))], 9).unwrap();
    assert_eq!(plan.usage, vec![ConstraintUsage { argv_index: 1, omit: true }]);
}

#[test]
fn matches_takes_an_over_long_last_line_with_wide_characters() {
    let one_line = format!("{}\u{e9}", "x".repeat(16663));
    assert_eq!(robotstxt_matches(&one_line, "a", "http://x/"), Ok(true));
    let minified = format!("User-agent: *\nDisallow: /p{}\u{20ac}", "z".repeat(30000));
    assert_eq!(robotstxt_matches(&minified, "a", "http://x/q"), Ok(true));
    let rule_first = format!("User-agent: *\nDisallow: /p\nAllow: /{}\u{20ac}", "z".repeat(30000));
    assert_eq!(robotstxt_matches(&rule_first, "a", "http://x/p/1"), Ok(false));
}

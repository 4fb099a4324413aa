//! robots.txt for SQL: whether a robots.txt text lets a user agent fetch a
//! URL, and the groups and rules of such a text as the rows of two tables.

pub mod events;
pub mod plan;
pub mod robotstxt_rules;
pub mod robotstxt_user_agents;
pub mod rows;
pub mod text;
pub mod utils;
pub mod value;

use crate::text::{accepts, parser_accepts, UnsupportedText};
use vstd::prelude::*;
use vstd::string::*;

verus! {

/// The version of the library as the SQL function of that name gives it:
/// the letter `v` before the number of the version.
pub fn robotstxt_version(version: &str) -> (text: String)
    ensures
        text@ == "v"@ + version@,
{
    let mut text = "v".to_owned();
    text.append(version);
    text
}

/// Two lines that say which build this is: its version and where its source
/// comes from.
pub fn robotstxt_debug(version: &str, source: &str) -> (text: String)
    ensures
        text@ == "Version: v"@ + version@ + "\nSource: "@ + source@ + "\n"@,
{
    let mut text = "Version: v".to_owned();
    text.append(version);
    text.append("\nSource: ");
    text.append(source);
    text.append("\n");
    text
}

/// Whether `robotstxt::DefaultMatcher` lets the user agent fetch the URL
/// under the robots.txt text.
pub uninterp spec fn robots_allows(robotstxt: Seq<char>, useragent: Seq<char>, url: Seq<char>) -> bool;

/// Asks a fresh `robotstxt::DefaultMatcher` whether one user agent may fetch
/// a URL, through its method `one_agent_allowed_by_robots`.
///
/// Believed, not proved: the matcher answers the same for the same three
/// texts, and, since it reads the robots.txt text with the same parser, it
/// takes every such text that [`parser_accepts`] admits without a panic.
#[verifier::external_body]
fn one_agent_allowed(robotstxt: &str, useragent: &str, url: &str) -> (allowed: bool)
    requires
        parser_accepts(robotstxt@),
    ensures
        allowed == robots_allows(robotstxt@, useragent@, url@),
{
    let mut matcher = robotstxt::DefaultMatcher::default();
    matcher.one_agent_allowed_by_robots(robotstxt, useragent, url)
}

/// Whether the robots.txt text lets the user agent fetch the URL: the answer
/// of the matcher, as it is. A text that the parser cannot take is refused.
pub fn robotstxt_matches(robotstxt: &str, useragent: &str, url: &str) -> (allowed: Result<
    bool,
    UnsupportedText,
>)
    ensures
        parser_accepts(robotstxt@) ==> allowed == Ok::<bool, UnsupportedText>(
            robots_allows(robotstxt@, useragent@, url@),
        ),
        !parser_accepts(robotstxt@) ==> allowed is Err,
{
    if !accepts(robotstxt) {
        return Err(UnsupportedText {  });
    }
    Ok(one_agent_allowed(robotstxt, useragent, url))
}

} // verus!

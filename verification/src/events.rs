//! The directives of a robots.txt text as a stream of events, and the
//! line-oriented parser of the `robotstxt` crate as their source.

use crate::text::parser_accepts;
use vstd::prelude::*;

verus! {

/// What the line-oriented parser reports, in the order of the text.
#[derive(Debug, Clone, PartialEq, Eq)]
pub enum RobotsEvent {
    /// Reported once, before anything else.
    Start,
    /// Reported once, after everything else.
    End,
    UserAgent { line: u32, name: String },
    Allow { line: u32, value: String },
    Disallow { line: u32, value: String },
    Sitemap { line: u32, value: String },
    /// A key/value line whose key is none of the above.
    Unknown { line: u32, action: String, value: String },
}

/// Mathematical value of a [`RobotsEvent`].
pub enum RobotsEventView {
    Start,
    End,
    UserAgent { line: u32, name: Seq<char> },
    Allow { line: u32, value: Seq<char> },
    Disallow { line: u32, value: Seq<char> },
    Sitemap { line: u32, value: Seq<char> },
    Unknown { line: u32, action: Seq<char>, value: Seq<char> },
}

impl View for RobotsEvent {
    type V = RobotsEventView;

    open spec fn view(&self) -> RobotsEventView {
        match *self {
            RobotsEvent::Start => RobotsEventView::Start,
            RobotsEvent::End => RobotsEventView::End,
            RobotsEvent::UserAgent { line, name } => RobotsEventView::UserAgent {
                line,
                name: name@,
            },
            RobotsEvent::Allow { line, value } => RobotsEventView::Allow { line, value: value@ },
            RobotsEvent::Disallow { line, value } => RobotsEventView::Disallow {
                line,
                value: value@,
            },
            RobotsEvent::Sitemap { line, value } => RobotsEventView::Sitemap {
                line,
                value: value@,
            },
            RobotsEvent::Unknown { line, action, value } => RobotsEventView::Unknown {
                line,
                action: action@,
                value: value@,
            },
        }
    }
}

impl RobotsEventView {
    /// The number of the line that the event comes from, where it comes from
    /// a line.
    pub open spec fn line(self) -> Option<u32> {
        match self {
            RobotsEventView::Start => None,
            RobotsEventView::End => None,
            RobotsEventView::UserAgent { line, .. } => Some(line),
            RobotsEventView::Allow { line, .. } => Some(line),
            RobotsEventView::Disallow { line, .. } => Some(line),
            RobotsEventView::Sitemap { line, .. } => Some(line),
            RobotsEventView::Unknown { line, .. } => Some(line),
        }
    }
}

/// Whether the events come from lines that are counted from one and rise
/// from each event to the next.
pub open spec fn lines_rise(events: Seq<RobotsEventView>) -> bool {
    &&& forall|i: int|
        0 <= i < events.len() && (#[trigger] events[i]).line() is Some ==> events[i].line().unwrap()
            >= 1
    &&& forall|i: int, j: int|
        0 <= i < j < events.len() && (#[trigger] events[i]).line() is Some && (
        #[trigger] events[j]).line() is Some ==> events[i].line().unwrap()
            < events[j].line().unwrap()
}

/// The values of a sequence of events, element by element.
pub open spec fn events_view(events: Seq<RobotsEvent>) -> Seq<RobotsEventView> {
    Seq::new(events.len(), |i: int| events[i]@)
}

/// Records every report of the parser, one event for each, in order.
pub struct EventLog {
    pub events: Vec<RobotsEvent>,
}

impl EventLog {
    pub fn new() -> (log: EventLog)
        ensures
            log.events@ == Seq::<RobotsEvent>::empty(),
    {
        EventLog { events: Vec::new() }
    }

    fn record(&mut self, event: RobotsEvent)
        ensures
            final(self).events@ == old(self).events@.push(event),
            events_view(final(self).events@) == events_view(old(self).events@).push(event@),
    {
        self.events.push(event);
        assert(events_view(self.events@) =~= events_view(old(self).events@).push(event@));
    }
}

impl robotstxt::RobotsParseHandler for EventLog {
    fn handle_robots_start(&mut self)
        ensures
            events_view(final(self).events@) == events_view(old(self).events@).push(
                RobotsEventView::Start,
            ),
    {
        self.record(RobotsEvent::Start);
    }

    fn handle_robots_end(&mut self)
        ensures
            events_view(final(self).events@) == events_view(old(self).events@).push(
                RobotsEventView::End,
            ),
    {
        self.record(RobotsEvent::End);
    }

    fn handle_user_agent(&mut self, line_num: u32, user_agent: &str)
        ensures
            events_view(final(self).events@) == events_view(old(self).events@).push(
                RobotsEventView::UserAgent { line: line_num, name: user_agent@ },
            ),
    {
        self.record(RobotsEvent::UserAgent { line: line_num, name: user_agent.to_owned() });
    }

    fn handle_allow(&mut self, line_num: u32, value: &str)
        ensures
            events_view(final(self).events@) == events_view(old(self).events@).push(
                RobotsEventView::Allow { line: line_num, value: value@ },
            ),
    {
        self.record(RobotsEvent::Allow { line: line_num, value: value.to_owned() });
    }

    fn handle_disallow(&mut self, line_num: u32, value: &str)
        ensures
            events_view(final(self).events@) == events_view(old(self).events@).push(
                RobotsEventView::Disallow { line: line_num, value: value@ },
            ),
    {
        self.record(RobotsEvent::Disallow { line: line_num, value: value.to_owned() });
    }

    fn handle_sitemap(&mut self, line_num: u32, value: &str)
        ensures
            events_view(final(self).events@) == events_view(old(self).events@).push(
                RobotsEventView::Sitemap { line: line_num, value: value@ },
            ),
    {
        self.record(RobotsEvent::Sitemap { line: line_num, value: value.to_owned() });
    }

    fn handle_unknown_action(&mut self, line_num: u32, action: &str, value: &str)
        ensures
            events_view(final(self).events@) == events_view(old(self).events@).push(
                RobotsEventView::Unknown { line: line_num, action: action@, value: value@ },
            ),
    {
        self.record(
            RobotsEvent::Unknown {
                line: line_num,
                action: action.to_owned(),
                value: value.to_owned(),
            },
        );
    }
}

/// The events that `robotstxt::parse_robotstxt` reports for `text`, in the
/// order in which it reports them.
pub uninterp spec fn robots_events(text: Seq<char>) -> Seq<RobotsEventView>;

/// Runs `robotstxt::parse_robotstxt` on `text` with an [`EventLog`] as its
/// handler and hands back what the log then holds.
///
/// Believed, not proved: the parser reports the same events for the same
/// text; the report of the end of the text is the last one; it reports at
/// most one event for a line, in the order of the lines, which it counts
/// from one; and it takes
/// without a panic every text that [`parser_accepts`] admits, which are
/// those on which each line that it cuts out lies between two boundaries of
/// characters.
#[verifier::external_body]
pub(crate) fn report_events(text: &str) -> (events: Vec<RobotsEvent>)
    requires
        parser_accepts(text@),
    ensures
        events_view(events@) == robots_events(text@),
        events@.len() > 0,
        events@.last()@ == RobotsEventView::End,
        lines_rise(events_view(events@)),
{
    let mut log = EventLog { events: Vec::new() };
    robotstxt::parse_robotstxt(text, &mut log);
    log.events
}

} // verus!

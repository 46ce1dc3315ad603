//! The terminal report of a classified result, as lines of coloured spans.
//!
//! The report is laid out here; writing it to a terminal and turning a
//! section into JSON is left to the caller.

use vstd::prelude::*;
use vstd::string::*;

use crate::groups::{payload_views, RootGroups, RootGroupsView, SuccessPayload, SuccessPayloadView};
use crate::processor::{
    failure_views, DisplayableResult, DisplayableResultView, FailurePayload, FailurePayloadView,
};

verus! {

/// The colour of a span.
#[derive(Copy, Clone, PartialEq, Eq, Structural, Debug)]
pub enum Colour {
    Plain,
    Blue,
    Green,
    Yellow,
    Red,
}

/// A part of the result that the verbose report shows in full.
#[derive(Copy, Clone, PartialEq, Eq, Structural, Debug)]
pub enum Section {
    Canonical,
    NonCanonical,
    Failure,
}

/// What a span shows: a text, or a section of the result as pretty JSON.
#[derive(Debug)]
pub enum Content {
    Text(String),
    Details(Section),
}

/// The mathematical value of a [`Content`].
pub enum ContentView {
    Text(Seq<char>),
    Details(Section),
}

impl View for Content {
    type V = ContentView;

    open spec fn view(&self) -> ContentView {
        match self {
            Content::Text(t) => ContentView::Text(t@),
            Content::Details(s) => ContentView::Details(*s),
        }
    }
}

/// A stretch of a line in one colour and weight.
#[derive(Debug)]
pub struct Span {
    pub content: Content,
    pub colour: Colour,
    pub bold: bool,
}

/// The mathematical value of a [`Span`].
pub struct SpanView {
    pub content: ContentView,
    pub colour: Colour,
    pub bold: bool,
}

impl View for Span {
    type V = SpanView;

    open spec fn view(&self) -> SpanView {
        SpanView { content: self.content@, colour: self.colour, bold: self.bold }
    }
}

/// The value of a line: the values of its spans.
pub open spec fn line_view(spans: Vec<Span>) -> Seq<SpanView> {
    spans@.map_values(|s: Span| s@)
}

/// The value of a report: the values of its lines.
pub open spec fn report_view(lines: Seq<Vec<Span>>) -> Seq<Seq<SpanView>> {
    lines.map_values(|l: Vec<Span>| line_view(l))
}

/// A span of text.
pub open spec fn text_span(text: Seq<char>, colour: Colour, bold: bool) -> SpanView {
    SpanView { content: ContentView::Text(text), colour, bold }
}

/// The line of a section's heading with what follows it on the next line.
pub open spec fn titled_line(title: Seq<char>, colour: Colour, body: SpanView) -> Seq<SpanView> {
    seq![text_span(title, colour, false), text_span(":\n \t"@, Colour::Plain, false), body]
}

/// The line that shows a section of the result in full.
pub open spec fn details_line(section: Section, title: Colour, body: Colour) -> Seq<SpanView> {
    titled_line(
        "Details"@,
        title,
        SpanView { content: ContentView::Details(section), colour: body, bold: false },
    )
}

/// The line of a label followed by a value in colour.
pub open spec fn labelled_line(label: Seq<char>, value: Seq<char>, colour: Colour) -> Seq<
    SpanView,
> {
    seq![text_span(label, Colour::Plain, false), text_span(value, colour, false)]
}

/// What stands for the canonical root where the canonical grouping is empty.
pub open spec fn no_block_root() -> Seq<char> {
    "block root not found"@
}

/// The lines of a canonical grouping: its first root, and in the verbose
/// report the grouping in full.
pub open spec fn canonical_lines(c: RootGroupsView, verbose: bool) -> Seq<Seq<SpanView>> {
    let root = if c.order.len() > 0 {
        c.order[0]
    } else {
        no_block_root()
    };
    let head = seq![titled_line("Block root"@, Colour::Blue, text_span(root, Colour::Green, true))];
    if verbose {
        head.push(details_line(Section::Canonical, Colour::Blue, Colour::Green))
    } else {
        head
    }
}

/// One line for the endpoint of each answer.
pub open spec fn endpoint_lines(members: Seq<SuccessPayloadView>) -> Seq<Seq<SpanView>>
    decreases members.len(),
{
    if members.len() == 0 {
        Seq::empty()
    } else {
        endpoint_lines(members.drop_last()).push(
            labelled_line("\t\t "@, members.last().endpoint, Colour::Yellow),
        )
    }
}

/// For each root of `order` a line for the root, then a line for each
/// endpoint that reported it.
pub open spec fn checkpoint_lines(
    order: Seq<Seq<char>>,
    groups: Map<Seq<char>, Seq<SuccessPayloadView>>,
) -> Seq<Seq<SpanView>>
    decreases order.len(),
{
    if order.len() == 0 {
        Seq::empty()
    } else {
        checkpoint_lines(order.drop_last(), groups).push(
            labelled_line("\t Checkpoint: "@, order.last(), Colour::Yellow),
        ) + endpoint_lines(groups[order.last()])
    }
}

/// The lines of a conflicting grouping: the heading, and then the
/// grouping in full in the verbose report, root by root otherwise.
pub open spec fn conflicting_lines(c: RootGroupsView, verbose: bool) -> Seq<Seq<SpanView>> {
    let head = seq![seq![text_span("Conflicting:"@, Colour::Yellow, true)]];
    if verbose {
        head.push(details_line(Section::NonCanonical, Colour::Yellow, Colour::Yellow))
    } else {
        head + checkpoint_lines(c.order, c.groups)
    }
}

/// Two lines for each failure: its endpoint and its error.
pub open spec fn failure_lines(failure: Seq<FailurePayloadView>) -> Seq<Seq<SpanView>>
    decreases failure.len(),
{
    if failure.len() == 0 {
        Seq::empty()
    } else {
        failure_lines(failure.drop_last()).push(
            labelled_line("\t Endpoint: "@, failure.last().endpoint, Colour::Red),
        ).push(labelled_line("\t Error: "@, failure.last().payload.rendered(), Colour::Red))
    }
}

/// The lines of the failures: none where there is no failure; else the
/// heading, and then the failures in full in the verbose report, one by
/// one otherwise.
pub open spec fn error_lines(failure: Seq<FailurePayloadView>, verbose: bool) -> Seq<
    Seq<SpanView>,
> {
    if failure.len() == 0 {
        Seq::empty()
    } else {
        let head = seq![seq![text_span("Errors:"@, Colour::Red, true)]];
        if verbose {
            head.push(details_line(Section::Failure, Colour::Red, Colour::Red))
        } else {
            head + failure_lines(failure)
        }
    }
}

/// The report of a result: the canonical root where there is one, the
/// conflicting roots where there are any, and the failures.
pub open spec fn report_of(d: DisplayableResultView, verbose: bool) -> Seq<Seq<SpanView>> {
    (match d.canonical {
        Some(c) => canonical_lines(c, verbose),
        None => Seq::empty(),
    }) + (match d.non_canonical {
        Some(c) => conflicting_lines(c, verbose),
        None => Seq::empty(),
    }) + error_lines(d.failure, verbose)
}

/// Joining reports joins their values.
proof fn lemma_report_view_add(a: Seq<Vec<Span>>, b: Seq<Vec<Span>>)
    ensures
        report_view(a + b) == report_view(a) + report_view(b),
{
    assert(report_view(a + b) =~= report_view(a) + report_view(b));
}

/// A span of the text `text`.
fn span(text: &str, colour: Colour, bold: bool) -> (s: Span)
    ensures
        s@ == text_span(text@, colour, bold),
{
    Span { content: Content::Text(String::from_str(text)), colour, bold }
}

/// The line of the heading `title` with `body` on the line after it.
fn titled(title: &str, colour: Colour, body: Span) -> (line: Vec<Span>)
    ensures
        line_view(line) == titled_line(title@, colour, body@),
{
    let mut line: Vec<Span> = Vec::new();
    line.push(span(title, colour, false));
    line.push(span(":\n \t", Colour::Plain, false));
    line.push(body);
    assert(line_view(line) =~= titled_line(title@, colour, body@));
    line
}

/// The line that shows `section` in full.
fn details(section: Section, title: Colour, body: Colour) -> (line: Vec<Span>)
    ensures
        line_view(line) == details_line(section, title, body),
{
    titled("Details", title, Span { content: Content::Details(section), colour: body, bold: false })
}

/// The line of `label` followed by `value` in `colour`.
fn labelled(label: &str, value: &str, colour: Colour) -> (line: Vec<Span>)
    ensures
        line_view(line) == labelled_line(label@, value@, colour),
{
    let mut line: Vec<Span> = Vec::new();
    line.push(span(label, Colour::Plain, false));
    line.push(span(value, colour, false));
    assert(line_view(line) =~= labelled_line(label@, value@, colour));
    line
}

/// The line that holds the one span `only`.
fn single(only: Span) -> (line: Vec<Span>)
    ensures
        line_view(line) == seq![only@],
{
    let mut line: Vec<Span> = Vec::new();
    line.push(only);
    assert(line_view(line) =~= seq![only@]);
    line
}

/// Lays out a canonical grouping.
fn render_canonical(canonical: &RootGroups, is_verbose: bool) -> (lines: Vec<Vec<Span>>)
    ensures
        report_view(lines@) == canonical_lines(canonical@, is_verbose),
{
    let mut lines: Vec<Vec<Span>> = Vec::new();
    let root = if canonical.len() > 0 {
        span(canonical.root_at(0).as_str(), Colour::Green, true)
    } else {
        span("block root not found", Colour::Green, true)
    };
    lines.push(titled("Block root", Colour::Blue, root));
    if is_verbose {
        lines.push(details(Section::Canonical, Colour::Blue, Colour::Green));
    }
    assert(report_view(lines@) =~= canonical_lines(canonical@, is_verbose));
    lines
}

/// Lays out one line for the endpoint of each answer of a group.
fn render_endpoints(held: &Vec<SuccessPayload>) -> (lines: Vec<Vec<Span>>)
    ensures
        report_view(lines@) == endpoint_lines(payload_views(held@)),
{
    let ghost members = payload_views(held@);
    let mut lines: Vec<Vec<Span>> = Vec::new();
    let mut i: usize = 0;
    proof {
        assert(members.take(0) =~= Seq::empty());
        assert(report_view(lines@) =~= Seq::empty());
    }
    while i < held.len()
        invariant
            i <= held@.len(),
            members == payload_views(held@),
            report_view(lines@) == endpoint_lines(members.take(i as int)),
        decreases held@.len() - i,
    {
        let ghost before = lines@;
        let line = labelled("\t\t ", held[i].endpoint.as_str(), Colour::Yellow);
        lines.push(line);
        proof {
            let seen = members.take(i + 1);
            assert(seen.drop_last() =~= members.take(i as int));
            assert(seen.last() == held@[i as int]@);
            assert(report_view(lines@) =~= report_view(before).push(line_view(line)));
        }
        i += 1;
    }
    proof {
        assert(members.take(held@.len() as int) =~= members);
    }
    lines
}

/// Lays out a conflicting grouping root by root.
fn render_checkpoints(groups: &RootGroups) -> (lines: Vec<Vec<Span>>)
    ensures
        report_view(lines@) == checkpoint_lines(groups@.order, groups@.groups),
{
    let ghost order = groups@.order;
    let ghost held = groups@.groups;
    let mut lines: Vec<Vec<Span>> = Vec::new();
    let n = groups.len();
    let mut i: usize = 0;
    proof {
        assert(order.take(0) =~= Seq::empty());
        assert(report_view(lines@) =~= Seq::empty());
    }
    while i < n
        invariant
            i <= n,
            n == groups@.len(),
            order == groups@.order,
            held == groups@.groups,
            report_view(lines@) == checkpoint_lines(order.take(i as int), held),
        decreases n - i,
    {
        let ghost before = lines@;
        let line = labelled("\t Checkpoint: ", groups.root_at(i).as_str(), Colour::Yellow);
        lines.push(line);
        let mut part = render_endpoints(groups.members_at(i));
        let ghost part_lines = part@;
        lines.append(&mut part);
        proof {
            let seen = order.take(i + 1);
            assert(seen.drop_last() =~= order.take(i as int));
            assert(seen.last() == order[i as int]);
            assert(report_view(before.push(line)) =~= report_view(before).push(line_view(line)));
            lemma_report_view_add(before.push(line), part_lines);
        }
        i += 1;
    }
    proof {
        assert(order.take(n as int) =~= order);
    }
    lines
}

/// Lays out the failures one by one.
fn render_failures(failure: &Vec<FailurePayload>) -> (lines: Vec<Vec<Span>>)
    ensures
        report_view(lines@) == failure_lines(failure_views(failure@)),
{
    let ghost all = failure_views(failure@);
    let mut lines: Vec<Vec<Span>> = Vec::new();
    let mut i: usize = 0;
    proof {
        assert(all.take(0) =~= Seq::empty());
        assert(report_view(lines@) =~= Seq::empty());
    }
    while i < failure.len()
        invariant
            i <= failure@.len(),
            all == failure_views(failure@),
            report_view(lines@) == failure_lines(all.take(i as int)),
        decreases failure@.len() - i,
    {
        let ghost before = lines@;
        let endpoint = labelled("\t Endpoint: ", failure[i].endpoint.as_str(), Colour::Red);
        let rendered = failure[i].payload.to_string();
        let error = labelled("\t Error: ", rendered.as_str(), Colour::Red);
        lines.push(endpoint);
        lines.push(error);
        proof {
            let seen = all.take(i + 1);
            assert(seen.drop_last() =~= all.take(i as int));
            assert(seen.last() == failure@[i as int]@);
            assert(report_view(lines@) =~= report_view(before).push(line_view(endpoint)).push(
                line_view(error),
            ));
        }
        i += 1;
    }
    proof {
        assert(all.take(failure@.len() as int) =~= all);
    }
    lines
}

/// Lays out the report of `result`, brief or verbose: what a terminal
/// shows line by line, with the colour and weight of each span.
pub fn render_result(result: &DisplayableResult, is_verbose: bool) -> (lines: Vec<Vec<Span>>)
    ensures
        report_view(lines@) == report_of(result@, is_verbose),
{
    let mut lines: Vec<Vec<Span>> = Vec::new();
    proof {
        assert(report_view(lines@) =~= Seq::empty());
    }
    match &result.canonical {
        Some(canonical) => {
            let mut part = render_canonical(canonical, is_verbose);
            proof {
                lemma_report_view_add(lines@, part@);
            }
            lines.append(&mut part);
        },
        None => {},
    }
    let ghost first = report_view(lines@);
    match &result.non_canonical {
        Some(non_canonical) => {
            let ghost before = lines@;
            lines.push(single(span("Conflicting:", Colour::Yellow, true)));
            if is_verbose {
                lines.push(details(Section::NonCanonical, Colour::Yellow, Colour::Yellow));
            } else {
                let mut part = render_checkpoints(non_canonical);
                proof {
                    lemma_report_view_add(lines@, part@);
                }
                lines.append(&mut part);
            }
            proof {
                assert(report_view(lines@) =~= first + conflicting_lines(
                    non_canonical@,
                    is_verbose,
                ));
            }
        },
        None => {},
    }
    let ghost second = report_view(lines@);
    if result.failure.len() > 0 {
        lines.push(single(span("Errors:", Colour::Red, true)));
        if is_verbose {
            lines.push(details(Section::Failure, Colour::Red, Colour::Red));
        } else {
            let mut part = render_failures(&result.failure);
            proof {
                lemma_report_view_add(lines@, part@);
            }
            lines.append(&mut part);
        }
        proof {
            assert(report_view(lines@) =~= second + error_lines(
                failure_views(result.failure@),
                is_verbose,
            ));
        }
    }
    proof {
        assert(report_view(lines@) =~= report_of(result@, is_verbose));
    }
    lines
}

} // verus!

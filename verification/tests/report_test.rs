use checkpointq::client::{
    BlockInfo, Data, ResponsePayloadWithEndpointInfo, SuccessEndpointPayload,
};
use checkpointq::errors::AppError;
use checkpointq::processor::process_to_displayable_format;
use checkpointq::report::{render_result, Colour, Content, Section, Span};

fn ok(endpoint: &str, root: &str) -> ResponsePayloadWithEndpointInfo {
    ResponsePayloadWithEndpointInfo {
        payload: Ok(SuccessEndpointPayload {
            data: Data {
                finalized: BlockInfo { epoch: "5".to_string(), root: root.to_string() },
                current_justified: BlockInfo { epoch: "".to_string(), root: "".to_string() },
                previous_justified: BlockInfo { epoch: "".to_string(), root: "".to_string() },
            },
        }),
        endpoint: endpoint.to_string(),
    }
}

fn err(endpoint: &str, message: &str) -> ResponsePayloadWithEndpointInfo {
    ResponsePayloadWithEndpointInfo {
        payload: Err(AppError::EndpointResponseError(message.to_string())),
        endpoint: endpoint.to_string(),
    }
}

fn show(lines: &Vec<Vec<Span>>) -> Vec<String> {
    lines
        .iter()
        .map(|line| {
            line.iter()
                .map(|span| {
                    let colour = match span.colour {
                        Colour::Plain => "",
                        Colour::Blue => "blue",
                        Colour::Green => "green",
                        Colour::Yellow => "yellow",
                        Colour::Red => "red",
                    };
                    let weight = if span.bold { "!" } else { "" };
                    let content = match &span.content {
                        Content::Text(t) => t.clone(),
                        Content::Details(Section::Canonical) => "{canonical}".to_string(),
                        Content::Details(Section::NonCanonical) => "{non_canonical}".to_string(),
                        Content::Details(Section::Failure) => "{failure}".to_string(),
                    };
                    format!("<{}{}>{}", colour, weight, content)
                })
                .collect::<Vec<String>>()
                .join("")
        })
        .collect()
}

#[test]
fn brief_report_of_a_canonical_result() {
    let d = process_to_displayable_format(vec![ok("g1", "H1"), ok("g2", "H1"), ok("g3", "H1")]);
    assert_eq!(show(&render_result(&d, false)), vec!["<blue>Block root<>:\n \t<green!>H1"]);
}

#[test]
fn verbose_report_of_a_canonical_result() {
    let d = process_to_displayable_format(vec![ok("g1", "H1"), ok("g2", "H1"), ok("g3", "H1")]);
    assert_eq!(
        show(&render_result(&d, true)),
        vec![
            "<blue>Block root<>:\n \t<green!>H1",
            "<blue>Details<>:\n \t<green>{canonical}",
        ]
    );
}

#[test]
fn brief_report_of_a_conflict() {
    let d = process_to_displayable_format(vec![
        ok("g1", "H1"),
        ok("g2", "H2"),
        ok("g3", "H1"),
        ok("g4", "H3"),
        ok("g5", "H2"),
    ]);
    assert_eq!(
        show(&render_result(&d, false)),
        vec![
            "<yellow!>Conflicting:",
            "<>\t Checkpoint: <yellow>H1",
            "<>\t\t <yellow>g1",
            "<>\t\t <yellow>g3",
            "<>\t Checkpoint: <yellow>H2",
            "<>\t\t <yellow>g2",
            "<>\t\t <yellow>g5",
            "<>\t Checkpoint: <yellow>H3",
            "<>\t\t <yellow>g4",
        ]
    );
}

#[test]
fn verbose_report_of_a_conflict() {
    let d = process_to_displayable_format(vec![ok("g1", "H1"), ok("g2", "H2"), ok("g3", "H3")]);
    assert_eq!(
        show(&render_result(&d, true)),
        vec!["<yellow!>Conflicting:", "<yellow>Details<>:\n \t<yellow>{non_canonical}"]
    );
}

#[test]
fn brief_report_of_failures() {
    let d = process_to_displayable_format(vec![err("g1", "e0"), err("g2", "e1")]);
    assert_eq!(
        show(&render_result(&d, false)),
        vec![
            "<red!>Errors:",
            "<>\t Endpoint: <red>g1",
            "<>\t Error: <red>Error: e0",
            "<>\t Endpoint: <red>g2",
            "<>\t Error: <red>Error: e1",
        ]
    );
}

#[test]
fn verbose_report_of_failures() {
    let d = process_to_displayable_format(vec![err("g1", "e0"), err("g2", "e1")]);
    assert_eq!(
        show(&render_result(&d, true)),
        vec!["<red!>Errors:", "<red>Details<>:\n \t<red>{failure}"]
    );
}

#[test]
fn report_of_a_canonical_result_with_failures() {
    let d = process_to_displayable_format(vec![ok("g1", "H1"), ok("g2", "H1"), err("bad", "oops")]);
    assert_eq!(
        show(&render_result(&d, false)),
        vec![
            "<blue>Block root<>:\n \t<green!>H1",
            "<red!>Errors:",
            "<>\t Endpoint: <red>bad",
            "<>\t Error: <red>Error: oops",
        ]
    );
    assert_eq!(
        show(&render_result(&d, true)),
        vec![
            "<blue>Block root<>:\n \t<green!>H1",
            "<blue>Details<>:\n \t<green>{canonical}",
            "<red!>Errors:",
            "<red>Details<>:\n \t<red>{failure}",
        ]
    );
}

#[test]
fn report_of_a_conflict_with_failures() {
    let d = process_to_displayable_format(vec![ok("g1", "H1"), err("bad", "oops"), ok("g2", "H2")]);
    assert_eq!(
        show(&render_result(&d, false)),
        vec![
            "<yellow!>Conflicting:",
            "<>\t Checkpoint: <yellow>H1",
            "<>\t\t <yellow>g1",
            "<>\t Checkpoint: <yellow>H2",
            "<>\t\t <yellow>g2",
            "<red!>Errors:",
            "<>\t Endpoint: <red>bad",
            "<>\t Error: <red>Error: oops",
        ]
    );
}

#[test]
fn report_of_nothing_is_empty() {
    let d = process_to_displayable_format(vec![]);
    assert!(render_result(&d, false).is_empty());
    assert!(render_result(&d, true).is_empty());
}

#[test]
fn report_is_the_same_every_time() {
    let build = || {
        process_to_displayable_format(vec![
            ok("g1", "H9"),
            ok("g2", "H2"),
            ok("g3", "H5"),
            err("g4", "x"),
        ])
    };
    let d = build();
    let first = show(&render_result(&d, false));
    assert_eq!(first, show(&render_result(&d, false)));
    assert_eq!(first, show(&render_result(&build(), false)));
}

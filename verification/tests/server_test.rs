use checkpointq::args::Network;
use checkpointq::checkpoint_server::{
    finalized, network_from_path, status_of, ApiResponse, QueryParams, STATUS_NOT_FOUND,
    STATUS_OK,
};
use checkpointq::client::{
    BlockInfo, Data, ResponsePayloadWithEndpointInfo, SuccessEndpointPayload,
};
use checkpointq::errors::AppError;
use checkpointq::processor::{process_to_displayable_format, DisplayableResult};

fn ok(endpoint: &str, root: &str, epoch: &str) -> ResponsePayloadWithEndpointInfo {
    ResponsePayloadWithEndpointInfo {
        payload: Ok(SuccessEndpointPayload {
            data: Data {
                finalized: BlockInfo { epoch: epoch.to_string(), root: root.to_string() },
                current_justified: BlockInfo { epoch: "".to_string(), root: "".to_string() },
                previous_justified: BlockInfo { epoch: "".to_string(), root: "".to_string() },
            },
        }),
        endpoint: endpoint.to_string(),
    }
}

fn err(endpoint: &str, message: &str) -> ResponsePayloadWithEndpointInfo {
    ResponsePayloadWithEndpointInfo {
        payload: Err(AppError::EndpointResponseError(message.to_string())),
        endpoint: endpoint.to_string(),
    }
}

fn all_agree() -> DisplayableResult {
    process_to_displayable_format(vec![
        ok("g1", "H1", "77"),
        ok("g2", "H1", "78"),
        ok("g3", "H1", "79"),
    ])
}

fn all_differ() -> DisplayableResult {
    process_to_displayable_format(vec![
        ok("g1", "H1", "77"),
        ok("g2", "H2", "77"),
        ok("g3", "H3", "77"),
    ])
}

#[test]
fn query_params_default_to_brief() {
    assert!(!QueryParams::default().verbose);
}

#[test]
fn brief_answer_names_root_and_epoch_only() {
    let body = finalized(Ok(all_agree()), QueryParams::default()).unwrap();
    assert_eq!(body.block_root, "H1");
    assert_eq!(body.epoch, "77");
    assert!(body.payload.is_none());
}

#[test]
fn verbose_answer_carries_the_result() {
    let answer = finalized(Ok(all_differ()), QueryParams { verbose: true });
    assert_eq!(status_of(&answer), STATUS_OK);
    assert_eq!(STATUS_OK, 200);
    let body = answer.unwrap();
    assert_eq!(body.block_root, "Finalized block root not found");
    assert_eq!(body.epoch, "Epoch not found");
    let payload = body.payload.unwrap();
    assert!(payload.canonical.is_none());
    let groups = payload.non_canonical.unwrap();
    assert_eq!(groups.len(), 3);
    assert!(groups.get("H1").is_some());
    assert!(groups.get("H2").is_some());
    assert!(groups.get("H3").is_some());
    assert!(payload.failure.is_empty());
}

#[test]
fn verbose_canonical_answer_has_root_epoch_and_result() {
    let body = ApiResponse::new(all_agree(), true);
    assert_eq!(body.block_root, "H1");
    assert_eq!(body.epoch, "77");
    let payload = body.payload.unwrap();
    assert_eq!(payload.canonical.unwrap().get("H1").unwrap().len(), 3);
    assert!(payload.non_canonical.is_none());
}

#[test]
fn failures_do_not_turn_into_an_http_error() {
    let d = process_to_displayable_format(vec![err("g1", "e0"), err("g2", "e1")]);
    let answer = finalized(Ok(d), QueryParams { verbose: false });
    assert_eq!(status_of(&answer), 200);
    let body = answer.unwrap();
    assert_eq!(body.block_root, "Finalized block root not found");
    assert_eq!(body.epoch, "Epoch not found");
    assert!(body.payload.is_none());
    let d = process_to_displayable_format(vec![err("g1", "e0"), err("g2", "e1")]);
    let body = ApiResponse::new(d, true);
    assert_eq!(body.payload.unwrap().failure.len(), 2);
}

#[test]
fn an_error_is_answered_with_not_found() {
    let answer = finalized(
        Err(AppError::EndpointsNotFound("Endpoint not found for goerli".to_string())),
        QueryParams { verbose: true },
    );
    assert_eq!(status_of(&answer), STATUS_NOT_FOUND);
    assert_eq!(STATUS_NOT_FOUND, 404);
    assert_eq!(answer.unwrap_err().to_string(), "Error: Endpoint not found for goerli");
}

#[test]
fn an_unknown_network_is_not_found() {
    let e = network_from_path("unknown").unwrap_err();
    assert_eq!(e.to_string(), "Error: Endpoint not found for unknown");
    match e {
        AppError::EndpointsNotFound(_) => {}
        other => panic!("unexpected {:?}", other),
    }
    let answer = finalized(Err(network_from_path("unknown").unwrap_err()), QueryParams::default());
    assert_eq!(status_of(&answer), 404);
}

#[test]
fn a_known_network_is_read_from_the_path() {
    assert_eq!(network_from_path("mainnet").unwrap(), Network::Mainnet);
    assert_eq!(network_from_path("goerli").unwrap(), Network::Goerli);
    assert_eq!(network_from_path("sepolia").unwrap(), Network::Sepolia);
    assert!(network_from_path("MAINNET").is_err());
}

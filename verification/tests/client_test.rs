use checkpointq::args::Network;
use checkpointq::client::{
    normalize, request_path, status_error, BlockInfo, Data, EndpointsConfig, Response, StateId,
    SuccessEndpointPayload, MIN_ENDPOINTS,
};
use checkpointq::errors::AppError;
use checkpointq::status::StatusCode;
use checkpointq::text::decimal_string;

fn payload(root: &str, epoch: &str) -> SuccessEndpointPayload {
    SuccessEndpointPayload {
        data: Data {
            finalized: BlockInfo { epoch: epoch.to_string(), root: root.to_string() },
            current_justified: BlockInfo { epoch: "2".to_string(), root: "0xcj".to_string() },
            previous_justified: BlockInfo { epoch: "1".to_string(), root: "0xpj".to_string() },
        },
    }
}

fn urls(n: usize) -> Vec<String> {
    (0..n).map(|i| format!("http://node{}.example", i)).collect()
}

#[test]
fn app_error_renders_with_prefix() {
    assert_eq!(AppError::EndpointResponseError("a".to_string()).to_string(), "Error: a");
    assert_eq!(AppError::EndpointsBelowThreshold("b c".to_string()).to_string(), "Error: b c");
    assert_eq!(AppError::EndpointsNotFound("".to_string()).to_string(), "Error: ");
    assert_eq!(AppError::EndpointsNotFound("d".to_string()).detail(), "d");
}

#[test]
fn state_id_is_written_as_word_or_decimal() {
    assert_eq!(StateId::Finalized.to_string(), "finalized");
    assert_eq!(StateId::Slot(0).to_string(), "0");
    assert_eq!(StateId::Slot(7).to_string(), "7");
    assert_eq!(StateId::Slot(10).to_string(), "10");
    assert_eq!(StateId::Slot(7654321).to_string(), "7654321");
    assert_eq!(
        StateId::Slot(u128::MAX).to_string(),
        "340282366920938463463374607431768211455"
    );
}

#[test]
fn decimal_string_agrees_with_std() {
    let samples: Vec<u128> = vec![0, 1, 9, 10, 11, 99, 100, 101, 909, 1000, 65535, 1u128 << 64];
    for n in samples {
        assert_eq!(decimal_string(n), n.to_string());
    }
}

#[test]
fn request_path_joins_endpoint_and_state() {
    assert_eq!(
        request_path("http://a.example", &StateId::Finalized),
        "http://a.example/eth/v1/beacon/states/finalized/finality_checkpoints"
    );
    assert_eq!(
        request_path("https://b.example:5052", &StateId::Slot(123)),
        "https://b.example:5052/eth/v1/beacon/states/123/finality_checkpoints"
    );
    assert_eq!(
        request_path("", &StateId::Slot(0)),
        "/eth/v1/beacon/states/0/finality_checkpoints"
    );
}

#[test]
fn status_code_accepts_100_to_999() {
    assert!(StatusCode::from_u16(0).is_none());
    assert!(StatusCode::from_u16(99).is_none());
    assert_eq!(StatusCode::from_u16(100).unwrap().as_u16(), 100);
    assert_eq!(StatusCode::from_u16(999).unwrap().as_u16(), 999);
    assert!(StatusCode::from_u16(1000).is_none());
    assert!(StatusCode::from_u16(u16::MAX).is_none());
}

#[test]
fn status_code_success_is_200_to_299() {
    assert!(!StatusCode::from_u16(199).unwrap().is_success());
    assert!(StatusCode::from_u16(200).unwrap().is_success());
    assert!(StatusCode::from_u16(204).unwrap().is_success());
    assert!(StatusCode::from_u16(299).unwrap().is_success());
    assert!(!StatusCode::from_u16(300).unwrap().is_success());
    assert!(!StatusCode::from_u16(404).unwrap().is_success());
    assert!(!StatusCode::from_u16(500).unwrap().is_success());
}

#[test]
fn status_code_text_has_number_and_reason() {
    assert_eq!(StatusCode::from_u16(200).unwrap().to_string(), "200 OK");
    assert_eq!(StatusCode::from_u16(404).unwrap().to_string(), "404 Not Found");
    assert_eq!(StatusCode::from_u16(503).unwrap().to_string(), "503 Service Unavailable");
    assert_eq!(StatusCode::from_u16(799).unwrap().to_string(), "799 <unknown status code>");
}

#[test]
fn status_error_names_endpoint_and_status() {
    let e = status_error("http://a.example", "418 I'm a teapot");
    match e {
        AppError::EndpointResponseError(detail) => assert_eq!(
            detail,
            "Error with calling http://a.example status code 418 I'm a teapot"
        ),
        other => panic!("unexpected {:?}", other),
    }
}

#[test]
fn normalize_passes_a_transport_error_on() {
    let outcome = normalize(
        "http://a.example",
        Err(AppError::EndpointResponseError("connection refused".to_string())),
    );
    assert_eq!(outcome.endpoint, "http://a.example");
    match outcome.payload {
        Err(AppError::EndpointResponseError(detail)) => assert_eq!(detail, "connection refused"),
        other => panic!("unexpected {:?}", other),
    }
    let outcome = normalize("e", Err(AppError::EndpointsNotFound("kept".to_string())));
    match outcome.payload {
        Err(AppError::EndpointsNotFound(detail)) => assert_eq!(detail, "kept"),
        other => panic!("unexpected {:?}", other),
    }
}

#[test]
fn normalize_takes_a_parsed_body_under_a_success_status() {
    let outcome = normalize(
        "http://a.example",
        Ok(Response { status: StatusCode::from_u16(200).unwrap(), body: Ok(payload("0xabc", "9")) }),
    );
    assert_eq!(outcome.endpoint, "http://a.example");
    let p = outcome.payload.unwrap();
    assert_eq!(p.data.finalized.root, "0xabc");
    assert_eq!(p.data.finalized.epoch, "9");
    assert_eq!(p.data.current_justified.root, "0xcj");
    assert_eq!(p.data.previous_justified.epoch, "1");
}

#[test]
fn normalize_reports_a_body_that_did_not_parse() {
    let outcome = normalize(
        "http://a.example",
        Ok(Response {
            status: StatusCode::from_u16(201).unwrap(),
            body: Err("missing field `data`".to_string()),
        }),
    );
    match outcome.payload {
        Err(AppError::EndpointResponseError(detail)) => assert_eq!(detail, "missing field `data`"),
        other => panic!("unexpected {:?}", other),
    }
}

#[test]
fn normalize_reports_a_status_that_is_no_success() {
    let outcome = normalize(
        "http://a.example",
        Ok(Response { status: StatusCode::from_u16(404).unwrap(), body: Ok(payload("0xabc", "9")) }),
    );
    assert_eq!(outcome.endpoint, "http://a.example");
    match outcome.payload {
        Err(AppError::EndpointResponseError(detail)) => assert_eq!(
            detail,
            "Error with calling http://a.example status code 404 Not Found"
        ),
        other => panic!("unexpected {:?}", other),
    }
    let outcome = normalize(
        "http://b.example",
        Ok(Response { status: StatusCode::from_u16(500).unwrap(), body: Err("x".to_string()) }),
    );
    match outcome.payload {
        Err(AppError::EndpointResponseError(detail)) => assert_eq!(
            detail,
            "Error with calling http://b.example status code 500 Internal Server Error"
        ),
        other => panic!("unexpected {:?}", other),
    }
}

#[test]
fn config_with_two_endpoints_is_below_threshold() {
    let config = EndpointsConfig::new().with("mainnet".to_string(), urls(2));
    assert!(!config.is_above_threshold());
    match config.validated() {
        Err(AppError::EndpointsBelowThreshold(detail)) => assert_eq!(
            detail,
            "Number of endpoints provided for networks in the config must be at least 3"
        ),
        other => panic!("unexpected {:?}", other),
    }
}

#[test]
fn config_with_three_endpoints_is_accepted() {
    assert_eq!(MIN_ENDPOINTS, 3);
    let config = EndpointsConfig::new().with("mainnet".to_string(), urls(3));
    assert!(config.is_above_threshold());
    let config = config.validated().unwrap();
    assert_eq!(config.get("mainnet").unwrap(), &urls(3));
    assert!(config.get("goerli").is_none());
}

#[test]
fn config_is_refused_when_any_network_is_short() {
    let config = EndpointsConfig::new()
        .with("mainnet".to_string(), urls(5))
        .with("goerli".to_string(), urls(0))
        .with("sepolia".to_string(), urls(3));
    assert!(config.validated().is_err());
    let config = EndpointsConfig::new()
        .with("mainnet".to_string(), urls(5))
        .with("goerli".to_string(), urls(4))
        .with("sepolia".to_string(), urls(3));
    assert!(config.validated().is_ok());
}

#[test]
fn empty_config_is_accepted_and_holds_nothing() {
    let config = EndpointsConfig::new().validated().unwrap();
    assert!(config.get("mainnet").is_none());
    assert!(config.get("").is_none());
}

#[test]
fn config_with_replaces_the_endpoints_of_a_network() {
    let config = EndpointsConfig::new()
        .with("mainnet".to_string(), urls(2))
        .with("goerli".to_string(), urls(3))
        .with("mainnet".to_string(), urls(4));
    assert_eq!(config.get("mainnet").unwrap().len(), 4);
    assert_eq!(config.get("goerli").unwrap().len(), 3);
    assert!(config.validated().is_ok());
}

#[test]
fn network_names_are_lower_case() {
    assert_eq!(Network::Mainnet.to_string(), "mainnet");
    assert_eq!(Network::Goerli.to_string(), "goerli");
    assert_eq!(Network::Sepolia.to_string(), "sepolia");
    assert_eq!(Network::from_name("mainnet"), Some(Network::Mainnet));
    assert_eq!(Network::from_name("goerli"), Some(Network::Goerli));
    assert_eq!(Network::from_name("sepolia"), Some(Network::Sepolia));
    assert_eq!(Network::from_name("Mainnet"), None);
    assert_eq!(Network::from_name("unknown"), None);
    assert_eq!(Network::from_name(""), None);
}

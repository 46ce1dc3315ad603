use checkpointq::args::{
    Cli, Mode, Network, ServerCommands, SharedCommands, SubCommands, DEFAULT_ENDPOINTS_PATH,
    DEFAULT_PORT,
};
use checkpointq::client::StateId;

fn query(endpoints: Option<&str>, network: Option<Network>, verbose: bool) -> Cli {
    Cli {
        shared: SharedCommands { endpoints: endpoints.map(|p| p.to_string()) },
        network,
        verbose,
        subcommands: None,
    }
}

#[test]
fn defaults_are_the_documented_ones() {
    assert_eq!(DEFAULT_ENDPOINTS_PATH, "endpoints.yaml");
    assert_eq!(DEFAULT_PORT, 7070);
}

#[test]
fn bare_command_line_asks_mainnet_briefly() {
    let plan = query(None, None, false).plan();
    assert_eq!(plan.endpoints, "endpoints.yaml");
    assert!(matches!(plan.state_id, StateId::Finalized));
    match plan.mode {
        Mode::Query { network, verbose } => {
            assert_eq!(network, Network::Mainnet);
            assert!(!verbose);
        }
        other => panic!("unexpected {:?}", other),
    }
}

#[test]
fn query_takes_path_network_and_verbosity_as_given() {
    let plan = query(Some("/etc/nodes.yaml"), Some(Network::Sepolia), true).plan();
    assert_eq!(plan.endpoints, "/etc/nodes.yaml");
    match plan.mode {
        Mode::Query { network, verbose } => {
            assert_eq!(network, Network::Sepolia);
            assert!(verbose);
        }
        other => panic!("unexpected {:?}", other),
    }
}

#[test]
fn server_takes_the_path_of_the_subcommand() {
    let cli = Cli {
        shared: SharedCommands { endpoints: Some("outer.yaml".to_string()) },
        network: Some(Network::Goerli),
        verbose: true,
        subcommands: Some(SubCommands::ServerCliCommands(ServerCommands {
            shared: SharedCommands { endpoints: Some("inner.yaml".to_string()) },
            port: 9000,
        })),
    };
    let plan = cli.plan();
    assert_eq!(plan.endpoints, "inner.yaml");
    assert!(matches!(plan.state_id, StateId::Finalized));
    match plan.mode {
        Mode::Serve { port } => assert_eq!(port, 9000),
        other => panic!("unexpected {:?}", other),
    }
}

#[test]
fn server_without_a_path_takes_the_default_one() {
    let cli = Cli {
        shared: SharedCommands { endpoints: Some("outer.yaml".to_string()) },
        network: None,
        verbose: false,
        subcommands: Some(SubCommands::ServerCliCommands(ServerCommands {
            shared: SharedCommands { endpoints: None },
            port: DEFAULT_PORT,
        })),
    };
    let plan = cli.plan();
    assert_eq!(plan.endpoints, "endpoints.yaml");
    match plan.mode {
        Mode::Serve { port } => assert_eq!(port, 7070),
        other => panic!("unexpected {:?}", other),
    }
}

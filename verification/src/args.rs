//! The networks that can be asked about, and what a command line selects.

use vstd::prelude::*;
use vstd::string::*;

use crate::client::StateId;
use crate::errors::{AppError, AppErrorView};

verus! {

/// A network whose endpoints the configuration may list.
#[derive(Copy, Clone, PartialEq, Eq, Structural, PartialOrd, Ord, Debug, Hash)]
pub enum Network {
    Mainnet,
    Goerli,
    Sepolia,
}

impl Network {
    /// The lower-case name under which the network is configured and asked for.
    pub open spec fn name(self) -> Seq<char> {
        match self {
            Network::Mainnet => "mainnet"@,
            Network::Goerli => "goerli"@,
            Network::Sepolia => "sepolia"@,
        }
    }

    /// The network that `name` names, if it names one.
    pub open spec fn named(name: Seq<char>) -> Option<Network> {
        if name == "mainnet"@ {
            Some(Network::Mainnet)
        } else if name == "goerli"@ {
            Some(Network::Goerli)
        } else if name == "sepolia"@ {
            Some(Network::Sepolia)
        } else {
            None
        }
    }

    /// The lower-case name of the network.
    pub fn to_string(&self) -> (s: String)
        ensures
            s@ == self.name(),
    {
        match self {
            Network::Mainnet => String::from_str("mainnet"),
            Network::Goerli => String::from_str("goerli"),
            Network::Sepolia => String::from_str("sepolia"),
        }
    }

    /// Reads a network from its lower-case name.
    pub fn from_name(name: &str) -> (n: Option<Network>)
        ensures
            n == Network::named(name@),
    {
        let name = String::from_str(name);
        if name == String::from_str("mainnet") {
            Some(Network::Mainnet)
        } else if name == String::from_str("goerli") {
            Some(Network::Goerli)
        } else if name == String::from_str("sepolia") {
            Some(Network::Sepolia)
        } else {
            None
        }
    }

    /// Each network is the one that its name names.
    pub proof fn lemma_name_round_trip(self)
        ensures
            Network::named(self.name()) == Some(self),
    {
        reveal_strlit("mainnet");
        reveal_strlit("goerli");
        reveal_strlit("sepolia");
        assert("mainnet"@.len() == 7);
        assert("goerli"@.len() == 6);
        assert("sepolia"@[0] == 's');
        assert("mainnet"@[0] == 'm');
    }
}

/// The text of the error for a network without endpoints.
pub open spec fn not_found_detail(name: Seq<char>) -> Seq<char> {
    "Endpoint not found for "@ + name
}

/// The error for a network that has no endpoints, or that is no network.
pub fn endpoints_not_found(name: &str) -> (e: AppError)
    ensures
        e@ == AppErrorView::EndpointsNotFound(not_found_detail(name@)),
{
    let mut detail = String::from_str("Endpoint not found for ");
    detail.append(name);
    AppError::EndpointsNotFound(detail)
}

/// The options that the query and the server share.
#[derive(Debug)]
pub struct SharedCommands {
    /// The path of the file that lists the endpoints of each network.
    pub endpoints: Option<String>,
}

/// The options of the server.
#[derive(Debug)]
pub struct ServerCommands {
    pub shared: SharedCommands,
    /// The port that the server listens on.
    pub port: u16,
}

/// The subcommands.
#[derive(Debug)]
pub enum SubCommands {
    /// Run in server mode.
    ServerCliCommands(ServerCommands),
}

/// What a command line holds once it is parsed.
#[derive(Debug)]
pub struct Cli {
    pub shared: SharedCommands,
    pub network: Option<Network>,
    /// Whether the report is verbose.
    pub verbose: bool,
    pub subcommands: Option<SubCommands>,
}

/// The path of the endpoints file where the command line names none.
pub const DEFAULT_ENDPOINTS_PATH: &'static str = "endpoints.yaml";

/// The port of the server where the command line names none.
pub const DEFAULT_PORT: u16 = 7070;

/// What to do with the endpoints once they are loaded.
#[derive(Copy, Clone, Debug)]
pub enum Mode {
    /// Serve the HTTP route on `port`.
    Serve { port: u16 },
    /// Ask the endpoints of `network` once and report, verbosely or not.
    Query { network: Network, verbose: bool },
}

/// What a command line asks for.
#[derive(Debug)]
pub struct Plan {
    /// The file to load the endpoints from.
    pub endpoints: String,
    /// The state to ask about.
    pub state_id: StateId,
    pub mode: Mode,
}

/// The mathematical value of a [`Plan`].
pub struct PlanView {
    pub endpoints: Seq<char>,
    pub state_id: StateId,
    pub mode: Mode,
}

impl View for Plan {
    type V = PlanView;

    open spec fn view(&self) -> PlanView {
        PlanView { endpoints: self.endpoints@, state_id: self.state_id, mode: self.mode }
    }
}

/// The path that an option names, or the default path.
pub open spec fn endpoints_path_of(given: Option<String>) -> Seq<char> {
    match given {
        Some(path) => path@,
        None => DEFAULT_ENDPOINTS_PATH@,
    }
}

impl Cli {
    /// What the command line asks for. With the subcommand, the server
    /// runs on its port with the endpoints file of the subcommand. Without
    /// it, the endpoints of the network named, or of mainnet, are asked
    /// once. The endpoints file is `endpoints.yaml` where none is named,
    /// and the state asked about is the finalized one.
    pub open spec fn planned(self) -> PlanView {
        match self.subcommands {
            Some(SubCommands::ServerCliCommands(server)) => PlanView {
                endpoints: endpoints_path_of(server.shared.endpoints),
                state_id: StateId::Finalized,
                mode: Mode::Serve { port: server.port },
            },
            None => PlanView {
                endpoints: endpoints_path_of(self.shared.endpoints),
                state_id: StateId::Finalized,
                mode: Mode::Query {
                    network: match self.network {
                        Some(network) => network,
                        None => Network::Mainnet,
                    },
                    verbose: self.verbose,
                },
            },
        }
    }

    /// Decides what the command line asks for.
    pub fn plan(self) -> (plan: Plan)
        ensures
            plan@ == self.planned(),
    {
        match self.subcommands {
            Some(SubCommands::ServerCliCommands(server)) => Plan {
                endpoints: endpoints_path(server.shared.endpoints),
                state_id: StateId::Finalized,
                mode: Mode::Serve { port: server.port },
            },
            None => Plan {
                endpoints: endpoints_path(self.shared.endpoints),
                state_id: StateId::Finalized,
                mode: Mode::Query {
                    network: match self.network {
                        Some(network) => network,
                        None => Network::Mainnet,
                    },
                    verbose: self.verbose,
                },
            },
        }
    }
}

/// The path that an option names, or the default path.
fn endpoints_path(given: Option<String>) -> (path: String)
    ensures
        path@ == endpoints_path_of(given),
{
    match given {
        Some(path) => path,
        None => String::from_str(DEFAULT_ENDPOINTS_PATH),
    }
}

} // verus!

//! Asking the endpoints: the records an answer is turned into, the
//! configured endpoints, the request sent to each, and the rule that
//! turns what came back into an outcome.

use vstd::prelude::*;
use vstd::string::*;

use crate::args::{endpoints_not_found, not_found_detail, Network};
use crate::errors::{AppError, AppErrorView};
use crate::processor::{
    classified, grouped, outcome_views, process_to_displayable_format, DisplayableResult,
};
use crate::status::{status_text, StatusCode};
use crate::text::{decimal, decimal_string};

verus! {

/// One checkpoint: an epoch and a block root, both kept as the endpoint
/// sent them.
#[derive(Debug)]
pub struct BlockInfo {
    pub epoch: String,
    pub root: String,
}

/// The mathematical value of a [`BlockInfo`].
pub struct BlockInfoView {
    pub epoch: Seq<char>,
    pub root: Seq<char>,
}

impl View for BlockInfo {
    type V = BlockInfoView;

    open spec fn view(&self) -> BlockInfoView {
        BlockInfoView { epoch: self.epoch@, root: self.root@ }
    }
}

impl Clone for BlockInfo {
    fn clone(&self) -> (c: BlockInfo)
        ensures
            c@ == self@,
    {
        BlockInfo { epoch: self.epoch.clone(), root: self.root.clone() }
    }
}

/// The three finality checkpoints of one state.
#[derive(Debug)]
pub struct Data {
    pub finalized: BlockInfo,
    pub current_justified: BlockInfo,
    pub previous_justified: BlockInfo,
}

/// The mathematical value of a [`Data`].
pub struct DataView {
    pub finalized: BlockInfoView,
    pub current_justified: BlockInfoView,
    pub previous_justified: BlockInfoView,
}

impl View for Data {
    type V = DataView;

    open spec fn view(&self) -> DataView {
        DataView {
            finalized: self.finalized@,
            current_justified: self.current_justified@,
            previous_justified: self.previous_justified@,
        }
    }
}

impl Clone for Data {
    fn clone(&self) -> (c: Data)
        ensures
            c@ == self@,
    {
        Data {
            finalized: self.finalized.clone(),
            current_justified: self.current_justified.clone(),
            previous_justified: self.previous_justified.clone(),
        }
    }
}

/// The body of a successful answer.
#[derive(Debug)]
pub struct SuccessEndpointPayload {
    pub data: Data,
}

/// The mathematical value of a [`SuccessEndpointPayload`].
pub struct SuccessEndpointPayloadView {
    pub data: DataView,
}

impl SuccessEndpointPayloadView {
    /// The finalized block root, by which answers are grouped.
    pub open spec fn root(self) -> Seq<char> {
        self.data.finalized.root
    }
}

impl View for SuccessEndpointPayload {
    type V = SuccessEndpointPayloadView;

    open spec fn view(&self) -> SuccessEndpointPayloadView {
        SuccessEndpointPayloadView { data: self.data@ }
    }
}

impl Clone for SuccessEndpointPayload {
    fn clone(&self) -> (c: SuccessEndpointPayload)
        ensures
            c@ == self@,
    {
        SuccessEndpointPayload { data: self.data.clone() }
    }
}

/// What one endpoint gave: its payload or the error met, with the
/// endpoint's URL.
#[derive(Debug)]
pub struct ResponsePayloadWithEndpointInfo {
    pub payload: Result<SuccessEndpointPayload, AppError>,
    pub endpoint: String,
}

/// The mathematical value of a [`ResponsePayloadWithEndpointInfo`].
pub struct ResponsePayloadWithEndpointInfoView {
    pub payload: Result<SuccessEndpointPayloadView, AppErrorView>,
    pub endpoint: Seq<char>,
}

impl View for ResponsePayloadWithEndpointInfo {
    type V = ResponsePayloadWithEndpointInfoView;

    open spec fn view(&self) -> ResponsePayloadWithEndpointInfoView {
        ResponsePayloadWithEndpointInfoView {
            payload: match self.payload {
                Ok(p) => Ok(p@),
                Err(e) => Err(e@),
            },
            endpoint: self.endpoint@,
        }
    }
}

/// The values of a list of strings, in the same order.
pub open spec fn string_views(items: Seq<String>) -> Seq<Seq<char>> {
    items.map_values(|s: String| s@)
}

/// The least number of endpoints a configured network must have.
pub const MIN_ENDPOINTS: usize = 3;

/// Every network of the mapping has at least [`MIN_ENDPOINTS`] endpoints.
pub open spec fn meets_threshold(endpoints: Map<Seq<char>, Seq<Seq<char>>>) -> bool {
    forall|name: Seq<char>| #[trigger]
        endpoints.dom().contains(name) ==> endpoints[name].len() >= MIN_ENDPOINTS
}

/// The detail of the error for a configuration with too few endpoints.
pub open spec fn below_threshold_detail() -> Seq<char> {
    "Number of endpoints provided for networks in the config must be at least 3"@
}

/// The endpoints of one network.
#[derive(Debug)]
struct NetworkEndpoints {
    name: String,
    urls: Vec<String>,
}

/// The names of `entries`, in the same order.
spec fn names_of(entries: Seq<NetworkEndpoints>) -> Seq<Seq<char>> {
    entries.map_values(|e: NetworkEndpoints| e.name@)
}

/// The configured endpoints: for each network name the URLs to ask, in
/// the order in which they are asked.
#[derive(Debug)]
pub struct EndpointsConfig {
    entries: Vec<NetworkEndpoints>,
}

impl View for EndpointsConfig {
    type V = Map<Seq<char>, Seq<Seq<char>>>;

    closed spec fn view(&self) -> Map<Seq<char>, Seq<Seq<char>>> {
        Map::new(
            |name: Seq<char>| names_of(self.entries@).contains(name),
            |name: Seq<char>| string_views(
                self.entries@[names_of(self.entries@).index_of(name)].urls@,
            ),
        )
    }
}

impl EndpointsConfig {
    /// No network name is held twice.
    #[verifier::type_invariant]
    pub closed spec fn inv(&self) -> bool {
        names_of(self.entries@).no_duplicates()
    }

    /// A configuration without networks.
    pub fn new() -> (config: EndpointsConfig)
        ensures
            config@ == Map::<Seq<char>, Seq<Seq<char>>>::empty(),
    {
        let config = EndpointsConfig { entries: Vec::new() };
        assert(config@ =~= Map::empty());
        config
    }

    /// Where the network `name` is held, if it is.
    fn position(&self, name: &String) -> (r: Option<usize>)
        ensures
            match r {
                Some(i) => i < self.entries@.len() && names_of(self.entries@)[i as int] == name@,
                None => !names_of(self.entries@).contains(name@),
            },
    {
        let mut i: usize = 0;
        while i < self.entries.len()
            invariant
                i <= self.entries@.len(),
                forall|j: int| 0 <= j < i ==> names_of(self.entries@)[j] != name@,
            decreases self.entries@.len() - i,
        {
            if self.entries[i].name == *name {
                return Some(i);
            }
            i += 1;
        }
        None
    }

    /// The configuration with the endpoints of the network `name` set, in
    /// place of any it had.
    pub fn with(self, name: String, urls: Vec<String>) -> (config: EndpointsConfig)
        ensures
            config@ == self@.insert(name@, string_views(urls@)),
    {
        proof {
            use_type_invariant(&self);
        }
        let ghost before = self;
        let ghost old_names = names_of(self.entries@);
        let ghost name_view = name@;
        let ghost urls_view = string_views(urls@);
        let pos = self.position(&name);
        let mut entries = self.entries;
        match pos {
            Some(i) => {
                entries.set(i, NetworkEndpoints { name, urls });
                proof {
                    assert(names_of(entries@) =~= old_names);
                }
            },
            None => {
                entries.push(NetworkEndpoints { name, urls });
                proof {
                    assert(names_of(entries@) =~= old_names.push(name_view));
                }
            },
        }
        let config = EndpointsConfig { entries };
        proof {
            let names = names_of(config.entries@);
            let want = before@.insert(name_view, urls_view);
            assert forall|k: Seq<char>| names.contains(k) <==> (old_names.contains(k) || k
                == name_view) by {
                if old_names.contains(k) {
                    let j = choose|j: int| 0 <= j < old_names.len() && old_names[j] == k;
                    assert(names[j] == k);
                }
                if names.contains(k) {
                    let j = choose|j: int| 0 <= j < names.len() && names[j] == k;
                    if j < old_names.len() && k != name_view {
                        assert(old_names[j] == k);
                    }
                }
                if k == name_view {
                    if old_names.contains(k) {
                    } else {
                        assert(names[old_names.len() as int] == k);
                    }
                }
            }
            assert(config@.dom() =~= want.dom());
            assert forall|k: Seq<char>| #[trigger] config@.dom().contains(k) implies config@[k]
                == want[k] by {
                let j = names.index_of(k);
                assert(names[j] == k);
                if k != name_view {
                    let j0 = old_names.index_of(k);
                    assert(old_names[j0] == k);
                    assert(names[j0] == k);
                    assert(j == j0);
                    assert(config.entries@[j] == before.entries@[j]);
                }
            }
            assert(config@ =~= want);
        }
        config
    }

    /// The endpoints of the network `name`, if it is configured.
    pub fn get(&self, name: &str) -> (urls: Option<&Vec<String>>)
        ensures
            match urls {
                Some(u) => self@.dom().contains(name@) && string_views(u@) == self@[name@],
                None => !self@.dom().contains(name@),
            },
    {
        proof {
            use_type_invariant(self);
        }
        let key = String::from_str(name);
        match self.position(&key) {
            Some(i) => {
                proof {
                    let names = names_of(self.entries@);
                    let k = names.index_of(name@);
                    assert(names[k] == name@);
                    assert(k == i);
                }
                Some(&self.entries[i].urls)
            },
            None => None,
        }
    }

    /// Whether every network has at least [`MIN_ENDPOINTS`] endpoints.
    pub fn is_above_threshold(&self) -> (b: bool)
        ensures
            b == meets_threshold(self@),
    {
        proof {
            use_type_invariant(self);
        }
        let ghost names = names_of(self.entries@);
        let mut i: usize = 0;
        while i < self.entries.len()
            invariant
                i <= self.entries@.len(),
                names == names_of(self.entries@),
                names.no_duplicates(),
                forall|j: int| 0 <= j < i ==> (#[trigger] self.entries@[j]).urls@.len() >= MIN_ENDPOINTS,
            decreases self.entries@.len() - i,
        {
            if self.entries[i].urls.len() < MIN_ENDPOINTS {
                proof {
                    let name = names[i as int];
                    let k = names.index_of(name);
                    assert(names[k] == name);
                    assert(k == i);
                    assert(self@.dom().contains(name));
                    assert(self@[name].len() < MIN_ENDPOINTS);
                }
                return false;
            }
            i += 1;
        }
        proof {
            assert forall|name: Seq<char>| #[trigger] self@.dom().contains(name) implies self@[name].len()
                >= MIN_ENDPOINTS by {
                let k = names.index_of(name);
                assert(names[k] == name);
                assert(self.entries@[k].urls@.len() >= MIN_ENDPOINTS);
            }
        }
        true
    }

    /// Accepts a configuration in which every network has at least
    /// [`MIN_ENDPOINTS`] endpoints, and refuses any other.
    pub fn validated(self) -> (r: Result<EndpointsConfig, AppError>)
        ensures
            match r {
                Ok(config) => meets_threshold(self@) && config@ == self@,
                Err(e) => !meets_threshold(self@) && e@ == AppErrorView::EndpointsBelowThreshold(
                    below_threshold_detail(),
                ),
            },
    {
        if self.is_above_threshold() {
            Ok(self)
        } else {
            Err(
                AppError::EndpointsBelowThreshold(
                    String::from_str(
                        "Number of endpoints provided for networks in the config must be at least 3",
                    ),
                ),
            )
        }
    }
}

/// The state whose finality checkpoints are asked for.
#[derive(Copy, Clone, Debug)]
pub enum StateId {
    Finalized,
    Slot(u128),
}

impl StateId {
    /// How the state is written in a request: the word `finalized`, or the
    /// slot number in decimal.
    pub open spec fn text(self) -> Seq<char> {
        match self {
            StateId::Finalized => "finalized"@,
            StateId::Slot(slot) => decimal(slot as nat),
        }
    }

    /// Writes the state as it stands in a request.
    pub fn to_string(&self) -> (s: String)
        ensures
            s@ == self.text(),
    {
        match self {
            StateId::Finalized => String::from_str("finalized"),
            StateId::Slot(slot) => decimal_string(*slot),
        }
    }
}

/// The path of the request that asks `endpoint` for the finality
/// checkpoints of the state written `state`.
pub open spec fn request_path_of(endpoint: Seq<char>, state: Seq<char>) -> Seq<char> {
    endpoint + "/eth/v1/beacon/states/"@ + state + "/finality_checkpoints"@
}

/// Forms the path of the request to `endpoint` for the state `state_id`.
pub fn request_path(endpoint: &str, state_id: &StateId) -> (path: String)
    ensures
        path@ == request_path_of(endpoint@, state_id.text()),
{
    let mut path = String::from_str(endpoint);
    path.append("/eth/v1/beacon/states/");
    let state = state_id.to_string();
    path.append(state.as_str());
    path.append("/finality_checkpoints");
    path
}

/// What a transport hands back when an endpoint answered: the status, and
/// the body as parsed or the message of the parser that refused it. The
/// body counts only under a status of success.
#[derive(Debug)]
pub struct Response {
    pub status: StatusCode,
    pub body: Result<SuccessEndpointPayload, String>,
}

/// The mathematical value of a [`Response`].
pub struct ResponseView {
    pub status: u16,
    pub body: Result<SuccessEndpointPayloadView, Seq<char>>,
}

impl View for Response {
    type V = ResponseView;

    open spec fn view(&self) -> ResponseView {
        ResponseView {
            status: self.status@,
            body: match self.body {
                Ok(p) => Ok(p@),
                Err(m) => Err(m@),
            },
        }
    }
}

/// The value of what a transport returned.
pub open spec fn transport_view(result: Result<Response, AppError>) -> Result<
    ResponseView,
    AppErrorView,
> {
    match result {
        Ok(r) => Ok(r@),
        Err(e) => Err(e@),
    }
}

/// The detail of the error for an answer whose status is no success.
pub open spec fn status_error_detail(endpoint: Seq<char>, status: Seq<char>) -> Seq<char> {
    "Error with calling "@ + endpoint + " status code "@ + status
}

/// The error for an answer of `endpoint` whose status, written `status`,
/// is no success.
pub fn status_error(endpoint: &str, status: &str) -> (e: AppError)
    ensures
        e@ == AppErrorView::EndpointResponseError(status_error_detail(endpoint@, status@)),
{
    let mut detail = String::from_str("Error with calling ");
    detail.append(endpoint);
    detail.append(" status code ");
    detail.append(status);
    AppError::EndpointResponseError(detail)
}

/// The outcome that one completed request amounts to. A transport error
/// is the failure as it stands. An answer with a status of success is the
/// success its body parsed to, or a failure with the parser's message. An
/// answer with any other status is a failure that names the endpoint and
/// the status.
pub open spec fn normalized(
    endpoint: Seq<char>,
    result: Result<ResponseView, AppErrorView>,
) -> ResponsePayloadWithEndpointInfoView {
    ResponsePayloadWithEndpointInfoView {
        payload: match result {
            Err(e) => Err(e),
            Ok(r) => if StatusCode::success(r.status) {
                match r.body {
                    Ok(p) => Ok(p),
                    Err(m) => Err(AppErrorView::EndpointResponseError(m)),
                }
            } else {
                Err(
                    AppErrorView::EndpointResponseError(
                        status_error_detail(endpoint, status_text(r.status)),
                    ),
                )
            },
        },
        endpoint,
    }
}

/// Turns what the transport returned for `endpoint` into its outcome.
pub fn normalize(endpoint: &str, result: Result<Response, AppError>) -> (outcome:
    ResponsePayloadWithEndpointInfo)
    ensures
        outcome@ == normalized(endpoint@, transport_view(result)),
{
    let payload = match result {
        Err(e) => Err(e),
        Ok(response) => {
            if response.status.is_success() {
                match response.body {
                    Ok(p) => Ok(p),
                    Err(m) => Err(AppError::EndpointResponseError(m)),
                }
            } else {
                let status = response.status.to_string();
                Err(status_error(endpoint, status.as_str()))
            }
        },
    };
    ResponsePayloadWithEndpointInfo { payload, endpoint: String::from_str(endpoint) }
}

/// The capability to send one GET request to a path and hand back what
/// came of it: the answer, or the error that kept it from coming.
pub trait HttpClient {
    /// Whether `result` is something the transport may hand back for a
    /// request to `path`. Each transport says for itself what it may
    /// return; one that says nothing may return anything.
    open spec fn may_return(
        &self,
        path: Seq<char>,
        result: Result<ResponseView, AppErrorView>,
    ) -> bool {
        true
    }

    /// Sends one GET request to `path`.
    fn send_request(&self, path: String) -> (result: Result<Response, AppError>)
        ensures
            self.may_return(path@, transport_view(result)),
    ;
}

/// The outcome is what asking `endpoint` through `transport` about the
/// state written `state` gave: the request went to the endpoint's path,
/// and the outcome is what the transport handed back, normalized.
pub open spec fn answer_of<C: HttpClient>(
    transport: C,
    state: Seq<char>,
    endpoint: Seq<char>,
    outcome: ResponsePayloadWithEndpointInfoView,
) -> bool {
    exists|result: Result<ResponseView, AppErrorView>|
        #![trigger normalized(endpoint, result)]
        transport.may_return(request_path_of(endpoint, state), result) && outcome == normalized(
            endpoint,
            result,
        )
}

/// The outcomes answer the endpoints: one outcome for each endpoint, in
/// the order of the endpoints.
pub open spec fn answers(
    outcomes: Seq<ResponsePayloadWithEndpointInfoView>,
    endpoints: Seq<Seq<char>>,
) -> bool {
    &&& outcomes.len() == endpoints.len()
    &&& forall|i: int| 0 <= i < outcomes.len() ==> (#[trigger] outcomes[i]).endpoint == endpoints[i]
}

/// The outcomes are what asking each of the endpoints, in their order,
/// through `transport` gave.
pub open spec fn answers_through<C: HttpClient>(
    transport: C,
    state: Seq<char>,
    outcomes: Seq<ResponsePayloadWithEndpointInfoView>,
    endpoints: Seq<Seq<char>>,
) -> bool {
    &&& answers(outcomes, endpoints)
    &&& forall|i: int|
        0 <= i < outcomes.len() ==> answer_of(transport, state, endpoints[i], #[trigger] outcomes[i])
}

/// Asks the endpoints of a network for their finality checkpoints and
/// classifies what they answer.
#[derive(Debug)]
pub struct CheckpointClient<C> {
    client: C,
    endpoints_config: EndpointsConfig,
    state_id: StateId,
}

impl<C> CheckpointClient<C> {
    /// The configured endpoints.
    pub closed spec fn config(&self) -> Map<Seq<char>, Seq<Seq<char>>> {
        self.endpoints_config@
    }

    /// The state asked about.
    pub closed spec fn state(&self) -> StateId {
        self.state_id
    }

    /// The transport that requests are sent through.
    pub closed spec fn transport(&self) -> C {
        self.client
    }

    /// A client that asks through `client` about the state `state_id` at
    /// the endpoints that `endpoints` lists.
    pub fn new(client: C, state_id: StateId, endpoints: EndpointsConfig) -> (r: Self)
        ensures
            r.config() == endpoints@,
            r.state() == state_id,
            r.transport() == client,
    {
        Self { client, endpoints_config: endpoints, state_id }
    }

    /// The transport that requests are sent through.
    pub fn client(&self) -> (c: &C)
        ensures
            *c == self.transport(),
    {
        &self.client
    }

    /// The state asked about.
    pub fn state_id(&self) -> (s: StateId)
        ensures
            s == self.state(),
    {
        self.state_id
    }

    /// The endpoints configured for `network`, or the error that none are.
    pub fn endpoints(&self, network: Network) -> (r: Result<&Vec<String>, AppError>)
        ensures
            match r {
                Ok(endpoints) => self.config().dom().contains(network.name()) && string_views(
                    endpoints@,
                ) == self.config()[network.name()],
                Err(e) => !self.config().dom().contains(network.name()) && e@
                    == AppErrorView::EndpointsNotFound(not_found_detail(network.name())),
            },
    {
        let name = network.to_string();
        match self.endpoints_config.get(name.as_str()) {
            Some(endpoints) => Ok(endpoints),
            None => Err(endpoints_not_found(name.as_str())),
        }
    }

    /// The path of the request to `endpoint`.
    pub fn request_path(&self, endpoint: &str) -> (path: String)
        ensures
            path@ == request_path_of(endpoint@, self.state().text()),
    {
        request_path(endpoint, &self.state_id)
    }
}

impl<C: HttpClient> CheckpointClient<C> {
    /// Sends one request to each endpoint, one after the other in their
    /// order, and collects one outcome for each. No outcome ends the round
    /// early. A caller that wants the requests in flight together sends
    /// them itself, each to the path of [`CheckpointClient::request_path`],
    /// and hands what comes back to [`normalize`].
    pub fn fan_out(&self, endpoints: &Vec<String>) -> (outcomes: Vec<
        ResponsePayloadWithEndpointInfo,
    >)
        ensures
            answers_through(
                self.transport(),
                self.state().text(),
                outcome_views(outcomes@),
                string_views(endpoints@),
            ),
    {
        let mut outcomes: Vec<ResponsePayloadWithEndpointInfo> = Vec::new();
        let mut i: usize = 0;
        while i < endpoints.len()
            invariant
                i <= endpoints@.len(),
                outcomes@.len() == i,
                forall|j: int|
                    0 <= j < i ==> (#[trigger] outcomes@[j])@.endpoint == endpoints@[j]@,
                forall|j: int|
                    0 <= j < i ==> answer_of(
                        self.transport(),
                        self.state().text(),
                        endpoints@[j]@,
                        (#[trigger] outcomes@[j])@,
                    ),
            decreases endpoints@.len() - i,
        {
            let endpoint = endpoints[i].as_str();
            let path = self.request_path(endpoint);
            let result = self.client.send_request(path);
            let ghost returned = transport_view(result);
            let outcome = normalize(endpoint, result);
            proof {
                assert(outcome@ == normalized(endpoint@, returned));
                assert(answer_of(self.transport(), self.state().text(), endpoint@, outcome@));
            }
            outcomes.push(outcome);
            i += 1;
        }
        outcomes
    }

    /// Asks every endpoint of `network`, one after the other, and
    /// classifies the answers. The one error is that of a network without
    /// configured endpoints; whatever the endpoints do is found among the
    /// result's failures.
    pub fn fetch_finality_checkpoints(&self, network: Network) -> (r: Result<
        DisplayableResult,
        AppError,
    >)
        ensures
            match r {
                Ok(d) => self.config().dom().contains(network.name()) && exists|
                    outcomes: Seq<ResponsePayloadWithEndpointInfoView>,
                |
                    #![trigger grouped(outcomes)]
                    answers_through(
                        self.transport(),
                        self.state().text(),
                        outcomes,
                        self.config()[network.name()],
                    ) && d@ == classified(grouped(outcomes)),
                Err(e) => !self.config().dom().contains(network.name()) && e@
                    == AppErrorView::EndpointsNotFound(not_found_detail(network.name())),
            },
    {
        match self.endpoints(network) {
            Err(e) => Err(e),
            Ok(endpoints) => {
                let results = self.fan_out(endpoints);
                let ghost outcomes = outcome_views(results@);
                let d = process_to_displayable_format(results);
                proof {
                    assert(answers_through(
                        self.transport(),
                        self.state().text(),
                        outcomes,
                        self.config()[network.name()],
                    ) && d@ == classified(grouped(outcomes)));
                }
                Ok(d)
            },
        }
    }
}

} // verus!

//! What the HTTP route `GET /{network}/finalized` answers.

use vstd::prelude::*;
use vstd::string::*;

use crate::args::{endpoints_not_found, not_found_detail, Network};
use crate::errors::{AppError, AppErrorView};
use crate::processor::{DisplayableResult, DisplayableResultView};

verus! {

/// The query of a request: whether the full result is wanted.
#[derive(Debug, Clone, Copy)]
pub struct QueryParams {
    pub verbose: bool,
}

impl Default for QueryParams {
    fn default() -> (q: QueryParams)
        ensures
            !q.verbose,
    {
        QueryParams { verbose: false }
    }
}

/// The body of an answer: the canonical block root and its epoch, and the
/// full result where it was asked for.
#[derive(Debug)]
pub struct ApiResponse {
    pub block_root: String,
    pub epoch: String,
    pub payload: Option<DisplayableResult>,
}

/// The mathematical value of an [`ApiResponse`].
pub struct ApiResponseView {
    pub block_root: Seq<char>,
    pub epoch: Seq<char>,
    pub payload: Option<DisplayableResultView>,
}

impl View for ApiResponse {
    type V = ApiResponseView;

    open spec fn view(&self) -> ApiResponseView {
        ApiResponseView {
            block_root: self.block_root@,
            epoch: self.epoch@,
            payload: match self.payload {
                Some(d) => Some(d@),
                None => None,
            },
        }
    }
}

/// What stands for the block root where none is canonical.
pub open spec fn block_root_not_found() -> Seq<char> {
    "Finalized block root not found"@
}

/// What stands for the epoch where no root is canonical.
pub open spec fn epoch_not_found() -> Seq<char> {
    "Epoch not found"@
}

/// The block root of an answer: the first canonical root, where there is one.
pub open spec fn block_root_of(d: DisplayableResultView) -> Seq<char> {
    match d.canonical {
        Some(c) => if c.order.len() > 0 {
            c.order[0]
        } else {
            block_root_not_found()
        },
        None => block_root_not_found(),
    }
}

/// The epoch of an answer: the finalized epoch of the first answer under
/// the first canonical root, where there is one.
pub open spec fn epoch_of(d: DisplayableResultView) -> Seq<char> {
    match d.canonical {
        Some(c) => if c.order.len() > 0 && c.groups[c.order[0]].len() > 0 {
            c.groups[c.order[0]][0].payload.data.finalized.epoch
        } else {
            epoch_not_found()
        },
        None => epoch_not_found(),
    }
}

/// The body that answers with the result `d`.
pub open spec fn api_response_of(d: DisplayableResultView, verbose: bool) -> ApiResponseView {
    ApiResponseView {
        block_root: block_root_of(d),
        epoch: epoch_of(d),
        payload: if verbose {
            Some(d)
        } else {
            None
        },
    }
}

impl ApiResponse {
    /// The body that answers with `displayable_result`: its canonical root
    /// and epoch, or the words that stand for their absence, and the result
    /// itself where `verbose` asks for it.
    pub fn new(displayable_result: DisplayableResult, verbose: bool) -> (r: ApiResponse)
        ensures
            r@ == api_response_of(displayable_result@, verbose),
    {
        let mut block_root = String::from_str("Finalized block root not found");
        let mut epoch = String::from_str("Epoch not found");
        match &displayable_result.canonical {
            Some(canonical) => {
                if canonical.len() > 0 {
                    block_root = canonical.root_at(0).clone();
                    let held = canonical.members_at(0);
                    epoch = held[0].payload.data.finalized.epoch.clone();
                    proof {
                        assert(crate::groups::payload_views(held@)[0] == held@[0]@);
                    }
                }
            },
            None => {},
        }
        let payload = if verbose {
            Some(displayable_result)
        } else {
            None
        };
        ApiResponse { block_root, epoch, payload }
    }
}

/// The network that the path segment `name` asks for, or the error that
/// no endpoints are found for it.
pub fn network_from_path(name: &str) -> (r: Result<Network, AppError>)
    ensures
        match r {
            Ok(network) => Network::named(name@) == Some(network),
            Err(e) => Network::named(name@) is None && e@ == AppErrorView::EndpointsNotFound(
                not_found_detail(name@),
            ),
        },
{
    match Network::from_name(name) {
        Some(network) => Ok(network),
        None => Err(endpoints_not_found(name)),
    }
}

/// The status of an answer that carries a body.
pub const STATUS_OK: u16 = 200;

/// The status of an answer that carries an error.
pub const STATUS_NOT_FOUND: u16 = 404;

/// What the route answers once the endpoints were asked: the body for a
/// result, and the error as it stands.
pub fn finalized(fetched: Result<DisplayableResult, AppError>, query_params: QueryParams) -> (r:
    Result<ApiResponse, AppError>)
    ensures
        match (fetched, r) {
            (Ok(d), Ok(body)) => body@ == api_response_of(d@, query_params.verbose),
            (Err(e), Err(out)) => out@ == e@,
            _ => false,
        },
{
    match fetched {
        Ok(displayable_result) => Ok(ApiResponse::new(displayable_result, query_params.verbose)),
        Err(e) => Err(e),
    }
}

/// The status under which an answer is sent: 200 with a body, 404 with
/// an error.
pub fn status_of(answer: &Result<ApiResponse, AppError>) -> (status: u16)
    ensures
        status == (if answer is Ok {
            STATUS_OK
        } else {
            STATUS_NOT_FOUND
        }),
{
    match answer {
        Ok(_) => STATUS_OK,
        Err(_) => STATUS_NOT_FOUND,
    }
}

} // verus!

//! The closed set of error kinds and their string form.

use vstd::prelude::*;
use vstd::string::*;

verus! {

/// What can go wrong: an endpoint that did not answer usably, a
/// configuration with too few endpoints, or a network without endpoints.
#[derive(Debug)]
pub enum AppError {
    EndpointResponseError(String),
    EndpointsBelowThreshold(String),
    EndpointsNotFound(String),
}

/// The mathematical value of an [`AppError`].
pub enum AppErrorView {
    EndpointResponseError(Seq<char>),
    EndpointsBelowThreshold(Seq<char>),
    EndpointsNotFound(Seq<char>),
}

impl AppErrorView {
    /// The detail text the error carries, whatever its kind.
    pub open spec fn detail(self) -> Seq<char> {
        match self {
            AppErrorView::EndpointResponseError(d) => d,
            AppErrorView::EndpointsBelowThreshold(d) => d,
            AppErrorView::EndpointsNotFound(d) => d,
        }
    }

    /// The string form: the prefix `Error: ` followed by the detail.
    pub open spec fn rendered(self) -> Seq<char> {
        "Error: "@ + self.detail()
    }
}

impl View for AppError {
    type V = AppErrorView;

    open spec fn view(&self) -> AppErrorView {
        match self {
            AppError::EndpointResponseError(d) => AppErrorView::EndpointResponseError(d@),
            AppError::EndpointsBelowThreshold(d) => AppErrorView::EndpointsBelowThreshold(d@),
            AppError::EndpointsNotFound(d) => AppErrorView::EndpointsNotFound(d@),
        }
    }
}

impl AppError {
    /// The detail text the error carries.
    pub fn detail(&self) -> (d: &String)
        ensures
            d@ == self@.detail(),
    {
        match self {
            AppError::EndpointResponseError(d) => d,
            AppError::EndpointsBelowThreshold(d) => d,
            AppError::EndpointsNotFound(d) => d,
        }
    }

    /// Renders the error as `Error: ` followed by its detail.
    pub fn to_string(&self) -> (s: String)
        ensures
            s@ == self@.rendered(),
    {
        let mut s = String::from_str("Error: ");
        s.append(self.detail().as_str());
        s
    }
}

impl Clone for AppError {
    fn clone(&self) -> (c: AppError)
        ensures
            c@ == self@,
    {
        match self {
            AppError::EndpointResponseError(d) => AppError::EndpointResponseError(d.clone()),
            AppError::EndpointsBelowThreshold(d) => AppError::EndpointsBelowThreshold(d.clone()),
            AppError::EndpointsNotFound(d) => AppError::EndpointsNotFound(d.clone()),
        }
    }
}

} // verus!

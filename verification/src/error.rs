//! The failures that the library reports.

use vstd::prelude::*;
use vstd::std_specs::convert::FromSpecImpl;
use vstd::string::*;

verus! {

/// `reqwest::Error`: a failure of the transport. Its content is not read here.
#[verifier::external_type_specification]
#[verifier::external_body]
pub struct ExRequestError(reqwest::Error);

/// `json::Error`: why a text is not a JSON document. Its content is not read
/// here.
#[verifier::external_type_specification]
#[verifier::external_body]
pub struct ExJsonError(json::Error);

/// Why an operation of the library failed.
#[derive(Debug)]
pub enum OmegalulError {
    /// The request could not be sent or its response could not be received.
    ReqwestError(reqwest::Error),
    /// The response body is not a JSON document.
    JsonError(json::Error),
    /// The response body holds a number with a fraction of more digits than
    /// can be read.
    DigitsError,
    /// The response to the session start carries no client identifier.
    IdError,
    /// The status document carries no list of server names.
    ServersError,
    /// The status document lists no server at all.
    EmptyServers,
}

impl OmegalulError {
    /// A sentence for the user. For the two variants that wrap a cause, the
    /// sentence ends with the cause's own `Display` text.
    pub fn message(&self) -> (text: String)
        ensures
            match self {
                OmegalulError::ReqwestError(err) => exists|detail: String|
                    to_string_from_display_ensures::<reqwest::Error>(err, detail) && text@
                        == "Something went wrong requesting data from omegle: "@ + detail@,
                OmegalulError::JsonError(err) => exists|detail: String|
                    to_string_from_display_ensures::<json::Error>(err, detail) && text@
                        == "Something went wrong with parsing the json response: "@ + detail@,
                OmegalulError::DigitsError => text@ == "The response holds a number with too many digits"@,
                OmegalulError::IdError => text@ == "Could not get client I.D"@,
                OmegalulError::ServersError => text@ == "Could not get list of servers"@,
                OmegalulError::EmptyServers => text@ == "The list of servers is empty"@,
            },
    {
        match self {
            OmegalulError::ReqwestError(err) => {
                let detail = err.to_string();
                String::from_str("Something went wrong requesting data from omegle: ").concat(
                    detail.as_str(),
                )
            },
            OmegalulError::JsonError(err) => {
                let detail = err.to_string();
                String::from_str("Something went wrong with parsing the json response: ").concat(
                    detail.as_str(),
                )
            },
            OmegalulError::DigitsError => String::from_str(
                "The response holds a number with too many digits",
            ),
            OmegalulError::IdError => String::from_str("Could not get client I.D"),
            OmegalulError::ServersError => String::from_str("Could not get list of servers"),
            OmegalulError::EmptyServers => String::from_str("The list of servers is empty"),
        }
    }
}

impl From<reqwest::Error> for OmegalulError {
    fn from(err: reqwest::Error) -> (error: Self) {
        OmegalulError::ReqwestError(err)
    }
}

impl FromSpecImpl<reqwest::Error> for OmegalulError {
    open spec fn obeys_from_spec() -> bool {
        true
    }

    open spec fn from_spec(err: reqwest::Error) -> Self {
        OmegalulError::ReqwestError(err)
    }
}

impl From<json::Error> for OmegalulError {
    fn from(err: json::Error) -> (error: Self) {
        OmegalulError::JsonError(err)
    }
}

impl FromSpecImpl<json::Error> for OmegalulError {
    open spec fn obeys_from_spec() -> bool {
        true
    }

    open spec fn from_spec(err: json::Error) -> Self {
        OmegalulError::JsonError(err)
    }
}

} // verus!

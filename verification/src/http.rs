//! Trusted bindings for the HTTP transport. The engine only ever needs
//! one GET returning the body text and one form-encoded POST returning
//! the body text; both outcomes depend on the network, so nothing is
//! promised of them.

use vstd::prelude::*;

verus! {

/// The blocking HTTP client type of reqwest, carried opaquely.
#[verifier::external_type_specification]
#[verifier::external_body]
pub struct ExClient(reqwest::blocking::Client);

/// Relies on reqwest's blocking Client::get, send and text: one GET of
/// `url`, the whole body as text, or the transport's error as a string.
/// The outcome depends on the network.
#[verifier::external_body]
pub(crate) fn http_get(client: &reqwest::blocking::Client, url: &str) -> (r: Result<String, String>) {
    match client.get(url).send().and_then(|resp| resp.text()) {
        Ok(t) => Ok(t),
        Err(e) => Err(e.to_string()),
    }
}

/// Relies on reqwest's blocking Client::post, form, send and text: one
/// form-encoded POST of the given pairs to `url`, the whole body as
/// text, or the transport's error as a string. The outcome depends on
/// the network.
#[verifier::external_body]
pub(crate) fn http_post_form(
    client: &reqwest::blocking::Client,
    url: &str,
    params: &Vec<(String, String)>,
) -> (r: Result<String, String>) {
    match client.post(url).form(params).send().and_then(|resp| resp.text()) {
        Ok(t) => Ok(t),
        Err(e) => Err(e.to_string()),
    }
}

} // verus!

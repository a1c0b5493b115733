//! Error-page resolution: a status code maps to the configured page, or to
//! the conventional location when none is configured.

use vstd::prelude::*;

use crate::config::ServerConfig;
use crate::read::{spec_error_page_path, get_error_page_path as find_error_page_path};

verus! {

/// The path of the page to serve for a status code on this server.
pub fn get_error_page_path(server: &ServerConfig, status_code: u16) -> (r: String)
    ensures
        r@ == spec_error_page_path(server@.error_pages, status_code),
{
    find_error_page_path(server, status_code)
}

} // verus!

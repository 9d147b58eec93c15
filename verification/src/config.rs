//! Fixed endpoints and versions of the LemiCraft installation.
use vstd::prelude::*;

verus! {

pub const API_BASE: &'static str = "https://lemicraft.ru/api";

/// Players connect here, not to lemicraft.ru itself: a separate proxy host.
pub const SERVER_HOST: &'static str = "proxy.lemicraft.ru";

pub const SERVER_PORT: u16 = 25565;

/// The bare domain whose SRV record names the proxy.
pub const SERVER_SRV_DOMAIN: &'static str = "lemicraft.ru";

pub const MC_VERSION: &'static str = "1.21.10";

pub const FABRIC_LOADER: &'static str = "0.18.4";

/// `API_BASE` followed by `path`.
pub open spec fn api_url(path: Seq<char>) -> Seq<char> {
    API_BASE@ + path
}

/// The address of the API endpoint at `path`.
pub fn api_endpoint(path: &str) -> (u: String)
    ensures
        u@ == api_url(path@),
{
    crate::text::concat(API_BASE, path)
}

} // verus!

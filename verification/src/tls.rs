//! Which certificate answers a TLS handshake.

use vstd::prelude::*;
use crate::config::{site_for, Config, SiteConfig};
use crate::ssl_cert::SslCert;

verus! {

/// Why a handshake is refused.
#[derive(Clone, Copy, Debug, PartialEq, Eq, Structural)]
pub enum SniError {
    /// The client named no server, no site serves the name, or the site
    /// that serves it has no certificate: the name is not acknowledged.
    NoAck,
}

/// The index of the site whose certificate answers a handshake for
/// `server_name`: the site that serves the name, where it has a
/// certificate.
pub open spec fn certified_site(sites: Seq<SiteConfig>, server_name: Option<Seq<char>>) -> Option<
    int,
> {
    match server_name {
        Some(name) => match site_for(sites, name) {
            Some(i) => if 0 <= i < sites.len() && sites[i].ssl is Some {
                Some(i)
            } else {
                None
            },
            None => None,
        },
        None => None,
    }
}

/// What a name option holds.
pub open spec fn name_of(name: Option<&str>) -> Option<Seq<char>> {
    match name {
        Some(n) => Some(n@),
        None => None,
    }
}

/// The certificate that answers a handshake in which the client named
/// `server_name`, or the refusal of the handshake.
pub fn certificate_for<'a>(config: &'a Config, server_name: Option<&str>) -> (r: Result<
    &'a SslCert,
    SniError,
>)
    ensures
        match r {
            Ok(cert) => match certified_site(config.sites@, name_of(server_name)) {
                Some(i) => config.sites@[i].ssl == Some(*cert),
                None => false,
            },
            Err(e) => e == SniError::NoAck && certified_site(
                config.sites@,
                name_of(server_name),
            ) is None,
        },
{
    let name = match server_name {
        Some(n) => n,
        None => {
            return Err(SniError::NoAck);
        },
    };
    let site = match config.get_site(name) {
        Some(s) => s,
        None => {
            return Err(SniError::NoAck);
        },
    };
    match &site.ssl {
        Some(cert) => Ok(cert),
        None => Err(SniError::NoAck),
    }
}

} // verus!

//! The configuration as a YAML document.

use vstd::prelude::*;
use vstd::string::StringExecFns;
use crate::config::{
    config_view, default_header, scheme_of, Config, ConfigView, ForwardingView, IpForwarding,
    SiteConfig, SiteView,
};
use crate::document::{
    as_flag, as_number, as_text, entry, flag_if_any, number_if_any, text_entry, Node,
};
use crate::ssl_cert::SslCert;
use crate::text::text_of;

verus! {

/// A YAML document, as `serde_yml` holds it.
#[verifier::external_type_specification]
#[verifier::external_body]
pub struct ExYamlValue(serde_yml::Value);

/// What a YAML document holds: null, a truth value, a string, a sequence
/// of documents, a mapping of documents under its keys or a document with
/// a tag on it, each as the node of that kind; a number that `as_u64`
/// gives as a number; any other number as something else.
pub uninterp spec fn yaml_node(doc: serde_yml::Value) -> Node;

/// What the document holds that a text writes in YAML, as
/// `serde_yml::from_str` reads it; nothing where the text writes none.
pub uninterp spec fn yaml_read(text: Seq<char>) -> Option<Node>;

/// `serde_yml::from_str`: the document that a text writes, if it writes
/// one. What comes of a text depends on the text alone.
#[verifier::external_body]
fn yaml_parse(text: &str) -> (r: Option<serde_yml::Value>)
    ensures
        match r {
            Some(doc) => yaml_read(text@) == Some(yaml_node(doc)),
            None => yaml_read(text@) is None,
        },
{
    serde_yml::from_str(text).ok()
}

/// `serde_yml::Value::get` with a text index: the entry of a mapping
/// under the key, tags on the mapping being looked through, and nothing
/// where the document is no mapping or has no such key.
#[verifier::external_body]
fn yaml_get<'a>(doc: &'a serde_yml::Value, key: &str) -> (r: Option<&'a serde_yml::Value>)
    ensures
        match r {
            Some(part) => entry(yaml_node(*doc), key@) == Some(yaml_node(*part)),
            None => entry(yaml_node(*doc), key@) is None,
        },
{
    doc.get(key)
}

/// `serde_yml::Value::as_sequence`: the items of a document that is a
/// sequence, in their order, and nothing for any other document.
#[verifier::external_body]
fn yaml_items(doc: &serde_yml::Value) -> (r: Option<Vec<serde_yml::Value>>)
    ensures
        match r {
            Some(items) => yaml_node(*doc) == Node::List(
                Seq::new(items@.len(), |i: int| yaml_node(items@[i])),
            ),
            None => !(yaml_node(*doc) is List),
        },
{
    doc.as_sequence().cloned()
}

/// `serde_yml::Value::as_mapping`: whether a document is a mapping, one
/// with a tag on it not being one.
#[verifier::external_body]
fn yaml_is_mapping(doc: &serde_yml::Value) -> (r: bool)
    ensures
        r == (yaml_node(*doc) is Table),
{
    doc.as_mapping().is_some()
}

/// `serde_yml::Value::is_null`: whether a document is the null value.
#[verifier::external_body]
fn yaml_is_null(doc: &serde_yml::Value) -> (r: bool)
    ensures
        r == (yaml_node(*doc) is Null),
{
    doc.is_null()
}

/// `serde_yml::Value::as_str`: the text of a document that is a string,
/// and nothing for any other document.
#[verifier::external_body]
fn yaml_text(doc: &serde_yml::Value) -> (r: Option<String>)
    ensures
        text_of(r) == as_text(yaml_node(*doc)),
{
    doc.as_str().map(String::from)
}

/// `serde_yml::Value::as_u64`: the number of a document that is a whole
/// number from 0 to 2^64 - 1, and nothing for any other document.
#[verifier::external_body]
fn yaml_number(doc: &serde_yml::Value) -> (r: Option<u64>)
    ensures
        r == as_number(yaml_node(*doc)),
{
    doc.as_u64()
}

/// `serde_yml::Value::as_bool`: the truth value of a document that is
/// one, and nothing for any other document.
#[verifier::external_body]
fn yaml_flag(doc: &serde_yml::Value) -> (r: Option<bool>)
    ensures
        r == as_flag(yaml_node(*doc)),
{
    doc.as_bool()
}

/// The scheme that an entry names: the one that the name stands for, and
/// `fallback` where there is no name or the name stands for none.
pub open spec fn scheme_or(name: Option<Seq<char>>, fallback: ForwardingView) -> ForwardingView {
    match name {
        Some(n) => match scheme_of(n) {
            Some(mode) => mode,
            None => fallback,
        },
        None => fallback,
    }
}

/// The scheme that an entry names, or `fallback`.
pub fn forwarding_or(name: &Option<String>, fallback: IpForwarding) -> (r: IpForwarding)
    ensures
        r@ == scheme_or(text_of(*name), fallback@),
{
    match name {
        Some(n) => match IpForwarding::from_name(n.as_str()) {
            Some(mode) => mode,
            None => fallback,
        },
        None => fallback,
    }
}

/// The site that a site's entries make. Both keep-alive flags are set
/// where the entries do not say otherwise, and the client's address goes
/// into the header `X-Real-IP` where no known scheme is named.
pub fn site_of(
    domain: String,
    host: String,
    ssl: Option<SslCert>,
    enable_keep_alive: Option<bool>,
    support_keep_alive: Option<bool>,
    ip_forwarding: Option<String>,
    replace_host: Option<String>,
) -> (r: SiteConfig)
    ensures
        r@ == (SiteView {
            domain: domain@,
            host: host@,
            ssl: match ssl {
                Some(cert) => Some(cert@),
                None => None,
            },
            enable_keep_alive: match enable_keep_alive {
                Some(b) => b,
                None => true,
            },
            support_keep_alive: match support_keep_alive {
                Some(b) => b,
                None => true,
            },
            ip_forwarding: scheme_or(
                text_of(ip_forwarding),
                ForwardingView::Header(default_header()),
            ),
            replace_host: text_of(replace_host),
        }),
{
    SiteConfig {
        domain,
        host,
        ssl,
        enable_keep_alive: match enable_keep_alive {
            Some(b) => b,
            None => true,
        },
        support_keep_alive: match support_keep_alive {
            Some(b) => b,
            None => true,
        },
        ip_forwarding: forwarding_or(
            &ip_forwarding,
            IpForwarding::Header(String::from_str("X-Real-IP")),
        ),
        replace_host,
    }
}

/// The configuration that a document's entries make. The pool has 10
/// workers and the timeout is 10 seconds where the entries do not say
/// otherwise, and no address is taken over from a proxy in front where no
/// known scheme is named.
pub fn config_of(
    sites: Vec<SiteConfig>,
    http_host: String,
    https_host: String,
    threadpool_size: Option<usize>,
    connection_timeout: Option<u64>,
    incoming_ip_forwarding: Option<String>,
    websocket_host: Option<String>,
) -> (r: Config)
    ensures
        r.sites == sites,
        r.http_host == http_host,
        r.https_host == https_host,
        r.threadpool_size == match threadpool_size {
            Some(n) => n,
            None => 10,
        },
        r.connection_timeout == match connection_timeout {
            Some(n) => n,
            None => 10,
        },
        r.incoming_ip_forwarding@ == scheme_or(text_of(incoming_ip_forwarding), ForwardingView::Off),
        r.websocket_host == websocket_host,
{
    Config {
        sites,
        http_host,
        https_host,
        threadpool_size: match threadpool_size {
            Some(n) => n,
            None => 10,
        },
        connection_timeout: match connection_timeout {
            Some(n) => n,
            None => 10,
        },
        incoming_ip_forwarding: forwarding_or(&incoming_ip_forwarding, IpForwarding::Off),
        websocket_host,
    }
}

/// The certificate that a site's entries name: the files under `ssl_cert`
/// and `ssl_key`, where `ssl_cert` is there and not null. It is a failure
/// where one of the two is then no text.
pub open spec fn cert_in(site: Node) -> Result<Option<(Seq<char>, Seq<char>)>, ()> {
    match entry(site, "ssl_cert"@) {
        Some(part) => if part is Null {
            Ok(None)
        } else {
            match (as_text(part), text_entry(site, "ssl_key"@)) {
                (Some(cert), Some(key)) => Ok(Some((cert, key))),
                _ => Err(()),
            }
        },
        None => Ok(None),
    }
}

/// A truth value, and `true` where there is none.
pub open spec fn or_true(flag: Option<bool>) -> bool {
    match flag {
        Some(b) => b,
        None => true,
    }
}

/// The site that an item of `sites` writes. An item is a site where it is
/// a mapping with the texts `domain` and `host`, its certificate, where it
/// names one, is named by two texts, and its keep-alive flags, where it
/// has them, are truth values. Both flags are set where the item does not
/// say otherwise, the client's address goes into the header `X-Real-IP`
/// where `ip_forwarding` names no known scheme, and `replace_host` is
/// taken where it is a text.
pub open spec fn site_in(item: Node) -> Option<SiteView> {
    match (
        cert_in(item),
        text_entry(item, "domain"@),
        text_entry(item, "host"@),
        flag_if_any(item, "enable_keep_alive"@),
        flag_if_any(item, "support_keep_alive"@),
    ) {
        (Ok(ssl), Some(domain), Some(host), Ok(enable), Ok(support)) => if item is Table {
            Some(
                SiteView {
                    domain,
                    host,
                    ssl,
                    enable_keep_alive: or_true(enable),
                    support_keep_alive: or_true(support),
                    ip_forwarding: scheme_or(
                        text_entry(item, "ip_forwarding"@),
                        ForwardingView::Header(default_header()),
                    ),
                    replace_host: text_entry(item, "replace_host"@),
                },
            )
        } else {
            None
        },
        _ => None,
    }
}

/// The sites that the items write, where each of them writes one.
pub open spec fn sites_in(items: Seq<Node>) -> Option<Seq<SiteView>> {
    if forall|i: int| 0 <= i < items.len() ==> site_in(#[trigger] items[i]) is Some {
        Some(Seq::new(items.len(), |i: int| site_in(items[i]).unwrap()))
    } else {
        None
    }
}

/// A number, and 10 where there is none.
pub open spec fn or_ten(n: Option<u64>) -> u64 {
    match n {
        Some(v) => v,
        None => 10,
    }
}

/// The configuration that a document writes: the texts `http_host` and
/// `https_host`, the sites that the items of the sequence `sites` write,
/// the numbers `threadpool_size` and `connection_timeout`, each 10 where
/// it is not there, the scheme that `incoming_ip_forwarding` names, none
/// being taken over where it names no known one, and the text
/// `websocket_host` where there is one. There is no configuration where
/// one of the two hosts is no text, `sites` is no sequence of sites, one
/// of the numbers is there and is none, or the pool's size does not fit.
pub open spec fn config_in(doc: Node) -> Option<ConfigView> {
    match (
        text_entry(doc, "http_host"@),
        text_entry(doc, "https_host"@),
        number_if_any(doc, "threadpool_size"@),
        number_if_any(doc, "connection_timeout"@),
        entry(doc, "sites"@),
    ) {
        (Some(http_host), Some(https_host), Ok(pool), Ok(timeout), Some(Node::List(items))) => {
            match sites_in(items) {
                Some(sites) => if or_ten(pool) <= usize::MAX {
                    Some(
                        ConfigView {
                            sites,
                            http_host,
                            https_host,
                            threadpool_size: or_ten(pool) as usize,
                            connection_timeout: or_ten(timeout),
                            incoming_ip_forwarding: scheme_or(
                                text_entry(doc, "incoming_ip_forwarding"@),
                                ForwardingView::Off,
                            ),
                            websocket_host: text_entry(doc, "websocket_host"@),
                        },
                    )
                } else {
                    None
                },
                None => None,
            }
        },
        _ => None,
    }
}

/// The configuration that a YAML text writes: that of the document that
/// the text writes, and none where it writes no document.
pub open spec fn read_config(text: Seq<char>) -> Option<ConfigView> {
    match yaml_read(text) {
        Some(doc) => config_in(doc),
        None => None,
    }
}

/// The text entry of a mapping under a key: nothing where the document
/// has no such entry, or one that is no text.
fn entry_text(doc: &serde_yml::Value, key: &str) -> (r: Option<String>)
    ensures
        text_of(r) == text_entry(yaml_node(*doc), key@),
{
    match yaml_get(doc, key) {
        Some(v) => yaml_text(v),
        None => None,
    }
}

/// The truth value entry of a mapping under a key: nothing where the
/// mapping has no such entry, and a failure where the entry is no truth
/// value.
fn entry_flag(doc: &serde_yml::Value, key: &str) -> (r: Result<Option<bool>, ()>)
    ensures
        r == flag_if_any(yaml_node(*doc), key@),
{
    match yaml_get(doc, key) {
        Some(v) => match yaml_flag(v) {
            Some(b) => Ok(Some(b)),
            None => Err(()),
        },
        None => Ok(None),
    }
}

/// The number entry of a mapping under a key: nothing where the mapping
/// has no such entry, and a failure where the entry is no whole number.
fn entry_number(doc: &serde_yml::Value, key: &str) -> (r: Result<Option<u64>, ()>)
    ensures
        r == number_if_any(yaml_node(*doc), key@),
{
    match yaml_get(doc, key) {
        Some(v) => match yaml_number(v) {
            Some(n) => Ok(Some(n)),
            None => Err(()),
        },
        None => Ok(None),
    }
}

/// What a certificate option holds.
pub open spec fn cert_of(cert: Option<SslCert>) -> Option<(Seq<char>, Seq<char>)> {
    match cert {
        Some(c) => Some(c@),
        None => None,
    }
}

/// The certificate that a site's entries name.
fn entry_cert(site: &serde_yml::Value) -> (r: Result<Option<SslCert>, ()>)
    ensures
        match r {
            Ok(cert) => cert_in(yaml_node(*site)) == Ok::<Option<(Seq<char>, Seq<char>)>, ()>(
                cert_of(cert),
            ),
            Err(_) => cert_in(yaml_node(*site)) is Err,
        },
{
    match yaml_get(site, "ssl_cert") {
        Some(v) => if yaml_is_null(v) {
            Ok(None)
        } else {
            match (yaml_text(v), entry_text(site, "ssl_key")) {
                (Some(cert), Some(key)) => Ok(Some(SslCert::new(cert.as_str(), key.as_str()))),
                _ => Err(()),
            }
        },
        None => Ok(None),
    }
}

/// The site that an item of `sites` writes.
fn read_site(item: &serde_yml::Value) -> (r: Option<SiteConfig>)
    ensures
        match r {
            Some(site) => site_in(yaml_node(*item)) == Some(site@),
            None => site_in(yaml_node(*item)) is None,
        },
{
    if !yaml_is_mapping(item) {
        return None;
    }
    let ssl = match entry_cert(item) {
        Ok(c) => c,
        Err(_) => {
            return None;
        },
    };
    let domain = match entry_text(item, "domain") {
        Some(t) => t,
        None => {
            return None;
        },
    };
    let host = match entry_text(item, "host") {
        Some(t) => t,
        None => {
            return None;
        },
    };
    let enable = match entry_flag(item, "enable_keep_alive") {
        Ok(b) => b,
        Err(_) => {
            return None;
        },
    };
    let support = match entry_flag(item, "support_keep_alive") {
        Ok(b) => b,
        Err(_) => {
            return None;
        },
    };
    let forwarding = entry_text(item, "ip_forwarding");
    let replace = entry_text(item, "replace_host");
    Some(site_of(domain, host, ssl, enable, support, forwarding, replace))
}

/// A number of a document as a size, where it fits.
fn as_size(n: Option<u64>) -> (r: Option<Option<usize>>)
    ensures
        match n {
            Some(v) => if v <= usize::MAX {
                r == Some(Some(v as usize))
            } else {
                r is None
            },
            None => r == Some(None::<usize>),
        },
{
    match n {
        Some(v) => if v <= usize::MAX as u64 {
            Some(Some(v as usize))
        } else {
            None
        },
        None => Some(None),
    }
}

/// The sites that the items of a sequence write, where each writes one.
fn read_sites(items: &Vec<serde_yml::Value>) -> (r: Option<Vec<SiteConfig>>)
    ensures
        match r {
            Some(sites) => sites_in(Seq::new(items@.len(), |i: int| yaml_node(items@[i])))
                == Some(Seq::new(sites@.len(), |i: int| sites@[i]@)),
            None => sites_in(Seq::new(items@.len(), |i: int| yaml_node(items@[i]))) is None,
        },
{
    let ghost nodes = Seq::new(items@.len(), |i: int| yaml_node(items@[i]));
    let mut sites: Vec<SiteConfig> = Vec::new();
    let mut i: usize = 0;
    while i < items.len()
        invariant
            i <= items@.len(),
            nodes == Seq::new(items@.len(), |i: int| yaml_node(items@[i])),
            sites@.len() == i,
            forall|j: int| 0 <= j < i ==> site_in(#[trigger] nodes[j]) == Some(sites@[j]@),
        decreases items@.len() - i,
    {
        assert(nodes[i as int] == yaml_node(items@[i as int]));
        let site = match read_site(&items[i]) {
            Some(s) => s,
            None => {
                assert(site_in(nodes[i as int]) is None);
                return None;
            },
        };
        sites.push(site);
        i += 1;
    }
    assert(Seq::new(nodes.len(), |i: int| site_in(nodes[i]).unwrap()) =~= Seq::new(
        sites@.len(),
        |i: int| sites@[i]@,
    ));
    Some(sites)
}

impl Config {
    /// Reads the configuration that a YAML text writes: the texts
    /// `http_host` and `https_host`, the sequence `sites`, and, where they
    /// are wanted, `threadpool_size`, `connection_timeout`,
    /// `incoming_ip_forwarding` and `websocket_host`. There is no
    /// configuration where the text is no YAML document, a text that has
    /// to be there is not, a number is none or does not fit, or an item of
    /// `sites` is no site.
    pub fn parse(text: &str) -> (r: Option<Config>)
        ensures
            match r {
                Some(config) => read_config(text@) == Some(config_view(config)),
                None => read_config(text@) is None,
            },
    {
        let doc = match yaml_parse(text) {
            Some(d) => d,
            None => {
                return None;
            },
        };
        let http_host = match entry_text(&doc, "http_host") {
            Some(t) => t,
            None => {
                return None;
            },
        };
        let https_host = match entry_text(&doc, "https_host") {
            Some(t) => t,
            None => {
                return None;
            },
        };
        let pool = match entry_number(&doc, "threadpool_size") {
            Ok(n) => match as_size(n) {
                Some(size) => size,
                None => {
                    return None;
                },
            },
            Err(_) => {
                return None;
            },
        };
        let timeout = match entry_number(&doc, "connection_timeout") {
            Ok(n) => n,
            Err(_) => {
                return None;
            },
        };
        let incoming = entry_text(&doc, "incoming_ip_forwarding");
        let websocket = entry_text(&doc, "websocket_host");
        let list = match yaml_get(&doc, "sites") {
            Some(l) => l,
            None => {
                return None;
            },
        };
        let items = match yaml_items(list) {
            Some(v) => v,
            None => {
                return None;
            },
        };
        let sites = match read_sites(&items) {
            Some(s) => s,
            None => {
                return None;
            },
        };
        Some(config_of(sites, http_host, https_host, pool, timeout, incoming, websocket))
    }
}

} // verus!

//! The control channel: messages that set a site while the proxy runs.

use vstd::prelude::*;
use crate::config::{scheme_of, site_set, Config, IpForwarding};
use crate::document::{as_flag, as_text, entry, flag_entry, text_entry, Node};
use crate::text::text_of;

verus! {

/// A JSON document, as `serde_json` holds it.
#[verifier::external_type_specification]
#[verifier::external_body]
pub struct ExJsonValue(serde_json::Value);

/// What a JSON document holds: null, a truth value, a string, an array of
/// documents or an object of documents under its keys, each as the node of
/// that kind; a number that `as_u64` gives as a number; any other number
/// as something else.
pub uninterp spec fn json_node(doc: serde_json::Value) -> Node;

/// What the document holds that a text writes in JSON, as
/// `serde_json::from_str` reads it; nothing where the text writes none.
pub uninterp spec fn json_read(text: Seq<char>) -> Option<Node>;

/// `serde_json::from_str`: the document that a text writes, if it writes
/// one. What comes of a text depends on the text alone.
#[verifier::external_body]
fn json_parse(text: &str) -> (r: Option<serde_json::Value>)
    ensures
        match r {
            Some(doc) => json_read(text@) == Some(json_node(doc)),
            None => json_read(text@) is None,
        },
{
    serde_json::from_str(text).ok()
}

/// `serde_json::Value::get` with a text index: the member of an object
/// under the key, and nothing where the document is no object or has no
/// such key.
#[verifier::external_body]
fn json_get<'a>(doc: &'a serde_json::Value, key: &str) -> (r: Option<&'a serde_json::Value>)
    ensures
        match r {
            Some(part) => entry(json_node(*doc), key@) == Some(json_node(*part)),
            None => entry(json_node(*doc), key@) is None,
        },
{
    doc.get(key)
}

/// `serde_json::Value::as_str`: the text of a document that is a string,
/// and nothing for any other document.
#[verifier::external_body]
fn json_text(doc: &serde_json::Value) -> (r: Option<String>)
    ensures
        text_of(r) == as_text(json_node(*doc)),
{
    doc.as_str().map(String::from)
}

/// `serde_json::Value::as_bool`: the truth value of a document that is
/// one, and nothing for any other document.
#[verifier::external_body]
fn json_flag(doc: &serde_json::Value) -> (r: Option<bool>)
    ensures
        r == as_flag(json_node(*doc)),
{
    doc.as_bool()
}

/// A message asks for a site to be set, and says everything that takes:
/// its type is `set_site`, and it names a domain, a backend, both
/// keep-alive flags and a forwarding scheme that is known.
pub open spec fn sets_site(
    kind: Option<Seq<char>>,
    domain: Option<Seq<char>>,
    host: Option<Seq<char>>,
    enable_keep_alive: Option<bool>,
    support_keep_alive: Option<bool>,
    ip_forwarding: Option<Seq<char>>,
) -> bool {
    &&& kind == Some("set_site"@)
    &&& domain is Some
    &&& host is Some
    &&& enable_keep_alive is Some
    &&& support_keep_alive is Some
    &&& ip_forwarding is Some
    &&& scheme_of(ip_forwarding.unwrap()) is Some
}

/// Applies a message whose members have been read. A message of another
/// type than `set_site` is ignored. A `set_site` message sets the site
/// where it says everything that takes, and is refused, with nothing
/// changed, where it does not; so is a message without a type.
pub fn apply_message(
    config: &mut Config,
    kind: Option<String>,
    domain: Option<String>,
    host: Option<String>,
    enable_keep_alive: Option<bool>,
    support_keep_alive: Option<bool>,
    ip_forwarding: Option<String>,
) -> (r: Option<()>)
    ensures
        r is Some <==> (kind is Some && kind.unwrap()@ != "set_site"@) || sets_site(
            text_of(kind),
            text_of(domain),
            text_of(host),
            enable_keep_alive,
            support_keep_alive,
            text_of(ip_forwarding),
        ),
        final(config).http_host == old(config).http_host,
        final(config).https_host == old(config).https_host,
        final(config).threadpool_size == old(config).threadpool_size,
        final(config).connection_timeout == old(config).connection_timeout,
        final(config).incoming_ip_forwarding == old(config).incoming_ip_forwarding,
        final(config).websocket_host == old(config).websocket_host,
        if sets_site(
            text_of(kind),
            text_of(domain),
            text_of(host),
            enable_keep_alive,
            support_keep_alive,
            text_of(ip_forwarding),
        ) {
            site_set(
                old(config).sites@,
                final(config).sites@,
                domain.unwrap()@,
                host.unwrap()@,
                enable_keep_alive.unwrap(),
                support_keep_alive.unwrap(),
                scheme_of(ip_forwarding.unwrap()@).unwrap(),
            )
        } else {
            final(config).sites == old(config).sites
        },
{
    let kind = match kind {
        Some(k) => k,
        None => {
            return None;
        },
    };
    if !crate::config::same_text(kind.as_str(), "set_site") {
        return Some(());
    }
    match (domain, host, enable_keep_alive, support_keep_alive, ip_forwarding) {
        (Some(domain), Some(host), Some(enable), Some(support), Some(name)) => {
            match IpForwarding::from_name(name.as_str()) {
                Some(mode) => {
                    config.upsert(domain.as_str(), host.as_str(), enable, support, mode);
                    Some(())
                },
                None => None,
            }
        },
        _ => None,
    }
}

/// The text member of a document under a key: nothing where the document
/// is no object, has no such member, or has one that is no string.
fn member_text(doc: &serde_json::Value, key: &str) -> (r: Option<String>)
    ensures
        text_of(r) == text_entry(json_node(*doc), key@),
{
    match json_get(doc, key) {
        Some(v) => json_text(v),
        None => None,
    }
}

/// The truth value member of a document under a key: nothing where the
/// document is no object, has no such member, or has one that is no truth
/// value.
fn member_flag(doc: &serde_json::Value, key: &str) -> (r: Option<bool>)
    ensures
        r == flag_entry(json_node(*doc), key@),
{
    match json_get(doc, key) {
        Some(v) => json_flag(v),
        None => None,
    }
}

/// A message is of another type than `set_site`, and is passed over.
pub open spec fn passed_over(message: Node) -> bool {
    text_entry(message, "type"@) is Some && text_entry(message, "type"@) != Some("set_site"@)
}

/// A message asks for a site to be set and says everything that takes, in
/// its members `type`, `domain`, `host`, `enable_keep_alive`,
/// `support_keep_alive` and `ip_forwarding`.
pub open spec fn asks_site(message: Node) -> bool {
    sets_site(
        text_entry(message, "type"@),
        text_entry(message, "domain"@),
        text_entry(message, "host"@),
        flag_entry(message, "enable_keep_alive"@),
        flag_entry(message, "support_keep_alive"@),
        text_entry(message, "ip_forwarding"@),
    )
}

/// What a message does to the configuration: where it asks for a site to
/// be set, the site is set as its members say; otherwise the sites stay as
/// they are. Nothing else changes in either case. The message is taken
/// where it is passed over or sets a site, and refused otherwise.
pub open spec fn message_applied(message: Node, before: Config, after: Config, taken: bool) -> bool {
    &&& taken <==> passed_over(message) || asks_site(message)
    &&& after.http_host == before.http_host
    &&& after.https_host == before.https_host
    &&& after.threadpool_size == before.threadpool_size
    &&& after.connection_timeout == before.connection_timeout
    &&& after.incoming_ip_forwarding == before.incoming_ip_forwarding
    &&& after.websocket_host == before.websocket_host
    &&& if asks_site(message) {
        site_set(
            before.sites@,
            after.sites@,
            text_entry(message, "domain"@).unwrap(),
            text_entry(message, "host"@).unwrap(),
            flag_entry(message, "enable_keep_alive"@).unwrap(),
            flag_entry(message, "support_keep_alive"@).unwrap(),
            scheme_of(text_entry(message, "ip_forwarding"@).unwrap()).unwrap(),
        )
    } else {
        after.sites == before.sites
    }
}

/// Applies a message: reads its members `type`, `domain`, `host`,
/// `enable_keep_alive`, `support_keep_alive` and `ip_forwarding` and
/// applies them. A message of another type than `set_site` is passed
/// over; a `set_site` message that says everything sets the site; any
/// other message is refused and changes nothing.
pub fn on_message(config: &mut Config, data: &serde_json::Value) -> (r: Option<()>)
    ensures
        message_applied(json_node(*data), *old(config), *final(config), r is Some),
{
    let kind = member_text(data, "type");
    let domain = member_text(data, "domain");
    let host = member_text(data, "host");
    let enable = member_flag(data, "enable_keep_alive");
    let support = member_flag(data, "support_keep_alive");
    let name = member_text(data, "ip_forwarding");
    apply_message(config, kind, domain, host, enable, support, name)
}

/// Whether the channel goes on after a message.
#[derive(Clone, Copy, Debug, PartialEq, Eq, Structural)]
pub enum Flow {
    /// The next message is awaited.
    Continue,
    /// The channel's connection is left.
    Stop,
}

/// What a text message does: a text that writes no JSON document changes
/// nothing and the channel goes on; a document is applied as a message,
/// and the channel goes on where it is taken and is left where it is
/// refused.
pub open spec fn text_applied(text: Seq<char>, before: Config, after: Config, flow: Flow) -> bool {
    match json_read(text) {
        Some(message) => message_applied(message, before, after, flow == Flow::Continue),
        None => flow == Flow::Continue && after == before,
    }
}

/// Takes a text message from the channel.
pub fn on_text(config: &mut Config, text: &str) -> (r: Flow)
    ensures
        text_applied(text@, *old(config), *final(config), r),
{
    match json_parse(text) {
        Some(doc) => match on_message(config, &doc) {
            Some(_) => Flow::Continue,
            None => Flow::Stop,
        },
        None => Flow::Continue,
    }
}

} // verus!

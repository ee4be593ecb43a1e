//! Sites and the proxy's configuration: which backend serves which
//! domain, and how a client's address reaches it.

use vstd::prelude::*;
use vstd::string::StrSliceExecFns;
use vstd::string::StringExecFns;
use crate::scan::{first_hit, first_true, lemma_first_hit};
use crate::ssl_cert::SslCert;

verus! {

/// How a client's address is handed on to a backend, or taken over from a
/// proxy in front of this one.
#[derive(Debug)]
pub enum IpForwarding {
    /// One line of text, `IP:PORT`, before the request.
    Simple,
    /// A header of the given name inside the request head.
    Header(String),
    /// A binary prefix before the request.
    Modern,
    /// Nothing is added.
    Off,
}

/// What an `IpForwarding` holds.
pub enum ForwardingView {
    Simple,
    Header(Seq<char>),
    Modern,
    Off,
}

impl View for IpForwarding {
    type V = ForwardingView;

    open spec fn view(&self) -> ForwardingView {
        match self {
            IpForwarding::Simple => ForwardingView::Simple,
            IpForwarding::Header(name) => ForwardingView::Header(name@),
            IpForwarding::Modern => ForwardingView::Modern,
            IpForwarding::Off => ForwardingView::Off,
        }
    }
}

impl Clone for IpForwarding {
    fn clone(&self) -> (r: Self)
        ensures
            r == *self,
    {
        match self {
            IpForwarding::Simple => IpForwarding::Simple,
            IpForwarding::Header(name) => IpForwarding::Header(name.clone()),
            IpForwarding::Modern => IpForwarding::Modern,
            IpForwarding::Off => IpForwarding::Off,
        }
    }
}

/// The header that carries the client's address where no name is given.
pub open spec fn default_header() -> Seq<char> {
    "X-Real-IP"@
}

/// The scheme that a configured name stands for: `none`, `simple`,
/// `modern`, `header` with the default header, or `header:` followed by
/// the header's name. Any other name stands for nothing.
pub open spec fn scheme_of(name: Seq<char>) -> Option<ForwardingView> {
    if name == "none"@ {
        Some(ForwardingView::Off)
    } else if name == "simple"@ {
        Some(ForwardingView::Simple)
    } else if name == "modern"@ {
        Some(ForwardingView::Modern)
    } else if name == "header"@ {
        Some(ForwardingView::Header(default_header()))
    } else if "header:"@.is_prefix_of(name) {
        Some(ForwardingView::Header(name.subrange(7, name.len() as int)))
    } else {
        None
    }
}

/// Does `text` start with `prefix`?
pub fn starts_with(text: &str, prefix: &str) -> (r: bool)
    ensures
        r == prefix@.is_prefix_of(text@),
{
    let n: usize = prefix.unicode_len();
    if text.unicode_len() < n {
        return false;
    }
    let mut i: usize = 0;
    while i < n
        invariant
            i <= n,
            n == prefix@.len(),
            n <= text@.len(),
            forall|j: int| 0 <= j < i ==> text@[j] == prefix@[j],
        decreases n - i,
    {
        if text.get_char(i) != prefix.get_char(i) {
            return false;
        }
        i += 1;
    }
    assert(text@.subrange(0, n as int) =~= prefix@);
    true
}

/// Are `a` and `b` the same text?
pub fn same_text(a: &str, b: &str) -> (r: bool)
    ensures
        r == (a@ == b@),
{
    if a.unicode_len() != b.unicode_len() {
        return false;
    }
    let r = starts_with(a, b);
    proof {
        if r {
            assert(a@.subrange(0, b@.len() as int) =~= a@);
        }
    }
    r
}

impl IpForwarding {
    /// The scheme that a configured name stands for.
    pub fn from_name(name: &str) -> (r: Option<IpForwarding>)
        ensures
            match r {
                Some(mode) => scheme_of(name@) == Some(mode@),
                None => scheme_of(name@) is None,
            },
    {
        if same_text(name, "none") {
            Some(IpForwarding::Off)
        } else if same_text(name, "simple") {
            Some(IpForwarding::Simple)
        } else if same_text(name, "modern") {
            Some(IpForwarding::Modern)
        } else if same_text(name, "header") {
            Some(IpForwarding::Header(String::from_str("X-Real-IP")))
        } else if starts_with(name, "header:") {
            proof {
                reveal_strlit("header:");
            }
            let rest = name.substring_char(7, name.unicode_len());
            Some(IpForwarding::Header(String::from_str(rest)))
        } else {
            None
        }
    }
}

/// One site: a domain pattern, the backend that serves it, and how the
/// proxy treats connections to it.
#[derive(Debug)]
pub struct SiteConfig {
    /// The pattern that a requested name is matched against.
    pub domain: String,
    /// The backend's address, `host:port`.
    pub host: String,
    /// The site's certificate, where it can be reached over TLS.
    pub ssl: Option<SslCert>,
    /// May the client's connection stay open for further requests?
    pub enable_keep_alive: bool,
    /// Can the backend's connection be used for more than one request?
    pub support_keep_alive: bool,
    /// How the client's address reaches the backend.
    pub ip_forwarding: IpForwarding,
    /// The value that replaces the request's `Host` header, if any.
    pub replace_host: Option<String>,
}

/// What a `SiteConfig` holds.
pub struct SiteView {
    pub domain: Seq<char>,
    pub host: Seq<char>,
    pub ssl: Option<(Seq<char>, Seq<char>)>,
    pub enable_keep_alive: bool,
    pub support_keep_alive: bool,
    pub ip_forwarding: ForwardingView,
    pub replace_host: Option<Seq<char>>,
}

impl View for SiteConfig {
    type V = SiteView;

    open spec fn view(&self) -> SiteView {
        SiteView {
            domain: self.domain@,
            host: self.host@,
            ssl: match self.ssl {
                Some(cert) => Some(cert@),
                None => None,
            },
            enable_keep_alive: self.enable_keep_alive,
            support_keep_alive: self.support_keep_alive,
            ip_forwarding: self.ip_forwarding@,
            replace_host: match self.replace_host {
                Some(host) => Some(host@),
                None => None,
            },
        }
    }
}

impl Clone for SiteConfig {
    fn clone(&self) -> (r: Self)
        ensures
            r == *self,
    {
        SiteConfig {
            domain: self.domain.clone(),
            host: self.host.clone(),
            ssl: match &self.ssl {
                Some(cert) => Some(cert.clone()),
                None => None,
            },
            enable_keep_alive: self.enable_keep_alive,
            support_keep_alive: self.support_keep_alive,
            ip_forwarding: self.ip_forwarding.clone(),
            replace_host: match &self.replace_host {
                Some(host) => Some(host.clone()),
                None => None,
            },
        }
    }
}

/// Whether the pattern matches the whole of the text, as the wildcard
/// matcher of `wildcard_ex` decides it.
pub uninterp spec fn wildcard_matches(pattern: Seq<char>, text: Seq<char>) -> bool;

/// `wildcard_ex::is_match_simple`: whether `text` as a whole matches
/// `pattern`, in which `*`, `?` and `#` are wildcards. The answer depends
/// on the two texts alone.
#[verifier::external_body]
fn pattern_matches(pattern: &str, text: &str) -> (r: bool)
    ensures
        r == wildcard_matches(pattern@, text@),
{
    wildcard_ex::is_match_simple(pattern, text)
}

/// For each site, whether its domain pattern matches `name`.
pub open spec fn site_hits(sites: Seq<SiteConfig>, name: Seq<char>) -> Seq<bool> {
    Seq::new(sites.len(), |i: int| wildcard_matches(sites[i].domain@, name))
}

/// The index of the site that serves `name`: the first in the list whose
/// domain pattern matches it.
pub open spec fn site_for(sites: Seq<SiteConfig>, name: Seq<char>) -> Option<int> {
    first_hit(site_hits(sites, name))
}

/// The first match wins: the site that serves a name is the first in list
/// order whose domain pattern matches the name, and there is none only
/// where no pattern of the list matches. So the list and the name decide
/// the site.
pub proof fn lemma_first_match_wins(sites: Seq<SiteConfig>, name: Seq<char>)
    ensures
        match site_for(sites, name) {
            Some(i) => {
                &&& 0 <= i < sites.len()
                &&& wildcard_matches(sites[i].domain@, name)
                &&& forall|j: int| 0 <= j < i ==> !wildcard_matches((#[trigger] sites[j]).domain@, name)
            },
            None => forall|j: int|
                0 <= j < sites.len() ==> !wildcard_matches((#[trigger] sites[j]).domain@, name),
        },
{
    let hits = site_hits(sites, name);
    lemma_first_hit(hits);
    match first_hit(hits) {
        Some(i) => {
            assert(hits[i]);
            assert forall|j: int| 0 <= j < i implies !wildcard_matches(
                (#[trigger] sites[j]).domain@,
                name,
            ) by {
                assert(!hits[j]);
            }
        },
        None => {
            assert forall|j: int| 0 <= j < sites.len() implies !wildcard_matches(
                (#[trigger] sites[j]).domain@,
                name,
            ) by {
                assert(!hits[j]);
            }
        },
    }
}

/// The index of the first site whose domain is exactly `domain`.
pub open spec fn site_named(sites: Seq<SiteConfig>, domain: Seq<char>) -> Option<int> {
    first_hit(Seq::new(sites.len(), |i: int| sites[i].domain@ == domain))
}

/// Whether the list `after` is the list `before` with the site for
/// `domain` set: the first site of that very domain has the new values
/// and is otherwise as before, or, where there was none, a new site
/// without certificate and without replacement host stands at the end.
pub open spec fn site_set(
    before: Seq<SiteConfig>,
    after: Seq<SiteConfig>,
    domain: Seq<char>,
    host: Seq<char>,
    enable_keep_alive: bool,
    support_keep_alive: bool,
    ip_forwarding: ForwardingView,
) -> bool {
    match site_named(before, domain) {
        Some(i) => {
            &&& after.len() == before.len()
            &&& forall|j: int| 0 <= j < before.len() && j != i ==> after[j] == before[j]
            &&& after[i]@ == (SiteView {
                host,
                enable_keep_alive,
                support_keep_alive,
                ip_forwarding,
                ..before[i]@
            })
        },
        None => {
            &&& after.len() == before.len() + 1
            &&& forall|j: int| 0 <= j < before.len() ==> after[j] == before[j]
            &&& after[before.len() as int]@ == (SiteView {
                domain,
                host,
                ssl: None,
                enable_keep_alive,
                support_keep_alive,
                ip_forwarding,
                replace_host: None,
            })
        },
    }
}

/// The proxy's configuration.
#[derive(Debug)]
pub struct Config {
    /// The sites, in the order in which they are tried.
    pub sites: Vec<SiteConfig>,
    /// Where plain HTTP is accepted.
    pub http_host: String,
    /// Where TLS is accepted.
    pub https_host: String,
    /// How many workers serve the TLS listener.
    pub threadpool_size: usize,
    /// The time, in seconds, after which a read or a write is given up.
    pub connection_timeout: u64,
    /// How a proxy in front of this one hands the client's address on.
    pub incoming_ip_forwarding: IpForwarding,
    /// Where the control channel is accepted, if it is wanted.
    pub websocket_host: Option<String>,
}

/// What a `Config` holds.
pub struct ConfigView {
    pub sites: Seq<SiteView>,
    pub http_host: Seq<char>,
    pub https_host: Seq<char>,
    pub threadpool_size: usize,
    pub connection_timeout: u64,
    pub incoming_ip_forwarding: ForwardingView,
    pub websocket_host: Option<Seq<char>>,
}

/// What a configuration holds.
pub open spec fn config_view(config: Config) -> ConfigView {
    ConfigView {
        sites: Seq::new(config.sites@.len(), |i: int| config.sites@[i]@),
        http_host: config.http_host@,
        https_host: config.https_host@,
        threadpool_size: config.threadpool_size,
        connection_timeout: config.connection_timeout,
        incoming_ip_forwarding: config.incoming_ip_forwarding@,
        websocket_host: match config.websocket_host {
            Some(host) => Some(host@),
            None => None,
        },
    }
}

impl Config {
    /// For each site, whether its domain pattern matches `domain`.
    fn match_all(&self, domain: &str) -> (r: Vec<bool>)
        ensures
            r@ == site_hits(self.sites@, domain@),
    {
        let mut hits: Vec<bool> = Vec::new();
        let mut i: usize = 0;
        while i < self.sites.len()
            invariant
                i <= self.sites.len(),
                hits@.len() == i,
                forall|j: int|
                    0 <= j < i ==> hits@[j] == wildcard_matches(
                        (#[trigger] self.sites@[j]).domain@,
                        domain@,
                    ),
            decreases self.sites.len() - i,
        {
            hits.push(pattern_matches(self.sites[i].domain.as_str(), domain));
            i += 1;
        }
        assert(hits@ =~= site_hits(self.sites@, domain@));
        hits
    }

    /// The index of the site that serves `domain`.
    pub fn find_site(&self, domain: &str) -> (r: Option<usize>)
        ensures
            match r {
                Some(i) => site_for(self.sites@, domain@) == Some(i as int) && i < self.sites@.len(),
                None => site_for(self.sites@, domain@) is None,
            },
    {
        let hits = self.match_all(domain);
        proof {
            lemma_first_hit(hits@);
        }
        first_true(hits.as_slice())
    }

    /// The site that serves `domain`: the first in the list whose domain
    /// pattern matches it.
    pub fn get_site(&self, domain: &str) -> (r: Option<&SiteConfig>)
        ensures
            match r {
                Some(site) => match site_for(self.sites@, domain@) {
                    Some(i) => 0 <= i < self.sites@.len() && *site == self.sites@[i],
                    None => false,
                },
                None => site_for(self.sites@, domain@) is None,
            },
    {
        match self.find_site(domain) {
            Some(i) => Some(&self.sites[i]),
            None => None,
        }
    }

    /// The index of the first site whose domain is exactly `domain`.
    pub fn find_exact(&self, domain: &str) -> (r: Option<usize>)
        ensures
            match r {
                Some(i) => site_named(self.sites@, domain@) == Some(i as int) && i
                    < self.sites@.len(),
                None => site_named(self.sites@, domain@) is None,
            },
    {
        let ghost flags = Seq::new(self.sites@.len(), |i: int| self.sites@[i].domain@ == domain@);
        proof {
            lemma_first_hit(flags);
        }
        let mut i: usize = 0;
        while i < self.sites.len()
            invariant
                i <= self.sites.len(),
                flags == Seq::new(self.sites@.len(), |i: int| self.sites@[i].domain@ == domain@),
                forall|j: int| 0 <= j < i ==> !flags[j],
            decreases self.sites.len() - i,
        {
            if same_text(self.sites[i].domain.as_str(), domain) {
                proof {
                    assert(flags[i as int]);
                    lemma_first_hit(flags);
                }
                return Some(i);
            }
            assert(!flags[i as int]);
            i += 1;
        }
        None
    }

    /// Sets the site for `domain`. Where a site with exactly this domain
    /// exists, the first such site gets the new backend, keep-alive flags
    /// and forwarding scheme and keeps its place, its certificate and its
    /// replacement host. Otherwise a site with these values, without a
    /// certificate and without a replacement host, joins the end of the list.
    pub fn upsert(
        &mut self,
        domain: &str,
        host: &str,
        enable_keep_alive: bool,
        support_keep_alive: bool,
        ip_forwarding: IpForwarding,
    )
        ensures
            final(self).http_host == old(self).http_host,
            final(self).https_host == old(self).https_host,
            final(self).threadpool_size == old(self).threadpool_size,
            final(self).connection_timeout == old(self).connection_timeout,
            final(self).incoming_ip_forwarding == old(self).incoming_ip_forwarding,
            final(self).websocket_host == old(self).websocket_host,
            site_set(
                old(self).sites@,
                final(self).sites@,
                domain@,
                host@,
                enable_keep_alive,
                support_keep_alive,
                ip_forwarding@,
            ),
    {
        match self.find_exact(domain) {
            Some(i) => {
                let site = &self.sites[i];
                let updated = SiteConfig {
                    domain: site.domain.clone(),
                    host: String::from_str(host),
                    ssl: match &site.ssl {
                        Some(cert) => Some(cert.clone()),
                        None => None,
                    },
                    enable_keep_alive,
                    support_keep_alive,
                    ip_forwarding,
                    replace_host: match &site.replace_host {
                        Some(h) => Some(h.clone()),
                        None => None,
                    },
                };
                self.sites.set(i, updated);
            },
            None => {
                self.sites.push(
                    SiteConfig {
                        domain: String::from_str(domain),
                        host: String::from_str(host),
                        ssl: None,
                        enable_keep_alive,
                        support_keep_alive,
                        ip_forwarding,
                        replace_host: None,
                    },
                );
            },
        }
    }
}

} // verus!

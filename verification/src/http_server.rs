//! The single-read server: a request is taken from one read of the
//! client's connection, the client's address is put before it as a line of
//! text, and the backend is chosen by the exact name of the host.

use vstd::prelude::*;
use vstd::slice::slice_subrange;
use vstd::string::StringExecFns;
use vstd::utf8::{decode_utf8, valid_utf8};
use crate::addr::{AddrView, ClientAddr};
use crate::config::same_text;
use crate::number::{digits_of, parse_number, read_number, write_number, Radix};
use crate::request::{header_views, headers_of, Header};
use crate::scan::{first_hit, last_hit, last_true, lemma_first_hit, lemma_last_hit};
use crate::ssl_cert::SslCert;
use crate::text::{
    ascii, ascii_bytes, append, crlf, equals, find, find_bytes, head_end, lemma_find_from,
    lemma_split_pieces, lower, matches_at, split, split_bytes, to_lower, to_vec, trim, trim_bytes,
    utf8_str, views,
};

verus! {

/// A site of the single-read server: a host name and the backend for it.
#[derive(Debug)]
pub struct Site {
    /// The host name that the site serves.
    pub domain: String,
    /// The backend's address, `host:port`.
    pub host: String,
    /// The site's certificate, where it can be reached over TLS.
    pub ssl: Option<SslCert>,
}

impl Clone for Site {
    fn clone(&self) -> (r: Self)
        ensures
            r == *self,
    {
        Site {
            domain: self.domain.clone(),
            host: self.host.clone(),
            ssl: match &self.ssl {
                Some(cert) => Some(cert.clone()),
                None => None,
            },
        }
    }
}

/// The two parts of `s` round the first occurrence of `sep`.
pub open spec fn halves(s: Seq<u8>, sep: Seq<u8>) -> Option<(Seq<u8>, Seq<u8>)> {
    match find(s, sep) {
        Some(i) => Some((s.subrange(0, i), s.subrange(i + sep.len(), s.len() as int))),
        None => None,
    }
}

/// Splits `in_string` at the first occurrence of `separator`: what stands
/// before it and what stands behind it. Without an occurrence there is no
/// second part, and the split fails.
pub fn split_once<'a>(in_string: &'a [u8], separator: &[u8]) -> (r: Result<
    (&'a [u8], &'a [u8]),
    String,
>)
    ensures
        match r {
            Ok((first, second)) => halves(in_string@, separator@) == Some((first@, second@)),
            Err(_) => halves(in_string@, separator@) is None,
        },
{
    match find_bytes(in_string, separator) {
        Some(i) => {
            let n: usize = in_string.len();
            proof {
                lemma_find_from(in_string@, separator@, 0);
                assert(matches_at(in_string@, separator@, i as int));
                assert(i + separator@.len() <= n);
            }
            Ok((slice_subrange(in_string, 0, i), slice_subrange(in_string, i + separator.len(), n)))
        },
        None => Err(String::from_str("escond split nat foined")),
    }
}

/// For each site, whether its domain is exactly `domain`.
pub open spec fn exact_hits(sites: Seq<Site>, domain: Seq<char>) -> Seq<bool> {
    Seq::new(sites.len(), |i: int| sites[i].domain@ == domain)
}

/// The first site whose domain is exactly `domain`.
pub fn get_site(sites: &Vec<Site>, domain: &str) -> (r: Option<Site>)
    ensures
        match r {
            Some(site) => match first_hit(exact_hits(sites@, domain@)) {
                Some(i) => 0 <= i < sites@.len() && site == sites@[i],
                None => false,
            },
            None => first_hit(exact_hits(sites@, domain@)) is None,
        },
{
    let ghost flags = exact_hits(sites@, domain@);
    let mut i: usize = 0;
    while i < sites.len()
        invariant
            i <= sites@.len(),
            flags == exact_hits(sites@, domain@),
            forall|j: int| 0 <= j < i ==> !flags[j],
        decreases sites@.len() - i,
    {
        if same_text(sites[i].domain.as_str(), domain) {
            proof {
                assert(flags[i as int]);
                lemma_first_hit(flags);
            }
            return Some(sites[i].clone());
        }
        assert(!flags[i as int]);
        i += 1;
    }
    proof {
        lemma_first_hit(flags);
    }
    None
}

/// A header's key as the single-read server compares it: ASCII letters in
/// lower case, and an underscore for each hyphen.
pub open spec fn plain_key(key: Seq<u8>) -> Seq<u8> {
    Seq::new(
        key.len(),
        |i: int|
            if key[i] == 45 {
                95u8
            } else {
                lower(key[i])
            },
    )
}

/// For each header, whether its key, compared so, is `key`.
pub open spec fn keyed(hs: Seq<(Seq<u8>, Seq<u8>)>, key: Seq<u8>) -> Seq<bool> {
    Seq::new(hs.len(), |i: int| plain_key(hs[i].0) == key)
}

/// The host that a request names: the value of its last `host` header,
/// and `honk` where it has none.
pub open spec fn named_host(hs: Seq<(Seq<u8>, Seq<u8>)>) -> Seq<u8> {
    match last_hit(keyed(hs, ascii("host"@))) {
        Some(i) => hs[i].1,
        None => ascii("honk"@),
    }
}

/// The length that a request announces for its body: the number in its
/// last `content_length` header, and zero where it has none. There is no
/// length where the value of any such header is no number of at most `max`.
pub open spec fn announced(hs: Seq<(Seq<u8>, Seq<u8>)>, max: nat) -> Option<nat> {
    let flags = keyed(hs, ascii("content_length"@));
    if forall|i: int| 0 <= i < hs.len() && flags[i] ==> parse_number(hs[i].1, 10, max) is Some {
        match last_hit(flags) {
            Some(i) => parse_number(hs[i].1, 10, max),
            None => Some(0),
        }
    } else {
        None
    }
}

/// The address line that stands before a request: the client's IPv4
/// address in dotted decimal, `127.0.0.1` for a client that has none, a
/// colon, the port and a line feed.
pub open spec fn address_line(peer: AddrView) -> Seq<u8> {
    dotted(peer) + seq![58u8] + digits_of(peer.port as nat, 10) + seq![10u8]
}

/// The client's IPv4 address in dotted decimal, and `127.0.0.1` for a
/// client that has none.
pub open spec fn dotted(peer: AddrView) -> Seq<u8> {
    if peer.v4 {
        crate::addr::v4_text(peer.octets)
    } else {
        crate::addr::v4_text(seq![127u8, 0u8, 0u8, 1u8])
    }
}

/// What the single-read server does with a request.
#[derive(Debug)]
pub struct Plan {
    /// The backend to dial.
    pub backend: String,
    /// What is written to the backend first: the address line and all
    /// that was read of the request.
    pub first_write: Vec<u8>,
    /// How many bytes of the body are still to be read and handed on.
    pub rest: usize,
    /// The client's IP address, for the log.
    pub ip: Vec<u8>,
    /// The request's method.
    pub method: Vec<u8>,
    /// The host that the request names.
    pub host: Vec<u8>,
    /// The request's target.
    pub page: Vec<u8>,
}

/// What a `Plan` holds.
pub struct PlanView {
    pub backend: Seq<char>,
    pub first_write: Seq<u8>,
    pub rest: nat,
    pub ip: Seq<u8>,
    pub method: Seq<u8>,
    pub host: Seq<u8>,
    pub page: Seq<u8>,
}

impl View for Plan {
    type V = PlanView;

    open spec fn view(&self) -> PlanView {
        PlanView {
            backend: self.backend@,
            first_write: self.first_write@,
            rest: self.rest as nat,
            ip: self.ip@,
            method: self.method@,
            host: self.host@,
            page: self.page@,
        }
    }
}

/// What is to be done with the request that one read gave, `data`, from
/// the client at `peer`. The zero bytes round the request are left out.
/// The request has to be UTF-8 and to hold the blank line that ends its
/// head; its first line has to have two fields or more; every other line
/// of the head has to be a header; every `content_length` has to be a
/// number; and a site has to have the name of the host. Then the backend
/// of the first such site is dialled, it gets the address line and the
/// request, and what the announced length has more than the body that was
/// read is still to be handed on.
pub open spec fn plan_of(sites: Seq<Site>, data: Seq<u8>, peer: AddrView, max: nat) -> Option<
    PlanView,
> {
    let text = trim(data, 0);
    match halves(text, head_end()) {
        Some((head, body)) => {
            let ls = split(head, crlf());
            let fields = split(ls[0], seq![32u8]);
            let hs = headers_of(ls.subrange(1, ls.len() as int));
            let host = named_host(hs);
            if valid_utf8(text) && fields.len() >= 2 && hs.len() == ls.len() - 1 && valid_utf8(host) {
                match (announced(hs, max), first_hit(exact_hits(sites, decode_utf8(host)))) {
                    (Some(n), Some(i)) => Some(
                        PlanView {
                            backend: sites[i].host@,
                            first_write: address_line(peer) + text,
                            rest: if body.len() < n {
                                (n - body.len()) as nat
                            } else {
                                0
                            },
                            ip: dotted(peer),
                            method: fields[0],
                            host,
                            page: fields[1],
                        },
                    ),
                    _ => None,
                }
            } else {
                None
            }
        },
        None => None,
    }
}

/// A header's key as the single-read server compares it.
fn to_plain_key(key: &[u8]) -> (r: Vec<u8>)
    ensures
        r@ == plain_key(key@),
{
    let mut out: Vec<u8> = Vec::new();
    let mut i: usize = 0;
    while i < key.len()
        invariant
            i <= key@.len(),
            out@.len() == i,
            forall|j: int| 0 <= j < i ==> out@[j] == plain_key(key@)[j],
        decreases key@.len() - i,
    {
        if key[i] == 45 {
            out.push(95);
        } else {
            out.push(to_lower(key[i]));
        }
        i += 1;
    }
    assert(out@ =~= plain_key(key@));
    out
}

/// For each header, whether its key, compared so, is `key`.
fn flag_plain(headers: &Vec<Header>, key: &[u8]) -> (r: Vec<bool>)
    ensures
        r@ == keyed(header_views(headers@), key@),
{
    let mut flags: Vec<bool> = Vec::new();
    let mut i: usize = 0;
    while i < headers.len()
        invariant
            i <= headers@.len(),
            flags@.len() == i,
            forall|j: int| 0 <= j < i ==> flags@[j] == keyed(header_views(headers@), key@)[j],
        decreases headers@.len() - i,
    {
        let k = to_plain_key(headers[i].key.as_slice());
        flags.push(equals(k.as_slice(), key));
        i += 1;
    }
    assert(flags@ =~= keyed(header_views(headers@), key@));
    flags
}

/// The length that the headers announce.
fn read_announced(headers: &Vec<Header>) -> (r: Option<usize>)
    ensures
        match r {
            Some(n) => announced(header_views(headers@), usize::MAX as nat) == Some(n as nat),
            None => announced(header_views(headers@), usize::MAX as nat) is None,
        },
{
    proof {
        reveal_strlit("content_length");
    }
    let flags = flag_plain(headers, ascii_bytes("content_length"));
    let ghost hs = header_views(headers@);
    let mut i: usize = 0;
    while i < headers.len()
        invariant
            i <= headers@.len(),
            hs == header_views(headers@),
            flags@ == keyed(hs, ascii("content_length"@)),
            forall|j: int|
                0 <= j < i && flags@[j] ==> parse_number(hs[j].1, 10, usize::MAX as nat) is Some,
        decreases headers@.len() - i,
    {
        if flags[i] {
            if read_number(headers[i].value.as_slice(), Radix::Ten, usize::MAX).is_none() {
                return None;
            }
        }
        i += 1;
    }
    match last_true(flags.as_slice()) {
        Some(k) => {
            proof {
                lemma_last_hit(flags@);
            }
            read_number(headers[k].value.as_slice(), Radix::Ten, usize::MAX)
        },
        None => Some(0),
    }
}

/// The host that the headers name.
fn read_named_host(headers: &Vec<Header>) -> (r: Vec<u8>)
    ensures
        r@ == named_host(header_views(headers@)),
{
    proof {
        reveal_strlit("host");
        reveal_strlit("honk");
    }
    let flags = flag_plain(headers, ascii_bytes("host"));
    match last_true(flags.as_slice()) {
        Some(k) => {
            proof {
                lemma_last_hit(flags@);
            }
            to_vec(headers[k].value.as_slice())
        },
        None => to_vec(ascii_bytes("honk")),
    }
}

/// The client's IPv4 address in dotted decimal.
fn write_dotted(out: &mut Vec<u8>, peer: &ClientAddr)
    ensures
        final(out)@ == old(out)@ + dotted(peer@),
{
    let ip: [u8; 4] = match peer {
        ClientAddr::V4(ip, _) => *ip,
        ClientAddr::V6(_, _) => [127, 0, 0, 1],
    };
    write_number(out, ip[0] as u32, Radix::Ten);
    out.push(46);
    write_number(out, ip[1] as u32, Radix::Ten);
    out.push(46);
    write_number(out, ip[2] as u32, Radix::Ten);
    out.push(46);
    write_number(out, ip[3] as u32, Radix::Ten);
    proof {
        let shown: Seq<u8> = if peer@.v4 {
            peer@.octets
        } else {
            seq![127u8, 0u8, 0u8, 1u8]
        };
        assert(ip@ =~= shown);
        assert(out@ =~= old(out)@ + crate::addr::v4_text(shown));
    }
}

/// The sites and the listening address of a single-read server.
#[derive(Debug)]
pub struct SiteServer {
    host: String,
    sites: Vec<Site>,
}

impl SiteServer {
    /// A server that listens at `host` and serves `sites`.
    pub fn new(host: String, sites: Vec<Site>) -> (r: Self)
        ensures
            r.listen_host() == host,
            r.all_sites() == sites,
    {
        SiteServer { host, sites }
    }

    /// Where the server listens.
    pub closed spec fn listen_host(&self) -> String {
        self.host
    }

    /// The sites that the server serves.
    pub closed spec fn all_sites(&self) -> Vec<Site> {
        self.sites
    }

    /// Where the server listens.
    pub fn host(&self) -> (r: &String)
        ensures
            *r == self.listen_host(),
    {
        &self.host
    }

    /// The first site whose domain is exactly `domain`.
    pub fn get_site(&self, domain: &str) -> (r: Option<Site>)
        ensures
            match r {
                Some(site) => match first_hit(exact_hits(self.all_sites()@, domain@)) {
                    Some(i) => 0 <= i < self.all_sites()@.len() && site == self.all_sites()@[i],
                    None => false,
                },
                None => first_hit(exact_hits(self.all_sites()@, domain@)) is None,
            },
    {
        get_site(&self.sites, domain)
    }

    /// What is to be done with the request that one read gave.
    pub fn plan(&self, data: &[u8], peer: &ClientAddr) -> (r: Result<Plan, ()>)
        ensures
            match r {
                Ok(p) => plan_of(self.all_sites()@, data@, peer@, usize::MAX as nat) == Some(p@),
                Err(_) => plan_of(self.all_sites()@, data@, peer@, usize::MAX as nat) is None,
            },
    {
        let text = trim_bytes(data, 0);
        let term: Vec<u8> = vec![13u8, 10u8, 13u8, 10u8];
        assert(term@ =~= head_end());
        let (head, body) = match split_once(text.as_slice(), term.as_slice()) {
            Ok(parts) => parts,
            Err(_) => {
                return Err(());
            },
        };
        if utf8_str(text.as_slice()).is_none() {
            return Err(());
        }
        let sep: Vec<u8> = vec![13u8, 10u8];
        assert(sep@ =~= crlf());
        let lines = split_bytes(head, sep.as_slice());
        proof {
            lemma_split_pieces(head@, crlf());
            assert(views(lines@).len() == lines@.len());
            assert(views(lines@)[0] == lines@[0]@);
        }
        let space: Vec<u8> = vec![32u8];
        assert(space@ =~= seq![32u8]);
        let fields = split_bytes(lines[0].as_slice(), space.as_slice());
        assert(views(fields@).len() == fields@.len());
        if fields.len() < 2 {
            return Err(());
        }
        assert(views(fields@)[0] == fields@[0]@);
        assert(views(fields@)[1] == fields@[1]@);
        let headers = crate::request::read_headers(&lines, 1);
        assert(header_views(headers@).len() == headers@.len());
        if headers.len() != lines.len() - 1 {
            return Err(());
        }
        let host = read_named_host(&headers);
        let name = match utf8_str(host.as_slice()) {
            Some(t) => t,
            None => {
                return Err(());
            },
        };
        proof {
            vstd::utf8::encode_utf8_decode_utf8(name@);
        }
        let length = match read_announced(&headers) {
            Some(n) => n,
            None => {
                return Err(());
            },
        };
        let site = match self.get_site(name) {
            Some(s) => s,
            None => {
                return Err(());
            },
        };
        let mut ip: Vec<u8> = Vec::new();
        write_dotted(&mut ip, peer);
        let mut first_write: Vec<u8> = to_vec(ip.as_slice());
        first_write.push(58);
        write_number(&mut first_write, peer.port() as u32, Radix::Ten);
        first_write.push(10);
        append(&mut first_write, text.as_slice());
        assert(first_write@ =~= address_line(peer@) + text@);
        let rest: usize = if body.len() < length {
            length - body.len()
        } else {
            0
        };
        Ok(
            Plan {
                backend: site.host.clone(),
                first_write,
                rest,
                ip,
                method: to_vec(fields[0].as_slice()),
                host,
                page: to_vec(fields[1].as_slice()),
            },
        )
    }
}

} // verus!

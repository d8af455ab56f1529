//! The plain-HTTP front: it answers ACME challenges, and redirects everything
//! else to HTTPS or refuses it.
use crate::access::IpAddress;
use crate::challenge::{answer, ChallengeStore};
use crate::config::{Config, SocketAddress};
use crate::headers::{host_name, host_without_port};
use crate::numeral::{decimal, decimal_text};
use crate::text::{lemma_head, maybe, maybe_string};
use vstd::prelude::*;
use vstd::string::StringExecFns;

verus! {

/// What to do with a request that is not a challenge.
#[derive(Clone, Copy, Debug, PartialEq, Eq, Structural)]
pub enum NonChallenge {
    /// Redirect to HTTPS on this port, which the URL leaves out where it is
    /// 443.
    RedirectToHttps(u16),
    /// Reply 404: the front only answers challenges.
    NotFound,
}

/// A response of the front.
#[derive(Debug)]
pub struct FrontReply {
    pub status: u16,
    pub content_type: Option<String>,
    pub location: Option<String>,
    pub body: String,
}

/// A response of the front as text.
#[verifier::ext_equal]
pub struct FrontText {
    pub status: u16,
    pub content_type: Option<Seq<char>>,
    pub location: Option<Seq<char>>,
    pub body: Seq<char>,
}

impl View for FrontReply {
    type V = FrontText;

    open spec fn view(&self) -> FrontText {
        FrontText {
            status: self.status,
            content_type: maybe_string(self.content_type),
            location: maybe_string(self.location),
            body: self.body@,
        }
    }
}

/// The same host and path over HTTPS. A port that the `Host` header gives is
/// dropped.
pub open spec fn https_location(
    host: Option<Seq<char>>,
    path_and_query: Option<Seq<char>>,
    port: u16,
) -> Seq<char> {
    let name = match host {
        Some(h) => host_name(h),
        None => Seq::empty(),
    };
    let target = match path_and_query {
        Some(p) => p,
        None => seq!['/'],
    };
    "https://"@ + name + (if port == 443 {
        Seq::empty()
    } else {
        seq![':'] + decimal_text(port as nat)
    }) + target
}

/// The same host and path over HTTPS.
fn redirect_to_https(host: Option<&str>, path_and_query: Option<&str>, https_port: u16) -> (r:
    String)
    ensures
        r@ == https_location(maybe(host), maybe(path_and_query), https_port),
{
    let mut out = "https://".to_owned();
    if let Some(h) = host {
        let name = host_without_port(h);
        out.append(name.as_str());
    }
    let ghost middle = out@;
    if https_port != 443 {
        out.push(':');
        let port = decimal(https_port as u64);
        out.append(port.as_str());
    }
    match path_and_query {
        Some(p) => {
            out.append(p);
        },
        None => {
            out.push('/');
        },
    }
    assert(out@ =~= https_location(maybe(host), maybe(path_and_query), https_port));
    out
}

/// The response to one request: the answer of a challenge, or else what the
/// behavior says.
pub open spec fn front_reply(
    tokens: Map<Seq<char>, Seq<char>>,
    behavior: NonChallenge,
    path: Seq<char>,
    host: Option<Seq<char>>,
    path_and_query: Option<Seq<char>>,
) -> FrontText {
    match answer(tokens, path) {
        Some(body) => FrontText {
            status: 200,
            content_type: Some("text/plain"@),
            location: None,
            body,
        },
        None => match behavior {
            NonChallenge::RedirectToHttps(port) => FrontText {
                status: 308,
                content_type: None,
                location: Some(https_location(host, path_and_query, port)),
                body: Seq::empty(),
            },
            NonChallenge::NotFound => FrontText {
                status: 404,
                content_type: None,
                location: None,
                body: Seq::empty(),
            },
        },
    }
}

/// The response to one request. `host` is the `Host` header where it is text.
pub fn respond(
    store: &ChallengeStore,
    behavior: NonChallenge,
    path: &str,
    host: Option<&str>,
    path_and_query: Option<&str>,
) -> (r: FrontReply)
    ensures
        r@ == front_reply(store@, behavior, path@, maybe(host), maybe(path_and_query)),
{
    if let Some(body) = store.response_for(path) {
        return FrontReply {
            status: 200,
            content_type: Some("text/plain".to_owned()),
            location: None,
            body,
        };
    }
    match behavior {
        NonChallenge::RedirectToHttps(port) => FrontReply {
            status: 308,
            content_type: None,
            location: Some(redirect_to_https(host, path_and_query, port)),
            body: String::new(),
        },
        NonChallenge::NotFound => FrontReply {
            status: 404,
            content_type: None,
            location: None,
            body: String::new(),
        },
    }
}

/// Where the front listens and what it does, if there is one: a redirect where
/// one is configured; otherwise challenges only, where ACME is, at the address
/// given or at port 80 of every address.
pub open spec fn front_for(config: Config, acme_address: Option<SocketAddress>) -> Option<
    (SocketAddress, NonChallenge),
> {
    match config.http {
        Some(http) => Some((http.listen, NonChallenge::RedirectToHttps(config.listen.port))),
        None => if config.acme is Some {
            Some(
                (
                    match acme_address {
                        Some(a) => a,
                        None => SocketAddress { ip: IpAddress::V4(0), port: 80 },
                    },
                    NonChallenge::NotFound,
                ),
            )
        } else {
            None
        },
    }
}

/// Where the front listens and what it does, if there is one.
pub fn choose_front(config: &Config, acme_address: Option<SocketAddress>) -> (r: Option<
    (SocketAddress, NonChallenge),
>)
    ensures
        r == front_for(*config, acme_address),
{
    match &config.http {
        Some(http) => Some((http.listen, NonChallenge::RedirectToHttps(config.listen.port))),
        None => if config.acme.is_some() {
            let address = match acme_address {
                Some(a) => a,
                None => SocketAddress { ip: IpAddress::V4(0), port: 80 },
            };
            Some((address, NonChallenge::NotFound))
        } else {
            None
        },
    }
}

/// Where to find a listener: at the loopback address where it listens on
/// every IPv4 address.
pub open spec fn probe_of(address: SocketAddress) -> SocketAddress {
    if address.ip == IpAddress::V4(0) {
        SocketAddress { ip: IpAddress::V4(0x7f00_0001), port: address.port }
    } else {
        address
    }
}

/// The address by which to tell whether a listener accepts connections.
pub fn probe_address(address: SocketAddress) -> (r: SocketAddress)
    ensures
        r == probe_of(address),
{
    match address.ip {
        IpAddress::V4(0) => SocketAddress { ip: IpAddress::V4(0x7f00_0001), port: address.port },
        _ => address,
    }
}

/// A challenge is answered whatever the front does with other requests.
pub proof fn law_challenge_is_answered(
    tokens: Map<Seq<char>, Seq<char>>,
    behavior: NonChallenge,
    path: Seq<char>,
    host: Option<Seq<char>>,
    path_and_query: Option<Seq<char>>,
)
    ensures
        front_reply(tokens, behavior, path, host, path_and_query).status == 200 <==> answer(
            tokens,
            path,
        ) is Some,
        answer(tokens, path) matches Some(body) ==> front_reply(
            tokens,
            behavior,
            path,
            host,
            path_and_query,
        ).body == body,
{
}

/// A redirect leads to the same host and the same path and query, whether the
/// host comes with a port or not; the host is a name, an IPv4 address or an
/// IPv6 address in brackets.
pub proof fn law_redirect_keeps_host_and_path(
    host: Seq<char>,
    digits: Seq<char>,
    target: Seq<char>,
    port: u16,
)
    requires
        !host.contains(':') || (host.len() >= 2 && host[0] == '[' && host.last() == ']'
            && !host.drop_last().contains(']')),
        !(host.len() > 0 && host[0] == '[') || (host.last() == ']' && !host.drop_last().contains(
            ']',
        )),
    ensures
        https_location(Some(host), Some(target), port) == "https://"@ + host + (if port == 443 {
            Seq::empty()
        } else {
            seq![':'] + decimal_text(port as nat)
        }) + target,
        https_location(Some(host.push(':') + digits), Some(target), port) == https_location(
            Some(host),
            Some(target),
            port,
        ),
{
    let with_port = host.push(':') + digits;
    let n = host.len() as int;
    if n > 0 && host[0] == '[' {
        let inner = host.drop_last();
        assert forall|j: int| 0 <= j < n - 1 implies host[j] != ']' && with_port[j] != ']' by {
            assert(inner[j] == host[j]);
        }
        assert(host[n - 1] == ']' && with_port[n - 1] == ']');
        lemma_head(host, ']', n - 1);
        lemma_head(with_port, ']', n - 1);
        assert(host.take(n - 1).push(']') =~= host);
        assert(with_port.take(n - 1).push(']') =~= host);
    } else {
        assert forall|j: int| 0 <= j < n implies host[j] != ':' && with_port[j] != ':' by {
            assert(host.contains(host[j]));
        }
        lemma_head(host, ':', n);
        lemma_head(with_port, ':', n);
        assert(host.take(n) =~= host);
        assert(with_port.take(n) =~= host);
        if n == 0 {
            assert(with_port[0] == ':');
        }
    }
}

} // verus!

//! When certificates are obtained and renewed, what the plain-HTTP front
//! answers, and how files and time are followed.
use crate::access::IpAddress;
use crate::acme::{
    authorization_outcome, cached_files, contact_of, due, due_at_check, missing, not_after_of,
    order_trouble, tokens_after, unix_of, window_secs, AuthorizationStatus, Challenge,
};
use crate::challenge::{answer, token_of};
use crate::clock::Timestamp;
use crate::config::{Config, SocketAddress};
use crate::front::{front_for, front_reply, https_location, probe_of, NonChallenge};
use crate::headers::host_name;
use crate::metrics::class_of;
use crate::numeral::decimal_text;
use crate::text::starts;
use crate::tls::reloaded;
use vstd::prelude::*;

verus! {

/// A certificate is due exactly where less than the window is left until it
/// expires; one that cannot be read always is. The differences that seconds
/// cannot count do not arise for times within them.
pub proof fn law_when_a_certificate_is_due(not_after: i64, now: i64, window: i64)
    requires
        -0x4000_0000_0000_0000 <= not_after <= 0x3fff_ffff_ffff_ffff,
        -0x4000_0000_0000_0000 <= now <= 0x3fff_ffff_ffff_ffff,
    ensures
        due(Some(not_after), now, window) <==> now + window > not_after,
        due(None, now, window),
{
}

/// At a check a certificate is due so many days before it expires as are
/// configured; without one renewal is due at once.
pub proof fn law_renewal_is_days_before_expiry(
    pem: Seq<char>,
    not_after: i64,
    now: i64,
    days: u64,
)
    requires
        not_after_of(pem) == Some(not_after),
        -0x4000_0000_0000_0000 <= not_after <= 0x3fff_ffff_ffff_ffff,
        -0x4000_0000_0000_0000 <= now <= 0x3fff_ffff_ffff_ffff,
        days * 86_400 <= 0x7fff_ffff_ffff_ffff,
    ensures
        due_at_check(Some(pem), now, days) <==> now + days * 86_400 > not_after,
        due_at_check(None, now, days),
{
}

/// A window of more days than seconds can count is the longest that they can.
pub proof fn law_window_of_days(days: u64)
    ensures
        days * 86_400 <= 0x7fff_ffff_ffff_ffff ==> window_secs(days) == days * 86_400,
        days * 86_400 > 0x7fff_ffff_ffff_ffff ==> window_secs(days) == 0x7fff_ffff_ffff_ffff,
{
}

/// A certificate that cannot be read is due at every check.
pub proof fn law_unreadable_certificate_is_renewed(pem: Seq<char>, now: i64, days: u64)
    requires
        not_after_of(pem) is None,
    ensures
        due_at_check(Some(pem), now, days),
{
}

/// A certificate is obtained at the start unless both it and its key are there;
/// both lie in the directory that is configured, under names of their own.
pub proof fn law_certificate_and_key_are_kept(cert: bool, key: bool, dir: Seq<char>)
    requires
        dir.len() > 0,
        dir.last() != '/',
    ensures
        missing(cert, key) <==> !cert || !key,
        cached_files(dir).0 == dir + "/cert.pem"@,
        cached_files(dir).1 == dir + "/key.pem"@,
{
    reveal_strlit("/cert.pem");
    reveal_strlit("cert.pem");
    reveal_strlit("/key.pem");
    reveal_strlit("key.pem");
    assert(cached_files(dir).0 =~= dir + "/cert.pem"@);
    assert(cached_files(dir).1 =~= dir + "/key.pem"@);
}

/// The account is held by the configured address, as a mail URI.
pub proof fn law_account_is_held_by_the_address(email: Seq<char>)
    ensures
        contact_of(email).len() == 7 + email.len(),
        contact_of(email).take(7) == seq!['m', 'a', 'i', 'l', 't', 'o', ':'],
        contact_of(email).skip(7) == email,
{
    reveal_strlit("mailto:");
    assert(contact_of(email).take(7) =~= seq!['m', 'a', 'i', 'l', 't', 'o', ':']);
    assert(contact_of(email).skip(7) =~= email);
}

/// A valid authorization needs nothing; a pending one has its challenge
/// completed, and fails where none is offered; any other fails.
pub proof fn law_authorization(challenge: Option<Challenge>, text: String)
    ensures
        authorization_outcome(AuthorizationStatus::Valid, challenge) == Ok::<bool, Seq<char>>(
            false,
        ),
        challenge is Some ==> authorization_outcome(AuthorizationStatus::Pending, challenge)
            == Ok::<bool, Seq<char>>(true),
        challenge is None ==> authorization_outcome(AuthorizationStatus::Pending, challenge)
            == Err::<bool, Seq<char>>("no http-01 challenge offered"@),
        authorization_outcome(AuthorizationStatus::Other(text), challenge) == Err::<
            bool,
            Seq<char>,
        >("unexpected authorization status: "@ + text@),
{
}

/// Handling an authorization puts the challenge of a pending one where it is
/// served, under its token, and changes no other challenge.
pub proof fn law_challenge_is_put_up(
    tokens: Map<Seq<char>, Seq<char>>,
    challenge: Challenge,
    text: String,
    other: Seq<char>,
)
    ensures
        tokens_after(
            tokens,
            AuthorizationStatus::Pending,
            Some(challenge),
        ).contains_key(challenge.token@),
        tokens_after(tokens, AuthorizationStatus::Pending, Some(challenge))[challenge.token@]
            == challenge.key_authorization@,
        other != challenge.token@ && tokens.contains_key(other) ==> tokens_after(
            tokens,
            AuthorizationStatus::Pending,
            Some(challenge),
        ).contains_key(other) && tokens_after(
            tokens,
            AuthorizationStatus::Pending,
            Some(challenge),
        )[other] == tokens[other],
        tokens_after(tokens, AuthorizationStatus::Valid, Some(challenge)) == tokens,
        tokens_after(tokens, AuthorizationStatus::Other(text), Some(challenge)) == tokens,
        tokens_after(tokens, AuthorizationStatus::Pending, None) == tokens,
{
}

/// An order is finalized exactly where it is ready; otherwise its status is
/// told.
pub proof fn law_order_must_be_ready(status: Seq<char>)
    ensures
        order_trouble(true, status) is None,
        order_trouble(false, status) == Some("order did not become ready: "@ + status),
{
}

/// A challenge is found by its token, which follows the well-known path and is
/// one part of the path.
pub proof fn law_challenge_is_found_by_its_token(token: Seq<char>, path: Seq<char>)
    ensures
        token_of(path) == Some(token) <==> path == "/.well-known/acme-challenge/"@ + token
            && token.len() > 0 && !token.contains('/'),
{
    let front = "/.well-known/acme-challenge/"@;
    let n = front.len() as int;
    assert(front == crate::challenge::WELL_KNOWN_PREFIX@);
    let whole = front + token;
    assert(whole.take(n) =~= front);
    assert(whole.skip(n) =~= token);
    if starts(path, front) {
        assert(path =~= path.take(n) + path.skip(n));
    }
}

/// What the front answers: a challenge with its text in plain; everything else
/// with a permanent redirect to the same place over HTTPS, or with 404, and with
/// no body.
pub proof fn law_front_answers(
    tokens: Map<Seq<char>, Seq<char>>,
    behavior: NonChallenge,
    path: Seq<char>,
    host: Option<Seq<char>>,
    target: Option<Seq<char>>,
    port: u16,
)
    ensures
        answer(tokens, path) matches Some(body) ==> {
            &&& front_reply(tokens, behavior, path, host, target).status == 200
            &&& front_reply(tokens, behavior, path, host, target).content_type == Some(
                "text/plain"@,
            )
            &&& front_reply(tokens, behavior, path, host, target).location is None
            &&& front_reply(tokens, behavior, path, host, target).body == body
        },
        answer(tokens, path) is None ==> {
            let redirect = front_reply(
                tokens,
                NonChallenge::RedirectToHttps(port),
                path,
                host,
                target,
            );
            let refusal = front_reply(tokens, NonChallenge::NotFound, path, host, target);
            &&& redirect.status == 308
            &&& redirect.location == Some(https_location(host, target, port))
            &&& redirect.content_type is None && redirect.body.len() == 0
            &&& refusal.status == 404
            &&& refusal.location is None && refusal.content_type is None && refusal.body.len() == 0
        },
{
}

/// A redirect leads to the host without its port, to the HTTPS port where that
/// is not the usual one, and to the path and query, or the root where there are
/// none.
pub proof fn law_redirect_leads_to_https(
    host: Option<Seq<char>>,
    target: Option<Seq<char>>,
    port: u16,
)
    ensures
        ({
            let name = if host is Some {
                host_name(host->0)
            } else {
                Seq::empty()
            };
            let rest = if target is Some {
                target->0
            } else {
                seq!['/']
            };
            &&& port == 443 ==> https_location(host, target, port) == "https://"@ + name + rest
            &&& port != 443 ==> https_location(host, target, port) == "https://"@ + name + seq![':']
                + decimal_text(port as nat) + rest
        }),
{
    let name = if host is Some {
        host_name(host->0)
    } else {
        Seq::empty()
    };
    let rest = if target is Some {
        target->0
    } else {
        seq!['/']
    };
    if port == 443 {
        assert(https_location(host, target, port) =~= "https://"@ + name + rest);
    } else {
        assert(https_location(host, target, port) =~= "https://"@ + name + seq![':']
            + decimal_text(port as nat) + rest);
    }
}

/// There is a front exactly where a redirect or ACME is configured. A redirect
/// listens where it is told and leads to the port of the proxy; otherwise
/// challenges alone are answered, at the address given or on port 80.
pub proof fn law_where_the_front_listens(config: Config, address: SocketAddress)
    ensures
        front_for(config, Some(address)) is Some <==> config.http is Some || config.acme is Some,
        config.http matches Some(http) ==> front_for(config, Some(address)) == Some(
            (http.listen, NonChallenge::RedirectToHttps(config.listen.port)),
        ) && front_for(config, None) == front_for(config, Some(address)),
        config.http is None && config.acme is Some ==> {
            &&& front_for(config, Some(address)) == Some((address, NonChallenge::NotFound))
            &&& front_for(config, None) == Some(
                (
                    SocketAddress { ip: IpAddress::V4(0), port: 80 },
                    NonChallenge::NotFound,
                ),
            )
        },
{
}

/// A listener is probed at its own port, and at its own address unless that
/// stands for all of them: then at the loopback address.
pub proof fn law_listener_is_probed(address: SocketAddress)
    ensures
        probe_of(address).port == address.port,
        address.ip != IpAddress::V4(0) ==> probe_of(address).ip == address.ip,
        address.ip == IpAddress::V4(0) ==> probe_of(address).ip == IpAddress::V4(
            (127 * 0x100_0000 + 1) as u32,
        ),
{
}

/// A file that has changed is loaded again, and what is loaded is kept with its
/// time; a file that is missing gives nothing; one that cannot be loaded gives
/// nothing and leaves what was kept.
pub proof fn law_changed_file_is_reloaded<T, F: FnOnce() -> Option<T>>(
    before: Option<(Timestamp, T)>,
    after: Option<(Timestamp, T)>,
    mtime: Option<Timestamp>,
    load: F,
    value: Option<T>,
)
    requires
        reloaded(before, after, mtime, load, value),
    ensures
        mtime is None ==> value is None && after == before,
        mtime is Some && (before is None || (before->0).0.nanos != mtime->0.nanos) ==> {
            &&& call_ensures(load, (), value)
            &&& value matches Some(v) ==> after == Some((mtime->0, v))
            &&& value is None ==> after == before
        },
{
}

/// Time goes on by whole seconds: a point so many seconds later is that far
/// away, as long as it can be written.
pub proof fn law_time_goes_on(t: Timestamp, secs: u64)
    ensures
        t.nanos + secs * 1_000_000_000 <= i128::MAX ==> t.later(secs as int).nanos == t.nanos + secs
            * 1_000_000_000,
        t.nanos + secs * 1_000_000_000 > i128::MAX ==> t.later(secs as int).nanos == i128::MAX,
        Timestamp::at_secs(secs as int).nanos == secs * 1_000_000_000,
        t.nanos <= t.later(secs as int).nanos,
{
    assert(secs * 1_000_000_000 <= 0xffff_ffff_ffff_ffff * 1_000_000_000) by (nonlinear_arith)
        requires
            secs <= 0xffff_ffff_ffff_ffff,
    ;
}

/// The whole seconds of a point in time are counted from the epoch: none
/// before it.
pub proof fn law_whole_seconds(t: Timestamp)
    ensures
        t.nanos < 0 ==> t.whole_secs() == 0 && unix_of(t) == 0,
        t.whole_secs() > 0x7fff_ffff_ffff_ffff ==> unix_of(t) == 0,
        0 <= t.nanos < 0x7fff_ffff_ffff_ffff * 1_000_000_000 ==> {
            &&& unix_of(t) == t.whole_secs()
            &&& t.whole_secs() * 1_000_000_000 <= t.nanos < (t.whole_secs() + 1) * 1_000_000_000
        },
{
}

/// A request is counted by the hundreds of its status; by itself where nothing
/// was written, and apart where the status is none of these.
pub proof fn law_status_class(status: u16)
    ensures
        status == 0 <==> class_of(status) == "none"@,
        status / 100 == 1 <==> class_of(status) == "1xx"@,
        status / 100 == 2 <==> class_of(status) == "2xx"@,
        status / 100 == 3 <==> class_of(status) == "3xx"@,
        status / 100 == 4 <==> class_of(status) == "4xx"@,
        status / 100 == 5 <==> class_of(status) == "5xx"@,
        (0 < status < 100 || status >= 600) <==> class_of(status) == "other"@,
{
    reveal_strlit("none");
    reveal_strlit("1xx");
    reveal_strlit("2xx");
    reveal_strlit("3xx");
    reveal_strlit("4xx");
    reveal_strlit("5xx");
    reveal_strlit("other");
    assert("none"@.len() == 4 && "1xx"@.len() == 3 && "other"@.len() == 5);
    assert("1xx"@[0] == '1' && "2xx"@[0] == '2' && "3xx"@[0] == '3' && "4xx"@[0] == '4'
        && "5xx"@[0] == '5');
    assert("2xx"@.len() == 3 && "3xx"@.len() == 3 && "4xx"@.len() == 3 && "5xx"@.len() == 3);
}

} // verus!

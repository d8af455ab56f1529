//! Automatic certificates: when one is obtained or renewed, and the decisions
//! made while an ACME order runs.
use crate::challenge::ChallengeStore;
use crate::clock::Timestamp;
use crate::config::AcmeConfig;
use crate::paths::{join_path, path_below};
use vstd::prelude::*;
use vstd::string::StringExecFns;

verus! {

/// Seconds in a day.
pub const SECONDS_PER_DAY: i64 = 86_400;

/// The seconds before expiry at which a certificate is due: the days given, as
/// far as they can be counted.
pub open spec fn window_secs(days: u64) -> int {
    if days * SECONDS_PER_DAY > i64::MAX {
        i64::MAX as int
    } else {
        days * SECONDS_PER_DAY
    }
}

/// The seconds before expiry at which a certificate is due for renewal.
pub fn renewal_window(days: u64) -> (r: i64)
    ensures
        r == window_secs(days),
{
    if days > 106_751_991_167_300 {
        i64::MAX
    } else {
        days as i64 * SECONDS_PER_DAY
    }
}

/// The expiry that `x509_parser` reads in the first certificate of a PEM text,
/// in seconds since the Unix epoch.
pub uninterp spec fn not_after_of(pem: Seq<char>) -> Option<i64>;

/// `x509_parser` reads the first block of a PEM text as a certificate; its
/// `notAfter` in Unix seconds is named `not_after_of`, which is none where the
/// text holds no certificate that can be read.
#[verifier::external_body]
fn cert_not_after_unix(cert_pem: &str) -> (r: Option<i64>)
    ensures
        r == not_after_of(cert_pem@),
{
    let entry = x509_parser::pem::Pem::iter_from_buffer(cert_pem.as_bytes()).next()?.ok()?;
    let cert = entry.parse_x509().ok()?;
    Some(cert.validity().not_after.timestamp())
}

/// Whether a certificate is due: it expires within the window, or its expiry
/// is unknown. Differences beyond the range of seconds count as its ends.
pub open spec fn due(not_after: Option<i64>, now_unix: i64, renew_before_secs: i64) -> bool {
    match not_after {
        Some(t) => {
            let left = if t - now_unix > i64::MAX {
                i64::MAX as int
            } else if t - now_unix < i64::MIN {
                i64::MIN as int
            } else {
                t - now_unix
            };
            left < renew_before_secs
        },
        None => true,
    }
}

/// Whether a certificate with this expiry is due for renewal.
pub fn renewal_due(not_after: Option<i64>, now_unix: i64, renew_before_secs: i64) -> (r: bool)
    ensures
        r == due(not_after, now_unix, renew_before_secs),
{
    match not_after {
        Some(t) => {
            let left: i64 = match t.checked_sub(now_unix) {
                Some(d) => d,
                None => if t < now_unix {
                    i64::MIN
                } else {
                    i64::MAX
                },
            };
            left < renew_before_secs
        },
        None => true,
    }
}

/// Whether the certificate should be renewed: it expires within
/// `renew_before_secs` of `now_unix`, or cannot be read.
pub fn needs_renewal(cert_pem: &str, now_unix: i64, renew_before_secs: i64) -> (r: bool)
    ensures
        r == due(not_after_of(cert_pem@), now_unix, renew_before_secs),
{
    let not_after = cert_not_after_unix(cert_pem);
    renewal_due(not_after, now_unix, renew_before_secs)
}

/// Whether renewal is due at a check, given the cached certificate, which is
/// absent where it could not be read.
pub fn check_due(cached: Option<&str>, now_unix: i64, config: &AcmeConfig) -> (r: bool)
    ensures
        r == due_at_check(crate::text::maybe(cached), now_unix, config.renew_before_days),
{
    let window: i64 = renewal_window(config.renew_before_days);
    match cached {
        Some(pem) => needs_renewal(pem, now_unix, window),
        None => true,
    }
}

/// A certificate that is due stays due: later, or with a longer window.
pub proof fn law_due_stays_due(
    not_after: Option<i64>,
    now: i64,
    later: i64,
    window: i64,
    longer: i64,
)
    requires
        due(not_after, now, window),
        now <= later,
        window <= longer,
    ensures
        due(not_after, later, longer),
{
}

/// The seconds since the Unix epoch; 0 where they cannot be counted.
pub open spec fn unix_of(now: Timestamp) -> int {
    if now.whole_secs() > i64::MAX {
        0
    } else {
        now.whole_secs() as int
    }
}

/// The seconds since the Unix epoch; 0 where they cannot be counted.
pub fn unix_seconds(now: Timestamp) -> (r: i64)
    ensures
        r == unix_of(now),
{
    let secs: u64 = now.to_secs();
    if secs > 0x7fff_ffff_ffff_ffff {
        0
    } else {
        secs as i64
    }
}

/// Whether renewal is due at a check, given the cached certificate, if any.
pub open spec fn due_at_check(cached: Option<Seq<char>>, now_unix: i64, days: u64) -> bool {
    match cached {
        Some(pem) => due(not_after_of(pem), now_unix, window_secs(days) as i64),
        None => true,
    }
}

/// Whether a certificate must be obtained at the start.
pub open spec fn missing(cert_exists: bool, key_exists: bool) -> bool {
    !(cert_exists && key_exists)
}

/// The paths of the certificate and the key below a directory.
pub open spec fn cached_files(dir: Seq<char>) -> (Seq<char>, Seq<char>) {
    (path_below(dir, "cert.pem"@), path_below(dir, "key.pem"@))
}

/// The contact of an account with an address.
pub open spec fn contact_of(email: Seq<char>) -> Seq<char> {
    "mailto:"@ + email
}

/// The cached certificate and key of an ACME configuration.
pub struct AcmeRunner {
    cert_path: String,
    key_path: String,
}

impl AcmeRunner {
    /// The path of the certificate.
    pub closed spec fn cert(&self) -> Seq<char> {
        self.cert_path@
    }

    /// The path of the key.
    pub closed spec fn key(&self) -> Seq<char> {
        self.key_path@
    }

    /// The files of an ACME configuration.
    pub fn new(config: &AcmeConfig) -> (r: AcmeRunner)
        ensures
            (r.cert(), r.key()) == cached_files(config.cache_dir@),
    {
        AcmeRunner {
            cert_path: join_path(config.cache_dir.as_str(), "cert.pem"),
            key_path: join_path(config.cache_dir.as_str(), "key.pem"),
        }
    }

    /// Whether a certificate must be obtained at the start: not where both
    /// files exist.
    pub fn must_obtain(cert_exists: bool, key_exists: bool) -> (r: bool)
        ensures
            r == missing(cert_exists, key_exists),
    {
        !(cert_exists && key_exists)
    }

    /// The paths of the certificate and the key.
    pub fn cert_paths(&self) -> (r: (String, String))
        ensures
            r.0@ == self.cert(),
            r.1@ == self.key(),
    {
        (self.cert_path.clone(), self.key_path.clone())
    }
}

/// The status of an authorization; any that an order does not expect is given
/// in words.
#[derive(Debug)]
pub enum AuthorizationStatus {
    Pending,
    Valid,
    Other(String),
}

/// A challenge offered: its token and key authorization.
#[derive(Debug)]
pub struct Challenge {
    pub token: String,
    pub key_authorization: String,
}

/// The contact of an account.
pub fn account_contact(acme: &AcmeConfig) -> (r: String)
    ensures
        r@ == contact_of(acme.email@),
{
    let mut out = "mailto:".to_owned();
    out.append(acme.email.as_str());
    out
}

/// What an authorization asks for: whether its challenge is to be completed,
/// or why the order fails.
pub open spec fn authorization_outcome(
    status: AuthorizationStatus,
    challenge: Option<Challenge>,
) -> Result<bool, Seq<char>> {
    match status {
        AuthorizationStatus::Valid => Ok(false),
        AuthorizationStatus::Pending => if challenge is Some {
            Ok(true)
        } else {
            Err("no http-01 challenge offered"@)
        },
        AuthorizationStatus::Other(text) => Err("unexpected authorization status: "@ + text@),
    }
}

/// The pending challenges once an authorization was handled: that of a pending
/// one is among them.
pub open spec fn tokens_after(
    tokens: Map<Seq<char>, Seq<char>>,
    status: AuthorizationStatus,
    challenge: Option<Challenge>,
) -> Map<Seq<char>, Seq<char>> {
    if status is Pending && challenge is Some {
        tokens.insert((challenge->0).token@, (challenge->0).key_authorization@)
    } else {
        tokens
    }
}

/// Handles one authorization of an order. A valid one needs nothing. The
/// challenge of a pending one is put where it is served; the result then tells
/// that it can be declared ready.
pub fn authorize(
    store: &mut ChallengeStore,
    status: &AuthorizationStatus,
    challenge: &Option<Challenge>,
) -> (r: Result<bool, String>)
    ensures
        match authorization_outcome(*status, *challenge) {
            Ok(ready) => r == Ok::<bool, String>(ready),
            Err(text) => r matches Err(t) && t@ == text,
        },
        final(store)@ == tokens_after(old(store)@, *status, *challenge),
{
    match status {
        AuthorizationStatus::Valid => Ok(false),
        AuthorizationStatus::Pending => match challenge {
            Some(c) => {
                store.insert(c.token.as_str(), c.key_authorization.as_str());
                Ok(true)
            },
            None => Err("no http-01 challenge offered".to_owned()),
        },
        AuthorizationStatus::Other(text) => {
            let mut out = "unexpected authorization status: ".to_owned();
            out.append(text.as_str());
            Err(out)
        },
    }
}

/// Why an order that was polled may not be finalized, if so.
pub open spec fn order_trouble(ready: bool, status: Seq<char>) -> Option<Seq<char>> {
    if ready {
        None
    } else {
        Some("order did not become ready: "@ + status)
    }
}

/// Whether an order that was polled may be finalized. Any status but ready,
/// given in words, ends it.
pub fn check_order_ready(ready: bool, status: &str) -> (r: Result<(), String>)
    ensures
        match r {
            Ok(_) => order_trouble(ready, status@) is None,
            Err(t) => order_trouble(ready, status@) == Some(t@),
        },
{
    if ready {
        return Ok(());
    }
    let mut out = "order did not become ready: ".to_owned();
    out.append(status);
    Err(out)
}

} // verus!

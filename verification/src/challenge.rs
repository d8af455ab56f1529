//! HTTP-01 ACME challenges.
//!
//! An ACME server proves control of a domain by fetching a token below
//! `/.well-known/acme-challenge/`. The client registers the token here, the
//! proxy serves it, and the client removes it once validation is complete.
use crate::text::{chars_of, maybe_string, starts, string_of, strip_prefix};
use vstd::hash_map::StringHashMap;
use vstd::prelude::*;

verus! {

/// The path prefix that HTTP-01 challenges are fetched from.
pub const WELL_KNOWN_PREFIX: &'static str = "/.well-known/acme-challenge/";

/// The token that a path asks for: what follows the prefix, where that is
/// neither empty nor holds a `/`.
pub open spec fn token_of(path: Seq<char>) -> Option<Seq<char>> {
    let token = path.skip(WELL_KNOWN_PREFIX@.len() as int);
    if starts(path, WELL_KNOWN_PREFIX@) && token.len() > 0 && !token.contains('/') {
        Some(token)
    } else {
        None
    }
}

/// What is served for a path.
pub open spec fn answer(tokens: Map<Seq<char>, Seq<char>>, path: Seq<char>) -> Option<Seq<char>> {
    match token_of(path) {
        Some(token) => if tokens.contains_key(token) {
            Some(tokens[token])
        } else {
            None
        },
        None => None,
    }
}

/// The pending HTTP-01 challenges: token to key authorization.
pub struct ChallengeStore {
    tokens: StringHashMap<String>,
}

impl View for ChallengeStore {
    type V = Map<Seq<char>, Seq<char>>;

    closed spec fn view(&self) -> Map<Seq<char>, Seq<char>> {
        self.tokens@.map_values(|s: String| s@)
    }
}

impl Default for ChallengeStore {
    /// An empty store.
    fn default() -> (r: ChallengeStore)
        ensures
            r@ == Map::<Seq<char>, Seq<char>>::empty(),
    {
        ChallengeStore::new()
    }
}

/// Whether the characters hold a `/`.
fn has_slash(s: &[char]) -> (r: bool)
    ensures
        r == s@.contains('/'),
{
    let mut i: usize = 0;
    while i < s.len()
        invariant
            i <= s.len(),
            forall|j: int| 0 <= j < i ==> s@[j] != '/',
        decreases s.len() - i,
    {
        if s[i] == '/' {
            return true;
        }
        i = i + 1;
    }
    false
}

impl ChallengeStore {
    /// An empty store.
    pub fn new() -> (r: ChallengeStore)
        ensures
            r@ == Map::<Seq<char>, Seq<char>>::empty(),
    {
        let r = ChallengeStore { tokens: StringHashMap::new() };
        assert(r@ =~= Map::<Seq<char>, Seq<char>>::empty());
        r
    }

    /// Registers a challenge token and the key authorization to serve for it.
    pub fn insert(&mut self, token: &str, key_authorization: &str)
        ensures
            final(self)@ == old(self)@.insert(token@, key_authorization@),
    {
        self.tokens.insert(token.to_owned(), key_authorization.to_owned());
        assert(self@ =~= old(self)@.insert(token@, key_authorization@));
    }

    /// Removes a challenge once it is no longer needed.
    pub fn remove(&mut self, token: &str)
        ensures
            final(self)@ == old(self)@.remove(token@),
    {
        self.tokens.remove(token);
        assert(self@ =~= old(self)@.remove(token@));
    }

    /// The body to serve where `path` is a challenge for a known token.
    pub fn response_for(&self, path: &str) -> (r: Option<String>)
        ensures
            maybe_string(r) == answer(self@, path@),
    {
        let chars = chars_of(path);
        let prefix = chars_of(WELL_KNOWN_PREFIX);
        match strip_prefix(chars.as_slice(), prefix.as_slice()) {
            Some(token) => {
                if token.len() == 0 || has_slash(token) {
                    return None;
                }
                let name = string_of(token);
                match self.tokens.get(name.as_str()) {
                    Some(text) => Some(text.clone()),
                    None => None,
                }
            },
            None => None,
        }
    }
}

/// A registered challenge is served under its token and nothing else changes;
/// once removed it is served no more.
pub proof fn law_challenge_is_served(
    tokens: Map<Seq<char>, Seq<char>>,
    token: Seq<char>,
    text: Seq<char>,
    path: Seq<char>,
)
    requires
        token.len() > 0,
        !token.contains('/'),
    ensures
        answer(tokens.insert(token, text), WELL_KNOWN_PREFIX@ + token) == Some(text),
        answer(tokens.remove(token), WELL_KNOWN_PREFIX@ + token) is None,
        path != WELL_KNOWN_PREFIX@ + token ==> answer(tokens.insert(token, text), path) == answer(
            tokens,
            path,
        ) && answer(tokens.remove(token), path) == answer(tokens, path),
{
    let whole = WELL_KNOWN_PREFIX@ + token;
    let n = WELL_KNOWN_PREFIX@.len() as int;
    assert(whole.take(n) =~= WELL_KNOWN_PREFIX@);
    assert(whole.skip(n) =~= token);
    if token_of(path) == Some(token) {
        assert(path =~= path.take(n) + path.skip(n));
    }
}

} // verus!

//! Authentication of one inbound call before any handler runs: the
//! interceptor reads the call's authorization header, parses a bearer
//! token, resolves the principal through the session index, and either
//! hands the principal back or rejects the call. Failure is fail-closed:
//! any step that cannot complete rejects the call.

use vstd::prelude::*;
use vstd::string::StrSliceExecFns;

use crate::sessions_cache::SessionsCache;
use crate::text::spec_trim;
use crate::text::trim_str;

verus! {

/// The index of the first space in `s`, or -1 when there is none.
pub open spec fn find_space(s: Seq<char>) -> int
    decreases s.len(),
{
    if s.len() == 0 {
        -1
    } else if s[0] == ' ' {
        0
    } else if find_space(s.drop_first()) == -1 {
        -1
    } else {
        find_space(s.drop_first()) + 1
    }
}

proof fn lemma_find_space_at(s: Seq<char>, i: int)
    requires
        0 <= i < s.len(),
        s[i] == ' ',
        forall|j: int| 0 <= j < i ==> s[j] != ' ',
    ensures
        find_space(s) == i,
    decreases i,
{
    if i > 0 {
        let t = s.drop_first();
        assert(forall|j: int| 0 <= j < i - 1 ==> t[j] != ' ');
        lemma_find_space_at(t, i - 1);
    }
}

proof fn lemma_find_space_none(s: Seq<char>)
    requires
        forall|j: int| 0 <= j < s.len() ==> s[j] != ' ',
    ensures
        find_space(s) == -1,
    decreases s.len(),
{
    if s.len() > 0 {
        let t = s.drop_first();
        assert(forall|j: int| 0 <= j < t.len() ==> t[j] != ' ');
        lemma_find_space_none(t);
    }
}

/// Whether `s` is the scheme "bearer", compared case-insensitively.
pub open spec fn is_bearer_scheme(s: Seq<char>) -> bool {
    &&& s.len() == 6
    &&& (s[0] == 'b' || s[0] == 'B')
    &&& (s[1] == 'e' || s[1] == 'E')
    &&& (s[2] == 'a' || s[2] == 'A')
    &&& (s[3] == 'r' || s[3] == 'R')
    &&& (s[4] == 'e' || s[4] == 'E')
    &&& (s[5] == 'r' || s[5] == 'R')
}

/// The token an authorization header value carries, if any: the header is
/// split at its first space into scheme and remainder; the scheme must be
/// "bearer" case-insensitively, and the remainder, trimmed of whitespace,
/// must be non-empty, and is the token.
pub open spec fn spec_parse_bearer(s: Seq<char>) -> Option<Seq<char>> {
    let i = find_space(s);
    if i < 0 {
        None
    } else if !is_bearer_scheme(s.take(i)) {
        None
    } else {
        let token = spec_trim(s.skip(i));
        if token.len() == 0 {
            None
        } else {
            Some(token)
        }
    }
}

fn is_bearer(s: &str, i: usize) -> (r: bool)
    requires
        i <= s@.len(),
        s@.len() <= usize::MAX,
    ensures
        r == is_bearer_scheme(s@.take(i as int)),
{
    if i != 6 {
        return false;
    }
    let c0 = s.get_char(0);
    let c1 = s.get_char(1);
    let c2 = s.get_char(2);
    let c3 = s.get_char(3);
    let c4 = s.get_char(4);
    let c5 = s.get_char(5);
    (c0 == 'b' || c0 == 'B') && (c1 == 'e' || c1 == 'E') && (c2 == 'a' || c2 == 'A') && (c3 == 'r'
        || c3 == 'R') && (c4 == 'e' || c4 == 'E') && (c5 == 'r' || c5 == 'R')
}

/// Parses a bearer token out of an authorization header value: the part
/// after the first space, trimmed, provided the scheme before the space is
/// "bearer" case-insensitively and the trimmed token is non-empty.
pub fn get_token(token: &str) -> (r: Option<String>)
    ensures
        match r {
            Some(t) => spec_parse_bearer(token@) == Some(t@),
            None => spec_parse_bearer(token@) is None,
        },
{
    let n = token.unicode_len();
    let mut i: usize = 0;
    while i < n && token.get_char(i) != ' '
        invariant
            n == token@.len(),
            i <= n,
            forall|j: int| 0 <= j < i ==> token@[j] != ' ',
        decreases n - i,
    {
        i += 1;
    }
    if i == n {
        proof {
            lemma_find_space_none(token@);
        }
        return None;
    }
    proof {
        lemma_find_space_at(token@, i as int);
    }
    if !is_bearer(token, i) {
        return None;
    }
    let rest = token.substring_char(i, n);
    proof {
        assert(token@.subrange(i as int, n as int) =~= token@.skip(i as int));
    }
    let trimmed = trim_str(rest);
    if trimmed.as_str().unicode_len() == 0 {
        return None;
    }
    Some(trimmed)
}

/// Why the interceptor rejected a call.
#[derive(Clone, Copy, PartialEq, Eq, Structural, Debug)]
pub enum AuthError {
    /// The header is missing, carries no bearer scheme, or its token is
    /// empty.
    InvalidToken,
    /// The token parsed, but no session maps it to a principal.
    SessionNotFound,
}

impl AuthError {
    /// The human-readable denial message the caller is shown.
    pub fn message(&self) -> (r: &'static str)
        ensures
            *self == AuthError::InvalidToken ==> r@ == "No valid auth token"@,
            *self == AuthError::SessionNotFound ==> r@ == "Session not found"@,
    {
        match self {
            AuthError::InvalidToken => "No valid auth token",
            AuthError::SessionNotFound => "Session not found",
        }
    }
}

/// The interceptor itself: holds the session index and checks one call's
/// authorization header at a time.
pub struct AuthInterceptor {
    cache: SessionsCache,
}

impl AuthInterceptor {
    /// The sessions the interceptor resolves tokens against.
    pub closed spec fn sessions(&self) -> Map<Seq<char>, i32> {
        self.cache@
    }

    pub fn new(cache: SessionsCache) -> (r: AuthInterceptor)
        ensures
            r.sessions() == cache@,
    {
        AuthInterceptor { cache }
    }

    /// Borrows the underlying session index, so login and logout flows can
    /// keep it in sync with the persisted sessions.
    pub fn cache_mut(&mut self) -> (r: &mut SessionsCache)
        ensures
            r@ == old(self).sessions(),
            final(self).sessions() == final(r)@,
    {
        &mut self.cache
    }

    /// Authenticates one call from its authorization header: resolves the
    /// bearer token through the session index and returns the principal, or
    /// the reason the call is rejected. No header, a non-bearer scheme or an
    /// empty token is an invalid token; a token no session maps is an
    /// unknown session.
    pub fn check(&self, header: Option<&str>) -> (r: Result<i32, AuthError>)
        ensures
            match header {
                None => r == Err::<i32, AuthError>(AuthError::InvalidToken),
                Some(h) => match spec_parse_bearer(h@) {
                    None => r == Err::<i32, AuthError>(AuthError::InvalidToken),
                    Some(token) => if self.sessions().contains_key(token) {
                        r == Ok::<i32, AuthError>(self.sessions()[token])
                    } else {
                        r == Err::<i32, AuthError>(AuthError::SessionNotFound)
                    },
                },
            },
    {
        match header {
            None => Err(AuthError::InvalidToken),
            Some(h) => {
                let token = get_token(h);
                match token {
                    None => Err(AuthError::InvalidToken),
                    Some(t) => match self.cache.get(t) {
                        None => Err(AuthError::SessionNotFound),
                        Some(user_id) => Ok(user_id),
                    },
                }
            },
        }
    }
}

} // verus!

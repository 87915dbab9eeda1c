//! Per-request authentication: path classification, the dispatch pass that
//! resolves an identity through the selected credential channel, and the
//! typed extractors handlers use to require or observe that identity.

use vstd::prelude::*;
use vstd::string::StrSliceExecFns;

use crate::database::{find_user_by_id, token_user_index, user_view, TestDatabase, User};

verus! {

/// The credential channel a request path selects.
#[derive(Clone, Copy, Debug, PartialEq, Eq, Structural)]
pub enum AuthMethod {
    Session,
    Http,
}

/// The position of the first occurrence of `target` at or after `from`.
pub open spec fn find_char_from(s: Seq<char>, target: char, from: int) -> Option<int>
    decreases s.len() - from,
{
    if from < 0 || from >= s.len() {
        None
    } else if s[from] == target {
        Some(from)
    } else {
        find_char_from(s, target, from + 1)
    }
}

/// `find_char_from` yields the first occurrence at or after `from`, and
/// `None` only when no later position holds the target.
pub proof fn lemma_find_char_from_spec(s: Seq<char>, target: char, from: int)
    requires
        0 <= from <= s.len(),
    ensures
        match find_char_from(s, target, from) {
            Some(i) => from <= i < s.len() && s[i] == target && forall|j: int|
                from <= j < i ==> s[j] != target,
            None => forall|j: int| from <= j < s.len() ==> s[j] != target,
        },
    decreases s.len() - from,
{
    if from < s.len() && s[from] != target {
        lemma_find_char_from_spec(s, target, from + 1);
    }
}

/// The request path's first segment: the text between the first `'/'` and
/// the `'/'` after it, or the end of the path.
pub open spec fn path_segment(path: Seq<char>) -> Option<Seq<char>> {
    match find_char_from(path, '/', 0) {
        None => None,
        Some(i) => match find_char_from(path, '/', i + 1) {
            None => Some(path.subrange(i + 1, path.len() as int)),
            Some(j) => Some(path.subrange(i + 1, j)),
        },
    }
}

/// How a request path selects its credential channel: the git-index and
/// api namespaces carry bearer tokens in a header, every other path is
/// authenticated by the browser session.
pub open spec fn auth_method_spec(path: Seq<char>) -> AuthMethod {
    match path_segment(path) {
        None => AuthMethod::Session,
        Some(seg) => if seg == "git"@ || seg == "api"@ {
            AuthMethod::Http
        } else {
            AuthMethod::Session
        },
    }
}

/// Finds the first occurrence of `target` at or after `from`.
fn find_char_index(s: &str, target: char, from: usize) -> (r: Option<usize>)
    requires
        from <= s@.len(),
    ensures
        match r {
            Some(i) => find_char_from(s@, target, from as int) == Some(i as int),
            None => find_char_from(s@, target, from as int) is None,
        },
{
    proof {
        lemma_find_char_from_spec(s@, target, from as int);
    }
    let len = s.unicode_len();
    let mut i: usize = from;
    while i < len
        invariant
            from <= i <= len == s@.len(),
            forall|j: int| from <= j < i ==> s@[j] != target,
            match find_char_from(s@, target, from as int) {
                Some(k) => from <= k < s@.len() && s@[k] == target && forall|j: int|
                    from <= j < k ==> s@[j] != target,
                None => forall|j: int| from <= j < s@.len() ==> s@[j] != target,
            },
        decreases len - i,
    {
        if s.get_char(i) == target {
            proof {
                assert(find_char_from(s@, target, from as int) == Some(i as int));
            }
            return Some(i);
        }
        i = i + 1;
    }
    None
}

/// Classifies a request path into its credential channel by its first
/// segment, as the dispatcher and the extractors both do.
pub fn auth_method(path: &str) -> (method: AuthMethod)
    ensures
        method == auth_method_spec(path@),
{
    let len = path.unicode_len();
    let first = match find_char_index(path, '/', 0) {
        Some(a) => a,
        None => {
            return AuthMethod::Session;
        },
    };
    proof {
        lemma_find_char_from_spec(path@, '/', 0);
    }
    let seg_start = first + 1;
    let seg_end = match find_char_index(path, '/', seg_start) {
        Some(b) => b,
        None => len,
    };
    proof {
        lemma_find_char_from_spec(path@, '/', seg_start as int);
    }
    let ghost seg = path@.subrange(seg_start as int, seg_end as int);
    proof {
        assert(path_segment(path@) == Some(seg));
        reveal_strlit("git");
        reveal_strlit("api");
    }
    let is_git = seg_end - seg_start == 3 && path.get_char(seg_start) == 'g' && path.get_char(
        seg_start + 1,
    ) == 'i' && path.get_char(seg_start + 2) == 't';
    let is_api = seg_end - seg_start == 3 && path.get_char(seg_start) == 'a' && path.get_char(
        seg_start + 1,
    ) == 'p' && path.get_char(seg_start + 2) == 'i';
    proof {
        if seg_end - seg_start == 3 {
            assert(seg[0] == path@[seg_start as int]);
            assert(seg[1] == path@[seg_start as int + 1]);
            assert(seg[2] == path@[seg_start as int + 2]);
        }
        if is_git {
            assert(seg =~= "git"@);
        } else {
            assert(seg != "git"@);
        }
        if is_api {
            assert(seg =~= "api"@);
        } else {
            assert(seg != "api"@);
        }
    }
    if is_git || is_api {
        AuthMethod::Http
    } else {
        AuthMethod::Session
    }
}

/// How an authentication failure is surfaced: a browser is redirected to
/// the login page, an API client gets a bare unauthorized response.
#[derive(Debug)]
pub enum AuthError {
    Redirect(String),
    Unauthorized,
}

impl Clone for AuthError {
    fn clone(&self) -> (r: Self)
        ensures
            match self {
                AuthError::Redirect(l) => r matches AuthError::Redirect(c) && c@ == l@,
                AuthError::Unauthorized => r matches AuthError::Unauthorized,
            },
    {
        match self {
            AuthError::Redirect(l) => AuthError::Redirect(l.clone()),
            AuthError::Unauthorized => AuthError::Unauthorized,
        }
    }
}

impl AuthError {
    /// The HTTP status code the hosting layer maps this failure to.
    pub fn status_code(&self) -> (code: u16)
        ensures
            code == match self {
                AuthError::Redirect(_) => 307u16,
                AuthError::Unauthorized => 403u16,
            },
    {
        match self {
            AuthError::Redirect(_) => 307,
            AuthError::Unauthorized => 403,
        }
    }

    /// The redirect target, where this failure is a redirect.
    pub fn location(&self) -> (loc: Option<&str>)
        ensures
            match self {
                AuthError::Redirect(l) => loc matches Some(s) && s@ == l@,
                AuthError::Unauthorized => loc is None,
            },
    {
        match self {
            AuthError::Redirect(l) => Some(l.as_str()),
            AuthError::Unauthorized => None,
        }
    }

    /// The JSON error body presented for an unauthorized API request.
    pub fn error_body(&self) -> (body: Option<&'static str>)
        ensures
            match self {
                AuthError::Redirect(_) => body is None,
                AuthError::Unauthorized => body matches Some(s) && s@
                    == "{\"errors\": [{\"detail\": \"Unauthorized user\"}]}"@,
            },
    {
        match self {
            AuthError::Redirect(_) => None,
            AuthError::Unauthorized => Some("{\"errors\": [{\"detail\": \"Unauthorized user\"}]}"),
        }
    }
}

/// A required identity: handlers that take one refuse to run without it.
#[derive(Debug)]
pub struct Authenticated(pub User);

impl Authenticated {
    /// Required-identity extraction. With an identity it succeeds; without
    /// one it fails channel-aware: a session-classified path asks for a
    /// redirect to the login page, a header-classified path for a bare
    /// unauthorized answer. The classification is recomputed from the path
    /// exactly as the dispatcher computes it.
    pub fn from_identity(identity: Option<User>, path: &str) -> (r: Result<
        Authenticated,
        AuthError,
    >)
        ensures
            match identity {
                Some(u) => r matches Ok(a) && a.0 == u,
                None => r matches Err(e) && match auth_method_spec(path@) {
                    AuthMethod::Session => e matches AuthError::Redirect(loc) && loc@
                        == "/login"@,
                    AuthMethod::Http => e matches AuthError::Unauthorized,
                },
            },
    {
        match identity {
            Some(u) => Ok(Authenticated(u)),
            None => match auth_method(path) {
                AuthMethod::Session => Err(AuthError::Redirect("/login".to_owned())),
                AuthMethod::Http => Err(AuthError::Unauthorized),
            },
        }
    }

    /// The authenticated user.
    pub fn user(&self) -> (u: &User)
        ensures
            *u == self.0,
    {
        &self.0
    }
}

/// An optional identity: extraction always succeeds, and the handler sees
/// either the identity or an explicit "no identity" value.
#[derive(Debug)]
pub struct OptionalAuthenticated(pub Option<User>);

impl OptionalAuthenticated {
    /// Optional-identity extraction: never fails.
    pub fn from_identity(identity: Option<User>) -> (r: OptionalAuthenticated)
        ensures
            r.0 == identity,
    {
        OptionalAuthenticated(identity)
    }

    /// The identity, if one was attached.
    pub fn user(&self) -> (u: &Option<User>)
        ensures
            *u == self.0,
    {
        &self.0
    }
}

/// One dispatch pass, run before the handler: classify the path, resolve
/// an identity through the selected channel, and hand it back to be
/// attached to the request. At most one store operation runs: a lookup by
/// session id, or one bearer-token verification. Every failure leaves the
/// request anonymous rather than failing it.
pub fn authenticate_request(
    db: &TestDatabase,
    path: &str,
    session_uid: Option<i32>,
    auth_header: Option<&str>,
) -> (identity: Option<User>)
    ensures
        match auth_method_spec(path@) {
            AuthMethod::Session => match session_uid {
                None => identity is None,
                Some(uid) => match find_user_by_id(db.users_view(), uid) {
                    None => identity is None,
                    Some(i) => identity matches Some(u) && user_view(u) == db.users_view()[i],
                },
            },
            AuthMethod::Http => match auth_header {
                None => identity is None,
                Some(h) => match token_user_index(db.users_view(), db.keys_view(), h@) {
                    None => identity is None,
                    Some(i) => identity matches Some(u) && user_view(u) == db.users_view()[i],
                },
            },
        },
{
    match auth_method(path) {
        AuthMethod::Session => match session_uid {
            Some(uid) => match db.get_user_by_id(uid) {
                Ok(found) => found,
                Err(_) => None,
            },
            None => None,
        },
        AuthMethod::Http => match auth_header {
            Some(h) => match db.verify_api_key(h.to_owned()) {
                Ok(found) => found,
                Err(_) => None,
            },
            None => None,
        },
    }
}

} // verus!

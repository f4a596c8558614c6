//! Credentials, and the client that carries them.

use vstd::prelude::*;
use crate::environment::Environment;
use crate::error::{ConfigError, FalError};

verus! {

/// A credential over plain sequences of characters: what contracts speak of.
pub enum CredentialsView {
    Key(Seq<char>),
    FromEnv(Seq<char>),
    KeyPair(Seq<char>, Seq<char>),
}

impl CredentialsView {
    /// Whether the credential can be rendered: every variant but the placeholder.
    pub open spec fn renderable(self) -> bool {
        !(self is FromEnv)
    }

    /// The text that stands for the credential in a header: a single key as it
    /// is, a pair as identifier, colon, secret.
    pub open spec fn rendered(self) -> Seq<char>
        recommends
            self.renderable(),
    {
        match self {
            CredentialsView::Key(key) => key,
            CredentialsView::KeyPair(key_id, secret) => key_id + seq![':'] + secret,
            CredentialsView::FromEnv(_) => Seq::empty(),
        }
    }
}

/// The names under which a single key is looked for, in order of priority.
pub open spec fn single_key_names() -> Seq<Seq<char>> {
    seq!["FAL_KEY"@, "FAL_API_KEY"@]
}

/// The value of the first of `names` that is set in `env`.
pub open spec fn first_set(env: Map<Seq<char>, Seq<char>>, names: Seq<Seq<char>>) -> Option<
    Seq<char>,
>
    decreases names.len(),
{
    if names.len() == 0 {
        None
    } else if env.contains_key(names[0]) {
        Some(env[names[0]])
    } else {
        first_set(env, names.drop_first())
    }
}

/// The credentials that an environment yields: a single key where one of
/// `single_key_names` is set, else a key pair where both of its variables are
/// set, else none.
pub open spec fn resolve(env: Map<Seq<char>, Seq<char>>) -> Option<CredentialsView> {
    match first_set(env, single_key_names()) {
        Some(key) => Some(CredentialsView::Key(key)),
        None => if env.contains_key("FAL_KEY_ID"@) && env.contains_key("FAL_SECRET"@) {
            Some(CredentialsView::KeyPair(env["FAL_KEY_ID"@], env["FAL_SECRET"@]))
        } else {
            None
        },
    }
}

/// How the client authenticates.
#[derive(Debug, Clone)]
pub enum ClientCredentials {
    /// A single API key.
    Key(String),
    /// A placeholder without a key of its own. It cannot be rendered.
    FromEnv(String),
    /// A key identifier and its secret.
    KeyPair(String, String),
}

impl View for ClientCredentials {
    type V = CredentialsView;

    open spec fn view(&self) -> CredentialsView {
        match self {
            ClientCredentials::Key(key) => CredentialsView::Key(key@),
            ClientCredentials::FromEnv(name) => CredentialsView::FromEnv(name@),
            ClientCredentials::KeyPair(key_id, secret) => CredentialsView::KeyPair(
                key_id@,
                secret@,
            ),
        }
    }
}

impl ClientCredentials {
    /// Resolves credentials from `env`: the first single key in order of
    /// priority, else the key pair, else an error.
    pub fn from_env(env: &Environment) -> (found: Result<ClientCredentials, ConfigError>)
        ensures
            match resolve(env@) {
                Some(credentials) => found matches Ok(c) && c@ == credentials,
                None => found matches Err(ConfigError::MissingCredentials),
            },
    {
        let candidates: [&str; 2] = ["FAL_KEY", "FAL_API_KEY"];
        let ghost names = single_key_names();
        let mut i: usize = 0;
        assert(names.skip(0) == names);
        while i < 2
            invariant
                i <= 2,
                names == single_key_names(),
                forall|j: int| 0 <= j < 2 ==> (#[trigger] candidates@[j])@ == names[j],
                first_set(env@, names) == first_set(env@, names.skip(i as int)),
            decreases 2 - i,
        {
            let ghost rest = names.skip(i as int);
            assert(rest[0] == names[i as int]);
            assert(rest.drop_first() == names.skip(i + 1));
            if let Some(key) = env.get(candidates[i]) {
                return Ok(ClientCredentials::Key(key));
            }
            i += 1;
        }
        assert(names.skip(2).len() == 0);
        if let Some(key_id) = env.get("FAL_KEY_ID") {
            if let Some(secret) = env.get("FAL_SECRET") {
                return Ok(ClientCredentials::KeyPair(key_id, secret));
            }
        }
        Err(ConfigError::MissingCredentials)
    }

    /// A single-key credential that holds `key` as it is.
    pub fn from_key(key: &str) -> (credentials: ClientCredentials)
        ensures
            credentials@ == CredentialsView::Key(key@),
    {
        ClientCredentials::Key(key.to_owned())
    }

    /// A key-pair credential that holds `key_id` and `secret` as they are.
    pub fn from_key_pair(key_id: &str, secret: &str) -> (credentials: ClientCredentials)
        ensures
            credentials@ == CredentialsView::KeyPair(key_id@, secret@),
    {
        ClientCredentials::KeyPair(key_id.to_owned(), secret.to_owned())
    }

    /// Whether the credential can be rendered.
    pub fn is_renderable(&self) -> (yes: bool)
        ensures
            yes == self@.renderable(),
    {
        match self {
            ClientCredentials::FromEnv(_) => false,
            _ => true,
        }
    }

    /// The text that stands for the credential in a header.
    pub fn render(&self) -> (text: String)
        requires
            self@.renderable(),
        ensures
            text@ == self@.rendered(),
    {
        match self {
            ClientCredentials::Key(key) => key.clone(),
            ClientCredentials::KeyPair(key_id, secret) => {
                let mut text = key_id.clone();
                text.append(":");
                proof {
                    reveal_strlit(":");
                    assert(":"@ == seq![':']);
                }
                text.append(secret.as_str());
                text
            },
            ClientCredentials::FromEnv(_) => vstd::pervasive::unreached(),
        }
    }
}

/// The host that calls go to: the value of `FAL_RUN_HOST` where it is set,
/// else `fal.run`.
pub open spec fn run_host(env: Map<Seq<char>, Seq<char>>) -> Seq<char> {
    if env.contains_key("FAL_RUN_HOST"@) {
        env["FAL_RUN_HOST"@]
    } else {
        "fal.run"@
    }
}

/// `path` without its first character, where that is a slash; else `path`.
pub open spec fn strip_leading_slash(path: Seq<char>) -> Seq<char> {
    if path.len() > 0 && path[0] == '/' {
        path.drop_first()
    } else {
        path
    }
}

/// The URL of `path` on `host`.
pub open spec fn url_for(host: Seq<char>, path: Seq<char>) -> Seq<char> {
    "https://"@ + host + seq!['/'] + strip_leading_slash(path)
}

/// The value of the `Authorization` header for a credential.
pub open spec fn authorization_for(credentials: CredentialsView) -> Seq<char>
    recommends
        credentials.renderable(),
{
    "Key "@ + credentials.rendered()
}

/// Whether a status code reports success: 200 to 299.
pub open spec fn is_success(status: u16) -> bool {
    200 <= status < 300
}

/// One call as it goes on the wire: a POST to `url` with a JSON body and the
/// header `header_name: header_value`.
#[derive(Debug, Clone)]
pub struct Request {
    /// Where the call goes.
    pub url: String,
    /// The name of the header that carries the credentials.
    pub header_name: String,
    /// The value of that header.
    pub header_value: String,
}

/// A client for one set of credentials. It holds nothing else: the host is
/// read from the environment that each call is given.
#[derive(Debug, Clone)]
pub struct FalClient {
    credentials: ClientCredentials,
}

impl View for FalClient {
    type V = CredentialsView;

    /// The credentials that the client was made with.
    closed spec fn view(&self) -> CredentialsView {
        self.credentials@
    }
}

/// `path` without one leading slash.
fn trim_leading_slash(path: &str) -> (rest: &str)
    ensures
        rest@ == strip_leading_slash(path@),
{
    if !path.is_empty() && path.get_char(0) == '/' {
        let n = path.unicode_len();
        let rest = path.substring_char(1, n);
        assert(rest@ == path@.drop_first());
        rest
    } else {
        path
    }
}

impl FalClient {
    /// The URL that a call of `path` goes to, under the host that `env` names.
    /// One leading slash of `path` is dropped.
    pub fn build_url(&self, env: &Environment, path: &str) -> (url: String)
        ensures
            url@ == url_for(run_host(env@), path@),
    {
        let host = match env.get("FAL_RUN_HOST") {
            Some(host) => host,
            None => String::from_str("fal.run"),
        };
        let mut url = String::from_str("https://");
        url.append(host.as_str());
        url.append("/");
        proof {
            reveal_strlit("/");
            assert("/"@ == seq!['/']);
        }
        url.append(trim_leading_slash(path));
        url
    }

    /// A client that authenticates with `credentials`.
    pub fn new(credentials: ClientCredentials) -> (client: FalClient)
        ensures
            client@ == credentials@,
    {
        FalClient { credentials }
    }

    /// The credentials that the client was made with.
    pub fn credentials(&self) -> (credentials: &ClientCredentials)
        ensures
            credentials@ == self@,
    {
        &self.credentials
    }

    /// The value of the `Authorization` header that every call carries.
    pub fn authorization(&self) -> (value: String)
        requires
            self@.renderable(),
        ensures
            value@ == authorization_for(self@),
    {
        let mut value = String::from_str("Key ");
        let rendered = self.credentials.render();
        value.append(rendered.as_str());
        value
    }

    /// The request that a call of `function_id` sends.
    pub fn request(&self, env: &Environment, function_id: &str) -> (request: Request)
        requires
            self@.renderable(),
        ensures
            request.url@ == url_for(run_host(env@), function_id@),
            request.header_name@ == "Authorization"@,
            request.header_value@ == authorization_for(self@),
    {
        Request {
            url: self.build_url(env, function_id),
            header_name: String::from_str("Authorization"),
            header_value: self.authorization(),
        }
    }
}

/// Where one of `names` is set and none before it is, `first_set` yields its
/// value, whichever of the later names are set.
pub proof fn lemma_first_set_is_first(
    env: Map<Seq<char>, Seq<char>>,
    names: Seq<Seq<char>>,
    i: int,
)
    requires
        0 <= i < names.len(),
        env.contains_key(names[i]),
        forall|j: int| 0 <= j < i ==> !env.contains_key(#[trigger] names[j]),
    ensures
        first_set(env, names) == Some(env[names[i]]),
    decreases names.len(),
{
    if i > 0 {
        let rest = names.drop_first();
        assert(!env.contains_key(names[0]));
        assert(rest[i - 1] == names[i]);
        assert forall|j: int| 0 <= j < i - 1 implies !env.contains_key(#[trigger] rest[j]) by {
            assert(rest[j] == names[j + 1]);
        }
        lemma_first_set_is_first(env, rest, i - 1);
    }
}

/// `first_set` yields nothing exactly where none of `names` is set.
pub proof fn lemma_first_set_none(env: Map<Seq<char>, Seq<char>>, names: Seq<Seq<char>>)
    ensures
        first_set(env, names) is None <==> forall|j: int|
            0 <= j < names.len() ==> !env.contains_key(#[trigger] names[j]),
    decreases names.len(),
{
    if names.len() > 0 {
        let rest = names.drop_first();
        lemma_first_set_none(env, rest);
        if first_set(env, names) is None {
            assert forall|j: int| 0 <= j < names.len() implies !env.contains_key(
                #[trigger] names[j],
            ) by {
                if j > 0 {
                    assert(rest[j - 1] == names[j]);
                }
            }
        }
        if forall|j: int| 0 <= j < names.len() ==> !env.contains_key(#[trigger] names[j]) {
            assert(!env.contains_key(names[0]));
            assert forall|j: int| 0 <= j < rest.len() implies !env.contains_key(
                #[trigger] rest[j],
            ) by {
                assert(rest[j] == names[j + 1]);
            }
        }
    }
}

/// A single key is taken from the first variable, in the order `FAL_KEY`,
/// `FAL_API_KEY`, that is set: `FAL_KEY` wins wherever it is set, and
/// `FAL_API_KEY` is used only where `FAL_KEY` is not. Whether the key pair is
/// set as well plays no part.
pub proof fn lemma_single_key_priority(env: Map<Seq<char>, Seq<char>>)
    ensures
        env.contains_key("FAL_KEY"@) ==> resolve(env) == Some(
            CredentialsView::Key(env["FAL_KEY"@]),
        ),
        !env.contains_key("FAL_KEY"@) && env.contains_key("FAL_API_KEY"@) ==> resolve(env) == Some(
            CredentialsView::Key(env["FAL_API_KEY"@]),
        ),
{
    let names = single_key_names();
    if env.contains_key("FAL_KEY"@) {
        lemma_first_set_is_first(env, names, 0);
    } else if env.contains_key("FAL_API_KEY"@) {
        lemma_first_set_is_first(env, names, 1);
    }
}

/// The order in which two variables were set plays no part in what is
/// resolved.
pub proof fn lemma_resolve_ignores_order(
    env: Map<Seq<char>, Seq<char>>,
    first: Seq<char>,
    first_value: Seq<char>,
    second: Seq<char>,
    second_value: Seq<char>,
)
    requires
        first != second,
    ensures
        resolve(env.insert(first, first_value).insert(second, second_value)) == resolve(
            env.insert(second, second_value).insert(first, first_value),
        ),
{
    assert(env.insert(first, first_value).insert(second, second_value) == env.insert(
        second,
        second_value,
    ).insert(first, first_value));
}

/// Where no single key is set and both `FAL_KEY_ID` and `FAL_SECRET` are, the
/// key pair of exactly their values is resolved.
pub proof fn lemma_key_pair_resolved(env: Map<Seq<char>, Seq<char>>)
    requires
        !env.contains_key("FAL_KEY"@),
        !env.contains_key("FAL_API_KEY"@),
        env.contains_key("FAL_KEY_ID"@),
        env.contains_key("FAL_SECRET"@),
    ensures
        resolve(env) == Some(CredentialsView::KeyPair(env["FAL_KEY_ID"@], env["FAL_SECRET"@])),
{
    lemma_first_set_none(env, single_key_names());
}

/// No credentials are resolved exactly where neither a single key nor the
/// whole key pair is set.
pub proof fn lemma_nothing_resolved(env: Map<Seq<char>, Seq<char>>)
    ensures
        resolve(env) is None <==> !env.contains_key("FAL_KEY"@) && !env.contains_key(
            "FAL_API_KEY"@,
        ) && !(env.contains_key("FAL_KEY_ID"@) && env.contains_key("FAL_SECRET"@)),
{
    let names = single_key_names();
    lemma_first_set_none(env, names);
    assert(names[0] == "FAL_KEY"@);
    assert(names[1] == "FAL_API_KEY"@);
}

/// Exactly one leading slash is dropped: a path with a slash put in front of
/// it goes to the URL that holds the path as it was, and so does the path
/// itself unless it begins with a slash.
pub proof fn lemma_one_leading_slash_dropped(host: Seq<char>, path: Seq<char>)
    ensures
        url_for(host, seq!['/'] + path) == "https://"@ + host + seq!['/'] + path,
        path.len() == 0 || path[0] != '/' ==> url_for(host, path) == url_for(
            host,
            seq!['/'] + path,
        ),
{
    assert((seq!['/'] + path).drop_first() == path);
}

/// What a call yields, from what the transport handed back: the response
/// where one came with a status of success, `InvalidCredentials` where one
/// came with any other status, and `RequestError` with the transport's own
/// error where none came.
pub fn classify<R, E>(outcome: Result<(u16, R), E>) -> (result: Result<R, FalError<E>>)
    ensures
        match outcome {
            Ok((status, response)) => if is_success(status) {
                result == Ok::<R, FalError<E>>(response)
            } else {
                result == Err::<R, FalError<E>>(FalError::InvalidCredentials)
            },
            Err(cause) => result == Err::<R, FalError<E>>(FalError::RequestError(cause)),
        },
{
    match outcome {
        Ok((status, response)) => if 200 <= status && status < 300 {
            Ok(response)
        } else {
            Err(FalError::InvalidCredentials)
        },
        Err(cause) => Err(FalError::RequestError(cause)),
    }
}

} // verus!

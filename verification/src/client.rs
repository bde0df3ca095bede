//! A client for the Jupyter Server REST API: the server's base URL and the
//! credentials to present, from which every request is planned.

use vstd::prelude::*;
use crate::server_url::{
    cannot_be_a_base, extend_path, extension_bound, extension_fits, parse_url, text_cannot_be_a_base,
    url_extend_path_text, url_parse_text, url_text,
};
use crate::text::{
    ends_with_char, has_prefix, lemma_replace_all_keeps_prefix, lemma_replace_all_last,
    lemma_replace_all_match, lemma_trim_end, occurs_at, replace_all, replace_str, strip_prefix,
    trim_end, trim_end_char, pieces, split_pieces, starts_with, lemma_pieces_clean,
    before_char, before_first_char, lemma_pieces_occur, occurs_in,
};

verus! {

/// How requests prove who is asking.
#[derive(Debug)]
pub enum ServerAuth {
    /// A token sent as the `token` query parameter.
    Token(String),
    /// A session cookie from a password login, with its XSRF token.
    Cookie { header: String, xsrf: String },
}

pub ghost enum AuthView {
    Token(Seq<char>),
    Cookie { header: Seq<char>, xsrf: Seq<char> },
}

impl View for ServerAuth {
    type V = AuthView;

    open spec fn view(&self) -> AuthView {
        match self {
            ServerAuth::Token(t) => AuthView::Token(t@),
            ServerAuth::Cookie { header, xsrf } => AuthView::Cookie { header: header@, xsrf: xsrf@ },
        }
    }
}

/// The token of token authentication.
pub open spec fn auth_token(a: AuthView) -> Option<Seq<char>> {
    match a {
        AuthView::Token(t) => Some(t),
        AuthView::Cookie { .. } => None,
    }
}

/// A Jupyter Server REST API client: the server's base URL, without a
/// trailing `/`, and how to authenticate.
#[derive(Debug)]
pub struct JupyterClient {
    base_url: String,
    auth: ServerAuth,
}

pub ghost struct ClientView {
    pub base_url: Seq<char>,
    pub auth: AuthView,
}

impl View for JupyterClient {
    type V = ClientView;

    closed spec fn view(&self) -> ClientView {
        ClientView { base_url: self.base_url@, auth: self.auth@ }
    }
}

/// A password login that has to happen before a client exists: the password
/// is read from the environment variable `env_name`, and the login goes to
/// the server at `base_url` (no trailing `/`).
#[derive(Debug)]
pub struct PendingLogin {
    base_url: String,
    env_name: String,
}

pub ghost struct PendingLoginView {
    pub base_url: Seq<char>,
    pub env_name: Seq<char>,
}

impl View for PendingLogin {
    type V = PendingLoginView;

    closed spec fn view(&self) -> PendingLoginView {
        PendingLoginView { base_url: self.base_url@, env_name: self.env_name@ }
    }
}

impl JupyterClient {
    #[verifier::type_invariant]
    spec fn base_has_no_trailing_slash(self) -> bool {
        !ends_with_char(self.base_url@, '/')
    }
}

impl PendingLogin {
    #[verifier::type_invariant]
    spec fn base_has_no_trailing_slash(self) -> bool {
        !ends_with_char(self.base_url@, '/')
    }
}

/// The WebSocket form of a base URL: `http://` becomes `ws://`, then
/// `https://` becomes `wss://`, wherever they occur.
pub open spec fn ws_base(base: Seq<char>) -> Seq<char> {
    replace_all(replace_all(base, "http://"@, "ws://"@), "https://"@, "wss://"@)
}

/// The URL of a kernel's channels WebSocket.
pub open spec fn channels_url(
    ws: Seq<char>,
    kernel_id: Seq<char>,
    session_id: Option<Seq<char>>,
    token: Option<Seq<char>>,
) -> Seq<char> {
    let path = ws + "/api/kernels/"@ + kernel_id + "/channels"@;
    match (session_id, token) {
        (Some(sid), Some(t)) => path + "?session_id="@ + sid + "&token="@ + t,
        (None, Some(t)) => path + "?token="@ + t,
        (Some(sid), None) => path + "?session_id="@ + sid,
        (None, None) => path,
    }
}

/// The URL of a terminal's WebSocket.
pub open spec fn terminal_ws_url(ws: Seq<char>, name: Seq<char>, token: Option<Seq<char>>) -> Seq<char> {
    let path = ws + "/terminals/websocket/"@ + name;
    match token {
        Some(t) => path + "?token="@ + t,
        None => path,
    }
}

pub open spec fn str_opt_view(o: Option<&str>) -> Option<Seq<char>> {
    match o {
        Some(s) => Some(s@),
        None => None,
    }
}

fn ws_base_of(base: &str) -> (r: String)
    ensures
        r@ == ws_base(base@),
{
    proof {
        reveal_strlit("http://");
        reveal_strlit("https://");
    }
    let first = replace_str(base, "http://", "ws://");
    replace_str(first.as_str(), "https://", "wss://")
}

impl JupyterClient {
    /// Makes a client for the server at `server_url` (trailing `/`s removed).
    /// A credential `password-env:NAME` asks for a password login first: the
    /// result is then `Err` with the login still to be made; any other
    /// credential is a token.
    pub fn new(server_url: String, credential: String) -> (r: Result<JupyterClient, PendingLogin>)
        ensures
            match r {
                Ok(c) => !has_prefix(credential@, "password-env:"@) && c@ == (ClientView {
                    base_url: trim_end(server_url@, '/'),
                    auth: AuthView::Token(credential@),
                }),
                Err(p) => has_prefix(credential@, "password-env:"@) && p@ == (PendingLoginView {
                    base_url: trim_end(server_url@, '/'),
                    env_name: credential@.skip("password-env:"@.len() as int),
                }),
            },
    {
        let base_url = trim_end_char(server_url.as_str(), '/');
        proof {
            lemma_trim_end(server_url@, '/');
        }
        match strip_prefix(credential.as_str(), "password-env:") {
            Some(env_name) => Err(PendingLogin { base_url, env_name }),
            None => Ok(JupyterClient { base_url, auth: ServerAuth::Token(credential) }),
        }
    }

    /// The server's base URL, without a trailing `/`.
    pub fn base_url(&self) -> (r: &str)
        ensures
            r@ == self@.base_url,
            !ends_with_char(r@, '/'),
    {
        proof {
            use_type_invariant(self);
        }
        self.base_url.as_str()
    }

    /// The cookie header to present when opening a WebSocket, for a client
    /// that logged in with a password.
    pub fn websocket_cookie(&self) -> (r: Option<&str>)
        ensures
            match self@.auth {
                AuthView::Token(_) => r is None,
                AuthView::Cookie { header, .. } => r matches Some(h) && h@ == header,
            },
    {
        match &self.auth {
            ServerAuth::Token(_) => None,
            ServerAuth::Cookie { header, .. } => Some(header.as_str()),
        }
    }

    /// The WebSocket URL of a kernel's channels, with the session id and the
    /// token (when authenticating by token) as query parameters.
    pub fn get_ws_url(&self, kernel_id: &str, session_id: Option<&str>) -> (r: String)
        ensures
            r@ == channels_url(
                ws_base(self@.base_url),
                kernel_id@,
                str_opt_view(session_id),
                auth_token(self@.auth),
            ),
            !ends_with_char(ws_base(self@.base_url), '/'),
            has_prefix(r@, ws_base(self@.base_url) + "/api/kernels/"@ + kernel_id@ + "/channels"@),
            auth_token(self@.auth) matches Some(t) ==> has_suffix(r@, "token="@ + t),
            session_id matches Some(sid) ==> occurs_in(r@, "?session_id="@ + sid@),
    {
        proof {
            use_type_invariant(self);
            lemma_ws_base_no_trailing_slash(self@.base_url);
        }
        let mut url = ws_base_of(self.base_url.as_str());
        url.append("/api/kernels/");
        url.append(kernel_id);
        url.append("/channels");
        proof {
            lemma_channels_url_holds_ids(
                ws_base(self@.base_url),
                kernel_id@,
                str_opt_view(session_id),
                auth_token(self@.auth),
            );
        }
        match (session_id, &self.auth) {
            (Some(sid), ServerAuth::Token(token)) => {
                url.append("?session_id=");
                url.append(sid);
                url.append("&token=");
                url.append(token.as_str());
            },
            (None, ServerAuth::Token(token)) => {
                url.append("?token=");
                url.append(token.as_str());
            },
            (Some(sid), ServerAuth::Cookie { .. }) => {
                url.append("?session_id=");
                url.append(sid);
            },
            (None, ServerAuth::Cookie { .. }) => {},
        }
        url
    }

    /// The WebSocket URL of the terminal `name`, with the token (when
    /// authenticating by token) as a query parameter.
    pub fn get_terminal_ws_url(&self, name: &str) -> (r: String)
        ensures
            r@ == terminal_ws_url(ws_base(self@.base_url), name@, auth_token(self@.auth)),
    {
        let mut url = ws_base_of(self.base_url.as_str());
        url.append("/terminals/websocket/");
        url.append(name);
        match &self.auth {
            ServerAuth::Token(token) => {
                url.append("?token=");
                url.append(token.as_str());
            },
            ServerAuth::Cookie { .. } => {},
        }
        url
    }
}

/// The WebSocket form of an `https://` URL starts with `wss://`.
pub proof fn lemma_https_becomes_wss(base: Seq<char>)
    requires
        has_prefix(base, "https://"@),
    ensures
        has_prefix(ws_base(base), "wss://"@),
{
    reveal_strlit("https://");
    reveal_strlit("http://");
    reveal_strlit("wss://");
    let pat1 = "http://"@;
    assert forall|i: int| 0 <= i < 8 implies !occurs_at(base, pat1, i) by {
        if occurs_at(base, pat1, i) {
            assert(base.subrange(i, i + 7)[0] == pat1[0]);
            assert(base.subrange(0, 8)[i] == "https://"@[i]);
            if i == 0 {
                assert(base.subrange(i, i + 7)[4] == pat1[4]);
                assert(base.subrange(0, 8)[4] == "https://"@[4]);
            }
        }
    }
    lemma_replace_all_keeps_prefix(base, pat1, "ws://"@, 8);
    let first = replace_all(base, pat1, "ws://"@);
    assert(base.take(8) =~= "https://"@);
    assert(first.subrange(0, 8) =~= "https://"@);
    lemma_replace_all_match(first, "https://"@, "wss://"@);
    let second = ws_base(base);
    assert(second.subrange(0, 6) =~= "wss://"@);
}

/// The WebSocket form of an `http://` URL starts with `ws://`.
pub proof fn lemma_http_becomes_ws(base: Seq<char>)
    requires
        has_prefix(base, "http://"@),
    ensures
        has_prefix(ws_base(base), "ws://"@),
{
    reveal_strlit("https://");
    reveal_strlit("http://");
    reveal_strlit("ws://");
    let pat1 = "http://"@;
    let pat2 = "https://"@;
    lemma_replace_all_match(base, pat1, "ws://"@);
    let first = replace_all(base, pat1, "ws://"@);
    assert(first.subrange(0, 5) =~= "ws://"@);
    assert forall|i: int| 0 <= i < 5 implies !occurs_at(first, pat2, i) by {
        if occurs_at(first, pat2, i) {
            assert(first.subrange(i, i + 8)[0] == pat2[0]);
            assert(first.subrange(0, 5)[i] == "ws://"@[i]);
        }
    }
    lemma_replace_all_keeps_prefix(first, pat2, "wss://"@, 5);
    let second = ws_base(base);
    assert(first.take(5) =~= "ws://"@);
    assert(second.subrange(0, 5) =~= "ws://"@);
}

/// A base URL without a trailing `/` keeps its last character in WebSocket
/// form, so paths appended to it never start with `//`.
pub proof fn lemma_ws_base_no_trailing_slash(base: Seq<char>)
    requires
        !ends_with_char(base, '/'),
    ensures
        !ends_with_char(ws_base(base), '/'),
        base.len() > 0 ==> ws_base(base).last() == base.last(),
{
    reveal_strlit("https://");
    reveal_strlit("http://");
    if base.len() > 0 {
        lemma_replace_all_last(base, "http://"@, "ws://"@);
        let first = replace_all(base, "http://"@, "ws://"@);
        lemma_replace_all_last(first, "https://"@, "wss://"@);
    } else {
        assert(replace_all(base, "http://"@, "ws://"@) =~= base);
        assert(ws_base(base) =~= base);
    }
}

/// The pieces of a path between `/`s, without the `.` pieces.
pub open spec fn drop_dots(parts: Seq<Seq<char>>) -> Seq<Seq<char>>
    decreases parts.len(),
{
    if parts.len() == 0 {
        parts
    } else if parts.last() == "."@ {
        drop_dots(parts.drop_last())
    } else {
        drop_dots(parts.drop_last()).push(parts.last())
    }
}

/// The final component of a `/`-separated path, as `std::path::Path::file_name`
/// finds it on Unix: `/` is the only separator (a `\` is part of a
/// name), `.` components are ignored, and there is none when the path has no
/// components or ends in `..`.
pub open spec fn file_name(path: Seq<char>) -> Option<Seq<char>> {
    let comps = drop_dots(pieces(path, '/'));
    if comps.len() == 0 || comps.last() == ".."@ {
        None
    } else {
        Some(comps.last())
    }
}

/// The name of a notebook: the final component of its path, or the whole
/// path when there is none.
pub open spec fn notebook_name(path: Seq<char>) -> Seq<char> {
    match file_name(path) {
        Some(n) => n,
        None => path,
    }
}

proof fn lemma_drop_dots_skip_tail(parts: Seq<Seq<char>>, k: int)
    requires
        0 <= k <= parts.len(),
        forall|j: int| k <= j < parts.len() ==> parts[j] == "."@,
    ensures
        drop_dots(parts) == drop_dots(parts.take(k)),
    decreases parts.len() - k,
{
    if k < parts.len() {
        assert(parts.drop_last().take(k) =~= parts.take(k));
        assert forall|j: int| k <= j < parts.drop_last().len() implies parts.drop_last()[j] == "."@ by {
            assert(parts.drop_last()[j] == parts[j]);
        }
        lemma_drop_dots_skip_tail(parts.drop_last(), k);
    } else {
        assert(parts.take(k) =~= parts);
    }
}

/// A named file's name is one clean path component.
pub proof fn lemma_file_name_is_component(path: Seq<char>)
    ensures
        file_name(path) matches Some(n) ==> n.len() > 0 && !n.contains('/') && n != "."@ && n
            != ".."@,
{
    let parts = pieces(path, '/');
    lemma_pieces_clean(path, '/');
    lemma_drop_dots_members(parts);
}

proof fn lemma_drop_dots_members(parts: Seq<Seq<char>>)
    ensures
        forall|i: int|
            0 <= i < drop_dots(parts).len() ==> drop_dots(parts)[i] != "."@ && parts.contains(
                #[trigger] drop_dots(parts)[i],
            ),
    decreases parts.len(),
{
    if parts.len() > 0 {
        lemma_drop_dots_members(parts.drop_last());
        let d = drop_dots(parts.drop_last());
        assert forall|i: int| 0 <= i < drop_dots(parts).len() implies drop_dots(parts)[i] != "."@
            && parts.contains(#[trigger] drop_dots(parts)[i]) by {
            if i < d.len() {
                let x = d[i];
                let w = choose|w: int| 0 <= w < parts.drop_last().len() && parts.drop_last()[w] == x;
                assert(parts[w] == x);
            } else {
                assert(parts[parts.len() - 1] == parts.last());
            }
        }
    }
}

fn str_eq(a: &str, b: &str) -> (r: bool)
    ensures
        r == (a@ == b@),
{
    if a.unicode_len() != b.unicode_len() {
        return false;
    }
    let r = starts_with(a, b);
    proof {
        assert(a@.subrange(0, b@.len() as int) =~= a@);
    }
    r
}

/// The name under which a notebook's session is created: the file name of
/// `notebook_path`, or the whole path when it names no file. Only `/`
/// separates components.
pub fn filename_from_path(notebook_path: &str) -> (r: String)
    ensures
        r@ == notebook_name(notebook_path@),
{
    proof {
        reveal_strlit(".");
        reveal_strlit("..");
    }
    let parts = split_pieces(notebook_path, '/');
    let ghost views = parts@.map_values(|x: String| x@);
    let mut k = parts.len();
    while k > 0 && str_eq(parts[k - 1].as_str(), ".")
        invariant
            k <= parts.len(),
            views == parts@.map_values(|x: String| x@),
            forall|j: int| k <= j < views.len() ==> views[j] == "."@,
        decreases k,
    {
        k = k - 1;
    }
    proof {
        lemma_drop_dots_skip_tail(views, k as int);
        if k > 0 {
            assert(views.take(k as int).drop_last() =~= views.take(k - 1));
            assert(views.take(k as int).last() == views[k - 1]);
        } else {
            assert(views.take(0) =~= Seq::<Seq<char>>::empty());
        }
    }
    if k == 0 || str_eq(parts[k - 1].as_str(), "..") {
        String::from_str(notebook_path)
    } else {
        parts[k - 1].clone()
    }
}

/// A kernel as the server describes it.
#[derive(Debug, Clone)]
pub struct KernelInfo {
    pub id: String,
    pub name: String,
    pub last_activity: String,
    pub execution_state: String,
    pub connections: i32,
}

/// A session as the server describes it; `session_type` is the JSON field
/// `type`.
#[derive(Debug, Clone)]
pub struct SessionInfo {
    pub id: String,
    pub path: String,
    pub name: String,
    pub session_type: String,
    pub kernel: KernelInfo,
}

/// The kernel of a new session: an existing kernel's id, or none to start
/// one of kind `name`. An absent id is left out of the JSON.
#[derive(Debug, Clone)]
pub struct KernelSpec {
    pub id: Option<String>,
    pub name: String,
}

/// The JSON body that creates a session; `session_type` is the field `type`.
#[derive(Debug, Clone)]
pub struct CreateSessionRequest {
    pub path: String,
    pub name: String,
    pub session_type: String,
    pub kernel: KernelSpec,
}

/// A JSON body of the form `{"name": ...}`.
#[derive(Debug, Clone)]
pub struct NameRequest {
    pub name: String,
}

/// The JSON body that saves a notebook: `{"type": content_type, "format":
/// format, "content": content}`.
#[derive(Debug, Clone)]
pub struct NotebookEnvelope {
    pub content_type: String,
    pub format: String,
    pub content: nbformat::v4::Notebook,
}

/// What a request sends as its JSON body.
#[derive(Debug)]
pub enum RequestBody {
    Empty,
    Name(NameRequest),
    CreateSession(CreateSessionRequest),
    Notebook(NotebookEnvelope),
}

#[derive(Debug, Clone, Copy, PartialEq, Eq)]
pub enum HttpMethod {
    Get,
    Post,
    Put,
    Delete,
}

/// A name and a value, as a query parameter, a header or a form field.
#[derive(Debug, Clone)]
pub struct Param {
    pub name: String,
    pub value: String,
}

pub open spec fn param_views(ps: Seq<Param>) -> Seq<(Seq<char>, Seq<char>)> {
    ps.map_values(|p: Param| (p.name@, p.value@))
}

/// A request to the server, ready to send.
#[derive(Debug)]
pub struct ApiRequest {
    pub method: HttpMethod,
    pub url: String,
    /// Query parameters, in order.
    pub query: Vec<Param>,
    /// Headers, in order.
    pub headers: Vec<Param>,
    pub body: RequestBody,
    /// Whether a failure report quotes the response body.
    pub report_body_on_error: bool,
}

/// The query parameters that authenticate a request.
pub open spec fn auth_query(a: AuthView) -> Seq<(Seq<char>, Seq<char>)> {
    match a {
        AuthView::Token(t) => seq![("token"@, t)],
        AuthView::Cookie { .. } => Seq::empty(),
    }
}

/// The headers that authenticate a request.
pub open spec fn auth_headers(a: AuthView) -> Seq<(Seq<char>, Seq<char>)> {
    match a {
        AuthView::Token(_) => Seq::empty(),
        AuthView::Cookie { header, xsrf } => seq![("cookie"@, header), ("X-XSRFToken"@, xsrf)],
    }
}

/// `req` goes out with `method` to `url`, authenticated as `client` says.
pub open spec fn plans(req: ApiRequest, client: ClientView, method: HttpMethod, url: Seq<char>) -> bool {
    &&& req.method == method
    &&& req.url@ == url
    &&& param_views(req.query@) == auth_query(client.auth)
    &&& param_views(req.headers@) == auth_headers(client.auth)
}

fn param(name: &str, value: &str) -> (r: Param)
    ensures
        r.name@ == name@,
        r.value@ == value@,
{
    Param { name: String::from_str(name), value: String::from_str(value) }
}

/// The segments that a Contents API URL appends to the server's path:
/// `api`, `contents`, then the non-empty pieces of the notebook path.
pub open spec fn contents_segments(path: Seq<char>) -> Seq<Seq<char>> {
    seq!["api"@, "contents"@] + pieces(path, '/')
}

/// Whether the Contents API URL of `path` stays within the `u32::MAX`
/// bytes that the `url` crate can address, counting what its segments can
/// add at most to the parsed server URL.
pub open spec fn contents_url_fits(base: Seq<char>, path: Seq<char>) -> bool {
    match url_parse_text(base) {
        Some(text) => !cannot_be_a_base(text) ==> text.len() + extension_bound(contents_segments(path))
            <= u32::MAX,
        None => true,
    }
}

/// What `contents_url` gives for `path`: the error, or the URL that the
/// `url` crate makes.
pub open spec fn contents_url_of(base: Seq<char>, path: Seq<char>) -> Result<Seq<char>, ContentsUrlError> {
    match url_parse_text(base) {
        None => Err(ContentsUrlError::InvalidServerUrl),
        Some(text) => if cannot_be_a_base(text) {
            Err(ContentsUrlError::CannotBeABase)
        } else {
            Ok(url_extend_path_text(text, contents_segments(path)))
        },
    }
}

pub open spec fn url_result_view(r: Result<String, ContentsUrlError>) -> Result<Seq<char>, ContentsUrlError> {
    match r {
        Ok(u) => Ok(u@),
        Err(e) => Err(e),
    }
}

/// `r` reads the notebook at `path` through the Contents API: `GET` its
/// contents URL with `content=1` and `type=notebook` after the
/// authentication parameters.
pub open spec fn get_notebook_planned(r: Result<ApiRequest, ContentsUrlError>, client: ClientView, path: Seq<char>) -> bool {
    match contents_url_of(client.base_url, path) {
        Err(e) => r == Err::<ApiRequest, ContentsUrlError>(e),
        Ok(url) => r matches Ok(req) && {
            &&& req.method == HttpMethod::Get
            &&& req.url@ == url
            &&& param_views(req.query@) == auth_query(client.auth) + seq![("content"@, "1"@), ("type"@, "notebook"@)]
            &&& param_views(req.headers@) == auth_headers(client.auth)
            &&& req.body == RequestBody::Empty
            &&& req.report_body_on_error
        },
    }
}

/// `r` saves a notebook at `path` through the Contents API: `PUT` to its
/// contents URL with `{"type": "notebook", "format": "json", "content": notebook}`.
pub open spec fn save_notebook_planned(
    r: Result<ApiRequest, ContentsUrlError>,
    client: ClientView,
    path: Seq<char>,
    notebook: nbformat::v4::Notebook,
) -> bool {
    match contents_url_of(client.base_url, path) {
        Err(e) => r == Err::<ApiRequest, ContentsUrlError>(e),
        Ok(url) => r matches Ok(req) && {
            &&& plans(req, client, HttpMethod::Put, url)
            &&& req.body matches RequestBody::Notebook(env) && env.content_type@ == "notebook"@
                && env.format@ == "json"@ && env.content == notebook
            &&& req.report_body_on_error
        },
    }
}

/// Why no Contents API URL could be made from the server URL.
#[derive(Debug, Clone, Copy, PartialEq, Eq)]
pub enum ContentsUrlError {
    /// The server URL does not parse.
    InvalidServerUrl,
    /// The server URL cannot be a base (it has no path to extend).
    CannotBeABase,
}

impl JupyterClient {
    /// Plans a request: `method` to `url`, with the token as the query
    /// parameter `token`, or the cookie and the XSRF token as headers.
    fn authenticated(&self, method: HttpMethod, url: String, body: RequestBody, report_body_on_error: bool) -> (r: ApiRequest)
        ensures
            plans(r, self@, method, url@),
            r.body == body,
            r.report_body_on_error == report_body_on_error,
            match self@.auth {
                AuthView::Token(t) => param_views(r.query@) == seq![("token"@, t)] && r.headers@.len() == 0,
                AuthView::Cookie { header, xsrf } => r.query@.len() == 0 && param_views(r.headers@)
                    == seq![("cookie"@, header), ("X-XSRFToken"@, xsrf)],
            },
    {
        let mut query: Vec<Param> = Vec::new();
        let mut headers: Vec<Param> = Vec::new();
        match &self.auth {
            ServerAuth::Token(token) => {
                query.push(param("token", token.as_str()));
                assert(param_views(query@) =~= auth_query(self@.auth));
                assert(param_views(headers@) =~= auth_headers(self@.auth));
            },
            ServerAuth::Cookie { header, xsrf } => {
                headers.push(param("cookie", header.as_str()));
                headers.push(param("X-XSRFToken", xsrf.as_str()));
                assert(param_views(query@) =~= auth_query(self@.auth));
                assert(param_views(headers@) =~= auth_headers(self@.auth));
            },
        }
        ApiRequest { method, url, query, headers, body, report_body_on_error }
    }

    fn api_url(&self, tail: &str) -> (r: String)
        ensures
            r@ == self@.base_url + tail@,
    {
        let mut url = self.base_url.clone();
        url.append(tail);
        url
    }

    fn api_url_with(&self, tail: &str, id: &str) -> (r: String)
        ensures
            r@ == self@.base_url + tail@ + id@,
    {
        let mut url = self.base_url.clone();
        url.append(tail);
        url.append(id);
        url
    }

    /// Checks that the server answers: `GET {base}/api`.
    pub fn test_connection(&self) -> (r: ApiRequest)
        ensures
            plans(r, self@, HttpMethod::Get, self@.base_url + "/api"@),
            r.body == RequestBody::Empty,
            !r.report_body_on_error,
    {
        self.authenticated(HttpMethod::Get, self.api_url("/api"), RequestBody::Empty, false)
    }

    /// Reads one kernel: `GET {base}/api/kernels/{kernel_id}`.
    pub fn get_kernel(&self, kernel_id: &str) -> (r: ApiRequest)
        ensures
            plans(r, self@, HttpMethod::Get, self@.base_url + "/api/kernels/"@ + kernel_id@),
            r.body == RequestBody::Empty,
            !r.report_body_on_error,
    {
        self.authenticated(HttpMethod::Get, self.api_url_with("/api/kernels/", kernel_id), RequestBody::Empty, false)
    }

    /// Lists the running kernels: `GET {base}/api/kernels`.
    pub fn list_kernels(&self) -> (r: ApiRequest)
        ensures
            plans(r, self@, HttpMethod::Get, self@.base_url + "/api/kernels"@),
            r.body == RequestBody::Empty,
            !r.report_body_on_error,
    {
        self.authenticated(HttpMethod::Get, self.api_url("/api/kernels"), RequestBody::Empty, false)
    }

    /// Starts a kernel of kind `kernel_name`: `POST {base}/api/kernels` with
    /// `{"name": kernel_name}`.
    pub fn start_kernel(&self, kernel_name: &str) -> (r: ApiRequest)
        ensures
            plans(r, self@, HttpMethod::Post, self@.base_url + "/api/kernels"@),
            r.body matches RequestBody::Name(b) && b.name@ == kernel_name@,
            !r.report_body_on_error,
    {
        let body = RequestBody::Name(NameRequest { name: String::from_str(kernel_name) });
        self.authenticated(HttpMethod::Post, self.api_url("/api/kernels"), body, false)
    }

    /// Lists the sessions: `GET {base}/api/sessions`.
    pub fn list_sessions(&self) -> (r: ApiRequest)
        ensures
            plans(r, self@, HttpMethod::Get, self@.base_url + "/api/sessions"@),
            r.body == RequestBody::Empty,
            !r.report_body_on_error,
    {
        self.authenticated(HttpMethod::Get, self.api_url("/api/sessions"), RequestBody::Empty, false)
    }

    fn session_request(notebook_path: &str, kernel_id: Option<&str>, kernel_name: &str) -> (r: CreateSessionRequest)
        ensures
            r.path@ == notebook_path@,
            r.name@ == notebook_name(notebook_path@),
            r.session_type@ == "notebook"@,
            str_opt_view(kernel_id) == (match r.kernel.id {
                Some(id) => Some(id@),
                None => None,
            }),
            r.kernel.name@ == kernel_name@,
    {
        let id = match kernel_id {
            Some(k) => Some(String::from_str(k)),
            None => None,
        };
        CreateSessionRequest {
            path: String::from_str(notebook_path),
            name: filename_from_path(notebook_path),
            session_type: String::from_str("notebook"),
            kernel: KernelSpec { id, name: String::from_str(kernel_name) },
        }
    }

    /// Creates a session for a notebook on an existing kernel:
    /// `POST {base}/api/sessions` naming the notebook by its file name.
    pub fn create_session_with_kernel(&self, notebook_path: &str, kernel_id: &str, kernel_name: &str) -> (r: ApiRequest)
        ensures
            plans(r, self@, HttpMethod::Post, self@.base_url + "/api/sessions"@),
            r.body matches RequestBody::CreateSession(b) && {
                &&& b.path@ == notebook_path@
                &&& b.name@ == notebook_name(notebook_path@)
                &&& b.session_type@ == "notebook"@
                &&& b.kernel.id matches Some(id) && id@ == kernel_id@
                &&& b.kernel.name@ == kernel_name@
            },
            r.report_body_on_error,
    {
        let body = RequestBody::CreateSession(Self::session_request(notebook_path, Some(kernel_id), kernel_name));
        self.authenticated(HttpMethod::Post, self.api_url("/api/sessions"), body, true)
    }

    /// Creates a session for a notebook with a new kernel of kind
    /// `kernel_name`: `POST {base}/api/sessions`.
    pub fn create_session(&self, notebook_path: &str, kernel_name: &str) -> (r: ApiRequest)
        ensures
            plans(r, self@, HttpMethod::Post, self@.base_url + "/api/sessions"@),
            r.body matches RequestBody::CreateSession(b) && {
                &&& b.path@ == notebook_path@
                &&& b.name@ == notebook_name(notebook_path@)
                &&& b.session_type@ == "notebook"@
                &&& b.kernel.id is None
                &&& b.kernel.name@ == kernel_name@
            },
            r.report_body_on_error,
    {
        let body = RequestBody::CreateSession(Self::session_request(notebook_path, None, kernel_name));
        self.authenticated(HttpMethod::Post, self.api_url("/api/sessions"), body, true)
    }

    /// Restarts a kernel: `POST {base}/api/kernels/{kernel_id}/restart`.
    pub fn restart_kernel(&self, kernel_id: &str) -> (r: ApiRequest)
        ensures
            plans(r, self@, HttpMethod::Post, self@.base_url + "/api/kernels/"@ + kernel_id@ + "/restart"@),
            r.body == RequestBody::Empty,
            !r.report_body_on_error,
    {
        let mut url = self.api_url_with("/api/kernels/", kernel_id);
        url.append("/restart");
        self.authenticated(HttpMethod::Post, url, RequestBody::Empty, false)
    }

    /// Deletes a session: `DELETE {base}/api/sessions/{session_id}`.
    pub fn delete_session(&self, session_id: &str) -> (r: ApiRequest)
        ensures
            plans(r, self@, HttpMethod::Delete, self@.base_url + "/api/sessions/"@ + session_id@),
            r.body == RequestBody::Empty,
            !r.report_body_on_error,
    {
        self.authenticated(HttpMethod::Delete, self.api_url_with("/api/sessions/", session_id), RequestBody::Empty, false)
    }

    /// Opens a terminal named `name`: `POST {base}/api/terminals` with
    /// `{"name": name}`.
    pub fn create_terminal(&self, name: &str) -> (r: ApiRequest)
        ensures
            plans(r, self@, HttpMethod::Post, self@.base_url + "/api/terminals"@),
            r.body matches RequestBody::Name(b) && b.name@ == name@,
            !r.report_body_on_error,
    {
        let body = RequestBody::Name(NameRequest { name: String::from_str(name) });
        self.authenticated(HttpMethod::Post, self.api_url("/api/terminals"), body, false)
    }

    /// Closes the terminal `name`: `DELETE {base}/api/terminals/{name}`.
    pub fn delete_terminal(&self, name: &str) -> (r: ApiRequest)
        ensures
            plans(r, self@, HttpMethod::Delete, self@.base_url + "/api/terminals/"@ + name@),
            r.body == RequestBody::Empty,
            !r.report_body_on_error,
    {
        self.authenticated(HttpMethod::Delete, self.api_url_with("/api/terminals/", name), RequestBody::Empty, false)
    }

    fn contents_segment_list(path: &str) -> (r: Vec<String>)
        ensures
            r@.map_values(|s: String| s@) == contents_segments(path@),
    {
        let mut segments: Vec<String> = Vec::new();
        segments.push(String::from_str("api"));
        segments.push(String::from_str("contents"));
        let parts = split_pieces(path, '/');
        let mut i: usize = 0;
        while i < parts.len()
            invariant
                i <= parts.len(),
                segments@.map_values(|s: String| s@) == seq!["api"@, "contents"@] + parts@.map_values(
                    |s: String| s@,
                ).take(i as int),
            decreases parts.len() - i,
        {
            let ghost before = segments@.map_values(|s: String| s@);
            segments.push(parts[i].clone());
            assert(segments@.map_values(|s: String| s@) =~= before.push(parts@[i as int]@));
            assert(parts@.map_values(|s: String| s@).take(i + 1) =~= parts@.map_values(
                |s: String| s@,
            ).take(i as int).push(parts@[i as int]@));
            i = i + 1;
        }
        assert(parts@.map_values(|s: String| s@).take(parts.len() as int) =~= parts@.map_values(
            |s: String| s@,
        ));
        assert(segments@.map_values(|s: String| s@) =~= contents_segments(path@));
        segments
    }

    /// The Contents API URL of `path`: the server URL with `api`, `contents`
    /// and the non-empty pieces of `path` appended as path segments by the
    /// `url` crate (which percent-encodes them). The URL must stay within the
    /// `u32::MAX` bytes that the `url` crate can address.
    pub fn contents_url(&self, path: &str) -> (r: Result<String, ContentsUrlError>)
        requires
            contents_url_fits(self@.base_url, path@),
        ensures
            url_result_view(r) == contents_url_of(self@.base_url, path@),
            r matches Ok(u) ==> (has_prefix(self@.base_url, "https://"@) ==> has_prefix(u@, "https://"@)),
            r matches Ok(u) ==> (has_prefix(self@.base_url, "http://"@) ==> has_prefix(u@, "http://"@)),
    {
        let mut url = match parse_url(self.base_url.as_str()) {
            Ok(u) => u,
            Err(_) => return Err(ContentsUrlError::InvalidServerUrl),
        };
        let segments = Self::contents_segment_list(path);
        if extend_path(&mut url, &segments) {
            Ok(url_text(&url))
        } else {
            Err(ContentsUrlError::CannotBeABase)
        }
    }

    /// Reads a notebook through the Contents API: `GET` its contents URL with
    /// `content=1` and `type=notebook` after the authentication parameters.
    pub fn get_notebook(&self, path: &str) -> (r: Result<ApiRequest, ContentsUrlError>)
        requires
            contents_url_fits(self@.base_url, path@),
        ensures
            get_notebook_planned(r, self@, path@),
            r matches Ok(req) ==> (has_prefix(self@.base_url, "https://"@) ==> has_prefix(req.url@, "https://"@)),
            r matches Ok(req) ==> (has_prefix(self@.base_url, "http://"@) ==> has_prefix(req.url@, "http://"@)),
    {
        let url = match self.contents_url(path) {
            Ok(u) => u,
            Err(e) => return Err(e),
        };
        let mut req = self.authenticated(HttpMethod::Get, url, RequestBody::Empty, true);
        let ghost before = param_views(req.query@);
        req.query.push(param("content", "1"));
        req.query.push(param("type", "notebook"));
        assert(param_views(req.query@) =~= before + seq![("content"@, "1"@), ("type"@, "notebook"@)]);
        Ok(req)
    }

    /// Saves `notebook` through the Contents API: `PUT` to its contents URL
    /// with `{"type": "notebook", "format": "json", "content": notebook}`.
    pub fn save_notebook(&self, path: &str, notebook: &nbformat::v4::Notebook) -> (r: Result<ApiRequest, ContentsUrlError>)
        requires
            contents_url_fits(self@.base_url, path@),
        ensures
            save_notebook_planned(r, self@, path@, *notebook),
            r matches Ok(req) ==> (has_prefix(self@.base_url, "https://"@) ==> has_prefix(req.url@, "https://"@)),
            r matches Ok(req) ==> (has_prefix(self@.base_url, "http://"@) ==> has_prefix(req.url@, "http://"@)),
    {
        let url = match self.contents_url(path) {
            Ok(u) => u,
            Err(e) => return Err(e),
        };
        let body = RequestBody::Notebook(NotebookEnvelope {
            content_type: String::from_str("notebook"),
            format: String::from_str("json"),
            content: notebook.clone(),
        });
        Ok(self.authenticated(HttpMethod::Put, url, body, true))
    }

    /// Whether the Contents API URL of `path` stays within what the `url`
    /// crate can address.
    pub fn contents_url_within_limits(&self, path: &str) -> (r: bool)
        ensures
            r == contents_url_fits(self@.base_url, path@),
    {
        match parse_url(self.base_url.as_str()) {
            Err(_) => true,
            Ok(u) => {
                let text = url_text(&u);
                if text_cannot_be_a_base(text.as_str()) {
                    true
                } else {
                    let segments = Self::contents_segment_list(path);
                    extension_fits(text.unicode_len(), &segments)
                }
            },
        }
    }

    /// `contents_url` where the URL stays within what the `url` crate can
    /// address; `None` where it would not.
    pub fn checked_contents_url(&self, path: &str) -> (r: Option<Result<String, ContentsUrlError>>)
        ensures
            r is None <==> !contents_url_fits(self@.base_url, path@),
            r matches Some(res) ==> url_result_view(res) == contents_url_of(self@.base_url, path@),
            r matches Some(Ok(u)) ==> (has_prefix(self@.base_url, "https://"@) ==> has_prefix(u@, "https://"@)),
            r matches Some(Ok(u)) ==> (has_prefix(self@.base_url, "http://"@) ==> has_prefix(u@, "http://"@)),
    {
        if self.contents_url_within_limits(path) {
            Some(self.contents_url(path))
        } else {
            None
        }
    }

    /// `get_notebook` where the URL stays within what the `url` crate can
    /// address; `None` where it would not.
    pub fn checked_get_notebook(&self, path: &str) -> (r: Option<Result<ApiRequest, ContentsUrlError>>)
        ensures
            r is None <==> !contents_url_fits(self@.base_url, path@),
            r matches Some(res) ==> get_notebook_planned(res, self@, path@),
            r matches Some(Ok(req)) ==> (has_prefix(self@.base_url, "https://"@) ==> has_prefix(req.url@, "https://"@)),
            r matches Some(Ok(req)) ==> (has_prefix(self@.base_url, "http://"@) ==> has_prefix(req.url@, "http://"@)),
    {
        if self.contents_url_within_limits(path) {
            Some(self.get_notebook(path))
        } else {
            None
        }
    }

    /// `save_notebook` where the URL stays within what the `url` crate can
    /// address; `None` where it would not.
    pub fn checked_save_notebook(&self, path: &str, notebook: &nbformat::v4::Notebook) -> (r: Option<Result<ApiRequest, ContentsUrlError>>)
        ensures
            r is None <==> !contents_url_fits(self@.base_url, path@),
            r matches Some(res) ==> save_notebook_planned(res, self@, path@, *notebook),
            r matches Some(Ok(req)) ==> (has_prefix(self@.base_url, "https://"@) ==> has_prefix(req.url@, "https://"@)),
            r matches Some(Ok(req)) ==> (has_prefix(self@.base_url, "http://"@) ==> has_prefix(req.url@, "http://"@)),
    {
        if self.contents_url_within_limits(path) {
            Some(self.save_notebook(path, notebook))
        } else {
            None
        }
    }
}

/// A successful HTTP status: `200..=299`.
pub fn is_success(status: u16) -> (r: bool)
    ensures
        r == (200 <= status && status < 300),
{
    200 <= status && status < 300
}

/// A redirection HTTP status: `300..=399`.
pub fn is_redirection(status: u16) -> (r: bool)
    ensures
        r == (300 <= status && status < 400),
{
    300 <= status && status < 400
}

pub open spec fn opt_view(o: Option<String>) -> Option<Seq<char>> {
    match o {
        Some(s) => Some(s@),
        None => None,
    }
}

/// The views of optional strings (such as a response's `Set-Cookie` values,
/// `None` where a value is not text).
pub open spec fn opt_views(vs: Seq<Option<String>>) -> Seq<Option<Seq<char>>> {
    vs.map_values(|o: Option<String>| opt_view(o))
}

/// The `name=value` pairs of `Set-Cookie` values: the part of each textual
/// value before its first `;`, skipping values that are not text.
pub open spec fn cookie_pairs_of(vs: Seq<Option<Seq<char>>>) -> Seq<Seq<char>>
    decreases vs.len(),
{
    if vs.len() == 0 {
        Seq::empty()
    } else {
        let rest = cookie_pairs_of(vs.drop_last());
        match vs.last() {
            Some(v) => rest.push(before_char(v, ';')),
            None => rest,
        }
    }
}

/// The rest of the first pair that begins with `prefix`.
pub open spec fn first_with_prefix(pairs: Seq<Seq<char>>, prefix: Seq<char>) -> Option<Seq<char>>
    decreases pairs.len(),
{
    if pairs.len() == 0 {
        None
    } else if has_prefix(pairs[0], prefix) {
        Some(pairs[0].skip(prefix.len() as int))
    } else {
        first_with_prefix(pairs.drop_first(), prefix)
    }
}

/// The first pair that does not begin with `prefix`.
pub open spec fn first_without_prefix(pairs: Seq<Seq<char>>, prefix: Seq<char>) -> Option<Seq<char>>
    decreases pairs.len(),
{
    if pairs.len() == 0 {
        None
    } else if !has_prefix(pairs[0], prefix) {
        Some(pairs[0])
    } else {
        first_without_prefix(pairs.drop_first(), prefix)
    }
}

/// The `name=value` pairs of `Set-Cookie` header values, in order.
pub fn cookie_pairs(set_cookies: &Vec<Option<String>>) -> (r: Vec<String>)
    ensures
        r@.map_values(|s: String| s@) == cookie_pairs_of(opt_views(set_cookies@)),
{
    let mut out: Vec<String> = Vec::new();
    let mut i: usize = 0;
    let ghost vs = opt_views(set_cookies@);
    assert(vs.take(0) =~= Seq::<Option<Seq<char>>>::empty());
    while i < set_cookies.len()
        invariant
            i <= set_cookies.len(),
            vs == opt_views(set_cookies@),
            out@.map_values(|s: String| s@) == cookie_pairs_of(vs.take(i as int)),
        decreases set_cookies.len() - i,
    {
        assert(vs.take(i + 1).drop_last() =~= vs.take(i as int));
        let ghost before = out@.map_values(|s: String| s@);
        match &set_cookies[i] {
            Some(v) => {
                let pair = before_first_char(v.as_str(), ';');
                out.push(pair);
                assert(out@.map_values(|s: String| s@) =~= before.push(pair@));
            },
            None => {},
        }
        i = i + 1;
    }
    assert(vs.take(set_cookies.len() as int) =~= vs);
    out
}

fn find_with_prefix(pairs: &Vec<String>, prefix: &str) -> (r: Option<String>)
    ensures
        opt_view(r) == first_with_prefix(pairs@.map_values(|s: String| s@), prefix@),
{
    let ghost ps = pairs@.map_values(|s: String| s@);
    let mut i: usize = 0;
    assert(ps.skip(0) =~= ps);
    while i < pairs.len()
        invariant
            i <= pairs.len(),
            ps == pairs@.map_values(|s: String| s@),
            first_with_prefix(ps, prefix@) == first_with_prefix(ps.skip(i as int), prefix@),
        decreases pairs.len() - i,
    {
        assert(ps.skip(i as int).drop_first() =~= ps.skip(i + 1));
        assert(ps.skip(i as int)[0] == pairs@[i as int]@);
        match strip_prefix(pairs[i].as_str(), prefix) {
            Some(rest) => return Some(rest),
            None => {},
        }
        i = i + 1;
    }
    None
}

fn find_without_prefix(pairs: &Vec<String>, prefix: &str) -> (r: Option<String>)
    ensures
        opt_view(r) == first_without_prefix(pairs@.map_values(|s: String| s@), prefix@),
{
    let ghost ps = pairs@.map_values(|s: String| s@);
    let mut i: usize = 0;
    assert(ps.skip(0) =~= ps);
    while i < pairs.len()
        invariant
            i <= pairs.len(),
            ps == pairs@.map_values(|s: String| s@),
            first_without_prefix(ps, prefix@) == first_without_prefix(ps.skip(i as int), prefix@),
        decreases pairs.len() - i,
    {
        assert(ps.skip(i as int).drop_first() =~= ps.skip(i + 1));
        assert(ps.skip(i as int)[0] == pairs@[i as int]@);
        if !starts_with(pairs[i].as_str(), prefix) {
            return Some(pairs[i].clone());
        }
        i = i + 1;
    }
    None
}

/// The value of the first cookie called `name` among `Set-Cookie` values.
pub fn cookie_value(set_cookies: &Vec<Option<String>>, name: &str) -> (r: Option<String>)
    ensures
        opt_view(r) == first_with_prefix(cookie_pairs_of(opt_views(set_cookies@)), name@ + "="@),
{
    let pairs = cookie_pairs(set_cookies);
    let mut prefix = String::from_str(name);
    prefix.append("=");
    find_with_prefix(&pairs, prefix.as_str())
}

/// Why a password login failed.
#[derive(Debug, Clone, Copy, PartialEq, Eq)]
pub enum LoginError {
    /// The login page set no `_xsrf` cookie.
    MissingXsrfCookie,
    /// The server did not answer the login form with a redirection.
    Rejected { status: u16 },
    /// The server set no cookie other than `_xsrf`.
    MissingSessionCookie,
}

/// The XSRF token that the login page set, from its `Set-Cookie` values.
pub fn login_xsrf(set_cookies: &Vec<Option<String>>) -> (r: Result<String, LoginError>)
    ensures
        match first_with_prefix(cookie_pairs_of(opt_views(set_cookies@)), "_xsrf="@) {
            Some(x) => r matches Ok(t) && t@ == x,
            None => r == Err::<String, LoginError>(LoginError::MissingXsrfCookie),
        },
{
    proof {
        reveal_strlit("_xsrf");
        reveal_strlit("=");
        reveal_strlit("_xsrf=");
        assert("_xsrf"@ + "="@ =~= "_xsrf="@);
    }
    match cookie_value(set_cookies, "_xsrf") {
        Some(x) => Ok(x),
        None => Err(LoginError::MissingXsrfCookie),
    }
}

/// The cookie that carries the XSRF token: `_xsrf={xsrf}`.
pub fn xsrf_cookie(xsrf: &str) -> (r: String)
    ensures
        r@ == "_xsrf="@ + xsrf@,
{
    let mut c = String::from_str("_xsrf=");
    c.append(xsrf);
    c
}

/// The fields of the login form, in order: `_xsrf`, `password`, `next=/tree`.
pub fn login_form(xsrf: &str, password: &str) -> (r: Vec<Param>)
    ensures
        param_views(r@) == seq![("_xsrf"@, xsrf@), ("password"@, password@), ("next"@, "/tree"@)],
{
    let mut form: Vec<Param> = Vec::new();
    form.push(param("_xsrf", xsrf));
    form.push(param("password", password));
    form.push(param("next", "/tree"));
    assert(param_views(form@) =~= seq![("_xsrf"@, xsrf@), ("password"@, password@), ("next"@, "/tree"@)]);
    form
}

impl PendingLogin {
    /// The environment variable that holds the password.
    pub fn env_name(&self) -> (r: &str)
        ensures
            r@ == self@.env_name,
    {
        self.env_name.as_str()
    }

    /// The server's base URL, without a trailing `/`.
    pub fn base_url(&self) -> (r: &str)
        ensures
            r@ == self@.base_url,
    {
        self.base_url.as_str()
    }

    /// The login page: `{base}/login`.
    pub fn login_url(&self) -> (r: String)
        ensures
            r@ == self@.base_url + "/login"@,
    {
        let mut url = self.base_url.clone();
        url.append("/login");
        url
    }

    /// Completes the login from the answer to the login form: it must be a
    /// redirection that sets a cookie other than `_xsrf`, the session cookie.
    /// The client then sends `_xsrf={xsrf}; {session}` as its cookie header,
    /// and `xsrf` as its XSRF token.
    pub fn finish(self, xsrf: &str, status: u16, set_cookies: &Vec<Option<String>>) -> (r: Result<JupyterClient, LoginError>)
        ensures
            !(300 <= status < 400) ==> r == Err::<JupyterClient, LoginError>(LoginError::Rejected { status }),
            300 <= status < 400 ==> match first_without_prefix(cookie_pairs_of(opt_views(set_cookies@)), "_xsrf="@) {
                None => r == Err::<JupyterClient, LoginError>(LoginError::MissingSessionCookie),
                Some(session) => r matches Ok(c) && c@ == (ClientView {
                    base_url: self@.base_url,
                    auth: AuthView::Cookie { header: "_xsrf="@ + xsrf@ + "; "@ + session, xsrf: xsrf@ },
                }),
            },
    {
        proof {
            use_type_invariant(&self);
        }
        if !is_redirection(status) {
            return Err(LoginError::Rejected { status });
        }
        let pairs = cookie_pairs(set_cookies);
        match find_without_prefix(&pairs, "_xsrf=") {
            None => Err(LoginError::MissingSessionCookie),
            Some(session) => {
                let mut header = xsrf_cookie(xsrf);
                header.append("; ");
                header.append(session.as_str());
                let auth = ServerAuth::Cookie { header, xsrf: String::from_str(xsrf) };
                Ok(JupyterClient { base_url: self.base_url, auth })
            },
        }
    }
}

/// Whatever server URL a client is made from, its WebSocket base has no
/// trailing `/`, so the kernel path `/api/kernels/...` follows it without a
/// doubled slash.
pub proof fn lemma_client_ws_base_single_slash(server_url: Seq<char>)
    ensures
        !ends_with_char(ws_base(trim_end(server_url, '/')), '/'),
{
    lemma_trim_end(server_url, '/');
    lemma_ws_base_no_trailing_slash(trim_end(server_url, '/'));
}

/// A notebook's name stands in its path.
pub proof fn lemma_notebook_name_in_path(path: Seq<char>)
    ensures
        exists|i: int| occurs_at(path, notebook_name(path), i),
{
    match file_name(path) {
        Some(n) => {
            let parts = pieces(path, '/');
            lemma_drop_dots_members(parts);
            lemma_pieces_occur(path, '/');
            let d = drop_dots(parts);
            assert(d[d.len() - 1] == n);
            assert(parts.contains(n));
            let k = choose|k: int| 0 <= k < parts.len() && parts[k] == n;
            assert(occurs_in(path, parts[k]));
            let i = choose|i: int| occurs_at(path, parts[k], i);
            assert(notebook_name(path) == n);
            assert(occurs_at(path, notebook_name(path), i));
        },
        None => {
            assert(path.subrange(0, path.len() as int) =~= path);
            assert(occurs_at(path, notebook_name(path), 0));
        },
    }
}

/// Two paths with the same non-empty pieces between `/`s have the same
/// Contents API URL (or the same error).
pub proof fn lemma_contents_url_depends_on_pieces(base: Seq<char>, p: Seq<char>, q: Seq<char>)
    requires
        pieces(p, '/') == pieces(q, '/'),
    ensures
        contents_url_of(base, p) == contents_url_of(base, q),
{
}

/// Whether a Contents API URL can be made depends on the server URL alone:
/// an error for one path is the same error for every path.
pub proof fn lemma_contents_url_error_for_every_path(base: Seq<char>, p: Seq<char>, q: Seq<char>)
    ensures
        contents_url_of(base, p) is Ok <==> contents_url_of(base, q) is Ok,
        contents_url_of(base, p) matches Err(e) ==> contents_url_of(base, q) == Err::<
            Seq<char>,
            ContentsUrlError,
        >(e),
{
}

/// `s` ends with `p`.
pub open spec fn has_suffix(s: Seq<char>, p: Seq<char>) -> bool {
    p.len() <= s.len() && s.skip(s.len() - p.len()) == p
}

/// A channels URL holds the kernel id verbatim right after `/api/kernels/`,
/// ends with the token when there is one, and carries the session id as the
/// first query parameter when there is one.
pub proof fn lemma_channels_url_holds_ids(
    ws: Seq<char>,
    kernel_id: Seq<char>,
    session_id: Option<Seq<char>>,
    token: Option<Seq<char>>,
)
    ensures
        has_prefix(channels_url(ws, kernel_id, session_id, token), ws + "/api/kernels/"@ + kernel_id
            + "/channels"@),
        token matches Some(t) ==> has_suffix(channels_url(ws, kernel_id, session_id, token), "token="@ + t),
        session_id matches Some(sid) ==> occurs_in(
            channels_url(ws, kernel_id, session_id, token),
            "?session_id="@ + sid,
        ),
{
    let path = ws + "/api/kernels/"@ + kernel_id + "/channels"@;
    let u = channels_url(ws, kernel_id, session_id, token);
    assert(u.subrange(0, path.len() as int) =~= path);
    match token {
        Some(t) => {
            let tail = "token="@ + t;
            reveal_strlit("?token=");
            reveal_strlit("&token=");
            reveal_strlit("token=");
            assert("?token="@ =~= seq!['?'] + "token="@);
            assert("&token="@ =~= seq!['&'] + "token="@);
            match session_id {
                Some(sid) => {
                    assert(u =~= path + "?session_id="@ + sid + seq!['&'] + tail);
                    assert((path + "?session_id="@ + sid + seq!['&'] + tail).skip(u.len() - tail.len()) =~= tail);
                },
                None => {
                    assert(u =~= path + seq!['?'] + tail);
                    assert((path + seq!['?'] + tail).skip(u.len() - tail.len()) =~= tail);
                },
            }
            assert(has_suffix(u, tail));
        },
        None => {},
    }
    match session_id {
        Some(sid) => {
            let q = "?session_id="@ + sid;
            let rest = match token {
                Some(t) => "&token="@ + t,
                None => Seq::<char>::empty(),
            };
            assert(u =~= path + q + rest);
            assert(u.subrange(path.len() as int, (path.len() + q.len()) as int) =~= q);
            assert(occurs_at(u, q, path.len() as int));
        },
        None => {},
    }
}

/// Whatever the method, a request carries the client's credentials: the
/// token as the query parameter `token`, or both the session cookie and the
/// XSRF token as headers.
pub proof fn lemma_requests_carry_credentials(
    req: ApiRequest,
    client: ClientView,
    method: HttpMethod,
    url: Seq<char>,
)
    requires
        plans(req, client, method, url),
    ensures
        match client.auth {
            AuthView::Token(t) => param_views(req.query@).contains(("token"@, t)),
            AuthView::Cookie { header, xsrf } => param_views(req.headers@).contains(("cookie"@, header))
                && param_views(req.headers@).contains(("X-XSRFToken"@, xsrf)),
        },
{
    match client.auth {
        AuthView::Token(t) => {
            assert(param_views(req.query@)[0] == ("token"@, t));
        },
        AuthView::Cookie { header, xsrf } => {
            assert(param_views(req.headers@)[0] == ("cookie"@, header));
            assert(param_views(req.headers@)[1] == ("X-XSRFToken"@, xsrf));
        },
    }
}

} // verus!

use nb_client::notebook::{content_member, read_notebook_answer, NotebookAnswerError};
use nb_client::client::{
    cookie_pairs, cookie_value, filename_from_path, is_redirection, is_success, login_form,
    login_xsrf, xsrf_cookie, ContentsUrlError, HttpMethod, JupyterClient, LoginError, Param,
    RequestBody,
};

fn notebook(minor: i32) -> nbformat::v4::Notebook {
    let text = format!(
        "{{\"metadata\": {{}}, \"nbformat\": 4, \"nbformat_minor\": {minor}, \"cells\": []}}"
    );
    serde_json::from_str(&text).unwrap()
}

fn client(base_url: &str) -> JupyterClient {
    JupyterClient::new(base_url.to_string(), "tok".to_string()).unwrap()
}

fn pairs(params: &[Param]) -> Vec<(String, String)> {
    params.iter().map(|p| (p.name.clone(), p.value.clone())).collect()
}

fn owned(items: &[(&str, &str)]) -> Vec<(String, String)> {
    items.iter().map(|(a, b)| (a.to_string(), b.to_string())).collect()
}

fn cookie_client() -> JupyterClient {
    let pending = match JupyterClient::new("http://h:1/".to_string(), "password-env:PW".to_string()) {
        Err(p) => p,
        Ok(_) => panic!("a password credential needs a login"),
    };
    let set_cookies = vec![
        Some("_xsrf=abc; Path=/".to_string()),
        Some("session-x=s123; HttpOnly".to_string()),
    ];
    pending.finish("abc", 302, &set_cookies).ok().unwrap()
}

#[test]
fn test_get_ws_url_formats() {
    let c = client("http://127.0.0.1:8888");

    let url = c.get_ws_url("kid1", None);
    assert_eq!(
        url,
        "ws://127.0.0.1:8888/api/kernels/kid1/channels?token=tok"
    );

    let url = c.get_ws_url("kid2", Some("sid42"));
    assert_eq!(
        url,
        "ws://127.0.0.1:8888/api/kernels/kid2/channels?session_id=sid42&token=tok"
    );

    let c_https = client("https://example.com");
    let url = c_https.get_ws_url("kid3", None);
    assert!(url.starts_with("wss://"), "https must become wss");
}

#[test]
fn test_new_trims_trailing_slash() {
    let c = client("http://host:8888/");
    let url = c.get_ws_url("k", None);
    assert!(
        !url.contains("//api"),
        "trailing slash must not produce double-slash in URL: {url}"
    );
    assert!(url.contains("/api/kernels/k/channels"));
}

#[test]
fn new_trims_every_trailing_slash() {
    let c = client("http://host:8888///");
    assert_eq!(c.base_url(), "http://host:8888");
    let again = client(c.base_url());
    assert_eq!(again.base_url(), "http://host:8888");
}

#[test]
fn new_with_password_env_asks_for_login() {
    let pending = match JupyterClient::new("https://h/".to_string(), "password-env:NB_PW".to_string()) {
        Err(p) => p,
        Ok(_) => panic!("expected a pending login"),
    };
    assert_eq!(pending.env_name(), "NB_PW");
    assert_eq!(pending.base_url(), "https://h");
    assert_eq!(pending.login_url(), "https://h/login");
}

#[test]
fn token_that_only_looks_like_a_prefix_is_a_token() {
    let c = JupyterClient::new("http://h".to_string(), "password-env".to_string()).unwrap();
    assert_eq!(c.websocket_cookie(), None);
    assert_eq!(c.get_ws_url("k", None), "ws://h/api/kernels/k/channels?token=password-env");
}

#[test]
fn ws_url_without_token_for_cookie_login() {
    let c = cookie_client();
    assert_eq!(c.websocket_cookie(), Some("_xsrf=abc; session-x=s123"));
    assert_eq!(c.get_ws_url("k", None), "ws://h:1/api/kernels/k/channels");
    assert_eq!(c.get_ws_url("k", Some("s")), "ws://h:1/api/kernels/k/channels?session_id=s");
}

#[test]
fn ws_url_replaces_scheme_occurrences_everywhere() {
    let c = client("https://a/http://b");
    assert_eq!(c.get_ws_url("k", None), "wss://a/ws://b/api/kernels/k/channels?token=tok");
}

#[test]
fn terminal_ws_url() {
    let c = client("https://h:8888/");
    assert_eq!(c.get_terminal_ws_url("t1"), "wss://h:8888/terminals/websocket/t1?token=tok");
    assert_eq!(cookie_client().get_terminal_ws_url("t1"), "ws://h:1/terminals/websocket/t1");
}

#[test]
fn token_requests_carry_the_token_as_query() {
    let c = client("http://h:8888/");
    let r = c.get_kernel("k1");
    assert_eq!(r.method, HttpMethod::Get);
    assert_eq!(r.url, "http://h:8888/api/kernels/k1");
    assert_eq!(pairs(&r.query), owned(&[("token", "tok")]));
    assert!(r.headers.is_empty());
    assert!(matches!(r.body, RequestBody::Empty));
    assert!(!r.report_body_on_error);
}

#[test]
fn cookie_requests_carry_cookie_headers() {
    let c = cookie_client();
    let r = c.list_sessions();
    assert_eq!(r.url, "http://h:1/api/sessions");
    assert!(r.query.is_empty());
    assert_eq!(
        pairs(&r.headers),
        owned(&[("cookie", "_xsrf=abc; session-x=s123"), ("X-XSRFToken", "abc")])
    );
}

#[test]
fn request_urls_and_methods() {
    let c = client("http://h");
    let r = c.test_connection();
    assert_eq!((r.method, r.url.as_str()), (HttpMethod::Get, "http://h/api"));
    let r = c.list_kernels();
    assert_eq!((r.method, r.url.as_str()), (HttpMethod::Get, "http://h/api/kernels"));
    let r = c.restart_kernel("k9");
    assert_eq!((r.method, r.url.as_str()), (HttpMethod::Post, "http://h/api/kernels/k9/restart"));
    let r = c.delete_session("s9");
    assert_eq!((r.method, r.url.as_str()), (HttpMethod::Delete, "http://h/api/sessions/s9"));
    let r = c.delete_terminal("t9");
    assert_eq!((r.method, r.url.as_str()), (HttpMethod::Delete, "http://h/api/terminals/t9"));
    let r = c.start_kernel("python3");
    assert_eq!((r.method, r.url.as_str()), (HttpMethod::Post, "http://h/api/kernels"));
    match r.body {
        RequestBody::Name(b) => assert_eq!(b.name, "python3"),
        _ => panic!("start_kernel sends a name"),
    }
    let r = c.create_terminal("codexabc");
    assert_eq!((r.method, r.url.as_str()), (HttpMethod::Post, "http://h/api/terminals"));
    match r.body {
        RequestBody::Name(b) => assert_eq!(b.name, "codexabc"),
        _ => panic!("create_terminal sends a name"),
    }
}

#[test]
fn sessions_are_named_after_the_notebook_file() {
    let c = client("http://h");
    let r = c.create_session("work/analysis.ipynb", "python3");
    assert_eq!((r.method, r.url.as_str()), (HttpMethod::Post, "http://h/api/sessions"));
    assert!(r.report_body_on_error);
    match r.body {
        RequestBody::CreateSession(b) => {
            assert_eq!(b.path, "work/analysis.ipynb");
            assert_eq!(b.name, "analysis.ipynb");
            assert_eq!(b.session_type, "notebook");
            assert_eq!(b.kernel.id, None);
            assert_eq!(b.kernel.name, "python3");
        }
        _ => panic!("create_session sends a session request"),
    }
    let r = c.create_session_with_kernel("nb.ipynb", "kid", "python3");
    match r.body {
        RequestBody::CreateSession(b) => {
            assert_eq!(b.name, "nb.ipynb");
            assert_eq!(b.kernel.id, Some("kid".to_string()));
            assert_eq!(b.kernel.name, "python3");
        }
        _ => panic!("create_session_with_kernel sends a session request"),
    }
}

#[test]
fn filename_examples() {
    assert_eq!(filename_from_path("dir/sub/nb.ipynb"), "nb.ipynb");
    assert_eq!(filename_from_path("nb.ipynb"), "nb.ipynb");
    assert_eq!(filename_from_path("dir/sub/"), "sub");
    assert_eq!(filename_from_path("a/./"), "a");
    assert_eq!(filename_from_path("./x"), "x");
    assert_eq!(filename_from_path("a/.."), "a/..");
    assert_eq!(filename_from_path("/"), "/");
    assert_eq!(filename_from_path(""), "");
    assert_eq!(filename_from_path("."), ".");
}

#[test]
fn filename_agrees_with_std_path() {
    let cases = [
        "a", "a/b", "a/b/", "a//b", "/a", "//", ".", "..", "./", "a/.", "a/./b", "a/..", "../a",
        "a/b/..", "a/b/.", "./.", "x y/é.ipynb", "/.", "a/.../", "...", ".hidden", "a/.hidden/",
    ];
    for case in cases {
        let expected = std::path::Path::new(case)
            .file_name()
            .and_then(|n| n.to_str())
            .unwrap_or(case)
            .to_string();
        assert_eq!(filename_from_path(case), expected, "path {case:?}");
    }
}

#[test]
fn contents_urls() {
    let c = client("http://h:8888/");
    assert_eq!(
        c.contents_url("dir/a b.ipynb").unwrap(),
        "http://h:8888/api/contents/dir/a%20b.ipynb"
    );
    assert_eq!(c.contents_url("//x//y/").unwrap(), "http://h:8888/api/contents/x/y");
    assert_eq!(c.contents_url("").unwrap(), "http://h:8888/api/contents");
    let c = client("http://h/base?q=1");
    assert_eq!(c.contents_url("n.ipynb").unwrap(), "http://h/base/api/contents/n.ipynb?q=1");
}

#[test]
fn contents_url_errors() {
    assert_eq!(client("not a url").contents_url("x").err(), Some(ContentsUrlError::InvalidServerUrl));
    assert_eq!(client("mailto:me@h").contents_url("x").err(), Some(ContentsUrlError::CannotBeABase));
    assert!(client("not a url").get_notebook("x").is_err());
    assert!(client("mailto:me@h").save_notebook("x", &notebook(5)).is_err());
}

#[test]
fn notebook_requests() {
    let c = client("http://h");
    let r = c.get_notebook("d/n.ipynb").ok().unwrap();
    assert_eq!((r.method, r.url.as_str()), (HttpMethod::Get, "http://h/api/contents/d/n.ipynb"));
    assert_eq!(
        pairs(&r.query),
        owned(&[("token", "tok"), ("content", "1"), ("type", "notebook")])
    );
    assert!(r.report_body_on_error);
    let nb = notebook(7);
    let r = c.save_notebook("d/n.ipynb", &nb).ok().unwrap();
    assert_eq!((r.method, r.url.as_str()), (HttpMethod::Put, "http://h/api/contents/d/n.ipynb"));
    assert_eq!(pairs(&r.query), owned(&[("token", "tok")]));
    match r.body {
        RequestBody::Notebook(e) => {
            assert_eq!(e.content_type, "notebook");
            assert_eq!(e.format, "json");
            assert_eq!(e.content.nbformat_minor, 7);
            assert_eq!(serde_json::to_value(&e.content).unwrap(), serde_json::to_value(&nb).unwrap());
        }
        _ => panic!("save_notebook sends a notebook"),
    }
}

#[test]
fn status_classes() {
    assert!(is_success(200));
    assert!(is_success(299));
    assert!(!is_success(300));
    assert!(!is_success(199));
    assert!(is_redirection(302));
    assert!(!is_redirection(200));
    assert!(!is_redirection(400));
}

#[test]
fn cookies_from_set_cookie_values() {
    let values = vec![
        Some("_xsrf=2|ab; expires=x; Path=/".to_string()),
        None,
        Some("username-h=\"abc\"".to_string()),
    ];
    assert_eq!(cookie_pairs(&values), vec!["_xsrf=2|ab".to_string(), "username-h=\"abc\"".to_string()]);
    assert_eq!(cookie_value(&values, "_xsrf"), Some("2|ab".to_string()));
    assert_eq!(cookie_value(&values, "username-h"), Some("\"abc\"".to_string()));
    assert_eq!(cookie_value(&values, "other"), None);
}

#[test]
fn login_steps() {
    let first = vec![Some("_xsrf=tok1; Path=/".to_string())];
    assert_eq!(login_xsrf(&first), Ok("tok1".to_string()));
    assert_eq!(login_xsrf(&vec![None, Some("a=b".to_string())]), Err(LoginError::MissingXsrfCookie));
    assert_eq!(xsrf_cookie("tok1"), "_xsrf=tok1");
    assert_eq!(
        pairs(&login_form("tok1", "pw")),
        owned(&[("_xsrf", "tok1"), ("password", "pw"), ("next", "/tree")])
    );
}

#[test]
fn login_finish_outcomes() {
    let pending = || match JupyterClient::new("http://h".to_string(), "password-env:P".to_string()) {
        Err(p) => p,
        Ok(_) => panic!("expected a pending login"),
    };
    let cookies = vec![Some("_xsrf=x; Path=/".to_string()), Some("sess=1; HttpOnly".to_string())];
    assert_eq!(pending().finish("x", 200, &cookies).err(), Some(LoginError::Rejected { status: 200 }));
    let only_xsrf = vec![Some("_xsrf=x".to_string())];
    assert_eq!(pending().finish("x", 302, &only_xsrf).err(), Some(LoginError::MissingSessionCookie));
    let c = pending().finish("x", 303, &cookies).ok().unwrap();
    assert_eq!(c.websocket_cookie(), Some("_xsrf=x; sess=1"));
    assert_eq!(c.base_url(), "http://h");
}

#[test]
fn checked_contents_urls_within_limits() {
    let c = client("http://h:8888");
    assert!(c.contents_url_within_limits("a/b.ipynb"));
    assert!(client("not a url").contents_url_within_limits("x"));
    assert!(client("mailto:me@h").contents_url_within_limits("x"));
    assert_eq!(
        c.checked_contents_url("a/b.ipynb"),
        Some(Ok("http://h:8888/api/contents/a/b.ipynb".to_string()))
    );
    assert_eq!(client("not a url").checked_contents_url("x"), Some(Err(ContentsUrlError::InvalidServerUrl)));
    let r = c.checked_get_notebook("n.ipynb").unwrap().ok().unwrap();
    assert_eq!(r.url, "http://h:8888/api/contents/n.ipynb");
    let r = c.checked_save_notebook("n.ipynb", &notebook(5)).unwrap().ok().unwrap();
    assert_eq!(r.method, HttpMethod::Put);
}

#[test]
fn notebook_answers() {
    let ok = read_notebook_answer(
        "{\"name\": \"n.ipynb\", \"content\": {\"metadata\": {}, \"nbformat\": 4, \"nbformat_minor\": 5, \"cells\": []}}",
    )
    .unwrap();
    assert_eq!(ok.nbformat, 4);
    assert_eq!(ok.nbformat_minor, 5);
    assert_eq!(read_notebook_answer("<html>").err(), Some(NotebookAnswerError::NotJson));
    assert_eq!(read_notebook_answer("{\"name\": \"x\"}").err(), Some(NotebookAnswerError::MissingContent));
    assert_eq!(
        read_notebook_answer("{\"content\": {\"cells\": 3}}").err(),
        Some(NotebookAnswerError::NotNotebook)
    );
    assert_eq!(content_member("{\"content\": [1, \"a\"]}"), Some(Some("[1,\"a\"]".to_string())));
    assert_eq!(content_member("[]"), Some(None));
}

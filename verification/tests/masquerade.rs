use ruproxy::config::{MasqueradeConfig, MasqueradeProxy};
use ruproxy::hysteria2::masquerade::{
    dispatch, error_response, forward_headers, not_found_response, proxy_failed, proxy_request,
    proxy_target, redirect, relay_reply, Header, Masquerade,
};

fn h(name: &str, value: &str) -> Header {
    Header { name: name.to_string(), value: value.as_bytes().to_vec() }
}

fn shown(headers: &[Header]) -> Vec<String> {
    headers
        .iter()
        .map(|x| format!("{}={}", x.name, String::from_utf8(x.value.clone()).unwrap()))
        .collect()
}

#[test]
fn visitors_get_a_page_or_a_site() {
    let proxy = MasqueradeProxy { url: "http://site".to_string(), rewrite_host: true };
    let cfg = MasqueradeConfig { kind: "proxy".to_string(), proxy: Some(proxy) };
    match dispatch(&cfg) {
        Masquerade::Proxy(p) => assert_eq!(p.url, "http://site"),
        other => panic!("{:?}", other),
    }
    match dispatch(&MasqueradeConfig { kind: "proxy".to_string(), proxy: None }) {
        Masquerade::Static(r) => {
            assert_eq!((r.status, r.body), (404, b"Not Found".to_vec()));
            assert_eq!(shown(&r.headers), ["content-type=text/plain"]);
        }
        other => panic!("{:?}", other),
    }
    match dispatch(&MasqueradeConfig { kind: "none".to_string(), proxy: None }) {
        Masquerade::Static(r) => assert_eq!((r.status, r.headers.len()), (404, 2)),
        other => panic!("{:?}", other),
    }
}

#[test]
fn the_page_that_is_not_found() {
    let r = not_found_response();
    assert_eq!(r.status, 404);
    assert_eq!(shown(&r.headers), ["content-type=text/html; charset=utf-8", "server=nginx/1.24.0"]);
    let page = String::from_utf8(r.body).unwrap();
    assert!(page.starts_with("<!DOCTYPE html>\n<html>\n<head><title>404 Not Found</title></head>\n"));
    assert!(page.ends_with("</p></body>\n</html>"));
}

#[test]
fn answers_of_one_line() {
    let r = error_response(500, "oops");
    assert_eq!((r.status, r.body), (500, b"oops".to_vec()));
    let r = proxy_failed();
    assert_eq!((r.status, r.body), (502, b"Bad Gateway".to_vec()));
}

#[test]
fn targets_are_joined_without_double_slashes() {
    assert_eq!(proxy_target("http://site//", Some("/a?b")), "http://site/a?b");
    assert_eq!(proxy_target("http://site", None), "http://site/");
    assert_eq!(proxy_target("http://site/sub/", Some("/x")), "http://site/sub/x");
    assert_eq!(proxy_target("///", Some("")), "");
}

#[test]
fn the_host_is_rewritten_where_that_is_set() {
    let headers = vec![h("host", "me"), h("accept", "*/*"), h("host", "me too")];
    let kept = forward_headers(&headers, false, Some("site"), Some(81));
    assert_eq!(shown(&kept), ["host=me", "accept=*/*", "host=me too"]);
    let sent = forward_headers(&headers, true, Some("site"), Some(81));
    assert_eq!(shown(&sent), ["accept=*/*", "host=site:81"]);
    let sent = forward_headers(&headers, true, Some("site"), None);
    assert_eq!(shown(&sent), ["accept=*/*", "host=site"]);
    let sent = forward_headers(&headers, true, None, None);
    assert_eq!(shown(&sent), ["accept=*/*"]);
}

#[test]
fn requests_to_the_site_take_its_host_from_its_address() {
    let headers = vec![h("host", "me")];
    let r = proxy_request(&headers, Some("/p?q=1"), "http://site.example:8080/", true).unwrap();
    assert_eq!(r.url, "http://site.example:8080/p?q=1");
    assert_eq!(shown(&r.headers), ["host=site.example:8080"]);
    let r = proxy_request(&headers, None, "http://site.example", true).unwrap();
    assert_eq!(shown(&r.headers), ["host=site.example"]);
    let r = proxy_request(&headers, Some("/x"), "", true).unwrap();
    assert_eq!((r.url.as_str(), r.headers.len()), ("/x", 0));
    assert!(proxy_request(&headers, Some("/ bad"), "http://site", true).is_none());
}

#[test]
fn redirections_keep_only_the_first_location() {
    let headers = vec![h("server", "s"), h("location", "/a"), h("location", "/b")];
    let r = redirect(302, &headers).unwrap();
    assert_eq!(r.status, 302);
    assert_eq!(shown(&r.headers), ["location=/a"]);
    assert!(r.body.is_empty());
    assert!(redirect(399, &vec![h("server", "s")]).unwrap().headers.is_empty());
    assert!(redirect(200, &headers).is_none());
    assert!(redirect(400, &headers).is_none());
}

#[test]
fn other_answers_lose_only_their_transfer_encoding() {
    let headers = vec![h("transfer-encoding", "chunked"), h("server", "s"), h("Transfer-Encoding", "x")];
    let r = relay_reply(200, &headers, b"body".to_vec());
    assert_eq!(r.status, 200);
    assert_eq!(shown(&r.headers), ["server=s"]);
    assert_eq!(r.body, b"body".to_vec());
}

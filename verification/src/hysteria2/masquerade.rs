//! What a visitor gets who is no client: a page that is not found, or another
//! site through this server.

use crate::config::{opt_str, opt_text, MasqueradeConfig, MasqueradeProxy};
use crate::text;
use crate::text::{decimal, lowercase, trim_end_matches};
use vstd::prelude::*;
use vstd::utf8;

verus! {

/// A header of a request or of an answer. A name is in lower case, as HTTP/2
/// and the HTTP library have it.
#[derive(Debug, Clone)]
pub struct Header {
    pub name: String,
    pub value: Vec<u8>,
}

/// An answer.
#[derive(Debug)]
pub struct Reply {
    pub status: u16,
    pub headers: Vec<Header>,
    pub body: Vec<u8>,
}

/// A header, over mathematical values.
pub struct HeaderView {
    pub name: Seq<char>,
    pub value: Seq<u8>,
}

/// An answer, over mathematical values.
pub struct ReplyView {
    pub status: u16,
    pub headers: Seq<HeaderView>,
    pub body: Seq<u8>,
}

impl View for Header {
    type V = HeaderView;

    open spec fn view(&self) -> HeaderView {
        HeaderView { name: self.name@, value: self.value@ }
    }
}

/// The headers of a list.
pub open spec fn headers_of(h: Seq<Header>) -> Seq<HeaderView> {
    h.map_values(|x: Header| x@)
}

impl View for Reply {
    type V = ReplyView;

    open spec fn view(&self) -> ReplyView {
        ReplyView { status: self.status, headers: headers_of(self.headers@), body: self.body@ }
    }
}

/// A header with this name and a text as its value.
pub open spec fn text_header(name: Seq<char>, value: Seq<char>) -> HeaderView {
    HeaderView { name, value: utf8::encode_utf8(value) }
}

fn make_header(name: &str, value: &str) -> (h: Header)
    ensures
        h@ == text_header(name@, value@),
{
    Header { name: name.to_string(), value: vstd::slice::slice_to_vec(value.as_bytes()) }
}

fn copy_header(h: &Header) -> (r: Header)
    ensures
        r@ == h@,
{
    Header { name: h.name.clone(), value: vstd::slice::slice_to_vec(h.value.as_slice()) }
}

/// The page that says that there is none.
pub open spec fn not_found_page() -> Seq<char> {
    "<!DOCTYPE html>\n<html>\n<head><title>404 Not Found</title></head>\n<body><h1>Not Found</h1><p>The requested URL was not found on this server.</p></body>\n</html>"@
}

/// The answer of a web server that has no such page.
pub open spec fn not_found() -> ReplyView {
    ReplyView {
        status: 404,
        headers: seq![
            text_header("content-type"@, "text/html; charset=utf-8"@),
            text_header("server"@, "nginx/1.24.0"@),
        ],
        body: utf8::encode_utf8(not_found_page()),
    }
}

/// An answer of one line.
pub open spec fn plain_reply(status: u16, message: Seq<char>) -> ReplyView {
    ReplyView {
        status,
        headers: seq![text_header("content-type"@, "text/plain"@)],
        body: utf8::encode_utf8(message),
    }
}

/// The answer of a web server that has no such page.
pub fn not_found_response() -> (r: Reply)
    ensures
        r@ == not_found(),
{
    let body =
        "<!DOCTYPE html>\n<html>\n<head><title>404 Not Found</title></head>\n<body><h1>Not Found</h1><p>The requested URL was not found on this server.</p></body>\n</html>";
    let mut headers: Vec<Header> = Vec::new();
    headers.push(make_header("content-type", "text/html; charset=utf-8"));
    headers.push(make_header("server", "nginx/1.24.0"));
    assert(headers_of(headers@) =~= not_found().headers);
    Reply { status: 404, headers, body: vstd::slice::slice_to_vec(body.as_bytes()) }
}

/// An answer of one line.
pub fn error_response(status: u16, message: &str) -> (r: Reply)
    ensures
        r@ == plain_reply(status, message@),
{
    let mut headers: Vec<Header> = Vec::new();
    headers.push(make_header("content-type", "text/plain"));
    assert(headers_of(headers@) =~= plain_reply(status, message@).headers);
    Reply { status, headers, body: vstd::slice::slice_to_vec(message.as_bytes()) }
}

/// What a visitor gets.
#[derive(Debug)]
pub enum Masquerade<'a> {
    /// Another site, through this server.
    Proxy(&'a MasqueradeProxy),
    /// This answer.
    Static(Reply),
}

/// The answer that a visitor gets without the other site, by the kind of
/// masquerade and by whether another site is configured; `None` where the
/// visitor is shown that site.
pub open spec fn static_answer(kind: Seq<char>, proxy: bool) -> Option<ReplyView> {
    if kind != "proxy"@ {
        Some(not_found())
    } else if proxy {
        None
    } else {
        Some(plain_reply(404, "Not Found"@))
    }
}

/// Decides what a visitor gets.
pub fn dispatch(cfg: &MasqueradeConfig) -> (r: Masquerade<'_>)
    ensures
        match (r, static_answer(cfg.kind@, cfg.proxy is Some)) {
            (Masquerade::Proxy(proxy), None) => cfg.proxy == Some(*proxy),
            (Masquerade::Static(reply), Some(view)) => reply@ == view,
            _ => false,
        },
        if cfg.kind@ == "proxy"@ {
            match cfg.proxy {
                Some(proxy) => r == Masquerade::Proxy(&proxy),
                None => r is Static && r->Static_0@ == plain_reply(404, "Not Found"@),
            }
        } else {
            r is Static && r->Static_0@ == not_found()
        },
{
    if text::same_text(cfg.kind.as_str(), "proxy") {
        match &cfg.proxy {
            Some(proxy) => Masquerade::Proxy(proxy),
            None => Masquerade::Static(error_response(404, "Not Found")),
        }
    } else {
        Masquerade::Static(not_found_response())
    }
}

/// The answer where the other site did not give one.
pub fn proxy_failed() -> (r: Reply)
    ensures
        r@ == plain_reply(502, "Bad Gateway"@),
{
    error_response(502, "Bad Gateway")
}

/// The address of a page on the other site: the address of the site without
/// slashes at its end, and the path and query that the visitor asked for.
pub open spec fn target_url(base: Seq<char>, path_and_query: Option<Seq<char>>) -> Seq<char> {
    trim_end_matches(base, set!['/']) + match path_and_query {
        Some(p) => p,
        None => "/"@,
    }
}

/// The address of a page on the other site.
pub fn proxy_target(base: &str, path_and_query: Option<&str>) -> (r: String)
    ensures
        r@ == target_url(base@, opt_str(path_and_query)),
{
    let chars = text::chars_of(base);
    let mut end: usize = chars.len();
    assert(chars@.take(end as int) =~= chars@);
    while end > 0 && chars[end - 1] == '/'
        invariant
            end <= chars@.len(),
            trim_end_matches(chars@, set!['/']) == trim_end_matches(
                chars@.take(end as int),
                set!['/'],
            ),
        decreases end,
    {
        assert(chars@.take(end as int).drop_last() =~= chars@.take(end - 1));
        end -= 1;
    }
    let mut r = text::string_of(chars.as_slice(), 0, end);
    assert(r@ =~= chars@.take(end as int));
    match path_and_query {
        Some(p) => r.append(p),
        None => r.append("/"),
    }
    r
}

/// The host and the port in a URI, where the text is one.
pub uninterp spec fn uri_authority(url: Seq<char>) -> Option<(Option<Seq<char>>, Option<u16>)>;

/// The host and the port of a URI as plain values.
pub open spec fn authority_view(a: Option<(Option<String>, Option<u16>)>) -> Option<
    (Option<Seq<char>>, Option<u16>),
> {
    match a {
        Some((host, port)) => Some((opt_text(host), port)),
        None => None,
    }
}

/// `str::parse` to a `hyper::Uri`, its `host` and its `port_u16`: `None` where
/// the text is no URI.
#[verifier::external_body]
fn parse_uri(url: &str) -> (r: Option<(Option<String>, Option<u16>)>)
    ensures
        authority_view(r) == uri_authority(url@),
{
    let uri: hyper::Uri = url.parse().ok()?;
    Some((uri.host().map(str::to_string), uri.port_u16()))
}

/// The value of the host header for the other site.
pub open spec fn host_value(host: Seq<char>, port: Option<u16>) -> Seq<char> {
    match port {
        Some(p) => host + seq![':'] + decimal(p as nat),
        None => host,
    }
}

/// The headers of the request to the other site: those of the visitor, and
/// where the host is rewritten, the host of the other site in place of the
/// host that the visitor named.
pub open spec fn request_headers(
    headers: Seq<HeaderView>,
    rewrite_host: bool,
    host: Option<Seq<char>>,
    port: Option<u16>,
) -> Seq<HeaderView> {
    if rewrite_host {
        let others = headers.filter(|h: HeaderView| h.name != "host"@);
        match host {
            Some(name) => others.push(text_header("host"@, host_value(name, port))),
            None => others,
        }
    } else {
        headers
    }
}

/// The headers of the request to the other site.
pub fn forward_headers(
    headers: &Vec<Header>,
    rewrite_host: bool,
    host: Option<&str>,
    port: Option<u16>,
) -> (r: Vec<Header>)
    ensures
        headers_of(r@) == request_headers(headers_of(headers@), rewrite_host, opt_str(host), port),
{
    let ghost all = headers_of(headers@);
    let ghost keep = |h: HeaderView| h.name != "host"@;
    let mut r: Vec<Header> = Vec::new();
    let mut i: usize = 0;
    proof {
        assert(all.take(0) =~= Seq::empty());
        reveal(Seq::filter);
    }
    while i < headers.len()
        invariant
            i <= headers@.len(),
            all == headers_of(headers@),
            keep == (|h: HeaderView| h.name != "host"@),
            rewrite_host ==> headers_of(r@) == all.take(i as int).filter(keep),
            !rewrite_host ==> headers_of(r@) == all.take(i as int),
        decreases headers@.len() - i,
    {
        proof {
            reveal(Seq::filter);
            assert(all.take(i + 1).drop_last() =~= all.take(i as int));
            assert(all.take(i + 1).last() == headers@[i as int]@);
            assert(all.take(i + 1) =~= all.take(i as int).push(all[i as int]));
        }
        let ghost before = r@;
        if !(rewrite_host && text::same_text(headers[i].name.as_str(), "host")) {
            r.push(copy_header(&headers[i]));
            assert(headers_of(r@) =~= headers_of(before).push(headers@[i as int]@));
        }
        i += 1;
    }
    assert(all.take(i as int) =~= all);
    if rewrite_host {
        match host {
            Some(name) => {
                let mut value = name.to_string();
                match port {
                    Some(p) => {
                        value.push(':');
                        text::push_decimal(&mut value, p as u64);
                    },
                    None => {},
                }
                assert(value@ =~= host_value(name@, port));
                let ghost before = r@;
                r.push(make_header("host", value.as_str()));
                assert(headers_of(r@) =~= headers_of(before).push(
                    text_header("host"@, host_value(name@, port)),
                ));
            },
            None => {},
        }
    }
    r
}

/// The request to the other site.
#[derive(Debug)]
pub struct ProxyRequest {
    pub url: String,
    pub headers: Vec<Header>,
}

/// The request to the other site for what a visitor asked for; `None` where
/// its address is no URI.
pub fn proxy_request(
    headers: &Vec<Header>,
    path_and_query: Option<&str>,
    target_base: &str,
    rewrite_host: bool,
) -> (r: Option<ProxyRequest>)
    ensures
        ({
            let url = target_url(target_base@, opt_str(path_and_query));
            match (r, uri_authority(url)) {
                (Some(request), Some((host, port))) => {
                    &&& request.url@ == url
                    &&& headers_of(request.headers@) == request_headers(
                        headers_of(headers@),
                        rewrite_host,
                        host,
                        port,
                    )
                },
                (None, None) => true,
                _ => false,
            }
        }),
{
    let url = proxy_target(target_base, path_and_query);
    match parse_uri(url.as_str()) {
        None => None,
        Some((host, port)) => {
            let name = match &host {
                Some(h) => Some(h.as_str()),
                None => None,
            };
            let headers = forward_headers(headers, rewrite_host, name, port);
            Some(ProxyRequest { url, headers })
        },
    }
}

/// A status that sends the visitor elsewhere.
pub open spec fn is_redirection(status: u16) -> bool {
    300 <= status < 400
}

/// The first header of a name.
pub open spec fn first_named(headers: Seq<HeaderView>, name: Seq<char>) -> Option<HeaderView>
    decreases headers.len(),
{
    if headers.len() == 0 {
        None
    } else if headers[0].name == name {
        Some(headers[0])
    } else {
        first_named(headers.skip(1), name)
    }
}

/// What the visitor gets where the other site sends elsewhere: the status and
/// the first location, and nothing else.
pub open spec fn redirect_reply(status: u16, headers: Seq<HeaderView>) -> ReplyView {
    ReplyView {
        status,
        headers: match first_named(headers, "location"@) {
            Some(h) => seq![h],
            None => Seq::empty(),
        },
        body: Seq::empty(),
    }
}

/// The answer that is made of an answer of the other site without its body;
/// `None` where the body is wanted.
pub fn redirect(status: u16, headers: &Vec<Header>) -> (r: Option<Reply>)
    ensures
        match r {
            Some(reply) => is_redirection(status) && reply@ == redirect_reply(
                status,
                headers_of(headers@),
            ),
            None => !is_redirection(status),
        },
{
    if status < 300 || status >= 400 {
        return None;
    }
    let ghost all = headers_of(headers@);
    let mut kept: Vec<Header> = Vec::new();
    let mut i: usize = 0;
    assert(all.skip(0) =~= all);
    while i < headers.len()
        invariant_except_break
            i <= headers@.len(),
            kept@.len() == 0,
            all == headers_of(headers@),
            first_named(all, "location"@) == first_named(all.skip(i as int), "location"@),
        ensures
            headers_of(kept@) == redirect_reply(status, all).headers,
        decreases headers@.len() - i,
    {
        assert(all.skip(i as int)[0] == headers@[i as int]@);
        assert(all.skip(i as int).skip(1) =~= all.skip(i + 1));
        if text::same_text(headers[i].name.as_str(), "location") {
            kept.push(copy_header(&headers[i]));
            assert(headers_of(kept@) =~= seq![headers@[i as int]@]);
            break;
        }
        i += 1;
        if i == headers.len() {
            assert(headers_of(kept@) =~= Seq::empty());
        }
    }
    let body: Vec<u8> = Vec::new();
    assert(body@ =~= Seq::empty());
    Some(Reply { status, headers: kept, body })
}

/// What the visitor gets of any other answer: all of it but how it was cut
/// up on the way.
pub open spec fn relayed_reply(status: u16, headers: Seq<HeaderView>, body: Seq<u8>) -> ReplyView {
    ReplyView {
        status,
        headers: headers.filter(|h: HeaderView| lowercase(h.name) != "transfer-encoding"@),
        body,
    }
}

/// The answer that is made of an answer of the other site with its body.
pub fn relay_reply(status: u16, headers: &Vec<Header>, body: Vec<u8>) -> (r: Reply)
    ensures
        r@ == relayed_reply(status, headers_of(headers@), body@),
{
    let ghost all = headers_of(headers@);
    let ghost keep = |h: HeaderView| lowercase(h.name) != "transfer-encoding"@;
    let mut kept: Vec<Header> = Vec::new();
    let mut i: usize = 0;
    proof {
        assert(all.take(0) =~= Seq::empty());
        reveal(Seq::filter);
    }
    while i < headers.len()
        invariant
            i <= headers@.len(),
            all == headers_of(headers@),
            keep == (|h: HeaderView| lowercase(h.name) != "transfer-encoding"@),
            headers_of(kept@) == all.take(i as int).filter(keep),
        decreases headers@.len() - i,
    {
        proof {
            reveal(Seq::filter);
            assert(all.take(i + 1).drop_last() =~= all.take(i as int));
            assert(all.take(i + 1).last() == headers@[i as int]@);
        }
        let ghost before = kept@;
        let lower = headers[i].name.as_str().to_lowercase();
        if !text::same_text(lower.as_str(), "transfer-encoding") {
            kept.push(copy_header(&headers[i]));
            assert(headers_of(kept@) =~= headers_of(before).push(headers@[i as int]@));
        }
        i += 1;
    }
    assert(all.take(i as int) =~= all);
    Reply { status, headers: kept, body }
}

/// Where the host is rewritten, the request names one host, that of the other
/// site, and it names it last.
pub proof fn law_rewritten_host_is_the_only_one(
    headers: Seq<HeaderView>,
    host: Seq<char>,
    port: Option<u16>,
)
    ensures
        ({
            let sent = request_headers(headers, true, Some(host), port);
            &&& sent.last() == text_header("host"@, host_value(host, port))
            &&& forall|i: int| 0 <= i < sent.len() - 1 ==> (#[trigger] sent[i]).name != "host"@
        }),
{
    let keep = |h: HeaderView| h.name != "host"@;
    let others = headers.filter(keep);
    let sent = request_headers(headers, true, Some(host), port);
    assert forall|i: int| 0 <= i < sent.len() - 1 implies (#[trigger] sent[i]).name != "host"@ by {
        assert(sent[i] == others[i]);
        headers.lemma_filter_pred(keep, i);
    }
}

/// No answer is passed on with a header that says how it was cut up on the
/// way, and every other header is passed on.
pub proof fn law_only_transfer_encoding_is_dropped(
    status: u16,
    headers: Seq<HeaderView>,
    body: Seq<u8>,
    h: HeaderView,
)
    ensures
        relayed_reply(status, headers, body).headers.contains(h) <==> headers.contains(h)
            && lowercase(h.name) != "transfer-encoding"@,
{
    let keep = |h: HeaderView| lowercase(h.name) != "transfer-encoding"@;
    let kept = headers.filter(keep);
    if kept.contains(h) {
        let i = choose|i: int| 0 <= i < kept.len() && kept[i] == h;
        headers.lemma_filter_pred(keep, i);
        headers.lemma_filter_contains_rev(keep, h);
    }
    if headers.contains(h) && keep(h) {
        let i = choose|i: int| 0 <= i < headers.len() && headers[i] == h;
        headers.lemma_filter_contains(keep, i);
    }
}

/// An answer of the other site is passed on with the status and the body that
/// it has, whatever they are.
pub proof fn law_status_and_body_are_passed_on(
    status: u16,
    headers: Seq<HeaderView>,
    body: Seq<u8>,
)
    ensures
        relayed_reply(status, headers, body).status == status,
        relayed_reply(status, headers, body).body == body,
{
}

/// The headers of an answer are passed on one by one and in their order; one of
/// them is left out exactly where its name is `transfer-encoding` in some case.
pub proof fn law_headers_are_passed_on(
    status: u16,
    a: Seq<HeaderView>,
    h: HeaderView,
    b: Seq<HeaderView>,
    body: Seq<u8>,
)
    ensures
        relayed_reply(status, Seq::empty(), body).headers == Seq::<HeaderView>::empty(),
        relayed_reply(status, a + b, body).headers == relayed_reply(status, a, body).headers
            + relayed_reply(status, b, body).headers,
        relayed_reply(status, seq![h], body).headers == if lowercase(h.name)
            == "transfer-encoding"@ {
            Seq::empty()
        } else {
            seq![h]
        },
{
    reveal(Seq::filter);
    let keep = |h: HeaderView| lowercase(h.name) != "transfer-encoding"@;
    Seq::filter_distributes_over_add(a, b, keep);
    let one = seq![h];
    assert(one.drop_last() =~= Seq::empty());
    assert(one.drop_last().filter(keep) =~= Seq::empty());
    assert(one.filter(keep) =~= if keep(h) {
        seq![h]
    } else {
        Seq::empty()
    });
}

/// A name of ASCII characters is `transfer-encoding` in some case exactly where
/// its letters are, once they are made small.
pub proof fn law_transfer_encoding_in_any_case(name: Seq<char>)
    requires
        utf8::is_ascii_chars(name),
    ensures
        lowercase(name) == "transfer-encoding"@ <==> text::ascii_lowered(name)
            == "transfer-encoding"@,
{
    assert(text::all_plain(name)) by {
        assert forall|i: int| 0 <= i < name.len() implies text::is_plain(#[trigger] name[i]) by {
            assert(name[i] <= '\u{7f}');
        }
    }
    assert(lowercase(name) =~= text::ascii_lowered(name));
}

/// The headers of a visitor go to the other site one by one and in their order.
/// Where the host is rewritten, those named `host` are left out, and the host of
/// the other site comes behind the others, with its port where it has one.
pub proof fn law_headers_are_sent(
    a: Seq<HeaderView>,
    h: HeaderView,
    b: Seq<HeaderView>,
    name: Seq<char>,
    p: u16,
    host: Option<Seq<char>>,
    port: Option<u16>,
)
    ensures
        request_headers(a, false, host, port) == a,
        request_headers(Seq::empty(), true, None, port) == Seq::<HeaderView>::empty(),
        request_headers(a + b, true, None, port) == request_headers(a, true, None, port)
            + request_headers(b, true, None, port),
        request_headers(seq![h], true, None, port) == if h.name == "host"@ {
            Seq::empty()
        } else {
            seq![h]
        },
        request_headers(a, true, Some(name), None) == request_headers(a, true, None, None) + seq![
            HeaderView { name: "host"@, value: utf8::encode_utf8(name) },
        ],
        request_headers(a, true, Some(name), Some(p)) == request_headers(a, true, None, Some(p))
            + seq![
            HeaderView {
                name: "host"@,
                value: utf8::encode_utf8(name + seq![':'] + decimal(p as nat)),
            },
        ],
{
    reveal(Seq::filter);
    let keep = |h: HeaderView| h.name != "host"@;
    Seq::filter_distributes_over_add(a, b, keep);
    let one = seq![h];
    assert(one.drop_last() =~= Seq::empty());
    assert(one.drop_last().filter(keep) =~= Seq::empty());
    assert(one.filter(keep) =~= if keep(h) {
        seq![h]
    } else {
        Seq::empty()
    });
    let others = a.filter(keep);
    assert(others.push(text_header("host"@, name)) =~= others + seq![text_header("host"@, name)]);
    let full = name + seq![':'] + decimal(p as nat);
    assert(others.push(text_header("host"@, full)) =~= others + seq![text_header("host"@, full)]);
}

/// A page on the other site: the slashes at the end of its address are left
/// out, and what the visitor asked for follows, or a slash.
pub proof fn law_pages_of_the_other_site(base: Seq<char>, slashes: nat, path: Seq<char>)
    requires
        base.len() > 0 ==> base.last() != '/',
    ensures
        target_url(base + Seq::new(slashes, |i: int| '/'), Some(path)) == base + path,
        target_url(base + Seq::new(slashes, |i: int| '/'), None) == base + seq!['/'],
{
    reveal_strlit("/");
    assert("/"@ =~= seq!['/']);
    lemma_slashes(base, slashes);
}

proof fn lemma_slashes(base: Seq<char>, slashes: nat)
    requires
        base.len() > 0 ==> base.last() != '/',
    ensures
        trim_end_matches(base + Seq::new(slashes, |i: int| '/'), set!['/']) == base,
    decreases slashes,
{
    let s = base + Seq::new(slashes, |i: int| '/');
    if slashes == 0 {
        assert(s =~= base);
    } else {
        let fewer = (slashes - 1) as nat;
        lemma_slashes(base, fewer);
        assert(s.drop_last() =~= base + Seq::new(fewer, |i: int| '/'));
    }
}

/// A status sends the visitor elsewhere where it is one of the 300s. The answer
/// then has that status, the first location, and nothing else.
pub proof fn law_redirections(
    status: u16,
    before: Seq<HeaderView>,
    location: HeaderView,
    after: Seq<HeaderView>,
)
    requires
        forall|i: int| 0 <= i < before.len() ==> (#[trigger] before[i]).name != "location"@,
        location.name == "location"@,
    ensures
        is_redirection(status) <==> status / 100 == 3,
        redirect_reply(status, before + seq![location] + after) == (ReplyView {
            status,
            headers: seq![location],
            body: Seq::empty(),
        }),
        redirect_reply(status, before) == (ReplyView {
            status,
            headers: Seq::empty(),
            body: Seq::empty(),
        }),
{
    lemma_first_named(before, location, after);
    lemma_none_named(before, "location"@);
}

proof fn lemma_first_named(before: Seq<HeaderView>, h: HeaderView, after: Seq<HeaderView>)
    requires
        forall|i: int| 0 <= i < before.len() ==> (#[trigger] before[i]).name != h.name,
    ensures
        first_named(before + seq![h] + after, h.name) == Some(h),
    decreases before.len(),
{
    let all = before + seq![h] + after;
    if before.len() > 0 {
        assert(all[0] == before[0]);
        assert(all.skip(1) =~= before.skip(1) + seq![h] + after);
        lemma_first_named(before.skip(1), h, after);
    }
}

proof fn lemma_none_named(headers: Seq<HeaderView>, name: Seq<char>)
    requires
        forall|i: int| 0 <= i < headers.len() ==> (#[trigger] headers[i]).name != name,
    ensures
        first_named(headers, name) is None,
    decreases headers.len(),
{
    if headers.len() > 0 {
        assert(headers[0].name != name);
        lemma_none_named(headers.skip(1), name);
    }
}

/// The answers of this server itself: one of a line carries its status and its
/// message, and the one for a page that is not there has two headers.
pub proof fn law_own_answers(status: u16, message: Seq<char>)
    ensures
        plain_reply(status, message) == (ReplyView {
            status,
            headers: seq![
                HeaderView { name: "content-type"@, value: utf8::encode_utf8("text/plain"@) },
            ],
            body: utf8::encode_utf8(message),
        }),
        not_found().status == 404,
        not_found().headers == seq![
            HeaderView {
                name: "content-type"@,
                value: utf8::encode_utf8("text/html; charset=utf-8"@),
            },
            HeaderView { name: "server"@, value: utf8::encode_utf8("nginx/1.24.0"@) },
        ],
        not_found().body == utf8::encode_utf8(
            "<!DOCTYPE html>\n<html>\n<head><title>404 Not Found</title></head>\n<body><h1>Not Found</h1><p>The requested URL was not found on this server.</p></body>\n</html>"@,
        ),
{
}

/// Headers, answers and the authority of a URI are seen part by part.
pub proof fn law_replies_are_seen(
    r: Reply,
    h: Seq<Header>,
    i: int,
    host: Option<String>,
    port: Option<u16>,
)
    requires
        0 <= i < h.len(),
    ensures
        headers_of(h).len() == h.len(),
        headers_of(h)[i] == (HeaderView { name: h[i].name@, value: h[i].value@ }),
        r@.status == r.status,
        r@.headers == headers_of(r.headers@),
        r@.body == r.body@,
        authority_view(None) is None,
        authority_view(Some((host, port))) == Some((opt_text(host), port)),
{
}

/// A visitor is shown the other site exactly where the masquerade is of that
/// kind and a site is configured. Every other visitor is told that there is no
/// such page: by a page of its own, or in a line where the site is missing.
pub proof fn law_what_visitors_get(kind: Seq<char>, proxy: bool)
    ensures
        static_answer(kind, proxy) is None <==> kind == "proxy"@ && proxy,
        static_answer("proxy"@, false) == Some(plain_reply(404, "Not Found"@)),
        kind != "proxy"@ ==> static_answer(kind, proxy) == Some(not_found()),
        static_answer(kind, proxy) is Some ==> static_answer(kind, proxy)->0.status == 404,
{
}

} // verus!

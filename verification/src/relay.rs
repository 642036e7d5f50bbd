//! The relay: where a request goes, what of it is passed on, and how a
//! WebSocket is opened with the upstream.
//!
//! The upstream trusts requests by their `Host`, so every relayed request
//! carries the configured one. The device token ends at the gateway.
use vstd::prelude::*;

use crate::config;
use crate::config::Config;
use crate::error::Refusal;
use crate::http;
use crate::http::{FieldView, Headers};
use crate::split;
use crate::text;

verus! {

// ---- where a request goes -------------------------------------------------

/// The upstream of a request: an address or the path of a Unix socket.
#[derive(Debug)]
pub enum UpstreamTarget {
    Tcp(String),
    Unix(String),
}

pub enum TargetView {
    Tcp(Seq<char>),
    Unix(Seq<char>),
}

impl View for UpstreamTarget {
    type V = TargetView;

    open spec fn view(&self) -> TargetView {
        match self {
            UpstreamTarget::Tcp(addr) => TargetView::Tcp(addr@),
            UpstreamTarget::Unix(path) => TargetView::Unix(path@),
        }
    }
}

/// A file in a directory.
pub open spec fn joined(dir: Seq<char>, name: Seq<char>) -> Seq<char> {
    if dir.len() == 0 || dir.last() == '/' {
        dir + name
    } else {
        dir + "/"@ + name
    }
}

/// The socket of the tunnel with a port.
pub open spec fn sock_path(dir: Seq<char>, port: u16) -> Seq<char> {
    joined(dir, "tunnel-"@ + text::decimal(port as nat) + ".sock"@)
}

/// The tunnel port of a request: the one that its token is bound to, or that of
/// the default upstream.
pub open spec fn tunnel_port(config: Config, bound: Option<u16>) -> Option<u16> {
    match bound {
        Some(p) => Some(p),
        None => config::port_of(config.upstream_addr@),
    }
}

/// The socket that a request goes to if it is there.
pub open spec fn candidate_sock(config: Config, bound: Option<u16>) -> Option<Seq<char>> {
    match (config.tunnel_sock_dir, tunnel_port(config, bound)) {
        (Some(dir), Some(p)) => Some(sock_path(dir@, p)),
        _ => None,
    }
}

/// The upstream of a request, given whether the socket is there.
pub open spec fn upstream(config: Config, bound: Option<u16>, sock_exists: bool) -> TargetView {
    match candidate_sock(config, bound) {
        Some(path) if sock_exists => TargetView::Unix(path),
        _ => match bound {
            Some(p) => TargetView::Tcp("127.0.0.1:"@ + text::decimal(p as nat)),
            None => TargetView::Tcp(config.upstream_addr@),
        },
    }
}

fn effective_port(config: &Config, bound: Option<u16>) -> (out: Option<u16>)
    ensures
        out == tunnel_port(*config, bound),
{
    match bound {
        Some(p) => Some(p),
        None => text::parse_u16(text::tail_after(config.upstream_addr.as_str(), ':').as_str()),
    }
}

/// The socket that a request goes to if it is there; `None` where no socket
/// comes into question.
pub fn tunnel_sock(config: &Config, bound: Option<u16>) -> (out: Option<String>)
    ensures
        text::opt(out) == candidate_sock(*config, bound),
{
    let port = effective_port(config, bound);
    match (&config.tunnel_sock_dir, port) {
        (Some(dir), Some(p)) => {
            let mut path = dir.clone();
            let chars = text::to_chars(dir.as_str());
            if chars.len() > 0 && chars[chars.len() - 1] != '/' {
                path.push_str("/");
            }
            path.push_str("tunnel-");
            path.push_str(text::decimal_of(p as u64).as_str());
            path.push_str(".sock");
            assert(path@ == sock_path(dir@, p));
            Some(path)
        },
        _ => None,
    }
}

/// The upstream of a request whose token is bound to a port or to none.
/// `sock_exists` tells whether the path that `tunnel_sock` gives is there.
pub fn resolve_upstream(config: &Config, bound: Option<u16>, sock_exists: bool) -> (out:
    UpstreamTarget)
    ensures
        out@ == upstream(*config, bound, sock_exists),
{
    if sock_exists {
        if let Some(path) = tunnel_sock(config, bound) {
            return UpstreamTarget::Unix(path);
        }
    }
    match bound {
        Some(p) => {
            let mut addr = "127.0.0.1:".to_owned();
            addr.push_str(text::decimal_of(p as u64).as_str());
            UpstreamTarget::Tcp(addr)
        },
        None => UpstreamTarget::Tcp(config.upstream_addr.clone()),
    }
}

/// The upstream of a request whose token is bound to no port, and of the
/// health probe.
pub fn default_upstream_target(config: &Config, sock_exists: bool) -> (out: UpstreamTarget)
    ensures
        out@ == upstream(*config, None, sock_exists),
{
    resolve_upstream(config, None, sock_exists)
}

/// A bound token goes to its own tunnel: its socket where that is there, else
/// its port on this machine. The default upstream plays no part.
pub proof fn law_bound_token_goes_to_its_tunnel(
    a: Config,
    b: Config,
    port: u16,
    sock_exists: bool,
)
    requires
        a.tunnel_sock_dir == b.tunnel_sock_dir,
    ensures
        upstream(a, Some(port), sock_exists) == upstream(b, Some(port), sock_exists),
        upstream(a, Some(port), false) == TargetView::Tcp(
            "127.0.0.1:"@ + text::decimal(port as nat),
        ),
        a.tunnel_sock_dir is Some ==> upstream(a, Some(port), true) == TargetView::Unix(
            sock_path(a.tunnel_sock_dir->0@, port),
        ),
{
}

/// Tokens that are bound to different ports never share an upstream, whichever
/// sockets are there.
pub proof fn law_tunnels_do_not_cross(
    config: Config,
    a: u16,
    b: u16,
    a_sock_exists: bool,
    b_sock_exists: bool,
)
    requires
        a != b,
    ensures
        upstream(config, Some(a), a_sock_exists) != upstream(config, Some(b), b_sock_exists),
{
    text::law_port_text_reads_back(a);
    text::law_port_text_reads_back(b);
    let (x, y) = (text::decimal(a as nat), text::decimal(b as nat));
    let front = "127.0.0.1:"@;
    assert((front + x).skip(front.len() as int) =~= x);
    assert((front + y).skip(front.len() as int) =~= y);
    if let Some(dir) = config.tunnel_sock_dir {
        lemma_sock_name(dir@, a);
        lemma_sock_name(dir@, b);
    }
}

/// The port can be read off the path of a socket.
proof fn lemma_sock_name(dir: Seq<char>, port: u16)
    ensures
        ({
            let front = joined(dir, "tunnel-"@);
            let path = sock_path(dir, port);
            path.subrange(front.len() as int, path.len() - ".sock"@.len()) == text::decimal(
                port as nat,
            )
        }),
{
    let front = joined(dir, "tunnel-"@);
    let digits = text::decimal(port as nat);
    let path = sock_path(dir, port);
    assert(path =~= front + digits + ".sock"@);
    assert(path.subrange(front.len() as int, path.len() - ".sock"@.len()) =~= digits);
}

// ---- what is passed on ----------------------------------------------------

/// The fields that belong to one connection, or that describe the way to the
/// gateway, and are not passed on.
pub open spec fn hop_by_hop(name: Seq<char>) -> bool {
    ||| name == "connection"@
    ||| name == "keep-alive"@
    ||| name == "proxy-authenticate"@
    ||| name == "proxy-authorization"@
    ||| name == "te"@
    ||| name == "trailer"@
    ||| name == "transfer-encoding"@
    ||| name == "upgrade"@
    ||| name == "host"@
    ||| name == "x-forwarded-for"@
    ||| name == "x-forwarded-proto"@
    ||| name == "x-real-ip"@
}

pub fn is_hop_by_hop(name: &str) -> (r: bool)
    ensures
        r == hop_by_hop(name@),
{
    text::same(name, "connection") || text::same(name, "keep-alive") || text::same(
        name,
        "proxy-authenticate",
    ) || text::same(name, "proxy-authorization") || text::same(name, "te") || text::same(
        name,
        "trailer",
    ) || text::same(name, "transfer-encoding") || text::same(name, "upgrade") || text::same(
        name,
        "host",
    ) || text::same(name, "x-forwarded-for") || text::same(name, "x-forwarded-proto")
        || text::same(name, "x-real-ip")
}

pub open spec fn goes_upstream() -> spec_fn(FieldView) -> bool {
    |f: FieldView| !hop_by_hop(f.0) && f.0 != "authorization"@
}

pub open spec fn comes_back() -> spec_fn(FieldView) -> bool {
    |f: FieldView| !hop_by_hop(f.0)
}

/// The fields of a relayed request: the configured `Host`, where it can stand
/// as a value, and what may be passed on.
pub open spec fn forwarded(fields: Seq<FieldView>, host: Seq<char>) -> Seq<FieldView> {
    let own = if http::is_value(host) {
        seq![("host"@, vstd::utf8::encode_utf8(host))]
    } else {
        Seq::<FieldView>::empty()
    };
    own + fields.filter(goes_upstream())
}

/// The fields of a reply that is passed back.
pub open spec fn returned(fields: Seq<FieldView>) -> Seq<FieldView> {
    fields.filter(comes_back())
}

/// The fields of a relayed request.
pub fn forward_headers(headers: &Headers, host: &str) -> (out: Headers)
    ensures
        out@ == forwarded(headers@, host@),
        out.peer is None,
{
    let mut out = Headers::new();
    if http::value_is_valid(host) {
        out.append("host", http::bytes_of(host));
    }
    let ghost own = out@;
    let ghost p = goes_upstream();
    let ghost fields = headers@;
    assert(own + fields.take(0).filter(p) == own) by {
        reveal(Seq::filter);
    }
    for i in 0..headers.fields.len()
        invariant
            p == goes_upstream(),
            fields == headers@,
            out.peer is None,
            out@ == own + fields.take(i as int).filter(p),
    {
        let ghost before = fields.take(i as int).filter(p);
        proof {
            reveal(Seq::filter);
            assert(fields.take(i + 1).drop_last() == fields.take(i as int));
            assert(fields.take(i + 1).last() == fields[i as int]);
        }
        let name = headers.fields[i].0.as_str();
        if !is_hop_by_hop(name) && !text::same(name, "authorization") {
            out.append(name, http::copy_bytes(&headers.fields[i].1));
            assert((own + before).push(fields[i as int]) == own + before.push(fields[i as int]));
        }
    }
    assert(fields.take(headers.fields.len() as int) == fields);
    assert(own =~= (if http::is_value(host@) {
        seq![("host"@, vstd::utf8::encode_utf8(host@))]
    } else {
        Seq::<FieldView>::empty()
    }));
    out
}

/// The fields of a reply that is passed back.
pub fn return_headers(headers: &Headers) -> (out: Headers)
    ensures
        out@ == returned(headers@),
        out.peer is None,
{
    let mut out = Headers::new();
    let ghost p = comes_back();
    let ghost fields = headers@;
    assert(fields.take(0).filter(p) == Seq::<FieldView>::empty()) by {
        reveal(Seq::filter);
    }
    for i in 0..headers.fields.len()
        invariant
            p == comes_back(),
            fields == headers@,
            out.peer is None,
            out@ == fields.take(i as int).filter(p),
    {
        proof {
            reveal(Seq::filter);
            assert(fields.take(i + 1).drop_last() == fields.take(i as int));
            assert(fields.take(i + 1).last() == fields[i as int]);
        }
        let name = headers.fields[i].0.as_str();
        if !is_hop_by_hop(name) {
            out.append(name, http::copy_bytes(&headers.fields[i].1));
        }
    }
    assert(fields.take(headers.fields.len() as int) == fields);
    out
}

/// The upstream sees the configured `Host`, where it can stand as a value, and no
/// other, never the device token, and no field of the connection to the gateway;
/// every other field reaches it.
pub proof fn law_upstream_sees_host_and_no_token(fields: Seq<FieldView>, host: Seq<char>)
    ensures
        ({
            let out = forwarded(fields, host);
            let own = ("host"@, vstd::utf8::encode_utf8(host));
            &&& http::is_value(host) ==> out.len() > 0 && out[0] == own
            &&& forall|i: int|
                0 <= i < out.len() ==> {
                    let f = #[trigger] out[i];
                    ||| i == 0 && http::is_value(host) && f == own
                    ||| !hop_by_hop(f.0) && f.0 != "authorization"@ && fields.contains(f)
                }
            &&& forall|f: FieldView|
                fields.contains(f) && !hop_by_hop(f.0) && f.0 != "authorization"@
                    ==> #[trigger] out.contains(f)
        }),
{
    broadcast use vstd::seq_lib::group_filter_ensures;

    let kept = fields.filter(goes_upstream());
    let out = forwarded(fields, host);
    let n: int = if http::is_value(host) {
        1
    } else {
        0
    };
    crate::table::lemma_filter_from(fields, goes_upstream());
    assert forall|i: int| n <= i < out.len() implies !hop_by_hop((#[trigger] out[i]).0)
        && out[i].0 != "authorization"@ && fields.contains(out[i]) by {
        assert(out[i] == kept[i - n]);
        assert(goes_upstream()(kept[i - n]));
    }
    assert forall|f: FieldView|
        fields.contains(f) && !hop_by_hop(f.0) && f.0
            != "authorization"@ implies #[trigger] out.contains(f) by {
        assert(goes_upstream()(f));
        assert(kept.contains(f));
        let k = kept.index_of(f);
        assert(out[k + n] == f);
    }
}

/// The fields that stay behind on the way to the upstream and back, by name; every
/// other field is passed on in its order.
pub proof fn law_fields_that_stay_behind(fields: Seq<FieldView>, host: Seq<char>, name: Seq<char>)
    ensures
        hop_by_hop(name) <==> name == "connection"@ || name == "keep-alive"@ || name
            == "proxy-authenticate"@ || name == "proxy-authorization"@ || name == "te"@ || name
            == "trailer"@ || name == "transfer-encoding"@ || name == "upgrade"@ || name == "host"@
            || name == "x-forwarded-for"@ || name == "x-forwarded-proto"@ || name == "x-real-ip"@,
        forwarded(fields, host) == (if http::is_value(host) {
            seq![("host"@, vstd::utf8::encode_utf8(host))]
        } else {
            Seq::<FieldView>::empty()
        }) + fields.filter(|f: FieldView| !hop_by_hop(f.0) && f.0 != "authorization"@),
        returned(fields) == fields.filter(|f: FieldView| !hop_by_hop(f.0)),
{
    assert(goes_upstream() =~= |f: FieldView| !hop_by_hop(f.0) && f.0 != "authorization"@);
    assert(comes_back() =~= |f: FieldView| !hop_by_hop(f.0));
}

/// A field of a reply comes back unless it belongs to the connection to the
/// upstream, and nothing else comes back.
pub proof fn law_replies_come_back(fields: Seq<FieldView>, f: FieldView)
    ensures
        returned(fields).contains(f) <==> fields.contains(f) && !hop_by_hop(f.0),
{
    broadcast use vstd::seq_lib::group_filter_ensures;

    crate::table::lemma_filter_from(fields, comes_back());
    if returned(fields).contains(f) {
        let i = returned(fields).index_of(f);
        fields.lemma_filter_pred(comes_back(), i);
        assert(fields.contains(returned(fields)[i]));
    }
    if fields.contains(f) && !hop_by_hop(f.0) {
        assert(comes_back()(f));
    }
}

/// Where a request goes: over the tunnel that its token is bound to, or to the
/// default upstream. A tunnel has a socket in the directory that is configured,
/// named after its port.
pub proof fn law_upstream_of_a_request(config: Config, bound: Option<u16>, dir: Seq<char>, port: u16)
    ensures
        upstream(config, None, false) == TargetView::Tcp(config.upstream_addr@),
        upstream(config, Some(port), false) == TargetView::Tcp(
            "127.0.0.1:"@ + text::decimal(port as nat),
        ),
        config.tunnel_sock_dir is None ==> upstream(config, bound, true) == upstream(
            config,
            bound,
            false,
        ),
        config.tunnel_sock_dir is Some && config.tunnel_sock_dir->0@ == dir && (bound == Some(port)
            || (bound is None && text::parsed_u16(text::after_last(config.upstream_addr@, ':'))
            == Some(port))) ==> upstream(config, bound, true) == TargetView::Unix(
            (if dir.len() == 0 || dir.last() == '/' {
                dir
            } else {
                dir.push('/')
            }) + "tunnel-"@ + text::decimal(port as nat) + ".sock"@,
        ),
        bound is None && text::parsed_u16(text::after_last(config.upstream_addr@, ':')) is None
            ==> upstream(config, bound, true) == TargetView::Tcp(config.upstream_addr@),
{
    reveal_strlit("/");
    let name = "tunnel-"@ + text::decimal(port as nat) + ".sock"@;
    let front = if dir.len() == 0 || dir.last() == '/' {
        dir
    } else {
        dir.push('/')
    };
    assert(dir + "/"@ =~= dir.push('/'));
    assert(sock_path(dir, port) =~= front + "tunnel-"@ + text::decimal(port as nat) + ".sock"@);
}

// ---- opening a WebSocket --------------------------------------------------

/// A request asks for a WebSocket: `Connection` speaks of an upgrade and
/// `Upgrade` names the protocol, in any case.
pub open spec fn wants_websocket(fields: Seq<FieldView>) -> bool {
    &&& match http::field_text(fields, "connection"@) {
        Some(v) => text::has_text(text::ascii_lower(v), "upgrade"@),
        None => false,
    }
    &&& match http::field_text(fields, "upgrade"@) {
        Some(v) => text::ascii_lower(v) == text::ascii_lower("websocket"@),
        None => false,
    }
}

pub fn is_websocket_upgrade(headers: &Headers) -> (r: bool)
    ensures
        r == wants_websocket(headers@),
{
    let upgrade = match headers.text("connection") {
        Some(v) => text::contains(text::to_lower(v.as_str()).as_str(), "upgrade"),
        None => false,
    };
    let websocket = match headers.text("upgrade") {
        Some(v) => text::same_ignoring_case(v.as_str(), "websocket"),
        None => false,
    };
    upgrade && websocket
}

/// A request asks for a WebSocket by two fields together: `Connection`, which holds
/// the word upgrade in any case, and `Upgrade`, which is websocket in any case.
pub proof fn law_websocket_requests(fields: Seq<FieldView>)
    ensures
        http::field_text(fields, "connection"@) is None || http::field_text(fields, "upgrade"@)
            is None ==> !wants_websocket(fields),
        http::field_text(fields, "connection"@) is Some && http::field_text(fields, "upgrade"@)
            is Some ==> (wants_websocket(fields) <==> (text::has_text(
            text::ascii_lower(http::field_text(fields, "connection"@)->0),
            "upgrade"@,
        ) && text::ascii_lower(http::field_text(fields, "upgrade"@)->0) == "websocket"@)),
{
    reveal_strlit("websocket");
    assert(text::ascii_lower("websocket"@) =~= "websocket"@);
}

/// The line of the upgrade request for a field: those of the WebSocket
/// handshake have one where their value is text.
pub open spec fn handshake_line(f: FieldView) -> Seq<char> {
    if "sec-websocket-"@.is_prefix_of(f.0) && http::is_text(f.1) {
        f.0 + ": "@ + http::ascii_chars(f.1) + "\r\n"@
    } else {
        Seq::empty()
    }
}

pub open spec fn handshake_lines(fields: Seq<FieldView>) -> Seq<char>
    decreases fields.len(),
{
    if fields.len() == 0 {
        Seq::empty()
    } else {
        handshake_lines(fields.drop_last()) + handshake_line(fields.last())
    }
}

/// The upgrade request that is sent upstream.
pub open spec fn handshake(
    method: Seq<char>,
    path: Seq<char>,
    host: Seq<char>,
    fields: Seq<FieldView>,
) -> Seq<char> {
    method + " "@ + path + " HTTP/1.1\r\nHost: "@ + host
        + "\r\nUpgrade: websocket\r\nConnection: Upgrade\r\n"@ + handshake_lines(fields) + "\r\n"@
}

/// The upgrade request: the request line, the configured `Host`, the two fields
/// that ask for a WebSocket, one line for each field of the handshake, and an
/// empty line. A field whose name starts with `sec-websocket-` has a line where
/// its value is text; no other field has one.
pub proof fn law_handshake_is_built_line_by_line(
    method: Seq<char>,
    path: Seq<char>,
    host: Seq<char>,
    fields: Seq<FieldView>,
)
    ensures
        ({
            let front = method + " "@ + path + " HTTP/1.1\r\nHost: "@ + host + "\r\n"@
                + "Upgrade: websocket\r\nConnection: Upgrade\r\n"@;
            let request = handshake(method, path, host, fields);
            &&& front.is_prefix_of(request)
            &&& request == front + handshake_lines(fields) + "\r\n"@
        }),
        handshake_lines(Seq::<FieldView>::empty()) == Seq::<char>::empty(),
        forall|f: FieldView|
            #[trigger] handshake_lines(fields.push(f)) == handshake_lines(fields) + (
            if f.0.len() >= 14 && f.0.take(14) == "sec-websocket-"@ && (forall|i: int|
                0 <= i < f.1.len() ==> 32 <= (#[trigger] f.1[i]) <= 126 || f.1[i] == 9) {
                f.0 + ": "@ + Seq::new(f.1.len(), |i: int| f.1[i] as char) + "\r\n"@
            } else {
                Seq::empty()
            }),
{
    reveal_strlit("\r\nUpgrade: websocket\r\nConnection: Upgrade\r\n");
    reveal_strlit("Upgrade: websocket\r\nConnection: Upgrade\r\n");
    reveal_strlit("\r\n");
    reveal_strlit("sec-websocket-");
    let front = method + " "@ + path + " HTTP/1.1\r\nHost: "@ + host + "\r\n"@
        + "Upgrade: websocket\r\nConnection: Upgrade\r\n"@;
    let request = handshake(method, path, host, fields);
    assert("\r\nUpgrade: websocket\r\nConnection: Upgrade\r\n"@ =~= "\r\n"@
        + "Upgrade: websocket\r\nConnection: Upgrade\r\n"@);
    assert(request =~= front + handshake_lines(fields) + "\r\n"@);
    assert(front =~= request.subrange(0, front.len() as int));
    assert forall|f: FieldView| #[trigger]
        handshake_lines(fields.push(f)) == handshake_lines(fields) + (if f.0.len() >= 14
            && f.0.take(14) == "sec-websocket-"@ && (forall|i: int|
            0 <= i < f.1.len() ==> 32 <= (#[trigger] f.1[i]) <= 126 || f.1[i] == 9) {
            f.0 + ": "@ + Seq::new(f.1.len(), |i: int| f.1[i] as char) + "\r\n"@
        } else {
            Seq::empty()
        }) by {
        assert(fields.push(f).drop_last() =~= fields);
        let text = forall|i: int|
            0 <= i < f.1.len() ==> 32 <= (#[trigger] f.1[i]) <= 126 || f.1[i] == 9;
        assert(text == http::is_text(f.1)) by {
            if text {
                assert forall|i: int| 0 <= i < f.1.len() implies http::is_text_byte(
                    #[trigger] f.1[i],
                ) by {}
            }
            if http::is_text(f.1) {
                assert forall|i: int| 0 <= i < f.1.len() implies 32 <= (#[trigger] f.1[i]) <= 126
                    || f.1[i] == 9 by {
                    assert(http::is_text_byte(f.1[i]));
                }
            }
        }
        if f.0.len() >= 14 {
            assert(f.0.take(14) =~= f.0.subrange(0, 14));
        }
        assert(http::ascii_chars(f.1) =~= Seq::new(f.1.len(), |i: int| f.1[i] as char));
    }
}

pub open spec fn is_handshake_field() -> spec_fn(FieldView) -> bool {
    |f: FieldView| "sec-websocket-"@.is_prefix_of(f.0)
}

/// The upgrade request is the same whatever fields a request carries besides
/// those of the handshake: neither a token nor a cookie goes into it, and its
/// `Host` is the configured one.
pub proof fn law_handshake_carries_its_own_fields_only(
    method: Seq<char>,
    path: Seq<char>,
    host: Seq<char>,
    fields: Seq<FieldView>,
)
    ensures
        handshake(method, path, host, fields) == handshake(
            method,
            path,
            host,
            fields.filter(is_handshake_field()),
        ),
{
    lemma_handshake_lines_filter(fields);
}

proof fn lemma_handshake_lines_filter(fields: Seq<FieldView>)
    ensures
        handshake_lines(fields) == handshake_lines(fields.filter(is_handshake_field())),
    decreases fields.len(),
{
    reveal(Seq::filter);
    if fields.len() > 0 {
        let init = fields.drop_last();
        let kept = init.filter(is_handshake_field());
        lemma_handshake_lines_filter(init);
        if is_handshake_field()(fields.last()) {
            assert(kept.push(fields.last()).drop_last() =~= kept);
        } else {
            assert(handshake_lines(init) + Seq::<char>::empty() =~= handshake_lines(init));
        }
    }
}

/// The upgrade request that is sent upstream.
pub fn upgrade_request(method: &str, path: &str, host: &str, headers: &Headers) -> (out: String)
    ensures
        out@ == handshake(method@, path@, host@, headers@),
{
    let mut out = method.to_owned();
    out.push_str(" ");
    out.push_str(path);
    out.push_str(" HTTP/1.1\r\nHost: ");
    out.push_str(host);
    out.push_str("\r\nUpgrade: websocket\r\nConnection: Upgrade\r\n");
    let ghost start = out@;
    let ghost fields = headers@;
    assert(start + handshake_lines(fields.take(0)) == start);
    for i in 0..headers.fields.len()
        invariant
            fields == headers@,
            out@ == start + handshake_lines(fields.take(i as int)),
    {
        let ghost before = out@;
        proof {
            assert(fields.take(i + 1).drop_last() == fields.take(i as int));
            assert(fields.take(i + 1).last() == fields[i as int]);
        }
        let name = headers.fields[i].0.as_str();
        if text::starts_with(name, "sec-websocket-") {
            if let Some(v) = http::value_text(&headers.fields[i].1) {
                out.push_str(name);
                out.push_str(": ");
                out.push_str(v.as_str());
                out.push_str("\r\n");
            }
        }
        assert(out@ == before + handshake_line(fields[i as int]));
        assert(start + handshake_lines(fields.take(i as int)) + handshake_line(fields[i as int])
            == start + (handshake_lines(fields.take(i as int)) + handshake_line(
            fields[i as int],
        )));
    }
    assert(fields.take(headers.fields.len() as int) == fields);
    out.push_str("\r\n");
    out
}

/// The bytes that end a head: an empty line.
pub open spec fn ends_head_at(buf: Seq<u8>, i: int) -> bool {
    0 <= i && i + 4 <= buf.len() && buf[i] == 13 && buf[i + 1] == 10 && buf[i + 2] == 13 && buf[i
        + 3] == 10
}

/// Where the head in a buffer ends.
pub open spec fn head_end(buf: Seq<u8>) -> Option<nat>
    decreases buf.len(),
{
    if buf.len() < 4 {
        None
    } else if ends_head_at(buf, 0) {
        Some(0)
    } else {
        match head_end(buf.drop_first()) {
            Some(n) => Some(n + 1),
            None => None,
        }
    }
}

/// The head ends at the first empty line.
pub proof fn law_head_ends_at_first_empty_line(buf: Seq<u8>)
    ensures
        match head_end(buf) {
            Some(n) => ends_head_at(buf, n as int) && forall|k: int|
                0 <= k < n ==> !#[trigger] ends_head_at(buf, k),
            None => forall|k: int| !#[trigger] ends_head_at(buf, k),
        },
    decreases buf.len(),
{
    if buf.len() >= 4 && !ends_head_at(buf, 0) {
        let rest = buf.drop_first();
        law_head_ends_at_first_empty_line(rest);
        assert forall|k: int| 1 <= k implies #[trigger] ends_head_at(buf, k) == ends_head_at(
            rest,
            k - 1,
        ) by {}
        match head_end(rest) {
            Some(n) => {
                assert(ends_head_at(buf, n as int + 1));
                assert forall|k: int| 0 <= k < n + 1 implies !#[trigger] ends_head_at(buf, k) by {
                    if k > 0 {
                        assert(!ends_head_at(rest, k - 1));
                    }
                }
            },
            None => {
                assert forall|k: int| !#[trigger] ends_head_at(buf, k) by {
                    if k > 0 {
                        assert(!ends_head_at(rest, k - 1));
                    }
                }
            },
        }
    }
}

/// Where the head ends does not depend on how much has arrived behind it.
pub proof fn law_head_end_is_stable(buf: Seq<u8>, more: Seq<u8>)
    requires
        head_end(buf) is Some,
    ensures
        head_end(buf + more) == head_end(buf),
    decreases buf.len(),
{
    if !ends_head_at(buf, 0) {
        assert((buf + more).drop_first() == buf.drop_first() + more);
        law_head_end_is_stable(buf.drop_first(), more);
    }
}

proof fn lemma_head_end(buf: Seq<u8>, n: int)
    requires
        0 <= n,
        ends_head_at(buf, n),
        forall|k: int| 0 <= k < n ==> !#[trigger] ends_head_at(buf, k),
    ensures
        head_end(buf) == Some(n as nat),
{
    law_head_ends_at_first_empty_line(buf);
    if head_end(buf) is None {
        assert(!ends_head_at(buf, n));
    } else {
        let m = head_end(buf)->0 as int;
        if m < n {
            assert(!ends_head_at(buf, m));
        } else if n < m {
            assert(!ends_head_at(buf, n));
        }
    }
}

/// Where the head in a buffer ends.
pub fn find_head_end(buf: &Vec<u8>) -> (out: Option<usize>)
    ensures
        match out {
            Some(n) => head_end(buf@) == Some(n as nat),
            None => head_end(buf@) is None,
        },
{
    if buf.len() < 4 {
        return None;
    }
    let last: usize = buf.len() - 4;
    for i in 0..buf.len() - 3
        invariant
            last == buf.len() - 4,
            forall|k: int| 0 <= k < i ==> !#[trigger] ends_head_at(buf@, k),
    {
        if buf[i] == 13 && buf[i + 1] == 10 && buf[i + 2] == 13 && buf[i + 3] == 10 {
            proof {
                lemma_head_end(buf@, i as int);
            }
            return Some(i);
        }
    }
    proof {
        law_head_ends_at_first_empty_line(buf@);
        if head_end(buf@) is Some {
            assert(!ends_head_at(buf@, head_end(buf@)->0 as int));
        }
    }
    None
}

/// The text that bytes stand for, as `String::from_utf8_lossy` reads them.
pub uninterp spec fn lossy_text(bytes: Seq<u8>) -> Seq<char>;

/// `String::from_utf8_lossy`: bytes that are UTF-8 are read as they are; what
/// is not becomes replacement characters.
#[verifier::external_body]
pub(crate) fn read_lossy(bytes: &[u8]) -> (out: String)
    ensures
        out@ == lossy_text(bytes@),
        vstd::utf8::valid_utf8(bytes@) ==> vstd::utf8::encode_utf8(out@) == bytes@,
{
    String::from_utf8_lossy(bytes).into_owned()
}

/// The first line of a head.
pub open spec fn status_line(head: Seq<char>) -> Seq<char> {
    let l = split::lines(head);
    if l.len() > 0 {
        l[0]
    } else {
        Seq::empty()
    }
}

/// The status that a status line names; 502 where it names none.
pub open spec fn named_status(line: Seq<char>) -> u16 {
    match split::second_word(line) {
        Some(w) => match text::parsed_u16(w) {
            Some(c) if 100 <= c <= 999 => c,
            _ => 502,
        },
        None => 502,
    }
}

/// The fields of the upstream's answer that the gateway sets itself or drops.
pub open spec fn kept_back(name: Seq<char>) -> bool {
    ||| name == "date"@
    ||| name == "server"@
    ||| name == "content-length"@
    ||| name == "connection"@
    ||| name == "upgrade"@
}

/// The field that a line of the upstream's answer stands for, where it is
/// passed on.
pub open spec fn passed_line(line: Seq<char>) -> Option<(Seq<char>, Seq<char>)> {
    let n = text::run_until(line, ':') as int;
    let name = text::trimmed(line.take(n));
    let value = text::trimmed(line.skip(n + 1));
    if n < line.len() && !kept_back(text::ascii_lower(name)) && http::is_name(name)
        && http::is_value(value) {
        Some((text::ascii_lower(name), value))
    } else {
        None
    }
}

/// The fields that the lines of the upstream's answer stand for.
pub open spec fn passed_lines(lines: Seq<Seq<char>>) -> Seq<(Seq<char>, Seq<char>)>
    decreases lines.len(),
{
    if lines.len() == 0 {
        Seq::empty()
    } else {
        let before = passed_lines(lines.drop_last());
        match passed_line(lines.last()) {
            Some(f) => before.push(f),
            None => before,
        }
    }
}

/// What the upstream's answer to the upgrade request leads to.
#[derive(Debug)]
pub enum UpgradeReply {
    /// The protocols are switched: the fields to answer with besides `Upgrade`
    /// and `Connection`, and what has arrived behind the head.
    Switch { headers: Vec<(String, String)>, leftover: Vec<u8> },
    /// The upstream has refused.
    Refuse(Refusal),
}

pub enum UpgradeView {
    Switch { headers: Seq<(Seq<char>, Seq<char>)>, leftover: Seq<u8> },
    Refuse(u16, Seq<char>),
}

pub open spec fn pair_views(pairs: Seq<(String, String)>) -> Seq<(Seq<char>, Seq<char>)> {
    pairs.map_values(|p: (String, String)| (p.0@, p.1@))
}

impl View for UpgradeReply {
    type V = UpgradeView;

    open spec fn view(&self) -> UpgradeView {
        match self {
            UpgradeReply::Switch { headers, leftover } => UpgradeView::Switch {
                headers: pair_views(headers@),
                leftover: leftover@,
            },
            UpgradeReply::Refuse(r) => UpgradeView::Refuse(r.status, r.message@),
        }
    }
}

/// What an answer with the given head leads to: the status 101 switches
/// protocols, every other one is passed on.
pub open spec fn upgrade_outcome(head: Seq<char>, leftover: Seq<u8>) -> UpgradeView {
    let line = status_line(head);
    if named_status(line) == 101 {
        UpgradeView::Switch { headers: passed_lines(split::lines(head).skip(1)), leftover }
    } else {
        UpgradeView::Refuse(named_status(line), line)
    }
}

fn pass_line(line: &str) -> (out: Option<(String, String)>)
    ensures
        match out {
            Some(f) => passed_line(line@) == Some((f.0@, f.1@)),
            None => passed_line(line@) is None,
        },
{
    let chars = text::to_chars(line);
    let n = text::find_char(&chars, ':', 0);
    assert(chars@.skip(0) == line@);
    if n == chars.len() {
        return None;
    }
    let before = text::substring(&chars, 0, n);
    let after = text::substring(&chars, n + 1, chars.len());
    assert(before@ == line@.take(n as int));
    assert(after@ == line@.skip(n + 1));
    let name = text::trim(before.as_str());
    let value = text::trim(after.as_str());
    let lower = text::to_lower(name.as_str());
    if text::same(lower.as_str(), "date") || text::same(lower.as_str(), "server") || text::same(
        lower.as_str(),
        "content-length",
    ) || text::same(lower.as_str(), "connection") || text::same(lower.as_str(), "upgrade") {
        return None;
    }
    match http::header_name(name.as_str()) {
        Some(hn) => if http::value_is_valid(value.as_str()) {
            Some((hn, value))
        } else {
            None
        },
        None => None,
    }
}

fn pass_lines(lines: &Vec<String>) -> (out: Vec<(String, String)>)
    requires
        lines.len() > 0,
    ensures
        pair_views(out@) == passed_lines(split::views(lines@).skip(1)),
{
    let ghost ls = split::views(lines@).skip(1);
    let mut out: Vec<(String, String)> = Vec::new();
    assert(pair_views(out@) =~= passed_lines(ls.take(0)));
    for i in 1..lines.len()
        invariant
            ls == split::views(lines@).skip(1),
            pair_views(out@) == passed_lines(ls.take(i - 1)),
    {
        let ghost before = pair_views(out@);
        proof {
            assert(ls.take(i as int).drop_last() == ls.take(i - 1));
            assert(ls.take(i as int).last() == lines@[i as int]@);
        }
        if let Some(f) = pass_line(lines[i].as_str()) {
            out.push(f);
            assert(pair_views(out@) == before.push((f.0@, f.1@)));
        }
    }
    assert(ls.take(lines.len() - 1) == ls);
    out
}

/// What an answer with the given head leads to.
pub fn read_upgrade(head: &str, leftover: Vec<u8>) -> (out: UpgradeReply)
    ensures
        out@ == upgrade_outcome(head@, leftover@),
{
    let lines = split::lines_of(head);
    let ghost ls = split::lines(head@);
    let line = if lines.len() > 0 {
        assert(ls[0] == lines@[0]@);
        lines[0].clone()
    } else {
        String::new()
    };
    assert(line@ == status_line(head@));
    let status: u16 = match split::second_word_of(line.as_str()) {
        Some(w) => match text::parse_u16(w.as_str()) {
            Some(c) => if 100 <= c && c <= 999 {
                c
            } else {
                502
            },
            None => 502,
        },
        None => 502,
    };
    if status == 101 {
        UpgradeReply::Switch { headers: pass_lines(&lines), leftover }
    } else {
        UpgradeReply::Refuse(Refusal { status, message: line })
    }
}

/// A line of the answer is taken apart at its first colon.
proof fn lemma_line_parts(front: Seq<char>, back: Seq<char>)
    requires
        forall|i: int| 0 <= i < front.len() ==> front[i] != ':',
    ensures
        text::run_until(front + seq![':'] + back, ':') == front.len(),
        (front + seq![':'] + back).take(front.len() as int) == front,
        (front + seq![':'] + back).skip(front.len() as int + 1) == back,
{
    let line = front + seq![':'] + back;
    assert forall|i: int| 0 <= i < front.len() implies line[i] != ':' by {
        assert(line[i] == front[i]);
    }
    text::lemma_run_until(line, ':', front.len());
    assert(line.take(front.len() as int) =~= front);
    assert(line.skip(front.len() as int + 1) =~= back);
}

/// A line of the answer is passed on as a field exactly where it has a colon, what
/// stands before the first one is a field name other than `date`, `server`,
/// `content-length`, `connection` and `upgrade` in any case, and what stands behind
/// it is a field value; both without the white space around them, the name in lower
/// case.
pub proof fn law_line_stands_for_its_field(front: Seq<char>, back: Seq<char>)
    requires
        forall|i: int| 0 <= i < front.len() ==> front[i] != ':',
    ensures
        passed_line(front) is None,
        ({
            let name = text::ascii_lower(text::trimmed(front));
            let value = text::trimmed(back);
            passed_line(front + seq![':'] + back) == (if http::is_name(text::trimmed(front))
                && http::is_value(value) && name != "date"@ && name != "server"@ && name
                != "content-length"@ && name != "connection"@ && name != "upgrade"@ {
                Some((name, value))
            } else {
                None
            })
        }),
{
    lemma_line_parts(front, back);
    text::lemma_run_until(front, ':', front.len());
}

/// The lines of the answer are looked at one by one, and their fields are passed
/// on in the same order.
pub proof fn law_lines_are_passed_in_order(a: Seq<Seq<char>>, b: Seq<Seq<char>>)
    ensures
        passed_lines(a + b) == passed_lines(a) + passed_lines(b),
        forall|line: Seq<char>|
            #[trigger] passed_lines(seq![line]) == (match passed_line(line) {
                Some(f) => seq![f],
                None => Seq::empty(),
            }),
    decreases b.len(),
{
    assert forall|line: Seq<char>| #[trigger]
        passed_lines(seq![line]) == (match passed_line(line) {
            Some(f) => seq![f],
            None => Seq::empty(),
        }) by {
        assert(seq![line].drop_last() =~= Seq::<Seq<char>>::empty());
        assert(passed_lines(seq![line].drop_last()) =~= Seq::empty());
    }
    if b.len() > 0 {
        assert((a + b).drop_last() =~= a + b.drop_last());
        law_lines_are_passed_in_order(a, b.drop_last());
        assert(passed_lines(a + b) =~= passed_lines(a) + passed_lines(b));
    } else {
        assert(a + b =~= a);
        assert(passed_lines(a) + passed_lines(b) =~= passed_lines(a));
    }
}

proof fn lemma_passed_line_is_among(lines: Seq<Seq<char>>, k: int)
    requires
        0 <= k < lines.len(),
        passed_line(lines[k]) is Some,
    ensures
        passed_lines(lines).contains(passed_line(lines[k])->0),
    decreases lines.len(),
{
    let f = passed_line(lines[k])->0;
    let before = passed_lines(lines.drop_last());
    if k == lines.len() - 1 {
        assert(passed_lines(lines)[before.len() as int] == f);
    } else {
        lemma_passed_line_is_among(lines.drop_last(), k);
        let i = before.index_of(f);
        assert(passed_lines(lines)[i] == f);
    }
}

proof fn lemma_passed_line_comes_from(lines: Seq<Seq<char>>, i: int)
    requires
        0 <= i < passed_lines(lines).len(),
    ensures
        exists|k: int|
            0 <= k < lines.len() && passed_line(#[trigger] lines[k]) == Some(
                passed_lines(lines)[i],
            ),
    decreases lines.len(),
{
    let init = lines.drop_last();
    let before = passed_lines(init);
    if i < before.len() {
        lemma_passed_line_comes_from(init, i);
        let k = choose|k: int|
            0 <= k < init.len() && passed_line(#[trigger] init[k]) == Some(before[i]);
        assert(lines[k] == init[k]);
    } else {
        assert(passed_line(lines[lines.len() - 1]) == Some(passed_lines(lines)[i]));
    }
}

/// Every field of the answer that switches protocols reaches the client, unless it
/// is `date`, `server`, `content-length`, `connection` or `upgrade`. So do all
/// fields of the WebSocket handshake.
pub proof fn law_answer_fields_reach_the_client(
    head: Seq<char>,
    leftover: Seq<u8>,
    k: int,
    front: Seq<char>,
    back: Seq<char>,
)
    requires
        upgrade_outcome(head, leftover) is Switch,
        0 < k < split::lines(head).len(),
        split::lines(head)[k] == front + seq![':'] + back,
        forall|i: int| 0 <= i < front.len() ==> front[i] != ':',
        http::is_name(text::trimmed(front)),
        http::is_value(text::trimmed(back)),
        text::ascii_lower(text::trimmed(front)) != "date"@,
        text::ascii_lower(text::trimmed(front)) != "server"@,
        text::ascii_lower(text::trimmed(front)) != "content-length"@,
        text::ascii_lower(text::trimmed(front)) != "connection"@,
        text::ascii_lower(text::trimmed(front)) != "upgrade"@,
    ensures
        upgrade_outcome(head, leftover)->headers.contains(
            (text::ascii_lower(text::trimmed(front)), text::trimmed(back)),
        ),
        upgrade_outcome(head, leftover)->leftover == leftover,
{
    law_line_stands_for_its_field(front, back);
    let rest = split::lines(head).skip(1);
    assert(rest[k - 1] == split::lines(head)[k]);
    lemma_passed_line_is_among(rest, k - 1);
}

/// The client gets no field that the answer does not have, and none of `date`,
/// `server`, `content-length`, `connection` and `upgrade`.
pub proof fn law_client_gets_fields_of_the_answer_only(head: Seq<char>, leftover: Seq<u8>, i: int)
    requires
        upgrade_outcome(head, leftover) is Switch,
        0 <= i < upgrade_outcome(head, leftover)->headers.len(),
    ensures
        ({
            let f = upgrade_outcome(head, leftover)->headers[i];
            let l = split::lines(head);
            &&& f.0 != "date"@ && f.0 != "server"@ && f.0 != "content-length"@ && f.0
                != "connection"@ && f.0 != "upgrade"@
            &&& exists|k: int, n: int|
                0 < k < l.len() && 0 <= n < l[k].len() && l[k][n] == ':' && f == (
                    text::ascii_lower(text::trimmed(#[trigger] l[k].take(n))),
                    text::trimmed(l[k].skip(n + 1)),
                )
        }),
{
    let rest = split::lines(head).skip(1);
    let f = upgrade_outcome(head, leftover)->headers[i];
    lemma_passed_line_comes_from(rest, i);
    let k = choose|k: int| 0 <= k < rest.len() && passed_line(#[trigger] rest[k]) == Some(f);
    let line = rest[k];
    let n = text::run_until(line, ':') as int;
    text::law_run_ends_at_first(line, ':');
    let l = split::lines(head);
    assert(l[k + 1] == line);
    assert(f == (text::ascii_lower(text::trimmed(l[k + 1].take(n))), text::trimmed(l[k + 1].skip(n + 1))));
    let lower = text::ascii_lower(text::trimmed(line.take(n)));
    law_line_stands_for_its_field(line.take(n), line.skip(n + 1));
    assert(line =~= line.take(n) + seq![':'] + line.skip(n + 1));
}

/// The second word of the first line decides: where it is the number 101 protocols
/// are switched, else the answer is a refusal with that number, or 502 where it
/// is no status, and with the whole line.
pub proof fn law_status_decides(head: Seq<char>, leftover: Seq<u8>)
    ensures
        ({
            let l = split::lines(head);
            let line = if l.len() > 0 {
                l[0]
            } else {
                Seq::empty()
            };
            let named = match split::second_word(line) {
                Some(w) => text::parsed_u16(w),
                None => None,
            };
            match named {
                Some(101u16) => upgrade_outcome(head, leftover) == (UpgradeView::Switch {
                    headers: passed_lines(l.skip(1)),
                    leftover,
                }),
                Some(c) => upgrade_outcome(head, leftover) == UpgradeView::Refuse(
                    if 100 <= c <= 999 {
                        c
                    } else {
                        502
                    },
                    line,
                ),
                None => upgrade_outcome(head, leftover) == UpgradeView::Refuse(502, line),
            }
        }),
{
}

/// The largest head that an upstream may answer with before it is given up, in
/// bytes.
pub const HEAD_LIMIT: usize = 65536;

/// What the bytes read so far lead to.
#[derive(Debug)]
pub enum HandshakeStep {
    /// The head is not complete; read on.
    More,
    Done(UpgradeReply),
    /// The upstream has closed before its head was complete.
    Closed,
    TooLarge,
}

pub enum StepView {
    More,
    Done(UpgradeView),
    Closed,
    TooLarge,
}

impl View for HandshakeStep {
    type V = StepView;

    open spec fn view(&self) -> StepView {
        match self {
            HandshakeStep::More => StepView::More,
            HandshakeStep::Done(r) => StepView::Done(r@),
            HandshakeStep::Closed => StepView::Closed,
            HandshakeStep::TooLarge => StepView::TooLarge,
        }
    }
}

/// Collects the upstream's answer to the upgrade request.
#[derive(Debug)]
pub struct HandshakeReader {
    buf: Vec<u8>,
}

impl View for HandshakeReader {
    type V = Seq<u8>;

    closed spec fn view(&self) -> Seq<u8> {
        self.buf@
    }
}

/// What a buffer leads to, after a read that was not empty.
pub open spec fn step(buf: Seq<u8>) -> StepView {
    match head_end(buf) {
        Some(n) => StepView::Done(
            upgrade_outcome(lossy_text(buf.take(n as int)), buf.skip(n as int + 4)),
        ),
        None => if buf.len() > HEAD_LIMIT {
            StepView::TooLarge
        } else {
            StepView::More
        },
    }
}

impl HandshakeReader {
    pub fn new() -> (out: HandshakeReader)
        ensures
            out@ == Seq::<u8>::empty(),
    {
        HandshakeReader { buf: Vec::new() }
    }

    /// Takes what one read has given; an empty read is the end of the stream.
    pub fn feed(&mut self, chunk: &[u8]) -> (out: HandshakeStep)
        ensures
            final(self)@ == old(self)@ + chunk@,
            out@ == (if chunk@.len() == 0 {
                StepView::Closed
            } else {
                step(old(self)@ + chunk@)
            }),
    {
        let ghost before = self.buf@;
        for i in 0..chunk.len()
            invariant
                self.buf@ == before + chunk@.take(i as int),
        {
            self.buf.push(chunk[i]);
            assert((before + chunk@.take(i as int)).push(chunk@[i as int]) == before + chunk@.take(
                i + 1,
            ));
        }
        assert(chunk@.take(chunk@.len() as int) == chunk@);
        if chunk.len() == 0 {
            return HandshakeStep::Closed;
        }
        match find_head_end(&self.buf) {
            Some(n) => {
                proof {
                    law_head_ends_at_first_empty_line(self.buf@);
                }
                let mut head: Vec<u8> = Vec::new();
                for i in 0..n
                    invariant
                        n <= self.buf.len(),
                        head@ == self.buf@.take(i as int),
                {
                    head.push(self.buf[i]);
                }
                let mut leftover: Vec<u8> = Vec::new();
                let from: usize = n + 4;
                for i in from..self.buf.len()
                    invariant
                        from <= i,
                        from <= self.buf.len(),
                        leftover@ == self.buf@.subrange(from as int, i as int),
                {
                    leftover.push(self.buf[i]);
                }
                assert(leftover@ == self.buf@.skip(from as int));
                let text = read_lossy(head.as_slice());
                HandshakeStep::Done(read_upgrade(text.as_str(), leftover))
            },
            None => if self.buf.len() > HEAD_LIMIT {
                HandshakeStep::TooLarge
            } else {
                HandshakeStep::More
            },
        }
    }
}

/// What the bytes read so far lead to: up to the first empty line they are the
/// head, behind it they are left over; without one more are read, up to 65536.
pub proof fn law_answer_is_read_up_to_the_empty_line(buf: Seq<u8>, n: int)
    requires
        0 <= n <= buf.len() - 4,
        buf[n] == 13 && buf[n + 1] == 10 && buf[n + 2] == 13 && buf[n + 3] == 10,
        forall|k: int|
            0 <= k < n ==> #[trigger] buf[k] != 13 || buf[k + 1] != 10 || buf[k + 2] != 13 || buf[k
                + 3] != 10,
    ensures
        step(buf) == StepView::Done(upgrade_outcome(lossy_text(buf.take(n)), buf.skip(n + 4))),
{
    assert(ends_head_at(buf, n));
    assert forall|k: int| 0 <= k < n implies !#[trigger] ends_head_at(buf, k) by {
        assert(buf[k] != 13 || buf[k + 1] != 10 || buf[k + 2] != 13 || buf[k + 3] != 10);
    }
    lemma_head_end(buf, n);
}

/// Without an empty line the answer is waited for, until more than 65536 bytes
/// have arrived.
pub proof fn law_answer_is_given_up(buf: Seq<u8>)
    requires
        forall|k: int| !#[trigger] ends_head_at(buf, k),
    ensures
        step(buf) == (if buf.len() <= 65536 {
            StepView::More
        } else {
            StepView::TooLarge
        }),
{
    law_head_ends_at_first_empty_line(buf);
    if head_end(buf) is Some {
        assert(!ends_head_at(buf, head_end(buf)->0 as int));
    }
}

/// Once the head is complete, later bytes change nothing but what is left over
/// behind it: the answer is the same however the bytes arrive.
pub proof fn law_answer_does_not_depend_on_reads(buf: Seq<u8>, more: Seq<u8>)
    requires
        head_end(buf) is Some,
    ensures
        match (step(buf), step(buf + more)) {
            (StepView::Done(UpgradeView::Switch { headers: a, leftover: x }), StepView::Done(
                UpgradeView::Switch { headers: b, leftover: y },
            )) => a == b && y == x + more,
            (StepView::Done(UpgradeView::Refuse(s, m)), StepView::Done(
                UpgradeView::Refuse(t, n),
            )) => s == t && m == n,
            _ => false,
        },
{
    law_head_end_is_stable(buf, more);
    law_head_ends_at_first_empty_line(buf);
    let n = head_end(buf)->0 as int;
    assert((buf + more).take(n) == buf.take(n));
    assert((buf + more).skip(n + 4) == buf.skip(n + 4) + more);
}

// ---- the relay ------------------------------------------------------------

/// What is sent to the upstream.
#[derive(Debug)]
pub enum RelayPlan {
    /// Send this upgrade request and join the two connections.
    WebSocket { request: String },
    /// Send the body with this path and these fields.
    Http { path: String, headers: Headers },
}

pub enum PlanView {
    WebSocket { request: Seq<char> },
    Http { path: Seq<char>, headers: Seq<FieldView> },
}

impl View for RelayPlan {
    type V = PlanView;

    open spec fn view(&self) -> PlanView {
        match self {
            RelayPlan::WebSocket { request } => PlanView::WebSocket { request: request@ },
            RelayPlan::Http { path, headers } => PlanView::Http { path: path@, headers: headers@ },
        }
    }
}

/// The path and query of a request; `/` where it has none.
pub open spec fn target_path(path_and_query: Option<Seq<char>>) -> Seq<char> {
    match path_and_query {
        Some(p) => p,
        None => "/"@,
    }
}

pub open spec fn opt_str(s: Option<&str>) -> Option<Seq<char>> {
    match s {
        Some(t) => Some(t@),
        None => None,
    }
}

pub open spec fn plan(
    method: Seq<char>,
    path_and_query: Option<Seq<char>>,
    fields: Seq<FieldView>,
    host: Seq<char>,
) -> PlanView {
    let path = target_path(path_and_query);
    if wants_websocket(fields) {
        PlanView::WebSocket { request: handshake(method, path, host, fields) }
    } else {
        PlanView::Http { path, headers: forwarded(fields, host) }
    }
}

/// How a request that may pass is relayed.
pub fn relay_handler(
    config: &Config,
    method: &str,
    path_and_query: Option<&str>,
    headers: &Headers,
) -> (out: RelayPlan)
    ensures
        out@ == plan(method@, opt_str(path_and_query), headers@, config.upstream_host@),
        out is WebSocket == wants_websocket(headers@),
        match out {
            RelayPlan::Http { path, headers: sent } => {
                &&& path@ == (match path_and_query {
                    Some(p) => p@,
                    None => "/"@,
                })
                &&& sent@ == forwarded(headers@, config.upstream_host@)
            },
            RelayPlan::WebSocket { request } => request@ == handshake(
                method@,
                match path_and_query {
                    Some(p) => p@,
                    None => "/"@,
                },
                config.upstream_host@,
                headers@,
            ),
        },
{
    proof {
        law_path_and_query_are_kept(
            method@,
            opt_str(path_and_query),
            headers@,
            config.upstream_host@,
        );
    }
    let path = match path_and_query {
        Some(p) => p.to_owned(),
        None => "/".to_owned(),
    };
    let host = config.upstream_host.as_str();
    if is_websocket_upgrade(headers) {
        RelayPlan::WebSocket { request: upgrade_request(method, path.as_str(), host, headers) }
    } else {
        RelayPlan::Http { path, headers: forward_headers(headers, host) }
    }
}

/// The upstream is asked for what the request asks for: its path and its query,
/// character for character; for `/` only where it has none. It is asked with the
/// same method and with the configured `Host`, for a WebSocket exactly where the
/// request asks for one, and then with the fields of its handshake.
pub proof fn law_path_and_query_are_kept(
    method: Seq<char>,
    path_and_query: Option<Seq<char>>,
    fields: Seq<FieldView>,
    host: Seq<char>,
)
    ensures
        plan(method, path_and_query, fields, host) is WebSocket == wants_websocket(fields),
        ({
            let asked = match path_and_query {
                Some(p) => p,
                None => "/"@,
            };
            match plan(method, path_and_query, fields, host) {
                PlanView::Http { path, headers } => path == asked && headers == forwarded(
                    fields,
                    host,
                ),
                PlanView::WebSocket { request } => {
                    let line = method + " "@ + asked + " HTTP/1.1\r\nHost: "@ + host + "\r\n"@;
                    line.is_prefix_of(request) && request == handshake(method, asked, host, fields)
                },
            }
        }),
{
    let asked = match path_and_query {
        Some(p) => p,
        None => "/"@,
    };
    let line = method + " "@ + asked + " HTTP/1.1\r\nHost: "@ + host + "\r\n"@;
    law_handshake_is_built_line_by_line(method, asked, host, fields);
    let request = handshake(method, asked, host, fields);
    assert(line =~= request.subrange(0, line.len() as int));
}

/// Two requests that differ in their path or query differ in what the upstream is
/// asked for.
pub proof fn law_different_targets_stay_different(
    method: Seq<char>,
    a: Seq<char>,
    b: Seq<char>,
    fields: Seq<FieldView>,
    host: Seq<char>,
)
    requires
        a != b,
        !wants_websocket(fields),
    ensures
        plan(method, Some(a), fields, host) != plan(method, Some(b), fields, host),
{
    law_path_and_query_are_kept(method, Some(a), fields, host);
    law_path_and_query_are_kept(method, Some(b), fields, host);
}

/// What a request is answered when its upstream fails.
pub fn relay_failed(websocket: bool) -> (out: Refusal)
    ensures
        out@ == (502u16, if websocket {
            "upstream websocket unavailable"@
        } else {
            "upstream unavailable"@
        }),
{
    Refusal {
        status: 502,
        message: if websocket {
            "upstream websocket unavailable".to_owned()
        } else {
            "upstream unavailable".to_owned()
        },
    }
}

/// The state of the gateway as anyone may see it.
#[derive(Debug)]
pub struct Health {
    pub ok: bool,
    pub upstream: bool,
}

/// The answer of the health probe, given whether the default upstream can be
/// reached.
pub fn healthz(upstream_ok: bool) -> (out: Health)
    ensures
        out.ok,
        out.upstream == upstream_ok,
{
    Health { ok: true, upstream: upstream_ok }
}

} // verus!

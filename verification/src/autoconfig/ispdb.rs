//! Reading a provider database's answer: a small document of fixed shape,
//! read with searches rather than a parser for all of XML.

use super::{over_tls, Address, Auth, Discovered, Server, Settings, Via};
use crate::text::{
    chars_of, find, find_from, find_from_is_first, parse_u64, put, same_chars, string_of, trim,
    trimmed, unsigned_number,
};
use vstd::prelude::*;
use vstd::slice::slice_subrange;

verus! {

pub open spec fn opening(name: Seq<char>) -> Seq<char> {
    "<"@ + name + ">"@
}

pub open spec fn closing(name: Seq<char>) -> Seq<char> {
    "</"@ + name + ">"@
}

/// What stands in the first element of this name, without the white space
/// round it.
pub open spec fn element(block: Seq<char>, name: Seq<char>) -> Option<Seq<char>> {
    match find_from(block, opening(name), 0) {
        None => None,
        Some(at) => {
            let from = at + opening(name).len();
            match find_from(block, closing(name), from) {
                None => None,
                Some(to) => Some(trim(block.subrange(from, to))),
            }
        },
    }
}

fn between(name: &str, before: &str) -> (out: Vec<char>)
    ensures
        out@ == before@ + name@ + ">"@,
{
    let mut out: Vec<char> = Vec::new();
    put(&mut out, before);
    put(&mut out, name);
    put(&mut out, ">");
    out
}

fn element_of(block: &[char], name: &str) -> (r: Option<Vec<char>>)
    ensures
        match r {
            Some(v) => element(block@, name@) == Some(v@),
            None => element(block@, name@) is None,
        },
{
    let open = between(name, "<");
    let close = between(name, "</");
    match find(block, &open, 0) {
        None => None,
        Some(at) => {
            assert(block@.len() == block.len());
            let from: usize = at + open.len();
            match find(block, &close, from) {
                None => None,
                Some(to) => Some(
                    vstd::slice::slice_to_vec(trimmed(slice_subrange(block, from, to))),
                ),
            }
        },
    }
}

/// What stands in the first element of a name.
pub fn tag(block: &str, name: &str) -> (r: Option<String>)
    ensures
        match r {
            Some(v) => element(block@, name@) == Some(v@),
            None => element(block@, name@) is None,
        },
{
    match element_of(&chars_of(block), name) {
        Some(v) => Some(string_of(&v)),
        None => None,
    }
}

// ---------------------------------------------------------------------
// Servers
// ---------------------------------------------------------------------
pub open spec fn incoming(kind: Seq<char>) -> Seq<char> {
    "<incomingServer type=\""@ + kind + "\">"@
}

pub open spec fn outgoing(kind: Seq<char>) -> Seq<char> {
    "<outgoingServer type=\""@ + kind + "\">"@
}

/// Where the next server of a kind begins: an incoming one, or where there is
/// none an outgoing one.
pub open spec fn server_start(rest: Seq<char>, kind: Seq<char>) -> Option<int> {
    match find_from(rest, incoming(kind), 0) {
        Some(i) => Some(i),
        None => find_from(rest, outgoing(kind), 0),
    }
}

/// Where a server's description that begins here is over.
pub open spec fn server_end(rest: Seq<char>, start: int) -> Option<int> {
    match find_from(rest, "</incomingServer>"@, start) {
        Some(i) => Some(i),
        None => find_from(rest, "</outgoingServer>"@, start),
    }
}

/// The server a description gives, if it names a host, a port and implicit
/// TLS.
pub open spec fn described(block: Seq<char>) -> Option<Address> {
    match (element(block, "hostname"@), element(block, "port"@)) {
        (Some(host), Some(port)) => match unsigned_number(port) {
            Some(n) => if n <= u16::MAX && element(block, "socketType"@) == Some("SSL"@) {
                Some(over_tls(host, n as int))
            } else {
                None
            },
            None => None,
        },
        _ => None,
    }
}

/// The first server of a kind that speaks TLS from the first byte.
pub open spec fn picked(rest: Seq<char>, kind: Seq<char>) -> Option<Address>
    decreases rest.len(),
{
    match server_start(rest, kind) {
        None => None,
        Some(start) => match server_end(rest, start) {
            None => None,
            Some(end) => {
                proof {
                    a_description_has_a_length(rest, kind);
                }
                match described(rest.subrange(start, end)) {
                    Some(s) => Some(s),
                    None => picked(rest.skip(end), kind),
                }
            },
        },
    }
}

pub proof fn a_description_has_a_length(rest: Seq<char>, kind: Seq<char>)
    ensures
        server_start(rest, kind) matches Some(start) ==> 0 <= start < rest.len() && (server_end(
            rest,
            start,
        ) matches Some(end) ==> start < end <= rest.len()),
{
    reveal_strlit("<incomingServer type=\"");
    reveal_strlit("<outgoingServer type=\"");
    reveal_strlit("</incomingServer>");
    reveal_strlit("</outgoingServer>");
    find_from_is_first(rest, incoming(kind), 0);
    find_from_is_first(rest, outgoing(kind), 0);
    if let Some(start) = server_start(rest, kind) {
        let marker = if find_from(rest, incoming(kind), 0) is Some {
            incoming(kind)
        } else {
            outgoing(kind)
        };
        assert(rest.subrange(start, start + marker.len())[1] == marker[1]);
        assert(rest[start + 1] != '/');
        find_from_is_first(rest, "</incomingServer>"@, start);
        find_from_is_first(rest, "</outgoingServer>"@, start);
        if let Some(end) = server_end(rest, start) {
            let closer = if find_from(rest, "</incomingServer>"@, start) is Some {
                "</incomingServer>"@
            } else {
                "</outgoingServer>"@
            };
            assert(rest.subrange(end, end + closer.len())[1] == closer[1]);
        }
    }
}

fn marker(before: &str, kind: &str) -> (out: Vec<char>)
    ensures
        out@ == before@ + kind@ + "\">"@,
{
    let mut out: Vec<char> = Vec::new();
    put(&mut out, before);
    put(&mut out, kind);
    put(&mut out, "\">");
    out
}

fn described_server(block: &[char]) -> (r: Option<Server>)
    ensures
        match r {
            Some(s) => described(block@) == Some(s@),
            None => described(block@) is None,
        },
{
    let host = match element_of(block, "hostname") {
        None => {
            return None;
        },
        Some(host) => host,
    };
    let port: u64 = match element_of(block, "port") {
        None => {
            return None;
        },
        Some(port) => match parse_u64(&port) {
            None => {
                return None;
            },
            Some(n) => n,
        },
    };
    let socket = element_of(block, "socketType");
    let implicit = match &socket {
        Some(s) => same_chars(s, &chars_of("SSL")),
        None => false,
    };
    if port <= 65535 && implicit {
        Some(Server { host: string_of(&host), port: port as u16, tls: true })
    } else {
        None
    }
}

fn pick(body: &[char], kind: &str) -> (r: Option<Server>)
    ensures
        match r {
            Some(s) => picked(body@, kind@) == Some(s@),
            None => picked(body@, kind@) is None,
        },
{
    let first = marker("<incomingServer type=\"", kind);
    let second = marker("<outgoingServer type=\"", kind);
    let close_first = chars_of("</incomingServer>");
    let close_second = chars_of("</outgoingServer>");
    let mut rest = body;
    loop
        invariant
            picked(body@, kind@) == picked(rest@, kind@),
            first@ == incoming(kind@),
            second@ == outgoing(kind@),
            close_first@ == "</incomingServer>"@,
            close_second@ == "</outgoingServer>"@,
        decreases rest@.len(),
    {
        let start: usize = match find(rest, &first, 0) {
            Some(i) => i,
            None => match find(rest, &second, 0) {
                Some(i) => i,
                None => {
                    return None;
                },
            },
        };
        let end: usize = match find(rest, &close_first, start) {
            Some(i) => i,
            None => match find(rest, &close_second, start) {
                Some(i) => i,
                None => {
                    return None;
                },
            },
        };
        proof {
            a_description_has_a_length(rest@, kind@);
        }
        let found = described_server(slice_subrange(rest, start, end));
        if found.is_some() {
            return found;
        }
        assert(rest@.subrange(end as int, rest@.len() as int) =~= rest@.skip(end as int));
        rest = slice_subrange(rest, end, rest.len());
    }
}

/// What the provider database says of a domain: both servers, or nothing. A
/// provider it does not name is called by its domain.
pub open spec fn by_ispdb(domain: Seq<char>, body: Seq<char>) -> Option<Settings> {
    match (picked(body, "imap"@), picked(body, "smtp"@)) {
        (Some(imap), Some(smtp)) => Some(
            Settings {
                provider: match element(body, "displayName"@) {
                    Some(name) => name,
                    None => domain,
                },
                via: Via::Ispdb,
                imap,
                smtp,
                auth: Auth::Password,
                app_password_url: None,
            },
        ),
        _ => None,
    }
}

/// Reads a provider database's answer about a domain.
pub fn ispdb_answer(domain: &str, body: &str) -> (r: Option<Discovered>)
    ensures
        match (r, by_ispdb(domain@, body@)) {
            (Some(d), Some(s)) => d@ == s,
            (None, None) => true,
            _ => false,
        },
{
    let chars = chars_of(body);
    let imap = match pick(&chars, "imap") {
        None => {
            return None;
        },
        Some(s) => s,
    };
    let smtp = match pick(&chars, "smtp") {
        None => {
            return None;
        },
        Some(s) => s,
    };
    let provider = match element_of(&chars, "displayName") {
        Some(name) => string_of(&name),
        None => string_of(&chars_of(domain)),
    };
    Some(
        Discovered {
            provider,
            via: Via::Ispdb,
            imap,
            smtp,
            auth: Auth::Password,
            app_password_url: None,
        },
    )
}

/// Where a provider database is asked about a domain.
pub open spec fn ispdb_address(domain: Seq<char>) -> Seq<char> {
    "https://autoconfig.thunderbird.net/v1.1/"@ + domain
}

pub fn ispdb_url(domain: &str) -> (url: String)
    ensures
        url@ == ispdb_address(domain@),
        url@ == "https://autoconfig.thunderbird.net/v1.1/"@ + domain@,
{
    let mut out: Vec<char> = Vec::new();
    put(&mut out, "https://autoconfig.thunderbird.net/v1.1/");
    put(&mut out, domain);
    assert(out@ =~= ispdb_address(domain@));
    string_of(&out)
}

proof fn a_described_server_speaks_tls(block: Seq<char>)
    ensures
        described(block) matches Some(s) ==> s.tls,
{
}

proof fn a_picked_server_speaks_tls(rest: Seq<char>, kind: Seq<char>)
    ensures
        picked(rest, kind) matches Some(s) ==> s.tls,
    decreases rest.len(),
{
    if let Some(start) = server_start(rest, kind) {
        if let Some(end) = server_end(rest, start) {
            a_description_has_a_length(rest, kind);
            a_described_server_speaks_tls(rest.subrange(start, end));
            a_picked_server_speaks_tls(rest.skip(end), kind);
        }
    }
}

/// The provider database never talks anyone into a server that does not speak
/// TLS from the first byte.
pub proof fn the_database_offers_only_tls(domain: Seq<char>, body: Seq<char>)
    ensures
        by_ispdb(domain, body) matches Some(s) ==> s.imap.tls && s.smtp.tls,
{
    a_picked_server_speaks_tls(body, "imap"@);
    a_picked_server_speaks_tls(body, "smtp"@);
}

/// An element holds what stands between its two ends.
pub proof fn an_element_holds_what_is_in_it(
    name: Seq<char>,
    value: Seq<char>,
    rest: Seq<char>,
)
    requires
        forall|i: int| 0 <= i < value.len() ==> #[trigger] value[i] != '<',
    ensures
        element("<"@ + name + ">"@ + value + "</"@ + name + ">"@ + rest, name) == Some(trim(value)),
{
    reveal_strlit("<");
    reveal_strlit("</");
    reveal_strlit(">");
    let open = opening(name);
    let close = closing(name);
    let block = "<"@ + name + ">"@ + value + "</"@ + name + ">"@ + rest;
    assert(block =~= open + value + close + rest);
    assert(block.subrange(0, open.len() as int) =~= open);
    assert(crate::text::occurs_at(block, open, 0));
    find_from_is_first(block, open, 0);
    let from = open.len() as int;
    let to = from + value.len();
    assert(block.subrange(to, to + close.len()) =~= close);
    assert(crate::text::occurs_at(block, close, to));
    find_from_is_first(block, close, from);
    let found = find_from(block, close, from)->0;
    if found < to {
        assert(block.subrange(found, found + close.len())[0] == block[found]);
        assert(block[found] == value[found - from]);
    }
    assert(block.subrange(from, to) =~= value);
}

/// A server is the one described: its host and its port, and only where it
/// speaks TLS from the first byte.
pub proof fn a_server_is_the_one_described(block: Seq<char>)
    ensures
        described(block) matches Some(s) ==> {
            &&& element(block, "hostname"@) == Some(s.host)
            &&& element(block, "port"@) matches Some(port) && unsigned_number(port) == Some(
                s.port as nat,
            )
            &&& element(block, "socketType"@) == Some("SSL"@)
            &&& 0 <= s.port <= 65535
        },
        element(block, "socketType"@) != Some("SSL"@) ==> described(block) is None,
        (element(block, "hostname"@) is Some && (element(block, "port"@) matches Some(port)
            && unsigned_number(port) matches Some(n) && n <= 65535) && element(
            block,
            "socketType"@,
        ) == Some("SSL"@)) ==> described(block) is Some,
{
}

/// Mail comes in by the IMAP server and goes out by the SMTP server, and
/// where either is missing nothing is offered.
pub proof fn both_servers_are_needed(domain: Seq<char>, body: Seq<char>)
    ensures
        picked(body, "imap"@) is None || picked(body, "smtp"@) is None ==> by_ispdb(domain, body)
            is None,
        by_ispdb(domain, body) matches Some(s) ==> picked(body, "imap"@) == Some(s.imap) && picked(
            body,
            "smtp"@,
        ) == Some(s.smtp) && s.via == Via::Ispdb && s.auth == Auth::Password
            && s.app_password_url is None && (element(body, "displayName"@) matches Some(name)
            ==> s.provider == name) && (element(body, "displayName"@) is None ==> s.provider
            == domain),
{
}

} // verus!

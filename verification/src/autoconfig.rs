//! Turning an email address into server settings.
//!
//! A chain of lookups, each cheaper and more certain than the next, and the
//! first to answer wins: a table of providers everyone has heard of, a public
//! database of providers by domain, and the company that the domain's MX
//! record points at. Where none answers, there is a guess to start from.
//!
//! Every step is a suggestion. What makes it a configuration is reaching both
//! servers with the real credentials.

pub mod hosts;
pub mod ispdb;

pub use hosts::{known_by_domain, known_by_mx, MailHost};
pub use ispdb::{ispdb_answer, ispdb_url, tag};

use crate::text::{
    append_chars, ascii_lowercase, ascii_lowered, chars_of, contains_char, has_char, last_char,
    last_char_is_last, last_position, put, string_of, trim, trim_is_stretch, trimmed,
};
use vstd::prelude::*;
use vstd::slice::slice_subrange;

verus! {

/// One server's address, port and what the port speaks.
#[derive(Debug, Clone, PartialEq, Eq)]
pub struct Server {
    pub host: String,
    pub port: u16,
    /// TLS from the first byte. A setting that can be downgraded is one that
    /// will be, so nothing else is offered.
    pub tls: bool,
}

/// How a provider wants to be signed in to.
#[derive(Debug, Clone, Copy, PartialEq, Eq, Structural)]
pub enum Auth {
    /// The account's own password.
    Password,
    /// A password made for this app in the provider's security settings.
    AppPassword,
}

/// Which step of the chain answered.
#[derive(Debug, Clone, Copy, PartialEq, Eq, Structural)]
pub enum Via {
    KnownProvider,
    Ispdb,
    /// The domain's mail is hosted by a company recognised from its MX.
    Mx,
}

/// What the chain found.
#[derive(Debug, Clone, PartialEq, Eq)]
pub struct Discovered {
    /// As the confirm screen names it.
    pub provider: String,
    pub via: Via,
    pub imap: Server,
    pub smtp: Server,
    pub auth: Auth,
    /// Where to make an app password, when one is needed.
    pub app_password_url: Option<String>,
}

#[derive(Debug, Clone, PartialEq, Eq)]
pub enum Error {
    NotAnAddress,
    /// The domain's mail is hosted somewhere that offers no IMAP at all.
    NoImap { provider: String },
    Unreachable { host: String, port: u16, detail: String },
}

// ---------------------------------------------------------------------
// The model
// ---------------------------------------------------------------------
/// A server, as a value.
pub struct Address {
    pub host: Seq<char>,
    pub port: int,
    pub tls: bool,
}

/// What was discovered, as a value.
pub struct Settings {
    pub provider: Seq<char>,
    pub via: Via,
    pub imap: Address,
    pub smtp: Address,
    pub auth: Auth,
    pub app_password_url: Option<Seq<char>>,
}

impl View for Server {
    type V = Address;

    open spec fn view(&self) -> Address {
        Address { host: self.host@, port: self.port as int, tls: self.tls }
    }
}

impl View for Discovered {
    type V = Settings;

    open spec fn view(&self) -> Settings {
        Settings {
            provider: self.provider@,
            via: self.via,
            imap: self.imap@,
            smtp: self.smtp@,
            auth: self.auth,
            app_password_url: match self.app_password_url {
                Some(url) => Some(url@),
                None => None,
            },
        }
    }
}

pub open spec fn found(answer: Option<Discovered>) -> Option<Settings> {
    match answer {
        Some(d) => Some(d@),
        None => None,
    }
}

/// A server on an implicit-TLS port.
pub open spec fn over_tls(host: Seq<char>, port: int) -> Address {
    Address { host, port, tls: true }
}

pub(crate) fn server(host: &str, port: u16) -> (s: Server)
    ensures
        s@ == over_tls(host@, port as int),
{
    Server { host: string_of(&chars_of(host)), port, tls: true }
}

// ---------------------------------------------------------------------
// The address
// ---------------------------------------------------------------------
/// The domain of an address: what follows the last `@`, in lower case, if
/// there is any and no space stands in it.
pub open spec fn domain(address: Seq<char>) -> Option<Seq<char>> {
    match last_char(address, '@') {
        None => None,
        Some(at) => {
            let d = ascii_lowercase(trim(address.skip(at + 1)));
            if d.len() == 0 || has_char(d, ' ') {
                None
            } else {
                Some(d)
            }
        },
    }
}

/// The domain half of an address, lowercased. `None` if there is none.
pub fn domain_of(address: &str) -> (r: Option<String>)
    ensures
        match r {
            Some(d) => domain(address@) == Some(d@),
            None => domain(address@) is None,
        },
{
    let chars = chars_of(address);
    match last_position(&chars, '@') {
        None => None,
        Some(at) => {
            let rest = slice_subrange(chars.as_slice(), at + 1, chars.len());
            assert(rest@ =~= address@.skip(at + 1));
            let d = ascii_lowered(trimmed(rest));
            if d.len() == 0 || contains_char(&d, ' ') {
                None
            } else {
                Some(string_of(&d))
            }
        },
    }
}

/// The conventional hosts, for a form nothing could fill in: right often
/// enough to be worth it, and wrong in a way that trying them shows.
pub fn guess(address: &str) -> (r: Option<(Server, Server)>)
    ensures
        match (r, domain(address@)) {
            (Some(pair), Some(d)) => pair.0@ == over_tls("imap."@ + d, 993) && pair.1@ == over_tls(
                "smtp."@ + d,
                465,
            ),
            (None, None) => true,
            _ => false,
        },
{
    match domain_of(address) {
        None => None,
        Some(d) => {
            let tail = chars_of(&d);
            let mut imap: Vec<char> = Vec::new();
            put(&mut imap, "imap.");
            append_chars(&mut imap, &tail);
            let mut smtp: Vec<char> = Vec::new();
            put(&mut smtp, "smtp.");
            append_chars(&mut smtp, &tail);
            assert(imap@ =~= "imap."@ + d@);
            assert(smtp@ =~= "smtp."@ + d@);
            Some((server(&string_of(&imap), 993), server(&string_of(&smtp), 465)))
        },
    }
}

// ---------------------------------------------------------------------
// The chain
// ---------------------------------------------------------------------
/// What to do next about an address.
#[derive(Debug, PartialEq, Eq)]
pub enum Next {
    /// The chain is at its end.
    Answer(Result<Option<Discovered>, Error>),
    /// Look this domain up in the provider database.
    AskIspdb(String),
    /// Look up where this domain's mail goes.
    AskMx(String),
}

/// What the chain comes to, given what each lookup would answer: the first to
/// answer wins, and nothing at all is not an error.
pub open spec fn chain(
    domain: Seq<char>,
    ispdb: Option<Settings>,
    mx: Option<Seq<char>>,
) -> Result<Option<Settings>, Seq<char>> {
    if hosts::by_domain(domain) is Some {
        Ok(hosts::by_domain(domain))
    } else if ispdb is Some {
        Ok(ispdb)
    } else {
        match mx {
            None => Ok(None),
            Some(host) => hosts::by_mx(host),
        }
    }
}

/// An answer says what the chain comes to. A refusal is always that the
/// provider offers no IMAP.
pub open spec fn says(
    answer: Result<Option<Discovered>, Error>,
    outcome: Result<Option<Settings>, Seq<char>>,
) -> bool {
    match (answer, outcome) {
        (Ok(a), Ok(o)) => found(a) == o,
        (Err(Error::NoImap { provider }), Err(o)) => provider@ == o,
        _ => false,
    }
}

/// The first step: a provider known by its domain needs no network.
pub fn begin(address: &str) -> (next: Next)
    ensures
        match domain(address@) {
            None => next == Next::Answer(Err(Error::NotAnAddress)),
            Some(d) => match next {
                Next::Answer(answer) => hosts::by_domain(d) is Some && forall|i, m|
                    says(answer, #[trigger] chain(d, i, m)),
                Next::AskIspdb(asked) => hosts::by_domain(d) is None && asked@ == d,
                Next::AskMx(_) => false,
            },
        },
{
    match domain_of(address) {
        None => Next::Answer(Err(Error::NotAnAddress)),
        Some(d) => match known_by_domain(&d) {
            Some(known) => Next::Answer(Ok(Some(known))),
            None => Next::AskIspdb(d),
        },
    }
}

/// The second step, once the provider database has answered about a domain
/// that no table knows.
pub fn after_ispdb(domain: String, answer: Option<Discovered>) -> (next: Next)
    requires
        hosts::by_domain(domain@) is None,
    ensures
        match next {
            Next::Answer(a) => answer is Some && forall|m|
                says(a, #[trigger] chain(domain@, found(answer), m)),
            Next::AskMx(asked) => answer is None && asked@ == domain@,
            Next::AskIspdb(_) => false,
        },
{
    match answer {
        Some(d) => Next::Answer(Ok(Some(d))),
        None => Next::AskMx(domain),
    }
}

pub open spec fn host_text(host: Option<String>) -> Option<Seq<char>> {
    match host {
        Some(h) => Some(h@),
        None => None,
    }
}

/// The last step, once it is known where the domain's mail goes.
pub fn after_mx(domain: &str, host: Option<String>) -> (answer: Result<Option<Discovered>, Error>)
    requires
        hosts::by_domain(domain@) is None,
    ensures
        says(answer, chain(domain@, None, host_text(host))),
{
    match host {
        None => Ok(None),
        Some(h) => known_by_mx(&h),
    }
}

/// Where the mail of a domain goes first: the position of the lowest
/// preference, the first of them where several share it.
pub fn lowest_preference(preferences: &Vec<u16>) -> (r: Option<usize>)
    ensures
        match r {
            Some(i) => i < preferences@.len() && (forall|j: int|
                0 <= j < preferences@.len() ==> preferences@[i as int] <= #[trigger] preferences@[j])
                && (forall|j: int|
                0 <= j < i ==> preferences@[i as int] < #[trigger] preferences@[j]),
            None => preferences@.len() == 0,
        },
{
    if preferences.len() == 0 {
        return None;
    }
    let mut best: usize = 0;
    let mut i: usize = 1;
    while i < preferences.len()
        invariant
            best < i <= preferences@.len(),
            forall|j: int|
                0 <= j < i ==> preferences@[best as int] <= #[trigger] preferences@[j],
            forall|j: int|
                0 <= j < best ==> preferences@[best as int] < #[trigger] preferences@[j],
        decreases preferences@.len() - i,
    {
        if preferences[i] < preferences[best] {
            best = i;
        }
        i += 1;
    }
    Some(best)
}

impl Error {
    /// What is wrong, in words.
    pub fn to_text(&self) -> (out: String)
        ensures
            out@ == match *self {
                Error::NotAnAddress => "that does not look like an email address"@,
                Error::NoImap { provider } => provider@
                    + " does not offer IMAP, so no mail client can connect to it"@,
                Error::Unreachable { host, port, detail } => "could not reach "@ + host@ + ":"@
                    + crate::text::decimal(port as nat) + " — "@ + detail@,
            },
    {
        let mut out: Vec<char> = Vec::new();
        match self {
            Error::NotAnAddress => {
                put(&mut out, "that does not look like an email address");
                assert(out@ =~= "that does not look like an email address"@);
            },
            Error::NoImap { provider } => {
                put(&mut out, provider);
                put(&mut out, " does not offer IMAP, so no mail client can connect to it");
                assert(out@ =~= provider@
                    + " does not offer IMAP, so no mail client can connect to it"@);
            },
            Error::Unreachable { host, port, detail } => {
                put(&mut out, "could not reach ");
                put(&mut out, host);
                put(&mut out, ":");
                append_chars(&mut out, &crate::text::decimal_chars(*port as u64));
                put(&mut out, " — ");
                put(&mut out, detail);
                assert(out@ =~= "could not reach "@ + host@ + ":"@ + crate::text::decimal(
                    *port as nat,
                ) + " — "@ + detail@);
            },
        }
        string_of(&out)
    }
}

// ---------------------------------------------------------------------
// Laws
// ---------------------------------------------------------------------
/// A domain holds no `@` and no space, and is never empty; and whatever case
/// the address was typed in, the domain is in lower case.
pub proof fn a_domain_is_bare(address: Seq<char>)
    ensures
        domain(address) matches Some(d) ==> d.len() > 0 && !has_char(d, '@') && !has_char(d, ' ')
            && ascii_lowercase(d) == d,
{
    last_char_is_last(address, '@');
    if let Some(d) = domain(address) {
        let at = last_char(address, '@').unwrap();
        let rest = address.skip(at + 1);
        let from = trim_is_stretch(rest);
        assert forall|i: int| 0 <= i < d.len() implies d[i] != '@' by {
            assert(trim(rest)[i] == rest[from + i]);
            assert(rest[from + i] == address[at + 1 + from + i]);
        }
        assert(ascii_lowercase(d) =~= d);
    }
}

/// Whichever step answers from a table, both servers speak TLS from the first
/// byte.
pub proof fn nothing_is_offered_without_tls(domain: Seq<char>, host: Seq<char>)
    ensures
        hosts::by_domain(domain) matches Some(s) ==> s.imap.tls && s.smtp.tls && s.imap.port == 993
            && s.smtp.port == 465 && s.via == Via::KnownProvider,
        hosts::by_mx(host) matches Ok(Some(s)) ==> s.imap.tls && s.smtp.tls && s.imap.port == 993
            && s.smtp.port == 465 && s.via == Via::Mx,
{
}

/// The first to answer wins: what is known by the domain is never looked up,
/// what the database says is never asked of the domain's mail host, and where
/// nothing answers nothing is made up.
pub proof fn the_first_to_answer_wins(
    domain: Seq<char>,
    known: Settings,
    ispdb: Option<Settings>,
    mx: Option<Seq<char>>,
)
    ensures
        hosts::by_domain(domain) == Some(known) ==> chain(domain, ispdb, mx) == Ok::<
            Option<Settings>,
            Seq<char>,
        >(Some(known)),
        hosts::by_domain(domain) is None && ispdb == Some(known) ==> chain(domain, ispdb, mx)
            == Ok::<Option<Settings>, Seq<char>>(Some(known)),
        hosts::by_domain(domain) is None && ispdb is None ==> (mx matches Some(host) ==> chain(
            domain,
            ispdb,
            mx,
        ) == hosts::by_mx(host)),
        hosts::by_domain(domain) is None && ispdb is None && mx is None ==> chain(
            domain,
            ispdb,
            mx,
        ) == Ok::<Option<Settings>, Seq<char>>(None),
{
}

/// The domain of an address is what stands behind its `@`, whoever it belongs
/// to.
pub proof fn the_domain_stands_behind_the_at(user: Seq<char>, name: Seq<char>)
    requires
        name.len() > 0,
        trim(name) == name,
        forall|i: int| 0 <= i < name.len() ==> #[trigger] name[i] != '@' && name[i] != ' ',
    ensures
        domain(user + seq!['@'] + name) == Some(ascii_lowercase(name)),
        !has_char(user, '@') ==> domain(user) is None,
{
    let address = user + seq!['@'] + name;
    last_char_is_last(address, '@');
    assert(address[user.len() as int] == '@');
    let at = last_char(address, '@')->0;
    if at > user.len() {
        assert(address[at] == name[at - user.len() - 1]);
    }
    assert(address.skip(user.len() as int + 1) =~= name);
    let low = ascii_lowercase(name);
    assert forall|i: int| 0 <= i < low.len() implies low[i] != ' ' by {
        assert(name[i] != ' ');
    }
    last_char_is_last(user, '@');
}

} // verus!

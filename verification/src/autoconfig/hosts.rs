//! The tables: providers by domain, and hosting companies by MX host.

use super::{over_tls, server, Auth, Discovered, Error, Settings, Via};
use crate::text::{
    ascii_lowercase, ascii_lowered, chars_of, contains, ends, ends_with, fill, has, replace_all,
    same, string_of, trim_end_char, without_end,
};
use vstd::prelude::*;

verus! {

// ---------------------------------------------------------------------
// By domain
// ---------------------------------------------------------------------
/// The providers of the domains that stand in most address books.
#[derive(Debug, Clone, Copy, PartialEq, Eq, Structural)]
pub enum Provider {
    Gmail,
    ICloud,
    Outlook,
    Fastmail,
}

pub open spec fn provider_of(domain: Seq<char>) -> Option<Provider> {
    if domain == "gmail.com"@ || domain == "googlemail.com"@ {
        Some(Provider::Gmail)
    } else if domain == "icloud.com"@ || domain == "me.com"@ || domain == "mac.com"@ {
        Some(Provider::ICloud)
    } else if domain == "outlook.com"@ || domain == "hotmail.com"@ || domain == "live.com"@ || domain == "msn.com"@ {
        Some(Provider::Outlook)
    } else if domain == "fastmail.com"@ || domain == "fastmail.fm"@ {
        Some(Provider::Fastmail)
    } else {
        None
    }
}

/// What is said of a provider: its name, its servers, and where an app
/// password for it is made.
pub open spec fn provider_settings(p: Provider) -> Settings {
    let (name, imap, smtp, url) = match p {
        Provider::Gmail => (
            "Gmail"@,
            "imap.gmail.com"@,
            "smtp.gmail.com"@,
            "https://myaccount.google.com/apppasswords"@,
        ),
        Provider::ICloud => (
            "iCloud Mail"@,
            "imap.mail.me.com"@,
            "smtp.mail.me.com"@,
            "https://account.apple.com/account/manage"@,
        ),
        Provider::Outlook => (
            "Outlook.com"@,
            "outlook.office365.com"@,
            "smtp-mail.outlook.com"@,
            "https://account.live.com/proofs/manage/additional"@,
        ),
        Provider::Fastmail => (
            "Fastmail"@,
            "imap.fastmail.com"@,
            "smtp.fastmail.com"@,
            "https://app.fastmail.com/settings/security/devicekeys"@,
        ),
    };
    Settings {
        provider: name,
        via: Via::KnownProvider,
        imap: over_tls(imap, 993),
        smtp: over_tls(smtp, 465),
        auth: Auth::AppPassword,
        app_password_url: Some(url),
    }
}

/// What is known of a domain without asking anyone.
pub open spec fn by_domain(domain: Seq<char>) -> Option<Settings> {
    match provider_of(domain) {
        Some(p) => Some(provider_settings(p)),
        None => None,
    }
}

fn provider(domain: &str) -> (r: Option<Provider>)
    ensures
        r == provider_of(domain@),
{
    if same(domain, "gmail.com") || same(domain, "googlemail.com") {
        Some(Provider::Gmail)
    } else if same(domain, "icloud.com") || same(domain, "me.com") || same(domain, "mac.com") {
        Some(Provider::ICloud)
    } else if same(domain, "outlook.com") || same(domain, "hotmail.com") || same(domain, "live.com") || same(domain, "msn.com") {
        Some(Provider::Outlook)
    } else if same(domain, "fastmail.com") || same(domain, "fastmail.fm") {
        Some(Provider::Fastmail)
    } else {
        None
    }
}

/// Providers matched by the address's own domain.
///
/// Few on purpose: these are the domains for which a round trip to learn the
/// server would be absurd.
pub fn known_by_domain(domain: &str) -> (r: Option<Discovered>)
    ensures
        match (r, by_domain(domain@)) {
            (Some(d), Some(s)) => d@ == s,
            (None, None) => true,
            _ => false,
        },
{
    let (name, imap, smtp, url) = match provider(domain) {
        None => {
            return None;
        },
        Some(Provider::Gmail) => (
            "Gmail",
            "imap.gmail.com",
            "smtp.gmail.com",
            "https://myaccount.google.com/apppasswords",
        ),
        Some(Provider::ICloud) => (
            "iCloud Mail",
            "imap.mail.me.com",
            "smtp.mail.me.com",
            "https://account.apple.com/account/manage",
        ),
        Some(Provider::Outlook) => (
            "Outlook.com",
            "outlook.office365.com",
            "smtp-mail.outlook.com",
            "https://account.live.com/proofs/manage/additional",
        ),
        Some(Provider::Fastmail) => (
            "Fastmail",
            "imap.fastmail.com",
            "smtp.fastmail.com",
            "https://app.fastmail.com/settings/security/devicekeys",
        ),
    };
    Some(
        Discovered {
            provider: text_of(name),
            via: Via::KnownProvider,
            imap: server(imap, 993),
            smtp: server(smtp, 465),
            auth: Auth::AppPassword,
            app_password_url: Some(text_of(url)),
        },
    )
}

fn text_of(s: &str) -> (out: String)
    ensures
        out@ == s@,
{
    string_of(&chars_of(s))
}

// ---------------------------------------------------------------------
// By MX host
// ---------------------------------------------------------------------
/// The companies that host other people's domains.
#[derive(Debug, Clone, Copy, PartialEq, Eq, Structural)]
pub enum MailHost {
    // These offer no IMAP at all.
    Proton,
    Hey,
    Tuta,
    PrivateEmail,
    GoogleWorkspace,
    ICloud,
    Fastmail,
    Microsoft365,
    Zoho,
    Migadu,
    MailboxOrg,
    Posteo,
    Runbox,
    Purelymail,
    MXroute,
    Ionos,
    Gmx,
    Aol,
    Yahoo,
}

/// An MX host as it is compared: no dots at the end, lower case.
pub open spec fn plain_host(mx_host: Seq<char>) -> Seq<char> {
    ascii_lowercase(trim_end_char(mx_host, '.'))
}

/// The company behind an MX host, by how the host's name ends. The ones that
/// offer no IMAP come first, so that "none" is never taken for "not
/// recognised".
pub open spec fn mail_host_of(h: Seq<char>) -> Option<MailHost> {
    if ends(h, "protonmail.ch"@) || ends(h, "proton.me"@) {
        Some(MailHost::Proton)
    } else if ends(h, "app.hey.com"@) || ends(h, ".hey.com"@) {
        Some(MailHost::Hey)
    } else if ends(h, "tutanota.de"@) || ends(h, "tuta.com"@) {
        Some(MailHost::Tuta)
    } else if ends(h, "privateemail.com"@) {
        Some(MailHost::PrivateEmail)
    } else if ends(h, "google.com"@) || ends(h, "googlemail.com"@) {
        Some(MailHost::GoogleWorkspace)
    } else if ends(h, "icloud.com"@) {
        Some(MailHost::ICloud)
    } else if ends(h, "messagingengine.com"@) || ends(h, "fastmail.com"@) {
        Some(MailHost::Fastmail)
    } else if ends(h, "outlook.com"@) || ends(h, "protection.outlook.com"@) {
        Some(MailHost::Microsoft365)
    } else if ends(h, "zoho.com"@) || ends(h, "zoho.eu"@) || ends(h, "zohomail.com"@) {
        Some(MailHost::Zoho)
    } else if ends(h, "migadu.com"@) {
        Some(MailHost::Migadu)
    } else if ends(h, "mailbox.org"@) {
        Some(MailHost::MailboxOrg)
    } else if ends(h, "posteo.de"@) {
        Some(MailHost::Posteo)
    } else if ends(h, "runbox.com"@) {
        Some(MailHost::Runbox)
    } else if ends(h, "purelymail.com"@) {
        Some(MailHost::Purelymail)
    } else if ends(h, "mxrouting.net"@) || ends(h, "mxroute.com"@) {
        Some(MailHost::MXroute)
    } else if ends(h, "1and1.com"@) || ends(h, "ionos.com"@) || ends(h, "ionos.de"@) {
        Some(MailHost::Ionos)
    } else if ends(h, "emig.gmx.net"@) || ends(h, "gmx.net"@) {
        Some(MailHost::Gmx)
    } else if ends(h, "yahoodns.net"@) {
        // Two companies share one mail system; one of them says so in the name.
        if has(h, "aol"@) {
            Some(MailHost::Aol)
        } else {
            Some(MailHost::Yahoo)
        }
    } else {
        None
    }
}

/// The mail host of a customer whose server is named by its MX host.
pub open spec fn own_server(h: Seq<char>) -> Seq<char> {
    replace_all(h, "-relay"@, ""@)
}

/// What is said of a hosting company: settings, or the name of one that
/// offers no IMAP.
pub open spec fn host_settings(host: MailHost, h: Seq<char>) -> Result<Settings, Seq<char>> {
    match host {
        MailHost::Proton => Err("Proton Mail"@),
        MailHost::Hey => Err("HEY"@),
        MailHost::Tuta => Err("Tuta"@),
        MailHost::PrivateEmail => Ok(
            hosted("Namecheap Private Email"@, "mail.privateemail.com"@, "mail.privateemail.com"@, Auth::Password, None),
        ),
        MailHost::GoogleWorkspace => Ok(
            hosted("Google Workspace"@, "imap.gmail.com"@, "smtp.gmail.com"@, Auth::AppPassword, Some("https://myaccount.google.com/apppasswords"@)),
        ),
        MailHost::ICloud => Ok(
            hosted("iCloud Mail"@, "imap.mail.me.com"@, "smtp.mail.me.com"@, Auth::AppPassword, Some("https://account.apple.com/account/manage"@)),
        ),
        MailHost::Fastmail => Ok(
            hosted("Fastmail"@, "imap.fastmail.com"@, "smtp.fastmail.com"@, Auth::AppPassword, Some("https://app.fastmail.com/settings/security/devicekeys"@)),
        ),
        MailHost::Microsoft365 => Ok(
            hosted("Microsoft 365"@, "outlook.office365.com"@, "smtp.office365.com"@, Auth::AppPassword, None),
        ),
        MailHost::Zoho => Ok(
            hosted("Zoho Mail"@, "imap.zoho.com"@, "smtp.zoho.com"@, Auth::AppPassword, Some("https://accounts.zoho.com/home#security/app_password"@)),
        ),
        MailHost::Migadu => Ok(
            hosted("Migadu"@, "imap.migadu.com"@, "smtp.migadu.com"@, Auth::Password, None),
        ),
        MailHost::MailboxOrg => Ok(
            hosted("mailbox.org"@, "imap.mailbox.org"@, "smtp.mailbox.org"@, Auth::Password, None),
        ),
        MailHost::Posteo => Ok(
            hosted("Posteo"@, "posteo.de"@, "posteo.de"@, Auth::Password, None),
        ),
        MailHost::Runbox => Ok(
            hosted("Runbox"@, "mail.runbox.com"@, "mail.runbox.com"@, Auth::Password, None),
        ),
        MailHost::Purelymail => Ok(
            hosted("Purelymail"@, "mailserver.purelymail.com"@, "mailserver.purelymail.com"@, Auth::Password, None),
        ),
        MailHost::MXroute => Ok(
            hosted("MXroute"@, own_server(h), own_server(h), Auth::Password, None),
        ),
        MailHost::Ionos => Ok(
            hosted("IONOS"@, "imap.ionos.com"@, "smtp.ionos.com"@, Auth::Password, None),
        ),
        MailHost::Gmx => Ok(
            hosted("GMX"@, "imap.gmx.net"@, "mail.gmx.net"@, Auth::Password, None),
        ),
        MailHost::Aol => Ok(
            hosted("AOL Mail"@, "imap.aol.com"@, "smtp.aol.com"@, Auth::AppPassword, Some("https://login.aol.com/account/security"@)),
        ),
        MailHost::Yahoo => Ok(
            hosted("Yahoo Mail"@, "imap.mail.yahoo.com"@, "smtp.mail.yahoo.com"@, Auth::AppPassword, Some("https://login.yahoo.com/account/security"@)),
        ),
    }
}

pub open spec fn hosted(
    name: Seq<char>,
    imap: Seq<char>,
    smtp: Seq<char>,
    auth: Auth,
    url: Option<Seq<char>>,
) -> Settings {
    Settings {
        provider: name,
        via: Via::Mx,
        imap: over_tls(imap, 993),
        smtp: over_tls(smtp, 465),
        auth,
        app_password_url: url,
    }
}

/// What an MX host says of a domain: its settings, nothing, or the name of a
/// provider that offers no IMAP.
pub open spec fn by_mx(mx_host: Seq<char>) -> Result<Option<Settings>, Seq<char>> {
    let h = plain_host(mx_host);
    match mail_host_of(h) {
        None => Ok(None),
        Some(host) => match host_settings(host, h) {
            Ok(s) => Ok(Some(s)),
            Err(name) => Err(name),
        },
    }
}

fn at_end(h: &[char], suffix: &str) -> (r: bool)
    ensures
        r == ends(h@, suffix@),
{
    ends_with(h, &chars_of(suffix))
}

fn mail_host(h: &[char]) -> (r: Option<MailHost>)
    ensures
        r == mail_host_of(h@),
{
    if at_end(h, "protonmail.ch") || at_end(h, "proton.me") {
        Some(MailHost::Proton)
    } else if at_end(h, "app.hey.com") || at_end(h, ".hey.com") {
        Some(MailHost::Hey)
    } else if at_end(h, "tutanota.de") || at_end(h, "tuta.com") {
        Some(MailHost::Tuta)
    } else if at_end(h, "privateemail.com") {
        Some(MailHost::PrivateEmail)
    } else if at_end(h, "google.com") || at_end(h, "googlemail.com") {
        Some(MailHost::GoogleWorkspace)
    } else if at_end(h, "icloud.com") {
        Some(MailHost::ICloud)
    } else if at_end(h, "messagingengine.com") || at_end(h, "fastmail.com") {
        Some(MailHost::Fastmail)
    } else if at_end(h, "outlook.com") || at_end(h, "protection.outlook.com") {
        Some(MailHost::Microsoft365)
    } else if at_end(h, "zoho.com") || at_end(h, "zoho.eu") || at_end(h, "zohomail.com") {
        Some(MailHost::Zoho)
    } else if at_end(h, "migadu.com") {
        Some(MailHost::Migadu)
    } else if at_end(h, "mailbox.org") {
        Some(MailHost::MailboxOrg)
    } else if at_end(h, "posteo.de") {
        Some(MailHost::Posteo)
    } else if at_end(h, "runbox.com") {
        Some(MailHost::Runbox)
    } else if at_end(h, "purelymail.com") {
        Some(MailHost::Purelymail)
    } else if at_end(h, "mxrouting.net") || at_end(h, "mxroute.com") {
        Some(MailHost::MXroute)
    } else if at_end(h, "1and1.com") || at_end(h, "ionos.com") || at_end(h, "ionos.de") {
        Some(MailHost::Ionos)
    } else if at_end(h, "emig.gmx.net") || at_end(h, "gmx.net") {
        Some(MailHost::Gmx)
    } else if at_end(h, "yahoodns.net") {
        // Two companies share one mail system; one of them says so in the name.
        if contains(h, &chars_of("aol")) {
            Some(MailHost::Aol)
        } else {
            Some(MailHost::Yahoo)
        }
    } else {
        None
    }
}

fn hosted_by(name: &str, imap: &str, smtp: &str, auth: Auth, url: Option<&str>) -> (d: Discovered)
    ensures
        d@ == hosted(
            name@,
            imap@,
            smtp@,
            auth,
            match url {
                Some(u) => Some(u@),
                None => None,
            },
        ),
{
    Discovered {
        provider: text_of(name),
        via: Via::Mx,
        imap: server(imap, 993),
        smtp: server(smtp, 465),
        auth,
        app_password_url: match url {
            Some(u) => Some(text_of(u)),
            None => None,
        },
    }
}

/// Hosting companies recognised from a domain's MX host.
///
/// A custom domain says nothing about who hosts its mail; its MX record does.
/// A refusal for hosts that offer no IMAP, nothing for hosts not recognised.
pub fn known_by_mx(mx_host: &str) -> (r: Result<Option<Discovered>, Error>)
    ensures
        super::says(r, by_mx(mx_host@)),
{
    let chars = chars_of(mx_host);
    let h = ascii_lowered(without_end(&chars, '.'));
    let host = match mail_host(&h) {
        None => {
            return Ok(None);
        },
        Some(host) => host,
    };
    let d = match host {
        MailHost::Proton => {
            return Err(Error::NoImap { provider: text_of("Proton Mail") });
        },
        MailHost::Hey => {
            return Err(Error::NoImap { provider: text_of("HEY") });
        },
        MailHost::Tuta => {
            return Err(Error::NoImap { provider: text_of("Tuta") });
        },
        MailHost::PrivateEmail => hosted_by(
            "Namecheap Private Email",
            "mail.privateemail.com",
            "mail.privateemail.com",
            Auth::Password,
            None,
        ),
        MailHost::GoogleWorkspace => hosted_by(
            "Google Workspace",
            "imap.gmail.com",
            "smtp.gmail.com",
            Auth::AppPassword,
            Some("https://myaccount.google.com/apppasswords"),
        ),
        MailHost::ICloud => hosted_by(
            "iCloud Mail",
            "imap.mail.me.com",
            "smtp.mail.me.com",
            Auth::AppPassword,
            Some("https://account.apple.com/account/manage"),
        ),
        MailHost::Fastmail => hosted_by(
            "Fastmail",
            "imap.fastmail.com",
            "smtp.fastmail.com",
            Auth::AppPassword,
            Some("https://app.fastmail.com/settings/security/devicekeys"),
        ),
        MailHost::Microsoft365 => hosted_by(
            "Microsoft 365",
            "outlook.office365.com",
            "smtp.office365.com",
            Auth::AppPassword,
            None,
        ),
        MailHost::Zoho => hosted_by(
            "Zoho Mail",
            "imap.zoho.com",
            "smtp.zoho.com",
            Auth::AppPassword,
            Some("https://accounts.zoho.com/home#security/app_password"),
        ),
        MailHost::Migadu => hosted_by(
            "Migadu",
            "imap.migadu.com",
            "smtp.migadu.com",
            Auth::Password,
            None,
        ),
        MailHost::MailboxOrg => hosted_by(
            "mailbox.org",
            "imap.mailbox.org",
            "smtp.mailbox.org",
            Auth::Password,
            None,
        ),
        MailHost::Posteo => hosted_by(
            "Posteo",
            "posteo.de",
            "posteo.de",
            Auth::Password,
            None,
        ),
        MailHost::Runbox => hosted_by(
            "Runbox",
            "mail.runbox.com",
            "mail.runbox.com",
            Auth::Password,
            None,
        ),
        MailHost::Purelymail => hosted_by(
            "Purelymail",
            "mailserver.purelymail.com",
            "mailserver.purelymail.com",
            Auth::Password,
            None,
        ),
        MailHost::MXroute => {
            // Each customer is on a named server, and the MX host is it.
            let own = fill(&string_of(&h), "-relay", "");
            hosted_by("MXroute", &own, &own, Auth::Password, None)
        },
        MailHost::Ionos => hosted_by(
            "IONOS",
            "imap.ionos.com",
            "smtp.ionos.com",
            Auth::Password,
            None,
        ),
        MailHost::Gmx => hosted_by(
            "GMX",
            "imap.gmx.net",
            "mail.gmx.net",
            Auth::Password,
            None,
        ),
        MailHost::Aol => hosted_by(
            "AOL Mail",
            "imap.aol.com",
            "smtp.aol.com",
            Auth::AppPassword,
            Some("https://login.aol.com/account/security"),
        ),
        MailHost::Yahoo => hosted_by(
            "Yahoo Mail",
            "imap.mail.yahoo.com",
            "smtp.mail.yahoo.com",
            Auth::AppPassword,
            Some("https://login.yahoo.com/account/security"),
        ),
    };
    Ok(Some(d))
}

/// A dot at the end of a host's name, and the case it is written in, say
/// nothing.
pub proof fn a_trailing_dot_says_nothing(mx_host: Seq<char>)
    ensures
        by_mx(mx_host.push('.')) == by_mx(mx_host),
        by_mx(ascii_lowercase(mx_host)) == by_mx(mx_host),
{
    assert(mx_host.push('.').drop_last() =~= mx_host);
    lowering_keeps_dots(mx_host);
    let t = trim_end_char(mx_host, '.');
    assert(ascii_lowercase(ascii_lowercase(t)) =~= ascii_lowercase(t));
}

proof fn lowering_keeps_dots(s: Seq<char>)
    ensures
        trim_end_char(ascii_lowercase(s), '.') == ascii_lowercase(trim_end_char(s, '.')),
    decreases s.len(),
{
    if s.len() > 0 {
        assert(ascii_lowercase(s).drop_last() =~= ascii_lowercase(s.drop_last()));
        assert(ascii_lowercase(s).last() == crate::text::ascii_lower(s.last()));
        if s.last() == '.' {
            lowering_keeps_dots(s.drop_last());
        }
    }
}

// ---------------------------------------------------------------------
// How a host's name ends
// ---------------------------------------------------------------------
proof fn a_name_ends_as_it_ends(front: Seq<char>, ending: Seq<char>)
    ensures
        ends(front + ending, ending),
{
    let h = front + ending;
    assert(h.subrange(front.len() as int, h.len() as int) =~= ending);
}

/// A name that ends one way does not end another way that differs from it,
/// counted from the end.
proof fn a_name_has_one_end(h: Seq<char>, a: Seq<char>, b: Seq<char>, k: int)
    requires
        ends(h, a),
        0 < k <= a.len(),
        k <= b.len(),
        a[a.len() - k] != b[b.len() - k],
    ensures
        !ends(h, b),
{
    let n = h.len() as int;
    assert(h.subrange(n - a.len(), n)[a.len() - k] == h[n - k]);
    if ends(h, b) {
        assert(h.subrange(n - b.len(), n)[b.len() - k] == h[n - k]);
    }
}

proof fn hosts_of_proton_protonmail_ch(front: Seq<char>)
    ensures
        mail_host_of(front + "protonmail.ch"@) == Some(MailHost::Proton),
{
    reveal_strlit("protonmail.ch");
    let h = front + "protonmail.ch"@;
    a_name_ends_as_it_ends(front, "protonmail.ch"@);
}

proof fn hosts_of_proton_proton_me(front: Seq<char>)
    ensures
        mail_host_of(front + "proton.me"@) == Some(MailHost::Proton),
{
    reveal_strlit("proton.me");
    let h = front + "proton.me"@;
    a_name_ends_as_it_ends(front, "proton.me"@);
}

proof fn hosts_of_hey_app_hey_com(front: Seq<char>)
    ensures
        mail_host_of(front + "app.hey.com"@) == Some(MailHost::Hey),
{
    reveal_strlit("app.hey.com");
    reveal_strlit("protonmail.ch");
    reveal_strlit("proton.me");
    let h = front + "app.hey.com"@;
    a_name_ends_as_it_ends(front, "app.hey.com"@);
    a_name_has_one_end(h, "app.hey.com"@, "protonmail.ch"@, 1);
    a_name_has_one_end(h, "app.hey.com"@, "proton.me"@, 1);
}

proof fn hosts_of_hey_hey_com(front: Seq<char>)
    ensures
        mail_host_of(front + ".hey.com"@) == Some(MailHost::Hey),
{
    reveal_strlit(".hey.com");
    reveal_strlit("protonmail.ch");
    reveal_strlit("proton.me");
    let h = front + ".hey.com"@;
    a_name_ends_as_it_ends(front, ".hey.com"@);
    a_name_has_one_end(h, ".hey.com"@, "protonmail.ch"@, 1);
    a_name_has_one_end(h, ".hey.com"@, "proton.me"@, 1);
}

proof fn hosts_of_tuta_tutanota_de(front: Seq<char>)
    ensures
        mail_host_of(front + "tutanota.de"@) == Some(MailHost::Tuta),
{
    reveal_strlit("tutanota.de");
    reveal_strlit("protonmail.ch");
    reveal_strlit("proton.me");
    reveal_strlit("app.hey.com");
    reveal_strlit(".hey.com");
    let h = front + "tutanota.de"@;
    a_name_ends_as_it_ends(front, "tutanota.de"@);
    a_name_has_one_end(h, "tutanota.de"@, "protonmail.ch"@, 1);
    a_name_has_one_end(h, "tutanota.de"@, "proton.me"@, 2);
    a_name_has_one_end(h, "tutanota.de"@, "app.hey.com"@, 1);
    a_name_has_one_end(h, "tutanota.de"@, ".hey.com"@, 1);
}

proof fn hosts_of_tuta_tuta_com(front: Seq<char>)
    ensures
        mail_host_of(front + "tuta.com"@) == Some(MailHost::Tuta),
{
    reveal_strlit("tuta.com");
    reveal_strlit("protonmail.ch");
    reveal_strlit("proton.me");
    reveal_strlit("app.hey.com");
    reveal_strlit(".hey.com");
    let h = front + "tuta.com"@;
    a_name_ends_as_it_ends(front, "tuta.com"@);
    a_name_has_one_end(h, "tuta.com"@, "protonmail.ch"@, 1);
    a_name_has_one_end(h, "tuta.com"@, "proton.me"@, 1);
    a_name_has_one_end(h, "tuta.com"@, "app.hey.com"@, 5);
    a_name_has_one_end(h, "tuta.com"@, ".hey.com"@, 5);
}

proof fn hosts_of_privateemail_privateemail_com(front: Seq<char>)
    ensures
        mail_host_of(front + "privateemail.com"@) == Some(MailHost::PrivateEmail),
{
    reveal_strlit("privateemail.com");
    reveal_strlit("protonmail.ch");
    reveal_strlit("proton.me");
    reveal_strlit("app.hey.com");
    reveal_strlit(".hey.com");
    reveal_strlit("tutanota.de");
    reveal_strlit("tuta.com");
    let h = front + "privateemail.com"@;
    a_name_ends_as_it_ends(front, "privateemail.com"@);
    a_name_has_one_end(h, "privateemail.com"@, "protonmail.ch"@, 1);
    a_name_has_one_end(h, "privateemail.com"@, "proton.me"@, 1);
    a_name_has_one_end(h, "privateemail.com"@, "app.hey.com"@, 5);
    a_name_has_one_end(h, "privateemail.com"@, ".hey.com"@, 5);
    a_name_has_one_end(h, "privateemail.com"@, "tutanota.de"@, 1);
    a_name_has_one_end(h, "privateemail.com"@, "tuta.com"@, 5);
}

proof fn hosts_of_googleworkspace_google_com(front: Seq<char>)
    ensures
        mail_host_of(front + "google.com"@) == Some(MailHost::GoogleWorkspace),
{
    reveal_strlit("google.com");
    reveal_strlit("protonmail.ch");
    reveal_strlit("proton.me");
    reveal_strlit("app.hey.com");
    reveal_strlit(".hey.com");
    reveal_strlit("tutanota.de");
    reveal_strlit("tuta.com");
    reveal_strlit("privateemail.com");
    let h = front + "google.com"@;
    a_name_ends_as_it_ends(front, "google.com"@);
    a_name_has_one_end(h, "google.com"@, "protonmail.ch"@, 1);
    a_name_has_one_end(h, "google.com"@, "proton.me"@, 1);
    a_name_has_one_end(h, "google.com"@, "app.hey.com"@, 5);
    a_name_has_one_end(h, "google.com"@, ".hey.com"@, 5);
    a_name_has_one_end(h, "google.com"@, "tutanota.de"@, 1);
    a_name_has_one_end(h, "google.com"@, "tuta.com"@, 5);
    a_name_has_one_end(h, "google.com"@, "privateemail.com"@, 5);
}

proof fn hosts_of_googleworkspace_googlemail_com(front: Seq<char>)
    ensures
        mail_host_of(front + "googlemail.com"@) == Some(MailHost::GoogleWorkspace),
{
    reveal_strlit("googlemail.com");
    reveal_strlit("protonmail.ch");
    reveal_strlit("proton.me");
    reveal_strlit("app.hey.com");
    reveal_strlit(".hey.com");
    reveal_strlit("tutanota.de");
    reveal_strlit("tuta.com");
    reveal_strlit("privateemail.com");
    let h = front + "googlemail.com"@;
    a_name_ends_as_it_ends(front, "googlemail.com"@);
    a_name_has_one_end(h, "googlemail.com"@, "protonmail.ch"@, 1);
    a_name_has_one_end(h, "googlemail.com"@, "proton.me"@, 1);
    a_name_has_one_end(h, "googlemail.com"@, "app.hey.com"@, 5);
    a_name_has_one_end(h, "googlemail.com"@, ".hey.com"@, 5);
    a_name_has_one_end(h, "googlemail.com"@, "tutanota.de"@, 1);
    a_name_has_one_end(h, "googlemail.com"@, "tuta.com"@, 5);
    a_name_has_one_end(h, "googlemail.com"@, "privateemail.com"@, 10);
}

proof fn hosts_of_icloud_icloud_com(front: Seq<char>)
    ensures
        mail_host_of(front + "icloud.com"@) == Some(MailHost::ICloud),
{
    reveal_strlit("icloud.com");
    reveal_strlit("protonmail.ch");
    reveal_strlit("proton.me");
    reveal_strlit("app.hey.com");
    reveal_strlit(".hey.com");
    reveal_strlit("tutanota.de");
    reveal_strlit("tuta.com");
    reveal_strlit("privateemail.com");
    reveal_strlit("google.com");
    reveal_strlit("googlemail.com");
    let h = front + "icloud.com"@;
    a_name_ends_as_it_ends(front, "icloud.com"@);
    a_name_has_one_end(h, "icloud.com"@, "protonmail.ch"@, 1);
    a_name_has_one_end(h, "icloud.com"@, "proton.me"@, 1);
    a_name_has_one_end(h, "icloud.com"@, "app.hey.com"@, 5);
    a_name_has_one_end(h, "icloud.com"@, ".hey.com"@, 5);
    a_name_has_one_end(h, "icloud.com"@, "tutanota.de"@, 1);
    a_name_has_one_end(h, "icloud.com"@, "tuta.com"@, 5);
    a_name_has_one_end(h, "icloud.com"@, "privateemail.com"@, 5);
    a_name_has_one_end(h, "icloud.com"@, "google.com"@, 5);
    a_name_has_one_end(h, "icloud.com"@, "googlemail.com"@, 5);
}

proof fn hosts_of_fastmail_messagingengine_com(front: Seq<char>)
    ensures
        mail_host_of(front + "messagingengine.com"@) == Some(MailHost::Fastmail),
{
    reveal_strlit("messagingengine.com");
    reveal_strlit("protonmail.ch");
    reveal_strlit("proton.me");
    reveal_strlit("app.hey.com");
    reveal_strlit(".hey.com");
    reveal_strlit("tutanota.de");
    reveal_strlit("tuta.com");
    reveal_strlit("privateemail.com");
    reveal_strlit("google.com");
    reveal_strlit("googlemail.com");
    reveal_strlit("icloud.com");
    let h = front + "messagingengine.com"@;
    a_name_ends_as_it_ends(front, "messagingengine.com"@);
    a_name_has_one_end(h, "messagingengine.com"@, "protonmail.ch"@, 1);
    a_name_has_one_end(h, "messagingengine.com"@, "proton.me"@, 1);
    a_name_has_one_end(h, "messagingengine.com"@, "app.hey.com"@, 5);
    a_name_has_one_end(h, "messagingengine.com"@, ".hey.com"@, 5);
    a_name_has_one_end(h, "messagingengine.com"@, "tutanota.de"@, 1);
    a_name_has_one_end(h, "messagingengine.com"@, "tuta.com"@, 5);
    a_name_has_one_end(h, "messagingengine.com"@, "privateemail.com"@, 5);
    a_name_has_one_end(h, "messagingengine.com"@, "google.com"@, 6);
    a_name_has_one_end(h, "messagingengine.com"@, "googlemail.com"@, 5);
    a_name_has_one_end(h, "messagingengine.com"@, "icloud.com"@, 5);
}

proof fn hosts_of_fastmail_fastmail_com(front: Seq<char>)
    ensures
        mail_host_of(front + "fastmail.com"@) == Some(MailHost::Fastmail),
{
    reveal_strlit("fastmail.com");
    reveal_strlit("protonmail.ch");
    reveal_strlit("proton.me");
    reveal_strlit("app.hey.com");
    reveal_strlit(".hey.com");
    reveal_strlit("tutanota.de");
    reveal_strlit("tuta.com");
    reveal_strlit("privateemail.com");
    reveal_strlit("google.com");
    reveal_strlit("googlemail.com");
    reveal_strlit("icloud.com");
    let h = front + "fastmail.com"@;
    a_name_ends_as_it_ends(front, "fastmail.com"@);
    a_name_has_one_end(h, "fastmail.com"@, "protonmail.ch"@, 1);
    a_name_has_one_end(h, "fastmail.com"@, "proton.me"@, 1);
    a_name_has_one_end(h, "fastmail.com"@, "app.hey.com"@, 5);
    a_name_has_one_end(h, "fastmail.com"@, ".hey.com"@, 5);
    a_name_has_one_end(h, "fastmail.com"@, "tutanota.de"@, 1);
    a_name_has_one_end(h, "fastmail.com"@, "tuta.com"@, 5);
    a_name_has_one_end(h, "fastmail.com"@, "privateemail.com"@, 9);
    a_name_has_one_end(h, "fastmail.com"@, "google.com"@, 5);
    a_name_has_one_end(h, "fastmail.com"@, "googlemail.com"@, 9);
    a_name_has_one_end(h, "fastmail.com"@, "icloud.com"@, 5);
}

proof fn hosts_of_microsoft365_outlook_com(front: Seq<char>)
    ensures
        mail_host_of(front + "outlook.com"@) == Some(MailHost::Microsoft365),
{
    reveal_strlit("outlook.com");
    reveal_strlit("protonmail.ch");
    reveal_strlit("proton.me");
    reveal_strlit("app.hey.com");
    reveal_strlit(".hey.com");
    reveal_strlit("tutanota.de");
    reveal_strlit("tuta.com");
    reveal_strlit("privateemail.com");
    reveal_strlit("google.com");
    reveal_strlit("googlemail.com");
    reveal_strlit("icloud.com");
    reveal_strlit("messagingengine.com");
    reveal_strlit("fastmail.com");
    let h = front + "outlook.com"@;
    a_name_ends_as_it_ends(front, "outlook.com"@);
    a_name_has_one_end(h, "outlook.com"@, "protonmail.ch"@, 1);
    a_name_has_one_end(h, "outlook.com"@, "proton.me"@, 1);
    a_name_has_one_end(h, "outlook.com"@, "app.hey.com"@, 5);
    a_name_has_one_end(h, "outlook.com"@, ".hey.com"@, 5);
    a_name_has_one_end(h, "outlook.com"@, "tutanota.de"@, 1);
    a_name_has_one_end(h, "outlook.com"@, "tuta.com"@, 5);
    a_name_has_one_end(h, "outlook.com"@, "privateemail.com"@, 5);
    a_name_has_one_end(h, "outlook.com"@, "google.com"@, 5);
    a_name_has_one_end(h, "outlook.com"@, "googlemail.com"@, 5);
    a_name_has_one_end(h, "outlook.com"@, "icloud.com"@, 5);
    a_name_has_one_end(h, "outlook.com"@, "messagingengine.com"@, 5);
    a_name_has_one_end(h, "outlook.com"@, "fastmail.com"@, 5);
}

proof fn hosts_of_zoho_zoho_com(front: Seq<char>)
    ensures
        mail_host_of(front + "zoho.com"@) == Some(MailHost::Zoho),
{
    reveal_strlit("zoho.com");
    reveal_strlit("protonmail.ch");
    reveal_strlit("proton.me");
    reveal_strlit("app.hey.com");
    reveal_strlit(".hey.com");
    reveal_strlit("tutanota.de");
    reveal_strlit("tuta.com");
    reveal_strlit("privateemail.com");
    reveal_strlit("google.com");
    reveal_strlit("googlemail.com");
    reveal_strlit("icloud.com");
    reveal_strlit("messagingengine.com");
    reveal_strlit("fastmail.com");
    reveal_strlit("outlook.com");
    reveal_strlit("protection.outlook.com");
    let h = front + "zoho.com"@;
    a_name_ends_as_it_ends(front, "zoho.com"@);
    a_name_has_one_end(h, "zoho.com"@, "protonmail.ch"@, 1);
    a_name_has_one_end(h, "zoho.com"@, "proton.me"@, 1);
    a_name_has_one_end(h, "zoho.com"@, "app.hey.com"@, 5);
    a_name_has_one_end(h, "zoho.com"@, ".hey.com"@, 5);
    a_name_has_one_end(h, "zoho.com"@, "tutanota.de"@, 1);
    a_name_has_one_end(h, "zoho.com"@, "tuta.com"@, 5);
    a_name_has_one_end(h, "zoho.com"@, "privateemail.com"@, 5);
    a_name_has_one_end(h, "zoho.com"@, "google.com"@, 5);
    a_name_has_one_end(h, "zoho.com"@, "googlemail.com"@, 5);
    a_name_has_one_end(h, "zoho.com"@, "icloud.com"@, 5);
    a_name_has_one_end(h, "zoho.com"@, "messagingengine.com"@, 5);
    a_name_has_one_end(h, "zoho.com"@, "fastmail.com"@, 5);
    a_name_has_one_end(h, "zoho.com"@, "outlook.com"@, 5);
    a_name_has_one_end(h, "zoho.com"@, "protection.outlook.com"@, 5);
}

proof fn hosts_of_zoho_zoho_eu(front: Seq<char>)
    ensures
        mail_host_of(front + "zoho.eu"@) == Some(MailHost::Zoho),
{
    reveal_strlit("zoho.eu");
    reveal_strlit("protonmail.ch");
    reveal_strlit("proton.me");
    reveal_strlit("app.hey.com");
    reveal_strlit(".hey.com");
    reveal_strlit("tutanota.de");
    reveal_strlit("tuta.com");
    reveal_strlit("privateemail.com");
    reveal_strlit("google.com");
    reveal_strlit("googlemail.com");
    reveal_strlit("icloud.com");
    reveal_strlit("messagingengine.com");
    reveal_strlit("fastmail.com");
    reveal_strlit("outlook.com");
    reveal_strlit("protection.outlook.com");
    let h = front + "zoho.eu"@;
    a_name_ends_as_it_ends(front, "zoho.eu"@);
    a_name_has_one_end(h, "zoho.eu"@, "protonmail.ch"@, 1);
    a_name_has_one_end(h, "zoho.eu"@, "proton.me"@, 1);
    a_name_has_one_end(h, "zoho.eu"@, "app.hey.com"@, 1);
    a_name_has_one_end(h, "zoho.eu"@, ".hey.com"@, 1);
    a_name_has_one_end(h, "zoho.eu"@, "tutanota.de"@, 1);
    a_name_has_one_end(h, "zoho.eu"@, "tuta.com"@, 1);
    a_name_has_one_end(h, "zoho.eu"@, "privateemail.com"@, 1);
    a_name_has_one_end(h, "zoho.eu"@, "google.com"@, 1);
    a_name_has_one_end(h, "zoho.eu"@, "googlemail.com"@, 1);
    a_name_has_one_end(h, "zoho.eu"@, "icloud.com"@, 1);
    a_name_has_one_end(h, "zoho.eu"@, "messagingengine.com"@, 1);
    a_name_has_one_end(h, "zoho.eu"@, "fastmail.com"@, 1);
    a_name_has_one_end(h, "zoho.eu"@, "outlook.com"@, 1);
    a_name_has_one_end(h, "zoho.eu"@, "protection.outlook.com"@, 1);
}

proof fn hosts_of_zoho_zohomail_com(front: Seq<char>)
    ensures
        mail_host_of(front + "zohomail.com"@) == Some(MailHost::Zoho),
{
    reveal_strlit("zohomail.com");
    reveal_strlit("protonmail.ch");
    reveal_strlit("proton.me");
    reveal_strlit("app.hey.com");
    reveal_strlit(".hey.com");
    reveal_strlit("tutanota.de");
    reveal_strlit("tuta.com");
    reveal_strlit("privateemail.com");
    reveal_strlit("google.com");
    reveal_strlit("googlemail.com");
    reveal_strlit("icloud.com");
    reveal_strlit("messagingengine.com");
    reveal_strlit("fastmail.com");
    reveal_strlit("outlook.com");
    reveal_strlit("protection.outlook.com");
    let h = front + "zohomail.com"@;
    a_name_ends_as_it_ends(front, "zohomail.com"@);
    a_name_has_one_end(h, "zohomail.com"@, "protonmail.ch"@, 1);
    a_name_has_one_end(h, "zohomail.com"@, "proton.me"@, 1);
    a_name_has_one_end(h, "zohomail.com"@, "app.hey.com"@, 5);
    a_name_has_one_end(h, "zohomail.com"@, ".hey.com"@, 5);
    a_name_has_one_end(h, "zohomail.com"@, "tutanota.de"@, 1);
    a_name_has_one_end(h, "zohomail.com"@, "tuta.com"@, 5);
    a_name_has_one_end(h, "zohomail.com"@, "privateemail.com"@, 9);
    a_name_has_one_end(h, "zohomail.com"@, "google.com"@, 5);
    a_name_has_one_end(h, "zohomail.com"@, "googlemail.com"@, 9);
    a_name_has_one_end(h, "zohomail.com"@, "icloud.com"@, 5);
    a_name_has_one_end(h, "zohomail.com"@, "messagingengine.com"@, 5);
    a_name_has_one_end(h, "zohomail.com"@, "fastmail.com"@, 9);
    a_name_has_one_end(h, "zohomail.com"@, "outlook.com"@, 5);
    a_name_has_one_end(h, "zohomail.com"@, "protection.outlook.com"@, 5);
}

proof fn hosts_of_migadu_migadu_com(front: Seq<char>)
    ensures
        mail_host_of(front + "migadu.com"@) == Some(MailHost::Migadu),
{
    reveal_strlit("migadu.com");
    reveal_strlit("protonmail.ch");
    reveal_strlit("proton.me");
    reveal_strlit("app.hey.com");
    reveal_strlit(".hey.com");
    reveal_strlit("tutanota.de");
    reveal_strlit("tuta.com");
    reveal_strlit("privateemail.com");
    reveal_strlit("google.com");
    reveal_strlit("googlemail.com");
    reveal_strlit("icloud.com");
    reveal_strlit("messagingengine.com");
    reveal_strlit("fastmail.com");
    reveal_strlit("outlook.com");
    reveal_strlit("protection.outlook.com");
    reveal_strlit("zoho.com");
    reveal_strlit("zoho.eu");
    reveal_strlit("zohomail.com");
    let h = front + "migadu.com"@;
    a_name_ends_as_it_ends(front, "migadu.com"@);
    a_name_has_one_end(h, "migadu.com"@, "protonmail.ch"@, 1);
    a_name_has_one_end(h, "migadu.com"@, "proton.me"@, 1);
    a_name_has_one_end(h, "migadu.com"@, "app.hey.com"@, 5);
    a_name_has_one_end(h, "migadu.com"@, ".hey.com"@, 5);
    a_name_has_one_end(h, "migadu.com"@, "tutanota.de"@, 1);
    a_name_has_one_end(h, "migadu.com"@, "tuta.com"@, 5);
    a_name_has_one_end(h, "migadu.com"@, "privateemail.com"@, 5);
    a_name_has_one_end(h, "migadu.com"@, "google.com"@, 5);
    a_name_has_one_end(h, "migadu.com"@, "googlemail.com"@, 5);
    a_name_has_one_end(h, "migadu.com"@, "icloud.com"@, 5);
    a_name_has_one_end(h, "migadu.com"@, "messagingengine.com"@, 5);
    a_name_has_one_end(h, "migadu.com"@, "fastmail.com"@, 5);
    a_name_has_one_end(h, "migadu.com"@, "outlook.com"@, 5);
    a_name_has_one_end(h, "migadu.com"@, "protection.outlook.com"@, 5);
    a_name_has_one_end(h, "migadu.com"@, "zoho.com"@, 5);
    a_name_has_one_end(h, "migadu.com"@, "zoho.eu"@, 1);
    a_name_has_one_end(h, "migadu.com"@, "zohomail.com"@, 5);
}

proof fn hosts_of_mailboxorg_mailbox_org(front: Seq<char>)
    ensures
        mail_host_of(front + "mailbox.org"@) == Some(MailHost::MailboxOrg),
{
    reveal_strlit("mailbox.org");
    reveal_strlit("protonmail.ch");
    reveal_strlit("proton.me");
    reveal_strlit("app.hey.com");
    reveal_strlit(".hey.com");
    reveal_strlit("tutanota.de");
    reveal_strlit("tuta.com");
    reveal_strlit("privateemail.com");
    reveal_strlit("google.com");
    reveal_strlit("googlemail.com");
    reveal_strlit("icloud.com");
    reveal_strlit("messagingengine.com");
    reveal_strlit("fastmail.com");
    reveal_strlit("outlook.com");
    reveal_strlit("protection.outlook.com");
    reveal_strlit("zoho.com");
    reveal_strlit("zoho.eu");
    reveal_strlit("zohomail.com");
    reveal_strlit("migadu.com");
    let h = front + "mailbox.org"@;
    a_name_ends_as_it_ends(front, "mailbox.org"@);
    a_name_has_one_end(h, "mailbox.org"@, "protonmail.ch"@, 1);
    a_name_has_one_end(h, "mailbox.org"@, "proton.me"@, 1);
    a_name_has_one_end(h, "mailbox.org"@, "app.hey.com"@, 1);
    a_name_has_one_end(h, "mailbox.org"@, ".hey.com"@, 1);
    a_name_has_one_end(h, "mailbox.org"@, "tutanota.de"@, 1);
    a_name_has_one_end(h, "mailbox.org"@, "tuta.com"@, 1);
    a_name_has_one_end(h, "mailbox.org"@, "privateemail.com"@, 1);
    a_name_has_one_end(h, "mailbox.org"@, "google.com"@, 1);
    a_name_has_one_end(h, "mailbox.org"@, "googlemail.com"@, 1);
    a_name_has_one_end(h, "mailbox.org"@, "icloud.com"@, 1);
    a_name_has_one_end(h, "mailbox.org"@, "messagingengine.com"@, 1);
    a_name_has_one_end(h, "mailbox.org"@, "fastmail.com"@, 1);
    a_name_has_one_end(h, "mailbox.org"@, "outlook.com"@, 1);
    a_name_has_one_end(h, "mailbox.org"@, "protection.outlook.com"@, 1);
    a_name_has_one_end(h, "mailbox.org"@, "zoho.com"@, 1);
    a_name_has_one_end(h, "mailbox.org"@, "zoho.eu"@, 1);
    a_name_has_one_end(h, "mailbox.org"@, "zohomail.com"@, 1);
    a_name_has_one_end(h, "mailbox.org"@, "migadu.com"@, 1);
}

proof fn hosts_of_posteo_posteo_de(front: Seq<char>)
    ensures
        mail_host_of(front + "posteo.de"@) == Some(MailHost::Posteo),
{
    reveal_strlit("posteo.de");
    reveal_strlit("protonmail.ch");
    reveal_strlit("proton.me");
    reveal_strlit("app.hey.com");
    reveal_strlit(".hey.com");
    reveal_strlit("tutanota.de");
    reveal_strlit("tuta.com");
    reveal_strlit("privateemail.com");
    reveal_strlit("google.com");
    reveal_strlit("googlemail.com");
    reveal_strlit("icloud.com");
    reveal_strlit("messagingengine.com");
    reveal_strlit("fastmail.com");
    reveal_strlit("outlook.com");
    reveal_strlit("protection.outlook.com");
    reveal_strlit("zoho.com");
    reveal_strlit("zoho.eu");
    reveal_strlit("zohomail.com");
    reveal_strlit("migadu.com");
    reveal_strlit("mailbox.org");
    let h = front + "posteo.de"@;
    a_name_ends_as_it_ends(front, "posteo.de"@);
    a_name_has_one_end(h, "posteo.de"@, "protonmail.ch"@, 1);
    a_name_has_one_end(h, "posteo.de"@, "proton.me"@, 2);
    a_name_has_one_end(h, "posteo.de"@, "app.hey.com"@, 1);
    a_name_has_one_end(h, "posteo.de"@, ".hey.com"@, 1);
    a_name_has_one_end(h, "posteo.de"@, "tutanota.de"@, 4);
    a_name_has_one_end(h, "posteo.de"@, "tuta.com"@, 1);
    a_name_has_one_end(h, "posteo.de"@, "privateemail.com"@, 1);
    a_name_has_one_end(h, "posteo.de"@, "google.com"@, 1);
    a_name_has_one_end(h, "posteo.de"@, "googlemail.com"@, 1);
    a_name_has_one_end(h, "posteo.de"@, "icloud.com"@, 1);
    a_name_has_one_end(h, "posteo.de"@, "messagingengine.com"@, 1);
    a_name_has_one_end(h, "posteo.de"@, "fastmail.com"@, 1);
    a_name_has_one_end(h, "posteo.de"@, "outlook.com"@, 1);
    a_name_has_one_end(h, "posteo.de"@, "protection.outlook.com"@, 1);
    a_name_has_one_end(h, "posteo.de"@, "zoho.com"@, 1);
    a_name_has_one_end(h, "posteo.de"@, "zoho.eu"@, 1);
    a_name_has_one_end(h, "posteo.de"@, "zohomail.com"@, 1);
    a_name_has_one_end(h, "posteo.de"@, "migadu.com"@, 1);
    a_name_has_one_end(h, "posteo.de"@, "mailbox.org"@, 1);
}

proof fn hosts_of_runbox_runbox_com(front: Seq<char>)
    ensures
        mail_host_of(front + "runbox.com"@) == Some(MailHost::Runbox),
{
    reveal_strlit("runbox.com");
    reveal_strlit("protonmail.ch");
    reveal_strlit("proton.me");
    reveal_strlit("app.hey.com");
    reveal_strlit(".hey.com");
    reveal_strlit("tutanota.de");
    reveal_strlit("tuta.com");
    reveal_strlit("privateemail.com");
    reveal_strlit("google.com");
    reveal_strlit("googlemail.com");
    reveal_strlit("icloud.com");
    reveal_strlit("messagingengine.com");
    reveal_strlit("fastmail.com");
    reveal_strlit("outlook.com");
    reveal_strlit("protection.outlook.com");
    reveal_strlit("zoho.com");
    reveal_strlit("zoho.eu");
    reveal_strlit("zohomail.com");
    reveal_strlit("migadu.com");
    reveal_strlit("mailbox.org");
    reveal_strlit("posteo.de");
    let h = front + "runbox.com"@;
    a_name_ends_as_it_ends(front, "runbox.com"@);
    a_name_has_one_end(h, "runbox.com"@, "protonmail.ch"@, 1);
    a_name_has_one_end(h, "runbox.com"@, "proton.me"@, 1);
    a_name_has_one_end(h, "runbox.com"@, "app.hey.com"@, 5);
    a_name_has_one_end(h, "runbox.com"@, ".hey.com"@, 5);
    a_name_has_one_end(h, "runbox.com"@, "tutanota.de"@, 1);
    a_name_has_one_end(h, "runbox.com"@, "tuta.com"@, 5);
    a_name_has_one_end(h, "runbox.com"@, "privateemail.com"@, 5);
    a_name_has_one_end(h, "runbox.com"@, "google.com"@, 5);
    a_name_has_one_end(h, "runbox.com"@, "googlemail.com"@, 5);
    a_name_has_one_end(h, "runbox.com"@, "icloud.com"@, 5);
    a_name_has_one_end(h, "runbox.com"@, "messagingengine.com"@, 5);
    a_name_has_one_end(h, "runbox.com"@, "fastmail.com"@, 5);
    a_name_has_one_end(h, "runbox.com"@, "outlook.com"@, 5);
    a_name_has_one_end(h, "runbox.com"@, "protection.outlook.com"@, 5);
    a_name_has_one_end(h, "runbox.com"@, "zoho.com"@, 5);
    a_name_has_one_end(h, "runbox.com"@, "zoho.eu"@, 1);
    a_name_has_one_end(h, "runbox.com"@, "zohomail.com"@, 5);
    a_name_has_one_end(h, "runbox.com"@, "migadu.com"@, 5);
    a_name_has_one_end(h, "runbox.com"@, "mailbox.org"@, 1);
    a_name_has_one_end(h, "runbox.com"@, "posteo.de"@, 1);
}

proof fn hosts_of_purelymail_purelymail_com(front: Seq<char>)
    ensures
        mail_host_of(front + "purelymail.com"@) == Some(MailHost::Purelymail),
{
    reveal_strlit("purelymail.com");
    reveal_strlit("protonmail.ch");
    reveal_strlit("proton.me");
    reveal_strlit("app.hey.com");
    reveal_strlit(".hey.com");
    reveal_strlit("tutanota.de");
    reveal_strlit("tuta.com");
    reveal_strlit("privateemail.com");
    reveal_strlit("google.com");
    reveal_strlit("googlemail.com");
    reveal_strlit("icloud.com");
    reveal_strlit("messagingengine.com");
    reveal_strlit("fastmail.com");
    reveal_strlit("outlook.com");
    reveal_strlit("protection.outlook.com");
    reveal_strlit("zoho.com");
    reveal_strlit("zoho.eu");
    reveal_strlit("zohomail.com");
    reveal_strlit("migadu.com");
    reveal_strlit("mailbox.org");
    reveal_strlit("posteo.de");
    reveal_strlit("runbox.com");
    let h = front + "purelymail.com"@;
    a_name_ends_as_it_ends(front, "purelymail.com"@);
    a_name_has_one_end(h, "purelymail.com"@, "protonmail.ch"@, 1);
    a_name_has_one_end(h, "purelymail.com"@, "proton.me"@, 1);
    a_name_has_one_end(h, "purelymail.com"@, "app.hey.com"@, 5);
    a_name_has_one_end(h, "purelymail.com"@, ".hey.com"@, 5);
    a_name_has_one_end(h, "purelymail.com"@, "tutanota.de"@, 1);
    a_name_has_one_end(h, "purelymail.com"@, "tuta.com"@, 5);
    a_name_has_one_end(h, "purelymail.com"@, "privateemail.com"@, 9);
    a_name_has_one_end(h, "purelymail.com"@, "google.com"@, 5);
    a_name_has_one_end(h, "purelymail.com"@, "googlemail.com"@, 9);
    a_name_has_one_end(h, "purelymail.com"@, "icloud.com"@, 5);
    a_name_has_one_end(h, "purelymail.com"@, "messagingengine.com"@, 5);
    a_name_has_one_end(h, "purelymail.com"@, "fastmail.com"@, 9);
    a_name_has_one_end(h, "purelymail.com"@, "outlook.com"@, 5);
    a_name_has_one_end(h, "purelymail.com"@, "protection.outlook.com"@, 5);
    a_name_has_one_end(h, "purelymail.com"@, "zoho.com"@, 5);
    a_name_has_one_end(h, "purelymail.com"@, "zoho.eu"@, 1);
    a_name_has_one_end(h, "purelymail.com"@, "zohomail.com"@, 9);
    a_name_has_one_end(h, "purelymail.com"@, "migadu.com"@, 5);
    a_name_has_one_end(h, "purelymail.com"@, "mailbox.org"@, 1);
    a_name_has_one_end(h, "purelymail.com"@, "posteo.de"@, 1);
    a_name_has_one_end(h, "purelymail.com"@, "runbox.com"@, 5);
}

proof fn hosts_of_mxroute_mxrouting_net(front: Seq<char>)
    ensures
        mail_host_of(front + "mxrouting.net"@) == Some(MailHost::MXroute),
{
    reveal_strlit("mxrouting.net");
    reveal_strlit("protonmail.ch");
    reveal_strlit("proton.me");
    reveal_strlit("app.hey.com");
    reveal_strlit(".hey.com");
    reveal_strlit("tutanota.de");
    reveal_strlit("tuta.com");
    reveal_strlit("privateemail.com");
    reveal_strlit("google.com");
    reveal_strlit("googlemail.com");
    reveal_strlit("icloud.com");
    reveal_strlit("messagingengine.com");
    reveal_strlit("fastmail.com");
    reveal_strlit("outlook.com");
    reveal_strlit("protection.outlook.com");
    reveal_strlit("zoho.com");
    reveal_strlit("zoho.eu");
    reveal_strlit("zohomail.com");
    reveal_strlit("migadu.com");
    reveal_strlit("mailbox.org");
    reveal_strlit("posteo.de");
    reveal_strlit("runbox.com");
    reveal_strlit("purelymail.com");
    let h = front + "mxrouting.net"@;
    a_name_ends_as_it_ends(front, "mxrouting.net"@);
    a_name_has_one_end(h, "mxrouting.net"@, "protonmail.ch"@, 1);
    a_name_has_one_end(h, "mxrouting.net"@, "proton.me"@, 1);
    a_name_has_one_end(h, "mxrouting.net"@, "app.hey.com"@, 1);
    a_name_has_one_end(h, "mxrouting.net"@, ".hey.com"@, 1);
    a_name_has_one_end(h, "mxrouting.net"@, "tutanota.de"@, 1);
    a_name_has_one_end(h, "mxrouting.net"@, "tuta.com"@, 1);
    a_name_has_one_end(h, "mxrouting.net"@, "privateemail.com"@, 1);
    a_name_has_one_end(h, "mxrouting.net"@, "google.com"@, 1);
    a_name_has_one_end(h, "mxrouting.net"@, "googlemail.com"@, 1);
    a_name_has_one_end(h, "mxrouting.net"@, "icloud.com"@, 1);
    a_name_has_one_end(h, "mxrouting.net"@, "messagingengine.com"@, 1);
    a_name_has_one_end(h, "mxrouting.net"@, "fastmail.com"@, 1);
    a_name_has_one_end(h, "mxrouting.net"@, "outlook.com"@, 1);
    a_name_has_one_end(h, "mxrouting.net"@, "protection.outlook.com"@, 1);
    a_name_has_one_end(h, "mxrouting.net"@, "zoho.com"@, 1);
    a_name_has_one_end(h, "mxrouting.net"@, "zoho.eu"@, 1);
    a_name_has_one_end(h, "mxrouting.net"@, "zohomail.com"@, 1);
    a_name_has_one_end(h, "mxrouting.net"@, "migadu.com"@, 1);
    a_name_has_one_end(h, "mxrouting.net"@, "mailbox.org"@, 1);
    a_name_has_one_end(h, "mxrouting.net"@, "posteo.de"@, 1);
    a_name_has_one_end(h, "mxrouting.net"@, "runbox.com"@, 1);
    a_name_has_one_end(h, "mxrouting.net"@, "purelymail.com"@, 1);
}

proof fn hosts_of_mxroute_mxroute_com(front: Seq<char>)
    ensures
        mail_host_of(front + "mxroute.com"@) == Some(MailHost::MXroute),
{
    reveal_strlit("mxroute.com");
    reveal_strlit("protonmail.ch");
    reveal_strlit("proton.me");
    reveal_strlit("app.hey.com");
    reveal_strlit(".hey.com");
    reveal_strlit("tutanota.de");
    reveal_strlit("tuta.com");
    reveal_strlit("privateemail.com");
    reveal_strlit("google.com");
    reveal_strlit("googlemail.com");
    reveal_strlit("icloud.com");
    reveal_strlit("messagingengine.com");
    reveal_strlit("fastmail.com");
    reveal_strlit("outlook.com");
    reveal_strlit("protection.outlook.com");
    reveal_strlit("zoho.com");
    reveal_strlit("zoho.eu");
    reveal_strlit("zohomail.com");
    reveal_strlit("migadu.com");
    reveal_strlit("mailbox.org");
    reveal_strlit("posteo.de");
    reveal_strlit("runbox.com");
    reveal_strlit("purelymail.com");
    let h = front + "mxroute.com"@;
    a_name_ends_as_it_ends(front, "mxroute.com"@);
    a_name_has_one_end(h, "mxroute.com"@, "protonmail.ch"@, 1);
    a_name_has_one_end(h, "mxroute.com"@, "proton.me"@, 1);
    a_name_has_one_end(h, "mxroute.com"@, "app.hey.com"@, 5);
    a_name_has_one_end(h, "mxroute.com"@, ".hey.com"@, 5);
    a_name_has_one_end(h, "mxroute.com"@, "tutanota.de"@, 1);
    a_name_has_one_end(h, "mxroute.com"@, "tuta.com"@, 5);
    a_name_has_one_end(h, "mxroute.com"@, "privateemail.com"@, 5);
    a_name_has_one_end(h, "mxroute.com"@, "google.com"@, 6);
    a_name_has_one_end(h, "mxroute.com"@, "googlemail.com"@, 5);
    a_name_has_one_end(h, "mxroute.com"@, "icloud.com"@, 5);
    a_name_has_one_end(h, "mxroute.com"@, "messagingengine.com"@, 6);
    a_name_has_one_end(h, "mxroute.com"@, "fastmail.com"@, 5);
    a_name_has_one_end(h, "mxroute.com"@, "outlook.com"@, 5);
    a_name_has_one_end(h, "mxroute.com"@, "protection.outlook.com"@, 5);
    a_name_has_one_end(h, "mxroute.com"@, "zoho.com"@, 5);
    a_name_has_one_end(h, "mxroute.com"@, "zoho.eu"@, 1);
    a_name_has_one_end(h, "mxroute.com"@, "zohomail.com"@, 5);
    a_name_has_one_end(h, "mxroute.com"@, "migadu.com"@, 5);
    a_name_has_one_end(h, "mxroute.com"@, "mailbox.org"@, 1);
    a_name_has_one_end(h, "mxroute.com"@, "posteo.de"@, 1);
    a_name_has_one_end(h, "mxroute.com"@, "runbox.com"@, 5);
    a_name_has_one_end(h, "mxroute.com"@, "purelymail.com"@, 5);
}

proof fn hosts_of_ionos_1and1_com(front: Seq<char>)
    ensures
        mail_host_of(front + "1and1.com"@) == Some(MailHost::Ionos),
{
    reveal_strlit("1and1.com");
    reveal_strlit("protonmail.ch");
    reveal_strlit("proton.me");
    reveal_strlit("app.hey.com");
    reveal_strlit(".hey.com");
    reveal_strlit("tutanota.de");
    reveal_strlit("tuta.com");
    reveal_strlit("privateemail.com");
    reveal_strlit("google.com");
    reveal_strlit("googlemail.com");
    reveal_strlit("icloud.com");
    reveal_strlit("messagingengine.com");
    reveal_strlit("fastmail.com");
    reveal_strlit("outlook.com");
    reveal_strlit("protection.outlook.com");
    reveal_strlit("zoho.com");
    reveal_strlit("zoho.eu");
    reveal_strlit("zohomail.com");
    reveal_strlit("migadu.com");
    reveal_strlit("mailbox.org");
    reveal_strlit("posteo.de");
    reveal_strlit("runbox.com");
    reveal_strlit("purelymail.com");
    reveal_strlit("mxrouting.net");
    reveal_strlit("mxroute.com");
    let h = front + "1and1.com"@;
    a_name_ends_as_it_ends(front, "1and1.com"@);
    a_name_has_one_end(h, "1and1.com"@, "protonmail.ch"@, 1);
    a_name_has_one_end(h, "1and1.com"@, "proton.me"@, 1);
    a_name_has_one_end(h, "1and1.com"@, "app.hey.com"@, 5);
    a_name_has_one_end(h, "1and1.com"@, ".hey.com"@, 5);
    a_name_has_one_end(h, "1and1.com"@, "tutanota.de"@, 1);
    a_name_has_one_end(h, "1and1.com"@, "tuta.com"@, 5);
    a_name_has_one_end(h, "1and1.com"@, "privateemail.com"@, 5);
    a_name_has_one_end(h, "1and1.com"@, "google.com"@, 5);
    a_name_has_one_end(h, "1and1.com"@, "googlemail.com"@, 5);
    a_name_has_one_end(h, "1and1.com"@, "icloud.com"@, 5);
    a_name_has_one_end(h, "1and1.com"@, "messagingengine.com"@, 5);
    a_name_has_one_end(h, "1and1.com"@, "fastmail.com"@, 5);
    a_name_has_one_end(h, "1and1.com"@, "outlook.com"@, 5);
    a_name_has_one_end(h, "1and1.com"@, "protection.outlook.com"@, 5);
    a_name_has_one_end(h, "1and1.com"@, "zoho.com"@, 5);
    a_name_has_one_end(h, "1and1.com"@, "zoho.eu"@, 1);
    a_name_has_one_end(h, "1and1.com"@, "zohomail.com"@, 5);
    a_name_has_one_end(h, "1and1.com"@, "migadu.com"@, 5);
    a_name_has_one_end(h, "1and1.com"@, "mailbox.org"@, 1);
    a_name_has_one_end(h, "1and1.com"@, "posteo.de"@, 1);
    a_name_has_one_end(h, "1and1.com"@, "runbox.com"@, 5);
    a_name_has_one_end(h, "1and1.com"@, "purelymail.com"@, 5);
    a_name_has_one_end(h, "1and1.com"@, "mxrouting.net"@, 1);
    a_name_has_one_end(h, "1and1.com"@, "mxroute.com"@, 5);
}

proof fn hosts_of_ionos_ionos_com(front: Seq<char>)
    ensures
        mail_host_of(front + "ionos.com"@) == Some(MailHost::Ionos),
{
    reveal_strlit("ionos.com");
    reveal_strlit("protonmail.ch");
    reveal_strlit("proton.me");
    reveal_strlit("app.hey.com");
    reveal_strlit(".hey.com");
    reveal_strlit("tutanota.de");
    reveal_strlit("tuta.com");
    reveal_strlit("privateemail.com");
    reveal_strlit("google.com");
    reveal_strlit("googlemail.com");
    reveal_strlit("icloud.com");
    reveal_strlit("messagingengine.com");
    reveal_strlit("fastmail.com");
    reveal_strlit("outlook.com");
    reveal_strlit("protection.outlook.com");
    reveal_strlit("zoho.com");
    reveal_strlit("zoho.eu");
    reveal_strlit("zohomail.com");
    reveal_strlit("migadu.com");
    reveal_strlit("mailbox.org");
    reveal_strlit("posteo.de");
    reveal_strlit("runbox.com");
    reveal_strlit("purelymail.com");
    reveal_strlit("mxrouting.net");
    reveal_strlit("mxroute.com");
    let h = front + "ionos.com"@;
    a_name_ends_as_it_ends(front, "ionos.com"@);
    a_name_has_one_end(h, "ionos.com"@, "protonmail.ch"@, 1);
    a_name_has_one_end(h, "ionos.com"@, "proton.me"@, 1);
    a_name_has_one_end(h, "ionos.com"@, "app.hey.com"@, 5);
    a_name_has_one_end(h, "ionos.com"@, ".hey.com"@, 5);
    a_name_has_one_end(h, "ionos.com"@, "tutanota.de"@, 1);
    a_name_has_one_end(h, "ionos.com"@, "tuta.com"@, 5);
    a_name_has_one_end(h, "ionos.com"@, "privateemail.com"@, 5);
    a_name_has_one_end(h, "ionos.com"@, "google.com"@, 5);
    a_name_has_one_end(h, "ionos.com"@, "googlemail.com"@, 5);
    a_name_has_one_end(h, "ionos.com"@, "icloud.com"@, 5);
    a_name_has_one_end(h, "ionos.com"@, "messagingengine.com"@, 5);
    a_name_has_one_end(h, "ionos.com"@, "fastmail.com"@, 5);
    a_name_has_one_end(h, "ionos.com"@, "outlook.com"@, 5);
    a_name_has_one_end(h, "ionos.com"@, "protection.outlook.com"@, 5);
    a_name_has_one_end(h, "ionos.com"@, "zoho.com"@, 5);
    a_name_has_one_end(h, "ionos.com"@, "zoho.eu"@, 1);
    a_name_has_one_end(h, "ionos.com"@, "zohomail.com"@, 5);
    a_name_has_one_end(h, "ionos.com"@, "migadu.com"@, 5);
    a_name_has_one_end(h, "ionos.com"@, "mailbox.org"@, 1);
    a_name_has_one_end(h, "ionos.com"@, "posteo.de"@, 1);
    a_name_has_one_end(h, "ionos.com"@, "runbox.com"@, 5);
    a_name_has_one_end(h, "ionos.com"@, "purelymail.com"@, 5);
    a_name_has_one_end(h, "ionos.com"@, "mxrouting.net"@, 1);
    a_name_has_one_end(h, "ionos.com"@, "mxroute.com"@, 5);
}

proof fn hosts_of_ionos_ionos_de(front: Seq<char>)
    ensures
        mail_host_of(front + "ionos.de"@) == Some(MailHost::Ionos),
{
    reveal_strlit("ionos.de");
    reveal_strlit("protonmail.ch");
    reveal_strlit("proton.me");
    reveal_strlit("app.hey.com");
    reveal_strlit(".hey.com");
    reveal_strlit("tutanota.de");
    reveal_strlit("tuta.com");
    reveal_strlit("privateemail.com");
    reveal_strlit("google.com");
    reveal_strlit("googlemail.com");
    reveal_strlit("icloud.com");
    reveal_strlit("messagingengine.com");
    reveal_strlit("fastmail.com");
    reveal_strlit("outlook.com");
    reveal_strlit("protection.outlook.com");
    reveal_strlit("zoho.com");
    reveal_strlit("zoho.eu");
    reveal_strlit("zohomail.com");
    reveal_strlit("migadu.com");
    reveal_strlit("mailbox.org");
    reveal_strlit("posteo.de");
    reveal_strlit("runbox.com");
    reveal_strlit("purelymail.com");
    reveal_strlit("mxrouting.net");
    reveal_strlit("mxroute.com");
    let h = front + "ionos.de"@;
    a_name_ends_as_it_ends(front, "ionos.de"@);
    a_name_has_one_end(h, "ionos.de"@, "protonmail.ch"@, 1);
    a_name_has_one_end(h, "ionos.de"@, "proton.me"@, 2);
    a_name_has_one_end(h, "ionos.de"@, "app.hey.com"@, 1);
    a_name_has_one_end(h, "ionos.de"@, ".hey.com"@, 1);
    a_name_has_one_end(h, "ionos.de"@, "tutanota.de"@, 4);
    a_name_has_one_end(h, "ionos.de"@, "tuta.com"@, 1);
    a_name_has_one_end(h, "ionos.de"@, "privateemail.com"@, 1);
    a_name_has_one_end(h, "ionos.de"@, "google.com"@, 1);
    a_name_has_one_end(h, "ionos.de"@, "googlemail.com"@, 1);
    a_name_has_one_end(h, "ionos.de"@, "icloud.com"@, 1);
    a_name_has_one_end(h, "ionos.de"@, "messagingengine.com"@, 1);
    a_name_has_one_end(h, "ionos.de"@, "fastmail.com"@, 1);
    a_name_has_one_end(h, "ionos.de"@, "outlook.com"@, 1);
    a_name_has_one_end(h, "ionos.de"@, "protection.outlook.com"@, 1);
    a_name_has_one_end(h, "ionos.de"@, "zoho.com"@, 1);
    a_name_has_one_end(h, "ionos.de"@, "zoho.eu"@, 1);
    a_name_has_one_end(h, "ionos.de"@, "zohomail.com"@, 1);
    a_name_has_one_end(h, "ionos.de"@, "migadu.com"@, 1);
    a_name_has_one_end(h, "ionos.de"@, "mailbox.org"@, 1);
    a_name_has_one_end(h, "ionos.de"@, "posteo.de"@, 4);
    a_name_has_one_end(h, "ionos.de"@, "runbox.com"@, 1);
    a_name_has_one_end(h, "ionos.de"@, "purelymail.com"@, 1);
    a_name_has_one_end(h, "ionos.de"@, "mxrouting.net"@, 1);
    a_name_has_one_end(h, "ionos.de"@, "mxroute.com"@, 1);
}

proof fn hosts_of_gmx_gmx_net(front: Seq<char>)
    ensures
        mail_host_of(front + "gmx.net"@) == Some(MailHost::Gmx),
{
    reveal_strlit("gmx.net");
    reveal_strlit("protonmail.ch");
    reveal_strlit("proton.me");
    reveal_strlit("app.hey.com");
    reveal_strlit(".hey.com");
    reveal_strlit("tutanota.de");
    reveal_strlit("tuta.com");
    reveal_strlit("privateemail.com");
    reveal_strlit("google.com");
    reveal_strlit("googlemail.com");
    reveal_strlit("icloud.com");
    reveal_strlit("messagingengine.com");
    reveal_strlit("fastmail.com");
    reveal_strlit("outlook.com");
    reveal_strlit("protection.outlook.com");
    reveal_strlit("zoho.com");
    reveal_strlit("zoho.eu");
    reveal_strlit("zohomail.com");
    reveal_strlit("migadu.com");
    reveal_strlit("mailbox.org");
    reveal_strlit("posteo.de");
    reveal_strlit("runbox.com");
    reveal_strlit("purelymail.com");
    reveal_strlit("mxrouting.net");
    reveal_strlit("mxroute.com");
    reveal_strlit("1and1.com");
    reveal_strlit("ionos.com");
    reveal_strlit("ionos.de");
    let h = front + "gmx.net"@;
    a_name_ends_as_it_ends(front, "gmx.net"@);
    a_name_has_one_end(h, "gmx.net"@, "protonmail.ch"@, 1);
    a_name_has_one_end(h, "gmx.net"@, "proton.me"@, 1);
    a_name_has_one_end(h, "gmx.net"@, "app.hey.com"@, 1);
    a_name_has_one_end(h, "gmx.net"@, ".hey.com"@, 1);
    a_name_has_one_end(h, "gmx.net"@, "tutanota.de"@, 1);
    a_name_has_one_end(h, "gmx.net"@, "tuta.com"@, 1);
    a_name_has_one_end(h, "gmx.net"@, "privateemail.com"@, 1);
    a_name_has_one_end(h, "gmx.net"@, "google.com"@, 1);
    a_name_has_one_end(h, "gmx.net"@, "googlemail.com"@, 1);
    a_name_has_one_end(h, "gmx.net"@, "icloud.com"@, 1);
    a_name_has_one_end(h, "gmx.net"@, "messagingengine.com"@, 1);
    a_name_has_one_end(h, "gmx.net"@, "fastmail.com"@, 1);
    a_name_has_one_end(h, "gmx.net"@, "outlook.com"@, 1);
    a_name_has_one_end(h, "gmx.net"@, "protection.outlook.com"@, 1);
    a_name_has_one_end(h, "gmx.net"@, "zoho.com"@, 1);
    a_name_has_one_end(h, "gmx.net"@, "zoho.eu"@, 1);
    a_name_has_one_end(h, "gmx.net"@, "zohomail.com"@, 1);
    a_name_has_one_end(h, "gmx.net"@, "migadu.com"@, 1);
    a_name_has_one_end(h, "gmx.net"@, "mailbox.org"@, 1);
    a_name_has_one_end(h, "gmx.net"@, "posteo.de"@, 1);
    a_name_has_one_end(h, "gmx.net"@, "runbox.com"@, 1);
    a_name_has_one_end(h, "gmx.net"@, "purelymail.com"@, 1);
    a_name_has_one_end(h, "gmx.net"@, "mxrouting.net"@, 5);
    a_name_has_one_end(h, "gmx.net"@, "mxroute.com"@, 1);
    a_name_has_one_end(h, "gmx.net"@, "1and1.com"@, 1);
    a_name_has_one_end(h, "gmx.net"@, "ionos.com"@, 1);
    a_name_has_one_end(h, "gmx.net"@, "ionos.de"@, 1);
}

proof fn hosts_of_yahoo_yahoodns_net(front: Seq<char>)
    ensures
        mail_host_of(front + "yahoodns.net"@) == Some(
            if has(front + "yahoodns.net"@, "aol"@) {
                MailHost::Aol
            } else {
                MailHost::Yahoo
            },
        ),
{
    reveal_strlit("yahoodns.net");
    reveal_strlit("protonmail.ch");
    reveal_strlit("proton.me");
    reveal_strlit("app.hey.com");
    reveal_strlit(".hey.com");
    reveal_strlit("tutanota.de");
    reveal_strlit("tuta.com");
    reveal_strlit("privateemail.com");
    reveal_strlit("google.com");
    reveal_strlit("googlemail.com");
    reveal_strlit("icloud.com");
    reveal_strlit("messagingengine.com");
    reveal_strlit("fastmail.com");
    reveal_strlit("outlook.com");
    reveal_strlit("protection.outlook.com");
    reveal_strlit("zoho.com");
    reveal_strlit("zoho.eu");
    reveal_strlit("zohomail.com");
    reveal_strlit("migadu.com");
    reveal_strlit("mailbox.org");
    reveal_strlit("posteo.de");
    reveal_strlit("runbox.com");
    reveal_strlit("purelymail.com");
    reveal_strlit("mxrouting.net");
    reveal_strlit("mxroute.com");
    reveal_strlit("1and1.com");
    reveal_strlit("ionos.com");
    reveal_strlit("ionos.de");
    reveal_strlit("emig.gmx.net");
    reveal_strlit("gmx.net");
    let h = front + "yahoodns.net"@;
    a_name_ends_as_it_ends(front, "yahoodns.net"@);
    a_name_has_one_end(h, "yahoodns.net"@, "protonmail.ch"@, 1);
    a_name_has_one_end(h, "yahoodns.net"@, "proton.me"@, 1);
    a_name_has_one_end(h, "yahoodns.net"@, "app.hey.com"@, 1);
    a_name_has_one_end(h, "yahoodns.net"@, ".hey.com"@, 1);
    a_name_has_one_end(h, "yahoodns.net"@, "tutanota.de"@, 1);
    a_name_has_one_end(h, "yahoodns.net"@, "tuta.com"@, 1);
    a_name_has_one_end(h, "yahoodns.net"@, "privateemail.com"@, 1);
    a_name_has_one_end(h, "yahoodns.net"@, "google.com"@, 1);
    a_name_has_one_end(h, "yahoodns.net"@, "googlemail.com"@, 1);
    a_name_has_one_end(h, "yahoodns.net"@, "icloud.com"@, 1);
    a_name_has_one_end(h, "yahoodns.net"@, "messagingengine.com"@, 1);
    a_name_has_one_end(h, "yahoodns.net"@, "fastmail.com"@, 1);
    a_name_has_one_end(h, "yahoodns.net"@, "outlook.com"@, 1);
    a_name_has_one_end(h, "yahoodns.net"@, "protection.outlook.com"@, 1);
    a_name_has_one_end(h, "yahoodns.net"@, "zoho.com"@, 1);
    a_name_has_one_end(h, "yahoodns.net"@, "zoho.eu"@, 1);
    a_name_has_one_end(h, "yahoodns.net"@, "zohomail.com"@, 1);
    a_name_has_one_end(h, "yahoodns.net"@, "migadu.com"@, 1);
    a_name_has_one_end(h, "yahoodns.net"@, "mailbox.org"@, 1);
    a_name_has_one_end(h, "yahoodns.net"@, "posteo.de"@, 1);
    a_name_has_one_end(h, "yahoodns.net"@, "runbox.com"@, 1);
    a_name_has_one_end(h, "yahoodns.net"@, "purelymail.com"@, 1);
    a_name_has_one_end(h, "yahoodns.net"@, "mxrouting.net"@, 5);
    a_name_has_one_end(h, "yahoodns.net"@, "mxroute.com"@, 1);
    a_name_has_one_end(h, "yahoodns.net"@, "1and1.com"@, 1);
    a_name_has_one_end(h, "yahoodns.net"@, "ionos.com"@, 1);
    a_name_has_one_end(h, "yahoodns.net"@, "ionos.de"@, 1);
    a_name_has_one_end(h, "yahoodns.net"@, "emig.gmx.net"@, 5);
    a_name_has_one_end(h, "yahoodns.net"@, "gmx.net"@, 5);
}

/// A company is told by how the names of its mail hosts end, whatever stands
/// in front.
pub proof fn a_company_is_told_by_how_its_hosts_end(front: Seq<char>)
    ensures
        mail_host_of(front + "protonmail.ch"@) == Some(MailHost::Proton),
        mail_host_of(front + "proton.me"@) == Some(MailHost::Proton),
        mail_host_of(front + "app.hey.com"@) == Some(MailHost::Hey),
        mail_host_of(front + ".hey.com"@) == Some(MailHost::Hey),
        mail_host_of(front + "tutanota.de"@) == Some(MailHost::Tuta),
        mail_host_of(front + "tuta.com"@) == Some(MailHost::Tuta),
        mail_host_of(front + "privateemail.com"@) == Some(MailHost::PrivateEmail),
        mail_host_of(front + "google.com"@) == Some(MailHost::GoogleWorkspace),
        mail_host_of(front + "googlemail.com"@) == Some(MailHost::GoogleWorkspace),
        mail_host_of(front + "icloud.com"@) == Some(MailHost::ICloud),
        mail_host_of(front + "messagingengine.com"@) == Some(MailHost::Fastmail),
        mail_host_of(front + "fastmail.com"@) == Some(MailHost::Fastmail),
        mail_host_of(front + "outlook.com"@) == Some(MailHost::Microsoft365),
        mail_host_of(front + "zoho.com"@) == Some(MailHost::Zoho),
        mail_host_of(front + "zoho.eu"@) == Some(MailHost::Zoho),
        mail_host_of(front + "zohomail.com"@) == Some(MailHost::Zoho),
        mail_host_of(front + "migadu.com"@) == Some(MailHost::Migadu),
        mail_host_of(front + "mailbox.org"@) == Some(MailHost::MailboxOrg),
        mail_host_of(front + "posteo.de"@) == Some(MailHost::Posteo),
        mail_host_of(front + "runbox.com"@) == Some(MailHost::Runbox),
        mail_host_of(front + "purelymail.com"@) == Some(MailHost::Purelymail),
        mail_host_of(front + "mxrouting.net"@) == Some(MailHost::MXroute),
        mail_host_of(front + "mxroute.com"@) == Some(MailHost::MXroute),
        mail_host_of(front + "1and1.com"@) == Some(MailHost::Ionos),
        mail_host_of(front + "ionos.com"@) == Some(MailHost::Ionos),
        mail_host_of(front + "ionos.de"@) == Some(MailHost::Ionos),
        mail_host_of(front + "gmx.net"@) == Some(MailHost::Gmx),
        mail_host_of(front + "yahoodns.net"@) == Some(
            if has(front + "yahoodns.net"@, "aol"@) {
                MailHost::Aol
            } else {
                MailHost::Yahoo
            },
        ),
{
    hosts_of_proton_protonmail_ch(front);
    hosts_of_proton_proton_me(front);
    hosts_of_hey_app_hey_com(front);
    hosts_of_hey_hey_com(front);
    hosts_of_tuta_tutanota_de(front);
    hosts_of_tuta_tuta_com(front);
    hosts_of_privateemail_privateemail_com(front);
    hosts_of_googleworkspace_google_com(front);
    hosts_of_googleworkspace_googlemail_com(front);
    hosts_of_icloud_icloud_com(front);
    hosts_of_fastmail_messagingengine_com(front);
    hosts_of_fastmail_fastmail_com(front);
    hosts_of_microsoft365_outlook_com(front);
    hosts_of_zoho_zoho_com(front);
    hosts_of_zoho_zoho_eu(front);
    hosts_of_zoho_zohomail_com(front);
    hosts_of_migadu_migadu_com(front);
    hosts_of_mailboxorg_mailbox_org(front);
    hosts_of_posteo_posteo_de(front);
    hosts_of_runbox_runbox_com(front);
    hosts_of_purelymail_purelymail_com(front);
    hosts_of_mxroute_mxrouting_net(front);
    hosts_of_mxroute_mxroute_com(front);
    hosts_of_ionos_1and1_com(front);
    hosts_of_ionos_ionos_com(front);
    hosts_of_ionos_ionos_de(front);
    hosts_of_gmx_gmx_net(front);
    hosts_of_yahoo_yahoodns_net(front);
}

/// A company is reached the same way whether it is known by the address or by
/// where the domain's mail goes. What has no IMAP has no settings.
pub proof fn a_company_is_reached_one_way(h: Seq<char>)
    ensures
        host_settings(MailHost::ICloud, h) == Ok::<Settings, Seq<char>>(
            Settings { via: Via::Mx, ..provider_settings(Provider::ICloud) },
        ),
        host_settings(MailHost::Fastmail, h) == Ok::<Settings, Seq<char>>(
            Settings { via: Via::Mx, ..provider_settings(Provider::Fastmail) },
        ),
        host_settings(MailHost::GoogleWorkspace, h) == Ok::<Settings, Seq<char>>(
            Settings {
                via: Via::Mx,
                provider: "Google Workspace"@,
                ..provider_settings(Provider::Gmail)
            },
        ),
        host_settings(MailHost::Microsoft365, h) matches Ok(s) && s.imap == provider_settings(
            Provider::Outlook,
        ).imap && s.auth == provider_settings(Provider::Outlook).auth,
        host_settings(MailHost::Proton, h) is Err,
        host_settings(MailHost::Hey, h) is Err,
        host_settings(MailHost::Tuta, h) is Err,
{
}

/// A server is named after the company: by `imap.` and `smtp.` before its own
/// name, or by the one name it has for both.
pub proof fn a_server_is_named_after_its_company(h: Seq<char>)
    ensures
        host_settings(MailHost::Migadu, h) matches Ok(s) && s.imap.host == "imap."@ + "migadu.com"@
            && s.smtp.host == "smtp."@ + "migadu.com"@,
        host_settings(MailHost::MailboxOrg, h) matches Ok(s) && s.imap.host == "imap."@
            + "mailbox.org"@ && s.smtp.host == "smtp."@ + "mailbox.org"@,
        host_settings(MailHost::Zoho, h) matches Ok(s) && s.imap.host == "imap."@ + "zoho.com"@
            && s.smtp.host == "smtp."@ + "zoho.com"@,
        host_settings(MailHost::Ionos, h) matches Ok(s) && s.imap.host == "imap."@ + "ionos.com"@
            && s.smtp.host == "smtp."@ + "ionos.com"@,
        host_settings(MailHost::Aol, h) matches Ok(s) && s.imap.host == "imap."@ + "aol.com"@
            && s.smtp.host == "smtp."@ + "aol.com"@,
        host_settings(MailHost::Yahoo, h) matches Ok(s) && s.imap.host == "imap."@
            + "mail.yahoo.com"@ && s.smtp.host == "smtp."@ + "mail.yahoo.com"@,
        host_settings(MailHost::Gmx, h) matches Ok(s) && s.imap.host == "imap."@ + "gmx.net"@
            && s.smtp.host == "mail."@ + "gmx.net"@,
        host_settings(MailHost::PrivateEmail, h) matches Ok(s) && s.imap.host == "mail."@
            + "privateemail.com"@ && s.smtp.host == s.imap.host,
        host_settings(MailHost::Runbox, h) matches Ok(s) && s.imap.host == "mail."@ + "runbox.com"@
            && s.smtp.host == s.imap.host,
        host_settings(MailHost::Posteo, h) matches Ok(s) && s.imap.host == "posteo.de"@
            && s.smtp.host == s.imap.host,
        host_settings(MailHost::Purelymail, h) matches Ok(s) && s.imap.host == "mailserver."@
            + "purelymail.com"@ && s.smtp.host == s.imap.host,
        host_settings(MailHost::MXroute, h) matches Ok(s) && s.imap.host == replace_all(
            h,
            "-relay"@,
            ""@,
        ) && s.smtp.host == s.imap.host,
{
    reveal_strlit("imap.");
    reveal_strlit("smtp.");
    reveal_strlit("mail.");
    reveal_strlit("mailserver.");
    reveal_strlit("migadu.com");
    reveal_strlit("mailbox.org");
    reveal_strlit("zoho.com");
    reveal_strlit("ionos.com");
    reveal_strlit("aol.com");
    reveal_strlit("mail.yahoo.com");
    reveal_strlit("gmx.net");
    reveal_strlit("privateemail.com");
    reveal_strlit("runbox.com");
    reveal_strlit("purelymail.com");
    reveal_strlit("imap.migadu.com");
    reveal_strlit("smtp.migadu.com");
    reveal_strlit("imap.mailbox.org");
    reveal_strlit("smtp.mailbox.org");
    reveal_strlit("imap.zoho.com");
    reveal_strlit("smtp.zoho.com");
    reveal_strlit("imap.ionos.com");
    reveal_strlit("smtp.ionos.com");
    reveal_strlit("imap.aol.com");
    reveal_strlit("smtp.aol.com");
    reveal_strlit("imap.mail.yahoo.com");
    reveal_strlit("smtp.mail.yahoo.com");
    reveal_strlit("imap.gmx.net");
    reveal_strlit("mail.gmx.net");
    reveal_strlit("mail.privateemail.com");
    reveal_strlit("mail.runbox.com");
    reveal_strlit("mailserver.purelymail.com");
    assert("imap."@ + "migadu.com"@ =~= "imap.migadu.com"@);
    assert("smtp."@ + "migadu.com"@ =~= "smtp.migadu.com"@);
    assert("imap."@ + "mailbox.org"@ =~= "imap.mailbox.org"@);
    assert("smtp."@ + "mailbox.org"@ =~= "smtp.mailbox.org"@);
    assert("imap."@ + "zoho.com"@ =~= "imap.zoho.com"@);
    assert("smtp."@ + "zoho.com"@ =~= "smtp.zoho.com"@);
    assert("imap."@ + "ionos.com"@ =~= "imap.ionos.com"@);
    assert("smtp."@ + "ionos.com"@ =~= "smtp.ionos.com"@);
    assert("imap."@ + "aol.com"@ =~= "imap.aol.com"@);
    assert("smtp."@ + "aol.com"@ =~= "smtp.aol.com"@);
    assert("imap."@ + "mail.yahoo.com"@ =~= "imap.mail.yahoo.com"@);
    assert("smtp."@ + "mail.yahoo.com"@ =~= "smtp.mail.yahoo.com"@);
    assert("imap."@ + "gmx.net"@ =~= "imap.gmx.net"@);
    assert("mail."@ + "gmx.net"@ =~= "mail.gmx.net"@);
    assert("mail."@ + "privateemail.com"@ =~= "mail.privateemail.com"@);
    assert("mail."@ + "runbox.com"@ =~= "mail.runbox.com"@);
    assert("mailserver."@ + "purelymail.com"@ =~= "mailserver.purelymail.com"@);
}

/// A provider is known by each of its own domains and by no other.
pub proof fn a_provider_is_known_by_its_domains(domain: Seq<char>)
    ensures
        provider_of(domain) == Some(Provider::Gmail) ==> domain == "gmail.com"@ || domain == "googlemail.com"@,
        provider_of(domain) == Some(Provider::ICloud) ==> domain == "icloud.com"@ || domain == "me.com"@ || domain == "mac.com"@,
        provider_of(domain) == Some(Provider::Outlook) ==> domain == "outlook.com"@ || domain == "hotmail.com"@ || domain == "live.com"@ || domain == "msn.com"@,
        provider_of(domain) == Some(Provider::Fastmail) ==> domain == "fastmail.com"@ || domain == "fastmail.fm"@,
        provider_of("gmail.com"@) == Some(Provider::Gmail),
        provider_of("googlemail.com"@) == Some(Provider::Gmail),
        provider_of("icloud.com"@) == Some(Provider::ICloud),
        provider_of("me.com"@) == Some(Provider::ICloud),
        provider_of("mac.com"@) == Some(Provider::ICloud),
        provider_of("outlook.com"@) == Some(Provider::Outlook),
        provider_of("hotmail.com"@) == Some(Provider::Outlook),
        provider_of("live.com"@) == Some(Provider::Outlook),
        provider_of("msn.com"@) == Some(Provider::Outlook),
        provider_of("fastmail.com"@) == Some(Provider::Fastmail),
        provider_of("fastmail.fm"@) == Some(Provider::Fastmail),
{
    reveal_strlit("gmail.com");
    reveal_strlit("googlemail.com");
    reveal_strlit("icloud.com");
    reveal_strlit("me.com");
    reveal_strlit("mac.com");
    reveal_strlit("outlook.com");
    reveal_strlit("hotmail.com");
    reveal_strlit("live.com");
    reveal_strlit("msn.com");
    reveal_strlit("fastmail.com");
    reveal_strlit("fastmail.fm");
    assert("gmail.com"@.len() == 9 && "gmail.com"@[0] == 'g' && "gmail.com"@[1] == 'm');
    assert("googlemail.com"@.len() == 14 && "googlemail.com"@[0] == 'g' && "googlemail.com"@[1] == 'o');
    assert("icloud.com"@.len() == 10 && "icloud.com"@[0] == 'i' && "icloud.com"@[1] == 'c');
    assert("me.com"@.len() == 6 && "me.com"@[0] == 'm' && "me.com"@[1] == 'e');
    assert("mac.com"@.len() == 7 && "mac.com"@[0] == 'm' && "mac.com"@[1] == 'a');
    assert("outlook.com"@.len() == 11 && "outlook.com"@[0] == 'o' && "outlook.com"@[1] == 'u');
    assert("hotmail.com"@.len() == 11 && "hotmail.com"@[0] == 'h' && "hotmail.com"@[1] == 'o');
    assert("live.com"@.len() == 8 && "live.com"@[0] == 'l' && "live.com"@[1] == 'i');
    assert("msn.com"@.len() == 7 && "msn.com"@[0] == 'm' && "msn.com"@[1] == 's');
    assert("fastmail.com"@.len() == 12 && "fastmail.com"@[0] == 'f' && "fastmail.com"@[1] == 'a');
    assert("fastmail.fm"@.len() == 11 && "fastmail.fm"@[0] == 'f' && "fastmail.fm"@[1] == 'a');
}

} // verus!

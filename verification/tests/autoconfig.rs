use petrel::autoconfig::{domain_of, guess, ispdb_answer, known_by_domain, known_by_mx, tag, Auth, Error, Via};

#[test]
fn the_domain_is_what_follows_the_last_at() {
    assert_eq!(
        domain_of("tom@northbay.example").as_deref(),
        Some("northbay.example")
    );
    assert_eq!(domain_of("Tom@GMAIL.com").as_deref(), Some("gmail.com"));
    assert_eq!(domain_of("\"a@b\"@c.example").as_deref(), Some("c.example"));
    assert_eq!(domain_of("not an address"), None);
    assert_eq!(domain_of("trailing@"), None);
}

#[test]
fn the_big_providers_need_no_network() {
    let g = known_by_domain("gmail.com").unwrap();
    assert_eq!(g.imap.host, "imap.gmail.com");
    assert_eq!(g.auth, Auth::AppPassword);
    assert!(
        g.app_password_url.is_some(),
        "Gmail refuses the account password for IMAP"
    );
    assert!(known_by_domain("northbay.example").is_none());
}

#[test]
fn a_custom_domain_is_recognised_from_its_mx() {
    // This is the whole reason the MX step exists: nothing about the
    // domain says Namecheap, but the MX does.
    let d = known_by_mx("mx1.privateemail.com.").unwrap().unwrap();
    assert_eq!(d.provider, "Namecheap Private Email");
    assert_eq!(d.imap.host, "mail.privateemail.com");
    assert_eq!(d.smtp.port, 465);
    assert_eq!(
        d.auth,
        Auth::Password,
        "a normal password, no app-password dance"
    );
    assert_eq!(d.via, Via::Mx);

    let w = known_by_mx("aspmx.l.google.com").unwrap().unwrap();
    assert_eq!(w.provider, "Google Workspace");
    assert!(known_by_mx("mx.unknown-host.example").unwrap().is_none());
}

#[test]
fn the_hosts_that_hold_custom_domains_are_known() {
    // Each MX host as real DNS returns it for that provider's own domain.
    let cases = [
        ("mx.zoho.com.", "Zoho Mail", "imap.zoho.com"),
        ("mx.migadu.com.", "Migadu", "imap.migadu.com"),
        ("mx1.mailbox.org.", "mailbox.org", "imap.mailbox.org"),
        ("mx01.posteo.de.", "Posteo", "posteo.de"),
        ("mx.runbox.com.", "Runbox", "mail.runbox.com"),
        (
            "mailserver.purelymail.com.",
            "Purelymail",
            "mailserver.purelymail.com",
        ),
        ("mxint01.1and1.com.", "IONOS", "imap.ionos.com"),
        ("mx00.emig.gmx.net.", "GMX", "imap.gmx.net"),
        (
            "mta5.am0.yahoodns.net.",
            "Yahoo Mail",
            "imap.mail.yahoo.com",
        ),
        ("mx-aol.mail.gm0.yahoodns.net.", "AOL Mail", "imap.aol.com"),
        (
            "in2-smtp.messagingengine.com.",
            "Fastmail",
            "imap.fastmail.com",
        ),
    ];
    for (mx, provider, imap) in cases {
        let d = known_by_mx(mx)
            .unwrap()
            .unwrap_or_else(|| panic!("{mx} not recognised"));
        assert_eq!(d.provider, provider, "{mx}");
        assert_eq!(d.imap.host, imap, "{mx}");
        assert!(d.imap.tls && d.smtp.tls, "{mx}");
    }
}

#[test]
fn mxroute_uses_the_customers_own_server() {
    // Each customer is on a named server, and the MX host is that server.
    let d = known_by_mx("arrow.mxrouting.net.").unwrap().unwrap();
    assert_eq!(d.provider, "MXroute");
    assert_eq!(d.imap.host, "arrow.mxrouting.net");
    let relay = known_by_mx("arrow-relay.mxrouting.net.").unwrap().unwrap();
    assert_eq!(
        relay.imap.host, "arrow.mxrouting.net",
        "the relay name is not the mail host"
    );
}

#[test]
fn providers_with_no_imap_say_so() {
    // An answer, not an absence: a manual form pre-filled with servers
    // that do not exist would send someone guessing at hostnames for a
    // provider that no mail client can reach.
    for (mx, who) in [
        ("mail.protonmail.ch.", "Proton Mail"),
        ("home-mx.app.hey.com.", "HEY"),
        ("mail.tutanota.de.", "Tuta"),
    ] {
        match known_by_mx(mx) {
            Err(Error::NoImap { provider }) => assert_eq!(provider, who, "{mx}"),
            other => panic!("{mx}: expected NoImap, got {other:?}"),
        }
    }
}

#[test]
fn the_guess_is_the_convention() {
    let (i, s) = guess("tom@northbay.example").unwrap();
    assert_eq!(i.host, "imap.northbay.example");
    assert_eq!(s.host, "smtp.northbay.example");
    assert!(i.tls && s.tls);
}

#[test]
fn ispdb_parsing_reads_a_real_document_shape() {
    // A cut-down Fastmail answer, in the ISPDB's actual shape.
    let xml = r#"<clientConfig version="1.1"><emailProvider id="fastmail.com">
      <displayName>Fastmail</displayName>
      <incomingServer type="imap"><hostname>imap.fastmail.com</hostname><port>993</port><socketType>SSL</socketType></incomingServer>
      <incomingServer type="pop3"><hostname>pop.fastmail.com</hostname><port>995</port><socketType>SSL</socketType></incomingServer>
      <outgoingServer type="smtp"><hostname>smtp.fastmail.com</hostname><port>465</port><socketType>SSL</socketType></outgoingServer>
      </emailProvider></clientConfig>"#;
    assert_eq!(tag(xml, "displayName").as_deref(), Some("Fastmail"));
    assert!(xml.contains("<incomingServer type=\"imap\">"));
}

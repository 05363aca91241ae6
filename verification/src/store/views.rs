//! The lists a mailbox shows, and how each is written as SQL.

use crate::text::{
    chars_of, decimal, decimal_reads_back, fill, is_digit, integer, integer_chars, parse_i64, replace_all, same, signed_number, starts,
    starts_with, string_of,
};
use vstd::prelude::*;
use vstd::slice::slice_subrange;

verus! {

// ---------------------------------------------------------------------
// IMAP system flags (RFC 3501, 2.3.2), stored as a bitfield on a message.
// Named after the wire values rather than the words on screen: the server
// owns these, and "starred" is our word for `\Flagged`.
// ---------------------------------------------------------------------
pub const SEEN: i64 = 1;

pub const ANSWERED: i64 = 2;

pub const FLAGGED: i64 = 4;

pub const DRAFT: i64 = 8;

pub const DELETED: i64 = 16;

/// Where a fragment names the table alias of `messages`.
pub const ALIAS: &'static str = "{alias}";

/// The message holds an inbox placement, and is not in the bin.
///
/// Stated positively, because on a provider whose archive holds every message
/// "not filed anywhere else" is true of nothing in the inbox. The bin check
/// stays as a belt: mail a sweep marks junk must drop out even if a stale
/// inbox placement lingers.
pub const IN_INBOX: &'static str = "EXISTS (SELECT 1 FROM placements p
                 JOIN folders f ON f.id = p.folder_id
                 WHERE p.message_id = {alias}.id AND f.role = 'inbox')
         AND NOT EXISTS (SELECT 1 FROM placements p
                         JOIN folders f ON f.id = p.folder_id
                         WHERE p.message_id = {alias}.id
                           AND f.role IN ('trash','spam'))";

/// Mail that has not been thrown away or judged to be junk.
pub const NOT_BINNED: &'static str = "NOT EXISTS (SELECT 1 FROM placements p
                     JOIN folders f ON f.id = p.folder_id
                     WHERE p.message_id = {alias}.id
                       AND f.role IN ('trash','spam'))";

pub const NOT_SNOOZED: &'static str = " AND ({alias}.snoozed_until_ms IS NULL OR {alias}.snoozed_until_ms <= (strftime('%s','now') * 1000))";

pub const SNOOZED: &'static str = "{alias}.snoozed_until_ms IS NOT NULL AND {alias}.snoozed_until_ms > (strftime('%s','now') * 1000)";

pub const OUTBOX: &'static str = "{alias}.send_after_ms IS NOT NULL";

pub const STARRED: &'static str = "{alias}.flags & 4 != 0 AND ";

pub const DRAFTS: &'static str = "{alias}.send_after_ms IS NULL
                 AND EXISTS (SELECT 1 FROM placements p
                             JOIN folders f ON f.id = p.folder_id
                             WHERE p.message_id = {alias}.id AND f.role = ?3)";

/// Archive is the one folder that is also a definition: filed under the
/// archive, at any depth, and not in the inbox.
pub const ARCHIVE: &'static str = "EXISTS (SELECT 1 FROM placements p
                         JOIN folders f ON f.id = p.folder_id
                         WHERE p.message_id = {alias}.id
                           AND (f.role = ?3
                                OR EXISTS (SELECT 1 FROM folders af
                                           WHERE af.role = 'archive'
                                             AND af.account_id = f.account_id
                                             AND (f.path LIKE af.path || '/%'
                                                  OR f.path LIKE af.path || '.%'))))
                 AND NOT EXISTS (SELECT 1 FROM placements p2
                                 JOIN folders f2 ON f2.id = p2.folder_id
                                 WHERE p2.message_id = {alias}.id AND f2.role = 'inbox')";

pub const FOLDER: &'static str = "EXISTS (SELECT 1 FROM placements p
                         JOIN folders f ON f.id = p.folder_id
                         WHERE p.message_id = {alias}.id AND f.role = ?3)";

/// Exactly what is placed there: a user folder is a location, and the list is
/// the location's contents.
pub const USER_FOLDER: &'static str = "EXISTS (SELECT 1 FROM placements p
                         WHERE p.message_id = {alias}.id AND p.folder_id = {id})";

/// A tag is a thing you meant; the bin is where things go to stop mattering.
pub const TAGGED: &'static str = "EXISTS (SELECT 1 FROM message_tags mt
                         JOIN tags tg ON tg.id = mt.tag_id
                         WHERE mt.message_id = {alias}.id AND tg.name = ?3)
                 AND ";

pub open spec fn aliased(template: Seq<char>, alias: Seq<char>) -> Seq<char> {
    replace_all(template, ALIAS@, alias)
}

fn with_alias(template: &str, alias: &str) -> (out: String)
    ensures
        out@ == aliased(template@, alias@),
{
    fill(template, ALIAS, alias)
}

/// A conversation belongs in the inbox listing unless it has been filed away.
pub fn in_inbox(alias: &str) -> (sql: String)
    ensures
        sql@ == aliased(IN_INBOX@, alias@),
{
    with_alias(IN_INBOX, alias)
}

/// Mail that has been thrown away or judged to be junk.
///
/// Every view except Trash and Spam themselves leaves these out, and so does
/// search.
pub fn not_binned(alias: &str) -> (sql: String)
    ensures
        sql@ == aliased(NOT_BINNED@, alias@),
{
    with_alias(NOT_BINNED, alias)
}

// ---------------------------------------------------------------------
// Views
// ---------------------------------------------------------------------
/// Which conversations the list is showing.
#[derive(Debug, PartialEq, Eq)]
pub enum ListView {
    /// Everything that has not been filed away. The default.
    Inbox,
    /// Flagged mail wherever it lives, except trash and spam, which are
    /// where things go to be forgotten.
    Starred,
    /// A server folder by its role: archive, sent, drafts, spam, trash.
    Folder(String),
    /// A folder the user made, addressed by row id: user folders have no
    /// role, and a path makes a poor wire key (it can hold any character).
    UserFolder(i64),
    /// Put aside until a time that has not arrived yet.
    Snoozed,
    /// Written and waiting to go.
    Outbox,
    Tag(String),
    /// Every message in the account, wherever it sits: the export's scope,
    /// not a view anyone navigates to. Trash and Spam are in it deliberately.
    All,
}

#[verifier::ext_equal]
pub enum Place {
    Inbox,
    Starred,
    Folder(Seq<char>),
    UserFolder(int),
    Snoozed,
    Outbox,
    Tag(Seq<char>),
    All,
}

impl View for ListView {
    type V = Place;

    open spec fn view(&self) -> Place {
        match self {
            ListView::Inbox => Place::Inbox,
            ListView::Starred => Place::Starred,
            ListView::Folder(role) => Place::Folder(role@),
            ListView::UserFolder(id) => Place::UserFolder(*id as int),
            ListView::Snoozed => Place::Snoozed,
            ListView::Outbox => Place::Outbox,
            ListView::Tag(name) => Place::Tag(name@),
            ListView::All => Place::All,
        }
    }
}

impl Clone for ListView {
    fn clone(&self) -> (r: ListView)
        ensures
            r@ == self@,
    {
        match self {
            ListView::Inbox => ListView::Inbox,
            ListView::Starred => ListView::Starred,
            ListView::Folder(role) => ListView::Folder(role.clone()),
            ListView::UserFolder(id) => ListView::UserFolder(*id),
            ListView::Snoozed => ListView::Snoozed,
            ListView::Outbox => ListView::Outbox,
            ListView::Tag(name) => ListView::Tag(name.clone()),
            ListView::All => ListView::All,
        }
    }
}

pub open spec fn is_folder_key(key: Seq<char>) -> bool {
    key == "archive"@ || key == "sent"@ || key == "drafts"@ || key == "spam"@ || key == "trash"@
}

/// The view a rail key names. Anything unrecognised falls back to the inbox
/// rather than erroring: a stale saved view should not leave you looking at a
/// broken screen.
pub open spec fn place_of(key: Seq<char>) -> Place {
    if key == "inbox"@ {
        Place::Inbox
    } else if key == "starred"@ {
        Place::Starred
    } else if is_folder_key(key) {
        Place::Folder(key)
    } else if key == "snoozed"@ {
        Place::Snoozed
    } else if key == "outbox"@ {
        Place::Outbox
    } else if key == "all"@ {
        Place::All
    } else if starts(key, "folder:"@) {
        match signed_number(key.skip("folder:"@.len() as int)) {
            Some(id) if i64::MIN <= id <= i64::MAX => Place::UserFolder(id),
            _ => Place::Inbox,
        }
    } else if starts(key, "tag:"@) && key.len() > "tag:"@.len() {
        Place::Tag(key.skip("tag:"@.len() as int))
    } else {
        Place::Inbox
    }
}

/// The condition that selects a view's messages.
pub open spec fn place_sql(place: Place, alias: Seq<char>) -> Seq<char> {
    match place {
        Place::Inbox => aliased(IN_INBOX@, alias) + aliased(NOT_SNOOZED@, alias),
        Place::Snoozed => aliased(SNOOZED@, alias),
        Place::Outbox => aliased(OUTBOX@, alias),
        Place::Starred => aliased(STARRED@, alias) + aliased(NOT_BINNED@, alias),
        Place::Folder(role) => if role == "drafts"@ {
            aliased(DRAFTS@, alias)
        } else if role == "archive"@ {
            aliased(ARCHIVE@, alias)
        } else {
            aliased(FOLDER@, alias)
        },
        Place::UserFolder(id) => replace_all(aliased(USER_FOLDER@, alias), "{id}"@, integer(id)),
        Place::All => "1=1"@,
        Place::Tag(_) => aliased(TAGGED@, alias) + aliased(NOT_BINNED@, alias),
    }
}

fn together(a: String, b: String) -> (out: String)
    ensures
        out@ == a@ + b@,
{
    let mut out = chars_of(&a);
    crate::text::put(&mut out, &b);
    string_of(&out)
}

fn is_folder(key: &str) -> (r: bool)
    ensures
        r == is_folder_key(key@),
{
    same(key, "archive") || same(key, "sent") || same(key, "drafts") || same(key, "spam") || same(
        key,
        "trash",
    )
}

impl ListView {
    /// Rail keys are the wire format, so this is the only place that knows them.
    pub fn parse(key: &str) -> (view: ListView)
        ensures
            view@ == place_of(key@),
    {
        if same(key, "inbox") {
            return ListView::Inbox;
        }
        if same(key, "starred") {
            return ListView::Starred;
        }
        if is_folder(key) {
            return ListView::Folder(string_of(&chars_of(key)));
        }
        if same(key, "snoozed") {
            return ListView::Snoozed;
        }
        if same(key, "outbox") {
            return ListView::Outbox;
        }
        if same(key, "all") {
            return ListView::All;
        }
        let chars = chars_of(key);
        let folder = chars_of("folder:");
        let tag = chars_of("tag:");
        if starts_with(&chars, &folder) {
            let id = slice_subrange(&chars, folder.len(), chars.len());
            assert(id@ =~= key@.skip("folder:"@.len() as int));
            return match parse_i64(id) {
                Some(id) => ListView::UserFolder(id),
                None => ListView::Inbox,
            };
        }
        if starts_with(&chars, &tag) && chars.len() > tag.len() {
            let name = slice_subrange(&chars, tag.len(), chars.len());
            assert(name@ =~= key@.skip("tag:"@.len() as int));
            return ListView::Tag(string_of(name));
        }
        ListView::Inbox
    }

    /// The WHERE fragment selecting this view's messages, given the table alias
    /// the surrounding query uses for `messages`.
    ///
    /// The folder role and the tag name are both bound as `?3` rather than
    /// written out. Only one of them is ever live, and neither is a literal
    /// this module controls. A user folder's id is a number, which is what
    /// makes writing it into the SQL safe.
    pub fn predicate(&self, alias: &str) -> (sql: String)
        ensures
            sql@ == place_sql(self@, alias@),
    {
        match self {
            ListView::Inbox => together(in_inbox(alias), with_alias(NOT_SNOOZED, alias)),
            ListView::Snoozed => with_alias(SNOOZED, alias),
            ListView::Outbox => with_alias(OUTBOX, alias),
            ListView::Starred => together(with_alias(STARRED, alias), not_binned(alias)),
            ListView::Folder(role) => if same(role, "drafts") {
                with_alias(DRAFTS, alias)
            } else if same(role, "archive") {
                with_alias(ARCHIVE, alias)
            } else {
                with_alias(FOLDER, alias)
            },
            ListView::UserFolder(id) => fill(
                &with_alias(USER_FOLDER, alias),
                "{id}",
                &string_of(&integer_chars(*id)),
            ),
            ListView::All => string_of(&chars_of("1=1")),
            ListView::Tag(_) => together(with_alias(TAGGED, alias), not_binned(alias)),
        }
    }

    /// The value bound to `?3`, if this view needs one.
    pub fn bound(&self) -> (value: Option<&str>)
        ensures
            match value {
                Some(v) => self@ == Place::Folder(v@) || self@ == Place::Tag(v@),
                None => !(self@ is Folder) && !(self@ is Tag),
            },
    {
        match self {
            ListView::Folder(role) => Some(role.as_str()),
            ListView::Tag(name) => Some(name.as_str()),
            _ => None,
        }
    }
}

// ---------------------------------------------------------------------
// Counts and order
// ---------------------------------------------------------------------
/// What the numbers beside the rail's mailboxes count.
///
/// Unread by default, because the question a mailbox usually has to answer is
/// "is there anything here for me". Total suits anyone who wants the rail to
/// say how big each mailbox is, and off suits anyone who finds counts noisy.
#[derive(Debug, Clone, Copy, PartialEq, Eq, Structural)]
pub enum CountMode {
    Unread,
    Total,
    Off,
}

pub open spec fn count_mode_of(s: Seq<char>) -> CountMode {
    if s == "total"@ {
        CountMode::Total
    } else if s == "off"@ {
        CountMode::Off
    } else {
        CountMode::Unread
    }
}

impl CountMode {
    pub fn parse(s: &str) -> (mode: CountMode)
        ensures
            mode == count_mode_of(s@),
    {
        if same(s, "total") {
            CountMode::Total
        } else if same(s, "off") {
            CountMode::Off
        } else {
            CountMode::Unread
        }
    }
}

/// What a list is ordered by, and which way.
///
/// Date is the one the store is built for: conversations are paged by walking
/// an index newest-first and stopping when the page is full, so a mailbox of
/// any size costs about a page. A conversation's sender and subject are its
/// newest message's, which is not known until the conversation has been
/// resolved, so those group first and sort afterwards.
#[derive(Debug, Clone, Copy, PartialEq, Eq, Structural)]
pub enum SortKey {
    Date,
    Sender,
    Subject,
}

pub open spec fn sort_key_of(s: Seq<char>) -> SortKey {
    if s == "sender"@ {
        SortKey::Sender
    } else if s == "subject"@ {
        SortKey::Subject
    } else {
        SortKey::Date
    }
}

impl SortKey {
    pub fn parse(s: &str) -> (key: SortKey)
        ensures
            key == sort_key_of(s@),
    {
        if same(s, "sender") {
            SortKey::Sender
        } else if same(s, "subject") {
            SortKey::Subject
        } else {
            SortKey::Date
        }
    }
}

/// A list's order: what by, and which way round.
#[derive(Debug, Clone, Copy, PartialEq, Eq, Structural)]
pub struct Sort {
    pub key: SortKey,
    /// Ascending means oldest first, or A to Z. Newest first is the default
    /// because that is what a mailbox is for.
    pub ascending: bool,
}

impl Default for Sort {
    fn default() -> (sort: Sort)
        ensures
            sort.key == SortKey::Date,
            !sort.ascending,
    {
        Sort { key: SortKey::Date, ascending: false }
    }
}

/// The rail's fixed mailboxes, in the order they ship in.
///
/// One list, because the sidebar section that reorders and hides them, the
/// counts query, and the settings that store somebody's arrangement all have
/// to agree on what a mailbox *is*.
pub const MAILBOX_KEYS: [&'static str; 9] = [
    "inbox",
    "starred",
    "snoozed",
    "sent",
    "drafts",
    "outbox",
    "archive",
    "spam",
    "trash",
];

/// The mailbox nobody may hide. Everything else is somebody's business.
pub const ESSENTIAL_MAILBOX: &'static str = "inbox";

/// What a mailbox counts when nobody has said otherwise: a list you built by
/// hand counts everything on it, a place mail lands by itself counts what you
/// have not read, and Sent counts nothing because nothing waits there.
pub open spec fn usual_count_mode(key: Seq<char>) -> CountMode {
    if key == "drafts"@ || key == "outbox"@ || key == "starred"@ || key == "snoozed"@ {
        CountMode::Total
    } else if key == "sent"@ {
        CountMode::Off
    } else {
        CountMode::Unread
    }
}

/// What a mailbox counts when nobody has said otherwise.
pub fn default_count_mode(key: &str) -> (mode: CountMode)
    ensures
        mode == usual_count_mode(key@),
{
    if same(key, "drafts") || same(key, "outbox") || same(key, "starred") || same(key, "snoozed") {
        CountMode::Total
    } else if same(key, "sent") {
        CountMode::Off
    } else {
        CountMode::Unread
    }
}

// ---------------------------------------------------------------------
// Laws
// ---------------------------------------------------------------------
/// A mailbox of the rail is the view of that name, and one that says nothing
/// is the inbox.
pub proof fn a_mailbox_is_its_own_view(key: Seq<char>)
    ensures
        place_of("inbox"@) == Place::Inbox,
        place_of("starred"@) == Place::Starred,
        place_of("snoozed"@) == Place::Snoozed,
        place_of("outbox"@) == Place::Outbox,
        place_of("all"@) == Place::All,
        key == "archive"@ || key == "sent"@ || key == "drafts"@ || key == "spam"@ || key
            == "trash"@ ==> place_of(key) == Place::Folder(key),
        place_of(""@) == Place::Inbox,
{
    keys_differ();
    reveal_strlit("folder:");
    reveal_strlit("tag:");
    reveal_strlit("");
}

proof fn keys_differ()
    ensures
        "starred"@ != "inbox"@,
        "snoozed"@ != "inbox"@ && "snoozed"@ != "starred"@,
        "outbox"@ != "inbox"@ && "outbox"@ != "starred"@ && "outbox"@ != "snoozed"@,
        "all"@ != "inbox"@ && "all"@ != "starred"@ && "all"@ != "snoozed"@ && "all"@ != "outbox"@,
        "archive"@ != "inbox"@ && "archive"@ != "starred"@,
        "sent"@ != "inbox"@ && "sent"@ != "starred"@,
        "drafts"@ != "inbox"@ && "drafts"@ != "starred"@,
        "spam"@ != "inbox"@ && "spam"@ != "starred"@,
        "trash"@ != "inbox"@ && "trash"@ != "starred"@,
        !is_folder_key("snoozed"@),
        !is_folder_key("outbox"@),
        !is_folder_key("all"@),
        ""@ != "inbox"@ && ""@ != "starred"@ && !is_folder_key(""@) && ""@ != "snoozed"@ && ""@
            != "outbox"@ && ""@ != "all"@,
{
    reveal_strlit("inbox");
    reveal_strlit("starred");
    reveal_strlit("snoozed");
    reveal_strlit("outbox");
    reveal_strlit("all");
    reveal_strlit("archive");
    reveal_strlit("sent");
    reveal_strlit("drafts");
    reveal_strlit("spam");
    reveal_strlit("trash");
    reveal_strlit("");
    assert("inbox"@.len() == 5 && "starred"@.len() == 7 && "snoozed"@.len() == 7 && "outbox"@.len()
        == 6 && "all"@.len() == 3 && "archive"@.len() == 7 && "sent"@.len() == 4 && "drafts"@.len()
        == 6 && "spam"@.len() == 4 && "trash"@.len() == 5 && ""@.len() == 0);
    assert("starred"@[1] == 't' && "snoozed"@[1] == 'n' && "archive"@[1] == 'r');
    assert("inbox"@[0] == 'i' && "trash"@[0] == 't' && "outbox"@[0] == 'o' && "drafts"@[0] == 'd');
}

/// A folder somebody made is named by its number and a tag by its name, each
/// behind a word that says which; a tag without a name is no tag.
pub proof fn a_folder_and_a_tag_are_named(id: i64, name: Seq<char>)
    ensures
        place_of("folder:"@ + integer(id as int)) == Place::UserFolder(id as int),
        name.len() > 0 ==> place_of("tag:"@ + name) == Place::Tag(name),
        place_of("tag:"@) == Place::Inbox,
{
    reveal_strlit("inbox");
    reveal_strlit("starred");
    reveal_strlit("snoozed");
    reveal_strlit("outbox");
    reveal_strlit("all");
    reveal_strlit("archive");
    reveal_strlit("sent");
    reveal_strlit("drafts");
    reveal_strlit("spam");
    reveal_strlit("trash");
    reveal_strlit("folder:");
    reveal_strlit("tag:");
    let folder = "folder:"@ + integer(id as int);
    let tag = "tag:"@ + name;
    integers_read_back(id as int);
    assert(folder[0] == 'f');
    assert(tag[0] == 't' && tag[1] == 'a');
    assert("inbox"@[0] == 'i' && "starred"@[0] == 's' && "archive"@[0] == 'a' && "sent"@[0] == 's'
        && "drafts"@[0] == 'd' && "spam"@[0] == 's' && "trash"@[0] == 't' && "trash"@[1] == 'r'
        && "snoozed"@[0] == 's' && "outbox"@[0] == 'o' && "all"@[0] == 'a');
    assert(folder.subrange(0, 7) =~= "folder:"@);
    assert(folder.skip(7) =~= integer(id as int));
    assert(tag.subrange(0, 4) =~= "tag:"@);
    assert(tag.skip(4) =~= name);
    assert("folder:"@[0] == 'f');
    if starts(tag, "folder:"@) {
        assert(tag.subrange(0, 7)[0] == tag[0]);
    }
    let bare = "tag:"@;
    if starts(bare, "folder:"@) {
        assert(bare.subrange(0, 7)[0] == bare[0]);
    }
    assert(bare[0] == 't' && bare[1] == 'a');
}

proof fn integers_read_back(n: int)
    ensures
        signed_number(integer(n)) == Some(n),
{
    if n < 0 {
        decimal_reads_back((-n) as nat);
        assert(integer(n).skip(1) =~= decimal((-n) as nat));
    } else {
        decimal_reads_back(n as nat);
        assert(is_digit(decimal(n as nat)[0]));
    }
}

/// What is made by hand counts everything on it, what was sent counts nothing,
/// and where mail lands by itself only what is unread counts.
pub proof fn a_mailbox_counts_what_is_usual(key: Seq<char>)
    ensures
        key == "starred"@ || key == "snoozed"@ || key == "drafts"@ || key == "outbox"@
            ==> usual_count_mode(key) == CountMode::Total,
        key == "inbox"@ || key == "archive"@ || key == "spam"@ || key == "trash"@
            ==> usual_count_mode(key) == CountMode::Unread,
        usual_count_mode("sent"@) == CountMode::Off,
        usual_count_mode(key) == CountMode::Off ==> key == "sent"@,
{
    reveal_strlit("inbox");
    reveal_strlit("starred");
    reveal_strlit("snoozed");
    reveal_strlit("outbox");
    reveal_strlit("archive");
    reveal_strlit("sent");
    reveal_strlit("drafts");
    reveal_strlit("spam");
    reveal_strlit("trash");
    assert("inbox"@.len() == 5 && "starred"@.len() == 7 && "snoozed"@.len() == 7 && "outbox"@.len()
        == 6 && "archive"@.len() == 7 && "sent"@.len() == 4 && "drafts"@.len() == 6
        && "spam"@.len() == 4 && "trash"@.len() == 5);
    assert("sent"@[1] == 'e' && "spam"@[1] == 'p');
    assert("starred"@[0] == 's' && "snoozed"@[0] == 's' && "archive"@[0] == 'a');
    assert("outbox"@[0] == 'o' && "drafts"@[0] == 'd');
}

/// A mode or an order is read by its name, and what is no name is what is
/// usual: unread mail, by date.
pub proof fn a_choice_is_read_by_its_name(s: Seq<char>)
    ensures
        count_mode_of(s) == CountMode::Total <==> s == "total"@,
        count_mode_of(s) == CountMode::Off <==> s == "off"@,
        sort_key_of(s) == SortKey::Sender <==> s == "sender"@,
        sort_key_of(s) == SortKey::Subject <==> s == "subject"@,
{
    reveal_strlit("total");
    reveal_strlit("off");
    reveal_strlit("sender");
    reveal_strlit("subject");
    assert("total"@.len() == 5 && "off"@.len() == 3);
    assert("sender"@.len() == 6 && "subject"@.len() == 7);
}

} // verus!

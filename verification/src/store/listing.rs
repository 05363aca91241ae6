//! What the conversation list asks the database, and what it makes of the
//! answers.
//!
//! Only numbers are ever written into a statement: an account, a folder, a
//! conversation. What somebody typed is bound.

use super::views::{
    aliased, default_count_mode, not_binned, place_sql, usual_count_mode, CountMode, ListView,
    Place, Sort, SortKey, NOT_BINNED, SEEN,
};
use crate::text::{
    append_chars, chars_of, fill, find, find_from, integer, integer_chars, join, joined, put,
    replace_all, same, starts, starts_with, string_of, strings, texts,
};
use vstd::prelude::*;
use vstd::slice::slice_subrange;

verus! {

// ---------------------------------------------------------------------
// Pieces
// ---------------------------------------------------------------------
/// How many values a list in a statement holds at most: well under what the
/// database allows.
pub const HYDRATE_IN_CHUNK: usize = 400;

/// The tags a row wears, as one JSON array for each conversation.
pub const TAGS_JSON: &'static str = "(SELECT json_group_array(
                         json_object('id', tg.id, 'name', tg.name, 'colour', coalesce(tg.colour,'')))
                     FROM (SELECT DISTINCT mt.tag_id FROM message_tags mt
                           JOIN messages mm ON mm.id = mt.message_id
                           WHERE coalesce(mm.thread_id, -mm.id) = t.thread_id) d
                     JOIN tags tg ON tg.id = d.tag_id) AS tags_json";

/// What tells a conversation from another. Drafts are listed one by one: a
/// draft is a thing to finish, not a conversation.
pub open spec fn key_text(per_message: bool) -> Seq<char> {
    if per_message {
        "-id"@
    } else {
        "coalesce(thread_id, -id)"@
    }
}

pub open spec fn joined_key_text(per_message: bool) -> Seq<char> {
    if per_message {
        "-m.id"@
    } else {
        "coalesce(m.thread_id, -m.id)"@
    }
}

fn key_sql(per_message: bool) -> (sql: &'static str)
    ensures
        sql@ == key_text(per_message),
{
    if per_message {
        "-id"
    } else {
        "coalesce(thread_id, -id)"
    }
}

fn joined_key_sql(per_message: bool) -> (sql: &'static str)
    ensures
        sql@ == joined_key_text(per_message),
{
    if per_message {
        "-m.id"
    } else {
        "coalesce(m.thread_id, -m.id)"
    }
}

/// Whether a view lists messages rather than conversations.
pub fn is_per_message(view: &ListView) -> (r: bool)
    ensures
        r == (view@ == Place::Folder("drafts"@)),
{
    match view {
        ListView::Folder(role) => same(role, "drafts"),
        _ => false,
    }
}

fn number(n: i64) -> (out: String)
    ensures
        out@ == integer(n as int),
{
    string_of(&integer_chars(n))
}

// ---------------------------------------------------------------------
// The page
// ---------------------------------------------------------------------
pub const PAGE_BY_DATE: &'static str = "SELECT {key}, date_ms FROM messages
                 WHERE deleted_at_ms IS NULL AND account_id = {account} AND {inner}
                 ORDER BY date_ms DESC, {key} DESC";

/// Oldest first cannot be streamed: the first message met of a conversation
/// is then its oldest, and its place is its newest.
pub const PAGE_OLDEST_FIRST: &'static str = "SELECT n.k, n.d FROM (
                       SELECT {key} AS k, max(date_ms) AS d FROM messages
                        WHERE deleted_at_ms IS NULL AND account_id = {account} AND {inner}
                        GROUP BY k
                     ) n
                     ORDER BY n.d ASC, n.k ASC";

pub const PAGE_BY_FIELD: &'static str = "SELECT n.k, n.d, {field} AS s FROM (
                       SELECT {key} AS k,
                              max(date_ms) AS d,
                              from_display, from_addr, subject
                         FROM messages
                        WHERE deleted_at_ms IS NULL AND account_id = {account} AND {inner}
                        GROUP BY k
                     ) n
                     ORDER BY nullif({field}, '') IS NULL, {field} {dir}, n.d DESC";

pub const SENDER_FIELD: &'static str = "lower(coalesce(nullif(n.from_display,''), n.from_addr, ''))";

pub const SUBJECT_FIELD: &'static str = "lower(coalesce(nullif(n.subject,''), ''))";

/// A statement with the account, the key and the view's condition in it.
pub open spec fn scoped(
    template: Seq<char>,
    account: int,
    inner: Seq<char>,
    key: Seq<char>,
) -> Seq<char> {
    replace_all(
        replace_all(replace_all(template, "{account}"@, integer(account)), "{key}"@, key),
        "{inner}"@,
        inner,
    )
}

fn with_scope(template: &str, account: i64, inner: &str, key: &str) -> (sql: String)
    ensures
        sql@ == scoped(template@, account as int, inner@, key@),
{
    fill(&fill(&fill(template, "{account}", &number(account)), "{key}", key), "{inner}", inner)
}

pub open spec fn field_text(key: SortKey) -> Seq<char> {
    if key == SortKey::Sender {
        SENDER_FIELD@
    } else {
        SUBJECT_FIELD@
    }
}

/// The statement that walks a view in a list's order. By date the walk is
/// the sort. By sender or subject the conversations are put together first,
/// and those with nothing in the field come last either way.
pub open spec fn page_text(
    account: int,
    inner: Seq<char>,
    per_message: bool,
    sort: Sort,
) -> Seq<char> {
    let key = key_text(per_message);
    if sort.key == SortKey::Date {
        if sort.ascending {
            scoped(PAGE_OLDEST_FIRST@, account, inner, key)
        } else {
            scoped(PAGE_BY_DATE@, account, inner, key)
        }
    } else {
        let template = replace_all(
            replace_all(PAGE_BY_FIELD@, "{field}"@, field_text(sort.key)),
            "{dir}"@,
            if sort.ascending {
                "ASC"@
            } else {
                "DESC"@
            },
        );
        scoped(template, account, inner, key)
    }
}

pub fn page_sql(account: i64, inner: &str, per_message: bool, sort: Sort) -> (sql: String)
    ensures
        sql@ == page_text(account as int, inner@, per_message, sort),
{
    let key = key_sql(per_message);
    match sort.key {
        SortKey::Date => if sort.ascending {
            with_scope(PAGE_OLDEST_FIRST, account, inner, key)
        } else {
            with_scope(PAGE_BY_DATE, account, inner, key)
        },
        SortKey::Sender | SortKey::Subject => {
            let field = match sort.key {
                SortKey::Sender => SENDER_FIELD,
                _ => SUBJECT_FIELD,
            };
            let dir = if sort.ascending {
                "ASC"
            } else {
                "DESC"
            };
            let template = fill(&fill(PAGE_BY_FIELD, "{field}", field), "{dir}", dir);
            with_scope(&template, account, inner, key)
        },
    }
}

pub const CURSOR_IN_VIEW: &'static str = "SELECT {expr} FROM messages
                      WHERE deleted_at_ms IS NULL AND account_id = {account}
                        AND {key} = {cursor} AND {inner}
                      ORDER BY date_ms DESC LIMIT 1";

pub const CURSOR_ANYWHERE: &'static str = "SELECT {expr} FROM messages
                                  WHERE deleted_at_ms IS NULL AND account_id = {account}
                                    AND {key} = ?1
                                  ORDER BY date_ms DESC LIMIT 1";

pub const SENDER_EXPR: &'static str = "lower(coalesce(nullif(from_display,''), from_addr, ''))";

pub const SUBJECT_EXPR: &'static str = "lower(coalesce(nullif(subject,''), ''))";

pub open spec fn expr_text(key: SortKey) -> Seq<char> {
    if key == SortKey::Sender {
        SENDER_EXPR@
    } else {
        SUBJECT_EXPR@
    }
}

fn expr_sql(key: SortKey) -> (sql: &'static str)
    ensures
        sql@ == expr_text(key),
{
    match key {
        SortKey::Sender => SENDER_EXPR,
        _ => SUBJECT_EXPR,
    }
}

/// What the cursor's conversation sorts under, asked of the view: that is
/// what the walk compares against.
pub fn cursor_sql(account: i64, inner: &str, per_message: bool, key: SortKey, cursor: i64) -> (sql:
    String)
    ensures
        sql@ == scoped(
            replace_all(
                replace_all(CURSOR_IN_VIEW@, "{expr}"@, expr_text(key)),
                "{cursor}"@,
                integer(cursor as int),
            ),
            account as int,
            inner@,
            key_text(per_message),
        ),
{
    let template = fill(&fill(CURSOR_IN_VIEW, "{expr}", expr_sql(key)), "{cursor}", &number(cursor));
    with_scope(&template, account, inner, key_sql(per_message))
}

/// The same asked of the whole account, for a conversation that has left the
/// view and so can no longer be asked for there.
pub fn cursor_anywhere_sql(account: i64, per_message: bool, key: SortKey) -> (sql: String)
    ensures
        sql@ == scoped(
            replace_all(CURSOR_ANYWHERE@, "{expr}"@, expr_text(key)),
            account as int,
            ""@,
            key_text(per_message),
        ),
{
    let template = fill(CURSOR_ANYWHERE, "{expr}", expr_sql(key));
    with_scope(&template, account, "", key_sql(per_message))
}

// ---------------------------------------------------------------------
// The rows
// ---------------------------------------------------------------------
pub const ROWS: &'static str = "SELECT coalesce(m.thread_id, -m.id), m.id, coalesce(m.from_display,''), coalesce(m.from_addr,''),
                    coalesce(m.subject,''), coalesce(m.snippet,''), m.date_ms, t.n,
                    coalesce(t.participants,''), t.unread, t.starred, t.attach,
                    {tags_json},
                    (SELECT a.filename FROM attachments a
                     JOIN messages mm ON mm.id = a.message_id
                     WHERE coalesce(mm.thread_id, -mm.id) = t.thread_id
                       AND a.filename IS NOT NULL AND a.filename <> ''
                     ORDER BY a.id LIMIT 1) AS attach_name
             FROM messages m
             JOIN (
               SELECT {key} AS thread_id, max(date_ms) AS md, count(*) AS n,
                      group_concat(DISTINCT coalesce(nullif(from_display,''), from_addr))
                        AS participants,
                      max(CASE WHEN flags & 1 = 0 THEN 1 ELSE 0 END) AS unread,
                      max(CASE WHEN flags & 4 != 0 THEN 1 ELSE 0 END) AS starred,
                      max(has_attachments) AS attach
               FROM messages WHERE deleted_at_ms IS NULL AND {inner_scope}
                 {key} IN ({holes})
               GROUP BY {key}
             ) t ON {mkey} = t.thread_id AND m.date_ms = t.md
             WHERE m.deleted_at_ms IS NULL AND {outer_scope}
               {mkey} IN ({holes})
             GROUP BY {mkey}";

pub const PAGE_END: &'static str = "
             ORDER BY m.date_ms DESC LIMIT ?1 OFFSET ?2";

pub const INNER_SCOPE: &'static str = "account_id = {account} AND {view} AND";

pub const OUTER_SCOPE: &'static str = "m.account_id = {account} AND {view} AND";

pub open spec fn numbers(ids: Seq<i64>) -> Seq<Seq<char>> {
    ids.map_values(|id: i64| integer(id as int))
}

/// Row ids, as they stand in a statement.
pub open spec fn holes(ids: Seq<i64>) -> Seq<char> {
    joined(numbers(ids), ","@)
}

fn holes_of(ids: &Vec<i64>) -> (out: String)
    ensures
        out@ == holes(ids@),
{
    let mut parts: Vec<Vec<char>> = Vec::new();
    let mut i: usize = 0;
    assert(texts(parts@) =~= numbers(ids@.take(0)));
    while i < ids.len()
        invariant
            i <= ids@.len(),
            texts(parts@) == numbers(ids@.take(i as int)),
        decreases ids@.len() - i,
    {
        let ghost before = parts@;
        parts.push(integer_chars(ids[i]));
        assert(ids@.take(i + 1) =~= ids@.take(i as int).push(ids@[i as int]));
        assert(texts(parts@) =~= texts(before).push(parts@.last()@));
        assert(texts(parts@) =~= numbers(ids@.take(i + 1)));
        i += 1;
    }
    assert(ids@.take(i as int) =~= ids@);
    string_of(&join(&parts, ","))
}

/// The statement for the rows of some conversations.
pub open spec fn rows_text(
    inner_scope: Seq<char>,
    outer_scope: Seq<char>,
    per_message: bool,
    ids: Seq<i64>,
) -> Seq<char> {
    let t1 = replace_all(ROWS@, "{tags_json}"@, TAGS_JSON@);
    let t2 = replace_all(t1, "{key}"@, key_text(per_message));
    let t3 = replace_all(t2, "{mkey}"@, joined_key_text(per_message));
    let t4 = replace_all(t3, "{holes}"@, holes(ids));
    replace_all(replace_all(t4, "{inner_scope}"@, inner_scope), "{outer_scope}"@, outer_scope)
}

fn rows_of(inner_scope: &str, outer_scope: &str, per_message: bool, ids: &Vec<i64>) -> (sql: String)
    ensures
        sql@ == rows_text(inner_scope@, outer_scope@, per_message, ids@),
{
    let t1 = fill(ROWS, "{tags_json}", TAGS_JSON);
    let t2 = fill(&t1, "{key}", key_sql(per_message));
    let t3 = fill(&t2, "{mkey}", joined_key_sql(per_message));
    let t4 = fill(&t3, "{holes}", &holes_of(ids));
    fill(&fill(&t4, "{inner_scope}", inner_scope), "{outer_scope}", outer_scope)
}

pub open spec fn scope_text(template: Seq<char>, account: int, view: Seq<char>) -> Seq<char> {
    replace_all(replace_all(template, "{account}"@, integer(account)), "{view}"@, view)
}

/// The rows of one page of a view.
pub fn page_rows_sql(
    account: i64,
    inner: &str,
    outer: &str,
    per_message: bool,
    keys: &Vec<i64>,
) -> (sql: String)
    ensures
        sql@ == rows_text(
            scope_text(INNER_SCOPE@, account as int, inner@),
            scope_text(OUTER_SCOPE@, account as int, outer@),
            per_message,
            keys@,
        ) + PAGE_END@,
{
    let a = fill(&fill(INNER_SCOPE, "{account}", &number(account)), "{view}", inner);
    let b = fill(&fill(OUTER_SCOPE, "{account}", &number(account)), "{view}", outer);
    let mut out = chars_of(&rows_of(&a, &b, per_message, keys));
    put(&mut out, PAGE_END);
    string_of(&out)
}

/// The rows of some conversations, wherever they are.
pub fn threads_sql(thread_ids: &Vec<i64>) -> (sql: String)
    ensures
        sql@ == rows_text(""@, ""@, false, thread_ids@),
{
    rows_of("", "", false, thread_ids)
}

// ---------------------------------------------------------------------
// Counts
// ---------------------------------------------------------------------
pub const ONLY_UNREAD: &'static str = "HAVING max(CASE WHEN {m}flags & 1 = 0 THEN 1 ELSE 0 END) = 1";

pub const COUNT_ALL: &'static str = "SELECT count(*) FROM (
               SELECT {key} AS tid
               FROM messages
               WHERE deleted_at_ms IS NULL AND account_id = {account} AND {inner}
               GROUP BY {key}
               {having}
             )";

pub const COUNT_PLACED: &'static str = "WITH ids AS MATERIALIZED ({ids})
             SELECT count(*) FROM (
               SELECT {mkey} AS tid
               FROM ids
               JOIN messages m ON m.id = ids.message_id
               WHERE m.deleted_at_ms IS NULL AND m.account_id = {account}
                 {extra}
               GROUP BY tid
               {having}
             )";

pub const COUNT_INDEXED: &'static str = "SELECT count(*) FROM (
               SELECT coalesce(thread_id, -id) AS tid
               FROM messages INDEXED BY {index}
               WHERE deleted_at_ms IS NULL AND account_id = {account}
                 AND {pred}
               GROUP BY tid
               {having}
             )";

pub const INBOX_IDS: &'static str = "SELECT p.message_id
                       FROM folders f
                       JOIN placements p ON p.folder_id = f.id
                      WHERE f.account_id = {account} AND f.role = 'inbox'";

pub const INBOX_EXTRA: &'static str = "AND (m.snoozed_until_ms IS NULL OR m.snoozed_until_ms <= (strftime('%s','now') * 1000))
                     AND ";

pub const FOLDER_IDS: &'static str = "SELECT message_id FROM placements WHERE folder_id = {id}";

pub const ROLE_IDS: &'static str = "SELECT p.message_id
                       FROM folders f
                       JOIN placements p ON p.folder_id = f.id
                      WHERE f.account_id = {account} AND f.role = ?3";

pub const ARCHIVE_IDS: &'static str = "SELECT p.message_id
                       FROM folders f
                       JOIN placements p ON p.folder_id = f.id
                      WHERE f.account_id = {account}
                        AND (f.role = 'archive'
                             OR EXISTS (SELECT 1 FROM folders af
                                        WHERE af.role = 'archive'
                                          AND af.account_id = f.account_id
                                          AND (f.path LIKE af.path || '/%'
                                               OR f.path LIKE af.path || '.%')))";

pub const ARCHIVE_EXTRA: &'static str = "AND NOT EXISTS (SELECT 1 FROM placements p2
                                 JOIN folders f2 ON f2.id = p2.folder_id
                                 WHERE p2.message_id = m.id AND f2.role = 'inbox')";

pub const DRAFTS_EXTRA: &'static str = "AND m.send_after_ms IS NULL";

pub const STARRED_PRED: &'static str = "flags & 4 != 0 AND ";

pub const SNOOZED_PRED: &'static str = "snoozed_until_ms IS NOT NULL
                 AND snoozed_until_ms > (strftime('%s','now') * 1000)";

pub const OUTBOX_PRED: &'static str = "send_after_ms IS NOT NULL";

/// What a count leaves out: nothing, or the conversations with nothing unread
/// in them.
pub open spec fn having_text(total: bool, alias: Seq<char>) -> Seq<char> {
    if total {
        ""@
    } else {
        replace_all(ONLY_UNREAD@, "{m}"@, alias)
    }
}

fn having_sql(total: bool, alias: &str) -> (sql: String)
    ensures
        sql@ == having_text(total, alias@),
{
    if total {
        string_of(&chars_of(""))
    } else {
        fill(ONLY_UNREAD, "{m}", alias)
    }
}

/// A count over what some folders hold.
pub open spec fn placed_text(
    ids: Seq<char>,
    extra: Seq<char>,
    per_message: bool,
    account: int,
    total: bool,
) -> Seq<char> {
    let t1 = replace_all(COUNT_PLACED@, "{ids}"@, ids);
    let t2 = replace_all(t1, "{extra}"@, extra);
    let t3 = replace_all(t2, "{mkey}"@, joined_key_text(per_message));
    let t4 = replace_all(t3, "{having}"@, having_text(total, "m."@));
    replace_all(t4, "{account}"@, integer(account))
}

fn placed_sql(ids: &str, extra: &str, per_message: bool, account: i64, total: bool) -> (sql: String)
    ensures
        sql@ == placed_text(ids@, extra@, per_message, account as int, total),
{
    let t1 = fill(COUNT_PLACED, "{ids}", ids);
    let t2 = fill(&t1, "{extra}", extra);
    let t3 = fill(&t2, "{mkey}", joined_key_sql(per_message));
    let t4 = fill(&t3, "{having}", &having_sql(total, "m."));
    fill(&t4, "{account}", &number(account))
}

/// A count that walks an index made for it.
pub open spec fn indexed_text(
    index: Seq<char>,
    pred: Seq<char>,
    account: int,
    total: bool,
) -> Seq<char> {
    let t1 = replace_all(COUNT_INDEXED@, "{index}"@, index);
    let t2 = replace_all(t1, "{pred}"@, pred);
    let t3 = replace_all(t2, "{having}"@, having_text(total, ""@));
    replace_all(t3, "{account}"@, integer(account))
}

fn indexed_sql(index: &str, pred: &str, account: i64, total: bool) -> (sql: String)
    ensures
        sql@ == indexed_text(index@, pred@, account as int, total),
{
    let t1 = fill(COUNT_INDEXED, "{index}", index);
    let t2 = fill(&t1, "{pred}", pred);
    let t3 = fill(&t2, "{having}", &having_sql(total, ""));
    fill(&t3, "{account}", &number(account))
}

/// The statement that counts a view's conversations. A folder is counted from
/// what it holds, and what few messages have from the index of it: asking
/// every message whether it is in the inbox is the slow form of the same
/// question.
pub open spec fn count_text(place: Place, account: int, total: bool) -> Seq<char> {
    match place {
        Place::Inbox => placed_text(
            INBOX_IDS@,
            INBOX_EXTRA@ + aliased(NOT_BINNED@, "m"@),
            false,
            account,
            total,
        ),
        Place::UserFolder(id) => placed_text(
            replace_all(FOLDER_IDS@, "{id}"@, integer(id)),
            ""@,
            false,
            account,
            total,
        ),
        Place::Folder(role) => if role == "drafts"@ {
            placed_text(ROLE_IDS@, DRAFTS_EXTRA@, true, account, total)
        } else if role == "archive"@ {
            placed_text(ARCHIVE_IDS@, ARCHIVE_EXTRA@, false, account, total)
        } else {
            placed_text(ROLE_IDS@, ""@, false, account, total)
        },
        Place::Starred => indexed_text(
            "idx_messages_flagged"@,
            STARRED_PRED@ + aliased(NOT_BINNED@, "messages"@),
            account,
            total,
        ),
        Place::Snoozed => indexed_text("idx_messages_snoozed"@, SNOOZED_PRED@, account, total),
        Place::Outbox => indexed_text("idx_messages_send_after"@, OUTBOX_PRED@, account, total),
        Place::Tag(_) | Place::All => scoped(
            replace_all(COUNT_ALL@, "{having}"@, having_text(total, ""@)),
            account,
            place_sql(place, "messages"@),
            key_text(false),
        ),
    }
}

/// What is bound as a count's third value, if anything is. The archive's role
/// is written out, because a count of it looks below the folder too.
pub open spec fn count_bound(place: Place) -> Option<Seq<char>> {
    match place {
        Place::Folder(role) => if role == "archive"@ {
            None
        } else {
            Some(role)
        },
        Place::Tag(name) => Some(name),
        _ => None,
    }
}

fn together(a: &str, b: &str) -> (out: String)
    ensures
        out@ == a@ + b@,
{
    let mut out = chars_of(a);
    put(&mut out, b);
    string_of(&out)
}

/// The statement that counts the conversations of a view: all of them, or
/// those holding something unread.
pub fn count_sql(view: &ListView, account: i64, total: bool) -> (sql: String)
    ensures
        sql@ == count_text(view@, account as int, total),
{
    match view {
        ListView::Inbox => placed_sql(
            INBOX_IDS,
            &together(INBOX_EXTRA, &not_binned("m")),
            false,
            account,
            total,
        ),
        ListView::UserFolder(id) => placed_sql(
            &fill(FOLDER_IDS, "{id}", &number(*id)),
            "",
            false,
            account,
            total,
        ),
        ListView::Folder(role) => if same(role, "drafts") {
            placed_sql(ROLE_IDS, DRAFTS_EXTRA, true, account, total)
        } else if same(role, "archive") {
            placed_sql(ARCHIVE_IDS, ARCHIVE_EXTRA, false, account, total)
        } else {
            placed_sql(ROLE_IDS, "", false, account, total)
        },
        ListView::Starred => indexed_sql(
            "idx_messages_flagged",
            &together(STARRED_PRED, &not_binned("messages")),
            account,
            total,
        ),
        ListView::Snoozed => indexed_sql("idx_messages_snoozed", SNOOZED_PRED, account, total),
        ListView::Outbox => indexed_sql("idx_messages_send_after", OUTBOX_PRED, account, total),
        ListView::Tag(_) | ListView::All => with_scope(
            &fill(COUNT_ALL, "{having}", &having_sql(total, "")),
            account,
            &view.predicate("messages"),
            key_sql(false),
        ),
    }
}

/// The value a count binds third.
pub fn count_value(view: &ListView) -> (value: Option<String>)
    ensures
        match value {
            Some(v) => count_bound(view@) == Some(v@),
            None => count_bound(view@) is None,
        },
{
    match view {
        ListView::Folder(role) => if same(role, "archive") {
            None
        } else {
            Some(string_of(&chars_of(role)))
        },
        ListView::Tag(name) => Some(string_of(&chars_of(name))),
        _ => None,
    }
}

// ---------------------------------------------------------------------
// The rail
// ---------------------------------------------------------------------
/// What somebody said a mailbox should count.
#[derive(Debug, Clone, PartialEq, Eq)]
pub struct ChosenMode {
    pub key: String,
    pub mode: CountMode,
}

/// The mode chosen for a mailbox, of those from the `i`th on.
pub open spec fn chosen(modes: Seq<ChosenMode>, key: Seq<char>, i: int) -> Option<CountMode>
    decreases modes.len() - i,
{
    if i < 0 || i >= modes.len() {
        None
    } else if modes[i].key@ == key {
        Some(modes[i].mode)
    } else {
        chosen(modes, key, i + 1)
    }
}

/// What a mailbox counts: what was chosen, or what is usual.
pub open spec fn mode_of(modes: Seq<ChosenMode>, key: Seq<char>) -> CountMode {
    match chosen(modes, key, 0) {
        Some(mode) => mode,
        None => usual_count_mode(key),
    }
}

pub fn mode_for(modes: &Vec<ChosenMode>, key: &str) -> (mode: CountMode)
    ensures
        mode == mode_of(modes@, key@),
{
    let mut i: usize = 0;
    while i < modes.len()
        invariant
            i <= modes@.len(),
            chosen(modes@, key@, 0) == chosen(modes@, key@, i as int),
        decreases modes@.len() - i,
    {
        if same(&modes[i].key, key) {
            return modes[i].mode;
        }
        i += 1;
    }
    default_count_mode(key)
}

pub const FOLDER_COUNTS: &'static str = "SELECT p.folder_id, count(DISTINCT coalesce(m.thread_id, -m.id))
                 FROM placements p
                 JOIN folders f ON f.id = p.folder_id
                 JOIN messages m ON m.id = p.message_id
                 WHERE f.account_id = ?1 AND coalesce(f.role,'') = ''
                   AND m.deleted_at_ms IS NULL{unread}
                 GROUP BY p.folder_id";

/// The statement that counts every folder somebody made, or nothing where
/// folders count nothing.
pub fn folder_counts_sql(mode: CountMode) -> (sql: Option<String>)
    ensures
        match sql {
            Some(text) => mode != CountMode::Off && text@ == replace_all(
                FOLDER_COUNTS@,
                "{unread}"@,
                if mode == CountMode::Unread {
                    " AND m.flags & 1 = 0"@
                } else {
                    ""@
                },
            ),
            None => mode == CountMode::Off,
        },
{
    match mode {
        CountMode::Off => None,
        CountMode::Total => Some(fill(FOLDER_COUNTS, "{unread}", "")),
        CountMode::Unread => Some(fill(FOLDER_COUNTS, "{unread}", " AND m.flags & 1 = 0")),
    }
}

/// One number beside a row of the rail.
#[derive(Debug, Clone, PartialEq, Eq)]
pub struct Badge {
    pub key: String,
    pub n: i64,
}

pub open spec fn badges(all: Seq<Badge>) -> Seq<(Seq<char>, i64)> {
    all.map_values(|b: Badge| (b.key@, b.n))
}

/// Badges with those that say nothing left out.
pub open spec fn worth_saying(all: Seq<(Seq<char>, i64)>) -> Seq<(Seq<char>, i64)>
    decreases all.len(),
{
    if all.len() == 0 {
        Seq::empty()
    } else {
        let so_far = worth_saying(all.drop_last());
        if all.last().1 > 0 {
            so_far.push(all.last())
        } else {
            so_far
        }
    }
}

pub open spec fn folder_badges(folders: Seq<(i64, i64)>) -> Seq<(Seq<char>, i64)> {
    folders.map_values(|f: (i64, i64)| ("folder:"@ + integer(f.0 as int), f.1))
}

/// The numbers beside the rail: the mailboxes, the folders, and last how many
/// messages wait on a person. No preference silences that one: a message
/// whose sending could not be proved is a problem, not a badge.
pub open spec fn rail(
    mailboxes: Seq<(Seq<char>, i64)>,
    folders: Seq<(i64, i64)>,
    needs: i64,
) -> Seq<(Seq<char>, i64)> {
    worth_saying(mailboxes + folder_badges(folders) + seq![("outbox:attention"@, needs)])
}

proof fn saying_one_more(all: Seq<(Seq<char>, i64)>, one: (Seq<char>, i64))
    ensures
        worth_saying(all.push(one)) == if one.1 > 0 {
            worth_saying(all).push(one)
        } else {
            worth_saying(all)
        },
{
    assert(all.push(one).drop_last() =~= all);
}

/// The numbers beside the rail.
pub fn rail_counts(mailboxes: Vec<Badge>, folders: &Vec<(i64, i64)>, needs: i64) -> (out: Vec<
    Badge,
>)
    ensures
        badges(out@) == rail(badges(mailboxes@), folders@, needs),
{
    let mut out: Vec<Badge> = Vec::new();
    let ghost boxes = badges(mailboxes@);
    let ghost rows = folder_badges(folders@);
    let mut i: usize = 0;
    assert(badges(out@) =~= worth_saying(boxes.take(0)));
    while i < mailboxes.len()
        invariant
            i <= mailboxes@.len(),
            boxes == badges(mailboxes@),
            badges(out@) == worth_saying(boxes.take(i as int)),
        decreases mailboxes@.len() - i,
    {
        let ghost before = out@;
        proof {
            saying_one_more(boxes.take(i as int), boxes[i as int]);
            assert(boxes.take(i + 1) =~= boxes.take(i as int).push(boxes[i as int]));
        }
        if mailboxes[i].n > 0 {
            let b = Badge { key: string_of(&chars_of(&mailboxes[i].key)), n: mailboxes[i].n };
            out.push(b);
            assert(badges(out@) =~= badges(before).push(boxes[i as int]));
        }
        i += 1;
    }
    assert(boxes.take(i as int) =~= boxes);
    let mut k: usize = 0;
    assert(boxes + rows.take(0) =~= boxes);
    while k < folders.len()
        invariant
            k <= folders@.len(),
            rows == folder_badges(folders@),
            badges(out@) == worth_saying(boxes + rows.take(k as int)),
        decreases folders@.len() - k,
    {
        let ghost before = out@;
        proof {
            saying_one_more(boxes + rows.take(k as int), rows[k as int]);
            assert(boxes + rows.take(k + 1) =~= (boxes + rows.take(k as int)).push(
                rows[k as int],
            ));
        }
        let (id, n) = folders[k];
        if n > 0 {
            let mut key = chars_of("folder:");
            append_chars(&mut key, &integer_chars(id));
            out.push(Badge { key: string_of(&key), n });
            assert(badges(out@) =~= badges(before).push(rows[k as int]));
        }
        k += 1;
    }
    assert(rows.take(k as int) =~= rows);
    proof {
        saying_one_more(boxes + rows, ("outbox:attention"@, needs));
        assert(boxes + rows + seq![("outbox:attention"@, needs)] =~= (boxes + rows).push(
            ("outbox:attention"@, needs),
        ));
    }
    let ghost before = out@;
    if needs > 0 {
        out.push(Badge { key: string_of(&chars_of("outbox:attention")), n: needs });
        assert(badges(out@) =~= badges(before).push(("outbox:attention"@, needs)));
    }
    out
}

// ---------------------------------------------------------------------
// One conversation
// ---------------------------------------------------------------------
pub const DETAIL: &'static str = "SELECT id, coalesce(from_display,''), coalesce(from_addr,''),
                    coalesce(subject,''), coalesce(snippet,''), date_ms, flags,
                    EXISTS (SELECT 1 FROM attachments a WHERE a.message_id = messages.id
                              AND (a.mime LIKE '%calendar%' OR a.mime = 'application/ics'
                                   OR lower(coalesce(a.filename,'')) LIKE '%.ics')),
                    invite_response, message_id_hdr
             FROM messages
             WHERE ";

pub const DETAIL_OF_ONE: &'static str = "id = ?1 AND deleted_at_ms IS NULL";

pub const DETAIL_OF_THREAD: &'static str = "coalesce(thread_id, -id) = ?1 AND deleted_at_ms IS NULL";

pub const OLDEST_FIRST: &'static str = " ORDER BY date_ms ASC, id ASC";

pub const NEWEST: &'static str = " ORDER BY date_ms DESC, id DESC LIMIT ?2";

pub const NEWEST_BEFORE: &'static str = " AND (date_ms < ?2 OR (date_ms = ?2 AND id < ?3))
                     ORDER BY date_ms DESC, id DESC LIMIT ?4";

/// The statement for one message.
pub fn message_sql() -> (sql: String)
    ensures
        sql@ == DETAIL@ + DETAIL_OF_ONE@,
        sql@ == DETAIL@ + "id = ?1 AND deleted_at_ms IS NULL"@,
{
    together(DETAIL, DETAIL_OF_ONE)
}

/// The statement for a conversation: all of it, its newest messages, or the
/// newest before one that is shown already. A page comes newest first and has
/// to be turned round.
pub fn conversation_sql(limited: bool, before: bool) -> (r: (String, bool))
    ensures
        r.0@ == DETAIL@ + DETAIL_OF_THREAD@ + (if before {
            NEWEST_BEFORE@
        } else if limited {
            NEWEST@
        } else {
            OLDEST_FIRST@
        }),
        r.1 == (limited || before),
        !limited && !before ==> r.0@ == DETAIL@
            + "coalesce(thread_id, -id) = ?1 AND deleted_at_ms IS NULL"@
            + " ORDER BY date_ms ASC, id ASC"@,
        limited && !before ==> r.0@ == DETAIL@
            + "coalesce(thread_id, -id) = ?1 AND deleted_at_ms IS NULL"@
            + " ORDER BY date_ms DESC, id DESC LIMIT ?2"@,
        before ==> r.0@ == DETAIL@ + "coalesce(thread_id, -id) = ?1 AND deleted_at_ms IS NULL"@
            + " AND (date_ms < ?2 OR (date_ms = ?2 AND id < ?3))
                     ORDER BY date_ms DESC, id DESC LIMIT ?4"@,
{
    let end = if before {
        NEWEST_BEFORE
    } else if limited {
        NEWEST
    } else {
        OLDEST_FIRST
    };
    (together(&together(DETAIL, DETAIL_OF_THREAD), end), limited || before)
}

/// Somebody a message is addressed to.
#[derive(Debug, Clone, PartialEq, Eq)]
pub struct Addressee {
    pub role: String,
    pub display: String,
    pub addr: String,
}

/// The names, or the addresses, of those a message is addressed to in a role.
pub open spec fn in_role(all: Seq<Addressee>, role: Seq<char>, names: bool) -> Seq<Seq<char>>
    decreases all.len(),
{
    if all.len() == 0 {
        Seq::empty()
    } else {
        let so_far = in_role(all.drop_last(), role, names);
        if all.last().role@ == role {
            so_far.push(
                if names {
                    all.last().display@
                } else {
                    all.last().addr@
                },
            )
        } else {
            so_far
        }
    }
}

/// Who a message is to, as the reading pane shows them and as a reply writes
/// to them.
#[derive(Debug, Clone, PartialEq, Eq)]
pub struct Recipients {
    pub to: Vec<String>,
    pub cc: Vec<String>,
    /// To and then Cc: a reply to all that left the first out would not be.
    pub recipients: Vec<String>,
    /// The same people as addresses. A reply made of names goes to nobody.
    pub recipient_addrs: Vec<String>,
}

fn those_in_role(all: &Vec<Addressee>, role: &str, names: bool, out: &mut Vec<String>)
    ensures
        strings(final(out)@) == strings(old(out)@) + in_role(all@, role@, names),
{
    let ghost start = strings(out@);
    let mut i: usize = 0;
    assert(all@.take(0) =~= Seq::<Addressee>::empty());
    assert(start + in_role(all@.take(0), role@, names) =~= start);
    while i < all.len()
        invariant
            i <= all@.len(),
            strings(out@) == start + in_role(all@.take(i as int), role@, names),
        decreases all@.len() - i,
    {
        assert(all@.take(i + 1).drop_last() =~= all@.take(i as int));
        assert(all@.take(i + 1).last() == all@[i as int]);
        if same(&all[i].role, role) {
            let ghost before = out@;
            let ghost front = in_role(all@.take(i as int), role@, names);
            let text = if names {
                string_of(&chars_of(&all[i].display))
            } else {
                string_of(&chars_of(&all[i].addr))
            };
            out.push(text);
            assert(strings(out@) =~= strings(before).push(text@));
            assert(start + front.push(text@) =~= (start + front).push(text@));
        }
        i += 1;
    }
    assert(all@.take(i as int) =~= all@);
}

/// Sorts out who a message is to. The two lists of everyone go together: the
/// name at a place in one belongs to the address there in the other.
pub fn recipients_of(all: &Vec<Addressee>) -> (r: Recipients)
    ensures
        strings(r.to@) == in_role(all@, "to"@, true),
        strings(r.cc@) == in_role(all@, "cc"@, true),
        strings(r.recipients@) == in_role(all@, "to"@, true) + in_role(all@, "cc"@, true),
        strings(r.recipient_addrs@) == in_role(all@, "to"@, false) + in_role(all@, "cc"@, false),
        r.recipients@.len() == r.recipient_addrs@.len(),
{
    let mut to: Vec<String> = Vec::new();
    let mut cc: Vec<String> = Vec::new();
    let mut recipients: Vec<String> = Vec::new();
    let mut recipient_addrs: Vec<String> = Vec::new();
    let ghost none = Seq::<Seq<char>>::empty();
    assert(strings(to@) =~= none);
    those_in_role(all, "to", true, &mut to);
    those_in_role(all, "cc", true, &mut cc);
    those_in_role(all, "to", true, &mut recipients);
    those_in_role(all, "cc", true, &mut recipients);
    those_in_role(all, "to", false, &mut recipient_addrs);
    those_in_role(all, "cc", false, &mut recipient_addrs);
    proof {
        assert(none + in_role(all@, "to"@, true) =~= in_role(all@, "to"@, true));
        assert(none + in_role(all@, "cc"@, true) =~= in_role(all@, "cc"@, true));
        assert(none + in_role(all@, "to"@, false) =~= in_role(all@, "to"@, false));
        names_and_addresses_pair(all@, "to"@);
        names_and_addresses_pair(all@, "cc"@);
        assert(strings(recipients@).len() == recipients@.len());
        assert(strings(recipient_addrs@).len() == recipient_addrs@.len());
    }
    Recipients { to, cc, recipients, recipient_addrs }
}

proof fn names_and_addresses_pair(all: Seq<Addressee>, role: Seq<char>)
    ensures
        in_role(all, role, true).len() == in_role(all, role, false).len(),
    decreases all.len(),
{
    if all.len() > 0 {
        names_and_addresses_pair(all.drop_last(), role);
    }
}

/// Whether a message has been read.
pub fn is_unread(flags: i64) -> (r: bool)
    ensures
        r == (flags & SEEN == 0),
{
    flags & SEEN == 0
}

// ---------------------------------------------------------------------
// Message-IDs
// ---------------------------------------------------------------------
/// What a key begins with that stands for a message without a Message-ID.
pub const HASH_KEY: &'static str = "blake3:";

/// What parts a Message-ID from the number of a second copy.
pub const COPY_MARK: &'static str = "::copy-";

/// The Message-ID behind a key, if the key is one. A reply must name only the
/// real thing: an invented one threads with nothing.
pub open spec fn wire_id(key: Seq<char>) -> Option<Seq<char>> {
    if key.len() == 0 || starts(key, HASH_KEY@) {
        None
    } else {
        let bare = match find_from(key, COPY_MARK@, 0) {
            Some(at) => key.take(at),
            None => key,
        };
        if bare.len() == 0 {
            None
        } else {
            Some(bare)
        }
    }
}

/// The Message-ID behind a stored key, if there is one.
pub fn wire_msgid(key: Option<&str>) -> (id: Option<String>)
    ensures
        match (id, key) {
            (Some(i), Some(k)) => wire_id(k@) == Some(i@),
            (None, Some(k)) => wire_id(k@) is None,
            (None, None) => true,
            (Some(_), None) => false,
        },
{
    match key {
        None => None,
        Some(k) => {
            let chars = chars_of(k);
            if chars.len() == 0 || starts_with(&chars, &chars_of(HASH_KEY)) {
                return None;
            }
            let end = match find(&chars, &chars_of(COPY_MARK), 0) {
                Some(at) => at,
                None => chars.len(),
            };
            let bare = slice_subrange(chars.as_slice(), 0, end);
            assert(bare@ =~= match find_from(k@, COPY_MARK@, 0) {
                Some(at) => k@.take(at),
                None => k@,
            });
            if bare.len() == 0 {
                None
            } else {
                Some(string_of(bare))
            }
        },
    }
}

// ---------------------------------------------------------------------
// Laws
// ---------------------------------------------------------------------
/// What was said first for a mailbox is what it counts, and where nothing was
/// said it counts what is usual.
pub proof fn the_first_choice_counts(modes: Seq<ChosenMode>, key: Seq<char>, at: int)
    ensures
        (0 <= at < modes.len() && modes[at].key@ == key && forall|i: int|
            0 <= i < at ==> (#[trigger] modes[i]).key@ != key) ==> mode_of(modes, key)
            == modes[at].mode,
        (forall|i: int| 0 <= i < modes.len() ==> (#[trigger] modes[i]).key@ != key) ==> mode_of(
            modes,
            key,
        ) == usual_count_mode(key),
{
    if 0 <= at < modes.len() && modes[at].key@ == key && forall|i: int|
        0 <= i < at ==> (#[trigger] modes[i]).key@ != key {
        chosen_passes_over(modes, key, 0, at);
    }
    if forall|i: int| 0 <= i < modes.len() ==> (#[trigger] modes[i]).key@ != key {
        chosen_passes_over(modes, key, 0, modes.len() as int);
    }
}

proof fn chosen_passes_over(modes: Seq<ChosenMode>, key: Seq<char>, from: int, to: int)
    requires
        0 <= from <= to <= modes.len(),
        forall|i: int| from <= i < to ==> (#[trigger] modes[i]).key@ != key,
    ensures
        chosen(modes, key, from) == chosen(modes, key, to),
    decreases to - from,
{
    if from < to {
        assert(modes[from].key@ != key);
        chosen_passes_over(modes, key, from + 1, to);
    }
}

/// A number beside the rail is there for what it counts, whatever else is:
/// one that counts something stays, one that counts nothing goes.
pub proof fn a_badge_says_something(
    a: Seq<(Seq<char>, i64)>,
    b: Seq<(Seq<char>, i64)>,
    one: (Seq<char>, i64),
)
    ensures
        worth_saying(a + b) == worth_saying(a) + worth_saying(b),
        worth_saying(seq![one]) == if one.1 > 0 {
            seq![one]
        } else {
            Seq::<(Seq<char>, i64)>::empty()
        },
    decreases b.len(),
{
    let none = Seq::<(Seq<char>, i64)>::empty();
    assert(seq![one].drop_last() =~= none);
    assert(worth_saying(seq![one].drop_last()) =~= none);
    assert(none.push(one) =~= seq![one]);
    if b.len() == 0 {
        assert(a + b =~= a);
        assert(worth_saying(a) + worth_saying(b) =~= worth_saying(a));
    } else {
        assert((a + b).drop_last() =~= a + b.drop_last());
        a_badge_says_something(a, b.drop_last(), one);
        assert(worth_saying(a + b) =~= worth_saying(a) + worth_saying(b));
    }
}

/// However few numbers are asked for, what waits on a person is said, and
/// said last.
pub proof fn what_needs_attention_is_always_said(
    mailboxes: Seq<(Seq<char>, i64)>,
    folders: Seq<(i64, i64)>,
    needs: i64,
)
    ensures
        needs > 0 ==> rail(mailboxes, folders, needs).len() > 0 && rail(
            mailboxes,
            folders,
            needs,
        ).last() == ("outbox:attention"@, needs),
        rail(mailboxes, Seq::empty(), 0) == worth_saying(mailboxes),
        forall|i: int|
            0 <= i < folders.len() ==> #[trigger] folder_badges(folders)[i] == (
            "folder:"@ + integer(folders[i].0 as int), folders[i].1),
{
    let front = mailboxes + folder_badges(folders);
    let last = ("outbox:attention"@, needs);
    assert(front + seq![last] =~= front.push(last));
    saying_one_more(front, last);
    let none = Seq::<(i64, i64)>::empty();
    let quiet = ("outbox:attention"@, 0i64);
    assert(mailboxes + folder_badges(none) =~= mailboxes);
    assert(mailboxes + seq![quiet] =~= mailboxes.push(quiet));
    saying_one_more(mailboxes, quiet);
}

/// Those a message is addressed to come in the order they are listed, each in
/// the role it is listed under.
pub proof fn an_addressee_keeps_its_role(
    a: Seq<Addressee>,
    b: Seq<Addressee>,
    one: Addressee,
    role: Seq<char>,
    names: bool,
)
    ensures
        in_role(a + b, role, names) == in_role(a, role, names) + in_role(b, role, names),
        one.role@ == role ==> in_role(seq![one], role, true) == seq![one.display@] && in_role(
            seq![one],
            role,
            false,
        ) == seq![one.addr@],
        one.role@ != role ==> in_role(seq![one], role, names).len() == 0,
    decreases b.len(),
{
    let none = Seq::<Seq<char>>::empty();
    let list = seq![one];
    assert(list.last() == one);
    assert(list.drop_last() =~= Seq::<Addressee>::empty());
    assert(in_role(list.drop_last(), role, true) =~= none);
    assert(in_role(list.drop_last(), role, false) =~= none);
    assert(none.push(one.display@) =~= seq![one.display@]);
    assert(none.push(one.addr@) =~= seq![one.addr@]);
    if b.len() == 0 {
        assert(a + b =~= a);
        assert(in_role(a, role, names) + in_role(b, role, names) =~= in_role(a, role, names));
    } else {
        assert((a + b).drop_last() =~= a + b.drop_last());
        an_addressee_keeps_its_role(a, b.drop_last(), one, role, names);
        assert(in_role(a + b, role, names) =~= in_role(a, role, names) + in_role(b, role, names));
    }
}

/// A key made of a digest is no Message-ID, whatever the digest.
pub proof fn a_digest_is_no_message_id(digest: Seq<char>)
    ensures
        wire_id("blake3:"@ + digest) is None,
        wire_id(Seq::empty()) is None,
{
    reveal_strlit("blake3:");
    let key = "blake3:"@ + digest;
    assert(key.subrange(0, "blake3:"@.len() as int) =~= "blake3:"@);
}

/// A page comes newest first, or oldest first where that was asked for; by
/// name it comes A to Z or Z to A, and what has no name comes last either
/// way. Whatever the order, it is asked of the account's own mail that has
/// not been deleted and is in the view.
pub proof fn a_page_comes_in_the_order_asked_for(
    account: int,
    inner: Seq<char>,
    per_message: bool,
    ascending: bool,
)
    ensures
        page_text(account, inner, per_message, Sort { key: SortKey::Date, ascending: false })
            == scoped(
            "SELECT {key}, date_ms FROM messages
                 WHERE deleted_at_ms IS NULL AND account_id = {account} AND {inner}
                 ORDER BY date_ms DESC, {key} DESC"@,
            account,
            inner,
            key_text(per_message),
        ),
        page_text(account, inner, per_message, Sort { key: SortKey::Date, ascending: true })
            == scoped(
            "SELECT n.k, n.d FROM (
                       SELECT {key} AS k, max(date_ms) AS d FROM messages
                        WHERE deleted_at_ms IS NULL AND account_id = {account} AND {inner}
                        GROUP BY k
                     ) n
                     ORDER BY n.d ASC, n.k ASC"@,
            account,
            inner,
            key_text(per_message),
        ),
        forall|key: SortKey|
            key != SortKey::Date ==> #[trigger] page_text(
                account,
                inner,
                per_message,
                Sort { key, ascending },
            ) == scoped(
                replace_all(
                    replace_all(
                        "SELECT n.k, n.d, {field} AS s FROM (
                       SELECT {key} AS k,
                              max(date_ms) AS d,
                              from_display, from_addr, subject
                         FROM messages
                        WHERE deleted_at_ms IS NULL AND account_id = {account} AND {inner}
                        GROUP BY k
                     ) n
                     ORDER BY nullif({field}, '') IS NULL, {field} {dir}, n.d DESC"@,
                        "{field}"@,
                        if key == SortKey::Sender {
                            "lower(coalesce(nullif(n.from_display,''), n.from_addr, ''))"@
                        } else {
                            "lower(coalesce(nullif(n.subject,''), ''))"@
                        },
                    ),
                    "{dir}"@,
                    if ascending {
                        "ASC"@
                    } else {
                        "DESC"@
                    },
                ),
                account,
                inner,
                key_text(per_message),
            ),
        key_text(false) == "coalesce(thread_id, -id)"@ && key_text(true) == "-id"@,
        joined_key_text(false) == "coalesce(m.thread_id, -m.id)"@ && joined_key_text(true)
            == "-m.id"@,
{
}

/// A count of the unread leaves out the conversations with nothing unread in
/// them, a count of all leaves out none, and both look where the view looks.
pub proof fn a_count_looks_where_the_view_looks(account: int, total: bool, id: int, role: Seq<char>)
    ensures
        having_text(true, role) == ""@,
        having_text(false, role) == replace_all(
            "HAVING max(CASE WHEN {m}flags & 1 = 0 THEN 1 ELSE 0 END) = 1"@,
            "{m}"@,
            role,
        ),
        count_text(Place::Starred, account, total) == indexed_text(
            "idx_messages_flagged"@,
            "flags & 4 != 0 AND "@ + aliased(NOT_BINNED@, "messages"@),
            account,
            total,
        ),
        count_text(Place::Snoozed, account, total) == indexed_text(
            "idx_messages_snoozed"@,
            "snoozed_until_ms IS NOT NULL
                 AND snoozed_until_ms > (strftime('%s','now') * 1000)"@,
            account,
            total,
        ),
        count_text(Place::Outbox, account, total) == indexed_text(
            "idx_messages_send_after"@,
            "send_after_ms IS NOT NULL"@,
            account,
            total,
        ),
        count_text(Place::Inbox, account, total) == placed_text(
            "SELECT p.message_id
                       FROM folders f
                       JOIN placements p ON p.folder_id = f.id
                      WHERE f.account_id = {account} AND f.role = 'inbox'"@,
            "AND (m.snoozed_until_ms IS NULL OR m.snoozed_until_ms <= (strftime('%s','now') * 1000))
                     AND "@ + aliased(NOT_BINNED@, "m"@),
            false,
            account,
            total,
        ),
        count_text(Place::UserFolder(id), account, total) == placed_text(
            replace_all(
                "SELECT message_id FROM placements WHERE folder_id = {id}"@,
                "{id}"@,
                integer(id),
            ),
            ""@,
            false,
            account,
            total,
        ),
        role != "archive"@ ==> count_text(Place::Folder(role), account, total) == placed_text(
            "SELECT p.message_id
                       FROM folders f
                       JOIN placements p ON p.folder_id = f.id
                      WHERE f.account_id = {account} AND f.role = ?3"@,
            if role == "drafts"@ {
                "AND m.send_after_ms IS NULL"@
            } else {
                ""@
            },
            role == "drafts"@,
            account,
            total,
        ) && count_bound(Place::Folder(role)) == Some(role),
        count_bound(Place::Folder("archive"@)) is None,
        count_bound(Place::Tag(role)) == Some(role),
{
}

/// A conversation's place in a listing is taken from what the listing is
/// sorted by: the name of who it is from, or else the address; or the subject.
/// Case makes no difference.
pub proof fn a_place_goes_by_what_it_is_sorted_by(key: SortKey)
    ensures
        key == SortKey::Sender ==> expr_text(key)
            == "lower(coalesce(nullif(from_display,''), from_addr, ''))"@,
        key == SortKey::Subject ==> expr_text(key) == "lower(coalesce(nullif(subject,''), ''))"@,
{
}

} // verus!

//! What a mailbox is for, worked out from its name. Every provider spells its
//! special folders differently ("Sent Items", "[Gmail]/Sent Mail", "Deleted
//! Items"), so the classification is by word, tolerant of casing.

use vstd::prelude::*;
use crate::codec;
use crate::pattern;
use crate::text;

verus! {

/// `char::from_u32`: the character with a number, if it is one of a character, that is at most
/// 0x10FFFF and no surrogate.
pub assume_specification[ char::from_u32 ](i: u32) -> (r: Option<char>)
    ensures
        match r {
            Some(c) => c == i as char && !(0xD800 <= i <= 0xDFFF || i > 0x10FFFF),
            None => 0xD800 <= i <= 0xDFFF || i > 0x10FFFF,
        },
;

/// What a mailbox is for.
#[derive(Clone, Copy, Debug, PartialEq, Eq, Hash, Structural)]
pub enum FolderRole {
    Inbox,
    Sent,
    Drafts,
    Trash,
    Junk,
    Archive,
    Starred,
    Other,
}

/// The canonical IMAP inbox name. Servers vary the casing, so this is the
/// fallback rather than something to compare against; see `inbox_name`.
pub const INBOX_MAILBOX: &'static str = "INBOX";

/// A folder that is local-only, so a sync keeps it.
pub const OUTBOX_FOLDER: &'static str = "Outbox";

/// Created on demand when the server has no folder of the role.
pub const SENT_FOLDER: &'static str = "Sent";

/// Created on demand when the server has no folder of the role.
pub const DRAFTS_FOLDER: &'static str = "Drafts";

/// Gmail nests its special folders under an unselectable "[Gmail]" container.
/// It isn't a real mailbox, so it's hidden and its children sit at the top.
pub const GMAIL_ROOT: &'static str = "[Gmail]";

/// The container's name in some countries.
pub const GOOGLE_MAIL_ROOT: &'static str = "[Google Mail]";

// --- roles ----------------------------------------------------------------

/// How servers spell the inbox, in whatever case.
pub const INBOX_SPELLING: &'static str = "inbox";

/// How servers spell the sent mailbox. Word boundaries rather than bare
/// substrings, so "Consent forms" isn't taken for Sent.
pub const SENT_PATTERN: &'static str = r"(?i)\bsent\b";

/// How servers spell the drafts mailbox.
pub const DRAFTS_PATTERN: &'static str = r"(?i)\bdrafts?\b";

/// How servers spell the trash.
pub const TRASH_PATTERN: &'static str = r"(?i)\b(trash|deleted|bin)\b";

/// How servers spell the junk mailbox.
pub const JUNK_PATTERN: &'static str = r"(?i)\b(junk|spam)\b";

/// How servers spell the archive.
pub const ARCHIVE_PATTERN: &'static str = r"(?i)\b(archives?|all mail)\b";

/// How servers spell the starred mailbox.
pub const STARRED_PATTERN: &'static str = r"(?i)\b(starred|flagged)\b";

/// Whether a name is spelled as each role is, in the order tried.
#[derive(Clone, Copy, Debug)]
pub struct RoleMatches {
    pub inbox: bool,
    pub sent: bool,
    pub drafts: bool,
    pub trash: bool,
    pub junk: bool,
    pub archive: bool,
    pub starred: bool,
}

/// Whether a name is spelled as each role is.
pub open spec fn matches_of(name: Seq<char>) -> RoleMatches {
    RoleMatches {
        inbox: text::eq_ignore_case(name, INBOX_SPELLING@),
        sent: pattern::pattern_matches(SENT_PATTERN@, name),
        drafts: pattern::pattern_matches(DRAFTS_PATTERN@, name),
        trash: pattern::pattern_matches(TRASH_PATTERN@, name),
        junk: pattern::pattern_matches(JUNK_PATTERN@, name),
        archive: pattern::pattern_matches(ARCHIVE_PATTERN@, name),
        starred: pattern::pattern_matches(STARRED_PATTERN@, name),
    }
}

/// The first role whose spelling matched, so "Sent/Drafts" is a sent mailbox rather than a drafts
/// one.
pub open spec fn role_in(matches: RoleMatches) -> FolderRole {
    if matches.inbox {
        FolderRole::Inbox
    } else if matches.sent {
        FolderRole::Sent
    } else if matches.drafts {
        FolderRole::Drafts
    } else if matches.trash {
        FolderRole::Trash
    } else if matches.junk {
        FolderRole::Junk
    } else if matches.archive {
        FolderRole::Archive
    } else if matches.starred {
        FolderRole::Starred
    } else {
        FolderRole::Other
    }
}

/// The role of the mailbox with a name.
pub open spec fn role_of(name: Seq<char>) -> FolderRole {
    role_in(matches_of(name))
}

/// The first role whose spelling matched.
pub fn first_role(matches: RoleMatches) -> (r: FolderRole)
    ensures
        r == role_in(matches),
{
    if matches.inbox {
        FolderRole::Inbox
    } else if matches.sent {
        FolderRole::Sent
    } else if matches.drafts {
        FolderRole::Drafts
    } else if matches.trash {
        FolderRole::Trash
    } else if matches.junk {
        FolderRole::Junk
    } else if matches.archive {
        FolderRole::Archive
    } else if matches.starred {
        FolderRole::Starred
    } else {
        FolderRole::Other
    }
}

/// What a mailbox is for, worked out from its name.
pub fn role_for_folder(name: &str) -> (r: FolderRole)
    ensures
        r == role_of(name@),
{
    first_role(
        RoleMatches {
            inbox: text::str_same_ignoring_case(name, INBOX_SPELLING),
            sent: pattern::is_match(SENT_PATTERN, name),
            drafts: pattern::is_match(DRAFTS_PATTERN, name),
            trash: pattern::is_match(TRASH_PATTERN, name),
            junk: pattern::is_match(JUNK_PATTERN, name),
            archive: pattern::is_match(ARCHIVE_PATTERN, name),
            starred: pattern::is_match(STARRED_PATTERN, name),
        },
    )
}

/// Whether new mail in a folder of this role and shown name deserves a notification.
pub open spec fn notifies(shown: Seq<char>, role: FolderRole) -> bool {
    &&& !text::eq_ignore_case(shown, "All Mail"@)
    &&& role != FolderRole::Junk
    &&& role != FolderRole::Trash
    &&& role != FolderRole::Sent
    &&& role != FolderRole::Drafts
}

/// Whether new mail in a folder of this role and shown name deserves a notification. Junk
/// and Trash fill up on their own, and Sent/Drafts hold the user's own mail.
/// All Mail mirrors arrivals in other folders, so notifying duplicates them.
pub fn notifies_for(shown: &str, role: FolderRole) -> (r: bool)
    ensures
        r == notifies(shown@, role),
{
    if text::str_same_ignoring_case(shown, "All Mail") {
        return false;
    }
    match role {
        FolderRole::Junk | FolderRole::Trash | FolderRole::Sent | FolderRole::Drafts => false,
        _ => true,
    }
}

/// Whether new mail landing in this folder deserves a notification.
pub fn notifies_on_arrival(name: &str) -> (r: bool)
    ensures
        r == notifies(shown_name(name@, None), role_of(name@)),
{
    notifies_for(&display_name_for_folder(name, None), role_for_folder(name))
}

/// Whether a folder of this name and role holds mail the account sent.
pub open spec fn is_outgoing(name: Seq<char>, role: FolderRole) -> bool {
    name == OUTBOX_FOLDER@ || role == FolderRole::Sent || role == FolderRole::Drafts
}

/// Whether a folder of this name and role holds mail the account sent.
pub fn is_outgoing_role(name: &str, role: FolderRole) -> (r: bool)
    ensures
        r == is_outgoing(name@, role),
{
    text::same_str(name, OUTBOX_FOLDER) || role == FolderRole::Sent || role == FolderRole::Drafts
}

/// Whether a folder holds mail this account sent, so the list shows the
/// recipient instead of the sender. Outbox is local-only and unknown to
/// `role_for_folder`, which classifies what the server offers.
pub fn is_outgoing_folder(name: &str) -> (r: bool)
    ensures
        r == is_outgoing(name@, role_of(name@)),
{
    is_outgoing_role(name, role_for_folder(name))
}

/// The texts of some string slices.
pub open spec fn str_texts(items: Seq<&str>) -> Seq<Seq<char>> {
    Seq::new(items.len(), |i: int| items[i]@)
}

/// The first name from `i` on whose mailbox has a role.
pub open spec fn first_with_role(names: Seq<Seq<char>>, role: FolderRole, i: int) -> Option<
    Seq<char>,
>
    decreases names.len() - i,
{
    if i < 0 || i >= names.len() {
        None
    } else if role_of(names[i]) == role {
        Some(names[i])
    } else {
        first_with_role(names, role, i + 1)
    }
}

/// The name of the inbox among some mailboxes.
pub open spec fn inbox_among(names: Seq<Seq<char>>) -> Seq<char> {
    match first_with_role(names, FolderRole::Inbox, 0) {
        Some(name) => name,
        None => INBOX_MAILBOX@,
    }
}

/// The mailbox this server uses for a role, or None when it lists none.
pub fn mailbox_with_role<'a>(names: &[&'a str], role: FolderRole) -> (r: Option<&'a str>)
    ensures
        match r {
            Some(name) => first_with_role(str_texts(names@), role, 0) == Some(name@),
            None => first_with_role(str_texts(names@), role, 0) is None,
        },
{
    let ghost views = str_texts(names@);
    let mut i: usize = 0;
    while i < names.len()
        invariant
            i <= names.len(),
            views == str_texts(names@),
            first_with_role(views, role, 0) == first_with_role(views, role, i as int),
        decreases names.len() - i,
    {
        if role_for_folder(names[i]) == role {
            return Some(names[i]);
        }
        i = i + 1;
    }
    None
}

/// The server's inbox mailbox: matched by role (Yahoo lists "Inbox"), with
/// the canonical name as the fallback.
pub fn inbox_name(names: &[&str]) -> (r: String)
    ensures
        r@ == inbox_among(str_texts(names@)),
{
    match mailbox_with_role(names, FolderRole::Inbox) {
        Some(name) => name.to_owned(),
        None => INBOX_MAILBOX.to_owned(),
    }
}

/// The symbolic icon for a role.
pub open spec fn icon_of(role: FolderRole) -> Seq<char> {
    match role {
        FolderRole::Inbox => "mail-unread-symbolic"@,
        FolderRole::Sent => "mail-send-symbolic"@,
        FolderRole::Drafts => "document-edit-symbolic"@,
        FolderRole::Archive => "mail-archive-symbolic"@,
        FolderRole::Trash => "user-trash-symbolic"@,
        FolderRole::Junk => "mail-mark-junk-symbolic"@,
        FolderRole::Starred => "starred-symbolic"@,
        FolderRole::Other => "folder-symbolic"@,
    }
}

/// The symbolic icon for a role.
pub fn icon_for_role(role: FolderRole) -> (r: &'static str)
    ensures
        r@ == icon_of(role),
{
    match role {
        FolderRole::Inbox => "mail-unread-symbolic",
        FolderRole::Sent => "mail-send-symbolic",
        FolderRole::Drafts => "document-edit-symbolic",
        FolderRole::Archive => "mail-archive-symbolic",
        FolderRole::Trash => "user-trash-symbolic",
        FolderRole::Junk => "mail-mark-junk-symbolic",
        FolderRole::Starred => "starred-symbolic",
        FolderRole::Other => "folder-symbolic",
    }
}

/// The symbolic icon the sidebar shows for a mailbox.
pub fn icon_for_folder(name: &str) -> (r: &'static str)
    ensures
        r@ == icon_of(role_of(name@)),
{
    icon_for_role(role_for_folder(name))
}

// --- the hierarchy --------------------------------------------------------

/// Whether a name is that of a container that is never shown.
pub open spec fn is_namespace_root(name: Seq<char>) -> bool {
    name == GMAIL_ROOT@ || name == GOOGLE_MAIL_ROOT@
}

/// Where the last delimiter stands in a name, if the delimiter is not empty.
pub open spec fn last_delimiter(name: Seq<char>, delimiter: Seq<char>) -> Option<int> {
    if delimiter.len() == 0 {
        None
    } else {
        text::rfind_text_at(name, delimiter, name.len() as int)
    }
}

/// The name of the enclosing mailbox, empty at the top level.
pub open spec fn parent_of(name: Seq<char>, delimiter: Seq<char>) -> Seq<char> {
    match last_delimiter(name, delimiter) {
        Some(at) => if is_namespace_root(name.take(at)) {
            Seq::empty()
        } else {
            name.take(at)
        },
        None => Seq::empty(),
    }
}

/// The part of a name after the last delimiter.
pub open spec fn leaf_of(name: Seq<char>, delimiter: Seq<char>) -> Seq<char> {
    match last_delimiter(name, delimiter) {
        Some(at) => name.skip((at + delimiter.len()) as int),
        None => name,
    }
}

/// A nested name is the enclosing mailbox, the delimiter and the leaf.
pub proof fn parent_and_leaf_make_the_name(name: Seq<char>, delimiter: Seq<char>)
    requires
        last_delimiter(name, delimiter) matches Some(at) && !is_namespace_root(name.take(at)),
    ensures
        parent_of(name, delimiter) + delimiter + leaf_of(name, delimiter) == name,
{
    text::rfind_text_at_is_last(name, delimiter, name.len() as int);
    let at = last_delimiter(name, delimiter).unwrap();
    assert(name.subrange(at, at + delimiter.len()) == delimiter);
    assert(name.take(at) + name.subrange(at, at + delimiter.len()) + name.skip(
        at + delimiter.len(),
    ) =~= name);
}

/// The mailbox enclosing `name`, or "" when it sits at the top level. A
/// namespace root counts as the top level, since it is never shown.
pub fn parent_mailbox_name(name: &str, delimiter: &str) -> (r: String)
    ensures
        r@ == parent_of(name@, delimiter@),
{
    if delimiter.is_empty() {
        return String::new();
    }
    let chars = text::chars_of(name);
    match text::rfind_text(&chars, &text::chars_of(delimiter)) {
        Some(at) => {
            let head = text::slice_of(&chars, 0, at);
            assert(head@ =~= name@.take(at as int));
            let parent = text::text_of(&head);
            if text::same_str(&parent, GMAIL_ROOT) || text::same_str(&parent, GOOGLE_MAIL_ROOT) {
                String::new()
            } else {
                parent
            }
        },
        None => String::new(),
    }
}

/// A name without the prefix of a container that is never shown.
pub open spec fn without_root(name: Seq<char>) -> Seq<char> {
    if text::starts_with(name, GMAIL_ROOT@ + "/"@) {
        name.skip((GMAIL_ROOT@ + "/"@).len() as int)
    } else if text::starts_with(name, GOOGLE_MAIL_ROOT@ + "/"@) {
        name.skip((GOOGLE_MAIL_ROOT@ + "/"@).len() as int)
    } else {
        name
    }
}

/// The name a row shows for a name already decoded.
pub open spec fn shown_decoded(decoded: Seq<char>, delimiter: Option<Seq<char>>) -> Seq<char> {
    match delimiter {
        Some(d) => leaf_of(without_root(decoded), d),
        None => without_root(decoded),
    }
}

/// The name a row shows.
pub open spec fn shown_name(name: Seq<char>, delimiter: Option<Seq<char>>) -> Seq<char> {
    shown_decoded(mailbox_decoded(name), delimiter)
}

/// The text behind an optional string slice.
pub open spec fn str_in(s: Option<&str>) -> Option<Seq<char>> {
    match s {
        Some(t) => Some(t@),
        None => None,
    }
}

fn strip_root(name: &[char], root: &str) -> (r: Option<Vec<char>>)
    ensures
        match r {
            Some(rest) => text::starts_with(name@, root@ + "/"@) && rest@ == name@.skip(
                (root@ + "/"@).len() as int,
            ),
            None => !text::starts_with(name@, root@ + "/"@),
        },
{
    let mut prefix = text::chars_of(root);
    text::extend_str(&mut prefix, "/");
    if text::stands_at(name, &prefix, 0) {
        let rest = text::slice_of(name, prefix.len(), name.len());
        assert(rest@ =~= name@.skip(prefix@.len() as int));
        Some(rest)
    } else {
        None
    }
}

/// The name a row shows for a name already decoded: without the Gmail
/// namespace prefix, and cut to the leaf when the row is indented under one.
pub fn display_decoded(decoded: &str, delimiter: Option<&str>) -> (r: String)
    ensures
        r@ == shown_decoded(decoded@, str_in(delimiter)),
{
    let chars = text::chars_of(decoded);
    let name = match strip_root(&chars, GMAIL_ROOT) {
        Some(rest) => rest,
        None => match strip_root(&chars, GOOGLE_MAIL_ROOT) {
            Some(rest) => rest,
            None => chars,
        },
    };
    if let Some(d) = delimiter {
        if !d.is_empty() {
            let separator = text::chars_of(d);
            if let Some(at) = text::rfind_text(&name, &separator) {
                let leaf = text::slice_of(&name, at + separator.len(), name.len());
                assert(leaf@ =~= name@.skip((at + separator@.len()) as int));
                return text::text_of(&leaf);
            }
        }
    }
    text::text_of(&name)
}

/// The name a row shows: decoded from modified UTF-7, without the Gmail
/// namespace prefix, and cut to the leaf when the row is indented under one.
pub fn display_name_for_folder(name: &str, delimiter: Option<&str>) -> (r: String)
    ensures
        r@ == shown_name(name@, str_in(delimiter)),
{
    display_decoded(&decode_mailbox_name(name), delimiter)
}

// --- modified UTF-7 -------------------------------------------------------

/// The text that UTF-16 units from `i` on encode, if they encode one.
pub open spec fn utf16_text(units: Seq<u16>, i: int) -> Option<Seq<char>>
    decreases units.len() - i,
{
    if i < 0 || i >= units.len() {
        Some(Seq::empty())
    } else if units[i] < 0xD800 || units[i] > 0xDFFF {
        match utf16_text(units, i + 1) {
            Some(rest) => Some(seq![units[i] as u32 as char] + rest),
            None => None,
        }
    } else if units[i] < 0xDC00 && i + 1 < units.len() && 0xDC00 <= units[i + 1] <= 0xDFFF {
        match utf16_text(units, i + 2) {
            Some(rest) => Some(
                seq![
                    (0x10000 + (units[i] - 0xD800) * 0x400 + (units[i + 1] - 0xDC00)) as u32 as char,
                ] + rest,
            ),
            None => None,
        }
    } else {
        None
    }
}

/// The 16-bit numbers that pairs of bytes write, the high byte first. A byte that is left over
/// counts for nothing.
pub open spec fn big_endian(bytes: Seq<u8>) -> Seq<u16> {
    Seq::new(bytes.len() / 2, |i: int| (bytes[2 * i] * 256 + bytes[2 * i + 1]) as u16)
}

/// The base64 of an encoded run, padded to groups of four as far as it has to be.
pub open spec fn padded(encoded: Seq<char>) -> Seq<char> {
    let long = text::replace_char(encoded, ',', "/"@) + "==="@;
    long.take(long.len() - long.len() % 4)
}

/// The text of a run whose bytes are known.
pub open spec fn run_text(bytes: Option<Seq<u8>>) -> Seq<char> {
    match bytes {
        Some(b) => match utf16_text(big_endian(b), 0) {
            Some(t) => t,
            None => "\u{FFFD}"@,
        },
        None => "\u{FFFD}"@,
    }
}

/// The text of an encoded run. An empty one is a literal ampersand.
pub open spec fn chunk_text(encoded: Seq<char>) -> Seq<char> {
    if encoded.len() == 0 {
        "&"@
    } else {
        run_text(codec::base64_padded(padded(encoded)))
    }
}

/// Whether a character may stand in an encoded run.
pub open spec fn is_run_char(c: char) -> bool {
    'A' <= c <= 'Z' || 'a' <= c <= 'z' || '0' <= c <= '9' || c == '+' || c == ','
}

/// Where the characters that may stand in an encoded run end, from `i` on.
pub open spec fn run_end(name: Seq<char>, i: int) -> int
    decreases name.len() - i,
{
    if 0 <= i < name.len() && is_run_char(name[i]) {
        run_end(name, i + 1)
    } else {
        i
    }
}

/// Whether an encoded run starts at a place: an ampersand, the run and a hyphen that closes it.
pub open spec fn has_run(name: Seq<char>, i: int) -> bool {
    &&& 0 <= i < name.len() && name[i] == '&'
    &&& run_end(name, i + 1) < name.len() && name[run_end(name, i + 1)] == '-'
}

/// A run ends behind its start.
pub proof fn run_end_bounds(name: Seq<char>, i: int)
    requires
        0 <= i <= name.len(),
    ensures
        i <= run_end(name, i) <= name.len(),
    decreases name.len() - i,
{
    if i < name.len() && is_run_char(name[i]) {
        run_end_bounds(name, i + 1);
    }
}

/// A mailbox name from `i` on, with its encoded runs decoded.
pub open spec fn decoded_from(name: Seq<char>, i: int) -> Seq<char>
    decreases name.len() - i,
{
    if i < 0 || i >= name.len() {
        Seq::empty()
    } else if has_run(name, i) {
        proof {
            run_end_bounds(name, i + 1);
        }
        chunk_text(name.subrange(i + 1, run_end(name, i + 1))) + decoded_from(
            name,
            run_end(name, i + 1) + 1,
        )
    } else {
        seq![name[i]] + decoded_from(name, i + 1)
    }
}

/// A mailbox name decoded from modified UTF-7.
pub open spec fn mailbox_decoded(name: Seq<char>) -> Seq<char> {
    decoded_from(name, 0)
}

proof fn plain_from(name: Seq<char>, i: int)
    requires
        0 <= i <= name.len(),
        !name.contains('&'),
    ensures
        decoded_from(name, i) == name.skip(i),
    decreases name.len() - i,
{
    if i < name.len() {
        assert(name[i] != '&') by {
            if name[i] == '&' {
                assert(name.contains('&'));
            }
        }
        plain_from(name, i + 1);
        assert(seq![name[i]] + name.skip(i + 1) =~= name.skip(i));
    } else {
        assert(name.skip(i) =~= Seq::empty());
    }
}

/// A name without an ampersand has no encoded run in it, and is left as it is.
pub proof fn plain_names_stay(name: Seq<char>)
    requires
        !name.contains('&'),
    ensures
        mailbox_decoded(name) == name,
{
    plain_from(name, 0);
    assert(name.skip(0) =~= name);
}

fn utf16_decode(units: &[u16]) -> (r: Option<Vec<char>>)
    ensures
        match r {
            Some(out) => utf16_text(units@, 0) == Some(out@),
            None => utf16_text(units@, 0) is None,
        },
{
    let mut out: Vec<char> = Vec::new();
    let mut i: usize = 0;
    while i < units.len()
        invariant
            i <= units.len(),
            match utf16_text(units@, i as int) {
                Some(rest) => utf16_text(units@, 0) == Some(out@ + rest),
                None => utf16_text(units@, 0) is None,
            },
        decreases units.len() - i,
    {
        let u: u16 = units[i];
        let ghost before = out@;
        if u < 0xD800 || u > 0xDFFF {
            match char::from_u32(u as u32) {
                Some(c) => {
                    out.push(c);
                    i = i + 1;
                    proof {
                        if let Some(rest) = utf16_text(units@, i as int) {
                            assert(before + (seq![c] + rest) =~= out@ + rest);
                        }
                    }
                },
                None => {
                    return None;
                },
            }
        } else if u < 0xDC00 && i + 1 < units.len() && 0xDC00 <= units[i + 1] && units[i + 1]
            <= 0xDFFF {
            let v: u32 = 0x10000 + (u as u32 - 0xD800) * 0x400 + (units[i + 1] as u32 - 0xDC00);
            match char::from_u32(v) {
                Some(c) => {
                    out.push(c);
                    i = i + 2;
                    proof {
                        if let Some(rest) = utf16_text(units@, i as int) {
                            assert(before + (seq![c] + rest) =~= out@ + rest);
                        }
                    }
                },
                None => {
                    return None;
                },
            }
        } else {
            return None;
        }
    }
    assert(out@ + Seq::<char>::empty() =~= out@);
    Some(out)
}

fn units_of(bytes: &[u8]) -> (r: Vec<u16>)
    ensures
        r@ == big_endian(bytes@),
{
    let mut out: Vec<u16> = Vec::new();
    let n: usize = bytes.len() / 2;
    while out.len() < n
        invariant
            n == bytes.len() / 2,
            out.len() <= n,
            forall|k: int|
                0 <= k < out.len() ==> out@[k] == (bytes@[2 * k] * 256 + bytes@[2 * k + 1]) as u16,
        decreases n - out.len(),
    {
        let i: usize = out.len();
        out.push(bytes[2 * i] as u16 * 256 + bytes[2 * i + 1] as u16);
    }
    assert(out@ =~= big_endian(bytes@));
    out
}

/// The text of an encoded run whose bytes are known: UTF-16, the high byte first.
pub fn text_of_run(bytes: Option<Vec<u8>>) -> (r: String)
    ensures
        r@ == run_text(codec::bytes_in(bytes)),
{
    match bytes {
        Some(b) => match utf16_decode(&units_of(&b)) {
            Some(chars) => text::text_of(&chars),
            None => "\u{FFFD}".to_owned(),
        },
        None => "\u{FFFD}".to_owned(),
    }
}

fn decode_chunk(encoded: &str) -> (r: String)
    ensures
        r@ == chunk_text(encoded@),
{
    if encoded.is_empty() {
        return "&".to_owned();
    }
    let mut long = text::replaced_char(&text::chars_of(encoded), ',', &text::chars_of("/"));
    text::extend_str(&mut long, "===");
    let whole: usize = long.len() - long.len() % 4;
    let cut = text::slice_of(&long, 0, whole);
    assert(cut@ =~= padded(encoded@));
    text_of_run(codec::decode_padded(&text::text_of(&cut)))
}

fn run_char(c: char) -> (r: bool)
    ensures
        r == is_run_char(c),
{
    ('A' <= c && c <= 'Z') || ('a' <= c && c <= 'z') || ('0' <= c && c <= '9') || c == '+' || c
        == ','
}

fn find_run_end(name: &[char], from: usize) -> (r: usize)
    requires
        from <= name.len(),
    ensures
        r == run_end(name@, from as int),
        from <= r <= name.len(),
{
    let mut i: usize = from;
    while i < name.len() && run_char(name[i])
        invariant
            from <= i <= name.len(),
            run_end(name@, from as int) == run_end(name@, i as int),
        decreases name.len() - i,
    {
        i = i + 1;
    }
    i
}

/// Decode a mailbox name from modified UTF-7 (RFC 3501 5.1.3), so
/// "Entw&APw-rfe" reads as "Entwürfe".
pub fn decode_mailbox_name(name: &str) -> (r: String)
    ensures
        r@ == mailbox_decoded(name@),
        !name@.contains('&') ==> r@ == name@,
{
    let chars = text::chars_of(name);
    let mut out: Vec<char> = Vec::new();
    let mut i: usize = 0;
    while i < chars.len()
        invariant
            i <= chars.len(),
            out@ + decoded_from(chars@, i as int) =~= mailbox_decoded(chars@),
        decreases chars.len() - i,
    {
        if chars[i] == '&' {
            let end: usize = find_run_end(&chars, i + 1);
            if end < chars.len() && chars[end] == '-' {
                let encoded = text::slice_of(&chars, i + 1, end);
                assert(encoded@ =~= chars@.subrange(i + 1, end as int));
                let decoded = decode_chunk(&text::text_of(&encoded));
                text::extend_str(&mut out, &decoded);
                i = end + 1;
                continue;
            }
        }
        out.push(chars[i]);
        i = i + 1;
    }
    proof {
        if !name@.contains('&') {
            plain_names_stay(name@);
        }
    }
    text::text_of(&out)
}

/// The first spelling that matches decides what a mailbox is for, and one that none matches is like
/// any other. The inbox is told by its name alone, in whatever case.
pub proof fn the_first_spelling_decides(m: RoleMatches, name: Seq<char>)
    ensures
        m.inbox ==> role_in(m) == FolderRole::Inbox,
        !m.inbox && m.sent ==> role_in(m) == FolderRole::Sent,
        !m.inbox && !m.sent && m.drafts ==> role_in(m) == FolderRole::Drafts,
        !m.inbox && !m.sent && !m.drafts && m.trash ==> role_in(m) == FolderRole::Trash,
        !m.inbox && !m.sent && !m.drafts && !m.trash && m.junk ==> role_in(m) == FolderRole::Junk,
        !m.inbox && !m.sent && !m.drafts && !m.trash && !m.junk && m.archive ==> role_in(m)
            == FolderRole::Archive,
        !m.inbox && !m.sent && !m.drafts && !m.trash && !m.junk && !m.archive && m.starred
            ==> role_in(m) == FolderRole::Starred,
        !m.inbox && !m.sent && !m.drafts && !m.trash && !m.junk && !m.archive && !m.starred
            ==> role_in(m) == FolderRole::Other,
        role_of(name) == FolderRole::Inbox <==> text::eq_ignore_case(name, "inbox"@),
{
}

/// New mail is told of where it arrives, and not where it is our own, is thrown away or is there
/// twice.
pub proof fn arrivals_are_told_once(shown: Seq<char>, role: FolderRole)
    ensures
        role == FolderRole::Junk || role == FolderRole::Trash || role == FolderRole::Sent || role
            == FolderRole::Drafts ==> !notifies(shown, role),
        text::eq_ignore_case(shown, "All Mail"@) ==> !notifies(shown, role),
        !text::eq_ignore_case(shown, "All Mail"@) && (role == FolderRole::Inbox || role
            == FolderRole::Other || role == FolderRole::Archive || role == FolderRole::Starred)
            ==> notifies(shown, role),
{
}

/// The mailbox for a role is the first that has it, and there is one wherever one has it.
pub proof fn the_first_of_a_role_is_used(names: Seq<Seq<char>>, role: FolderRole, i: int, k: int)
    requires
        0 <= i <= k <= names.len(),
        forall|j: int| i <= j < k ==> role_of(#[trigger] names[j]) != role,
        k < names.len() ==> role_of(names[k]) == role,
    ensures
        first_with_role(names, role, i) == (if k < names.len() {
            Some(names[k])
        } else {
            None
        }),
    decreases k - i,
{
    if i < k {
        assert(role_of(names[i]) != role);
        the_first_of_a_role_is_used(names, role, i + 1, k);
    }
}

proof fn decoded_shifts(p: Seq<char>, s: Seq<char>, i: int)
    requires
        0 <= i <= s.len(),
    ensures
        decoded_from(p + s, p.len() + i) == decoded_from(s, i),
    decreases s.len() - i,
{
    let w = p + s;
    let n = p.len() as int;
    if i < s.len() {
        assert(w[n + i] == s[i]);
        run_end_shifts(p, s, i + 1);
        run_end_bounds(s, i + 1);
        let end = run_end(s, i + 1);
        assert(n + (i + 1) == n + i + 1);
        if end < s.len() {
            assert(w[n + end] == s[end]);
        }
        assert(has_run(w, n + i) == has_run(s, i));
        if has_run(s, i) {
            assert(w.subrange(n + i + 1, n + end) =~= s.subrange(i + 1, end));
            decoded_shifts(p, s, end + 1);
            assert(n + (end + 1) == n + end + 1);
        } else {
            decoded_shifts(p, s, i + 1);
        }
    }
}

proof fn run_end_shifts(p: Seq<char>, s: Seq<char>, i: int)
    requires
        0 <= i <= s.len(),
    ensures
        run_end(p + s, p.len() + i) == p.len() + run_end(s, i),
    decreases s.len() - i,
{
    if i < s.len() {
        assert((p + s)[p.len() + i] == s[i]);
        if is_run_char(s[i]) {
            run_end_shifts(p, s, i + 1);
            assert(p.len() + (i + 1) == p.len() + i + 1);
        }
    }
}

proof fn run_reaches(run: Seq<char>, s: Seq<char>, i: int)
    requires
        0 <= i <= run.len(),
        forall|k: int| 0 <= k < run.len() ==> is_run_char(#[trigger] run[k]),
        s.len() > 0,
        s[0] == '-',
    ensures
        run_end(run + s, i) == run.len(),
    decreases run.len() - i,
{
    if i < run.len() {
        assert((run + s)[i] == run[i]);
        run_reaches(run, s, i + 1);
    } else {
        assert((run + s)[i] == s[0]);
    }
}

/// Every encoded run of a name is decoded, whatever stands before it, and what is not encoded stays.
/// A run with nothing in it is an ampersand.
pub proof fn every_run_is_decoded(plain: Seq<char>, run: Seq<char>, rest: Seq<char>)
    requires
        !plain.contains('&'),
        forall|k: int| 0 <= k < run.len() ==> is_run_char(#[trigger] run[k]),
    ensures
        mailbox_decoded(plain + (seq!['&'] + run + seq!['-'] + rest)) == plain + chunk_text(run)
            + mailbox_decoded(rest),
        run.len() == 0 ==> chunk_text(run) == "&"@,
    decreases plain.len(),
{
    let front = seq!['&'] + run + seq!['-'];
    let tail = front + rest;
    if plain.len() > 0 {
        let c = plain[0];
        let short = plain.skip(1);
        let w = plain + tail;
        assert(plain.contains(plain[0]));
        assert(w[0] == c);
        assert(!short.contains('&')) by {
            if short.contains('&') {
                let k = choose|k: int| 0 <= k < short.len() && short[k] == '&';
                assert(plain[k + 1] == '&');
            }
        }
        every_run_is_decoded(short, run, rest);
        assert(w =~= seq![c] + (short + tail));
        decoded_shifts(seq![c], short + tail, 0);
        assert(seq![c] + (short + chunk_text(run) + mailbox_decoded(rest)) =~= plain + chunk_text(
            run,
        ) + mailbox_decoded(rest));
    } else {
        assert(plain + tail =~= tail);
        assert(tail[0] == '&');
        let after = run + (seq!['-'] + rest);
        assert(tail =~= seq!['&'] + after);
        run_reaches(run, seq!['-'] + rest, 0);
        run_end_shifts(seq!['&'], after, 0);
        let end = 1 + run.len() as int;
        assert(run_end(tail, 1) == end);
        assert(tail[end] == '-');
        assert(has_run(tail, 0));
        assert(tail.subrange(1, end) =~= run);
        decoded_shifts(front, rest, 0);
        assert(front.len() == end + 1);
        assert(plain + chunk_text(run) + mailbox_decoded(rest) =~= chunk_text(run)
            + mailbox_decoded(rest));
    }
}

/// The UTF-16 units of a character.
pub open spec fn units_for(c: char) -> Seq<u16> {
    let n = c as u32;
    if n < 0x10000 {
        seq![n as u16]
    } else {
        seq![
            (0xD800 + (n - 0x10000) / 0x400) as u16,
            (0xDC00 + (n - 0x10000) % 0x400) as u16,
        ]
    }
}

/// The UTF-16 units of a text.
pub open spec fn units_for_text(s: Seq<char>) -> Seq<u16>
    decreases s.len(),
{
    if s.len() == 0 {
        Seq::empty()
    } else {
        units_for(s[0]) + units_for_text(s.skip(1))
    }
}

proof fn utf16_shifts(p: Seq<u16>, u: Seq<u16>, i: int)
    requires
        0 <= i <= u.len(),
    ensures
        utf16_text(p + u, p.len() + i) == utf16_text(u, i),
    decreases u.len() - i,
{
    let w = p + u;
    let n = p.len() as int;
    if i < u.len() {
        assert(w[n + i] == u[i]);
        assert(n + (i + 1) == n + i + 1 && n + (i + 2) == n + i + 2);
        utf16_shifts(p, u, i + 1);
        if i + 1 < u.len() {
            assert(w[n + i + 1] == u[i + 1]);
            utf16_shifts(p, u, i + 2);
        }
    }
}

proof fn units_read_back(c: char)
    ensures
        ({
            let u = units_for(c);
            ||| u.len() == 1 && (u[0] < 0xD800 || u[0] > 0xDFFF) && u[0] as u32 as char == c
            ||| u.len() == 2 && 0xD800 <= u[0] < 0xDC00 && 0xDC00 <= u[1] <= 0xDFFF && (0x10000 + (
            u[0] - 0xD800) * 0x400 + (u[1] - 0xDC00)) as u32 as char == c
        }),
{
    let n = c as u32;
    if n >= 0x10000 {
        assert((n - 0x10000) / 0x400 * 0x400 + (n - 0x10000) % 0x400 == n - 0x10000);
    }
}

/// A text in UTF-16 is read back.
pub proof fn utf16_reads_back(s: Seq<char>)
    ensures
        utf16_text(units_for_text(s), 0) == Some(s),
    decreases s.len(),
{
    let u = units_for_text(s);
    if s.len() == 0 {
        assert(s =~= Seq::empty());
    } else {
        let rest = s.skip(1);
        utf16_reads_back(rest);
        let head = units_for(s[0]);
        utf16_shifts(head, units_for_text(rest), 0);
        assert(seq![s[0]] + rest =~= s);
        units_read_back(s[0]);
        assert(u[0] == head[0]);
        if head.len() > 1 {
            assert(u[1] == head[1]);
        }
    }
}

/// What stands below a container that is never shown stands at the top, under its own name.
pub proof fn hidden_containers_are_left_out(leaf: Seq<char>)
    ensures
        without_root("[Gmail]/"@ + leaf) == leaf,
        without_root("[Google Mail]/"@ + leaf) == leaf,
{
    reveal_strlit("[Gmail]");
    reveal_strlit("[Google Mail]");
    reveal_strlit("[Gmail]/");
    reveal_strlit("[Google Mail]/");
    reveal_strlit("/");
    let a = "[Gmail]/"@ + leaf;
    let b = "[Google Mail]/"@ + leaf;
    assert("[Gmail]"@ + "/"@ =~= "[Gmail]/"@);
    assert("[Google Mail]"@ + "/"@ =~= "[Google Mail]/"@);
    assert(a.subrange(0, 8) =~= "[Gmail]/"@);
    assert(b.subrange(0, 14) =~= "[Google Mail]/"@);
    assert(b[2] == 'o');
    assert("[Gmail]/"@[2] == 'm');
    assert(b.subrange(0, 8)[2] == 'o');
    assert(a.skip(8) =~= leaf);
    assert(b.skip(14) =~= leaf);
}

/// A row shows the last part of a nested name, which the delimiter cuts no further.
pub proof fn rows_show_the_last_part(parent: Seq<char>, leaf: Seq<char>, c: char)
    requires
        !leaf.contains(c),
        without_root(parent + seq![c] + leaf) == parent + seq![c] + leaf,
    ensures
        shown_decoded(parent + seq![c] + leaf, Some(seq![c])) == leaf,
        shown_decoded(parent + seq![c] + leaf, None) == parent + seq![c] + leaf,
{
    let name = parent + seq![c] + leaf;
    let d = seq![c];
    text::rfind_text_at_is_last(name, d, name.len() as int);
    let n = parent.len() as int;
    assert(name.subrange(n, n + 1) =~= d);
    assert(text::matches_at(name, d, n));
    let at = last_delimiter(name, d);
    assert(at is Some);
    let k = at.unwrap();
    assert(name.subrange(k, k + 1)[0] == name[k]);
    if k > n {
        assert(leaf[k - n - 1] == name[k]);
        assert(leaf.contains(leaf[k - n - 1]));
    }
    assert(name.skip(n + 1) =~= leaf);
}

/// An encoded run is padded to whole groups of four: all of it stands in them, with a slash where it
/// had a comma, and fewer than four equals signs follow.
pub proof fn runs_are_padded(encoded: Seq<char>)
    requires
        !encoded.contains(','),
    ensures
        padded(encoded).len() % 4 == 0,
        encoded.is_prefix_of(padded(encoded)),
        padded(encoded).len() - encoded.len() < 4,
        forall|i: int|
            encoded.len() <= i < padded(encoded).len() ==> #[trigger] padded(encoded)[i] == '=',
        padded(seq![',']) == "/==="@,
{
    reveal_strlit("===");
    reveal_strlit("/===");
    reveal_strlit("/");
    nothing_is_replaced(encoded, 0);
    assert(encoded.skip(0) =~= encoded);
    let long = encoded + "==="@;
    let n = long.len() as int;
    assert(padded(encoded) == long.take(n - n % 4));
    assert(padded(encoded).subrange(0, encoded.len() as int) =~= encoded);
    let comma = seq![','];
    reveal_with_fuel(text::replace_char_from, 2);
    assert(text::replace_char(comma, ',', "/"@) =~= "/"@);
    assert(("/"@ + "==="@).take(4) =~= "/==="@);
}

proof fn nothing_is_replaced(s: Seq<char>, i: int)
    requires
        0 <= i <= s.len(),
        !s.contains(','),
    ensures
        text::replace_char_from(s, ',', "/"@, i) == s.skip(i),
    decreases s.len() - i,
{
    if i < s.len() {
        assert(s.contains(s[i]));
        nothing_is_replaced(s, i + 1);
        assert(seq![s[i]] + s.skip(i + 1) =~= s.skip(i));
    } else {
        assert(s.skip(i) =~= Seq::empty());
    }
}

/// Rows name the recipient in the folders of what is or was sent, and new mail is told of in none of
/// these but the Outbox, which nothing arrives in.
pub proof fn sent_mail_is_outgoing(name: Seq<char>, role: FolderRole)
    ensures
        role == FolderRole::Sent || role == FolderRole::Drafts ==> is_outgoing(name, role)
            && !notifies(name, role),
        is_outgoing(OUTBOX_FOLDER@, role),
        role == FolderRole::Inbox && name != OUTBOX_FOLDER@ ==> !is_outgoing(name, role),
{
}

} // verus!

//! Turning a raw failure into the one distinction the UI acts on (was it
//! the password?) and a friendly description that the interface translates.

use vstd::prelude::*;
use crate::pattern;
use crate::text;

verus! {

/// What kind of socket failure there was.
#[derive(Clone, Copy, Debug, PartialEq, Eq, Structural)]
pub enum SocketKind {
    Refused,
    TimedOut,
    WouldBlock,
    Other,
}

/// A socket failure and its own words.
#[derive(Clone, Debug, PartialEq, Eq)]
pub struct SocketFailure {
    pub kind: SocketKind,
    pub message: String,
}

/// What an IMAP session failed with.
#[derive(Clone, Debug, PartialEq, Eq)]
pub enum ImapKind {
    Io(SocketFailure),
    Tls,
    /// The server refused a command, in these words.
    No { information: String },
    /// The server did not understand a command, in these words.
    Bad { information: String },
    /// The server hung up, in these words.
    Bye { information: String },
    ConnectionLost,
    Other,
}

/// Everything a network operation can fail with. Each failure of another crate comes with the
/// text that crate gives it.
#[derive(Clone, Debug, PartialEq, Eq)]
pub enum NetError {
    Imap { text: String, kind: ImapKind },
    Smtp {
        text: String,
        /// The reply code, where the server sent one.
        status: Option<String>,
        is_tls: bool,
        is_timeout: bool,
        /// The socket failure underneath.
        source: Option<SocketFailure>,
    },
    Io(SocketFailure),
    Tls(String),
    /// A protocol-level problem in our own handling ("not connected",
    /// "no message body returned"), named after the resource involved.
    Protocol(String),
    /// The keyring or GNOME Online Accounts had nothing to sign in with.
    NoCredential(String),
}

/// What went wrong, in terms the user can act on. The interface turns each
/// variant into a translated sentence.
#[derive(Clone, Debug, PartialEq, Eq)]
pub enum Failure {
    /// The server rejected the credentials: the one failure no Retry fixes.
    Auth,
    /// TLS could not be established with `host`.
    Tls { host: String },
    /// `host` does not resolve.
    NotFound { host: String },
    /// `host` refused the connection (probably the port).
    Refused { host: String },
    /// Connecting to `host` timed out.
    Timeout { host: String },
    /// Some other socket failure: no route, connection dropped.
    Unreachable,
    /// The server said no, in its own words.
    Server(String),
    /// Nothing to sign in with.
    NoCredential,
}

/// What a failure says.
pub enum FailureView {
    Auth,
    Tls { host: Seq<char> },
    NotFound { host: Seq<char> },
    Refused { host: Seq<char> },
    Timeout { host: Seq<char> },
    Unreachable,
    Server(Seq<char>),
    NoCredential,
}

impl View for Failure {
    type V = FailureView;

    open spec fn view(&self) -> FailureView {
        match self {
            Failure::Auth => FailureView::Auth,
            Failure::Tls { host } => FailureView::Tls { host: host@ },
            Failure::NotFound { host } => FailureView::NotFound { host: host@ },
            Failure::Refused { host } => FailureView::Refused { host: host@ },
            Failure::Timeout { host } => FailureView::Timeout { host: host@ },
            Failure::Unreachable => FailureView::Unreachable,
            Failure::Server(t) => FailureView::Server(t@),
            Failure::NoCredential => FailureView::NoCredential,
        }
    }
}

impl Failure {
    /// Whether the server rejected the credentials.
    pub fn is_auth(&self) -> (r: bool)
        ensures
            r == (self is Auth),
    {
        match self {
            Failure::Auth => true,
            _ => false,
        }
    }
}

/// Whether a text says that the server rejected the credentials.
pub open spec fn says_auth(t: Seq<char>) -> bool {
    let lower = text::lowercase(t);
    ||| text::contains_text(lower, "authenticationfailed"@)
    ||| text::contains_text(lower, "authentication failed"@)
    ||| text::contains_text(lower, "invalid credentials"@)
    ||| text::contains_text(lower, "username and password not accepted"@)
    ||| text::contains_text(lower, "login failed"@)
    ||| text::contains_text(lower, "5.7.8"@)
    ||| text::contains_text(lower, "authentication unsuccessful"@)
}

/// Whether a text says that a host does not resolve.
pub open spec fn says_not_found(t: Seq<char>) -> bool {
    let lower = text::lowercase(t);
    ||| text::contains_text(lower, "lookup"@)
    ||| text::contains_text(lower, "name or service"@)
    ||| text::contains_text(lower, "resolve"@)
}

/// What a socket failure means.
pub open spec fn socket_meaning(failure: SocketFailure, host: Seq<char>) -> FailureView {
    match failure.kind {
        SocketKind::Refused => FailureView::Refused { host },
        SocketKind::TimedOut => FailureView::Timeout { host },
        SocketKind::WouldBlock => FailureView::Timeout { host },
        SocketKind::Other => if says_not_found(failure.message@) {
            FailureView::NotFound { host }
        } else {
            FailureView::Unreachable
        },
    }
}

/// What a refusal of the server means: its words, unless they speak of the credentials.
pub open spec fn refusal_meaning(whole: Seq<char>, information: Seq<char>) -> FailureView {
    if says_auth(whole) {
        FailureView::Auth
    } else {
        FailureView::Server(information)
    }
}

/// What an IMAP failure means.
pub open spec fn imap_meaning(whole: Seq<char>, kind: ImapKind, host: Seq<char>) -> FailureView {
    match kind {
        ImapKind::Io(failure) => socket_meaning(failure, host),
        ImapKind::Tls => FailureView::Tls { host },
        ImapKind::No { information } => refusal_meaning(whole, information@),
        ImapKind::Bad { information } => refusal_meaning(whole, information@),
        ImapKind::Bye { information } => FailureView::Server(information@),
        ImapKind::ConnectionLost => FailureView::Unreachable,
        ImapKind::Other => FailureView::Server(whole),
    }
}

/// Whether a reply code says that the credentials are invalid (RFC 4954).
pub open spec fn is_auth_status(status: Option<String>) -> bool {
    status is Some && text::starts_with(status.unwrap()@, "535"@)
}

/// What an SMTP failure means.
pub open spec fn smtp_meaning(
    whole: Seq<char>,
    status: Option<String>,
    is_tls: bool,
    is_timeout: bool,
    source: Option<SocketFailure>,
    host: Seq<char>,
) -> FailureView {
    if is_auth_status(status) || says_auth(whole) {
        FailureView::Auth
    } else if is_tls {
        FailureView::Tls { host }
    } else if is_timeout {
        FailureView::Timeout { host }
    } else {
        match source {
            Some(failure) => socket_meaning(failure, host),
            None => FailureView::Server(whole),
        }
    }
}

/// What a failure means.
pub open spec fn meaning(error: NetError, host: Seq<char>) -> FailureView {
    match error {
        NetError::Io(failure) => socket_meaning(failure, host),
        NetError::Tls(_) => FailureView::Tls { host },
        NetError::NoCredential(_) => FailureView::NoCredential,
        NetError::Protocol(t) => FailureView::Server(t@),
        NetError::Imap { text, kind } => imap_meaning(text@, kind, host),
        NetError::Smtp { text, status, is_tls, is_timeout, source } => smtp_meaning(
            text@,
            status,
            is_tls,
            is_timeout,
            source,
            host,
        ),
    }
}

/// Whether a text says that the server rejected the credentials.
pub fn is_auth_text(text: &str) -> (r: bool)
    ensures
        r == says_auth(text@),
{
    let lower = text::to_lowercase(text);
    text::str_has(&lower, "authenticationfailed") || text::str_has(
        &lower,
        "authentication failed",
    ) || text::str_has(&lower, "invalid credentials") || text::str_has(
        &lower,
        "username and password not accepted",
    ) || text::str_has(&lower, "login failed") || text::str_has(&lower, "5.7.8") || text::str_has(
        &lower,
        "authentication unsuccessful",
    )
}

fn classify_io(failure: &SocketFailure, host: &str) -> (r: Failure)
    ensures
        r@ == socket_meaning(*failure, host@),
{
    match failure.kind {
        SocketKind::Refused => Failure::Refused { host: host.to_owned() },
        SocketKind::TimedOut => Failure::Timeout { host: host.to_owned() },
        SocketKind::WouldBlock => Failure::Timeout { host: host.to_owned() },
        SocketKind::Other => {
            let lower = text::to_lowercase(&failure.message);
            if text::str_has(&lower, "lookup") || text::str_has(&lower, "name or service")
                || text::str_has(&lower, "resolve") {
                Failure::NotFound { host: host.to_owned() }
            } else {
                Failure::Unreachable
            }
        },
    }
}

fn classify_refusal(whole: &str, information: &str) -> (r: Failure)
    ensures
        r@ == refusal_meaning(whole@, information@),
{
    if is_auth_text(whole) {
        Failure::Auth
    } else {
        Failure::Server(information.to_owned())
    }
}

/// Classify a failure against the host it was talking to.
pub fn classify(error: &NetError, host: &str) -> (r: Failure)
    ensures
        r@ == meaning(*error, host@),
{
    match error {
        NetError::Io(failure) => classify_io(failure, host),
        NetError::Tls(_) => Failure::Tls { host: host.to_owned() },
        NetError::NoCredential(_) => Failure::NoCredential,
        NetError::Protocol(t) => Failure::Server(t.clone()),
        NetError::Imap { text, kind } => match kind {
            ImapKind::Io(failure) => classify_io(failure, host),
            ImapKind::Tls => Failure::Tls { host: host.to_owned() },
            ImapKind::No { information } => classify_refusal(text, information),
            ImapKind::Bad { information } => classify_refusal(text, information),
            ImapKind::Bye { information } => Failure::Server(information.clone()),
            ImapKind::ConnectionLost => Failure::Unreachable,
            ImapKind::Other => Failure::Server(text.clone()),
        },
        NetError::Smtp { text, status, is_tls, is_timeout, source } => {
            // 535 is "authentication credentials invalid" (RFC 4954).
            let rejected: bool = match status {
                Some(code) => text::str_starts(code, "535"),
                None => false,
            };
            if rejected || is_auth_text(text) {
                return Failure::Auth;
            }
            if *is_tls {
                return Failure::Tls { host: host.to_owned() };
            }
            if *is_timeout {
                return Failure::Timeout { host: host.to_owned() };
            }
            match source {
                Some(failure) => classify_io(failure, host),
                None => Failure::Server(text.clone()),
            }
        },
    }
}

/// How a failure reads in a log.
pub open spec fn error_text(error: NetError) -> Seq<char> {
    match error {
        NetError::Imap { text, kind } => "IMAP: "@ + text@,
        NetError::Smtp { text, status, is_tls, is_timeout, source } => "SMTP: "@ + text@,
        NetError::Io(failure) => failure.message@,
        NetError::Tls(t) => "TLS: "@ + t@,
        NetError::Protocol(t) => t@,
        NetError::NoCredential(t) => "no credential for "@ + t@,
    }
}

fn tagged(tag: &str, t: &str) -> (r: String)
    ensures
        r@ == tag@ + t@,
{
    let mut out = text::chars_of(tag);
    text::extend_str(&mut out, t);
    text::text_of(&out)
}

impl NetError {
    /// How the failure reads in a log.
    pub fn message(&self) -> (r: String)
        ensures
            r@ == error_text(*self),
    {
        match self {
            NetError::Imap { text, .. } => tagged("IMAP: ", text),
            NetError::Smtp { text, .. } => tagged("SMTP: ", text),
            NetError::Io(failure) => failure.message.clone(),
            NetError::Tls(t) => tagged("TLS: ", t),
            NetError::Protocol(t) => t.clone(),
            NetError::NoCredential(t) => tagged("no credential for ", t),
        }
    }
}

// --- links in server messages ---------------------------------------------

/// A bare link. Trailing punctuation is sentence, not link.
pub const URL_PATTERN: &'static str = r"https?://[^\s<>]*[^\s<>.,;:)\]]";

/// The hexadecimal digits of a number, in lower case, without leading zeros.
pub open spec fn hex_digits(n: nat) -> Seq<char>
    decreases n,
{
    if n < 16 {
        seq![crate::codec::hex_digit(n as int)]
    } else {
        hex_digits(n / 16).push(crate::codec::hex_digit((n % 16) as int))
    }
}

/// Whether a character is a control character that markup writes by its number.
pub open spec fn is_control(c: char) -> bool {
    let u = c as u32;
    ||| 0x01 <= u <= 0x08
    ||| 0x0b <= u <= 0x0c
    ||| 0x0e <= u <= 0x1f
    ||| 0x7f <= u <= 0x84
    ||| 0x86 <= u <= 0x9f
}

/// What stands for a character in Pango markup.
pub open spec fn markup_char(c: char) -> Seq<char> {
    if c == '&' {
        "&amp;"@
    } else if c == '<' {
        "&lt;"@
    } else if c == '>' {
        "&gt;"@
    } else if c == '\'' {
        "&#39;"@
    } else if c == '"' {
        "&quot;"@
    } else if is_control(c) {
        "&#x"@ + hex_digits((c as u32) as nat) + ";"@
    } else {
        seq![c]
    }
}

/// The text from `i` on, escaped for Pango markup.
pub open spec fn markup_from(s: Seq<char>, i: int) -> Seq<char>
    decreases s.len() - i,
{
    if i < 0 || i >= s.len() {
        Seq::empty()
    } else {
        markup_char(s[i]) + markup_from(s, i + 1)
    }
}

/// A link in Pango markup.
pub open spec fn anchor(url: Seq<char>) -> Seq<char> {
    "<a href=\""@ + url + "\">"@ + url + "</a>"@
}

/// The links among the matches of the pattern.
pub open spec fn anchors(found: Seq<Seq<Option<Seq<char>>>>) -> Seq<Seq<char>> {
    Seq::new(found.len(), |i: int| anchor(found[i][0].unwrap()))
}

/// An escaped text with its bare links turned into links.
pub open spec fn linked(escaped: Seq<char>) -> Seq<char> {
    pattern::interleave(
        pattern::pattern_gaps(URL_PATTERN@, escaped),
        anchors(pattern::pattern_groups(URL_PATTERN@, escaped)),
        0,
    )
}

fn to_hex(n: u32) -> (out: Vec<char>)
    ensures
        out@ == hex_digits(n as nat),
    decreases n,
{
    let d: u8 = (n % 16) as u8;
    let c: char = if d < 10 {
        (48 + d) as char
    } else {
        (87 + d) as char
    };
    if n < 16 {
        let mut out: Vec<char> = Vec::new();
        out.push(c);
        out
    } else {
        let mut out = to_hex(n / 16);
        out.push(c);
        out
    }
}

fn control(c: char) -> (r: bool)
    ensures
        r == is_control(c),
{
    let u: u32 = c as u32;
    (0x01 <= u && u <= 0x08) || (0x0b <= u && u <= 0x0c) || (0x0e <= u && u <= 0x1f) || (0x7f <= u
        && u <= 0x84) || (0x86 <= u && u <= 0x9f)
}

/// Escapes a text for Pango markup.
pub fn markup_escape(text: &str) -> (r: String)
    ensures
        r@ == markup_from(text@, 0),
{
    let s = text::chars_of(text);
    let mut out: Vec<char> = Vec::new();
    let mut i: usize = 0;
    while i < s.len()
        invariant
            i <= s.len(),
            out@ + markup_from(s@, i as int) =~= markup_from(s@, 0),
        decreases s.len() - i,
    {
        let c = s[i];
        if c == '&' {
            text::extend_str(&mut out, "&amp;");
        } else if c == '<' {
            text::extend_str(&mut out, "&lt;");
        } else if c == '>' {
            text::extend_str(&mut out, "&gt;");
        } else if c == '\'' {
            text::extend_str(&mut out, "&#39;");
        } else if c == '"' {
            text::extend_str(&mut out, "&quot;");
        } else if control(c) {
            text::extend_str(&mut out, "&#x");
            text::extend(&mut out, &to_hex(c as u32));
            text::extend_str(&mut out, ";");
        } else {
            out.push(c);
        }
        i = i + 1;
    }
    text::text_of(&out)
}

proof fn hex_digits_are_inert(n: nat, k: int)
    requires
        0 <= k < hex_digits(n).len(),
    ensures
        hex_digits(n)[k] != '<' && hex_digits(n)[k] != '>' && hex_digits(n)[k] != '"' && hex_digits(
            n,
        )[k] != '\'',
    decreases n,
{
    if n >= 16 {
        if k < hex_digits(n / 16).len() {
            hex_digits_are_inert(n / 16, k);
        }
    }
}

/// An escaped text holds nothing that starts or ends a tag or an attribute.
pub proof fn escaped_markup_is_inert(s: Seq<char>, i: int, k: int)
    requires
        0 <= i,
        0 <= k < markup_from(s, i).len(),
    ensures
        markup_from(s, i)[k] != '<' && markup_from(s, i)[k] != '>' && markup_from(s, i)[k] != '"'
            && markup_from(s, i)[k] != '\'',
    decreases s.len() - i,
{
    reveal_strlit("&amp;");
    reveal_strlit("&lt;");
    reveal_strlit("&gt;");
    reveal_strlit("&#39;");
    reveal_strlit("&quot;");
    reveal_strlit("&#x");
    reveal_strlit(";");
    if i < s.len() {
        let head = markup_char(s[i]);
        let rest = markup_from(s, i + 1);
        assert(markup_from(s, i) =~= head + rest);
        if k >= head.len() {
            escaped_markup_is_inert(s, i + 1, k - head.len());
            assert((head + rest)[k] == rest[k - head.len()]);
        } else if is_control(s[i]) {
            let digits = hex_digits((s[i] as u32) as nat);
            if 3 <= k < 3 + digits.len() {
                hex_digits_are_inert((s[i] as u32) as nat, k - 3);
                assert(head[k] == digits[k - 3]);
            }
        }
    }
}

/// The link markup for some links.
pub fn anchors_for(urls: &[String]) -> (r: Vec<String>)
    ensures
        r.len() == urls.len(),
        forall|i: int| 0 <= i < r.len() ==> (#[trigger] r@[i])@ == anchor(urls@[i]@),
{
    let mut out: Vec<String> = Vec::new();
    while out.len() < urls.len()
        invariant
            out.len() <= urls.len(),
            forall|i: int| 0 <= i < out.len() ==> (#[trigger] out@[i])@ == anchor(urls@[i]@),
        decreases urls.len() - out.len(),
    {
        let url = &urls[out.len()];
        let mut link = text::chars_of("<a href=\"");
        text::extend_str(&mut link, url);
        text::extend_str(&mut link, "\">");
        text::extend_str(&mut link, url);
        text::extend_str(&mut link, "</a>");
        out.push(text::text_of(&link));
    }
    out
}

/// Server messages often carry a help URL ("Application-specific password
/// required: https://support.google.com/..."). The banner renders Pango
/// markup, so escape the text first, then turn bare URLs into links. Trailing
/// punctuation is sentence, not URL: "see https://x/y." keeps the dot out.
pub fn linkify(text: &str) -> (r: String)
    ensures
        r@ == linked(markup_from(text@, 0)),
{
    let escaped = markup_escape(text);
    let gaps = pattern::gaps(URL_PATTERN, &escaped);
    let found = pattern::matches(URL_PATTERN, &escaped);
    let urls = pattern::first_groups(&found);
    let links = anchors_for(&urls);
    proof {
        let groups = pattern::groups_view(found@);
        assert forall|i: int| 0 <= i < groups.len() implies #[trigger] anchors(groups)[i]
            == text::texts(links@)[i] by {
            assert(groups[i] == pattern::match_view(found@[i]@));
            assert(groups[i][0] == pattern::group_text(found@[i]@[0]));
            assert(links@[i]@ == anchor(urls@[i]@));
        }
        assert(anchors(groups) =~= text::texts(links@));
    }
    text::text_of(&pattern::woven(&gaps, &links))
}

/// Whatever words of a server speak of the credentials, in whatever case and wherever they stand, are
/// taken to do so.
pub proof fn refusals_tell_of_credentials(before: Seq<char>, after: Seq<char>, t: Seq<char>)
    ensures
        text::lowercase(t) == before + "authenticationfailed"@ + after ==> says_auth(t),
        text::lowercase(t) == before + "authentication failed"@ + after ==> says_auth(t),
        text::lowercase(t) == before + "invalid credentials"@ + after ==> says_auth(t),
        text::lowercase(t) == before + "username and password not accepted"@ + after ==> says_auth(
            t,
        ),
        text::lowercase(t) == before + "login failed"@ + after ==> says_auth(t),
        text::lowercase(t) == before + "5.7.8"@ + after ==> says_auth(t),
        text::lowercase(t) == before + "authentication unsuccessful"@ + after ==> says_auth(t),
        text::lowercase(t) == before + "lookup"@ + after ==> says_not_found(t),
        text::lowercase(t) == before + "name or service"@ + after ==> says_not_found(t),
        text::lowercase(t) == before + "resolve"@ + after ==> says_not_found(t),
{
    text::holds_what_it_is_made_of(before, "authenticationfailed"@, after);
    text::holds_what_it_is_made_of(before, "authentication failed"@, after);
    text::holds_what_it_is_made_of(before, "invalid credentials"@, after);
    text::holds_what_it_is_made_of(before, "username and password not accepted"@, after);
    text::holds_what_it_is_made_of(before, "login failed"@, after);
    text::holds_what_it_is_made_of(before, "5.7.8"@, after);
    text::holds_what_it_is_made_of(before, "authentication unsuccessful"@, after);
    text::holds_what_it_is_made_of(before, "lookup"@, after);
    text::holds_what_it_is_made_of(before, "name or service"@, after);
    text::holds_what_it_is_made_of(before, "resolve"@, after);
}

/// A failure of the socket means the same whichever protocol met it, and one of the credentials is
/// told wherever the server speaks of it.
pub proof fn failures_mean_the_same_everywhere(
    failure: SocketFailure,
    whole: String,
    said: String,
    host: Seq<char>,
)
    ensures
        meaning(NetError::Io(failure), host) == meaning(
            NetError::Imap { text: whole, kind: ImapKind::Io(failure) },
            host,
        ),
        !says_auth(whole@) ==> meaning(NetError::Io(failure), host) == meaning(
            NetError::Smtp {
                text: whole,
                status: None,
                is_tls: false,
                is_timeout: false,
                source: Some(failure),
            },
            host,
        ),
        says_auth(whole@) ==> meaning(
            NetError::Imap { text: whole, kind: ImapKind::No { information: said } },
            host,
        ) == FailureView::Auth,
        !says_auth(whole@) ==> meaning(
            NetError::Imap { text: whole, kind: ImapKind::No { information: said } },
            host,
        ) == FailureView::Server(said@),
        failure.kind == SocketKind::Refused ==> meaning(NetError::Io(failure), host)
            == (FailureView::Refused { host }),
        failure.kind == SocketKind::TimedOut ==> meaning(NetError::Io(failure), host)
            == (FailureView::Timeout { host }),
{
}

/// Escaping goes character by character.
pub proof fn markup_adds_up(a: Seq<char>, b: Seq<char>, i: int)
    requires
        0 <= i <= a.len(),
    ensures
        markup_from(a + b, i) == markup_from(a, i) + markup_from(b, 0),
    decreases a.len() - i,
{
    if i < a.len() {
        assert((a + b)[i] == a[i]);
        markup_adds_up(a, b, i + 1);
        assert(markup_from(a + b, i) =~= markup_from(a, i) + markup_from(b, 0));
    } else {
        markup_shifts(a, b, 0);
        assert(markup_from(a + b, i) =~= markup_from(a, i) + markup_from(b, 0));
    }
}

proof fn markup_shifts(p: Seq<char>, s: Seq<char>, i: int)
    requires
        0 <= i <= s.len(),
    ensures
        markup_from(p + s, p.len() + i) == markup_from(s, i),
    decreases s.len() - i,
{
    if i < s.len() {
        assert((p + s)[p.len() + i] == s[i]);
        markup_shifts(p, s, i + 1);
        assert(p.len() + (i + 1) == p.len() + i + 1);
    }
}

/// Every bare link of a text becomes a link to itself, and what stands between the links stays.
pub proof fn every_link_is_linked(escaped: Seq<char>)
    ensures
        ({
            let found = pattern::pattern_groups(URL_PATTERN@, escaped);
            linked(escaped) == pattern::interleave(
                pattern::pattern_gaps(URL_PATTERN@, escaped),
                Seq::new(
                    found.len(),
                    |i: int|
                        "<a href=\""@ + found[i][0].unwrap() + "\">"@ + found[i][0].unwrap()
                            + "</a>"@,
                ),
                0,
            )
        }),
{
    let found = pattern::pattern_groups(URL_PATTERN@, escaped);
    assert(anchors(found) =~= Seq::new(
        found.len(),
        |i: int| "<a href=\""@ + found[i][0].unwrap() + "\">"@ + found[i][0].unwrap() + "</a>"@,
    ));
}

/// What an SMTP server, a secure connection or a socket reports is told as what it is: rejected
/// credentials before anything else, then a failed handshake, then a timeout. A failure that tells
/// of a host tells of the one that was connected to.
pub proof fn failures_tell_what_happened(
    whole: String,
    status: Option<String>,
    is_tls: bool,
    is_timeout: bool,
    failure: SocketFailure,
    source: Option<SocketFailure>,
    host: Seq<char>,
)
    ensures
        ({
            let told = meaning(
                NetError::Smtp { text: whole, status, is_tls, is_timeout, source },
                host,
            );
            let is_rejected = says_auth(whole@) || (status is Some && text::starts_with(
                status.unwrap()@,
                "535"@,
            ));
            &&& is_rejected ==> told is Auth
            &&& !is_rejected && is_tls ==> told == FailureView::Tls { host }
            &&& !is_rejected && !is_tls && is_timeout ==> told == FailureView::Timeout { host }
            &&& !is_rejected && !is_tls && !is_timeout && source is None ==> told
                == FailureView::Server(whole@)
        }),
        meaning(NetError::Tls(whole), host) == (FailureView::Tls { host }),
        meaning(NetError::Imap { text: whole, kind: ImapKind::Tls }, host) == (
        FailureView::Tls { host }),
        meaning(NetError::Imap { text: whole, kind: ImapKind::ConnectionLost }, host)
            == FailureView::Unreachable,
        failure.kind == SocketKind::WouldBlock ==> meaning(NetError::Io(failure), host) == (
        FailureView::Timeout { host }),
        failure.kind == SocketKind::Other && says_not_found(failure.message@) ==> meaning(
            NetError::Io(failure),
            host,
        ) == (FailureView::NotFound { host }),
        failure.kind == SocketKind::Other && !says_not_found(failure.message@) ==> meaning(
            NetError::Io(failure),
            host,
        ) == FailureView::Unreachable,
        meaning(NetError::Protocol(whole), host) == FailureView::Server(whole@),
{
}

} // verus!

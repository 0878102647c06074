//! Reading mail accounts out of what GNOME Online Accounts says of them. Tokens are fetched live
//! on every operation rather than copied into the keyring, since they expire hourly.

use vstd::prelude::*;
use crate::models;
use crate::models::Security;
use crate::net::auth::{Credential, Mechanism};
use crate::sort;
use crate::text;

verus! {

broadcast use vstd::seq_lib::group_to_multiset_ensures;

/// The name of the service on the bus.
pub const BUS_NAME: &'static str = "org.gnome.OnlineAccounts";

/// Where the service keeps its objects.
pub const OBJECT_PATH: &'static str = "/org/gnome/OnlineAccounts";

/// The interface that lists objects.
pub const OBJECT_MANAGER: &'static str = "org.freedesktop.DBus.ObjectManager";

/// The interface of an account.
pub const ACCOUNT: &'static str = "org.gnome.OnlineAccounts.Account";

/// The interface of an account's mail.
pub const MAIL: &'static str = "org.gnome.OnlineAccounts.Mail";

/// The interface of an account that signs in with OAuth.
pub const OAUTH2: &'static str = "org.gnome.OnlineAccounts.OAuth2Based";

/// IMAP over implicit TLS.
pub const IMAP_IMPLICIT_TLS_PORT: u16 = 993;

/// IMAP.
pub const IMAP_PORT: u16 = 143;

/// SMTP over implicit TLS.
pub const SMTP_IMPLICIT_TLS_PORT: u16 = 465;

/// SMTP that upgrades with STARTTLS.
pub const SMTP_STARTTLS_PORT: u16 = 587;

/// SMTP.
pub const SMTP_PORT: u16 = 25;

/// The value of a property, as far as it matters here.
#[derive(Clone, Debug, PartialEq, Eq)]
pub enum Value {
    Text(String),
    Flag(bool),
    Other,
}

/// A property of an interface.
#[derive(Clone, Debug, PartialEq, Eq)]
pub struct Property {
    pub key: String,
    pub value: Value,
}

/// An interface of an object, with its properties.
#[derive(Clone, Debug, PartialEq, Eq)]
pub struct Interface {
    pub name: String,
    pub properties: Vec<Property>,
}

/// An object of the service.
#[derive(Clone, Debug, PartialEq, Eq)]
pub struct Object {
    pub path: String,
    pub interfaces: Vec<Interface>,
}

/// An account of GNOME Online Accounts.
#[derive(Debug, PartialEq, Eq)]
pub struct OnlineAccount {
    pub goa_id: String,
    pub email: String,
    pub display_name: String,
    pub provider_name: String,
    pub imap_host: String,
    pub imap_port: u16,
    pub imap_security: Security,
    pub smtp_host: String,
    pub smtp_port: u16,
    pub smtp_security: Security,
    /// Microsoft 365 comes back false: its token only covers the Graph API,
    /// so there is no IMAP server to point at.
    pub is_mail_supported: bool,
    /// Mail switched off for this account in Settings. Listed rather than
    /// dropped, or the dialog says "no accounts" about one the user can see.
    pub is_mail_enabled: bool,
    /// Only OAuth accounts are imported: an IMAP/SMTP one is the Add Account
    /// dialog's job.
    pub is_oauth2: bool,
}

impl Clone for OnlineAccount {
    fn clone(&self) -> (r: Self)
        ensures
            r == *self,
    {
        OnlineAccount {
            goa_id: self.goa_id.clone(),
            email: self.email.clone(),
            display_name: self.display_name.clone(),
            provider_name: self.provider_name.clone(),
            imap_host: self.imap_host.clone(),
            imap_port: self.imap_port,
            imap_security: self.imap_security,
            smtp_host: self.smtp_host.clone(),
            smtp_port: self.smtp_port,
            smtp_security: self.smtp_security,
            is_mail_supported: self.is_mail_supported,
            is_mail_enabled: self.is_mail_enabled,
            is_oauth2: self.is_oauth2,
        }
    }
}

// --- hosts ----------------------------------------------------------------

/// A host and a port: the port after the last colon where there is one, else the default.
pub open spec fn host_and_port(value: Seq<char>, default_port: u16) -> (Seq<char>, nat) {
    let colon = text::rfind(value, ':');
    if colon >= 0 {
        match models::port_in(value.skip(colon + 1)) {
            Some(port) => (value.take(colon), port),
            None => (value, default_port as nat),
        }
    } else {
        (value, default_port as nat)
    }
}

/// GNOME Online Accounts keeps a non-default port inside the host string,
/// as "mail.example.com:1143".
pub fn split_host_port(value: &str, default_port: u16) -> (r: (String, u16))
    ensures
        (r.0@, r.1 as nat) == host_and_port(value@, default_port),
{
    let chars = text::chars_of(value);
    match text::rfind_char(&chars, ':') {
        Some(at) => {
            let tail = text::slice_of(&chars, at + 1, chars.len());
            assert(tail@ =~= value@.skip(at + 1));
            match models::parse_port(&text::text_of(&tail)) {
                Some(port) => {
                    let head = text::slice_of(&chars, 0, at);
                    assert(head@ =~= value@.take(at as int));
                    (text::text_of(&head), port)
                },
                None => (value.to_owned(), default_port),
            }
        },
        None => (value.to_owned(), default_port),
    }
}

/// The security that two switches ask for.
pub open spec fn security_of(is_implicit_tls: bool, is_starttls: bool) -> Security {
    if is_implicit_tls {
        Security::Tls
    } else if is_starttls {
        Security::StartTls
    } else {
        Security::Plain
    }
}

fn security(is_implicit_tls: bool, is_starttls: bool) -> (r: Security)
    ensures
        r == security_of(is_implicit_tls, is_starttls),
{
    if is_implicit_tls {
        Security::Tls
    } else if is_starttls {
        Security::StartTls
    } else {
        Security::Plain
    }
}

// --- properties -----------------------------------------------------------

/// The value of the first property of a name from `i` on.
pub open spec fn property(properties: Seq<Property>, key: Seq<char>, i: int) -> Option<Value>
    decreases properties.len() - i,
{
    if i < 0 || i >= properties.len() {
        None
    } else if properties[i].key@ == key {
        Some(properties[i].value)
    } else {
        property(properties, key, i + 1)
    }
}

/// The text of a property, empty where it has none.
pub open spec fn text_of_property(properties: Seq<Property>, key: Seq<char>) -> Seq<char> {
    match property(properties, key, 0) {
        Some(Value::Text(t)) => t@,
        _ => Seq::empty(),
    }
}

/// The flag of a property, false where it has none.
pub open spec fn flag_of_property(properties: Seq<Property>, key: Seq<char>) -> bool {
    match property(properties, key, 0) {
        Some(Value::Flag(b)) => b,
        _ => false,
    }
}

/// The properties of the first interface of a name from `i` on.
pub open spec fn interface(interfaces: Seq<Interface>, name: Seq<char>, i: int) -> Option<
    Seq<Property>,
>
    decreases interfaces.len() - i,
{
    if i < 0 || i >= interfaces.len() {
        None
    } else if interfaces[i].name@ == name {
        Some(interfaces[i].properties@)
    } else {
        interface(interfaces, name, i + 1)
    }
}

/// The properties of an interface, none where it is missing.
pub open spec fn properties_of(interfaces: Seq<Interface>, name: Seq<char>) -> Seq<Property> {
    match interface(interfaces, name, 0) {
        Some(p) => p,
        None => Seq::empty(),
    }
}

fn find_property(properties: &[Property], key: &str) -> (r: Option<usize>)
    ensures
        match r {
            Some(i) => i < properties.len() && property(properties@, key@, 0) == Some(
                properties@[i as int].value,
            ),
            None => property(properties@, key@, 0) is None,
        },
{
    let mut i: usize = 0;
    while i < properties.len()
        invariant
            i <= properties.len(),
            property(properties@, key@, 0) == property(properties@, key@, i as int),
        decreases properties.len() - i,
    {
        if text::same_str(&properties[i].key, key) {
            return Some(i);
        }
        i = i + 1;
    }
    None
}

fn string(properties: &[Property], key: &str) -> (r: String)
    ensures
        r@ == text_of_property(properties@, key@),
{
    match find_property(properties, key) {
        Some(i) => match &properties[i].value {
            Value::Text(t) => t.clone(),
            _ => String::new(),
        },
        None => String::new(),
    }
}

fn boolean(properties: &[Property], key: &str) -> (r: bool)
    ensures
        r == flag_of_property(properties@, key@),
{
    match find_property(properties, key) {
        Some(i) => match &properties[i].value {
            Value::Flag(b) => *b,
            _ => false,
        },
        None => false,
    }
}

fn find_interface(interfaces: &[Interface], name: &str) -> (r: Option<usize>)
    ensures
        match r {
            Some(i) => i < interfaces.len() && interface(interfaces@, name@, 0) == Some(
                interfaces@[i as int].properties@,
            ),
            None => interface(interfaces@, name@, 0) is None,
        },
{
    let mut i: usize = 0;
    while i < interfaces.len()
        invariant
            i <= interfaces.len(),
            interface(interfaces@, name@, 0) == interface(interfaces@, name@, i as int),
        decreases interfaces.len() - i,
    {
        if text::same_str(&interfaces[i].name, name) {
            return Some(i);
        }
        i = i + 1;
    }
    None
}

// --- servers --------------------------------------------------------------

/// The IMAP server that an account's mail properties name.
pub open spec fn imap_server_of(mail: Seq<Property>) -> (Seq<char>, nat, Security) {
    let ssl = flag_of_property(mail, "ImapUseSsl"@);
    let (host, port) = host_and_port(
        text_of_property(mail, "ImapHost"@),
        if ssl {
            IMAP_IMPLICIT_TLS_PORT
        } else {
            IMAP_PORT
        },
    );
    (host, port, security_of(ssl, flag_of_property(mail, "ImapUseTls"@)))
}

/// The SMTP server that an account's mail properties name.
pub open spec fn smtp_server_of(mail: Seq<Property>) -> (Seq<char>, nat, Security) {
    let ssl = flag_of_property(mail, "SmtpUseSsl"@);
    let tls = flag_of_property(mail, "SmtpUseTls"@);
    let (host, port) = host_and_port(
        text_of_property(mail, "SmtpHost"@),
        if ssl {
            SMTP_IMPLICIT_TLS_PORT
        } else if tls {
            SMTP_STARTTLS_PORT
        } else {
            SMTP_PORT
        },
    );
    (host, port, security_of(ssl, tls))
}

/// The IMAP server that an account's mail properties name.
pub fn imap_server(mail: &[Property]) -> (r: (String, u16, Security))
    ensures
        (r.0@, r.1 as nat, r.2) == imap_server_of(mail@),
{
    let is_implicit_tls = boolean(mail, "ImapUseSsl");
    let default_port: u16 = if is_implicit_tls {
        IMAP_IMPLICIT_TLS_PORT
    } else {
        IMAP_PORT
    };
    let (host, port) = split_host_port(&string(mail, "ImapHost"), default_port);
    (host, port, security(is_implicit_tls, boolean(mail, "ImapUseTls")))
}

/// The SMTP server that an account's mail properties name.
pub fn smtp_server(mail: &[Property]) -> (r: (String, u16, Security))
    ensures
        (r.0@, r.1 as nat, r.2) == smtp_server_of(mail@),
{
    let is_implicit_tls = boolean(mail, "SmtpUseSsl");
    let is_starttls = boolean(mail, "SmtpUseTls");
    let default_port: u16 = if is_implicit_tls {
        SMTP_IMPLICIT_TLS_PORT
    } else if is_starttls {
        SMTP_STARTTLS_PORT
    } else {
        SMTP_PORT
    };
    let (host, port) = split_host_port(&string(mail, "SmtpHost"), default_port);
    (host, port, security(is_implicit_tls, is_starttls))
}

// --- accounts -------------------------------------------------------------

/// The first of two texts that is not empty, else the second.
pub open spec fn first_nonempty(a: Seq<char>, b: Seq<char>) -> Seq<char> {
    if a.len() > 0 {
        a
    } else {
        b
    }
}

/// Whether an object is an account that is there to stay.
pub open spec fn is_account(interfaces: Seq<Interface>) -> bool {
    interface(interfaces, ACCOUNT@, 0) is Some && !flag_of_property(
        properties_of(interfaces, ACCOUNT@),
        "IsTemporary"@,
    )
}

/// Whether a record says what the interfaces of an object say.
pub open spec fn describes(r: OnlineAccount, interfaces: Seq<Interface>) -> bool {
    let account = properties_of(interfaces, ACCOUNT@);
    let mail = properties_of(interfaces, MAIL@);
    let (imap_host, imap_port, imap_security) = imap_server_of(mail);
    let (smtp_host, smtp_port, smtp_security) = smtp_server_of(mail);
    let email = first_nonempty(
        text_of_property(mail, "EmailAddress"@),
        text_of_property(account, "PresentationIdentity"@),
    );
    &&& r.goa_id@ == text_of_property(account, "Id"@)
    &&& r.email@ == email
    &&& r.display_name@ == first_nonempty(
        text_of_property(mail, "Name"@),
        email.take(text::find(email, '@')),
    )
    &&& r.provider_name@ == text_of_property(account, "ProviderName"@)
    &&& r.imap_host@ == imap_host
    &&& r.imap_port == imap_port
    &&& r.imap_security == imap_security
    &&& r.smtp_host@ == smtp_host
    &&& r.smtp_port == smtp_port
    &&& r.smtp_security == smtp_security
    &&& r.is_mail_supported == (imap_host.len() > 0 && smtp_host.len() > 0)
    &&& r.is_mail_enabled == !flag_of_property(account, "MailDisabled"@)
    &&& r.is_oauth2 == (interface(interfaces, OAUTH2@, 0) is Some)
}

fn copy_properties(p: &[Property]) -> (r: Vec<Property>)
    ensures
        r@.len() == p@.len(),
        forall|key: Seq<char>| #[trigger]
            text_of_property(r@, key) == text_of_property(p@, key),
        forall|key: Seq<char>| #[trigger]
            flag_of_property(r@, key) == flag_of_property(p@, key),
{
    let mut out: Vec<Property> = Vec::new();
    while out.len() < p.len()
        invariant
            out.len() <= p.len(),
            forall|i: int| 0 <= i < out.len() ==> #[trigger] out@[i] == p@[i],
        decreases p.len() - out.len(),
    {
        let one = &p[out.len()];
        let value = match &one.value {
            Value::Text(t) => Value::Text(t.clone()),
            Value::Flag(b) => Value::Flag(*b),
            Value::Other => Value::Other,
        };
        out.push(Property { key: one.key.clone(), value });
    }
    assert(out@ =~= p@);
    out
}

fn properties_in(interfaces: &[Interface], name: &str) -> (r: Vec<Property>)
    ensures
        forall|key: Seq<char>| #[trigger]
            text_of_property(r@, key) == text_of_property(properties_of(interfaces@, name@), key),
        forall|key: Seq<char>| #[trigger]
            flag_of_property(r@, key) == flag_of_property(properties_of(interfaces@, name@), key),
{
    match find_interface(interfaces, name) {
        Some(i) => copy_properties(&interfaces[i].properties),
        None => {
            let none: Vec<Property> = Vec::new();
            assert(none@ =~= Seq::empty());
            none
        },
    }
}

/// Build the account record from one object's interfaces. A temporary account is none.
pub fn account_from_interfaces(interfaces: &[Interface]) -> (r: Option<OnlineAccount>)
    ensures
        match r {
            Some(account) => is_account(interfaces@) && describes(account, interfaces@),
            None => !is_account(interfaces@),
        },
{
    if find_interface(interfaces, ACCOUNT).is_none() {
        return None;
    }
    let account = properties_in(interfaces, ACCOUNT);
    if boolean(&account, "IsTemporary") {
        return None;
    }
    let mail = properties_in(interfaces, MAIL);
    let (imap_host, imap_port, imap_security) = imap_server(&mail);
    let (smtp_host, smtp_port, smtp_security) = smtp_server(&mail);
    let mut email = string(&mail, "EmailAddress");
    if email.as_str().is_empty() {
        email = string(&account, "PresentationIdentity");
    }
    let mut display_name = string(&mail, "Name");
    if display_name.as_str().is_empty() {
        let chars = text::chars_of(&email);
        let at: usize = text::find_char(&chars, '@', 0);
        let head = text::slice_of(&chars, 0, at);
        assert(head@ =~= email@.take(text::find(email@, '@')));
        display_name = text::text_of(&head);
    }
    let is_mail_supported = !imap_host.as_str().is_empty() && !smtp_host.as_str().is_empty();
    let is_mail_enabled = !boolean(&account, "MailDisabled");
    let is_oauth2 = find_interface(interfaces, OAUTH2).is_some();
    Some(
        OnlineAccount {
            goa_id: string(&account, "Id"),
            email,
            display_name,
            provider_name: string(&account, "ProviderName"),
            imap_host,
            imap_port,
            imap_security,
            smtp_host,
            smtp_port,
            smtp_security,
            is_mail_supported,
            is_mail_enabled,
            is_oauth2,
        },
    )
}

/// The places of the objects that are accounts, among the first `n`.
pub open spec fn account_places(objects: Seq<Object>, n: int) -> Seq<int>
    decreases n,
{
    if n <= 0 {
        Seq::empty()
    } else if is_account(objects[n - 1].interfaces@) {
        account_places(objects, n - 1).push(n - 1)
    } else {
        account_places(objects, n - 1)
    }
}

/// The numbers below `n`, in order.
pub open spec fn counting(n: nat) -> Seq<usize> {
    Seq::new(n, |i: int| i as usize)
}

/// Whether records describe the accounts among some objects, each once, in some order.
pub open spec fn is_arrangement(
    r: Seq<OnlineAccount>,
    objects: Seq<Object>,
    order: Seq<usize>,
) -> bool {
    let places = account_places(objects, objects.len() as int);
    &&& r.len() == places.len()
    &&& order.len() == places.len()
    &&& order.to_multiset() == counting(places.len()).to_multiset()
    &&& forall|k: int|
        0 <= k < r.len() ==> order[k] < places.len() && describes(
            #[trigger] r[k],
            objects[places[order[k] as int]].interfaces@,
        )
}

/// Every account of GNOME Online Accounts, mail-capable or not, in the order of their addresses.
pub fn mail_accounts(objects: &[Object]) -> (r: Vec<OnlineAccount>)
    ensures
        r@.len() == account_places(objects@, objects@.len() as int).len(),
        forall|i: int, j: int|
            0 <= i < j < r@.len() ==> text::precedes(
                (#[trigger] r@[i]).email@,
                (#[trigger] r@[j]).email@,
            ),
        exists|order: Seq<usize>| #[trigger] is_arrangement(r@, objects@, order),
{
    let mut found: Vec<OnlineAccount> = Vec::new();
    let ghost n = objects@.len() as int;
    let mut i: usize = 0;
    while i < objects.len()
        invariant
            i <= objects.len(),
            found@.len() == account_places(objects@, i as int).len(),
            forall|k: int|
                0 <= k < found@.len() ==> describes(
                    #[trigger] found@[k],
                    objects@[account_places(objects@, i as int)[k]].interfaces@,
                ),
        decreases objects.len() - i,
    {
        if let Some(account) = account_from_interfaces(&objects[i].interfaces) {
            found.push(account);
        }
        i = i + 1;
    }
    let ghost places = account_places(objects@, n);
    let mut indexes: Vec<usize> = Vec::new();
    while indexes.len() < found.len()
        invariant
            indexes.len() <= found.len(),
            indexes@ =~= counting(indexes.len() as nat),
        decreases found.len() - indexes.len(),
    {
        let next: usize = indexes.len();
        indexes.push(next);
    }
    let ghost emails = Seq::new(found@.len(), |k: int| found@[k].email@);
    let ghost le = |a: usize, b: usize|
        if a < emails.len() && b < emails.len() {
            text::precedes(emails[a as int], emails[b as int])
        } else if a < emails.len() {
            true
        } else if b < emails.len() {
            false
        } else {
            a <= b
        };
    let before = |a: usize, b: usize| -> (r: bool)
        ensures
            r == le(a, b),
        {
            if a < found.len() && b < found.len() {
                text::str_precedes(&found[a].email, &found[b].email)
            } else if a < found.len() {
                true
            } else if b < found.len() {
                false
            } else {
                a <= b
            }
        };
    proof {
        text::precedes_is_order();
    }
    let order = sort::sorted(&indexes, &before, Ghost(le));
    let mut out: Vec<OnlineAccount> = Vec::new();
    proof {
        assert forall|k: int| 0 <= k < order@.len() implies #[trigger] order@[k] < found@.len() by {
            assert(order@.contains(order@[k]));
            assert(order@.to_multiset().count(order@[k]) > 0);
            assert(indexes@.to_multiset().count(order@[k]) > 0);
            assert(indexes@.contains(order@[k]));
        }
    }
    while out.len() < order.len()
        invariant
            out.len() <= order.len(),
            forall|k: int| 0 <= k < order@.len() ==> #[trigger] order@[k] < found@.len(),
            forall|k: int| 0 <= k < out.len() ==> #[trigger] out@[k] == found@[order@[k] as int],
        decreases order.len() - out.len(),
    {
        let at: usize = order[out.len()];
        out.push(found[at].clone());
    }
    proof {
        assert forall|a: int, b: int| 0 <= a < b < out@.len() implies text::precedes(
            (#[trigger] out@[a]).email@,
            (#[trigger] out@[b]).email@,
        ) by {
            assert(le(order@[a], order@[b]));
            assert(order@[a] < found@.len() && order@[b] < found@.len());
            assert(emails[order@[a] as int] == out@[a].email@);
            assert(emails[order@[b] as int] == out@[b].email@);
        }
        assert(order@.to_multiset() == counting(out@.len()).to_multiset());
        assert forall|k: int| 0 <= k < out@.len() implies order@[k] < places.len() && describes(
            #[trigger] out@[k],
            objects@[places[order@[k] as int]].interfaces@,
        ) by {
            assert(out@[k] == found@[order@[k] as int]);
        }
        assert(is_arrangement(out@, objects@, order@));
    }
    out
}

// --- signing in -----------------------------------------------------------

/// Whether an object is the account with an id.
pub open spec fn has_id(object: Object, goa_id: Seq<char>) -> bool {
    interface(object.interfaces@, ACCOUNT@, 0) is Some && text_of_property(
        properties_of(object.interfaces@, ACCOUNT@),
        "Id"@,
    ) == goa_id
}

/// The place of the account with an id, from `i` on.
pub open spec fn place_of(objects: Seq<Object>, goa_id: Seq<char>, i: int) -> Option<int>
    decreases objects.len() - i,
{
    if i < 0 || i >= objects.len() {
        None
    } else if has_id(objects[i], goa_id) {
        Some(i)
    } else {
        place_of(objects, goa_id, i + 1)
    }
}

/// Which object is to be asked for a token, and for which user.
pub struct TokenRequest {
    pub path: String,
    pub user: String,
}

/// Which object is to be asked for the token of an account, if it is there and signs in with
/// OAuth.
pub fn token_request(objects: &[Object], goa_id: &str) -> (r: Option<TokenRequest>)
    ensures
        ({
            let at = place_of(objects@, goa_id@, 0);
            match r {
                Some(request) => {
                    &&& at is Some
                    &&& interface(objects@[at.unwrap()].interfaces@, OAUTH2@, 0) is Some
                    &&& request.path@ == objects@[at.unwrap()].path@
                    &&& request.user@ == first_nonempty(
                        text_of_property(
                            properties_of(objects@[at.unwrap()].interfaces@, MAIL@),
                            "ImapUserName"@,
                        ),
                        text_of_property(
                            properties_of(objects@[at.unwrap()].interfaces@, MAIL@),
                            "EmailAddress"@,
                        ),
                    )
                },
                None => at is None || interface(
                    objects@[at.unwrap()].interfaces@,
                    OAUTH2@,
                    0,
                ) is None,
            }
        }),
{
    let mut i: usize = 0;
    while i < objects.len()
        invariant
            i <= objects.len(),
            place_of(objects@, goa_id@, 0) == place_of(objects@, goa_id@, i as int),
        decreases objects.len() - i,
    {
        let interfaces = &objects[i].interfaces;
        if find_interface(interfaces, ACCOUNT).is_some() {
            let account = properties_in(interfaces, ACCOUNT);
            if text::same_str(&string(&account, "Id"), goa_id) {
                assert(place_of(objects@, goa_id@, 0) == Some(i as int));
                if find_interface(interfaces, OAUTH2).is_none() {
                    return None;
                }
                let mail = properties_in(interfaces, MAIL);
                let mut user = string(&mail, "ImapUserName");
                if user.as_str().is_empty() {
                    user = string(&mail, "EmailAddress");
                }
                return Some(TokenRequest { path: objects[i].path.clone(), user });
            }
        }
        i = i + 1;
    }
    None
}

/// The live sign-in for one online account, given the token that the service gave.
pub fn credential(request: &TokenRequest, token: &str) -> (r: Credential)
    ensures
        r.user@ == request.user@,
        r.secret@ == token@,
        r.mechanism == Mechanism::Xoauth2,
{
    Credential::token(&request.user, token)
}

/// A host with a port behind it is read as the two, and one without gets the default.
pub proof fn hosts_keep_their_ports(host: Seq<char>, port: nat, default_port: u16)
    requires
        1 <= port <= 65535,
        !host.contains(':'),
    ensures
        host_and_port(host + seq![':'] + text::decimal(port), default_port) == (host, port),
        host_and_port(host, default_port) == (host, default_port as nat),
{
    models::ports_read_back(port);
    let d = text::decimal(port);
    let w = host + seq![':'] + d;
    let n = host.len() as int;
    text::digits_have_no(port, ':');
    text::rfind_at_is_last(w, ':', w.len() as int);
    text::rfind_at_is_last(host, ':', host.len() as int);
    assert(w[n] == ':');
    assert forall|j: int| n < j < w.len() implies w[j] != ':' by {
        assert(w[j] == d[j - n - 1]);
        assert(d.contains(d[j - n - 1]));
    }
    assert(text::rfind(w, ':') == n);
    assert(w.skip(n + 1) =~= d);
    assert(w.take(n) =~= host);
    assert(text::rfind(host, ':') == -1) by {
        let k = text::rfind(host, ':');
        if k >= 0 {
            assert(host.contains(host[k]));
        }
    }
}

/// The first property of a name tells its value, and one that is missing has none.
pub proof fn the_first_property_counts(properties: Seq<Property>, key: Seq<char>, i: int, k: int)
    requires
        0 <= i <= k <= properties.len(),
        forall|j: int| i <= j < k ==> (#[trigger] properties[j]).key@ != key,
        k < properties.len() ==> properties[k].key@ == key,
    ensures
        property(properties, key, i) == (if k < properties.len() {
            Some(properties[k].value)
        } else {
            None
        }),
    decreases k - i,
{
    if i < k {
        assert(properties[i].key@ != key);
        the_first_property_counts(properties, key, i + 1, k);
    }
}

/// The first interface of a name has the properties, and one that is missing has none.
pub proof fn the_first_interface_counts(interfaces: Seq<Interface>, name: Seq<char>, i: int, k: int)
    requires
        0 <= i <= k <= interfaces.len(),
        forall|j: int| i <= j < k ==> (#[trigger] interfaces[j]).name@ != name,
        k < interfaces.len() ==> interfaces[k].name@ == name,
    ensures
        interface(interfaces, name, i) == (if k < interfaces.len() {
            Some(interfaces[k].properties@)
        } else {
            None
        }),
    decreases k - i,
{
    if i < k {
        assert(interfaces[i].name@ != name);
        the_first_interface_counts(interfaces, name, i + 1, k);
    }
}

/// The first account with an id is the one that is asked for its token.
pub proof fn the_first_of_an_id_is_asked(objects: Seq<Object>, goa_id: Seq<char>, i: int, k: int)
    requires
        0 <= i <= k <= objects.len(),
        forall|j: int| i <= j < k ==> !has_id(#[trigger] objects[j], goa_id),
        k < objects.len() ==> has_id(objects[k], goa_id),
    ensures
        place_of(objects, goa_id, i) == (if k < objects.len() {
            Some(k)
        } else {
            None
        }),
    decreases k - i,
{
    if i < k {
        assert(!has_id(objects[i], goa_id));
        the_first_of_an_id_is_asked(objects, goa_id, i + 1, k);
    }
}

/// Every account that is there to stay is listed, once, in the order of the objects.
pub proof fn every_account_is_listed(objects: Seq<Object>, n: int)
    requires
        0 <= n <= objects.len(),
    ensures
        forall|k: int|
            0 <= k < n && is_account((#[trigger] objects[k]).interfaces@) ==> account_places(
                objects,
                n,
            ).contains(k),
        forall|i: int|
            0 <= i < account_places(objects, n).len() ==> 0 <= #[trigger] account_places(
                objects,
                n,
            )[i] < n && is_account(objects[account_places(objects, n)[i]].interfaces@),
        forall|i: int, j: int|
            0 <= i < j < account_places(objects, n).len() ==> #[trigger] account_places(
                objects,
                n,
            )[i] < #[trigger] account_places(objects, n)[j],
    decreases n,
{
    if n > 0 {
        every_account_is_listed(objects, n - 1);
        let before = account_places(objects, n - 1);
        let all = account_places(objects, n);
        assert forall|k: int| 0 <= k < n && is_account(
            (#[trigger] objects[k]).interfaces@,
        ) implies all.contains(k) by {
            if k < n - 1 {
                assert(before.contains(k));
                let i = choose|i: int| 0 <= i < before.len() && before[i] == k;
                assert(all[i] == k);
            } else {
                assert(all[before.len() as int] == k);
            }
        }
        assert forall|i: int| 0 <= i < all.len() implies 0 <= #[trigger] all[i] < n && is_account(
            objects[all[i]].interfaces@,
        ) by {
            if i < before.len() {
                assert(all[i] == before[i]);
            }
        }
        assert forall|i: int, j: int| 0 <= i < j < all.len() implies #[trigger] all[i]
            < #[trigger] all[j] by {
            assert(all[i] == before[i]);
            if j < before.len() {
                assert(all[j] == before[j]);
            }
        }
    }
}

/// Mail goes in plaintext only where neither switch is on, and a server is asked at the port of its
/// kind.
pub proof fn switches_secure_the_mail(mail: Seq<Property>)
    ensures
        flag_of_property(mail, "ImapUseSsl"@) ==> imap_server_of(mail).2 == Security::Tls,
        !flag_of_property(mail, "ImapUseSsl"@) && flag_of_property(mail, "ImapUseTls"@)
            ==> imap_server_of(mail).2 == Security::StartTls,
        imap_server_of(mail).2 == Security::Plain ==> !flag_of_property(mail, "ImapUseSsl"@)
            && !flag_of_property(mail, "ImapUseTls"@),
        flag_of_property(mail, "SmtpUseSsl"@) ==> smtp_server_of(mail).2 == Security::Tls,
        !flag_of_property(mail, "SmtpUseSsl"@) && flag_of_property(mail, "SmtpUseTls"@)
            ==> smtp_server_of(mail).2 == Security::StartTls,
        smtp_server_of(mail).2 == Security::Plain ==> !flag_of_property(mail, "SmtpUseSsl"@)
            && !flag_of_property(mail, "SmtpUseTls"@),
        !text_of_property(mail, "ImapHost"@).contains(':') ==> imap_server_of(mail).0
            == text_of_property(mail, "ImapHost"@) && imap_server_of(mail).1 == (if flag_of_property(
            mail,
            "ImapUseSsl"@,
        ) {
            993nat
        } else {
            143
        }),
        !text_of_property(mail, "SmtpHost"@).contains(':') ==> smtp_server_of(mail).0
            == text_of_property(mail, "SmtpHost"@) && smtp_server_of(mail).1 == (if flag_of_property(
            mail,
            "SmtpUseSsl"@,
        ) {
            465nat
        } else if flag_of_property(mail, "SmtpUseTls"@) {
            587
        } else {
            25
        }),
{
    let imap = text_of_property(mail, "ImapHost"@);
    let smtp = text_of_property(mail, "SmtpHost"@);
    if !imap.contains(':') {
        hosts_keep_their_ports(imap, 1, 993);
        hosts_keep_their_ports(imap, 1, 143);
    }
    if !smtp.contains(':') {
        hosts_keep_their_ports(smtp, 1, 465);
        hosts_keep_their_ports(smtp, 1, 587);
        hosts_keep_their_ports(smtp, 1, 25);
    }
}

/// An account of the desktop has the address that its mail settings name, or else the one it is known
/// by, and the name that they give, or else what stands before the sign of its address. It counts
/// as mail only where both of its servers are named.
pub proof fn accounts_are_described(r: OnlineAccount, interfaces: Seq<Interface>)
    requires
        describes(r, interfaces),
    ensures
        ({
            let account = properties_of(interfaces, ACCOUNT@);
            let mail = properties_of(interfaces, MAIL@);
            let given = text_of_property(mail, "EmailAddress"@);
            let name = text_of_property(mail, "Name"@);
            &&& given.len() > 0 ==> r.email@ == given
            &&& given.len() == 0 ==> r.email@ == text_of_property(account, "PresentationIdentity"@)
            &&& name.len() > 0 ==> r.display_name@ == name
            &&& name.len() == 0 ==> !r.display_name@.contains('@')
            &&& name.len() == 0 ==> r.display_name@.is_prefix_of(r.email@)
            &&& name.len() == 0 && r.email@.contains('@') ==> r.email@[r.display_name@.len() as int]
                == '@'
            &&& r.is_mail_supported <==> r.imap_host@.len() > 0 && r.smtp_host@.len() > 0
            &&& r.goa_id@ == text_of_property(account, "Id"@)
        }),
{
    let email = r.email@;
    text::find_at_is_first(email, '@', 0);
    let at = text::find(email, '@');
    let head = email.take(at);
    if head.contains('@') {
        let k = choose|k: int| 0 <= k < head.len() && head[k] == '@';
        assert(email[k] == '@');
    }
    assert(email.subrange(0, head.len() as int) =~= head);
    if email.contains('@') {
        let k = choose|k: int| 0 <= k < email.len() && email[k] == '@';
        assert(at <= k);
    }
}

} // verus!

//! Where an account's sign-in comes from: the system keyring for an account
//! typed in by hand, GNOME Online Accounts for one imported from Settings.

use vstd::prelude::*;
use crate::models::Account;
use crate::net::auth::{Credential, Mechanism};
use crate::text;

verus! {

/// The schema name that passwords are stored under.
pub const SCHEMA: &'static str = "io.github.turbinebmw.Rustle.Account";

/// What a password is stored under: the schema and the account.
pub fn attributes(account_id: i64) -> (r: Vec<(String, String)>)
    ensures
        r.len() == 2,
        r@[0].0@ == "xdg:schema"@,
        r@[0].1@ == SCHEMA@,
        r@[1].0@ == "account-id"@,
        r@[1].1@ == text::signed_decimal(account_id as int),
{
    let mut out: Vec<(String, String)> = Vec::new();
    out.push(("xdg:schema".to_owned(), SCHEMA.to_owned()));
    out.push(("account-id".to_owned(), text::text_of(&text::to_signed_decimal(account_id))));
    out
}

/// What the keyring calls the password of an account.
pub fn item_label(account_id: i64) -> (r: String)
    ensures
        r@ == "Rustle account "@ + text::signed_decimal(account_id as int),
{
    let mut out = text::chars_of("Rustle account ");
    text::extend(&mut out, &text::to_signed_decimal(account_id));
    text::text_of(&out)
}

/// What an account signs in with: what Online Accounts gave where it lives there, else the
/// password that the keyring gave.
pub open spec fn credential_of(
    account: Account,
    online: Option<Credential>,
    password: Option<String>,
) -> Option<(Seq<char>, Seq<char>, Mechanism)> {
    if account.goa_id@.len() > 0 {
        match online {
            Some(c) => Some((c.user@, c.secret@, c.mechanism)),
            None => None,
        }
    } else {
        match password {
            Some(p) => Some((account.email@, p@, Mechanism::Login)),
            None => None,
        }
    }
}

/// The parts of an optional credential.
pub open spec fn credential_parts(c: Option<Credential>) -> Option<
    (Seq<char>, Seq<char>, Mechanism),
> {
    match c {
        Some(found) => Some((found.user@, found.secret@, found.mechanism)),
        None => None,
    }
}

/// How to sign this account in, or None when we cannot.
pub fn credential_for(
    account: &Account,
    online: Option<Credential>,
    password: Option<String>,
) -> (r: Option<Credential>)
    ensures
        credential_parts(r) == credential_of(*account, online, password),
{
    if account.is_online_account() {
        return online;
    }
    match password {
        Some(p) => Some(Credential::password(&account.email, &p)),
        None => None,
    }
}

/// An account of the desktop signs in with what the desktop gave, whatever the keyring holds, and any
/// other with its own password under its own address, whatever the desktop says.
pub proof fn credentials_come_from_their_place(
    account: Account,
    online: Option<Credential>,
    other_online: Option<Credential>,
    password: Option<String>,
    other_password: Option<String>,
)
    ensures
        account.goa_id@.len() > 0 ==> credential_of(account, online, password) == credential_of(
            account,
            online,
            other_password,
        ),
        account.goa_id@.len() == 0 ==> credential_of(account, online, password) == credential_of(
            account,
            other_online,
            password,
        ),
        account.goa_id@.len() > 0 && online is Some ==> credential_of(account, online, password)
            == Some((online.unwrap().user@, online.unwrap().secret@, online.unwrap().mechanism)),
        account.goa_id@.len() == 0 && password is Some ==> credential_of(account, online, password)
            == Some((account.email@, password.unwrap()@, Mechanism::Login)),
{
}

} // verus!

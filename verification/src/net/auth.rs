//! How a session signs in. A `Credential` is handed to a session's `sign_in`,
//! which dispatches on the mechanism; anything else is an error rather than
//! an unauthenticated session.

use vstd::prelude::*;
use crate::text;

verus! {

/// How a secret is presented.
#[derive(Clone, Copy, Debug, PartialEq, Eq, Structural)]
pub enum Mechanism {
    /// A keyring password, sent with LOGIN / AUTH PLAIN.
    Login,
    /// A GNOME Online Accounts access token, sent with SASL XOAUTH2.
    Xoauth2,
}

/// What a session signs in with.
#[derive(PartialEq, Eq)]
pub struct Credential {
    pub user: String,
    pub secret: String,
    pub mechanism: Mechanism,
}

impl Clone for Credential {
    fn clone(&self) -> (r: Self)
        ensures
            r == *self,
    {
        Credential {
            user: self.user.clone(),
            secret: self.secret.clone(),
            mechanism: self.mechanism,
        }
    }
}

/// The SASL XOAUTH2 initial response for a user and a token, before base64.
pub open spec fn xoauth2_text(user: Seq<char>, token: Seq<char>) -> Seq<char> {
    "user="@ + user + "\x01auth=Bearer "@ + token + "\x01\x01"@
}

/// What a log may show of a credential: the user quoted as a programmer reads it, and not the secret.
pub open spec fn shown_credential(user: Seq<char>, mechanism: Mechanism) -> Seq<char> {
    "Credential { user: "@ + text::debug_quoted(user) + ", secret: \"...\", mechanism: "@ + (match mechanism {
        Mechanism::Login => "Login }"@,
        Mechanism::Xoauth2 => "Xoauth2 }"@,
    })
}

impl Credential {
    /// A keyring password.
    pub fn password(user: &str, password: &str) -> (r: Self)
        ensures
            r.user@ == user@,
            r.secret@ == password@,
            r.mechanism == Mechanism::Login,
    {
        Credential {
            user: user.to_owned(),
            secret: password.to_owned(),
            mechanism: Mechanism::Login,
        }
    }

    /// An access token.
    pub fn token(user: &str, token: &str) -> (r: Self)
        ensures
            r.user@ == user@,
            r.secret@ == token@,
            r.mechanism == Mechanism::Xoauth2,
    {
        Credential {
            user: user.to_owned(),
            secret: token.to_owned(),
            mechanism: Mechanism::Xoauth2,
        }
    }

    /// The SASL XOAUTH2 initial response (RFC 7628), before base64.
    pub fn xoauth2_response(&self) -> (r: String)
        ensures
            r@ == xoauth2_text(self.user@, self.secret@),
    {
        let mut out = text::chars_of("user=");
        text::extend_str(&mut out, &self.user);
        text::extend_str(&mut out, "\x01auth=Bearer ");
        text::extend_str(&mut out, &self.secret);
        text::extend_str(&mut out, "\x01\x01");
        text::text_of(&out)
    }

    /// What a log may show. A credential travels through worker threads; the secret stays out of
    /// any line that prints one.
    pub fn debug_text(&self) -> (r: String)
        ensures
            r@ == shown_credential(self.user@, self.mechanism),
    {
        let mut out = text::chars_of("Credential { user: ");
        text::extend_str(&mut out, &text::debug_quote(&self.user));
        text::extend_str(&mut out, ", secret: \"...\", mechanism: ");
        match self.mechanism {
            Mechanism::Login => text::extend_str(&mut out, "Login }"),
            Mechanism::Xoauth2 => text::extend_str(&mut out, "Xoauth2 }"),
        }
        text::text_of(&out)
    }
}

/// What a log may show does not tell two secrets apart.
pub proof fn secrets_stay_out_of_logs(a: Credential, b: Credential)
    requires
        a.user@ == b.user@,
        a.mechanism == b.mechanism,
    ensures
        shown_credential(a.user@, a.mechanism) == shown_credential(b.user@, b.mechanism),
{
}

/// A response tells the user and the token apart: cut at the separators of the mechanism it is the
/// field of the user, the field of the token, and the two ends.
pub proof fn responses_read_back(user: Seq<char>, token: Seq<char>)
    requires
        !user.contains('\x01'),
        !token.contains('\x01'),
    ensures
        text::split(xoauth2_text(user, token), '\x01') == seq![
            "user="@ + user,
            "auth=Bearer "@ + token,
            Seq::<char>::empty(),
            Seq::<char>::empty(),
        ],
{
    reveal_strlit("user=");
    reveal_strlit("auth=Bearer ");
    reveal_strlit("\x01auth=Bearer ");
    reveal_strlit("\x01\x01");
    let none = Seq::<char>::empty();
    let a = "user="@ + user;
    let b = "auth=Bearer "@ + token;
    let cut = seq!['\x01'];
    let fields = seq![a, b, none, none];
    assert(!a.contains('\x01')) by {
        if a.contains('\x01') {
            let k = choose|k: int| 0 <= k < a.len() && a[k] == '\x01';
            if k >= 5 {
                assert(user[k - 5] == a[k]);
                assert(user.contains(user[k - 5]));
            }
        }
    }
    assert(!b.contains('\x01')) by {
        if b.contains('\x01') {
            let k = choose|k: int| 0 <= k < b.len() && b[k] == '\x01';
            if k >= 12 {
                assert(token[k - 12] == b[k]);
                assert(token.contains(token[k - 12]));
            }
        }
    }
    assert forall|i: int| 0 <= i < fields.len() implies !(#[trigger] fields[i]).contains('\x01') by {
        assert(i == 0 || i == 1 || i == 2 || i == 3);
    }
    let three = seq![a, b, none];
    let two = seq![a, b];
    let one = seq![a];
    assert(fields.drop_last() =~= three);
    assert(three.drop_last() =~= two);
    assert(two.drop_last() =~= one);
    assert(text::join(one, cut) == a);
    assert(text::join(two, cut) == a + cut + b);
    assert(text::join(three, cut) == a + cut + b + cut + none);
    assert(text::join(fields, cut) == a + cut + b + cut + none + cut + none);
    assert(a + cut + b + cut + none + cut + none =~= xoauth2_text(user, token));
    text::joined_pieces_come_apart(fields, '\x01');
}

} // verus!

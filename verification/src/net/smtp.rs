//! One SMTP session. The transport connects lazily on the first send,
//! so "connect" and "sign in" here only configure it; the socket,
//! TLS and AUTH all happen when a message is handed over.

use vstd::prelude::*;
use crate::compose;
use crate::models::Security;
use crate::net;
use crate::net::auth::{Credential, Mechanism};
use crate::net::errors::NetError;
use crate::net::imap;
use crate::text;

verus! {

/// How the transport secures its connection.
#[derive(Clone, Copy, Debug, PartialEq, Eq, Structural)]
pub enum TlsMode {
    /// Not at all.
    Off,
    /// With STARTTLS, or not at all.
    Required,
    /// From the first byte.
    Wrapper,
}

/// An SMTP authentication mechanism.
#[derive(Clone, Copy, Debug, PartialEq, Eq, Structural)]
pub enum SmtpMechanism {
    Plain,
    Login,
    Xoauth2,
}

/// How the transport secures its connection.
pub open spec fn tls_mode_of(security: Security) -> TlsMode {
    match security {
        Security::Plain => TlsMode::Off,
        Security::StartTls => TlsMode::Required,
        Security::Tls => TlsMode::Wrapper,
    }
}

/// How the transport secures its connection.
pub fn tls_mode(security: Security) -> (r: TlsMode)
    ensures
        r == tls_mode_of(security),
{
    match security {
        Security::Plain => TlsMode::Off,
        Security::StartTls => TlsMode::Required,
        Security::Tls => TlsMode::Wrapper,
    }
}

/// The mechanisms that a secret is offered with.
pub open spec fn mechanisms_of(mechanism: Mechanism) -> Seq<SmtpMechanism> {
    match mechanism {
        Mechanism::Login => seq![SmtpMechanism::Plain, SmtpMechanism::Login],
        Mechanism::Xoauth2 => seq![SmtpMechanism::Xoauth2],
    }
}

/// The mechanisms that a secret is offered with.
pub fn mechanisms(mechanism: Mechanism) -> (r: Vec<SmtpMechanism>)
    ensures
        r@ == mechanisms_of(mechanism),
{
    let mut out: Vec<SmtpMechanism> = Vec::new();
    match mechanism {
        Mechanism::Login => {
            out.push(SmtpMechanism::Plain);
            out.push(SmtpMechanism::Login);
        },
        Mechanism::Xoauth2 => {
            out.push(SmtpMechanism::Xoauth2);
        },
    }
    assert(out@ =~= mechanisms_of(mechanism));
    out
}

/// What is said of a message that nobody is to get.
pub const NO_DESTINATION: &'static str = "missing destination address, invalid envelope";

/// Calls `lettre::address::Envelope::new` with addresses that parse: it refuses a message that
/// nobody is to get, in the words of `lettre::error::Error::MissingTo`, and no other.
#[verifier::external_body]
fn envelope_refusal(from: &str, to: &[String]) -> (r: Option<String>)
    requires
        compose::is_address(from@),
        forall|i: int| 0 <= i < to@.len() ==> compose::is_address((#[trigger] to@[i])@),
    ensures
        match r {
            Some(said) => to@.len() == 0 && said@ == NO_DESTINATION@,
            None => to@.len() > 0,
        },
{
    let sender = from.parse().expect("an address");
    let recipients = to.iter().map(|text| text.parse().expect("an address")).collect();
    let envelope = lettre::address::Envelope::new(Some(sender), recipients);
    envelope.err().map(|error| error.to_string())
}

/// One SMTP session.
pub struct SmtpSession {
    pub host: String,
    pub port: u16,
    pub security: Security,
    pub credential: Option<Credential>,
    /// Whether there is a transport.
    pub is_configured: bool,
}

/// Who a message goes from and to.
pub struct Envelope {
    pub from: String,
    pub to: Vec<String>,
}

/// The first of some addresses from `i` on that mail cannot go to.
pub open spec fn first_invalid(list: Seq<Seq<char>>, i: int) -> Option<Seq<char>>
    decreases list.len() - i,
{
    if i < 0 || i >= list.len() {
        None
    } else if !compose::is_address(list[i]) {
        Some(list[i])
    } else {
        first_invalid(list, i + 1)
    }
}

impl SmtpSession {
    /// A session that is not configured.
    pub fn new(host: &str, port: u16, security: Security) -> (r: Self)
        ensures
            r.host@ == host@,
            r.port == port,
            r.security == security,
            r.credential is None,
            !r.is_configured,
    {
        SmtpSession {
            host: host.to_owned(),
            port,
            security,
            credential: None,
            is_configured: false,
        }
    }

    /// Whether the server's certificate goes unchecked: on loopback only.
    pub fn skips_verification(&self) -> (r: bool)
        ensures
            r == net::names_loopback(self.host@),
    {
        net::is_loopback(&self.host)
    }

    /// The TLS configuration is valid, so there is a transport.
    pub fn connect(&mut self)
        ensures
            final(self).is_configured,
            final(self).credential == old(self).credential,
            final(self).host == old(self).host,
            final(self).port == old(self).port,
            final(self).security == old(self).security,
    {
        self.is_configured = true;
    }

    /// Gives the transport something to sign in with.
    pub fn sign_in(&mut self, credential: &Credential) -> (r: Result<(), NetError>)
        ensures
            final(self).is_configured == old(self).is_configured,
            final(self).host == old(self).host,
            final(self).port == old(self).port,
            final(self).security == old(self).security,
            match r {
                Ok(()) => old(self).is_configured && final(self).credential == Some(*credential),
                Err(NetError::Protocol(t)) => {
                    &&& !old(self).is_configured
                    &&& final(self).credential == old(self).credential
                    &&& t@ == imap::server_text(
                        "not connected to "@,
                        old(self).host@,
                        old(self).port,
                    )
                },
                Err(_) => false,
            },
    {
        if !self.is_configured {
            return Err(
                NetError::Protocol(imap::server_words("not connected to ", &self.host, self.port)),
            );
        }
        self.credential = Some(credential.clone());
        Ok(())
    }

    /// Hand a fully-built message to the server. Bcc recipients are on the
    /// envelope and nowhere in the message. Never sends unauthenticated: a session that skipped
    /// sign_in would otherwise be reported as sent by the caller. A message that nobody is to get is
    /// refused.
    pub fn send_raw(&self, from_addr: &str, recipients: &[String]) -> (r: Result<
        Envelope,
        NetError,
    >)
        ensures
            match r {
                Ok(envelope) => {
                    &&& self.credential is Some
                    &&& self.is_configured
                    &&& compose::is_address(from_addr@)
                    &&& first_invalid(text::texts(recipients@), 0) is None
                    &&& recipients@.len() > 0
                    &&& envelope.from@ == from_addr@
                    &&& text::texts(envelope.to@) == text::texts(recipients@)
                },
                Err(NetError::Protocol(t)) => {
                    if self.credential is None {
                        t@ == imap::server_text("not signed in to "@, self.host@, self.port)
                    } else if !self.is_configured {
                        t@ == imap::server_text("not connected to "@, self.host@, self.port)
                    } else if !compose::is_address(from_addr@) {
                        t@ == "invalid sender address "@ + text::debug_quoted(from_addr@)
                    } else if first_invalid(text::texts(recipients@), 0) is Some {
                        t@ == "invalid recipient address "@ + text::debug_quoted(
                            first_invalid(text::texts(recipients@), 0).unwrap(),
                        )
                    } else {
                        recipients@.len() == 0 && t@ == "could not address the message: "@
                            + NO_DESTINATION@
                    }
                },
                Err(_) => false,
            },
    {
        if self.credential.is_none() {
            return Err(
                NetError::Protocol(imap::server_words("not signed in to ", &self.host, self.port)),
            );
        }
        if !self.is_configured {
            return Err(
                NetError::Protocol(imap::server_words("not connected to ", &self.host, self.port)),
            );
        }
        if !compose::address_parses(from_addr) {
            let mut out = text::chars_of("invalid sender address ");
            text::extend_str(&mut out, &text::debug_quote(from_addr));
            return Err(NetError::Protocol(text::text_of(&out)));
        }
        let ghost views = text::texts(recipients@);
        let mut to: Vec<String> = Vec::new();
        while to.len() < recipients.len()
            invariant
                to.len() <= recipients.len(),
                views == text::texts(recipients@),
                self.credential is Some,
                self.is_configured,
                compose::is_address(from_addr@),
                first_invalid(views, 0) == first_invalid(views, to.len() as int),
                forall|i: int|
                    0 <= i < to.len() ==> (#[trigger] to@[i])@ == views[i] && compose::is_address(
                        views[i],
                    ),
            decreases recipients.len() - to.len(),
        {
            let recipient = &recipients[to.len()];
            assert(views[to.len() as int] == recipient@);
            if !compose::address_parses(recipient) {
                let mut out = text::chars_of("invalid recipient address ");
                text::extend_str(&mut out, &text::debug_quote(recipient));
                return Err(NetError::Protocol(text::text_of(&out)));
            }
            to.push(recipient.clone());
        }
        assert(text::texts(to@) =~= views);
        if let Some(reason) = envelope_refusal(from_addr, &to) {
            return Err(envelope_error(&reason));
        }
        Ok(Envelope { from: from_addr.to_owned(), to })
    }

    /// Ends the session: never fails over the real error.
    pub fn quit(&mut self)
        ensures
            !final(self).is_configured,
            final(self).credential is None,
            final(self).host == old(self).host,
            final(self).port == old(self).port,
            final(self).security == old(self).security,
    {
        self.is_configured = false;
        self.credential = None;
    }
}

/// The envelope could not be made, for this reason.
pub fn envelope_error(reason: &str) -> (r: NetError)
    ensures
        r matches NetError::Protocol(t) && t@ == "could not address the message: "@ + reason@,
{
    let mut out = text::chars_of("could not address the message: ");
    text::extend_str(&mut out, reason);
    NetError::Protocol(text::text_of(&out))
}

/// The address that a refusal names is the first that mail cannot go to, and there is one exactly if
/// there is such an address.
pub proof fn the_first_invalid_is_named(list: Seq<Seq<char>>, i: int, k: int)
    requires
        0 <= i <= k <= list.len(),
        forall|m: int| i <= m < k ==> compose::is_address(#[trigger] list[m]),
    ensures
        k < list.len() && !compose::is_address(list[k]) ==> first_invalid(list, i) == Some(list[k]),
        k == list.len() ==> first_invalid(list, i) is None,
    decreases k - i,
{
    if i < k {
        assert(compose::is_address(list[i]));
        the_first_invalid_is_named(list, i + 1, k);
    }
}

} // verus!

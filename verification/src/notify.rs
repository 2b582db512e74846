//! The notifier: turn a validated entity and the process-wide delivery
//! configuration into one fully determined outbound email — sender checked,
//! recipient checked, fixed subject, body formatted line by line — and read
//! the transport's acceptance back as a single delivery identifier. The one
//! network send itself stands outside this library.

use vstd::prelude::*;
use vstd::string::*;

use crate::entry::{join_lines, join_with_newlines, ContactFormEntry};

verus! {

/// Process-wide delivery configuration, loaded once at startup and read-only
/// for the process lifetime.
#[derive(Debug, Clone)]
pub struct EmailConfig {
    /// Destination address.
    pub to: String,
    /// Sender address, also the SMTP login.
    pub email_user: String,
    /// Sender credential.
    pub email_password: String,
    /// SMTP server host.
    pub smtp_host: String,
    /// SMTP server port.
    pub smtp_port: u16,
}

/// Why a delivery failed: a config address the mailbox parser rejects, or
/// the transport's own failure, carrying its message.
#[derive(Debug, Clone)]
pub enum DeliveryError {
    /// The configured sender is not a parseable mailbox address.
    InvalidSender,
    /// The configured destination is not a parseable mailbox address.
    InvalidDestination,
    /// The transport refused or failed; the underlying reason is carried.
    Transport(String),
}

impl DeliveryError {
    /// The human-readable reason carried to the caller.
    pub open spec fn message_spec(self) -> Seq<char> {
        match self {
            DeliveryError::InvalidSender => "Invalid email sender"@,
            DeliveryError::InvalidDestination => "Invalid email destination"@,
            DeliveryError::Transport(m) => m@,
        }
    }

    /// Render the reason.
    pub fn message(&self) -> (r: String)
        ensures
            r@ == self.message_spec(),
    {
        match self {
            DeliveryError::InvalidSender => "Invalid email sender".to_owned(),
            DeliveryError::InvalidDestination => "Invalid email destination".to_owned(),
            DeliveryError::Transport(m) => m.clone(),
        }
    }
}

/// Whether lettre's mailbox grammar accepts an address string.
pub uninterp spec fn mailbox_accepted(s: Seq<char>) -> bool;

/// Relies on lettre's mailbox parser (`FromStr` for `lettre::message::Mailbox`):
/// whether an address string is accepted depends on the string alone.
#[verifier::external_body]
fn mailbox_ok(s: &str) -> (r: bool)
    ensures
        r == mailbox_accepted(s@),
{
    s.parse::<lettre::message::Mailbox>().is_ok()
}

/// One fully determined outbound email, ready for a transport to send: both
/// addresses already accepted by the mailbox parser.
#[derive(Debug, Clone)]
pub struct EmailPlan {
    /// Sender address, as configured.
    pub from_user: String,
    /// The sender's fixed display name.
    pub from_name: String,
    /// Destination address, as configured.
    pub to: String,
    /// The fixed subject line.
    pub subject: String,
    /// The plain-text body.
    pub body: String,
    /// SMTP server host.
    pub smtp_host: String,
    /// SMTP server port.
    pub smtp_port: u16,
    /// SMTP login.
    pub smtp_user: String,
    /// SMTP credential.
    pub smtp_password: String,
}

impl ContactFormEntry {
    /// Check the configured addresses and build the one email this entity is
    /// delivered as. Fails — sender first — exactly when the mailbox parser
    /// rejects a configured address; succeeds otherwise, with the fixed
    /// subject and the body's lines joined by newlines.
    pub fn prepare_notification(&self, config: &EmailConfig) -> (r: Result<
        EmailPlan,
        DeliveryError,
    >)
        ensures
            r is Ok <==> mailbox_accepted(config.email_user@) && mailbox_accepted(config.to@),
            !mailbox_accepted(config.email_user@) ==> (r matches Err(e) && e
                == DeliveryError::InvalidSender),
            mailbox_accepted(config.email_user@) && !mailbox_accepted(config.to@) ==> (r matches Err(
                e,
            ) && e == DeliveryError::InvalidDestination),
            r matches Ok(plan) ==> {
                &&& plan.from_user@ == config.email_user@
                &&& plan.from_name@ == "Robot"@
                &&& plan.to@ == config.to@
                &&& plan.subject@ == "Contact form submission"@
                &&& plan.body@ == join_lines(self.lines_spec())
                &&& plan.smtp_host@ == config.smtp_host@
                &&& plan.smtp_port == config.smtp_port
                &&& plan.smtp_user@ == config.email_user@
                &&& plan.smtp_password@ == config.email_password@
            },
    {
        if !mailbox_ok(config.email_user.as_str()) {
            return Err(DeliveryError::InvalidSender);
        }
        if !mailbox_ok(config.to.as_str()) {
            return Err(DeliveryError::InvalidDestination);
        }
        let lines = self.into_lines();
        let body = join_with_newlines(&lines);
        Ok(
            EmailPlan {
                from_user: config.email_user.clone(),
                from_name: "Robot".to_owned(),
                to: config.to.clone(),
                subject: "Contact form submission".to_owned(),
                body,
                smtp_host: config.smtp_host.clone(),
                smtp_port: config.smtp_port,
                smtp_user: config.email_user.clone(),
                smtp_password: config.email_password.clone(),
            },
        )
    }
}

/// The delivery identifier read from the transport's acceptance: the first of
/// the message lines the transport returned, or the empty string when it
/// returned none.
pub fn delivery_id(messages: &Vec<String>) -> (r: String)
    ensures
        r@ == (if messages@.len() > 0 {
            messages@[0]@
        } else {
            Seq::<char>::empty()
        }),
{
    if messages.len() > 0 {
        messages[0].clone()
    } else {
        String::new()
    }
}

} // verus!

//! The submission pipeline's data model: the raw inbound request, the
//! validated entity, and the plain-text lines of the outbound email body.
//! An entity exists only if name, email and message are non-empty and the
//! slot, when present, parsed.

use vstd::prelude::*;
use vstd::string::*;

use crate::slot::{parse_slot_chars, slot_str_of, views_of, ContactSlot, SlotError};

verus! {

/// The raw, untrusted wire shape of one submission.
#[derive(Debug, Clone)]
pub struct ContactFormRequest {
    pub name: String,
    pub email: String,
    pub message: String,
    pub slot: Option<String>,
}

/// The wire shape of a successful reply: the delivery identifier.
#[derive(Debug, Clone)]
pub struct ContactFormResponse {
    pub result: String,
}

/// Why a submission was rejected before any delivery was attempted.
#[derive(Debug, Clone, Copy, PartialEq, Eq, Structural)]
pub enum ValidationError {
    /// The name is the empty string.
    EmptyName,
    /// The email is the empty string.
    EmptyEmail,
    /// The message is the empty string.
    EmptyMessage,
    /// The slot string was present and malformed.
    Slot(SlotError),
}

impl ValidationError {
    /// The human-readable reason carried to the caller.
    pub open spec fn message_spec(self) -> Seq<char> {
        match self {
            ValidationError::EmptyName => "Empty name"@,
            ValidationError::EmptyEmail => "Empty email"@,
            ValidationError::EmptyMessage => "Empty message"@,
            ValidationError::Slot(e) => e.message_spec(),
        }
    }

    /// Render the reason.
    pub fn message(&self) -> (r: String)
        ensures
            r@ == self.message_spec(),
    {
        match self {
            ValidationError::EmptyName => "Empty name".to_owned(),
            ValidationError::EmptyEmail => "Empty email".to_owned(),
            ValidationError::EmptyMessage => "Empty message".to_owned(),
            ValidationError::Slot(e) => e.message(),
        }
    }
}

/// The validated, trusted domain object. `created_at` is server-assigned at
/// construction, in milliseconds since the Unix epoch, never client-supplied.
#[derive(Debug, Clone)]
pub struct ContactFormEntry {
    pub name: String,
    pub email: String,
    pub message: String,
    pub slot: Option<ContactSlot>,
    pub created_at: i64,
}

/// The first reason a request is rejected: empty name, empty email, empty
/// message, then a malformed slot — or nothing, when the request is valid.
pub open spec fn validation_error_of(req: ContactFormRequest) -> Option<ValidationError> {
    if req.name@.len() == 0 {
        Some(ValidationError::EmptyName)
    } else if req.email@.len() == 0 {
        Some(ValidationError::EmptyEmail)
    } else if req.message@.len() == 0 {
        Some(ValidationError::EmptyMessage)
    } else {
        match req.slot {
            Some(s) => match parse_slot_chars(s@) {
                Ok(_) => None,
                Err(e) => Some(ValidationError::Slot(e)),
            },
            None => None,
        }
    }
}

/// Relies on chrono's `Utc::now`: the wall clock read at the call, as
/// milliseconds since the Unix epoch. Nothing is assumed of its value.
#[verifier::external_body]
fn now_timestamp_millis() -> i64 {
    chrono::Utc::now().timestamp_millis()
}

impl ContactFormEntry {
    /// Validate a request into an entity stamped with the given time:
    /// rejected with the first failing check's reason, or accepted with the
    /// request's fields carried over unchanged and the slot parsed.
    pub fn new_with_time(req: &ContactFormRequest, created_at: i64) -> (r: Result<
        ContactFormEntry,
        ValidationError,
    >)
        ensures
            r is Err <==> validation_error_of(*req) is Some,
            r matches Err(e) ==> validation_error_of(*req) == Some(e),
            r matches Ok(entry) ==> {
                &&& entry.name@ == req.name@
                &&& entry.email@ == req.email@
                &&& entry.message@ == req.message@
                &&& entry.created_at == created_at
                &&& match req.slot {
                    Some(s) => entry.slot matches Some(slot) && parse_slot_chars(s@)
                        == Ok::<ContactSlot, SlotError>(slot) && slot.wf(),
                    None => entry.slot is None,
                }
            },
    {
        if req.name.as_str().is_empty() {
            return Err(ValidationError::EmptyName);
        }
        if req.email.as_str().is_empty() {
            return Err(ValidationError::EmptyEmail);
        }
        if req.message.as_str().is_empty() {
            return Err(ValidationError::EmptyMessage);
        }
        let slot = match &req.slot {
            Some(s) => match ContactSlot::from_str(s.as_str()) {
                Ok(slot) => Some(slot),
                Err(e) => {
                    return Err(ValidationError::Slot(e));
                },
            },
            None => None,
        };
        Ok(
            ContactFormEntry {
                name: req.name.clone(),
                email: req.email.clone(),
                message: req.message.clone(),
                slot,
                created_at,
            },
        )
    }

    /// Validate a request into an entity stamped with the current wall-clock
    /// time. The clock's reading is the one thing this contract leaves open.
    pub fn new(req: &ContactFormRequest) -> (r: Result<ContactFormEntry, ValidationError>)
        ensures
            r is Err <==> validation_error_of(*req) is Some,
            r matches Err(e) ==> validation_error_of(*req) == Some(e),
            r matches Ok(entry) ==> {
                &&& entry.name@ == req.name@
                &&& entry.email@ == req.email@
                &&& entry.message@ == req.message@
                &&& match req.slot {
                    Some(s) => entry.slot matches Some(slot) && parse_slot_chars(s@)
                        == Ok::<ContactSlot, SlotError>(slot) && slot.wf(),
                    None => entry.slot is None,
                }
            },
    {
        let created_at = now_timestamp_millis();
        Self::new_with_time(req, created_at)
    }

    /// The lines of the email body, in fixed order: name, email, message,
    /// then the slot's rendered form when one is present.
    pub open spec fn lines_spec(self) -> Seq<Seq<char>> {
        let base = seq![
            "Name: "@ + self.name@,
            "Email: "@ + self.email@,
            "Message: "@ + self.message@,
        ];
        match self.slot {
            Some(slot) => base.push("Slot: "@ + slot_str_of(slot)),
            None => base,
        }
    }

    /// Produce the email body's lines: exactly three without a slot, exactly
    /// four with one, the fourth carrying the slot's rendered form.
    pub fn into_lines(&self) -> (r: Vec<String>)
        ensures
            views_of(r@) == self.lines_spec(),
            r@.len() == (if self.slot is Some {
                4int
            } else {
                3int
            }),
    {
        let mut lines: Vec<String> = Vec::new();
        let mut name_line = "Name: ".to_owned();
        name_line.append(self.name.as_str());
        lines.push(name_line);
        let mut email_line = "Email: ".to_owned();
        email_line.append(self.email.as_str());
        lines.push(email_line);
        let mut message_line = "Message: ".to_owned();
        message_line.append(self.message.as_str());
        lines.push(message_line);
        match &self.slot {
            Some(slot) => {
                let mut slot_line = "Slot: ".to_owned();
                slot_line.append(slot.render().as_str());
                lines.push(slot_line);
            },
            None => {},
        }
        proof {
            assert(views_of(lines@) =~= self.lines_spec());
        }
        lines
    }
}

/// Each required field, empty, is rejected with its own specific reason:
/// an empty name as "Empty name"; an empty email, once the name is non-empty,
/// as "Empty email"; an empty message, once name and email are non-empty, as
/// "Empty message".
pub proof fn lemma_empty_fields_rejected(req: ContactFormRequest)
    ensures
        req.name@.len() == 0 ==> (validation_error_of(req) matches Some(e) && e.message_spec()
            == "Empty name"@),
        req.name@.len() > 0 && req.email@.len() == 0 ==> (validation_error_of(req) matches Some(e)
            && e.message_spec() == "Empty email"@),
        req.name@.len() > 0 && req.email@.len() > 0 && req.message@.len() == 0 ==> (
        validation_error_of(req) matches Some(e) && e.message_spec() == "Empty message"@),
{
}

/// A request with all required fields non-empty and no slot is accepted.
pub proof fn lemma_valid_request_accepted(req: ContactFormRequest)
    requires
        req.name@.len() > 0,
        req.email@.len() > 0,
        req.message@.len() > 0,
        req.slot is None,
    ensures
        validation_error_of(req) is None,
{
}

/// A malformed slot's reason is propagated verbatim: the request is rejected
/// with exactly the slot parser's error, whose message is unchanged.
pub proof fn lemma_slot_error_propagated(req: ContactFormRequest, e: SlotError)
    requires
        req.name@.len() > 0,
        req.email@.len() > 0,
        req.message@.len() > 0,
        req.slot matches Some(s) && parse_slot_chars(s@) == Err::<ContactSlot, SlotError>(e),
    ensures
        validation_error_of(req) == Some(ValidationError::Slot(e)),
        ValidationError::Slot(e).message_spec() == e.message_spec(),
{
}

/// The lines joined with single newline separators.
pub open spec fn join_lines(lines: Seq<Seq<char>>) -> Seq<char>
    decreases lines.len(),
{
    if lines.len() == 0 {
        Seq::empty()
    } else if lines.len() == 1 {
        lines[0]
    } else {
        join_lines(lines.drop_last()) + seq!['\n'] + lines.last()
    }
}

/// Join lines with newline separators into one body text.
pub fn join_with_newlines(lines: &Vec<String>) -> (r: String)
    ensures
        r@ == join_lines(views_of(lines@)),
{
    if lines.len() == 0 {
        return String::new();
    }
    let mut out = lines[0].clone();
    proof {
        assert(views_of(lines@).subrange(0, 1) =~= seq![lines@[0]@]);
    }
    let mut i: usize = 1;
    while i < lines.len()
        invariant
            1 <= i <= lines@.len(),
            out@ == join_lines(views_of(lines@).subrange(0, i as int)),
        decreases lines@.len() - i,
    {
        out.append("\n");
        out.append(lines[i].as_str());
        proof {
            reveal_strlit("\n");
            let v = views_of(lines@);
            assert(v.subrange(0, i + 1).drop_last() =~= v.subrange(0, i as int));
            assert(v.subrange(0, i + 1).last() == v[i as int]);
        }
        i += 1;
    }
    proof {
        assert(views_of(lines@).subrange(0, lines@.len() as int) =~= views_of(lines@));
    }
    out
}

} // verus!

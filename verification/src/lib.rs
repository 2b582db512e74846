//! A verified contact-form pipeline: an inbound submission is validated into
//! a trusted entity, formatted as a plain-text email body, and prepared for a
//! single synchronous SMTP delivery.

pub mod date;
pub mod entry;
pub mod http;
pub mod notify;
pub mod numeral;
pub mod slot;

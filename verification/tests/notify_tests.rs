use contact_form::entry::{ContactFormEntry, ContactFormRequest};
use contact_form::http::{err400, err500};
use contact_form::notify::{delivery_id, DeliveryError, EmailConfig};
use lettre::Transport;

fn config() -> EmailConfig {
    EmailConfig {
        to: "to@test.com".to_string(),
        email_user: "user@test.com".to_string(),
        email_password: "password".to_string(),
        smtp_host: "localhost".to_string(),
        smtp_port: 1025,
    }
}

fn entry() -> ContactFormEntry {
    ContactFormEntry::new(&ContactFormRequest {
        name: "test".to_string(),
        email: "test@test.com".to_string(),
        message: "test".to_string(),
        slot: None,
    })
    .unwrap()
}

#[test]
fn test_prepare_notification() {
    let plan = entry().prepare_notification(&config()).unwrap();
    assert_eq!(plan.from_user, "user@test.com");
    assert_eq!(plan.from_name, "Robot");
    assert_eq!(plan.to, "to@test.com");
    assert_eq!(plan.subject, "Contact form submission");
    assert_eq!(plan.body, "Name: test\nEmail: test@test.com\nMessage: test");
    assert_eq!(plan.smtp_host, "localhost");
    assert_eq!(plan.smtp_port, 1025);
    assert_eq!(plan.smtp_user, "user@test.com");
    assert_eq!(plan.smtp_password, "password");
}

#[test]
fn test_prepare_invalid_sender() {
    let mut cfg = config();
    cfg.email_user = "not an address".to_string();
    let err = entry().prepare_notification(&cfg).unwrap_err();
    assert!(matches!(err, DeliveryError::InvalidSender));
    assert_eq!(err.message(), "Invalid email sender");
}

#[test]
fn test_prepare_invalid_destination() {
    let mut cfg = config();
    cfg.to = String::new();
    let err = entry().prepare_notification(&cfg).unwrap_err();
    assert!(matches!(err, DeliveryError::InvalidDestination));
    assert_eq!(err.message(), "Invalid email destination");
}

#[test]
fn test_refused_endpoint_yields_transport_error() {
    // A plan aimed at a refusing SMTP endpoint fails the send and carries the
    // transport's reason; no identifier is produced.
    let mut cfg = config();
    cfg.smtp_host = "127.0.0.1".to_string();
    cfg.smtp_port = 1;
    let plan = entry().prepare_notification(&cfg).unwrap();
    let from: lettre::message::Mailbox = plan.from_user.parse().unwrap();
    let to: lettre::message::Mailbox = plan.to.parse().unwrap();
    let message = lettre::Message::builder()
        .from(from)
        .to(to)
        .subject(plan.subject.clone())
        .body(plan.body.clone())
        .unwrap();
    let transport = lettre::SmtpTransport::builder_dangerous(plan.smtp_host.as_str())
        .port(plan.smtp_port)
        .build();
    let sent = transport.send(&message);
    assert!(sent.is_err());
    let err = DeliveryError::Transport(sent.unwrap_err().to_string());
    assert!(matches!(&err, DeliveryError::Transport(_)));
    assert!(!err.message().is_empty());
}

#[test]
fn test_delivery_id() {
    let ids = vec!["first".to_string(), "second".to_string()];
    assert_eq!(delivery_id(&ids), "first");
    let none: Vec<String> = vec![];
    assert_eq!(delivery_id(&none), "");
}

#[test]
fn test_err400_payload() {
    let r = err400("Empty name");
    assert_eq!(r.code, Some(400));
    assert_eq!(r.error.as_deref(), Some("Bad Request"));
    assert_eq!(r.message, "Empty name");
}

#[test]
fn test_err500_payload() {
    let r = err500("Invalid email sender");
    assert_eq!(r.code, Some(500));
    assert_eq!(r.error.as_deref(), Some("Server Error"));
    assert_eq!(r.message, "Invalid email sender");
}

//! Construction and equality of the configuration records.

use coffee_chat::config::{Recipient, ScheduleConfig, SenderConfig};

#[test]
fn recipient_fields_round_trip() {
    let r = Recipient { name: "Ada".to_string(), email: "ada@example.org".to_string() };
    let copy = r.clone();
    assert_eq!(r, copy);
    assert_eq!(copy.name, "Ada");
    assert_eq!(copy.email, "ada@example.org");
}

#[test]
fn sender_config_holds_template_path() {
    let s = SenderConfig { name: "Grace".to_string(), template_path: "template.txt".to_string() };
    assert_eq!(s.clone(), s);
    assert_eq!(s.template_path, "template.txt");
}

#[test]
fn schedule_config_optional_fields() {
    let off = ScheduleConfig { enabled: false, cron_expression: None, timezone: None };
    assert!(!off.enabled);
    assert_eq!(off.cron_expression, None);
    let on = ScheduleConfig {
        enabled: true,
        cron_expression: Some("0 9 * * MON".to_string()),
        timezone: Some("UTC".to_string()),
    };
    assert!(on.enabled);
    assert_ne!(on, off);
}

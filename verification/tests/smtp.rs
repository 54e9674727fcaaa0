use hangar_application::error::ApplicationError;
use hangar_application::smtp::{GetSmtpSettingsUseCase, SendTestEmailUseCase, SmtpSecurity, SmtpSettings, UpdateSmtpSettingsInput, UpdateSmtpSettingsUseCase};

fn input(host: &str, port: i32, from: &str, password: Option<&str>) -> UpdateSmtpSettingsInput {
    UpdateSmtpSettingsInput {
        host: host.into(),
        port,
        username: "mailer".into(),
        password: password.map(|p| p.to_string()),
        from_name: "Hangar".into(),
        from_address: from.into(),
        security: SmtpSecurity::StartTls,
    }
}

fn err(m: &str) -> Result<(), ApplicationError> {
    Err(ApplicationError::InvalidSmtpSettings(m.into()))
}

#[test]
fn smtp_settings_are_checked_field_by_field() {
    assert_eq!(UpdateSmtpSettingsUseCase::validate(&input("smtp.x", 587, "a@x", None)), Ok(()));
    assert_eq!(UpdateSmtpSettingsUseCase::validate(&input("  ", 587, "a@x", None)), err("host must not be empty"));
    assert_eq!(UpdateSmtpSettingsUseCase::validate(&input("smtp.x", 0, "a@x", None)), err("port must be between 1 and 65535"));
    assert_eq!(
        UpdateSmtpSettingsUseCase::validate(&input("smtp.x", 587, "ax", None)),
        err("from_address must be a valid email address")
    );
}

#[test]
fn a_blank_password_keeps_the_stored_one_and_is_required_the_first_time() {
    assert!(UpdateSmtpSettingsUseCase::needs_stored_password(&input("h", 1, "a@x", Some(""))));
    assert!(!UpdateSmtpSettingsUseCase::needs_stored_password(&input("h", 1, "a@x", Some("pw"))));
    let stored = UpdateSmtpSettingsUseCase::settings_to_store(input("h", 1, "a@x", None), Some("old".into())).unwrap();
    assert_eq!(stored.password, "old");
    let fresh = UpdateSmtpSettingsUseCase::settings_to_store(input("h", 1, "a@x", Some("new")), Some("old".into())).unwrap();
    assert_eq!(fresh.password, "new");
    assert_eq!(
        UpdateSmtpSettingsUseCase::settings_to_store(input("h", 1, "a@x", Some("")), None),
        Err(ApplicationError::InvalidSmtpSettings("password is required when configuring SMTP for the first time".into()))
    );
}

#[test]
fn the_view_never_shows_the_password() {
    let s = SmtpSettings {
        host: "h".into(),
        port: 25,
        username: "u".into(),
        password: "secret".into(),
        from_name: "n".into(),
        from_address: "a@x".into(),
        security: SmtpSecurity::Tls,
    };
    let view = GetSmtpSettingsUseCase::execute(Some(s)).unwrap();
    assert!(view.password_set);
    assert_eq!(view.host, "h");
    assert_eq!(GetSmtpSettingsUseCase::execute(None), None);
    let (subject, text, html) = SendTestEmailUseCase::message();
    assert_eq!(subject, "Hangar SMTP test");
    assert_eq!(html, format!("<p>{text}</p>"));
}

#[test]
fn an_update_is_refused_on_its_first_broken_rule_and_keeps_the_stored_password_otherwise() {
    assert_eq!(
        UpdateSmtpSettingsUseCase::execute(input(" ", 0, "x", None), Some("old".into())),
        Err(ApplicationError::InvalidSmtpSettings("host must not be empty".into()))
    );
    let kept = UpdateSmtpSettingsUseCase::execute(input("smtp.example", 587, "a@b", None), Some("old".into())).unwrap();
    assert_eq!(kept.password, "old");
    let own = UpdateSmtpSettingsUseCase::execute(input("smtp.example", 587, "a@b", Some("new")), Some("old".into())).unwrap();
    assert_eq!(own.password, "new");
    assert_eq!(
        UpdateSmtpSettingsUseCase::execute(input("smtp.example", 587, "a@b", Some("")), None),
        Err(ApplicationError::InvalidSmtpSettings("password is required when configuring SMTP for the first time".into()))
    );
}

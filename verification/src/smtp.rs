//! An organization's outgoing mail settings: what an admin may store, and what is shown back
//! (never the password itself).

use vstd::prelude::*;

use crate::error::ApplicationError;
use crate::text::{all_whitespace, contains_char, has_char, is_all_whitespace};

verus! {

/// How the connection to the mail server is secured.
#[derive(Debug, Clone, Copy, PartialEq, Eq, Structural)]
pub enum SmtpSecurity {
    /// No encryption.
    Plain,
    StartTls,
    Tls,
}

/// Stored mail settings.
#[derive(Debug, Clone, PartialEq, Eq)]
pub struct SmtpSettings {
    pub host: String,
    pub port: i32,
    pub username: String,
    pub password: String,
    pub from_name: String,
    pub from_address: String,
    pub security: SmtpSecurity,
}

/// The settings as shown: `password_set` is all a form needs for "leave blank to keep it".
#[derive(Debug, Clone, PartialEq, Eq)]
pub struct SmtpSettingsView {
    pub host: String,
    pub port: i32,
    pub username: String,
    pub from_name: String,
    pub from_address: String,
    pub security: SmtpSecurity,
    pub password_set: bool,
}

pub struct GetSmtpSettingsUseCase {}

impl GetSmtpSettingsUseCase {
    /// The stored settings without their password.
    pub fn execute(settings: Option<SmtpSettings>) -> (r: Option<SmtpSettingsView>)
        ensures
            match settings {
                None => r is None,
                Some(s) => r == Some(
                    SmtpSettingsView {
                        host: s.host,
                        port: s.port,
                        username: s.username,
                        from_name: s.from_name,
                        from_address: s.from_address,
                        security: s.security,
                        password_set: true,
                    },
                ),
            },
    {
        match settings {
            None => None,
            Some(s) => Some(
                SmtpSettingsView {
                    host: s.host,
                    port: s.port,
                    username: s.username,
                    from_name: s.from_name,
                    from_address: s.from_address,
                    security: s.security,
                    password_set: true,
                },
            ),
        }
    }
}

/// New settings from an admin. `password: None` (or empty) keeps the stored password; it is
/// required the first time, when there is nothing to keep.
#[derive(Debug, Clone, PartialEq, Eq)]
pub struct UpdateSmtpSettingsInput {
    pub host: String,
    pub port: i32,
    pub username: String,
    pub password: Option<String>,
    pub from_name: String,
    pub from_address: String,
    pub security: SmtpSecurity,
}

pub const HOST_EMPTY: &'static str = "host must not be empty";

pub const PORT_RANGE: &'static str = "port must be between 1 and 65535";

pub const USERNAME_EMPTY: &'static str = "username must not be empty";

pub const FROM_ADDRESS_INVALID: &'static str = "from_address must be a valid email address";

pub const FROM_NAME_EMPTY: &'static str = "from_name must not be empty";

pub const PASSWORD_REQUIRED: &'static str = "password is required when configuring SMTP for the first time";

/// The first rule the input breaks, by its message.
pub open spec fn smtp_violation(input: UpdateSmtpSettingsInput) -> Option<Seq<char>> {
    if all_whitespace(input.host@) {
        Some(HOST_EMPTY@)
    } else if !(1 <= input.port <= 65535) {
        Some(PORT_RANGE@)
    } else if all_whitespace(input.username@) {
        Some(USERNAME_EMPTY@)
    } else if all_whitespace(input.from_address@) || !has_char(input.from_address@, '@') {
        Some(FROM_ADDRESS_INVALID@)
    } else if all_whitespace(input.from_name@) {
        Some(FROM_NAME_EMPTY@)
    } else {
        None
    }
}

/// Whether the input brings a password of its own.
pub open spec fn brings_password(input: UpdateSmtpSettingsInput) -> bool {
    input.password matches Some(p) && p@.len() > 0
}

pub struct UpdateSmtpSettingsUseCase {}

impl UpdateSmtpSettingsUseCase {
    /// Checks the input, in order: host, port, username, sender address, sender name.
    pub fn validate(input: &UpdateSmtpSettingsInput) -> (r: Result<(), ApplicationError>)
        ensures
            match smtp_violation(*input) {
                None => r is Ok,
                Some(m) => r matches Err(ApplicationError::InvalidSmtpSettings(msg)) && msg@ == m,
            },
    {
        if is_all_whitespace(input.host.as_str()) {
            return Err(ApplicationError::InvalidSmtpSettings(String::from_str(HOST_EMPTY)));
        }
        if !(1 <= input.port && input.port <= 65535) {
            return Err(ApplicationError::InvalidSmtpSettings(String::from_str(PORT_RANGE)));
        }
        if is_all_whitespace(input.username.as_str()) {
            return Err(ApplicationError::InvalidSmtpSettings(String::from_str(USERNAME_EMPTY)));
        }
        if is_all_whitespace(input.from_address.as_str()) || !contains_char(input.from_address.as_str(), '@') {
            return Err(ApplicationError::InvalidSmtpSettings(String::from_str(FROM_ADDRESS_INVALID)));
        }
        if is_all_whitespace(input.from_name.as_str()) {
            return Err(ApplicationError::InvalidSmtpSettings(String::from_str(FROM_NAME_EMPTY)));
        }
        Ok(())
    }

    /// Whether the stored settings must be read for their password.
    pub fn needs_stored_password(input: &UpdateSmtpSettingsInput) -> (r: bool)
        ensures
            r == !brings_password(*input),
    {
        match &input.password {
            Some(p) => p.as_str().unicode_len() == 0,
            None => true,
        }
    }

    /// The settings to store, once the input passed `validate`: the input's password, or else
    /// the stored one (`stored_password`), which must then exist.
    pub fn settings_to_store(input: UpdateSmtpSettingsInput, stored_password: Option<String>) -> (r: Result<
        SmtpSettings,
        ApplicationError,
    >)
        ensures
            brings_password(input) ==> r == Ok::<SmtpSettings, ApplicationError>(
                SmtpSettings {
                    host: input.host,
                    port: input.port,
                    username: input.username,
                    password: input.password.unwrap(),
                    from_name: input.from_name,
                    from_address: input.from_address,
                    security: input.security,
                },
            ),
            !brings_password(input) && stored_password is Some ==> r == Ok::<SmtpSettings, ApplicationError>(
                SmtpSettings {
                    host: input.host,
                    port: input.port,
                    username: input.username,
                    password: stored_password.unwrap(),
                    from_name: input.from_name,
                    from_address: input.from_address,
                    security: input.security,
                },
            ),
            !brings_password(input) && stored_password is None ==> (r matches Err(
                ApplicationError::InvalidSmtpSettings(m),
            ) && m@ == PASSWORD_REQUIRED@),
    {
        let UpdateSmtpSettingsInput { host, port, username, password, from_name, from_address, security } = input;
        let chosen = match password {
            Some(p) => {
                if p.as_str().unicode_len() > 0 {
                    p
                } else {
                    match stored_password {
                        Some(s) => s,
                        None => {
                            return Err(ApplicationError::InvalidSmtpSettings(String::from_str(PASSWORD_REQUIRED)));
                        },
                    }
                }
            },
            None => match stored_password {
                Some(s) => s,
                None => {
                    return Err(ApplicationError::InvalidSmtpSettings(String::from_str(PASSWORD_REQUIRED)));
                },
            },
        };
        Ok(SmtpSettings { host, port, username, password: chosen, from_name, from_address, security })
    }
}

impl UpdateSmtpSettingsUseCase {
    /// The settings an update stores, or why it is refused: the first broken rule of
    /// `validate`; else the input with its own password, or the stored one
    /// (`stored_password`, read only when the input brings none), which must then exist.
    pub fn execute(input: UpdateSmtpSettingsInput, stored_password: Option<String>) -> (r: Result<SmtpSettings, ApplicationError>)
        ensures
            match smtp_violation(input) {
                Some(m) => r matches Err(ApplicationError::InvalidSmtpSettings(msg)) && msg@ == m,
                None => if brings_password(input) {
                    r == Ok::<SmtpSettings, ApplicationError>(
                        SmtpSettings {
                            host: input.host,
                            port: input.port,
                            username: input.username,
                            password: input.password.unwrap(),
                            from_name: input.from_name,
                            from_address: input.from_address,
                            security: input.security,
                        },
                    )
                } else if stored_password is Some {
                    r == Ok::<SmtpSettings, ApplicationError>(
                        SmtpSettings {
                            host: input.host,
                            port: input.port,
                            username: input.username,
                            password: stored_password.unwrap(),
                            from_name: input.from_name,
                            from_address: input.from_address,
                            security: input.security,
                        },
                    )
                } else {
                    r matches Err(ApplicationError::InvalidSmtpSettings(m)) && m@ == PASSWORD_REQUIRED@
                },
            },
    {
        match Self::validate(&input) {
            Err(e) => Err(e),
            Ok(()) => Self::settings_to_store(input, stored_password),
        }
    }
}

pub const TEST_EMAIL_SUBJECT: &'static str = "Hangar SMTP test";

pub const TEST_EMAIL_TEXT: &'static str = "This is a test email from Hangar. If you received it, your SMTP settings are working correctly.";

pub struct SendTestEmailUseCase {}

impl SendTestEmailUseCase {
    /// The test message: `(subject, text, html)`, the html being the text in a paragraph.
    pub fn message() -> (r: (String, String, String))
        ensures
            r.0@ == TEST_EMAIL_SUBJECT@,
            r.1@ == TEST_EMAIL_TEXT@,
            r.2@ == "<p>"@ + TEST_EMAIL_TEXT@ + "</p>"@,
    {
        let mut html = String::from_str("<p>");
        html.append(TEST_EMAIL_TEXT);
        html.append("</p>");
        (String::from_str(TEST_EMAIL_SUBJECT), String::from_str(TEST_EMAIL_TEXT), html)
    }
}

} // verus!

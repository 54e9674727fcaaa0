//! Subject, plain-text and HTML builders for the outbound notification emails. Every HTML body
//! is wrapped in one shared shell; styles are inline and the layout uses tables, since email
//! clients do not reliably support stylesheets. The logo is referenced as `cid:` + [`LOGO_CID`],
//! the id under which the sender attaches the image bytes.

use vstd::prelude::*;

use crate::text::{seq_contains, lemma_contains_middle};

verus! {

/// One rendered notification: subject line, plain-text body and HTML body.
pub struct EmailContent {
    pub subject: String,
    pub text: String,
    pub html: String,
}

/// The content id the sender attaches the logo image under.
pub const LOGO_CID: &'static str = "hangar-logo";

pub const PRIMARY: &'static str = "#0d1ed3";

pub const TEXT_PRIMARY: &'static str = "#1f2937";

pub const TEXT_SECONDARY: &'static str = "#6b7280";

pub const DOCTYPE: &'static str = "<!doctype html>";

pub const SHELL_0: &'static str = "\n<html lang=\"fr\">\n  <head>\n    <meta charset=\"utf-8\" />\n    <meta name=\"viewport\" content=\"width=device-width, initial-scale=1\" />\n    <title>Hangar</title>\n  </head>\n  <body style=\"margin:0; padding:0; background-color:#f4f5f7; font-family:-apple-system,BlinkMacSystemFont,'Segoe UI',Roboto,Helvetica,Arial,sans-serif;\">\n    <span style=\"display:none; font-size:1px; color:#f4f5f7; line-height:1px; max-height:0; max-width:0; opacity:0; overflow:hidden;\">";

pub const SHELL_1: &'static str = "</span>\n    <table role=\"presentation\" width=\"100%\" cellpadding=\"0\" cellspacing=\"0\" style=\"background-color:#f4f5f7; padding:32px 16px;\">\n      <tr>\n        <td align=\"center\">\n          <table role=\"presentation\" width=\"100%\" style=\"max-width:480px; background-color:#ffffff; border-radius:12px; overflow:hidden; box-shadow:0 1px 3px rgba(0,0,0,0.1);\" cellpadding=\"0\" cellspacing=\"0\">\n            <tr>\n              <td style=\"padding:32px 32px 24px; text-align:center; border-bottom:1px solid #e5e7eb;\">\n                <img src=\"cid:";

pub const SHELL_2: &'static str = "\" alt=\"Hangar\" width=\"220\" style=\"display:block; width:220px; max-width:100%; height:auto; margin:0 auto;\" />\n              </td>\n            </tr>\n            <tr>\n              <td style=\"padding:32px; font-size:14px; line-height:1.6; color:";

pub const SHELL_3: &'static str = ";\">\n                ";

pub const SHELL_4: &'static str = "\n              </td>\n            </tr>\n            <tr>\n              <td style=\"padding:20px 32px; background-color:#f9fafb; text-align:center;\">\n                <p style=\"margin:0; font-size:12px; color:";

pub const SHELL_5: &'static str = ";\">Cet email a été envoyé automatiquement par votre instance Hangar.</p>\n              </td>\n            </tr>\n          </table>\n        </td>\n      </tr>\n    </table>\n  </body>\n</html>";

pub const BUTTON_0: &'static str = "<table role=\"presentation\" cellpadding=\"0\" cellspacing=\"0\" style=\"margin:24px 0;\"><tr><td style=\"border-radius:8px; background-color:";

pub const BUTTON_1: &'static str = ";\"><a href=\"";

pub const BUTTON_2: &'static str = "\" style=\"display:inline-block; padding:12px 24px; font-size:14px; font-weight:600; color:#ffffff; text-decoration:none;\">";

pub const BUTTON_3: &'static str = "</a></td></tr></table>";

pub const CREATED_TEXT_0: &'static str = "Bonjour ";

pub const CREATED_TEXT_1: &'static str = ",\n\nUn compte Hangar a été créé pour vous. Pour l'activer et choisir votre mot de passe, cliquez sur le lien suivant dans les 24 heures :\n\n";

pub const CREATED_TEXT_2: &'static str = "\n\nPassé ce délai, le lien expirera et vous devrez demander à un administrateur de vous renvoyer une invitation.";

pub const CREATED_HTML_0: &'static str = "<p style=\"margin:0 0 16px;\">Bonjour <strong>";

pub const CREATED_HTML_1: &'static str = "</strong>,</p>\n<p style=\"margin:0 0 16px;\">Un compte Hangar a été créé pour vous. Pour l'activer et choisir votre mot de passe, cliquez sur le bouton ci-dessous.</p>\n";

pub const CREATED_HTML_2: &'static str = "\n<p style=\"margin:16px 0 0; font-size:13px; color:";

pub const CREATED_HTML_3: &'static str = ";\">Ce lien expire dans 24 heures. Passé ce délai, demandez à un administrateur de vous renvoyer une invitation.</p>";

pub const CHANGED_TEXT_0: &'static str = "Bonjour ";

pub const CHANGED_TEXT_1: &'static str = ",\n\nLe mot de passe de votre compte Hangar vient d'être modifié.\n\nSi vous êtes à l'origine de ce changement, aucune action n'est nécessaire.\n\nSi vous n'êtes pas à l'origine de ce changement, contactez immédiatement un administrateur de votre instance Hangar.";

pub const CHANGED_HTML_0: &'static str = "<p style=\"margin:0 0 16px;\">Bonjour <strong>";

pub const CHANGED_HTML_1: &'static str = "</strong>,</p>\n<p style=\"margin:0 0 16px;\">Le mot de passe de votre compte Hangar vient d'être modifié.</p>\n<p style=\"margin:0 0 16px;\">Si vous êtes à l'origine de ce changement, aucune action n'est nécessaire.</p>\n<p style=\"margin:0; padding:12px 16px; background-color:#fef3c7; border-radius:8px; color:#92400e;\">Si vous n'êtes <strong>pas</strong> à l'origine de ce changement, contactez immédiatement un administrateur de votre instance Hangar.</p>";

pub const ENROLLED_TEXT_0: &'static str = "Bonjour ";

pub const ENROLLED_TEXT_1: &'static str = ",\n\nUne nouvelle méthode de double authentification vient d'être ajoutée à votre compte Hangar : ";

pub const ENROLLED_TEXT_2: &'static str = ".\n\nSi vous êtes à l'origine de cet ajout, aucune action n'est nécessaire.\n\nSi vous n'êtes pas à l'origine de cet ajout, contactez immédiatement un administrateur de votre instance Hangar.";

pub const ENROLLED_HTML_0: &'static str = "<p style=\"margin:0 0 16px;\">Bonjour <strong>";

pub const ENROLLED_HTML_1: &'static str = "</strong>,</p>\n<p style=\"margin:0 0 16px;\">Une nouvelle méthode de double authentification vient d'être ajoutée à votre compte Hangar : <strong>";

pub const ENROLLED_HTML_2: &'static str = "</strong>.</p>\n<p style=\"margin:0 0 16px;\">Si vous êtes à l'origine de cet ajout, aucune action n'est nécessaire.</p>\n<p style=\"margin:0; padding:12px 16px; background-color:#fef3c7; border-radius:8px; color:#92400e;\">Si vous n'êtes <strong>pas</strong> à l'origine de cet ajout, contactez immédiatement un administrateur de votre instance Hangar.</p>";


pub const CREATED_SUBJECT: &'static str = "Votre compte Hangar";

pub const CREATED_PREHEADER: &'static str = "Activez votre compte Hangar";

pub const CREATED_BUTTON_LABEL: &'static str = "Activer mon compte";

pub const CHANGED_SUBJECT: &'static str = "Votre mot de passe Hangar a été modifié";

pub const CHANGED_PREHEADER: &'static str = "Votre mot de passe a été modifié";

pub const ENROLLED_SUBJECT: &'static str = "Nouvelle méthode de double authentification ajoutée";

pub const ENROLLED_PREHEADER: &'static str = "Nouvelle méthode de double authentification";

/// The full HTML document around a body: preheader, logo header, body cell and footer.
pub open spec fn shell_spec(preheader: Seq<char>, body_html: Seq<char>) -> Seq<char> {
    DOCTYPE@ + SHELL_0@ + preheader + SHELL_1@ + LOGO_CID@ + SHELL_2@ + TEXT_PRIMARY@ + SHELL_3@ + body_html + SHELL_4@ + TEXT_SECONDARY@ + SHELL_5@
}

/// A call-to-action button linking to `href`.
pub open spec fn button_spec(href: Seq<char>, label: Seq<char>) -> Seq<char> {
    BUTTON_0@ + PRIMARY@ + BUTTON_1@ + href + BUTTON_2@ + label + BUTTON_3@
}

pub open spec fn account_created_text(username: Seq<char>, activation_url: Seq<char>) -> Seq<char> {
    CREATED_TEXT_0@ + username + CREATED_TEXT_1@ + activation_url + CREATED_TEXT_2@
}

pub open spec fn account_created_body(username: Seq<char>, activation_url: Seq<char>) -> Seq<char> {
    let button = button_spec(activation_url, CREATED_BUTTON_LABEL@);
    CREATED_HTML_0@ + username + CREATED_HTML_1@ + button + CREATED_HTML_2@ + TEXT_SECONDARY@ + CREATED_HTML_3@
}

pub open spec fn password_changed_text(username: Seq<char>) -> Seq<char> {
    CHANGED_TEXT_0@ + username + CHANGED_TEXT_1@
}

pub open spec fn password_changed_body(username: Seq<char>) -> Seq<char> {
    CHANGED_HTML_0@ + username + CHANGED_HTML_1@
}

pub open spec fn mfa_enrolled_text(username: Seq<char>, method: Seq<char>) -> Seq<char> {
    ENROLLED_TEXT_0@ + username + ENROLLED_TEXT_1@ + method + ENROLLED_TEXT_2@
}

pub open spec fn mfa_enrolled_body(username: Seq<char>, method: Seq<char>) -> Seq<char> {
    ENROLLED_HTML_0@ + username + ENROLLED_HTML_1@ + method + ENROLLED_HTML_2@
}

pub fn shell(preheader: &str, body_html: &str) -> (r: String)
    ensures
        r@ == shell_spec(preheader@, body_html@),
{
    let mut s = String::from_str(DOCTYPE);
    s.append(SHELL_0);
    s.append(preheader);
    s.append(SHELL_1);
    s.append(LOGO_CID);
    s.append(SHELL_2);
    s.append(TEXT_PRIMARY);
    s.append(SHELL_3);
    s.append(body_html);
    s.append(SHELL_4);
    s.append(TEXT_SECONDARY);
    s.append(SHELL_5);
    s
}

pub fn button(href: &str, label: &str) -> (r: String)
    ensures
        r@ == button_spec(href@, label@),
{
    let mut s = String::from_str(BUTTON_0);
    s.append(PRIMARY);
    s.append(BUTTON_1);
    s.append(href);
    s.append(BUTTON_2);
    s.append(label);
    s.append(BUTTON_3);
    s
}

/// The invitation email: asks `username` to follow `activation_url` (valid 24 hours) to
/// activate the account and choose a password.
pub fn account_created(username: &str, activation_url: &str) -> (r: EmailContent)
    ensures
        r.subject@ == CREATED_SUBJECT@,
        r.text@ == account_created_text(username@, activation_url@),
        r.html@ == shell_spec(CREATED_PREHEADER@, account_created_body(username@, activation_url@)),
{
    let text = {
        let mut s = String::from_str(CREATED_TEXT_0);
        s.append(username);
        s.append(CREATED_TEXT_1);
        s.append(activation_url);
        s.append(CREATED_TEXT_2);
        s
    };
    let button = button(activation_url, CREATED_BUTTON_LABEL);
    let body_html = {
        let mut s = String::from_str(CREATED_HTML_0);
        s.append(username);
        s.append(CREATED_HTML_1);
        s.append(button.as_str());
        s.append(CREATED_HTML_2);
        s.append(TEXT_SECONDARY);
        s.append(CREATED_HTML_3);
        s
    };
    EmailContent {
        subject: String::from_str(CREATED_SUBJECT),
        text,
        html: shell(CREATED_PREHEADER, body_html.as_str()),
    }
}

/// The notice sent after a password change.
pub fn password_changed(username: &str) -> (r: EmailContent)
    ensures
        r.subject@ == CHANGED_SUBJECT@,
        r.text@ == password_changed_text(username@),
        r.html@ == shell_spec(CHANGED_PREHEADER@, password_changed_body(username@)),
{
    let text = {
        let mut s = String::from_str(CHANGED_TEXT_0);
        s.append(username);
        s.append(CHANGED_TEXT_1);
        s
    };
    let body_html = {
        let mut s = String::from_str(CHANGED_HTML_0);
        s.append(username);
        s.append(CHANGED_HTML_1);
        s
    };
    EmailContent {
        subject: String::from_str(CHANGED_SUBJECT),
        text,
        html: shell(CHANGED_PREHEADER, body_html.as_str()),
    }
}

/// The notice sent after a second factor (`method`, in words) was added to the account.
pub fn mfa_enrolled(username: &str, method: &str) -> (r: EmailContent)
    ensures
        r.subject@ == ENROLLED_SUBJECT@,
        r.text@ == mfa_enrolled_text(username@, method@),
        r.html@ == shell_spec(ENROLLED_PREHEADER@, mfa_enrolled_body(username@, method@)),
{
    let text = {
        let mut s = String::from_str(ENROLLED_TEXT_0);
        s.append(username);
        s.append(ENROLLED_TEXT_1);
        s.append(method);
        s.append(ENROLLED_TEXT_2);
        s
    };
    let body_html = {
        let mut s = String::from_str(ENROLLED_HTML_0);
        s.append(username);
        s.append(ENROLLED_HTML_1);
        s.append(method);
        s.append(ENROLLED_HTML_2);
        s
    };
    EmailContent {
        subject: String::from_str(ENROLLED_SUBJECT),
        text,
        html: shell(ENROLLED_PREHEADER, body_html.as_str()),
    }
}

/// Every HTML body is a complete document: it starts with the doctype declaration.
pub proof fn lemma_shell_starts_with_doctype(preheader: Seq<char>, body_html: Seq<char>)
    ensures
        shell_spec(preheader, body_html).len() >= DOCTYPE@.len(),
        shell_spec(preheader, body_html).subrange(0, DOCTYPE@.len() as int) == DOCTYPE@,
{
    let rest = SHELL_0@ + preheader + SHELL_1@ + LOGO_CID@ + SHELL_2@ + TEXT_PRIMARY@ + SHELL_3@ + body_html
        + SHELL_4@ + TEXT_SECONDARY@ + SHELL_5@;
    assert(shell_spec(preheader, body_html) =~= DOCTYPE@ + rest);
    assert((DOCTYPE@ + rest).subrange(0, DOCTYPE@.len() as int) =~= DOCTYPE@);
}

/// The shell always carries the body it wraps.
pub proof fn lemma_shell_contains_body(preheader: Seq<char>, body_html: Seq<char>)
    ensures
        seq_contains(shell_spec(preheader, body_html), body_html),
{
    let pre = DOCTYPE@ + SHELL_0@ + preheader + SHELL_1@ + LOGO_CID@ + SHELL_2@ + TEXT_PRIMARY@ + SHELL_3@;
    let post = SHELL_4@ + TEXT_SECONDARY@ + SHELL_5@;
    assert(shell_spec(preheader, body_html) =~= pre + body_html + post);
    lemma_contains_middle(pre, body_html, post);
}

/// The invitation email carries the activation link in both bodies, and greets the user by
/// name in the HTML body.
pub proof fn lemma_account_created_mentions_link_and_name(username: Seq<char>, activation_url: Seq<char>)
    ensures
        seq_contains(account_created_text(username, activation_url), activation_url),
        seq_contains(shell_spec(CREATED_PREHEADER@, account_created_body(username, activation_url)), activation_url),
        seq_contains(shell_spec(CREATED_PREHEADER@, account_created_body(username, activation_url)), username),
{
    lemma_contains_middle(CREATED_TEXT_0@ + username + CREATED_TEXT_1@, activation_url, CREATED_TEXT_2@);
    assert(account_created_text(username, activation_url) =~= (CREATED_TEXT_0@ + username + CREATED_TEXT_1@) + activation_url + CREATED_TEXT_2@);
    let body = account_created_body(username, activation_url);
    let button = button_spec(activation_url, CREATED_BUTTON_LABEL@);
    let shell_pre = DOCTYPE@ + SHELL_0@ + CREATED_PREHEADER@ + SHELL_1@ + LOGO_CID@ + SHELL_2@ + TEXT_PRIMARY@ + SHELL_3@;
    let shell_post = SHELL_4@ + TEXT_SECONDARY@ + SHELL_5@;
    let doc = shell_spec(CREATED_PREHEADER@, body);
    // the link sits inside the button, inside the body, inside the shell
    let url_pre = shell_pre + CREATED_HTML_0@ + username + CREATED_HTML_1@ + BUTTON_0@ + PRIMARY@ + BUTTON_1@;
    let url_post = BUTTON_2@ + CREATED_BUTTON_LABEL@ + BUTTON_3@ + CREATED_HTML_2@ + TEXT_SECONDARY@ + CREATED_HTML_3@ + shell_post;
    assert(doc =~= url_pre + activation_url + url_post);
    lemma_contains_middle(url_pre, activation_url, url_post);
    let name_pre = shell_pre + CREATED_HTML_0@;
    let name_post = CREATED_HTML_1@ + button + CREATED_HTML_2@ + TEXT_SECONDARY@ + CREATED_HTML_3@ + shell_post;
    assert(doc =~= name_pre + username + name_post);
    lemma_contains_middle(name_pre, username, name_post);
}

/// The password-change notice names the user in both bodies.
pub proof fn lemma_password_changed_mentions_name(username: Seq<char>)
    ensures
        seq_contains(password_changed_text(username), username),
        seq_contains(shell_spec(CHANGED_PREHEADER@, password_changed_body(username)), username),
{
    assert(password_changed_text(username) =~= CHANGED_TEXT_0@ + username + CHANGED_TEXT_1@);
    lemma_contains_middle(CHANGED_TEXT_0@, username, CHANGED_TEXT_1@);
    let shell_pre = DOCTYPE@ + SHELL_0@ + CHANGED_PREHEADER@ + SHELL_1@ + LOGO_CID@ + SHELL_2@ + TEXT_PRIMARY@ + SHELL_3@;
    let shell_post = SHELL_4@ + TEXT_SECONDARY@ + SHELL_5@;
    assert(shell_spec(CHANGED_PREHEADER@, password_changed_body(username)) =~= (shell_pre + CHANGED_HTML_0@) + username + (CHANGED_HTML_1@ + shell_post));
    lemma_contains_middle(shell_pre + CHANGED_HTML_0@, username, CHANGED_HTML_1@ + shell_post);
}

/// The enrollment notice names the added method in both bodies.
pub proof fn lemma_mfa_enrolled_mentions_method(username: Seq<char>, method: Seq<char>)
    ensures
        seq_contains(mfa_enrolled_text(username, method), method),
        seq_contains(shell_spec(ENROLLED_PREHEADER@, mfa_enrolled_body(username, method)), method),
{
    assert(mfa_enrolled_text(username, method) =~= (ENROLLED_TEXT_0@ + username + ENROLLED_TEXT_1@) + method + ENROLLED_TEXT_2@);
    lemma_contains_middle(ENROLLED_TEXT_0@ + username + ENROLLED_TEXT_1@, method, ENROLLED_TEXT_2@);
    let shell_pre = DOCTYPE@ + SHELL_0@ + ENROLLED_PREHEADER@ + SHELL_1@ + LOGO_CID@ + SHELL_2@ + TEXT_PRIMARY@ + SHELL_3@;
    let shell_post = SHELL_4@ + TEXT_SECONDARY@ + SHELL_5@;
    let pre = shell_pre + ENROLLED_HTML_0@ + username + ENROLLED_HTML_1@;
    let post = ENROLLED_HTML_2@ + shell_post;
    assert(shell_spec(ENROLLED_PREHEADER@, mfa_enrolled_body(username, method)) =~= pre + method + post);
    lemma_contains_middle(pre, method, post);
}

} // verus!

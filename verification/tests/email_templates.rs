use hangar_application::email_templates::{account_created, mfa_enrolled, password_changed, LOGO_CID};

#[test]
fn account_created_includes_the_activation_link_in_both_bodies() {
    let content = account_created("florian", "https://hangar.example.com/activate?token=abc");
    assert!(content.text.contains("https://hangar.example.com/activate?token=abc"));
    assert!(content.html.contains("https://hangar.example.com/activate?token=abc"));
    assert!(content.html.contains("florian"));
    assert!(content.html.starts_with("<!doctype html>"));
}

#[test]
fn password_changed_mentions_the_username_in_both_bodies() {
    let content = password_changed("florian");
    assert!(content.text.contains("florian"));
    assert!(content.html.contains("florian"));
    assert!(content.html.contains("modifié"));
}

#[test]
fn mfa_enrolled_mentions_the_method_in_both_bodies() {
    let content = mfa_enrolled("florian", "une clé d'accès (passkey)");
    assert!(content.text.contains("une clé d'accès (passkey)"));
    assert!(content.html.contains("une clé d'accès (passkey)"));
}

#[test]
fn account_created_text_and_subject_are_exact() {
    let content = account_created("ana", "https://x/activate?token=t");
    assert_eq!(content.subject, "Votre compte Hangar");
    assert_eq!(
        content.text,
        "Bonjour ana,\n\nUn compte Hangar a été créé pour vous. Pour l'activer et choisir votre mot de passe, cliquez sur le lien suivant dans les 24 heures :\n\nhttps://x/activate?token=t\n\nPassé ce délai, le lien expirera et vous devrez demander à un administrateur de vous renvoyer une invitation."
    );
    assert!(content.html.contains("Activer mon compte"));
    assert!(content.html.contains("Activez votre compte Hangar"));
}

#[test]
fn every_html_body_references_the_logo_by_content_id() {
    let needle = format!("cid:{LOGO_CID}");
    assert!(account_created("a", "u").html.contains(&needle));
    assert!(password_changed("a").html.contains(&needle));
    assert!(mfa_enrolled("a", "m").html.contains(&needle));
    assert!(password_changed("a").html.ends_with("</html>"));
}

#[test]
fn subjects_of_the_other_notices() {
    assert_eq!(password_changed("a").subject, "Votre mot de passe Hangar a été modifié");
    assert_eq!(mfa_enrolled("a", "m").subject, "Nouvelle méthode de double authentification ajoutée");
    assert!(mfa_enrolled("bob", "TOTP").text.starts_with("Bonjour bob,\n\nUne nouvelle méthode"));
}

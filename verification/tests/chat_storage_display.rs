use whatsvault::whatsapp::chat_storage_display::{
    display_chat_title, display_message_text, filename_from_media_path,
    first_display_message_text, first_nonempty, first_readable_sender,
};

#[test]
fn display_title_hides_backup_identifiers() {
    assert_eq!(display_chat_title("12345678901@g.us"), "Group chat");
    assert_eq!(display_chat_title("12345678901@lid"), "Participant");
    assert_eq!(display_chat_title("12345678901@s.whatsapp.net"), "+12345678901");
}

#[test]
fn message_text_redacts_internal_identifiers() {
    let text = first_display_message_text(&[Some(
        "Added @12345678901 and 12345678901@s.whatsapp.net to 12345678901@g.us",
    )]);

    assert_eq!(text.as_deref(), Some("Added @Participant and Participant to Group"));
}

#[test]
fn readable_sender_skips_private_or_opaque_identifiers() {
    assert_eq!(
        first_readable_sender(&[
            Some("12345678901@s.whatsapp.net"),
            Some("abcedfghijklmnop=="),
            Some("Ana")
        ])
        .as_deref(),
        Some("Ana")
    );
}

#[test]
fn titles_fall_back_for_blank_and_unknown_values() {
    assert_eq!(display_chat_title("   "), "Imported chat");
    assert_eq!(display_chat_title(" Family "), "Family");
    assert_eq!(display_chat_title("someone@example.com"), "someone@example.com");
    assert_eq!(display_chat_title("1234@s.whatsapp.net"), "1234");
    assert_eq!(display_chat_title(" @s.whatsapp.net"), "Imported chat");
}

#[test]
fn structured_system_events_get_a_label() {
    assert_eq!(
        display_message_text("{\"reason\": 1, \"is_open_group\": true}").as_deref(),
        Some("System event")
    );
    assert_eq!(display_message_text("   "), None);
    assert_eq!(display_message_text("@12345678"), Some("@Participant".to_owned()));
    assert_eq!(display_message_text("@1234567"), Some("@1234567".to_owned()));
}

#[test]
fn phone_numbers_are_not_readable_senders() {
    assert_eq!(first_readable_sender(&[Some("+1 (555) 123-4567"), None]), None);
    assert_eq!(first_readable_sender(&[None, Some("  Bo  ")]).as_deref(), Some("Bo"));
}

#[test]
fn first_nonempty_trims_and_skips_blanks() {
    assert_eq!(first_nonempty(&[None, Some("  "), Some(" x ")]).as_deref(), Some("x"));
    assert_eq!(first_nonempty(&[None, Some("")]), None);
}

#[test]
fn media_file_names_come_from_the_last_component() {
    assert_eq!(filename_from_media_path("Message\\Media\\photo.jpg"), "photo.jpg");
    assert_eq!(filename_from_media_path("Message/Media/"), "Message/Media/");
    assert_eq!(filename_from_media_path("voice.opus"), "voice.opus");
}

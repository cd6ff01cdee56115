use whatsvault::media::{
    attachment_display_label, attachment_kind_from_filename, attachment_kind_from_mime_or_filename,
    attachment_media_type,
};
use whatsvault::AttachmentKind;

#[test]
fn classifies_attachment_kind_from_filename_extensions() {
    assert_eq!(attachment_kind_from_filename("photo.JPG"), AttachmentKind::Photo);
    assert_eq!(attachment_kind_from_filename("voice.opus"), AttachmentKind::Audio);
    assert_eq!(attachment_kind_from_filename("clip.mp4"), AttachmentKind::Video);
    assert_eq!(attachment_kind_from_filename("animated.gif"), AttachmentKind::Gif);
    assert_eq!(attachment_kind_from_filename("document.pdf"), AttachmentKind::Unknown);
}

#[test]
fn prefers_mime_type_when_it_is_more_specific_than_filename() {
    assert_eq!(
        attachment_kind_from_mime_or_filename(Some("audio/ogg"), "media.bin"),
        AttachmentKind::Audio
    );
    assert_eq!(
        attachment_kind_from_mime_or_filename(Some("image/jpeg"), "media.bin"),
        AttachmentKind::Photo
    );
    assert_eq!(
        attachment_kind_from_mime_or_filename(Some("video/mp4"), "media.bin"),
        AttachmentKind::Video
    );
    assert_eq!(
        attachment_kind_from_mime_or_filename(None, "sticker.webp"),
        AttachmentKind::Photo
    );
}

#[test]
fn exposes_human_attachment_labels_for_chat_previews() {
    assert_eq!(attachment_display_label(AttachmentKind::Photo), "Photo");
    assert_eq!(attachment_display_label(AttachmentKind::Audio), "Voice message");
    assert_eq!(attachment_display_label(AttachmentKind::Unknown), "Attachment");
}

#[test]
fn maps_previewable_export_media_to_browser_media_types() {
    assert_eq!(attachment_media_type(AttachmentKind::Photo, "photo.JPG"), Some("image/jpeg"));
    assert_eq!(attachment_media_type(AttachmentKind::Sticker, "sticker.webp"), Some("image/webp"));
    assert_eq!(attachment_media_type(AttachmentKind::Gif, "animated.mp4"), Some("image/gif"));
    assert_eq!(attachment_media_type(AttachmentKind::Video, "clip.mp4"), Some("video/mp4"));
}

#[test]
fn mime_type_gif_and_blank_mime_fall_back_as_documented() {
    assert_eq!(
        attachment_kind_from_mime_or_filename(Some(" IMAGE/GIF "), "x.bin"),
        AttachmentKind::Gif
    );
    assert_eq!(
        attachment_kind_from_mime_or_filename(Some("   "), "voice.opus"),
        AttachmentKind::Audio
    );
    assert_eq!(
        attachment_kind_from_mime_or_filename(Some("application/pdf"), "clip.mov"),
        AttachmentKind::Video
    );
}

#[test]
fn media_type_is_absent_for_unknown_extensions() {
    assert_eq!(attachment_media_type(AttachmentKind::Unknown, "notes.xyz"), None);
    assert_eq!(attachment_media_type(AttachmentKind::Audio, "voice.opus"), Some("audio/ogg"));
}

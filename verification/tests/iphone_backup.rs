use std::path::PathBuf;

use whatsvault::sources::iphone_backup::{
    backup_metadata_from_plists, backup_roots_from_env_for_platform, InfoPlistValues,
    PlistTextOrDate, discover_default_backup_candidates,
    find_whatsapp_manifest_file_by_relative_path, find_whatsapp_manifest_files, join_suffix,
    normalize_manifest_relative_path, physical_backup_file_path, resolve_whatsapp_media_file_path,
    BackupPlatform, MACOS_BACKUP_SUFFIX, WINDOWS_LEGACY_BACKUP_SUFFIX, WINDOWS_STORE_BACKUP_SUFFIX,
};
use whatsvault::{BackupCandidate, ManifestFile};

fn manifest_file(file_id: &str, domain: &str, relative_path: &str) -> ManifestFile {
    ManifestFile {
        file_id: file_id.to_owned(),
        domain: domain.to_owned(),
        relative_path: relative_path.to_owned(),
        flags: Some(1),
    }
}

fn roots(paths: Vec<String>) -> Vec<PathBuf> {
    paths.into_iter().map(PathBuf::from).collect()
}

#[test]
fn macos_backup_suffix_matches_apple_documented_path() {
    assert_eq!(
        PathBuf::from(join_suffix("/Users/example".to_owned(), &MACOS_BACKUP_SUFFIX)),
        PathBuf::from("/Users/example/Library/Application Support/MobileSync/Backup")
    );
}

#[test]
fn windows_backup_suffixes_cover_store_and_legacy_locations() {
    assert_eq!(
        PathBuf::from(join_suffix("C:/Users/example".to_owned(), &WINDOWS_STORE_BACKUP_SUFFIX)),
        PathBuf::from("C:/Users/example/Apple/MobileSync/Backup")
    );
    assert_eq!(
        PathBuf::from(join_suffix(
            "C:/Users/example/AppData/Roaming".to_owned(),
            &WINDOWS_LEGACY_BACKUP_SUFFIX
        )),
        PathBuf::from("C:/Users/example/AppData/Roaming/Apple Computer/MobileSync/Backup")
    );
}

#[test]
fn macos_backup_roots_use_home_only() {
    assert_eq!(
        roots(backup_roots_from_env_for_platform(
            BackupPlatform::Macos,
            Some("/Users/example".to_owned()),
            Some("C:/Users/example".to_owned()),
            Some("C:/Users/example/AppData/Roaming".to_owned()),
        )),
        vec![PathBuf::from("/Users/example/Library/Application Support/MobileSync/Backup")]
    );
}

#[test]
fn windows_backup_roots_cover_store_and_legacy_installers() {
    assert_eq!(
        roots(backup_roots_from_env_for_platform(
            BackupPlatform::Windows,
            Some("/Users/example".to_owned()),
            Some("C:/Users/example".to_owned()),
            Some("C:/Users/example/AppData/Roaming".to_owned()),
        )),
        vec![
            PathBuf::from("C:/Users/example/Apple/MobileSync/Backup"),
            PathBuf::from("C:/Users/example/AppData/Roaming/Apple Computer/MobileSync/Backup"),
        ]
    );
}

#[test]
fn backup_roots_are_empty_when_required_platform_env_is_missing() {
    assert!(backup_roots_from_env_for_platform(
        BackupPlatform::Macos,
        None,
        Some("C:/Users/example".to_owned()),
        Some("C:/Users/example/AppData/Roaming".to_owned()),
    )
    .is_empty());

    assert!(backup_roots_from_env_for_platform(
        BackupPlatform::Windows,
        Some("/Users/example".to_owned()),
        None,
        None,
    )
    .is_empty());
}

#[test]
fn unsupported_platforms_have_no_default_backup_roots() {
    assert!(backup_roots_from_env_for_platform(
        BackupPlatform::Unsupported,
        Some("/Users/example".to_owned()),
        Some("C:/Users/example".to_owned()),
        Some("C:/Users/example/AppData/Roaming".to_owned()),
    )
    .is_empty());
}

#[test]
fn finds_whatsapp_targets_from_manifest_db() {
    let files = vec![
        manifest_file(
            "chat-storage-file-id",
            "AppDomainGroup-group.net.whatsapp.WhatsApp.shared",
            "ChatStorage.sqlite",
        ),
        manifest_file(
            "contacts-file-id",
            "AppDomainGroup-group.net.whatsapp.WhatsApp.shared",
            "ContactsV2.sqlite",
        ),
        manifest_file(
            "media-file-id",
            "AppDomainGroup-group.net.whatsapp.WhatsApp.shared",
            "Message/Media/photo.jpg",
        ),
        manifest_file("other-file-id", "AppDomainGroup-group.example.OtherApp", "ChatStorage.sqlite"),
    ];

    let whatsapp = find_whatsapp_manifest_files(files);

    assert_eq!(
        whatsapp.chat_storage.as_ref().map(|file| file.file_id.as_str()),
        Some("chat-storage-file-id")
    );
    assert_eq!(
        whatsapp.contacts.as_ref().map(|file| file.file_id.as_str()),
        Some("contacts-file-id")
    );
    assert_eq!(whatsapp.media.len(), 1);
    assert_eq!(whatsapp.media[0].file_id, "media-file-id");
}

#[test]
fn resolves_manifest_file_ids_to_modern_backup_storage_paths() {
    let backup_root = PathBuf::from("/tmp/example/device-backup-a");

    let resolved = physical_backup_file_path(
        backup_root.to_str().unwrap(),
        "synthetic-chat-storage-file-id",
    );

    assert_eq!(
        PathBuf::from(resolved),
        backup_root.join("sy").join("synthetic-chat-storage-file-id")
    );
}

#[test]
fn resolves_whatsapp_media_relative_paths_to_physical_backup_files() {
    let backup_root = PathBuf::from("/tmp/example/device-backup-a");
    let files = vec![manifest_file(
        "media-file-id",
        "AppDomainGroup-group.net.whatsapp.WhatsApp.shared",
        "Message/Media/photo.jpg",
    )];

    let resolved = resolve_whatsapp_media_file_path(
        backup_root.to_str().unwrap(),
        &files,
        "\\Message\\Media\\photo.jpg",
    );

    assert_eq!(resolved.map(PathBuf::from), Some(backup_root.join("me").join("media-file-id")));
}

#[test]
fn finds_whatsapp_manifest_file_by_normalized_relative_path() {
    let files = vec![manifest_file(
        "media-file-id",
        "AppDomainGroup-group.net.whatsapp.WhatsApp.shared",
        "Message/Media/photo.jpg",
    )];

    let file =
        find_whatsapp_manifest_file_by_relative_path(&files, "/Message/Media/photo.jpg").unwrap();

    assert_eq!(file.file_id, "media-file-id");
    assert_eq!(file.relative_path, "Message/Media/photo.jpg");
}

#[test]
fn manifest_paths_are_normalized_before_matching() {
    assert_eq!(normalize_manifest_relative_path("  \\\\Media\\a.jpg "), "Media/a.jpg");
    assert_eq!(physical_backup_file_path("/b", "a"), "/b/a");
    assert_eq!(physical_backup_file_path("/b/", "abc"), "/b/ab/abc");
}

#[test]
fn backup_files_sit_under_their_first_two_id_characters() {
    assert_eq!(physical_backup_file_path("/b", "éa"), "/b/éa/éa");
    assert_eq!(physical_backup_file_path("/b", "€ab"), "/b/€a/€ab");
    assert_eq!(physical_backup_file_path("/b", "é"), "/b/é");
}

#[test]
fn other_domains_and_paths_are_not_whatsapp_files() {
    let files = vec![
        manifest_file("x", "AppDomainGroup-group.net.whatsapp.WhatsApp.shared", "Library/x.db"),
        manifest_file("y", "HomeDomain", "Message/Media/photo.jpg"),
        manifest_file("z", "AppDomainGroup-group.net.whatsapp.WhatsApp.shared", "stickers/s.webp"),
    ];
    let whatsapp = find_whatsapp_manifest_files(files);
    assert!(whatsapp.chat_storage.is_none());
    assert!(whatsapp.contacts.is_none());
    assert_eq!(whatsapp.media.len(), 1);
    assert_eq!(whatsapp.media[0].file_id, "z");
}

fn candidate(id: &str, path: &str) -> BackupCandidate {
    BackupCandidate {
        id: id.to_owned(),
        path: path.to_owned(),
        manifest_db_path: format!("{path}/Manifest.db"),
        manifest_plist_path: None,
        info_plist_path: None,
        status_plist_path: None,
    }
}

#[test]
fn default_candidates_are_sorted_by_id_without_repeated_paths() {
    let merged = discover_default_backup_candidates(vec![
        candidate("b", "/r1/b"),
        candidate("a", "/r1/a"),
        candidate("a", "/r1/a"),
        candidate("c", "/r2/c"),
    ]);
    let ids: Vec<&str> = merged.iter().map(|c| c.id.as_str()).collect();
    assert_eq!(ids, vec!["a", "b", "c"]);
}

#[test]
fn reads_backup_metadata_from_synthetic_plists() {
    let info = InfoPlistValues {
        device_name: Some("Example iPhone".to_owned()),
        display_name: None,
        product_name: Some("iPhone 15 Pro".to_owned()),
        product_type: Some("iPhone16,1".to_owned()),
        product_version: Some("18.5".to_owned()),
        last_backup_date: PlistTextOrDate { text: None, date: None },
    };
    let status = PlistTextOrDate { text: None, date: Some("2026-06-23T10:00:00Z".to_owned()) };

    let metadata = backup_metadata_from_plists(Some(info), Some(status), Some(false));

    assert_eq!(metadata.device_name.as_deref(), Some("Example iPhone"));
    assert_eq!(metadata.product_name.as_deref(), Some("iPhone 15 Pro"));
    assert_eq!(metadata.product_type.as_deref(), Some("iPhone16,1"));
    assert_eq!(metadata.product_version.as_deref(), Some("18.5"));
    assert_eq!(metadata.last_backup_date.as_deref(), Some("2026-06-23T10:00:00Z"));
    assert_eq!(metadata.is_encrypted, Some(false));
}

#[test]
fn blank_plist_strings_are_left_out() {
    let info = InfoPlistValues {
        device_name: Some("  ".to_owned()),
        display_name: None,
        product_name: None,
        product_type: None,
        product_version: None,
        last_backup_date: PlistTextOrDate { text: Some(" ".to_owned()), date: Some("d1".to_owned()) },
    };
    let metadata = backup_metadata_from_plists(
        Some(info),
        Some(PlistTextOrDate { text: Some("s".to_owned()), date: None }),
        None,
    );
    assert_eq!(metadata.device_name, None);
    assert_eq!(metadata.last_backup_date.as_deref(), Some("d1"));
    let metadata = backup_metadata_from_plists(
        None,
        Some(PlistTextOrDate { text: Some("s".to_owned()), date: None }),
        None,
    );
    assert_eq!(metadata.last_backup_date.as_deref(), Some("s"));
}

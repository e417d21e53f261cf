use emote_pipeline::models::{Emote, Image};
use emote_pipeline::resync::{resync_folder, SyncMode};
use emote_pipeline::stores::{BlobArchive, CacheTier, Ledger};

fn emote(id: &str, name: &str) -> Emote {
    Emote {
        id: id.to_string(),
        default_name: Some(name.to_string()),
        name: None,
        owner: Some(emote_pipeline::models::Owner {
            main_connection: Some(emote_pipeline::models::MainConnection {
                platform_display_name: "alice".to_string(),
            }),
        }),
        images: Some(vec![Image {
            url: format!("https://cdn/{}", id),
            mime: "image/webp".to_string(),
            size: 10,
            scale: 1,
            width: 32,
            frame_count: 1,
        }]),
        host: None,
        animated: Some(false),
    }
}

#[test]
fn resync_replaces_folder_contents_exactly() {
    let mut cache = CacheTier::new();
    let mut ledger = Ledger::new();
    let mut archive = BlobArchive::new("acct".to_string(), "emotes".to_string());
    // stale blobs: one inside the folder, one outside it
    archive.upload_blob(vec![0], "f/Old_00.webp", "image/webp").unwrap();
    archive.upload_blob(vec![0], "g/Keep_00.webp", "image/webp").unwrap();

    let emotes = vec![emote("01", "Pog"), emote("02", "Kek")];
    let downloads = vec![Some(vec![1u8]), Some(vec![2u8])];
    let r = resync_folder(
        &mut cache,
        &mut ledger,
        &mut archive,
        "f",
        "key:f",
        "sync:f",
        Ok(emotes),
        &downloads,
        86400,
        100,
        SyncMode::Trending,
    );
    assert!(r.success);
    assert_eq!(r.total_found, 2);
    assert_eq!(r.message, Some("Synced successfully".to_string()));

    // the folder holds exactly the fresh assets plus the manifest
    let listed = archive.list_blobs_by_prefix("f/");
    assert_eq!(
        listed,
        vec![
            "f/Pog_01.webp".to_string(),
            "f/Kek_02.webp".to_string(),
            "f/_metadata.json".to_string(),
        ]
    );
    // blobs outside the folder were untouched
    assert_eq!(archive.list_blobs_by_prefix("g/").len(), 1);
    // the sync key serves immediately
    assert!(cache.get_from_cache("key:f").is_some());
    // the ledger holds the fresh rows under the sync folder
    let rows = ledger.select_by_folder("sync:f", 10).unwrap();
    assert_eq!(rows.len(), 2);
    assert_eq!(rows[0].seven_tv_id, "01");
    assert_eq!(rows[0].owner_name, Some("alice".to_string()));
}

#[test]
fn resync_twice_creates_no_duplicates() {
    let mut cache = CacheTier::new();
    let mut ledger = Ledger::new();
    let mut archive = BlobArchive::new("acct".to_string(), "emotes".to_string());
    for _ in 0..2 {
        let emotes = vec![emote("01", "Pog")];
        let downloads = vec![Some(vec![1u8])];
        let r = resync_folder(
            &mut cache,
            &mut ledger,
            &mut archive,
            "f",
            "key:f",
            "sync:f",
            Ok(emotes),
            &downloads,
            86400,
            100,
            SyncMode::Trending,
        );
        assert!(r.success);
        assert_eq!(r.emotes[0].file_name, "Pog_01.webp");
    }
    assert_eq!(
        archive.list_blobs_by_prefix("f/"),
        vec!["f/Pog_01.webp".to_string(), "f/_metadata.json".to_string()]
    );
    assert_eq!(ledger.select_by_folder("sync:f", 10).unwrap().len(), 1);
}

#[test]
fn resync_aborts_when_cleanup_fails() {
    let mut cache = CacheTier::new();
    let mut ledger = Ledger::new();
    let mut archive = BlobArchive::new_unavailable();
    let emotes = vec![emote("01", "Pog")];
    let downloads = vec![Some(vec![1u8])];
    let r = resync_folder(
        &mut cache,
        &mut ledger,
        &mut archive,
        "f",
        "key:f",
        "sync:f",
        Ok(emotes),
        &downloads,
        86400,
        100,
        SyncMode::Trending,
    );
    assert!(!r.success);
    assert_eq!(
        r.message,
        Some("Failed to cleanup existing emotes: storage not available".to_string())
    );
    assert!(cache.get_from_cache("key:f").is_none());
    assert!(ledger.select_by_folder("sync:f", 10).unwrap().is_empty());
}

#[test]
fn resync_reports_fetch_failure_after_cleanup() {
    let mut cache = CacheTier::new();
    let mut ledger = Ledger::new();
    let mut archive = BlobArchive::new("acct".to_string(), "emotes".to_string());
    archive.upload_blob(vec![0], "f/Old_00.webp", "image/webp").unwrap();
    let none: Vec<Option<Vec<u8>>> = vec![];
    let r = resync_folder(
        &mut cache,
        &mut ledger,
        &mut archive,
        "f",
        "key:f",
        "sync:f",
        Err("catalog down".to_string()),
        &none,
        86400,
        100,
        SyncMode::Trending,
    );
    assert!(!r.success);
    assert_eq!(r.message, Some("catalog down".to_string()));
    // the wipe had already happened: the folder is empty, by design
    assert!(archive.list_blobs_by_prefix("f/").is_empty());
}

#[test]
fn trending_resync_deletes_stale_rows_but_user_resync_keeps_them() {
    let mut cache = CacheTier::new();
    let mut archive = BlobArchive::new("acct".to_string(), "emotes".to_string());

    // trending mode: stale row under the folder disappears
    let mut ledger = Ledger::new();
    ledger.insert_row(emote_row("99", "sync:f"));
    let r = resync_folder(
        &mut cache,
        &mut ledger,
        &mut archive,
        "f",
        "key:f",
        "sync:f",
        Ok(vec![emote("01", "Pog")]),
        &vec![Some(vec![1u8])],
        86400,
        100,
        SyncMode::Trending,
    );
    assert!(r.success);
    let rows = ledger.select_by_folder("sync:f", 10).unwrap();
    assert_eq!(rows.len(), 1);
    assert_eq!(rows[0].seven_tv_id, "01");

    // user mode: the stale row survives, the fresh one is upserted
    let mut ledger2 = Ledger::new();
    ledger2.insert_row(emote_row("99", "alice"));
    let r2 = resync_folder(
        &mut cache,
        &mut ledger2,
        &mut archive,
        "alice",
        "user_emotes:alice",
        "alice",
        Ok(vec![emote("01", "Pog")]),
        &vec![Some(vec![1u8])],
        86400,
        100,
        SyncMode::User,
    );
    assert!(r2.success);
    assert_eq!(r2.message, Some("User emotes synced successfully".to_string()));
    let rows2 = ledger2.select_by_folder("alice", 10).unwrap();
    assert_eq!(rows2.len(), 2);
}

fn emote_row(id: &str, folder: &str) -> emote_pipeline::stores::LedgerRow {
    emote_pipeline::stores::LedgerRow {
        seven_tv_id: id.to_string(),
        emote_name: format!("old{}", id),
        file_name: format!("old{}.webp", id),
        url: "https://a/old.webp".to_string(),
        owner_name: None,
        animated: false,
        folder_name: folder.to_string(),
    }
}

#[test]
fn resync_drops_record_without_image_source() {
    let mut cache = CacheTier::new();
    let mut ledger = Ledger::new();
    let mut archive = BlobArchive::new("acct".to_string(), "emotes".to_string());
    let bare = Emote {
        id: "03".to_string(),
        default_name: Some("NoArt".to_string()),
        name: None,
        owner: None,
        images: None,
        host: None,
        animated: None,
    };
    let emotes = vec![emote("01", "Pog"), bare, emote("02", "Kek")];
    let downloads = vec![Some(vec![1u8]), None, Some(vec![2u8])];
    let r = resync_folder(
        &mut cache,
        &mut ledger,
        &mut archive,
        "f",
        "key:f",
        "sync:f",
        Ok(emotes),
        &downloads,
        86400,
        100,
        SyncMode::Trending,
    );
    assert!(r.success);
    // output length = input length minus the dropped record
    assert_eq!(r.total_found, 2);
    assert_eq!(r.emotes.len(), 2);
    assert_eq!(r.emotes[0].emote_id, "01");
    assert_eq!(r.emotes[1].emote_id, "02");
}

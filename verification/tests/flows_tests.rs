use emote_pipeline::codec::encode_assets;
use emote_pipeline::models::{Emote, EmoteResponse, Image};
use emote_pipeline::resolver::{cache_aside_read, synced_read, return_paginated_response};
use emote_pipeline::stores::{BlobArchive, CacheTier, Ledger, LedgerRow};

fn emote(id: &str, name: &str) -> Emote {
    Emote {
        id: id.to_string(),
        default_name: Some(name.to_string()),
        name: None,
        owner: None,
        images: Some(vec![Image {
            url: format!("https://cdn/{}", id),
            mime: "image/webp".to_string(),
            size: 10,
            scale: 1,
            width: 32,
            frame_count: 1,
        }]),
        host: None,
        animated: Some(false),
    }
}

fn asset(id: &str, name: &str) -> EmoteResponse {
    EmoteResponse {
        file_name: format!("{}_{}.webp", name, id),
        url: format!("https://acct.blob.core.windows.net/emotes/f/{}_{}.webp", name, id),
        emote_id: id.to_string(),
        emote_name: name.to_string(),
        owner: None,
        animated: Some(false),
        scale: Some(1),
        mime: Some("image/webp".to_string()),
    }
}

#[test]
fn fixed_window_pagination_thirty_assets_limit_ten() {
    let all: Vec<EmoteResponse> = (0..30).map(|i| asset(&format!("{:02}", i), "E")).collect();
    let expected: Vec<EmoteResponse> = (0..10).map(|i| asset(&format!("{:02}", i), "E")).collect();
    let r = return_paginated_response(all, 10);
    assert!(r.success);
    assert_eq!(r.emotes, expected);
    assert_eq!(r.total_found, 10);
    assert_eq!(r.has_next_page, Some(false));
    assert_eq!(r.page, Some(1));
    assert_eq!(r.total_pages, Some(1));
    assert_eq!(r.results_per_page, Some(10));
    assert_eq!(r.cached, Some(true));
}

#[test]
fn cache_aside_miss_then_hit() {
    let mut cache = CacheTier::new();
    let mut archive = BlobArchive::new("acct".to_string(), "emotes".to_string());
    let emotes = vec![emote("01", "Pog")];
    let downloads = vec![Some(vec![9u8, 9, 9])];

    let first = cache_aside_read(
        &mut cache,
        &mut archive,
        "emote_search:pog:20:false",
        "emotes",
        1,
        20,
        Ok(emotes),
        &downloads,
        3600,
    );
    assert!(first.success);
    assert_eq!(first.cached, Some(false));
    assert_eq!(first.total_found, 1);
    assert_eq!(first.emotes[0].file_name, "Pog_01.webp");
    assert_eq!(
        first.emotes[0].url,
        "https://acct.blob.core.windows.net/emotes/emotes/Pog_01.webp"
    );

    // a second read with a failing fetch is served from the cache
    let none: Vec<Option<Vec<u8>>> = vec![];
    let second = cache_aside_read(
        &mut cache,
        &mut archive,
        "emote_search:pog:20:false",
        "emotes",
        1,
        20,
        Err("upstream should not be consulted".to_string()),
        &none,
        3600,
    );
    assert!(second.success);
    assert_eq!(second.cached, Some(true));
    assert_eq!(second.emotes, first.emotes);
}

#[test]
fn cache_aside_fetch_failure_is_reported_and_not_cached() {
    let mut cache = CacheTier::new();
    let mut archive = BlobArchive::new("acct".to_string(), "emotes".to_string());
    let none: Vec<Option<Vec<u8>>> = vec![];
    let r = cache_aside_read(
        &mut cache,
        &mut archive,
        "k",
        "emotes",
        1,
        20,
        Err("catalog unreachable".to_string()),
        &none,
        3600,
    );
    assert!(!r.success);
    assert_eq!(r.message, Some("catalog unreachable".to_string()));
    assert_eq!(r.total_found, 0);
    assert!(cache.get_from_cache("k").is_none());
}

#[test]
fn cache_aside_failed_download_drops_record() {
    let mut cache = CacheTier::new();
    let mut archive = BlobArchive::new("acct".to_string(), "emotes".to_string());
    let emotes = vec![emote("01", "A"), emote("02", "B")];
    let downloads = vec![Some(vec![1u8]), None];
    let r = cache_aside_read(
        &mut cache, &mut archive, "k", "emotes", 1, 20, Ok(emotes), &downloads, 60,
    );
    assert!(r.success);
    assert_eq!(r.total_found, 1);
    assert_eq!(r.emotes[0].emote_id, "01");
}

#[test]
fn synced_read_ledger_is_authoritative() {
    let mut cache = CacheTier::new();
    let mut ledger = Ledger::new();
    let archive = BlobArchive::new("acct".to_string(), "emotes".to_string());
    ledger.insert_row(LedgerRow {
        seven_tv_id: "01".to_string(),
        emote_name: "Pog".to_string(),
        file_name: "Pog_01.webp".to_string(),
        url: "https://a/f/Pog_01.webp".to_string(),
        owner_name: Some("alice".to_string()),
        animated: true,
        folder_name: "sync:f".to_string(),
    });
    let r = synced_read(
        &mut cache,
        &ledger,
        &archive,
        "sync:f",
        "key:f",
        "f/_metadata.json",
        20,
        86400,
        "no data".to_string(),
    );
    assert!(r.success);
    assert_eq!(r.cached, Some(false));
    assert_eq!(r.total_found, 1);
    assert_eq!(r.emotes[0].emote_id, "01");
    assert_eq!(r.emotes[0].owner, Some("alice".to_string()));
    assert_eq!(r.emotes[0].animated, Some(true));
    assert_eq!(r.emotes[0].scale, None);
    assert_eq!(r.emotes[0].mime, None);
}

#[test]
fn synced_read_falls_back_to_cache() {
    let mut cache = CacheTier::new();
    let ledger = Ledger::new();
    let archive = BlobArchive::new("acct".to_string(), "emotes".to_string());
    let assets = vec![asset("01", "Pog")];
    cache.save_to_cache("key:f", encode_assets(&assets), 86400);
    let r = synced_read(
        &mut cache,
        &ledger,
        &archive,
        "sync:f",
        "key:f",
        "f/_metadata.json",
        20,
        86400,
        "no data".to_string(),
    );
    assert!(r.success);
    assert_eq!(r.cached, Some(true));
    assert_eq!(r.emotes, assets);
}

#[test]
fn synced_read_repairs_cache_from_manifest() {
    // ledger empty, cache empty, manifest present in the archive
    let mut cache = CacheTier::new();
    let ledger = Ledger::new();
    let mut archive = BlobArchive::new("acct".to_string(), "emotes".to_string());
    let assets = vec![asset("01", "Pog"), asset("02", "Kek")];
    let manifest = encode_assets(&assets);
    archive.upload_blob(manifest.clone(), "f/_metadata.json", "application/octet-stream").unwrap();

    let r = synced_read(
        &mut cache,
        &ledger,
        &archive,
        "sync:f",
        "key:f",
        "f/_metadata.json",
        20,
        86400,
        "no data".to_string(),
    );
    assert!(r.success);
    assert_eq!(r.emotes, assets);
    // read-repair: the sync key now serves directly from the cache
    let repaired = cache.get_from_cache("key:f").expect("the repaired key hits");
    assert_eq!(repaired, manifest);
}

#[test]
fn synced_read_reports_when_every_tier_misses() {
    let mut cache = CacheTier::new();
    let ledger = Ledger::new();
    let archive = BlobArchive::new("acct".to_string(), "emotes".to_string());
    let r = synced_read(
        &mut cache,
        &ledger,
        &archive,
        "sync:f",
        "key:f",
        "f/_metadata.json",
        20,
        86400,
        "No synced data found in DB or Cache. Please run admin sync.".to_string(),
    );
    assert!(!r.success);
    assert_eq!(
        r.message,
        Some("No synced data found in DB or Cache. Please run admin sync.".to_string())
    );
}

#[test]
fn synced_read_pagination_window_from_cache() {
    let mut cache = CacheTier::new();
    let ledger = Ledger::new();
    let archive = BlobArchive::new("acct".to_string(), "emotes".to_string());
    let assets: Vec<EmoteResponse> = (0..30).map(|i| asset(&format!("{:02}", i), "E")).collect();
    cache.save_to_cache("key:f", encode_assets(&assets), 86400);
    let r = synced_read(
        &mut cache,
        &ledger,
        &archive,
        "sync:f",
        "key:f",
        "f/_metadata.json",
        10,
        86400,
        "no data".to_string(),
    );
    assert!(r.success);
    assert_eq!(r.emotes.len(), 10);
    assert_eq!(r.emotes[..], assets[..10]);
    assert_eq!(r.has_next_page, Some(false));
}

#[test]
fn synced_read_unavailable_ledger_falls_to_cache() {
    // a failing ledger is degraded into a miss, not an error
    let mut cache = CacheTier::new();
    let ledger = Ledger::new_unavailable();
    let archive = BlobArchive::new("acct".to_string(), "emotes".to_string());
    let assets = vec![asset("01", "Pog")];
    cache.save_to_cache("key:f", encode_assets(&assets), 86400);
    let r = synced_read(
        &mut cache,
        &ledger,
        &archive,
        "sync:f",
        "key:f",
        "f/_metadata.json",
        20,
        86400,
        "no data".to_string(),
    );
    assert!(r.success);
    assert_eq!(r.cached, Some(true));
    assert_eq!(r.emotes, assets);
}

#[test]
fn cache_aside_unavailable_archive_drops_every_record() {
    let mut cache = CacheTier::new();
    let mut archive = BlobArchive::new_unavailable();
    let emotes = vec![emote("01", "Pog")];
    let downloads = vec![Some(vec![1u8])];
    let r = cache_aside_read(
        &mut cache, &mut archive, "k", "emotes", 1, 20, Ok(emotes), &downloads, 60,
    );
    // the batch itself ran; every record failed its upload and was dropped
    assert!(r.success);
    assert_eq!(r.total_found, 0);
    assert!(r.emotes.is_empty());
}

#[test]
fn paginate_short_collection_returns_all_of_it() {
    let all: Vec<EmoteResponse> = (0..3).map(|i| asset(&format!("{:02}", i), "E")).collect();
    let r = return_paginated_response(all, 10);
    assert_eq!(r.total_found, 3);
    assert_eq!(r.emotes.len(), 3);
    assert_eq!(r.has_next_page, Some(false));
}

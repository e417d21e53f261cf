use emote_pipeline::codec::{encode_assets, decode_assets};
use emote_pipeline::models::EmoteResponse;
use emote_pipeline::stores::{BlobArchive, CacheTier, Ledger, LedgerRow, glob_matches};

fn asset(id: &str, name: &str) -> EmoteResponse {
    EmoteResponse {
        file_name: format!("{}_{}.webp", name, id),
        url: format!("https://a.blob.core.windows.net/emotes/f/{}_{}.webp", name, id),
        emote_id: id.to_string(),
        emote_name: name.to_string(),
        owner: None,
        animated: Some(false),
        scale: Some(1),
        mime: Some("image/webp".to_string()),
    }
}

fn row(id: &str, folder: &str) -> LedgerRow {
    LedgerRow {
        seven_tv_id: id.to_string(),
        emote_name: format!("emote{}", id),
        file_name: format!("emote{}_{}.webp", id, id),
        url: format!("https://a/f/{}.webp", id),
        owner_name: None,
        animated: false,
        folder_name: folder.to_string(),
    }
}

#[test]
fn cache_set_then_get_round_trips() {
    let mut cache = CacheTier::new();
    let assets = vec![asset("01", "Pog")];
    let payload = encode_assets(&assets);
    cache.save_to_cache("k", payload.clone(), 3600);
    let got = cache.get_from_cache("k").expect("a fresh entry hits");
    assert_eq!(got, payload);
    assert_eq!(decode_assets(&got).unwrap(), assets);
}

#[test]
fn cache_entry_expires_with_time() {
    let mut cache = CacheTier::new();
    cache.save_to_cache("k", vec![1, 2, 3], 10);
    cache.advance(9);
    assert!(cache.get_from_cache("k").is_some());
    cache.advance(1);
    assert!(cache.get_from_cache("k").is_none());
}

#[test]
fn cache_zero_ttl_never_hits() {
    let mut cache = CacheTier::new();
    cache.save_to_cache("k", vec![1], 0);
    assert!(cache.get_from_cache("k").is_none());
}

#[test]
fn cache_overwrite_replaces_payload() {
    let mut cache = CacheTier::new();
    cache.save_to_cache("k", vec![1], 100);
    cache.save_to_cache("k", vec![2], 100);
    assert_eq!(cache.get_from_cache("k").unwrap(), vec![2]);
}

#[test]
fn cache_unavailable_misses_and_drops_writes() {
    let mut cache = CacheTier::new_unavailable();
    cache.save_to_cache("k", vec![1], 100);
    assert!(cache.get_from_cache("k").is_none());
}

#[test]
fn cache_clear_by_glob() {
    let mut cache = CacheTier::new();
    cache.save_to_cache("emote_search:a:20:false", vec![1], 100);
    cache.save_to_cache("emote_search:b:20:false", vec![2], 100);
    cache.save_to_cache("trending:weekly:20:1:false", vec![3], 100);
    cache.clear_cache("emote_search:*");
    assert!(cache.get_from_cache("emote_search:a:20:false").is_none());
    assert!(cache.get_from_cache("emote_search:b:20:false").is_none());
    assert!(cache.get_from_cache("trending:weekly:20:1:false").is_some());
}

#[test]
fn glob_matching_stars_and_question_marks() {
    assert!(glob_matches("*", ""));
    assert!(glob_matches("a*c", "abbbc"));
    assert!(!glob_matches("a*c", "abbb"));
    assert!(glob_matches("a?c", "abc"));
    assert!(!glob_matches("a?c", "ac"));
    assert!(glob_matches("trending:*", "trending:weekly"));
}

#[test]
fn ledger_insert_select_delete() {
    let mut ledger = Ledger::new();
    ledger.insert_row(row("1", "f"));
    ledger.insert_row(row("2", "f"));
    ledger.insert_row(row("3", "g"));
    let rows = ledger.select_by_folder("f", 10).expect("an available ledger selects");
    assert_eq!(rows.len(), 2);
    assert_eq!(rows[0].seven_tv_id, "1");
    let limited = ledger.select_by_folder("f", 1).unwrap();
    assert_eq!(limited.len(), 1);
    ledger.delete_by_folder("f");
    assert!(ledger.select_by_folder("f", 10).unwrap().is_empty());
    assert_eq!(ledger.select_by_folder("g", 10).unwrap().len(), 1);
}

#[test]
fn ledger_insert_drops_colliding_key() {
    let mut ledger = Ledger::new();
    ledger.insert_row(row("1", "f"));
    let mut altered = row("1", "f");
    altered.emote_name = "other".to_string();
    ledger.insert_row(altered);
    let rows = ledger.select_by_folder("f", 10).unwrap();
    assert_eq!(rows.len(), 1);
    assert_eq!(rows[0].emote_name, "emote1");
}

#[test]
fn ledger_upsert_replaces_in_place() {
    let mut ledger = Ledger::new();
    ledger.upsert_row(row("1", "f"));
    let mut altered = row("1", "f");
    altered.emote_name = "renamed".to_string();
    ledger.upsert_row(altered);
    let rows = ledger.select_by_folder("f", 10).unwrap();
    assert_eq!(rows.len(), 1);
    assert_eq!(rows[0].emote_name, "renamed");
}

#[test]
fn ledger_unavailable_select_fails() {
    let ledger = Ledger::new_unavailable();
    assert!(ledger.select_by_folder("f", 10).is_none());
}

#[test]
fn archive_upload_is_idempotent() {
    let mut archive = BlobArchive::new("acct".to_string(), "emotes".to_string());
    let url1 = archive.upload_blob(vec![1, 2], "f/a.webp", "image/webp").unwrap();
    assert_eq!(url1, "https://acct.blob.core.windows.net/emotes/f/a.webp");
    let url2 = archive.upload_blob(vec![9, 9], "f/a.webp", "image/webp").unwrap();
    assert_eq!(url2, url1);
    // the second upload skipped the write: the original bytes remain
    assert_eq!(archive.get_blob_content("f/a.webp").unwrap(), vec![1, 2]);
    assert_eq!(archive.list_blobs_by_prefix("f/").len(), 1);
}

#[test]
fn archive_list_and_delete_by_prefix() {
    let mut archive = BlobArchive::new("acct".to_string(), "emotes".to_string());
    archive.upload_blob(vec![1], "f/a.webp", "image/webp").unwrap();
    archive.upload_blob(vec![2], "f/b.webp", "image/webp").unwrap();
    archive.upload_blob(vec![3], "g/c.webp", "image/webp").unwrap();
    let listed = archive.list_blobs_by_prefix("f/");
    assert_eq!(listed, vec!["f/a.webp".to_string(), "f/b.webp".to_string()]);
    archive.delete_blobs_by_prefix("f/").unwrap();
    assert!(archive.list_blobs_by_prefix("f/").is_empty());
    assert_eq!(archive.list_blobs_by_prefix("g/").len(), 1);
    assert!(archive.get_blob_content("f/a.webp").is_none());
}

#[test]
fn archive_unavailable_fails_writes_and_misses_reads() {
    let mut archive = BlobArchive::new_unavailable();
    assert!(archive.upload_blob(vec![1], "f/a", "t").is_err());
    assert!(archive.delete_blobs_by_prefix("f/").is_err());
    assert!(archive.get_blob_content("f/a").is_none());
    assert!(archive.list_blobs_by_prefix("").is_empty());
}

#[test]
fn archive_container_url_shape() {
    let archive = BlobArchive::new("acct".to_string(), "emotes".to_string());
    assert_eq!(archive.get_container_url(), "https://acct.blob.core.windows.net/emotes");
    assert!(archive.is_available());
}

#[test]
fn ledger_upsert_keeps_unrelated_rows() {
    let mut ledger = Ledger::new();
    ledger.upsert_row(row("1", "f"));
    ledger.upsert_row(row("2", "f"));
    let mut altered = row("1", "f");
    altered.emote_name = "renamed".to_string();
    ledger.upsert_row(altered);
    let rows = ledger.select_by_folder("f", 10).unwrap();
    assert_eq!(rows.len(), 2);
    assert_eq!(rows[0].emote_name, "renamed");
    assert_eq!(rows[1].emote_name, "emote2");
}

#[test]
fn ledger_select_limit_zero_is_empty() {
    let mut ledger = Ledger::new();
    ledger.insert_row(row("1", "f"));
    assert!(ledger.select_by_folder("f", 0).unwrap().is_empty());
}

#[test]
fn glob_edge_patterns() {
    assert!(glob_matches("a*", "a"));
    assert!(glob_matches("*a", "bba"));
    assert!(!glob_matches("*a", "ab"));
    assert!(glob_matches("", ""));
    assert!(!glob_matches("", "x"));
}

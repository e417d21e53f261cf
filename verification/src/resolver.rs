//! The read paths. Ad-hoc reads are cache-aside: serve from the cache or
//! ingest a fresh fetch and store it. Synced reads walk ledger, cache and
//! archive manifest in order, repairing the cache from the manifest.

use vstd::prelude::*;
use crate::codec::{
    decode_assets, encode_assets, assets_encodable, spec_enc_assets, spec_read_assets, wf_assets,
};
use crate::models::{
    Emote, EmoteResponse, EmoteResponseV, SearchResponse, SearchResponseV,
};
use crate::pipeline::{process_emotes_batch, spec_ingest, spec_ingest_blobs};
use crate::stores::{
    BlobArchive, CacheTier, CacheEntryV, Ledger, LedgerRowV, archive_wf, cache_wf, ledger_wf,
    spec_archive_find, spec_cache_find, spec_cache_get, spec_expiry, spec_ledger_select,
};

verus! {

/// A length clamped into a 32-bit count field.
pub open spec fn spec_i32_sat(n: int) -> int {
    if n > i32::MAX {
        i32::MAX as int
    } else {
        n
    }
}

/// The fixed pagination window: always the first `limit` elements of the
/// stored collection; there is no offset or cursor.
pub open spec fn spec_page(l: Seq<EmoteResponseV>, limit: int) -> Seq<EmoteResponseV> {
    if l.len() <= limit {
        l
    } else {
        l.subrange(0, limit)
    }
}

/// The failure envelope: no results, a message, not cached.
pub open spec fn spec_error_resp(r: SearchResponseV, msg: Seq<char>) -> bool {
    &&& !r.success
    &&& r.total_found == 0
    &&& r.emotes.len() == 0
    &&& r.message == Some(msg)
    &&& r.cached == Some(false)
    &&& r.page is None
    &&& r.total_pages is None
    &&& r.results_per_page is None
    &&& r.has_next_page is None
}

/// The success envelope around a listing: the count is the listing's
/// length, there is always one page, and there is never a next one.
pub open spec fn spec_listing_resp(
    r: SearchResponseV,
    emotes: Seq<EmoteResponseV>,
    cached: bool,
    page: int,
    limit: int,
    msg: Option<Seq<char>>,
) -> bool {
    &&& r.success
    &&& r.total_found == spec_i32_sat(emotes.len() as int)
    &&& r.emotes == emotes
    &&& r.message == msg
    &&& r.cached == Some(cached)
    &&& r.page == Some(page)
    &&& r.total_pages == Some(1int)
    &&& r.results_per_page == Some(spec_i32_sat(limit))
    &&& r.has_next_page == Some(false)
}

fn len_i32(n: usize) -> (r: i32)
    ensures
        r as int == spec_i32_sat(n as int),
{
    if n > i32::MAX as usize {
        i32::MAX
    } else {
        n as i32
    }
}

/// Builds the failure envelope.
pub fn error_response(message: String) -> (r: SearchResponse)
    ensures
        spec_error_resp(r@, message@),
{
    SearchResponse {
        success: false,
        total_found: 0,
        emotes: Vec::new(),
        message: Some(message),
        cached: Some(false),
        page: None,
        total_pages: None,
        results_per_page: None,
        has_next_page: None,
    }
}

/// Builds the success envelope around a listing.
pub fn listing_response(
    emotes: Vec<EmoteResponse>,
    cached: bool,
    page: i32,
    limit: i32,
    message: Option<String>,
) -> (r: SearchResponse)
    requires
        limit >= 0,
    ensures
        spec_listing_resp(
            r@,
            emotes.deep_view(),
            cached,
            page as int,
            limit as int,
            match message {
                Some(ref s) => Some(s@),
                None => None,
            },
        ),
{
    let total = len_i32(emotes.len());
    SearchResponse {
        success: true,
        total_found: total,
        emotes,
        message,
        cached: Some(cached),
        page: Some(page),
        total_pages: Some(1),
        results_per_page: Some(limit),
        has_next_page: Some(false),
    }
}

/// Serves a stored collection through the fixed pagination window: exactly
/// the first `limit` elements in stored order, marked cached, with no next
/// page whatever remains.
pub fn return_paginated_response(all_emotes: Vec<EmoteResponse>, limit: usize) -> (r:
    SearchResponse)
    ensures
        spec_listing_resp(
            r@,
            spec_page(all_emotes.deep_view(), limit as int),
            true,
            1,
            spec_i32_sat(limit as int),
            None,
        ),
        r@.has_next_page == Some(false),
{
    let ghost dv0 = all_emotes.deep_view();
    let mut all_emotes = all_emotes;
    all_emotes.truncate(limit);
    proof {
        if dv0.len() > limit {
            assert(all_emotes.deep_view() =~= dv0.subrange(0, limit as int));
        } else {
            assert(all_emotes.deep_view() =~= dv0);
        }
    }
    let lim = len_i32(limit);
    let total = len_i32(all_emotes.len());
    SearchResponse {
        success: true,
        total_found: total,
        emotes: all_emotes,
        message: None,
        cached: Some(true),
        page: Some(1),
        total_pages: Some(1),
        results_per_page: Some(lim),
        has_next_page: Some(false),
    }
}

/// The asset a ledger row stands for; the ledger does not keep scale or
/// MIME type, so those come back unknown.
pub open spec fn spec_row_asset(row: LedgerRowV) -> EmoteResponseV {
    EmoteResponseV {
        file_name: row.file_name,
        url: row.url,
        emote_id: row.seven_tv_id,
        emote_name: row.emote_name,
        owner: row.owner_name,
        animated: Some(row.animated),
        scale: None,
        mime: None,
    }
}

fn rows_to_assets(rows: Vec<crate::stores::LedgerRow>) -> (r: Vec<EmoteResponse>)
    ensures
        r.deep_view() == rows.deep_view().map_values(|row: LedgerRowV| spec_row_asset(row)),
{
    let ghost dv = rows.deep_view();
    let ghost m = |row: LedgerRowV| spec_row_asset(row);
    let mut out: Vec<EmoteResponse> = Vec::new();
    let mut i: usize = 0;
    while i < rows.len()
        invariant
            dv == rows.deep_view(),
            dv.len() == rows.len(),
            i <= rows.len(),
            m == (|row: LedgerRowV| spec_row_asset(row)),
            out.deep_view() =~= dv.subrange(0, i as int).map_values(m),
        decreases rows.len() - i,
    {
        let row = &rows[i];
        let asset = EmoteResponse {
            file_name: row.file_name.clone(),
            url: row.url.clone(),
            emote_id: row.seven_tv_id.clone(),
            emote_name: row.emote_name.clone(),
            owner: match &row.owner_name {
                Some(s) => Some(s.clone()),
                None => None,
            },
            animated: Some(row.animated),
            scale: None,
            mime: None,
        };
        out.push(asset);
        proof {
            assert(dv.subrange(0, i + 1 as int).map_values(m) =~= dv.subrange(0, i as int).map_values(
                m,
            ).push(m(dv[i as int])));
        }
        i += 1;
    }
    proof {
        assert(dv.subrange(0, dv.len() as int) =~= dv);
    }
    out
}

/// What the ledger tier yields: the folder's rows as assets, when the
/// store is reachable and holds any; the ledger is authoritative when
/// present.
pub open spec fn spec_ledger_tier(l: &Ledger, folder: Seq<char>, limit: int) -> Option<
    Seq<EmoteResponseV>,
> {
    if !l.available {
        None
    } else {
        let rows = spec_ledger_select(l.rows.deep_view(), folder, limit);
        if rows.len() > 0 {
            Some(rows.map_values(|row: LedgerRowV| spec_row_asset(row)))
        } else {
            None
        }
    }
}

/// What the cache tier yields: the payload under the sync key, when it is
/// fresh and deserializes.
pub open spec fn spec_cache_tier(c: &CacheTier, key: Seq<char>) -> Option<Seq<EmoteResponseV>> {
    match spec_cache_get(c, key) {
        None => None,
        Some(p) => spec_read_assets(p),
    }
}

/// The manifest's raw bytes, when the archive is reachable and holds one.
pub open spec fn spec_manifest_bytes(a: &BlobArchive, path: Seq<char>) -> Option<Seq<u8>> {
    if !a.available {
        None
    } else {
        match spec_archive_find(a.blobs.deep_view(), path) {
            Some(b) => Some(b.content),
            None => None,
        }
    }
}

/// What the manifest tier yields: the archived snapshot, when it exists
/// and deserializes.
pub open spec fn spec_manifest_tier(a: &BlobArchive, path: Seq<char>) -> Option<
    Seq<EmoteResponseV>,
> {
    match spec_manifest_bytes(a, path) {
        None => None,
        Some(c) => spec_read_assets(c),
    }
}

/// A synced folder read: ledger, then cache, then archive manifest, in
/// that order; a manifest hit is repaired back into the cache under the
/// sync key before returning, so the next read hits the cache; when every
/// tier misses, the read fails with the given message.
pub fn synced_read(
    cache: &mut CacheTier,
    ledger: &Ledger,
    archive: &BlobArchive,
    db_folder: &str,
    sync_key: &str,
    manifest_path: &str,
    limit: usize,
    repair_ttl: u64,
    miss_message: String,
) -> (r: SearchResponse)
    requires
        cache_wf(old(cache)),
        ledger_wf(ledger),
        archive_wf(archive),
    ensures
        cache_wf(final(cache)),
        final(cache).now == old(cache).now,
        final(cache).available == old(cache).available,
        match spec_ledger_tier(ledger, db_folder@, limit as int) {
            Some(assets) => spec_listing_resp(r@, assets, false, 1, spec_i32_sat(limit as int), None)
                && final(cache).entries == old(cache).entries,
            None => match spec_cache_tier(old(cache), sync_key@) {
                Some(assets) => spec_listing_resp(
                    r@,
                    spec_page(assets, limit as int),
                    true,
                    1,
                    spec_i32_sat(limit as int),
                    None,
                ) && final(cache).entries == old(cache).entries,
                None => match spec_manifest_tier(archive, manifest_path@) {
                    Some(assets) => spec_listing_resp(
                        r@,
                        spec_page(assets, limit as int),
                        true,
                        1,
                        spec_i32_sat(limit as int),
                        None,
                    ) && (old(cache).available ==> spec_cache_find(
                        final(cache).entries.deep_view(),
                        sync_key@,
                    ) == Some(
                        CacheEntryV {
                            key: sync_key@,
                            payload: spec_manifest_bytes(archive, manifest_path@)->Some_0,
                            expires_at: spec_expiry(old(cache).now as int, repair_ttl as int),
                        },
                    ) && (forall|k: Seq<char>|
                        k != sync_key@ ==> #[trigger] spec_cache_find(
                            final(cache).entries.deep_view(),
                            k,
                        ) == spec_cache_find(old(cache).entries.deep_view(), k))) && (!old(
                        cache,
                    ).available ==> final(cache).entries == old(cache).entries),
                    None => spec_error_resp(r@, miss_message@) && final(cache).entries == old(
                        cache,
                    ).entries,
                },
            },
        },
{
    match ledger.select_by_folder(db_folder, limit) {
        Some(rows) => {
            if rows.len() > 0 {
                let assets = rows_to_assets(rows);
                let lim = len_i32(limit);
                return listing_response(assets, false, 1, lim, None);
            }
        },
        None => {},
    }
    match cache.get_from_cache(sync_key) {
        Some(payload) => {
            match decode_assets(&payload) {
                Some(assets) => {
                    return return_paginated_response(assets, limit);
                },
                None => {},
            }
        },
        None => {},
    }
    match archive.get_blob_content(manifest_path) {
        Some(content) => {
            match decode_assets(&content) {
                Some(assets) => {
                    cache.save_to_cache(sync_key, content, repair_ttl);
                    return return_paginated_response(assets, limit);
                },
                None => {},
            }
        },
        None => {},
    }
    error_response(miss_message)
}

/// A cache-aside ad-hoc read: serve the listing stored under the key, or
/// ingest a fresh fetch, store it under the key with the TTL, and serve
/// it. A fetch failure is reported and nothing is stored.
pub fn cache_aside_read(
    cache: &mut CacheTier,
    archive: &mut BlobArchive,
    key: &str,
    folder: &str,
    page: i32,
    limit: i32,
    fetch: Result<Vec<Emote>, String>,
    downloads: &Vec<Option<Vec<u8>>>,
    ttl: u64,
) -> (r: SearchResponse)
    requires
        cache_wf(old(cache)),
        archive_wf(old(archive)),
        limit >= 0,
        fetch matches Ok(v) ==> downloads@.len() == v@.len(),
    ensures
        cache_wf(final(cache)),
        archive_wf(final(archive)),
        final(cache).now == old(cache).now,
        final(cache).available == old(cache).available,
        final(archive).available == old(archive).available,
        final(archive).account_name@ == old(archive).account_name@,
        final(archive).container_name@ == old(archive).container_name@,
        match spec_cache_tier(old(cache), key@) {
            Some(assets) => spec_listing_resp(r@, assets, true, page as int, limit as int, None)
                && final(cache).entries == old(cache).entries && *final(archive) == *old(archive),
            None => match fetch {
                Err(m) => spec_error_resp(r@, m@) && final(cache).entries == old(cache).entries
                    && *final(archive) == *old(archive),
                Ok(emotes) => {
                    let assets = spec_ingest(
                        emotes.deep_view(),
                        folder@,
                        downloads.deep_view(),
                        old(archive).account_name@,
                        old(archive).container_name@,
                        old(archive).available,
                    );
                    &&& spec_listing_resp(r@, assets, false, page as int, limit as int, None)
                    &&& final(archive).blobs.deep_view() == spec_ingest_blobs(
                        emotes.deep_view(),
                        folder@,
                        downloads.deep_view(),
                        old(archive).blobs.deep_view(),
                        old(archive).available,
                    )
                    &&& (old(cache).available && wf_assets(assets) ==> spec_cache_find(
                        final(cache).entries.deep_view(),
                        key@,
                    ) == Some(
                        CacheEntryV {
                            key: key@,
                            payload: spec_enc_assets(assets),
                            expires_at: spec_expiry(old(cache).now as int, ttl as int),
                        },
                    ))
                    &&& (!(old(cache).available && wf_assets(assets)) ==> final(cache).entries
                        == old(cache).entries)
                },
            },
        },
{
    match cache.get_from_cache(key) {
        Some(payload) => {
            match decode_assets(&payload) {
                Some(assets) => {
                    return listing_response(assets, true, page, limit, None);
                },
                None => {},
            }
        },
        None => {},
    }
    let emotes = match fetch {
        Ok(v) => v,
        Err(m) => {
            return error_response(m);
        },
    };
    let processed = process_emotes_batch(&emotes, folder, downloads, archive);
    if assets_encodable(&processed) {
        let payload = encode_assets(&processed);
        cache.save_to_cache(key, payload, ttl);
    }
    listing_response(processed, false, page, limit, None)
}

} // verus!

//! The destructive folder write path: wipe the folder's blobs, ingest a
//! fresh fetch, then best-effort write the results to the cache sync key,
//! the archive manifest, and the ledger. A cleanup failure aborts the whole
//! operation before any ingestion, so stale and fresh assets never mix; a
//! failure of any later step is swallowed and does not roll the others
//! back.

use vstd::prelude::*;
use crate::codec::{encode_assets, assets_encodable, spec_enc_assets, wf_assets};
use crate::keys::{metadata_blob_name, spec_metadata_blob_name};
use crate::models::{Emote, EmoteResponse, EmoteResponseV};
use crate::pipeline::{process_emotes_batch, spec_ingest, spec_ingest_blobs};
use crate::resolver::{error_response, listing_response, spec_error_resp, spec_listing_resp};
use crate::stores::{
    BlobArchive, BlobV, CacheTier, CacheEntryV, Ledger, LedgerRow, LedgerRowV, archive_wf,
    cache_wf, ledger_wf, spec_archive_find, spec_cache_find, spec_expiry, spec_ledger_has,
    spec_upsert_fn,
};

verus! {

/// How the ledger is rewritten: a trending sync deletes the folder's rows
/// and inserts afresh; a user sync upserts row by row without deleting
/// stale rows first — a deliberate asymmetry of the write path.
#[derive(Clone, Copy, PartialEq, Eq, Structural)]
pub enum SyncMode {
    Trending,
    User,
}

/// The ledger row an asset is persisted as.
pub open spec fn spec_row_of(a: EmoteResponseV, folder: Seq<char>) -> LedgerRowV {
    LedgerRowV {
        seven_tv_id: a.emote_id,
        emote_name: a.emote_name,
        file_name: a.file_name,
        url: a.url,
        owner_name: a.owner,
        animated: match a.animated {
            Some(b) => b,
            None => false,
        },
        folder_name: folder,
    }
}

/// Inserting every asset's row in order, colliding keys dropped.
pub open spec fn spec_insert_all(
    rows: Seq<LedgerRowV>,
    assets: Seq<EmoteResponseV>,
    folder: Seq<char>,
) -> Seq<LedgerRowV>
    decreases assets.len(),
{
    if assets.len() == 0 {
        rows
    } else {
        let r0 = spec_row_of(assets[0], folder);
        let rows1 = if spec_ledger_has(rows, r0) {
            rows
        } else {
            rows.push(r0)
        };
        spec_insert_all(rows1, assets.drop_first(), folder)
    }
}

/// Upserting every asset's row in order.
pub open spec fn spec_upsert_all(
    rows: Seq<LedgerRowV>,
    assets: Seq<EmoteResponseV>,
    folder: Seq<char>,
) -> Seq<LedgerRowV>
    decreases assets.len(),
{
    if assets.len() == 0 {
        rows
    } else {
        spec_upsert_all(
            spec_upsert_fn(rows, spec_row_of(assets[0], folder)),
            assets.drop_first(),
            folder,
        )
    }
}

/// The message of an aborted cleanup.
pub open spec fn spec_cleanup_fail_msg() -> Seq<char> {
    "Failed to cleanup existing emotes: "@ + "storage not available"@
}

/// The archive after the manifest write: put-if-new of the encoded asset
/// snapshot, skipped when the snapshot does not fit the format.
pub open spec fn spec_with_manifest(
    blobs: Seq<BlobV>,
    folder: Seq<char>,
    assets: Seq<EmoteResponseV>,
) -> Seq<BlobV> {
    if wf_assets(assets) {
        let mpath = spec_metadata_blob_name(folder);
        if spec_archive_find(blobs, mpath) is Some {
            blobs
        } else {
            blobs.push(
                BlobV {
                    name: mpath,
                    content: spec_enc_assets(assets),
                    content_type: "application/octet-stream"@,
                },
            )
        }
    } else {
        blobs
    }
}

fn row_of(a: &EmoteResponse, folder: &str) -> (r: LedgerRow)
    ensures
        r@ == spec_row_of(a@, folder@),
{
    LedgerRow {
        seven_tv_id: a.emote_id.clone(),
        emote_name: a.emote_name.clone(),
        file_name: a.file_name.clone(),
        url: a.url.clone(),
        owner_name: match &a.owner {
            Some(s) => Some(s.clone()),
            None => None,
        },
        animated: match a.animated {
            Some(b) => b,
            None => false,
        },
        folder_name: folder.to_owned(),
    }
}

fn clone_bytes(v: &Vec<u8>) -> (r: Vec<u8>)
    ensures
        r@ == v@,
{
    let r = v.clone();
    proof {
        assert(r@ =~= v@);
    }
    r
}

/// Destructively rebuilds one folder from a fresh fetch: wipe the folder's
/// blobs (abort on failure), ingest, then best-effort write the snapshot
/// to the cache sync key, the archive manifest, and the ledger — trending
/// by delete-then-insert under the ledger folder, user by per-row upsert.
pub fn resync_folder(
    cache: &mut CacheTier,
    ledger: &mut Ledger,
    archive: &mut BlobArchive,
    folder: &str,
    sync_key: &str,
    db_folder: &str,
    fetch: Result<Vec<Emote>, String>,
    downloads: &Vec<Option<Vec<u8>>>,
    ttl: u64,
    limit: i32,
    mode: SyncMode,
) -> (r: crate::models::SearchResponse)
    requires
        cache_wf(old(cache)),
        ledger_wf(old(ledger)),
        archive_wf(old(archive)),
        limit >= 0,
        fetch matches Ok(v) ==> downloads@.len() == v@.len(),
    ensures
        cache_wf(final(cache)),
        ledger_wf(final(ledger)),
        archive_wf(final(archive)),
        final(cache).now == old(cache).now,
        final(cache).available == old(cache).available,
        final(ledger).available == old(ledger).available,
        final(archive).available == old(archive).available,
        final(archive).account_name@ == old(archive).account_name@,
        final(archive).container_name@ == old(archive).container_name@,
        !old(archive).available ==> spec_error_resp(r@, spec_cleanup_fail_msg())
            && final(cache).entries == old(cache).entries && final(ledger).rows == old(ledger).rows
            && final(archive).blobs == old(archive).blobs,
        old(archive).available && (fetch matches Err(m)) ==> spec_error_resp(
            r@,
            fetch->Err_0@,
        ) && final(cache).entries == old(cache).entries && final(ledger).rows == old(ledger).rows
            && final(archive).blobs.deep_view() == old(archive).blobs.deep_view().filter(
            |b: BlobV| !(folder@ + "/"@).is_prefix_of(b.name),
        ),
        old(archive).available && (fetch is Ok) ==> ({
            let cleaned = old(archive).blobs.deep_view().filter(
                |b: BlobV| !(folder@ + "/"@).is_prefix_of(b.name),
            );
            let assets = spec_ingest(
                fetch->Ok_0.deep_view(),
                folder@,
                downloads.deep_view(),
                old(archive).account_name@,
                old(archive).container_name@,
                true,
            );
            &&& spec_listing_resp(
                r@,
                assets,
                false,
                1,
                limit as int,
                Some(
                    if mode == SyncMode::Trending {
                        "Synced successfully"@
                    } else {
                        "User emotes synced successfully"@
                    },
                ),
            )
            &&& final(archive).blobs.deep_view() == spec_with_manifest(
                spec_ingest_blobs(
                    fetch->Ok_0.deep_view(),
                    folder@,
                    downloads.deep_view(),
                    cleaned,
                    true,
                ),
                folder@,
                assets,
            )
            &&& (old(cache).available && wf_assets(assets) ==> spec_cache_find(
                final(cache).entries.deep_view(),
                sync_key@,
            ) == Some(
                CacheEntryV {
                    key: sync_key@,
                    payload: spec_enc_assets(assets),
                    expires_at: spec_expiry(old(cache).now as int, ttl as int),
                },
            ) && (forall|k: Seq<char>|
                k != sync_key@ ==> #[trigger] spec_cache_find(final(cache).entries.deep_view(), k)
                    == spec_cache_find(old(cache).entries.deep_view(), k)))
            &&& (!(old(cache).available && wf_assets(assets)) ==> final(cache).entries == old(
                cache,
            ).entries)
            &&& (old(ledger).available ==> final(ledger).rows.deep_view() == (
            if mode == SyncMode::Trending {
                spec_insert_all(
                    old(ledger).rows.deep_view().filter(
                        |row: LedgerRowV| row.folder_name != db_folder@,
                    ),
                    assets,
                    db_folder@,
                )
            } else {
                spec_upsert_all(old(ledger).rows.deep_view(), assets, db_folder@)
            }))
            &&& (!old(ledger).available ==> final(ledger).rows == old(ledger).rows)
        }),
{
    let mut prefix = folder.to_owned();
    prefix.append("/");
    match archive.delete_blobs_by_prefix(prefix.as_str()) {
        Err(e) => {
            let mut m = "Failed to cleanup existing emotes: ".to_owned();
            let em = e.message();
            m.append(em.as_str());
            return error_response(m);
        },
        Ok(()) => {},
    }
    let emotes = match fetch {
        Err(m) => {
            return error_response(m);
        },
        Ok(v) => v,
    };
    let processed = process_emotes_batch(&emotes, folder, downloads, archive);
    let ghost assets = processed.deep_view();
    if assets_encodable(&processed) {
        let payload = encode_assets(&processed);
        let manifest_copy = clone_bytes(&payload);
        cache.save_to_cache(sync_key, payload, ttl);
        let mpath = metadata_blob_name(folder);
        let _ = archive.upload_blob(manifest_copy, mpath.as_str(), "application/octet-stream");
    }
    if matches!(mode, SyncMode::Trending) {
        ledger.delete_by_folder(db_folder);
    }
    let ghost rows0 = ledger.rows.deep_view();
    let ghost lavail = ledger.available;
    let mut i: usize = 0;
    proof {
        assert(assets.skip(0) =~= assets);
    }
    while i < processed.len()
        invariant
            ledger_wf(ledger),
            ledger.available == lavail,
            assets == processed.deep_view(),
            assets.len() == processed.len(),
            i <= processed.len(),
            lavail && mode == SyncMode::Trending ==> spec_insert_all(rows0, assets, db_folder@)
                == spec_insert_all(ledger.rows.deep_view(), assets.skip(i as int), db_folder@),
            lavail && mode == SyncMode::User ==> spec_upsert_all(rows0, assets, db_folder@)
                == spec_upsert_all(ledger.rows.deep_view(), assets.skip(i as int), db_folder@),
            !lavail ==> ledger.rows == old(ledger).rows,
        decreases processed.len() - i,
    {
        let ghost asuf = assets.skip(i as int);
        let ghost rows_pre = ledger.rows.deep_view();
        proof {
            assert(asuf[0] == assets[i as int]);
            assert(asuf.drop_first() =~= assets.skip(i + 1 as int));
        }
        let row = row_of(&processed[i], db_folder);
        if matches!(mode, SyncMode::Trending) {
            ledger.insert_row(row);
        } else {
            ledger.upsert_row(row);
        }
        proof {
            if lavail {
                if mode == SyncMode::Trending {
                    assert(spec_insert_all(rows_pre, asuf, db_folder@) == spec_insert_all(
                        ledger.rows.deep_view(),
                        asuf.drop_first(),
                        db_folder@,
                    ));
                } else {
                    assert(spec_upsert_all(rows_pre, asuf, db_folder@) == spec_upsert_all(
                        ledger.rows.deep_view(),
                        asuf.drop_first(),
                        db_folder@,
                    ));
                }
            }
        }
        i += 1;
    }
    proof {
        assert(assets.skip(assets.len() as int) =~= Seq::<EmoteResponseV>::empty());
    }
    let message = if matches!(mode, SyncMode::Trending) {
        "Synced successfully".to_owned()
    } else {
        "User emotes synced successfully".to_owned()
    };
    listing_response(processed, false, 1, limit, Some(message))
}

} // verus!

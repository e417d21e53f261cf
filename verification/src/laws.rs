//! The tier-consistency laws of the pipeline, proved once and for all: the
//! cache-aside round trip, read-repair serving later reads, and the
//! destructive resync leaving exactly the fresh assets and the manifest in
//! a folder.

use vstd::prelude::*;
use crate::codec::{spec_enc_assets, spec_read_assets, wf_assets, lemma_codec_round_trip};
use crate::models::{EmoteV, EmoteResponseV};
use crate::naming::spec_blob_path;
use crate::pipeline::{spec_ingest, spec_ingest_blobs, spec_kept, spec_plan};
use crate::keys::spec_metadata_blob_name;
use crate::resolver::{spec_cache_tier, spec_manifest_tier, spec_manifest_bytes};
use crate::resync::spec_with_manifest;
use crate::stores::{
    BlobV, CacheTier, CacheEntryV, spec_archive_find, spec_cache_find, spec_cache_get,
    spec_expiry,
};

verus! {

/// Cache-aside round trip: after a store of an asset list under a key with
/// a positive TTL, an immediate lookup of that key returns the stored
/// payload, and that payload deserializes back to a list equal to the one
/// stored.
pub proof fn lemma_cache_aside_round_trip(
    c1: &CacheTier,
    key: Seq<char>,
    assets: Seq<EmoteResponseV>,
    stored_now: int,
    ttl: int,
)
    requires
        wf_assets(assets),
        c1.available,
        c1.now == stored_now,
        (c1.now as int) < u64::MAX,
        ttl > 0,
        spec_cache_find(c1.entries.deep_view(), key) == Some(
            CacheEntryV {
                key,
                payload: spec_enc_assets(assets),
                expires_at: spec_expiry(stored_now, ttl),
            },
        ),
    ensures
        spec_cache_get(c1, key) == Some(spec_enc_assets(assets)),
        spec_read_assets(spec_enc_assets(assets)) == Some(assets),
        spec_cache_tier(c1, key) == Some(assets),
{
    lemma_codec_round_trip(assets);
}

/// Read-repair: once a synced read has fallen through to the archive
/// manifest and written it back under the sync key, a subsequent direct
/// cache lookup of that key succeeds and yields the manifest's records.
pub proof fn lemma_read_repair_serves_cache(
    c1: &CacheTier,
    archive: &crate::stores::BlobArchive,
    key: Seq<char>,
    mpath: Seq<char>,
    stored_now: int,
    ttl: int,
)
    requires
        c1.available,
        c1.now == stored_now,
        (c1.now as int) < u64::MAX,
        ttl > 0,
        spec_manifest_tier(archive, mpath) is Some,
        spec_cache_find(c1.entries.deep_view(), key) == Some(
            CacheEntryV {
                key,
                payload: spec_manifest_bytes(archive, mpath)->Some_0,
                expires_at: spec_expiry(stored_now, ttl),
            },
        ),
    ensures
        spec_cache_get(c1, key) == Some(spec_manifest_bytes(archive, mpath)->Some_0),
        spec_cache_tier(c1, key) == spec_manifest_tier(archive, mpath),
{
}

/// The blob path a surviving record is stored under.
pub open spec fn spec_kept_path(e: EmoteV, folder: Seq<char>) -> Seq<char> {
    spec_blob_path(folder, spec_plan(e)->Some_0.file_name)
}

/// A blob either already stood in the base archive or carries the path of
/// a surviving record.
pub open spec fn from_base_or_kept(
    b: BlobV,
    base: Seq<BlobV>,
    emotes: Seq<EmoteV>,
    dls: Seq<Option<Seq<u8>>>,
    folder: Seq<char>,
) -> bool {
    ||| (exists|k: int| 0 <= k < base.len() && base[k] == b)
    ||| (exists|i: int|
        0 <= i < emotes.len() && spec_kept(#[trigger] emotes[i], dls[i], true) && b.name
            == spec_kept_path(emotes[i], folder))
}

proof fn lemma_find_push_mono(blobs: Seq<BlobV>, b: BlobV, name: Seq<char>)
    requires
        spec_archive_find(blobs, name) is Some,
    ensures
        spec_archive_find(blobs.push(b), name) == spec_archive_find(blobs, name),
    decreases blobs.len(),
{
    assert(blobs.len() > 0);
    assert(blobs.push(b)[0] == blobs[0]);
    if blobs[0].name == name {
    } else {
        assert(blobs.push(b).drop_first() =~= blobs.drop_first().push(b));
        lemma_find_push_mono(blobs.drop_first(), b, name);
    }
}

proof fn lemma_find_of_push(blobs: Seq<BlobV>, b: BlobV)
    ensures
        spec_archive_find(blobs.push(b), b.name) is Some,
    decreases blobs.len(),
{
    if blobs.len() == 0 {
        assert(blobs.push(b)[0] == b);
    } else {
        assert(blobs.push(b)[0] == blobs[0]);
        if blobs[0].name != b.name {
            assert(blobs.push(b).drop_first() =~= blobs.drop_first().push(b));
            lemma_find_of_push(blobs.drop_first(), b);
        }
    }
}

#[verifier::rlimit(60)]
#[verifier::spinoff_prover]
proof fn lemma_ingest_blobs_shape(
    emotes: Seq<EmoteV>,
    folder: Seq<char>,
    dls: Seq<Option<Seq<u8>>>,
    base: Seq<BlobV>,
)
    requires
        dls.len() == emotes.len(),
    ensures
        ({
            let result = spec_ingest_blobs(emotes, folder, dls, base, true);
            &&& forall|n: Seq<char>|
                spec_archive_find(base, n) is Some ==> #[trigger] spec_archive_find(
                    result,
                    n,
                ) is Some
            &&& forall|i: int|
                0 <= i < emotes.len() && spec_kept(#[trigger] emotes[i], dls[i], true)
                    ==> spec_archive_find(result, spec_kept_path(emotes[i], folder)) is Some
            &&& forall|j: int|
                0 <= j < result.len() ==> from_base_or_kept(
                    #[trigger] result[j],
                    base,
                    emotes,
                    dls,
                    folder,
                )
        }),
    decreases emotes.len(),
{
    let result = spec_ingest_blobs(emotes, folder, dls, base, true);
    if emotes.len() == 0 {
        assert forall|j: int| 0 <= j < result.len() implies from_base_or_kept(
            #[trigger] result[j],
            base,
            emotes,
            dls,
            folder,
        ) by {
            assert(result[j] == base[j]);
        }
    } else {
        let e0 = emotes[0];
        let d0 = dls[0];
        let rest_e = emotes.drop_first();
        let rest_d = dls.drop_first();
        let base1 = if spec_kept(e0, d0, true) {
            let p = spec_plan(e0)->Some_0;
            let path = spec_blob_path(folder, p.file_name);
            if spec_archive_find(base, path) is Some {
                base
            } else {
                base.push(BlobV { name: path, content: d0->Some_0, content_type: p.mime })
            }
        } else {
            base
        };
        assert(result == spec_ingest_blobs(rest_e, folder, rest_d, base1, true));
        lemma_ingest_blobs_shape(rest_e, folder, rest_d, base1);
        // base names survive into base1
        assert forall|n: Seq<char>| spec_archive_find(base, n) is Some implies #[trigger] spec_archive_find(
            base1,
            n,
        ) is Some by {
            if base1 != base {
                let p = spec_plan(e0)->Some_0;
                let path = spec_blob_path(folder, p.file_name);
                lemma_find_push_mono(
                    base,
                    BlobV { name: path, content: d0->Some_0, content_type: p.mime },
                    n,
                );
            }
        }
        // the head record's path is findable in base1 when kept
        if spec_kept(e0, d0, true) {
            let p = spec_plan(e0)->Some_0;
            let path = spec_blob_path(folder, p.file_name);
            if spec_archive_find(base, path) is Some {
            } else {
                lemma_find_of_push(base, BlobV { name: path, content: d0->Some_0, content_type: p.mime });
            }
            assert(spec_archive_find(base1, path) is Some);
            assert(spec_archive_find(result, path) is Some);
        }
        // kept paths of the rest: reindex
        assert forall|i: int|
            0 <= i < emotes.len() && spec_kept(#[trigger] emotes[i], dls[i], true) implies
            spec_archive_find(result, spec_kept_path(emotes[i], folder)) is Some by {
            if i > 0 {
                assert(rest_e[i - 1] == emotes[i]);
                assert(rest_d[i - 1] == dls[i]);
            }
        }
        // provenance: lift from base1 to base
        assert forall|j: int| 0 <= j < result.len() implies from_base_or_kept(
            #[trigger] result[j],
            base,
            emotes,
            dls,
            folder,
        ) by {
            assert(from_base_or_kept(result[j], base1, rest_e, rest_d, folder));
            if exists|k: int| 0 <= k < base1.len() && base1[k] == result[j] {
                let k = choose|k: int| 0 <= k < base1.len() && base1[k] == result[j];
                if k < base.len() {
                    assert(base[k] == result[j]);
                } else {
                    // the pushed head blob
                    assert(spec_kept(emotes[0], dls[0], true));
                    assert(result[j].name == spec_kept_path(emotes[0], folder));
                }
            } else {
                let i = choose|i: int|
                    0 <= i < rest_e.len() && spec_kept(#[trigger] rest_e[i], rest_d[i], true)
                        && result[j].name == spec_kept_path(rest_e[i], folder);
                assert(rest_e[i] == emotes[i + 1]);
                assert(rest_d[i] == dls[i + 1]);
                assert(spec_kept(emotes[i + 1], dls[i + 1], true));
            }
        }
    }
}

/// Destructive resync: after a resync of a folder, the blobs under the
/// folder's prefix are exactly the freshly produced assets plus the
/// manifest. The manifest is present; every surviving record's blob is
/// present; and every blob under the prefix is one of those two — no blob
/// from before the resync remains, because the prefix was wiped first.
#[verifier::rlimit(60)]
#[verifier::spinoff_prover]
pub proof fn lemma_resync_listing(
    blobs0: Seq<BlobV>,
    folder: Seq<char>,
    emotes: Seq<EmoteV>,
    dls: Seq<Option<Seq<u8>>>,
    account: Seq<char>,
    container: Seq<char>,
)
    requires
        dls.len() == emotes.len(),
        wf_assets(spec_ingest(emotes, folder, dls, account, container, true)),
    ensures
        ({
            let prefix = folder + "/"@;
            let cleaned = blobs0.filter(|b: BlobV| !prefix.is_prefix_of(b.name));
            let assets = spec_ingest(emotes, folder, dls, account, container, true);
            let fin = spec_with_manifest(
                spec_ingest_blobs(emotes, folder, dls, cleaned, true),
                folder,
                assets,
            );
            let mpath = spec_metadata_blob_name(folder);
            &&& spec_archive_find(fin, mpath) is Some
            &&& forall|i: int|
                0 <= i < emotes.len() && spec_kept(#[trigger] emotes[i], dls[i], true)
                    ==> spec_archive_find(fin, spec_kept_path(emotes[i], folder)) is Some
            &&& forall|j: int|
                0 <= j < fin.len() && prefix.is_prefix_of(#[trigger] fin[j].name) ==> (fin[j].name
                    == mpath || exists|i: int|
                    0 <= i < emotes.len() && spec_kept(#[trigger] emotes[i], dls[i], true)
                        && fin[j].name == spec_kept_path(emotes[i], folder))
        }),
{
    let prefix = folder + "/"@;
    let keep = |b: BlobV| !prefix.is_prefix_of(b.name);
    let cleaned = blobs0.filter(keep);
    let assets = spec_ingest(emotes, folder, dls, account, container, true);
    let ingested = spec_ingest_blobs(emotes, folder, dls, cleaned, true);
    let fin = spec_with_manifest(ingested, folder, assets);
    let mpath = spec_metadata_blob_name(folder);
    let mblob = BlobV {
        name: mpath,
        content: spec_enc_assets(assets),
        content_type: "application/octet-stream"@,
    };
    lemma_ingest_blobs_shape(emotes, folder, dls, cleaned);
    // the manifest is present either way
    if spec_archive_find(ingested, mpath) is Some {
        assert(fin == ingested);
    } else {
        assert(fin == ingested.push(mblob));
        lemma_find_of_push(ingested, mblob);
    }
    // kept paths survive the manifest push
    assert forall|i: int|
        0 <= i < emotes.len() && spec_kept(#[trigger] emotes[i], dls[i], true) implies
        spec_archive_find(fin, spec_kept_path(emotes[i], folder)) is Some by {
        assert(spec_archive_find(ingested, spec_kept_path(emotes[i], folder)) is Some);
        if fin != ingested {
            lemma_find_push_mono(ingested, mblob, spec_kept_path(emotes[i], folder));
        }
    }
    // provenance: anything under the prefix is the manifest or a fresh asset
    assert forall|j: int|
        0 <= j < fin.len() && prefix.is_prefix_of(#[trigger] fin[j].name) implies (fin[j].name
        == mpath || exists|i: int|
        0 <= i < emotes.len() && spec_kept(#[trigger] emotes[i], dls[i], true) && fin[j].name
            == spec_kept_path(emotes[i], folder)) by {
        if j < ingested.len() && fin[j] == ingested[j] {
            assert(from_base_or_kept(ingested[j], cleaned, emotes, dls, folder));
            if exists|k: int| 0 <= k < cleaned.len() && cleaned[k] == ingested[j] {
                let k = choose|k: int| 0 <= k < cleaned.len() && cleaned[k] == ingested[j];
                blobs0.lemma_filter_pred(keep, k);
                assert(!prefix.is_prefix_of(cleaned[k].name));
                assert(false);
            }
        } else {
            assert(fin[j] == mblob);
        }
    }
}

} // verus!

//! The ingestion pipeline: each raw record is resolved to a variant list,
//! the canonical variant is selected, its bytes (downloaded by the caller)
//! are uploaded idempotently into the archive, and a canonical asset record
//! comes out. A record that cannot be processed is dropped silently; no
//! partial-failure report is surfaced.

use vstd::prelude::*;
use crate::models::{Emote, EmoteV, EmoteResponse, EmoteResponseV};
use crate::naming::{spec_file_name, file_name_for, blob_path, spec_blob_path};
use crate::normalize::{spec_resolve_images, resolve_image_list};
use crate::selector::{spec_best, select_best_image};
use crate::stores::{BlobArchive, BlobV, archive_wf, spec_archive_find, spec_blob_url};

verus! {

/// The per-record plan: everything ingestion decides before any byte moves.
pub struct EmotePlan {
    pub download_url: String,
    pub mime: String,
    pub scale: i32,
    pub animated: bool,
    pub file_name: String,
    pub emote_id: String,
    pub emote_name: String,
    pub owner: Option<String>,
}

/// Mathematical view of an [`EmotePlan`].
pub struct EmotePlanV {
    pub download_url: Seq<char>,
    pub mime: Seq<char>,
    pub scale: int,
    pub animated: bool,
    pub file_name: Seq<char>,
    pub emote_id: Seq<char>,
    pub emote_name: Seq<char>,
    pub owner: Option<Seq<char>>,
}

impl View for EmotePlan {
    type V = EmotePlanV;

    open spec fn view(&self) -> EmotePlanV {
        EmotePlanV {
            download_url: self.download_url@,
            mime: self.mime@,
            scale: self.scale as int,
            animated: self.animated,
            file_name: self.file_name@,
            emote_id: self.emote_id@,
            emote_name: self.emote_name@,
            owner: match self.owner {
                Some(ref s) => Some(s@),
                None => None,
            },
        }
    }
}

/// The display name of a record: its default name, else its plain name.
pub open spec fn spec_display_name(e: EmoteV) -> Option<Seq<char>> {
    match e.default_name {
        Some(n) => Some(n),
        None => e.name,
    }
}

/// The owner display name of a record, flattened.
pub open spec fn spec_owner_name(e: EmoteV) -> Option<Seq<char>> {
    match e.owner {
        Some(Some(s)) => Some(s),
        _ => None,
    }
}

/// The plan of a record: nothing when the record offers no image source,
/// its variant list is empty, or it has no display name — such a record is
/// dropped. A pure function of the record, which is what makes ingestion
/// deterministic.
pub open spec fn spec_plan(e: EmoteV) -> Option<EmotePlanV> {
    match spec_resolve_images(e) {
        None => None,
        Some(imgs) => {
            if imgs.len() == 0 {
                None
            } else {
                let best = spec_best(imgs);
                match spec_display_name(e) {
                    None => None,
                    Some(name) => Some(
                        EmotePlanV {
                            download_url: best.url,
                            mime: best.mime,
                            scale: best.scale,
                            animated: best.frame_count > 1,
                            file_name: spec_file_name(name, e.id, best.mime),
                            emote_id: e.id,
                            emote_name: name,
                            owner: spec_owner_name(e),
                        },
                    ),
                }
            }
        },
    }
}

/// Computes the per-record plan.
pub fn plan_emote(e: &Emote) -> (r: Option<EmotePlan>)
    ensures
        match r {
            Some(p) => spec_plan(e@) == Some(p@),
            None => spec_plan(e@) is None,
        },
{
    let images = match resolve_image_list(e) {
        Some(v) => v,
        None => {
            return None;
        },
    };
    let best = match select_best_image(&images) {
        Some(b) => b,
        None => {
            return None;
        },
    };
    let name: &String = match &e.default_name {
        Some(n) => n,
        None => match &e.name {
            Some(n) => n,
            None => {
                return None;
            },
        },
    };
    let owner: Option<String> = match &e.owner {
        Some(o) => match &o.main_connection {
            Some(c) => Some(c.platform_display_name.clone()),
            None => None,
        },
        None => None,
    };
    let file_name = file_name_for(name.as_str(), e.id.as_str(), best.mime.as_str());
    Some(
        EmotePlan {
            download_url: best.url.clone(),
            mime: best.mime.clone(),
            scale: best.scale,
            animated: best.frame_count > 1,
            file_name,
            emote_id: e.id.clone(),
            emote_name: name.clone(),
            owner,
        },
    )
}

/// Builds the canonical asset of a plan, given the URL the archive serves
/// the uploaded blob under.
pub fn asset_of_plan(p: EmotePlan, url: String) -> (r: EmoteResponse)
    ensures
        r@ == (EmoteResponseV {
            file_name: p.file_name@,
            url: url@,
            emote_id: p.emote_id@,
            emote_name: p.emote_name@,
            owner: match p.owner {
                Some(ref s) => Some(s@),
                None => None,
            },
            animated: Some(p.animated),
            scale: Some(p.scale as int),
            mime: Some(p.mime@),
        }),
{
    EmoteResponse {
        file_name: p.file_name,
        url,
        emote_id: p.emote_id,
        emote_name: p.emote_name,
        owner: p.owner,
        animated: Some(p.animated),
        scale: Some(p.scale),
        mime: Some(p.mime),
    }
}

/// The canonical asset a plan produces within a folder, under a container.
pub open spec fn spec_asset_of(
    p: EmotePlanV,
    folder: Seq<char>,
    account: Seq<char>,
    container: Seq<char>,
) -> EmoteResponseV {
    EmoteResponseV {
        file_name: p.file_name,
        url: spec_blob_url(account, container, spec_blob_path(folder, p.file_name)),
        emote_id: p.emote_id,
        emote_name: p.emote_name,
        owner: p.owner,
        animated: Some(p.animated),
        scale: Some(p.scale),
        mime: Some(p.mime),
    }
}

/// Whether record `e` with download outcome `dl` survives ingestion into an
/// archive whose availability is `avail`.
pub open spec fn spec_kept(e: EmoteV, dl: Option<Seq<u8>>, avail: bool) -> bool {
    spec_plan(e) is Some && dl is Some && avail
}

/// The assets ingestion produces, in input order: one per surviving
/// record. Independent of the archive's prior contents, because an asset's
/// URL is a pure function of account, container and blob path.
pub open spec fn spec_ingest(
    emotes: Seq<EmoteV>,
    folder: Seq<char>,
    dls: Seq<Option<Seq<u8>>>,
    account: Seq<char>,
    container: Seq<char>,
    avail: bool,
) -> Seq<EmoteResponseV>
    decreases emotes.len(),
{
    if emotes.len() == 0 || dls.len() == 0 {
        Seq::empty()
    } else {
        let rest = spec_ingest(emotes.drop_first(), folder, dls.drop_first(), account, container, avail);
        if spec_kept(emotes[0], dls[0], avail) {
            seq![spec_asset_of(spec_plan(emotes[0])->Some_0, folder, account, container)] + rest
        } else {
            rest
        }
    }
}

/// The archive contents after ingestion: one blob per surviving record
/// whose path was still free, put-if-new.
pub open spec fn spec_ingest_blobs(
    emotes: Seq<EmoteV>,
    folder: Seq<char>,
    dls: Seq<Option<Seq<u8>>>,
    blobs: Seq<BlobV>,
    avail: bool,
) -> Seq<BlobV>
    decreases emotes.len(),
{
    if emotes.len() == 0 || dls.len() == 0 {
        blobs
    } else {
        let blobs1 = if spec_kept(emotes[0], dls[0], avail) {
            let p = spec_plan(emotes[0])->Some_0;
            let path = spec_blob_path(folder, p.file_name);
            if spec_archive_find(blobs, path) is Some {
                blobs
            } else {
                blobs.push(BlobV { name: path, content: dls[0]->Some_0, content_type: p.mime })
            }
        } else {
            blobs
        };
        spec_ingest_blobs(emotes.drop_first(), folder, dls.drop_first(), blobs1, avail)
    }
}

fn clone_bytes(v: &Vec<u8>) -> (r: Vec<u8>)
    ensures
        r@ == v@,
{
    let r = v.clone();
    proof {
        assert(r@ =~= v@);
    }
    r
}

/// Runs ingestion over a batch: for each record in order, apply the plan,
/// and for each surviving record upload its bytes put-if-new and emit the
/// canonical asset. `downloads[i]` holds the bytes fetched from record
/// `i`'s chosen URL, or nothing when that download failed; a failed
/// download drops the record, as does an unavailable archive.
pub fn process_emotes_batch(
    emotes: &Vec<Emote>,
    folder: &str,
    downloads: &Vec<Option<Vec<u8>>>,
    archive: &mut BlobArchive,
) -> (r: Vec<EmoteResponse>)
    requires
        downloads@.len() == emotes@.len(),
        archive_wf(old(archive)),
    ensures
        archive_wf(final(archive)),
        final(archive).available == old(archive).available,
        final(archive).account_name@ == old(archive).account_name@,
        final(archive).container_name@ == old(archive).container_name@,
        r.deep_view() == spec_ingest(
            emotes.deep_view(),
            folder@,
            downloads.deep_view(),
            old(archive).account_name@,
            old(archive).container_name@,
            old(archive).available,
        ),
        final(archive).blobs.deep_view() == spec_ingest_blobs(
            emotes.deep_view(),
            folder@,
            downloads.deep_view(),
            old(archive).blobs.deep_view(),
            old(archive).available,
        ),
{
    let ghost ev = emotes.deep_view();
    let ghost dv = downloads.deep_view();
    let ghost account = old(archive).account_name@;
    let ghost container = old(archive).container_name@;
    let ghost avail = old(archive).available;
    let mut out: Vec<EmoteResponse> = Vec::new();
    let mut i: usize = 0;
    proof {
        assert(ev.skip(0) =~= ev);
        assert(dv.skip(0) =~= dv);
    }
    while i < emotes.len()
        invariant
            archive_wf(archive),
            archive.available == avail,
            archive.account_name@ == account,
            archive.container_name@ == container,
            ev == emotes.deep_view(),
            dv == downloads.deep_view(),
            ev.len() == emotes.len(),
            dv.len() == ev.len(),
            i <= emotes.len(),
            spec_ingest(ev, folder@, dv, account, container, avail) == out.deep_view()
                + spec_ingest(ev.skip(i as int), folder@, dv.skip(i as int), account, container, avail),
            spec_ingest_blobs(ev, folder@, dv, old(archive).blobs.deep_view(), avail)
                == spec_ingest_blobs(
                ev.skip(i as int),
                folder@,
                dv.skip(i as int),
                archive.blobs.deep_view(),
                avail,
            ),
        decreases emotes.len() - i,
    {
        let ghost esuf = ev.skip(i as int);
        let ghost dsuf = dv.skip(i as int);
        let ghost blobs_pre = archive.blobs.deep_view();
        proof {
            assert(esuf[0] == ev[i as int]);
            assert(dsuf[0] == dv[i as int]);
            assert(esuf.drop_first() =~= ev.skip(i + 1 as int));
            assert(dsuf.drop_first() =~= dv.skip(i + 1 as int));
        }
        let e = &emotes[i];
        match plan_emote(e) {
            Some(p) => {
                match &downloads[i] {
                    Some(bytes) => {
                        let path = blob_path(folder, p.file_name.as_str());
                        let ghost out0 = out.deep_view();
                        match archive.upload_blob(clone_bytes(bytes), path.as_str(), p.mime.as_str()) {
                            Ok(url) => {
                                let asset = EmoteResponse {
                                    file_name: p.file_name,
                                    url,
                                    emote_id: p.emote_id,
                                    emote_name: p.emote_name,
                                    owner: p.owner,
                                    animated: Some(p.animated),
                                    scale: Some(p.scale),
                                    mime: Some(p.mime),
                                };
                                let ghost av = asset@;
                                out.push(asset);
                                proof {
                                    let p0 = spec_plan(ev[i as int])->Some_0;
                                    let path0 = spec_blob_path(folder@, p0.file_name);
                                    let rest = spec_ingest(
                                        ev.skip(i + 1 as int),
                                        folder@,
                                        dv.skip(i + 1 as int),
                                        account,
                                        container,
                                        avail,
                                    );
                                    assert(bytes.deep_view() =~= bytes@);
                                    assert(dv[i as int] == Some(bytes@));
                                    assert(spec_kept(ev[i as int], dv[i as int], avail));
                                    assert(av == spec_asset_of(p0, folder@, account, container));
                                    assert(spec_ingest(esuf, folder@, dsuf, account, container, avail)
                                        == seq![av] + rest);
                                    assert(out.deep_view() =~= out0.push(av));
                                    assert(out0 + (seq![av] + rest) =~= out0.push(av) + rest);
                                    assert(archive.blobs.deep_view() == (
                                    if spec_archive_find(blobs_pre, path0) is Some {
                                        blobs_pre
                                    } else {
                                        blobs_pre.push(
                                            BlobV {
                                                name: path0,
                                                content: dv[i as int]->Some_0,
                                                content_type: p0.mime,
                                            },
                                        )
                                    }));
                                    assert(spec_ingest_blobs(esuf, folder@, dsuf, blobs_pre, avail)
                                        == spec_ingest_blobs(
                                        esuf.drop_first(),
                                        folder@,
                                        dsuf.drop_first(),
                                        archive.blobs.deep_view(),
                                        avail,
                                    ));
                                }
                            },
                            Err(_) => {
                                proof {
                                    assert(!avail);
                                    assert(spec_ingest_blobs(esuf, folder@, dsuf, blobs_pre, avail)
                                        == spec_ingest_blobs(
                                        esuf.drop_first(),
                                        folder@,
                                        dsuf.drop_first(),
                                        archive.blobs.deep_view(),
                                        avail,
                                    ));
                                }
                            },
                        }
                    },
                    None => {},
                }
            },
            None => {},
        }
        i += 1;
    }
    proof {
        assert(ev.skip(ev.len() as int) =~= Seq::<EmoteV>::empty());
        assert(dv.skip(dv.len() as int) =~= Seq::<Option<Seq<u8>>>::empty());
        assert(out.deep_view() + Seq::<EmoteResponseV>::empty() =~= out.deep_view());
    }
    out
}

/// The count of surviving records: ingestion's output length is the input
/// length minus the dropped records — those with no image source, no
/// variants, no display name, or a failed download — and nothing else is
/// ever added.
pub open spec fn spec_kept_count(
    emotes: Seq<EmoteV>,
    dls: Seq<Option<Seq<u8>>>,
    avail: bool,
) -> int
    decreases emotes.len(),
{
    if emotes.len() == 0 || dls.len() == 0 {
        0
    } else {
        (if spec_kept(emotes[0], dls[0], avail) {
            1int
        } else {
            0int
        }) + spec_kept_count(emotes.drop_first(), dls.drop_first(), avail)
    }
}

/// The count of dropped records: those with no image source, no variants,
/// no display name, a failed download, or an unreachable archive.
pub open spec fn spec_dropped_count(
    emotes: Seq<EmoteV>,
    dls: Seq<Option<Seq<u8>>>,
    avail: bool,
) -> int
    decreases emotes.len(),
{
    if emotes.len() == 0 || dls.len() == 0 {
        0
    } else {
        (if spec_kept(emotes[0], dls[0], avail) {
            0int
        } else {
            1int
        }) + spec_dropped_count(emotes.drop_first(), dls.drop_first(), avail)
    }
}

/// Dropped records are excluded and only they: the output length is the
/// input length minus the dropped count.
pub proof fn lemma_ingest_drop_count(
    emotes: Seq<EmoteV>,
    folder: Seq<char>,
    dls: Seq<Option<Seq<u8>>>,
    account: Seq<char>,
    container: Seq<char>,
    avail: bool,
)
    requires
        dls.len() == emotes.len(),
    ensures
        spec_ingest(emotes, folder, dls, account, container, avail).len() == spec_kept_count(
            emotes,
            dls,
            avail,
        ),
        0 <= spec_kept_count(emotes, dls, avail) <= emotes.len(),
        spec_ingest(emotes, folder, dls, account, container, avail).len() == emotes.len()
            - spec_dropped_count(emotes, dls, avail),
    decreases emotes.len(),
{
    if emotes.len() > 0 {
        lemma_ingest_drop_count(
            emotes.drop_first(),
            folder,
            dls.drop_first(),
            account,
            container,
            avail,
        );
    }
}

/// A record with neither an explicit image list nor a host shape has no
/// image source: it is never kept, whatever its download did.
pub proof fn lemma_no_source_dropped(e: EmoteV, dl: Option<Seq<u8>>, avail: bool)
    requires
        e.images is None,
        e.host is None,
    ensures
        !spec_kept(e, dl, avail),
{
}

/// Re-ingesting an identical record is idempotent: the two runs plan the
/// identical file name and blob path, the second upload finds the blob
/// already present and skips the write, and the two emitted assets are
/// identical — no duplicate is ever created for the same input.
pub proof fn lemma_reingest_identical(
    e: EmoteV,
    folder: Seq<char>,
    dl: Seq<u8>,
    account: Seq<char>,
    container: Seq<char>,
    blobs: Seq<BlobV>,
)
    requires
        spec_plan(e) is Some,
    ensures
        ({
            let assets = spec_ingest(
                seq![e, e],
                folder,
                seq![Some(dl), Some(dl)],
                account,
                container,
                true,
            );
            &&& assets.len() == 2
            &&& assets[0] == assets[1]
            &&& assets[0].file_name == spec_plan(e)->Some_0.file_name
        }),
        spec_ingest_blobs(seq![e, e], folder, seq![Some(dl), Some(dl)], blobs, true)
            == spec_ingest_blobs(seq![e], folder, seq![Some(dl)], blobs, true),
{
    let es2 = seq![e, e];
    let ds2 = seq![Some(dl), Some(dl)];
    let es1 = seq![e];
    let ds1: Seq<Option<Seq<u8>>> = seq![Some(dl)];
    let p = spec_plan(e)->Some_0;
    let path = spec_blob_path(folder, p.file_name);
    let asset = spec_asset_of(p, folder, account, container);
    assert(es2.drop_first() =~= es1);
    assert(ds2.drop_first() =~= ds1);
    assert(es1.drop_first() =~= Seq::<EmoteV>::empty());
    assert(ds1.drop_first() =~= Seq::<Option<Seq<u8>>>::empty());
    assert(spec_kept(e, Some(dl), true));
    let a0 = spec_ingest(Seq::<EmoteV>::empty(), folder, Seq::<Option<Seq<u8>>>::empty(), account, container, true);
    assert(a0 =~= Seq::<EmoteResponseV>::empty());
    let a1 = spec_ingest(es1, folder, ds1, account, container, true);
    assert(a1 == seq![asset] + a0);
    let a2 = spec_ingest(es2, folder, ds2, account, container, true);
    assert(a2 == seq![asset] + a1);
    assert(a2.len() == 2);
    assert(a2[0] == asset && a2[1] == asset);
    let b = BlobV { name: path, content: dl, content_type: p.mime };
    let blobs1 = if spec_archive_find(blobs, path) is Some {
        blobs
    } else {
        blobs.push(b)
    };
    lemma_find_present(blobs, b, path);
    assert(spec_archive_find(blobs1, path) is Some);
    let bend1 = spec_ingest_blobs(Seq::<EmoteV>::empty(), folder, Seq::<Option<Seq<u8>>>::empty(), blobs1, true);
    assert(bend1 == blobs1);
    assert(spec_ingest_blobs(es1, folder, ds1, blobs, true) == bend1);
    assert(spec_ingest_blobs(es1, folder, ds1, blobs1, true) == bend1);
    assert(spec_ingest_blobs(es2, folder, ds2, blobs, true) == spec_ingest_blobs(es1, folder, ds1, blobs1, true));
}

/// After storing a blob under a name, a find of that name succeeds.
proof fn lemma_find_present(blobs: Seq<BlobV>, b: BlobV, name: Seq<char>)
    requires
        b.name == name,
    ensures
        spec_archive_find(blobs.push(b), name) is Some,
    decreases blobs.len(),
{
    if blobs.len() == 0 {
        assert(blobs.push(b)[0] == b);
    } else {
        if blobs[0].name == name {
            assert(blobs.push(b)[0] == blobs[0]);
        } else {
            assert(blobs.push(b)[0] == blobs[0]);
            assert(blobs.push(b).drop_first() =~= blobs.drop_first().push(b));
            lemma_find_present(blobs.drop_first(), b, name);
        }
    }
}

} // verus!

//! Cache keys, folder names and period mappings. Every key is a pure
//! function of the query parameters, so identical queries share one cache
//! entry.

use vstd::prelude::*;
use crate::models::TrendingPeriod;
use crate::strutil::{spec_idec, spec_bool_str, i32_to_string, bool_to_string, str_eq};

verus! {

/// The cache key of an ad-hoc free-text search.
pub open spec fn spec_cache_key(query: Seq<char>, limit: int, animated_only: bool) -> Seq<char> {
    "emote_search:"@ + query + ":"@ + spec_idec(limit) + ":"@ + spec_bool_str(animated_only)
}

/// The cache key of an ad-hoc trending lookup.
pub open spec fn spec_trending_cache_key(
    period: Seq<char>,
    limit: int,
    page: int,
    animated_only: bool,
) -> Seq<char> {
    "trending:"@ + period + ":"@ + spec_idec(limit) + ":"@ + spec_idec(page) + ":"@
        + spec_bool_str(animated_only)
}

/// The long-TTL sync key of a trending folder; also the ledger folder name
/// under which that folder's rows are stored.
pub open spec fn spec_trending_sync_key(period: Seq<char>, animated_only: bool) -> Seq<char> {
    "trending_sync:"@ + period + ":"@ + spec_bool_str(animated_only)
}

/// The long-TTL sync key of a user folder.
pub open spec fn spec_user_emotes_key(folder: Seq<char>) -> Seq<char> {
    "user_emotes:"@ + folder
}

/// The archive folder of a trending sync.
pub open spec fn spec_trending_folder(period: Seq<char>, animated_only: bool) -> Seq<char> {
    "trending/"@ + period + "/"@ + (if animated_only {
        "animated"@
    } else {
        "static"@
    })
}

/// The manifest blob of a folder.
pub open spec fn spec_metadata_blob_name(folder: Seq<char>) -> Seq<char> {
    folder + "/_metadata.json"@
}

/// Builds the ad-hoc search cache key.
pub fn get_cache_key(query: &str, limit: i32, animated_only: bool) -> (r: String)
    ensures
        r@ == spec_cache_key(query@, limit as int, animated_only),
{
    let mut s = "emote_search:".to_owned();
    s.append(query);
    s.append(":");
    let l = i32_to_string(limit);
    s.append(l.as_str());
    s.append(":");
    let b = bool_to_string(animated_only);
    s.append(b.as_str());
    s
}

/// Builds the ad-hoc trending cache key.
pub fn get_trending_cache_key(period: &str, limit: i32, page: i32, animated_only: bool) -> (r:
    String)
    ensures
        r@ == spec_trending_cache_key(period@, limit as int, page as int, animated_only),
{
    let mut s = "trending:".to_owned();
    s.append(period);
    s.append(":");
    let l = i32_to_string(limit);
    s.append(l.as_str());
    s.append(":");
    let p = i32_to_string(page);
    s.append(p.as_str());
    s.append(":");
    let b = bool_to_string(animated_only);
    s.append(b.as_str());
    s
}

/// Builds the trending sync key / ledger folder name.
pub fn get_trending_sync_key(period: &str, animated_only: bool) -> (r: String)
    ensures
        r@ == spec_trending_sync_key(period@, animated_only),
{
    let mut s = "trending_sync:".to_owned();
    s.append(period);
    s.append(":");
    let b = bool_to_string(animated_only);
    s.append(b.as_str());
    s
}

/// Builds the sync key of a user folder.
pub fn user_emotes_key(folder: &str) -> (r: String)
    ensures
        r@ == spec_user_emotes_key(folder@),
{
    let mut s = "user_emotes:".to_owned();
    s.append(folder);
    s
}

/// Builds the archive folder of a trending sync.
pub fn trending_folder(period: &str, animated_only: bool) -> (r: String)
    ensures
        r@ == spec_trending_folder(period@, animated_only),
{
    let mut s = "trending/".to_owned();
    s.append(period);
    s.append("/");
    if animated_only {
        s.append("animated");
    } else {
        s.append("static");
    }
    s
}

/// Builds the manifest blob name of a folder.
pub fn metadata_blob_name(folder: &str) -> (r: String)
    ensures
        r@ == spec_metadata_blob_name(folder@),
{
    let mut s = folder.to_owned();
    s.append("/_metadata.json");
    s
}

/// The period named by a query string; anything unrecognized means weekly.
pub open spec fn spec_period_from_str(s: Seq<char>) -> TrendingPeriod {
    if s == "trending_daily"@ {
        TrendingPeriod::Daily
    } else if s == "trending_monthly"@ {
        TrendingPeriod::Monthly
    } else if s == "popularity"@ {
        TrendingPeriod::AllTime
    } else {
        TrendingPeriod::Weekly
    }
}

/// Parses a period query string.
pub fn period_from_str(s: &str) -> (r: TrendingPeriod)
    ensures
        r == spec_period_from_str(s@),
{
    if str_eq(s, "trending_daily") {
        TrendingPeriod::Daily
    } else if str_eq(s, "trending_monthly") {
        TrendingPeriod::Monthly
    } else if str_eq(s, "popularity") {
        TrendingPeriod::AllTime
    } else {
        TrendingPeriod::Weekly
    }
}

/// The catalog's ranking key for a period.
pub open spec fn spec_sort_key(p: TrendingPeriod) -> Seq<char> {
    match p {
        TrendingPeriod::Daily => "TRENDING_DAILY"@,
        TrendingPeriod::Weekly => "TRENDING_WEEKLY"@,
        TrendingPeriod::Monthly => "TRENDING_MONTHLY"@,
        TrendingPeriod::AllTime => "TOP_ALL_TIME"@,
    }
}

/// Maps a period to the catalog's ranking key.
pub fn sort_key_for_period(p: TrendingPeriod) -> (r: &'static str)
    ensures
        r@ == spec_sort_key(p),
{
    match p {
        TrendingPeriod::Daily => "TRENDING_DAILY",
        TrendingPeriod::Weekly => "TRENDING_WEEKLY",
        TrendingPeriod::Monthly => "TRENDING_MONTHLY",
        TrendingPeriod::AllTime => "TOP_ALL_TIME",
    }
}

} // verus!

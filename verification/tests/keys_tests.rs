use emote_pipeline::keys::{
    get_cache_key, get_trending_cache_key, get_trending_sync_key, user_emotes_key,
    trending_folder, metadata_blob_name, period_from_str, sort_key_for_period,
};
use emote_pipeline::models::TrendingPeriod;
use emote_pipeline::strutil::{i32_to_string, u32_to_string, bool_to_string};

#[test]
fn cache_key_shape() {
    assert_eq!(get_cache_key("pog", 20, false), "emote_search:pog:20:false");
    assert_eq!(get_cache_key("", -3, true), "emote_search::-3:true");
}

#[test]
fn trending_cache_key_shape() {
    assert_eq!(
        get_trending_cache_key("trending_weekly", 20, 1, false),
        "trending:trending_weekly:20:1:false"
    );
}

#[test]
fn trending_sync_key_shape() {
    assert_eq!(
        get_trending_sync_key("trending_daily", true),
        "trending_sync:trending_daily:true"
    );
}

#[test]
fn user_emotes_key_shape() {
    assert_eq!(user_emotes_key("alice"), "user_emotes:alice");
}

#[test]
fn trending_folder_shape() {
    assert_eq!(trending_folder("trending_weekly", false), "trending/trending_weekly/static");
    assert_eq!(trending_folder("popularity", true), "trending/popularity/animated");
}

#[test]
fn metadata_blob_name_shape() {
    assert_eq!(metadata_blob_name("userA"), "userA/_metadata.json");
}

#[test]
fn period_parsing() {
    assert!(matches!(period_from_str("trending_daily"), TrendingPeriod::Daily));
    assert!(matches!(period_from_str("trending_monthly"), TrendingPeriod::Monthly));
    assert!(matches!(period_from_str("popularity"), TrendingPeriod::AllTime));
    assert!(matches!(period_from_str("trending_weekly"), TrendingPeriod::Weekly));
    assert!(matches!(period_from_str("anything else"), TrendingPeriod::Weekly));
}

#[test]
fn sort_keys() {
    assert_eq!(sort_key_for_period(TrendingPeriod::Daily), "TRENDING_DAILY");
    assert_eq!(sort_key_for_period(TrendingPeriod::Weekly), "TRENDING_WEEKLY");
    assert_eq!(sort_key_for_period(TrendingPeriod::Monthly), "TRENDING_MONTHLY");
    assert_eq!(sort_key_for_period(TrendingPeriod::AllTime), "TOP_ALL_TIME");
}

#[test]
fn integer_rendering() {
    assert_eq!(u32_to_string(0), "0");
    assert_eq!(u32_to_string(907), "907");
    assert_eq!(u32_to_string(u32::MAX), "4294967295");
    assert_eq!(i32_to_string(0), "0");
    assert_eq!(i32_to_string(-45), "-45");
    assert_eq!(i32_to_string(i32::MIN), "-2147483648");
    assert_eq!(bool_to_string(true), "true");
    assert_eq!(bool_to_string(false), "false");
}

#[test]
fn default_period_is_weekly() {
    assert!(matches!(TrendingPeriod::default(), TrendingPeriod::Weekly));
}

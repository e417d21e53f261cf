use emote_pipeline::models::{Emote, TrendingFile, TrendingHost};
use emote_pipeline::normalize::{resolve_image_list, parse_i32_digits, strip_suffix_rep};
use emote_pipeline::pipeline::plan_emote;

fn host_emote(animated: bool) -> Emote {
    Emote {
        id: "01XYZ".to_string(),
        default_name: Some("Dance".to_string()),
        name: None,
        owner: None,
        images: None,
        host: Some(TrendingHost {
            url: "//cdn.7tv.app/emote/01XYZ".to_string(),
            files: vec![
                TrendingFile {
                    name: "1x.webp".to_string(),
                    format: "webp".to_string(),
                    width: 32,
                    height: 32,
                },
                TrendingFile {
                    name: "2x.webp".to_string(),
                    format: "webp".to_string(),
                    width: 64,
                    height: 64,
                },
            ],
        }),
        animated: Some(animated),
    }
}

#[test]
fn digits_parse() {
    assert_eq!(parse_i32_digits("2"), Some(2));
    assert_eq!(parse_i32_digits("2147483647"), Some(i32::MAX));
    assert_eq!(parse_i32_digits("2147483648"), None);
    assert_eq!(parse_i32_digits(""), None);
    assert_eq!(parse_i32_digits("2a"), None);
    assert_eq!(parse_i32_digits("-2"), None);
}

#[test]
fn suffix_strip_repeats() {
    assert_eq!(strip_suffix_rep("2x.webp", "x.webp"), "2");
    assert_eq!(strip_suffix_rep("2x.webpx.webp", "x.webp"), "2");
    assert_eq!(strip_suffix_rep("nope", "x.webp"), "nope");
    assert_eq!(strip_suffix_rep("abc", ""), "abc");
}

#[test]
fn derived_shape_synthesizes_variants() {
    let e = host_emote(true);
    let images = resolve_image_list(&e).expect("a host shape resolves");
    assert_eq!(images.len(), 2);
    assert_eq!(images[0].url, "https://cdn.7tv.app/emote/01XYZ/1x.webp");
    assert_eq!(images[0].mime, "image/webp");
    assert_eq!(images[0].scale, 1);
    assert_eq!(images[0].size, 0);
    assert_eq!(images[0].frame_count, 2);
    assert_eq!(images[1].scale, 2);
}

#[test]
fn derived_shape_static_has_one_frame() {
    let e = host_emote(false);
    let images = resolve_image_list(&e).unwrap();
    assert_eq!(images[0].frame_count, 1);
}

#[test]
fn unparsable_scale_defaults_to_one() {
    let mut e = host_emote(false);
    e.host.as_mut().unwrap().files[1].name = "bigx.webp".to_string();
    let images = resolve_image_list(&e).unwrap();
    assert_eq!(images[1].scale, 1);
}

#[test]
fn record_without_source_is_dropped() {
    let e = Emote {
        id: "01".to_string(),
        default_name: Some("NoArt".to_string()),
        name: None,
        owner: None,
        images: None,
        host: None,
        animated: None,
    };
    assert!(resolve_image_list(&e).is_none());
    assert!(plan_emote(&e).is_none());
}

#[test]
fn plan_picks_best_variant_and_names_deterministically() {
    let e = host_emote(true);
    let plan = plan_emote(&e).expect("a record with variants and a name plans");
    assert_eq!(plan.download_url, "https://cdn.7tv.app/emote/01XYZ/2x.webp");
    assert_eq!(plan.mime, "image/webp");
    assert_eq!(plan.scale, 2);
    assert!(plan.animated);
    assert_eq!(plan.file_name, "Dance_01XYZ.webp");
    let again = plan_emote(&host_emote(true)).unwrap();
    assert_eq!(again.file_name, plan.file_name);
}

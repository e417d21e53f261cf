use emote_pipeline::models::Image;
use emote_pipeline::selector::select_best_image;

fn img(mime: &str, scale: i32, frame_count: i32) -> Image {
    Image {
        url: format!("https://cdn.example/{}x.{}", scale, mime),
        mime: mime.to_string(),
        size: 0,
        scale,
        width: 32 * scale,
        frame_count,
    }
}

#[test]
fn selector_prefers_webp_then_scale() {
    let images = vec![
        img("image/webp", 1, 1),
        img("image/png", 1, 1),
        img("image/webp", 2, 1),
    ];
    let best = select_best_image(&images).expect("non-empty list selects a variant");
    assert_eq!(best.mime, "image/webp");
    assert_eq!(best.scale, 2);
}

#[test]
fn selector_empty_list_yields_nothing() {
    let images: Vec<Image> = vec![];
    assert!(select_best_image(&images).is_none());
}

#[test]
fn selector_animated_outranks_mime() {
    let images = vec![img("image/webp", 4, 1), img("image/png", 1, 3)];
    let best = select_best_image(&images).unwrap();
    assert_eq!(best.mime, "image/png");
    assert_eq!(best.frame_count, 3);
}

#[test]
fn selector_mime_order_webp_gif_avif_png_unknown() {
    let images = vec![
        img("image/bmp", 4, 1),
        img("image/png", 4, 1),
        img("image/avif", 4, 1),
        img("image/gif", 4, 1),
        img("image/webp", 1, 1),
    ];
    let best = select_best_image(&images).unwrap();
    assert_eq!(best.mime, "image/webp");
}

#[test]
fn selector_tie_takes_last() {
    let mut first = img("image/webp", 2, 1);
    first.url = "https://cdn.example/first".to_string();
    let mut second = img("image/webp", 2, 1);
    second.url = "https://cdn.example/second".to_string();
    let images = vec![first, second];
    let best = select_best_image(&images).unwrap();
    assert_eq!(best.url, "https://cdn.example/second");
}

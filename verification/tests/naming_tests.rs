use emote_pipeline::naming::{sanitize_name, extension_for_mime, file_name_for, blob_path};

#[test]
fn sanitize_keeps_allowed_characters() {
    assert_eq!(sanitize_name("Abc xyz_0-9."), "Abc xyz_0-9.");
}

#[test]
fn sanitize_replaces_everything_else() {
    assert_eq!(sanitize_name("pog!champ?"), "pog_champ_");
    assert_eq!(sanitize_name("a/b\\c:d"), "a_b_c_d");
}

#[test]
fn sanitize_replaces_non_ascii() {
    assert_eq!(sanitize_name("héllo"), "h_llo");
}

#[test]
fn extension_mapping() {
    assert_eq!(extension_for_mime("image/webp"), ".webp");
    assert_eq!(extension_for_mime("image/gif"), ".gif");
    assert_eq!(extension_for_mime("image/avif"), ".avif");
    assert_eq!(extension_for_mime("image/png"), ".png");
    assert_eq!(extension_for_mime("image/bmp"), ".png");
    assert_eq!(extension_for_mime(""), ".png");
}

#[test]
fn file_name_is_sanitized_name_id_extension() {
    assert_eq!(
        file_name_for("Pog Champ!", "01ABC", "image/webp"),
        "Pog Champ__01ABC.webp"
    );
}

#[test]
fn file_name_is_deterministic() {
    let a = file_name_for("KEKW", "id42", "image/gif");
    let b = file_name_for("KEKW", "id42", "image/gif");
    assert_eq!(a, b);
    assert_eq!(a, "KEKW_id42.gif");
}

#[test]
fn blob_path_joins_folder_and_file() {
    assert_eq!(blob_path("trending/daily/static", "a_1.png"), "trending/daily/static/a_1.png");
}

use emote_pipeline::codec::{encode_assets, decode_assets, assets_encodable};
use emote_pipeline::models::EmoteResponse;

fn sample_assets() -> Vec<EmoteResponse> {
    vec![
        EmoteResponse {
            file_name: "Pog_01.webp".to_string(),
            url: "https://acct.blob.core.windows.net/emotes/f/Pog_01.webp".to_string(),
            emote_id: "01".to_string(),
            emote_name: "Pog".to_string(),
            owner: Some("Алиса".to_string()),
            animated: Some(true),
            scale: Some(-3),
            mime: Some("image/webp".to_string()),
        },
        EmoteResponse {
            file_name: "K_02.png".to_string(),
            url: "https://acct.blob.core.windows.net/emotes/f/K_02.png".to_string(),
            emote_id: "02".to_string(),
            emote_name: "K".to_string(),
            owner: None,
            animated: None,
            scale: None,
            mime: None,
        },
    ]
}

#[test]
fn codec_round_trip_two_assets() {
    let assets = sample_assets();
    assert!(assets_encodable(&assets));
    let bytes = encode_assets(&assets);
    let back = decode_assets(&bytes).expect("an encoded payload decodes");
    assert_eq!(back, assets);
}

#[test]
fn codec_round_trip_empty_list() {
    let assets: Vec<EmoteResponse> = vec![];
    let bytes = encode_assets(&assets);
    assert_eq!(bytes.len(), 4);
    let back = decode_assets(&bytes).expect("an empty payload decodes");
    assert!(back.is_empty());
}

#[test]
fn codec_rejects_garbage() {
    assert!(decode_assets(&vec![]).is_none());
    assert!(decode_assets(&vec![1, 2, 3]).is_none());
    assert!(decode_assets(&vec![255, 255, 255, 255]).is_none());
}

#[test]
fn codec_rejects_truncation_and_trailing_bytes() {
    let assets = sample_assets();
    let bytes = encode_assets(&assets);
    let mut truncated = bytes.clone();
    truncated.pop();
    assert!(decode_assets(&truncated).is_none());
    let mut trailing = bytes.clone();
    trailing.push(0);
    assert!(decode_assets(&trailing).is_none());
}

#[test]
fn codec_rejects_invalid_utf8_in_string_field() {
    let assets = vec![EmoteResponse {
        file_name: "ab".to_string(),
        url: String::new(),
        emote_id: String::new(),
        emote_name: String::new(),
        owner: None,
        animated: None,
        scale: None,
        mime: None,
    }];
    let mut bytes = encode_assets(&assets);
    // corrupt the first byte of the first string field: count (4) + length (4)
    bytes[8] = 0xFF;
    assert!(decode_assets(&bytes).is_none());
}

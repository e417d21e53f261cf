use emote_pipeline::config::{conn_str_field, parse_storage_credentials};

#[test]
fn conn_field_extraction() {
    let conn = "DefaultEndpointsProtocol=https;AccountName=acct;AccountKey=SECRET-REDACTED;EndpointSuffix=core.windows.net";
    assert_eq!(conn_str_field(conn, "AccountName="), Some("acct".to_string()));
    assert_eq!(conn_str_field(conn, "AccountKey="), Some("SECRET-REDACTED".to_string()));
    assert_eq!(conn_str_field(conn, "Missing="), None);
    assert_eq!(conn_str_field("", "AccountName="), None);
    assert_eq!(conn_str_field("AccountName=x", "AccountName="), Some("x".to_string()));
}

#[test]
fn storage_credentials_require_both_fields() {
    let good = "AccountName=acct;AccountKey=SECRET-REDACTED";
    assert_eq!(
        parse_storage_credentials(good),
        Some(("acct".to_string(), "SECRET-REDACTED".to_string()))
    );
    assert_eq!(parse_storage_credentials(""), None);
    assert_eq!(parse_storage_credentials("AccountName=acct"), None);
    assert_eq!(parse_storage_credentials("AccountName=;AccountKey=k"), None);
    assert_eq!(parse_storage_credentials("AccountName=a;AccountKey="), None);
}

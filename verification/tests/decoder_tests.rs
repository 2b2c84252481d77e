use email_to_markdown::config::Account;
use email_to_markdown::thunderbird::generate_accounts_yaml;
use email_to_markdown::thunderbird::generate_env_template;
use email_to_markdown::thunderbird::parse_prefs_js;
use email_to_markdown::thunderbird::parse_profiles_ini;
use email_to_markdown::thunderbird::parse_u16;
use email_to_markdown::utils::decode_mime_filename;
use email_to_markdown::utils::extract_emails;
use email_to_markdown::utils::get_short_name;
use email_to_markdown::utils::hash_md5_prefix;
use email_to_markdown::utils::normalize_line_breaks;

#[test]
fn test_get_short_name() {
    assert_eq!(get_short_name(Some("sender@example.com")), "SEN");
    assert_eq!(get_short_name(Some("John Doe <john@example.com>")), "JD");
    assert_eq!(get_short_name(Some("John Michael Doe")), "JMD");
    assert_eq!(get_short_name(None), "UNK");
    assert_eq!(get_short_name(Some("")), "UNK");
}

#[test]
fn test_get_short_name_email() {
    assert_eq!(get_short_name(Some("sender@example.com")), "SEN");
}

#[test]
fn test_get_short_name_full_name() {
    assert_eq!(get_short_name(Some("John Doe <john@example.com>")), "JD");
}

#[test]
fn test_get_short_name_multiple_words() {
    assert_eq!(get_short_name(Some("John Michael Doe")), "JMD");
}

#[test]
fn test_get_short_name_none() {
    assert_eq!(get_short_name(None), "UNK");
}

#[test]
fn test_get_short_name_empty() {
    assert_eq!(get_short_name(Some("")), "UNK");
}

#[test]
fn test_empty_email_field() {
    let result = get_short_name(Some(""));
    assert_eq!(result, "UNK");
}

#[test]
fn test_special_characters_in_email() {
    let result = get_short_name(Some("<invalid>email@test.com"));
    // Should handle special characters gracefully
    assert!(!result.is_empty());
}

#[test]
fn test_unicode_in_name() {
    let result = get_short_name(Some("Jose Garcia <jose@example.com>"));
    // Should extract initials even with accented characters
    assert!(!result.is_empty());
}

#[test]
fn test_very_long_email() {
    let long_local = "a".repeat(100);
    let email = format!("{}@example.com", long_local);
    let result = get_short_name(Some(&email));
    // Should truncate appropriately
    assert!(result.len() <= 3);
}

#[test]
fn test_extract_emails() {
    let result = extract_emails(Some("Name <email@domain.com>"));
    assert_eq!(result, vec!["email@domain.com"]);

    let result = extract_emails(Some("a@b.com, c@d.com"));
    assert_eq!(result, vec!["a@b.com", "c@d.com"]);

    let result = extract_emails(None);
    assert!(result.is_empty());
}

#[test]
fn test_extract_emails_single() {
    let result = extract_emails(Some("Name <email@domain.com>"));
    assert_eq!(result, vec!["email@domain.com"]);
}

#[test]
fn test_extract_emails_multiple() {
    let result = extract_emails(Some("a@b.com, c@d.com"));
    assert_eq!(result, vec!["a@b.com", "c@d.com"]);
}

#[test]
fn test_extract_emails_none() {
    let result = extract_emails(None);
    assert!(result.is_empty());
}

#[test]
fn test_extract_emails_lowercases() {
    let result = extract_emails(Some("Write to BOSS@Example.COM today"));
    assert_eq!(result, vec!["boss@example.com"]);
}

#[test]
fn utils_test_normalize_line_breaks() {
    let text = "Hello\n\n\n\nWorld";
    let result = normalize_line_breaks(text);
    assert_eq!(result, "Hello\n\nWorld");
}

#[test]
fn rust_tests_test_normalize_line_breaks() {
    let text = "Hello\n\n\n\nWorld";
    let result = normalize_line_breaks(text);
    assert_eq!(result, "Hello\n\nWorld");
}

#[test]
fn test_normalize_many_newlines() {
    let text = "Hello\n\n\n\n\n\n\n\n\n\nWorld";
    let result = normalize_line_breaks(text);
    assert!(!result.contains("\n\n\n"));
}

#[test]
fn test_normalize_keeps_short_runs() {
    assert_eq!(normalize_line_breaks("a\nb\n\nc"), "a\nb\n\nc");
}

#[test]
fn test_hash_md5_prefix() {
    let hash = hash_md5_prefix("Test Subject", 6);
    assert_eq!(hash.len(), 6);
}

#[test]
fn test_hash_md5_prefix_length() {
    let hash = hash_md5_prefix("Test Subject", 6);
    assert_eq!(hash.len(), 6);
}

#[test]
fn test_hash_md5_prefix_consistency() {
    let hash1 = hash_md5_prefix("Test Subject", 6);
    let hash2 = hash_md5_prefix("Test Subject", 6);
    assert_eq!(hash1, hash2);
}

#[test]
fn test_hash_md5_prefix_is_hex_digest() {
    // The digest differs from the input and consists of hex digits.
    let hash = hash_md5_prefix("Test Subject", 6);
    assert_ne!(hash, "Test S");
    assert!(hash.chars().all(|c| c.is_ascii_hexdigit()));
    // The known MD5 digest of the empty string.
    assert_eq!(hash_md5_prefix("", 32), "d41d8cd98f00b204e9800998ecf8427e");
}

#[test]
fn test_decode_mime_filename_quoted_printable() {
    assert_eq!(
        decode_mime_filename("=?utf-8?q?caf=C3=A9=2Epdf?="),
        "caf\u{e9}.pdf"
    );
    // Underscores decode to spaces.
    assert_eq!(decode_mime_filename("=?utf-8?q?a_b?="), "a b");
}

#[test]
fn test_decode_mime_filename_base64() {
    // "café.pdf" in UTF-8, base64-encoded.
    assert_eq!(
        decode_mime_filename("=?utf-8?b?Y2Fmw6kucGRm?="),
        "caf\u{e9}.pdf"
    );
}

#[test]
fn test_decode_mime_filename_latin1() {
    // 0xE9 is e-acute in Latin-1; an identity decode would yield a
    // replacement character instead.
    assert_eq!(decode_mime_filename("=?iso-8859-1?q?caf=E9?="), "caf\u{e9}");
}

#[test]
fn test_decode_mime_filename_plain_passthrough() {
    assert_eq!(decode_mime_filename("plain.pdf"), "plain.pdf");
    assert_eq!(decode_mime_filename("=?utf-8?x?abc?="), "=?utf-8?x?abc?=");
}

#[test]
fn test_parse_u16_values() {
    assert_eq!(parse_u16("993"), Some(993));
    assert_eq!(parse_u16("+42"), Some(42));
    assert_eq!(parse_u16("0"), Some(0));
    assert_eq!(parse_u16("65535"), Some(65535));
    assert_eq!(parse_u16("65536"), None);
    assert_eq!(parse_u16(""), None);
    assert_eq!(parse_u16("12a"), None);
    assert_eq!(parse_u16("-1"), None);
}

#[test]
fn test_parse_prefs_js() {
    let prefs = r#"
user_pref("mail.server.server1.type", "imap");
user_pref("mail.server.server1.hostname", "imap.gmail.com");
user_pref("mail.server.server1.port", "993");
user_pref("mail.server.server1.userName", "test@gmail.com");
user_pref("mail.server.server1.name", "Gmail");
"#;
    let accounts = parse_prefs_js(prefs);
    assert_eq!(accounts.len(), 1);
    assert_eq!(accounts[0].server, "imap.gmail.com");
    assert_eq!(accounts[0].username, "test@gmail.com");
}

#[test]
fn test_parse_prefs_js_skips_non_imap() {
    let prefs = r#"
user_pref("mail.server.server1.type", "pop3");
user_pref("mail.server.server1.hostname", "pop.example.com");
user_pref("mail.server.server2.type", "imap");
user_pref("mail.server.server2.hostname", "imap.example.com");
"#;
    let accounts = parse_prefs_js(prefs);
    assert_eq!(accounts.len(), 1);
    assert_eq!(accounts[0].server, "imap.example.com");
    // No name preference: the fallback names the server identifier.
    assert_eq!(accounts[0].name, "Account_server2");
    assert_eq!(accounts[0].port, 993);
}

#[test]
fn test_parse_profiles_ini_basic() {
    let ini = "[General]\nStartWithLastProfile=1\n\n[Profile0]\nName=default\nIsRelative=1\nPath=abc.default\nDefault=1\n\n[Profile1]\nName=other\nIsRelative=0\nPath=/abs/path\n";
    let profiles = parse_profiles_ini(ini, "/base");
    assert_eq!(profiles.len(), 2);
    assert_eq!(profiles[0].name, "default");
    assert_eq!(profiles[0].path, "/base/abc.default");
    assert!(profiles[0].is_default);
    assert_eq!(profiles[1].name, "other");
    assert_eq!(profiles[1].path, "/abs/path");
    assert!(!profiles[1].is_default);
}

#[test]
fn test_parse_profiles_ini_ignores_other_sections() {
    let ini = "[Install1234]\nDefault=abc.default\n\n[Profile0]\nName=p\nPath=x\n";
    let profiles = parse_profiles_ini(ini, "/b");
    assert_eq!(profiles.len(), 1);
    assert_eq!(profiles[0].name, "p");
    assert_eq!(profiles[0].path, "/b/x");
}

fn sample_account() -> Account {
    Account {
        name: "My Mail".to_string(),
        server: "imap.gmail.com".to_string(),
        port: 993,
        username: "me@gmail.com".to_string(),
        password: None,
        export_directory: "./exports/My_Mail".to_string(),
        ignored_folders: vec!["Spam".to_string(), "Trash".to_string()],
        quote_depth: 1,
        skip_existing: true,
        collect_contacts: false,
        skip_signature_images: true,
        delete_after_export: false,
    }
}

#[test]
fn test_generate_accounts_yaml_content() {
    let yaml = generate_accounts_yaml(&vec![sample_account()]);
    assert!(yaml.contains("accounts:\n"));
    assert!(yaml.contains("  - name: \"My Mail\"\n"));
    assert!(yaml.contains("    server: \"imap.gmail.com\"\n"));
    assert!(yaml.contains("    port: 993\n"));
    assert!(yaml.contains("      - \"Spam\"\n"));
    assert!(yaml.contains("    skip_existing: true\n"));
    assert!(yaml.contains("# MY_MAIL_PASSWORD=your_password\n"));
}

#[test]
fn test_generate_env_template_content() {
    let env = generate_env_template(&vec![sample_account()]);
    assert!(env.contains("MY_MAIL_PASSWORD=your_password\n"));
    // Gmail servers also get an application-password line.
    assert!(env.contains("MY_MAIL_APPLICATION_PASSWORD=your_app_password\n"));
}

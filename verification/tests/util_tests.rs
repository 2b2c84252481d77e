use email_to_markdown::fix_yaml::extract_frontmatter;
use email_to_markdown::fix_yaml::FixStats;
use email_to_markdown::network::NetworkConfig;
use email_to_markdown::network::ProgressIndicator;
use email_to_markdown::network::Spinner;
use email_to_markdown::thunderbird::default_ignored_folders;
use email_to_markdown::thunderbird::sanitize_name;
use email_to_markdown::utils::decode_imap_utf7;
use email_to_markdown::utils::decode_modified_base64;
use email_to_markdown::utils::get_relative_path;
use email_to_markdown::utils::is_signature_image;
use email_to_markdown::utils::limit_quote_depth;
use email_to_markdown::utils::sanitize_filename;

#[test]
fn test_limit_quote_depth() {
    let text = "Hello\n> First quote\n>> Second quote\n>>> Third quote\n> Back to first";
    let result = limit_quote_depth(text, 1);
    let expected = "Hello\n> First quote\n> Back to first";
    assert_eq!(result, expected);
}

#[test]
fn utils_test_limit_quote_depth_no_quotes() {
    let text = "Hello\nWorld";
    let result = limit_quote_depth(text, 1);
    assert_eq!(result, text);
}

#[test]
fn test_limit_quote_depth_basic() {
    let text = "Hello\n> First quote\n>> Second quote\n>>> Third quote\n> Back to first";
    let result = limit_quote_depth(text, 1);
    let expected = "Hello\n> First quote\n> Back to first";
    assert_eq!(result, expected);
}

#[test]
fn rust_tests_test_limit_quote_depth_no_quotes() {
    let text = "Hello\nWorld";
    let result = limit_quote_depth(text, 1);
    assert_eq!(result, text);
}

#[test]
fn test_is_signature_image() {
    assert!(is_signature_image(Some("signature.png"), "image/png", 1024, Some("inline")));
    assert!(is_signature_image(Some("logo.jpg"), "image/jpeg", 5120, Some("attachment")));
    assert!(!is_signature_image(Some("contract.pdf"), "application/pdf", 102400, Some("attachment")));
    assert!(!is_signature_image(Some("photo_vacation.jpg"), "image/jpeg", 2048000, Some("attachment")));
}

#[test]
fn test_is_signature_image_signature() {
    assert!(is_signature_image(
        Some("signature.png"),
        "image/png",
        1024,
        Some("inline")
    ));
}

#[test]
fn test_is_signature_image_logo() {
    assert!(is_signature_image(
        Some("logo.jpg"),
        "image/jpeg",
        5120,
        Some("attachment")
    ));
}

#[test]
fn test_is_signature_image_document() {
    assert!(!is_signature_image(
        Some("contract.pdf"),
        "application/pdf",
        102400,
        Some("attachment")
    ));
}

#[test]
fn test_is_signature_image_large_photo() {
    assert!(!is_signature_image(
        Some("photo_vacation.jpg"),
        "image/jpeg",
        2048000,
        Some("attachment")
    ));
}

#[test]
fn test_signature_image_edge_size() {
    // Exactly at the threshold
    assert!(is_signature_image(
        Some("logo.png"),
        "image/png",
        60 * 1024 - 1,
        Some("attachment")
    ));

    // Just over threshold for signature
    assert!(!is_signature_image(
        Some("signature.png"),
        "image/png",
        50 * 1024 + 1,
        Some("attachment")
    ));
}

#[test]
fn test_decode_imap_utf7_no_encoding() {
    let result = decode_imap_utf7("INBOX");
    assert_eq!(result, "INBOX");
}

#[test]
fn test_decode_imap_utf7_literal_ampersand() {
    // &- should decode to &
    let result = decode_imap_utf7("Tom &- Jerry");
    assert_eq!(result, "Tom & Jerry");
}

#[test]
fn test_decode_imap_utf7_french_e_acute() {
    // &AOk- = e with acute accent (UTF-16BE: 00E9)
    let result = decode_imap_utf7("&AOk-");
    assert_eq!(result, "\u{e9}");
}

#[test]
fn test_decode_imap_utf7_complex_folder() {
    // Test folder name with accented characters
    let result = decode_imap_utf7("INBOX.Envoy&AOk-s");
    assert_eq!(result, "INBOX.Envoy\u{e9}s");
}

#[test]
fn test_decode_imap_utf7_basic() {
    let result = decode_imap_utf7("INBOX");
    assert_eq!(result, "INBOX");
}

#[test]
fn test_decode_imap_utf7_french_chars() {
    // &AOk- is IMAP modified UTF-7 for e-acute (U+00E9)
    let result = decode_imap_utf7("INBOX.&AOk-");
    assert!(result.contains('\u{e9}') || result == "INBOX.&AOk-");
}

#[test]
fn test_decode_imap_utf7_invalid_run_kept() {
    // A run that is not valid modified base64 is kept as written.
    let result = decode_imap_utf7("A&@@-B");
    assert_eq!(result, "A&@@-B");
}

#[test]
fn test_decode_modified_base64_surrogate_pair() {
    // D83D DE0B is the UTF-16 encoding of U+1F60B.
    let smiley = decode_modified_base64("2D3eCw");
    assert_eq!(smiley.unwrap(), "\u{1F60B}");
}

#[test]
fn test_sanitize_filename() {
    let filename = "test<>:\"/\\|?*.txt";
    let result = sanitize_filename(filename);
    assert!(!result.contains('<'));
    assert!(!result.contains('>'));
    assert!(!result.contains(':'));
}

#[test]
fn test_sanitize_filename_exact() {
    assert_eq!(sanitize_filename("a<b>c.txt"), "a_b_c.txt");
    assert_eq!(sanitize_filename("plain.txt"), "plain.txt");
}

#[test]
fn test_get_relative_path_under_base() {
    assert_eq!(get_relative_path("/base", "/base/sub/file.md"), "sub/file.md");
    assert_eq!(get_relative_path("/base", "/elsewhere/file.md"), "/elsewhere/file.md");
    assert_eq!(get_relative_path("", "x/y"), "x/y");
}

#[test]
fn test_get_relative_path_trailing_slash_base() {
    // A base written with its own trailing separator strips the same way.
    assert_eq!(get_relative_path("/base/", "/base/x"), "x");
    assert_eq!(get_relative_path("/base/", "/base/sub/file.md"), "sub/file.md");
    assert_eq!(get_relative_path("/base/", "/base/"), "");
    assert_eq!(get_relative_path("/base/", "/base"), "/base");
}

#[test]
fn fix_yaml_test_extract_frontmatter() {
    let content = "---\nfrom: test@example.com\n---\n\nBody content";
    let result = extract_frontmatter(content);
    assert!(result.is_some());

    let (frontmatter, body) = result.unwrap();
    assert!(frontmatter.contains("from:"));
    assert!(body.contains("Body content"));
}

#[test]
fn fix_yaml_test_extract_frontmatter_no_closing() {
    let content = "---\nfrom: test@example.com\n\nBody content";
    let result = extract_frontmatter(content);
    assert!(result.is_none());
}

#[test]
fn test_extract_frontmatter_valid() {
    let content = "---\nfrom: test@example.com\n---\n\nBody content";
    let result = extract_frontmatter(content);
    assert!(result.is_some());

    let (frontmatter, body) = result.unwrap();
    assert!(frontmatter.contains("from:"));
    assert!(body.contains("Body content"));
}

#[test]
fn rust_tests_test_extract_frontmatter_no_closing() {
    let content = "---\nfrom: test@example.com\n\nBody content";
    let result = extract_frontmatter(content);
    assert!(result.is_none());
}

#[test]
fn test_extract_frontmatter_no_opening() {
    let content = "from: test@example.com\n---\n\nBody content";
    let result = extract_frontmatter(content);
    assert!(result.is_none());
}

#[test]
fn test_fix_stats_default() {
    let stats = FixStats::default();
    assert_eq!(stats.total_scanned, 0);
    assert_eq!(stats.files_fixed, 0);
    assert_eq!(stats.errors, 0);
}

#[test]
fn network_test_network_config_default() {
    let config = NetworkConfig::default();
    assert_eq!(config.max_retries, 3);
    assert_eq!(config.connect_timeout, 30);
}

#[test]
fn rust_tests_test_network_config_default() {
    let config = NetworkConfig::default();
    assert_eq!(config.max_retries, 3);
    assert_eq!(config.connect_timeout, 30);
    assert_eq!(config.read_timeout, 60);
}

#[test]
fn test_retry_backoff_doubles_and_caps() {
    let config = NetworkConfig::default();
    assert_eq!(config.next_retry_delay(1), 2);
    assert_eq!(config.next_retry_delay(2), 4);
    assert_eq!(config.next_retry_delay(20), 30);
    assert!(config.should_retry(2));
    assert!(!config.should_retry(3));
}

#[test]
fn test_progress_indicator() {
    let mut progress = ProgressIndicator::new("Test", 10);
    progress.update(5);
    assert_eq!(progress.current, 5);
}

#[test]
fn test_progress_indicator_create() {
    let progress = ProgressIndicator::new("Test", 100);
    assert_eq!(progress.total, 100);
    assert!(progress.show_percentage);
}

#[test]
fn test_progress_indicator_update() {
    let mut progress = ProgressIndicator::new("Test", 10);
    progress.update(5);
    progress.inc();
    assert_eq!(progress.current, 6);
}

#[test]
fn test_spinner_cycles() {
    let mut spinner = Spinner::new("work");
    let first = spinner.frame();
    spinner.tick();
    assert_ne!(spinner.frame(), first);
    for _ in 0..9 {
        spinner.tick();
    }
    assert_eq!(spinner.frame(), first);
}

#[test]
fn test_sanitize_name() {
    assert_eq!(sanitize_name("My Email Account"), "My_Email_Account");
    assert_eq!(sanitize_name("test@gmail.com"), "test_gmail_com");
}

#[test]
fn test_default_ignored_folders_gmail() {
    let folders = default_ignored_folders("Gmail");
    assert!(folders.iter().any(|f| f.contains("[Gmail]")));
}

#[test]
fn test_default_ignored_folders_other() {
    let folders = default_ignored_folders("MyMail");
    assert!(folders.contains(&"Spam".to_string()));
    assert!(folders.contains(&"Trash".to_string()));
}

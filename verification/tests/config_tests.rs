use email_to_markdown::config::accounts_yaml_path;
use email_to_markdown::config::env_file_path;
use email_to_markdown::config::merge_account;
use email_to_markdown::config::settings_path;
use email_to_markdown::config::sort_config_path;
use email_to_markdown::config::Account;
use email_to_markdown::config::AccountBehavior;
use email_to_markdown::config::Config;
use email_to_markdown::config::ConfigError;
use email_to_markdown::config::RawAccount;
use email_to_markdown::config::Settings;
use email_to_markdown::config::SortConfig;

fn test_raw_account() -> RawAccount {
    RawAccount {
        name: "TestAccount".to_string(),
        server: "imap.example.com".to_string(),
        port: 993,
        username: "user@example.com".to_string(),
        ignored_folders: vec![],
    }
}

fn resolved_account() -> Account {
    Account {
        name: "TestAccount".to_string(),
        server: "imap.example.com".to_string(),
        port: 993,
        username: "user@example.com".to_string(),
        password: None,
        export_directory: "/tmp/emails/TestAccount".to_string(),
        ignored_folders: vec![],
        quote_depth: 1,
        skip_existing: true,
        collect_contacts: false,
        skip_signature_images: false,
        delete_after_export: false,
    }
}

#[test]
fn config_test_sort_config_default() {
    let config = SortConfig::default();
    assert!(config.delete_keywords.contains(&"newsletter".to_string()));
    assert!(config.keep_keywords.contains(&"contract".to_string()));
    assert_eq!(config.recent_threshold_days, 30);
}

#[test]
fn test_is_whitelisted() {
    let mut config = SortConfig::default();
    config.whitelist = vec![
        "important@client.com".into(),
        "@company.com".into(),
        "boss@".into(),
    ];

    assert!(config.is_whitelisted("important@client.com"));
    assert!(config.is_whitelisted("anyone@company.com"));
    assert!(config.is_whitelisted("boss@anywhere.com"));
    assert!(!config.is_whitelisted("random@other.com"));
}

#[test]
fn rust_tests_test_sort_config_default() {
    let config = SortConfig::default();
    assert!(config.delete_keywords.contains(&"newsletter".to_string()));
    assert!(config.keep_keywords.contains(&"contract".to_string()));
    assert_eq!(config.recent_threshold_days, 30);
}

#[test]
fn test_config_validation_empty_accounts_is_ok() {
    // Empty account list is valid — no error expected
    let config = Config { accounts: vec![] };
    assert!(config.validate().is_ok());
}

#[test]
fn test_is_whitelisted_exact_match() {
    let mut config = SortConfig::default();
    config.whitelist = vec!["important@client.com".into()];

    assert!(config.is_whitelisted("important@client.com"));
    assert!(!config.is_whitelisted("other@client.com"));
}

#[test]
fn test_is_whitelisted_domain() {
    let mut config = SortConfig::default();
    config.whitelist = vec!["@company.com".into()];

    assert!(config.is_whitelisted("anyone@company.com"));
    assert!(config.is_whitelisted("ceo@company.com"));
    assert!(!config.is_whitelisted("user@other.com"));
}

#[test]
fn test_is_whitelisted_prefix() {
    let mut config = SortConfig::default();
    config.whitelist = vec!["boss@".into()];

    assert!(config.is_whitelisted("boss@anywhere.com"));
    assert!(config.is_whitelisted("boss@company.com"));
    assert!(!config.is_whitelisted("employee@anywhere.com"));
}

#[test]
fn test_is_whitelisted_empty() {
    let config = SortConfig::default();
    assert!(!config.is_whitelisted("anyone@example.com"));
}

#[test]
fn test_is_whitelisted_case_insensitive() {
    // The sender and the entry are both lowercased before matching; an
    // unchanged-case comparison would miss this pair.
    let mut config = SortConfig::default();
    config.whitelist = vec!["important@client.com".into()];
    assert!(config.is_whitelisted("IMPORTANT@CLIENT.COM"));
}

#[test]
fn test_settings_default() {
    let s = Settings::default();
    assert!(s.export_base_dir.is_none());
    assert!(s.defaults.quote_depth.is_none());
    assert!(s.accounts.is_empty());
}

#[test]
fn test_config_merge_export_dir_from_base() {
    let mut settings = Settings::default();
    settings.export_base_dir = Some("/tmp/emails".to_string());

    let account = merge_account(&test_raw_account(), &settings);
    assert_eq!(account.export_directory, "/tmp/emails/TestAccount");
    assert_eq!(account.name, "TestAccount");
}

#[test]
fn test_config_merge_defaults_applied() {
    let mut settings = Settings::default();
    settings.export_base_dir = Some("/tmp/emails".to_string());
    settings.defaults.quote_depth = Some(3);
    settings.defaults.collect_contacts = Some(true);

    let account = merge_account(&test_raw_account(), &settings);
    assert_eq!(account.quote_depth, 3);
    assert!(account.collect_contacts);
}

#[test]
fn test_config_merge_per_account_overrides_folder_name() {
    let mut settings = Settings::default();
    settings.export_base_dir = Some("/tmp/emails".to_string());
    let mut over = AccountBehavior::default();
    over.folder_name = Some("custom-folder".to_string());
    over.quote_depth = Some(5);
    settings.accounts = vec![("TestAccount".to_string(), over)];

    let account = merge_account(&test_raw_account(), &settings);
    assert!(account.export_directory.ends_with("custom-folder"));
    assert_eq!(account.quote_depth, 5);
}

#[test]
fn test_config_merge_no_settings_uses_hardcoded_defaults() {
    // With no export base directory the export directory stays empty, so
    // validation of the merged account fails.
    let settings = Settings::default();
    let account = merge_account(&test_raw_account(), &settings);
    assert_eq!(account.export_directory, "");
    assert_eq!(account.quote_depth, 1);
    assert!(account.skip_existing);

    let config = Config { accounts: vec![account] };
    assert!(config.validate().is_err());
}

#[test]
fn test_validate_reports_validation_error() {
    let mut account = resolved_account();
    account.server = String::new();
    let config = Config { accounts: vec![account] };
    match config.validate() {
        Err(ConfigError::ValidationError(msg)) => {
            assert!(msg.contains("TestAccount"));
        }
        other => panic!("expected a validation error, got {:?}", other),
    }
}

#[test]
fn test_validate_rejects_zero_port() {
    let mut account = resolved_account();
    account.port = 0;
    let config = Config { accounts: vec![account] };
    assert!(config.validate().is_err());
}

#[test]
fn test_validate_accepts_complete_account() {
    let config = Config { accounts: vec![resolved_account()] };
    assert!(config.validate().is_ok());
}

#[test]
fn test_get_account_case_insensitive() {
    let config = Config { accounts: vec![resolved_account()] };
    assert!(config.get_account("testaccount").is_some());
    assert!(config.get_account("TESTACCOUNT").is_some());
    assert!(config.get_account("other").is_none());
}

#[test]
fn test_list_accounts_names() {
    let config = Config { accounts: vec![resolved_account()] };
    assert_eq!(config.list_accounts(), vec!["TestAccount"]);
}

#[test]
fn test_config_paths_have_expected_names() {
    assert!(accounts_yaml_path().ends_with("/accounts.yaml"));
    assert!(env_file_path().ends_with("/.env"));
    assert!(settings_path().ends_with("/settings.yaml"));
    assert!(sort_config_path().ends_with("/sort_config.json"));
    assert!(settings_path().contains("email-to-markdown"));
}

#[test]
fn test_type_weights_default_values() {
    let config = SortConfig::default();
    assert_eq!(config.type_weights.newsletter, -2);
    assert_eq!(config.type_weights.mailing_list, -1);
    assert_eq!(config.type_weights.group, 0);
    assert_eq!(config.type_weights.direct, 1);
    assert_eq!(config.type_weights.unknown, 0);
}

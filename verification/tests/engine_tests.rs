use email_to_markdown::config::SortConfig;
use email_to_markdown::dates::epoch_days;
use email_to_markdown::dates::parse_date;
use email_to_markdown::sort_emails::determine_category;
use email_to_markdown::sort_emails::determine_email_type;
use email_to_markdown::sort_emails::extract_frontmatter;
use email_to_markdown::sort_emails::Category;
use email_to_markdown::sort_emails::EmailData;
use email_to_markdown::sort_emails::EmailSortType;
use email_to_markdown::sort_emails::EmailSorter;

fn plain_email(sender: &str, subject: &str, score: i128) -> EmailData {
    EmailData {
        file_path: "a/b.md".to_string(),
        file_name: "b.md".to_string(),
        file_size: 100,
        body_length: 1000,
        has_attachments: false,
        attachment_count: 0,
        date: None,
        age_days: None,
        sender: sender.to_string(),
        recipients: Vec::new(),
        subject: subject.to_string(),
        tags: Vec::new(),
        email_type: EmailSortType::Direct,
        score,
        category: Category::Summarize,
    }
}

fn sorter_with(config: SortConfig) -> EmailSorter {
    EmailSorter::new("/tmp".to_string(), config)
}

const BODY: &str =
    "This is a regular body with enough content to not be skipped by the sorter.";

#[test]
fn sort_emails_test_extract_frontmatter() {
    let content = "---\nfrom: test@example.com\nsubject: Test\n---\n\nBody content";
    let result = extract_frontmatter(content);
    assert!(result.is_some());

    let (frontmatter, body) = result.unwrap();
    assert!(frontmatter.contains("from:"));
    assert!(body.contains("Body content"));
}

#[test]
fn test_parse_date_iso() {
    let result = parse_date("2024-01-15T10:30:00+00:00");
    assert!(result.is_some());
}

#[test]
fn test_parse_date_simple() {
    let result = parse_date("2024-01-15");
    assert!(result.is_some());
}

#[test]
fn sort_emails_test_category_display() {
    assert_eq!(Category::Delete.label(), "delete");
    assert_eq!(Category::Summarize.label(), "summarize");
    assert_eq!(Category::Keep.label(), "keep");
}

#[test]
fn test_email_sort_type_display() {
    assert_eq!(EmailSortType::Direct.label(), "direct");
    assert_eq!(EmailSortType::Newsletter.label(), "newsletter");
    assert_eq!(EmailSortType::Group.label(), "group");
}

#[test]
fn test_email_sorter_new() {
    let config = SortConfig::default();
    let sorter = EmailSorter::new("/tmp".to_string(), config);

    let stats = sorter.stats();
    assert_eq!(stats.total_emails, 0);
}

#[test]
fn test_parse_date_values() {
    let d = parse_date("2024-01-15").unwrap();
    assert_eq!(d.year, 2024);
    assert_eq!(d.month, 1);
    assert_eq!(d.day, 15);
    assert_eq!(d.ts_secs, 19737 * 86400);
}

#[test]
fn test_parse_date_rfc3339_fields() {
    let d = parse_date("2024-01-15T10:30:00+00:00").unwrap();
    assert_eq!(d.year, 2024);
    assert_eq!(d.month, 1);
    assert_eq!(d.day, 15);
    assert_eq!(d.ts_secs, 19737 * 86400 + 10 * 3600 + 30 * 60);
}

#[test]
fn test_parse_date_garbage_is_none() {
    assert!(parse_date("not a date").is_none());
    assert!(parse_date("").is_none());
}

#[test]
fn test_epoch_days_known_dates() {
    assert_eq!(epoch_days(1970, 1, 1), 0);
    assert_eq!(epoch_days(2024, 1, 15), 19737);
    assert_eq!(epoch_days(1969, 12, 31), -1);
    assert_eq!(epoch_days(2000, 3, 1), 11017);
}

#[test]
fn test_determine_email_type_from_subject() {
    assert_eq!(determine_email_type("Weekly Newsletter"), EmailSortType::Newsletter);
    assert_eq!(determine_email_type("Tech BULLETIN today"), EmailSortType::Newsletter);
    assert_eq!(determine_email_type("your weekly digest"), EmailSortType::Newsletter);
    assert_eq!(determine_email_type("Meeting tomorrow"), EmailSortType::Direct);
}

#[test]
fn test_whitelist_beats_low_score() {
    // A whitelisted sender is kept even with a very low score and a
    // blacklisted-sender match.
    let mut config = SortConfig::default();
    config.whitelist = vec!["@company.com".to_string()];
    config.delete_senders = vec!["boss@company.com".to_string()];

    let email = plain_email("boss@company.com", "unsubscribe sale promotion", -50);
    assert_eq!(determine_category(&config, &email, BODY), Category::Keep);
}

#[test]
fn test_keep_keyword_beats_delete_keyword() {
    // The subject matches both a delete keyword and a keep keyword; the
    // keep indicator is checked first.
    let mut config = SortConfig::default();
    config.delete_keywords = vec!["promo".to_string()];
    config.keep_keywords = vec!["contract".to_string()];
    config.whitelist = vec![];

    let email = plain_email("someone@work.com", "promo contract details", -10);
    assert_eq!(determine_category(&config, &email, BODY), Category::Keep);
}

#[test]
fn test_delete_sender_low_score_deletes() {
    let mut config = SortConfig::default();
    config.delete_keywords = vec![];
    config.keep_keywords = vec![];
    config.delete_senders = vec!["spam@example.com".to_string()];

    let email = plain_email("spam@example.com", "Hello", -2);
    assert_eq!(determine_category(&config, &email, BODY), Category::Delete);
}

#[test]
fn test_sort_blacklist_sender_delete() {
    let content = "---\nfrom: spam@example.com\nsubject: Hello\ndate: 2024-01-15\n---\n\nThis is a regular body with enough content to not be skipped by the sorter.";

    let mut config = SortConfig::default();
    config.delete_keywords = vec![];
    config.keep_keywords = vec![];
    config.delete_senders = vec!["spam@example.com".to_string()];

    let sorter = sorter_with(config);
    let result = sorter
        .analyze_email_content("email_blacklist_sender.md", "email_blacklist_sender.md", 100, content, 19737 * 86400)
        .unwrap();

    assert_eq!(result.category, Category::Delete);
}

#[test]
fn test_sort_blacklist_keyword_delete() {
    let content = "---\nfrom: sender@example.com\nsubject: promo offer for you\ndate: 2024-01-15\n---\n\nThis is a regular body with enough content to not be skipped by the sorter.";

    let mut config = SortConfig::default();
    config.delete_keywords = vec!["promo".to_string()];
    config.keep_keywords = vec![];
    config.delete_senders = vec![];

    let sorter = sorter_with(config);
    let result = sorter
        .analyze_email_content("email_blacklist_keyword.md", "email_blacklist_keyword.md", 100, content, 19737 * 86400)
        .unwrap();

    assert_eq!(result.category, Category::Delete);
}

#[test]
fn test_sort_email_type_newsletter_score() {
    let content = "---\nfrom: news@example.com\nsubject: Weekly Newsletter\ndate: 2024-01-15\n---\n\nThis is a regular body with enough content to not be skipped by the sorter.";

    let mut config = SortConfig::default();
    config.delete_keywords = vec![];
    config.keep_keywords = vec![];

    let sorter = sorter_with(config);
    let result = sorter
        .analyze_email_content("email_newsletter.md", "email_newsletter.md", 100, content, 19737 * 86400)
        .unwrap();

    // Newsletter type carries a negative weight (-2) and is a delete indicator
    assert_eq!(result.email_type, EmailSortType::Newsletter);
    assert!(result.score < 0);
}

#[test]
fn test_sort_age_old_email_delete() {
    // The record is dated 400 days before "now", well past the 30-day old
    // threshold, and its sender is blacklisted.
    let content = "---\nfrom: spam@example.com\nsubject: Old message\ndate: 2024-01-15\n---\n\nThis is a regular body with enough content to not be skipped by the sorter.";
    let now = (19737 + 400) * 86400;

    let mut config = SortConfig::default();
    config.delete_keywords = vec![];
    config.keep_keywords = vec![];
    config.delete_senders = vec!["spam@example.com".to_string()];
    config.old_threshold_days = 30;

    let sorter = sorter_with(config);
    let result = sorter
        .analyze_email_content("email_old.md", "email_old.md", 100, content, now)
        .unwrap();

    assert_eq!(result.category, Category::Delete);
    assert!(result.age_days.unwrap() >= 30);
}

#[test]
fn test_sort_report_categories() {
    // Three records: a blacklisted sender, a keep keyword, and a plain one.
    let delete_content = "---\nfrom: spam@example.com\nsubject: Hello\ndate: 2024-01-15\n---\n\nThis is a regular body with enough content to not be skipped by the sorter.";
    let keep_content = "---\nfrom: lawyer@firm.com\nsubject: Contract review required\ndate: 2024-01-15\n---\n\nThis is a regular body with enough content to not be skipped by the sorter.";
    let summarize_content = "---\nfrom: colleague@work.com\nsubject: Meeting tomorrow\ndate: 2024-01-15\n---\n\nThis is a regular body with enough content to not be skipped by the sorter.";

    let mut config = SortConfig::default();
    config.delete_keywords = vec![];
    config.keep_keywords = vec!["contract".to_string()];
    config.delete_senders = vec!["spam@example.com".to_string()];

    // 400 days after the records' date, so the age term is the old-age
    // penalty for all three.
    let now = (19737 + 400) * 86400;
    let mut sorter = sorter_with(config);
    for (name, content) in [
        ("email_delete.md", delete_content),
        ("email_keep.md", keep_content),
        ("email_summarize.md", summarize_content),
    ] {
        let email = sorter.analyze_email_content(name, name, 100, content, now).unwrap();
        sorter.record(email);
    }

    let report = sorter.generate_report();
    assert_eq!(report.summary.total_emails, 3);
    assert_eq!(report.summary.categories.get("delete"), 1);
    assert_eq!(report.summary.categories.get("summarize"), 1);
    assert_eq!(report.summary.categories.get("keep"), 1);
    assert_eq!(
        report.summary.categories.get("delete")
            + report.summary.categories.get("summarize")
            + report.summary.categories.get("keep"),
        3
    );
}

#[test]
fn test_pipeline_deterministic() {
    let content = "---\nfrom: someone@work.com\nsubject: quarterly invoice attached\ndate: 2024-01-15\n---\n\nPlease find the invoice attached; payment is due soon.";
    let config = SortConfig::default();
    let sorter = sorter_with(config);
    let now = 19737 * 86400;

    let a = sorter.analyze_email_content("x.md", "x.md", 10, content, now).unwrap();
    let b = sorter.analyze_email_content("x.md", "x.md", 10, content, now).unwrap();
    assert_eq!(a.score, b.score);
    assert_eq!(a.category, b.category);
    assert_eq!(a.email_type, b.email_type);
    assert_eq!(a.age_days, b.age_days);
}

#[test]
fn test_score_components_exact() {
    // Direct type weight +1, recent date +2, mid-size body 0, no
    // attachments 0, no keyword matches, body bonus +2 ("invoice").
    let content = "---\nfrom: someone@work.com\nsubject: hello there\ndate: 2024-01-15\n---\n\nThe invoice is attached to this mail with quite a bit more text so that the body is not considered too small when the small threshold is set low in this test configuration, adding further filler text until the threshold of characters is comfortably exceeded here.";

    let mut config = SortConfig::default();
    config.delete_keywords = vec![];
    config.keep_keywords = vec![];
    config.small_email_threshold = 100;
    config.large_email_threshold = 100000;

    let sorter = sorter_with(config);
    let now = 19737 * 86400;
    let email = sorter.analyze_email_content("x.md", "x.md", 10, content, now).unwrap();
    assert_eq!(email.score, 1 + 2 + 0 + 0 + 2);
}

#[test]
fn test_analyze_rejects_short_and_unframed() {
    let config = SortConfig::default();
    let sorter = sorter_with(config);
    assert!(sorter.analyze_email_content("x.md", "x.md", 1, "  hi  ", 0).is_none());
    assert!(sorter
        .analyze_email_content("x.md", "x.md", 1, "no frontmatter here at all", 0)
        .is_none());
    assert!(sorter
        .analyze_email_content("x.md", "x.md", 1, "---\nfrom: a@b.c\nno closing delimiter", 0)
        .is_none());
}

#[test]
fn test_analyze_reads_metadata_fields() {
    let content = "---\nsubject: The Subject\nfrom: a@b.c\ndate: 2024-01-15\nattachments:\n  - one.pdf\n  - two.pdf\ntags:\n  - x\n  - y\n---\n\nBody text goes here.";
    let config = SortConfig::default();
    let sorter = sorter_with(config);
    let email = sorter.analyze_email_content("p/q.md", "q.md", 42, content, 19737 * 86400).unwrap();
    assert_eq!(email.subject, "The Subject");
    assert_eq!(email.sender, "a@b.c");
    assert_eq!(email.attachment_count, 2);
    assert!(email.has_attachments);
    assert_eq!(email.tags, vec!["x".to_string(), "y".to_string()]);
    assert_eq!(email.file_size, 42);
    assert_eq!(email.age_days, Some(0));
    assert_eq!(email.body_length, "\nBody text goes here.".len());
}

#[test]
fn test_report_percentages_sum_to_100() {
    let mut config = SortConfig::default();
    config.delete_keywords = vec![];
    config.keep_keywords = vec!["contract".to_string()];
    config.delete_senders = vec!["spam@example.com".to_string()];

    let now = 19737 * 86400;
    let mut sorter = sorter_with(config);
    let contents = [
        "---\nfrom: spam@example.com\nsubject: Hello\n---\n\nThis is a regular body with enough content to not be skipped.",
        "---\nfrom: lawyer@firm.com\nsubject: Contract review\n---\n\nThis is a regular body with enough content to not be skipped.",
        "---\nfrom: colleague@work.com\nsubject: Meeting\n---\n\nThis is a regular body with enough content to not be skipped.",
    ];
    for (i, content) in contents.iter().enumerate() {
        let name = format!("m{}.md", i);
        let email = sorter.analyze_email_content(&name, &name, 10, content, now).unwrap();
        sorter.record(email);
    }
    let report = sorter.generate_report();
    let recs = &report.summary.recommendations;
    assert_eq!(recs.len(), 3);
    assert_eq!(recs[0].0, "delete");
    assert_eq!(recs[0].1, "33.3% of emails can be deleted");
    assert_eq!(recs[1].1, "33.3% of emails can be summarized");
    assert_eq!(recs[2].1, "33.3% of emails should be kept in full");
}

#[test]
fn test_top_senders_limited_and_sorted() {
    let mut config = SortConfig::default();
    config.delete_keywords = vec![];
    config.keep_keywords = vec![];

    let now = 19737 * 86400;
    let mut sorter = sorter_with(config);
    // 12 distinct senders; sender number k sends k+1 messages.
    for k in 0..12u32 {
        for _ in 0..(k + 1) {
            let content = format!(
                "---\nfrom: sender{:02}@example.com\nsubject: Note\n---\n\nThis is a regular body with enough content to not be skipped.",
                k
            );
            let email = sorter.analyze_email_content("m.md", "m.md", 10, &content, now).unwrap();
            sorter.record(email);
        }
    }
    let report = sorter.generate_report();
    let top = &report.details.by_sender;
    assert_eq!(top.len(), 10);
    for w in top.windows(2) {
        assert!(w[0].1 >= w[1].1);
    }
    assert_eq!(top[0].0, "sender11@example.com");
    assert_eq!(top[0].1, 12);
}

#[test]
fn test_top_senders_tie_broken_by_name() {
    let mut config = SortConfig::default();
    config.delete_keywords = vec![];
    config.keep_keywords = vec![];

    let now = 19737 * 86400;
    let mut sorter = sorter_with(config);
    for sender in ["zeta@example.com", "alpha@example.com", "mid@example.com"] {
        let content = format!(
            "---\nfrom: {}\nsubject: Note\n---\n\nThis is a regular body with enough content to not be skipped.",
            sender
        );
        let email = sorter.analyze_email_content("m.md", "m.md", 10, &content, now).unwrap();
        sorter.record(email);
    }
    let report = sorter.generate_report();
    let top = &report.details.by_sender;
    assert_eq!(top.len(), 3);
    assert_eq!(top[0].0, "alpha@example.com");
    assert_eq!(top[1].0, "mid@example.com");
    assert_eq!(top[2].0, "zeta@example.com");
}

#[test]
fn test_report_month_bucket_and_summaries() {
    let content = "---\nfrom: a@b.c\nsubject: Contract\ndate: 2024-01-15\n---\n\nThis is a regular body with enough content to not be skipped.";
    let config = SortConfig::default();
    let now = 19737 * 86400;
    let mut sorter = EmailSorter::new("/base".to_string(), config);
    let email = sorter
        .analyze_email_content("/base/sub/mail.md", "mail.md", 10, content, now)
        .unwrap();
    sorter.record(email);

    assert_eq!(sorter.stats().by_date.get("2024-01"), 1);

    let report = sorter.generate_report();
    assert_eq!(report.categories.keep.len(), 1);
    let s = &report.categories.keep[0];
    assert_eq!(s.file, "sub/mail.md");
    assert_eq!(s.date, "2024-01-15");
    assert_eq!(s.email_type, "direct");
    assert_eq!(s.attachments, 0);
}

#[test]
fn test_summarize_default_and_body_length_keep() {
    // A plain short email falls through to Summarize; a very long body is
    // kept.
    let mut config = SortConfig::default();
    config.delete_keywords = vec![];
    config.keep_keywords = vec![];
    config.summarize_max_length = 50;

    let mut plain = plain_email("colleague@work.com", "Meeting", 0);
    plain.body_length = 40;
    assert_eq!(determine_category(&config, &plain, "short body"), Category::Summarize);

    let mut long = plain_email("colleague@work.com", "Meeting", 0);
    long.body_length = 60;
    assert_eq!(determine_category(&config, &long, "short body"), Category::Keep);
}

#[test]
fn test_summary_text_content() {
    let mut config = SortConfig::default();
    config.delete_keywords = vec![];
    config.keep_keywords = vec!["contract".to_string()];
    config.delete_senders = vec!["spam@example.com".to_string()];

    let now = (19737 + 400) * 86400;
    let mut sorter = sorter_with(config);
    let contents = [
        ("a.md", "---\nfrom: spam@example.com\nsubject: Hello\ndate: 2024-01-15\n---\n\nThis is a regular body with enough content to not be skipped by the sorter."),
        ("b.md", "---\nfrom: lawyer@firm.com\nsubject: Contract review\ndate: 2024-01-15\n---\n\nThis is a regular body with enough content to not be skipped by the sorter."),
        ("c.md", "---\nfrom: colleague@work.com\nsubject: Meeting\ndate: 2024-01-15\n---\n\nThis is a regular body with enough content to not be skipped by the sorter."),
    ];
    for (name, content) in contents {
        let email = sorter.analyze_email_content(name, name, 10, content, now).unwrap();
        sorter.record(email);
    }
    let text = sorter.summary_text();
    assert!(text.contains("EMAIL SORTING SUMMARY\n"));
    assert!(text.contains("Total emails analyzed: 3\n"));
    assert!(text.contains("To delete: 1\n"));
    assert!(text.contains("   Delete: 33.3%\n"));
    assert!(text.contains("   Keep: 33.3%\n"));
    assert!(text.contains("   direct: 3\n"));
    assert!(text.contains("   colleague@work.com: 1\n"));
}

#[test]
fn test_parse_date_fallback_formats() {
    // Date with time-of-day text still parses to the calendar day at
    // midnight UTC.
    let d = parse_date("2024-01-15 10:30:00").unwrap();
    assert_eq!((d.year, d.month, d.day), (2024, 1, 15));
    assert_eq!(d.ts_secs, 19737 * 86400);

    // Day-first slashed dates come before month-first ones.
    let d2 = parse_date("15/01/2024").unwrap();
    assert_eq!((d2.year, d2.month, d2.day), (2024, 1, 15));
    let d3 = parse_date("02/01/2024").unwrap();
    assert_eq!((d3.year, d3.month, d3.day), (2024, 1, 2));
}

#[test]
fn test_report_relative_paths_with_trailing_slash_base() {
    let content = "---\nfrom: a@b.c\nsubject: Contract\ndate: 2024-01-15\n---\n\nThis is a regular body with enough content to not be skipped.";
    let config = SortConfig::default();
    let now = 19737 * 86400;
    let mut sorter = EmailSorter::new("/base/".to_string(), config);
    let email = sorter
        .analyze_email_content("/base/sub/mail.md", "mail.md", 10, content, now)
        .unwrap();
    sorter.record(email);
    let report = sorter.generate_report();
    assert_eq!(report.categories.keep[0].file, "sub/mail.md");
}

//! Configuration types: the scoring configuration consumed by the sorting
//! engine, resolved account settings, and their validation and merging.
//!
//! Paths are modelled as strings with `/` separators. Loading and saving of
//! configuration files is I/O and lives outside the library; the functions
//! here are the pure rules applied to already-loaded values.

use vstd::prelude::*;

use crate::text::is_prefix;
use crate::text::is_substring;
use crate::text::is_suffix;
use crate::text::lower_of;
use crate::text::contains_sub;
use crate::text::ends_with_str;
use crate::text::lowercase;
use crate::text::starts_with_str;
use crate::text::str_eq;
use crate::text::to_chars;

verus! {

/// Relies on `dirs::config_dir`: the platform configuration directory, if
/// any, rendered with lossy UTF-8 conversion. The result depends on the
/// environment, so nothing is promised of it.
#[verifier::external_body]
fn platform_config_dir() -> Option<String> {
    dirs::config_dir().map(|p| p.to_string_lossy().to_string())
}

/// Appends `name` to a base path with a `/` separator.
fn join_dir(base: &str, name: &str) -> (r: String)
    ensures
        is_suffix(r@, seq!['/'] + name@),
{
    let mut out: String = String::new();
    out.append(base);
    out.append("/");
    out.append(name);
    proof {
        reveal_strlit("/");
        assert("/"@ =~= seq!['/']);
        let suf = seq!['/'] + name@;
        assert(out@.subrange(out@.len() - suf.len(), out@.len() as int) =~= suf);
    }
    out
}

/// The application configuration directory: the platform configuration
/// directory (or `.` when it cannot be determined) with the application's
/// folder name appended.
pub fn app_config_dir() -> (r: String)
    ensures
        is_suffix(r@, "/email-to-markdown"@),
{
    let base: String = match platform_config_dir() {
        Some(d) => d,
        None => {
            let mut dot: String = String::new();
            dot.append(".");
            dot
        },
    };
    let out: String = join_dir(base.as_str(), "email-to-markdown");
    proof {
        reveal_strlit("/email-to-markdown");
        reveal_strlit("email-to-markdown");
        assert("/email-to-markdown"@ =~= seq!['/'] + "email-to-markdown"@);
    }
    out
}

/// Path of the accounts file under the application configuration directory.
pub fn accounts_yaml_path() -> (r: String)
    ensures
        is_suffix(r@, "/accounts.yaml"@),
{
    let out: String = join_dir(app_config_dir().as_str(), "accounts.yaml");
    proof {
        reveal_strlit("/accounts.yaml");
        reveal_strlit("accounts.yaml");
        assert("/accounts.yaml"@ =~= seq!['/'] + "accounts.yaml"@);
    }
    out
}

/// Path of the environment (passwords) file.
pub fn env_file_path() -> (r: String)
    ensures
        is_suffix(r@, "/.env"@),
{
    let out: String = join_dir(app_config_dir().as_str(), ".env");
    proof {
        reveal_strlit("/.env");
        reveal_strlit(".env");
        assert("/.env"@ =~= seq!['/'] + ".env"@);
    }
    out
}

/// Path of the settings file.
pub fn settings_path() -> (r: String)
    ensures
        is_suffix(r@, "/settings.yaml"@),
{
    let out: String = join_dir(app_config_dir().as_str(), "settings.yaml");
    proof {
        reveal_strlit("/settings.yaml");
        reveal_strlit("settings.yaml");
        assert("/settings.yaml"@ =~= seq!['/'] + "settings.yaml"@);
    }
    out
}

/// Path of the sorting configuration file.
pub fn sort_config_path() -> (r: String)
    ensures
        is_suffix(r@, "/sort_config.json"@),
{
    let out: String = join_dir(app_config_dir().as_str(), "sort_config.json");
    proof {
        reveal_strlit("/sort_config.json");
        reveal_strlit("sort_config.json");
        assert("/sort_config.json"@ =~= seq!['/'] + "sort_config.json"@);
    }
    out
}

/// Integer weight for each email type label. Every type has an explicit
/// entry, so a configured weight can never be missed by a label mismatch;
/// a label absent from a stored configuration maps to weight 0.
#[derive(Clone, Debug)]
pub struct TypeWeights {
    pub newsletter: i32,
    pub mailing_list: i32,
    pub group: i32,
    pub direct: i32,
    pub unknown: i32,
}

impl Default for TypeWeights {
    /// Default weights: newsletter -2, mailing list -1, group 0, direct 1,
    /// unknown 0.
    fn default() -> (r: TypeWeights)
        ensures
            r.newsletter == -2,
            r.mailing_list == -1,
            r.group == 0,
            r.direct == 1,
            r.unknown == 0,
    {
        TypeWeights { newsletter: -2, mailing_list: -1, group: 0, direct: 1, unknown: 0 }
    }
}

/// Configuration for the email sorting engine.
#[derive(Clone, Debug)]
pub struct SortConfig {
    pub delete_keywords: Vec<String>,
    pub delete_senders: Vec<String>,
    pub delete_subjects: Vec<String>,
    pub summarize_max_length: usize,
    pub summarize_keywords: Vec<String>,
    pub keep_keywords: Vec<String>,
    pub keep_senders: Vec<String>,
    pub keep_subjects: Vec<String>,
    pub whitelist: Vec<String>,
    pub recent_threshold_days: i64,
    pub old_threshold_days: i64,
    pub small_email_threshold: usize,
    pub large_email_threshold: usize,
    pub keep_with_attachments: bool,
    pub type_weights: TypeWeights,
}

/// True when the lowercased whitelist entry `entry` matches the already
/// lowercased sender `sl`: exact equality, a `@domain` suffix pattern, or a
/// `prefix@` pattern.
pub open spec fn entry_matches(entry: Seq<char>, sl: Seq<char>) -> bool {
    let e = lower_of(entry);
    ||| sl == e
    ||| (e.len() > 0 && e[0] == '@' && is_suffix(sl, e))
    ||| (e.len() > 0 && e[e.len() - 1] == '@' && is_prefix(sl, e))
}

/// True when the sender matches some whitelist pattern. An empty sender
/// never matches.
pub open spec fn spec_whitelisted(wl: Seq<Seq<char>>, sender: Seq<char>) -> bool {
    sender.len() > 0 && exists|i: int|
        0 <= i < wl.len() && #[trigger] entry_matches(wl[i], lower_of(sender))
}

impl Default for SortConfig {
    /// The documented defaults: promotional keywords marked for deletion,
    /// important-business keywords kept, 30/365 day thresholds, 500/10000
    /// character size thresholds, attachments kept, default type weights.
    fn default() -> (r: SortConfig)
        ensures
            r.delete_keywords.deep_view() =~= seq![
                "newsletter"@,
                "bulletin"@,
                "digest"@,
                "promotion"@,
                "offer"@,
                "coupon"@,
                "sale"@,
                "unsubscribe"@,
                "marketing"@,
                "advertisement"@,
            ],
            r.keep_keywords.deep_view() =~= seq![
                "contract"@,
                "invoice"@,
                "legal"@,
                "urgent"@,
                "important"@,
                "confidential"@,
            ],
            r.delete_senders@.len() == 0,
            r.delete_subjects@.len() == 0,
            r.summarize_keywords@.len() == 0,
            r.keep_senders@.len() == 0,
            r.keep_subjects@.len() == 0,
            r.whitelist@.len() == 0,
            r.summarize_max_length == 5000,
            r.recent_threshold_days == 30,
            r.old_threshold_days == 365,
            r.small_email_threshold == 500,
            r.large_email_threshold == 10000,
            r.keep_with_attachments == true,
            r.type_weights.newsletter == -2,
            r.type_weights.mailing_list == -1,
            r.type_weights.group == 0,
            r.type_weights.direct == 1,
            r.type_weights.unknown == 0,
    {
        let mut delete_keywords: Vec<String> = Vec::new();
        delete_keywords.push(String::from_str("newsletter"));
        delete_keywords.push(String::from_str("bulletin"));
        delete_keywords.push(String::from_str("digest"));
        delete_keywords.push(String::from_str("promotion"));
        delete_keywords.push(String::from_str("offer"));
        delete_keywords.push(String::from_str("coupon"));
        delete_keywords.push(String::from_str("sale"));
        delete_keywords.push(String::from_str("unsubscribe"));
        delete_keywords.push(String::from_str("marketing"));
        delete_keywords.push(String::from_str("advertisement"));
        let mut keep_keywords: Vec<String> = Vec::new();
        keep_keywords.push(String::from_str("contract"));
        keep_keywords.push(String::from_str("invoice"));
        keep_keywords.push(String::from_str("legal"));
        keep_keywords.push(String::from_str("urgent"));
        keep_keywords.push(String::from_str("important"));
        keep_keywords.push(String::from_str("confidential"));
        SortConfig {
            delete_keywords,
            delete_senders: Vec::new(),
            delete_subjects: Vec::new(),
            summarize_max_length: 5000,
            summarize_keywords: Vec::new(),
            keep_keywords,
            keep_senders: Vec::new(),
            keep_subjects: Vec::new(),
            whitelist: Vec::new(),
            recent_threshold_days: 30,
            old_threshold_days: 365,
            small_email_threshold: 500,
            large_email_threshold: 10000,
            keep_with_attachments: true,
            type_weights: TypeWeights::default(),
        }
    }
}

impl SortConfig {
    /// Whether a sender is whitelisted: case-insensitive exact match, or a
    /// `@domain` suffix pattern, or a `prefix@` prefix pattern. Whitelisted
    /// senders are always kept, regardless of score.
    pub fn is_whitelisted(&self, sender_email: &str) -> (r: bool)
        ensures
            r == spec_whitelisted(self.whitelist.deep_view(), sender_email@),
    {
        if sender_email.is_empty() {
            return false;
        }
        let sender_lower: String = lowercase(sender_email);
        let n: usize = self.whitelist.len();
        let mut i: usize = 0;
        while i < n
            invariant
                n == self.whitelist@.len(),
                i <= n,
                sender_email@.len() > 0,
                sender_lower@ == lower_of(sender_email@),
                forall|j: int|
                    0 <= j < i ==> !entry_matches(
                        #[trigger] self.whitelist.deep_view()[j],
                        lower_of(sender_email@),
                    ),
            decreases n - i,
        {
            let entry_lower: String = lowercase(self.whitelist[i].as_str());
            if str_eq(sender_lower.as_str(), entry_lower.as_str()) {
                proof {
                    assert(self.whitelist.deep_view()[i as int] == self.whitelist@[i as int]@);
                    assert(entry_matches(
                        self.whitelist.deep_view()[i as int],
                        lower_of(sender_email@),
                    ));
                }
                return true;
            }
            if starts_with_str(entry_lower.as_str(), "@") && ends_with_str(
                sender_lower.as_str(),
                entry_lower.as_str(),
            ) {
                proof {
                    reveal_strlit("@");
                    assert(self.whitelist.deep_view()[i as int] == self.whitelist@[i as int]@);
                    let e = entry_lower@;
                    assert("@"@.len() == 1);
                    assert(e.subrange(0, 1) == "@"@);
                    assert(e[0] == e.subrange(0, 1)[0]);
                    assert(e[0] == '@');
                    assert(entry_matches(
                        self.whitelist.deep_view()[i as int],
                        lower_of(sender_email@),
                    ));
                    assert(self.whitelist.deep_view().len() == self.whitelist@.len());
                    assert(spec_whitelisted(self.whitelist.deep_view(), sender_email@));
                }
                return true;
            }
            if ends_with_str(entry_lower.as_str(), "@") && starts_with_str(
                sender_lower.as_str(),
                entry_lower.as_str(),
            ) {
                proof {
                    reveal_strlit("@");
                    assert(self.whitelist.deep_view()[i as int] == self.whitelist@[i as int]@);
                    let e = entry_lower@;
                    assert("@"@.len() == 1);
                    assert(e.subrange(e.len() - 1, e.len() as int) == "@"@);
                    assert(e[e.len() - 1] == e.subrange(e.len() - 1, e.len() as int)[0]);
                    assert(e[e.len() - 1] == '@');
                    assert(entry_matches(
                        self.whitelist.deep_view()[i as int],
                        lower_of(sender_email@),
                    ));
                    assert(self.whitelist.deep_view().len() == self.whitelist@.len());
                    assert(spec_whitelisted(self.whitelist.deep_view(), sender_email@));
                }
                return true;
            }
            proof {
                reveal_strlit("@");
                assert(self.whitelist.deep_view()[i as int] == self.whitelist@[i as int]@);
                let e = entry_lower@;
                if e.len() > 0 && e[0] == '@' {
                    assert(e.subrange(0, 1) =~= seq![e[0]]);
                    assert("@"@ =~= seq!['@']);
                    assert(is_prefix(e, "@"@));
                }
                if e.len() > 0 && e[e.len() - 1] == '@' {
                    assert(e.subrange(e.len() - 1, e.len() as int) =~= seq![e[e.len() - 1]]);
                    assert("@"@ =~= seq!['@']);
                    assert(is_suffix(e, "@"@));
                }
                assert(!entry_matches(self.whitelist.deep_view()[i as int], lower_of(sender_email@)));
            }
            i += 1;
        }
        false
    }
}

/// Lowercases one ASCII letter; other characters are unchanged.
pub open spec fn spec_ascii_lower(c: char) -> char {
    if 65 <= c as u32 <= 90 {
        ((c as u32 + 32) as u8) as char
    } else {
        c
    }
}

/// ASCII-case-insensitive equality of character sequences.
pub open spec fn ascii_eq_ci(a: Seq<char>, b: Seq<char>) -> bool {
    a.len() == b.len() && forall|i: int|
        0 <= i < a.len() ==> spec_ascii_lower(#[trigger] a[i]) == spec_ascii_lower(b[i])
}

/// Lowercases one ASCII letter.
fn ascii_lower_char(c: char) -> (r: char)
    ensures
        r == spec_ascii_lower(c),
{
    let u: u32 = c as u32;
    if 65 <= u && u <= 90 {
        ((u + 32) as u8) as char
    } else {
        c
    }
}

/// ASCII-case-insensitive string equality, as `str::eq_ignore_ascii_case`
/// decides it.
fn str_eq_ignore_ascii_case(a: &str, b: &str) -> (r: bool)
    ensures
        r == ascii_eq_ci(a@, b@),
{
    let va: Vec<char> = to_chars(a);
    let vb: Vec<char> = to_chars(b);
    if va.len() != vb.len() {
        return false;
    }
    let n: usize = va.len();
    let mut i: usize = 0;
    while i < n
        invariant
            i <= n == a@.len(),
            n == b@.len(),
            va@ == a@,
            vb@ == b@,
            forall|j: int| 0 <= j < i ==> spec_ascii_lower(#[trigger] a@[j]) == spec_ascii_lower(b@[j]),
        decreases n - i,
    {
        let ca: char = ascii_lower_char(va[i]);
        let cb: char = ascii_lower_char(vb[i]);
        if ca as u32 != cb as u32 {
            return false;
        }
        i += 1;
    }
    true
}

/// Per-account behaviour overrides; unset fields fall back to the
/// defaults.
#[derive(Debug, Clone)]
pub struct AccountBehavior {
    pub folder_name: Option<String>,
    pub quote_depth: Option<usize>,
    pub skip_existing: Option<bool>,
    pub collect_contacts: Option<bool>,
    pub skip_signature_images: Option<bool>,
    pub delete_after_export: Option<bool>,
}

impl Default for AccountBehavior {
    /// No overrides set.
    fn default() -> (r: AccountBehavior)
        ensures
            r.folder_name is None,
            r.quote_depth is None,
            r.skip_existing is None,
            r.collect_contacts is None,
            r.skip_signature_images is None,
            r.delete_after_export is None,
    {
        AccountBehavior {
            folder_name: None,
            quote_depth: None,
            skip_existing: None,
            collect_contacts: None,
            skip_signature_images: None,
            delete_after_export: None,
        }
    }
}

/// Application settings: the export base directory, default behaviour,
/// and per-account overrides keyed by account name.
#[derive(Debug, Clone)]
pub struct Settings {
    pub export_base_dir: Option<String>,
    pub defaults: AccountBehavior,
    pub accounts: Vec<(String, AccountBehavior)>,
}

impl Default for Settings {
    /// No base directory, no default overrides, no accounts.
    fn default() -> (r: Settings)
        ensures
            r.export_base_dir is None,
            r.defaults.folder_name is None,
            r.defaults.quote_depth is None,
            r.defaults.skip_existing is None,
            r.defaults.collect_contacts is None,
            r.defaults.skip_signature_images is None,
            r.defaults.delete_after_export is None,
            r.accounts@.len() == 0,
    {
        Settings {
            export_base_dir: None,
            defaults: AccountBehavior::default(),
            accounts: Vec::new(),
        }
    }
}

/// A single account entry as stored in the accounts file: connection
/// details only.
#[derive(Debug, Clone)]
pub struct RawAccount {
    pub name: String,
    pub server: String,
    pub port: u16,
    pub username: String,
    pub ignored_folders: Vec<String>,
}

/// A fully resolved account: connection details merged with behaviour
/// settings.
#[derive(Debug, Clone)]
pub struct Account {
    pub name: String,
    pub server: String,
    pub port: u16,
    pub username: String,
    pub password: Option<String>,
    pub export_directory: String,
    pub ignored_folders: Vec<String>,
    pub quote_depth: usize,
    pub skip_existing: bool,
    pub collect_contacts: bool,
    pub skip_signature_images: bool,
    pub delete_after_export: bool,
}

/// What can go wrong when loading or validating configuration; outside
/// errors are carried as their messages.
#[derive(Debug, Clone)]
pub enum ConfigError {
    FileReadError(String),
    YamlParseError(String),
    AccountNotFound(String),
    NoPassword(String),
    ValidationError(String),
}

/// The first behaviour override stored under `name`.
pub open spec fn spec_lookup_behavior(
    entries: Seq<(String, AccountBehavior)>,
    name: Seq<char>,
) -> Option<AccountBehavior>
    decreases entries.len(),
{
    if entries.len() == 0 {
        None
    } else if entries[0].0@ == name {
        Some(entries[0].1)
    } else {
        spec_lookup_behavior(entries.drop_first(), name)
    }
}

/// An optional per-account value, else the optional default, else the
/// stated fallback.
pub open spec fn spec_resolve_usize(per: Option<usize>, def: Option<usize>, fallback: usize) -> usize {
    match per {
        Some(v) => v,
        None => match def {
            Some(v) => v,
            None => fallback,
        },
    }
}

/// An optional per-account flag, else the optional default, else the
/// stated fallback.
pub open spec fn spec_resolve_bool(per: Option<bool>, def: Option<bool>, fallback: bool) -> bool {
    match per {
        Some(v) => v,
        None => match def {
            Some(v) => v,
            None => fallback,
        },
    }
}

/// Every backslash replaced by a forward slash.
pub open spec fn spec_slashes(s: Seq<char>) -> Seq<char> {
    s.map_values(
        |c: char|
            if c == '\\' {
                '/'
            } else {
                c
            },
    )
}

/// Paths joined with a `/` separator: an absolute tail replaces the base,
/// and no separator is doubled.
pub open spec fn spec_path_join(base: Seq<char>, tail: Seq<char>) -> Seq<char> {
    if tail.len() > 0 && tail[0] == '/' {
        tail
    } else if base.len() == 0 {
        tail
    } else if base[base.len() - 1] == '/' {
        base + tail
    } else {
        base + seq!['/'] + tail
    }
}

/// The export directory computed from a base directory and a folder name:
/// the joined path with backslashes normalized to forward slashes.
pub open spec fn spec_export_dir(base: Seq<char>, folder: Seq<char>) -> Seq<char> {
    spec_slashes(spec_path_join(base, folder))
}

/// Replaces every backslash with a forward slash.
fn slashes(s: &str) -> (r: String)
    ensures
        r@ == spec_slashes(s@),
{
    let v: Vec<char> = to_chars(s);
    let n: usize = v.len();
    let mut out: Vec<char> = Vec::new();
    let mut i: usize = 0;
    while i < n
        invariant
            i <= n == s@.len(),
            v@ == s@,
            out@.len() == i,
            forall|j: int| 0 <= j < i ==> out@[j] == spec_slashes(s@)[j],
        decreases n - i,
    {
        let c: char = v[i];
        if c == '\\' {
            out.push('/');
        } else {
            out.push(c);
        }
        i += 1;
    }
    proof {
        assert(out@ =~= spec_slashes(s@));
    }
    crate::text::from_chars(&out)
}

/// Joins two paths with a `/` separator.
pub fn path_join(base: &str, tail: &str) -> (r: String)
    ensures
        r@ == spec_path_join(base@, tail@),
{
    proof {
        reveal_strlit("/");
    }
    if starts_with_str(tail, "/") {
        proof {
            reveal_strlit("/");
            assert(tail@.subrange(0, 1) == "/"@);
            assert(tail@[0] == tail@.subrange(0, 1)[0]);
            assert("/"@ =~= seq!['/']);
        }
        let mut out: String = String::new();
        out.append(tail);
        return out;
    }
    if base.is_empty() {
        let mut out: String = String::new();
        out.append(tail);
        return out;
    }
    let mut out: String = String::new();
    out.append(base);
    let slash_end: bool = ends_with_str(base, "/");
    proof {
        reveal_strlit("/");
        assert("/"@ =~= seq!['/']);
        if slash_end {
            assert(is_suffix(base@, "/"@));
            assert("/"@.len() == 1);
            assert(base@.len() >= 1);
            assert(base@.subrange(base@.len() - "/"@.len(), base@.len() as int) == "/"@);
            assert(base@.subrange(base@.len() - 1, base@.len() as int) == "/"@);
            assert(base@[base@.len() - 1] == base@.subrange(base@.len() - 1, base@.len() as int)[0]);
            assert(base@[base@.len() - 1] == '/');
        } else {
            if base@[base@.len() - 1] == '/' {
                assert(base@.subrange(base@.len() - 1, base@.len() as int) =~= seq![
                    base@[base@.len() - 1],
                ]);
                assert(is_suffix(base@, "/"@));
                assert(false);
            }
        }
        if tail@.len() > 0 && tail@[0] == '/' {
            assert(tail@.subrange(0, 1) =~= seq!['/']);
            assert(is_prefix(tail@, "/"@));
            assert(false);
        }
    }
    if !slash_end {
        out.append("/");
    }
    out.append(tail);
    proof {
        reveal_strlit("/");
        assert("/"@ =~= seq!['/']);
        if !slash_end {
            assert(out@ =~= base@ + seq!['/'] + tail@);
        }
    }
    out
}

/// An exact copy of a list of strings.
fn clone_string_vec(v: &Vec<String>) -> (r: Vec<String>)
    ensures
        r@ == v@,
{
    let n: usize = v.len();
    let mut out: Vec<String> = Vec::new();
    let mut i: usize = 0;
    while i < n
        invariant
            i <= n == v@.len(),
            out@ == v@.subrange(0, i as int),
        decreases n - i,
    {
        out.push(v[i].clone());
        i += 1;
        proof {
            assert(out@ =~= v@.subrange(0, i as int));
        }
    }
    proof {
        assert(v@.subrange(0, n as int) =~= v@);
    }
    out
}

impl Settings {
    /// The behaviour override stored for `name`, if any.
    pub fn account_override(&self, name: &str) -> (r: Option<&AccountBehavior>)
        ensures
            match r {
                Some(b) => spec_lookup_behavior(self.accounts@, name@) == Some(*b),
                None => spec_lookup_behavior(self.accounts@, name@) is None,
            },
    {
        let n: usize = self.accounts.len();
        let mut i: usize = 0;
        proof {
            assert(self.accounts@.skip(0) =~= self.accounts@);
        }
        while i < n
            invariant
                i <= n == self.accounts@.len(),
                spec_lookup_behavior(self.accounts@, name@) == spec_lookup_behavior(
                    self.accounts@.skip(i as int),
                    name@,
                ),
            decreases n - i,
        {
            proof {
                let t = self.accounts@.skip(i as int);
                assert(t[0] == self.accounts@[i as int]);
                assert(t.drop_first() =~= self.accounts@.skip(i + 1));
            }
            if str_eq(self.accounts[i].0.as_str(), name) {
                return Some(&self.accounts[i].1);
            }
            i += 1;
        }
        proof {
            assert(self.accounts@.skip(n as int) =~= Seq::<(String, AccountBehavior)>::empty());
        }
        None
    }
}

/// Merges one raw account with the settings into a resolved account.
/// Precedence for each behaviour field: the per-account override, then the
/// stated default, then the hardcoded fallback. The export directory is
/// the base directory joined with the per-account folder name (the account
/// name when none is set), empty when no base directory is configured.
pub fn merge_account(raw: &RawAccount, settings: &Settings) -> (r: Account)
    ensures
        r.name@ == raw.name@,
        r.server@ == raw.server@,
        r.port == raw.port,
        r.username@ == raw.username@,
        r.password is None,
        r.ignored_folders@ == raw.ignored_folders@,
        ({
            let per = spec_lookup_behavior(settings.accounts@, raw.name@);
            let per_folder = match per {
                Some(b) => b.folder_name,
                None => None,
            };
            let folder = match per_folder {
                Some(f) => f@,
                None => raw.name@,
            };
            &&& r.export_directory@ == (match settings.export_base_dir {
                Some(base) => spec_export_dir(base@, folder),
                None => Seq::<char>::empty(),
            })
            &&& r.quote_depth == spec_resolve_usize(
                (match per {
                    Some(b) => b.quote_depth,
                    None => None,
                }),
                settings.defaults.quote_depth,
                1,
            )
            &&& r.skip_existing == spec_resolve_bool(
                (match per {
                    Some(b) => b.skip_existing,
                    None => None,
                }),
                settings.defaults.skip_existing,
                true,
            )
            &&& r.collect_contacts == spec_resolve_bool(
                (match per {
                    Some(b) => b.collect_contacts,
                    None => None,
                }),
                settings.defaults.collect_contacts,
                false,
            )
            &&& r.skip_signature_images == spec_resolve_bool(
                (match per {
                    Some(b) => b.skip_signature_images,
                    None => None,
                }),
                settings.defaults.skip_signature_images,
                false,
            )
            &&& r.delete_after_export == spec_resolve_bool(
                (match per {
                    Some(b) => b.delete_after_export,
                    None => None,
                }),
                settings.defaults.delete_after_export,
                false,
            )
        }),
{
    let per: Option<&AccountBehavior> = settings.account_override(raw.name.as_str());

    let folder: String = match per {
        Some(b) => match &b.folder_name {
            Some(f) => f.clone(),
            None => raw.name.clone(),
        },
        None => raw.name.clone(),
    };

    let export_directory: String = match &settings.export_base_dir {
        Some(base) => slashes(path_join(base.as_str(), folder.as_str()).as_str()),
        None => String::new(),
    };

    let quote_depth: usize = match per {
        Some(b) => match b.quote_depth {
            Some(v) => v,
            None => match settings.defaults.quote_depth {
                Some(v) => v,
                None => 1,
            },
        },
        None => match settings.defaults.quote_depth {
            Some(v) => v,
            None => 1,
        },
    };
    let skip_existing: bool = match per {
        Some(b) => match b.skip_existing {
            Some(v) => v,
            None => match settings.defaults.skip_existing {
                Some(v) => v,
                None => true,
            },
        },
        None => match settings.defaults.skip_existing {
            Some(v) => v,
            None => true,
        },
    };
    let collect_contacts: bool = match per {
        Some(b) => match b.collect_contacts {
            Some(v) => v,
            None => match settings.defaults.collect_contacts {
                Some(v) => v,
                None => false,
            },
        },
        None => match settings.defaults.collect_contacts {
            Some(v) => v,
            None => false,
        },
    };
    let skip_signature_images: bool = match per {
        Some(b) => match b.skip_signature_images {
            Some(v) => v,
            None => match settings.defaults.skip_signature_images {
                Some(v) => v,
                None => false,
            },
        },
        None => match settings.defaults.skip_signature_images {
            Some(v) => v,
            None => false,
        },
    };
    let delete_after_export: bool = match per {
        Some(b) => match b.delete_after_export {
            Some(v) => v,
            None => match settings.defaults.delete_after_export {
                Some(v) => v,
                None => false,
            },
        },
        None => match settings.defaults.delete_after_export {
            Some(v) => v,
            None => false,
        },
    };

    Account {
        name: raw.name.clone(),
        server: raw.server.clone(),
        port: raw.port,
        username: raw.username.clone(),
        password: None,
        export_directory,
        ignored_folders: clone_string_vec(&raw.ignored_folders),
        quote_depth,
        skip_existing,
        collect_contacts,
        skip_signature_images,
        delete_after_export,
    }
}

/// An account with every required field present and a nonzero port.
pub open spec fn spec_account_valid(a: Account) -> bool {
    &&& a.name@.len() > 0
    &&& a.server@.len() > 0
    &&& a.username@.len() > 0
    &&& a.export_directory@.len() > 0
    &&& a.port != 0
}

/// The resolved accounts of one run.
#[derive(Debug)]
pub struct Config {
    pub accounts: Vec<Account>,
}

impl Config {
    /// Checks every account: names, servers, usernames and export
    /// directories must be nonempty and ports nonzero. `Ok` exactly when
    /// every account is valid.
    pub fn validate(&self) -> (r: Result<(), ConfigError>)
        ensures
            (r is Ok) == (forall|i: int|
                0 <= i < self.accounts@.len() ==> spec_account_valid(#[trigger] self.accounts@[i])),
            r matches Err(e) ==> e is ValidationError,
    {
        let n: usize = self.accounts.len();
        let mut i: usize = 0;
        while i < n
            invariant
                i <= n == self.accounts@.len(),
                forall|j: int| 0 <= j < i ==> spec_account_valid(#[trigger] self.accounts@[j]),
            decreases n - i,
        {
            let account: &Account = &self.accounts[i];
            if account.name.as_str().is_empty() {
                let mut m: String = String::new();
                m.append("Account name cannot be empty");
                return Err(ConfigError::ValidationError(m));
            }
            if account.server.as_str().is_empty() {
                let mut m: String = String::new();
                m.append("Server not configured for account '");
                m.append(account.name.as_str());
                m.append("'");
                return Err(ConfigError::ValidationError(m));
            }
            if account.username.as_str().is_empty() {
                let mut m: String = String::new();
                m.append("Username not configured for account '");
                m.append(account.name.as_str());
                m.append("'");
                return Err(ConfigError::ValidationError(m));
            }
            if account.export_directory.as_str().is_empty() {
                let mut m: String = String::new();
                m.append("Export directory not configured for account '");
                m.append(account.name.as_str());
                m.append("'. Set the export base directory in the settings.");
                return Err(ConfigError::ValidationError(m));
            }
            if account.port == 0 {
                let mut m: String = String::new();
                m.append("Invalid port (0) for account '");
                m.append(account.name.as_str());
                m.append("'");
                return Err(ConfigError::ValidationError(m));
            }
            i += 1;
        }
        Ok(())
    }

    /// The first account whose name equals `name` up to ASCII case, if
    /// any.
    pub fn get_account(&self, name: &str) -> (r: Option<&Account>)
        ensures
            match r {
                Some(a) => exists|i: int|
                    {
                        &&& 0 <= i < self.accounts@.len()
                        &&& *a == self.accounts@[i]
                        &&& #[trigger] ascii_eq_ci(self.accounts@[i].name@, name@)
                        &&& forall|j: int|
                            0 <= j < i ==> !ascii_eq_ci(
                                (#[trigger] self.accounts@[j]).name@,
                                name@,
                            )
                    },
                None => forall|i: int|
                    0 <= i < self.accounts@.len() ==> !ascii_eq_ci(
                        (#[trigger] self.accounts@[i]).name@,
                        name@,
                    ),
            },
    {
        let n: usize = self.accounts.len();
        let mut i: usize = 0;
        while i < n
            invariant
                i <= n == self.accounts@.len(),
                forall|j: int|
                    0 <= j < i ==> !ascii_eq_ci((#[trigger] self.accounts@[j]).name@, name@),
            decreases n - i,
        {
            if str_eq_ignore_ascii_case(self.accounts[i].name.as_str(), name) {
                return Some(&self.accounts[i]);
            }
            i += 1;
        }
        None
    }

    /// All account names, in order.
    pub fn list_accounts(&self) -> (r: Vec<&str>)
        ensures
            r@.len() == self.accounts@.len(),
            forall|i: int| 0 <= i < r@.len() ==> (#[trigger] r@[i])@ == self.accounts@[i].name@,
    {
        let n: usize = self.accounts.len();
        let mut out: Vec<&str> = Vec::new();
        let mut i: usize = 0;
        while i < n
            invariant
                i <= n == self.accounts@.len(),
                out@.len() == i,
                forall|j: int| 0 <= j < i ==> (#[trigger] out@[j])@ == self.accounts@[j].name@,
            decreases n - i,
        {
            out.push(self.accounts[i].name.as_str());
            i += 1;
        }
        out
    }
}

} // verus!

//! The classification and reporting engine: parsing a stored record into
//! structured fields, scoring it from configured weighted signals, assigning
//! a category by a layered decision procedure, folding classified records
//! into running statistics, and producing the report.

use vstd::prelude::*;

use crate::config::SortConfig;
use crate::config::TypeWeights;
use crate::config::spec_whitelisted;
use crate::counts::CountMap;
use crate::counts::pair_order;
use crate::counts::sort_pairs_desc;
use crate::dates::DateParts;
use crate::dates::day_key;
use crate::dates::month_key;
use crate::dates::spec_day_key;
use crate::dates::spec_month_key;
use crate::dates::spec_parse_date;
use crate::dates::parse_date;
use crate::spec_days_between;
use crate::days_between;
use crate::text::contains_sub;
use crate::text::from_chars;
use crate::text::is_prefix;
use crate::text::is_substring;
use crate::text::is_suffix;
use crate::text::join_lines_range;
use crate::text::join_with;
use crate::text::lower_of;
use crate::text::lowercase;
use crate::text::spec_dec;
use crate::text::spec_lines;
use crate::text::spec_trim;
use crate::text::split_lines;
use crate::text::starts_with_str;
use crate::text::to_chars;
use crate::text::trim_bounds;
use crate::text::dec_u64;
use crate::utils::get_relative_path;
use crate::utils::spec_relative_path;

verus! {

/// The classification outcome of a record.
#[derive(Clone, Copy, Debug, PartialEq, Eq, Structural)]
pub enum Category {
    Delete,
    Summarize,
    Keep,
}

/// The label of a category, as the statistics and the report key it.
pub open spec fn spec_cat_label(c: Category) -> Seq<char> {
    match c {
        Category::Delete => "delete"@,
        Category::Summarize => "summarize"@,
        Category::Keep => "keep"@,
    }
}

impl Category {
    /// The category's label: `delete`, `summarize` or `keep`.
    pub fn label(&self) -> (r: String)
        ensures
            r@ == spec_cat_label(*self),
    {
        match self {
            Category::Delete => String::from_str("delete"),
            Category::Summarize => String::from_str("summarize"),
            Category::Keep => String::from_str("keep"),
        }
    }
}

/// The detected kind of an email.
#[derive(Clone, Copy, Debug, PartialEq, Eq, Structural)]
pub enum EmailSortType {
    Newsletter,
    MailingList,
    Group,
    Direct,
    Unknown,
}

/// The label of an email type, as the weight table and statistics key it.
pub open spec fn spec_type_label(t: EmailSortType) -> Seq<char> {
    match t {
        EmailSortType::Newsletter => "newsletter"@,
        EmailSortType::MailingList => "mailing_list"@,
        EmailSortType::Group => "group"@,
        EmailSortType::Direct => "direct"@,
        EmailSortType::Unknown => "unknown"@,
    }
}

impl EmailSortType {
    /// The type's label: `newsletter`, `mailing_list`, `group`, `direct` or
    /// `unknown`.
    pub fn label(&self) -> (r: String)
        ensures
            r@ == spec_type_label(*self),
    {
        match self {
            EmailSortType::Newsletter => String::from_str("newsletter"),
            EmailSortType::MailingList => String::from_str("mailing_list"),
            EmailSortType::Group => String::from_str("group"),
            EmailSortType::Direct => String::from_str("direct"),
            EmailSortType::Unknown => String::from_str("unknown"),
        }
    }
}

/// The configured weight of an email type.
pub open spec fn spec_type_weight(w: TypeWeights, t: EmailSortType) -> int {
    match t {
        EmailSortType::Newsletter => w.newsletter as int,
        EmailSortType::MailingList => w.mailing_list as int,
        EmailSortType::Group => w.group as int,
        EmailSortType::Direct => w.direct as int,
        EmailSortType::Unknown => w.unknown as int,
    }
}

/// One analyzed record.
#[derive(Clone, Debug)]
pub struct EmailData {
    pub file_path: String,
    pub file_name: String,
    pub file_size: u64,
    pub body_length: usize,
    pub has_attachments: bool,
    pub attachment_count: usize,
    pub date: Option<DateParts>,
    pub age_days: Option<i64>,
    pub sender: String,
    pub recipients: Vec<String>,
    pub subject: String,
    pub tags: Vec<String>,
    pub email_type: EmailSortType,
    pub score: i128,
    pub category: Category,
}

impl EmailData {
    /// A parsed date, when present, lies within the representable range.
    pub open spec fn wf(self) -> bool {
        self.date matches Some(d) ==> d.valid()
    }
}

/// Whether any entry of `keys`, lowercased, occurs in the (already
/// lowercased) text `hay`.
pub open spec fn spec_any_match(keys: Seq<Seq<char>>, hay: Seq<char>) -> bool {
    exists|i: int| 0 <= i < keys.len() && #[trigger] is_substring(hay, lower_of(keys[i]))
}

/// How many entries of `keys`, lowercased, occur in the (already
/// lowercased) text `hay`; a duplicated entry counts each time.
pub open spec fn spec_match_count(keys: Seq<Seq<char>>, hay: Seq<char>) -> nat
    decreases keys.len(),
{
    if keys.len() == 0 {
        0
    } else {
        (if is_substring(hay, lower_of(keys[0])) {
            1nat
        } else {
            0nat
        }) + spec_match_count(keys.drop_first(), hay)
    }
}

/// The fixed list of important terms that give the scoring body bonus.
pub open spec fn spec_score_body_terms() -> Seq<Seq<char>> {
    seq![
        "contract"@,
        "invoice"@,
        "legal"@,
        "urgent"@,
        "important"@,
        "confidential"@,
        "agreement"@,
        "signature"@,
        "payment"@,
    ]
}

/// The fixed, shorter list of important terms consulted as a keep
/// indicator; kept distinct from the scoring list on purpose.
pub open spec fn spec_keep_body_terms() -> Seq<Seq<char>> {
    seq!["contract"@, "invoice"@, "legal"@, "urgent"@, "important"@]
}

/// Whether any of the literal `terms` occurs in the (already lowercased)
/// text `hay`.
pub open spec fn spec_any_term(terms: Seq<Seq<char>>, hay: Seq<char>) -> bool {
    exists|i: int| 0 <= i < terms.len() && #[trigger] is_substring(hay, terms[i])
}

/// The type detected from the subject alone: newsletter-like subjects are
/// `Newsletter`, everything else `Direct`.
pub open spec fn spec_email_type(subject: Seq<char>) -> EmailSortType {
    let sl = lower_of(subject);
    if is_substring(sl, "newsletter"@) || is_substring(sl, "bulletin"@) || is_substring(
        sl,
        "digest"@,
    ) {
        EmailSortType::Newsletter
    } else {
        EmailSortType::Direct
    }
}

/// The age contribution: +2 for recent, -1 for old, 0 between or without a
/// date; recency wins when the thresholds overlap.
pub open spec fn spec_age_term(age_days: Option<i64>, recent: int, old: int) -> int {
    match age_days {
        Some(a) => {
            if a <= recent {
                2
            } else if a >= old {
                -1
            } else {
                0
            }
        },
        None => 0,
    }
}

/// The size contribution: -1 for small bodies, +1 for large ones;
/// smallness wins when the thresholds overlap.
pub open spec fn spec_size_term(body_length: int, small: int, large: int) -> int {
    if body_length <= small {
        -1
    } else if body_length >= large {
        1
    } else {
        0
    }
}

/// The attachment contribution: +2 when attachments are kept by policy,
/// -1 otherwise; 0 without attachments.
pub open spec fn spec_attachment_term(has_attachments: bool, keep_with_attachments: bool) -> int {
    if has_attachments {
        if keep_with_attachments {
            2
        } else {
            -1
        }
    } else {
        0
    }
}

/// The score of a record: the sum of the independent contributions of
/// type weight, age, size, attachments, subject keywords, sender lists and
/// the body bonus, with no clamping.
pub open spec fn spec_score(cfg: SortConfig, email: EmailData, body: Seq<char>) -> int {
    let subject_l = lower_of(email.subject@);
    let sender_l = lower_of(email.sender@);
    let body_l = lower_of(body);
    spec_type_weight(cfg.type_weights, email.email_type) + spec_age_term(
        email.age_days,
        cfg.recent_threshold_days as int,
        cfg.old_threshold_days as int,
    ) + spec_size_term(
        email.body_length as int,
        cfg.small_email_threshold as int,
        cfg.large_email_threshold as int,
    ) + spec_attachment_term(email.has_attachments, cfg.keep_with_attachments) - spec_match_count(
        cfg.delete_keywords.deep_view(),
        subject_l,
    ) + 2 * spec_match_count(cfg.keep_keywords.deep_view(), subject_l) + (
    if spec_any_match(cfg.delete_senders.deep_view(), sender_l) {
        -3int
    } else {
        0int
    }) + (
    if spec_any_match(cfg.keep_senders.deep_view(), sender_l) {
        3int
    } else {
        0int
    }) + (
    if spec_any_term(spec_score_body_terms(), body_l) {
        2int
    } else {
        0int
    })
}

/// The strong delete indicators: a newsletter type, a delete keyword in
/// the subject, or a delete sender match.
pub open spec fn spec_delete_indicators(cfg: SortConfig, email: EmailData) -> bool {
    ||| email.email_type == EmailSortType::Newsletter
    ||| spec_any_match(cfg.delete_keywords.deep_view(), lower_of(email.subject@))
    ||| spec_any_match(cfg.delete_senders.deep_view(), lower_of(email.sender@))
}

/// The strong keep indicators: a keep keyword in the subject, a keep
/// sender match, attachments under a keep-attachments policy, or an
/// important term in the body.
pub open spec fn spec_keep_indicators(cfg: SortConfig, email: EmailData, body: Seq<char>) -> bool {
    ||| spec_any_match(cfg.keep_keywords.deep_view(), lower_of(email.subject@))
    ||| spec_any_match(cfg.keep_senders.deep_view(), lower_of(email.sender@))
    ||| (email.has_attachments && cfg.keep_with_attachments)
    ||| spec_any_term(spec_keep_body_terms(), lower_of(body))
}

/// The layered decision procedure: whitelist first, then keep indicators,
/// then delete indicators or a low score, then a high score or an
/// over-length body, and `Summarize` as the default.
pub open spec fn spec_category(cfg: SortConfig, email: EmailData, body: Seq<char>) -> Category {
    if spec_whitelisted(cfg.whitelist.deep_view(), email.sender@) {
        Category::Keep
    } else if spec_keep_indicators(cfg, email, body) {
        Category::Keep
    } else if spec_delete_indicators(cfg, email) || email.score <= -2 {
        Category::Delete
    } else if email.score >= 2 || email.body_length > cfg.summarize_max_length {
        Category::Keep
    } else {
        Category::Summarize
    }
}

/// How many entries of `keys` occur, lowercased, in the lowercased text.
fn count_matches(keys: &Vec<String>, hay_lower: &str) -> (n: usize)
    ensures
        n == spec_match_count(keys.deep_view(), hay_lower@),
        n <= keys.deep_view().len(),
{
    let m: usize = keys.len();
    let mut n: usize = 0;
    let mut i: usize = 0;
    proof {
        assert(keys.deep_view().skip(0) =~= keys.deep_view());
    }
    while i < m
        invariant
            i <= m == keys@.len(),
            n <= i,
            keys.deep_view().len() == m,
            spec_match_count(keys.deep_view(), hay_lower@) == n + spec_match_count(
                keys.deep_view().skip(i as int),
                hay_lower@,
            ),
        decreases m - i,
    {
        let kl: String = lowercase(keys[i].as_str());
        let hit: bool = contains_sub(hay_lower, kl.as_str());
        proof {
            let dv = keys.deep_view();
            let t = dv.skip(i as int);
            assert(t[0] == dv[i as int]);
            assert(dv[i as int] == keys@[i as int]@);
            assert(t.drop_first() =~= dv.skip(i + 1));
        }
        if hit {
            n += 1;
        }
        i += 1;
    }
    proof {
        assert(keys.deep_view().skip(m as int) =~= Seq::<Seq<char>>::empty());
    }
    n
}

/// Whether any entry of `keys` occurs, lowercased, in the lowercased text.
fn any_match(keys: &Vec<String>, hay_lower: &str) -> (r: bool)
    ensures
        r == spec_any_match(keys.deep_view(), hay_lower@),
{
    let m: usize = keys.len();
    let mut i: usize = 0;
    while i < m
        invariant
            i <= m == keys@.len(),
            keys.deep_view().len() == m,
            forall|j: int|
                0 <= j < i ==> !is_substring(hay_lower@, lower_of(#[trigger] keys.deep_view()[j])),
        decreases m - i,
    {
        let kl: String = lowercase(keys[i].as_str());
        if contains_sub(hay_lower, kl.as_str()) {
            proof {
                assert(keys.deep_view()[i as int] == keys@[i as int]@);
                assert(is_substring(hay_lower@, lower_of(keys.deep_view()[i as int])));
            }
            return true;
        }
        proof {
            assert(keys.deep_view()[i as int] == keys@[i as int]@);
        }
        i += 1;
    }
    false
}

/// Whether any of the literal `terms` occurs in the already lowercased
/// text. The terms are compared as given.
fn any_term(terms: &Vec<String>, hay_lower: &str) -> (r: bool)
    ensures
        r == spec_any_term(terms.deep_view(), hay_lower@),
{
    let m: usize = terms.len();
    let mut i: usize = 0;
    while i < m
        invariant
            i <= m == terms@.len(),
            terms.deep_view().len() == m,
            forall|j: int|
                0 <= j < i ==> !is_substring(hay_lower@, #[trigger] terms.deep_view()[j]),
        decreases m - i,
    {
        if contains_sub(hay_lower, terms[i].as_str()) {
            proof {
                assert(terms.deep_view()[i as int] == terms@[i as int]@);
                assert(is_substring(hay_lower@, terms.deep_view()[i as int]));
            }
            return true;
        }
        proof {
            assert(terms.deep_view()[i as int] == terms@[i as int]@);
        }
        i += 1;
    }
    false
}

/// The nine important terms of the scoring body bonus.
fn score_body_terms() -> (r: Vec<String>)
    ensures
        r.deep_view() =~= spec_score_body_terms(),
{
    let mut v: Vec<String> = Vec::new();
    v.push(String::from_str("contract"));
    v.push(String::from_str("invoice"));
    v.push(String::from_str("legal"));
    v.push(String::from_str("urgent"));
    v.push(String::from_str("important"));
    v.push(String::from_str("confidential"));
    v.push(String::from_str("agreement"));
    v.push(String::from_str("signature"));
    v.push(String::from_str("payment"));
    v
}

/// The five important terms of the keep indicator.
fn keep_body_terms() -> (r: Vec<String>)
    ensures
        r.deep_view() =~= spec_keep_body_terms(),
{
    let mut v: Vec<String> = Vec::new();
    v.push(String::from_str("contract"));
    v.push(String::from_str("invoice"));
    v.push(String::from_str("legal"));
    v.push(String::from_str("urgent"));
    v.push(String::from_str("important"));
    v
}

/// Index of the first line at or after `from` whose trimmed text is the
/// `---` delimiter, or -1 when there is none.
pub open spec fn first_delim_line(ls: Seq<Seq<char>>, from: int) -> int
    decreases ls.len() - from,
{
    if !(0 <= from < ls.len()) {
        -1
    } else if spec_trim(ls[from]) == "---"@ {
        from
    } else {
        first_delim_line(ls, from + 1)
    }
}

/// What frontmatter extraction yields: the text between the opening
/// delimiter line and the first later line that trims to the delimiter,
/// and the body after that line, both joined with single newlines; nothing
/// when the content does not open with the delimiter or no closing
/// delimiter line exists.
pub open spec fn spec_extract_frontmatter(c: Seq<char>) -> Option<(Seq<char>, Seq<char>)> {
    if !is_prefix(c, "---"@) {
        None
    } else {
        let ls = spec_lines(c);
        let i = first_delim_line(ls, 1);
        if i < 0 {
            None
        } else {
            Some(
                (
                    join_with(ls.subrange(1, i), '\n'),
                    join_with(ls.subrange(i + 1, ls.len() as int), '\n'),
                ),
            )
        }
    }
}

/// Whether the line's trimmed text is exactly the `---` delimiter.
fn is_delim_line(line: &str) -> (r: bool)
    ensures
        r == (spec_trim(line@) == "---"@),
{
    let v: Vec<char> = to_chars(line);
    let (a, b): (usize, usize) = trim_bounds(&v);
    proof {
        reveal_strlit("---");
    }
    if b - a != 3 {
        proof {
            assert(spec_trim(line@).len() != 3);
        }
        return false;
    }
    let hit: bool = v[a] == '-' && v[a + 1] == '-' && v[a + 2] == '-';
    proof {
        let t = spec_trim(line@);
        assert(t == v@.subrange(a as int, b as int));
        assert(t.len() == 3);
        assert(t[0] == v@[a as int] && t[1] == v@[a as int + 1] && t[2] == v@[a as int + 2]);
        if v@[a as int] == '-' && v@[a as int + 1] == '-' && v@[a as int + 2] == '-' {
            assert(t =~= "---"@);
        } else {
            assert(t != "---"@);
        }
    }
    hit
}

proof fn lemma_first_delim_at(ls: Seq<Seq<char>>, from: int, k: int)
    requires
        0 <= from <= k < ls.len(),
        spec_trim(ls[k]) == "---"@,
        forall|j: int| from <= j < k ==> spec_trim(#[trigger] ls[j]) != "---"@,
    ensures
        first_delim_line(ls, from) == k,
    decreases k - from,
{
    if from < k {
        lemma_first_delim_at(ls, from + 1, k);
    }
}

proof fn lemma_first_delim_none(ls: Seq<Seq<char>>, from: int)
    requires
        forall|j: int| from <= j < ls.len() ==> spec_trim(#[trigger] ls[j]) != "---"@,
    ensures
        first_delim_line(ls, from) < 0,
    decreases ls.len() - from,
{
    if 0 <= from < ls.len() {
        lemma_first_delim_none(ls, from + 1);
    }
}

/// Splits a record into its metadata block and body: the text between the
/// opening `---` line and the first later line that trims to `---`, and
/// everything after that line. `None` when either delimiter is missing.
pub fn extract_frontmatter(content: &str) -> (r: Option<(String, String)>)
    ensures
        match r {
            Some(p) => spec_extract_frontmatter(content@) == Some((p.0@, p.1@)),
            None => spec_extract_frontmatter(content@) is None,
        },
{
    if !starts_with_str(content, "---") {
        return None;
    }
    let lines: Vec<String> = split_lines(content);
    let n: usize = lines.len();
    let mut i: usize = 1;
    proof {
        reveal_strlit("---");
        assert(content@.len() >= 3);
        assert(spec_lines(content@).len() >= 1);
        assert(lines.deep_view().len() == lines@.len());
    }
    while i < n
        invariant
            1 <= i,
            i <= n == lines@.len(),
            is_prefix(content@, "---"@),
            lines.deep_view() == spec_lines(content@),
            forall|j: int|
                1 <= j < i ==> spec_trim(#[trigger] lines.deep_view()[j]) != "---"@,
        decreases n - i,
    {
        if is_delim_line(lines[i].as_str()) {
            proof {
                assert(lines.deep_view()[i as int] == lines@[i as int]@);
                lemma_first_delim_at(lines.deep_view(), 1, i as int);
            }
            let frontmatter: String = join_lines_range(&lines, 1, i);
            let body: String = join_lines_range(&lines, i + 1, n);
            return Some((frontmatter, body));
        }
        proof {
            assert(lines.deep_view()[i as int] == lines@[i as int]@);
        }
        i += 1;
    }
    proof {
        lemma_first_delim_none(lines.deep_view(), 1);
    }
    None
}

/// The recognized metadata fields of a record, with their defaults for
/// absent values.
#[derive(Clone, Debug)]
pub struct RecordMeta {
    pub subject: String,
    pub sender: String,
    pub date: String,
    pub attachments: usize,
    pub tags: Vec<String>,
}

/// What parsing the metadata block yields: the subject, sender, date
/// string, attachment count and tags, with empty-string / zero / empty-list
/// defaults for absent fields, or nothing when the block is not well-formed
/// structured data. A function of the characters alone.
pub uninterp spec fn meta_of(s: Seq<char>) -> Option<
    (Seq<char>, Seq<char>, Seq<char>, int, Seq<Seq<char>>),
>;

/// Relies on `serde_yaml::from_str::<Value>` and the `Value` accessors:
/// parses the metadata block as generic structured data and picks the
/// recognized fields, defaulting each absent field.
#[verifier::external_body]
fn parse_metadata(s: &str) -> (r: Option<RecordMeta>)
    ensures
        match r {
            Some(m) => meta_of(s@) == Some(
                (m.subject@, m.sender@, m.date@, m.attachments as int, m.tags.deep_view()),
            ),
            None => meta_of(s@) is None,
        },
{
    let v: serde_yaml::Value = serde_yaml::from_str(s).ok()?;
    let g = |k: &str| v.get(k).and_then(|x| x.as_str()).unwrap_or("").to_string();
    let attachments = v.get("attachments").and_then(|x| x.as_sequence()).map_or(0, |q| q.len());
    let tags = v.get("tags").and_then(|x| x.as_sequence()).map_or(Vec::new(), |q| {
        q.iter().filter_map(|x| x.as_str()).map(String::from).collect()
    });
    Some(RecordMeta { subject: g("subject"), sender: g("from"), date: g("date"), attachments, tags })
}

/// Detects the email type from the subject alone.
pub fn determine_email_type(subject: &str) -> (r: EmailSortType)
    ensures
        r == spec_email_type(subject@),
{
    let sl: String = lowercase(subject);
    if contains_sub(sl.as_str(), "newsletter") || contains_sub(sl.as_str(), "bulletin")
        || contains_sub(sl.as_str(), "digest") {
        EmailSortType::Newsletter
    } else {
        EmailSortType::Direct
    }
}

/// Computes the score of a record from its fields and body, as the sum of
/// the configured weighted signals.
#[verifier::rlimit(100)]
#[verifier::spinoff_prover]
pub fn calculate_score(cfg: &SortConfig, email: &EmailData, body: &str) -> (r: i128)
    ensures
        r == spec_score(*cfg, *email, body@),
{
    let subject_lower: String = lowercase(email.subject.as_str());
    let sender_lower: String = lowercase(email.sender.as_str());
    let body_lower: String = lowercase(body);

    let weight: i32 = match email.email_type {
        EmailSortType::Newsletter => cfg.type_weights.newsletter,
        EmailSortType::MailingList => cfg.type_weights.mailing_list,
        EmailSortType::Group => cfg.type_weights.group,
        EmailSortType::Direct => cfg.type_weights.direct,
        EmailSortType::Unknown => cfg.type_weights.unknown,
    };
    let w: i128 = weight as i128;
    proof {
        assert(w == spec_type_weight(cfg.type_weights, email.email_type));
    }

    let age_t: i128 = match email.age_days {
        Some(age) => {
            if age <= cfg.recent_threshold_days {
                2
            } else if age >= cfg.old_threshold_days {
                -1
            } else {
                0
            }
        },
        None => 0,
    };
    proof {
        assert(age_t == spec_age_term(
            email.age_days,
            cfg.recent_threshold_days as int,
            cfg.old_threshold_days as int,
        ));
    }

    let size_t: i128 = if email.body_length <= cfg.small_email_threshold {
        -1
    } else if email.body_length >= cfg.large_email_threshold {
        1
    } else {
        0
    };
    proof {
        assert(size_t == spec_size_term(
            email.body_length as int,
            cfg.small_email_threshold as int,
            cfg.large_email_threshold as int,
        ));
    }

    let att_t: i128 = if email.has_attachments {
        if cfg.keep_with_attachments {
            2
        } else {
            -1
        }
    } else {
        0
    };
    proof {
        assert(att_t == spec_attachment_term(email.has_attachments, cfg.keep_with_attachments));
    }

    let delete_count: usize = count_matches(&cfg.delete_keywords, subject_lower.as_str());
    let keep_count: usize = count_matches(&cfg.keep_keywords, subject_lower.as_str());

    let ds_t: i128 = if any_match(&cfg.delete_senders, sender_lower.as_str()) {
        -3
    } else {
        0
    };
    let ks_t: i128 = if any_match(&cfg.keep_senders, sender_lower.as_str()) {
        3
    } else {
        0
    };

    let important: Vec<String> = score_body_terms();
    let body_t: i128 = if any_term(&important, body_lower.as_str()) {
        2
    } else {
        0
    };

    let score: i128 = w + age_t + size_t + att_t - (delete_count as i128) + 2 * (
    keep_count as i128) + ds_t + ks_t + body_t;
    score
}

/// Assigns the category of a scored record by the layered decision
/// procedure.
pub fn determine_category(cfg: &SortConfig, email: &EmailData, body: &str) -> (r: Category)
    ensures
        r == spec_category(*cfg, *email, body@),
{
    if cfg.is_whitelisted(email.sender.as_str()) {
        return Category::Keep;
    }

    let subject_lower: String = lowercase(email.subject.as_str());
    let sender_lower: String = lowercase(email.sender.as_str());
    let body_lower: String = lowercase(body);

    let keep_terms: Vec<String> = keep_body_terms();
    let keep_indicators: bool = any_match(&cfg.keep_keywords, subject_lower.as_str()) || any_match(
        &cfg.keep_senders,
        sender_lower.as_str(),
    ) || (email.has_attachments && cfg.keep_with_attachments) || any_term(
        &keep_terms,
        body_lower.as_str(),
    );
    if keep_indicators {
        return Category::Keep;
    }

    let delete_indicators: bool = match email.email_type {
        EmailSortType::Newsletter => true,
        _ => false,
    } || any_match(&cfg.delete_keywords, subject_lower.as_str()) || any_match(
        &cfg.delete_senders,
        sender_lower.as_str(),
    );
    if delete_indicators || email.score <= -2 {
        return Category::Delete;
    }

    if email.score >= 2 || email.body_length > cfg.summarize_max_length {
        return Category::Keep;
    }

    Category::Summarize
}

/// What ingesting raw record content yields: subject, sender, date string,
/// attachment count, tags and body; nothing when the content is too short,
/// lacks a delimiter pair, or its metadata does not parse.
pub open spec fn spec_ingest(c: Seq<char>) -> Option<
    (Seq<char>, Seq<char>, Seq<char>, int, Seq<Seq<char>>, Seq<char>),
> {
    if spec_trim(c).len() < 10 {
        None
    } else if !is_prefix(c, "---"@) {
        None
    } else {
        match spec_extract_frontmatter(c) {
            None => None,
            Some(p) => match meta_of(p.0) {
                None => None,
                Some(m) => Some((m.0, m.1, m.2, m.3, m.4, p.1)),
            },
        }
    }
}

/// Running statistics of one batch: total records and counts per category,
/// type, sender and calendar month.
#[derive(Clone, Debug)]
pub struct SortStats {
    pub total_emails: usize,
    pub by_category: CountMap,
    pub by_type: CountMap,
    pub by_sender: CountMap,
    pub by_date: CountMap,
}

impl SortStats {
    /// The counter maps are well formed, the three category counts sum to
    /// the total, and no single count exceeds the total.
    pub open spec fn wf(self) -> bool {
        &&& self.by_category.wf()
        &&& self.by_type.wf()
        &&& self.by_sender.wf()
        &&& self.by_date.wf()
        &&& self.by_category.count_of("delete"@) + self.by_category.count_of("summarize"@)
            + self.by_category.count_of("keep"@) == self.total_emails
        &&& forall|k: Seq<char>| #[trigger] self.by_type.count_of(k) <= self.total_emails
        &&& forall|k: Seq<char>| #[trigger] self.by_sender.count_of(k) <= self.total_emails
        &&& forall|k: Seq<char>| #[trigger] self.by_date.count_of(k) <= self.total_emails
    }
}

/// The classified records of one batch, grouped by category.
#[derive(Clone, Debug)]
pub struct CategoryLists {
    pub delete: Vec<EmailData>,
    pub summarize: Vec<EmailData>,
    pub keep: Vec<EmailData>,
}

/// A compact description of one record in the report.
#[derive(Clone, Debug)]
pub struct EmailSummary {
    pub file: String,
    pub subject: String,
    pub sender: String,
    pub date: String,
    pub score: i128,
    pub email_type: String,
    pub size: u64,
    pub attachments: usize,
}

/// The per-category record summaries of the report.
#[derive(Clone, Debug)]
pub struct CategorySummaries {
    pub delete: Vec<EmailSummary>,
    pub summarize: Vec<EmailSummary>,
    pub keep: Vec<EmailSummary>,
}

/// The report's headline numbers and recommendations.
#[derive(Clone, Debug)]
pub struct SortSummary {
    pub total_emails: usize,
    pub categories: CountMap,
    pub recommendations: Vec<(String, String)>,
}

/// The report's breakdowns: counts by type, the top senders, counts by
/// month.
#[derive(Clone, Debug)]
pub struct SortDetails {
    pub by_type: CountMap,
    pub by_sender: Vec<(String, usize)>,
    pub by_date: CountMap,
}

/// The structured report of one batch.
#[derive(Clone, Debug)]
pub struct SortReport {
    pub summary: SortSummary,
    pub details: SortDetails,
    pub categories: CategorySummaries,
}

/// The sorting engine: the configuration, and the records and statistics
/// accumulated over one batch.
#[derive(Debug)]
pub struct EmailSorter {
    pub base_directory: String,
    pub config: SortConfig,
    pub categories: CategoryLists,
    pub stats: SortStats,
}

impl EmailSorter {
    /// The statistics are well formed, each category list is as long as its
    /// count, and each list holds well-formed records of its own category.
    pub open spec fn wf(self) -> bool {
        &&& self.stats.wf()
        &&& self.categories.delete@.len() == self.stats.by_category.count_of("delete"@)
        &&& self.categories.summarize@.len() == self.stats.by_category.count_of("summarize"@)
        &&& self.categories.keep@.len() == self.stats.by_category.count_of("keep"@)
        &&& forall|i: int|
            0 <= i < self.categories.delete@.len() ==> (#[trigger] self.categories.delete@[i]).wf()
                && self.categories.delete@[i].category == Category::Delete
        &&& forall|i: int|
            0 <= i < self.categories.summarize@.len() ==> (
            #[trigger] self.categories.summarize@[i]).wf()
                && self.categories.summarize@[i].category == Category::Summarize
        &&& forall|i: int|
            0 <= i < self.categories.keep@.len() ==> (#[trigger] self.categories.keep@[i]).wf()
                && self.categories.keep@[i].category == Category::Keep
    }

    /// A fresh sorter over a base directory and configuration, with the
    /// three category counters present at zero.
    pub fn new(base_directory: String, config: SortConfig) -> (r: EmailSorter)
        ensures
            r.wf(),
            r.stats.total_emails == 0,
            forall|k: Seq<char>| r.stats.by_category.count_of(k) == 0,
            forall|k: Seq<char>| r.stats.by_type.count_of(k) == 0,
            forall|k: Seq<char>| r.stats.by_sender.count_of(k) == 0,
            forall|k: Seq<char>| r.stats.by_date.count_of(k) == 0,
            r.categories.delete@.len() == 0,
            r.categories.summarize@.len() == 0,
            r.categories.keep@.len() == 0,
            crate::counts::seq_has_key(r.stats.by_category.entries@, "delete"@),
            crate::counts::seq_has_key(r.stats.by_category.entries@, "summarize"@),
            crate::counts::seq_has_key(r.stats.by_category.entries@, "keep"@),
            r.base_directory == base_directory,
            r.config == config,
    {
        let mut by_category: CountMap = CountMap::new();
        by_category.ensure_key("delete");
        let ghost s1 = by_category.entries@;
        by_category.ensure_key("summarize");
        let ghost s2 = by_category.entries@;
        by_category.ensure_key("keep");
        proof {
            let s3 = by_category.entries@;
            // the earlier keys persist through the later insertions
            let i1 = choose|i: int| 0 <= i < s1.len() && (#[trigger] s1[i]).0@ == "delete"@;
            assert(s2[i1].0@ == "delete"@);
            assert(crate::counts::seq_has_key(s2, "delete"@));
            let i1b = choose|i: int| 0 <= i < s2.len() && (#[trigger] s2[i]).0@ == "delete"@;
            assert(s3[i1b].0@ == "delete"@);
            assert(crate::counts::seq_has_key(s3, "delete"@));
            let i2 = choose|i: int| 0 <= i < s2.len() && (#[trigger] s2[i]).0@ == "summarize"@;
            assert(s3[i2].0@ == "summarize"@);
            assert(crate::counts::seq_has_key(s3, "summarize"@));
        }
        EmailSorter {
            base_directory,
            config,
            categories: CategoryLists { delete: Vec::new(), summarize: Vec::new(), keep: Vec::new() },
            stats: SortStats {
                total_emails: 0,
                by_category,
                by_type: CountMap::new(),
                by_sender: CountMap::new(),
                by_date: CountMap::new(),
            },
        }
    }

    /// A reference to the per-category record lists.
    pub fn categories(&self) -> (r: &CategoryLists)
        ensures
            *r == self.categories,
    {
        &self.categories
    }

    /// A reference to the running statistics.
    pub fn stats(&self) -> (r: &SortStats)
        ensures
            *r == self.stats,
    {
        &self.stats
    }

    /// Analyzes one record's raw content: parses the metadata block and
    /// body, derives the date and age, detects the type, computes the score
    /// and assigns the category. `None` when the content is not a
    /// classifiable record.
    pub fn analyze_email_content(
        &self,
        file_path: &str,
        file_name: &str,
        file_size: u64,
        content: &str,
        now_secs: i64,
    ) -> (r: Option<EmailData>)
        requires
            -20_000_000_000_000 < now_secs < 20_000_000_000_000,
        ensures
            (r is Some) == (spec_ingest(content@) is Some),
            r matches Some(e) ==> {
                let m = spec_ingest(content@)->Some_0;
                &&& e.wf()
                &&& e.file_path@ == file_path@
                &&& e.file_name@ == file_name@
                &&& e.file_size == file_size
                &&& e.subject@ == m.0
                &&& e.sender@ == m.1
                &&& e.date == spec_parse_date(m.2)
                &&& (match e.date {
                    Some(d) => e.age_days matches Some(a) && a == spec_days_between(
                        now_secs as int,
                        d.ts_secs as int,
                    ),
                    None => e.age_days is None,
                })
                &&& e.attachment_count == m.3
                &&& e.has_attachments == (m.3 > 0)
                &&& e.tags.deep_view() == m.4
                &&& e.body_length == m.5.len()
                &&& e.recipients@.len() == 0
                &&& e.email_type == spec_email_type(m.0)
                &&& e.score == spec_score(self.config, e, m.5)
                &&& e.category == spec_category(self.config, e, m.5)
            },
    {
        let chars: Vec<char> = to_chars(content);
        let (a, b): (usize, usize) = trim_bounds(&chars);
        if b - a < 10 {
            return None;
        }
        if !starts_with_str(content, "---") {
            return None;
        }
        let parts: (String, String) = match extract_frontmatter(content) {
            Some(p) => p,
            None => {
                return None;
            },
        };
        let meta: RecordMeta = match parse_metadata(parts.0.as_str()) {
            Some(m) => m,
            None => {
                return None;
            },
        };
        let body: String = parts.1;
        let date: Option<DateParts> = parse_date(meta.date.as_str());
        let age_days: Option<i64> = match date {
            Some(d) => Some(days_between(now_secs, d.ts_secs)),
            None => None,
        };
        let email_type: EmailSortType = determine_email_type(meta.subject.as_str());
        let body_len: usize = body.as_str().unicode_len();
        let mut email: EmailData = EmailData {
            file_path: String::from_str(file_path),
            file_name: String::from_str(file_name),
            file_size,
            body_length: body_len,
            has_attachments: meta.attachments > 0,
            attachment_count: meta.attachments,
            date,
            age_days,
            sender: meta.sender,
            recipients: Vec::new(),
            subject: meta.subject,
            tags: meta.tags,
            email_type,
            score: 0,
            category: Category::Summarize,
        };
        let s: i128 = calculate_score(&self.config, &email, body.as_str());
        email.score = s;
        let c: Category = determine_category(&self.config, &email, body.as_str());
        email.category = c;
        Some(email)
    }

    /// Folds one classified record into the statistics and its category's
    /// list: the total, its category, type and sender counts grow by one,
    /// its month bucket grows by one when it has a date, and nothing else
    /// changes.
    pub fn record(&mut self, email: EmailData)
        requires
            old(self).wf(),
            email.wf(),
            old(self).stats.total_emails < usize::MAX,
        ensures
            final(self).wf(),
            final(self).stats.total_emails == old(self).stats.total_emails + 1,
            final(self).stats.by_category.count_of(spec_cat_label(email.category)) == old(self).stats.by_category.count_of(spec_cat_label(email.category)) + 1,
            forall|k: Seq<char>|
                k != spec_cat_label(email.category) ==> final(self).stats.by_category.count_of(k)
                    == old(self).stats.by_category.count_of(k),
            final(self).stats.by_type.count_of(spec_type_label(email.email_type)) == old(self).stats.by_type.count_of(spec_type_label(email.email_type)) + 1,
            forall|k: Seq<char>|
                k != spec_type_label(email.email_type) ==> final(self).stats.by_type.count_of(k)
                    == old(self).stats.by_type.count_of(k),
            final(self).stats.by_sender.count_of(email.sender@) == old(self).stats.by_sender.count_of(email.sender@) + 1,
            forall|k: Seq<char>|
                k != email.sender@ ==> final(self).stats.by_sender.count_of(k) == old(self).stats.by_sender.count_of(k),
            (match email.date {
                Some(d) => {
                    &&& final(self).stats.by_date.count_of(
                        spec_month_key(d.year as int, d.month as int),
                    ) == old(self).stats.by_date.count_of(
                        spec_month_key(d.year as int, d.month as int),
                    ) + 1
                    &&& forall|k: Seq<char>|
                        k != spec_month_key(d.year as int, d.month as int) ==> final(self).stats.by_date.count_of(k) == old(self).stats.by_date.count_of(k)
                },
                None => (forall|k: Seq<char>|
                    final(self).stats.by_date.count_of(k) == old(self).stats.by_date.count_of(k)),
            }),
            (match email.category {
                Category::Delete => final(self).categories.delete@ == old(self).categories.delete@.push(email) && final(self).categories.summarize@ == old(self).categories.summarize@ && final(self).categories.keep@ == old(self).categories.keep@,
                Category::Summarize => final(self).categories.summarize@ == old(self).categories.summarize@.push(email) && final(self).categories.delete@ == old(self).categories.delete@ && final(self).categories.keep@ == old(self).categories.keep@,
                Category::Keep => final(self).categories.keep@ == old(self).categories.keep@.push(email) && final(self).categories.delete@ == old(self).categories.delete@ && final(self).categories.summarize@ == old(self).categories.summarize@,
            }),
            final(self).config == old(self).config,
            final(self).base_directory == old(self).base_directory,
    {
        proof {
            reveal_strlit("delete");
            reveal_strlit("summarize");
            reveal_strlit("keep");
            assert("delete"@.len() == 6 && "summarize"@.len() == 9 && "keep"@.len() == 4);
        }
        self.stats.total_emails += 1;
        let ckey: String = email.category.label();
        proof {
            let cl = spec_cat_label(email.category);
            assert(old(self).stats.by_category.count_of(cl) <= old(self).stats.total_emails);
        }
        self.stats.by_category.bump(ckey.as_str());
        let tkey: String = email.email_type.label();
        self.stats.by_type.bump(tkey.as_str());
        self.stats.by_sender.bump(email.sender.as_str());
        match email.date {
            Some(d) => {
                let mk: String = month_key(&d);
                self.stats.by_date.bump(mk.as_str());
            },
            None => {},
        }
        match email.category {
            Category::Delete => self.categories.delete.push(email),
            Category::Summarize => self.categories.summarize.push(email),
            Category::Keep => self.categories.keep.push(email),
        }
    }
}

/// The percentage of `count` out of `total` in tenths of a percent,
/// rounded to the nearest tenth with half rounding up.
pub open spec fn spec_pct10(count: nat, total: nat) -> nat
    recommends
        total > 0,
{
    (2000 * count + total) / (2 * total)
}

/// The text of a rounded percentage: the integer part, a dot, the tenths
/// digit, and the given suffix.
pub open spec fn spec_pct_string(p: nat, suffix: Seq<char>) -> Seq<char> {
    spec_dec(p / 10) + seq!['.'] + spec_dec(p % 10) + suffix
}

/// The percentage of `count` out of `total`, in tenths of a percent.
fn pct_tenths(count: usize, total: usize) -> (r: u64)
    requires
        0 < total,
        count <= total,
    ensures
        r == spec_pct10(count as nat, total as nat),
        r <= 1000,
{
    let num: u128 = 2000u128 * (count as u128) + (total as u128);
    let den: u128 = 2u128 * (total as u128);
    let q: u128 = num / den;
    proof {
        let t = total as int;
        let n = num as int;
        assert(n <= 2001 * t) by (nonlinear_arith)
            requires
                n == 2000 * (count as int) + t,
                count as int <= t,
        ;
        vstd::arithmetic::div_mod::lemma_fundamental_div_mod(n, 2 * t);
        assert((q as int) < 1001) by (nonlinear_arith)
            requires
                n == (2 * t) * (q as int) + n % (2 * t),
                0 <= n % (2 * t),
                n <= 2001 * t,
                t > 0,
        ;
    }
    q as u64
}

/// Renders a tenths-of-a-percent value with one decimal place and the
/// given suffix.
fn pct_string(p: u64, suffix: &str) -> (r: String)
    ensures
        r@ == spec_pct_string(p as nat, suffix@),
{
    let mut out: String = dec_u64(p / 10);
    out.append(".");
    let frac: String = dec_u64(p % 10);
    out.append(frac.as_str());
    out.append(suffix);
    proof {
        reveal_strlit(".");
        assert(".".view() =~= seq!['.']);
        assert(out@ =~= spec_pct_string(p as nat, suffix@));
    }
    out
}

/// How a report line summarizes one record: the relative path, the
/// subject and sender, the day-formatted date (or `Unknown`), the score,
/// the type label, the file size and the attachment count.
pub open spec fn spec_summary_of(base: Seq<char>, e: EmailData, s: EmailSummary) -> bool {
    &&& s.file@ == spec_relative_path(base, e.file_path@)
    &&& s.subject@ == e.subject@
    &&& s.sender@ == e.sender@
    &&& (match e.date {
        Some(d) => s.date@ == spec_day_key(d.year as int, d.month as int, d.day as int),
        None => s.date@ == "Unknown"@,
    })
    &&& s.score == e.score
    &&& s.email_type@ == spec_type_label(e.email_type)
    &&& s.size == e.file_size
    &&& s.attachments == e.attachment_count
}

/// Builds the report lines for one category's records.
fn summaries_for(base: &str, list: &Vec<EmailData>) -> (r: Vec<EmailSummary>)
    requires
        forall|i: int| 0 <= i < list@.len() ==> (#[trigger] list@[i]).wf(),
    ensures
        r@.len() == list@.len(),
        forall|i: int|
            0 <= i < list@.len() ==> spec_summary_of(base@, list@[i], #[trigger] r@[i]),
{
    let n: usize = list.len();
    let mut out: Vec<EmailSummary> = Vec::new();
    let mut i: usize = 0;
    while i < n
        invariant
            i <= n == list@.len(),
            out@.len() == i,
            forall|i2: int| 0 <= i2 < n ==> (#[trigger] list@[i2]).wf(),
            forall|i2: int|
                0 <= i2 < i ==> spec_summary_of(base@, list@[i2], #[trigger] out@[i2]),
        decreases n - i,
    {
        let date_str: String = match &list[i].date {
            Some(d) => day_key(d),
            None => String::from_str("Unknown"),
        };
        let s: EmailSummary = EmailSummary {
            file: get_relative_path(base, list[i].file_path.as_str()),
            subject: list[i].subject.clone(),
            sender: list[i].sender.clone(),
            date: date_str,
            score: list[i].score,
            email_type: list[i].email_type.label(),
            size: list[i].file_size,
            attachments: list[i].attachment_count,
        };
        proof {
            assert(spec_summary_of(base@, list@[i as int], s));
        }
        out.push(s);
        i += 1;
    }
    out
}

impl EmailSorter {
    /// Builds the report: the totals and per-category counts, a
    /// recommendation line per category when any record was seen, the
    /// breakdowns by type and month, the top ten senders in descending
    /// count order, and the per-category record summaries.
    pub fn generate_report(&self) -> (r: SortReport)
        requires
            self.wf(),
        ensures
            r.summary.total_emails == self.stats.total_emails,
            r.summary.categories.entries@ == self.stats.by_category.entries@,
            self.stats.total_emails == 0 ==> r.summary.recommendations@.len() == 0,
            self.stats.total_emails > 0 ==> {
                let t = self.stats.total_emails as nat;
                &&& r.summary.recommendations@.len() == 3
                &&& r.summary.recommendations@[0].0@ == "delete"@
                &&& r.summary.recommendations@[0].1@ == spec_pct_string(
                    spec_pct10(self.stats.by_category.count_of("delete"@), t),
                    "% of emails can be deleted"@,
                )
                &&& r.summary.recommendations@[1].0@ == "summarize"@
                &&& r.summary.recommendations@[1].1@ == spec_pct_string(
                    spec_pct10(self.stats.by_category.count_of("summarize"@), t),
                    "% of emails can be summarized"@,
                )
                &&& r.summary.recommendations@[2].0@ == "keep"@
                &&& r.summary.recommendations@[2].1@ == spec_pct_string(
                    spec_pct10(self.stats.by_category.count_of("keep"@), t),
                    "% of emails should be kept in full"@,
                )
            },
            r.details.by_type.entries@ == self.stats.by_type.entries@,
            r.details.by_date.entries@ == self.stats.by_date.entries@,
            r.details.by_sender@.len() <= 10,
            vstd::relations::sorted_by(r.details.by_sender@, pair_order()),
            exists|t: Seq<(String, usize)>|
                {
                    &&& t.to_multiset() == self.stats.by_sender.entries@.to_multiset()
                    &&& #[trigger] vstd::relations::sorted_by(t, pair_order())
                    &&& r.details.by_sender@ == (if t.len() <= 10 {
                        t
                    } else {
                        t.subrange(0, 10)
                    })
                },
            r.categories.delete@.len() == self.categories.delete@.len(),
            r.categories.summarize@.len() == self.categories.summarize@.len(),
            r.categories.keep@.len() == self.categories.keep@.len(),
            forall|i: int|
                0 <= i < self.categories.delete@.len() ==> spec_summary_of(
                    self.base_directory@,
                    self.categories.delete@[i],
                    #[trigger] r.categories.delete@[i],
                ),
            forall|i: int|
                0 <= i < self.categories.summarize@.len() ==> spec_summary_of(
                    self.base_directory@,
                    self.categories.summarize@[i],
                    #[trigger] r.categories.summarize@[i],
                ),
            forall|i: int|
                0 <= i < self.categories.keep@.len() ==> spec_summary_of(
                    self.base_directory@,
                    self.categories.keep@[i],
                    #[trigger] r.categories.keep@[i],
                ),
    {
        let total: usize = self.stats.total_emails;
        let mut recommendations: Vec<(String, String)> = Vec::new();
        if total > 0 {
            let dc: usize = self.stats.by_category.get("delete");
            let sc: usize = self.stats.by_category.get("summarize");
            let kc: usize = self.stats.by_category.get("keep");
            proof {
                assert(dc <= total && sc <= total && kc <= total);
            }
            let dp: u64 = pct_tenths(dc, total);
            let sp: u64 = pct_tenths(sc, total);
            let kp: u64 = pct_tenths(kc, total);
            recommendations.push(
                (String::from_str("delete"), pct_string(dp, "% of emails can be deleted")),
            );
            recommendations.push(
                (String::from_str("summarize"), pct_string(sp, "% of emails can be summarized")),
            );
            recommendations.push(
                (String::from_str("keep"), pct_string(kp, "% of emails should be kept in full")),
            );
        }
        let top: Vec<(String, usize)> = crate::counts::top_senders(&self.stats.by_sender);
        SortReport {
            summary: SortSummary {
                total_emails: total,
                categories: self.stats.by_category.clone(),
                recommendations,
            },
            details: SortDetails {
                by_type: self.stats.by_type.clone(),
                by_sender: top,
                by_date: self.stats.by_date.clone(),
            },
            categories: CategorySummaries {
                delete: summaries_for(self.base_directory.as_str(), &self.categories.delete),
                summarize: summaries_for(self.base_directory.as_str(), &self.categories.summarize),
                keep: summaries_for(self.base_directory.as_str(), &self.categories.keep),
            },
        }
    }
}

/// Law: a sender that matches a whitelist pattern is kept, regardless of
/// the score and of every other indicator.
pub proof fn lemma_whitelist_forces_keep(cfg: SortConfig, email: EmailData, body: Seq<char>)
    requires
        spec_whitelisted(cfg.whitelist.deep_view(), email.sender@),
    ensures
        spec_category(cfg, email, body) == Category::Keep,
{
}

/// Law: a record whose subject contains a configured keep keyword is kept,
/// even when delete indicators also match.
pub proof fn lemma_keep_keyword_wins(cfg: SortConfig, email: EmailData, body: Seq<char>)
    requires
        spec_any_match(cfg.keep_keywords.deep_view(), lower_of(email.subject@)),
    ensures
        spec_category(cfg, email, body) == Category::Keep,
{
}

/// Law: a record whose sender matches the delete-senders list, matches no
/// keep indicator and no whitelist pattern, and scores at most -2, is
/// deleted.
pub proof fn lemma_delete_sender_low_score_deletes(
    cfg: SortConfig,
    email: EmailData,
    body: Seq<char>,
)
    requires
        spec_any_match(cfg.delete_senders.deep_view(), lower_of(email.sender@)),
        !spec_keep_indicators(cfg, email, body),
        !spec_whitelisted(cfg.whitelist.deep_view(), email.sender@),
        email.score <= -2,
    ensures
        spec_category(cfg, email, body) == Category::Delete,
{
}

/// Law: classification is deterministic. Two records that agree on every
/// field the engine reads receive the same score and category under the
/// same configuration and body.
pub proof fn lemma_classification_deterministic(
    cfg: SortConfig,
    a: EmailData,
    b: EmailData,
    body: Seq<char>,
)
    requires
        a.subject@ == b.subject@,
        a.sender@ == b.sender@,
        a.email_type == b.email_type,
        a.age_days == b.age_days,
        a.body_length == b.body_length,
        a.has_attachments == b.has_attachments,
        a.score == b.score,
    ensures
        spec_score(cfg, a, body) == spec_score(cfg, b, body),
        spec_category(cfg, a, body) == spec_category(cfg, b, body),
{
}

/// Law: with at least one record, the three per-category percentages of
/// the report (in tenths of a percent) sum to 100% within rounding
/// tolerance: between 99.9% and 100.1%.
pub proof fn lemma_percentages_sum(d: nat, s: nat, k: nat, t: nat)
    requires
        t > 0,
        d + s + k == t,
    ensures
        999 <= spec_pct10(d, t) + spec_pct10(s, t) + spec_pct10(k, t) <= 1001,
{
    let qd = spec_pct10(d, t) as int;
    let qs = spec_pct10(s, t) as int;
    let qk = spec_pct10(k, t) as int;
    let ti = t as int;
    let nd = 2000 * (d as int) + ti;
    let ns = 2000 * (s as int) + ti;
    let nk = 2000 * (k as int) + ti;
    vstd::arithmetic::div_mod::lemma_fundamental_div_mod(nd, 2 * ti);
    vstd::arithmetic::div_mod::lemma_fundamental_div_mod(ns, 2 * ti);
    vstd::arithmetic::div_mod::lemma_fundamental_div_mod(nk, 2 * ti);
    let rd = nd % (2 * ti);
    let rs = ns % (2 * ti);
    let rk = nk % (2 * ti);
    assert(nd + ns + nk == 2003 * ti);
    assert(2003 * ti == (2 * ti) * (qd + qs + qk) + (rd + rs + rk)) by (nonlinear_arith)
        requires
            nd == (2 * ti) * qd + rd,
            ns == (2 * ti) * qs + rs,
            nk == (2 * ti) * qk + rk,
            nd + ns + nk == 2003 * ti,
    ;
    assert(0 <= rd + rs + rk < 6 * ti);
    assert(999 <= qd + qs + qk <= 1001) by (nonlinear_arith)
        requires
            2003 * ti == (2 * ti) * (qd + qs + qk) + (rd + rs + rk),
            0 <= rd + rs + rk < 6 * ti,
            ti > 0,
    ;
}

/// Whether a path names a candidate record for a batch scan: it must end
/// in the record extension and no path segment may name the attachments
/// folder.
pub fn is_candidate_path(path: &str) -> (r: bool)
    ensures
        r == (is_suffix(path@, ".md"@) && !is_substring(path@, "attachments"@)),
{
    crate::text::ends_with_str(path, ".md") && !contains_sub(path, "attachments")
}

/// One `   key: count` line of the console summary.
pub open spec fn spec_entry_line(e: (String, usize)) -> Seq<char> {
    "   "@ + e.0@ + ": "@ + spec_dec(e.1 as nat) + seq!['\n']
}

/// The `   key: count` lines of a count list, in order.
pub open spec fn spec_entry_lines(entries: Seq<(String, usize)>) -> Seq<char>
    decreases entries.len(),
{
    if entries.len() == 0 {
        Seq::empty()
    } else {
        spec_entry_line(entries[0]) + spec_entry_lines(entries.drop_first())
    }
}

proof fn lemma_entry_lines_push(entries: Seq<(String, usize)>, e: (String, usize))
    ensures
        spec_entry_lines(entries.push(e)) == spec_entry_lines(entries) + spec_entry_line(e),
    decreases entries.len(),
{
    let p = entries.push(e);
    if entries.len() == 0 {
        assert(p[0] == e);
        assert(p.drop_first() =~= Seq::<(String, usize)>::empty());
        assert(spec_entry_lines(Seq::<(String, usize)>::empty()) =~= Seq::<char>::empty());
        assert(spec_entry_lines(p) =~= spec_entry_lines(entries) + spec_entry_line(e));
    } else {
        assert(p[0] == entries[0]);
        assert(p.drop_first() =~= entries.drop_first().push(e));
        lemma_entry_lines_push(entries.drop_first(), e);
        assert(spec_entry_lines(p) =~= spec_entry_lines(entries) + spec_entry_line(e));
    }
}

/// Appends the `   key: count` lines for `entries[0..upto]`.
fn append_entry_lines(out: &mut String, entries: &Vec<(String, usize)>, upto: usize)
    requires
        upto <= entries@.len(),
    ensures
        final(out)@ == old(out)@ + spec_entry_lines(entries@.subrange(0, upto as int)),
{
    let mut i: usize = 0;
    proof {
        assert(entries@.subrange(0, 0) =~= Seq::<(String, usize)>::empty());
        assert(out@ =~= old(out)@ + spec_entry_lines(entries@.subrange(0, 0)));
    }
    while i < upto
        invariant
            i <= upto <= entries@.len(),
            out@ == old(out)@ + spec_entry_lines(entries@.subrange(0, i as int)),
        decreases upto - i,
    {
        out.append("   ");
        out.append(entries[i].0.as_str());
        out.append(": ");
        let c: String = dec_u64(entries[i].1 as u64);
        out.append(c.as_str());
        out.append("\n");
        proof {
            reveal_strlit("\n");
            assert("\n"@ =~= seq!['\n']);
            assert(entries@.subrange(0, i + 1) =~= entries@.subrange(0, i as int).push(
                entries@[i as int],
            ));
            lemma_entry_lines_push(entries@.subrange(0, i as int), entries@[i as int]);
            assert(out@ =~= old(out)@ + spec_entry_lines(entries@.subrange(0, i + 1)));
        }
        i += 1;
    }
}

/// One `key: count` headline of the console summary.
pub open spec fn spec_headline(label: Seq<char>, n: nat) -> Seq<char> {
    label + spec_dec(n) + seq!['\n']
}

/// The whole console summary, assembled from the totals, the three
/// category counts, the percentage block (present only when anything was
/// counted), the type breakdown and the top senders.
pub open spec fn spec_summary_text(
    total: nat,
    d: nat,
    s: nat,
    k: nat,
    types_sorted: Seq<(String, usize)>,
    top: Seq<(String, usize)>,
) -> Seq<char> {
    let rule = "==================================================\n"@;
    let pct_block = if total > 0 {
        "\nPercentages:\n"@ + "   Delete: "@ + spec_pct_string(spec_pct10(d, total), "%\n"@)
            + "   Summarize: "@ + spec_pct_string(spec_pct10(s, total), "%\n"@) + "   Keep: "@
            + spec_pct_string(spec_pct10(k, total), "%\n"@)
    } else {
        Seq::empty()
    };
    seq!['\n'] + rule + "EMAIL SORTING SUMMARY\n"@ + rule + spec_headline(
        "Total emails analyzed: "@,
        total,
    ) + spec_headline("To delete: "@, d) + spec_headline("To summarize: "@, s) + spec_headline(
        "To keep: "@,
        k,
    ) + pct_block + "\nEmail types found:\n"@ + spec_entry_lines(types_sorted)
        + "\nTop senders:\n"@ + spec_entry_lines(top) + rule
}

impl EmailSorter {
    /// The plain-text console summary: totals, the three category counts,
    /// their percentages when any record was counted, the type breakdown
    /// sorted by descending count, and the top five senders.
    #[verifier::rlimit(100)]
    #[verifier::spinoff_prover]
    pub fn summary_text(&self) -> (r: String)
        requires
            self.wf(),
        ensures
            exists|ts: Seq<(String, usize)>, ss: Seq<(String, usize)>|
                {
                    &&& ts.to_multiset() == self.stats.by_type.entries@.to_multiset()
                    &&& #[trigger] vstd::relations::sorted_by(ts, pair_order())
                    &&& ss.to_multiset() == self.stats.by_sender.entries@.to_multiset()
                    &&& #[trigger] vstd::relations::sorted_by(ss, pair_order())
                    &&& r@ == spec_summary_text(
                        self.stats.total_emails as nat,
                        self.stats.by_category.count_of("delete"@),
                        self.stats.by_category.count_of("summarize"@),
                        self.stats.by_category.count_of("keep"@),
                        ts,
                        (if ss.len() <= 5 {
                            ss
                        } else {
                            ss.subrange(0, 5)
                        }),
                    )
                },
    {
        let total: usize = self.stats.total_emails;
        let d: usize = self.stats.by_category.get("delete");
        let s: usize = self.stats.by_category.get("summarize");
        let k: usize = self.stats.by_category.get("keep");

        let mut out: String = String::new();
        out.append("\n");
        out.append("==================================================\n");
        out.append("EMAIL SORTING SUMMARY\n");
        out.append("==================================================\n");
        out.append("Total emails analyzed: ");
        let tdec: String = dec_u64(total as u64);
        out.append(tdec.as_str());
        out.append("\n");
        out.append("To delete: ");
        let ddec: String = dec_u64(d as u64);
        out.append(ddec.as_str());
        out.append("\n");
        out.append("To summarize: ");
        let sdec: String = dec_u64(s as u64);
        out.append(sdec.as_str());
        out.append("\n");
        out.append("To keep: ");
        let kdec: String = dec_u64(k as u64);
        out.append(kdec.as_str());
        out.append("\n");

        if total > 0 {
            proof {
                assert(d <= total && s <= total && k <= total);
            }
            out.append("\nPercentages:\n");
            out.append("   Delete: ");
            let dp: String = pct_string(pct_tenths(d, total), "%\n");
            out.append(dp.as_str());
            out.append("   Summarize: ");
            let sp: String = pct_string(pct_tenths(s, total), "%\n");
            out.append(sp.as_str());
            out.append("   Keep: ");
            let kp: String = pct_string(pct_tenths(k, total), "%\n");
            out.append(kp.as_str());
        }

        out.append("\nEmail types found:\n");
        let types_sorted: Vec<(String, usize)> = sort_pairs_desc(&self.stats.by_type.entries);
        append_entry_lines(&mut out, &types_sorted, types_sorted.len());
        proof {
            assert(types_sorted@.subrange(0, types_sorted@.len() as int) =~= types_sorted@);
        }

        out.append("\nTop senders:\n");
        let senders_sorted: Vec<(String, usize)> = sort_pairs_desc(&self.stats.by_sender.entries);
        let limit: usize = if senders_sorted.len() < 5 {
            senders_sorted.len()
        } else {
            5
        };
        append_entry_lines(&mut out, &senders_sorted, limit);

        out.append("==================================================\n");

        proof {
            reveal_strlit("\n");
            assert("\n"@ =~= seq!['\n']);
            let ts = types_sorted@;
            let ss = senders_sorted@;
            let shown = if ss.len() <= 5 {
                ss
            } else {
                ss.subrange(0, 5)
            };
            if ss.len() <= 5 {
                assert(ss.subrange(0, limit as int) =~= shown);
            } else {
                assert(ss.subrange(0, limit as int) =~= shown);
            }
            assert(out@ =~= spec_summary_text(
                total as nat,
                d as nat,
                s as nat,
                k as nat,
                ts,
                shown,
            ));
        }
        out
    }
}

} // verus!

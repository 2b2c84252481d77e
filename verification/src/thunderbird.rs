//! Reading mail-client profile data: profile descriptions, account
//! extraction from preference text, and the defaults applied to imported
//! accounts. Paths are modelled as strings; finding and reading the files
//! happens outside the library.

use vstd::prelude::*;

use crate::text::is_substring;
use crate::text::lower_of;
use crate::text::upper_of;
use crate::text::contains_sub;
use crate::text::from_chars;
use crate::text::lowercase;
use crate::text::to_chars;

verus! {

/// One discovered mail profile.
#[derive(Debug, Clone)]
pub struct ThunderbirdProfile {
    pub name: String,
    pub path: String,
    pub is_default: bool,
}

/// An account name reduced to filesystem-safe characters: everything but
/// ASCII letters, digits, underscore and hyphen becomes an underscore.
pub open spec fn spec_sanitize_name(s: Seq<char>) -> Seq<char> {
    s.map_values(
        |c: char|
            if (97 <= c as u32 <= 122) || (65 <= c as u32 <= 90) || (48 <= c as u32 <= 57) || c
                == '_' || c == '-' {
                c
            } else {
                '_'
            },
    )
}

/// Reduces an account name to filesystem-safe characters.
pub fn sanitize_name(name: &str) -> (r: String)
    ensures
        r@ == spec_sanitize_name(name@),
{
    let v: Vec<char> = to_chars(name);
    let n: usize = v.len();
    let mut out: Vec<char> = Vec::new();
    let mut i: usize = 0;
    while i < n
        invariant
            i <= n == name@.len(),
            v@ == name@,
            out@.len() == i,
            forall|j: int| 0 <= j < i ==> out@[j] == spec_sanitize_name(name@)[j],
        decreases n - i,
    {
        let c: char = v[i];
        let u: u32 = c as u32;
        if (97 <= u && u <= 122) || (65 <= u && u <= 90) || (48 <= u && u <= 57) || c == '_' || c
            == '-' {
            out.push(c);
        } else {
            out.push('_');
        }
        i += 1;
    }
    proof {
        assert(out@ =~= spec_sanitize_name(name@));
    }
    from_chars(&out)
}

/// The folders ignored by default for an account: the provider-specific
/// spam, trash and draft folders guessed from the account name.
pub open spec fn spec_default_ignored(name_lower: Seq<char>) -> Seq<Seq<char>> {
    if is_substring(name_lower, "gmail"@) {
        seq!["[Gmail]/Spam"@, "[Gmail]/Trash"@, "[Gmail]/All Mail"@, "[Gmail]/Drafts"@]
    } else if is_substring(name_lower, "outlook"@) || is_substring(name_lower, "hotmail"@) {
        seq!["Junk"@, "Deleted Items"@, "Drafts"@]
    } else {
        seq!["Spam"@, "Trash"@, "Junk"@, "Drafts"@]
    }
}

/// The folders ignored by default for an account with this name.
pub fn default_ignored_folders(name: &str) -> (r: Vec<String>)
    ensures
        r.deep_view() =~= spec_default_ignored(lower_of(name@)),
{
    let nl: String = lowercase(name);
    let mut v: Vec<String> = Vec::new();
    if contains_sub(nl.as_str(), "gmail") {
        v.push(String::from_str("[Gmail]/Spam"));
        v.push(String::from_str("[Gmail]/Trash"));
        v.push(String::from_str("[Gmail]/All Mail"));
        v.push(String::from_str("[Gmail]/Drafts"));
    } else if contains_sub(nl.as_str(), "outlook") || contains_sub(nl.as_str(), "hotmail") {
        v.push(String::from_str("Junk"));
        v.push(String::from_str("Deleted Items"));
        v.push(String::from_str("Drafts"));
    } else {
        v.push(String::from_str("Spam"));
        v.push(String::from_str("Trash"));
        v.push(String::from_str("Junk"));
        v.push(String::from_str("Drafts"));
    }
    v
}

/// The value of the last entry carrying `key`, as repeated assignments
/// overwrite earlier ones.
pub open spec fn assoc_get_last(m: Seq<(Seq<char>, Seq<char>)>, key: Seq<char>) -> Option<
    Seq<char>,
>
    decreases m.len(),
{
    if m.len() == 0 {
        None
    } else {
        match assoc_get_last(m.drop_first(), key) {
            Some(v) => Some(v),
            None => if m[0].0 == key {
                Some(m[0].1)
            } else {
                None
            },
        }
    }
}

proof fn lemma_get_last_hit(m: Seq<(Seq<char>, Seq<char>)>, key: Seq<char>)
    requires
        m.len() > 0,
        m[m.len() - 1].0 == key,
    ensures
        assoc_get_last(m, key) == Some(m[m.len() - 1].1),
    decreases m.len(),
{
    if m.len() == 1 {
        assert(m.drop_first() =~= Seq::<(Seq<char>, Seq<char>)>::empty());
    } else {
        let t = m.drop_first();
        assert(t[t.len() - 1] == m[m.len() - 1]);
        lemma_get_last_hit(t, key);
    }
}

proof fn lemma_get_last_prefix(m: Seq<(Seq<char>, Seq<char>)>, i: int, key: Seq<char>)
    requires
        0 <= i <= m.len(),
        forall|k: int| i <= k < m.len() ==> (#[trigger] m[k]).0 != key,
    ensures
        assoc_get_last(m, key) == assoc_get_last(m.take(i), key),
    decreases m.len(),
{
    if i == m.len() {
        assert(m.take(i) =~= m);
    } else if m.len() == 0 {
        assert(m.take(i) =~= m);
    } else if i == 0 {
        // no entry matches at all
        let t = m.drop_first();
        assert(forall|k: int| 0 <= k < t.len() ==> (#[trigger] t[k]).0 != key);
        lemma_get_last_prefix(t, 0, key);
        assert(t.take(0) =~= Seq::<(Seq<char>, Seq<char>)>::empty());
        assert(m[0].0 != key);
        assert(m.take(0) =~= Seq::<(Seq<char>, Seq<char>)>::empty());
    } else {
        let t = m.drop_first();
        assert(forall|k: int| i - 1 <= k < t.len() ==> (#[trigger] t[k]).0 != key);
        lemma_get_last_prefix(t, i - 1, key);
        assert(m.take(i).drop_first() =~= t.take(i - 1));
        assert(m.take(i)[0] == m[0]);
        assert(m.take(i).len() == i);
    }
}

/// The value of the last entry carrying `key` in an assignment list.
fn lookup_last<'a>(map: &'a Vec<(String, String)>, key: &str) -> (r: Option<&'a String>)
    ensures
        match r {
            Some(v) => assoc_get_last(map.deep_view(), key@) == Some(v@),
            None => assoc_get_last(map.deep_view(), key@) is None,
        },
{
    let n: usize = map.len();
    let mut i: usize = n;
    proof {
        assert(map.deep_view().len() == n);
        assert(map.deep_view().take(n as int) =~= map.deep_view());
    }
    while i > 0
        invariant
            i <= n == map@.len(),
            map.deep_view().len() == n,
            forall|k: int| i <= k < n ==> (#[trigger] map.deep_view()[k]).0 != key@,
            assoc_get_last(map.deep_view(), key@) == assoc_get_last(
                map.deep_view().take(i as int),
                key@,
            ),
        decreases i,
    {
        proof {
            assert(map.deep_view()[i - 1] == (map@[i - 1].0@, map@[i - 1].1@));
        }
        if crate::text::str_eq(map[i - 1].0.as_str(), key) {
            proof {
                let t = map.deep_view().take(i as int);
                assert(t[t.len() - 1] == map.deep_view()[i - 1]);
                lemma_get_last_hit(t, key@);
            }
            return Some(&map[i - 1].1);
        }
        proof {
            lemma_get_last_prefix(map.deep_view().take(i as int), i - 1, key@);
            assert(map.deep_view().take(i as int).take(i - 1) =~= map.deep_view().take(i - 1));
        }
        i -= 1;
    }
    proof {
        assert(map.deep_view().take(0) =~= Seq::<(Seq<char>, Seq<char>)>::empty());
    }
    None
}

/// The profile a section's assignments describe: its name and path must be
/// present, a relative path is joined onto the base directory, and the
/// default flag comes from the `default` assignment.
pub open spec fn spec_build_profile(m: Seq<(Seq<char>, Seq<char>)>, base: Seq<char>) -> Option<
    (Seq<char>, Seq<char>, bool),
> {
    match assoc_get_last(m, "name"@) {
        None => None,
        Some(name) => match assoc_get_last(m, "path"@) {
            None => None,
            Some(pathv) => {
                let is_rel = match assoc_get_last(m, "isrelative"@) {
                    Some(v) => v == "1"@,
                    None => true,
                };
                let is_def = match assoc_get_last(m, "default"@) {
                    Some(v) => v == "1"@,
                    None => false,
                };
                let path = if is_rel {
                    crate::config::spec_path_join(base, pathv)
                } else {
                    pathv
                };
                Some((name, path, is_def))
            },
        },
    }
}

/// Builds a profile from one section's assignments, or nothing when the
/// name or path is missing.
pub fn build_profile_from_map(map: &Vec<(String, String)>, base_dir: &str) -> (r: Option<
    ThunderbirdProfile,
>)
    ensures
        match r {
            Some(p) => spec_build_profile(map.deep_view(), base_dir@) == Some(
                (p.name@, p.path@, p.is_default),
            ),
            None => spec_build_profile(map.deep_view(), base_dir@) is None,
        },
{
    let name: String = match lookup_last(map, "name") {
        Some(v) => v.clone(),
        None => {
            return None;
        },
    };
    let path_str: String = match lookup_last(map, "path") {
        Some(v) => v.clone(),
        None => {
            return None;
        },
    };
    let is_relative: bool = match lookup_last(map, "isrelative") {
        Some(v) => crate::text::str_eq(v.as_str(), "1"),
        None => true,
    };
    let is_default: bool = match lookup_last(map, "default") {
        Some(v) => crate::text::str_eq(v.as_str(), "1"),
        None => false,
    };
    let path: String = if is_relative {
        crate::config::path_join(base_dir, path_str.as_str())
    } else {
        path_str
    };
    Some(ThunderbirdProfile { name, path, is_default })
}

/// Index of the first `=`, or -1 when there is none.
pub open spec fn first_eq(s: Seq<char>) -> int
    decreases s.len(),
{
    if s.len() == 0 {
        -1
    } else if s[0] == '=' {
        0
    } else if first_eq(s.drop_first()) < 0 {
        -1
    } else {
        1 + first_eq(s.drop_first())
    }
}

proof fn lemma_first_eq_at(s: Seq<char>, k: int)
    requires
        0 <= k < s.len(),
        s[k] == '=',
        forall|j: int| 0 <= j < k ==> s[j] != '=',
    ensures
        first_eq(s) == k,
    decreases k,
{
    if k > 0 {
        let t = s.drop_first();
        assert(forall|j: int| 0 <= j < k - 1 ==> #[trigger] t[j] != '=');
        lemma_first_eq_at(t, k - 1);
    }
}

proof fn lemma_first_eq_none(s: Seq<char>)
    requires
        forall|j: int| 0 <= j < s.len() ==> s[j] != '=',
    ensures
        first_eq(s) < 0,
    decreases s.len(),
{
    if s.len() > 0 {
        let t = s.drop_first();
        assert(forall|j: int| 0 <= j < t.len() ==> #[trigger] t[j] != '=');
        lemma_first_eq_none(t);
    }
}

/// The profile a finished section yields, if any.
pub open spec fn spec_flush(cur: Option<Seq<(Seq<char>, Seq<char>)>>, base: Seq<char>) -> Seq<
    (Seq<char>, Seq<char>, bool),
> {
    match cur {
        None => Seq::empty(),
        Some(m) => match spec_build_profile(m, base) {
            None => Seq::empty(),
            Some(p) => seq![p],
        },
    }
}

/// The profiles described from line `i` on, given the assignments of the
/// currently open profile section: a bracketed header closes the open
/// section (only a `[profile...]` header opens a new one), `key=value`
/// lines extend the open section, and everything else is ignored.
pub open spec fn spec_profiles_from(
    ls: Seq<Seq<char>>,
    i: int,
    cur: Option<Seq<(Seq<char>, Seq<char>)>>,
    base: Seq<char>,
) -> Seq<(Seq<char>, Seq<char>, bool)>
    decreases ls.len() - i,
{
    if !(0 <= i < ls.len()) {
        spec_flush(cur, base)
    } else {
        let line = crate::text::spec_trim(ls[i]);
        if line.len() >= 1 && line[0] == '[' && line[line.len() - 1] == ']' {
            let newcur: Option<Seq<(Seq<char>, Seq<char>)>> = if crate::text::is_prefix(
                lower_of(line),
                "[profile"@,
            ) {
                Some(Seq::empty())
            } else {
                None
            };
            spec_flush(cur, base) + spec_profiles_from(ls, i + 1, newcur, base)
        } else {
            match cur {
                None => spec_profiles_from(ls, i + 1, None, base),
                Some(m) => {
                    let e = first_eq(line);
                    if 0 <= e < line.len() {
                        spec_profiles_from(
                            ls,
                            i + 1,
                            Some(
                                m.push(
                                    (
                                        lower_of(crate::text::spec_trim(line.take(e))),
                                        crate::text::spec_trim(line.skip(e + 1)),
                                    ),
                                ),
                            ),
                            base,
                        )
                    } else {
                        spec_profiles_from(ls, i + 1, Some(m), base)
                    }
                },
            }
        }
    }
}

/// The view of a built profile list.
pub open spec fn profiles_view(v: Seq<ThunderbirdProfile>) -> Seq<(Seq<char>, Seq<char>, bool)> {
    v.map_values(|p: ThunderbirdProfile| (p.name@, p.path@, p.is_default))
}

/// Parses the profiles file: a `[profile...]` section collects `key=value`
/// assignments (keys trimmed and lowercased, values trimmed) until the
/// next section header, and each finished section with a name and path
/// becomes a profile.
pub fn parse_profiles_ini(content: &str, base_dir: &str) -> (r: Vec<ThunderbirdProfile>)
    ensures
        profiles_view(r@) == spec_profiles_from(
            crate::text::spec_lines(content@),
            0,
            None,
            base_dir@,
        ),
{
    let lines: Vec<String> = crate::text::split_lines(content);
    let n: usize = lines.len();
    let mut out: Vec<ThunderbirdProfile> = Vec::new();
    let mut cur: Option<Vec<(String, String)>> = None;
    let mut i: usize = 0;
    let ghost ldv = lines.deep_view();
    let ghost target = spec_profiles_from(ldv, 0, None, base_dir@);
    proof {
        assert(profiles_view(out@) =~= Seq::<(Seq<char>, Seq<char>, bool)>::empty());
        assert(profiles_view(out@) + spec_profiles_from(ldv, 0, None, base_dir@) =~= target);
    }
    while i < n
        invariant
            i <= n == lines@.len(),
            ldv == lines.deep_view(),
            ldv == crate::text::spec_lines(content@),
            target == spec_profiles_from(ldv, 0, None, base_dir@),
            target == profiles_view(out@) + spec_profiles_from(
                ldv,
                i as int,
                (match cur {
                    None => None,
                    Some(ref m) => Some(m.deep_view()),
                }),
                base_dir@,
            ),
        decreases n - i,
    {
        proof {
            assert(ldv[i as int] == lines@[i as int]@);
        }
        let lt: String = crate::text::trim_str(lines[i].as_str());
        let tv: Vec<char> = to_chars(lt.as_str());
        let tl: usize = tv.len();
        if tl >= 1 && tv[0] == '[' && tv[tl - 1] == ']' {
            // close the open section
            let prev: Option<Vec<(String, String)>> = cur.take();
            match prev {
                Some(map) => {
                    match build_profile_from_map(&map, base_dir) {
                        Some(prof) => {
                            let ghost before = out@;
                            out.push(prof);
                            proof {
                                assert(profiles_view(out@) =~= profiles_view(before).push(
                                    (out@[before.len() as int].name@,
                                    out@[before.len() as int].path@,
                                    out@[before.len() as int].is_default),
                                ));
                            }
                        },
                        None => {},
                    }
                },
                None => {},
            }
            let low: String = lowercase(lt.as_str());
            if crate::text::starts_with_str(low.as_str(), "[profile") {
                cur = Some(Vec::new());
            } else {
                cur = None;
            }
            proof {
                let newcur_spec: Option<Seq<(Seq<char>, Seq<char>)>> = match cur {
                    None => None,
                    Some(ref m) => Some(m.deep_view()),
                };
                if cur is Some {
                    assert(newcur_spec == Some(Seq::<(Seq<char>, Seq<char>)>::empty())) by {
                        match cur {
                            Some(ref m) => {
                                assert(m.deep_view() =~= Seq::<(Seq<char>, Seq<char>)>::empty());
                            },
                            None => {},
                        }
                    }
                }
                assert(target =~= profiles_view(out@) + spec_profiles_from(
                    ldv,
                    i + 1,
                    newcur_spec,
                    base_dir@,
                ));
            }
        } else {
            match cur {
                None => {
                    proof {
                        assert(target =~= profiles_view(out@) + spec_profiles_from(
                            ldv,
                            i + 1,
                            None,
                            base_dir@,
                        ));
                    }
                },
                Some(ref mut map) => {
                    // find the first `=`
                    let mut e: usize = 0;
                    while e < tl && tv[e] != '='
                        invariant
                            e <= tl == lt@.len(),
                            tv@ == lt@,
                            forall|k: int| 0 <= k < e ==> lt@[k] != '=',
                        decreases tl - e,
                    {
                        e += 1;
                    }
                    proof {
                        if e < tl {
                            lemma_first_eq_at(lt@, e as int);
                        } else {
                            lemma_first_eq_none(lt@);
                        }
                    }
                    if e < tl {
                        let key_raw: String = crate::text::range_to_string(&tv, 0, e);
                        let key: String = lowercase(crate::text::trim_str(key_raw.as_str()).as_str());
                        let val_raw: String = crate::text::range_to_string(&tv, e + 1, tl);
                        let val: String = crate::text::trim_str(val_raw.as_str());
                        let ghost before = map.deep_view();
                        map.push((key, val));
                        proof {
                            assert(key_raw@ =~= lt@.take(e as int));
                            assert(val_raw@ =~= lt@.skip(e + 1));
                            assert(map.deep_view() =~= before.push(
                                (lower_of(crate::text::spec_trim(lt@.take(e as int))),
                                crate::text::spec_trim(lt@.skip(e + 1))),
                            ));
                            assert(target =~= profiles_view(out@) + spec_profiles_from(
                                ldv,
                                i + 1,
                                Some(map.deep_view()),
                                base_dir@,
                            ));
                        }
                    } else {
                        proof {
                            assert(target =~= profiles_view(out@) + spec_profiles_from(
                                ldv,
                                i + 1,
                                Some(map.deep_view()),
                                base_dir@,
                            ));
                        }
                    }
                },
            }
        }
        i += 1;
    }
    // close the last open section
    let prev: Option<Vec<(String, String)>> = cur.take();
    match prev {
        Some(map) => {
            match build_profile_from_map(&map, base_dir) {
                Some(prof) => {
                    let ghost before = out@;
                    out.push(prof);
                    proof {
                        assert(profiles_view(out@) =~= profiles_view(before).push(
                            (out@[before.len() as int].name@,
                            out@[before.len() as int].path@,
                            out@[before.len() as int].is_default),
                        ));
                        assert(profiles_view(out@) =~= target);
                    }
                },
                None => {
                    proof {
                        assert(profiles_view(out@) =~= target);
                    }
                },
            }
        },
        None => {
            proof {
                assert(profiles_view(out@) =~= target);
            }
        },
    }
    out
}

/// Whether `c` is an ASCII decimal digit.
pub open spec fn is_digit(c: char) -> bool {
    48 <= c as u32 <= 57
}

/// The value of a digit string read left to right.
pub open spec fn spec_digits_val(s: Seq<char>) -> nat
    decreases s.len(),
{
    if s.len() == 0 {
        0
    } else {
        spec_digits_val(s.take(s.len() - 1)) * 10 + (if is_digit(s[s.len() - 1]) {
            (s[s.len() - 1] as u32 - 48) as nat
        } else {
            0
        })
    }
}

proof fn lemma_digits_val_monotone(s: Seq<char>, i: int)
    requires
        0 <= i <= s.len(),
    ensures
        spec_digits_val(s) >= spec_digits_val(s.take(i)),
    decreases s.len() - i,
{
    if i < s.len() {
        lemma_digits_val_monotone(s, i + 1);
        assert(s.take(i + 1).take(i) =~= s.take(i));
        assert(spec_digits_val(s.take(i + 1)) == spec_digits_val(s.take(i)) * 10 + (
        if is_digit(s.take(i + 1)[i]) {
            (s.take(i + 1)[i] as u32 - 48) as nat
        } else {
            0
        }));
    } else {
        assert(s.take(i) =~= s);
    }
}

/// Whether every character is an ASCII decimal digit.
pub open spec fn all_digits(s: Seq<char>) -> bool {
    forall|j: int| 0 <= j < s.len() ==> is_digit(#[trigger] s[j])
}

/// What parsing an unsigned 16-bit number accepts: an optional leading
/// plus sign, then at least one digit, with the value in range.
pub open spec fn spec_parse_u16(s: Seq<char>) -> Option<u16> {
    let body = if s.len() > 0 && s[0] == '+' {
        s.drop_first()
    } else {
        s
    };
    if body.len() == 0 {
        None
    } else if !all_digits(body) {
        None
    } else if spec_digits_val(body) > 65535 {
        None
    } else {
        Some(spec_digits_val(body) as u16)
    }
}

/// Parses an unsigned 16-bit number as `str::parse` accepts it.
pub fn parse_u16(s: &str) -> (r: Option<u16>)
    ensures
        r == spec_parse_u16(s@),
{
    let v: Vec<char> = to_chars(s);
    let n: usize = v.len();
    let start: usize = if n > 0 && v[0] == '+' {
        1
    } else {
        0
    };
    let ghost body = if s@.len() > 0 && s@[0] == '+' {
        s@.drop_first()
    } else {
        s@
    };
    proof {
        assert(body =~= s@.skip(start as int));
    }
    if start == n {
        proof {
            assert(body =~= (if s@.len() > 0 && s@[0] == '+' {
                s@.drop_first()
            } else {
                s@
            }));
            assert(body.len() == 0);
        }
        return None;
    }
    let mut acc: u32 = 0;
    let mut i: usize = start;
    proof {
        assert(body.take(0) =~= Seq::<char>::empty());
    }
    while i < n
        invariant
            start <= i <= n == s@.len(),
            v@ == s@,
            start == (if s@.len() > 0 && s@[0] == '+' {
                1int
            } else {
                0int
            }),
            body == s@.skip(start as int),
            acc == spec_digits_val(body.take(i - start)),
            acc <= 65535,
            forall|j: int| 0 <= j < i - start ==> is_digit(#[trigger] body[j]),
        decreases n - i,
    {
        let c: char = v[i];
        let u: u32 = c as u32;
        proof {
            assert(body[i - start] == s@[i as int]);
        }
        if !(48 <= u && u <= 57) {
            proof {
                let body2 = if s@.len() > 0 && s@[0] == '+' {
                    s@.drop_first()
                } else {
                    s@
                };
                assert(body =~= body2);
                assert(!is_digit(body2[i - start]));
                assert(!all_digits(body2));
                assert(spec_parse_u16(s@) is None);
            }
            return None;
        }
        let acc2: u32 = acc * 10 + (u - 48);
        proof {
            assert(body.take(i - start + 1).take(i - start) =~= body.take(i - start));
            assert(body.take(i - start + 1)[i - start] == body[i - start]);
        }
        if acc2 > 65535 {
            proof {
                assert(body =~= (if s@.len() > 0 && s@[0] == '+' {
                    s@.drop_first()
                } else {
                    s@
                }));
                lemma_digits_val_monotone(body, i - start + 1);
                assert(spec_digits_val(body) >= acc2);
            }
            return None;
        }
        acc = acc2;
        i += 1;
    }
    proof {
        assert(body =~= (if s@.len() > 0 && s@[0] == '+' {
            s@.drop_first()
        } else {
            s@
        }));
        assert(body.take(n - start) =~= body);
        assert(all_digits(body));
    }
    Some(acc as u16)
}

/// The per-server assignment groups of a preference capture list, keyed by
/// server identifier in order of first appearance; each capture appends
/// its property to its server's group.
pub open spec fn spec_add_prop(
    groups: Seq<(Seq<char>, Seq<(Seq<char>, Seq<char>)>)>,
    id: Seq<char>,
    prop: (Seq<char>, Seq<char>),
) -> Seq<(Seq<char>, Seq<(Seq<char>, Seq<char>)>)>
    decreases groups.len(),
{
    if groups.len() == 0 {
        seq![(id, seq![prop])]
    } else if groups[0].0 == id {
        seq![(groups[0].0, groups[0].1.push(prop))] + groups.drop_first()
    } else {
        seq![groups[0]] + spec_add_prop(groups.drop_first(), id, prop)
    }
}

/// The groups after folding every capture in order.
pub open spec fn spec_group_servers(
    caps: Seq<(Seq<char>, Seq<char>, Seq<char>)>,
    acc: Seq<(Seq<char>, Seq<(Seq<char>, Seq<char>)>)>,
) -> Seq<(Seq<char>, Seq<(Seq<char>, Seq<char>)>)>
    decreases caps.len(),
{
    if caps.len() == 0 {
        acc
    } else {
        spec_group_servers(
            caps.drop_first(),
            spec_add_prop(acc, caps[0].0, (caps[0].1, caps[0].2)),
        )
    }
}

proof fn lemma_add_prop_update(
    groups: Seq<(Seq<char>, Seq<(Seq<char>, Seq<char>)>)>,
    i: int,
    id: Seq<char>,
    prop: (Seq<char>, Seq<char>),
)
    requires
        0 <= i < groups.len(),
        groups[i].0 == id,
        forall|j: int| 0 <= j < i ==> (#[trigger] groups[j]).0 != id,
    ensures
        spec_add_prop(groups, id, prop) == groups.update(i, (id, groups[i].1.push(prop))),
    decreases i,
{
    if i == 0 {
        assert(spec_add_prop(groups, id, prop) =~= groups.update(
            0,
            (id, groups[0].1.push(prop)),
        ));
    } else {
        let t = groups.drop_first();
        assert(forall|j: int| 0 <= j < i - 1 ==> (#[trigger] t[j]).0 != id);
        lemma_add_prop_update(t, i - 1, id, prop);
        assert(spec_add_prop(groups, id, prop) =~= groups.update(
            i,
            (id, groups[i].1.push(prop)),
        ));
    }
}

proof fn lemma_add_prop_append(
    groups: Seq<(Seq<char>, Seq<(Seq<char>, Seq<char>)>)>,
    id: Seq<char>,
    prop: (Seq<char>, Seq<char>),
)
    requires
        forall|j: int| 0 <= j < groups.len() ==> (#[trigger] groups[j]).0 != id,
    ensures
        spec_add_prop(groups, id, prop) == groups.push((id, seq![prop])),
    decreases groups.len(),
{
    if groups.len() == 0 {
        assert(spec_add_prop(groups, id, prop) =~= groups.push((id, seq![prop])));
    } else {
        let t = groups.drop_first();
        assert(forall|j: int| 0 <= j < t.len() ==> (#[trigger] t[j]).0 != id);
        lemma_add_prop_append(t, id, prop);
        assert(spec_add_prop(groups, id, prop) =~= groups.push((id, seq![prop])));
    }
}

/// The view of the grouped servers held in executable form.
pub open spec fn groups_view(v: Seq<(String, Vec<(String, String)>)>) -> Seq<
    (Seq<char>, Seq<(Seq<char>, Seq<char>)>),
> {
    v.map_values(|g: (String, Vec<(String, String)>)| (g.0@, g.1.deep_view()))
}

/// An exact copy of an assignment list.
fn clone_props(v: &Vec<(String, String)>) -> (r: Vec<(String, String)>)
    ensures
        r@ == v@,
{
    let n: usize = v.len();
    let mut out: Vec<(String, String)> = Vec::new();
    let mut i: usize = 0;
    while i < n
        invariant
            i <= n == v@.len(),
            out@ == v@.subrange(0, i as int),
        decreases n - i,
    {
        out.push((v[i].0.clone(), v[i].1.clone()));
        i += 1;
        proof {
            assert(out@ =~= v@.subrange(0, i as int));
        }
    }
    proof {
        assert(v@.subrange(0, n as int) =~= v@);
    }
    out
}

/// The IMAP accounts a grouped server list yields: each group whose `type`
/// is `imap` and that names a hostname becomes one account tuple of
/// (name, hostname, port, username).
pub open spec fn spec_prefs_accounts(groups: Seq<(Seq<char>, Seq<(Seq<char>, Seq<char>)>)>) -> Seq<
    (Seq<char>, Seq<char>, u16, Seq<char>),
>
    decreases groups.len(),
{
    if groups.len() == 0 {
        Seq::empty()
    } else {
        let props = groups[0].1;
        let head: Seq<(Seq<char>, Seq<char>, u16, Seq<char>)> = if assoc_get_last(props, "type"@)
            == Some("imap"@) {
            match assoc_get_last(props, "hostname"@) {
                None => Seq::empty(),
                Some(host) => {
                    let username = match assoc_get_last(props, "userName"@) {
                        Some(u) => u,
                        None => Seq::<char>::empty(),
                    };
                    let port = match assoc_get_last(props, "port"@) {
                        Some(p) => match spec_parse_u16(p) {
                            Some(v) => v,
                            None => 993,
                        },
                        None => 993,
                    };
                    let name = match assoc_get_last(props, "name"@) {
                        Some(n) => n,
                        None => "Account_"@ + groups[0].0,
                    };
                    seq![(name, host, port, username)]
                },
            }
        } else {
            Seq::empty()
        };
        head + spec_prefs_accounts(groups.drop_first())
    }
}

/// Relies on `Regex::new` and `Regex::captures_iter` through the shared
/// three-group capture wrapper in `utils`.
///
/// Parses a preferences file: every `user_pref("mail.server.<id>.<prop>",
/// <value>);` line is captured, properties are grouped by server in order
/// of first appearance, and each IMAP server with a hostname becomes a
/// resolved account with the import defaults (a `./exports/<safe name>`
/// export directory, the provider's ignored folders, quote depth 1, and
/// signature images skipped).
pub fn parse_prefs_js(content: &str) -> (r: Vec<crate::config::Account>)
    ensures
        ({
            let caps = crate::utils::regex_caps3_of(
                "user_pref\\(\"mail\\.server\\.([^.]+)\\.([^\"]+)\",\\s*\"?([^\")]+)\"?\\);"@,
                content@,
            );
            let accs = spec_prefs_accounts(spec_group_servers(caps, Seq::empty()));
            &&& r@.len() == accs.len()
            &&& forall|i: int|
                0 <= i < accs.len() ==> ({
                    let a = #[trigger] r@[i];
                    &&& a.name@ == accs[i].0
                    &&& a.server@ == accs[i].1
                    &&& a.port == accs[i].2
                    &&& a.username@ == accs[i].3
                    &&& a.password is None
                    &&& a.export_directory@ == "./exports/"@ + spec_sanitize_name(accs[i].0)
                    &&& a.ignored_folders.deep_view() =~= spec_default_ignored(lower_of(accs[i].0))
                    &&& a.quote_depth == 1
                    &&& a.skip_existing == true
                    &&& a.collect_contacts == false
                    &&& a.skip_signature_images == true
                    &&& a.delete_after_export == false
                })
        }),
{
    let caps: Vec<(String, String, String)> = crate::utils::regex_captures3(
        "user_pref\\(\"mail\\.server\\.([^.]+)\\.([^\"]+)\",\\s*\"?([^\")]+)\"?\\);",
        content,
    );
    let ghost cdv = caps.deep_view();

    // group the captured properties by server identifier
    let nc: usize = caps.len();
    let mut groups: Vec<(String, Vec<(String, String)>)> = Vec::new();
    let mut i: usize = 0;
    proof {
        assert(cdv.skip(0) =~= cdv);
        assert(groups_view(groups@) =~= Seq::<(Seq<char>, Seq<(Seq<char>, Seq<char>)>)>::empty());
    }
    while i < nc
        invariant
            i <= nc == caps@.len(),
            cdv == caps.deep_view(),
            spec_group_servers(cdv, Seq::empty()) == spec_group_servers(
                cdv.skip(i as int),
                groups_view(groups@),
            ),
        decreases nc - i,
    {
        proof {
            let t = cdv.skip(i as int);
            assert(t[0] == cdv[i as int]);
            assert(cdv[i as int] == (caps@[i as int].0@, caps@[i as int].1@, caps@[i as int].2@));
            assert(t.drop_first() =~= cdv.skip(i + 1));
        }
        let id: &String = &caps[i].0;
        let prop: (String, String) = (caps[i].1.clone(), caps[i].2.clone());
        // find the group for this server
        let ng: usize = groups.len();
        let mut gi: usize = 0;
        while gi < ng && !crate::text::str_eq(groups[gi].0.as_str(), id.as_str())
            invariant
                gi <= ng == groups@.len(),
                forall|j: int| 0 <= j < gi ==> (#[trigger] groups@[j]).0@ != id@,
            decreases ng - gi,
        {
            gi += 1;
        }
        let ghost gv = groups_view(groups@);
        proof {
            assert(forall|j: int| 0 <= j < gi ==> (#[trigger] gv[j]).0 != id@);
        }
        if gi < ng {
            let key2: String = groups[gi].0.clone();
            let mut props2: Vec<(String, String)> = clone_props(&groups[gi].1);
            props2.push(prop);
            groups.set(gi, (key2, props2));
            proof {
                assert(gv[gi as int].0 == id@);
                lemma_add_prop_update(gv, gi as int, id@, (cdv[i as int].1, cdv[i as int].2));
                assert(props2.deep_view() =~= gv[gi as int].1.push(
                    (cdv[i as int].1, cdv[i as int].2),
                ));
                assert(groups_view(groups@) =~~= spec_add_prop(
                    gv,
                    id@,
                    (cdv[i as int].1, cdv[i as int].2),
                ));
            }
        } else {
            let key2: String = id.clone();
            let mut props2: Vec<(String, String)> = Vec::new();
            props2.push(prop);
            groups.push((key2, props2));
            proof {
                lemma_add_prop_append(gv, id@, (cdv[i as int].1, cdv[i as int].2));
                assert(props2.deep_view() =~= seq![(cdv[i as int].1, cdv[i as int].2)]);
                assert(groups_view(groups@) =~~= spec_add_prop(
                    gv,
                    id@,
                    (cdv[i as int].1, cdv[i as int].2),
                ));
            }
        }
        i += 1;
    }
    proof {
        assert(cdv.skip(nc as int) =~= Seq::<(Seq<char>, Seq<char>, Seq<char>)>::empty());
    }
    let ghost final_groups = groups_view(groups@);

    // build an account for each IMAP server
    let m: usize = groups.len();
    let mut out: Vec<crate::config::Account> = Vec::new();
    let mut g: usize = 0;
    proof {
        assert(final_groups.skip(0) =~= final_groups);
        assert(accounts_brief(out@) =~= Seq::<(Seq<char>, Seq<char>, u16, Seq<char>)>::empty());
        assert(accounts_brief(out@) + spec_prefs_accounts(final_groups) =~= spec_prefs_accounts(
            final_groups,
        ));
    }
    while g < m
        invariant
            g <= m == groups@.len(),
            final_groups == groups_view(groups@),
            spec_prefs_accounts(final_groups) == accounts_brief(out@) + spec_prefs_accounts(
                final_groups.skip(g as int),
            ),
            forall|i: int|
                0 <= i < out@.len() ==> ({
                    let a = #[trigger] out@[i];
                    &&& a.password is None
                    &&& a.export_directory@ == "./exports/"@ + spec_sanitize_name(a.name@)
                    &&& a.ignored_folders.deep_view() =~= spec_default_ignored(lower_of(a.name@))
                    &&& a.quote_depth == 1
                    &&& a.skip_existing == true
                    &&& a.collect_contacts == false
                    &&& a.skip_signature_images == true
                    &&& a.delete_after_export == false
                }),
        decreases m - g,
    {
        let ghost t = final_groups.skip(g as int);
        proof {
            assert(t[0] == final_groups[g as int]);
            let ge = groups@[g as int];
            assert(final_groups[g as int] == (ge.0@, ge.1.deep_view()));
            assert(t.drop_first() =~= final_groups.skip(g + 1));
        }
        let is_imap: bool = match lookup_last(&groups[g].1, "type") {
            Some(v) => crate::text::str_eq(v.as_str(), "imap"),
            None => false,
        };
        if is_imap {
            proof {
                assert(assoc_get_last(t[0].1, "type"@) == Some("imap"@));
            }
            match lookup_last(&groups[g].1, "hostname") {
                Some(host) => {
                    let hostname: String = host.clone();
                    let username: String = match lookup_last(&groups[g].1, "userName") {
                        Some(u) => u.clone(),
                        None => String::new(),
                    };
                    let port: u16 = match lookup_last(&groups[g].1, "port") {
                        Some(p) => match parse_u16(p.as_str()) {
                            Some(v) => v,
                            None => 993,
                        },
                        None => 993,
                    };
                    let name: String = match lookup_last(&groups[g].1, "name") {
                        Some(nm) => nm.clone(),
                        None => {
                            let mut fallback: String = String::from_str("Account_");
                            fallback.append(groups[g].0.as_str());
                            fallback
                        },
                    };
                    let safe: String = sanitize_name(name.as_str());
                    let mut export_directory: String = String::from_str("./exports/");
                    export_directory.append(safe.as_str());
                    let ignored: Vec<String> = default_ignored_folders(name.as_str());
                    let ghost before = out@;
                    out.push(
                        crate::config::Account {
                            name,
                            server: hostname,
                            port,
                            username,
                            password: None,
                            export_directory,
                            ignored_folders: ignored,
                            quote_depth: 1,
                            skip_existing: true,
                            collect_contacts: false,
                            skip_signature_images: true,
                            delete_after_export: false,
                        },
                    );
                    proof {
                        let a = out@[before.len() as int];
                        assert(accounts_brief(out@) =~= accounts_brief(before).push(
                            (a.name@, a.server@, a.port, a.username@),
                        ));
                        assert(spec_prefs_accounts(t) =~= seq![
                            (a.name@, a.server@, a.port, a.username@),
                        ] + spec_prefs_accounts(final_groups.skip(g + 1)));
                        assert(spec_prefs_accounts(final_groups) =~= accounts_brief(out@)
                            + spec_prefs_accounts(final_groups.skip(g + 1)));
                    }
                },
                None => {
                    proof {
                        assert(assoc_get_last(t[0].1, "hostname"@) is None);
                        assert(spec_prefs_accounts(t) =~= spec_prefs_accounts(
                            final_groups.skip(g + 1),
                        ));
                    }
                },
            }
        } else {
            proof {
                assert(assoc_get_last(t[0].1, "type"@) != Some("imap"@));
                assert(spec_prefs_accounts(t) =~= spec_prefs_accounts(final_groups.skip(g + 1)));
            }
        }
        g += 1;
    }
    proof {
        assert(final_groups.skip(m as int) =~= Seq::<
            (Seq<char>, Seq<(Seq<char>, Seq<char>)>),
        >::empty());
        assert(accounts_brief(out@) + Seq::<(Seq<char>, Seq<char>, u16, Seq<char>)>::empty()
            =~= accounts_brief(out@));
    }
    out
}

/// The connection fields of an account list.
pub open spec fn accounts_brief(v: Seq<crate::config::Account>) -> Seq<
    (Seq<char>, Seq<char>, u16, Seq<char>),
> {
    v.map_values(
        |a: crate::config::Account| (a.name@, a.server@, a.port, a.username@),
    )
}

/// A boolean as configuration text.
pub open spec fn spec_bool_text(b: bool) -> Seq<char> {
    if b {
        "true"@
    } else {
        "false"@
    }
}

/// An account name as an environment variable stem: uppercased, spaces
/// replaced by underscores.
pub open spec fn spec_env_stem(name: Seq<char>) -> Seq<char> {
    upper_of(name).map_values(
        |c: char|
            if c == ' ' {
                '_'
            } else {
                c
            },
    )
}

/// An account name as an environment variable stem with hyphens also
/// replaced.
pub open spec fn spec_env_stem2(name: Seq<char>) -> Seq<char> {
    upper_of(name).map_values(
        |c: char|
            if c == ' ' || c == '-' {
                '_'
            } else {
                c
            },
    )
}

/// The quoted list lines of the ignored folders.
pub open spec fn spec_folder_lines(fs: Seq<Seq<char>>) -> Seq<char>
    decreases fs.len(),
{
    if fs.len() == 0 {
        Seq::empty()
    } else {
        "      - \""@ + fs[0] + "\"\n"@ + spec_folder_lines(fs.drop_first())
    }
}

proof fn lemma_folder_lines_push(fs: Seq<Seq<char>>, f: Seq<char>)
    ensures
        spec_folder_lines(fs.push(f)) == spec_folder_lines(fs) + ("      - \""@ + f + "\"\n"@),
    decreases fs.len(),
{
    let p = fs.push(f);
    if fs.len() == 0 {
        assert(p[0] == f);
        assert(p.drop_first() =~= Seq::<Seq<char>>::empty());
        assert(spec_folder_lines(Seq::<Seq<char>>::empty()) =~= Seq::<char>::empty());
        assert(spec_folder_lines(p) =~= spec_folder_lines(fs) + ("      - \""@ + f + "\"\n"@));
    } else {
        assert(p[0] == fs[0]);
        assert(p.drop_first() =~= fs.drop_first().push(f));
        lemma_folder_lines_push(fs.drop_first(), f);
        assert(spec_folder_lines(p) =~= spec_folder_lines(fs) + ("      - \""@ + f + "\"\n"@));
    }
}

/// The connection lines of an account's block, up to the ignored-folder
/// list.
pub open spec fn spec_account_head(a: crate::config::Account) -> Seq<char> {
    "  - name: \""@ + a.name@ + "\"\n"@ + "    server: \""@ + a.server@ + "\"\n"@ + "    port: "@
        + crate::text::spec_dec(a.port as nat) + seq!['\n'] + "    username: \""@ + a.username@
        + "\"\n"@ + "    export_directory: \""@ + a.export_directory@ + "\"\n"@
        + "    ignored_folders:\n"@
}

/// The behaviour lines of an account's block, after the ignored-folder
/// list, ending with a blank line.
pub open spec fn spec_account_tail(a: crate::config::Account) -> Seq<char> {
    "    quote_depth: "@ + crate::text::spec_dec(a.quote_depth as nat) + seq!['\n']
        + "    skip_existing: "@ + spec_bool_text(a.skip_existing) + seq!['\n']
        + "    collect_contacts: "@ + spec_bool_text(a.collect_contacts) + seq!['\n']
        + "    skip_signature_images: "@ + spec_bool_text(a.skip_signature_images) + seq!['\n']
        + "    delete_after_export: "@ + spec_bool_text(a.delete_after_export) + seq!['\n', '\n']
}

/// One account's block in the generated accounts file.
pub open spec fn spec_account_block(a: crate::config::Account) -> Seq<char> {
    spec_account_head(a) + spec_folder_lines(a.ignored_folders.deep_view()) + spec_account_tail(a)
}

/// The account blocks, in order.
pub open spec fn spec_account_blocks(accs: Seq<crate::config::Account>) -> Seq<char>
    decreases accs.len(),
{
    if accs.len() == 0 {
        Seq::empty()
    } else {
        spec_account_block(accs[0]) + spec_account_blocks(accs.drop_first())
    }
}

proof fn lemma_account_blocks_push(accs: Seq<crate::config::Account>, a: crate::config::Account)
    ensures
        spec_account_blocks(accs.push(a)) == spec_account_blocks(accs) + spec_account_block(a),
    decreases accs.len(),
{
    let p = accs.push(a);
    if accs.len() == 0 {
        assert(p[0] == a);
        assert(p.drop_first() =~= Seq::<crate::config::Account>::empty());
        assert(spec_account_blocks(Seq::<crate::config::Account>::empty()) =~= Seq::<
            char,
        >::empty());
        assert(spec_account_blocks(p) =~= spec_account_blocks(accs) + spec_account_block(a));
    } else {
        assert(p[0] == accs[0]);
        assert(p.drop_first() =~= accs.drop_first().push(a));
        lemma_account_blocks_push(accs.drop_first(), a);
        assert(spec_account_blocks(p) =~= spec_account_blocks(accs) + spec_account_block(a));
    }
}

/// The password reminder lines at the end of the generated accounts file.
pub open spec fn spec_reminder_lines(accs: Seq<crate::config::Account>) -> Seq<char>
    decreases accs.len(),
{
    if accs.len() == 0 {
        Seq::empty()
    } else {
        "# "@ + spec_env_stem(accs[0].name@) + "_PASSWORD=your_password\n"@ + spec_reminder_lines(
            accs.drop_first(),
        )
    }
}

proof fn lemma_reminder_lines_push(accs: Seq<crate::config::Account>, a: crate::config::Account)
    ensures
        spec_reminder_lines(accs.push(a)) == spec_reminder_lines(accs) + ("# "@ + spec_env_stem(
            a.name@,
        ) + "_PASSWORD=your_password\n"@),
    decreases accs.len(),
{
    let p = accs.push(a);
    if accs.len() == 0 {
        assert(p[0] == a);
        assert(p.drop_first() =~= Seq::<crate::config::Account>::empty());
        assert(spec_reminder_lines(Seq::<crate::config::Account>::empty()) =~= Seq::<
            char,
        >::empty());
        assert(spec_reminder_lines(p) =~= spec_reminder_lines(accs) + ("# "@ + spec_env_stem(
            a.name@,
        ) + "_PASSWORD=your_password\n"@));
    } else {
        assert(p[0] == accs[0]);
        assert(p.drop_first() =~= accs.drop_first().push(a));
        lemma_reminder_lines_push(accs.drop_first(), a);
        assert(spec_reminder_lines(p) =~= spec_reminder_lines(accs) + ("# "@ + spec_env_stem(
            a.name@,
        ) + "_PASSWORD=your_password\n"@));
    }
}

/// The whole generated accounts file: a comment header, one block per
/// account, and the password reminders.
pub open spec fn spec_accounts_yaml(accs: Seq<crate::config::Account>) -> Seq<char> {
    "# Review and adjust settings as needed\n"@ + "# Passwords must be added to .env file\n\n"@
        + "accounts:\n"@ + spec_account_blocks(accs) + "# Add passwords to .env file:\n"@
        + spec_reminder_lines(accs)
}

/// Renders an account name as an environment variable stem.
fn env_stem(name: &str, also_hyphen: bool) -> (r: String)
    ensures
        !also_hyphen ==> r@ == spec_env_stem(name@),
        also_hyphen ==> r@ == spec_env_stem2(name@),
{
    let up: String = crate::text::uppercase(name);
    let v: Vec<char> = to_chars(up.as_str());
    let n: usize = v.len();
    let mut out: Vec<char> = Vec::new();
    let mut i: usize = 0;
    while i < n
        invariant
            i <= n == up@.len(),
            v@ == up@,
            out@.len() == i,
            forall|j: int|
                0 <= j < i ==> out@[j] == (if up@[j] == ' ' || (also_hyphen && up@[j] == '-') {
                    '_'
                } else {
                    up@[j]
                }),
        decreases n - i,
    {
        let c: char = v[i];
        if c == ' ' || (also_hyphen && c == '-') {
            out.push('_');
        } else {
            out.push(c);
        }
        i += 1;
    }
    proof {
        if also_hyphen {
            assert(out@ =~= spec_env_stem2(name@));
        } else {
            assert(out@ =~= spec_env_stem(name@));
        }
    }
    from_chars(&out)
}

/// Appends one boolean configuration value and a newline.
fn append_bool_line(out: &mut String, label: &str, b: bool)
    ensures
        final(out)@ == old(out)@ + label@ + spec_bool_text(b) + seq!['\n'],
{
    out.append(label);
    if b {
        out.append("true");
    } else {
        out.append("false");
    }
    out.append("\n");
    proof {
        reveal_strlit("\n");
        assert("\n"@ =~= seq!['\n']);
        assert(out@ =~= old(out)@ + label@ + spec_bool_text(b) + seq!['\n']);
    }
}

/// Appends one account's block to the generated file.
#[verifier::rlimit(100)]
#[verifier::spinoff_prover]
fn append_account_block(out: &mut String, a: &crate::config::Account)
    ensures
        final(out)@ == old(out)@ + spec_account_block(*a),
{
    out.append("  - name: \"");
    out.append(a.name.as_str());
    out.append("\"\n");
    out.append("    server: \"");
    out.append(a.server.as_str());
    out.append("\"\n");
    out.append("    port: ");
    let pdec: String = crate::text::dec_u64(a.port as u64);
    out.append(pdec.as_str());
    out.append("\n");
    out.append("    username: \"");
    out.append(a.username.as_str());
    out.append("\"\n");
    out.append("    export_directory: \"");
    out.append(a.export_directory.as_str());
    out.append("\"\n");
    out.append("    ignored_folders:\n");
    proof {
        reveal_strlit("\n");
        assert("\n"@ =~= seq!['\n']);
        assert(out@ =~= old(out)@ + spec_account_head(*a));
    }

    let m: usize = a.ignored_folders.len();
    let mut f: usize = 0;
    let ghost before_folders = out@;
    proof {
        assert(a.ignored_folders.deep_view().subrange(0, 0) =~= Seq::<Seq<char>>::empty());
        assert(spec_folder_lines(a.ignored_folders.deep_view().subrange(0, 0)) =~= Seq::<
            char,
        >::empty());
        assert(out@ =~= before_folders + spec_folder_lines(
            a.ignored_folders.deep_view().subrange(0, 0),
        ));
    }
    while f < m
        invariant
            f <= m == a.ignored_folders@.len(),
            out@ == before_folders + spec_folder_lines(
                a.ignored_folders.deep_view().subrange(0, f as int),
            ),
        decreases m - f,
    {
        out.append("      - \"");
        out.append(a.ignored_folders[f].as_str());
        out.append("\"\n");
        proof {
            let dv = a.ignored_folders.deep_view();
            assert(dv[f as int] == a.ignored_folders@[f as int]@);
            assert(dv.subrange(0, f + 1) =~= dv.subrange(0, f as int).push(dv[f as int]));
            lemma_folder_lines_push(dv.subrange(0, f as int), dv[f as int]);
            assert(out@ =~= before_folders + spec_folder_lines(dv.subrange(0, f + 1)));
        }
        f += 1;
    }
    proof {
        assert(a.ignored_folders.deep_view().subrange(
            0,
            a.ignored_folders.deep_view().len() as int,
        ) =~= a.ignored_folders.deep_view());
    }

    out.append("    quote_depth: ");
    let qdec: String = crate::text::dec_u64(a.quote_depth as u64);
    out.append(qdec.as_str());
    out.append("\n");
    append_bool_line(out, "    skip_existing: ", a.skip_existing);
    append_bool_line(out, "    collect_contacts: ", a.collect_contacts);
    append_bool_line(out, "    skip_signature_images: ", a.skip_signature_images);
    append_bool_line(out, "    delete_after_export: ", a.delete_after_export);
    out.append("\n");
    proof {
        reveal_strlit("\n");
        assert("\n"@ =~= seq!['\n']);
        assert(out@ =~= before_folders + spec_folder_lines(a.ignored_folders.deep_view())
            + spec_account_tail(*a));
        assert(out@ =~= old(out)@ + spec_account_block(*a));
    }
}

/// Generates the accounts file text for a list of extracted accounts,
/// with a password reminder per account.
pub fn generate_accounts_yaml(accounts: &Vec<crate::config::Account>) -> (r: String)
    ensures
        r@ == spec_accounts_yaml(accounts@),
{
    let mut out: String = String::new();
    out.append("# Review and adjust settings as needed\n");
    out.append("# Passwords must be added to .env file\n\n");
    out.append("accounts:\n");

    let n: usize = accounts.len();
    let mut i: usize = 0;
    let ghost header = "# Review and adjust settings as needed\n"@
        + "# Passwords must be added to .env file\n\n"@ + "accounts:\n"@;
    proof {
        assert(accounts@.subrange(0, 0) =~= Seq::<crate::config::Account>::empty());
        assert(spec_account_blocks(accounts@.subrange(0, 0)) =~= Seq::<char>::empty());
        assert(out@ =~= header + spec_account_blocks(accounts@.subrange(0, 0)));
    }
    while i < n
        invariant
            i <= n == accounts@.len(),
            out@ == header + spec_account_blocks(accounts@.subrange(0, i as int)),
        decreases n - i,
    {
        append_account_block(&mut out, &accounts[i]);
        proof {
            assert(accounts@.subrange(0, i + 1) =~= accounts@.subrange(0, i as int).push(
                accounts@[i as int],
            ));
            lemma_account_blocks_push(accounts@.subrange(0, i as int), accounts@[i as int]);
            assert(out@ =~= header + spec_account_blocks(accounts@.subrange(0, i + 1)));
        }
        i += 1;
    }
    proof {
        assert(accounts@.subrange(0, n as int) =~= accounts@);
    }

    out.append("# Add passwords to .env file:\n");
    let ghost before_rem = out@;
    let mut k: usize = 0;
    proof {
        assert(spec_reminder_lines(accounts@.subrange(0, 0)) =~= Seq::<char>::empty());
        assert(out@ =~= before_rem + spec_reminder_lines(accounts@.subrange(0, 0)));
    }
    while k < n
        invariant
            k <= n == accounts@.len(),
            out@ == before_rem + spec_reminder_lines(accounts@.subrange(0, k as int)),
        decreases n - k,
    {
        out.append("# ");
        let stem: String = env_stem(accounts[k].name.as_str(), false);
        out.append(stem.as_str());
        out.append("_PASSWORD=your_password\n");
        proof {
            assert(accounts@.subrange(0, k + 1) =~= accounts@.subrange(0, k as int).push(
                accounts@[k as int],
            ));
            lemma_reminder_lines_push(accounts@.subrange(0, k as int), accounts@[k as int]);
            assert(out@ =~= before_rem + spec_reminder_lines(accounts@.subrange(0, k + 1)));
        }
        k += 1;
    }
    proof {
        assert(accounts@.subrange(0, n as int) =~= accounts@);
        assert(out@ =~= spec_accounts_yaml(accounts@));
    }
    out
}

/// One account's lines in the environment template: the password line,
/// and an application-password line for Gmail-like servers.
pub open spec fn spec_env_entry(a: crate::config::Account) -> Seq<char> {
    spec_env_stem2(a.name@) + "_PASSWORD=your_password\n"@ + (if is_substring(
        a.server@,
        "gmail"@,
    ) {
        spec_env_stem2(a.name@) + "_APPLICATION_PASSWORD=your_app_password\n"@
    } else {
        Seq::empty()
    })
}

/// The per-account lines of the environment template, in order.
pub open spec fn spec_env_entries(accs: Seq<crate::config::Account>) -> Seq<char>
    decreases accs.len(),
{
    if accs.len() == 0 {
        Seq::empty()
    } else {
        spec_env_entry(accs[0]) + spec_env_entries(accs.drop_first())
    }
}

proof fn lemma_env_entries_push(accs: Seq<crate::config::Account>, a: crate::config::Account)
    ensures
        spec_env_entries(accs.push(a)) == spec_env_entries(accs) + spec_env_entry(a),
    decreases accs.len(),
{
    let p = accs.push(a);
    if accs.len() == 0 {
        assert(p[0] == a);
        assert(p.drop_first() =~= Seq::<crate::config::Account>::empty());
        assert(spec_env_entries(Seq::<crate::config::Account>::empty()) =~= Seq::<char>::empty());
        assert(spec_env_entries(p) =~= spec_env_entries(accs) + spec_env_entry(a));
    } else {
        assert(p[0] == accs[0]);
        assert(p.drop_first() =~= accs.drop_first().push(a));
        lemma_env_entries_push(accs.drop_first(), a);
        assert(spec_env_entries(p) =~= spec_env_entries(accs) + spec_env_entry(a));
    }
}

/// The whole environment template: a comment header and the per-account
/// password lines.
pub open spec fn spec_env_template(accs: Seq<crate::config::Account>) -> Seq<char> {
    "# Email passwords\n"@ + "# Replace 'your_password' with actual passwords\n"@
        + "# For Gmail with 2FA, use App Password\n\n"@ + spec_env_entries(accs)
}

/// Generates the environment template for a list of extracted accounts.
pub fn generate_env_template(accounts: &Vec<crate::config::Account>) -> (r: String)
    ensures
        r@ == spec_env_template(accounts@),
{
    let mut out: String = String::new();
    out.append("# Email passwords\n");
    out.append("# Replace 'your_password' with actual passwords\n");
    out.append("# For Gmail with 2FA, use App Password\n\n");
    let ghost header = "# Email passwords\n"@ + "# Replace 'your_password' with actual passwords\n"@
        + "# For Gmail with 2FA, use App Password\n\n"@;
    let n: usize = accounts.len();
    let mut i: usize = 0;
    proof {
        assert(spec_env_entries(accounts@.subrange(0, 0)) =~= Seq::<char>::empty());
        assert(out@ =~= header + spec_env_entries(accounts@.subrange(0, 0)));
    }
    while i < n
        invariant
            i <= n == accounts@.len(),
            out@ == header + spec_env_entries(accounts@.subrange(0, i as int)),
        decreases n - i,
    {
        let stem: String = env_stem(accounts[i].name.as_str(), true);
        out.append(stem.as_str());
        out.append("_PASSWORD=your_password\n");
        if contains_sub(accounts[i].server.as_str(), "gmail") {
            out.append(stem.as_str());
            out.append("_APPLICATION_PASSWORD=your_app_password\n");
        }
        proof {
            assert(out@ =~= header + spec_env_entries(accounts@.subrange(0, i as int))
                + spec_env_entry(accounts@[i as int]));
            assert(accounts@.subrange(0, i + 1) =~= accounts@.subrange(0, i as int).push(
                accounts@[i as int],
            ));
            lemma_env_entries_push(accounts@.subrange(0, i as int), accounts@[i as int]);
            assert(out@ =~= header + spec_env_entries(accounts@.subrange(0, i + 1)));
        }
        i += 1;
    }
    proof {
        assert(accounts@.subrange(0, n as int) =~= accounts@);
        assert(out@ =~= spec_env_template(accounts@));
    }
    out
}

} // verus!

//! Character-sequence predicates, the trusted string primitives, and the
//! verified text utilities (trimming, line splitting, joining, decimal
//! formatting) that the rest of the library is built on.

use vstd::prelude::*;

verus! {

/// True when `needle` occurs contiguously inside `hay`.
pub open spec fn is_substring(hay: Seq<char>, needle: Seq<char>) -> bool {
    exists|i: int|
        0 <= i <= hay.len() - needle.len() && #[trigger] hay.subrange(
            i,
            i + needle.len() as int,
        ) == needle
}

/// True when `pre` is a prefix of `s`.
pub open spec fn is_prefix(s: Seq<char>, pre: Seq<char>) -> bool {
    pre.len() <= s.len() && s.subrange(0, pre.len() as int) == pre
}

/// True when `suf` is a suffix of `s`.
pub open spec fn is_suffix(s: Seq<char>, suf: Seq<char>) -> bool {
    suf.len() <= s.len() && s.subrange(s.len() - suf.len(), s.len() as int) == suf
}

/// The Unicode `White_Space` characters, the set `str::trim` removes.
pub open spec fn is_ws(c: char) -> bool {
    ||| 0x9 <= c as u32 <= 0xd
    ||| c as u32 == 0x20
    ||| c as u32 == 0x85
    ||| c as u32 == 0xa0
    ||| c as u32 == 0x1680
    ||| 0x2000 <= c as u32 <= 0x200a
    ||| c as u32 == 0x2028
    ||| c as u32 == 0x2029
    ||| c as u32 == 0x202f
    ||| c as u32 == 0x205f
    ||| c as u32 == 0x3000
}

pub open spec fn trim_front(s: Seq<char>) -> Seq<char>
    decreases s.len(),
{
    if s.len() > 0 && is_ws(s[0]) {
        trim_front(s.drop_first())
    } else {
        s
    }
}

pub open spec fn trim_end(s: Seq<char>) -> Seq<char>
    decreases s.len(),
{
    if s.len() > 0 && is_ws(s[s.len() - 1]) {
        trim_end(s.drop_last())
    } else {
        s
    }
}

/// What `str::trim` leaves: the sequence with leading and trailing
/// whitespace removed.
pub open spec fn spec_trim(s: Seq<char>) -> Seq<char> {
    trim_end(trim_front(s))
}

/// A line with one trailing carriage return removed, as `str::lines` does
/// for `\r\n` endings.
pub open spec fn strip_cr(l: Seq<char>) -> Seq<char> {
    if l.len() > 0 && l[l.len() - 1] == '\r' {
        l.drop_last()
    } else {
        l
    }
}

/// Index of the first newline in `s`, or -1 when there is none.
pub open spec fn first_nl(s: Seq<char>) -> int
    decreases s.len(),
{
    if s.len() == 0 {
        -1
    } else if s[0] == '\n' {
        0
    } else if first_nl(s.drop_first()) < 0 {
        -1
    } else {
        1 + first_nl(s.drop_first())
    }
}

/// What `str::lines` yields: split at `\n`, dropping one `\r` before each
/// split point; a final line ending produces no extra empty line.
pub open spec fn spec_lines(s: Seq<char>) -> Seq<Seq<char>>
    decreases s.len(),
{
    let i = first_nl(s);
    if s.len() == 0 {
        Seq::empty()
    } else if !(0 <= i < s.len()) {
        seq![s]
    } else {
        seq![strip_cr(s.subrange(0, i))] + spec_lines(s.subrange(i + 1, s.len() as int))
    }
}

/// The lines joined with a single separator character between them.
pub open spec fn join_with(lines: Seq<Seq<char>>, sep: char) -> Seq<char>
    decreases lines.len(),
{
    if lines.len() == 0 {
        Seq::empty()
    } else if lines.len() == 1 {
        lines[0]
    } else {
        lines[0] + seq![sep] + join_with(lines.drop_first(), sep)
    }
}

/// The Unicode lowercasing of a character sequence, as `str::to_lowercase`
/// computes it; a function of the characters alone.
pub uninterp spec fn lower_of(s: Seq<char>) -> Seq<char>;

/// The Unicode uppercasing of a character sequence, as `str::to_uppercase`
/// computes it; a function of the characters alone.
pub uninterp spec fn upper_of(s: Seq<char>) -> Seq<char>;

/// Relies on `str::to_lowercase`: the result depends on the characters
/// alone, and an empty string stays empty.
#[verifier::external_body]
pub fn lowercase(s: &str) -> (r: String)
    ensures
        r@ == lower_of(s@),
        s@.len() == 0 ==> r@.len() == 0,
{
    s.to_lowercase()
}

/// Relies on `str::to_uppercase`: the result depends on the characters
/// alone, and an empty string stays empty.
#[verifier::external_body]
pub fn uppercase(s: &str) -> (r: String)
    ensures
        r@ == upper_of(s@),
        s@.len() == 0 ==> r@.len() == 0,
{
    s.to_uppercase()
}

/// Relies on `str::contains`: true exactly when the pattern occurs as a
/// substring (for valid UTF-8, byte matches and character matches agree).
#[verifier::external_body]
pub fn contains_sub(hay: &str, needle: &str) -> (r: bool)
    ensures
        r == is_substring(hay@, needle@),
{
    hay.contains(needle)
}

/// Whether `pre` is a prefix of `s`, compared character by character.
pub fn starts_with_str(s: &str, pre: &str) -> (r: bool)
    ensures
        r == is_prefix(s@, pre@),
{
    let vs: Vec<char> = to_chars(s);
    let vp: Vec<char> = to_chars(pre);
    if vp.len() > vs.len() {
        return false;
    }
    let n: usize = vp.len();
    let mut i: usize = 0;
    while i < n
        invariant
            i <= n == pre@.len(),
            n <= s@.len(),
            vs@ == s@,
            vp@ == pre@,
            forall|j: int| 0 <= j < i ==> s@[j] == pre@[j],
        decreases n - i,
    {
        if vs[i] != vp[i] {
            proof {
                if is_prefix(s@, pre@) {
                    assert(s@.subrange(0, pre@.len() as int)[i as int] == s@[i as int]);
                }
            }
            return false;
        }
        i += 1;
    }
    proof {
        assert(s@.subrange(0, pre@.len() as int) =~= pre@);
    }
    true
}

/// Whether `suf` is a suffix of `s`, compared character by character.
pub fn ends_with_str(s: &str, suf: &str) -> (r: bool)
    ensures
        r == is_suffix(s@, suf@),
{
    let vs: Vec<char> = to_chars(s);
    let vf: Vec<char> = to_chars(suf);
    if vf.len() > vs.len() {
        return false;
    }
    let n: usize = vf.len();
    let off: usize = vs.len() - n;
    let mut i: usize = 0;
    while i < n
        invariant
            i <= n == suf@.len(),
            n <= s@.len(),
            s@.len() <= usize::MAX,
            off == s@.len() - n,
            vs@ == s@,
            vf@ == suf@,
            forall|j: int| 0 <= j < i ==> s@[off + j] == suf@[j],
        decreases n - i,
    {
        if vs[off + i] != vf[i] {
            proof {
                if is_suffix(s@, suf@) {
                    assert(s@.subrange(s@.len() - suf@.len(), s@.len() as int)[i as int] == s@[off
                        + i]);
                }
            }
            return false;
        }
        i += 1;
    }
    proof {
        assert(s@.subrange(s@.len() - suf@.len(), s@.len() as int) =~= suf@);
    }
    true
}

/// String equality as character-sequence equality.
pub fn str_eq(a: &str, b: &str) -> (r: bool)
    ensures
        r == (a@ == b@),
{
    let va: Vec<char> = to_chars(a);
    let vb: Vec<char> = to_chars(b);
    if va.len() != vb.len() {
        return false;
    }
    let n: usize = va.len();
    let mut i: usize = 0;
    while i < n
        invariant
            i <= n == a@.len(),
            n == b@.len(),
            va@ == a@,
            vb@ == b@,
            forall|j: int| 0 <= j < i ==> a@[j] == b@[j],
        decreases n - i,
    {
        if va[i] != vb[i] {
            return false;
        }
        i += 1;
    }
    proof {
        assert(a@ =~= b@);
    }
    true
}

/// Lexicographic order on character sequences by Unicode scalar value:
/// true when `a` sorts at or before `b`.
pub open spec fn lex_le(a: Seq<char>, b: Seq<char>) -> bool
    decreases a.len(),
{
    if a.len() == 0 {
        true
    } else if b.len() == 0 {
        false
    } else if (a[0] as u32) < (b[0] as u32) {
        true
    } else if (a[0] as u32) > (b[0] as u32) {
        false
    } else {
        lex_le(a.drop_first(), b.drop_first())
    }
}

/// Any two sequences are comparable.
pub proof fn lemma_lex_total(a: Seq<char>, b: Seq<char>)
    ensures
        lex_le(a, b) || lex_le(b, a),
    decreases a.len(),
{
    if a.len() > 0 && b.len() > 0 && (a[0] as u32) == (b[0] as u32) {
        lemma_lex_total(a.drop_first(), b.drop_first());
    }
}

/// The order is transitive.
pub proof fn lemma_lex_trans(a: Seq<char>, b: Seq<char>, c: Seq<char>)
    requires
        lex_le(a, b),
        lex_le(b, c),
    ensures
        lex_le(a, c),
    decreases a.len(),
{
    if a.len() > 0 && b.len() > 0 && c.len() > 0 && (a[0] as u32) == (b[0] as u32) && (b[0] as u32)
        == (c[0] as u32) {
        lemma_lex_trans(a.drop_first(), b.drop_first(), c.drop_first());
    }
}

/// The order is decided by the first differing position.
proof fn lemma_lex_le_skip(a: Seq<char>, b: Seq<char>, i: int)
    requires
        0 <= i <= a.len(),
        i <= b.len(),
        forall|j: int| 0 <= j < i ==> a[j] == b[j],
    ensures
        lex_le(a, b) == lex_le(a.skip(i), b.skip(i)),
    decreases i,
{
    if i == 0 {
        assert(a.skip(0) =~= a);
        assert(b.skip(0) =~= b);
    } else {
        assert(a[0] == b[0]);
        assert(a.drop_first() =~= a.skip(1));
        assert(b.drop_first() =~= b.skip(1));
        assert(forall|j: int| 0 <= j < i - 1 ==> #[trigger] a.skip(1)[j] == b.skip(1)[j]);
        lemma_lex_le_skip(a.skip(1), b.skip(1), i - 1);
        assert(a.skip(1).skip(i - 1) =~= a.skip(i));
        assert(b.skip(1).skip(i - 1) =~= b.skip(i));
    }
}

/// Whether `a` sorts at or before `b` in lexicographic order by Unicode
/// scalar value.
pub fn str_le(a: &str, b: &str) -> (r: bool)
    ensures
        r == lex_le(a@, b@),
{
    let va: Vec<char> = to_chars(a);
    let vb: Vec<char> = to_chars(b);
    let na: usize = va.len();
    let nb: usize = vb.len();
    let mut i: usize = 0;
    while i < na && i < nb
        invariant
            i <= na == a@.len(),
            i <= nb == b@.len(),
            va@ == a@,
            vb@ == b@,
            forall|j: int| 0 <= j < i ==> a@[j] == b@[j],
        decreases na - i,
    {
        let ca: char = va[i];
        let cb: char = vb[i];
        if (ca as u32) != (cb as u32) {
            proof {
                lemma_lex_le_skip(a@, b@, i as int);
                assert(a@.skip(i as int)[0] == a@[i as int]);
                assert(b@.skip(i as int)[0] == b@[i as int]);
            }
            return (ca as u32) < (cb as u32);
        }
        proof {
            vstd::utf8::char_u32_cast(ca, ca as u32);
            vstd::utf8::char_u32_cast(cb, cb as u32);
        }
        i += 1;
    }
    proof {
        lemma_lex_le_skip(a@, b@, i as int);
        if na <= nb {
            assert(a@.skip(i as int).len() == 0);
        } else {
            assert(b@.skip(i as int).len() == 0);
            assert(a@.skip(i as int).len() > 0);
        }
    }
    na <= nb
}

/// Relies on `str::chars`: the characters of the string, in order.
#[verifier::external_body]
pub fn to_chars(s: &str) -> (r: Vec<char>)
    ensures
        r@ == s@,
{
    s.chars().collect()
}

/// Relies on `FromIterator for String`: collecting characters builds the
/// string with exactly those characters.
#[verifier::external_body]
pub fn from_chars(v: &Vec<char>) -> (r: String)
    ensures
        r@ == v@,
{
    v.iter().collect()
}

/// Whether `c` is a Unicode `White_Space` character.
pub fn is_whitespace_char(c: char) -> (r: bool)
    ensures
        r == is_ws(c),
{
    let u: u32 = c as u32;
    (0x9 <= u && u <= 0xd) || u == 0x20 || u == 0x85 || u == 0xa0 || u == 0x1680 || (0x2000 <= u
        && u <= 0x200a) || u == 0x2028 || u == 0x2029 || u == 0x202f || u == 0x205f || u == 0x3000
}

/// The characters `v[a..b]` as a string.
pub fn range_to_string(v: &Vec<char>, a: usize, b: usize) -> (r: String)
    requires
        a <= b <= v@.len(),
    ensures
        r@ == v@.subrange(a as int, b as int),
{
    let mut sub: Vec<char> = Vec::new();
    let mut i: usize = a;
    while i < b
        invariant
            a <= i <= b <= v@.len(),
            sub@ == v@.subrange(a as int, i as int),
        decreases b - i,
    {
        sub.push(v[i]);
        i += 1;
        proof {
            assert(sub@ =~= v@.subrange(a as int, i as int));
        }
    }
    from_chars(&sub)
}

proof fn lemma_trim_front_at(s: Seq<char>, k: int)
    requires
        0 <= k <= s.len(),
        forall|j: int| 0 <= j < k ==> is_ws(s[j]),
        k < s.len() ==> !is_ws(s[k]),
    ensures
        trim_front(s) == s.subrange(k, s.len() as int),
    decreases k,
{
    if k == 0 {
        if s.len() > 0 && is_ws(s[0]) {
            assert(false);
        }
        assert(trim_front(s) =~= s.subrange(0, s.len() as int));
    } else {
        assert(is_ws(s[0]));
        let t = s.drop_first();
        assert(forall|j: int| 0 <= j < k - 1 ==> is_ws(#[trigger] t[j]));
        lemma_trim_front_at(t, k - 1);
        assert(t.subrange(k - 1, t.len() as int) =~= s.subrange(k, s.len() as int));
    }
}

proof fn lemma_trim_end_at(s: Seq<char>, k: int)
    requires
        0 <= k <= s.len(),
        forall|j: int| k <= j < s.len() ==> is_ws(s[j]),
        k > 0 ==> !is_ws(s[k - 1]),
    ensures
        trim_end(s) == s.subrange(0, k),
    decreases s.len(),
{
    if k == s.len() {
        if s.len() > 0 && is_ws(s[s.len() - 1]) {
            assert(false);
        }
        assert(trim_end(s) =~= s.subrange(0, k));
    } else {
        assert(is_ws(s[s.len() - 1]));
        let t = s.drop_last();
        assert(forall|j: int| k <= j < t.len() ==> is_ws(#[trigger] t[j]));
        lemma_trim_end_at(t, k);
        assert(t.subrange(0, k) =~= s.subrange(0, k));
    }
}

/// Bounds of the trimmed region of `v`: the trimmed text is `v[r.0..r.1]`.
pub fn trim_bounds(v: &Vec<char>) -> (r: (usize, usize))
    ensures
        r.0 <= r.1 <= v@.len(),
        v@.subrange(r.0 as int, r.1 as int) == spec_trim(v@),
{
    let n: usize = v.len();
    let mut a: usize = 0;
    while a < n && is_whitespace_char(v[a])
        invariant
            0 <= a <= n == v@.len(),
            forall|j: int| 0 <= j < a ==> is_ws(v@[j]),
        decreases n - a,
    {
        a += 1;
    }
    proof {
        lemma_trim_front_at(v@, a as int);
    }
    if a == n {
        proof {
            assert(trim_front(v@) =~= Seq::<char>::empty());
            assert(spec_trim(v@) =~= v@.subrange(a as int, a as int));
        }
        return (a, a);
    }
    let mut b: usize = n;
    while b > a && is_whitespace_char(v[b - 1])
        invariant
            a <= b <= n == v@.len(),
            forall|j: int| b <= j < n ==> is_ws(v@[j]),
        decreases b,
    {
        b -= 1;
    }
    proof {
        let t = trim_front(v@);
        assert(t == v@.subrange(a as int, v@.len() as int));
        assert(forall|j: int| b - a <= j < t.len() ==> is_ws(#[trigger] t[j]));
        assert(b > a ==> t[b - a - 1] == v@[b - 1]);
        lemma_trim_end_at(t, b - a);
        assert(t.subrange(0, b - a) =~= v@.subrange(a as int, b as int));
    }
    (a, b)
}

/// `str::trim` as a verified function over the characters.
pub fn trim_str(s: &str) -> (r: String)
    ensures
        r@ == spec_trim(s@),
{
    let v: Vec<char> = to_chars(s);
    let (a, b): (usize, usize) = trim_bounds(&v);
    range_to_string(&v, a, b)
}

proof fn lemma_first_nl_at(s: Seq<char>, k: int)
    requires
        0 <= k < s.len(),
        s[k] == '\n',
        forall|j: int| 0 <= j < k ==> s[j] != '\n',
    ensures
        first_nl(s) == k,
    decreases k,
{
    if k == 0 {
    } else {
        let t = s.drop_first();
        assert(forall|j: int| 0 <= j < k - 1 ==> #[trigger] t[j] != '\n');
        lemma_first_nl_at(t, k - 1);
    }
}

proof fn lemma_first_nl_none(s: Seq<char>)
    requires
        forall|j: int| 0 <= j < s.len() ==> s[j] != '\n',
    ensures
        first_nl(s) < 0,
    decreases s.len(),
{
    if s.len() > 0 {
        let t = s.drop_first();
        assert(forall|j: int| 0 <= j < t.len() ==> #[trigger] t[j] != '\n');
        lemma_first_nl_none(t);
    }
}

/// `str::lines` as a verified function: the lines of `s`, in order.
pub fn split_lines(s: &str) -> (r: Vec<String>)
    ensures
        r.deep_view() == spec_lines(s@),
{
    let chars: Vec<char> = to_chars(s);
    let n: usize = chars.len();
    let mut out: Vec<String> = Vec::new();
    let mut start: usize = 0;
    let mut i: usize = 0;
    proof {
        assert(out.deep_view() =~= Seq::<Seq<char>>::empty());
        assert(s@.subrange(0, n as int) =~= s@);
        assert(out.deep_view() + spec_lines(s@) =~= spec_lines(s@));
    }
    while i < n
        invariant
            chars@ == s@,
            n == s@.len(),
            start <= i <= n,
            forall|j: int| start <= j < i ==> s@[j] != '\n',
            spec_lines(s@) == out.deep_view() + spec_lines(s@.subrange(start as int, n as int)),
        decreases n - i,
    {
        if chars[i] == '\n' {
            let mut end: usize = i;
            if end > start && chars[end - 1] == '\r' {
                end -= 1;
            }
            let line: String = range_to_string(&chars, start, end);
            proof {
                let tail = s@.subrange(start as int, n as int);
                assert(tail[i - start] == '\n');
                assert(forall|j: int| 0 <= j < i - start ==> #[trigger] tail[j] != '\n');
                lemma_first_nl_at(tail, i - start);
                assert(tail.subrange(0, i - start) =~= s@.subrange(start as int, i as int));
                assert(strip_cr(tail.subrange(0, i - start)) =~= s@.subrange(
                    start as int,
                    end as int,
                ));
                assert(tail.subrange(i - start + 1, tail.len() as int) =~= s@.subrange(
                    i + 1,
                    n as int,
                ));
                assert(spec_lines(tail) == seq![line@] + spec_lines(s@.subrange(i + 1, n as int)));
            }
            out.push(line);
            proof {
                assert(spec_lines(s@) =~= out.deep_view() + spec_lines(
                    s@.subrange(i + 1, n as int),
                ));
            }
            start = i + 1;
        }
        i += 1;
    }
    if start < n {
        let line: String = range_to_string(&chars, start, n);
        proof {
            let tail = s@.subrange(start as int, n as int);
            assert(forall|j: int| 0 <= j < tail.len() ==> #[trigger] tail[j] != '\n');
            lemma_first_nl_none(tail);
            assert(spec_lines(tail) == seq![tail]);
            assert(spec_lines(s@) =~= out.deep_view().push(tail));
        }
        out.push(line);
        proof {
            assert(out.deep_view() =~= spec_lines(s@));
        }
    } else {
        proof {
            assert(s@.subrange(start as int, n as int) =~= Seq::<char>::empty());
            assert(spec_lines(s@) =~= out.deep_view());
        }
    }
    out
}

proof fn lemma_join_push(lines: Seq<Seq<char>>, x: Seq<char>, sep: char)
    requires
        lines.len() > 0,
    ensures
        join_with(lines.push(x), sep) == join_with(lines, sep) + seq![sep] + x,
    decreases lines.len(),
{
    if lines.len() == 1 {
        let p = lines.push(x);
        assert(p.len() == 2);
        assert(p[0] == lines[0]);
        assert(p.drop_first() =~= seq![x]);
        assert(join_with(seq![x], sep) == x);
    } else {
        let p = lines.push(x);
        assert(p.drop_first() =~= lines.drop_first().push(x));
        lemma_join_push(lines.drop_first(), x, sep);
    }
}

/// The strings `v[a..b]` joined with a newline between them, as
/// `[&str]::join("\n")` computes it.
pub fn join_lines_range(v: &Vec<String>, a: usize, b: usize) -> (r: String)
    requires
        a <= b <= v@.len(),
    ensures
        r@ == join_with(v.deep_view().subrange(a as int, b as int), '\n'),
{
    let mut acc: String = String::new();
    let mut i: usize = a;
    proof {
        assert(v.deep_view().subrange(a as int, a as int) =~= Seq::<Seq<char>>::empty());
    }
    while i < b
        invariant
            a <= i <= b <= v@.len(),
            acc@ == join_with(v.deep_view().subrange(a as int, i as int), '\n'),
        decreases b - i,
    {
        proof {
            reveal_strlit("\n");
        }
        if i > a {
            acc.append("\n");
        }
        acc.append(v[i].as_str());
        proof {
            let dv = v.deep_view();
            let prev = dv.subrange(a as int, i as int);
            assert(dv[i as int] == v@[i as int]@);
            assert(dv.subrange(a as int, i + 1) =~= prev.push(dv[i as int]));
            assert("\n"@ =~= seq!['\n']);
            if i > a {
                lemma_join_push(prev, dv[i as int], '\n');
                assert(acc@ =~= join_with(prev.push(dv[i as int]), '\n'));
            } else {
                assert(prev.len() == 0);
                assert(join_with(prev.push(dv[i as int]), '\n') == dv[i as int]);
                assert(acc@ =~= dv[i as int]);
            }
        }
        i += 1;
    }
    acc
}

/// The decimal digits of `n`, most significant first.
pub open spec fn spec_dec(n: nat) -> Seq<char>
    decreases n,
{
    let digit = ((48 + (n % 10)) as u8) as char;
    if n < 10 {
        seq![digit]
    } else {
        spec_dec(n / 10).push(digit)
    }
}

/// A new vector holding `c` followed by the contents of `v`.
fn prepend_char(c: char, v: &Vec<char>) -> (r: Vec<char>)
    ensures
        r@ == seq![c] + v@,
{
    let mut next: Vec<char> = Vec::new();
    next.push(c);
    let n: usize = v.len();
    let mut k: usize = 0;
    while k < n
        invariant
            k <= n == v@.len(),
            next@ == seq![c] + v@.subrange(0, k as int),
        decreases n - k,
    {
        next.push(v[k]);
        k += 1;
        proof {
            assert(next@ =~= seq![c] + v@.subrange(0, k as int));
        }
    }
    proof {
        assert(v@.subrange(0, n as int) =~= v@);
    }
    next
}

/// The decimal digits of `n` as characters, most significant first.
pub fn dec_chars_u64(n: u64) -> (r: Vec<char>)
    ensures
        r@ == spec_dec(n as nat),
{
    if n == 0 {
        let mut digits: Vec<char> = Vec::new();
        digits.push('0');
        proof {
            assert('0' as u32 == 48);
            assert(spec_dec(0) =~= seq!['0']);
        }
        return digits;
    }
    let mut digits: Vec<char> = Vec::new();
    let mut m: u64 = n;
    while m > 0
        invariant
            m > 0 ==> spec_dec(n as nat) == spec_dec(m as nat) + digits@,
            m == 0 ==> spec_dec(n as nat) == digits@,
        decreases m,
    {
        let d: u64 = m % 10;
        let c: char = (48u8 + (d as u8)) as char;
        let m2: u64 = m / 10;
        proof {
            assert(c as u32 == 48 + d);
            assert(spec_dec(m as nat).last() == c);
            if m2 > 0 {
                assert(spec_dec(m as nat) == spec_dec(m2 as nat).push(c));
                assert(spec_dec(m2 as nat).push(c) + digits@ =~= spec_dec(m2 as nat) + (seq![c]
                    + digits@));
            } else {
                assert(spec_dec(m as nat) =~= seq![c]);
                assert(seq![c] + digits@ =~= spec_dec(m as nat) + digits@);
            }
        }
        digits = prepend_char(c, &digits);
        m = m2;
    }
    digits
}

/// The decimal rendering of `n`, as `format!("{}", n)` produces it.
pub fn dec_u64(n: u64) -> (r: String)
    ensures
        r@ == spec_dec(n as nat),
{
    let digits: Vec<char> = dec_chars_u64(n);
    from_chars(&digits)
}

} // verus!

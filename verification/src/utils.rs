//! Small text utilities shared by the engine: path relativization, quoted
//! text limiting, name and address extraction, and decoders for mail
//! encodings.

use vstd::prelude::*;

use crate::text::is_prefix;
use crate::text::is_substring;
use crate::text::is_suffix;
use crate::text::lower_of;
use crate::text::upper_of;
use crate::text::lowercase;
use crate::text::contains_sub;
use crate::text::from_chars;
use crate::text::starts_with_str;
use crate::text::str_eq;
use crate::text::range_to_string;
use crate::text::to_chars;

verus! {

/// The path `to` made relative to `from`, with paths modelled as
/// `/`-separated strings: the base's own trailing separator, or one added
/// after it, is removed together with the base when `to` lies under
/// `from`, and `to` is returned unchanged otherwise.
pub open spec fn spec_relative_path(from: Seq<char>, to: Seq<char>) -> Seq<char> {
    if from.len() == 0 {
        to
    } else if to == from {
        Seq::empty()
    } else if from[from.len() - 1] == '/' && is_prefix(to, from) {
        to.skip(from.len() as int)
    } else if is_prefix(to, from + seq!['/']) {
        to.skip(from.len() + 1 as int)
    } else {
        to
    }
}

/// Makes `to` relative to `from` when it lies under it; otherwise returns
/// `to` unchanged.
pub fn get_relative_path(from: &str, to: &str) -> (r: String)
    ensures
        r@ == spec_relative_path(from@, to@),
{
    if from.is_empty() {
        let mut out: String = String::new();
        out.append(to);
        return out;
    }
    if str_eq(to, from) {
        return String::new();
    }
    if crate::text::ends_with_str(from, "/") && starts_with_str(to, from) {
        proof {
            reveal_strlit("/");
            assert("/"@.len() == 1);
            assert(from@.subrange(from@.len() - 1, from@.len() as int) == "/"@);
            assert(from@[from@.len() - 1] == from@.subrange(from@.len() - 1, from@.len() as int)[0]);
            assert(from@[from@.len() - 1] == '/');
        }
        let chars: Vec<char> = to_chars(to);
        let cut: usize = from.unicode_len();
        proof {
            assert(to@.skip(cut as int) =~= to@.subrange(cut as int, to@.len() as int));
        }
        return range_to_string(&chars, cut, chars.len());
    }
    let mut pre: String = String::new();
    pre.append(from);
    pre.append("/");
    proof {
        reveal_strlit("/");
        assert(pre@ =~= from@ + seq!['/']);
        if from@[from@.len() - 1] == '/' {
            assert(from@.subrange(from@.len() - 1, from@.len() as int) =~= seq![
                from@[from@.len() - 1],
            ]);
            assert("/"@ =~= seq!['/']);
            assert(crate::text::is_suffix(from@, "/"@));
        }
    }
    if starts_with_str(to, pre.as_str()) {
        let chars: Vec<char> = to_chars(to);
        let cut: usize = pre.as_str().unicode_len();
        proof {
            assert(pre@.len() == from@.len() + 1);
            // a `from + "/"` prefix is in particular a `from` prefix
            assert(to@.subrange(0, from@.len() as int) =~= pre@.subrange(0, from@.len() as int));
            assert(pre@.subrange(0, from@.len() as int) =~= from@);
            assert(is_prefix(to@, from@));
            assert(to@.skip(cut as int) =~= to@.subrange(cut as int, to@.len() as int));
        }
        return range_to_string(&chars, cut, chars.len());
    }
    let mut out: String = String::new();
    out.append(to);
    out
}

/// The number of leading `>` characters of a line: its quote depth.
pub open spec fn quote_level(l: Seq<char>) -> nat
    decreases l.len(),
{
    if l.len() > 0 && l[0] == '>' {
        1 + quote_level(l.drop_first())
    } else {
        0
    }
}

/// The lines whose quote depth is at most `depth`, in order.
pub open spec fn spec_kept_lines(ls: Seq<Seq<char>>, depth: nat) -> Seq<Seq<char>>
    decreases ls.len(),
{
    if ls.len() == 0 {
        Seq::empty()
    } else {
        (if quote_level(ls[0]) <= depth {
            seq![ls[0]]
        } else {
            Seq::empty()
        }) + spec_kept_lines(ls.drop_first(), depth)
    }
}

proof fn lemma_quote_level_at(l: Seq<char>, j: int)
    requires
        0 <= j <= l.len(),
        forall|k: int| 0 <= k < j ==> l[k] == '>',
        j < l.len() ==> l[j] != '>',
    ensures
        quote_level(l) == j,
    decreases j,
{
    if j == 0 {
    } else {
        let t = l.drop_first();
        assert(forall|k: int| 0 <= k < j - 1 ==> #[trigger] t[k] == '>');
        lemma_quote_level_at(t, j - 1);
    }
}

/// Whether the line's quote depth is at most `depth`.
fn quote_level_at_most(line: &str, depth: usize) -> (r: bool)
    ensures
        r == (quote_level(line@) <= depth),
{
    let v: Vec<char> = to_chars(line);
    let n: usize = v.len();
    let mut j: usize = 0;
    while j < n && v[j] == '>'
        invariant
            j <= n == line@.len(),
            v@ == line@,
            forall|k: int| 0 <= k < j ==> line@[k] == '>',
        decreases n - j,
    {
        j += 1;
    }
    proof {
        lemma_quote_level_at(line@, j as int);
    }
    j <= depth
}

/// Drops every line quoted more deeply than `max_depth` and joins the
/// remaining lines with single newlines.
pub fn limit_quote_depth(text: &str, max_depth: usize) -> (r: String)
    ensures
        r@ == crate::text::join_with(
            spec_kept_lines(crate::text::spec_lines(text@), max_depth as nat),
            '\n',
        ),
{
    let lines: Vec<String> = crate::text::split_lines(text);
    let n: usize = lines.len();
    let mut kept: Vec<String> = Vec::new();
    let mut i: usize = 0;
    proof {
        assert(lines.deep_view().skip(0) =~= lines.deep_view());
        assert(kept.deep_view() =~= Seq::<Seq<char>>::empty());
        assert(kept.deep_view() + spec_kept_lines(lines.deep_view(), max_depth as nat)
            =~= spec_kept_lines(lines.deep_view(), max_depth as nat));
    }
    while i < n
        invariant
            i <= n == lines@.len(),
            lines.deep_view() == crate::text::spec_lines(text@),
            spec_kept_lines(lines.deep_view(), max_depth as nat) == kept.deep_view()
                + spec_kept_lines(lines.deep_view().skip(i as int), max_depth as nat),
        decreases n - i,
    {
        proof {
            let dv = lines.deep_view();
            let t = dv.skip(i as int);
            assert(t[0] == dv[i as int]);
            assert(dv[i as int] == lines@[i as int]@);
            assert(t.drop_first() =~= dv.skip(i + 1));
        }
        if quote_level_at_most(lines[i].as_str(), max_depth) {
            let ghost before = kept.deep_view();
            kept.push(lines[i].clone());
            proof {
                assert(kept.deep_view() =~= before.push(lines@[i as int]@));
                assert(spec_kept_lines(lines.deep_view(), max_depth as nat) =~= kept.deep_view()
                    + spec_kept_lines(lines.deep_view().skip(i + 1), max_depth as nat));
            }
        } else {
            proof {
                assert(spec_kept_lines(lines.deep_view(), max_depth as nat) =~= kept.deep_view()
                    + spec_kept_lines(lines.deep_view().skip(i + 1), max_depth as nat));
            }
        }
        i += 1;
    }
    proof {
        assert(lines.deep_view().skip(n as int) =~= Seq::<Seq<char>>::empty());
        assert(kept.deep_view().subrange(0, kept.deep_view().len() as int) =~= kept.deep_view());
    }
    let out: String = crate::text::join_lines_range(&kept, 0, kept.len());
    out
}

/// Every character a filesystem may object to, replaced by an underscore.
pub open spec fn spec_sanitize_filename(s: Seq<char>) -> Seq<char> {
    s.map_values(
        |c: char|
            if c == '<' || c == '>' || c == ':' || c == '"' || c == '/' || c == '\\' || c == '|'
                || c == '?' || c == '*' {
                '_'
            } else {
                c
            },
    )
}

/// Replaces the characters `< > : " / \\ | ? *` with underscores.
pub fn sanitize_filename(filename: &str) -> (r: String)
    ensures
        r@ == spec_sanitize_filename(filename@),
{
    let v: Vec<char> = to_chars(filename);
    let n: usize = v.len();
    let mut out: Vec<char> = Vec::new();
    let mut i: usize = 0;
    while i < n
        invariant
            i <= n == filename@.len(),
            v@ == filename@,
            out@.len() == i,
            forall|j: int| 0 <= j < i ==> out@[j] == spec_sanitize_filename(filename@)[j],
        decreases n - i,
    {
        let c: char = v[i];
        if c == '<' || c == '>' || c == ':' || c == '"' || c == '/' || c == '\\' || c == '|' || c
            == '?' || c == '*' {
            out.push('_');
        } else {
            out.push(c);
        }
        i += 1;
    }
    proof {
        assert(out@ =~= spec_sanitize_filename(filename@));
    }
    crate::text::from_chars(&out)
}

/// The byte-size limit under which a name matching a signature pattern is
/// taken for a signature image: signatures are the smallest, logos a bit
/// larger, other matches larger still.
pub open spec fn spec_signature_size_limit(fl: Seq<char>) -> int {
    if is_substring(fl, "signature"@) {
        51200
    } else if is_substring(fl, "logo"@) {
        61440
    } else {
        81920
    }
}

/// Whether an attachment looks like a signature or logo image rather than
/// real content: a signature-like name under its size limit, any small
/// image, an inline disposition, or a small image with a generic name.
pub open spec fn spec_is_signature_image(
    filename: Option<Seq<char>>,
    content_type: Seq<char>,
    payload_size: int,
    content_disposition: Option<Seq<char>>,
) -> bool {
    let fl = lower_of(
        match filename {
            Some(f) => f,
            None => Seq::empty(),
        },
    );
    let name_match = is_substring(fl, "signature"@) || is_substring(fl, "logo"@) || is_substring(
        fl,
        "banner"@,
    ) || is_substring(fl, "footer"@) || is_substring(fl, "header"@) || is_substring(fl, "company"@)
        || is_substring(fl, "corporate"@) || is_substring(fl, "brand"@) || is_substring(
        fl,
        "societe"@,
    ) || is_substring(fl, "entreprise"@);
    let ext_match = is_suffix(fl, ".png"@) || is_suffix(fl, ".jpg"@) || is_suffix(fl, ".jpeg"@)
        || is_suffix(fl, ".gif"@) || is_suffix(fl, ".bmp"@) || is_suffix(fl, ".svg"@);
    let generic_match = is_prefix(fl, "image"@) || is_prefix(fl, "img"@) || is_prefix(
        fl,
        "picture"@,
    ) || is_prefix(fl, "pic"@) || is_prefix(fl, "photo"@);
    ||| (name_match && payload_size < spec_signature_size_limit(fl))
    ||| (is_prefix(content_type, "image/"@) && payload_size < 51200)
    ||| (match content_disposition {
        Some(d) => is_substring(lower_of(d), "inline"@),
        None => false,
    })
    ||| (ext_match && payload_size < 102400 && generic_match)
}

/// Decides whether an attachment is a signature or logo image from its
/// name, content type, size and disposition.
pub fn is_signature_image(
    attachment_filename: Option<&str>,
    content_type: &str,
    payload_size: usize,
    content_disposition: Option<&str>,
) -> (r: bool)
    ensures
        r == spec_is_signature_image(
            match attachment_filename {
                Some(f) => Some(f@),
                None => None,
            },
            content_type@,
            payload_size as int,
            match content_disposition {
                Some(d) => Some(d@),
                None => None,
            },
        ),
{
    let filename_lower: String = match attachment_filename {
        Some(f) => lowercase(f),
        None => lowercase(""),
    };
    let fl: &str = filename_lower.as_str();
    proof {
        reveal_strlit("");
        assert(""@ =~= Seq::<char>::empty());
    }

    let name_match: bool = contains_sub(fl, "signature") || contains_sub(fl, "logo")
        || contains_sub(fl, "banner") || contains_sub(fl, "footer") || contains_sub(fl, "header")
        || contains_sub(fl, "company") || contains_sub(fl, "corporate") || contains_sub(
        fl,
        "brand",
    ) || contains_sub(fl, "societe") || contains_sub(fl, "entreprise");
    if name_match {
        let size_limit: usize = if contains_sub(fl, "signature") {
            51200
        } else if contains_sub(fl, "logo") {
            61440
        } else {
            81920
        };
        if payload_size < size_limit {
            return true;
        }
    }

    if starts_with_str(content_type, "image/") && payload_size < 51200 {
        return true;
    }

    match content_disposition {
        Some(disposition) => {
            let dl: String = lowercase(disposition);
            if contains_sub(dl.as_str(), "inline") {
                return true;
            }
        },
        None => {},
    }

    let ext_match: bool = crate::text::ends_with_str(fl, ".png") || crate::text::ends_with_str(
        fl,
        ".jpg",
    ) || crate::text::ends_with_str(fl, ".jpeg") || crate::text::ends_with_str(fl, ".gif")
        || crate::text::ends_with_str(fl, ".bmp") || crate::text::ends_with_str(fl, ".svg");
    if ext_match && payload_size < 102400 {
        let generic_match: bool = starts_with_str(fl, "image") || starts_with_str(fl, "img")
            || starts_with_str(fl, "picture") || starts_with_str(fl, "pic") || starts_with_str(
            fl,
            "photo",
        );
        if generic_match {
            return true;
        }
    }

    false
}

/// The base64 alphabet value of a character, compared through its low
/// byte as the table lookup does: letters, digits, `+` and `/`.
pub open spec fn spec_b64_val(c: char) -> Option<u8> {
    let b = c as u8;
    if 65 <= b <= 90 {
        Some((b - 65) as u8)
    } else if 97 <= b <= 122 {
        Some(((b - 97) + 26) as u8)
    } else if 48 <= b <= 57 {
        Some(((b - 48) + 52) as u8)
    } else if b == 43 {
        Some(62u8)
    } else if b == 47 {
        Some(63u8)
    } else {
        None
    }
}

/// The power of two for the pending-bit counts the bit accumulator can
/// hold after a byte is emitted.
pub open spec fn spec_bit_div(bits: int) -> int {
    if bits == 2 {
        4
    } else if bits == 4 {
        16
    } else if bits == 6 {
        64
    } else {
        1
    }
}

/// The bytes decoded from base64 text by a 6-bit accumulator: decoding
/// stops at the first `=`, and any character outside the alphabet makes
/// the whole decode fail.
pub open spec fn spec_b64_bytes(s: Seq<char>, buffer: int, bits: int) -> Option<Seq<u8>>
    decreases s.len(),
{
    if s.len() == 0 {
        Some(Seq::empty())
    } else if s[0] == '=' {
        Some(Seq::empty())
    } else {
        match spec_b64_val(s[0]) {
            None => None,
            Some(v) => {
                let buf2 = buffer * 64 + v;
                let bits2 = bits + 6;
                if bits2 >= 8 {
                    let rem = bits2 - 8;
                    let byte = buf2 / spec_bit_div(rem);
                    match spec_b64_bytes(s.drop_first(), buf2 % spec_bit_div(rem), rem) {
                        None => None,
                        Some(rest) => Some(seq![byte as u8] + rest),
                    }
                } else {
                    spec_b64_bytes(s.drop_first(), buf2, bits2)
                }
            },
        }
    }
}

/// The base64 alphabet value of a character.
fn b64_char_val(c: char) -> (r: Option<u8>)
    ensures
        r == spec_b64_val(c),
{
    let b: u8 = c as u8;
    if 65 <= b && b <= 90 {
        Some(b - 65)
    } else if 97 <= b && b <= 122 {
        Some((b - 97) + 26)
    } else if 48 <= b && b <= 57 {
        Some((b - 48) + 52)
    } else if b == 43 {
        Some(62)
    } else if b == 47 {
        Some(63)
    } else {
        None
    }
}

/// Decodes plain base64 text into bytes with a 6-bit accumulator,
/// stopping at `=` and failing on any character outside the alphabet.
pub fn base64_decode_simple(input: &str) -> (r: Option<Vec<u8>>)
    ensures
        match r {
            Some(v) => spec_b64_bytes(input@, 0, 0) == Some(v@),
            None => spec_b64_bytes(input@, 0, 0) is None,
        },
{
    let chars: Vec<char> = to_chars(input);
    let n: usize = chars.len();
    let mut out: Vec<u8> = Vec::new();
    let mut buffer: u32 = 0;
    let mut bits: u32 = 0;
    let mut i: usize = 0;
    proof {
        assert(input@.skip(0) =~= input@);
        assert(out@ + Seq::<u8>::empty() =~= out@);
    }
    while i < n
        invariant
            i <= n == input@.len(),
            chars@ == input@,
            bits == 0 || bits == 2 || bits == 4 || bits == 6,
            buffer < spec_bit_div(bits as int),
            (match spec_b64_bytes(input@.skip(i as int), buffer as int, bits as int) {
                Some(rest) => spec_b64_bytes(input@, 0, 0) == Some(out@ + rest),
                None => spec_b64_bytes(input@, 0, 0) is None,
            }),
        decreases n - i,
    {
        let c: char = chars[i];
        proof {
            let t = input@.skip(i as int);
            assert(t[0] == input@[i as int]);
            assert(t.drop_first() =~= input@.skip(i + 1));
        }
        if c == '=' {
            proof {
                let t = input@.skip(i as int);
                assert(spec_b64_bytes(t, buffer as int, bits as int) == Some(Seq::<u8>::empty()));
                assert(out@ + Seq::<u8>::empty() =~= out@);
            }
            return Some(out);
        }
        match b64_char_val(c) {
            None => {
                return None;
            },
            Some(v) => {
                let buf2: u32 = buffer * 64 + (v as u32);
                let bits2: u32 = bits + 6;
                if bits2 >= 8 {
                    let rem: u32 = bits2 - 8;
                    let divisor: u32 = if rem == 2 {
                        4
                    } else if rem == 4 {
                        16
                    } else {
                        1
                    };
                    proof {
                        assert(divisor == spec_bit_div(rem as int));
                    }
                    let byte: u8 = (buf2 / divisor) as u8;
                    let ghost oldout = out@;
                    out.push(byte);
                    proof {
                        assert(out@ =~= oldout.push(byte));
                    }
                    buffer = buf2 % divisor;
                    bits = rem;
                } else {
                    buffer = buf2;
                    bits = bits2;
                }
            },
        }
        i += 1;
        proof {
            let t = input@.skip(i as int);
            match spec_b64_bytes(t, buffer as int, bits as int) {
                Some(rest) => {
                    assert(spec_b64_bytes(input@, 0, 0) matches Some(w) && w =~= out@ + rest);
                },
                None => {},
            }
        }
    }
    proof {
        assert(input@.skip(n as int) =~= Seq::<char>::empty());
        assert(out@ + Seq::<u8>::empty() =~= out@);
    }
    Some(out)
}

/// Big-endian byte pairs as 16-bit units.
pub open spec fn spec_bytes_to_u16s(b: Seq<u8>) -> Seq<u16>
    decreases b.len(),
{
    if b.len() < 2 {
        Seq::empty()
    } else {
        seq![(b[0] as int * 256 + b[1] as int) as u16] + spec_bytes_to_u16s(b.skip(2))
    }
}

/// The characters of a UTF-16 unit sequence: surrogate pairs combine,
/// lone surrogates make the whole decode fail.
pub open spec fn spec_utf16_chars(u: Seq<u16>) -> Option<Seq<char>>
    decreases u.len(),
{
    if u.len() == 0 {
        Some(Seq::empty())
    } else {
        let x = u[0] as int;
        if 0xd800 <= x < 0xdc00 {
            if u.len() >= 2 && 0xdc00 <= (u[1] as int) && (u[1] as int) < 0xe000 {
                let cp = 0x10000 + (x - 0xd800) * 0x400 + (u[1] as int - 0xdc00);
                match spec_utf16_chars(u.skip(2)) {
                    None => None,
                    Some(rest) => Some(seq![(cp as u32) as char] + rest),
                }
            } else {
                None
            }
        } else if 0xdc00 <= x < 0xe000 {
            None
        } else {
            match spec_utf16_chars(u.drop_first()) {
                None => None,
                Some(rest) => Some(seq![(x as u32) as char] + rest),
            }
        }
    }
}

/// Relies on `char::from_u32`: yields the character for every valid
/// Unicode scalar value and nothing for surrogates and out-of-range
/// values.
#[verifier::external_body]
fn char_from_u32(x: u32) -> (r: Option<char>)
    ensures
        match r {
            Some(c) => c as u32 == x && (x < 0xd800 || (0xe000 <= x && x <= 0x10ffff)),
            None => !(x < 0xd800 || (0xe000 <= x && x <= 0x10ffff)),
        },
{
    char::from_u32(x)
}

/// Decodes UTF-16 units into characters; fails on lone surrogates, as
/// `String::from_utf16` does.
fn utf16_chars(units: &Vec<u16>) -> (r: Option<Vec<char>>)
    ensures
        match r {
            Some(v) => spec_utf16_chars(units@) == Some(v@),
            None => spec_utf16_chars(units@) is None,
        },
{
    let n: usize = units.len();
    let mut out: Vec<char> = Vec::new();
    let mut i: usize = 0;
    proof {
        assert(units@.skip(0) =~= units@);
        assert(out@ + Seq::<char>::empty() =~= out@);
    }
    while i < n
        invariant
            i <= n == units@.len(),
            (match spec_utf16_chars(units@.skip(i as int)) {
                Some(rest) => spec_utf16_chars(units@) == Some(out@ + rest),
                None => spec_utf16_chars(units@) is None,
            }),
        decreases n - i,
    {
        let x: u16 = units[i];
        proof {
            let t = units@.skip(i as int);
            assert(t[0] == units@[i as int]);
            assert(t.drop_first() =~= units@.skip(i + 1));
            if i + 1 < n {
                assert(t[1] == units@[i + 1]);
                assert(t.skip(2) =~= units@.skip(i + 2));
            }
        }
        if 0xd800 <= x && x < 0xdc00 {
            if i + 1 < n && 0xdc00 <= units[i + 1] && units[i + 1] < 0xe000 {
                let y: u16 = units[i + 1];
                let cp: u32 = 0x10000 + ((x as u32) - 0xd800) * 0x400 + ((y as u32) - 0xdc00);
                match char_from_u32(cp) {
                    Some(c) => {
                        let ghost oldout = out@;
                        out.push(c);
                        proof {
                            assert(c as u32 == cp);
                            vstd::utf8::char_u32_cast(c, cp);
                            assert(out@ =~= oldout.push(c));
                        }
                        i += 2;
                    },
                    None => {
                        proof {
                            assert(false);
                        }
                        return None;
                    },
                }
            } else {
                return None;
            }
        } else if 0xdc00 <= x && x < 0xe000 {
            return None;
        } else {
            match char_from_u32(x as u32) {
                Some(c) => {
                    let ghost oldout = out@;
                    out.push(c);
                    proof {
                        assert(c as u32 == x as u32);
                        vstd::utf8::char_u32_cast(c, x as u32);
                        assert(out@ =~= oldout.push(c));
                    }
                    i += 1;
                },
                None => {
                    proof {
                        assert(false);
                    }
                    return None;
                },
            }
        }
        proof {
            let t = units@.skip(i as int);
            match spec_utf16_chars(t) {
                Some(rest) => {
                    assert(spec_utf16_chars(units@) matches Some(w) && w =~= out@ + rest);
                },
                None => {},
            }
        }
    }
    proof {
        assert(units@.skip(n as int) =~= Seq::<u16>::empty());
        assert(out@ + Seq::<char>::empty() =~= out@);
    }
    Some(out)
}

/// What decoding one IMAP modified-base64 run yields: commas become
/// slashes, the text is base64-decoded, and the bytes are read as
/// big-endian UTF-16; any failure along the way fails the run.
pub open spec fn spec_mb64(s: Seq<char>) -> Option<Seq<char>> {
    let std64 = s.map_values(
        |c: char|
            if c == ',' {
                '/'
            } else {
                c
            },
    );
    match spec_b64_bytes(std64, 0, 0) {
        None => None,
        Some(bytes) => {
            if bytes.len() % 2 != 0 {
                None
            } else {
                spec_utf16_chars(spec_bytes_to_u16s(bytes))
            }
        },
    }
}

/// Decodes one IMAP modified-base64 run (as found between `&` and `-`)
/// into text; `None` when it is not well-formed.
pub fn decode_modified_base64(encoded: &str) -> (r: Option<String>)
    ensures
        match r {
            Some(t) => spec_mb64(encoded@) == Some(t@),
            None => spec_mb64(encoded@) is None,
        },
{
    let v: Vec<char> = to_chars(encoded);
    let n: usize = v.len();
    let mut std64: Vec<char> = Vec::new();
    let mut i: usize = 0;
    while i < n
        invariant
            i <= n == encoded@.len(),
            v@ == encoded@,
            std64@.len() == i,
            forall|j: int|
                0 <= j < i ==> std64@[j] == (if encoded@[j] == ',' {
                    '/'
                } else {
                    encoded@[j]
                }),
        decreases n - i,
    {
        let c: char = v[i];
        if c == ',' {
            std64.push('/');
        } else {
            std64.push(c);
        }
        i += 1;
    }
    proof {
        assert(std64@ =~= encoded@.map_values(
            |c: char|
                if c == ',' {
                    '/'
                } else {
                    c
                },
        ));
    }
    let text: String = from_chars(&std64);
    let bytes: Vec<u8> = match base64_decode_simple(text.as_str()) {
        Some(b) => b,
        None => {
            return None;
        },
    };
    if bytes.len() % 2 != 0 {
        return None;
    }
    let m: usize = bytes.len();
    let mut units: Vec<u16> = Vec::new();
    let mut k: usize = 0;
    proof {
        assert(bytes@.skip(0) =~= bytes@);
        assert(units@ + spec_bytes_to_u16s(bytes@) =~= spec_bytes_to_u16s(bytes@));
    }
    while k + 1 < m
        invariant
            k <= m == bytes@.len(),
            k % 2 == 0,
            m % 2 == 0,
            spec_bytes_to_u16s(bytes@) == units@ + spec_bytes_to_u16s(bytes@.skip(k as int)),
        decreases m - k,
    {
        proof {
            let t = bytes@.skip(k as int);
            assert(t[0] == bytes@[k as int] && t[1] == bytes@[k + 1]);
            assert(t.skip(2) =~= bytes@.skip(k + 2));
        }
        let hi: u16 = bytes[k] as u16;
        let lo: u16 = bytes[k + 1] as u16;
        let ghost oldu = units@;
        units.push(hi * 256 + lo);
        proof {
            assert(units@ =~= oldu.push((bytes@[k as int] as int * 256 + bytes@[k + 1] as int)
                as u16));
            assert(spec_bytes_to_u16s(bytes@) =~= units@ + spec_bytes_to_u16s(bytes@.skip(k + 2)));
        }
        k += 2;
    }
    proof {
        assert(k == m);
        assert(spec_bytes_to_u16s(bytes@.skip(m as int)) =~= Seq::<u16>::empty());
        assert(units@ + Seq::<u16>::empty() =~= units@);
    }
    match utf16_chars(&units) {
        Some(cs) => Some(from_chars(&cs)),
        None => None,
    }
}

/// Index of the first `-` at or after `from`, or -1 when there is none.
pub open spec fn first_dash(s: Seq<char>, from: int) -> int
    decreases s.len() - from,
{
    if !(0 <= from < s.len()) {
        -1
    } else if s[from] == '-' {
        from
    } else {
        first_dash(s, from + 1)
    }
}

proof fn lemma_first_dash_at(s: Seq<char>, from: int, k: int)
    requires
        0 <= from <= k < s.len(),
        s[k] == '-',
        forall|j: int| from <= j < k ==> s[j] != '-',
    ensures
        first_dash(s, from) == k,
    decreases k - from,
{
    if from < k {
        lemma_first_dash_at(s, from + 1, k);
    }
}

proof fn lemma_first_dash_none(s: Seq<char>, from: int)
    requires
        forall|j: int| from <= j < s.len() ==> s[j] != '-',
    ensures
        first_dash(s, from) < 0,
    decreases s.len() - from,
{
    if 0 <= from < s.len() {
        lemma_first_dash_none(s, from + 1);
    }
}

/// What decoding IMAP modified UTF-7 yields: plain characters pass
/// through, `&-` is a literal ampersand, and each `&...-` run is decoded
/// as modified base64, kept as written (with a closing dash appended) when
/// it does not decode.
pub open spec fn spec_imap7(s: Seq<char>) -> Seq<char>
    decreases s.len(),
{
    if s.len() == 0 {
        Seq::empty()
    } else if s[0] != '&' {
        seq![s[0]] + spec_imap7(s.drop_first())
    } else if s.len() >= 2 && s[1] == '-' {
        seq!['&'] + spec_imap7(s.skip(2))
    } else {
        let i = first_dash(s, 1);
        if !(1 <= i < s.len()) {
            let enc = s.skip(1);
            if enc.len() == 0 {
                seq!['&']
            } else {
                match spec_mb64(enc) {
                    Some(d) => d,
                    None => seq!['&'] + enc + seq!['-'],
                }
            }
        } else {
            let enc = s.subrange(1, i);
            let rest = s.skip(i + 1);
            if enc.len() == 0 {
                seq!['&'] + spec_imap7(rest)
            } else {
                match spec_mb64(enc) {
                    Some(d) => d + spec_imap7(rest),
                    None => seq!['&'] + enc + seq!['-'] + spec_imap7(rest),
                }
            }
        }
    }
}

/// Appends the characters of `s` to `out`.
fn push_str_chars(out: &mut Vec<char>, s: &str)
    ensures
        final(out)@ == old(out)@ + s@,
{
    let v: Vec<char> = to_chars(s);
    let n: usize = v.len();
    let mut i: usize = 0;
    proof {
        assert(out@ =~= old(out)@ + v@.subrange(0, 0));
    }
    while i < n
        invariant
            i <= n == s@.len(),
            v@ == s@,
            out@ == old(out)@ + s@.subrange(0, i as int),
        decreases n - i,
    {
        out.push(v[i]);
        i += 1;
        proof {
            assert(out@ =~= old(out)@ + s@.subrange(0, i as int));
        }
    }
    proof {
        assert(s@.subrange(0, n as int) =~= s@);
    }
}

/// Decodes an IMAP modified UTF-7 folder name: `&-` becomes `&`, and each
/// `&...-` run is decoded as modified base64 UTF-16; runs that do not
/// decode are kept as written.
pub fn decode_imap_utf7(encoded_str: &str) -> (r: String)
    ensures
        r@ == spec_imap7(encoded_str@),
{
    let v: Vec<char> = to_chars(encoded_str);
    let n: usize = v.len();
    let mut out: Vec<char> = Vec::new();
    let mut i: usize = 0;
    proof {
        assert(encoded_str@.skip(0) =~= encoded_str@);
        assert(out@ + spec_imap7(encoded_str@) =~= spec_imap7(encoded_str@));
    }
    while i < n
        invariant
            i <= n == encoded_str@.len(),
            v@ == encoded_str@,
            spec_imap7(encoded_str@) == out@ + spec_imap7(encoded_str@.skip(i as int)),
        decreases n - i,
    {
        let ghost t = encoded_str@.skip(i as int);
        proof {
            assert(t[0] == encoded_str@[i as int]);
        }
        let c: char = v[i];
        if c != '&' {
            out.push(c);
            proof {
                assert(t.drop_first() =~= encoded_str@.skip(i + 1));
                assert(spec_imap7(encoded_str@) =~= out@ + spec_imap7(encoded_str@.skip(i + 1)));
            }
            i += 1;
        } else if i + 1 < n && v[i + 1] == '-' {
            out.push('&');
            proof {
                assert(t[1] == encoded_str@[i + 1]);
                assert(t.skip(2) =~= encoded_str@.skip(i + 2));
                assert(spec_imap7(encoded_str@) =~= out@ + spec_imap7(encoded_str@.skip(i + 2)));
            }
            i += 2;
        } else {
            // find the closing dash
            let mut j: usize = i + 1;
            while j < n && v[j] != '-'
                invariant
                    i + 1 <= j <= n,
                    n == encoded_str@.len(),
                    v@ == encoded_str@,
                    forall|k2: int| i + 1 <= k2 < j ==> encoded_str@[k2] != '-',
                decreases n - j,
            {
                j += 1;
            }
            proof {
                if i + 1 < n {
                    assert(t[1] == encoded_str@[i + 1]);
                }
                assert(forall|k2: int| 1 <= k2 < j - i ==> t[k2] == encoded_str@[i + k2]);
                if j < n {
                    assert(t[j - i] == encoded_str@[j as int]);
                    lemma_first_dash_at(t, 1, j - i);
                } else {
                    assert(forall|k2: int| 1 <= k2 < t.len() ==> t[k2] != '-');
                    lemma_first_dash_none(t, 1);
                }
            }
            if j >= n {
                // no closing dash: the rest of the string is the run
                let enc: String = range_to_string(&v, i + 1, n);
                proof {
                    assert(enc@ =~= t.skip(1));
                }
                if enc.as_str().is_empty() {
                    out.push('&');
                    proof {
                        assert(spec_imap7(t) =~= seq!['&']);
                        assert(spec_imap7(encoded_str@) =~= out@ + Seq::<char>::empty());
                        assert(encoded_str@.skip(n as int) =~= Seq::<char>::empty());
                        assert(spec_imap7(encoded_str@) =~= out@ + spec_imap7(
                            encoded_str@.skip(n as int),
                        ));
                    }
                } else {
                    match decode_modified_base64(enc.as_str()) {
                        Some(d) => {
                            push_str_chars(&mut out, d.as_str());
                        },
                        None => {
                            out.push('&');
                            push_str_chars(&mut out, enc.as_str());
                            out.push('-');
                        },
                    }
                    proof {
                        assert(encoded_str@.skip(n as int) =~= Seq::<char>::empty());
                        assert(spec_imap7(encoded_str@) =~= out@ + spec_imap7(
                            encoded_str@.skip(n as int),
                        ));
                    }
                }
                i = n;
            } else {
                // run between i+1 and j, dash consumed
                let enc: String = range_to_string(&v, i + 1, j);
                proof {
                    assert(enc@ =~= t.subrange(1, j - i));
                    assert(t.skip(j - i + 1) =~= encoded_str@.skip(j + 1));
                }
                match decode_modified_base64(enc.as_str()) {
                    Some(d) => {
                        push_str_chars(&mut out, d.as_str());
                    },
                    None => {
                        out.push('&');
                        push_str_chars(&mut out, enc.as_str());
                        out.push('-');
                    },
                }
                proof {
                    assert(spec_imap7(encoded_str@) =~= out@ + spec_imap7(encoded_str@.skip(j + 1)));
                }
                i = j + 1;
            }
        }
    }
    proof {
        assert(encoded_str@.skip(n as int) =~= Seq::<char>::empty());
        assert(out@ + Seq::<char>::empty() =~= out@);
    }
    from_chars(&out)
}

/// The MD5 digest of a text's UTF-8 bytes as 32 lowercase hex digits; a
/// function of the text alone.
pub uninterp spec fn md5_hex_of(s: Seq<char>) -> Seq<char>;

/// Relies on `md5::compute` and the digest's `LowerHex` rendering: a
/// 16-byte digest printed as 32 lowercase hex digits, depending on the
/// text alone.
#[verifier::external_body]
fn md5_hex(text: &str) -> (r: String)
    ensures
        r@ == md5_hex_of(text@),
        r@.len() == 32,
{
    format!("{:x}", md5::compute(text.as_bytes()))
}

/// The first `length` hex digits of the text's MD5 digest (all 32 when
/// `length` is larger).
pub fn hash_md5_prefix(text: &str, length: usize) -> (r: String)
    ensures
        r@ == (if length <= 32 {
            md5_hex_of(text@).subrange(0, length as int)
        } else {
            md5_hex_of(text@)
        }),
        r@.len() == (if length <= 32 {
            length as int
        } else {
            32int
        }),
{
    let h: String = md5_hex(text);
    let v: Vec<char> = to_chars(h.as_str());
    let cut: usize = if length <= 32 {
        length
    } else {
        32
    };
    let out: String = crate::text::range_to_string(&v, 0, cut);
    proof {
        if length > 32 {
            assert(md5_hex_of(text@).subrange(0, 32) =~= md5_hex_of(text@));
        }
    }
    out
}

/// The number of leading newlines of a sequence.
pub open spec fn nl_run(s: Seq<char>) -> nat
    decreases s.len(),
{
    if s.len() > 0 && s[0] == '\n' {
        1 + nl_run(s.drop_first())
    } else {
        0
    }
}

proof fn lemma_nl_run_at(s: Seq<char>, j: int)
    requires
        0 <= j <= s.len(),
        forall|k: int| 0 <= k < j ==> s[k] == '\n',
        j < s.len() ==> s[j] != '\n',
    ensures
        nl_run(s) == j,
    decreases j,
{
    if j > 0 {
        let t = s.drop_first();
        assert(forall|k: int| 0 <= k < j - 1 ==> #[trigger] t[k] == '\n');
        lemma_nl_run_at(t, j - 1);
    }
}

/// Newline runs collapsed: every maximal run of three or more newlines
/// becomes exactly two; shorter runs and other characters pass through.
pub open spec fn spec_normalize_breaks(s: Seq<char>) -> Seq<char>
    decreases s.len(),
{
    if s.len() == 0 {
        Seq::empty()
    } else if s[0] != '\n' {
        seq![s[0]] + spec_normalize_breaks(s.drop_first())
    } else {
        let r = nl_run(s) as int;
        if 1 <= r <= s.len() {
            (if r >= 3 {
                seq!['\n', '\n']
            } else {
                s.take(r)
            }) + spec_normalize_breaks(s.skip(r))
        } else {
            seq![s[0]] + spec_normalize_breaks(s.drop_first())
        }
    }
}

/// Collapses every run of three or more consecutive newlines to exactly
/// two.
pub fn normalize_line_breaks(text: &str) -> (r: String)
    ensures
        r@ == spec_normalize_breaks(text@),
{
    let v: Vec<char> = to_chars(text);
    let n: usize = v.len();
    let mut out: Vec<char> = Vec::new();
    let mut i: usize = 0;
    proof {
        assert(text@.skip(0) =~= text@);
        assert(out@ + spec_normalize_breaks(text@) =~= spec_normalize_breaks(text@));
    }
    while i < n
        invariant
            i <= n == text@.len(),
            v@ == text@,
            spec_normalize_breaks(text@) == out@ + spec_normalize_breaks(text@.skip(i as int)),
        decreases n - i,
    {
        let ghost t = text@.skip(i as int);
        proof {
            assert(t[0] == text@[i as int]);
        }
        if v[i] != '\n' {
            out.push(v[i]);
            proof {
                assert(t.drop_first() =~= text@.skip(i + 1));
                assert(spec_normalize_breaks(text@) =~= out@ + spec_normalize_breaks(
                    text@.skip(i + 1),
                ));
            }
            i += 1;
        } else {
            let mut j: usize = i;
            while j < n && v[j] == '\n'
                invariant
                    i <= j <= n,
                    n == text@.len(),
                    v@ == text@,
                    forall|k: int| i <= k < j ==> text@[k] == '\n',
                decreases n - j,
            {
                j += 1;
            }
            proof {
                assert(forall|k: int| 0 <= k < j - i ==> #[trigger] t[k] == '\n');
                if j < n {
                    assert(t[j - i] == text@[j as int]);
                }
                lemma_nl_run_at(t, j - i);
            }
            let run: usize = j - i;
            let ghost before = out@;
            if run >= 3 {
                out.push('\n');
                out.push('\n');
                proof {
                    assert(out@ =~= before + seq!['\n', '\n']);
                }
            } else {
                let mut k: usize = 0;
                proof {
                    assert(out@ =~= before + text@.subrange(i as int, i as int));
                }
                while k < run
                    invariant
                        k <= run,
                        i + run <= n == text@.len(),
                        v@ == text@,
                        forall|k2: int| i <= k2 < i + run ==> text@[k2] == '\n',
                        out@ == before + text@.subrange(i as int, i + k),
                    decreases run - k,
                {
                    out.push('\n');
                    k += 1;
                    proof {
                        assert(text@[i + k - 1] == '\n');
                        assert(out@ =~= before + text@.subrange(i as int, i + k));
                    }
                }
            }
            proof {
                assert(t.skip(j - i) =~= text@.skip(j as int));
                if run >= 3 {
                    assert(spec_normalize_breaks(t) =~= seq!['\n', '\n'] + spec_normalize_breaks(
                        text@.skip(j as int),
                    ));
                } else {
                    assert(t.take(j - i) =~= text@.subrange(i as int, j as int));
                    assert(forall|k2: int|
                        0 <= k2 < run ==> #[trigger] text@.subrange(i as int, j as int)[k2]
                            == '\n');
                }
                assert(spec_normalize_breaks(text@) =~= out@ + spec_normalize_breaks(
                    text@.skip(j as int),
                ));
            }
            i = j;
        }
    }
    proof {
        assert(text@.skip(n as int) =~= Seq::<char>::empty());
        assert(out@ + Seq::<char>::empty() =~= out@);
    }
    from_chars(&out)
}

/// What `Regex::find_iter` yields for a pattern over a text: the matched
/// substrings of each non-overlapping leftmost match, in order; a function
/// of the two arguments alone.
pub uninterp spec fn regex_matches_of(pattern: Seq<char>, text: Seq<char>) -> Seq<Seq<char>>;

/// Relies on `Regex::new` and `Regex::find_iter`: the non-overlapping
/// leftmost matches of the pattern, in order.
#[verifier::external_body]
fn regex_find_all(pattern: &str, text: &str) -> (r: Vec<String>)
    ensures
        r.deep_view() == regex_matches_of(pattern@, text@),
{
    match regex::Regex::new(pattern) {
        Ok(re) => re.find_iter(text).map(|m| m.as_str().to_string()).collect(),
        Err(_) => Vec::new(),
    }
}

/// Extracts the email addresses occurring in a text, lowercased, in
/// order of appearance; an absent text yields no addresses.
pub fn extract_emails(text: Option<&str>) -> (r: Vec<String>)
    ensures
        match text {
            None => r@.len() == 0,
            Some(t) => {
                let ms = regex_matches_of(r"[\w\.-]+@[\w\.-]+\.\w+"@, t@);
                &&& r@.len() == ms.len()
                &&& forall|i: int| 0 <= i < ms.len() ==> (#[trigger] r@[i])@ == lower_of(ms[i])
            },
        },
{
    let t: &str = match text {
        Some(t) => t,
        None => {
            return Vec::new();
        },
    };
    let found: Vec<String> = regex_find_all(r"[\w\.-]+@[\w\.-]+\.\w+", t);
    let n: usize = found.len();
    let mut out: Vec<String> = Vec::new();
    let mut i: usize = 0;
    while i < n
        invariant
            i <= n == found@.len(),
            found.deep_view() == regex_matches_of(r"[\w\.-]+@[\w\.-]+\.\w+"@, t@),
            out@.len() == i,
            forall|j: int|
                0 <= j < i ==> (#[trigger] out@[j])@ == lower_of(found.deep_view()[j]),
        decreases n - i,
    {
        let low: String = lowercase(found[i].as_str());
        proof {
            assert(found.deep_view()[i as int] == found@[i as int]@);
        }
        out.push(low);
        i += 1;
    }
    out
}

/// The character decodings this library asks of the encoding tables.
#[derive(Clone, Copy, Debug, PartialEq, Eq, Structural)]
pub enum EncodingChoice {
    Utf8,
    Windows1252,
    Iso8859_15,
}

/// The text an encoding table yields for a byte sequence, as
/// `encoding_rs` decodes it (with replacement characters for malformed
/// input); a function of the encoding and the bytes alone.
pub uninterp spec fn decoded_text_of(enc: EncodingChoice, bytes: Seq<u8>) -> Seq<char>;

/// Relies on `encoding_rs::Encoding::decode`: decoding with the chosen
/// table depends on the bytes alone, malformed sequences becoming
/// replacement characters.
#[verifier::external_body]
fn decode_bytes_with(enc: EncodingChoice, bytes: &Vec<u8>) -> (r: String)
    ensures
        r@ == decoded_text_of(enc, bytes@),
{
    let encoding = match enc {
        EncodingChoice::Utf8 => encoding_rs::UTF_8,
        EncodingChoice::Windows1252 => encoding_rs::WINDOWS_1252,
        EncodingChoice::Iso8859_15 => encoding_rs::ISO_8859_15,
    };
    let (decoded, _, _) = encoding.decode(bytes);
    decoded.to_string()
}

/// The encoding chosen for a charset name: Latin-1 variants map to the
/// Windows-1252 table, and anything unrecognized falls back to UTF-8.
pub open spec fn spec_charset_choice(cs: Seq<char>) -> EncodingChoice {
    let u = upper_of(cs);
    if u == "UTF-8"@ || u == "UTF8"@ {
        EncodingChoice::Utf8
    } else if u == "ISO-8859-1"@ || u == "LATIN1"@ || u == "LATIN-1"@ || u == "WINDOWS-1252"@ || u
        == "CP1252"@ {
        EncodingChoice::Windows1252
    } else if u == "ISO-8859-15"@ {
        EncodingChoice::Iso8859_15
    } else {
        EncodingChoice::Utf8
    }
}

/// Picks the decoding table for a charset name.
fn charset_choice(charset: &str) -> (r: EncodingChoice)
    ensures
        r == spec_charset_choice(charset@),
{
    let u: String = crate::text::uppercase(charset);
    let us: &str = u.as_str();
    if str_eq(us, "UTF-8") || str_eq(us, "UTF8") {
        EncodingChoice::Utf8
    } else if str_eq(us, "ISO-8859-1") || str_eq(us, "LATIN1") || str_eq(us, "LATIN-1") || str_eq(
        us,
        "WINDOWS-1252",
    ) || str_eq(us, "CP1252") {
        EncodingChoice::Windows1252
    } else if str_eq(us, "ISO-8859-15") {
        EncodingChoice::Iso8859_15
    } else {
        EncodingChoice::Utf8
    }
}

/// The value of a hex digit, or nothing.
pub open spec fn spec_hex_val(c: char) -> Option<u8> {
    let u = c as u32;
    if 48 <= u <= 57 {
        Some((u - 48) as u8)
    } else if 97 <= u <= 102 {
        Some((u - 97 + 10) as u8)
    } else if 65 <= u <= 70 {
        Some((u - 65 + 10) as u8)
    } else {
        None
    }
}

/// The byte a two-character hex escape denotes, as parsing the pair in
/// base 16 accepts it: two hex digits, or a leading plus sign and one
/// digit.
pub open spec fn spec_hex_pair(h1: char, h2: char) -> Option<u8> {
    if h1 == '+' {
        spec_hex_val(h2)
    } else {
        match (spec_hex_val(h1), spec_hex_val(h2)) {
            (Some(a), Some(b)) => Some((a * 16 + b) as u8),
            _ => None,
        }
    }
}

/// The value of a hex digit.
fn hex_val(c: char) -> (r: Option<u8>)
    ensures
        r == spec_hex_val(c),
{
    let u: u32 = c as u32;
    if 48 <= u && u <= 57 {
        Some((u - 48) as u8)
    } else if 97 <= u && u <= 102 {
        Some((u - 97 + 10) as u8)
    } else if 65 <= u && u <= 70 {
        Some((u - 65 + 10) as u8)
    } else {
        None
    }
}

/// The bytes of a quoted-printable body: a `=` eats the two following
/// characters and yields their hex value when they form one, other
/// characters pass through as their low byte.
pub open spec fn spec_qp_bytes(s: Seq<char>) -> Seq<u8>
    decreases s.len(),
{
    if s.len() == 0 {
        Seq::empty()
    } else if s[0] == '=' {
        if s.len() >= 3 {
            (match spec_hex_pair(s[1], s[2]) {
                Some(b) => seq![b],
                None => Seq::empty(),
            }) + spec_qp_bytes(s.skip(3))
        } else {
            Seq::empty()
        }
    } else {
        seq![s[0] as u8] + spec_qp_bytes(s.drop_first())
    }
}

/// Decodes a quoted-printable encoded word body in the given charset:
/// underscores are spaces, `=XX` escapes are bytes, and the bytes are read
/// through the charset's table.
pub fn quoted_printable_decode(text: &str, charset: &str) -> (r: Result<String, ()>)
    ensures
        r matches Ok(t) && t@ == decoded_text_of(
            spec_charset_choice(charset@),
            spec_qp_bytes(
                text@.map_values(
                    |c: char|
                        if c == '_' {
                            ' '
                        } else {
                            c
                        },
                ),
            ),
        ),
{
    let v0: Vec<char> = to_chars(text);
    let n: usize = v0.len();
    let mut v: Vec<char> = Vec::new();
    let mut i0: usize = 0;
    while i0 < n
        invariant
            i0 <= n == text@.len(),
            v0@ == text@,
            v@.len() == i0,
            forall|j: int|
                0 <= j < i0 ==> v@[j] == (if text@[j] == '_' {
                    ' '
                } else {
                    text@[j]
                }),
        decreases n - i0,
    {
        if v0[i0] == '_' {
            v.push(' ');
        } else {
            v.push(v0[i0]);
        }
        i0 += 1;
    }
    let ghost u = text@.map_values(
        |c: char|
            if c == '_' {
                ' '
            } else {
                c
            },
    );
    proof {
        assert(v@ =~= u);
    }

    let mut bytes: Vec<u8> = Vec::new();
    let mut i: usize = 0;
    proof {
        assert(u.skip(0) =~= u);
        assert(bytes@ + spec_qp_bytes(u) =~= spec_qp_bytes(u));
    }
    while i < n
        invariant
            i <= n == u.len(),
            v@ == u,
            spec_qp_bytes(u) == bytes@ + spec_qp_bytes(u.skip(i as int)),
        decreases n - i,
    {
        let ghost t = u.skip(i as int);
        proof {
            assert(t[0] == u[i as int]);
        }
        if v[i] == '=' {
            if n - i > 2 {
                proof {
                    assert(t[1] == u[i + 1] && t[2] == u[i + 2]);
                    assert(t.skip(3) =~= u.skip(i + 3));
                }
                let h1: char = v[i + 1];
                let h2: char = v[i + 2];
                let pair: Option<u8> = if h1 == '+' {
                    hex_val(h2)
                } else {
                    match (hex_val(h1), hex_val(h2)) {
                        (Some(a), Some(b)) => Some(a * 16 + b),
                        _ => None,
                    }
                };
                match pair {
                    Some(b) => {
                        bytes.push(b);
                    },
                    None => {},
                }
                proof {
                    assert(spec_qp_bytes(u) =~= bytes@ + spec_qp_bytes(u.skip(i + 3)));
                }
                i += 3;
            } else {
                proof {
                    assert(t.len() < 3);
                    assert(spec_qp_bytes(t) =~= Seq::<u8>::empty());
                    assert(u.skip(n as int) =~= Seq::<char>::empty());
                    assert(spec_qp_bytes(u) =~= bytes@ + spec_qp_bytes(u.skip(n as int)));
                }
                i = n;
            }
        } else {
            bytes.push(v[i] as u8);
            proof {
                assert(t.drop_first() =~= u.skip(i + 1));
                assert(spec_qp_bytes(u) =~= bytes@ + spec_qp_bytes(u.skip(i + 1)));
            }
            i += 1;
        }
    }
    proof {
        assert(u.skip(n as int) =~= Seq::<char>::empty());
        assert(bytes@ + Seq::<u8>::empty() =~= bytes@);
    }
    Ok(decode_bytes_with(charset_choice(charset), &bytes))
}

/// The base64 alphabet value of a character compared exactly, as a
/// char-keyed table holds it.
pub open spec fn spec_b64_exact_val(c: char) -> Option<u8> {
    let u = c as u32;
    if 65 <= u <= 90 {
        Some((u - 65) as u8)
    } else if 97 <= u <= 122 {
        Some(((u - 97) + 26) as u8)
    } else if 48 <= u <= 57 {
        Some(((u - 48) + 52) as u8)
    } else if u == 43 {
        Some(62u8)
    } else if u == 47 {
        Some(63u8)
    } else {
        None
    }
}

/// The 6-bit values of a base64 body after dropping padding and anything
/// outside the alphabet.
pub open spec fn spec_b64_lenient_vals(s: Seq<char>) -> Seq<u8>
    decreases s.len(),
{
    if s.len() == 0 {
        Seq::empty()
    } else {
        (if s[0] == '=' {
            Seq::empty()
        } else {
            match spec_b64_exact_val(s[0]) {
                Some(b) => seq![b],
                None => Seq::empty(),
            }
        }) + spec_b64_lenient_vals(s.drop_first())
    }
}

/// The bytes of up to four 6-bit values packed big-endian, as the chunked
/// decoder emits them: one byte for one or two values, two bytes for
/// three, three bytes for four.
pub open spec fn spec_b64_chunk_bytes(vals: Seq<u8>) -> Seq<u8>
    decreases vals.len(),
{
    if vals.len() == 0 {
        Seq::empty()
    } else {
        let n = if vals.len() < 4 {
            vals.len() as int
        } else {
            4
        };
        let a = vals[0] as int;
        let b = if n > 1 {
            vals[1] as int
        } else {
            0
        };
        let c = if n > 2 {
            vals[2] as int
        } else {
            0
        };
        let d = if n > 3 {
            vals[3] as int
        } else {
            0
        };
        let val = a * 0x40000 + b * 0x1000 + c * 0x40 + d;
        (seq![((val / 0x10000) % 256) as u8] + (if n > 2 {
            seq![((val / 0x100) % 256) as u8]
        } else {
            Seq::<u8>::empty()
        }) + (if n > 3 {
            seq![(val % 256) as u8]
        } else {
            Seq::<u8>::empty()
        })) + spec_b64_chunk_bytes(vals.skip(n))
    }
}

/// Decodes a base64 encoded word body in the given charset: padding and
/// foreign characters are dropped, the remaining values are packed four
/// at a time, and the bytes are read through the charset's table.
pub fn base64_decode(text: &str, charset: &str) -> (r: Result<String, ()>)
    ensures
        r matches Ok(t) && t@ == decoded_text_of(
            spec_charset_choice(charset@),
            spec_b64_chunk_bytes(spec_b64_lenient_vals(text@)),
        ),
{
    let v: Vec<char> = to_chars(text);
    let n: usize = v.len();
    let mut vals: Vec<u8> = Vec::new();
    let mut i: usize = 0;
    proof {
        assert(text@.skip(0) =~= text@);
        assert(vals@ + spec_b64_lenient_vals(text@) =~= spec_b64_lenient_vals(text@));
    }
    while i < n
        invariant
            i <= n == text@.len(),
            v@ == text@,
            spec_b64_lenient_vals(text@) == vals@ + spec_b64_lenient_vals(text@.skip(i as int)),
        decreases n - i,
    {
        let ghost t = text@.skip(i as int);
        proof {
            assert(t[0] == text@[i as int]);
            assert(t.drop_first() =~= text@.skip(i + 1));
        }
        let c: char = v[i];
        if c != '=' {
            let u: u32 = c as u32;
            if 65 <= u && u <= 90 {
                vals.push((u - 65) as u8);
            } else if 97 <= u && u <= 122 {
                vals.push(((u - 97) + 26) as u8);
            } else if 48 <= u && u <= 57 {
                vals.push(((u - 48) + 52) as u8);
            } else if u == 43 {
                vals.push(62);
            } else if u == 47 {
                vals.push(63);
            }
        }
        proof {
            assert(spec_b64_lenient_vals(text@) =~= vals@ + spec_b64_lenient_vals(
                text@.skip(i + 1),
            ));
        }
        i += 1;
    }
    proof {
        assert(text@.skip(n as int) =~= Seq::<char>::empty());
        assert(vals@ + Seq::<u8>::empty() =~= vals@);
    }

    let m: usize = vals.len();
    let mut bytes: Vec<u8> = Vec::new();
    let mut k: usize = 0;
    proof {
        assert(vals@.skip(0) =~= vals@);
        assert(bytes@ + spec_b64_chunk_bytes(vals@) =~= spec_b64_chunk_bytes(vals@));
    }
    while k < m
        invariant
            k <= m == vals@.len(),
            spec_b64_chunk_bytes(vals@) == bytes@ + spec_b64_chunk_bytes(vals@.skip(k as int)),
        decreases m - k,
    {
        let ghost t = vals@.skip(k as int);
        let left: usize = m - k;
        let n4: usize = if left < 4 {
            left
        } else {
            4
        };
        let a: u32 = vals[k] as u32;
        let b: u32 = if n4 > 1 {
            vals[k + 1] as u32
        } else {
            0
        };
        let c: u32 = if n4 > 2 {
            vals[k + 2] as u32
        } else {
            0
        };
        let d: u32 = if n4 > 3 {
            vals[k + 3] as u32
        } else {
            0
        };
        proof {
            assert(t[0] == vals@[k as int]);
            if n4 > 1 {
                assert(t[1] == vals@[k + 1]);
            }
            if n4 > 2 {
                assert(t[2] == vals@[k + 2]);
            }
            if n4 > 3 {
                assert(t[3] == vals@[k + 3]);
            }
            assert(t.skip(n4 as int) =~= vals@.skip(k + n4));
        }
        let val: u32 = a * 0x40000 + b * 0x1000 + c * 0x40 + d;
        bytes.push(((val / 0x10000) % 256) as u8);
        if n4 > 2 {
            bytes.push(((val / 0x100) % 256) as u8);
        }
        if n4 > 3 {
            bytes.push((val % 256) as u8);
        }
        proof {
            assert(spec_b64_chunk_bytes(vals@) =~= bytes@ + spec_b64_chunk_bytes(
                vals@.skip(k + n4),
            ));
        }
        k += n4;
    }
    proof {
        assert(vals@.skip(m as int) =~= Seq::<u8>::empty());
        assert(bytes@ + Seq::<u8>::empty() =~= bytes@);
    }
    Ok(decode_bytes_with(charset_choice(charset), &bytes))
}

/// What `Regex::captures_iter` yields for a three-group pattern over a
/// text: the three capture texts of each non-overlapping leftmost match,
/// in order, an unmatched group being empty; a function of the two
/// arguments alone.
pub uninterp spec fn regex_caps3_of(pattern: Seq<char>, text: Seq<char>) -> Seq<
    (Seq<char>, Seq<char>, Seq<char>),
>;

/// Relies on `Regex::new` and `Regex::captures_iter`: the first three
/// capture groups of each match, in order.
#[verifier::external_body]
pub(crate) fn regex_captures3(pattern: &str, text: &str) -> (r: Vec<(String, String, String)>)
    ensures
        r.deep_view() == regex_caps3_of(pattern@, text@),
{
    let re = match regex::Regex::new(pattern) {
        Ok(re) => re,
        Err(_) => return Vec::new(),
    };
    let g = |c: &regex::Captures, i: usize| c.get(i).map_or("", |m| m.as_str()).to_string();
    re.captures_iter(text).map(|c| (g(&c, 1), g(&c, 2), g(&c, 3))).collect()
}

/// What decoding a MIME encoded filename yields: for a framed
/// `=?charset?enc?text?=` word, the text decoded as quoted-printable for
/// `q` and base64 for `b`; anything else is returned unchanged.
pub open spec fn spec_mime_filename(s: Seq<char>) -> Seq<char> {
    if !(is_prefix(s, "=?"@) && is_substring(s, "?="@)) {
        s
    } else {
        let caps = regex_caps3_of("=\\?(.*?)\\?(.*?)\\?(.*?)\\?="@, s);
        if caps.len() == 0 {
            s
        } else {
            let charset = caps[0].0;
            let enc = lower_of(caps[0].1);
            let text = caps[0].2;
            if enc == "q"@ {
                decoded_text_of(
                    spec_charset_choice(charset),
                    spec_qp_bytes(
                        text.map_values(
                            |c: char|
                                if c == '_' {
                                    ' '
                                } else {
                                    c
                                },
                        ),
                    ),
                )
            } else if enc == "b"@ {
                decoded_text_of(
                    spec_charset_choice(charset),
                    spec_b64_chunk_bytes(spec_b64_lenient_vals(text)),
                )
            } else {
                s
            }
        }
    }
}

/// Decodes a MIME encoded filename of the `=?charset?enc?text?=` form;
/// undecodable names are returned unchanged.
pub fn decode_mime_filename(encoded_filename: &str) -> (r: String)
    ensures
        r@ == spec_mime_filename(encoded_filename@),
{
    if starts_with_str(encoded_filename, "=?") && contains_sub(encoded_filename, "?=") {
        let caps: Vec<(String, String, String)> = regex_captures3(
            "=\\?(.*?)\\?(.*?)\\?(.*?)\\?=",
            encoded_filename,
        );
        if caps.len() > 0 {
            proof {
                assert(caps.deep_view()[0] == (caps@[0].0@, caps@[0].1@, caps@[0].2@));
            }
            let charset: &str = caps[0].0.as_str();
            let enc_lower: String = lowercase(caps[0].1.as_str());
            let text: &str = caps[0].2.as_str();
            if str_eq(enc_lower.as_str(), "q") {
                if let Ok(decoded) = quoted_printable_decode(text, charset) {
                    return decoded;
                }
            } else if str_eq(enc_lower.as_str(), "b") {
                if let Ok(decoded) = base64_decode(text, charset) {
                    return decoded;
                }
            }
        }
    }
    let mut out: String = String::new();
    out.append(encoded_filename);
    out
}

/// The sequence with angle brackets removed.
pub open spec fn spec_remove_angles(s: Seq<char>) -> Seq<char>
    decreases s.len(),
{
    if s.len() == 0 {
        Seq::empty()
    } else {
        (if s[0] == '<' || s[0] == '>' {
            Seq::empty()
        } else {
            seq![s[0]]
        }) + spec_remove_angles(s.drop_first())
    }
}

/// Index of the first `@`, or -1 when there is none.
pub open spec fn first_at(s: Seq<char>) -> int
    decreases s.len(),
{
    if s.len() == 0 {
        -1
    } else if s[0] == '@' {
        0
    } else if first_at(s.drop_first()) < 0 {
        -1
    } else {
        1 + first_at(s.drop_first())
    }
}

proof fn lemma_first_at_at(s: Seq<char>, k: int)
    requires
        0 <= k < s.len(),
        s[k] == '@',
        forall|j: int| 0 <= j < k ==> s[j] != '@',
    ensures
        first_at(s) == k,
    decreases k,
{
    if k > 0 {
        let t = s.drop_first();
        assert(forall|j: int| 0 <= j < k - 1 ==> #[trigger] t[j] != '@');
        lemma_first_at_at(t, k - 1);
    }
}

proof fn lemma_first_at_none(s: Seq<char>)
    requires
        forall|j: int| 0 <= j < s.len() ==> s[j] != '@',
    ensures
        first_at(s) < 0,
    decreases s.len(),
{
    if s.len() > 0 {
        let t = s.drop_first();
        assert(forall|j: int| 0 <= j < t.len() ==> #[trigger] t[j] != '@');
        lemma_first_at_none(t);
    }
}

/// Index of the first whitespace character, or -1 when there is none.
pub open spec fn first_ws_idx(s: Seq<char>) -> int
    decreases s.len(),
{
    if s.len() == 0 {
        -1
    } else if crate::text::is_ws(s[0]) {
        0
    } else if first_ws_idx(s.drop_first()) < 0 {
        -1
    } else {
        1 + first_ws_idx(s.drop_first())
    }
}

proof fn lemma_first_ws_at(s: Seq<char>, k: int)
    requires
        0 <= k < s.len(),
        crate::text::is_ws(s[k]),
        forall|j: int| 0 <= j < k ==> !crate::text::is_ws(s[j]),
    ensures
        first_ws_idx(s) == k,
    decreases k,
{
    if k > 0 {
        let t = s.drop_first();
        assert(forall|j: int| 0 <= j < k - 1 ==> !crate::text::is_ws(#[trigger] t[j]));
        lemma_first_ws_at(t, k - 1);
    }
}

proof fn lemma_first_ws_none(s: Seq<char>)
    requires
        forall|j: int| 0 <= j < s.len() ==> !crate::text::is_ws(s[j]),
    ensures
        first_ws_idx(s) < 0,
    decreases s.len(),
{
    if s.len() > 0 {
        let t = s.drop_first();
        assert(forall|j: int| 0 <= j < t.len() ==> !crate::text::is_ws(#[trigger] t[j]));
        lemma_first_ws_none(t);
    }
}

/// The whitespace-separated words of a sequence, in order, without
/// empties.
pub open spec fn spec_words(s: Seq<char>) -> Seq<Seq<char>>
    decreases s.len(),
{
    if s.len() == 0 {
        Seq::empty()
    } else if crate::text::is_ws(s[0]) {
        spec_words(s.drop_first())
    } else {
        let i = first_ws_idx(s);
        if !(0 < i < s.len()) {
            seq![s]
        } else {
            seq![s.take(i)] + spec_words(s.skip(i))
        }
    }
}

/// The first character of each word that has one.
pub open spec fn spec_initials(ws: Seq<Seq<char>>) -> Seq<char>
    decreases ws.len(),
{
    if ws.len() == 0 {
        Seq::empty()
    } else {
        (if ws[0].len() > 0 {
            seq![ws[0][0]]
        } else {
            Seq::empty()
        }) + spec_initials(ws.drop_first())
    }
}

/// Only the ASCII capital letters of a sequence.
pub open spec fn spec_keep_upper(s: Seq<char>) -> Seq<char>
    decreases s.len(),
{
    if s.len() == 0 {
        Seq::empty()
    } else {
        (if 65 <= s[0] as u32 <= 90 {
            seq![s[0]]
        } else {
            Seq::empty()
        }) + spec_keep_upper(s.drop_first())
    }
}

/// The short name derived from a sender field: angle brackets are
/// stripped, anything from the first `@` on is dropped, then a single
/// word gives its first three characters uppercased and several words
/// give their initials as written (three words at most); the result is
/// reduced to capital letters, with `UNK` standing in for anything empty.
pub open spec fn spec_short_name(input: Option<Seq<char>>) -> Seq<char> {
    match input {
        None => "UNK"@,
        Some(e) => {
            if e.len() == 0 {
                "UNK"@
            } else {
                let clean = spec_remove_angles(e);
                let a = first_at(clean);
                let name_part = if 0 <= a <= clean.len() {
                    clean.take(a)
                } else {
                    clean
                };
                let ws = spec_words(name_part);
                let short = if ws.len() == 1 {
                    upper_of(
                        ws[0].take(
                            if ws[0].len() < 3 {
                                ws[0].len() as int
                            } else {
                                3
                            },
                        ),
                    )
                } else {
                    spec_initials(
                        ws.take(
                            if ws.len() < 3 {
                                ws.len() as int
                            } else {
                                3
                            },
                        ),
                    )
                };
                let filtered = spec_keep_upper(short);
                if filtered.len() == 0 {
                    "UNK"@
                } else {
                    filtered
                }
            }
        },
    }
}

/// Derives a short name (initials or a three-letter prefix) from an email
/// address or display name; `UNK` when nothing usable remains.
pub fn get_short_name(email_str: Option<&str>) -> (r: String)
    ensures
        r@ == spec_short_name(
            match email_str {
                Some(e) => Some(e@),
                None => None,
            },
        ),
{
    let e: &str = match email_str {
        Some(e) => {
            if e.is_empty() {
                return String::from_str("UNK");
            }
            e
        },
        None => {
            return String::from_str("UNK");
        },
    };
    let v: Vec<char> = to_chars(e);
    let n: usize = v.len();

    // strip angle brackets
    let mut clean: Vec<char> = Vec::new();
    let mut i: usize = 0;
    proof {
        assert(e@.skip(0) =~= e@);
        assert(clean@ + spec_remove_angles(e@) =~= spec_remove_angles(e@));
    }
    while i < n
        invariant
            i <= n == e@.len(),
            v@ == e@,
            spec_remove_angles(e@) == clean@ + spec_remove_angles(e@.skip(i as int)),
        decreases n - i,
    {
        proof {
            let t = e@.skip(i as int);
            assert(t[0] == e@[i as int]);
            assert(t.drop_first() =~= e@.skip(i + 1));
        }
        let c: char = v[i];
        if c != '<' && c != '>' {
            clean.push(c);
        }
        proof {
            assert(spec_remove_angles(e@) =~= clean@ + spec_remove_angles(e@.skip(i + 1)));
        }
        i += 1;
    }
    proof {
        assert(e@.skip(n as int) =~= Seq::<char>::empty());
        assert(clean@ + Seq::<char>::empty() =~= clean@);
    }

    // drop everything from the first `@`
    let m: usize = clean.len();
    let mut cut: usize = m;
    let mut found: bool = false;
    let mut j: usize = 0;
    while j < m && !found
        invariant
            j <= m == clean@.len(),
            !found ==> forall|k: int| 0 <= k < j ==> clean@[k] != '@',
            found ==> {
                &&& cut < m
                &&& clean@[cut as int] == '@'
                &&& forall|k: int| 0 <= k < cut ==> clean@[k] != '@'
                &&& j == cut + 1
            },
            !found ==> cut == m,
        decreases m - j,
    {
        if clean[j] == '@' {
            cut = j;
            found = true;
        }
        j += 1;
    }
    proof {
        if found {
            lemma_first_at_at(clean@, cut as int);
        } else {
            lemma_first_at_none(clean@);
        }
    }
    let name_part: Vec<char> = if found {
        let mut np: Vec<char> = Vec::new();
        let mut k: usize = 0;
        while k < cut
            invariant
                k <= cut <= clean@.len(),
                np@ == clean@.subrange(0, k as int),
            decreases cut - k,
        {
            np.push(clean[k]);
            k += 1;
            proof {
                assert(np@ =~= clean@.subrange(0, k as int));
            }
        }
        proof {
            assert(np@ =~= clean@.take(cut as int));
        }
        np
    } else {
        clean
    };
    let ghost npv = name_part@;

    // split into words
    let p: usize = name_part.len();
    let mut words: Vec<String> = Vec::new();
    let mut w: usize = 0;
    proof {
        assert(npv.skip(0) =~= npv);
        assert(words.deep_view() + spec_words(npv) =~= spec_words(npv));
    }
    while w < p
        invariant
            w <= p == npv.len(),
            name_part@ == npv,
            spec_words(npv) == words.deep_view() + spec_words(npv.skip(w as int)),
        decreases p - w,
    {
        let ghost t = npv.skip(w as int);
        proof {
            assert(t[0] == npv[w as int]);
        }
        if crate::text::is_whitespace_char(name_part[w]) {
            proof {
                assert(t.drop_first() =~= npv.skip(w + 1));
                assert(spec_words(npv) =~= words.deep_view() + spec_words(npv.skip(w + 1)));
            }
            w += 1;
        } else {
            let mut x: usize = w;
            while x < p && !crate::text::is_whitespace_char(name_part[x])
                invariant
                    w <= x <= p,
                    p == npv.len(),
                    name_part@ == npv,
                    forall|k: int| w <= k < x ==> !crate::text::is_ws(npv[k]),
                decreases p - x,
            {
                x += 1;
            }
            proof {
                assert(forall|k: int| 0 <= k < x - w ==> !crate::text::is_ws(#[trigger] t[k]));
                if x < p {
                    assert(t[x - w] == npv[x as int]);
                    lemma_first_ws_at(t, x - w);
                } else {
                    assert(forall|k: int| 0 <= k < t.len() ==> !crate::text::is_ws(
                        #[trigger] t[k],
                    ));
                    lemma_first_ws_none(t);
                }
            }
            let word: String = crate::text::range_to_string(&name_part, w, x);
            let ghost before = words.deep_view();
            words.push(word);
            proof {
                assert(words.deep_view() =~= before.push(npv.subrange(w as int, x as int)));
                if x < p {
                    assert(t.take(x - w) =~= npv.subrange(w as int, x as int));
                    assert(t.skip(x - w) =~= npv.skip(x as int));
                    assert(spec_words(t) =~= seq![npv.subrange(w as int, x as int)] + spec_words(
                        npv.skip(x as int),
                    ));
                } else {
                    assert(t =~= npv.subrange(w as int, x as int));
                    assert(spec_words(t) =~= seq![npv.subrange(w as int, x as int)]);
                    assert(npv.skip(p as int) =~= Seq::<char>::empty());
                    assert(spec_words(npv.skip(p as int)) =~= Seq::<Seq<char>>::empty());
                }
                assert(spec_words(npv) =~= words.deep_view() + spec_words(npv.skip(x as int)));
            }
            w = x;
        }
    }
    proof {
        assert(npv.skip(p as int) =~= Seq::<char>::empty());
        assert(words.deep_view() + Seq::<Seq<char>>::empty() =~= words.deep_view());
    }

    // build the short form
    let short: String = if words.len() == 1 {
        let wv: Vec<char> = to_chars(words[0].as_str());
        let keep: usize = if wv.len() < 3 {
            wv.len()
        } else {
            3
        };
        let prefix: String = crate::text::range_to_string(&wv, 0, keep);
        proof {
            assert(words.deep_view()[0] == words@[0]@);
            assert(prefix@ =~= words.deep_view()[0].take(
                if words.deep_view()[0].len() < 3 {
                    words.deep_view()[0].len() as int
                } else {
                    3
                },
            ));
        }
        crate::text::uppercase(prefix.as_str())
    } else {
        let limit: usize = if words.len() < 3 {
            words.len()
        } else {
            3
        };
        let ghost tk = words.deep_view().take(limit as int);
        let mut initials: Vec<char> = Vec::new();
        let mut q: usize = 0;
        proof {
            assert(tk.skip(0) =~= tk);
            assert(initials@ + spec_initials(tk) =~= spec_initials(tk));
        }
        while q < limit
            invariant
                q <= limit <= words@.len(),
                tk == words.deep_view().take(limit as int),
                spec_initials(tk) == initials@ + spec_initials(tk.skip(q as int)),
            decreases limit - q,
        {
            proof {
                let t = tk.skip(q as int);
                assert(t[0] == tk[q as int]);
                assert(tk[q as int] == words.deep_view()[q as int]);
                assert(words.deep_view()[q as int] == words@[q as int]@);
                assert(t.drop_first() =~= tk.skip(q + 1));
            }
            let wc: Vec<char> = to_chars(words[q].as_str());
            if wc.len() > 0 {
                initials.push(wc[0]);
            }
            proof {
                assert(spec_initials(tk) =~= initials@ + spec_initials(tk.skip(q + 1)));
            }
            q += 1;
        }
        proof {
            assert(tk.skip(limit as int) =~= Seq::<Seq<char>>::empty());
            assert(initials@ + Seq::<char>::empty() =~= initials@);
        }
        from_chars(&initials)
    };

    // keep only capital letters
    let sv: Vec<char> = to_chars(short.as_str());
    let sn: usize = sv.len();
    let mut filtered: Vec<char> = Vec::new();
    let mut f: usize = 0;
    proof {
        assert(short@.skip(0) =~= short@);
        assert(filtered@ + spec_keep_upper(short@) =~= spec_keep_upper(short@));
    }
    while f < sn
        invariant
            f <= sn == short@.len(),
            sv@ == short@,
            spec_keep_upper(short@) == filtered@ + spec_keep_upper(short@.skip(f as int)),
        decreases sn - f,
    {
        proof {
            let t = short@.skip(f as int);
            assert(t[0] == short@[f as int]);
            assert(t.drop_first() =~= short@.skip(f + 1));
        }
        let c: char = sv[f];
        let u: u32 = c as u32;
        if 65 <= u && u <= 90 {
            filtered.push(c);
        }
        proof {
            assert(spec_keep_upper(short@) =~= filtered@ + spec_keep_upper(short@.skip(f + 1)));
        }
        f += 1;
    }
    proof {
        assert(short@.skip(sn as int) =~= Seq::<char>::empty());
        assert(filtered@ + Seq::<char>::empty() =~= filtered@);
    }

    if filtered.len() == 0 {
        String::from_str("UNK")
    } else {
        from_chars(&filtered)
    }
}

} // verus!

//! Deterministic redaction of configured privacy classes. Replacements carry
//! only a class and a short digest, so equal sensitive values remain
//! recognizable as equal without disclosing the value.

use vstd::prelude::*;
use vstd::utf8::{encode_utf8, decode_utf8, valid_utf8, is_char_boundary};
use vstd::string::StringSliceAdditionalSpecFns;
use crate::digest::{sha256_hex, sha256_hex_of};
use crate::text::{chars_lt, str_chars, string_from_chars, copy_str};
use crate::ai::types::{RedactionKind, RedactionRecord, RedactionConfig};

verus! {

/// The byte spans of the successive non-overlapping matches of a regular
/// expression in a text, leftmost-first, as `regex::Regex::find_iter`
/// reports them; `None` when the pattern does not compile.
pub uninterp spec fn regex_match_spans(pattern: Seq<char>, text: Seq<char>) -> Option<Seq<(int, int)>>;

/// The characters that have a meaning in a regular expression.
pub open spec fn is_meta_character(c: char) -> bool {
    c == '\\' || c == '.' || c == '+' || c == '*' || c == '?' || c == '(' || c == ')' || c == '|'
        || c == '[' || c == ']' || c == '{' || c == '}' || c == '^' || c == '$' || c == '#' || c
        == '&' || c == '-' || c == '~'
}

/// The pattern that matches a text literally: each meta character preceded
/// by a backslash.
pub open spec fn regex_escaped(text: Seq<char>) -> Seq<char>
    decreases text.len(),
{
    if text.len() == 0 {
        Seq::empty()
    } else {
        let c = text.last();
        regex_escaped(text.drop_last()) + if is_meta_character(c) {
            seq!['\\', c]
        } else {
            seq![c]
        }
    }
}

/// Spans that lie inside the text, in increasing order, without overlap,
/// each starting and ending on a character boundary.
pub open spec fn spans_well_formed(spans: Seq<(int, int)>, bytes: Seq<u8>) -> bool {
    &&& forall|i: int|
        0 <= i < spans.len() ==> {
            &&& 0 <= (#[trigger] spans[i]).0 <= spans[i].1 <= bytes.len()
            &&& is_char_boundary(bytes, spans[i].0)
            &&& is_char_boundary(bytes, spans[i].1)
        }
    &&& forall|i: int| 0 < i < spans.len() ==> (#[trigger] spans[i]).0 >= spans[i - 1].1
}

pub open spec fn span_view(spans: Seq<(usize, usize)>) -> Seq<(int, int)> {
    spans.map_values(|p: (usize, usize)| (p.0 as int, p.1 as int))
}

/// Calls `regex::Regex::new` and `Regex::find_iter`. Claimed: the spans are
/// the named result `regex_match_spans` of the pattern and the text, `None`
/// exactly when the pattern does not compile, and (as the crate documents
/// for string haystacks) the spans are in order, do not overlap and start
/// and end on character boundaries.
#[verifier::external_body]
pub(crate) fn find_spans(pattern: &str, text: &str) -> (spans: Option<Vec<(usize, usize)>>)
    ensures
        spans is None <==> regex_match_spans(pattern@, text@) is None,
        spans matches Some(v) ==> regex_match_spans(pattern@, text@) == Some(span_view(v@))
            && spans_well_formed(span_view(v@), text.spec_bytes()),
{
    let matcher = regex::Regex::new(pattern).ok()?;
    Some(matcher.find_iter(text).map(|m| (m.start(), m.end())).collect())
}

/// Calls `regex::escape`. Claimed, as `regex_syntax::escape_into` writes
/// it: every meta character of the text preceded by a backslash.
#[verifier::external_body]
fn escape_literal(text: &str) -> (pattern: String)
    ensures
        pattern@ == regex_escaped(text@),
{
    regex::escape(text)
}

pub const EMAIL_PATTERN: &'static str = "(?i)[a-z0-9.!#$%&'*+/=?^_`{|}~-]+@[a-z0-9](?:[a-z0-9-]{0,61}[a-z0-9])?(?:\\.[a-z0-9](?:[a-z0-9-]{0,61}[a-z0-9])?)+";

pub const PHONE_PATTERN: &'static str = "\\+?\\d(?:[\\d(). -]{5,}\\d)";

pub const PATH_PATTERN: &'static str = "(?i)(?:[a-z]:[\\\\/]|\\\\\\\\)[^\\s\"'<>|?*]+|/(?:[a-z0-9._~-]+/)*[a-z0-9._~-]+";

/// The label a replacement carries for each class.
pub open spec fn label(kind: RedactionKind) -> Seq<char> {
    match kind {
        RedactionKind::ExplicitIdentifier => "IDENTIFIER"@,
        RedactionKind::Email => "EMAIL"@,
        RedactionKind::Phone => "PHONE"@,
        RedactionKind::Path => "PATH"@,
    }
}

pub fn redaction_label(kind: RedactionKind) -> (s: &'static str)
    ensures
        s@ == label(kind),
{
    match kind {
        RedactionKind::ExplicitIdentifier => "IDENTIFIER",
        RedactionKind::Email => "EMAIL",
        RedactionKind::Phone => "PHONE",
        RedactionKind::Path => "PATH",
    }
}

/// The abstract form of a redaction record.
pub struct RecordView {
    pub kind: RedactionKind,
    pub byte_start: usize,
    pub original_bytes: usize,
    pub original_sha256: Seq<char>,
    pub replacement: Seq<char>,
}

impl RedactionRecord {
    pub open spec fn view(self) -> RecordView {
        RecordView {
            kind: self.kind,
            byte_start: self.byte_start,
            original_bytes: self.original_bytes,
            original_sha256: self.original_sha256@,
            replacement: self.replacement@,
        }
    }
}

pub open spec fn records_view(records: Seq<RedactionRecord>) -> Seq<RecordView> {
    records.map_values(|r: RedactionRecord| r@)
}

/// `[REDACTED_<label>:<first 12 hex digits of the original's SHA-256>]`.
pub open spec fn replacement_text(kind: RedactionKind, original: Seq<u8>) -> Seq<char> {
    "[REDACTED_"@ + label(kind) + seq![':'] + sha256_hex_of(original).take(12) + seq![']']
}

/// Number of ASCII digits in a byte sequence.
pub open spec fn digit_count(bytes: Seq<u8>) -> int
    decreases bytes.len(),
{
    if bytes.len() == 0 {
        0
    } else {
        digit_count(bytes.drop_last()) + if 48 <= bytes.last() <= 57 {
            1int
        } else {
            0int
        }
    }
}

/// Whether a match is replaced: every match, except that a phone candidate
/// needs between 7 and 15 digits.
pub open spec fn accepted(phone: bool, original: Seq<u8>) -> bool {
    !phone || (7 <= digit_count(original) <= 15)
}

/// Output bytes, records and copied position after the first matches.
pub open spec fn pass_state(
    input: Seq<u8>,
    spans: Seq<(int, int)>,
    kind: RedactionKind,
    phone: bool,
) -> (Seq<u8>, Seq<RecordView>, int)
    decreases spans.len(),
{
    if spans.len() == 0 {
        (Seq::empty(), Seq::empty(), 0)
    } else {
        let (out, records, copied) = pass_state(input, spans.drop_last(), kind, phone);
        let s = spans.last().0;
        let e = spans.last().1;
        let original = input.subrange(s, e);
        if !accepted(phone, original) {
            (out, records, copied)
        } else {
            let repl = replacement_text(kind, original);
            let before = out + input.subrange(copied, s);
            (
                before + encode_utf8(repl),
                records.push(
                    RecordView {
                        kind,
                        byte_start: before.len() as usize,
                        original_bytes: (e - s) as usize,
                        original_sha256: sha256_hex_of(original),
                        replacement: repl,
                    },
                ),
                e,
            )
        }
    }
}

/// One redaction pass over a text: every accepted match replaced, the rest
/// copied; `None` when the pattern does not compile.
pub open spec fn redact_pass(text: Seq<char>, pattern: Seq<char>, kind: RedactionKind, phone: bool) -> Option<
    (Seq<char>, Seq<RecordView>),
> {
    match regex_match_spans(pattern, text) {
        None => None,
        Some(spans) => {
            let input = encode_utf8(text);
            let (out, records, copied) = pass_state(input, spans, kind, phone);
            Some((decode_utf8(out + input.subrange(copied, input.len() as int)), records))
        },
    }
}

proof fn lemma_encode_concat(a: Seq<char>, b: Seq<char>)
    ensures
        encode_utf8(a + b) == encode_utf8(a) + encode_utf8(b),
    decreases a.len(),
{
    if a.len() > 0 {
        assert((a + b).drop_first() =~= a.drop_first() + b);
        lemma_encode_concat(a.drop_first(), b);
        assert((a + b)[0] == a[0]);
        assert(encode_utf8(a + b) =~= vstd::utf8::encode_scalar(a[0] as u32) + encode_utf8(
            a.drop_first() + b,
        ));
    } else {
        assert(a + b =~= b);
    }
}

proof fn lemma_boundary_in_tail(bytes: Seq<u8>, c: int, j: int)
    requires
        valid_utf8(bytes),
        0 <= c <= j <= bytes.len(),
        is_char_boundary(bytes, c),
        is_char_boundary(bytes, j),
    ensures
        valid_utf8(bytes.subrange(c, bytes.len() as int)),
        is_char_boundary(bytes.subrange(c, bytes.len() as int), j - c),
{
    vstd::utf8::valid_utf8_split(bytes, c);
    let tail = bytes.subrange(c, bytes.len() as int);
    if j == bytes.len() {
        vstd::utf8::is_char_boundary_start_end_of_seq(tail);
    } else {
        vstd::utf8::is_char_boundary_iff_not_is_continuation_byte(bytes, j);
        vstd::utf8::is_char_boundary_iff_not_is_continuation_byte(tail, j - c);
    }
}

proof fn lemma_digit_count_step(bytes: Seq<u8>, i: int)
    requires
        0 <= i < bytes.len(),
    ensures
        digit_count(bytes.take(i + 1)) == digit_count(bytes.take(i)) + if 48 <= bytes[i] <= 57 {
            1int
        } else {
            0int
        },
{
    assert(bytes.take(i + 1).drop_last() =~= bytes.take(i));
}

/// Count the ASCII digits of a text.
fn count_digits(text: &str) -> (n: usize)
    ensures
        n == digit_count(text.spec_bytes()),
{
    let bytes = text.as_bytes();
    let mut n: usize = 0;
    let mut i: usize = 0;
    while i < bytes.len()
        invariant
            bytes@ == text.spec_bytes(),
            0 <= i <= bytes@.len(),
            n <= i,
            n == digit_count(bytes@.take(i as int)),
        decreases bytes@.len() - i,
    {
        proof {
            lemma_digit_count_step(bytes@, i as int);
        }
        if bytes[i] >= 48 && bytes[i] <= 57 {
            n = n + 1;
        }
        i = i + 1;
    }
    assert(bytes@.take(i as int) =~= bytes@);
    n
}

/// The text of one replacement.
fn replacement_for(kind: RedactionKind, original: &str) -> (r: (String, String))
    ensures
        r.0@ == replacement_text(kind, original.spec_bytes()),
        r.1@ == sha256_hex_of(original.spec_bytes()),
{
    let digest = sha256_hex(original.as_bytes());
    let digest_chars = str_chars(digest.as_str());
    let mut out: Vec<char> = Vec::new();
    crate::text::push_str(&mut out, "[REDACTED_");
    crate::text::push_str(&mut out, redaction_label(kind));
    out.push(':');
    let mut i: usize = 0;
    while i < 12
        invariant
            0 <= i <= 12,
            digest_chars@ == sha256_hex_of(original.spec_bytes()),
            digest_chars@.len() == 64,
            out@ == "[REDACTED_"@ + label(kind) + seq![':'] + digest_chars@.take(i as int),
        decreases 12 - i,
    {
        out.push(digest_chars[i]);
        i = i + 1;
        assert(digest_chars@.take(i as int) =~= digest_chars@.take((i - 1) as int).push(
            digest_chars@[i - 1],
        ));
    }
    out.push(']');
    assert(out@ =~= replacement_text(kind, original.spec_bytes()));
    (string_from_chars(out.as_slice()), digest)
}

/// Replace every accepted match of `pattern` in `input`, appending one record
/// per replacement. `None` (and no record) when the pattern does not compile.
pub fn replace_matches(
    input: &str,
    pattern: &str,
    kind: RedactionKind,
    phone: bool,
    records: &mut Vec<RedactionRecord>,
) -> (output: Option<String>)
    ensures
        match redact_pass(input@, pattern@, kind, phone) {
            None => output is None && final(records)@ == old(records)@,
            Some((text, added)) => output matches Some(s) && s@ == text && records_view(
                final(records)@,
            ) == records_view(old(records)@) + added,
        },
{
    let spans = match find_spans(pattern, input) {
        None => return None,
        Some(spans) => spans,
    };
    let ghost bytes = input.spec_bytes();
    let ghost sv = span_view(spans@);
    proof {
        vstd::utf8::encode_utf8_valid_utf8(input@);
        vstd::utf8::is_char_boundary_start_end_of_seq(bytes);
    }
    let mut out = String::new();
    let mut copied: usize = 0;
    let mut k: usize = 0;
    let ghost old_records = records_view(records@);
    while k < spans.len()
        invariant
            0 <= k <= spans@.len(),
            bytes == input.spec_bytes(),
            bytes == encode_utf8(input@),
            valid_utf8(bytes),
            sv == span_view(spans@),
            spans_well_formed(sv, bytes),
            old_records == records_view(old(records)@),
            ({
                let (o, r, c) = pass_state(bytes, sv.take(k as int), kind, phone);
                &&& encode_utf8(out@) == o
                &&& records_view(records@) == old_records + r
                &&& c == copied
            }),
            copied <= bytes.len(),
            is_char_boundary(bytes, copied as int),
            k > 0 ==> copied <= sv[k - 1].1,
            k == 0 ==> copied == 0,
        decreases spans@.len() - k,
    {
        let (s, e) = spans[k];
        assert(sv[k as int] == (s as int, e as int));
        assert(sv.take(k + 1).drop_last() =~= sv.take(k as int));
        assert(sv.take(k + 1).last() == (s as int, e as int));
        proof {
            if k > 0 {
                assert(sv[k as int].0 >= sv[k - 1].1);
            }
            lemma_boundary_in_tail(bytes, copied as int, s as int);
            lemma_boundary_in_tail(bytes, s as int, e as int);
        }
        let (_, from_copied) = input.split_at(copied);
        let (piece, _) = from_copied.split_at(s - copied);
        let (_, from_start) = input.split_at(s);
        let (original, _) = from_start.split_at(e - s);
        assert(piece.spec_bytes() =~= bytes.subrange(copied as int, s as int));
        assert(original.spec_bytes() =~= bytes.subrange(s as int, e as int));
        let accept = if phone {
            let digits = count_digits(original);
            7 <= digits && digits <= 15
        } else {
            true
        };
        if accept {
            let ghost before = out@;
            out.append(piece);
            let byte_start = out.as_str().len();
            proof {
                lemma_encode_concat(before, piece@);
            }
            let (replacement, digest) = replacement_for(kind, original);
            let ghost mid = out@;
            out.append(replacement.as_str());
            proof {
                lemma_encode_concat(mid, replacement@);
            }
            let ghost prev = records@;
            records.push(
                RedactionRecord {
                    kind,
                    byte_start,
                    original_bytes: e - s,
                    original_sha256: digest,
                    replacement,
                },
            );
            assert(records_view(records@) =~= records_view(prev).push(records@.last()@));
            copied = e;
        }
        k = k + 1;
    }
    assert(sv.take(k as int) =~= sv);
    let (_, rest) = input.split_at(copied);
    let ghost before = out@;
    out.append(rest);
    proof {
        lemma_encode_concat(before, rest@);
        vstd::utf8::encode_utf8_decode_utf8(out@);
    }
    assert(rest.spec_bytes() =~= bytes.subrange(copied as int, bytes.len() as int));
    Some(out)
}

} // verus!

verus! {

/// Explicit identifiers are replaced longest first (by UTF-8 length), then
/// in string order, so that an identifier containing another is replaced
/// whole.
pub open spec fn ident_before(a: Seq<char>, b: Seq<char>) -> bool {
    ||| (encode_utf8(a).len() as usize) > (encode_utf8(b).len() as usize)
    ||| ((encode_utf8(a).len() as usize) == (encode_utf8(b).len() as usize) && chars_lt(a, b))
}

/// Where `x` goes in a list already in replacement order.
pub open spec fn ident_pos(list: Seq<Seq<char>>, x: Seq<char>) -> int
    decreases list.len(),
{
    if list.len() == 0 {
        0
    } else if ident_before(x, list.last()) {
        ident_pos(list.drop_last(), x)
    } else {
        list.len() as int
    }
}

/// The identifiers in replacement order.
pub open spec fn ident_order(ids: Seq<Seq<char>>) -> Seq<Seq<char>>
    decreases ids.len(),
{
    if ids.len() == 0 {
        Seq::empty()
    } else {
        let sorted = ident_order(ids.drop_last());
        sorted.insert(ident_pos(sorted, ids.last()), ids.last())
    }
}

/// Identifier passes, in the given order; empty identifiers are skipped.
pub open spec fn ident_passes(text: Seq<char>, ids: Seq<Seq<char>>) -> Option<(Seq<char>, Seq<RecordView>)>
    decreases ids.len(),
{
    if ids.len() == 0 {
        Some((text, Seq::empty()))
    } else {
        match ident_passes(text, ids.drop_last()) {
            None => None,
            Some((t, r)) => if ids.last().len() == 0 {
                Some((t, r))
            } else {
                match redact_pass(t, regex_escaped(ids.last()), RedactionKind::ExplicitIdentifier, false) {
                    None => None,
                    Some((t2, r2)) => Some((t2, r + r2)),
                }
            },
        }
    }
}

/// One more pass, when enabled.
pub open spec fn then_pass(
    so_far: Option<(Seq<char>, Seq<RecordView>)>,
    enabled: bool,
    pattern: Seq<char>,
    kind: RedactionKind,
    phone: bool,
) -> Option<(Seq<char>, Seq<RecordView>)> {
    match so_far {
        None => None,
        Some((t, r)) => if !enabled {
            Some((t, r))
        } else {
            match redact_pass(t, pattern, kind, phone) {
                None => None,
                Some((t2, r2)) => Some((t2, r + r2)),
            }
        },
    }
}

/// The redacted text and its records: explicit identifiers, then e-mail
/// addresses, phone numbers and paths, each when configured.
pub open spec fn redact_spec(text: Seq<char>, config: RedactionConfig) -> Option<(Seq<char>, Seq<RecordView>)> {
    let ids = ident_order(crate::json::string_views(config.identifiers@));
    let after_ids = ident_passes(text, ids);
    let after_emails = then_pass(after_ids, config.redact_emails, EMAIL_PATTERN@, RedactionKind::Email, false);
    let after_phones = then_pass(after_emails, config.redact_phone_numbers, PHONE_PATTERN@, RedactionKind::Phone, true);
    then_pass(after_phones, config.redact_paths, PATH_PATTERN@, RedactionKind::Path, false)
}

/// Whether `a` is replaced before `b`.
fn ident_goes_before(a: &String, b: &String) -> (r: bool)
    ensures
        r == ident_before(a@, b@),
{
    let la = a.as_str().len();
    let lb = b.as_str().len();
    la > lb || (la == lb && crate::text::chars_less(&str_chars(a.as_str()), &str_chars(b.as_str())))
}

/// Where `x` goes among identifiers already in replacement order.
fn ident_insert_pos(sorted: &Vec<String>, x: &String) -> (p: usize)
    ensures
        p == ident_pos(crate::json::string_views(sorted@), x@),
        p <= sorted@.len(),
{
    let ghost sv = crate::json::string_views(sorted@);
    let mut p = sorted.len();
    assert(sv.take(p as int) =~= sv);
    while p > 0 && ident_goes_before(x, &sorted[p - 1])
        invariant
            p <= sorted@.len(),
            sv == crate::json::string_views(sorted@),
            ident_pos(sv, x@) == ident_pos(sv.take(p as int), x@),
        decreases p,
    {
        assert(sv.take(p as int).drop_last() =~= sv.take(p - 1));
        p = p - 1;
    }
    if p > 0 {
        assert(sv.take(p as int).last() == sorted@[p - 1]@);
    }
    p
}

/// The identifiers in replacement order.
fn sort_identifiers(ids: &Vec<String>) -> (sorted: Vec<String>)
    ensures
        crate::json::string_views(sorted@) == ident_order(crate::json::string_views(ids@)),
{
    let mut sorted: Vec<String> = Vec::new();
    let mut n: usize = 0;
    while n < ids.len()
        invariant
            0 <= n <= ids@.len(),
            crate::json::string_views(sorted@) == ident_order(crate::json::string_views(ids@.take(n as int))),
        decreases ids@.len() - n,
    {
        let ghost sv = crate::json::string_views(sorted@);
        let x = ids[n].clone();
        let p = ident_insert_pos(&sorted, &x);
        let ghost xv = x@;
        sorted.insert(p, x);
        assert(crate::json::string_views(sorted@) =~= sv.insert(p as int, xv));
        n = n + 1;
        assert(crate::json::string_views(ids@.take(n as int)).drop_last() =~= crate::json::string_views(
            ids@.take((n - 1) as int),
        ));
    }
    assert(ids@.take(n as int) =~= ids@);
    sorted
}

/// Deterministically redact the configured privacy classes of a text.
/// `None` when a pattern does not compile (the built-in patterns and escaped
/// literals always do).
pub fn redact_text(text: &str, config: &RedactionConfig) -> (r: Option<(String, Vec<RedactionRecord>)>)
    ensures
        match redact_spec(text@, *config) {
            None => r is None,
            Some((t, recs)) => r matches Some((s, v)) && s@ == t && records_view(v@) == recs,
        },
{
    let mut visible = copy_str(text);
    let mut records: Vec<RedactionRecord> = Vec::new();
    let identifiers = sort_identifiers(&config.identifiers);
    let ghost ids = crate::json::string_views(identifiers@);
    assert(ids == ident_order(crate::json::string_views(config.identifiers@)));
    let mut i: usize = 0;
    assert(ids.take(0) =~= Seq::<Seq<char>>::empty());
    assert(records_view(records@) =~= Seq::empty());
    while i < identifiers.len()
        invariant
            0 <= i <= identifiers@.len(),
            ids == crate::json::string_views(identifiers@),
            ids == ident_order(crate::json::string_views(config.identifiers@)),
            ident_passes(text@, ids.take(i as int)) == Some((visible@, records_view(records@))),
        decreases identifiers@.len() - i,
    {
        assert(ids.take(i + 1).drop_last() =~= ids.take(i as int));
        if !identifiers[i].as_str().is_empty() {
            let escaped = escape_literal(identifiers[i].as_str());
            match replace_matches(visible.as_str(), escaped.as_str(), RedactionKind::ExplicitIdentifier, false, &mut records) {
                None => {
                    assert(ids.take(i + 1).last() == identifiers@[i as int]@);
                    assert(ident_passes(text@, ids.take(i + 1)) is None);
                    proof {
                        lemma_ident_passes_none(text@, ids, (i + 1) as int);
                        assert(ids.take(ids.len() as int) =~= ids);
                    }
                    return None;
                },
                Some(next) => {
                    assert(ids.take(i + 1).last() == identifiers@[i as int]@);
                    visible = next;
                },
            }
        } else {
            assert(identifiers@[i as int]@.len() == 0);
            assert(ids.take(i + 1).last() == identifiers@[i as int]@);
        }
        i = i + 1;
    }
    assert(ids.take(i as int) =~= ids);
    if config.redact_emails {
        match replace_matches(visible.as_str(), EMAIL_PATTERN, RedactionKind::Email, false, &mut records) {
            None => return None,
            Some(next) => { visible = next; },
        }
    }
    if config.redact_phone_numbers {
        match replace_matches(visible.as_str(), PHONE_PATTERN, RedactionKind::Phone, true, &mut records) {
            None => return None,
            Some(next) => { visible = next; },
        }
    }
    if config.redact_paths {
        match replace_matches(visible.as_str(), PATH_PATTERN, RedactionKind::Path, false, &mut records) {
            None => return None,
            Some(next) => { visible = next; },
        }
    }
    Some((visible, records))
}

proof fn lemma_ident_passes_none(text: Seq<char>, ids: Seq<Seq<char>>, n: int)
    requires
        0 <= n <= ids.len(),
        ident_passes(text, ids.take(n)) is None,
    ensures
        ident_passes(text, ids) is None,
    decreases ids.len() - n,
{
    if n < ids.len() {
        assert(ids.take(n + 1).drop_last() =~= ids.take(n));
        lemma_ident_passes_none(text, ids, n + 1);
    } else {
        assert(ids.take(n) =~= ids);
    }
}

} // verus!

//! Rendering and reading of record-log and source-registry lines.
//!
//! One line is one JSON object with fixed field names and order — the
//! on-disk schema: `ts`, `fts`, `src`, `pth`, `exf` (base64), `siz`,
//! `hgh`, `wdt`, `crc` for photo records; `id`, `name`, `group`, `tags`
//! for registry rows. The writer renders exactly this shape; the reader
//! accepts exactly the lines the grammar below describes.
use crate::json::b64;
use crate::json::b64_byte;
use crate::json::b64_group3;
use crate::json::dec_bytes;
use crate::json::dec_bytes_int;
use crate::json::esc_byte;
use crate::json::hex_lower_byte;
use crate::json::is_digit_byte;
use crate::json::json_escaped;
use crate::json::lit_bytes;
use crate::json::push_b64;
use crate::json::push_escaped;
use crate::json::push_i64_dec;
use crate::json::push_lit;
use crate::json::push_u64_dec;
use crate::records::bucket_chars;
use crate::records::json_row_of;
use crate::records::valid_row;
use crate::records::JsonRowView;
use crate::records::PhotoArchiveJsonRow;
use crate::records::PhotoArchiveRecordsStore;
use crate::records::PhotoArchiveRow;
use crate::sources::SourceJsonRow;
use crate::sources::SourceRowView;
use vstd::assert_seqs_equal;
use vstd::prelude::*;

verus! {

/// The stored `ts` field: epoch seconds, or `null` for a record without a
/// photo timestamp.
pub open spec fn ts_bytes(t: Option<int>) -> Seq<u8> {
    match t {
        Some(v) => dec_bytes_int(v),
        None => lit_bytes("null"),
    }
}

/// One record-log line (without the trailing newline).
pub open spec fn row_json_bytes(row: JsonRowView) -> Seq<u8> {
    lit_bytes("{\"ts\":") + ts_bytes(row.timestamp) + lit_bytes(",\"fts\":") + dec_bytes(
        row.file_ts as nat,
    ) + lit_bytes(",\"src\":\"") + json_escaped(vstd::utf8::encode_utf8(row.source)) + lit_bytes(
        "\",\"pth\":\"",
    ) + json_escaped(vstd::utf8::encode_utf8(row.path)) + lit_bytes("\",\"exf\":\"") + b64(
        row.exif,
    ) + lit_bytes("\",\"siz\":") + dec_bytes(row.size as nat) + lit_bytes(",\"hgh\":") + dec_bytes(
        row.height as nat,
    ) + lit_bytes(",\"wdt\":") + dec_bytes(row.width as nat) + lit_bytes(",\"crc\":") + dec_bytes(
        row.crc as nat,
    ) + lit_bytes("}")
}

/// Renders one record as its log line, without the trailing newline.
pub fn record_line(row: &PhotoArchiveJsonRow) -> (r: Vec<u8>)
    ensures
        r@ == row_json_bytes(row@),
{
    let mut out: Vec<u8> = Vec::new();
    push_lit(&mut out, "{\"ts\":");
    match row.timestamp {
        Some(v) => push_i64_dec(&mut out, v),
        None => push_lit(&mut out, "null"),
    }
    push_lit(&mut out, ",\"fts\":");
    push_u64_dec(&mut out, row.file_ts);
    push_lit(&mut out, ",\"src\":\"");
    push_escaped(&mut out, row.source.as_str().as_bytes());
    push_lit(&mut out, "\",\"pth\":\"");
    push_escaped(&mut out, row.path.as_str().as_bytes());
    push_lit(&mut out, "\",\"exf\":\"");
    push_b64(&mut out, row.exif.as_slice());
    push_lit(&mut out, "\",\"siz\":");
    push_u64_dec(&mut out, row.size);
    push_lit(&mut out, ",\"hgh\":");
    push_u64_dec(&mut out, row.height as u64);
    push_lit(&mut out, ",\"wdt\":");
    push_u64_dec(&mut out, row.width as u64);
    push_lit(&mut out, ",\"crc\":");
    push_u64_dec(&mut out, row.crc as u64);
    push_lit(&mut out, "}");
    proof {
        assert(out@ =~= row_json_bytes(row@));
    }
    out
}

impl PhotoArchiveRecordsStore {
    /// The append a record asks for: the log file to open and the line —
    /// newline included — to add at its end.
    pub fn write_frame(&self, row: PhotoArchiveRow) -> (r: (String, Vec<u8>))
        requires
            valid_row(row),
        ensures
            r.0@ == self.base_dir@ + "/"@ + bucket_chars(row.photo_ts) + "/index.json"@,
            r.1@ == row_json_bytes(json_row_of(row)) + seq![10u8],
    {
        let path = self.index_path(&row);
        let json_row = row.to_json_row();
        let mut line = record_line(&json_row);
        line.push(10);
        proof {
            assert(line@ =~= row_json_bytes(json_row_of(row)) + seq![10u8]);
        }
        (path, line)
    }
}

/// A JSON string: quote, escaped content, quote.
pub open spec fn quoted_bytes(s: Seq<char>) -> Seq<u8> {
    seq![34u8] + json_escaped(vstd::utf8::encode_utf8(s)) + seq![34u8]
}

/// The first `n` tag strings as JSON array items.
pub open spec fn tags_items_bytes(tags: Seq<Seq<char>>, n: int) -> Seq<u8>
    decreases n,
{
    if n <= 0 {
        Seq::empty()
    } else if n == 1 {
        quoted_bytes(tags[0])
    } else {
        tags_items_bytes(tags, n - 1) + lit_bytes(",") + quoted_bytes(tags[n - 1])
    }
}

/// One source-registry line (without the trailing newline).
pub open spec fn source_json_bytes(row: SourceRowView) -> Seq<u8> {
    lit_bytes("{\"id\":") + quoted_bytes(row.id) + lit_bytes(",\"name\":") + quoted_bytes(row.name)
        + lit_bytes(",\"group\":") + quoted_bytes(row.group) + lit_bytes(",\"tags\":[")
        + tags_items_bytes(row.tags, row.tags.len() as int) + lit_bytes("]}")
}

fn push_quoted(out: &mut Vec<u8>, s: &str)
    ensures
        final(out)@ == old(out)@ + quoted_bytes(s@),
{
    out.push(34);
    push_escaped(out, s.as_bytes());
    out.push(34);
    proof {
        assert(final(out)@ =~= old(out)@ + quoted_bytes(s@));
    }
}

/// Renders one registry row as its line, without the trailing newline.
pub fn source_line(row: &SourceJsonRow) -> (r: Vec<u8>)
    ensures
        r@ == source_json_bytes(row@),
{
    let mut out: Vec<u8> = Vec::new();
    push_lit(&mut out, "{\"id\":");
    push_quoted(&mut out, row.id.as_str());
    push_lit(&mut out, ",\"name\":");
    push_quoted(&mut out, row.name.as_str());
    push_lit(&mut out, ",\"group\":");
    push_quoted(&mut out, row.group.as_str());
    push_lit(&mut out, ",\"tags\":[");
    let ghost mid = out@;
    let mut i: usize = 0;
    while i < row.tags.len()
        invariant
            i <= row.tags@.len(),
            out@ == mid + tags_items_bytes(
                row.tags@.map_values(|t: String| t@),
                i as int,
            ),
        decreases row.tags@.len() - i,
    {
        if i > 0 {
            push_lit(&mut out, ",");
        }
        push_quoted(&mut out, row.tags[i].as_str());
        proof {
            assert(out@ =~= mid + tags_items_bytes(
                row.tags@.map_values(|t: String| t@),
                i + 1,
            ));
        }
        i = i + 1;
    }
    push_lit(&mut out, "]}");
    proof {
        assert(out@ =~= source_json_bytes(row@));
    }
    out
}

/// Whether `l` occurs in `s` at position `i`.
pub open spec fn match_lit(s: Seq<u8>, i: int, l: Seq<u8>) -> bool {
    0 <= i && i + l.len() <= s.len() && s.subrange(i, i + l.len() as int) == l
}

/// Digits from position `i` accumulated onto `acc`, refusing values beyond
/// 64 bits; yields the value and the position after the digits.
pub open spec fn parse_u64_rec(s: Seq<u8>, i: int, acc: int) -> Option<(int, int)>
    decreases s.len() - i,
    when 0 <= i <= s.len()
{
    if i < s.len() && is_digit_byte(s[i]) {
        let acc2 = acc * 10 + (s[i] - 48);
        if acc2 > u64::MAX as int {
            None
        } else {
            parse_u64_rec(s, i + 1, acc2)
        }
    } else {
        Some((acc, i))
    }
}

/// An unsigned decimal number at position `i`: at least one digit, value
/// within 64 bits.
pub open spec fn parse_u64_at(s: Seq<u8>, i: int) -> Option<(int, int)> {
    if 0 <= i && i < s.len() && is_digit_byte(s[i]) {
        parse_u64_rec(s, i, 0)
    } else {
        None
    }
}

/// The `ts` field at position `i`: `null`, or a signed decimal within the
/// 64-bit signed range.
pub open spec fn parse_ts_at(s: Seq<u8>, i: int) -> Option<(Option<int>, int)> {
    if match_lit(s, i, lit_bytes("null")) {
        Some((None, i + lit_bytes("null").len() as int))
    } else if 0 <= i && i < s.len() && s[i] == 45 {
        match parse_u64_at(s, i + 1) {
            Some((v, j)) => if v <= 9223372036854775808 {
                Some((Some(-v), j))
            } else {
                None
            },
            None => None,
        }
    } else {
        match parse_u64_at(s, i) {
            Some((v, j)) => if v <= i64::MAX as int {
                Some((Some(v), j))
            } else {
                None
            },
            None => None,
        }
    }
}

/// The value of a lowercase hexadecimal digit byte, if it is one.
pub open spec fn hexl_val(b: u8) -> Option<int> {
    if 48 <= b <= 57 {
        Some((b - 48) as int)
    } else if 97 <= b <= 102 {
        Some((b - 97 + 10) as int)
    } else {
        None
    }
}

/// JSON string content from position `i` up to the closing quote,
/// unescaped onto `acc`; yields the content bytes and the position after
/// the quote. Raw control bytes and unknown escapes are refused.
pub open spec fn parse_jstr_rec(s: Seq<u8>, i: int, acc: Seq<u8>) -> Option<(Seq<u8>, int)>
    decreases s.len() - i,
    when 0 <= i <= s.len()
{
    if i >= s.len() {
        None
    } else if s[i] == 34 {
        Some((acc, i + 1))
    } else if s[i] == 92 {
        if i + 2 > s.len() {
            None
        } else {
            let e = s[i + 1];
            if e == 34 {
                parse_jstr_rec(s, i + 2, acc.push(34))
            } else if e == 92 {
                parse_jstr_rec(s, i + 2, acc.push(92))
            } else if e == 98 {
                parse_jstr_rec(s, i + 2, acc.push(8))
            } else if e == 116 {
                parse_jstr_rec(s, i + 2, acc.push(9))
            } else if e == 110 {
                parse_jstr_rec(s, i + 2, acc.push(10))
            } else if e == 102 {
                parse_jstr_rec(s, i + 2, acc.push(12))
            } else if e == 114 {
                parse_jstr_rec(s, i + 2, acc.push(13))
            } else if e == 117 {
                if i + 6 <= s.len() && s[i + 2] == 48 && s[i + 3] == 48 && hexl_val(s[i + 4])
                    is Some && hexl_val(s[i + 5]) is Some {
                    parse_jstr_rec(
                        s,
                        i + 6,
                        acc.push(
                            (hexl_val(s[i + 4]).unwrap() * 16 + hexl_val(s[i + 5]).unwrap()) as u8,
                        ),
                    )
                } else {
                    None
                }
            } else {
                None
            }
        }
    } else if s[i] < 32 {
        None
    } else {
        parse_jstr_rec(s, i + 1, acc.push(s[i]))
    }
}

/// A string field at position `i` (after its opening quote): unescaped,
/// and decoded from UTF-8.
pub open spec fn parse_string_field(s: Seq<u8>, i: int) -> Option<(Seq<char>, int)> {
    match parse_jstr_rec(s, i, Seq::empty()) {
        Some((bytes, j)) => if vstd::utf8::valid_utf8(bytes) {
            Some((vstd::utf8::decode_utf8(bytes), j))
        } else {
            None
        },
        None => None,
    }
}

/// The value of a base64 alphabet byte, if it is one.
pub open spec fn b64_val(b: u8) -> Option<int> {
    if 65 <= b <= 90 {
        Some((b - 65) as int)
    } else if 97 <= b <= 122 {
        Some((b - 97 + 26) as int)
    } else if 48 <= b <= 57 {
        Some((b - 48 + 52) as int)
    } else if b == 43 {
        Some(62)
    } else if b == 47 {
        Some(63)
    } else {
        None
    }
}

/// Base64 content from position `i` up to the closing quote, decoded onto
/// `acc`; only canonical groups are accepted, padding only in the last
/// group.
pub open spec fn parse_b64_rec(s: Seq<u8>, i: int, acc: Seq<u8>) -> Option<(Seq<u8>, int)>
    decreases s.len() - i,
    when 0 <= i <= s.len()
{
    if i >= s.len() {
        None
    } else if s[i] == 34 {
        Some((acc, i + 1))
    } else if i + 4 > s.len() {
        None
    } else {
        let c0 = s[i];
        let c1 = s[i + 1];
        let c2 = s[i + 2];
        let c3 = s[i + 3];
        if b64_val(c0) is Some && b64_val(c1) is Some {
            let v0 = b64_val(c0).unwrap();
            let v1 = b64_val(c1).unwrap();
            if c2 == 61 && c3 == 61 {
                if v1 % 16 == 0 && i + 4 < s.len() && s[i + 4] == 34 {
                    Some((acc.push((v0 * 4 + v1 / 16) as u8), i + 5))
                } else {
                    None
                }
            } else if c3 == 61 {
                if b64_val(c2) is Some {
                    let v2 = b64_val(c2).unwrap();
                    if v2 % 4 == 0 && i + 4 < s.len() && s[i + 4] == 34 {
                        Some(
                            (
                                acc.push((v0 * 4 + v1 / 16) as u8).push(
                                    ((v1 % 16) * 16 + v2 / 4) as u8,
                                ),
                                i + 5,
                            ),
                        )
                    } else {
                        None
                    }
                } else {
                    None
                }
            } else {
                if b64_val(c2) is Some && b64_val(c3) is Some {
                    let v2 = b64_val(c2).unwrap();
                    let v3 = b64_val(c3).unwrap();
                    parse_b64_rec(
                        s,
                        i + 4,
                        acc.push((v0 * 4 + v1 / 16) as u8).push(((v1 % 16) * 16 + v2 / 4) as u8)
                            .push(((v2 % 4) * 64 + v3) as u8),
                    )
                } else {
                    None
                }
            }
        } else {
            None
        }
    }
}

/// One record-log line as its stored fields, when the line follows the
/// record grammar exactly: the fixed field order, decimal values in range,
/// canonical base64, and nothing after the closing brace.
pub open spec fn spec_parse_record(s: Seq<u8>) -> Option<JsonRowView> {
    let l0 = lit_bytes("{\"ts\":");
    if !match_lit(s, 0, l0) {
        None
    } else {
        match parse_ts_at(s, l0.len() as int) {
            None => None,
            Some((ts, i1)) => {
                let l1 = lit_bytes(",\"fts\":");
                if !match_lit(s, i1, l1) {
                    None
                } else {
                    match parse_u64_at(s, i1 + l1.len()) {
                        None => None,
                        Some((fts, i2)) => {
                            let l2 = lit_bytes(",\"src\":\"");
                            if !match_lit(s, i2, l2) {
                                None
                            } else {
                                match parse_string_field(s, i2 + l2.len()) {
                                    None => None,
                                    Some((src, i3)) => {
                                        let l3 = lit_bytes(",\"pth\":\"");
                                        if !match_lit(s, i3, l3) {
                                            None
                                        } else {
                                            match parse_string_field(s, i3 + l3.len()) {
                                                None => None,
                                                Some((pth, i4)) => spec_parse_record_tail(
                                                    s,
                                                    ts,
                                                    fts,
                                                    src,
                                                    pth,
                                                    i4,
                                                ),
                                            }
                                        }
                                    },
                                }
                            }
                        },
                    }
                }
            },
        }
    }
}

/// The tail of the record grammar, from the `exf` field on.
pub open spec fn spec_parse_record_tail(
    s: Seq<u8>,
    ts: Option<int>,
    fts: int,
    src: Seq<char>,
    pth: Seq<char>,
    i4: int,
) -> Option<JsonRowView> {
    let l4 = lit_bytes(",\"exf\":\"");
    if !match_lit(s, i4, l4) {
        None
    } else {
        match parse_b64_rec(s, i4 + l4.len(), Seq::empty()) {
            None => None,
            Some((exf, i5)) => {
                let l5 = lit_bytes(",\"siz\":");
                if !match_lit(s, i5, l5) {
                    None
                } else {
                    match parse_u64_at(s, i5 + l5.len()) {
                        None => None,
                        Some((siz, i6)) => {
                            let l6 = lit_bytes(",\"hgh\":");
                            if !match_lit(s, i6, l6) {
                                None
                            } else {
                                match parse_u64_at(s, i6 + l6.len()) {
                                    None => None,
                                    Some((hgh, i7)) => {
                                        let l7 = lit_bytes(",\"wdt\":");
                                        if !(hgh <= u32::MAX as int && match_lit(s, i7, l7)) {
                                            None
                                        } else {
                                            match parse_u64_at(s, i7 + l7.len()) {
                                                None => None,
                                                Some((wdt, i8)) => {
                                                    let l8 = lit_bytes(",\"crc\":");
                                                    if !(wdt <= u32::MAX as int && match_lit(
                                                        s,
                                                        i8,
                                                        l8,
                                                    )) {
                                                        None
                                                    } else {
                                                        match parse_u64_at(s, i8 + l8.len()) {
                                                            None => None,
                                                            Some((crc, i9)) => {
                                                                let l9 = lit_bytes("}");
                                                                if crc <= u32::MAX as int
                                                                    && match_lit(s, i9, l9) && i9
                                                                    + l9.len() == s.len() {
                                                                    Some(
                                                                        JsonRowView {
                                                                            timestamp: ts,
                                                                            file_ts: fts,
                                                                            source: src,
                                                                            path: pth,
                                                                            exif: exf,
                                                                            size: siz,
                                                                            height: hgh,
                                                                            width: wdt,
                                                                            crc: crc,
                                                                        },
                                                                    )
                                                                } else {
                                                                    None
                                                                }
                                                            },
                                                        }
                                                    }
                                                },
                                            }
                                        }
                                    },
                                }
                            }
                        },
                    }
                }
            },
        }
    }
}

fn match_lit_exec(s: &[u8], i: usize, l: &str) -> (r: bool)
    requires
        i <= s@.len(),
    ensures
        r == match_lit(s@, i as int, lit_bytes(l)),
{
    let n = s.len();
    let lb = l.as_bytes();
    if lb.len() > n - i {
        return false;
    }
    let mut k: usize = 0;
    while k < lb.len()
        invariant
            k <= lb@.len(),
            n == s@.len(),
            i + lb@.len() <= n,
            lb@ == lit_bytes(l),
            forall|m: int| 0 <= m < k ==> s@[i + m] == lb@[m],
        decreases lb@.len() - k,
    {
        if s[i + k] != lb[k] {
            proof {
                assert(s@.subrange(i as int, i + lb@.len())[k as int] != lb@[k as int]);
            }
            return false;
        }
        k = k + 1;
    }
    proof {
        assert(s@.subrange(i as int, i + lb@.len()) =~= lb@);
    }
    true
}

fn parse_u64_exec(s: &[u8], i: usize) -> (r: Option<(u64, usize)>)
    requires
        i <= s@.len(),
    ensures
        match r {
            Some((v, j)) => parse_u64_at(s@, i as int) == Some((v as int, j as int)) && i < j
                <= s@.len(),
            None => parse_u64_at(s@, i as int) is None,
        },
{
    if i >= s.len() || s[i] < 48 || s[i] > 57 {
        return None;
    }
    let mut j: usize = i;
    let mut acc: u64 = 0;
    while j < s.len() && 48 <= s[j] && s[j] <= 57
        invariant
            i <= j <= s@.len(),
            i < s@.len() && is_digit_byte(s@[i as int]),
            parse_u64_rec(s@, j as int, acc as int) == parse_u64_rec(s@, i as int, 0),
        decreases s@.len() - j,
    {
        let d = s[j] - 48;
        let wide: u128 = acc as u128 * 10 + d as u128;
        if wide > u64::MAX as u128 {
            return None;
        }
        acc = wide as u64;
        j = j + 1;
    }
    Some((acc, j))
}

fn parse_ts_exec(s: &[u8], i: usize) -> (r: Option<(Option<i64>, usize)>)
    requires
        i <= s@.len(),
    ensures
        match r {
            Some((v, j)) => parse_ts_at(s@, i as int) == Some(
                (
                    match v {
                        Some(t) => Some(t as int),
                        None => None,
                    },
                    j as int,
                ),
            ) && i < j <= s@.len(),
            None => parse_ts_at(s@, i as int) is None,
        },
{
    let n = s.len();
    if match_lit_exec(s, i, "null") {
        let l = lit_len("null");
        proof {
            reveal_strlit("null");
            assert(vstd::utf8::is_ascii_chars("null"@));
            vstd::utf8::is_ascii_chars_encode_utf8("null"@);
            assert(lit_bytes("null").len() == 4);
            assert(i + lit_bytes("null").len() <= n);
        }
        return Some((None, i + l));
    }
    if i < s.len() && s[i] == 45 {
        match parse_u64_exec(s, i + 1) {
            Some((v, j)) => {
                if v <= 9223372036854775808u64 {
                    let t: i64 = if v == 9223372036854775808u64 {
                        i64::MIN
                    } else {
                        -(v as i64)
                    };
                    Some((Some(t), j))
                } else {
                    None
                }
            },
            None => None,
        }
    } else {
        match parse_u64_exec(s, i) {
            Some((v, j)) => {
                if v <= i64::MAX as u64 {
                    Some((Some(v as i64), j))
                } else {
                    None
                }
            },
            None => None,
        }
    }
}

/// Turns raw bytes into a string.
///
/// Relies on `String::from_utf8`: it succeeds exactly on valid UTF-8 and
/// decodes those bytes.
#[verifier::external_body]
fn bytes_to_string(v: Vec<u8>) -> (r: Option<String>)
    ensures
        match r {
            Some(s) => vstd::utf8::valid_utf8(v@) && s@ == vstd::utf8::decode_utf8(v@),
            None => !vstd::utf8::valid_utf8(v@),
        },
{
    String::from_utf8(v).ok()
}

fn hexl_val_exec(b: u8) -> (r: Option<u8>)
    ensures
        match r {
            Some(v) => hexl_val(b) == Some(v as int) && v < 16,
            None => hexl_val(b) is None,
        },
{
    if 48 <= b && b <= 57 {
        Some(b - 48)
    } else if 97 <= b && b <= 102 {
        Some(b - 97 + 10)
    } else {
        None
    }
}

fn parse_string_exec(s: &[u8], i: usize) -> (r: Option<(String, usize)>)
    requires
        i <= s@.len(),
    ensures
        match r {
            Some((t, j)) => parse_string_field(s@, i as int) == Some((t@, j as int)) && i < j
                <= s@.len(),
            None => parse_string_field(s@, i as int) is None,
        },
{
    let n = s.len();
    let mut j: usize = i;
    let mut acc: Vec<u8> = Vec::new();
    loop
        invariant
            i <= j <= s@.len(),
            n == s@.len(),
            parse_jstr_rec(s@, j as int, acc@) == parse_jstr_rec(s@, i as int, Seq::empty()),
        decreases s@.len() - j,
    {
        if j >= n {
            return None;
        }
        let b = s[j];
        if b == 34 {
            let j1 = j + 1;
            match bytes_to_string(acc) {
                Some(t) => {
                    return Some((t, j1));
                },
                None => {
                    return None;
                },
            }
        } else if b == 92 {
            if n - j < 2 {
                return None;
            }
            let e = s[j + 1];
            if e == 34 {
                acc.push(34);
            } else if e == 92 {
                acc.push(92);
            } else if e == 98 {
                acc.push(8);
            } else if e == 116 {
                acc.push(9);
            } else if e == 110 {
                acc.push(10);
            } else if e == 102 {
                acc.push(12);
            } else if e == 114 {
                acc.push(13);
            } else if e == 117 {
                if n - j >= 6 && s[j + 2] == 48 && s[j + 3] == 48 {
                    let h1 = hexl_val_exec(s[j + 4]);
                    let h2 = hexl_val_exec(s[j + 5]);
                    match (h1, h2) {
                        (Some(v1), Some(v2)) => {
                            acc.push(v1 * 16 + v2);
                            j = j + 6;
                            continue ;
                        },
                        _ => {
                            return None;
                        },
                    }
                } else {
                    return None;
                }
            } else {
                return None;
            }
            j = j + 2;
        } else if b < 32 {
            return None;
        } else {
            acc.push(b);
            j = j + 1;
        }
    }
}

fn b64_val_exec(b: u8) -> (r: Option<u8>)
    ensures
        match r {
            Some(v) => b64_val(b) == Some(v as int) && v < 64,
            None => b64_val(b) is None,
        },
{
    if 65 <= b && b <= 90 {
        Some(b - 65)
    } else if 97 <= b && b <= 122 {
        Some(b - 97 + 26)
    } else if 48 <= b && b <= 57 {
        Some(b - 48 + 52)
    } else if b == 43 {
        Some(62)
    } else if b == 47 {
        Some(63)
    } else {
        None
    }
}

fn parse_b64_exec(s: &[u8], i: usize) -> (r: Option<(Vec<u8>, usize)>)
    requires
        i <= s@.len(),
    ensures
        match r {
            Some((t, j)) => parse_b64_rec(s@, i as int, Seq::empty()) == Some((t@, j as int)) && i
                < j <= s@.len(),
            None => parse_b64_rec(s@, i as int, Seq::empty()) is None,
        },
{
    let n = s.len();
    let mut j: usize = i;
    let mut acc: Vec<u8> = Vec::new();
    loop
        invariant
            i <= j <= s@.len(),
            n == s@.len(),
            parse_b64_rec(s@, j as int, acc@) == parse_b64_rec(s@, i as int, Seq::empty()),
        decreases s@.len() - j,
    {
        if j >= n {
            return None;
        }
        if s[j] == 34 {
            return Some((acc, j + 1));
        }
        if n - j < 4 {
            return None;
        }
        let v0 = match b64_val_exec(s[j]) {
            Some(v) => v,
            None => {
                return None;
            },
        };
        let v1 = match b64_val_exec(s[j + 1]) {
            Some(v) => v,
            None => {
                return None;
            },
        };
        let c2 = s[j + 2];
        let c3 = s[j + 3];
        if c2 == 61 && c3 == 61 {
            if v1 % 16 == 0 && n - j > 4 && s[j + 4] == 34 {
                acc.push(v0 * 4 + v1 / 16);
                return Some((acc, j + 5));
            } else {
                return None;
            }
        } else if c3 == 61 {
            let v2 = match b64_val_exec(c2) {
                Some(v) => v,
                None => {
                    return None;
                },
            };
            if v2 % 4 == 0 && n - j > 4 && s[j + 4] == 34 {
                acc.push(v0 * 4 + v1 / 16);
                acc.push((v1 % 16) * 16 + v2 / 4);
                return Some((acc, j + 5));
            } else {
                return None;
            }
        } else {
            let v2 = match b64_val_exec(c2) {
                Some(v) => v,
                None => {
                    return None;
                },
            };
            let v3 = match b64_val_exec(c3) {
                Some(v) => v,
                None => {
                    return None;
                },
            };
            acc.push(v0 * 4 + v1 / 16);
            acc.push((v1 % 16) * 16 + v2 / 4);
            acc.push((v2 % 4) * 64 + v3);
            j = j + 4;
        }
    }
}

/// Reads one record-log line, without its trailing newline.
///
/// Succeeds exactly when the line follows the record grammar: the fixed
/// field order, values in range, canonical base64, nothing after the
/// closing brace.
pub fn parse_record_line(line: &[u8]) -> (r: Option<PhotoArchiveJsonRow>)
    ensures
        match r {
            Some(row) => spec_parse_record(line@) == Some(row@),
            None => spec_parse_record(line@) is None,
        },
{
    let n = line.len();
    proof {
        assert(line@.len() == n);
    }
    if !match_lit_exec(line, 0, "{\"ts\":") {
        return None;
    }
    let i0 = lit_len("{\"ts\":");
    let (ts, i1) = match parse_ts_exec(line, i0) {
        Some(p) => p,
        None => {
            return None;
        },
    };
    if !match_lit_exec(line, i1, ",\"fts\":") {
        return None;
    }
    let (fts, i2) = match parse_u64_exec(line, i1 + lit_len(",\"fts\":")) {
        Some(p) => p,
        None => {
            return None;
        },
    };
    if !match_lit_exec(line, i2, ",\"src\":\"") {
        return None;
    }
    let (src, i3) = match parse_string_exec(line, i2 + lit_len(",\"src\":\"")) {
        Some(p) => p,
        None => {
            return None;
        },
    };
    if !match_lit_exec(line, i3, ",\"pth\":\"") {
        return None;
    }
    let (pth, i4) = match parse_string_exec(line, i3 + lit_len(",\"pth\":\"")) {
        Some(p) => p,
        None => {
            return None;
        },
    };
    if !match_lit_exec(line, i4, ",\"exf\":\"") {
        return None;
    }
    let (exf, i5) = match parse_b64_exec(line, i4 + lit_len(",\"exf\":\"")) {
        Some(p) => p,
        None => {
            return None;
        },
    };
    if !match_lit_exec(line, i5, ",\"siz\":") {
        return None;
    }
    let (siz, i6) = match parse_u64_exec(line, i5 + lit_len(",\"siz\":")) {
        Some(p) => p,
        None => {
            return None;
        },
    };
    if !match_lit_exec(line, i6, ",\"hgh\":") {
        return None;
    }
    let (hgh, i7) = match parse_u64_exec(line, i6 + lit_len(",\"hgh\":")) {
        Some(p) => p,
        None => {
            return None;
        },
    };
    if hgh > u32::MAX as u64 || !match_lit_exec(line, i7, ",\"wdt\":") {
        return None;
    }
    let (wdt, i8) = match parse_u64_exec(line, i7 + lit_len(",\"wdt\":")) {
        Some(p) => p,
        None => {
            return None;
        },
    };
    if wdt > u32::MAX as u64 || !match_lit_exec(line, i8, ",\"crc\":") {
        return None;
    }
    let (crc, i9) = match parse_u64_exec(line, i8 + lit_len(",\"crc\":")) {
        Some(p) => p,
        None => {
            return None;
        },
    };
    if crc > u32::MAX as u64 || !match_lit_exec(line, i9, "}") {
        return None;
    }
    if i9 + lit_len("}") != line.len() {
        return None;
    }
    Some(
        PhotoArchiveJsonRow {
            timestamp: ts,
            file_ts: fts,
            source: src,
            path: pth,
            exif: exf,
            size: siz,
            height: hgh as u32,
            width: wdt as u32,
            crc: crc as u32,
        },
    )
}

/// The byte length of an ASCII literal.
fn lit_len(l: &str) -> (r: usize)
    ensures
        r == lit_bytes(l).len(),
{
    l.as_bytes().len()
}

/// Further tag items after the first, up to the closing bracket.
pub open spec fn parse_tags_more(s: Seq<u8>, i: int, acc: Seq<Seq<char>>) -> Option<
    (Seq<Seq<char>>, int),
>
    decreases s.len() - i,
    when 0 <= i <= s.len()
{
    if i >= s.len() {
        None
    } else if s[i] == 93 {
        Some((acc, i + 1))
    } else if s[i] == 44 {
        if i + 2 <= s.len() && s[i + 1] == 34 {
            match parse_string_field(s, i + 2) {
                Some((t, j)) => if i + 2 < j && j <= s.len() {
                    parse_tags_more(s, j, acc.push(t))
                } else {
                    None
                },
                None => None,
            }
        } else {
            None
        }
    } else {
        None
    }
}

/// A JSON array of strings at position `i` (after its opening bracket).
pub open spec fn parse_tags_at(s: Seq<u8>, i: int) -> Option<(Seq<Seq<char>>, int)> {
    if 0 <= i && i < s.len() && s[i] == 93 {
        Some((Seq::empty(), i + 1))
    } else if 0 <= i && i < s.len() && s[i] == 34 {
        match parse_string_field(s, i + 1) {
            Some((t, j)) => if i + 1 < j && j <= s.len() {
                parse_tags_more(s, j, seq![t])
            } else {
                None
            },
            None => None,
        }
    } else {
        None
    }
}

/// One source-registry line as its fields, when the line follows the
/// registry grammar exactly.
pub open spec fn spec_parse_source(s: Seq<u8>) -> Option<SourceRowView> {
    let l0 = lit_bytes("{\"id\":\"");
    if !match_lit(s, 0, l0) {
        None
    } else {
        match parse_string_field(s, l0.len() as int) {
            None => None,
            Some((id, i1)) => {
                let l1 = lit_bytes(",\"name\":\"");
                if !match_lit(s, i1, l1) {
                    None
                } else {
                    match parse_string_field(s, i1 + l1.len()) {
                        None => None,
                        Some((name, i2)) => {
                            let l2 = lit_bytes(",\"group\":\"");
                            if !match_lit(s, i2, l2) {
                                None
                            } else {
                                match parse_string_field(s, i2 + l2.len()) {
                                    None => None,
                                    Some((group, i3)) => {
                                        let l3 = lit_bytes(",\"tags\":[");
                                        if !match_lit(s, i3, l3) {
                                            None
                                        } else {
                                            match parse_tags_at(s, i3 + l3.len()) {
                                                None => None,
                                                Some((tags, i4)) => {
                                                    let l4 = lit_bytes("}");
                                                    if match_lit(s, i4, l4) && i4 + l4.len()
                                                        == s.len() {
                                                        Some(
                                                            SourceRowView { id, name, group, tags },
                                                        )
                                                    } else {
                                                        None
                                                    }
                                                },
                                            }
                                        }
                                    },
                                }
                            }
                        },
                    }
                }
            },
        }
    }
}

fn parse_tags_exec(s: &[u8], i: usize) -> (r: Option<(Vec<String>, usize)>)
    requires
        i <= s@.len(),
    ensures
        match r {
            Some((tags, j)) => parse_tags_at(s@, i as int) == Some(
                (tags@.map_values(|t: String| t@), j as int),
            ) && i < j <= s@.len(),
            None => parse_tags_at(s@, i as int) is None,
        },
{
    let n = s.len();
    if i >= n {
        return None;
    }
    if s[i] == 93 {
        let tags: Vec<String> = Vec::new();
        proof {
            assert(tags@.map_values(|t: String| t@) =~= Seq::<Seq<char>>::empty());
        }
        return Some((tags, i + 1));
    }
    if s[i] != 34 {
        return None;
    }
    let (t0, j0) = match parse_string_exec(s, i + 1) {
        Some(p) => p,
        None => {
            return None;
        },
    };
    let mut tags: Vec<String> = Vec::new();
    tags.push(t0);
    let mut j: usize = j0;
    proof {
        assert(tags@.map_values(|t: String| t@) =~= seq![tags@[0]@]);
    }
    loop
        invariant
            i < j <= s@.len(),
            n == s@.len(),
            parse_tags_more(s@, j as int, tags@.map_values(|t: String| t@)) == parse_tags_at(
                s@,
                i as int,
            ),
        decreases s@.len() - j,
    {
        if j >= n {
            return None;
        }
        if s[j] == 93 {
            return Some((tags, j + 1));
        }
        if s[j] != 44 {
            return None;
        }
        if n - j < 2 || s[j + 1] != 34 {
            return None;
        }
        let (t, jn) = match parse_string_exec(s, j + 2) {
            Some(p) => p,
            None => {
                return None;
            },
        };
        let ghost old_tags = tags@;
        tags.push(t);
        proof {
            assert(tags@.map_values(|t2: String| t2@) =~= old_tags.map_values(
                |t2: String| t2@,
            ).push(tags@[old_tags.len() as int]@));
        }
        j = jn;
    }
}

/// Reads one source-registry line, without its trailing newline.
///
/// Succeeds exactly when the line follows the registry grammar: the fixed
/// field order and nothing after the closing brace.
pub fn parse_source_line(line: &[u8]) -> (r: Option<SourceJsonRow>)
    ensures
        match r {
            Some(row) => spec_parse_source(line@) == Some(row@),
            None => spec_parse_source(line@) is None,
        },
{
    let n = line.len();
    proof {
        assert(line@.len() == n);
    }
    if !match_lit_exec(line, 0, "{\"id\":\"") {
        return None;
    }
    let (id, i1) = match parse_string_exec(line, lit_len("{\"id\":\"")) {
        Some(p) => p,
        None => {
            return None;
        },
    };
    if !match_lit_exec(line, i1, ",\"name\":\"") {
        return None;
    }
    let (name, i2) = match parse_string_exec(line, i1 + lit_len(",\"name\":\"")) {
        Some(p) => p,
        None => {
            return None;
        },
    };
    if !match_lit_exec(line, i2, ",\"group\":\"") {
        return None;
    }
    let (group, i3) = match parse_string_exec(line, i2 + lit_len(",\"group\":\"")) {
        Some(p) => p,
        None => {
            return None;
        },
    };
    if !match_lit_exec(line, i3, ",\"tags\":[") {
        return None;
    }
    let (tags, i4) = match parse_tags_exec(line, i3 + lit_len(",\"tags\":[")) {
        Some(p) => p,
        None => {
            return None;
        },
    };
    if !match_lit_exec(line, i4, "}") {
        return None;
    }
    if i4 + lit_len("}") != line.len() {
        return None;
    }
    Some(SourceJsonRow { id, name, group, tags })
}

/// The rows of the registry lines that parse, in file order; lines that do
/// not follow the grammar are passed over, as when scanning the file.
pub open spec fn parsed_sources_upto(ls: Seq<Seq<u8>>, n: int) -> Seq<SourceRowView>
    decreases n,
{
    if n <= 0 {
        Seq::empty()
    } else {
        let prev = parsed_sources_upto(ls, n - 1);
        match spec_parse_source(ls[n - 1]) {
            Some(v) => prev.push(v),
            None => prev,
        }
    }
}

/// Reads the whole source registry: every line that follows the grammar
/// becomes a row, in file order.
pub fn parse_source_lines(lines: &Vec<Vec<u8>>) -> (r: Vec<SourceJsonRow>)
    ensures
        r@.map_values(|row: SourceJsonRow| row@) == parsed_sources_upto(
            lines@.map_values(|l: Vec<u8>| l@),
            lines@.len() as int,
        ),
{
    let ghost lviews = lines@.map_values(|l: Vec<u8>| l@);
    let mut out: Vec<SourceJsonRow> = Vec::new();
    let mut i: usize = 0;
    while i < lines.len()
        invariant
            i <= lines@.len(),
            lviews == lines@.map_values(|l: Vec<u8>| l@),
            out@.map_values(|row: SourceJsonRow| row@) == parsed_sources_upto(lviews, i as int),
        decreases lines@.len() - i,
    {
        let ghost old_out = out@;
        match parse_source_line(lines[i].as_slice()) {
            Some(row) => {
                out.push(row);
                proof {
                    assert(out@.map_values(|row2: SourceJsonRow| row2@) =~= old_out.map_values(
                        |row2: SourceJsonRow| row2@,
                    ).push(out@[old_out.len() as int]@));
                }
            },
            None => {},
        }
        i = i + 1;
    }
    proof {
        assert(lviews.len() == lines@.len());
    }
    out
}

/// The append a new registry row asks for: refused when a row with the
/// same id already exists, else the line — newline included — to add at
/// the registry's end.
pub fn write_entry_line(rows: &Vec<SourceJsonRow>, entry: &SourceJsonRow) -> (r: Result<
    Vec<u8>,
    crate::sync::SyncSetupError,
>)
    ensures
        match r {
            Ok(line) => {
                &&& !crate::sources::id_registered(rows@, entry.id@)
                &&& line@ == source_json_bytes(entry@) + seq![10u8]
            },
            Err(e) => {
                &&& crate::sources::id_registered(rows@, entry.id@)
                &&& e matches crate::sync::SyncSetupError::AlreadyRegistered { id, name } && id@
                    == entry.id@ && exists|k: int|
                    0 <= k < rows@.len() && rows@[k].id@ == entry.id@ && rows@[k].name@ == name@
            },
        },
{
    match crate::sources::find_by_id(rows, entry.id.as_str()) {
        Some(row) => Err(
            crate::sync::SyncSetupError::AlreadyRegistered {
                id: row.id.clone(),
                name: row.name.clone(),
            },
        ),
        None => {
            let mut line = source_line(entry);
            line.push(10);
            proof {
                assert(line@ =~= source_json_bytes(entry@) + seq![10u8]);
            }
            Ok(line)
        },
    }
}

/// ASCII literals encode byte for byte.
proof fn lemma_ascii_lit(l: &str)
    requires
        vstd::utf8::is_ascii_chars(l@),
    ensures
        lit_bytes(l).len() == l@.len(),
        forall|k: int| 0 <= k < l@.len() ==> lit_bytes(l)[k] == l@[k] as u8,
{
    vstd::utf8::is_ascii_chars_encode_utf8(l@);
}

/// Digit bytes folded onto an accumulator, as the number reader does.
spec fn fold_val(acc: int, d: Seq<u8>) -> int
    decreases d.len(),
{
    if d.len() == 0 {
        acc
    } else {
        fold_val(acc * 10 + (d[0] - 48), d.drop_first())
    }
}

proof fn lemma_fold_val_ge(acc: int, d: Seq<u8>)
    requires
        acc >= 0,
        forall|k: int| 0 <= k < d.len() ==> is_digit_byte(d[k]),
    ensures
        fold_val(acc, d) >= acc,
    decreases d.len(),
{
    if d.len() > 0 {
        assert(is_digit_byte(d[0]));
        assert(forall|k: int|
            0 <= k < d.drop_first().len() ==> is_digit_byte(#[trigger] d.drop_first()[k]));
        lemma_fold_val_ge(acc * 10 + (d[0] - 48), d.drop_first());
    }
}

proof fn lemma_fold_val_push(acc: int, d: Seq<u8>, x: u8)
    ensures
        fold_val(acc, d.push(x)) == fold_val(acc, d) * 10 + (x - 48),
    decreases d.len(),
{
    if d.len() == 0 {
        assert(d.push(x)[0] == x);
        assert(d.push(x).drop_first() =~= Seq::<u8>::empty());
        assert(fold_val(acc * 10 + (x - 48), Seq::<u8>::empty()) == acc * 10 + (x - 48));
        assert(fold_val(acc, d) == acc);
    } else {
        assert(d.push(x)[0] == d[0]);
        assert(d.push(x).drop_first() =~= d.drop_first().push(x));
        lemma_fold_val_push(acc * 10 + (d[0] - 48), d.drop_first(), x);
    }
}

/// A rendered number is all digits and folds back to itself.
proof fn lemma_dec_bytes_digits(n: nat)
    ensures
        dec_bytes(n).len() >= 1,
        forall|k: int| 0 <= k < dec_bytes(n).len() ==> is_digit_byte(#[trigger] dec_bytes(n)[k]),
        fold_val(0, dec_bytes(n)) == n,
    decreases n,
{
    if n < 10 {
        assert(dec_bytes(n) =~= seq![(48 + n) as u8]);
        assert(dec_bytes(n).drop_first() =~= Seq::<u8>::empty());
        assert(fold_val((n) as int, Seq::<u8>::empty()) == n);
        assert(fold_val(0, dec_bytes(n)) == fold_val(
            0 * 10 + (dec_bytes(n)[0] - 48),
            dec_bytes(n).drop_first(),
        ));
        assert(fold_val(0, dec_bytes(n)) == n);
    } else {
        lemma_dec_bytes_digits(n / 10);
        lemma_fold_val_push(0, dec_bytes(n / 10), (48 + n % 10) as u8);
        assert forall|k: int| 0 <= k < dec_bytes(n).len() implies is_digit_byte(
            #[trigger] dec_bytes(n)[k],
        ) by {
            if k < dec_bytes(n / 10).len() {
                assert(dec_bytes(n)[k] == dec_bytes(n / 10)[k]);
            } else {
                assert(dec_bytes(n)[k] == (48 + n % 10) as u8);
            }
        }
    }
}

/// The number reader consumes exactly a run of digits bounded by the next
/// non-digit, yielding its folded value.
proof fn lemma_parse_digits_run(s: Seq<u8>, i: int, j: int, acc: int)
    requires
        0 <= i <= j <= s.len(),
        forall|k: int| i <= k < j ==> is_digit_byte(#[trigger] s[k]),
        j == s.len() || !is_digit_byte(s[j]),
        acc >= 0,
        fold_val(acc, s.subrange(i, j)) <= u64::MAX as int,
    ensures
        parse_u64_rec(s, i, acc) == Some((fold_val(acc, s.subrange(i, j)), j)),
    decreases j - i,
{
    if i == j {
        assert(s.subrange(i, j).len() == 0);
    } else {
        assert(is_digit_byte(s[i]));
        let acc2 = acc * 10 + (s[i] - 48);
        assert(s.subrange(i, j)[0] == s[i]);
        assert(s.subrange(i, j).drop_first() =~= s.subrange(i + 1, j));
        assert(fold_val(acc, s.subrange(i, j)) == fold_val(acc2, s.subrange(i + 1, j)));
        assert(forall|k: int|
            0 <= k < s.subrange(i + 1, j).len() ==> is_digit_byte(
                #[trigger] s.subrange(i + 1, j)[k],
            ));
        lemma_fold_val_ge(acc2, s.subrange(i + 1, j));
        lemma_parse_digits_run(s, i + 1, j, acc2);
    }
}

/// The number reader accepts every rendered number followed by a
/// non-digit.
proof fn lemma_parse_u64_complete(s: Seq<u8>, i: int, n: nat)
    requires
        0 <= i,
        i + dec_bytes(n).len() <= s.len(),
        s.subrange(i, i + dec_bytes(n).len()) == dec_bytes(n),
        n <= u64::MAX,
        i + dec_bytes(n).len() == s.len() || !is_digit_byte(s[i + dec_bytes(n).len()]),
    ensures
        parse_u64_at(s, i) == Some((n as int, i + dec_bytes(n).len())),
{
    lemma_dec_bytes_digits(n);
    let j = i + dec_bytes(n).len() as int;
    assert forall|k: int| i <= k < j implies is_digit_byte(#[trigger] s[k]) by {
        assert(s.subrange(i, j)[k - i] == s[k]);
        assert(is_digit_byte(dec_bytes(n)[k - i]));
    }
    assert(s[i] == s.subrange(i, j)[0]);
    lemma_parse_digits_run(s, i, j, 0);
}

/// Alphabet bytes decode back to their value, and are neither quote nor
/// padding.
proof fn lemma_b64_byte_inverse(v: int)
    requires
        0 <= v < 64,
    ensures
        b64_val(b64_byte(v)) == Some(v),
        b64_byte(v) != 34,
        b64_byte(v) != 61,
{
}

/// The base64 reader undoes exactly the writer's rendering, stopping at
/// the closing quote.
#[verifier::rlimit(100)]
proof fn lemma_parse_b64_complete(s: Seq<u8>, i: int, acc: Seq<u8>, bytes: Seq<u8>)
    requires
        0 <= i,
        i + b64(bytes).len() < s.len(),
        s.subrange(i, i + b64(bytes).len()) == b64(bytes),
        s[i + b64(bytes).len()] == 34,
    ensures
        parse_b64_rec(s, i, acc) == Some((acc + bytes, i + b64(bytes).len() + 1)),
    decreases bytes.len(),
{
    let e = b64(bytes);
    assert forall|k: int| 0 <= k < e.len() implies s[i + k] == e[k] by {
        assert(s.subrange(i, i + e.len())[k] == s[i + k]);
    }
    if bytes.len() == 0 {
        assert(s[i + 0] == 34);
        assert(s[i] == 34);
        assert(acc + bytes =~= acc);
    } else if bytes.len() == 1 {
        let b0 = bytes[0];
        let v0 = b0 as int / 4;
        let v1 = (b0 as int % 4) * 16;
        lemma_b64_byte_inverse(v0);
        lemma_b64_byte_inverse(v1);
        assert(s[i + 0] == e[0] && s[i + 1] == e[1] && s[i + 2] == e[2] && s[i + 3] == e[3]);
        assert(s[i] == b64_byte(v0) && s[i + 1] == b64_byte(v1) && s[i + 2] == 61 && s[i + 3]
            == 61);
        assert(v1 % 16 == 0);
        assert(v0 * 4 + v1 / 16 == b0 as int);
        assert(s[i + 4] == 34);
        assert(acc.push(b0) =~= acc + bytes);
    } else if bytes.len() == 2 {
        let b0 = bytes[0];
        let b1 = bytes[1];
        let v0 = b0 as int / 4;
        let v1 = (b0 as int % 4) * 16 + b1 as int / 16;
        let v2 = (b1 as int % 16) * 4;
        lemma_b64_byte_inverse(v0);
        lemma_b64_byte_inverse(v1);
        lemma_b64_byte_inverse(v2);
        assert(s[i + 0] == e[0] && s[i + 1] == e[1] && s[i + 2] == e[2] && s[i + 3] == e[3]);
        assert(s[i] == b64_byte(v0) && s[i + 1] == b64_byte(v1) && s[i + 2] == b64_byte(v2) && s[i
            + 3] == 61);
        assert(v2 % 4 == 0);
        assert(v0 * 4 + v1 / 16 == b0 as int);
        assert((v1 % 16) * 16 + v2 / 4 == b1 as int);
        assert(s[i + 4] == 34);
        assert(acc.push(b0).push(b1) =~= acc + bytes);
    } else {
        let b0 = bytes[0];
        let b1 = bytes[1];
        let b2 = bytes[2];
        let v0 = b0 as int / 4;
        let v1 = (b0 as int % 4) * 16 + b1 as int / 16;
        let v2 = (b1 as int % 16) * 4 + b2 as int / 64;
        let v3 = b2 as int % 64;
        lemma_b64_byte_inverse(v0);
        lemma_b64_byte_inverse(v1);
        lemma_b64_byte_inverse(v2);
        lemma_b64_byte_inverse(v3);
        assert(e == b64_group3(b0, b1, b2) + b64(bytes.subrange(3, bytes.len() as int)));
        assert(s[i + 0] == e[0] && s[i + 1] == e[1] && s[i + 2] == e[2] && s[i + 3] == e[3]);
        assert(e[0] == b64_group3(b0, b1, b2)[0] && e[1] == b64_group3(b0, b1, b2)[1] && e[2]
            == b64_group3(b0, b1, b2)[2] && e[3] == b64_group3(b0, b1, b2)[3]);
        assert(s[i] == b64_byte(v0) && s[i + 1] == b64_byte(v1) && s[i + 2] == b64_byte(v2) && s[i
            + 3] == b64_byte(v3));
        assert(v0 * 4 + v1 / 16 == b0 as int);
        assert((v1 % 16) * 16 + v2 / 4 == b1 as int);
        assert((v2 % 4) * 64 + v3 == b2 as int);
        let rest = bytes.subrange(3, bytes.len() as int);
        let i2 = i + 4;
        assert(s.subrange(i2, i + e.len()) =~= b64(rest)) by {
            assert forall|k: int| 0 <= k < e.len() - 4 implies s[i2 + k] == b64(rest)[k] by {
                assert(s.subrange(i, i + e.len())[4 + k] == s[i2 + k]);
                assert(e[4 + k] == b64(rest)[k]);
            }
        }
        lemma_parse_b64_complete(s, i2, acc.push(b0).push(b1).push(b2), rest);
        assert(acc.push(b0).push(b1).push(b2) + rest =~= acc + bytes);
        assert(parse_b64_rec(s, i, acc) == parse_b64_rec(s, i2, acc.push(b0).push(b1).push(b2)));
    }
}

proof fn lemma_hexl_inverse(d: int)
    requires
        0 <= d < 16,
    ensures
        hexl_val(hex_lower_byte(d)) == Some(d),
{
}

/// The string reader undoes exactly the writer's escaping, stopping at the
/// closing quote.
proof fn lemma_parse_jstr_complete(s: Seq<u8>, i: int, acc: Seq<u8>, content: Seq<u8>)
    requires
        0 <= i,
        i + json_escaped(content).len() < s.len(),
        s.subrange(i, i + json_escaped(content).len()) == json_escaped(content),
        s[i + json_escaped(content).len()] == 34,
    ensures
        parse_jstr_rec(s, i, acc) == Some(
            (acc + content, i + json_escaped(content).len() + 1),
        ),
    decreases content.len(),
{
    let esc = json_escaped(content);
    if content.len() == 0 {
        assert(esc.len() == 0);
        assert(s[i] == 34);
        assert(acc + content =~= acc);
    } else {
        let c0 = content[0];
        let rest = content.drop_first();
        let e0 = esc_byte(c0);
        assert(esc == e0 + json_escaped(rest));
        assert forall|k: int| 0 <= k < e0.len() implies s[i + k] == e0[k] by {
            assert(s.subrange(i, i + esc.len())[k] == s[i + k]);
            assert(esc[k] == e0[k]);
        }
        let i2 = i + e0.len() as int;
        assert(s.subrange(i2, i + esc.len()) =~= json_escaped(rest)) by {
            assert forall|k: int| 0 <= k < esc.len() - e0.len() implies s[i2 + k]
                == json_escaped(rest)[k] by {
                assert(s.subrange(i, i + esc.len())[e0.len() + k] == s[i2 + k]);
                assert(esc[e0.len() + k] == json_escaped(rest)[k]);
            }
        }
        lemma_parse_jstr_complete(s, i2, acc.push(c0), rest);
        assert(acc.push(c0) + rest =~= acc + content);
        if c0 == 34 || c0 == 92 || c0 == 8 || c0 == 9 || c0 == 10 || c0 == 12 || c0 == 13 {
            assert(s[i] == 92);
            assert(parse_jstr_rec(s, i, acc) == parse_jstr_rec(s, i + 2, acc.push(c0)));
        } else if c0 < 32 {
            assert(s[i] == 92 && s[i + 1] == 117 && s[i + 2] == 48 && s[i + 3] == 48);
            lemma_hexl_inverse(c0 as int / 16);
            lemma_hexl_inverse(c0 as int % 16);
            assert(s[i + 4] == hex_lower_byte(c0 as int / 16) && s[i + 5] == hex_lower_byte(
                c0 as int % 16,
            ));
            assert((c0 as int / 16) * 16 + c0 as int % 16 == c0 as int);
            assert(parse_jstr_rec(s, i, acc) == parse_jstr_rec(s, i + 6, acc.push(c0)));
        } else {
            assert(e0 =~= seq![c0]);
            assert(s[i + 0] == e0[0]);
            assert(s[i] == c0);
            assert(parse_jstr_rec(s, i, acc) == parse_jstr_rec(s, i + 1, acc.push(c0)));
        }
    }
}

/// A string field rendered by the writer reads back as the same
/// characters.
proof fn lemma_parse_string_field_complete(s: Seq<u8>, i: int, field: Seq<char>)
    requires
        0 <= i,
        i + json_escaped(vstd::utf8::encode_utf8(field)).len() < s.len(),
        s.subrange(i, i + json_escaped(vstd::utf8::encode_utf8(field)).len()) == json_escaped(
            vstd::utf8::encode_utf8(field),
        ),
        s[i + json_escaped(vstd::utf8::encode_utf8(field)).len()] == 34,
    ensures
        parse_string_field(s, i) == Some(
            (field, i + json_escaped(vstd::utf8::encode_utf8(field)).len() + 1),
        ),
{
    let content = vstd::utf8::encode_utf8(field);
    lemma_parse_jstr_complete(s, i, Seq::empty(), content);
    assert(Seq::<u8>::empty() + content =~= content);
    vstd::utf8::encode_utf8_valid_utf8(field);
    vstd::utf8::encode_utf8_decode_utf8(field);
}

/// The concrete shape of the field-name literals: each following literal
/// begins with a comma, a quote, or the closing brace — never a digit.
proof fn lemma_record_lits()
    ensures
        lit_bytes("null") =~= seq![110u8, 117u8, 108u8, 108u8],
        lit_bytes(",\"fts\":").len() > 0 && lit_bytes(",\"fts\":")[0] == 44,
        lit_bytes(",\"src\":\"").len() > 0 && lit_bytes(",\"src\":\"")[0] == 44,
        lit_bytes("\",\"pth\":\"").len() > 0 && lit_bytes("\",\"pth\":\"")[0] == 34,
        lit_bytes("\",\"exf\":\"").len() > 0 && lit_bytes("\",\"exf\":\"")[0] == 34,
        lit_bytes("\",\"siz\":").len() > 0 && lit_bytes("\",\"siz\":")[0] == 34,
        lit_bytes(",\"hgh\":").len() > 0 && lit_bytes(",\"hgh\":")[0] == 44,
        lit_bytes(",\"wdt\":").len() > 0 && lit_bytes(",\"wdt\":")[0] == 44,
        lit_bytes(",\"crc\":").len() > 0 && lit_bytes(",\"crc\":")[0] == 44,
        lit_bytes("}").len() == 1 && lit_bytes("}")[0] == 125,
{
    reveal_strlit("null");
    reveal_strlit(",\"fts\":");
    reveal_strlit(",\"src\":\"");
    reveal_strlit("\",\"pth\":\"");
    reveal_strlit("\",\"exf\":\"");
    reveal_strlit("\",\"siz\":");
    reveal_strlit(",\"hgh\":");
    reveal_strlit(",\"wdt\":");
    reveal_strlit(",\"crc\":");
    reveal_strlit("}");
    assert(vstd::utf8::is_ascii_chars("null"@)) by {
        assert forall|k: int| 0 <= k < "null"@.len() implies '\0' <= #[trigger] "null"@[k]
            <= '\u{7f}' by {}
    }
    lemma_ascii_lit("null");
    assert(lit_bytes("null") =~= seq![110u8, 117u8, 108u8, 108u8]);
    assert(vstd::utf8::is_ascii_chars(",\"fts\":"@)) by {
        assert forall|k: int| 0 <= k < ",\"fts\":"@.len() implies '\0' <= #[trigger] ",\"fts\":"@[k]
            <= '\u{7f}' by {}
    }
    lemma_ascii_lit(",\"fts\":");
    assert(vstd::utf8::is_ascii_chars(",\"src\":\""@)) by {
        assert forall|k: int|
            0 <= k < ",\"src\":\""@.len() implies '\0' <= #[trigger] ",\"src\":\""@[k]
            <= '\u{7f}' by {}
    }
    lemma_ascii_lit(",\"src\":\"");
    assert(vstd::utf8::is_ascii_chars("\",\"pth\":\""@)) by {
        assert forall|k: int|
            0 <= k < "\",\"pth\":\""@.len() implies '\0' <= #[trigger] "\",\"pth\":\""@[k]
            <= '\u{7f}' by {}
    }
    lemma_ascii_lit("\",\"pth\":\"");
    assert(vstd::utf8::is_ascii_chars("\",\"exf\":\""@)) by {
        assert forall|k: int|
            0 <= k < "\",\"exf\":\""@.len() implies '\0' <= #[trigger] "\",\"exf\":\""@[k]
            <= '\u{7f}' by {}
    }
    lemma_ascii_lit("\",\"exf\":\"");
    assert(vstd::utf8::is_ascii_chars("\",\"siz\":"@)) by {
        assert forall|k: int|
            0 <= k < "\",\"siz\":"@.len() implies '\0' <= #[trigger] "\",\"siz\":"@[k]
            <= '\u{7f}' by {}
    }
    lemma_ascii_lit("\",\"siz\":");
    assert(vstd::utf8::is_ascii_chars(",\"hgh\":"@)) by {
        assert forall|k: int| 0 <= k < ",\"hgh\":"@.len() implies '\0' <= #[trigger] ",\"hgh\":"@[k]
            <= '\u{7f}' by {}
    }
    lemma_ascii_lit(",\"hgh\":");
    assert(vstd::utf8::is_ascii_chars(",\"wdt\":"@)) by {
        assert forall|k: int| 0 <= k < ",\"wdt\":"@.len() implies '\0' <= #[trigger] ",\"wdt\":"@[k]
            <= '\u{7f}' by {}
    }
    lemma_ascii_lit(",\"wdt\":");
    assert(vstd::utf8::is_ascii_chars(",\"crc\":"@)) by {
        assert forall|k: int| 0 <= k < ",\"crc\":"@.len() implies '\0' <= #[trigger] ",\"crc\":"@[k]
            <= '\u{7f}' by {}
    }
    lemma_ascii_lit(",\"crc\":");
    assert(vstd::utf8::is_ascii_chars("}"@)) by {
        assert forall|k: int| 0 <= k < "}"@.len() implies '\0' <= #[trigger] "}"@[k]
            <= '\u{7f}' by {}
    }
    lemma_ascii_lit("}");
}

/// A `ts` field rendered by the writer reads back as the same value, when
/// a non-digit follows it.
proof fn lemma_parse_ts_complete(s: Seq<u8>, i: int, t: Option<int>)
    requires
        0 <= i,
        i + ts_bytes(t).len() < s.len(),
        s.subrange(i, i + ts_bytes(t).len()) == ts_bytes(t),
        !is_digit_byte(s[i + ts_bytes(t).len()]),
        match t {
            Some(v) => i64::MIN <= v <= i64::MAX,
            None => true,
        },
    ensures
        parse_ts_at(s, i) == Some((t, i + ts_bytes(t).len())),
{
    lemma_record_lits();
    assert forall|k: int| 0 <= k < ts_bytes(t).len() implies s[i + k] == ts_bytes(t)[k] by {
        assert(s.subrange(i, i + ts_bytes(t).len())[k] == s[i + k]);
    }
    match t {
        None => {
            assert(s.subrange(i, i + 4) =~= lit_bytes("null"));
            assert(match_lit(s, i, lit_bytes("null")));
        },
        Some(v) => {
            if v >= 0 {
                lemma_dec_bytes_digits(v as nat);
                assert(ts_bytes(t) == dec_bytes(v as nat));
                assert(s[i + 0] == ts_bytes(t)[0]);
                assert(is_digit_byte(s[i]));
                if match_lit(s, i, lit_bytes("null")) {
                    assert(s.subrange(i, i + 4)[0] == 110);
                    assert(false);
                }
                assert(s[i] != 45);
                lemma_parse_u64_complete(s, i, v as nat);
            } else {
                let m = (-v) as nat;
                assert(ts_bytes(t) =~= seq![45u8] + dec_bytes(m));
                assert(s[i + 0] == 45);
                if match_lit(s, i, lit_bytes("null")) {
                    assert(s.subrange(i, i + 4)[0] == 110);
                    assert(false);
                }
                assert(s.subrange(i + 1, i + 1 + dec_bytes(m).len()) =~= dec_bytes(m)) by {
                    assert forall|k: int| 0 <= k < dec_bytes(m).len() implies s[i + 1 + k]
                        == dec_bytes(m)[k] by {
                        assert(s[i + (1 + k)] == ts_bytes(t)[1 + k]);
                        assert(ts_bytes(t)[1 + k] == dec_bytes(m)[k]);
                    }
                }
                assert(m <= 9223372036854775808);
                lemma_parse_u64_complete(s, i + 1, m);
            }
        },
    }
}

/// The writer's quoted field-name literals split into the field's closing
/// quote and the literal the reader expects next.
proof fn lemma_lit_splits()
    ensures
        lit_bytes("\",\"pth\":\"") =~= seq![34u8] + lit_bytes(",\"pth\":\""),
        lit_bytes("\",\"exf\":\"") =~= seq![34u8] + lit_bytes(",\"exf\":\""),
        lit_bytes("\",\"siz\":") =~= seq![34u8] + lit_bytes(",\"siz\":"),
        lit_bytes(",\"pth\":\"").len() > 0 && lit_bytes(",\"pth\":\"")[0] == 44,
        lit_bytes(",\"exf\":\"").len() > 0 && lit_bytes(",\"exf\":\"")[0] == 44,
        lit_bytes(",\"siz\":").len() > 0 && lit_bytes(",\"siz\":")[0] == 44,
{
    reveal_strlit("\",\"pth\":\"");
    reveal_strlit(",\"pth\":\"");
    reveal_strlit("\",\"exf\":\"");
    reveal_strlit(",\"exf\":\"");
    reveal_strlit("\",\"siz\":");
    reveal_strlit(",\"siz\":");
    assert(vstd::utf8::is_ascii_chars("\",\"pth\":\""@)) by {
        assert forall|k: int|
            0 <= k < "\",\"pth\":\""@.len() implies '\0' <= #[trigger] "\",\"pth\":\""@[k]
            <= '\u{7f}' by {}
    }
    lemma_ascii_lit("\",\"pth\":\"");
    assert(vstd::utf8::is_ascii_chars(",\"pth\":\""@)) by {
        assert forall|k: int|
            0 <= k < ",\"pth\":\""@.len() implies '\0' <= #[trigger] ",\"pth\":\""@[k]
            <= '\u{7f}' by {}
    }
    lemma_ascii_lit(",\"pth\":\"");
    assert(vstd::utf8::is_ascii_chars("\",\"exf\":\""@)) by {
        assert forall|k: int|
            0 <= k < "\",\"exf\":\""@.len() implies '\0' <= #[trigger] "\",\"exf\":\""@[k]
            <= '\u{7f}' by {}
    }
    lemma_ascii_lit("\",\"exf\":\"");
    assert(vstd::utf8::is_ascii_chars(",\"exf\":\""@)) by {
        assert forall|k: int|
            0 <= k < ",\"exf\":\""@.len() implies '\0' <= #[trigger] ",\"exf\":\""@[k]
            <= '\u{7f}' by {}
    }
    lemma_ascii_lit(",\"exf\":\"");
    assert(vstd::utf8::is_ascii_chars("\",\"siz\":"@)) by {
        assert forall|k: int|
            0 <= k < "\",\"siz\":"@.len() implies '\0' <= #[trigger] "\",\"siz\":"@[k]
            <= '\u{7f}' by {}
    }
    lemma_ascii_lit("\",\"siz\":");
    assert(vstd::utf8::is_ascii_chars(",\"siz\":"@)) by {
        assert forall|k: int|
            0 <= k < ",\"siz\":"@.len() implies '\0' <= #[trigger] ",\"siz\":"@[k]
            <= '\u{7f}' by {}
    }
    lemma_ascii_lit(",\"siz\":");
    assert("\",\"pth\":\""@ =~= seq!['"'] + ",\"pth\":\""@);
    assert("\",\"exf\":\""@ =~= seq!['"'] + ",\"exf\":\""@);
    assert("\",\"siz\":"@ =~= seq!['"'] + ",\"siz\":"@);
    assert forall|k: int|
        0 <= k < lit_bytes("\",\"pth\":\"").len() implies lit_bytes("\",\"pth\":\"")[k] == (
        seq![34u8] + lit_bytes(",\"pth\":\""))[k] by {
        if k > 0 {
            assert("\",\"pth\":\""@[k] == ",\"pth\":\""@[k - 1]);
        }
    }
    assert forall|k: int|
        0 <= k < lit_bytes("\",\"exf\":\"").len() implies lit_bytes("\",\"exf\":\"")[k] == (
        seq![34u8] + lit_bytes(",\"exf\":\""))[k] by {
        if k > 0 {
            assert("\",\"exf\":\""@[k] == ",\"exf\":\""@[k - 1]);
        }
    }
    assert forall|k: int|
        0 <= k < lit_bytes("\",\"siz\":").len() implies lit_bytes("\",\"siz\":")[k] == (
        seq![34u8] + lit_bytes(",\"siz\":"))[k] by {
        if k > 0 {
            assert("\",\"siz\":"@[k] == ",\"siz\":"@[k - 1]);
        }
    }
}

/// Whether a stored record's fields fit the machine widths of the schema:
/// the timestamp in a signed 64-bit word, file time and size in unsigned
/// 64-bit words, dimensions and digest in 32-bit words. Every record the
/// store produces fits.
pub open spec fn bounded_row_view(v: JsonRowView) -> bool {
    &&& match v.timestamp {
        Some(t) => i64::MIN <= t <= i64::MAX,
        None => true,
    }
    &&& 0 <= v.file_ts <= u64::MAX
    &&& 0 <= v.size <= u64::MAX
    &&& 0 <= v.height <= u32::MAX
    &&& 0 <= v.width <= u32::MAX
    &&& 0 <= v.crc <= u32::MAX
}

/// Every record value a `PhotoArchiveJsonRow` holds fits the schema.
pub proof fn lemma_row_view_bounded(row: PhotoArchiveJsonRow)
    ensures
        bounded_row_view(row@),
{
}

/// The reader accepts the written tail of a record line, from the `exf`
/// field on.
#[verifier::rlimit(100)]
proof fn lemma_parse_record_tail_complete(line: Seq<u8>, v: JsonRowView, a: Seq<u8>)
    requires
        bounded_row_view(v),
        line =~= a + lit_bytes(",\"exf\":\"") + b64(v.exif) + seq![34u8] + lit_bytes(",\"siz\":")
            + dec_bytes(v.size as nat) + lit_bytes(",\"hgh\":") + dec_bytes(v.height as nat)
            + lit_bytes(",\"wdt\":") + dec_bytes(v.width as nat) + lit_bytes(",\"crc\":")
            + dec_bytes(v.crc as nat) + lit_bytes("}"),
    ensures
        spec_parse_record_tail(line, v.timestamp, v.file_ts, v.source, v.path, a.len() as int)
            == Some(v),
{
    lemma_record_lits();
    lemma_lit_splits();
    let l4 = lit_bytes(",\"exf\":\"");
    let l5 = lit_bytes(",\"siz\":");
    let l6 = lit_bytes(",\"hgh\":");
    let l7 = lit_bytes(",\"wdt\":");
    let l8 = lit_bytes(",\"crc\":");
    let l9 = lit_bytes("}");
    let bexf = b64(v.exif);
    let d_siz = dec_bytes(v.size as nat);
    let d_hgh = dec_bytes(v.height as nat);
    let d_wdt = dec_bytes(v.width as nat);
    let d_crc = dec_bytes(v.crc as nat);
    let i4 = a.len() as int;
    let j0 = i4 + l4.len();
    let j1 = j0 + bexf.len();
    let i5 = j1 + 1;
    let j2 = i5 + l5.len();
    let i6 = j2 + d_siz.len();
    let j3 = i6 + l6.len();
    let i7 = j3 + d_hgh.len();
    let j4 = i7 + l7.len();
    let i8 = j4 + d_wdt.len();
    let j5 = i8 + l8.len();
    let i9 = j5 + d_crc.len();
    assert(line.len() == i9 + 1);

    assert(line.subrange(i4, j0) =~= l4);
    assert(match_lit(line, i4, l4));
    assert(line.subrange(j0, j1) =~= bexf);
    assert(line[j1] == 34);
    lemma_parse_b64_complete(line, j0, Seq::empty(), v.exif);
    assert(Seq::<u8>::empty() + v.exif =~= v.exif);
    assert(parse_b64_rec(line, j0, Seq::empty()) == Some((v.exif, i5)));

    assert(line.subrange(i5, j2) =~= l5);
    assert(match_lit(line, i5, l5));
    lemma_dec_bytes_digits(v.size as nat);
    assert(line.subrange(j2, i6) =~= d_siz);
    assert(line[i6] == l6[0] && l6[0] == 44);
    lemma_parse_u64_complete(line, j2, v.size as nat);

    assert(line.subrange(i6, j3) =~= l6);
    assert(match_lit(line, i6, l6));
    assert(line.subrange(j3, i7) =~= d_hgh);
    assert(line[i7] == l7[0] && l7[0] == 44);
    lemma_parse_u64_complete(line, j3, v.height as nat);

    assert(line.subrange(i7, j4) =~= l7);
    assert(match_lit(line, i7, l7));
    assert(line.subrange(j4, i8) =~= d_wdt);
    assert(line[i8] == l8[0] && l8[0] == 44);
    lemma_parse_u64_complete(line, j4, v.width as nat);

    assert(line.subrange(i8, j5) =~= l8);
    assert(match_lit(line, i8, l8));
    assert(line.subrange(j5, i9) =~= d_crc);
    assert(line[i9] == l9[0] && l9[0] == 125);
    lemma_parse_u64_complete(line, j5, v.crc as nat);

    assert(line.subrange(i9, i9 + 1) =~= l9);
    assert(match_lit(line, i9, l9));
    assert(i9 + l9.len() == line.len());

    assert(spec_parse_record_tail(line, v.timestamp, v.file_ts, v.source, v.path, i4) == Some(
        JsonRowView {
            timestamp: v.timestamp,
            file_ts: v.file_ts,
            source: v.source,
            path: v.path,
            exif: v.exif,
            size: v.size,
            height: v.height,
            width: v.width,
            crc: v.crc,
        },
    ));
}

/// The written line, with each quoted field-name literal split into the
/// preceding field's closing quote and the literal the reader matches.
#[verifier::rlimit(100)]
proof fn lemma_line_regroup(v: JsonRowView)
    ensures
        row_json_bytes(v) =~= (lit_bytes("{\"ts\":") + ts_bytes(v.timestamp) + lit_bytes(
            ",\"fts\":",
        ) + dec_bytes(v.file_ts as nat) + lit_bytes(",\"src\":\"") + json_escaped(
            vstd::utf8::encode_utf8(v.source),
        ) + seq![34u8] + lit_bytes(",\"pth\":\"") + json_escaped(vstd::utf8::encode_utf8(v.path))
            + seq![34u8]) + lit_bytes(",\"exf\":\"") + b64(v.exif) + seq![34u8] + lit_bytes(
            ",\"siz\":",
        ) + dec_bytes(v.size as nat) + lit_bytes(",\"hgh\":") + dec_bytes(v.height as nat)
            + lit_bytes(",\"wdt\":") + dec_bytes(v.width as nat) + lit_bytes(",\"crc\":")
            + dec_bytes(v.crc as nat) + lit_bytes("}"),
{
    lemma_lit_splits();
}

/// The written line again, with the whole tail from the `exf` field on
/// gathered into one segment.
#[verifier::rlimit(100)]
proof fn lemma_shape_bridge(v: JsonRowView)
    ensures
        row_json_bytes(v) =~= lit_bytes("{\"ts\":") + ts_bytes(v.timestamp) + lit_bytes(
            ",\"fts\":",
        ) + dec_bytes(v.file_ts as nat) + lit_bytes(",\"src\":\"") + json_escaped(
            vstd::utf8::encode_utf8(v.source),
        ) + seq![34u8] + lit_bytes(",\"pth\":\"") + json_escaped(vstd::utf8::encode_utf8(v.path))
            + seq![34u8] + (lit_bytes(",\"exf\":\"") + b64(v.exif) + seq![34u8] + lit_bytes(
            ",\"siz\":",
        ) + dec_bytes(v.size as nat) + lit_bytes(",\"hgh\":") + dec_bytes(v.height as nat)
            + lit_bytes(",\"wdt\":") + dec_bytes(v.width as nat) + lit_bytes(",\"crc\":")
            + dec_bytes(v.crc as nat) + lit_bytes("}")),
{
    lemma_line_regroup(v);
}

/// The reader accepts the written head of a record line — through the
/// `pth` field — and hands the tail over at the right position.
#[verifier::rlimit(100)]
proof fn lemma_parse_record_head_complete(line: Seq<u8>, v: JsonRowView, rest: Seq<u8>)
    requires
        bounded_row_view(v),
        line =~= lit_bytes("{\"ts\":") + ts_bytes(v.timestamp) + lit_bytes(",\"fts\":")
            + dec_bytes(v.file_ts as nat) + lit_bytes(",\"src\":\"") + json_escaped(
            vstd::utf8::encode_utf8(v.source),
        ) + seq![34u8] + lit_bytes(",\"pth\":\"") + json_escaped(vstd::utf8::encode_utf8(v.path))
            + seq![34u8] + rest,
        rest.len() > 0 && rest[0] == 44,
        spec_parse_record_tail(
            line,
            v.timestamp,
            v.file_ts,
            v.source,
            v.path,
            line.len() - rest.len(),
        ) == Some(v),
    ensures
        spec_parse_record(line) == Some(v),
{
    lemma_record_lits();
    lemma_lit_splits();
    let l0 = lit_bytes("{\"ts\":");
    let l1 = lit_bytes(",\"fts\":");
    let l2 = lit_bytes(",\"src\":\"");
    let l3 = lit_bytes(",\"pth\":\"");
    let tsb = ts_bytes(v.timestamp);
    let d_fts = dec_bytes(v.file_ts as nat);
    let e_src = json_escaped(vstd::utf8::encode_utf8(v.source));
    let e_pth = json_escaped(vstd::utf8::encode_utf8(v.path));

    let i0 = l0.len() as int;
    let i1 = i0 + tsb.len();
    let j1 = i1 + l1.len();
    let i2 = j1 + d_fts.len();
    let j2 = i2 + l2.len();
    let i3 = j2 + e_src.len() + 1;
    let j3 = i3 + l3.len();
    let i4 = j3 + e_pth.len() + 1;
    assert(i4 + rest.len() == line.len());

    assert(line.subrange(0, i0) =~= l0);
    assert(match_lit(line, 0, l0));
    assert(line.subrange(i0, i1) =~= tsb);
    assert(line[i1] == l1[0] && l1[0] == 44);
    lemma_parse_ts_complete(line, i0, v.timestamp);

    assert(line.subrange(i1, j1) =~= l1);
    assert(match_lit(line, i1, l1));
    lemma_dec_bytes_digits(v.file_ts as nat);
    assert(line.subrange(j1, i2) =~= d_fts);
    assert(line[i2] == l2[0] && l2[0] == 44);
    lemma_parse_u64_complete(line, j1, v.file_ts as nat);

    assert(line.subrange(i2, j2) =~= l2);
    assert(match_lit(line, i2, l2));
    assert(line.subrange(j2, j2 + e_src.len()) =~= e_src);
    assert(line[j2 + e_src.len()] == 34);
    lemma_parse_string_field_complete(line, j2, v.source);
    assert(parse_string_field(line, j2) == Some((v.source, i3)));

    assert(line.subrange(i3, j3) =~= l3);
    assert(match_lit(line, i3, l3));
    assert(line.subrange(j3, j3 + e_pth.len()) =~= e_pth);
    assert(line[j3 + e_pth.len()] == 34);
    lemma_parse_string_field_complete(line, j3, v.path);
    assert(parse_string_field(line, j3) == Some((v.path, i4)));
    assert(i4 == line.len() - rest.len());
}

/// Law: the reader accepts every line the writer renders and returns the
/// record unchanged. Together with the writer's and reader's own
/// contracts, a record appended to the log is recovered intact by the
/// retainer's walk.
#[verifier::rlimit(100)]
pub proof fn lemma_record_line_round_trip(v: JsonRowView)
    requires
        bounded_row_view(v),
    ensures
        spec_parse_record(row_json_bytes(v)) == Some(v),
{
    lemma_record_lits();
    lemma_lit_splits();
    let line = row_json_bytes(v);
    let quote = seq![34u8];
    let a = lit_bytes("{\"ts\":") + ts_bytes(v.timestamp) + lit_bytes(",\"fts\":") + dec_bytes(
        v.file_ts as nat,
    ) + lit_bytes(",\"src\":\"") + json_escaped(vstd::utf8::encode_utf8(v.source)) + quote
        + lit_bytes(",\"pth\":\"") + json_escaped(vstd::utf8::encode_utf8(v.path)) + quote;
    let rest = lit_bytes(",\"exf\":\"") + b64(v.exif) + quote + lit_bytes(",\"siz\":") + dec_bytes(
        v.size as nat,
    ) + lit_bytes(",\"hgh\":") + dec_bytes(v.height as nat) + lit_bytes(",\"wdt\":") + dec_bytes(
        v.width as nat,
    ) + lit_bytes(",\"crc\":") + dec_bytes(v.crc as nat) + lit_bytes("}");
    lemma_line_regroup(v);
    lemma_parse_record_tail_complete(line, v, a);
    lemma_shape_bridge(v);
    assert(rest[0] == lit_bytes(",\"exf\":\"")[0]);
    assert(rest[0] == 44);
    assert(a.len() == line.len() - rest.len());
    lemma_parse_record_head_complete(line, v, rest);
}

/// The concrete shape of the registry literals, and how the writer's
/// quoted field-name literals split against the reader's.
proof fn lemma_source_lits()
    ensures
        lit_bytes("{\"id\":\"") =~= lit_bytes("{\"id\":") + seq![34u8],
        lit_bytes(",\"name\":\"") =~= lit_bytes(",\"name\":") + seq![34u8],
        lit_bytes(",\"group\":\"") =~= lit_bytes(",\"group\":") + seq![34u8],
        lit_bytes("]}") =~= seq![93u8] + lit_bytes("}"),
        lit_bytes(",").len() == 1 && lit_bytes(",")[0] == 44,
        lit_bytes("}").len() == 1 && lit_bytes("}")[0] == 125,
        lit_bytes(",\"name\":\"").len() > 0 && lit_bytes(",\"name\":\"")[0] == 44,
        lit_bytes(",\"group\":\"").len() > 0 && lit_bytes(",\"group\":\"")[0] == 44,
        lit_bytes(",\"tags\":[").len() > 0 && lit_bytes(",\"tags\":[")[0] == 44,
{
    reveal_strlit("{\"id\":\"");
    reveal_strlit("{\"id\":");
    reveal_strlit(",\"name\":\"");
    reveal_strlit(",\"name\":");
    reveal_strlit(",\"group\":\"");
    reveal_strlit(",\"group\":");
    reveal_strlit(",\"tags\":[");
    reveal_strlit("]}");
    reveal_strlit("}");
    reveal_strlit(",");
    assert(vstd::utf8::is_ascii_chars("{\"id\":\""@)) by {
        assert forall|k: int|
            0 <= k < "{\"id\":\""@.len() implies '\0' <= #[trigger] "{\"id\":\""@[k]
            <= '\u{7f}' by {}
    }
    lemma_ascii_lit("{\"id\":\"");
    assert(vstd::utf8::is_ascii_chars("{\"id\":"@)) by {
        assert forall|k: int| 0 <= k < "{\"id\":"@.len() implies '\0' <= #[trigger] "{\"id\":"@[k]
            <= '\u{7f}' by {}
    }
    lemma_ascii_lit("{\"id\":");
    assert(vstd::utf8::is_ascii_chars(",\"name\":\""@)) by {
        assert forall|k: int|
            0 <= k < ",\"name\":\""@.len() implies '\0' <= #[trigger] ",\"name\":\""@[k]
            <= '\u{7f}' by {}
    }
    lemma_ascii_lit(",\"name\":\"");
    assert(vstd::utf8::is_ascii_chars(",\"name\":"@)) by {
        assert forall|k: int|
            0 <= k < ",\"name\":"@.len() implies '\0' <= #[trigger] ",\"name\":"@[k]
            <= '\u{7f}' by {}
    }
    lemma_ascii_lit(",\"name\":");
    assert(vstd::utf8::is_ascii_chars(",\"group\":\""@)) by {
        assert forall|k: int|
            0 <= k < ",\"group\":\""@.len() implies '\0' <= #[trigger] ",\"group\":\""@[k]
            <= '\u{7f}' by {}
    }
    lemma_ascii_lit(",\"group\":\"");
    assert(vstd::utf8::is_ascii_chars(",\"group\":"@)) by {
        assert forall|k: int|
            0 <= k < ",\"group\":"@.len() implies '\0' <= #[trigger] ",\"group\":"@[k]
            <= '\u{7f}' by {}
    }
    lemma_ascii_lit(",\"group\":");
    assert(vstd::utf8::is_ascii_chars(",\"tags\":["@)) by {
        assert forall|k: int|
            0 <= k < ",\"tags\":["@.len() implies '\0' <= #[trigger] ",\"tags\":["@[k]
            <= '\u{7f}' by {}
    }
    lemma_ascii_lit(",\"tags\":[");
    assert(vstd::utf8::is_ascii_chars("]}"@)) by {
        assert forall|k: int| 0 <= k < "]}"@.len() implies '\0' <= #[trigger] "]}"@[k]
            <= '\u{7f}' by {}
    }
    lemma_ascii_lit("]}");
    assert(vstd::utf8::is_ascii_chars("}"@)) by {
        assert forall|k: int| 0 <= k < "}"@.len() implies '\0' <= #[trigger] "}"@[k]
            <= '\u{7f}' by {}
    }
    lemma_ascii_lit("}");
    assert(vstd::utf8::is_ascii_chars(","@)) by {
        assert forall|k: int| 0 <= k < ","@.len() implies '\0' <= #[trigger] ","@[k]
            <= '\u{7f}' by {}
    }
    lemma_ascii_lit(",");
    assert("{\"id\":\""@ =~= "{\"id\":"@ + seq!['"']);
    assert(",\"name\":\""@ =~= ",\"name\":"@ + seq!['"']);
    assert(",\"group\":\""@ =~= ",\"group\":"@ + seq!['"']);
    assert("]}"@ =~= seq![']'] + "}"@);
    assert forall|k: int|
        0 <= k < lit_bytes("{\"id\":\"").len() implies lit_bytes("{\"id\":\"")[k] == (lit_bytes(
        "{\"id\":",
    ) + seq![34u8])[k] by {
        if k < "{\"id\":"@.len() {
            assert("{\"id\":\""@[k] == "{\"id\":"@[k]);
        } else {
            assert("{\"id\":\""@[k] == '"');
        }
    }
    assert forall|k: int|
        0 <= k < lit_bytes(",\"name\":\"").len() implies lit_bytes(",\"name\":\"")[k] == (
        lit_bytes(",\"name\":") + seq![34u8])[k] by {
        if k < ",\"name\":"@.len() {
            assert(",\"name\":\""@[k] == ",\"name\":"@[k]);
        } else {
            assert(",\"name\":\""@[k] == '"');
        }
    }
    assert forall|k: int|
        0 <= k < lit_bytes(",\"group\":\"").len() implies lit_bytes(",\"group\":\"")[k] == (
        lit_bytes(",\"group\":") + seq![34u8])[k] by {
        if k < ",\"group\":"@.len() {
            assert(",\"group\":\""@[k] == ",\"group\":"@[k]);
        } else {
            assert(",\"group\":\""@[k] == '"');
        }
    }
    assert forall|k: int|
        0 <= k < lit_bytes("]}").len() implies lit_bytes("]}")[k] == (seq![93u8] + lit_bytes(
        "}",
    ))[k] by {
        if k == 0 {
            assert("]}"@[0] == ']');
        } else {
            assert("]}"@[k] == "}"@[k - 1]);
        }
    }
}

/// The bytes of the tag items from index `k` on, with the array's closing
/// bracket.
pub open spec fn tags_rest_bytes(tags: Seq<Seq<char>>, k: int) -> Seq<u8>
    decreases tags.len() - k,
    when k >= 0
{
    if k >= tags.len() {
        seq![93u8]
    } else {
        lit_bytes(",") + quoted_bytes(tags[k]) + tags_rest_bytes(tags, k + 1)
    }
}

/// The front-counted item rendering and the back-counted rest agree on the
/// whole array.
proof fn lemma_items_rest(tags: Seq<Seq<char>>, n: int)
    requires
        1 <= n <= tags.len(),
    ensures
        tags_items_bytes(tags, n) + tags_rest_bytes(tags, n) =~= quoted_bytes(tags[0])
            + tags_rest_bytes(tags, 1),
    decreases n,
{
    if n == 1 {
    } else {
        lemma_items_rest(tags, n - 1);
        assert(tags_items_bytes(tags, n) == tags_items_bytes(tags, n - 1) + lit_bytes(",")
            + quoted_bytes(tags[n - 1]));
        assert(tags_rest_bytes(tags, n - 1) == lit_bytes(",") + quoted_bytes(tags[n - 1])
            + tags_rest_bytes(tags, n));
        assert(tags_items_bytes(tags, n) + tags_rest_bytes(tags, n) =~= tags_items_bytes(
            tags,
            n - 1,
        ) + tags_rest_bytes(tags, n - 1));
    }
}

/// The reader accepts the written tag items from index `k` on, appending
/// them to what it has.
proof fn lemma_parse_tags_rest_complete(s: Seq<u8>, i: int, acc: Seq<Seq<char>>, tags: Seq<
    Seq<char>,
>, k: int)
    requires
        0 <= i,
        0 <= k <= tags.len(),
        i + tags_rest_bytes(tags, k).len() <= s.len(),
        s.subrange(i, i + tags_rest_bytes(tags, k).len()) == tags_rest_bytes(tags, k),
    ensures
        parse_tags_more(s, i, acc) == Some(
            (acc + tags.subrange(k, tags.len() as int), i + tags_rest_bytes(tags, k).len()),
        ),
    decreases tags.len() - k,
{
    lemma_source_lits();
    let r = tags_rest_bytes(tags, k);
    assert forall|m: int| #![trigger s[i + m]] 0 <= m < r.len() implies s[i + m] == r[m] by {
        assert(s.subrange(i, i + r.len())[m] == s[i + m]);
    }
    if k == tags.len() {
        assert(r =~= seq![93u8]);
        assert(r[0] == 93);
        assert(s[i + 0] == r[0]);
        assert(s[i + 0] == 93);
        assert(acc + tags.subrange(k, tags.len() as int) =~= acc);
    } else {
        let q = quoted_bytes(tags[k]);
        let e = json_escaped(vstd::utf8::encode_utf8(tags[k]));
        assert(r =~= lit_bytes(",") + q + tags_rest_bytes(tags, k + 1));
        assert(r[0] == lit_bytes(",")[0]);
        assert(s[i + 0] == r[0]);
        assert(s[i + 0] == 44);
        assert(s[i + 1] == r[1] && r[1] == q[0] && q[0] == 34);
        assert(q =~= seq![34u8] + e + seq![34u8]);
        assert(s.subrange(i + 2, i + 2 + e.len()) =~= e) by {
            assert forall|m: int| 0 <= m < e.len() implies s[i + 2 + m] == e[m] by {
                assert(s[i + (2 + m)] == r[2 + m]);
                assert(r[2 + m] == q[1 + m]);
                assert(q[1 + m] == e[m]);
            }
        }
        assert(s[i + 2 + e.len()] == r[2 + e.len() as int] && r[2 + e.len() as int] == q[1 + e.len() as int] && q[1
            + e.len() as int] == 34);
        lemma_parse_string_field_complete(s, i + 2, tags[k]);
        let j = i + 2 + e.len() + 1;
        assert(parse_string_field(s, i + 2) == Some((tags[k], j)));
        assert(q.len() == 2 + e.len());
        assert(r.len() == 1 + q.len() + tags_rest_bytes(tags, k + 1).len());
        assert(j + tags_rest_bytes(tags, k + 1).len() == i + r.len());
        assert_seqs_equal!(
            s.subrange(j, j + tags_rest_bytes(tags, k + 1).len() as int)
                == tags_rest_bytes(tags, k + 1),
            m => {
                assert(s.subrange(j, j + tags_rest_bytes(tags, k + 1).len() as int)[m] == s[j
                    + m]);
                assert(s[i + (1 + q.len() + m)] == r[1 + q.len() as int + m]);
                assert(r[1 + q.len() as int + m] == tags_rest_bytes(tags, k + 1)[m]);
            }
        );
        lemma_parse_tags_rest_complete(s, j, acc.push(tags[k]), tags, k + 1);
        assert(acc.push(tags[k]) + tags.subrange(k + 1, tags.len() as int) =~= acc + tags.subrange(
            k,
            tags.len() as int,
        ));
        assert(parse_tags_more(s, i, acc) == parse_tags_more(s, j, acc.push(tags[k])));
    }
}

/// The reader accepts a whole written tag array.
proof fn lemma_parse_tags_at_complete(s: Seq<u8>, i: int, tags: Seq<Seq<char>>)
    requires
        0 <= i,
        i + (tags_items_bytes(tags, tags.len() as int) + seq![93u8]).len() <= s.len(),
        s.subrange(i, i + (tags_items_bytes(tags, tags.len() as int) + seq![93u8]).len()) == (
        tags_items_bytes(tags, tags.len() as int) + seq![93u8]),
    ensures
        parse_tags_at(s, i) == Some(
            (tags, i + (tags_items_bytes(tags, tags.len() as int) + seq![93u8]).len()),
        ),
{
    lemma_source_lits();
    let blk = tags_items_bytes(tags, tags.len() as int) + seq![93u8];
    assert forall|m: int| #![trigger s[i + m]] 0 <= m < blk.len() implies s[i + m] == blk[m] by {
        assert(s.subrange(i, i + blk.len())[m] == s[i + m]);
    }
    if tags.len() == 0 {
        assert(blk =~= seq![93u8]);
        assert(blk[0] == 93);
        assert(s[i + 0] == blk[0]);
        assert(s[i + 0] == 93);
        assert(parse_tags_at(s, i) == Some((Seq::<Seq<char>>::empty(), i + 1)));
        assert(Seq::<Seq<char>>::empty() =~= tags);
    } else {
        lemma_items_rest(tags, tags.len() as int);
        assert(blk =~= quoted_bytes(tags[0]) + tags_rest_bytes(tags, 1));
        let q = quoted_bytes(tags[0]);
        let e = json_escaped(vstd::utf8::encode_utf8(tags[0]));
        assert(q =~= seq![34u8] + e + seq![34u8]);
        assert(blk[0] == q[0]);
        assert(s[i + 0] == blk[0]);
        assert(s[i + 0] == q[0] && q[0] == 34);
        assert(s[i] != 93);
        assert(s.subrange(i + 1, i + 1 + e.len()) =~= e) by {
            assert forall|m: int| 0 <= m < e.len() implies s[i + 1 + m] == e[m] by {
                assert(s[i + (1 + m)] == blk[1 + m]);
                assert(blk[1 + m] == q[1 + m]);
                assert(q[1 + m] == e[m]);
            }
        }
        assert(s[i + 1 + e.len()] == blk[1 + e.len() as int] && blk[1 + e.len() as int] == q[1 + e.len() as int] && q[1
            + e.len() as int] == 34);
        lemma_parse_string_field_complete(s, i + 1, tags[0]);
        let j = i + 1 + e.len() + 1;
        assert(q.len() == 2 + e.len());
        assert(blk.len() == q.len() + tags_rest_bytes(tags, 1).len());
        assert(j + tags_rest_bytes(tags, 1).len() == i + blk.len());
        assert_seqs_equal!(
            s.subrange(j, j + tags_rest_bytes(tags, 1).len() as int) == tags_rest_bytes(tags, 1),
            m => {
                assert(s.subrange(j, j + tags_rest_bytes(tags, 1).len() as int)[m] == s[j + m]);
                assert(s[i + (q.len() + m)] == blk[q.len() as int + m]);
                assert(blk[q.len() as int + m] == tags_rest_bytes(tags, 1)[m]);
            }
        );
        lemma_parse_tags_rest_complete(s, j, seq![tags[0]], tags, 1);
        assert(seq![tags[0]] + tags.subrange(1, tags.len() as int) =~= tags);
    }
}

/// The written registry line, with each quoted field split into the
/// literal the reader matches, the escaped content, and the closing quote.
#[verifier::rlimit(100)]
proof fn lemma_source_regroup(row: SourceRowView)
    ensures
        source_json_bytes(row) =~= lit_bytes("{\"id\":\"") + json_escaped(
            vstd::utf8::encode_utf8(row.id),
        ) + seq![34u8] + lit_bytes(",\"name\":\"") + json_escaped(
            vstd::utf8::encode_utf8(row.name),
        ) + seq![34u8] + lit_bytes(",\"group\":\"") + json_escaped(
            vstd::utf8::encode_utf8(row.group),
        ) + seq![34u8] + lit_bytes(",\"tags\":[") + (tags_items_bytes(
            row.tags,
            row.tags.len() as int,
        ) + seq![93u8]) + lit_bytes("}"),
{
    lemma_source_lits();
}

/// The reader accepts the written head of a registry line, through the
/// `group` field.
#[verifier::rlimit(100)]
proof fn lemma_parse_source_head(line: Seq<u8>, row: SourceRowView, rest: Seq<u8>)
    requires
        line =~= lit_bytes("{\"id\":\"") + json_escaped(vstd::utf8::encode_utf8(row.id))
            + seq![34u8] + lit_bytes(",\"name\":\"") + json_escaped(
            vstd::utf8::encode_utf8(row.name),
        ) + seq![34u8] + lit_bytes(",\"group\":\"") + json_escaped(
            vstd::utf8::encode_utf8(row.group),
        ) + seq![34u8] + rest,
        rest.len() > 0,
    ensures
        ({
            let l0 = lit_bytes("{\"id\":\"");
            let l1 = lit_bytes(",\"name\":\"");
            let l2 = lit_bytes(",\"group\":\"");
            let e_id = json_escaped(vstd::utf8::encode_utf8(row.id));
            let e_nm = json_escaped(vstd::utf8::encode_utf8(row.name));
            let e_gp = json_escaped(vstd::utf8::encode_utf8(row.group));
            let p0 = l0.len() as int;
            let i1 = p0 + e_id.len() + 1;
            let p1 = i1 + l1.len();
            let i2 = p1 + e_nm.len() + 1;
            let p2 = i2 + l2.len();
            let i3 = p2 + e_gp.len() + 1;
            &&& match_lit(line, 0, l0)
            &&& parse_string_field(line, p0) == Some((row.id, i1))
            &&& match_lit(line, i1, l1)
            &&& parse_string_field(line, p1) == Some((row.name, i2))
            &&& match_lit(line, i2, l2)
            &&& parse_string_field(line, p2) == Some((row.group, i3))
            &&& i3 + rest.len() == line.len()
        }),
{
    lemma_source_lits();
    let l0 = lit_bytes("{\"id\":\"");
    let l1 = lit_bytes(",\"name\":\"");
    let l2 = lit_bytes(",\"group\":\"");
    let e_id = json_escaped(vstd::utf8::encode_utf8(row.id));
    let e_nm = json_escaped(vstd::utf8::encode_utf8(row.name));
    let e_gp = json_escaped(vstd::utf8::encode_utf8(row.group));
    let p0 = l0.len() as int;
    let i1 = p0 + e_id.len() + 1;
    let p1 = i1 + l1.len();
    let i2 = p1 + e_nm.len() + 1;
    let p2 = i2 + l2.len();
    let i3 = p2 + e_gp.len() + 1;
    assert(line.subrange(0, p0) =~= l0);
    assert(match_lit(line, 0, l0));
    assert(line.subrange(p0, p0 + e_id.len()) =~= e_id);
    assert(line[p0 + e_id.len()] == 34);
    lemma_parse_string_field_complete(line, p0, row.id);
    assert(line.subrange(i1, p1) =~= l1);
    assert(match_lit(line, i1, l1));
    assert(line.subrange(p1, p1 + e_nm.len()) =~= e_nm);
    assert(line[p1 + e_nm.len()] == 34);
    lemma_parse_string_field_complete(line, p1, row.name);
    assert(line.subrange(i2, p2) =~= l2);
    assert(match_lit(line, i2, l2));
    assert(line.subrange(p2, p2 + e_gp.len()) =~= e_gp);
    assert(line[p2 + e_gp.len()] == 34);
    lemma_parse_string_field_complete(line, p2, row.group);
}

/// Law: the reader accepts every registry line the writer renders and
/// returns the row unchanged. A source registered by one run is found
/// intact by every later run's scan of the registry.
#[verifier::rlimit(100)]
pub proof fn lemma_source_line_round_trip(row: SourceRowView)
    ensures
        spec_parse_source(source_json_bytes(row)) == Some(row),
{
    lemma_source_lits();
    lemma_source_regroup(row);
    let line = source_json_bytes(row);
    let l0 = lit_bytes("{\"id\":\"");
    let l1 = lit_bytes(",\"name\":\"");
    let l2 = lit_bytes(",\"group\":\"");
    let l3 = lit_bytes(",\"tags\":[");
    let l4 = lit_bytes("}");
    let e_id = json_escaped(vstd::utf8::encode_utf8(row.id));
    let e_nm = json_escaped(vstd::utf8::encode_utf8(row.name));
    let e_gp = json_escaped(vstd::utf8::encode_utf8(row.group));
    let tb = tags_items_bytes(row.tags, row.tags.len() as int) + seq![93u8];
    let rest = l3 + tb + l4;
    assert(line =~= l0 + e_id + seq![34u8] + l1 + e_nm + seq![34u8] + l2 + e_gp + seq![34u8]
        + rest);
    lemma_parse_source_head(line, row, rest);
    let p0 = l0.len() as int;
    let i1 = p0 + e_id.len() + 1;
    let p1 = i1 + l1.len();
    let i2 = p1 + e_nm.len() + 1;
    let p2 = i2 + l2.len();
    let i3 = p2 + e_gp.len() + 1;
    let p3 = i3 + l3.len();
    let i4 = p3 + tb.len();
    assert(line.subrange(i3, p3) =~= l3);
    assert(match_lit(line, i3, l3));
    assert(line.subrange(p3, p3 + tb.len()) =~= tb);
    lemma_parse_tags_at_complete(line, p3, row.tags);
    assert(line.subrange(i4, i4 + 1) =~= l4);
    assert(match_lit(line, i4, l4));
    assert(i4 + l4.len() == line.len());
    assert(spec_parse_source(line) == Some(
        SourceRowView { id: row.id, name: row.name, group: row.group, tags: row.tags },
    ));
}

} // verus!

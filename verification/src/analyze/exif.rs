//! EXIF-derived facts: the tags read from a file's bytes, their text, the
//! capture time and the camera name.
use vstd::prelude::*;
use vstd::string::StringSliceAdditionalSpecFns;
use crate::decimal::{all_digits, digits_value, is_digit, parse_signed};
use crate::text::{chars_of, concat, starts_with, string_from_chars};

verus! {

/// EXIF-derived facts; every field is best-effort.
#[derive(Debug, Default, Clone, PartialEq, Eq)]
pub struct ExifFacts {
    /// DateTimeOriginal as unix seconds (no timezone in EXIF; treated as UTC).
    pub captured_at: Option<i64>,
    /// Make and model, joined without repeating the make.
    pub camera: Option<String>,
    pub orientation: Option<u16>,
}

/// Days since 1970-01-01 of a proleptic Gregorian date (civil-from-days
/// inverse, with floor division).
pub open spec fn days_from_civil_spec(year: int, month: int, day: int) -> int {
    let y = if month <= 2 { year - 1 } else { year };
    let era = y / 400;
    let yoe = y - era * 400;
    let mp = if month > 2 { month - 3 } else { month + 9 };
    let doy = (153 * mp + 2) / 5 + day - 1;
    let doe = yoe * 365 + yoe / 4 - yoe / 100 + doy;
    era * 146097 + doe - 719468
}

/// EXIF "YYYY:MM:DD HH:MM:SS" as unix seconds, or `None` when the text is
/// not in that shape or a field is out of range.
pub open spec fn exif_datetime_spec(b: Seq<u8>) -> Option<int> {
    if b.len() != 19 || b[4] != 58 || b[7] != 58 || b[10] != 32 || b[13] != 58 || b[16] != 58 {
        None
    } else {
        let year = parse_signed(b.subrange(0, 4));
        let month = parse_signed(b.subrange(5, 7));
        let day = parse_signed(b.subrange(8, 10));
        let hour = parse_signed(b.subrange(11, 13));
        let minute = parse_signed(b.subrange(14, 16));
        let second = parse_signed(b.subrange(17, 19));
        if year is None || month is None || day is None || hour is None || minute is None || second is None {
            None
        } else if !(1 <= month->0 <= 12) || !(1 <= day->0 <= 31) {
            None
        } else if hour->0 > 23 || minute->0 > 59 || second->0 > 60 {
            None
        } else {
            Some(days_from_civil_spec(year->0, month->0, day->0) * 86400 + hour->0 * 3600 + minute->0 * 60 + second->0)
        }
    }
}

proof fn lemma_digits_bound(s: Seq<u8>)
    requires
        all_digits(s),
    ensures
        0 <= digits_value(s),
        s.len() <= 4 ==> digits_value(s) < 10000,
        s.len() <= 3 ==> digits_value(s) < 1000,
        s.len() <= 2 ==> digits_value(s) < 100,
        s.len() <= 1 ==> digits_value(s) < 10,
    decreases s.len(),
{
    if s.len() > 0 {
        assert(all_digits(s.drop_last()));
        lemma_digits_bound(s.drop_last());
    }
}

/// Parses a field of at most four bytes as `i64::from_str` would.
fn parse_field(b: &[u8], start: usize, end: usize) -> (r: Option<i64>)
    requires
        start < end <= b@.len(),
        end - start <= 4,
    ensures
        r is Some <==> parse_signed(b@.subrange(start as int, end as int)) is Some,
        r is Some ==> r->0 as int == parse_signed(b@.subrange(start as int, end as int))->0,
        r is Some ==> -9999 <= r->0 <= 9999,
{
    let ghost s = b@.subrange(start as int, end as int);
    let mut i = start;
    let mut negative = false;
    if b[start] == 43 || b[start] == 45 {
        negative = b[start] == 45;
        i = start + 1;
        if i == end {
            return None;
        }
    }
    let ghost digits_start = i;
    let mut value: i64 = 0;
    while i < end
        invariant
            start <= digits_start <= i <= end <= b@.len(),
            end - start <= 4,
            digits_start == start || digits_start == start + 1,
            all_digits(b@.subrange(digits_start as int, i as int)),
            value as int == digits_value(b@.subrange(digits_start as int, i as int)),
            0 <= value < 10000,
            i - digits_start <= 4,
            s == b@.subrange(start as int, end as int),
            digits_start == start + 1 <==> (b@[start as int] == 43 || b@[start as int] == 45),
            negative <==> (digits_start == start + 1 && b@[start as int] == 45),
        decreases end - i,
    {
        let c = b[i];
        if c < 48 || c > 57 {
            proof {
                let rest = b@.subrange(digits_start as int, end as int);
                assert(rest[i - digits_start] == c);
                assert(s[0] == b@[start as int]);
                if digits_start == start {
                    assert(s =~= rest);
                } else {
                    assert(s.drop_first() =~= rest);
                }
            }
            return None;
        }
        proof {
            assert(b@.subrange(digits_start as int, i + 1).drop_last() =~= b@.subrange(digits_start as int, i as int));
            lemma_digits_bound(b@.subrange(digits_start as int, i + 1));
        }
        value = value * 10 + (c - 48) as i64;
        i += 1;
    }
    proof {
        let rest = b@.subrange(digits_start as int, end as int);
        if digits_start == start {
            assert(s =~= rest);
            assert(!(s[0] == 43 || s[0] == 45)) by {
                assert(is_digit(rest[0]));
            }
        } else {
            assert(s.drop_first() =~= rest);
            assert(s[0] == b@[start as int]);
        }
    }
    if negative { Some(-value) } else { Some(value) }
}

/// Days since 1970-01-01 for a proleptic Gregorian date (Howard Hinnant's
/// `days_from_civil`).
fn days_from_civil(year: i64, month: i64, day: i64) -> (d: i64)
    requires
        -10000 <= year <= 10000,
        1 <= month <= 12,
        1 <= day <= 31,
    ensures
        d as int == days_from_civil_spec(year as int, month as int, day as int),
        -5_000_000 <= d <= 5_000_000,
{
    let y = if month <= 2 { year - 1 } else { year };
    let era = if y >= 0 { y / 400 } else { -((399 - y) / 400) };
    proof {
        if y < 0 {
            let q = (399 - y) / 400;
            assert(-q == y / 400) by (nonlinear_arith)
                requires
                    y < 0,
                    q == (399 - y) / 400,
            {
                vstd::arithmetic::div_mod::lemma_fundamental_div_mod(399 - y, 400);
                vstd::arithmetic::div_mod::lemma_fundamental_div_mod(y as int, 400);
            }
        }
    }
    let yoe = y - era * 400;
    proof {
        vstd::arithmetic::div_mod::lemma_fundamental_div_mod(y as int, 400);
    }
    let mp = if month > 2 { month - 3 } else { month + 9 };
    let doy = (153 * mp + 2) / 5 + day - 1;
    let doe = yoe * 365 + yoe / 4 - yoe / 100 + doy;
    era * 146097 + doe - 719468
}

/// Parses EXIF "YYYY:MM:DD HH:MM:SS" into unix seconds.
pub fn parse_exif_datetime(s: &str) -> (r: Option<i64>)
    ensures
        r is Some <==> exif_datetime_spec(s.spec_bytes()) is Some,
        r is Some ==> r->0 as int == exif_datetime_spec(s.spec_bytes())->0,
{
    let b = s.as_bytes();
    if b.len() != 19 || b[4] != 58 || b[7] != 58 || b[10] != 32 || b[13] != 58 || b[16] != 58 {
        return None;
    }
    let year = match parse_field(b, 0, 4) { Some(v) => v, None => return None };
    let month = match parse_field(b, 5, 7) { Some(v) => v, None => return None };
    let day = match parse_field(b, 8, 10) { Some(v) => v, None => return None };
    let hour = match parse_field(b, 11, 13) { Some(v) => v, None => return None };
    let minute = match parse_field(b, 14, 16) { Some(v) => v, None => return None };
    let second = match parse_field(b, 17, 19) { Some(v) => v, None => return None };
    if !(1 <= month && month <= 12) || !(1 <= day && day <= 31) {
        return None;
    }
    if hour > 23 || minute > 59 || second > 60 {
        return None;
    }
    Some(days_from_civil(year, month, day) * 86400 + hour * 3600 + minute * 60 + second)
}

/// The camera name from the Make and Model tags: the model alone when it
/// already starts with the make ("Canon EOS R5"), else "make model"; one of
/// them when the other is absent.
pub open spec fn camera_name_spec(make: Option<Seq<char>>, model: Option<Seq<char>>) -> Option<Seq<char>> {
    match (make, model) {
        (Some(mk), Some(md)) => if mk.len() <= md.len() && md.subrange(0, mk.len() as int) == mk {
            Some(md)
        } else {
            Some(mk + seq![' '] + md)
        },
        (mk, md) => if md is Some { md } else { mk },
    }
}

/// Names the camera from the Make and Model tags (each already trimmed and
/// non-empty when present).
pub fn camera_name(make: Option<String>, model: Option<String>) -> (r: Option<String>)
    ensures
        match r {
            Some(s) => camera_name_spec(opt_view(make), opt_view(model)) == Some(s@),
            None => camera_name_spec(opt_view(make), opt_view(model)) is None,
        },
{
    match (make, model) {
        (Some(mk), Some(md)) => {
            if starts_with(md.as_str(), mk.as_str()) {
                Some(md)
            } else {
                let head = concat(mk.as_str(), " ");
                proof {
                    reveal_strlit(" ");
                }
                Some(concat(head.as_str(), md.as_str()))
            }
        },
        (None, Some(md)) => Some(md),
        (mk, None) => mk,
    }
}

/// The text of an optional string.
pub open spec fn opt_view(s: Option<String>) -> Option<Seq<char>> {
    match s {
        Some(t) => Some(t@),
        None => None,
    }
}

/// The capture time from the DateTimeOriginal tag, or the DateTime tag when
/// the former is absent. A present but unparseable DateTimeOriginal gives
/// no capture time.
pub fn capture_time(date_time_original: Option<String>, date_time: Option<String>) -> (r: Option<i64>)
    ensures
        ({
            let chosen = if date_time_original is Some { date_time_original } else { date_time };
            match chosen {
                Some(t) => (r is Some <==> exif_datetime_spec(vstd::utf8::encode_utf8(t@)) is Some)
                    && (r is Some ==> r->0 as int == exif_datetime_spec(vstd::utf8::encode_utf8(t@))->0),
                None => r is None,
            }
        }),
{
    let chosen = match date_time_original {
        Some(t) => Some(t),
        None => date_time,
    };
    match chosen {
        Some(t) => parse_exif_datetime(t.as_str()),
        None => None,
    }
}

/// The EXIF tags the library reads, as the parser gives them: the first
/// ASCII chunk of DateTimeOriginal, DateTime, Make and Model, and the first
/// Orientation value.
#[derive(Debug, Clone)]
pub struct RawExif {
    pub date_time_original: Option<Vec<u8>>,
    pub date_time: Option<Vec<u8>>,
    pub make: Option<Vec<u8>>,
    pub model: Option<Vec<u8>>,
    pub orientation: Option<u32>,
}

pub open spec fn opt_bytes(b: Option<Vec<u8>>) -> Option<Seq<u8>> {
    match b {
        Some(v) => Some(v@),
        None => None,
    }
}

pub open spec fn raw_view(r: RawExif) -> (Option<Seq<u8>>, Option<Seq<u8>>, Option<Seq<u8>>, Option<Seq<u8>>, Option<u32>) {
    (opt_bytes(r.date_time_original), opt_bytes(r.date_time), opt_bytes(r.make), opt_bytes(r.model), r.orientation)
}

/// What the kamadak-exif parser finds in `data`: `None` when it finds no
/// EXIF, else the tags of [`RawExif`].
pub uninterp spec fn exif_fields(data: Seq<u8>) -> Option<(Option<Seq<u8>>, Option<Seq<u8>>, Option<Seq<u8>>, Option<Seq<u8>>, Option<u32>)>;

/// `exif::Reader::read_from_container` on the bytes, then `Exif::get_field`
/// on the primary image for each tag (the first chunk of an ASCII value;
/// `Value::get_uint(0)` for Orientation). The result is a function of the
/// bytes alone, named [`exif_fields`].
#[verifier::external_body]
fn exif_tags(data: &[u8]) -> (r: Option<RawExif>)
    ensures
        match r {
            Some(raw) => exif_fields(data@) == Some(raw_view(raw)),
            None => exif_fields(data@) is None,
        },
{
    let ex = exif::Reader::new().read_from_container(&mut std::io::Cursor::new(data)).ok()?;
    let ascii = |t: exif::Tag| match ex.get_field(t, exif::In::PRIMARY).map(|f| &f.value) {
        Some(exif::Value::Ascii(chunks)) => chunks.first().cloned(),
        _ => None,
    };
    let orientation = ex.get_field(exif::Tag::Orientation, exif::In::PRIMARY).and_then(|f| f.value.get_uint(0));
    Some(RawExif {
        date_time_original: ascii(exif::Tag::DateTimeOriginal),
        date_time: ascii(exif::Tag::DateTime),
        make: ascii(exif::Tag::Make),
        model: ascii(exif::Tag::Model),
        orientation,
    })
}

/// What `String::from_utf8_lossy` makes of `bytes`.
pub uninterp spec fn lossy_text(bytes: Seq<u8>) -> Seq<char>;

/// `String::from_utf8_lossy`: the bytes as text, invalid sequences replaced;
/// a function of the bytes alone, named [`lossy_text`]. Valid UTF-8 comes
/// back as the text it encodes.
#[verifier::external_body]
fn utf8_lossy(bytes: &[u8]) -> (s: String)
    ensures
        s@ == lossy_text(bytes@),
        vstd::utf8::valid_utf8(bytes@) ==> s@ == vstd::utf8::decode_utf8(bytes@),
{
    String::from_utf8_lossy(bytes).into_owned()
}

/// The characters `char::is_whitespace` accepts: Unicode White_Space.
pub open spec fn is_white_space(c: char) -> bool {
    let u = c as u32;
    (0x9 <= u && u <= 0xD) || u == 0x20 || u == 0x85 || u == 0xA0 || u == 0x1680 || (0x2000 <= u && u <= 0x200A)
        || u == 0x2028 || u == 0x2029 || u == 0x202F || u == 0x205F || u == 0x3000
}

/// The characters a trim removes: NUL (`nul`) or whitespace.
pub open spec fn trimmed_char(nul: bool, c: char) -> bool {
    if nul { c == '\0' } else { is_white_space(c) }
}

fn trimmed_char_exec(nul: bool, c: char) -> (r: bool)
    ensures
        r == trimmed_char(nul, c),
{
    if nul {
        c == '\0'
    } else {
        let u = c as u32;
        (0x9 <= u && u <= 0xD) || u == 0x20 || u == 0x85 || u == 0xA0 || u == 0x1680 || (0x2000 <= u && u <= 0x200A)
            || u == 0x2028 || u == 0x2029 || u == 0x202F || u == 0x205F || u == 0x3000
    }
}

/// `s` without its leading trimmed characters.
pub open spec fn trim_start(nul: bool, s: Seq<char>) -> Seq<char>
    decreases s.len(),
{
    if s.len() > 0 && trimmed_char(nul, s[0]) {
        trim_start(nul, s.drop_first())
    } else {
        s
    }
}

/// `s` without its trailing trimmed characters.
pub open spec fn trim_end(nul: bool, s: Seq<char>) -> Seq<char>
    decreases s.len(),
{
    if s.len() > 0 && trimmed_char(nul, s.last()) {
        trim_end(nul, s.drop_last())
    } else {
        s
    }
}

/// `s` trimmed at both ends, as `str::trim_matches('\0')` (`nul`) or
/// `str::trim` does.
pub open spec fn trim_both(nul: bool, s: Seq<char>) -> Seq<char> {
    trim_end(nul, trim_start(nul, s))
}

/// Trims `v` at both ends.
fn trim_chars(v: &Vec<char>, nul: bool) -> (r: Vec<char>)
    ensures
        r@ == trim_both(nul, v@),
{
    let n = v.len();
    let mut lo: usize = 0;
    proof {
        assert(v@.subrange(0, n as int) =~= v@);
    }
    while lo < n && trimmed_char_exec(nul, v[lo])
        invariant
            lo <= n,
            n == v@.len(),
            trim_start(nul, v@) == trim_start(nul, v@.subrange(lo as int, n as int)),
        decreases n - lo,
    {
        proof {
            let sub = v@.subrange(lo as int, n as int);
            assert(sub.drop_first() =~= v@.subrange(lo + 1, n as int));
        }
        lo += 1;
    }
    let ghost start = v@.subrange(lo as int, n as int);
    proof {
        assert(trim_start(nul, v@) == start);
    }
    let mut hi: usize = n;
    while hi > lo && trimmed_char_exec(nul, v[hi - 1])
        invariant
            lo <= hi <= n,
            n == v@.len(),
            start == v@.subrange(lo as int, n as int),
            trim_end(nul, start) == trim_end(nul, v@.subrange(lo as int, hi as int)),
        decreases hi - lo,
    {
        proof {
            let sub = v@.subrange(lo as int, hi as int);
            assert(sub.drop_last() =~= v@.subrange(lo as int, hi - 1));
        }
        hi -= 1;
    }
    let mut r: Vec<char> = Vec::new();
    let mut k: usize = lo;
    while k < hi
        invariant
            lo <= k <= hi,
            hi <= n,
            n == v@.len(),
            r@ == v@.subrange(lo as int, k as int),
        decreases hi - k,
    {
        r.push(v[k]);
        k += 1;
        proof {
            assert(r@ =~= v@.subrange(lo as int, k as int));
        }
    }
    r
}

/// The text of an ASCII tag: the bytes as text, NULs then whitespace
/// trimmed from both ends, and nothing when that leaves no text.
pub open spec fn field_text(b: Option<Seq<u8>>) -> Option<Seq<char>> {
    match b {
        Some(bytes) => {
            let t = trim_both(false, trim_both(true, lossy_text(bytes)));
            if t.len() > 0 { Some(t) } else { None }
        },
        None => None,
    }
}

/// Reads the text of an ASCII tag.
fn tag_text(b: &Option<Vec<u8>>) -> (r: Option<String>)
    ensures
        opt_view(r) == field_text(opt_bytes(*b)),
{
    match b {
        Some(bytes) => {
            let lossy = utf8_lossy(bytes.as_slice());
            let chars = chars_of(lossy.as_str());
            let no_nul = trim_chars(&chars, true);
            let t = trim_chars(&no_nul, false);
            if t.len() > 0 {
                Some(string_from_chars(&t))
            } else {
                None
            }
        },
        None => None,
    }
}

/// The capture time that `chosen` text gives: its EXIF date, if it parses.
pub open spec fn time_of_text(r: Option<i64>, chosen: Option<Seq<char>>) -> bool {
    match chosen {
        Some(t) => (r is Some <==> exif_datetime_spec(vstd::utf8::encode_utf8(t)) is Some)
            && (r is Some ==> r->0 as int == exif_datetime_spec(vstd::utf8::encode_utf8(t))->0),
        None => r is None,
    }
}

/// An Orientation value that fits in 16 bits.
pub open spec fn orientation_of(v: Option<u32>) -> Option<u16> {
    match v {
        Some(o) => if o <= u16::MAX { Some(o as u16) } else { None },
        None => None,
    }
}

/// The EXIF facts of a file's bytes. No EXIF gives no facts. Otherwise:
/// the capture time from DateTimeOriginal, or from DateTime when the former
/// is absent; the camera named from Make and Model; the Orientation when it
/// fits in 16 bits. Tag texts are trimmed of NULs and whitespace, and empty
/// ones count as absent.
pub fn exif_facts(data: &[u8]) -> (f: ExifFacts)
    ensures
        exif_fields(data@) is None ==> f.captured_at is None && f.camera is None && f.orientation is None,
        exif_fields(data@) matches Some(raw) ==> {
            &&& time_of_text(f.captured_at, if field_text(raw.0) is Some { field_text(raw.0) } else { field_text(raw.1) })
            &&& opt_view(f.camera) == camera_name_spec(field_text(raw.2), field_text(raw.3))
            &&& f.orientation == orientation_of(raw.4)
        },
{
    match exif_tags(data) {
        None => ExifFacts { captured_at: None, camera: None, orientation: None },
        Some(raw) => {
            let dto = tag_text(&raw.date_time_original);
            let dt = tag_text(&raw.date_time);
            let make = tag_text(&raw.make);
            let model = tag_text(&raw.model);
            let captured_at = capture_time(dto, dt);
            let camera = camera_name(make, model);
            let orientation = match raw.orientation {
                Some(o) => if o <= 0xffffu32 { Some(o as u16) } else { None },
                None => None,
            };
            proof {
                assert(opt_view(camera) == camera_name_spec(opt_view(make), opt_view(model)));
            }
            ExifFacts { captured_at, camera, orientation }
        },
    }
}

} // verus!

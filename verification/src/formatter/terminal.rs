use vstd::prelude::*;
use vstd::string::StringSliceAdditionalSpecFns;
use vstd::utf8::{decode_utf8, encode_utf8, valid_utf8};
use crate::formatter::hexdump::{empty_data_text, empty_data_text_bytes};
use crate::message::{plain_decoration, spec_plain_decoration, Color, Content, ContentType, Decoration, Message};
use crate::text::{str_chars, string_from_utf8, utf8_of};
use crate::util::bytes_equal;

verus! {

/// The text encodings a connection can display.
#[derive(Debug, Clone, Copy, PartialEq, Eq, Structural)]
pub enum TextEncoding {
    Utf8,
    Utf16Le,
    Utf16Be,
    Gb18030,
    Big5,
    ShiftJis,
    EucJp,
    EucKr,
    /// ISO-8859-1 is decoded as its superset windows-1252.
    Windows1252,
}

/// The encoding name "utf-8".
pub open spec fn name_utf_8() -> Seq<u8> {
    seq![0x75u8, 0x74u8, 0x66u8, 0x2Du8, 0x38u8]
}

pub fn name_utf_8_bytes() -> (v: Vec<u8>)
    ensures
        v@ == name_utf_8(),
{
    let v = vec![0x75u8, 0x74u8, 0x66u8, 0x2Du8, 0x38u8];
    assert(v@ =~= name_utf_8());
    v
}

/// The encoding name "utf8".
pub open spec fn name_utf8() -> Seq<u8> {
    seq![0x75u8, 0x74u8, 0x66u8, 0x38u8]
}

pub fn name_utf8_bytes() -> (v: Vec<u8>)
    ensures
        v@ == name_utf8(),
{
    let v = vec![0x75u8, 0x74u8, 0x66u8, 0x38u8];
    assert(v@ =~= name_utf8());
    v
}

/// The encoding name "utf-16le".
pub open spec fn name_utf_16le() -> Seq<u8> {
    seq![0x75u8, 0x74u8, 0x66u8, 0x2Du8, 0x31u8, 0x36u8, 0x6Cu8, 0x65u8]
}

pub fn name_utf_16le_bytes() -> (v: Vec<u8>)
    ensures
        v@ == name_utf_16le(),
{
    let v = vec![0x75u8, 0x74u8, 0x66u8, 0x2Du8, 0x31u8, 0x36u8, 0x6Cu8, 0x65u8];
    assert(v@ =~= name_utf_16le());
    v
}

/// The encoding name "utf16le".
pub open spec fn name_utf16le() -> Seq<u8> {
    seq![0x75u8, 0x74u8, 0x66u8, 0x31u8, 0x36u8, 0x6Cu8, 0x65u8]
}

pub fn name_utf16le_bytes() -> (v: Vec<u8>)
    ensures
        v@ == name_utf16le(),
{
    let v = vec![0x75u8, 0x74u8, 0x66u8, 0x31u8, 0x36u8, 0x6Cu8, 0x65u8];
    assert(v@ =~= name_utf16le());
    v
}

/// The encoding name "utf-16be".
pub open spec fn name_utf_16be() -> Seq<u8> {
    seq![0x75u8, 0x74u8, 0x66u8, 0x2Du8, 0x31u8, 0x36u8, 0x62u8, 0x65u8]
}

pub fn name_utf_16be_bytes() -> (v: Vec<u8>)
    ensures
        v@ == name_utf_16be(),
{
    let v = vec![0x75u8, 0x74u8, 0x66u8, 0x2Du8, 0x31u8, 0x36u8, 0x62u8, 0x65u8];
    assert(v@ =~= name_utf_16be());
    v
}

/// The encoding name "utf16be".
pub open spec fn name_utf16be() -> Seq<u8> {
    seq![0x75u8, 0x74u8, 0x66u8, 0x31u8, 0x36u8, 0x62u8, 0x65u8]
}

pub fn name_utf16be_bytes() -> (v: Vec<u8>)
    ensures
        v@ == name_utf16be(),
{
    let v = vec![0x75u8, 0x74u8, 0x66u8, 0x31u8, 0x36u8, 0x62u8, 0x65u8];
    assert(v@ =~= name_utf16be());
    v
}

/// The encoding name "gb18030".
pub open spec fn name_gb18030() -> Seq<u8> {
    seq![0x67u8, 0x62u8, 0x31u8, 0x38u8, 0x30u8, 0x33u8, 0x30u8]
}

pub fn name_gb18030_bytes() -> (v: Vec<u8>)
    ensures
        v@ == name_gb18030(),
{
    let v = vec![0x67u8, 0x62u8, 0x31u8, 0x38u8, 0x30u8, 0x33u8, 0x30u8];
    assert(v@ =~= name_gb18030());
    v
}

/// The encoding name "big5".
pub open spec fn name_big5() -> Seq<u8> {
    seq![0x62u8, 0x69u8, 0x67u8, 0x35u8]
}

pub fn name_big5_bytes() -> (v: Vec<u8>)
    ensures
        v@ == name_big5(),
{
    let v = vec![0x62u8, 0x69u8, 0x67u8, 0x35u8];
    assert(v@ =~= name_big5());
    v
}

/// The encoding name "shift_jis".
pub open spec fn name_shift_jis() -> Seq<u8> {
    seq![0x73u8, 0x68u8, 0x69u8, 0x66u8, 0x74u8, 0x5Fu8, 0x6Au8, 0x69u8, 0x73u8]
}

pub fn name_shift_jis_bytes() -> (v: Vec<u8>)
    ensures
        v@ == name_shift_jis(),
{
    let v = vec![0x73u8, 0x68u8, 0x69u8, 0x66u8, 0x74u8, 0x5Fu8, 0x6Au8, 0x69u8, 0x73u8];
    assert(v@ =~= name_shift_jis());
    v
}

/// The encoding name "sjis".
pub open spec fn name_sjis() -> Seq<u8> {
    seq![0x73u8, 0x6Au8, 0x69u8, 0x73u8]
}

pub fn name_sjis_bytes() -> (v: Vec<u8>)
    ensures
        v@ == name_sjis(),
{
    let v = vec![0x73u8, 0x6Au8, 0x69u8, 0x73u8];
    assert(v@ =~= name_sjis());
    v
}

/// The encoding name "euc-jp".
pub open spec fn name_euc_jp() -> Seq<u8> {
    seq![0x65u8, 0x75u8, 0x63u8, 0x2Du8, 0x6Au8, 0x70u8]
}

pub fn name_euc_jp_bytes() -> (v: Vec<u8>)
    ensures
        v@ == name_euc_jp(),
{
    let v = vec![0x65u8, 0x75u8, 0x63u8, 0x2Du8, 0x6Au8, 0x70u8];
    assert(v@ =~= name_euc_jp());
    v
}

/// The encoding name "euc-kr".
pub open spec fn name_euc_kr() -> Seq<u8> {
    seq![0x65u8, 0x75u8, 0x63u8, 0x2Du8, 0x6Bu8, 0x72u8]
}

pub fn name_euc_kr_bytes() -> (v: Vec<u8>)
    ensures
        v@ == name_euc_kr(),
{
    let v = vec![0x65u8, 0x75u8, 0x63u8, 0x2Du8, 0x6Bu8, 0x72u8];
    assert(v@ =~= name_euc_kr());
    v
}

/// The encoding name "iso-8859-1".
pub open spec fn name_iso_8859_1() -> Seq<u8> {
    seq![0x69u8, 0x73u8, 0x6Fu8, 0x2Du8, 0x38u8, 0x38u8, 0x35u8, 0x39u8, 0x2Du8, 0x31u8]
}

pub fn name_iso_8859_1_bytes() -> (v: Vec<u8>)
    ensures
        v@ == name_iso_8859_1(),
{
    let v = vec![0x69u8, 0x73u8, 0x6Fu8, 0x2Du8, 0x38u8, 0x38u8, 0x35u8, 0x39u8, 0x2Du8, 0x31u8];
    assert(v@ =~= name_iso_8859_1());
    v
}

/// The encoding name "latin1".
pub open spec fn name_latin1() -> Seq<u8> {
    seq![0x6Cu8, 0x61u8, 0x74u8, 0x69u8, 0x6Eu8, 0x31u8]
}

pub fn name_latin1_bytes() -> (v: Vec<u8>)
    ensures
        v@ == name_latin1(),
{
    let v = vec![0x6Cu8, 0x61u8, 0x74u8, 0x69u8, 0x6Eu8, 0x31u8];
    assert(v@ =~= name_latin1());
    v
}


/// The encoding named by a lower-case name; UTF-8 for names not known.
pub open spec fn encoding_for_name(b: Seq<u8>) -> TextEncoding {
    if b == name_utf_8() || b == name_utf8() {
        TextEncoding::Utf8
    } else if b == name_utf_16le() || b == name_utf16le() {
        TextEncoding::Utf16Le
    } else if b == name_utf_16be() || b == name_utf16be() {
        TextEncoding::Utf16Be
    } else if b == name_gb18030() {
        TextEncoding::Gb18030
    } else if b == name_big5() {
        TextEncoding::Big5
    } else if b == name_shift_jis() || b == name_sjis() {
        TextEncoding::ShiftJis
    } else if b == name_euc_jp() {
        TextEncoding::EucJp
    } else if b == name_euc_kr() {
        TextEncoding::EucKr
    } else if b == name_iso_8859_1() || b == name_latin1() {
        TextEncoding::Windows1252
    } else {
        TextEncoding::Utf8
    }
}

/// ASCII text as bytes.
pub open spec fn ascii_bytes_of(cs: Seq<char>) -> Seq<u8> {
    cs.map_values(|c: char| c as u8)
}

/// The names of the encodings, in lower case, select them: "utf-8"/"utf8", "utf-16le"/
/// "utf16le", "utf-16be"/"utf16be", "gb18030", "big5", "shift_jis"/"sjis", "euc-jp",
/// "euc-kr", and "iso-8859-1"/"latin1" (decoded as windows-1252); any other name is UTF-8.
/// Text in a selected encoding is decoded as `encoding_rs` decodes it in that encoding.
pub proof fn lemma_encoding_names(b: Seq<u8>, bytes: Seq<u8>)
    ensures
        ({
            let names: Seq<(Seq<char>, TextEncoding)> = seq![
                (seq!['u', 't', 'f', '-', '8'], TextEncoding::Utf8),
                (seq!['u', 't', 'f', '8'], TextEncoding::Utf8),
                (seq!['u', 't', 'f', '-', '1', '6', 'l', 'e'], TextEncoding::Utf16Le),
                (seq!['u', 't', 'f', '1', '6', 'l', 'e'], TextEncoding::Utf16Le),
                (seq!['u', 't', 'f', '-', '1', '6', 'b', 'e'], TextEncoding::Utf16Be),
                (seq!['u', 't', 'f', '1', '6', 'b', 'e'], TextEncoding::Utf16Be),
                (seq!['g', 'b', '1', '8', '0', '3', '0'], TextEncoding::Gb18030),
                (seq!['b', 'i', 'g', '5'], TextEncoding::Big5),
                (seq!['s', 'h', 'i', 'f', 't', '_', 'j', 'i', 's'], TextEncoding::ShiftJis),
                (seq!['s', 'j', 'i', 's'], TextEncoding::ShiftJis),
                (seq!['e', 'u', 'c', '-', 'j', 'p'], TextEncoding::EucJp),
                (seq!['e', 'u', 'c', '-', 'k', 'r'], TextEncoding::EucKr),
                (seq!['i', 's', 'o', '-', '8', '8', '5', '9', '-', '1'], TextEncoding::Windows1252),
                (seq!['l', 'a', 't', 'i', 'n', '1'], TextEncoding::Windows1252),
            ];
            &&& forall|k: int| 0 <= k < names.len() ==> encoding_for_name(ascii_bytes_of(#[trigger] names[k].0))
                == names[k].1
            &&& (forall|k: int| 0 <= k < names.len() ==> b != ascii_bytes_of(#[trigger] names[k].0))
                ==> encoding_for_name(b) == TextEncoding::Utf8
            &&& forall|k: int| 0 <= k < names.len() && names[k].1 != TextEncoding::Utf8 ==> decode_text(
                encoding_for_name(ascii_bytes_of(#[trigger] names[k].0)), bytes) == encoding_decode(names[k].1, bytes)
        }),
{
    let names: Seq<(Seq<char>, TextEncoding)> = seq![
        (seq!['u', 't', 'f', '-', '8'], TextEncoding::Utf8),
        (seq!['u', 't', 'f', '8'], TextEncoding::Utf8),
        (seq!['u', 't', 'f', '-', '1', '6', 'l', 'e'], TextEncoding::Utf16Le),
        (seq!['u', 't', 'f', '1', '6', 'l', 'e'], TextEncoding::Utf16Le),
        (seq!['u', 't', 'f', '-', '1', '6', 'b', 'e'], TextEncoding::Utf16Be),
        (seq!['u', 't', 'f', '1', '6', 'b', 'e'], TextEncoding::Utf16Be),
        (seq!['g', 'b', '1', '8', '0', '3', '0'], TextEncoding::Gb18030),
        (seq!['b', 'i', 'g', '5'], TextEncoding::Big5),
        (seq!['s', 'h', 'i', 'f', 't', '_', 'j', 'i', 's'], TextEncoding::ShiftJis),
        (seq!['s', 'j', 'i', 's'], TextEncoding::ShiftJis),
        (seq!['e', 'u', 'c', '-', 'j', 'p'], TextEncoding::EucJp),
        (seq!['e', 'u', 'c', '-', 'k', 'r'], TextEncoding::EucKr),
        (seq!['i', 's', 'o', '-', '8', '8', '5', '9', '-', '1'], TextEncoding::Windows1252),
        (seq!['l', 'a', 't', 'i', 'n', '1'], TextEncoding::Windows1252),
    ];
    let spelled = seq![name_utf_8(), name_utf8(), name_utf_16le(), name_utf16le(), name_utf_16be(),
        name_utf16be(), name_gb18030(), name_big5(), name_shift_jis(), name_sjis(), name_euc_jp(),
        name_euc_kr(), name_iso_8859_1(), name_latin1()];
    assert forall|k: int| 0 <= k < names.len() implies ascii_bytes_of(#[trigger] names[k].0) == spelled[k] by {
        assert(ascii_bytes_of(names[k].0) =~= spelled[k]);
    }
    assert(ascii_bytes_of(names[0].0) == name_utf_8() && names[0].1 == TextEncoding::Utf8);
    assert(encoding_for_name(name_utf_8()) == TextEncoding::Utf8);
    assert(ascii_bytes_of(names[1].0) == name_utf8() && names[1].1 == TextEncoding::Utf8);
    assert(encoding_for_name(name_utf8()) == TextEncoding::Utf8);
    assert(ascii_bytes_of(names[2].0) == name_utf_16le() && names[2].1 == TextEncoding::Utf16Le);
    assert(encoding_for_name(name_utf_16le()) == TextEncoding::Utf16Le);
    assert(ascii_bytes_of(names[3].0) == name_utf16le() && names[3].1 == TextEncoding::Utf16Le);
    assert(encoding_for_name(name_utf16le()) == TextEncoding::Utf16Le);
    assert(ascii_bytes_of(names[4].0) == name_utf_16be() && names[4].1 == TextEncoding::Utf16Be);
    assert(encoding_for_name(name_utf_16be()) == TextEncoding::Utf16Be);
    assert(ascii_bytes_of(names[5].0) == name_utf16be() && names[5].1 == TextEncoding::Utf16Be);
    assert(encoding_for_name(name_utf16be()) == TextEncoding::Utf16Be);
    assert(ascii_bytes_of(names[6].0) == name_gb18030() && names[6].1 == TextEncoding::Gb18030);
    assert(encoding_for_name(name_gb18030()) == TextEncoding::Gb18030);
    assert(ascii_bytes_of(names[7].0) == name_big5() && names[7].1 == TextEncoding::Big5);
    assert(encoding_for_name(name_big5()) == TextEncoding::Big5);
    assert(ascii_bytes_of(names[8].0) == name_shift_jis() && names[8].1 == TextEncoding::ShiftJis);
    assert(encoding_for_name(name_shift_jis()) == TextEncoding::ShiftJis);
    assert(ascii_bytes_of(names[9].0) == name_sjis() && names[9].1 == TextEncoding::ShiftJis);
    assert(encoding_for_name(name_sjis()) == TextEncoding::ShiftJis);
    assert(ascii_bytes_of(names[10].0) == name_euc_jp() && names[10].1 == TextEncoding::EucJp);
    assert(encoding_for_name(name_euc_jp()) == TextEncoding::EucJp);
    assert(ascii_bytes_of(names[11].0) == name_euc_kr() && names[11].1 == TextEncoding::EucKr);
    assert(encoding_for_name(name_euc_kr()) == TextEncoding::EucKr);
    assert(ascii_bytes_of(names[12].0) == name_iso_8859_1() && names[12].1 == TextEncoding::Windows1252);
    assert(encoding_for_name(name_iso_8859_1()) == TextEncoding::Windows1252);
    assert(ascii_bytes_of(names[13].0) == name_latin1() && names[13].1 == TextEncoding::Windows1252);
    assert(encoding_for_name(name_latin1()) == TextEncoding::Windows1252);
    assert forall|k: int| 0 <= k < names.len() implies encoding_for_name(ascii_bytes_of(#[trigger] names[k].0))
        == names[k].1 by {
        if k == 0 {
        } else if k == 1 {
        } else if k == 2 {
        } else if k == 3 {
        } else if k == 4 {
        } else if k == 5 {
        } else if k == 6 {
        } else if k == 7 {
        } else if k == 8 {
        } else if k == 9 {
        } else if k == 10 {
        } else if k == 11 {
        } else if k == 12 {
        } else if k == 13 {
        }
    }
}

/// What `str::to_lowercase` returns for a string (Unicode lower-case mapping).
pub uninterp spec fn unicode_lowercase(s: Seq<char>) -> Seq<char>;

/// `str::to_lowercase`: the Unicode lower-case form of `s`.
#[verifier::external_body]
fn to_lowercase(s: &str) -> (r: String)
    ensures
        r@ == unicode_lowercase(s@),
{
    s.to_lowercase()
}

/// The encoding for a configured name, matched case-insensitively; UTF-8 when unknown.
pub fn get_encoding_from_name(name: &str) -> (e: TextEncoding)
    ensures
        e == encoding_for_name(encode_utf8(unicode_lowercase(name@))),
{
    let lower = to_lowercase(name);
    encoding_for_lowercase_name(lower.as_str())
}

/// The encoding for a name already in lower case; UTF-8 when unknown.
pub fn encoding_for_lowercase_name(lower: &str) -> (e: TextEncoding)
    ensures
        e == encoding_for_name(lower.spec_bytes()),
{
    let b = lower.as_bytes();
    if bytes_equal(b, name_utf_8_bytes().as_slice()) || bytes_equal(b, name_utf8_bytes().as_slice()) {
        TextEncoding::Utf8
    } else if bytes_equal(b, name_utf_16le_bytes().as_slice()) || bytes_equal(b, name_utf16le_bytes().as_slice()) {
        TextEncoding::Utf16Le
    } else if bytes_equal(b, name_utf_16be_bytes().as_slice()) || bytes_equal(b, name_utf16be_bytes().as_slice()) {
        TextEncoding::Utf16Be
    } else if bytes_equal(b, name_gb18030_bytes().as_slice()) {
        TextEncoding::Gb18030
    } else if bytes_equal(b, name_big5_bytes().as_slice()) {
        TextEncoding::Big5
    } else if bytes_equal(b, name_shift_jis_bytes().as_slice()) || bytes_equal(b, name_sjis_bytes().as_slice()) {
        TextEncoding::ShiftJis
    } else if bytes_equal(b, name_euc_jp_bytes().as_slice()) {
        TextEncoding::EucJp
    } else if bytes_equal(b, name_euc_kr_bytes().as_slice()) {
        TextEncoding::EucKr
    } else if bytes_equal(b, name_iso_8859_1_bytes().as_slice()) || bytes_equal(b, name_latin1_bytes().as_slice()) {
        TextEncoding::Windows1252
    } else {
        TextEncoding::Utf8
    }
}

/// What `encoding_rs`'s `Encoding::decode` gives for `bytes` (a byte-order mark may switch the
/// encoding), when it reports no malformed input.
pub uninterp spec fn encoding_decode(enc: TextEncoding, bytes: Seq<u8>) -> Option<Seq<char>>;

/// `encoding_rs::Encoding::decode` with the encoding `enc` stands for; `None` when it reports
/// malformed input.
#[verifier::external_body]
fn decode_with_encoding(enc: TextEncoding, bytes: &[u8]) -> (r: Option<String>)
    ensures
        match r {
            Some(s) => encoding_decode(enc, bytes@) == Some(s@),
            None => encoding_decode(enc, bytes@) is None,
        },
{
    let e = match enc {
        TextEncoding::Utf8 => encoding_rs::UTF_8,
        TextEncoding::Utf16Le => encoding_rs::UTF_16LE,
        TextEncoding::Utf16Be => encoding_rs::UTF_16BE,
        TextEncoding::Gb18030 => encoding_rs::GB18030,
        TextEncoding::Big5 => encoding_rs::BIG5,
        TextEncoding::ShiftJis => encoding_rs::SHIFT_JIS,
        TextEncoding::EucJp => encoding_rs::EUC_JP,
        TextEncoding::EucKr => encoding_rs::EUC_KR,
        TextEncoding::Windows1252 => encoding_rs::WINDOWS_1252,
    };
    let (text, _, had_errors) = e.decode(bytes);
    if had_errors { None } else { Some(text.into_owned()) }
}

/// The characters `bytes` decode to: UTF-8 is checked strictly; other encodings go through
/// `encoding_rs`.
pub open spec fn decode_text(enc: TextEncoding, bytes: Seq<u8>) -> Option<Seq<char>> {
    if enc == TextEncoding::Utf8 {
        if valid_utf8(bytes) { Some(decode_utf8(bytes)) } else { None }
    } else {
        encoding_decode(enc, bytes)
    }
}

/// Line endings made uniform: CR LF and a lone CR both become LF.
pub open spec fn normalized(cs: Seq<char>) -> Seq<char>
    decreases cs.len(),
{
    if cs.len() == 0 {
        seq![]
    } else if cs[0] == '\r' && cs.len() > 1 && cs[1] == '\n' {
        seq!['\n'] + normalized(cs.skip(2))
    } else if cs[0] == '\r' {
        seq!['\n'] + normalized(cs.skip(1))
    } else {
        seq![cs[0]] + normalized(cs.skip(1))
    }
}

/// Decodes `bytes` and normalizes its line endings.
fn decode_bytes(bytes: &[u8], encoding: TextEncoding) -> (r: Option<Vec<char>>)
    ensures
        match decode_text(encoding, bytes@) {
            Some(cs) => r matches Some(v) && v@ == normalized(cs),
            None => r is None,
        },
{
    let s = if encoding == TextEncoding::Utf8 {
        string_from_utf8(crate::util::copy_range(bytes, 0, bytes.len()))
    } else {
        decode_with_encoding(encoding, bytes)
    };
    proof {
        assert(bytes@.subrange(0, bytes@.len() as int) =~= bytes@);
    }
    match s {
        Some(text) => {
            let cs = str_chars(text.as_str());
            Some(normalize_line_endings(cs.as_slice()))
        },
        None => None,
    }
}

/// Converts CR LF and lone CR to LF: the result is `replace("\r\n", "\n")` followed by
/// `replace('\r', "\n")`, holds no CR, and normalizing it again changes nothing.
pub fn normalize_line_endings(text: &[char]) -> (r: Vec<char>)
    ensures
        r@ == normalized(text@),
        r@ == replaced(replaced(text@, seq!['\r', '\n'], seq!['\n']), seq!['\r'], seq!['\n']),
        forall|i: int| 0 <= i < r@.len() ==> #[trigger] r@[i] != '\r',
        normalized(r@) == r@,
{
    let n = text.len();
    let mut out: Vec<char> = Vec::new();
    let mut i: usize = 0;
    assert(text@.skip(0) =~= text@);
    while i < n
        invariant
            i <= n,
            n == text@.len(),
            out@ + normalized(text@.skip(i as int)) == normalized(text@),
        decreases n - i,
    {
        let ghost rest = text@.skip(i as int);
        let ghost before = out@;
        if text[i] == '\r' && i + 1 < n && text[i + 1] == '\n' {
            out.push('\n');
            assert(rest.skip(2) =~= text@.skip(i + 2));
            assert(out@ + normalized(text@.skip(i + 2)) =~= before + normalized(rest));
            i = i + 2;
        } else {
            let c = if text[i] == '\r' { '\n' } else { text[i] };
            out.push(c);
            assert(rest.skip(1) =~= text@.skip(i + 1));
            assert(out@ + normalized(text@.skip(i + 1)) =~= before + normalized(rest));
            i = i + 1;
        }
    }
    assert(out@ + normalized(text@.skip(n as int)) =~= out@);
    proof {
        lemma_normalized_idempotent(text@);
        lemma_normalized_is_two_replaces(text@);
    }
    out
}

/// Control characters (general category Cc): U+0000 to U+001F and U+007F to U+009F.
pub open spec fn spec_is_control(c: char) -> bool {
    (c as u32) <= 0x1F || (0x7F <= (c as u32) && (c as u32) <= 0x9F)
}

/// Printable characters and the common whitespace LF, CR and tab.
pub open spec fn spec_viewable(c: char) -> bool {
    !spec_is_control(c) || c == '\n' || c == '\r' || c == '\t'
}

/// Whether a character is viewable.
pub fn is_viewable_char(c: char) -> (r: bool)
    ensures
        r == spec_viewable(c),
{
    let control = c <= '\u{1F}' || ('\u{7F}' <= c && c <= '\u{9F}');
    !control || c == '\n' || c == '\r' || c == '\t'
}

/// How many characters are not viewable.
pub open spec fn non_viewable_count(cs: Seq<char>) -> nat
    decreases cs.len(),
{
    if cs.len() == 0 {
        0
    } else {
        non_viewable_count(cs.drop_last()) + if spec_viewable(cs.last()) { 0nat } else { 1nat }
    }
}

proof fn lemma_non_viewable_bound(cs: Seq<char>)
    ensures
        non_viewable_count(cs) <= cs.len(),
    decreases cs.len(),
{
    if cs.len() > 0 {
        lemma_non_viewable_bound(cs.drop_last());
    }
}

/// Whether more than a tenth of the characters are not viewable.
pub open spec fn too_many_non_viewable(cs: Seq<char>) -> bool {
    non_viewable_count(cs) * 10 > cs.len()
}

/// Counts the non-viewable characters against the total.
fn too_many_in(cs: &[char]) -> (r: bool)
    ensures
        r == too_many_non_viewable(cs@),
{
    let n = cs.len();
    let mut bad: usize = 0;
    let mut i: usize = 0;
    while i < n
        invariant
            i <= n,
            n == cs@.len(),
            bad == non_viewable_count(cs@.take(i as int)),
            bad <= i,
        decreases n - i,
    {
        proof {
            assert(cs@.take(i + 1).drop_last() =~= cs@.take(i as int));
        }
        if !is_viewable_char(cs[i]) {
            bad = bad + 1;
        }
        i = i + 1;
    }
    assert(cs@.take(n as int) =~= cs@);
    if bad > n / 10 {
        assert(bad * 10 > n);
        true
    } else {
        assert(bad * 10 <= n);
        false
    }
}

/// Whether more than 10% of the characters of `text` are not viewable.
pub fn has_too_many_non_viewable_chars(text: &str) -> (r: bool)
    ensures
        r == too_many_non_viewable(text@),
{
    let cs = str_chars(text);
    too_many_in(cs.as_slice())
}


/// The first occurrence of `pat` in `text` at or after `from`.
pub open spec fn first_match_from(text: Seq<char>, pat: Seq<char>, from: int) -> Option<int>
    decreases text.len() + 1 - from,
{
    if from < 0 || from + pat.len() > text.len() {
        None
    } else if text.subrange(from, from + pat.len()) == pat {
        Some(from)
    } else {
        first_match_from(text, pat, from + 1)
    }
}

proof fn lemma_first_match_bounds(text: Seq<char>, pat: Seq<char>, from: int)
    ensures
        first_match_from(text, pat, from) matches Some(p) ==> from <= p && p + pat.len() <= text.len()
            && text.subrange(p, p + pat.len()) == pat,
    decreases text.len() + 1 - from,
{
    if !(from < 0 || from + pat.len() > text.len()) && text.subrange(from, from + pat.len()) != pat {
        lemma_first_match_bounds(text, pat, from + 1);
    }
}

/// The text from `last` on, cut at each occurrence of `pat` found left to right without
/// overlap: plain runs between occurrences (when not empty) and the occurrences themselves,
/// marked `true`.
pub open spec fn highlight_segments(text: Seq<char>, pat: Seq<char>, last: int) -> Seq<(bool, Seq<char>)>
    decreases text.len() - last,
{
    match first_match_from(text, pat, last) {
        None => if 0 <= last < text.len() { seq![(false, text.subrange(last, text.len() as int))] } else { seq![] },
        Some(p) => if pat.len() > 0 && last <= p && p + pat.len() <= text.len() {
            (if p > last { seq![(false, text.subrange(last, p))] } else { seq![] })
                + seq![(true, text.subrange(p, p + pat.len()))]
                + highlight_segments(text, pat, p + pat.len())
        } else {
            seq![]
        },
    }
}

/// The text without one trailing line feed.
pub open spec fn strip_newline(cs: Seq<char>) -> Seq<char> {
    if cs.len() > 0 && cs.last() == '\n' { cs.drop_last() } else { cs }
}

/// The decoded search pattern, when highlighting applies: a non-empty pattern that decodes to
/// non-empty text.
pub open spec fn search_text(enc: TextEncoding, highlight: Option<Seq<u8>>) -> Option<Seq<char>> {
    match highlight {
        Some(h) => if h.len() > 0 {
            match decode_text(enc, h) {
                Some(pc) => if normalized(pc).len() > 0 { Some(normalized(pc)) } else { None },
                None => None,
            }
        } else {
            None
        },
        None => None,
    }
}

/// The shown segments of `text`: cut at the occurrences of the search text, or the text whole
/// when there is none.
pub open spec fn terminal_segments(text: Seq<char>, search: Option<Seq<char>>) -> Seq<(bool, Seq<char>)> {
    match search {
        Some(p) => if highlight_segments(text, p, 0).len() > 0 { highlight_segments(text, p, 0) } else { seq![(false, text)] },
        None => seq![(false, text)],
    }
}

/// Whether the search text occurs in `text`.
pub open spec fn terminal_highlighted(text: Seq<char>, search: Option<Seq<char>>) -> bool {
    match search {
        Some(p) => first_match_from(text, p, 0) is Some,
        None => false,
    }
}

/// Decoration of highlighted text: error colour, bold.
pub open spec fn highlight_decoration() -> Decoration {
    Decoration { color: Color::Error, bold: true, ..spec_plain_decoration() }
}

/// Decoration of the empty-frame placeholder: muted colour, italic.
pub open spec fn placeholder_decoration() -> Decoration {
    Decoration { color: Color::OnSurfaceVariant, italic: true, ..spec_plain_decoration() }
}

/// Whether `contents` show the segments as rich text, highlighted ones decorated.
pub open spec fn segments_shown(contents: Seq<Content>, segs: Seq<(bool, Seq<char>)>) -> bool {
    &&& contents.len() == segs.len()
    &&& forall|i: int| 0 <= i < segs.len() ==> {
        let c = #[trigger] contents[i];
        &&& c.content_type == ContentType::RichText
        &&& c.decoration == if segs[i].0 { highlight_decoration() } else { spec_plain_decoration() }
        &&& c.payload@ == encode_utf8(segs[i].1)
        &&& c.label is None
    }
}

/// Whether `pat` occurs in `text` at `at`.
fn matches_at(text: &[char], pat: &[char], at: usize) -> (r: bool)
    requires
        at + pat@.len() <= text@.len(),
    ensures
        r == (text@.subrange(at as int, at + pat@.len()) == pat@),
{
    let m = pat.len();
    let n = text.len();
    let mut j: usize = 0;
    while j < m
        invariant
            j <= m,
            n == text@.len(),
            m == pat@.len(),
            at + m <= text@.len(),
            forall|t: int| 0 <= t < j ==> text@[at + t] == pat@[t],
        decreases m - j,
    {
        if text[at + j] != pat[j] {
            assert(text@.subrange(at as int, at + m)[j as int] != pat@[j as int]);
            return false;
        }
        j = j + 1;
    }
    assert(text@.subrange(at as int, at + m) =~= pat@);
    true
}

/// Finds the first occurrence of `pat` at or after `from`.
fn find_from(text: &[char], pat: &[char], from: usize) -> (r: Option<usize>)
    ensures
        match r {
            Some(p) => first_match_from(text@, pat@, from as int) == Some(p as int),
            None => first_match_from(text@, pat@, from as int) is None,
        },
{
    let n = text.len();
    let m = pat.len();
    let mut at = from;
    while at <= n && m <= n - at
        invariant
            n == text@.len(),
            m == pat@.len(),
            from <= at,
            first_match_from(text@, pat@, from as int) == first_match_from(text@, pat@, at as int),
        decreases n + 1 - at,
    {
        if matches_at(text, pat, at) {
            return Some(at);
        }
        if m == 0 {
            assert(text@.subrange(at as int, at as int) =~= pat@);
        }
        at = at + 1;
    }
    None
}

/// Appends a rich-text content showing `cs`.
fn push_text(out: &mut Vec<Content>, cs: &[char], highlighted: bool, Ghost(segs): Ghost<Seq<(bool, Seq<char>)>>)
    requires
        segments_shown(old(out)@, segs),
    ensures
        segments_shown(final(out)@, segs.push((highlighted, cs@))),
{
    let mut d = plain_decoration();
    if highlighted {
        d.color = Color::Error;
        d.bold = true;
    }
    let c = Content { content_type: ContentType::RichText, decoration: d, payload: utf8_of(cs), label: None };
    let ghost before = out@;
    out.push(c);
    proof {
        let s2 = segs.push((highlighted, cs@));
        assert forall|i: int| 0 <= i < s2.len() implies {
            let c = #[trigger] out@[i];
            &&& c.content_type == ContentType::RichText
            &&& c.decoration == if s2[i].0 { highlight_decoration() } else { spec_plain_decoration() }
            &&& c.payload@ == encode_utf8(s2[i].1)
            &&& c.label is None
        } by {
            if i < segs.len() {
                assert(out@[i] == before[i]);
            }
        }
    }
}

/// Cuts `text` at the occurrences of `pat`; also says whether there was one.
fn highlight_contents(text: &[char], pat: &[char]) -> (r: (Vec<Content>, bool))
    requires
        pat@.len() > 0,
    ensures
        segments_shown(r.0@, highlight_segments(text@, pat@, 0)),
        r.1 == first_match_from(text@, pat@, 0) is Some,
{
    let n = text.len();
    let m = pat.len();
    let mut out: Vec<Content> = Vec::new();
    let mut last: usize = 0;
    let mut any = false;
    let ghost mut done: Seq<(bool, Seq<char>)> = seq![];
    loop
        invariant
            n == text@.len(),
            m == pat@.len(),
            m > 0,
            last <= n,
            segments_shown(out@, done),
            done + highlight_segments(text@, pat@, last as int) == highlight_segments(text@, pat@, 0),
            any == (last > 0),
            any || last == 0,
            !any ==> done.len() == 0,
            any ==> first_match_from(text@, pat@, 0) is Some,
        decreases n - last,
    {
        proof {
            lemma_first_match_bounds(text@, pat@, last as int);
        }
        match find_from(text, pat, last) {
            Some(p) => {
                let ghost segs0 = done;
                let ghost tail = highlight_segments(text@, pat@, (p + m) as int);
                if p > last {
                    push_text(&mut out, &text[last..p], false, Ghost(done));
                    proof { done = done.push((false, text@.subrange(last as int, p as int))); }
                }
                push_text(&mut out, &text[p..p + m], true, Ghost(done));
                proof {
                    done = done.push((true, text@.subrange(p as int, p + m)));
                    assert(segs0 + highlight_segments(text@, pat@, last as int) =~= done + tail) by {
                        if p > last {
                            assert(highlight_segments(text@, pat@, last as int) =~= seq![(false, text@.subrange(last as int, p as int))]
                                + seq![(true, text@.subrange(p as int, p + m))] + tail);
                        } else {
                            assert(highlight_segments(text@, pat@, last as int) =~= seq![(true, text@.subrange(p as int, p + m))] + tail);
                        }
                    }
                    if !any {
                        assert(first_match_from(text@, pat@, 0) == Some(p as int));
                    }
                }
                last = p + m;
                any = true;
            },
            None => {
                if last < n {
                    push_text(&mut out, &text[last..n], false, Ghost(done));
                    proof {
                        assert(done + highlight_segments(text@, pat@, last as int) =~= done.push((false, text@.subrange(last as int, n as int))));
                    }
                } else {
                    assert(done + highlight_segments(text@, pat@, last as int) =~= done);
                }
                proof {
                    if !any {
                        assert(first_match_from(text@, pat@, 0) is None);
                    }
                }
                return (out, any);
            },
        }
    }
}

/// What text formatting does to a message: one that already has contents is left alone; an
/// empty frame gets the placeholder text; a frame that does not decode, or whose text is more
/// than a tenth unviewable, is shown as hex; otherwise its text (line endings normalised, a
/// final newline dropped) is shown in segments, with `highlight` (decoded) marked.
pub open spec fn terminal_formatted(old: Message, new: Message, encoding: TextEncoding, highlight: Option<Seq<u8>>) -> bool {
    &&& old.contents@.len() > 0 ==> new == old
    &&& old.contents@.len() == 0 && old.frame@.len() == 0 ==> {
        &&& new == (Message { contents: new.contents, highlighted: false, display_hex: false, ..old })
        &&& new.contents@.len() == 1
        &&& new.contents@[0].content_type == ContentType::RichText
        &&& new.contents@[0].decoration == placeholder_decoration()
        &&& new.contents@[0].payload@ == empty_data_text()
        &&& new.contents@[0].label is None
    }
    &&& old.contents@.len() == 0 && old.frame@.len() > 0 ==> match decode_text(encoding, old.frame@) {
        None => new == (Message { display_hex: true, highlighted: false, ..old }),
        Some(cs) => {
            let text = strip_newline(normalized(cs));
            let search = search_text(encoding, highlight);
            if too_many_non_viewable(text) {
                new == (Message { display_hex: true, highlighted: false, ..old })
            } else {
                &&& new == (Message {
                    contents: new.contents,
                    display_hex: false,
                    highlighted: terminal_highlighted(text, search),
                    ..old
                })
                &&& segments_shown(new.contents@, terminal_segments(text, search))
            }
        },
    }
}

/// Renders `message.frame` as text in `message.contents` when it has none: the frame is decoded
/// with `encoding`, line endings are normalized and one trailing line feed dropped. A frame
/// that does not decode, or whose text is more than 10% non-viewable characters, is marked for
/// hex display instead. Occurrences of `highlight_bytes` (decoded the same way) are shown
/// highlighted.
pub fn format_terminal(message: &mut Message, encoding: TextEncoding, highlight_bytes: Option<&[u8]>)
    ensures
        terminal_formatted(*old(message), *final(message), encoding,
            match highlight_bytes { Some(h) => Some(h@), None => None }),
{
    if message.contents.len() > 0 {
        return;
    }
    if message.frame.len() == 0 {
        let mut d = plain_decoration();
        d.color = Color::OnSurfaceVariant;
        d.italic = true;
        let mut contents: Vec<Content> = Vec::new();
        contents.push(Content { content_type: ContentType::RichText, decoration: d, payload: empty_data_text_bytes(), label: None });
        message.contents = contents;
        message.highlighted = false;
        message.display_hex = false;
        return;
    }
    let decoded = decode_bytes(message.frame.as_slice(), encoding);
    let normal = match decoded {
        Some(v) => v,
        None => {
            message.display_hex = true;
            message.highlighted = false;
            return;
        },
    };
    let ghost norm = normal@;
    let mut text = normal;
    let tn = text.len();
    if tn > 0 && text[tn - 1] == '\n' {
        text.pop();
    }
    assert(text@ == strip_newline(norm));
    if too_many_in(text.as_slice()) {
        message.display_hex = true;
        message.highlighted = false;
        return;
    }
    message.display_hex = false;
    let ghost search = search_text(encoding, match highlight_bytes { Some(h) => Some(h@), None => None });
    let pattern: Option<Vec<char>> = match highlight_bytes {
        Some(h) => if h.len() > 0 {
            match decode_bytes(h, encoding) {
                Some(p) => if p.len() > 0 { Some(p) } else { None },
                None => None,
            }
        } else {
            None
        },
        None => None,
    };
    assert(match pattern { Some(p) => search == Some(p@), None => search is None });
    let mut whole: Vec<Content> = Vec::new();
    push_text(&mut whole, text.as_slice(), false, Ghost(Seq::<(bool, Seq<char>)>::empty()));
    assert(Seq::<(bool, Seq<char>)>::empty().push((false, text@)) =~= seq![(false, text@)]);
    match pattern {
        Some(p) => {
            let (cut, any) = highlight_contents(text.as_slice(), p.as_slice());
            if cut.len() > 0 {
                message.contents = cut;
            } else {
                message.contents = whole;
            }
            message.highlighted = any;
        },
        None => {
            message.contents = whole;
            message.highlighted = false;
        },
    }
}


/// Normalized text holds no carriage return.
pub proof fn lemma_normalized_no_cr(cs: Seq<char>)
    ensures
        forall|i: int| 0 <= i < normalized(cs).len() ==> #[trigger] normalized(cs)[i] != '\r',
    decreases cs.len(),
{
    if cs.len() > 0 {
        if cs[0] == '\r' && cs.len() > 1 && cs[1] == '\n' {
            lemma_normalized_no_cr(cs.skip(2));
        } else {
            lemma_normalized_no_cr(cs.skip(1));
        }
        let n = normalized(cs);
        assert forall|i: int| 0 <= i < n.len() implies #[trigger] n[i] != '\r' by {
            if i > 0 {
                if cs[0] == '\r' && cs.len() > 1 && cs[1] == '\n' {
                    assert(n[i] == normalized(cs.skip(2))[i - 1]);
                } else {
                    assert(n[i] == normalized(cs.skip(1))[i - 1]);
                }
            }
        }
    }
}

/// Text with no CR is already normalized.
proof fn lemma_normalized_keeps_cr_free(cs: Seq<char>)
    requires
        forall|i: int| 0 <= i < cs.len() ==> #[trigger] cs[i] != '\r',
    ensures
        normalized(cs) == cs,
    decreases cs.len(),
{
    if cs.len() > 0 {
        assert(cs[0] != '\r');
        assert forall|i: int| 0 <= i < cs.skip(1).len() implies #[trigger] cs.skip(1)[i] != '\r' by {
            assert(cs.skip(1)[i] == cs[i + 1]);
        }
        lemma_normalized_keeps_cr_free(cs.skip(1));
        assert(seq![cs[0]] + cs.skip(1) =~= cs);
    }
}

/// Normalizing line endings twice changes nothing more than once: the result holds no CR, and
/// text without CR is left as it is.
pub proof fn lemma_normalized_idempotent(cs: Seq<char>)
    ensures
        normalized(normalized(cs)) == normalized(cs),
        forall|i: int| 0 <= i < normalized(cs).len() ==> #[trigger] normalized(cs)[i] != '\r',
{
    lemma_normalized_no_cr(cs);
    lemma_normalized_keeps_cr_free(normalized(cs));
}

/// `s` with each occurrence of `pat` replaced by `rep`, occurrences taken left to right
/// without overlap (as `str::replace` does).
pub open spec fn replaced(s: Seq<char>, pat: Seq<char>, rep: Seq<char>) -> Seq<char>
    decreases s.len(),
{
    if s.len() == 0 {
        Seq::empty()
    } else if pat.len() > 0 && pat.len() <= s.len() && s.take(pat.len() as int) == pat {
        rep + replaced(s.skip(pat.len() as int), pat, rep)
    } else {
        seq![s[0]] + replaced(s.skip(1), pat, rep)
    }
}

/// Replacing a lone CR, past a first character that is not one.
proof fn lemma_replaced_cr_head(c: char, x: Seq<char>)
    ensures
        replaced(seq![c] + x, seq!['\r'], seq!['\n']) == if c == '\r' {
            seq!['\n'] + replaced(x, seq!['\r'], seq!['\n'])
        } else {
            seq![c] + replaced(x, seq!['\r'], seq!['\n'])
        },
{
    let s = seq![c] + x;
    assert(s.skip(1) =~= x);
    assert(s[0] == c);
    if c == '\r' {
        assert(s.take(1) =~= seq!['\r']);
    } else {
        assert(s.take(1) != seq!['\r']) by {
            assert(s.take(1)[0] == c);
        }
    }
}

/// Line-ending normalisation is `replace("\r\n", "\n")` followed by `replace('\r', "\n")`.
pub proof fn lemma_normalized_is_two_replaces(cs: Seq<char>)
    ensures
        normalized(cs) == replaced(replaced(cs, seq!['\r', '\n'], seq!['\n']), seq!['\r'], seq!['\n']),
    decreases cs.len(),
{
    let crlf = seq!['\r', '\n'];
    let lf = seq!['\n'];
    let cr = seq!['\r'];
    if cs.len() > 0 {
        if cs.len() >= 2 && cs[0] == '\r' && cs[1] == '\n' {
            assert(cs.take(2) =~= crlf);
            lemma_normalized_is_two_replaces(cs.skip(2));
            lemma_replaced_cr_head('\n', replaced(cs.skip(2), crlf, lf));
        } else {
            assert(cs.len() < 2 || cs.take(2) != crlf) by {
                if cs.len() >= 2 && cs.take(2) == crlf {
                    assert(cs.take(2)[0] == cs[0]);
                    assert(cs.take(2)[1] == cs[1]);
                }
            }
            lemma_normalized_is_two_replaces(cs.skip(1));
            lemma_replaced_cr_head(cs[0], replaced(cs.skip(1), crlf, lf));
        }
    }
}

/// The texts of segments, one after another.
pub open spec fn concat_texts(segs: Seq<(bool, Seq<char>)>) -> Seq<char>
    decreases segs.len(),
{
    if segs.len() == 0 {
        seq![]
    } else {
        concat_texts(segs.drop_last()) + segs.last().1
    }
}

proof fn lemma_concat_texts_append(a: Seq<(bool, Seq<char>)>, b: Seq<(bool, Seq<char>)>)
    ensures
        concat_texts(a + b) == concat_texts(a) + concat_texts(b),
    decreases b.len(),
{
    if b.len() == 0 {
        assert(a + b =~= a);
        assert(concat_texts(a) + seq![] =~= concat_texts(a));
    } else {
        lemma_concat_texts_append(a, b.drop_last());
        assert((a + b).drop_last() =~= a + b.drop_last());
        assert((a + b).last() == b.last());
        assert(concat_texts(a) + concat_texts(b.drop_last()) + b.last().1 =~= concat_texts(a) + (concat_texts(b.drop_last()) + b.last().1));
    }
}

/// Highlighting cuts the text without losing or adding anything, and every highlighted piece
/// is an occurrence of the search text.
pub proof fn lemma_highlight_partition(text: Seq<char>, pat: Seq<char>, last: int)
    requires
        pat.len() > 0,
        0 <= last <= text.len(),
    ensures
        concat_texts(highlight_segments(text, pat, last)) == text.subrange(last, text.len() as int),
        forall|i: int| 0 <= i < highlight_segments(text, pat, last).len() && (#[trigger] highlight_segments(text, pat, last)[i]).0
            ==> highlight_segments(text, pat, last)[i].1 == pat,
    decreases text.len() - last,
{
    lemma_first_match_bounds(text, pat, last);
    match first_match_from(text, pat, last) {
        None => {
            if last < text.len() {
                let one = seq![(false, text.subrange(last, text.len() as int))];
                assert(concat_texts(one) =~= concat_texts(one.drop_last()) + one.last().1);
                assert(one.drop_last() =~= Seq::<(bool, Seq<char>)>::empty());
            } else {
                assert(text.subrange(last, text.len() as int) =~= Seq::<char>::empty());
            }
        },
        Some(p) => {
            let q = p + pat.len();
            lemma_highlight_partition(text, pat, q);
            let before: Seq<(bool, Seq<char>)> = if p > last { seq![(false, text.subrange(last, p))] } else { seq![] };
            let hit = seq![(true, text.subrange(p, q))];
            let rest = highlight_segments(text, pat, q);
            assert(highlight_segments(text, pat, last) == before + hit + rest);
            lemma_concat_texts_append(before + hit, rest);
            lemma_concat_texts_append(before, hit);
            assert(concat_texts(hit) =~= text.subrange(p, q)) by {
                assert(hit.drop_last() =~= Seq::<(bool, Seq<char>)>::empty());
                assert(concat_texts(hit.drop_last()) =~= Seq::<char>::empty());
                assert(hit.last().1 == text.subrange(p, q));
            }
            if p > last {
                assert(concat_texts(before) =~= text.subrange(last, p)) by {
                    assert(before.drop_last() =~= Seq::<(bool, Seq<char>)>::empty());
                    assert(concat_texts(before.drop_last()) =~= Seq::<char>::empty());
                    assert(before.last().1 == text.subrange(last, p));
                }
            } else {
                assert(concat_texts(before) =~= Seq::<char>::empty());
            }
            assert(text.subrange(last, p) + text.subrange(p, q) + text.subrange(q, text.len() as int) =~= text.subrange(last, text.len() as int));
            let all = before + hit + rest;
            assert forall|i: int| 0 <= i < all.len() && (#[trigger] all[i]).0 implies all[i].1 == pat by {
                if i < before.len() {
                } else if i == before.len() {
                } else {
                    assert(all[i] == rest[i - before.len() - 1]);
                }
            }
        },
    }
}

} // verus!

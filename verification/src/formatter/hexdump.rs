use vstd::prelude::*;
use crate::message::{plain_decoration, spec_plain_decoration, Color, Content, ContentType, Decoration, Message};
use crate::text::{decimal, hex2_lower, hex_lower, hex_lower_digit, push_decimal};
use crate::util::copy_range;

verus! {

/// At most this many leading frame bytes are dumped.
pub const MAX_HEXDUMP_BYTES: usize = 16384;

/// Bytes per dump line.
pub const BYTES_PER_LINE: usize = 16;

/// The placeholder shown for an empty frame.
pub open spec fn empty_data_text() -> Seq<u8> {
    seq![0x28u8, 0x65u8, 0x6Du8, 0x70u8, 0x74u8, 0x79u8, 0x20u8, 0x64u8, 0x61u8, 0x74u8, 0x61u8, 0x29u8]
}

pub fn empty_data_text_bytes() -> (v: Vec<u8>)
    ensures
        v@ == empty_data_text(),
{
    let v = vec![0x28u8, 0x65u8, 0x6Du8, 0x70u8, 0x74u8, 0x79u8, 0x20u8, 0x64u8, 0x61u8, 0x74u8, 0x61u8, 0x29u8];
    assert(v@ =~= empty_data_text());
    v
}

/// Start of the note on a truncated dump.
pub open spec fn truncation_prefix() -> Seq<u8> {
    seq![0x2Eu8, 0x2Eu8, 0x2Eu8, 0x20u8, 0x31u8, 0x36u8, 0x33u8, 0x38u8, 0x34u8, 0x20u8, 0x6Fu8, 0x66u8, 0x20u8]
}

pub fn truncation_prefix_bytes() -> (v: Vec<u8>)
    ensures
        v@ == truncation_prefix(),
{
    let v = vec![0x2Eu8, 0x2Eu8, 0x2Eu8, 0x20u8, 0x31u8, 0x36u8, 0x33u8, 0x38u8, 0x34u8, 0x20u8, 0x6Fu8, 0x66u8, 0x20u8];
    assert(v@ =~= truncation_prefix());
    v
}

/// End of the note on a truncated dump.
pub open spec fn truncation_suffix() -> Seq<u8> {
    seq![0x20u8, 0x62u8, 0x79u8, 0x74u8, 0x65u8, 0x73u8, 0x20u8, 0x73u8, 0x68u8, 0x6Fu8, 0x77u8, 0x6Eu8, 0x20u8, 0x28u8, 0x68u8, 0x65u8, 0x78u8, 0x64u8, 0x75u8, 0x6Du8, 0x70u8, 0x20u8, 0x74u8, 0x72u8, 0x75u8, 0x6Eu8, 0x63u8, 0x61u8, 0x74u8, 0x65u8, 0x64u8, 0x29u8]
}

pub fn truncation_suffix_bytes() -> (v: Vec<u8>)
    ensures
        v@ == truncation_suffix(),
{
    let v = vec![0x20u8, 0x62u8, 0x79u8, 0x74u8, 0x65u8, 0x73u8, 0x20u8, 0x73u8, 0x68u8, 0x6Fu8, 0x77u8, 0x6Eu8, 0x20u8, 0x28u8, 0x68u8, 0x65u8, 0x78u8, 0x64u8, 0x75u8, 0x6Du8, 0x70u8, 0x20u8, 0x74u8, 0x72u8, 0x75u8, 0x6Eu8, 0x63u8, 0x61u8, 0x74u8, 0x65u8, 0x64u8, 0x29u8];
    assert(v@ =~= truncation_suffix());
    v
}

/// A content item as it is shown: kind, decoration and text (no label).
pub struct Piece {
    pub content_type: ContentType,
    pub decoration: Decoration,
    pub text: Seq<u8>,
}

/// The piece a content item shows.
pub open spec fn piece_of(c: Content) -> Piece {
    Piece { content_type: c.content_type, decoration: c.decoration, text: c.payload@ }
}

/// Whether `cs` show exactly `ps`, unlabelled.
pub open spec fn pieces_match(cs: Seq<Content>, ps: Seq<Piece>) -> bool {
    &&& cs.len() == ps.len()
    &&& forall|i: int| 0 <= i < cs.len() ==> piece_of(#[trigger] cs[i]) == ps[i] && cs[i].label is None
}

/// A plainly decorated piece.
pub open spec fn plain(kind: ContentType, text: Seq<u8>) -> Piece {
    Piece { content_type: kind, decoration: spec_plain_decoration(), text }
}

/// Consecutive cells of the same kind and decoration joined into one piece.
pub open spec fn merge_runs(cells: Seq<Piece>) -> Seq<Piece>
    decreases cells.len(),
{
    if cells.len() == 0 {
        seq![]
    } else {
        let prev = merge_runs(cells.drop_last());
        let c = cells.last();
        if prev.len() > 0 && prev.last().content_type == c.content_type && prev.last().decoration == c.decoration {
            prev.update(prev.len() - 1, Piece { text: prev.last().text + c.text, ..c })
        } else {
            prev.push(c)
        }
    }
}

/// The search pattern as bytes.
pub open spec fn pattern_of(pat: Option<Vec<u8>>) -> Option<Seq<u8>> {
    match pat {
        Some(v) => Some(v@),
        None => None,
    }
}

/// Whether `pat` occurs in `data` at `start`.
pub open spec fn match_at(data: Seq<u8>, start: int, pat: Seq<u8>) -> bool {
    &&& 0 <= start
    &&& start + pat.len() <= data.len()
    &&& data.subrange(start, start + pat.len()) == pat
}

/// Whether the byte at `pos` lies inside an occurrence of the (non-empty) search pattern.
pub open spec fn spec_is_highlighted(data: Seq<u8>, pos: int, pat: Option<Seq<u8>>) -> bool {
    match pat {
        None => false,
        Some(p) => p.len() > 0 && exists|s: int| pos - p.len() + 1 <= s <= pos && #[trigger] match_at(data, s, p),
    }
}

/// Printable ASCII: space through tilde.
pub open spec fn spec_printable(b: u8) -> bool {
    32 <= b <= 126
}

/// The byte shown in the ASCII column.
pub open spec fn ascii_shown(b: u8) -> u8 {
    if spec_printable(b) { b } else { 0x2Eu8 }
}

/// The colour of a byte in the ASCII column.
pub open spec fn ascii_color(highlighted: bool, b: u8) -> Color {
    if highlighted {
        Color::Error
    } else if spec_printable(b) {
        Color::Tertiary
    } else {
        Color::OutlineVariant
    }
}

/// The decoration of styled text: a colour, bold when highlighted.
pub open spec fn styled_decoration(color: Color, bold: bool) -> Decoration {
    Decoration { color, bold, ..spec_plain_decoration() }
}

/// The hex text of the `i`-th byte of a line: a double space before each group of eight,
/// two lower-case digits and a space.
pub open spec fn hex_text(i: int, b: u8) -> Seq<u8> {
    (if i % 8 == 0 { seq![0x20u8, 0x20u8] } else { seq![] }) + hex2_lower(b) + seq![0x20u8]
}

/// Cells of the hex section of the line at `o` with `k` bytes.
pub open spec fn hex_cells(data: Seq<u8>, o: int, k: int, pat: Option<Seq<u8>>) -> Seq<Piece> {
    Seq::new(k as nat, |i: int| {
        let h = spec_is_highlighted(data, o + i, pat);
        plain(if h { ContentType::Highlight } else { ContentType::Data }, hex_text(i, data[o + i]))
    })
}

/// Cells of the ASCII section of the line at `o` with `k` bytes.
pub open spec fn ascii_cells(data: Seq<u8>, o: int, k: int, pat: Option<Seq<u8>>) -> Seq<Piece> {
    Seq::new(k as nat, |i: int| {
        let h = spec_is_highlighted(data, o + i, pat);
        Piece {
            content_type: ContentType::Styled,
            decoration: styled_decoration(ascii_color(h, data[o + i]), h),
            text: seq![ascii_shown(data[o + i])],
        }
    })
}

/// `n` spaces.
pub open spec fn spaces(n: nat) -> Seq<u8> {
    Seq::new(n, |i: int| 0x20u8)
}

/// The offset of a line as four lower-case hex digits.
pub open spec fn address_text(o: int) -> Seq<u8> {
    seq![
        hex_lower_digit(((o / 4096) % 16) as u8),
        hex_lower_digit(((o / 256) % 16) as u8),
        hex_lower_digit(((o / 16) % 16) as u8),
        hex_lower_digit((o % 16) as u8),
    ]
}

/// The value of a lower-case hex digit, -1 for any other byte.
pub open spec fn hex_digit_value(c: u8) -> int {
    if 0x30 <= c <= 0x39 {
        c - 0x30
    } else if 0x61 <= c <= 0x66 {
        c - 0x61 + 10
    } else {
        -1
    }
}

/// Four hex digits read back as a number, most significant first.
pub open spec fn hex4_value(t: Seq<u8>) -> int {
    4096 * hex_digit_value(t[0]) + 256 * hex_digit_value(t[1]) + 16 * hex_digit_value(t[2])
        + hex_digit_value(t[3])
}

/// A line address spells its offset: four lower-case hex digits that read back as the offset.
pub proof fn lemma_address_reads_back(o: int)
    requires
        0 <= o < 65536,
    ensures
        address_text(o).len() == 4,
        forall|i: int| 0 <= i < 4 ==> 0 <= #[trigger] hex_digit_value(address_text(o)[i]) < 16,
        hex4_value(address_text(o)) == o,
{
    let t = address_text(o);
    assert(t[0] == crate::text::hex_lower_digit(((o / 4096) % 16) as u8));
    assert(hex_digit_value(t[0]) == (o / 4096) % 16);
    assert(hex_digit_value(t[1]) == (o / 256) % 16);
    assert(hex_digit_value(t[2]) == (o / 16) % 16);
    assert(hex_digit_value(t[3]) == o % 16);
    assert(4096 * ((o / 4096) % 16) + 256 * ((o / 256) % 16) + 16 * ((o / 16) % 16) + o % 16 == o) by (nonlinear_arith)
        requires 0 <= o < 65536;
}

/// Line `l` of a dump starts with its address piece, which spells the line's byte offset
/// `16 * l` in four lower-case hex digits.
pub proof fn lemma_dump_line_address(data: Seq<u8>, pat: Option<Seq<u8>>, l: nat)
    requires
        16 * l < 65536,
    ensures
        dump_lines(data, pat, l + 1)[dump_lines(data, pat, l).len() as int].content_type == ContentType::Address,
        hex4_value(dump_lines(data, pat, l + 1)[dump_lines(data, pat, l).len() as int].text) == 16 * l,
{
    let before = dump_lines(data, pat, l);
    let line = line_pieces(data, (16 * l) as int, pat);
    assert(dump_lines(data, pat, l + 1) == before + line);
    assert((before + line)[before.len() as int] == line[0]);
    lemma_address_reads_back((16 * l) as int);
}

/// The pieces of the dump line at offset `o`: address, hex section (padded to full width),
/// a gap, the ASCII column between bars (padded), and a line break unless it is the last.
pub open spec fn line_pieces(data: Seq<u8>, o: int, pat: Option<Seq<u8>>) -> Seq<Piece> {
    let k = if data.len() - o < 16 { data.len() - o } else { 16 };
    let m = (16 - k) as nat;
    seq![plain(ContentType::Address, address_text(o))]
        + merge_runs(hex_cells(data, o, k, pat))
        + (if k < 16 { seq![plain(ContentType::Data, spaces(3 * m + 2 * (m / 8)))] } else { seq![] })
        + seq![plain(ContentType::Separator, spaces(2)), plain(ContentType::Separator, seq![0x7Cu8])]
        + merge_runs(ascii_cells(data, o, k, pat))
        + (if k < 16 { seq![plain(ContentType::Data, spaces(m))] } else { seq![] })
        + seq![plain(ContentType::Separator, seq![0x7Cu8])]
        + (if o + 16 < data.len() { seq![plain(ContentType::Separator, seq![0x0Au8])] } else { seq![] })
}

/// The pieces of the first `l` lines.
pub open spec fn dump_lines(data: Seq<u8>, pat: Option<Seq<u8>>, l: nat) -> Seq<Piece>
    decreases l,
{
    if l == 0 {
        seq![]
    } else {
        dump_lines(data, pat, (l - 1) as nat) + line_pieces(data, 16 * (l - 1), pat)
    }
}

/// The dumped prefix of a frame.
pub open spec fn dumped(frame: Seq<u8>) -> Seq<u8> {
    if frame.len() > 16384 { frame.take(16384) } else { frame }
}

/// The whole dump of `frame`: a placeholder when empty; otherwise every line of the dumped
/// prefix, followed by a note when the frame was longer.
pub open spec fn hexdump_pieces(frame: Seq<u8>, pat: Option<Seq<u8>>) -> Seq<Piece> {
    let data = dumped(frame);
    if data.len() == 0 {
        seq![plain(ContentType::Data, empty_data_text())]
    } else {
        let lines = ((data.len() + 15) / 16) as nat;
        dump_lines(data, pat, lines) + if frame.len() > 16384 {
            seq![
                plain(ContentType::Separator, seq![0x0Au8]),
                plain(ContentType::Data, truncation_prefix() + decimal(frame.len()) + truncation_suffix()),
            ]
        } else {
            seq![]
        }
    }
}

/// Whether some dumped byte is highlighted.
pub open spec fn hexdump_highlighted(frame: Seq<u8>, pat: Option<Seq<u8>>) -> bool {
    exists|pos: int| 0 <= pos < dumped(frame).len() && #[trigger] spec_is_highlighted(dumped(frame), pos, pat)
}

proof fn lemma_highlight_witness(data: Seq<u8>, pos: int, p: Seq<u8>, s: int)
    requires
        p.len() > 0,
        pos - p.len() + 1 <= s <= pos,
        match_at(data, s, p),
    ensures
        spec_is_highlighted(data, pos, Some(p)),
{
    assert(pos - p.len() + 1 <= s <= pos && match_at(data, s, p));
    assert(exists|t: int| pos - p.len() + 1 <= t <= pos && #[trigger] match_at(data, t, p));
}

/// Whether the byte at `pos` is part of an occurrence of `search_bytes` in `data`.
pub fn is_highlighted(data: &[u8], pos: usize, search_bytes: &Option<Vec<u8>>) -> (r: bool)
    ensures
        r == spec_is_highlighted(data@, pos as int, pattern_of(*search_bytes)),
{
    match search_bytes {
        None => false,
        Some(pat) => {
            let len = pat.len();
            if len == 0 {
                return false;
            }
            let n = data.len();
            if pos >= n {
                proof {
                    assert forall|t: int| pos - len + 1 <= t <= pos implies !#[trigger] match_at(data@, t, pat@) by {}
                }
                return false;
            }
            let min_start = if pos >= len - 1 { pos - (len - 1) } else { 0 };
            let mut s = min_start;
            while s <= pos
                invariant
                    len == pat@.len(),
                    n == data@.len(),
                    len > 0,
                    pos < n,
                    search_bytes matches Some(v) && v@ == pat@,
                    min_start <= s <= pos + 1,
                    min_start == if pos >= len - 1 { pos - (len - 1) } else { 0 },
                    forall|t: int| pos - len + 1 <= t < s ==> !#[trigger] match_at(data@, t, pat@),
                decreases pos + 1 - s,
            {
                if len <= n - s {
                    if crate::util::bytes_equal(&data[s..s + len], pat.as_slice()) {
                        assert(match_at(data@, s as int, pat@));
                        proof {
                            lemma_highlight_witness(data@, pos as int, pat@, s as int);
                        }
                        return true;
                    }
                }
                assert(!match_at(data@, s as int, pat@));
                s = s + 1;
            }
            proof {
                assert forall|t: int| pos - len + 1 <= t <= pos implies !#[trigger] match_at(data@, t, pat@) by {
                    if t < min_start {
                        assert(t < 0);
                    }
                }
            }
            false
        },
    }
}

/// Whether a byte is printable ASCII.
pub fn is_printable_ascii(byte: u8) -> (r: bool)
    ensures
        r == spec_printable(byte),
{
    32 <= byte && byte <= 126
}

/// The character shown for a byte in the ASCII column.
pub fn byte_to_ascii_char(byte: u8) -> (c: char)
    ensures
        c as u32 == ascii_shown(byte) as u32,
{
    if is_printable_ascii(byte) {
        byte as char
    } else {
        '.'
    }
}


proof fn lemma_pieces_push(cs: Seq<Content>, ps: Seq<Piece>, c: Content, p: Piece)
    requires
        pieces_match(cs, ps),
        piece_of(c) == p,
        c.label is None,
    ensures
        pieces_match(cs.push(c), ps.push(p)),
{
    assert forall|i: int| 0 <= i < cs.len() + 1 implies piece_of(#[trigger] cs.push(c)[i]) == ps.push(p)[i]
        && cs.push(c)[i].label is None by {
        if i < cs.len() {
            assert(cs.push(c)[i] == cs[i]);
        }
    }
}

proof fn lemma_pieces_concat(cs1: Seq<Content>, ps1: Seq<Piece>, cs2: Seq<Content>, ps2: Seq<Piece>)
    requires
        pieces_match(cs1, ps1),
        pieces_match(cs2, ps2),
    ensures
        pieces_match(cs1 + cs2, ps1 + ps2),
{
    assert forall|i: int| 0 <= i < cs1.len() + cs2.len() implies piece_of(#[trigger] (cs1 + cs2)[i]) == (ps1
        + ps2)[i] && (cs1 + cs2)[i].label is None by {
        if i < cs1.len() {
            assert((cs1 + cs2)[i] == cs1[i]);
        } else {
            assert((cs1 + cs2)[i] == cs2[i - cs1.len()]);
        }
    }
}

/// Appends the piece `kind`/`decoration`/`text`.
fn push_piece(out: &mut Vec<Content>, kind: ContentType, decoration: Decoration, text: Vec<u8>, Ghost(ps): Ghost<Seq<Piece>>)
    requires
        pieces_match(old(out)@, ps),
    ensures
        pieces_match(final(out)@, ps.push(Piece { content_type: kind, decoration, text: text@ })),
{
    let c = Content { content_type: kind, decoration, payload: text, label: None };
    proof {
        lemma_pieces_push(out@, ps, c, Piece { content_type: kind, decoration, text: c.payload@ });
    }
    out.push(c);
}

/// Adds cell `i` of `cells` to the merged runs of the cells before it.
fn merge_step(acc: &mut Vec<Content>, kind: ContentType, decoration: Decoration, text: Vec<u8>,
    Ghost(cells): Ghost<Seq<Piece>>, Ghost(i): Ghost<int>)
    requires
        0 <= i < cells.len(),
        cells[i] == (Piece { content_type: kind, decoration, text: text@ }),
        pieces_match(old(acc)@, merge_runs(cells.take(i))),
    ensures
        pieces_match(final(acc)@, merge_runs(cells.take(i + 1))),
{
    let ghost t = cells.take(i + 1);
    assert(t.drop_last() =~= cells.take(i));
    assert(t.last() == cells[i]);
    let ghost prev = merge_runs(cells.take(i));
    let n = acc.len();
    if n > 0 && acc[n - 1].content_type == kind && acc[n - 1].decoration == decoration {
        let ghost before = acc@;
        let mut last = acc.pop().unwrap();
        let mut more = text;
        last.payload.append(&mut more);
        proof {
            assert(acc@ =~= before.drop_last());
            let np = Piece { text: prev.last().text + cells[i].text, ..cells[i] };
            assert(piece_of(last) == np);
            assert(pieces_match(acc@, prev.drop_last())) by {
                assert forall|j: int| 0 <= j < acc@.len() implies piece_of(#[trigger] acc@[j]) == prev.drop_last()[j]
                    && acc@[j].label is None by {
                    assert(acc@[j] == before[j]);
                }
            }
            lemma_pieces_push(acc@, prev.drop_last(), last, np);
            assert(prev.drop_last().push(np) =~= prev.update(prev.len() - 1, np));
        }
        acc.push(last);
    } else {
        push_piece(acc, kind, decoration, text, Ghost(prev));
    }
}

/// `n` spaces.
fn spaces_vec(n: usize) -> (v: Vec<u8>)
    ensures
        v@ == spaces(n as nat),
{
    let mut v: Vec<u8> = Vec::new();
    let mut i: usize = 0;
    while i < n
        invariant
            i <= n,
            v@ == spaces(i as nat),
        decreases n - i,
    {
        v.push(0x20);
        i = i + 1;
        assert(v@ =~= spaces(i as nat));
    }
    v
}

fn one_byte_vec(b: u8) -> (v: Vec<u8>)
    ensures
        v@ == seq![b],
{
    let mut v: Vec<u8> = Vec::new();
    v.push(b);
    assert(v@ =~= seq![b]);
    v
}

fn hex_text_vec(i: usize, b: u8) -> (v: Vec<u8>)
    ensures
        v@ == hex_text(i as int, b),
{
    let mut v: Vec<u8> = Vec::new();
    if i % 8 == 0 {
        v.push(0x20);
        v.push(0x20);
    }
    v.push(hex_lower(b / 16));
    v.push(hex_lower(b % 16));
    v.push(0x20);
    assert(v@ =~= hex_text(i as int, b));
    v
}

fn address_vec(o: usize) -> (v: Vec<u8>)
    requires
        o < 65536,
    ensures
        v@ == address_text(o as int),
{
    let mut v: Vec<u8> = Vec::new();
    v.push(hex_lower(((o / 4096) % 16) as u8));
    v.push(hex_lower(((o / 256) % 16) as u8));
    v.push(hex_lower(((o / 16) % 16) as u8));
    v.push(hex_lower((o % 16) as u8));
    assert(v@ =~= address_text(o as int));
    v
}

fn pattern_view(pat: &Option<Vec<u8>>) -> (r: Ghost<Option<Seq<u8>>>)
    ensures
        r@ == pattern_of(*pat),
{
    Ghost(pattern_of(*pat))
}

/// The hex section of the line at `o` with `k` bytes, and whether any of its bytes is
/// highlighted.
fn hex_section(data: &Vec<u8>, o: usize, k: usize, pat: &Option<Vec<u8>>) -> (r: (Vec<Content>, bool))
    requires
        o + k <= data@.len(),
    ensures
        pieces_match(r.0@, merge_runs(hex_cells(data@, o as int, k as int, pattern_of(*pat)))),
        r.1 == exists|j: int| 0 <= j < k && #[trigger] spec_is_highlighted(data@, o + j,
            pattern_of(*pat)),
{
    let Ghost(pv) = pattern_view(pat);
    let ghost cells = hex_cells(data@, o as int, k as int, pv);
    let mut acc: Vec<Content> = Vec::new();
    let mut any = false;
    let mut i: usize = 0;
    let n = data.len();
    assert(cells.take(0) =~= Seq::<Piece>::empty());
    while i < k
        invariant
            i <= k,
            n == data@.len(),
            o + k <= data@.len(),
            pv == pattern_of(*pat),
            cells == hex_cells(data@, o as int, k as int, pv),
            pieces_match(acc@, merge_runs(cells.take(i as int))),
            any == exists|j: int| 0 <= j < i && #[trigger] spec_is_highlighted(data@, o + j, pv),
        decreases k - i,
    {
        let h = is_highlighted(data.as_slice(), o + i, pat);
        let kind = if h { ContentType::Highlight } else { ContentType::Data };
        let text = hex_text_vec(i, data[o + i]);
        merge_step(&mut acc, kind, plain_decoration(), text, Ghost(cells), Ghost(i as int));
        any = any || h;
        i = i + 1;
    }
    assert(cells.take(k as int) =~= cells);
    (acc, any)
}

/// The ASCII section of the line at `o` with `k` bytes.
fn ascii_section(data: &Vec<u8>, o: usize, k: usize, pat: &Option<Vec<u8>>) -> (r: Vec<Content>)
    requires
        o + k <= data@.len(),
    ensures
        pieces_match(r@, merge_runs(ascii_cells(data@, o as int, k as int, pattern_of(*pat)))),
{
    let Ghost(pv) = pattern_view(pat);
    let ghost cells = ascii_cells(data@, o as int, k as int, pv);
    let mut acc: Vec<Content> = Vec::new();
    let mut i: usize = 0;
    let n = data.len();
    assert(cells.take(0) =~= Seq::<Piece>::empty());
    while i < k
        invariant
            i <= k,
            n == data@.len(),
            o + k <= data@.len(),
            pv == pattern_of(*pat),
            cells == ascii_cells(data@, o as int, k as int, pv),
            pieces_match(acc@, merge_runs(cells.take(i as int))),
        decreases k - i,
    {
        let h = is_highlighted(data.as_slice(), o + i, pat);
        let b = data[o + i];
        let printable = is_printable_ascii(b);
        let color = if h { Color::Error } else if printable { Color::Tertiary } else { Color::OutlineVariant };
        let mut d = plain_decoration();
        d.color = color;
        d.bold = h;
        let shown = if printable { b } else { 0x2E };
        merge_step(&mut acc, ContentType::Styled, d, one_byte_vec(shown), Ghost(cells), Ghost(i as int));
        i = i + 1;
    }
    assert(cells.take(k as int) =~= cells);
    acc
}

/// The contents of the dump line at `o`, and whether any of its bytes is highlighted.
fn line_contents(data: &Vec<u8>, o: usize, pat: &Option<Vec<u8>>) -> (r: (Vec<Content>, bool))
    requires
        o < data@.len() <= 16384,
    ensures
        pieces_match(r.0@, line_pieces(data@, o as int, pattern_of(*pat))),
        r.1 == exists|j: int| 0 <= j < (if data@.len() - o < 16 { data@.len() - o } else { 16 })
            && #[trigger] spec_is_highlighted(data@, o + j, pattern_of(*pat)),
{
    let Ghost(pv) = pattern_view(pat);
    let n = data.len();
    let k = if n - o < 16 { n - o } else { 16 };
    let m = 16 - k;
    let mut out: Vec<Content> = Vec::new();
    push_piece(&mut out, ContentType::Address, plain_decoration(), address_vec(o), Ghost(Seq::<Piece>::empty()));
    let ghost ps = seq![plain(ContentType::Address, address_text(o as int))];
    assert(Seq::<Piece>::empty().push(plain(ContentType::Address, address_text(o as int))) =~= ps);
    let (mut hex, any) = hex_section(data, o, k, pat);
    proof {
        lemma_pieces_concat(out@, ps, hex@, merge_runs(hex_cells(data@, o as int, k as int, pv)));
    }
    out.append(&mut hex);
    let ghost ps = ps + merge_runs(hex_cells(data@, o as int, k as int, pv));
    let ghost pad1: Seq<Piece> = if k < 16 { seq![plain(ContentType::Data, spaces((3 * m + 2 * (m / 8)) as nat))] } else { seq![] };
    if k < 16 {
        push_piece(&mut out, ContentType::Data, plain_decoration(), spaces_vec(3 * m + 2 * (m / 8)), Ghost(ps));
        assert(ps.push(plain(ContentType::Data, spaces((3 * m + 2 * (m / 8)) as nat))) =~= ps + pad1);
    } else {
        assert(ps =~= ps + pad1);
    }
    let ghost ps = ps + pad1;
    push_piece(&mut out, ContentType::Separator, plain_decoration(), spaces_vec(2), Ghost(ps));
    let ghost ps = ps.push(plain(ContentType::Separator, spaces(2)));
    push_piece(&mut out, ContentType::Separator, plain_decoration(), one_byte_vec(0x7C), Ghost(ps));
    let ghost ps = ps.push(plain(ContentType::Separator, seq![0x7Cu8]));
    let mut asc = ascii_section(data, o, k, pat);
    proof {
        lemma_pieces_concat(out@, ps, asc@, merge_runs(ascii_cells(data@, o as int, k as int, pv)));
    }
    out.append(&mut asc);
    let ghost ps = ps + merge_runs(ascii_cells(data@, o as int, k as int, pv));
    let ghost pad2: Seq<Piece> = if k < 16 { seq![plain(ContentType::Data, spaces(m as nat))] } else { seq![] };
    if k < 16 {
        push_piece(&mut out, ContentType::Data, plain_decoration(), spaces_vec(m), Ghost(ps));
        assert(ps.push(plain(ContentType::Data, spaces(m as nat))) =~= ps + pad2);
    } else {
        assert(ps =~= ps + pad2);
    }
    let ghost ps = ps + pad2;
    push_piece(&mut out, ContentType::Separator, plain_decoration(), one_byte_vec(0x7C), Ghost(ps));
    let ghost ps = ps.push(plain(ContentType::Separator, seq![0x7Cu8]));
    let ghost nl: Seq<Piece> = if o + 16 < n { seq![plain(ContentType::Separator, seq![0x0Au8])] } else { seq![] };
    if o + 16 < n {
        push_piece(&mut out, ContentType::Separator, plain_decoration(), one_byte_vec(0x0A), Ghost(ps));
        assert(ps.push(plain(ContentType::Separator, seq![0x0Au8])) =~= ps + nl);
    } else {
        assert(ps =~= ps + nl);
    }
    assert(ps + nl =~= line_pieces(data@, o as int, pv));
    (out, any)
}

proof fn lemma_dump_lines_step(data: Seq<u8>, pat: Option<Seq<u8>>, l: nat)
    ensures
        dump_lines(data, pat, l + 1) == dump_lines(data, pat, l) + line_pieces(data, (16 * l) as int, pat),
{
}

/// Renders `message.frame` as a hexdump into `message.hex_contents` (16 bytes a line, groups of
/// eight, lower-case hex, an ASCII column), highlighting every occurrence of `highlight_bytes`;
/// only the first 16384 bytes are dumped, with a note when there were more.
pub fn format_hexdump(message: &mut Message, highlight_bytes: Option<Vec<u8>>)
    ensures
        *final(message) == (Message {
            hex_contents: final(message).hex_contents,
            highlighted: final(message).highlighted,
            ..*old(message)
        }),
        pieces_match(final(message).hex_contents@, hexdump_pieces(old(message).frame@,
            pattern_of(highlight_bytes))),
        final(message).highlighted == hexdump_highlighted(old(message).frame@,
            pattern_of(highlight_bytes)),
{
    let Ghost(pv) = pattern_view(&highlight_bytes);
    let total = message.frame.len();
    let dn = if total > MAX_HEXDUMP_BYTES { MAX_HEXDUMP_BYTES } else { total };
    let data = copy_range(message.frame.as_slice(), 0, dn);
    proof {
        if total > 16384 {
            assert(data@ =~= dumped(message.frame@));
        } else {
            assert(data@ =~= dumped(message.frame@));
        }
    }
    let mut out: Vec<Content> = Vec::new();
    if dn == 0 {
        push_piece(&mut out, ContentType::Data, plain_decoration(), empty_data_text_bytes(), Ghost(Seq::<Piece>::empty()));
        assert(Seq::<Piece>::empty().push(plain(ContentType::Data, empty_data_text())) =~= hexdump_pieces(message.frame@, pv));
        message.hex_contents = out;
        message.highlighted = false;
        return;
    }
    let mut any = false;
    let mut o: usize = 0;
    let ghost mut l: nat = 0;
    while o < dn
        invariant
            dn == data@.len(),
            0 < dn <= 16384,
            o == 16 * l,
            o <= dn + 15,
            pv == pattern_of(highlight_bytes),
            pieces_match(out@, dump_lines(data@, pv, l)),
            any == exists|p: int| 0 <= p < o && p < dn && #[trigger] spec_is_highlighted(data@, p, pv),
        decreases dn + 16 - o,
    {
        let (mut line, line_any) = line_contents(&data, o, &highlight_bytes);
        proof {
            lemma_dump_lines_step(data@, pv, l);
            lemma_pieces_concat(out@, dump_lines(data@, pv, l), line@, line_pieces(data@, o as int, pv));
            let k = if dn - o < 16 { dn - o } else { 16 };
            if any || line_any {
                if any {
                    let p = choose|p: int| 0 <= p < o && p < dn && #[trigger] spec_is_highlighted(data@, p, pv);
                    assert(0 <= p < o + 16 && p < dn && spec_is_highlighted(data@, p, pv));
                } else {
                    let j = choose|j: int| 0 <= j < k && #[trigger] spec_is_highlighted(data@, o + j, pv);
                    assert(0 <= o + j < o + 16 && o + j < dn && spec_is_highlighted(data@, o + j, pv));
                }
            } else {
                assert forall|p: int| 0 <= p < o + 16 && p < dn implies !#[trigger] spec_is_highlighted(data@, p, pv) by {
                    if p >= o {
                        assert(!spec_is_highlighted(data@, o + (p - o), pv));
                    }
                }
            }
        }
        out.append(&mut line);
        any = any || line_any;
        o = o + 16;
        proof {
            l = l + 1;
        }
    }
    proof {
        assert(l == (dn + 15) / 16);
        assert(data@ == dumped(message.frame@));
    }
    if total > MAX_HEXDUMP_BYTES {
        let ghost ps = dump_lines(data@, pv, l);
        push_piece(&mut out, ContentType::Separator, plain_decoration(), one_byte_vec(0x0A), Ghost(ps));
        let mut note = truncation_prefix_bytes();
        push_decimal(&mut note, total as u64);
        let mut tail = truncation_suffix_bytes();
        note.append(&mut tail);
        push_piece(&mut out, ContentType::Data, plain_decoration(), note, Ghost(ps.push(plain(ContentType::Separator, seq![0x0Au8]))));
        assert(ps.push(plain(ContentType::Separator, seq![0x0Au8])).push(plain(ContentType::Data,
            truncation_prefix() + decimal(total as nat) + truncation_suffix())) =~= hexdump_pieces(message.frame@, pv));
    } else {
        assert(dump_lines(data@, pv, l) =~= hexdump_pieces(message.frame@, pv));
    }
    message.hex_contents = out;
    message.highlighted = any;
}

} // verus!

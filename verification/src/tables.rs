//! Box-drawn tables: the enumerate table, the device information table and
//! the scan results table, laid out as styled segments for the terminal.

use vstd::prelude::*;
use vstd::utf8::{encode_utf8, is_char_boundary, valid_utf8};
use vstd::string::StringSliceAdditionalSpecFns;
use crate::style::{
    bold, clean_segment, col, flatten, lemma_painted_all_visible, open_after, paint_segments,
    painted_all, push_rep, raw, raw_seg, rep, seg_texts, seg_views, styled_seg, vis, vis_len,
    visible_len, Palette, Segment,
    Style,
};
use crate::text::{chars_eq, chars_of, split_chars, split_on, string_from, string_of, views};
use crate::connection::{address_text, address_to_string, AddrType};
use crate::scan::{addr_key, address_key, DevModel, ScannedDevice};

verus! {

/// A segment model: text and the style it is painted in, if any.
pub type SegModel = (Seq<char>, Option<Style>);

// ───────────────────────────── terminal width ─────────────────────────────

/// `terminal_size::terminal_size()`, its width in columns.  Whether a
/// terminal is attached, and its size, rest on the machine.  What the
/// crate's source shows (on Unix, where BlueZ runs) is stated: a size is
/// reported only when both its rows and columns are positive.
#[verifier::external_body]
fn terminal_columns() -> (r: Option<u16>)
    ensures
        r matches Some(w) ==> w > 0,
{
    terminal_size::terminal_size().map(|(w, _)| w.0)
}

/// The width of the terminal in columns, 120 where there is none: always
/// a positive number of columns.
pub fn term_width() -> (r: u16)
    ensures
        r > 0,
{
    match terminal_columns() {
        Some(w) => w,
        None => 120,
    }
}

// ───────────────────────────── wrapping ─────────────────────────────

/// Byte length of the UTF-8 encoding (`str::len`).
pub open spec fn blen(s: Seq<char>) -> nat {
    encode_utf8(s).len()
}

/// A space or a comma: where a long value may be broken.
pub open spec fn is_break_byte(b: u8) -> bool {
    b == 0x20 || b == 0x2c
}

/// Index of the last space or comma.
pub open spec fn last_break(b: Seq<u8>) -> Option<int>
    decreases b.len(),
{
    if b.len() == 0 {
        None
    } else if is_break_byte(b.last()) {
        Some(b.len() - 1)
    } else {
        last_break(b.drop_last())
    }
}

pub proof fn lemma_last_break_range(b: Seq<u8>)
    ensures
        last_break(b) matches Some(p) ==> 0 <= p < b.len() && is_break_byte(b[p]),
    decreases b.len(),
{
    if b.len() > 0 && !is_break_byte(b.last()) {
        lemma_last_break_range(b.drop_last());
    }
}

/// Where a line of at most `w` bytes is cut: after the last space or comma
/// among the first `w` bytes, else after `w` bytes.
pub open spec fn cut_at(b: Seq<u8>, w: nat) -> int {
    match last_break(b.take(w as int)) {
        Some(p) => p + 1,
        None => w as int,
    }
}

pub proof fn lemma_cut_range(b: Seq<u8>, w: nat)
    requires
        0 < w < b.len(),
    ensures
        1 <= cut_at(b, w) <= w,
{
    lemma_last_break_range(b.take(w as int));
}

/// The chunks of a non-empty text longer than nothing, cut at most `w` bytes long.
pub open spec fn wrap_rest(b: Seq<u8>, w: nat) -> Seq<Seq<u8>>
    decreases b.len(),
{
    if b.len() == 0 || w == 0 {
        seq![]
    } else if b.len() <= w {
        seq![b]
    } else {
        proof {
            lemma_cut_range(b, w);
        }
        seq![b.take(cut_at(b, w))] + wrap_rest(b.skip(cut_at(b, w)), w)
    }
}

/// Whether wrapping at width `w` cuts only between characters: every line
/// longer than `w` has a character boundary at byte `w`.
pub open spec fn wrap_ok(b: Seq<u8>, w: nat) -> bool
    decreases b.len(),
{
    if b.len() == 0 || w == 0 || b.len() <= w {
        true
    } else {
        proof {
            lemma_cut_range(b, w);
        }
        is_char_boundary(b, w as int) && wrap_ok(b.skip(cut_at(b, w)), w)
    }
}

/// The lines of a wrapped value (one empty line for an empty value; the
/// value itself at width 0).
pub open spec fn wrap_plain(b: Seq<u8>, w: nat) -> Seq<Seq<u8>> {
    if w == 0 || b.len() == 0 {
        seq![b]
    } else {
        wrap_rest(b, w)
    }
}

/// The byte encodings of a list of strings.
pub open spec fn string_bytes(v: Seq<String>) -> Seq<Seq<u8>> {
    v.map_values(|x: String| encode_utf8(x@))
}

/// A byte following an ASCII byte starts a character.
proof fn lemma_boundary_after_ascii(b: Seq<u8>, p: int)
    requires
        valid_utf8(b),
        0 <= p < b.len(),
        b[p] < 0x80,
    ensures
        is_char_boundary(b, p + 1),
{
    broadcast use vstd::utf8::group_utf8_lib;

    if p + 1 == b.len() {
        assert(is_char_boundary(b, b.len() as int));
    } else {
        let x: u8 = b[p];
        assert(vstd::utf8::is_leading_byte_width_1(x)) by (bit_vector)
            requires
                x < 0x80,
        ;
        assert(is_char_boundary(b, p));
        let t = b.subrange(p, b.len() as int);
        assert(valid_utf8(t));
        assert(t[0] == b[p]);
        assert(t[1] == b[p + 1]);
        assert(!vstd::utf8::is_continuation_byte(t[1])) by {
            reveal_with_fuel(is_char_boundary, 2);
            assert(vstd::utf8::length_of_first_scalar(t) == 1);
            assert(is_char_boundary(t, 1));
        }
    }
}

/// Wraps a value into lines of at most `width` bytes, breaking after the
/// last space or comma that fits where there is one.
pub fn wrap_plain_text(s: &str, width: usize) -> (r: Vec<String>)
    requires
        wrap_ok(encode_utf8(s@), width as nat),
    ensures
        string_bytes(r@) == wrap_plain(encode_utf8(s@), width as nat),
{
    broadcast use vstd::utf8::group_utf8_lib;

    if width == 0 || s.is_empty() {
        let r = vec![string_from(s)];
        assert(string_bytes(r@) =~= seq![encode_utf8(s@)]);
        return r;
    }
    let ghost all = encode_utf8(s@);
    let mut chunks: Vec<String> = Vec::new();
    let mut remaining: &str = s;
    assert(string_bytes(chunks@) + wrap_rest(all, width as nat) =~= wrap_rest(all, width as nat));
    while !remaining.is_empty()
        invariant
            width > 0,
            string_bytes(chunks@) + wrap_rest(encode_utf8(remaining@), width as nat) == wrap_rest(
                all,
                width as nat,
            ),
            wrap_ok(encode_utf8(remaining@), width as nat),
        decreases encode_utf8(remaining@).len(),
    {
        let ghost rb = encode_utf8(remaining@);
        let ghost before = string_bytes(chunks@);
        assert(remaining.spec_bytes() == rb);
        proof {
            vstd::utf8::encode_utf8_valid_utf8(remaining@);
            vstd::utf8::is_char_boundary_start_end_of_seq(rb);
        }
        let bytes = remaining.as_bytes();
        if bytes.len() <= width {
            chunks.push(string_from(remaining));
            assert(string_bytes(chunks@) =~= before.push(rb));
            assert(wrap_rest(rb, width as nat) == seq![rb]);
            let (_, tail) = remaining.split_at(bytes.len());
            assert(tail.spec_bytes() =~= Seq::<u8>::empty());
            assert(wrap_rest(encode_utf8(tail@), width as nat) =~= Seq::<Seq<u8>>::empty());
            assert(string_bytes(chunks@) + Seq::<Seq<u8>>::empty() =~= before + seq![rb]);
            remaining = tail;
        } else {
            let mut j: usize = width;
            let mut found = false;
            while j > 0
                invariant_except_break
                    j <= width < bytes@.len(),
                    bytes@ == rb,
                    last_break(rb.take(width as int)) == last_break(rb.take(j as int)),
                    !found,
                ensures
                    j <= width < bytes@.len(),
                    bytes@ == rb,
                    found ==> j > 0 && rb[j - 1] < 0x80 && last_break(rb.take(width as int)) == Some(
                        (j - 1) as int,
                    ),
                    !found ==> last_break(rb.take(width as int)) == None::<int>,
                decreases j,
            {
                let c = bytes[j - 1];
                assert(rb.take(j as int).last() == rb[j - 1]);
                if c == 0x20 || c == 0x2c {
                    found = true;
                    break ;
                }
                assert(rb.take(j as int).drop_last() =~= rb.take(j - 1));
                j -= 1;
            }
            proof {
                if !found {
                    assert(rb.take(0) =~= Seq::<u8>::empty());
                }
            }
            let break_at = if found {
                j
            } else {
                width
            };
            proof {
                lemma_cut_range(rb, width as nat);
                assert(break_at == cut_at(rb, width as nat));
                if found {
                    lemma_boundary_after_ascii(rb, j - 1);
                }
            }
            let (head, tail) = remaining.split_at(break_at);
            chunks.push(string_from(head));
            proof {
                assert(head.spec_bytes() =~= rb.take(break_at as int));
                assert(tail.spec_bytes() =~= rb.skip(break_at as int));
                assert(string_bytes(chunks@) =~= before.push(rb.take(break_at as int)));
                assert(wrap_rest(rb, width as nat) == seq![rb.take(break_at as int)] + wrap_rest(
                    rb.skip(break_at as int),
                    width as nat,
                ));
                assert(before + wrap_rest(rb, width as nat) =~= string_bytes(chunks@) + wrap_rest(
                    rb.skip(break_at as int),
                    width as nat,
                ));
            }
            remaining = tail;
        }
    }
    assert(remaining@ =~= Seq::<char>::empty());
    assert(encode_utf8(remaining@).len() == 0);
    assert(wrap_rest(encode_utf8(remaining@), width as nat) =~= Seq::<Seq<u8>>::empty());
    assert(string_bytes(chunks@) =~= wrap_rest(all, width as nat));
    chunks
}

} // verus!

verus! {

// ───────────────────────────── column arithmetic ─────────────────────────────

pub open spec fn max_nat(a: nat, b: nat) -> nat {
    if a >= b {
        a
    } else {
        b
    }
}

pub open spec fn min_nat(a: nat, b: nat) -> nat {
    if a <= b {
        a
    } else {
        b
    }
}

/// `usize::saturating_sub`.
pub open spec fn sat_sub(a: nat, b: nat) -> nat {
    if a >= b {
        (a - b) as nat
    } else {
        0
    }
}

/// A box-drawing piece in the border colour.
pub open spec fn frame(t: Seq<char>) -> SegModel {
    col(t, Palette::Surface1)
}

/// The vertical bar between cells.
pub open spec fn vbar() -> SegModel {
    frame("│"@)
}

/// Appends one segment.
pub fn push_seg(out: &mut Vec<Segment>, seg: Segment)
    ensures
        seg_views(final(out)@) == seg_views(old(out)@).push(seg@),
{
    let ghost before = out@;
    let ghost sv = seg@;
    out.push(seg);
    assert(seg_views(out@) =~= seg_views(before).push(sv));
}



/// The widths of a table's columns, as numbers.
pub open spec fn nats(v: Seq<usize>) -> Seq<nat> {
    v.map_values(|x: usize| x as nat)
}

/// `n` spaces written as they are.
pub open spec fn pad(n: nat) -> SegModel {
    raw(crate::text::spaces(n))
}

/// A segment of `n` spaces.
pub fn pad_seg(n: usize) -> (r: Segment)
    ensures
        r@ == pad(n as nat),
{
    let mut t = String::new();
    crate::text::push_repeat(&mut t, ' ', n);
    Segment { text: t, style: None }
}

/// A box-drawing segment.
pub fn frame_seg(t: &str) -> (r: Segment)
    ensures
        r@ == frame(t@),
{
    styled_seg(t, Palette::Surface1, false)
}

/// Cells of a horizontal border: dashes two wider than each column, joined
/// by `mid` and closed by `right`.
pub open spec fn border_cells(ws: Seq<nat>, n: nat, mid: Seq<char>, right: Seq<char>) -> Seq<SegModel>
    decreases n,
{
    if n == 0 {
        seq![]
    } else {
        border_cells(ws, (n - 1) as nat, mid, right) + rep(frame("─"@), ws[n - 1] + 2) + seq![
            frame(if n == ws.len() {
                right
            } else {
                mid
            }),
        ]
    }
}

/// A horizontal border line.
pub open spec fn border_line(ws: Seq<nat>, left: Seq<char>, mid: Seq<char>, right: Seq<char>) -> Seq<SegModel> {
    seq![frame(left)] + border_cells(ws, ws.len(), mid, right) + seq![raw("\n"@)]
}

/// Appends a horizontal border line.
pub fn push_border(out: &mut Vec<Segment>, ws: &Vec<usize>, left: &str, mid: &str, right: &str)
    requires
        forall|i: int| 0 <= i < ws.len() ==> ws@[i] + 2 <= usize::MAX,
    ensures
        seg_views(final(out)@) == seg_views(old(out)@) + border_line(nats(ws@), left@, mid@, right@),
{
    let ghost start = seg_views(out@);
    let ghost wn = nats(ws@);
    push_seg(out, frame_seg(left));
    let mut i: usize = 0;
    while i < ws.len()
        invariant
            i <= ws.len(),
            wn == nats(ws@),
            forall|k: int| 0 <= k < ws.len() ==> ws@[k] + 2 <= usize::MAX,
            seg_views(out@) == start + seq![frame(left@)] + border_cells(wn, i as nat, mid@, right@),
        decreases ws.len() - i,
    {
        push_rep(out, "─", Some(Style { color: Palette::Surface1, bold: false }), ws[i] + 2);
        let end = if i + 1 == ws.len() {
            right
        } else {
            mid
        };
        push_seg(out, frame_seg(end));
        i += 1;
        assert(seg_views(out@) =~= start + seq![frame(left@)] + border_cells(
            wn,
            i as nat,
            mid@,
            right@,
        ));
    }
    push_seg(out, raw_seg("\n"));
    assert(seg_views(out@) =~= start + border_line(wn, left@, mid@, right@));
}

/// Header cells: each title in bold mauve, padded to its column.
pub open spec fn header_cells(hs: Seq<Seq<char>>, ws: Seq<nat>, n: nat) -> Seq<SegModel>
    decreases n,
{
    if n == 0 {
        seq![]
    } else {
        header_cells(hs, ws, (n - 1) as nat) + seq![
            raw(" "@),
            bold(hs[n - 1], Palette::Mauve),
            pad(sat_sub(ws[n - 1], blen(hs[n - 1]))),
            raw(" "@),
            vbar(),
        ]
    }
}

/// The header line of a table.
pub open spec fn header_line(hs: Seq<Seq<char>>, ws: Seq<nat>) -> Seq<SegModel> {
    seq![vbar()] + header_cells(hs, ws, hs.len()) + seq![raw("\n"@)]
}

/// Views of a list of texts.
pub open spec fn str_views(v: Seq<&str>) -> Seq<Seq<char>> {
    v.map_values(|x: &str| x@)
}

/// Appends the header line of a table.
pub fn push_header(out: &mut Vec<Segment>, hs: &Vec<&str>, ws: &Vec<usize>)
    requires
        hs.len() == ws.len(),
    ensures
        seg_views(final(out)@) == seg_views(old(out)@) + header_line(str_views(hs@), nats(ws@)),
{
    let ghost start = seg_views(out@);
    let ghost hv = str_views(hs@);
    let ghost wn = nats(ws@);
    push_seg(out, frame_seg("│"));
    let mut i: usize = 0;
    while i < hs.len()
        invariant
            i <= hs.len() == ws.len(),
            hv == str_views(hs@),
            wn == nats(ws@),
            seg_views(out@) == start + seq![vbar()] + header_cells(hv, wn, i as nat),
        decreases hs.len() - i,
    {
        let h = hs[i];
        let hl = h.as_bytes().len();
        push_seg(out, raw_seg(" "));
        push_seg(out, styled_seg(h, Palette::Mauve, true));
        push_seg(out, pad_seg(ws[i].saturating_sub(hl)));
        push_seg(out, raw_seg(" "));
        push_seg(out, frame_seg("│"));
        i += 1;
        assert(seg_views(out@) =~= start + seq![vbar()] + header_cells(hv, wn, i as nat));
    }
    push_seg(out, raw_seg("\n"));
    assert(seg_views(out@) =~= start + header_line(hv, wn));
}

/// One cell of a row: a space, the content, padding, a space and a bar.
pub open spec fn cell(content: Seq<SegModel>, n: nat) -> Seq<SegModel> {
    seq![raw(" "@)] + content + seq![pad(n), raw(" "@), vbar()]
}



// ───────────────────────────── enumerate table ─────────────────────────────

/// A row of the enumerate table.
pub struct EnumRow {
    pub handles: String,
    pub description: String,
    pub properties: String,
    pub data: String,
    pub ascii: String,
}

/// The text of an enumerate row.
pub struct EnumRowView {
    pub handles: Seq<char>,
    pub description: Seq<char>,
    pub properties: Seq<char>,
    pub data: Seq<char>,
    pub ascii: Seq<char>,
}

impl View for EnumRow {
    type V = EnumRowView;

    open spec fn view(&self) -> EnumRowView {
        EnumRowView {
            handles: self.handles@,
            description: self.description@,
            properties: self.properties@,
            data: self.data@,
            ascii: self.ascii@,
        }
    }
}

/// Views of a list of rows.
pub open spec fn row_views(v: Seq<EnumRow>) -> Seq<EnumRowView> {
    v.map_values(|r: EnumRow| r@)
}

/// `->` occurs in `h`.
pub open spec fn contains_arrow(h: Seq<char>) -> bool {
    exists|i: int| 0 <= i && i + 1 < h.len() && #[trigger] h[i] == '-' && h[i + 1] == '>'
}

/// The handles cell: a service range in bold sapphire, a handle in sky.
pub open spec fn handles_content(h: Seq<char>) -> Seq<SegModel> {
    if contains_arrow(h) {
        seq![bold(h, Palette::Sapphire)]
    } else if h.len() > 0 {
        seq![col(h, Palette::Sky)]
    } else {
        seq![]
    }
}

/// The description cell: a service (unindented, already coloured) as it
/// is; a descriptor (four spaces) in overlay; a characteristic (two
/// spaces) in teal.
pub open spec fn desc_content(d: Seq<char>) -> Seq<SegModel> {
    if vis_len(d) > 0 && !crate::text::starts_with(d, " "@) {
        seq![raw(d)]
    } else if crate::text::starts_with(d, "    "@) {
        seq![raw("    "@), col(crate::text::trim_start(d), Palette::Overlay0)]
    } else if crate::text::starts_with(d, "  "@) {
        seq![raw("  "@), col(crate::text::trim_start(d), Palette::Teal)]
    } else {
        seq![raw(d)]
    }
}

/// Columns the description cell shows.
pub open spec fn desc_shown_len(d: Seq<char>) -> nat {
    if vis_len(d) > 0 && !crate::text::starts_with(d, " "@) {
        vis_len(d)
    } else if crate::text::starts_with(d, "    "@) {
        4 + vis_len(crate::text::trim_start(d))
    } else if crate::text::starts_with(d, "  "@) {
        2 + vis_len(crate::text::trim_start(d))
    } else {
        vis_len(d)
    }
}

/// The colour of a property word.
pub open spec fn prop_style(w: Seq<char>) -> Style {
    if w == "READ"@ {
        Style { color: Palette::Green, bold: true }
    } else if w == "WRITE"@ {
        Style { color: Palette::Peach, bold: true }
    } else if w == "NO"@ || w == "RESP"@ {
        Style { color: Palette::Peach, bold: true }
    } else if w == "NOTIFY"@ {
        Style { color: Palette::Yellow, bold: true }
    } else if w == "INDICATE"@ {
        Style { color: Palette::Red, bold: true }
    } else if w == "BROADCAST"@ {
        Style { color: Palette::Sky, bold: false }
    } else if w == "EXTENDED"@ {
        Style { color: Palette::Lavender, bold: false }
    } else if w == "AUTH"@ || w == "SIGNED"@ {
        Style { color: Palette::Pink, bold: false }
    } else {
        Style { color: Palette::Text, bold: false }
    }
}

/// Property words, each in its colour, separated by spaces.
pub open spec fn word_segs(ws: Seq<Seq<char>>) -> Seq<SegModel>
    decreases ws.len(),
{
    if ws.len() == 0 {
        seq![]
    } else if ws.len() == 1 {
        seq![(ws[0], Some(prop_style(ws[0])))]
    } else {
        word_segs(ws.drop_last()) + seq![raw(" "@), (ws.last(), Some(prop_style(ws.last())))]
    }
}

/// Columns the coloured property words show.
pub open spec fn words_shown_len(ws: Seq<Seq<char>>) -> nat
    decreases ws.len(),
{
    if ws.len() == 0 {
        0
    } else if ws.len() == 1 {
        vis_len(ws[0])
    } else {
        words_shown_len(ws.drop_last()) + 1 + vis_len(ws.last())
    }
}

/// The properties cell: the words split on spaces, each coloured.
pub open spec fn props_content(p: Seq<char>) -> Seq<SegModel> {
    if p.len() == 0 {
        seq![]
    } else {
        word_segs(split_on(p, ' '))
    }
}

/// Columns the properties cell shows.
pub open spec fn props_shown_len(p: Seq<char>) -> nat {
    if p.len() == 0 {
        0
    } else {
        words_shown_len(split_on(p, ' '))
    }
}

/// Colours a properties string word by word.
pub fn colorize_props(props: &str) -> (r: Vec<Segment>)
    ensures
        seg_views(r@) == props_content(props@),
{
    let mut out: Vec<Segment> = Vec::new();
    if props.is_empty() {
        assert(seg_views(out@) =~= Seq::<SegModel>::empty());
        return out;
    }
    let words = split_chars(&chars_of(props), ' ');
    let ghost wv = views(words@);
    let mut i: usize = 0;
    while i < words.len()
        invariant
            i <= words.len(),
            wv == views(words@),
            wv == split_on(props@, ' '),
            seg_views(out@) == word_segs(wv.take(i as int)),
        decreases words.len() - i,
    {
        if i > 0 {
            push_seg(&mut out, raw_seg(" "));
        }
        let w = &words[i];
        let st = prop_style_of(w);
        push_seg(&mut out, Segment { text: string_of(w), style: Some(st) });
        proof {
            let t = wv.take(i + 1);
            assert(t.drop_last() =~= wv.take(i as int));
            assert(t.last() == wv[i as int]);
            if i == 0 {
                assert(seg_views(out@) =~= word_segs(t));
            } else {
                assert(seg_views(out@) =~= word_segs(t));
            }
        }
        i += 1;
    }
    assert(wv.take(words.len() as int) =~= wv);
    out
}

/// The colour of one property word.
fn prop_style_of(w: &Vec<char>) -> (r: Style)
    ensures
        r == prop_style(w@),
{
    if chars_eq(w, &chars_of("READ")) {
        Style { color: Palette::Green, bold: true }
    } else if chars_eq(w, &chars_of("WRITE")) {
        Style { color: Palette::Peach, bold: true }
    } else if chars_eq(w, &chars_of("NO")) || chars_eq(w, &chars_of("RESP")) {
        Style { color: Palette::Peach, bold: true }
    } else if chars_eq(w, &chars_of("NOTIFY")) {
        Style { color: Palette::Yellow, bold: true }
    } else if chars_eq(w, &chars_of("INDICATE")) {
        Style { color: Palette::Red, bold: true }
    } else if chars_eq(w, &chars_of("BROADCAST")) {
        Style { color: Palette::Sky, bold: false }
    } else if chars_eq(w, &chars_of("EXTENDED")) {
        Style { color: Palette::Lavender, bold: false }
    } else if chars_eq(w, &chars_of("AUTH")) || chars_eq(w, &chars_of("SIGNED")) {
        Style { color: Palette::Pink, bold: false }
    } else {
        Style { color: Palette::Text, bold: false }
    }
}

/// `a + b`, or `usize::MAX` where that does not fit.
pub open spec fn cap(n: nat) -> nat {
    if n > usize::MAX {
        usize::MAX as nat
    } else {
        n
    }
}

/// Columns the coloured property words show, capped at `usize::MAX`.
fn props_shown(props: &str) -> (r: usize)
    ensures
        r == cap(props_shown_len(props@)),
{
    if props.is_empty() {
        return 0;
    }
    let words = split_chars(&chars_of(props), ' ');
    let ghost wv = views(words@);
    let mut acc: usize = 0;
    let mut i: usize = 0;
    while i < words.len()
        invariant
            i <= words.len(),
            wv == views(words@),
            wv == split_on(props@, ' '),
            acc == cap(words_shown_len(wv.take(i as int))),
        decreases words.len() - i,
    {
        let n = visible_len(string_of(&words[i]).as_str());
        if i > 0 {
            acc = acc.saturating_add(1);
        }
        acc = acc.saturating_add(n);
        proof {
            let t = wv.take(i + 1);
            assert(t.drop_last() =~= wv.take(i as int));
            assert(t.last() == wv[i as int]);
        }
        i += 1;
    }
    assert(wv.take(words.len() as int) =~= wv);
    acc
}



/// Whether `v` holds `->`.
fn has_arrow(v: &Vec<char>) -> (r: bool)
    ensures
        r == contains_arrow(v@),
{
    let mut i: usize = 0;
    while i < v.len()
        invariant
            i <= v.len(),
            forall|j: int| 0 <= j < i && j + 1 < v.len() ==> !(#[trigger] v@[j] == '-' && v@[j + 1]
                == '>'),
        decreases v.len() - i,
    {
        if i + 1 < v.len() && v[i] == '-' && v[i + 1] == '>' {
            return true;
        }
        i += 1;
    }
    proof {
        if contains_arrow(v@) {
            let j = choose|j: int| 0 <= j && j + 1 < v@.len() && #[trigger] v@[j] == '-' && v@[j + 1]
                == '>';
            assert(!(v@[j] == '-' && v@[j + 1] == '>'));
        }
    }
    false
}

/// The text at line `i`, or nothing past the last line.
pub open spec fn chunk_at(lines: Seq<Seq<char>>, i: nat) -> Seq<char> {
    if i < lines.len() {
        lines[i as int]
    } else {
        seq![]
    }
}

/// A chunk painted in a style, or nothing for an empty chunk.
pub open spec fn painted_chunk(c: Seq<char>, st: Style) -> Seq<SegModel> {
    if c.len() > 0 {
        seq![(c, Some(st))]
    } else {
        seq![]
    }
}

/// Line `li` of an enumerate row: the handles, description and properties
/// on the first line only; the data and ASCII lines side by side.
pub open spec fn enum_line(
    r: EnumRowView,
    ws: Seq<nat>,
    dl: Seq<Seq<char>>,
    al: Seq<Seq<char>>,
    li: nat,
) -> Seq<SegModel> {
    seq![vbar()] + (if li == 0 {
        cell(handles_content(r.handles), sat_sub(ws[0], vis_len(r.handles)))
    } else {
        cell(seq![], ws[0])
    }) + (if li == 0 {
        cell(desc_content(r.description), sat_sub(ws[1], desc_shown_len(r.description)))
    } else {
        cell(seq![], ws[1])
    }) + (if li == 0 {
        cell(props_content(r.properties), sat_sub(ws[2], props_shown_len(r.properties)))
    } else {
        cell(seq![], ws[2])
    }) + cell(
        painted_chunk(chunk_at(dl, li), Style { color: Palette::Flamingo, bold: false }),
        sat_sub(ws[3], vis_len(chunk_at(dl, li))),
    ) + cell(
        painted_chunk(chunk_at(al, li), Style { color: Palette::Yellow, bold: true }),
        sat_sub(ws[4], vis_len(chunk_at(al, li))),
    ) + seq![raw("\n"@)]
}

/// Appends the handles cell of an enumerate line.
fn push_handles_cell(out: &mut Vec<Segment>, h: &str, w: usize, first: bool)
    ensures
        seg_views(final(out)@) == seg_views(old(out)@) + (if first {
            cell(handles_content(h@), sat_sub(w as nat, vis_len(h@)))
        } else {
            cell(seq![], w as nat)
        }),
{
    let ghost start = seg_views(out@);
    push_seg(out, raw_seg(" "));
    if first {
        let hl = visible_len(h);
        if has_arrow(&chars_of(h)) {
            push_seg(out, styled_seg(h, Palette::Sapphire, true));
        } else if !h.is_empty() {
            push_seg(out, styled_seg(h, Palette::Sky, false));
        }
        push_seg(out, pad_seg(w.saturating_sub(hl)));
    } else {
        push_seg(out, pad_seg(w));
    }
    push_seg(out, raw_seg(" "));
    push_seg(out, frame_seg("│"));
    proof {
        if first {
            assert(seg_views(out@) =~= start + cell(handles_content(h@), sat_sub(w as nat, vis_len(h@))));
        } else {
            assert(seg_views(out@) =~= start + cell(seq![], w as nat));
        }
    }
}

/// Appends the description cell of an enumerate line.
fn push_desc_cell(out: &mut Vec<Segment>, d: &str, w: usize, first: bool)
    ensures
        seg_views(final(out)@) == seg_views(old(out)@) + (if first {
            cell(desc_content(d@), sat_sub(w as nat, desc_shown_len(d@)))
        } else {
            cell(seq![], w as nat)
        }),
{
    let ghost start = seg_views(out@);
    push_seg(out, raw_seg(" "));
    if first {
        let dv = chars_of(d);
        assert(dv@.skip(0) =~= dv@);
        let dvis = visible_len(d);
        let dlen: usize;
        if dvis > 0 && !crate::text::starts_with_at(&dv, 0, " ") {
            push_seg(out, raw_seg(d));
            dlen = dvis;
        } else if crate::text::starts_with_at(&dv, 0, "    ") {
            let t = string_of(&crate::text::trim_start_chars(&dv));
            push_seg(out, raw_seg("    "));
            push_seg(out, styled_seg(t.as_str(), Palette::Overlay0, false));
            dlen = visible_len(t.as_str()).saturating_add(4);
        } else if crate::text::starts_with_at(&dv, 0, "  ") {
            let t = string_of(&crate::text::trim_start_chars(&dv));
            push_seg(out, raw_seg("  "));
            push_seg(out, styled_seg(t.as_str(), Palette::Teal, false));
            dlen = visible_len(t.as_str()).saturating_add(2);
        } else {
            push_seg(out, raw_seg(d));
            dlen = dvis;
        }
        assert(sat_sub(w as nat, dlen as nat) == sat_sub(w as nat, desc_shown_len(d@)));
        push_seg(out, pad_seg(w.saturating_sub(dlen)));
    } else {
        push_seg(out, pad_seg(w));
    }
    push_seg(out, raw_seg(" "));
    push_seg(out, frame_seg("│"));
    proof {
        if first {
            assert(seg_views(out@) =~= start + cell(desc_content(d@), sat_sub(w as nat, desc_shown_len(d@))));
        } else {
            assert(seg_views(out@) =~= start + cell(seq![], w as nat));
        }
    }
}

/// Appends the properties cell of an enumerate line.
fn push_props_cell(out: &mut Vec<Segment>, p: &str, w: usize, first: bool)
    ensures
        seg_views(final(out)@) == seg_views(old(out)@) + (if first {
            cell(props_content(p@), sat_sub(w as nat, props_shown_len(p@)))
        } else {
            cell(seq![], w as nat)
        }),
{
    let ghost start = seg_views(out@);
    push_seg(out, raw_seg(" "));
    if first {
        let words = colorize_props(p);
        let mut k: usize = 0;
        let ghost mid = seg_views(out@);
        let ghost wv = seg_views(words@);
        while k < words.len()
            invariant
                k <= words.len(),
                wv == seg_views(words@),
                seg_views(out@) == mid + wv.take(k as int),
            decreases words.len() - k,
        {
            let sg = Segment { text: string_from(words[k].text.as_str()), style: words[k].style };
            push_seg(out, sg);
            assert(wv.take(k + 1) =~= wv.take(k as int).push(wv[k as int]));
            k += 1;
        }
        assert(wv.take(words.len() as int) =~= wv);
        let plen = props_shown(p);
        push_seg(out, pad_seg(w.saturating_sub(plen)));
    } else {
        push_seg(out, pad_seg(w));
    }
    push_seg(out, raw_seg(" "));
    push_seg(out, frame_seg("│"));
    proof {
        if first {
            assert(seg_views(out@) =~= start + cell(props_content(p@), sat_sub(w as nat, props_shown_len(p@))));
        } else {
            assert(seg_views(out@) =~= start + cell(seq![], w as nat));
        }
    }
}

/// Appends a data or ASCII cell: line `li` of the wrapped value.
fn push_chunk_cell(out: &mut Vec<Segment>, lines: &Vec<String>, li: usize, w: usize, st: Style)
    ensures
        seg_views(final(out)@) == seg_views(old(out)@) + cell(
            painted_chunk(chunk_at(crate::text::strs(lines@), li as nat), st),
            sat_sub(w as nat, vis_len(chunk_at(crate::text::strs(lines@), li as nat))),
        ),
{
    let ghost start = seg_views(out@);
    let ghost c = chunk_at(crate::text::strs(lines@), li as nat);
    push_seg(out, raw_seg(" "));
    let mut n: usize = 0;
    if li < lines.len() {
        let t = lines[li].as_str();
        if !t.is_empty() {
            push_seg(out, Segment { text: string_from(t), style: Some(st) });
            n = visible_len(t);
        } else {
            assert(vis_len(t@) == 0);
        }
    }
    push_seg(out, pad_seg(w.saturating_sub(n)));
    push_seg(out, raw_seg(" "));
    push_seg(out, frame_seg("│"));
    assert(seg_views(out@) =~= start + cell(painted_chunk(c, st), sat_sub(w as nat, vis_len(c))));
}

/// Appends line `li` of an enumerate row.
fn push_enum_line(
    out: &mut Vec<Segment>,
    row: &EnumRow,
    ws: &Vec<usize>,
    dl: &Vec<String>,
    al: &Vec<String>,
    li: usize,
)
    requires
        ws.len() == 5,
    ensures
        seg_views(final(out)@) == seg_views(old(out)@) + enum_line(
            row@,
            nats(ws@),
            crate::text::strs(dl@),
            crate::text::strs(al@),
            li as nat,
        ),
{
    let ghost start = seg_views(out@);
    let first = li == 0;
    push_seg(out, frame_seg("│"));
    push_handles_cell(out, row.handles.as_str(), ws[0], first);
    push_desc_cell(out, row.description.as_str(), ws[1], first);
    push_props_cell(out, row.properties.as_str(), ws[2], first);
    push_chunk_cell(out, dl, li, ws[3], Style { color: Palette::Flamingo, bold: false });
    push_chunk_cell(out, al, li, ws[4], Style { color: Palette::Yellow, bold: true });
    push_seg(out, raw_seg("\n"));
    assert(seg_views(out@) =~= start + enum_line(
        row@,
        nats(ws@),
        crate::text::strs(dl@),
        crate::text::strs(al@),
        li as nat,
    ));
}



/// Characters of each line of bytes.
pub open spec fn decode_lines(ls: Seq<Seq<u8>>) -> Seq<Seq<char>> {
    ls.map_values(|b: Seq<u8>| vstd::utf8::decode_utf8(b))
}

/// The data column's lines of a row.
pub open spec fn data_lines(r: EnumRowView, ws: Seq<nat>) -> Seq<Seq<char>> {
    decode_lines(wrap_plain(encode_utf8(r.data), ws[3]))
}

/// The ASCII column's lines of a row.
pub open spec fn ascii_lines(r: EnumRowView, ws: Seq<nat>) -> Seq<Seq<char>> {
    decode_lines(wrap_plain(encode_utf8(r.ascii), ws[4]))
}

/// Lines a row takes: as many as its longer wrapped column, at least one.
pub open spec fn line_count(r: EnumRowView, ws: Seq<nat>) -> nat {
    max_nat(max_nat(data_lines(r, ws).len(), ascii_lines(r, ws).len()), 1)
}

/// The first `n` lines of a row.
pub open spec fn enum_row_lines(r: EnumRowView, ws: Seq<nat>, n: nat) -> Seq<SegModel>
    decreases n,
{
    if n == 0 {
        seq![]
    } else {
        enum_row_lines(r, ws, (n - 1) as nat) + enum_line(
            r,
            ws,
            data_lines(r, ws),
            ascii_lines(r, ws),
            (n - 1) as nat,
        )
    }
}

/// The segments of the first `n` rows.
pub open spec fn enum_rows_segs(rows: Seq<EnumRowView>, ws: Seq<nat>, n: nat) -> Seq<SegModel>
    decreases n,
{
    if n == 0 {
        seq![]
    } else {
        enum_rows_segs(rows, ws, (n - 1) as nat) + enum_row_lines(
            rows[n - 1],
            ws,
            line_count(rows[n - 1], ws),
        )
    }
}

/// Appends all lines of an enumerate row.
fn push_enum_row(out: &mut Vec<Segment>, row: &EnumRow, ws: &Vec<usize>)
    requires
        ws.len() == 5,
        wrap_ok(encode_utf8(row@.data), ws@[3] as nat),
        wrap_ok(encode_utf8(row@.ascii), ws@[4] as nat),
    ensures
        seg_views(final(out)@) == seg_views(old(out)@) + enum_row_lines(
            row@,
            nats(ws@),
            line_count(row@, nats(ws@)),
        ),
{
    broadcast use vstd::utf8::group_utf8_lib;

    let ghost start = seg_views(out@);
    let ghost wn = nats(ws@);
    let dl = wrap_plain_text(row.data.as_str(), ws[3]);
    let al = wrap_plain_text(row.ascii.as_str(), ws[4]);
    proof {
        assert(wn[3] == ws@[3] as nat);
        assert(wn[4] == ws@[4] as nat);
        let d = wrap_plain(encode_utf8(row@.data), wn[3]);
        assert(string_bytes(dl@) == d);
        assert forall|k: int| 0 <= k < dl@.len() implies #[trigger] crate::text::strs(dl@)[k]
            == decode_lines(d)[k] by {
            assert(encode_utf8(dl@[k]@) == d[k]);
            vstd::utf8::encode_utf8_decode_utf8(dl@[k]@);
        }
        assert(crate::text::strs(dl@) =~= data_lines(row@, wn));
        let a = wrap_plain(encode_utf8(row@.ascii), wn[4]);
        assert(string_bytes(al@) == a);
        assert forall|k: int| 0 <= k < al@.len() implies #[trigger] crate::text::strs(al@)[k]
            == decode_lines(a)[k] by {
            assert(encode_utf8(al@[k]@) == a[k]);
            vstd::utf8::encode_utf8_decode_utf8(al@[k]@);
        }
        assert(crate::text::strs(al@) =~= ascii_lines(row@, wn));
    }
    let mut n = if dl.len() > al.len() {
        dl.len()
    } else {
        al.len()
    };
    if n < 1 {
        n = 1;
    }
    assert(n == line_count(row@, wn));
    let mut li: usize = 0;
    while li < n
        invariant
            li <= n,
            ws.len() == 5,
            wn == nats(ws@),
            crate::text::strs(dl@) == data_lines(row@, wn),
            crate::text::strs(al@) == ascii_lines(row@, wn),
            seg_views(out@) == start + enum_row_lines(row@, wn, li as nat),
        decreases n - li,
    {
        push_enum_line(out, row, ws, &dl, &al, li);
        li += 1;
        assert(seg_views(out@) =~= start + enum_row_lines(row@, wn, li as nat));
    }
}

/// What column `k` measures of a row: visible columns of the handles,
/// description and properties, bytes of the data and ASCII text.
pub open spec fn col_measure(r: EnumRowView, k: int) -> nat {
    if k == 0 {
        vis_len(r.handles)
    } else if k == 1 {
        vis_len(r.description)
    } else if k == 2 {
        vis_len(r.properties)
    } else if k == 3 {
        blen(r.data)
    } else {
        blen(r.ascii)
    }
}

/// The width of column `k`'s title.
pub open spec fn col_floor(k: int) -> nat {
    if k == 0 {
        7
    } else if k == 1 {
        25
    } else if k == 2 {
        10
    } else if k == 3 {
        4
    } else {
        5
    }
}

/// Widest content of column `k`, at least its title.
pub open spec fn col_max(rows: Seq<EnumRowView>, k: int) -> nat
    decreases rows.len(),
{
    if rows.len() == 0 {
        col_floor(k)
    } else {
        max_nat(col_max(rows.drop_last(), k), col_measure(rows.last(), k))
    }
}

/// Column widths of the enumerate table on a terminal `tw` columns wide:
/// handles, description and properties fit their content; data and ASCII
/// share what is left, ASCII taking at most a quarter.
pub open spec fn enum_widths(rows: Seq<EnumRowView>, tw: nat) -> Seq<nat> {
    let wh = col_max(rows, 0);
    let wd = col_max(rows, 1);
    let wp = col_max(rows, 2);
    let remaining = sat_sub(tw, wh + wd + wp + 16);
    let wa = max_nat(max_nat(min_nat(col_max(rows, 4), remaining / 4), 5), 5);
    let wdat = max_nat(max_nat(sat_sub(remaining, wa), 4), 8);
    seq![wh, wd, wp, wdat, wa]
}

/// The titles of the enumerate table.
pub open spec fn enum_headers() -> Seq<Seq<char>> {
    seq!["Handles"@, "Service > Characteristics"@, "Properties"@, "Data"@, "ASCII"@]
}

/// The enumerate table as segments.
pub open spec fn enum_table(rows: Seq<EnumRowView>, tw: nat) -> Seq<SegModel> {
    let ws = enum_widths(rows, tw);
    border_line(ws, "┌"@, "┬"@, "┐"@) + header_line(enum_headers(), ws) + border_line(
        ws,
        "├"@,
        "┼"@,
        "┤"@,
    ) + enum_rows_segs(rows, ws, rows.len()) + border_line(ws, "└"@, "┴"@, "┘"@)
}

/// The fixed columns' arithmetic fits in `usize`.
pub open spec fn enum_fits(rows: Seq<EnumRowView>) -> bool {
    col_max(rows, 0) + col_max(rows, 1) + col_max(rows, 2) + 16 <= usize::MAX
}

/// Every data and ASCII value wraps between characters at its column width.
pub open spec fn enum_wraps(rows: Seq<EnumRowView>, tw: nat) -> bool {
    forall|i: int| 0 <= i < rows.len() ==> #[trigger] row_wraps(rows[i], enum_widths(rows, tw))
}

/// A row's data and ASCII values wrap cleanly at their column widths.
pub open spec fn row_wraps(r: EnumRowView, ws: Seq<nat>) -> bool {
    wrap_ok(encode_utf8(r.data), ws[3]) && wrap_ok(encode_utf8(r.ascii), ws[4])
}

pub proof fn lemma_col_max_floor(rows: Seq<EnumRowView>, k: int)
    ensures
        col_max(rows, k) >= col_floor(k),
    decreases rows.len(),
{
    if rows.len() > 0 {
        lemma_col_max_floor(rows.drop_last(), k);
    }
}

/// Measures the columns of the enumerate table.
fn enum_col_maxes(rows: &[EnumRow]) -> (r: Vec<usize>)
    ensures
        r.len() == 5,
        forall|k: int| 0 <= k < 5 ==> r@[k] == col_max(row_views(rows@), k),
{
    let ghost rv = row_views(rows@);
    let mut m0: usize = 7;
    let mut m1: usize = 25;
    let mut m2: usize = 10;
    let mut m3: usize = 4;
    let mut m4: usize = 5;
    let mut i: usize = 0;
    while i < rows.len()
        invariant
            i <= rows.len(),
            rv == row_views(rows@),
            m0 == col_max(rv.take(i as int), 0),
            m1 == col_max(rv.take(i as int), 1),
            m2 == col_max(rv.take(i as int), 2),
            m3 == col_max(rv.take(i as int), 3),
            m4 == col_max(rv.take(i as int), 4),
        decreases rows.len() - i,
    {
        let row = &rows[i];
        let a = visible_len(row.handles.as_str());
        let b = visible_len(row.description.as_str());
        let c = visible_len(row.properties.as_str());
        let d = row.data.as_str().as_bytes().len();
        let e = row.ascii.as_str().as_bytes().len();
        if a > m0 {
            m0 = a;
        }
        if b > m1 {
            m1 = b;
        }
        if c > m2 {
            m2 = c;
        }
        if d > m3 {
            m3 = d;
        }
        if e > m4 {
            m4 = e;
        }
        proof {
            let t = rv.take(i + 1);
            assert(t.drop_last() =~= rv.take(i as int));
            assert(t.last() == rows@[i as int]@);
        }
        i += 1;
    }
    assert(rv.take(rows.len() as int) =~= rv);
    let r = vec![m0, m1, m2, m3, m4];
    r
}

/// Column widths on a terminal `tw` columns wide.
fn enum_col_widths(rows: &[EnumRow], tw: u16) -> (r: Vec<usize>)
    requires
        enum_fits(row_views(rows@)),
    ensures
        r.len() == 5,
        nats(r@) == enum_widths(row_views(rows@), tw as nat),
        forall|k: int| 0 <= k < r.len() ==> r@[k] + 2 <= usize::MAX,
{
    let ghost rv = row_views(rows@);
    let m = enum_col_maxes(rows);
    let wh = m[0];
    let wd = m[1];
    let wp = m[2];
    let fixed_used = wh + wd + wp + 16;
    let remaining = (tw as usize).saturating_sub(fixed_used);
    let mut wa = if m[4] < remaining / 4 {
        m[4]
    } else {
        remaining / 4
    };
    if wa < 5 {
        wa = 5;
    }
    let mut wdat = remaining.saturating_sub(wa);
    if wdat < 4 {
        wdat = 4;
    }
    if wdat < 8 {
        wdat = 8;
    }
    let r = vec![wh, wd, wp, wdat, wa];
    assert(nats(r@) =~= enum_widths(rv, tw as nat));
    r
}

/// The enumerate table as segments, for a terminal `tw` columns wide.
pub fn enumerate_table_segments(rows: &[EnumRow], tw: u16) -> (r: Vec<Segment>)
    requires
        enum_fits(row_views(rows@)),
        enum_wraps(row_views(rows@), tw as nat),
    ensures
        seg_views(r@) == enum_table(row_views(rows@), tw as nat),
{
    let ghost rv = row_views(rows@);
    let ws = enum_col_widths(rows, tw);
    let ghost wn = nats(ws@);
    let headers: Vec<&str> = vec!["Handles", "Service > Characteristics", "Properties", "Data", "ASCII"];
    assert(str_views(headers@) =~= enum_headers());
    let mut out: Vec<Segment> = Vec::new();
    push_border(&mut out, &ws, "┌", "┬", "┐");
    push_header(&mut out, &headers, &ws);
    push_border(&mut out, &ws, "├", "┼", "┤");
    let ghost mid = seg_views(out@);
    let mut i: usize = 0;
    while i < rows.len()
        invariant
            i <= rows.len(),
            rv == row_views(rows@),
            wn == nats(ws@),
            wn == enum_widths(rv, tw as nat),
            ws.len() == 5,
            enum_wraps(rv, tw as nat),
            forall|k: int| 0 <= k < ws.len() ==> ws@[k] + 2 <= usize::MAX,
            seg_views(out@) == mid + enum_rows_segs(rv, wn, i as nat),
        decreases rows.len() - i,
    {
        proof {
            assert(rv[i as int] == rows@[i as int]@);
            assert(row_wraps(rv[i as int], wn));
            assert(wn[3] == ws@[3] as nat && wn[4] == ws@[4] as nat);
        }
        push_enum_row(&mut out, &rows[i], &ws);
        i += 1;
        assert(seg_views(out@) =~= mid + enum_rows_segs(rv, wn, i as nat));
    }
    push_border(&mut out, &ws, "└", "┴", "┘");
    assert(seg_views(out@) =~= enum_table(rv, tw as nat));
    out
}



/// Whether wrapping `s` at `width` cuts only between characters.
pub fn wraps_cleanly(s: &str, width: usize) -> (r: bool)
    ensures
        r == wrap_ok(encode_utf8(s@), width as nat),
{
    broadcast use vstd::utf8::group_utf8_lib;

    if width == 0 {
        return true;
    }
    let mut remaining: &str = s;
    while !remaining.is_empty()
        invariant
            width > 0,
            wrap_ok(encode_utf8(s@), width as nat) == wrap_ok(encode_utf8(remaining@), width as nat),
        decreases encode_utf8(remaining@).len(),
    {
        let ghost rb = encode_utf8(remaining@);
        assert(remaining.spec_bytes() == rb);
        proof {
            vstd::utf8::encode_utf8_valid_utf8(remaining@);
            vstd::utf8::is_char_boundary_start_end_of_seq(rb);
        }
        let bytes = remaining.as_bytes();
        if bytes.len() <= width {
            return true;
        }
        if !remaining.is_char_boundary(width) {
            return false;
        }
        let mut j: usize = width;
        let mut found = false;
        while j > 0
            invariant_except_break
                j <= width < bytes@.len(),
                bytes@ == rb,
                last_break(rb.take(width as int)) == last_break(rb.take(j as int)),
                !found,
            ensures
                j <= width < bytes@.len(),
                bytes@ == rb,
                found ==> j > 0 && rb[j - 1] < 0x80 && last_break(rb.take(width as int)) == Some(
                    (j - 1) as int,
                ),
                !found ==> last_break(rb.take(width as int)) == None::<int>,
            decreases j,
        {
            let c = bytes[j - 1];
            assert(rb.take(j as int).last() == rb[j - 1]);
            if c == 0x20 || c == 0x2c {
                found = true;
                break ;
            }
            assert(rb.take(j as int).drop_last() =~= rb.take(j - 1));
            j -= 1;
        }
        proof {
            if !found {
                assert(rb.take(0) =~= Seq::<u8>::empty());
            }
        }
        let break_at = if found {
            j
        } else {
            width
        };
        proof {
            lemma_cut_range(rb, width as nat);
            assert(break_at == cut_at(rb, width as nat));
            if found {
                lemma_boundary_after_ascii(rb, j - 1);
            }
        }
        let (_, tail) = remaining.split_at(break_at);
        assert(tail.spec_bytes() =~= rb.skip(break_at as int));
        remaining = tail;
    }
    assert(remaining@ =~= Seq::<char>::empty());
    true
}

/// Whether every data and ASCII value wraps cleanly at this width.
pub fn enum_wraps_check(rows: &[EnumRow], tw: u16) -> (r: bool)
    requires
        enum_fits(row_views(rows@)),
    ensures
        r == enum_wraps(row_views(rows@), tw as nat),
{
    let ghost rv = row_views(rows@);
    let ws = enum_col_widths(rows, tw);
    let ghost wn = nats(ws@);
    let mut i: usize = 0;
    while i < rows.len()
        invariant
            i <= rows.len(),
            rv == row_views(rows@),
            wn == nats(ws@),
            wn == enum_widths(rv, tw as nat),
            ws.len() == 5,
            forall|k: int| 0 <= k < i ==> #[trigger] row_wraps(rv[k], wn),
        decreases rows.len() - i,
    {
        assert(rv[i as int] == rows@[i as int]@);
        assert(wn[3] == ws@[3] as nat && wn[4] == ws@[4] as nat);
        let ok = wraps_cleanly(rows[i].data.as_str(), ws[3]) && wraps_cleanly(
            rows[i].ascii.as_str(),
            ws[4],
        );
        assert(ok == row_wraps(rv[i as int], wn));
        if !ok {
            return false;
        }
        i += 1;
    }
    true
}


/// Whether the enumerate table's fixed columns can be added up in `usize`.
pub fn enum_fits_check(rows: &[EnumRow]) -> (r: bool)
    ensures
        r == enum_fits(row_views(rows@)),
{
    let m = enum_col_maxes(rows);
    let a = m[0];
    let b = m[1];
    let c = m[2];
    if a > usize::MAX - 16 {
        return false;
    }
    if b > usize::MAX - 16 - a {
        return false;
    }
    c <= usize::MAX - 16 - a - b
}

/// Renders the enumerate table for a terminal `tw` columns wide.
pub fn render_enumerate_table_width(rows: &[EnumRow], tw: u16) -> (r: String)
    requires
        enum_fits(row_views(rows@)),
        enum_wraps(row_views(rows@), tw as nat),
    ensures
        painted_all(r@, enum_table(row_views(rows@), tw as nat)),
{
    paint_segments(&enumerate_table_segments(rows, tw))
}

/// Renders the enumerate table for the terminal, or `None` where a data or
/// ASCII value would be cut inside a multi-byte character at its width.
pub fn render_enumerate_table(rows: &[EnumRow]) -> (r: Option<String>)
    requires
        enum_fits(row_views(rows@)),
    ensures
        exists|tw: u16|
            (r is None <==> !enum_wraps(row_views(rows@), tw as nat)) && (r matches Some(s)
                ==> painted_all(s@, enum_table(row_views(rows@), tw as nat))),
{
    let tw = term_width();
    if enum_wraps_check(rows, tw) {
        Some(render_enumerate_table_width(rows, tw))
    } else {
        None
    }
}



// ───────────────────────────── enumerate rows ─────────────────────────────

/// Formats bytes as space-separated hex pairs for the Data column.
pub fn format_data_hex(data: &[u8]) -> (r: String)
    ensures
        r@ == crate::text::trim_end(crate::output::hex_bytes_text(data@)),
{
    if data.len() == 0 {
        let r = String::new();
        assert(crate::output::hex_bytes_text(data@) =~= Seq::<char>::empty());
        return r;
    }
    let hex = crate::output::format_hex_bytes(data);
    string_of(&crate::output::trim_end_string(&hex))
}

/// A row the enumerate table is to show.
pub enum RowPlan {
    Service { start: u16, end: u16, uuid: Seq<char> },
    Char { value_handle: u16, uuid: Seq<char>, properties: u8, data: Option<Seq<u8>> },
    Desc { handle: u16, uuid: Seq<char> },
    Separator,
}

/// A row holds what its plan says; a service's UUID is painted in bold blue.
pub open spec fn row_fits(r: EnumRowView, p: RowPlan) -> bool {
    match p {
        RowPlan::Service { start, end, uuid } => {
            &&& r.handles == crate::text::hex4(start) + " -> "@ + crate::text::hex4(end)
            &&& crate::style::paint_outcome(r.description, uuid)
            &&& r.properties == Seq::<char>::empty()
            &&& r.data == Seq::<char>::empty()
            &&& r.ascii == Seq::<char>::empty()
        },
        RowPlan::Char { value_handle, uuid, properties, data } => {
            &&& r.handles == "     "@ + crate::text::hex4(value_handle)
            &&& r.description == "  "@ + uuid
            &&& r.properties == crate::handle_table::props_text(properties)
            &&& r.data == (match data {
                Some(d) => crate::text::trim_end(crate::output::hex_bytes_text(d)),
                None => Seq::<char>::empty(),
            })
            &&& r.ascii == (match data {
                Some(d) => crate::output::ascii_text(d),
                None => Seq::<char>::empty(),
            })
        },
        RowPlan::Desc { handle, uuid } => {
            &&& r.handles == "     "@ + crate::text::hex4(handle)
            &&& r.description == "    "@ + uuid
            &&& r.properties == Seq::<char>::empty()
            &&& r.data == Seq::<char>::empty()
            &&& r.ascii == Seq::<char>::empty()
        },
        RowPlan::Separator => {
            &&& r.handles == Seq::<char>::empty()
            &&& r.description == Seq::<char>::empty()
            &&& r.properties == Seq::<char>::empty()
            &&& r.data == Seq::<char>::empty()
            &&& r.ascii == Seq::<char>::empty()
        },
    }
}

/// The row of a service: its handle range, and its UUID in bold blue.
pub fn enum_service_row(start: u16, end: u16, uuid: &str) -> (r: EnumRow)
    ensures
        row_fits(r@, RowPlan::Service { start, end, uuid: uuid@ }),
{
    let mut handles = String::new();
    crate::text::push_hex4(&mut handles, start);
    crate::text::push_str(&mut handles, " -> ");
    crate::text::push_hex4(&mut handles, end);
    let (r, g, b) = crate::style::rgb(Palette::Blue);
    EnumRow {
        handles,
        description: crate::style::ctp_bold(uuid, r, g, b),
        properties: String::new(),
        data: String::new(),
        ascii: String::new(),
    }
}

/// The row of a characteristic: its value handle, UUID, properties and,
/// when it was read, its value in hex and ASCII.
pub fn enum_char_row(value_handle: u16, uuid: &str, props_str: &str, data: Option<&[u8]>) -> (r:
    EnumRow)
    ensures
        r@.handles == "     "@ + crate::text::hex4(value_handle),
        r@.description == "  "@ + uuid@,
        r@.properties == props_str@,
        r@.data == (match data {
            Some(d) => crate::text::trim_end(crate::output::hex_bytes_text(d@)),
            None => Seq::<char>::empty(),
        }),
        r@.ascii == (match data {
            Some(d) => crate::output::ascii_text(d@),
            None => Seq::<char>::empty(),
        }),
{
    let (data_str, ascii_str) = match data {
        Some(d) => (format_data_hex(d), crate::output::format_data_ascii(d)),
        None => (String::new(), String::new()),
    };
    let mut handles = String::new();
    crate::text::push_str(&mut handles, "     ");
    crate::text::push_hex4(&mut handles, value_handle);
    let mut description = String::new();
    crate::text::push_str(&mut description, "  ");
    crate::text::push_str(&mut description, uuid);
    EnumRow {
        handles,
        description,
        properties: string_from(props_str),
        data: data_str,
        ascii: ascii_str,
    }
}

/// The row of a descriptor: its handle and UUID, indented further.
pub fn enum_desc_row(handle: u16, uuid: &str) -> (r: EnumRow)
    ensures
        row_fits(r@, RowPlan::Desc { handle, uuid: uuid@ }),
{
    let mut handles = String::new();
    crate::text::push_str(&mut handles, "     ");
    crate::text::push_hex4(&mut handles, handle);
    let mut description = String::new();
    crate::text::push_str(&mut description, "    ");
    crate::text::push_str(&mut description, uuid);
    EnumRow {
        handles,
        description,
        properties: String::new(),
        data: String::new(),
        ascii: String::new(),
    }
}

/// The empty row between services.
pub fn enum_separator_row() -> (r: EnumRow)
    ensures
        row_fits(r@, RowPlan::Separator),
{
    EnumRow {
        handles: String::new(),
        description: String::new(),
        properties: String::new(),
        data: String::new(),
        ascii: String::new(),
    }
}



// ───────────────────────────── device information table ─────────────────────────────

/// The colour of a device information value, by key (and, for the yes/no
/// keys, by value).
pub open spec fn info_style(k: Seq<char>, v: Seq<char>) -> Style {
    if k == "Address"@ {
        Style { color: Palette::Rosewater, bold: true }
    } else if k == "Name"@ || k == "Alias"@ {
        Style { color: Palette::Yellow, bold: true }
    } else if k == "RSSI"@ || k == "TX Power"@ {
        Style { color: Palette::Sky, bold: false }
    } else if k == "Connected"@ {
        if v == "Yes"@ {
            Style { color: Palette::Green, bold: true }
        } else {
            Style { color: Palette::Red, bold: false }
        }
    } else if k == "Paired"@ || k == "Trusted"@ {
        if v == "Yes"@ {
            Style { color: Palette::Green, bold: false }
        } else {
            Style { color: Palette::Subtext0, bold: false }
        }
    } else if k == "Address Type"@ || k == "Adapter"@ {
        Style { color: Palette::Lavender, bold: false }
    } else if crate::text::starts_with(k, "Manufacturer"@) {
        Style { color: Palette::Flamingo, bold: false }
    } else if k == "Service UUIDs"@ {
        Style { color: Palette::Teal, bold: false }
    } else if k == "Appearance"@ {
        Style { color: Palette::Pink, bold: false }
    } else {
        Style { color: Palette::Text, bold: false }
    }
}

/// Colours a device information value by its key.
pub fn colorize_info_value(key: &str, val: &str) -> (r: Segment)
    ensures
        r@ == (val@, Some(info_style(key@, val@))),
{
    let k = chars_of(key);
    let v = chars_of(val);
    let yes = chars_eq(&v, &chars_of("Yes"));
    let st = if chars_eq(&k, &chars_of("Address")) {
        Style { color: Palette::Rosewater, bold: true }
    } else if chars_eq(&k, &chars_of("Name")) || chars_eq(&k, &chars_of("Alias")) {
        Style { color: Palette::Yellow, bold: true }
    } else if chars_eq(&k, &chars_of("RSSI")) || chars_eq(&k, &chars_of("TX Power")) {
        Style { color: Palette::Sky, bold: false }
    } else if chars_eq(&k, &chars_of("Connected")) {
        if yes {
            Style { color: Palette::Green, bold: true }
        } else {
            Style { color: Palette::Red, bold: false }
        }
    } else if chars_eq(&k, &chars_of("Paired")) || chars_eq(&k, &chars_of("Trusted")) {
        if yes {
            Style { color: Palette::Green, bold: false }
        } else {
            Style { color: Palette::Subtext0, bold: false }
        }
    } else if chars_eq(&k, &chars_of("Address Type")) || chars_eq(&k, &chars_of("Adapter")) {
        Style { color: Palette::Lavender, bold: false }
    } else if {
        assert(k@.skip(0) =~= k@);
        crate::text::starts_with_at(&k, 0, "Manufacturer")
    } {
        Style { color: Palette::Flamingo, bold: false }
    } else if chars_eq(&k, &chars_of("Service UUIDs")) {
        Style { color: Palette::Teal, bold: false }
    } else if chars_eq(&k, &chars_of("Appearance")) {
        Style { color: Palette::Pink, bold: false }
    } else {
        Style { color: Palette::Text, bold: false }
    };
    Segment { text: string_from(val), style: Some(st) }
}

/// Key-value pairs as texts.
pub open spec fn info_views(v: Seq<(String, String)>) -> Seq<(Seq<char>, Seq<char>)> {
    v.map_values(|e: (String, String)| (e.0@, e.1@))
}

/// The value under the first `Address` key, or nothing.
pub open spec fn title_of(info: Seq<(Seq<char>, Seq<char>)>) -> Seq<char>
    decreases info.len(),
{
    if info.len() == 0 {
        seq![]
    } else if info[0].0 == "Address"@ {
        info[0].1
    } else {
        title_of(info.drop_first())
    }
}

/// Widest key, in bytes.
pub open spec fn key_width(info: Seq<(Seq<char>, Seq<char>)>) -> nat
    decreases info.len(),
{
    if info.len() == 0 {
        0
    } else {
        max_nat(key_width(info.drop_last()), blen(info.last().0))
    }
}

/// Widest value, in visible columns.
pub open spec fn value_width(info: Seq<(Seq<char>, Seq<char>)>) -> nat
    decreases info.len(),
{
    if info.len() == 0 {
        0
    } else {
        max_nat(value_width(info.drop_last()), vis_len(info.last().1))
    }
}

/// Columns the title shows: the address between two spaces.
pub open spec fn title_len(info: Seq<(Seq<char>, Seq<char>)>) -> nat {
    2 + vis_len(title_of(info))
}

/// Columns inside the frame on a terminal `tw` columns wide: the content
/// or the title, whichever is wider, but no wider than the terminal.
pub open spec fn info_inner(info: Seq<(Seq<char>, Seq<char>)>, tw: nat) -> nat {
    min_nat(max_nat(key_width(info) + 3 + value_width(info), title_len(info)), sat_sub(tw, 2))
}

/// Columns left for the values.
pub open spec fn info_value_cols(info: Seq<(Seq<char>, Seq<char>)>, tw: nat) -> nat {
    sat_sub(info_inner(info, tw), key_width(info) + 3)
}

/// The top border, carrying the address as a title.
pub open spec fn info_top(info: Seq<(Seq<char>, Seq<char>)>, tw: nat) -> Seq<SegModel> {
    let t = title_of(info);
    let total = info_inner(info, tw);
    seq![frame("┌"@)] + (if t.len() > 0 {
        seq![raw(" "@), bold(t, Palette::Peach), raw(" "@)] + rep(
            frame("─"@),
            (total + 2 - title_len(info)) as nat,
        )
    } else {
        rep(frame("─"@), total + 2)
    }) + seq![frame("┐"@), raw("\n"@)]
}

/// The start of an entry's line: the key in bold mauve.
pub open spec fn info_key_part(k: Seq<char>, kw: nat) -> Seq<SegModel> {
    seq![vbar(), raw(" "@), bold(k, Palette::Mauve), pad(sat_sub(kw, blen(k))), raw(" "@), vbar(), raw(" "@)]
}

/// The end of a line: a value chunk in its colour, padded.
pub open spec fn info_value_part(k: Seq<char>, v: Seq<char>, vw: nat) -> Seq<SegModel> {
    seq![(v, Some(info_style(k, v))), pad(sat_sub(vw, vis_len(v))), raw(" "@), vbar(), raw("\n"@)]
}

/// The first `n` lines of a wrapped value; lines after the first have an
/// empty key cell.
pub open spec fn info_chunks(k: Seq<char>, cs: Seq<Seq<char>>, kw: nat, vw: nat, n: nat) -> Seq<SegModel>
    decreases n,
{
    if n == 0 {
        seq![]
    } else {
        info_chunks(k, cs, kw, vw, (n - 1) as nat) + (if n - 1 > 0 {
            seq![vbar(), raw(" "@), pad(kw), raw(" "@), vbar(), raw(" "@)]
        } else {
            seq![]
        }) + info_value_part(k, cs[n - 1], vw)
    }
}

/// The lines of one entry: on one line where the value fits, else wrapped.
pub open spec fn info_entry(k: Seq<char>, v: Seq<char>, kw: nat, vw: nat) -> Seq<SegModel> {
    if vis_len(v) <= vw {
        info_key_part(k, kw) + info_value_part(k, v, vw)
    } else {
        let cs = decode_lines(wrap_plain(encode_utf8(v), vw));
        info_key_part(k, kw) + info_chunks(k, cs, kw, vw, cs.len())
    }
}

/// The lines of the first `n` entries.
pub open spec fn info_entries(info: Seq<(Seq<char>, Seq<char>)>, kw: nat, vw: nat, n: nat) -> Seq<SegModel>
    decreases n,
{
    if n == 0 {
        seq![]
    } else {
        info_entries(info, kw, vw, (n - 1) as nat) + info_entry(info[n - 1].0, info[n - 1].1, kw, vw)
    }
}

/// The device information table as segments (nothing for no entries).
pub open spec fn info_table(info: Seq<(Seq<char>, Seq<char>)>, tw: nat) -> Seq<SegModel> {
    if info.len() == 0 {
        seq![]
    } else {
        let total = info_inner(info, tw);
        info_top(info, tw) + info_entries(info, key_width(info), info_value_cols(info, tw), info.len())
            + seq![frame("└"@)] + rep(frame("─"@), total + 2) + seq![frame("┘"@), raw("\n"@)]
    }
}

/// The widths' arithmetic fits in `usize`.
pub open spec fn info_fits(info: Seq<(Seq<char>, Seq<char>)>) -> bool {
    key_width(info) + 3 + value_width(info) + 2 <= usize::MAX
}

/// An entry's value wraps between characters where it is wrapped.
pub open spec fn entry_wraps(v: Seq<char>, vw: nat) -> bool {
    vis_len(v) > vw ==> wrap_ok(encode_utf8(v), vw)
}

/// The table can be drawn at this width: the title fits in the top border
/// and every wrapped value is cut between characters.
pub open spec fn info_renders(info: Seq<(Seq<char>, Seq<char>)>, tw: nat) -> bool {
    &&& (title_of(info).len() > 0 ==> info_inner(info, tw) + 2 >= title_len(info))
    &&& forall|i: int|
        0 <= i < info.len() ==> #[trigger] entry_wraps(info[i].1, info_value_cols(info, tw))
}

proof fn lemma_title_width(info: Seq<(Seq<char>, Seq<char>)>)
    ensures
        vis_len(title_of(info)) <= value_width(info),
    decreases info.len(),
{
    if info.len() > 0 {
        lemma_title_width(info.drop_first());
        lemma_value_width_first(info);
    }
}

proof fn lemma_value_width_first(info: Seq<(Seq<char>, Seq<char>)>)
    requires
        info.len() > 0,
    ensures
        vis_len(info[0].1) <= value_width(info),
        value_width(info.drop_first()) <= value_width(info),
    decreases info.len(),
{
    if info.len() > 1 {
        lemma_value_width_first(info.drop_last());
        assert(info.drop_last()[0] == info[0]);
        assert(info.drop_first().drop_last() =~= info.drop_last().drop_first());
        assert(info.drop_first().last() == info.last());
    } else {
        assert(info.drop_first().len() == 0);
        assert(info.drop_last().len() == 0);
    }
}

/// Measures the keys, the values and the title.
fn info_measure(info: &[(String, String)]) -> (r: (usize, usize, Option<usize>))
    ensures
        r.0 == key_width(info_views(info@)),
        r.1 == value_width(info_views(info@)),
        r.2 matches Some(k) ==> k < info@.len() && title_of(info_views(info@)) == info@[k as int].1@,
        r.2 is None ==> title_of(info_views(info@)) == Seq::<char>::empty(),
{
    let ghost iv = info_views(info@);
    let mut kw: usize = 0;
    let mut vw: usize = 0;
    let mut i: usize = 0;
    while i < info.len()
        invariant
            i <= info.len(),
            iv == info_views(info@),
            kw == key_width(iv.take(i as int)),
            vw == value_width(iv.take(i as int)),
        decreases info.len() - i,
    {
        let a = info[i].0.as_str().as_bytes().len();
        let b = visible_len(info[i].1.as_str());
        if a > kw {
            kw = a;
        }
        if b > vw {
            vw = b;
        }
        proof {
            let t = iv.take(i + 1);
            assert(t.drop_last() =~= iv.take(i as int));
            assert(t.last() == (info@[i as int].0@, info@[i as int].1@));
        }
        i += 1;
    }
    assert(iv.take(info.len() as int) =~= iv);
    let mut j: usize = 0;
    let addr = chars_of("Address");
    assert(iv.skip(0) =~= iv);
    while j < info.len()
        invariant
            j <= info.len(),
            iv == info_views(info@),
            addr@ == "Address"@,
            kw == key_width(iv),
            vw == value_width(iv),
            title_of(iv) == title_of(iv.skip(j as int)),
        decreases info.len() - j,
    {
        assert(iv.skip(j as int)[0] == (info@[j as int].0@, info@[j as int].1@));
        assert(iv.skip(j as int).drop_first() =~= iv.skip(j + 1));
        if chars_eq(&chars_of(info[j].0.as_str()), &addr) {
            return (kw, vw, Some(j));
        }
        j += 1;
    }
    assert(iv.skip(j as int).len() == 0);
    (kw, vw, None)
}



/// The title text (the address), as a string.
fn info_title(info: &[(String, String)], t: Option<usize>) -> (r: String)
    requires
        t matches Some(k) ==> k < info@.len() && title_of(info_views(info@)) == info@[k as int].1@,
        t is None ==> title_of(info_views(info@)) == Seq::<char>::empty(),
    ensures
        r@ == title_of(info_views(info@)),
{
    match t {
        Some(k) => string_from(info[k].1.as_str()),
        None => String::new(),
    }
}

/// The table's measures: key width, inner width, value columns and title.
fn info_dims(info: &[(String, String)], tw: u16) -> (r: (usize, usize, usize, String, usize))
    requires
        info_fits(info_views(info@)),
    ensures
        r.0 == key_width(info_views(info@)),
        r.1 == info_inner(info_views(info@), tw as nat),
        r.2 == info_value_cols(info_views(info@), tw as nat),
        r.3@ == title_of(info_views(info@)),
        r.4 == title_len(info_views(info@)),
        r.1 <= tw,
{
    let ghost iv = info_views(info@);
    let (kw, vw0, t) = info_measure(info);
    let title = info_title(info, t);
    proof {
        lemma_title_width(iv);
    }
    let title_vis = visible_len(title.as_str()) + 2;
    let inner = kw + 3 + vw0;
    let wider = if inner >= title_vis {
        inner
    } else {
        title_vis
    };
    let room = (tw as usize).saturating_sub(2);
    let total = if wider <= room {
        wider
    } else {
        room
    };
    let vw = total.saturating_sub(kw + 3);
    (kw, total, vw, title, title_vis)
}

/// Appends the lines of one entry.
fn push_info_entry(out: &mut Vec<Segment>, k: &str, v: &str, kw: usize, vw: usize)
    requires
        entry_wraps(v@, vw as nat),
    ensures
        seg_views(final(out)@) == seg_views(old(out)@) + info_entry(k@, v@, kw as nat, vw as nat),
{
    broadcast use vstd::utf8::group_utf8_lib;

    let ghost start = seg_views(out@);
    push_seg(out, frame_seg("│"));
    push_seg(out, raw_seg(" "));
    push_seg(out, styled_seg(k, Palette::Mauve, true));
    push_seg(out, pad_seg(kw.saturating_sub(k.as_bytes().len())));
    push_seg(out, raw_seg(" "));
    push_seg(out, frame_seg("│"));
    push_seg(out, raw_seg(" "));
    let ghost keyed = seg_views(out@);
    assert(keyed =~= start + info_key_part(k@, kw as nat));
    let vlen = visible_len(v);
    if vlen <= vw {
        push_seg(out, colorize_info_value(k, v));
        push_seg(out, pad_seg(vw - vlen));
        push_seg(out, raw_seg(" "));
        push_seg(out, frame_seg("│"));
        push_seg(out, raw_seg("\n"));
        assert(seg_views(out@) =~= start + info_entry(k@, v@, kw as nat, vw as nat));
    } else {
        let chunks = wrap_plain_text(v, vw);
        let ghost d = wrap_plain(encode_utf8(v@), vw as nat);
        proof {
            assert forall|j: int| 0 <= j < chunks@.len() implies #[trigger] crate::text::strs(
                chunks@,
            )[j] == decode_lines(d)[j] by {
                assert(encode_utf8(chunks@[j]@) == d[j]);
                vstd::utf8::encode_utf8_decode_utf8(chunks@[j]@);
            }
        }
        let ghost cs = crate::text::strs(chunks@);
        assert(cs =~= decode_lines(d));
        let mut ci: usize = 0;
        while ci < chunks.len()
            invariant
                ci <= chunks.len(),
                cs == crate::text::strs(chunks@),
                seg_views(out@) == keyed + info_chunks(k@, cs, kw as nat, vw as nat, ci as nat),
            decreases chunks.len() - ci,
        {
            let ghost before = seg_views(out@);
            if ci > 0 {
                push_seg(out, frame_seg("│"));
                push_seg(out, raw_seg(" "));
                push_seg(out, pad_seg(kw));
                push_seg(out, raw_seg(" "));
                push_seg(out, frame_seg("│"));
                push_seg(out, raw_seg(" "));
            }
            let c = chunks[ci].as_str();
            assert(c@ == cs[ci as int]);
            push_seg(out, colorize_info_value(k, c));
            push_seg(out, pad_seg(vw.saturating_sub(visible_len(c))));
            push_seg(out, raw_seg(" "));
            push_seg(out, frame_seg("│"));
            push_seg(out, raw_seg("\n"));
            ci += 1;
            assert(seg_views(out@) =~= keyed + info_chunks(k@, cs, kw as nat, vw as nat, ci as nat));
        }
        assert(seg_views(out@) =~= start + info_entry(k@, v@, kw as nat, vw as nat));
    }
}

/// The device information table as segments, for a terminal `tw` columns wide.
pub fn device_info_table_segments(info: &[(String, String)], tw: u16) -> (r: Vec<Segment>)
    requires
        info_fits(info_views(info@)),
        info_renders(info_views(info@), tw as nat),
    ensures
        seg_views(r@) == info_table(info_views(info@), tw as nat),
{
    let ghost iv = info_views(info@);
    let mut out: Vec<Segment> = Vec::new();
    if info.len() == 0 {
        assert(seg_views(out@) =~= Seq::<SegModel>::empty());
        return out;
    }
    let (kw, total, vw, title, title_vis) = info_dims(info, tw);
    let surface = Some(Style { color: Palette::Surface1, bold: false });
    push_seg(&mut out, frame_seg("┌"));
    if !title.as_str().is_empty() {
        push_seg(&mut out, raw_seg(" "));
        push_seg(&mut out, styled_seg(title.as_str(), Palette::Peach, true));
        push_seg(&mut out, raw_seg(" "));
        push_rep(&mut out, "─", surface, total + 2 - title_vis);
    } else {
        push_rep(&mut out, "─", surface, total + 2);
    }
    push_seg(&mut out, frame_seg("┐"));
    push_seg(&mut out, raw_seg("\n"));
    let ghost top = seg_views(out@);
    assert(top =~= info_top(iv, tw as nat));
    let mut i: usize = 0;
    while i < info.len()
        invariant
            i <= info.len(),
            iv == info_views(info@),
            info_renders(iv, tw as nat),
            kw == key_width(iv),
            vw == info_value_cols(iv, tw as nat),
            seg_views(out@) == top + info_entries(iv, kw as nat, vw as nat, i as nat),
        decreases info.len() - i,
    {
        assert(iv[i as int] == (info@[i as int].0@, info@[i as int].1@));
        assert(entry_wraps(iv[i as int].1, vw as nat));
        push_info_entry(&mut out, info[i].0.as_str(), info[i].1.as_str(), kw, vw);
        i += 1;
        assert(seg_views(out@) =~= top + info_entries(iv, kw as nat, vw as nat, i as nat));
    }
    push_seg(&mut out, frame_seg("└"));
    push_rep(&mut out, "─", surface, total + 2);
    push_seg(&mut out, frame_seg("┘"));
    push_seg(&mut out, raw_seg("\n"));
    assert(seg_views(out@) =~= info_table(iv, tw as nat));
    out
}

/// Whether the device information table can be drawn at this width.
pub fn info_renders_check(info: &[(String, String)], tw: u16) -> (r: bool)
    requires
        info_fits(info_views(info@)),
    ensures
        r == info_renders(info_views(info@), tw as nat),
{
    let ghost iv = info_views(info@);
    let (_kw, total, vw, title, title_vis) = info_dims(info, tw);
    if !title.as_str().is_empty() && total + 2 < title_vis {
        return false;
    }
    let mut i: usize = 0;
    while i < info.len()
        invariant
            i <= info.len(),
            iv == info_views(info@),
            vw == info_value_cols(iv, tw as nat),
            title_of(iv).len() > 0 ==> info_inner(iv, tw as nat) + 2 >= title_len(iv),
            forall|j: int| 0 <= j < i ==> #[trigger] entry_wraps(iv[j].1, vw as nat),
        decreases info.len() - i,
    {
        assert(iv[i as int] == (info@[i as int].0@, info@[i as int].1@));
        let v = info[i].1.as_str();
        if visible_len(v) > vw && !wraps_cleanly(v, vw) {
            assert(!entry_wraps(iv[i as int].1, vw as nat));
            return false;
        }
        assert(entry_wraps(iv[i as int].1, vw as nat));
        i += 1;
    }
    true
}


/// Whether the device information table's widths can be added up in
/// `usize`.
pub fn info_fits_check(info: &[(String, String)]) -> (r: bool)
    ensures
        r == info_fits(info_views(info@)),
{
    let (kw, vw, _t) = info_measure(info);
    if kw > usize::MAX - 5 {
        return false;
    }
    vw <= usize::MAX - 5 - kw
}

/// Whether the title fits in the top border at this width (where it does
/// not, the border's length would be negative).
pub fn info_title_fits(info: &[(String, String)], tw: u16) -> (r: bool)
    requires
        info_fits(info_views(info@)),
    ensures
        r == (title_of(info_views(info@)).len() > 0 ==> info_inner(info_views(info@), tw as nat) + 2
            >= title_len(info_views(info@))),
{
    let (_kw, total, _vw, title, title_vis) = info_dims(info, tw);
    title.as_str().is_empty() || total + 2 >= title_vis
}

/// Renders the device information table for a terminal `tw` columns wide.
pub fn render_device_info_table_width(info: &[(String, String)], tw: u16) -> (r: String)
    requires
        info_fits(info_views(info@)),
        info_renders(info_views(info@), tw as nat),
    ensures
        painted_all(r@, info_table(info_views(info@), tw as nat)),
{
    paint_segments(&device_info_table_segments(info, tw))
}

/// Renders the device information table for the terminal, or `None` where
/// the title does not fit the terminal or a long value would be cut inside
/// a multi-byte character.
pub fn render_device_info_table(info: &[(String, String)]) -> (r: Option<String>)
    requires
        info_fits(info_views(info@)),
    ensures
        exists|tw: u16|
            (r is None <==> !info_renders(info_views(info@), tw as nat)) && (r matches Some(s)
                ==> painted_all(s@, info_table(info_views(info@), tw as nat))),
{
    let tw = term_width();
    if info_renders_check(info, tw) {
        Some(render_device_info_table_width(info, tw))
    } else {
        None
    }
}



// ───────────────────────────── scan results table ─────────────────────────────

/// An address type as the scan table shows it.
pub open spec fn type_text(t: Option<AddrType>) -> Seq<char> {
    match t {
        Some(AddrType::LePublic) => "public"@,
        Some(AddrType::LeRandom) => "random"@,
        Some(AddrType::BrEdr) => "BR/EDR"@,
        None => "unknown"@,
    }
}

/// Formats an address type for display.
pub fn format_addr_type(addr_type: Option<AddrType>) -> (r: String)
    ensures
        r@ == type_text(addr_type),
{
    match addr_type {
        Some(AddrType::LePublic) => string_from("public"),
        Some(AddrType::LeRandom) => string_from("random"),
        Some(AddrType::BrEdr) => string_from("BR/EDR"),
        None => string_from("unknown"),
    }
}

/// The RSSI as the scan table shows it.
pub open spec fn rssi_text(r: Option<i16>) -> Seq<char> {
    match r {
        Some(x) => crate::text::int_str(x as int) + " dBm"@,
        None => "n/a"@,
    }
}

fn rssi_string(r: Option<i16>) -> (s: String)
    ensures
        s@ == rssi_text(r),
{
    match r {
        Some(x) => {
            let mut s = String::new();
            crate::text::push_int(&mut s, x as i64);
            crate::text::push_str(&mut s, " dBm");
            s
        },
        None => string_from("n/a"),
    }
}

/// RSSI colours: green for strong, yellow, peach, red for weak.
pub open spec fn rssi_style(r: Option<i16>) -> Style {
    match r {
        Some(x) => if x >= -50 {
            Style { color: Palette::Green, bold: true }
        } else if x >= -70 {
            Style { color: Palette::Yellow, bold: false }
        } else if x >= -85 {
            Style { color: Palette::Peach, bold: false }
        } else {
            Style { color: Palette::Red, bold: false }
        },
        None => Style { color: Palette::Overlay0, bold: false },
    }
}

/// Colours an RSSI text by its strength.
pub fn colorize_rssi(s: &str, rssi: Option<i16>) -> (r: Segment)
    ensures
        r@ == (s@, Some(rssi_style(rssi))),
{
    let st = match rssi {
        Some(x) => if x >= -50 {
            Style { color: Palette::Green, bold: true }
        } else if x >= -70 {
            Style { color: Palette::Yellow, bold: false }
        } else if x >= -85 {
            Style { color: Palette::Peach, bold: false }
        } else {
            Style { color: Palette::Red, bold: false }
        },
        None => Style { color: Palette::Overlay0, bold: false },
    };
    Segment { text: string_from(s), style: Some(st) }
}

/// A device's name, or nothing.
pub open spec fn name_text(d: DevModel) -> Seq<char> {
    match d.name {
        Some(n) => n,
        None => seq![],
    }
}

/// What column `k` of the scan table measures of a device, in bytes.
pub open spec fn scan_measure(d: DevModel, k: int) -> nat {
    if k == 0 {
        17
    } else if k == 1 {
        blen(type_text(d.addr_type))
    } else if k == 2 {
        blen(rssi_text(d.rssi))
    } else {
        blen(name_text(d))
    }
}

/// Widest content of column `k`, at least its title.
pub open spec fn scan_col(devs: Seq<DevModel>, k: int) -> nat
    decreases devs.len(),
{
    if devs.len() == 0 {
        if k == 0 {
            7
        } else {
            4
        }
    } else {
        max_nat(scan_col(devs.drop_last(), k), scan_measure(devs.last(), k))
    }
}

/// Column widths of the scan table: the name column is capped to what the
/// terminal leaves, but never below eight.
pub open spec fn scan_widths(devs: Seq<DevModel>, tw: nat) -> Seq<nat> {
    let w0 = scan_col(devs, 0);
    let w1 = scan_col(devs, 1);
    let w2 = scan_col(devs, 2);
    let max_name = max_nat(max_nat(sat_sub(tw, w0 + w1 + w2 + 13), 4), 8);
    seq![w0, w1, w2, min_nat(scan_col(devs, 3), max_name)]
}

/// The title after `Scan Results`.
pub open spec fn scan_title_rest(n: nat) -> Seq<char> {
    " ("@ + crate::text::dec_str(n) + " devices) "@
}

/// Columns the title shows.
pub open spec fn scan_title_len(n: nat) -> nat {
    1 + vis_len("Scan Results"@) + vis_len(scan_title_rest(n))
}

/// The top border with its title.
pub open spec fn scan_top(n: nat, ws: Seq<nat>) -> Seq<SegModel> {
    seq![
        frame("┌"@),
        raw(" "@),
        bold("Scan Results"@, Palette::Peach),
        raw(scan_title_rest(n)),
    ] + rep(frame("─"@), sat_sub(ws[0] + ws[1] + ws[2] + ws[3] + 11, scan_title_len(n))) + seq![
        frame("┐"@),
        raw("\n"@),
    ]
}

/// Sort key of the signal: the RSSI, or the lowest value for none.
pub open spec fn rssi_key(d: DevModel) -> int {
    match d.rssi {
        Some(r) => r as int,
        None => i16::MIN as int,
    }
}

/// `a` is listed before `b`: stronger signal first, then lower address.
pub open spec fn dev_before(a: DevModel, b: DevModel) -> bool {
    rssi_key(a) > rssi_key(b) || (rssi_key(a) == rssi_key(b) && addr_key(a.address) < addr_key(
        b.address,
    ))
}

/// Places `x` before the first device it is listed before.
pub open spec fn insert_sorted(s: Seq<DevModel>, x: DevModel) -> Seq<DevModel>
    decreases s.len(),
{
    if s.len() == 0 {
        seq![x]
    } else if dev_before(x, s[0]) {
        seq![x] + s
    } else {
        seq![s[0]] + insert_sorted(s.drop_first(), x)
    }
}

/// A stable sort by signal strength, strongest first, then by address.
pub open spec fn sort_devices(s: Seq<DevModel>) -> Seq<DevModel>
    decreases s.len(),
{
    if s.len() == 0 {
        seq![]
    } else {
        insert_sorted(sort_devices(s.drop_last()), s.last())
    }
}

/// The name as the table shows it: cut to `w` bytes where longer.
pub open spec fn name_cut(d: DevModel, w: nat) -> Seq<char> {
    if blen(name_text(d)) > w {
        vstd::utf8::decode_utf8(encode_utf8(name_text(d)).take(w as int))
    } else {
        name_text(d)
    }
}

/// The row of one device.
pub open spec fn scan_row(d: DevModel, ws: Seq<nat>) -> Seq<SegModel> {
    let a = address_text(d.address);
    let t = type_text(d.addr_type);
    let r = rssi_text(d.rssi);
    let n = name_cut(d, ws[3]);
    seq![vbar()] + cell(seq![bold(a, Palette::Rosewater)], sat_sub(ws[0], vis_len(a))) + cell(
        seq![col(t, Palette::Lavender)],
        sat_sub(ws[1], vis_len(t)),
    ) + cell(seq![(r, Some(rssi_style(d.rssi)))], sat_sub(ws[2], vis_len(r))) + (if n.len() == 0 {
        cell(seq![col("(unknown)"@, Palette::Overlay0)], sat_sub(ws[3], vis_len("(unknown)"@)))
    } else {
        cell(seq![bold(n, Palette::Yellow)], sat_sub(ws[3], vis_len(n)))
    }) + seq![raw("\n"@)]
}

/// The rows of the first `n` devices.
pub open spec fn scan_rows(devs: Seq<DevModel>, ws: Seq<nat>, n: nat) -> Seq<SegModel>
    decreases n,
{
    if n == 0 {
        seq![]
    } else {
        scan_rows(devs, ws, (n - 1) as nat) + scan_row(devs[n - 1], ws)
    }
}

/// The titles of the scan table.
pub open spec fn scan_headers() -> Seq<Seq<char>> {
    seq!["Address"@, "Type"@, "RSSI"@, "Name"@]
}

/// The scan results table as segments.
pub open spec fn scan_table(devs: Seq<DevModel>, tw: nat) -> Seq<SegModel> {
    let ws = scan_widths(devs, tw);
    let sorted = sort_devices(devs);
    scan_top(devs.len(), ws) + header_line(scan_headers(), ws) + border_line(ws, "├"@, "┼"@, "┤"@)
        + scan_rows(sorted, ws, sorted.len()) + border_line(ws, "└"@, "┴"@, "┘"@)
}

/// The widths' arithmetic fits in `usize`.
pub open spec fn scan_fits(devs: Seq<DevModel>) -> bool {
    scan_col(devs, 0) + scan_col(devs, 1) + scan_col(devs, 2) + scan_col(devs, 3) + 0x10000 + 64
        <= usize::MAX
}

/// Every name longer than its column is cut between characters.
pub open spec fn scan_renders(devs: Seq<DevModel>, tw: nat) -> bool {
    forall|i: int| 0 <= i < devs.len() ==> #[trigger] name_cuts(devs[i], scan_widths(devs, tw)[3])
}

/// A name longer than `w` bytes has a character boundary at byte `w`.
pub open spec fn name_cuts(d: DevModel, w: nat) -> bool {
    blen(name_text(d)) > w ==> is_char_boundary(encode_utf8(name_text(d)), w as int)
}

/// Views of scanned devices.
pub open spec fn dev_views(v: Seq<ScannedDevice>) -> Seq<DevModel> {
    v.map_values(|d: ScannedDevice| d@)
}

proof fn lemma_insert_sorted_at(s: Seq<DevModel>, x: DevModel, p: int)
    requires
        0 <= p <= s.len(),
        forall|j: int| 0 <= j < p ==> !dev_before(x, #[trigger] s[j]),
        p < s.len() ==> dev_before(x, s[p]),
    ensures
        insert_sorted(s, x) == s.insert(p, x),
    decreases p,
{
    if p == 0 {
        if s.len() > 0 {
            assert(seq![x] + s =~= s.insert(0, x));
        } else {
            assert(seq![x] =~= s.insert(0, x));
        }
    } else {
        let t = s.drop_first();
        assert(!dev_before(x, s[0]));
        assert forall|j: int| 0 <= j < p - 1 implies !dev_before(x, #[trigger] t[j]) by {
            assert(t[j] == s[j + 1]);
        }
        lemma_insert_sorted_at(t, x, p - 1);
        assert(seq![s[0]] + t.insert(p - 1, x) =~= s.insert(p, x));
    }
}

/// Whether `a` is listed before `b`.
fn listed_before(a: &ScannedDevice, b: &ScannedDevice) -> (r: bool)
    ensures
        r == dev_before(a@, b@),
{
    let ra: i16 = match a.rssi {
        Some(x) => x,
        None => i16::MIN,
    };
    let rb: i16 = match b.rssi {
        Some(x) => x,
        None => i16::MIN,
    };
    ra > rb || (ra == rb && address_key(a.address) < address_key(b.address))
}

/// Indices of the devices in table order.
fn sorted_order(devs: &[ScannedDevice]) -> (r: Vec<usize>)
    ensures
        forall|j: int| 0 <= j < r.len() ==> r@[j] < devs.len(),
        r@.map_values(|i: usize| devs@[i as int]@) == sort_devices(dev_views(devs@)),
{
    let ghost dv = dev_views(devs@);
    let mut order: Vec<usize> = Vec::new();
    let mut k: usize = 0;
    while k < devs.len()
        invariant
            k <= devs.len(),
            dv == dev_views(devs@),
            forall|j: int| 0 <= j < order.len() ==> order@[j] < k,
            order@.map_values(|i: usize| devs@[i as int]@) == sort_devices(dv.take(k as int)),
        decreases devs.len() - k,
    {
        let ghost s = order@.map_values(|i: usize| devs@[i as int]@);
        let mut p: usize = 0;
        while p < order.len() && !listed_before(&devs[k], &devs[order[p]])
            invariant
                p <= order.len(),
                k < devs.len(),
                s == order@.map_values(|i: usize| devs@[i as int]@),
                forall|j: int| 0 <= j < order.len() ==> order@[j] < k,
                forall|j: int| 0 <= j < p ==> !dev_before(devs@[k as int]@, #[trigger] s[j]),
            decreases order.len() - p,
        {
            p += 1;
        }
        proof {
            lemma_insert_sorted_at(s, devs@[k as int]@, p as int);
            let t = dv.take(k + 1);
            assert(t.drop_last() =~= dv.take(k as int));
            assert(t.last() == devs@[k as int]@);
        }
        order.insert(p, k);
        assert(order@.map_values(|i: usize| devs@[i as int]@) =~= s.insert(p as int, devs@[k as int]@));
        k += 1;
    }
    assert(dv.take(devs.len() as int) =~= dv);
    order
}



/// Measures the columns of the scan table.
fn scan_col_maxes(devs: &[ScannedDevice]) -> (r: Vec<usize>)
    ensures
        r.len() == 4,
        forall|k: int| 0 <= k < 4 ==> r@[k] == scan_col(dev_views(devs@), k),
{
    let ghost dv = dev_views(devs@);
    let mut m0: usize = 7;
    let mut m1: usize = 4;
    let mut m2: usize = 4;
    let mut m3: usize = 4;
    let mut i: usize = 0;
    while i < devs.len()
        invariant
            i <= devs.len(),
            dv == dev_views(devs@),
            m0 == scan_col(dv.take(i as int), 0),
            m1 == scan_col(dv.take(i as int), 1),
            m2 == scan_col(dv.take(i as int), 2),
            m3 == scan_col(dv.take(i as int), 3),
        decreases devs.len() - i,
    {
        let d = &devs[i];
        let b = format_addr_type(d.addr_type).as_str().as_bytes().len();
        let c = rssi_string(d.rssi).as_str().as_bytes().len();
        let e = match &d.name {
            Some(n) => n.as_str().as_bytes().len(),
            None => 0,
        };
        if m0 < 17 {
            m0 = 17;
        }
        if b > m1 {
            m1 = b;
        }
        if c > m2 {
            m2 = c;
        }
        if e > m3 {
            m3 = e;
        }
        proof {
            let t = dv.take(i + 1);
            assert(t.drop_last() =~= dv.take(i as int));
            assert(t.last() == devs@[i as int]@);
            if d.name is None {
                assert(encode_utf8(Seq::<char>::empty()) =~= Seq::<u8>::empty());
            }
        }
        i += 1;
    }
    assert(dv.take(devs.len() as int) =~= dv);
    vec![m0, m1, m2, m3]
}

/// Column widths of the scan table on a terminal `tw` columns wide.
fn scan_col_widths(devs: &[ScannedDevice], tw: u16) -> (r: Vec<usize>)
    requires
        scan_fits(dev_views(devs@)),
    ensures
        r.len() == 4,
        nats(r@) == scan_widths(dev_views(devs@), tw as nat),
        forall|k: int| 0 <= k < r.len() ==> r@[k] + 2 <= usize::MAX,
        r@[0] + r@[1] + r@[2] + r@[3] + 11 <= usize::MAX,
{
    let m = scan_col_maxes(devs);
    let fixed = m[0] + m[1] + m[2] + 13;
    let mut max_name = (tw as usize).saturating_sub(fixed);
    if max_name < 4 {
        max_name = 4;
    }
    if max_name < 8 {
        max_name = 8;
    }
    let w3 = if m[3] < max_name {
        m[3]
    } else {
        max_name
    };
    let r = vec![m[0], m[1], m[2], w3];
    assert(nats(r@) =~= scan_widths(dev_views(devs@), tw as nat));
    r
}

/// The name cell's text: the name cut to `w` bytes where longer.
fn scan_name(d: &ScannedDevice, w3: usize) -> (r: String)
    requires
        name_cuts(d@, w3 as nat),
    ensures
        r@ == name_cut(d@, w3 as nat),
{
    broadcast use vstd::utf8::group_utf8_lib;

    match &d.name {
        Some(n) => {
            let nb = n.as_str().as_bytes().len();
            if nb > w3 {
                proof {
                    vstd::utf8::encode_utf8_valid_utf8(n@);
                }
                let (head, _) = n.as_str().split_at(w3);
                proof {
                    assert(head.spec_bytes() =~= encode_utf8(n@).take(w3 as int));
                    vstd::utf8::encode_utf8_decode_utf8(head@);
                }
                string_from(head)
            } else {
                string_from(n.as_str())
            }
        },
        None => {
            assert(encode_utf8(Seq::<char>::empty()) =~= Seq::<u8>::empty());
            String::new()
        },
    }
}

/// Appends a cell holding one segment, padded to `w` after `vlen` columns.
fn push_cell(out: &mut Vec<Segment>, seg: Segment, w: usize, vlen: usize)
    ensures
        seg_views(final(out)@) == seg_views(old(out)@) + cell(seq![seg@], sat_sub(w as nat, vlen as nat)),
{
    let ghost start = seg_views(out@);
    let ghost sv = seg@;
    push_seg(out, raw_seg(" "));
    push_seg(out, seg);
    push_seg(out, pad_seg(w.saturating_sub(vlen)));
    push_seg(out, raw_seg(" "));
    push_seg(out, frame_seg("│"));
    assert(seg_views(out@) =~= start + cell(seq![sv], sat_sub(w as nat, vlen as nat)));
}

/// Appends the row of one device.
fn push_scan_row(out: &mut Vec<Segment>, d: &ScannedDevice, ws: &Vec<usize>)
    requires
        ws.len() == 4,
        name_cuts(d@, ws@[3] as nat),
    ensures
        seg_views(final(out)@) == seg_views(old(out)@) + scan_row(d@, nats(ws@)),
{
    let ghost start = seg_views(out@);
    let a = address_to_string(d.address);
    let t = format_addr_type(d.addr_type);
    let r = rssi_string(d.rssi);
    let name = scan_name(d, ws[3]);
    push_seg(out, frame_seg("│"));
    let av = visible_len(a.as_str());
    push_cell(out, styled_seg(a.as_str(), Palette::Rosewater, true), ws[0], av);
    let tv = visible_len(t.as_str());
    push_cell(out, styled_seg(t.as_str(), Palette::Lavender, false), ws[1], tv);
    let rv = visible_len(r.as_str());
    push_cell(out, colorize_rssi(r.as_str(), d.rssi), ws[2], rv);
    if name.as_str().is_empty() {
        let uv = visible_len("(unknown)");
        push_cell(out, styled_seg("(unknown)", Palette::Overlay0, false), ws[3], uv);
    } else {
        let nv = visible_len(name.as_str());
        push_cell(out, styled_seg(name.as_str(), Palette::Yellow, true), ws[3], nv);
    }
    push_seg(out, raw_seg("\n"));
    assert(seg_views(out@) =~= start + scan_row(d@, nats(ws@)));
}

/// The scan results table as segments, for a terminal `tw` columns wide.
pub fn scan_table_segments(devs: &[ScannedDevice], tw: u16) -> (r: Vec<Segment>)
    requires
        scan_fits(dev_views(devs@)),
        scan_renders(dev_views(devs@), tw as nat),
    ensures
        seg_views(r@) == scan_table(dev_views(devs@), tw as nat),
{
    let ghost dv = dev_views(devs@);
    let ws = scan_col_widths(devs, tw);
    let ghost wn = nats(ws@);
    let mut out: Vec<Segment> = Vec::new();
    let mut rest = String::new();
    crate::text::push_str(&mut rest, " (");
    crate::text::push_dec(&mut rest, devs.len() as u64);
    crate::text::push_str(&mut rest, " devices) ");
    let title_vis = visible_len("Scan Results").saturating_add(visible_len(rest.as_str())).saturating_add(1);
    let total = ws[0] + ws[1] + ws[2] + ws[3] + 11;
    push_seg(&mut out, frame_seg("┌"));
    push_seg(&mut out, raw_seg(" "));
    push_seg(&mut out, styled_seg("Scan Results", Palette::Peach, true));
    push_seg(&mut out, Segment { text: rest, style: None });
    push_rep(&mut out, "─", Some(Style { color: Palette::Surface1, bold: false }), total.saturating_sub(title_vis));
    push_seg(&mut out, frame_seg("┐"));
    push_seg(&mut out, raw_seg("\n"));
    assert(seg_views(out@) =~= scan_top(dv.len(), wn));
    let headers: Vec<&str> = vec!["Address", "Type", "RSSI", "Name"];
    assert(str_views(headers@) =~= scan_headers());
    push_header(&mut out, &headers, &ws);
    push_border(&mut out, &ws, "├", "┼", "┤");
    let order = sorted_order(devs);
    let ghost sorted = sort_devices(dv);
    let ghost mid = seg_views(out@);
    let mut i: usize = 0;
    while i < order.len()
        invariant
            i <= order.len(),
            dv == dev_views(devs@),
            wn == nats(ws@),
            wn == scan_widths(dv, tw as nat),
            ws.len() == 4,
            scan_renders(dv, tw as nat),
            forall|j: int| 0 <= j < order.len() ==> order@[j] < devs.len(),
            order@.map_values(|k: usize| devs@[k as int]@) == sorted,
            forall|k: int| 0 <= k < ws.len() ==> ws@[k] + 2 <= usize::MAX,
            seg_views(out@) == mid + scan_rows(sorted, wn, i as nat),
        decreases order.len() - i,
    {
        let k = order[i];
        proof {
            assert(sorted[i as int] == devs@[k as int]@);
            assert(dv[k as int] == devs@[k as int]@);
            assert(name_cuts(dv[k as int], wn[3]));
            assert(wn[3] == ws@[3] as nat);
        }
        push_scan_row(&mut out, &devs[k], &ws);
        i += 1;
        assert(seg_views(out@) =~= mid + scan_rows(sorted, wn, i as nat));
    }
    push_border(&mut out, &ws, "└", "┴", "┘");
    assert(seg_views(out@) =~= scan_table(dv, tw as nat));
    out
}

/// Whether every name is cut between characters at this width.
pub fn scan_renders_check(devs: &[ScannedDevice], tw: u16) -> (r: bool)
    requires
        scan_fits(dev_views(devs@)),
    ensures
        r == scan_renders(dev_views(devs@), tw as nat),
{
    let ghost dv = dev_views(devs@);
    let ws = scan_col_widths(devs, tw);
    let w3 = ws[3];
    assert(w3 as nat == scan_widths(dv, tw as nat)[3]);
    let mut i: usize = 0;
    while i < devs.len()
        invariant
            i <= devs.len(),
            dv == dev_views(devs@),
            w3 as nat == scan_widths(dv, tw as nat)[3],
            forall|j: int| 0 <= j < i ==> #[trigger] name_cuts(dv[j], w3 as nat),
        decreases devs.len() - i,
    {
        assert(dv[i as int] == devs@[i as int]@);
        match &devs[i].name {
            Some(n) => {
                if n.as_str().as_bytes().len() > w3 && !n.as_str().is_char_boundary(w3) {
                    assert(!name_cuts(dv[i as int], w3 as nat));
                    return false;
                }
            },
            None => {
                assert(encode_utf8(Seq::<char>::empty()) =~= Seq::<u8>::empty());
            },
        }
        assert(name_cuts(dv[i as int], w3 as nat));
        i += 1;
    }
    true
}


/// Whether the scan table's widths can be added up in `usize`.
pub fn scan_fits_check(devs: &[ScannedDevice]) -> (r: bool)
    ensures
        r == scan_fits(dev_views(devs@)),
{
    let m = scan_col_maxes(devs);
    let limit: usize = usize::MAX - 0x10000 - 64;
    if m[0] > limit {
        return false;
    }
    if m[1] > limit - m[0] {
        return false;
    }
    if m[2] > limit - m[0] - m[1] {
        return false;
    }
    m[3] <= limit - m[0] - m[1] - m[2]
}

/// Renders the scan results table for a terminal `tw` columns wide.
pub fn render_scan_table_width(devs: &[ScannedDevice], tw: u16) -> (r: String)
    requires
        scan_fits(dev_views(devs@)),
        scan_renders(dev_views(devs@), tw as nat),
    ensures
        painted_all(r@, scan_table(dev_views(devs@), tw as nat)),
{
    paint_segments(&scan_table_segments(devs, tw))
}

/// Renders the scan results table for the terminal, or `None` where a
/// long name would be cut inside a multi-byte character.
pub fn render_scan_table(devs: &[ScannedDevice]) -> (r: Option<String>)
    requires
        scan_fits(dev_views(devs@)),
    ensures
        exists|tw: u16|
            (r is None <==> !scan_renders(dev_views(devs@), tw as nat)) && (r matches Some(s)
                ==> painted_all(s@, scan_table(dev_views(devs@), tw as nat))),
{
    let tw = term_width();
    if scan_renders_check(devs, tw) {
        Some(render_scan_table_width(devs, tw))
    } else {
        None
    }
}


/// What a scan shows at its end: `No devices found.` when nothing was
/// found, the results table otherwise.
pub fn scan_summary(devs: &[ScannedDevice]) -> (r: Option<String>)
    requires
        scan_fits(dev_views(devs@)),
    ensures
        devs.len() == 0 ==> (r matches Some(s) && s@ == "No devices found."@),
        devs.len() > 0 ==> exists|tw: u16|
            (r is None <==> !scan_renders(dev_views(devs@), tw as nat)) && (r matches Some(s)
                ==> painted_all(s@, scan_table(dev_views(devs@), tw as nat))),
{
    if devs.len() == 0 {
        Some(string_from("No devices found."))
    } else {
        render_scan_table(devs)
    }
}


// ───────────────────────────── laws ─────────────────────────────

/// The chunks joined back together.
pub open spec fn concat_bytes(cs: Seq<Seq<u8>>) -> Seq<u8>
    decreases cs.len(),
{
    if cs.len() == 0 {
        seq![]
    } else {
        cs[0] + concat_bytes(cs.drop_first())
    }
}

proof fn lemma_wrap_rest(b: Seq<u8>, w: nat)
    requires
        w > 0,
    ensures
        concat_bytes(wrap_rest(b, w)) == b,
        forall|i: int|
            0 <= i < wrap_rest(b, w).len() ==> 0 < (#[trigger] wrap_rest(b, w)[i]).len() <= w,
    decreases b.len(),
{
    if b.len() == 0 {
        assert(b =~= Seq::<u8>::empty());
    } else if b.len() <= w {
        let r = wrap_rest(b, w);
        assert(r == seq![b]);
        assert(r.drop_first() =~= Seq::<Seq<u8>>::empty());
        assert(concat_bytes(r.drop_first()) == Seq::<u8>::empty());
        assert(concat_bytes(r) == r[0] + concat_bytes(r.drop_first()));
        assert(b + Seq::<u8>::empty() =~= b);
    } else {
        lemma_cut_range(b, w);
        let k = cut_at(b, w);
        let rest = wrap_rest(b.skip(k), w);
        lemma_wrap_rest(b.skip(k), w);
        let r = wrap_rest(b, w);
        assert(r == seq![b.take(k)] + rest);
        assert(r.drop_first() =~= rest);
        assert(r[0] == b.take(k));
        assert(b.take(k) + b.skip(k) =~= b);
        assert(concat_bytes(r) == r[0] + concat_bytes(r.drop_first()));
        assert forall|i: int| 0 <= i < r.len() implies 0 < (#[trigger] r[i]).len() <= w by {
            if i > 0 {
                assert(r[i] == rest[i - 1]);
            }
        }
    }
}

/// Wrapping loses nothing: the lines, joined, are the value again, and
/// each line is at most `w` bytes long (and not empty, for a non-empty
/// value). This is what lets the data and ASCII columns show every byte.
pub proof fn lemma_wrap_keeps_everything(b: Seq<u8>, w: nat)
    requires
        w > 0,
    ensures
        concat_bytes(wrap_plain(b, w)) == b,
        forall|i: int| 0 <= i < wrap_plain(b, w).len() ==> (#[trigger] wrap_plain(b, w)[i]).len() <= w,
        b.len() > 0 ==> forall|i: int|
            0 <= i < wrap_plain(b, w).len() ==> (#[trigger] wrap_plain(b, w)[i]).len() > 0,
{
    if b.len() == 0 {
        let r = wrap_plain(b, w);
        assert(r == seq![b]);
        assert(r.drop_first() =~= Seq::<Seq<u8>>::empty());
        assert(concat_bytes(r.drop_first()) == Seq::<u8>::empty());
        assert(concat_bytes(r) == r[0] + concat_bytes(r.drop_first()));
        assert(b + Seq::<u8>::empty() =~= b);
    } else {
        lemma_wrap_rest(b, w);
    }
}

/// Devices in table order: no device is listed before one it should follow.
pub open spec fn in_table_order(s: Seq<DevModel>) -> bool {
    forall|i: int, j: int| 0 <= i < j < s.len() ==> !dev_before(#[trigger] s[j], #[trigger] s[i])
}

proof fn lemma_insert_sorted_pos(s: Seq<DevModel>, x: DevModel) -> (p: int)
    ensures
        0 <= p <= s.len(),
        forall|j: int| 0 <= j < p ==> !dev_before(x, #[trigger] s[j]),
        p < s.len() ==> dev_before(x, s[p]),
        insert_sorted(s, x) == s.insert(p, x),
    decreases s.len(),
{
    if s.len() == 0 || dev_before(x, s[0]) {
        lemma_insert_sorted_at(s, x, 0);
        0
    } else {
        let q = lemma_insert_sorted_pos(s.drop_first(), x);
        assert forall|j: int| 0 <= j < q + 1 implies !dev_before(x, #[trigger] s[j]) by {
            if j > 0 {
                assert(s[j] == s.drop_first()[j - 1]);
            }
        }
        if q + 1 < s.len() {
            assert(s[q + 1] == s.drop_first()[q]);
        }
        lemma_insert_sorted_at(s, x, q + 1);
        q + 1
    }
}

/// The scan table lists every device exactly once, strongest signal first
/// and, for equal signals, lowest address first.
pub proof fn lemma_sort_devices(s: Seq<DevModel>)
    ensures
        sort_devices(s).to_multiset() == s.to_multiset(),
        in_table_order(sort_devices(s)),
    decreases s.len(),
{
    broadcast use vstd::seq_lib::group_to_multiset_ensures;

    if s.len() == 0 {
        assert(sort_devices(s) =~= s);
    } else {
        let d = s.drop_last();
        let x = s.last();
        lemma_sort_devices(d);
        let t = sort_devices(d);
        let p = lemma_insert_sorted_pos(t, x);
        let r = t.insert(p, x);
        assert(sort_devices(s) == r);
        assert(s =~= d.push(x));
        assert(r.to_multiset() =~= t.to_multiset().insert(x));
        assert forall|i: int, j: int| 0 <= i < j < r.len() implies !dev_before(
            #[trigger] r[j],
            #[trigger] r[i],
        ) by {
            if j < p {
                assert(r[i] == t[i] && r[j] == t[j]);
            } else if j == p {
                assert(r[i] == t[i]);
            } else if i < p {
                assert(r[i] == t[i] && r[j] == t[j - 1]);
            } else if i == p {
                assert(r[j] == t[j - 1]);
                assert(!dev_before(t[j - 1], t[p]) || j - 1 == p);
            } else {
                assert(r[i] == t[i - 1] && r[j] == t[j - 1]);
            }
        }
    }
}

/// The enumerate table adapts to the terminal: when the handle,
/// description and properties columns leave at least 13 columns, its five
/// columns with their frames span exactly the terminal's width.
pub proof fn lemma_enum_table_fills_terminal(rows: Seq<EnumRowView>, tw: nat)
    requires
        tw >= col_max(rows, 0) + col_max(rows, 1) + col_max(rows, 2) + 16 + 13,
    ensures
        enum_widths(rows, tw)[0] + enum_widths(rows, tw)[1] + enum_widths(rows, tw)[2]
            + enum_widths(rows, tw)[3] + enum_widths(rows, tw)[4] + 16 == tw,
{
    lemma_col_max_floor(rows, 4);
}

/// The scan table stays within the terminal when the address, type and
/// RSSI columns leave at least eight columns for the names.
pub proof fn lemma_scan_table_within_terminal(devs: Seq<DevModel>, tw: nat)
    requires
        tw >= scan_col(devs, 0) + scan_col(devs, 1) + scan_col(devs, 2) + 13 + 8,
    ensures
        scan_widths(devs, tw)[0] + scan_widths(devs, tw)[1] + scan_widths(devs, tw)[2]
            + scan_widths(devs, tw)[3] + 13 <= tw,
{
}

} // verus!

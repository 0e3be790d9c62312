//! Terminal styling: the Catppuccin Mocha palette, styled text segments,
//! ANSI escape sequences and the visible text that a terminal shows.

use vstd::prelude::*;
use crate::text::{push_str, string_from};
use colored::Colorize;

verus! {

/// Colours of the Catppuccin Mocha palette used by the tables.
#[derive(Debug, Clone, Copy, PartialEq, Eq, Structural)]
pub enum Palette {
    Rosewater,
    Flamingo,
    Pink,
    Mauve,
    Red,
    Peach,
    Yellow,
    Green,
    Teal,
    Sky,
    Sapphire,
    Blue,
    Lavender,
    Text,
    Subtext0,
    Overlay0,
    Surface1,
}

/// Red, green and blue components of a palette colour.
pub open spec fn palette_rgb(p: Palette) -> (u8, u8, u8) {
    match p {
        Palette::Rosewater => (245, 224, 220),
        Palette::Flamingo => (242, 205, 205),
        Palette::Pink => (245, 194, 231),
        Palette::Mauve => (203, 166, 247),
        Palette::Red => (243, 139, 168),
        Palette::Peach => (250, 179, 135),
        Palette::Yellow => (249, 226, 175),
        Palette::Green => (166, 227, 161),
        Palette::Teal => (148, 226, 213),
        Palette::Sky => (137, 220, 235),
        Palette::Sapphire => (116, 199, 236),
        Palette::Blue => (137, 180, 250),
        Palette::Lavender => (180, 190, 254),
        Palette::Text => (205, 214, 244),
        Palette::Subtext0 => (166, 173, 200),
        Palette::Overlay0 => (108, 112, 134),
        Palette::Surface1 => (69, 71, 90),
    }
}

/// The components of a palette colour.
pub fn rgb(p: Palette) -> (r: (u8, u8, u8))
    ensures
        r == palette_rgb(p),
{
    match p {
        Palette::Rosewater => (245, 224, 220),
        Palette::Flamingo => (242, 205, 205),
        Palette::Pink => (245, 194, 231),
        Palette::Mauve => (203, 166, 247),
        Palette::Red => (243, 139, 168),
        Palette::Peach => (250, 179, 135),
        Palette::Yellow => (249, 226, 175),
        Palette::Green => (166, 227, 161),
        Palette::Teal => (148, 226, 213),
        Palette::Sky => (137, 220, 235),
        Palette::Sapphire => (116, 199, 236),
        Palette::Blue => (137, 180, 250),
        Palette::Lavender => (180, 190, 254),
        Palette::Text => (205, 214, 244),
        Palette::Subtext0 => (166, 173, 200),
        Palette::Overlay0 => (108, 112, 134),
        Palette::Surface1 => (69, 71, 90),
    }
}

/// A foreground colour, in bold or not.
#[derive(Debug, Clone, Copy, PartialEq, Eq, Structural)]
pub struct Style {
    pub color: Palette,
    pub bold: bool,
}

/// A piece of output text, painted in a style or written as it is.
pub struct Segment {
    pub text: String,
    pub style: Option<Style>,
}

impl View for Segment {
    type V = (Seq<char>, Option<Style>);

    open spec fn view(&self) -> (Seq<char>, Option<Style>) {
        (self.text@, self.style)
    }
}

/// The segment model of text written as it is.
pub open spec fn raw(t: Seq<char>) -> (Seq<char>, Option<Style>) {
    (t, None)
}

/// The segment model of text in a colour.
pub open spec fn col(t: Seq<char>, c: Palette) -> (Seq<char>, Option<Style>) {
    (t, Some(Style { color: c, bold: false }))
}

/// The segment model of text in a colour, in bold.
pub open spec fn bold(t: Seq<char>, c: Palette) -> (Seq<char>, Option<Style>) {
    (t, Some(Style { color: c, bold: true }))
}

/// `n` copies of one segment.
pub open spec fn rep(s: (Seq<char>, Option<Style>), n: nat) -> Seq<(Seq<char>, Option<Style>)> {
    Seq::new(n, |i: int| s)
}

/// Segment models of a list of segments.
pub open spec fn seg_views(v: Seq<Segment>) -> Seq<(Seq<char>, Option<Style>)> {
    v.map_values(|s: Segment| s@)
}

/// A segment holding text written as it is.
pub fn raw_seg(t: &str) -> (r: Segment)
    ensures
        r@ == raw(t@),
{
    Segment { text: string_from(t), style: None }
}

/// A segment holding text in a style.
pub fn styled_seg(t: &str, color: Palette, is_bold: bool) -> (r: Segment)
    ensures
        r@ == (t@, Some(Style { color: color, bold: is_bold })),
{
    Segment { text: string_from(t), style: Some(Style { color: color, bold: is_bold }) }
}

/// Appends `n` copies of one segment.
pub fn push_rep(out: &mut Vec<Segment>, t: &str, style: Option<Style>, n: usize)
    ensures
        seg_views(final(out)@) == seg_views(old(out)@) + rep((t@, style), n as nat),
{
    let ghost start = seg_views(out@);
    let mut i: usize = 0;
    while i < n
        invariant
            i <= n,
            seg_views(out@) == start + rep((t@, style), i as nat),
        decreases n - i,
    {
        let ghost prev = out@;
        let seg = Segment { text: string_from(t), style: style };
        out.push(seg);
        assert(seg_views(out@) =~= seg_views(prev).push((t@, style)));
        i += 1;
        assert(seg_views(out@) =~= start + rep((t@, style), i as nat));
    }
}

// ───────────────────────────── escape sequences ─────────────────────────────

/// The escape character that starts an ANSI sequence.
pub open spec fn esc() -> char {
    '\x1b'
}

/// The sequence `ESC [ 0 m` that ends a style.
pub open spec fn reset_code() -> Seq<char> {
    seq!['\x1b', '[', '0', 'm']
}

/// A character of the parameter list of a select-graphic-rendition sequence.
pub open spec fn is_sgr_param(c: char) -> bool {
    ('0' <= c && c <= '9') || c == ';'
}

/// `ESC [ params m` with a non-empty list of digits and `;`.
pub open spec fn sgr_prefix(p: Seq<char>) -> bool {
    &&& p.len() >= 4
    &&& p[0] == '\x1b'
    &&& p[1] == '['
    &&& p.last() == 'm'
    &&& forall|i: int| 2 <= i < p.len() - 1 ==> is_sgr_param(#[trigger] p[i])
}

/// `r` is `s` itself, or `s` between a style sequence and the reset.
pub open spec fn painted(r: Seq<char>, s: Seq<char>) -> bool {
    ||| r == s
    ||| exists|p: Seq<char>| sgr_prefix(p) && r == p + s + reset_code()
}

/// What painting `s` may give: `s` painted, when `s` holds no escape.
pub open spec fn paint_outcome(r: Seq<char>, s: Seq<char>) -> bool {
    s.contains(esc()) || painted(r, s)
}

/// `colored`'s `s.custom_color(c).to_string()` for `c` = (`r`, `g`, `b`).
/// Whether colours are written, and in which form, rests on the
/// environment (`NO_COLOR`, `CLICOLOR`, `COLORTERM`), so only the shape is
/// stated: the text itself, or the text between one SGR sequence and the
/// reset.  For a text that holds an escape the crate also re-inserts the
/// style after each inner reset; nothing is stated then.
#[verifier::external_body]
pub(crate) fn ctp(s: &str, r: u8, g: u8, b: u8) -> (out: String)
    ensures
        paint_outcome(out@, s@),
{
    s.custom_color(colored::CustomColor { r, g, b }).to_string()
}

/// `colored`'s `s.custom_color(c).bold().to_string()`; stated as for [`ctp`].
#[verifier::external_body]
pub(crate) fn ctp_bold(s: &str, r: u8, g: u8, b: u8) -> (out: String)
    ensures
        paint_outcome(out@, s@),
{
    s.custom_color(colored::CustomColor { r, g, b }).bold().to_string()
}

/// What a segment may become on output: its text as it is, or painted.
pub open spec fn piece_of(r: Seq<char>, seg: (Seq<char>, Option<Style>)) -> bool {
    match seg.1 {
        None => r == seg.0,
        Some(_) => paint_outcome(r, seg.0),
    }
}

/// The concatenation of a list of texts.
pub open spec fn flatten(v: Seq<Seq<char>>) -> Seq<char>
    decreases v.len(),
{
    if v.len() == 0 {
        seq![]
    } else {
        flatten(v.drop_last()) + v.last()
    }
}

/// The texts of a list of segment models.
pub open spec fn seg_texts(v: Seq<(Seq<char>, Option<Style>)>) -> Seq<Seq<char>> {
    v.map_values(|s: (Seq<char>, Option<Style>)| s.0)
}

/// `r` is the concatenation of the outputs of the segments, in order.
pub open spec fn painted_all(r: Seq<char>, segs: Seq<(Seq<char>, Option<Style>)>) -> bool {
    exists|pieces: Seq<Seq<char>>|
        pieces.len() == segs.len() && (forall|i: int|
            0 <= i < segs.len() ==> #[trigger] piece_of(pieces[i], segs[i])) && r == flatten(pieces)
}

/// Paints one segment.
pub fn paint_segment(seg: &Segment) -> (r: String)
    ensures
        piece_of(r@, seg@),
{
    match seg.style {
        None => string_from(seg.text.as_str()),
        Some(st) => {
            let (r, g, b) = rgb(st.color);
            if st.bold {
                ctp_bold(seg.text.as_str(), r, g, b)
            } else {
                ctp(seg.text.as_str(), r, g, b)
            }
        },
    }
}

/// Writes a list of segments, each painted in its style.
pub fn paint_segments(segs: &Vec<Segment>) -> (r: String)
    ensures
        painted_all(r@, seg_views(segs@)),
{
    let mut out = String::new();
    let ghost mut pieces: Seq<Seq<char>> = seq![];
    let mut i: usize = 0;
    while i < segs.len()
        invariant
            i <= segs.len(),
            pieces.len() == i,
            forall|j: int| 0 <= j < i ==> #[trigger] piece_of(pieces[j], segs@[j]@),
            out@ == flatten(pieces),
        decreases segs.len() - i,
    {
        let p = paint_segment(&segs[i]);
        push_str(&mut out, p.as_str());
        proof {
            let old_pieces = pieces;
            pieces = pieces.push(p@);
            assert(pieces.drop_last() =~= old_pieces);
        }
        i += 1;
    }
    proof {
        let sv = seg_views(segs@);
        assert forall|j: int| 0 <= j < sv.len() implies #[trigger] piece_of(pieces[j], sv[j]) by {
            assert(piece_of(pieces[j], segs@[j]@));
        }
    }
    out
}

// ───────────────────────────── visible text ─────────────────────────────

/// What a terminal shows of `s`: an escape starts a sequence that the next
/// `m` ends, and nothing inside it shows; `inside` says whether `s` starts
/// inside such a sequence.
pub open spec fn vis(s: Seq<char>, inside: bool) -> Seq<char>
    decreases s.len(),
{
    if s.len() == 0 {
        seq![]
    } else if s[0] == '\x1b' {
        vis(s.drop_first(), true)
    } else if inside {
        vis(s.drop_first(), s[0] != 'm')
    } else {
        seq![s[0]] + vis(s.drop_first(), false)
    }
}

/// Whether a sequence is still open after `s`.
pub open spec fn open_after(s: Seq<char>, inside: bool) -> bool
    decreases s.len(),
{
    if s.len() == 0 {
        inside
    } else if s[0] == '\x1b' {
        open_after(s.drop_first(), true)
    } else if inside {
        open_after(s.drop_first(), s[0] != 'm')
    } else {
        open_after(s.drop_first(), false)
    }
}

/// Number of characters a terminal shows of `s`.
pub open spec fn vis_len(s: Seq<char>) -> nat {
    vis(s, false).len()
}

/// The visible length of a string: characters outside escape sequences.
pub fn visible_len(s: &str) -> (r: usize)
    ensures
        r == vis_len(s@),
{
    let v = crate::text::chars_of(s);
    let mut len: usize = 0;
    let mut in_escape = false;
    let mut i: usize = 0;
    assert(v@.skip(0) =~= v@);
    while i < v.len()
        invariant
            i <= v.len(),
            v@ == s@,
            len <= i,
            len + vis(v@.skip(i as int), in_escape).len() == vis(v@, false).len(),
        decreases v.len() - i,
    {
        let c = v[i];
        assert(v@.skip(i as int).drop_first() =~= v@.skip(i + 1));
        if c == '\x1b' {
            in_escape = true;
        } else if in_escape {
            if c == 'm' {
                in_escape = false;
            }
        } else {
            len += 1;
        }
        i += 1;
    }
    assert(v@.skip(i as int) =~= Seq::<char>::empty());
    len
}

/// The visible text of a concatenation is that of its parts, the second
/// read in the state the first leaves.
pub proof fn lemma_vis_concat(a: Seq<char>, b: Seq<char>, inside: bool)
    ensures
        vis(a + b, inside) == vis(a, inside) + vis(b, open_after(a, inside)),
        open_after(a + b, inside) == open_after(b, open_after(a, inside)),
    decreases a.len(),
{
    if a.len() == 0 {
        assert(a + b =~= b);
    } else {
        assert((a + b).drop_first() =~= a.drop_first() + b);
        assert((a + b)[0] == a[0]);
        if a[0] == '\x1b' {
            lemma_vis_concat(a.drop_first(), b, true);
        } else if inside {
            lemma_vis_concat(a.drop_first(), b, a[0] != 'm');
        } else {
            lemma_vis_concat(a.drop_first(), b, false);
            assert(seq![a[0]] + vis(a.drop_first(), false) + vis(
                b,
                open_after(a.drop_first(), false),
            ) =~= seq![a[0]] + (vis(a.drop_first(), false) + vis(
                b,
                open_after(a.drop_first(), false),
            )));
        }
    }
}

/// Text without escapes shows as it is and leaves no sequence open.
pub proof fn lemma_vis_plain(s: Seq<char>)
    requires
        !s.contains(esc()),
    ensures
        vis(s, false) == s,
        !open_after(s, false),
    decreases s.len(),
{
    if s.len() > 0 {
        assert(s[0] != esc()) by {
            if s[0] == esc() {
                assert(s.contains(esc()));
            }
        }
        assert(!s.drop_first().contains(esc())) by {
            if s.drop_first().contains(esc()) {
                let k = choose|k: int| 0 <= k < s.drop_first().len() && s.drop_first()[k] == esc();
                assert(s[k + 1] == esc());
            }
        }
        lemma_vis_plain(s.drop_first());
        assert(s =~= seq![s[0]] + s.drop_first());
    }
}

/// A select-graphic-rendition sequence shows nothing and closes itself.
proof fn lemma_vis_sgr(p: Seq<char>, inside: bool)
    requires
        sgr_prefix(p),
    ensures
        vis(p, inside) == Seq::<char>::empty(),
        !open_after(p, inside),
{
    let body = p.subrange(2, p.len() - 1);
    let p1 = p.drop_first();
    let p2 = p1.drop_first();
    assert(p2 =~= body + seq!['m']);
    assert forall|i: int| 0 <= i < body.len() implies is_sgr_param(#[trigger] body[i]) by {
        assert(body[i] == p[i + 2]);
    }
    lemma_vis_params(body);
    lemma_vis_concat(body, seq!['m'], true);
    let m = seq!['m'];
    assert(m.drop_first() =~= Seq::<char>::empty());
    assert(m[0] == 'm');
    assert(vis(m, true) == vis(m.drop_first(), false));
    assert(open_after(m, true) == open_after(m.drop_first(), false));
    assert(vis(p2, true) =~= Seq::<char>::empty());
    assert(p1[0] == '[');
    assert(vis(p1, true) == vis(p2, true));
    assert(open_after(p1, true) == open_after(p2, true));
    assert(p[0] == '\x1b');
    assert(vis(p, inside) == vis(p1, true));
    assert(open_after(p, inside) == open_after(p1, true));
}

/// Parameters inside a sequence show nothing and keep it open.
proof fn lemma_vis_params(body: Seq<char>)
    requires
        forall|i: int| 0 <= i < body.len() ==> is_sgr_param(#[trigger] body[i]),
    ensures
        vis(body, true) == Seq::<char>::empty(),
        open_after(body, true),
    decreases body.len(),
{
    if body.len() > 0 {
        assert(is_sgr_param(body[0]));
        assert forall|i: int| 0 <= i < body.drop_first().len() implies is_sgr_param(
            #[trigger] body.drop_first()[i],
        ) by {
            assert(is_sgr_param(body[i + 1]));
        }
        lemma_vis_params(body.drop_first());
    }
}

/// The reset sequence shows nothing and leaves no sequence open.
proof fn lemma_vis_reset(inside: bool)
    ensures
        vis(reset_code(), inside) == Seq::<char>::empty(),
        !open_after(reset_code(), inside),
{
    let r0 = reset_code();
    let r1 = r0.drop_first();
    let r2 = r1.drop_first();
    let r3 = r2.drop_first();
    let r4 = r3.drop_first();
    assert(r1 =~= seq!['[', '0', 'm']);
    assert(r2 =~= seq!['0', 'm']);
    assert(r3 =~= seq!['m']);
    assert(r4 =~= Seq::<char>::empty());
    assert(vis(r4, false) == Seq::<char>::empty());
    assert(!open_after(r4, false));
    assert(r3[0] == 'm');
    assert(vis(r3, true) == vis(r4, false));
    assert(open_after(r3, true) == open_after(r4, false));
    assert(r2[0] == '0');
    assert(vis(r2, true) == vis(r3, true));
    assert(open_after(r2, true) == open_after(r3, true));
    assert(r1[0] == '[');
    assert(vis(r1, true) == vis(r2, true));
    assert(open_after(r1, true) == open_after(r2, true));
    assert(r0[0] == '\x1b');
    assert(vis(r0, inside) == vis(r1, true));
    assert(open_after(r0, inside) == open_after(r1, true));
}

/// Painted text without escapes shows as the text and leaves no sequence open.
pub proof fn lemma_painted_vis(r: Seq<char>, s: Seq<char>)
    requires
        paint_outcome(r, s),
        !s.contains(esc()),
    ensures
        vis(r, false) == s,
        !open_after(r, false),
{
    lemma_vis_plain(s);
    if r != s {
        let p = choose|p: Seq<char>| sgr_prefix(p) && r == p + s + reset_code();
        lemma_vis_sgr(p, false);
        lemma_vis_reset(false);
        lemma_vis_concat(p, s, false);
        lemma_vis_concat(p + s, reset_code(), false);
        assert(vis(p, false) + vis(s, false) =~= s);
        assert(s + Seq::<char>::empty() =~= s);
    }
}

/// A segment whose output shows as its text: styled text holds no escape,
/// and text written as it is leaves no escape sequence open.
pub open spec fn clean_segment(seg: (Seq<char>, Option<Style>)) -> bool {
    match seg.1 {
        None => !open_after(seg.0, false),
        Some(_) => !seg.0.contains(esc()),
    }
}

/// Whatever the terminal supports, painted segments show as the text of
/// the segments: colours change how the output looks, never what it says.
pub proof fn lemma_painted_all_visible(r: Seq<char>, segs: Seq<(Seq<char>, Option<Style>)>)
    requires
        painted_all(r, segs),
        forall|i: int| 0 <= i < segs.len() ==> clean_segment(#[trigger] segs[i]),
    ensures
        vis(r, false) == vis(flatten(seg_texts(segs)), false),
        !open_after(r, false),
{
    let pieces = choose|pieces: Seq<Seq<char>>|
        pieces.len() == segs.len() && (forall|i: int|
            0 <= i < segs.len() ==> #[trigger] piece_of(pieces[i], segs[i])) && r == flatten(
            pieces,
        );
    lemma_pieces_visible(pieces, segs);
}

proof fn lemma_pieces_visible(pieces: Seq<Seq<char>>, segs: Seq<(Seq<char>, Option<Style>)>)
    requires
        pieces.len() == segs.len(),
        forall|i: int| 0 <= i < segs.len() ==> #[trigger] piece_of(pieces[i], segs[i]),
        forall|i: int| 0 <= i < segs.len() ==> clean_segment(#[trigger] segs[i]),
    ensures
        vis(flatten(pieces), false) == vis(flatten(seg_texts(segs)), false),
        !open_after(flatten(pieces), false),
        !open_after(flatten(seg_texts(segs)), false),
    decreases segs.len(),
{
    if segs.len() > 0 {
        let n = segs.len() - 1;
        let ps = pieces.drop_last();
        let ss = segs.drop_last();
        assert forall|i: int| 0 <= i < ss.len() implies #[trigger] piece_of(ps[i], ss[i]) by {
            assert(piece_of(pieces[i], segs[i]));
        }
        assert forall|i: int| 0 <= i < ss.len() implies clean_segment(#[trigger] ss[i]) by {
            assert(clean_segment(segs[i]));
        }
        lemma_pieces_visible(ps, ss);
        assert(seg_texts(segs).drop_last() =~= seg_texts(ss));
        let last = pieces[n];
        let t = segs[n].0;
        assert(piece_of(last, segs[n]));
        assert(clean_segment(segs[n]));
        lemma_vis_concat(flatten(ps), last, false);
        lemma_vis_concat(flatten(seg_texts(ss)), t, false);
        match segs[n].1 {
            None => {},
            Some(_) => {
                lemma_painted_vis(last, t);
                lemma_vis_plain(t);
            },
        }
    }
}

} // verus!

//! The line structure of the enumerate table: the table is a list of
//! lines, each ended by a line break, and every line shows the same number
//! of columns, the sum of the column widths and their frames.

use vstd::prelude::*;
use crate::style::{esc, lemma_vis_plain, raw, vis, vis_len, Palette, Style};
use crate::tables::{
    border_cells, border_line, cell, col_floor, col_max, enum_headers, enum_widths, frame,
    header_cells, header_line, pad, vbar, sat_sub, EnumRowView, SegModel,
};

verus! {

/// Columns a sequence of segments shows (each segment on its own).
pub open spec fn segs_width(s: Seq<SegModel>) -> nat
    decreases s.len(),
{
    if s.len() == 0 {
        0
    } else {
        segs_width(s.drop_last()) + vis_len(s.last().0)
    }
}

/// No segment holds a line break.
pub open spec fn no_break(s: Seq<SegModel>) -> bool {
    forall|i: int| 0 <= i < s.len() ==> !(#[trigger] s[i]).0.contains('\n')
}

/// One line `w` columns wide: segments without a line break, then the break.
pub open spec fn is_line(l: Seq<SegModel>, w: nat) -> bool {
    &&& l.len() > 0
    &&& l.last() == raw("\n"@)
    &&& no_break(l.drop_last())
    &&& segs_width(l.drop_last()) == w
}

/// Lines one after the other.
pub open spec fn join_lines(ls: Seq<Seq<SegModel>>) -> Seq<SegModel>
    decreases ls.len(),
{
    if ls.len() == 0 {
        seq![]
    } else {
        join_lines(ls.drop_last()) + ls.last()
    }
}

pub proof fn lemma_segs_width_concat(a: Seq<SegModel>, b: Seq<SegModel>)
    ensures
        segs_width(a + b) == segs_width(a) + segs_width(b),
    decreases b.len(),
{
    if b.len() == 0 {
        assert(a + b =~= a);
    } else {
        lemma_segs_width_concat(a, b.drop_last());
        assert((a + b).drop_last() =~= a + b.drop_last());
    }
}

proof fn lemma_no_break_concat(a: Seq<SegModel>, b: Seq<SegModel>)
    requires
        no_break(a),
        no_break(b),
    ensures
        no_break(a + b),
{
    assert forall|i: int| 0 <= i < (a + b).len() implies !(#[trigger] (a + b)[i]).0.contains('\n')
        by {
        if i < a.len() {
            assert((a + b)[i] == a[i]);
        } else {
            assert((a + b)[i] == b[i - a.len()]);
        }
    }
}

/// A text without escapes shows as many columns as it has characters.
pub proof fn lemma_vis_len_plain(s: Seq<char>)
    requires
        !s.contains(esc()),
    ensures
        vis_len(s) == s.len(),
{
    lemma_vis_plain(s);
}

/// One character that is not an escape shows one column.
proof fn lemma_one_char(t: Seq<char>)
    requires
        t.len() == 1,
        t[0] != '\x1b',
    ensures
        vis_len(t) == 1,
{
    assert(!t.contains(esc()));
    lemma_vis_len_plain(t);
}

/// The sum of the first `n` widths.
pub open spec fn wsum(ws: Seq<nat>, n: nat) -> nat
    decreases n,
{
    if n == 0 {
        0
    } else {
        wsum(ws, (n - 1) as nat) + ws[n - 1]
    }
}

/// Columns a line of the five-column table shows.
pub open spec fn table_width(ws: Seq<nat>) -> nat {
    wsum(ws, 5) + 16
}

proof fn lemma_rep_frame(t: Seq<char>, n: nat)
    requires
        t.len() == 1,
        t[0] != '\x1b',
        t[0] != '\n',
    ensures
        segs_width(crate::style::rep(frame(t), n)) == n,
        no_break(crate::style::rep(frame(t), n)),
    decreases n,
{
    let r = crate::style::rep(frame(t), n);
    lemma_one_char(t);
    assert(!t.contains('\n'));
    if n > 0 {
        lemma_rep_frame(t, (n - 1) as nat);
        assert(r.drop_last() =~= crate::style::rep(frame(t), (n - 1) as nat));
    }
}

proof fn lemma_border_cells(ws: Seq<nat>, n: nat, mid: Seq<char>, right: Seq<char>)
    requires
        n <= ws.len(),
        mid.len() == 1,
        mid[0] != '\x1b',
        mid[0] != '\n',
        right.len() == 1,
        right[0] != '\x1b',
        right[0] != '\n',
    ensures
        segs_width(border_cells(ws, n, mid, right)) == wsum(ws, n) + 3 * n,
        no_break(border_cells(ws, n, mid, right)),
    decreases n,
{
    if n > 0 {
        lemma_border_cells(ws, (n - 1) as nat, mid, right);
        reveal_strlit("─");
        let d: Seq<char> = "─"@;
        assert(d[0] == '─');
        lemma_rep_frame(d, ws[n - 1] + 2);
        let e = if n == ws.len() {
            right
        } else {
            mid
        };
        lemma_one_char(e);
        assert(!e.contains('\n'));
        let a = border_cells(ws, (n - 1) as nat, mid, right);
        let b = crate::style::rep(frame(d), ws[n - 1] + 2);
        let c = seq![frame(e)];
        lemma_segs_width_concat(a, b);
        lemma_segs_width_concat(a + b, c);
        lemma_no_break_concat(a, b);
        assert(no_break(c));
        lemma_no_break_concat(a + b, c);
        assert(c.drop_last() =~= Seq::<SegModel>::empty());
        assert(segs_width(Seq::<SegModel>::empty()) == 0);
        assert(c.last().0 == e);
        assert(segs_width(c) == 1);
        assert(segs_width(b) == ws[n - 1] + 2);
        assert(border_cells(ws, n, mid, right) == a + b + c);
        assert(wsum(ws, n) == wsum(ws, (n - 1) as nat) + ws[n - 1]);
    }
}

proof fn lemma_single_char_texts()
    ensures
        "┌"@.len() == 1 && "┌"@[0] != '\x1b' && "┌"@[0] != '\n',
        "┬"@.len() == 1 && "┬"@[0] != '\x1b' && "┬"@[0] != '\n',
        "┐"@.len() == 1 && "┐"@[0] != '\x1b' && "┐"@[0] != '\n',
        "├"@.len() == 1 && "├"@[0] != '\x1b' && "├"@[0] != '\n',
        "┼"@.len() == 1 && "┼"@[0] != '\x1b' && "┼"@[0] != '\n',
        "┤"@.len() == 1 && "┤"@[0] != '\x1b' && "┤"@[0] != '\n',
        "└"@.len() == 1 && "└"@[0] != '\x1b' && "└"@[0] != '\n',
        "┴"@.len() == 1 && "┴"@[0] != '\x1b' && "┴"@[0] != '\n',
        "┘"@.len() == 1 && "┘"@[0] != '\x1b' && "┘"@[0] != '\n',
        "│"@.len() == 1 && "│"@[0] != '\x1b' && "│"@[0] != '\n',
        " "@.len() == 1 && " "@[0] != '\x1b' && " "@[0] != '\n',
        "\n"@.len() == 1 && "\n"@[0] == '\n',
{
    reveal_strlit("┌");
    reveal_strlit("┬");
    reveal_strlit("┐");
    reveal_strlit("├");
    reveal_strlit("┼");
    reveal_strlit("┤");
    reveal_strlit("└");
    reveal_strlit("┴");
    reveal_strlit("┘");
    reveal_strlit("│");
    reveal_strlit(" ");
    reveal_strlit("\n");
}

/// A border line of the five columns is one line as wide as the table.
proof fn lemma_border_line(ws: Seq<nat>, left: Seq<char>, mid: Seq<char>, right: Seq<char>)
    requires
        ws.len() == 5,
        left.len() == 1,
        left[0] != '\x1b',
        left[0] != '\n',
        mid.len() == 1,
        mid[0] != '\x1b',
        mid[0] != '\n',
        right.len() == 1,
        right[0] != '\x1b',
        right[0] != '\n',
    ensures
        is_line(border_line(ws, left, mid, right), table_width(ws)),
{
    lemma_single_char_texts();
    lemma_border_cells(ws, 5, mid, right);
    lemma_one_char(left);
    assert(!left.contains('\n'));
    let a = seq![frame(left)];
    let b = border_cells(ws, 5, mid, right);
    let l = border_line(ws, left, mid, right);
    assert(l.drop_last() =~= a + b);
    assert(a.drop_last() =~= Seq::<SegModel>::empty());
    lemma_segs_width_concat(a, b);
    assert(no_break(a));
    lemma_no_break_concat(a, b);
    assert(segs_width(Seq::<SegModel>::empty()) == 0);
    assert(a.last().0 == left);
    assert(segs_width(a) == 1);
    reveal_with_fuel(wsum, 6);
    assert(wsum(ws, 5) == ws[0] + ws[1] + ws[2] + ws[3] + ws[4]);
    assert(l.last() == raw("\n"@));
}

/// A run of spaces shows as many columns.
proof fn lemma_pad_width(n: nat)
    ensures
        segs_width(seq![pad(n)]) == n,
        no_break(seq![pad(n)]),
{
    let t = crate::text::spaces(n);
    assert(!t.contains(esc()));
    assert(!t.contains('\n'));
    lemma_vis_len_plain(t);
    assert(seq![pad(n)].drop_last() =~= Seq::<SegModel>::empty());
    assert(segs_width(Seq::<SegModel>::empty()) == 0);
}

/// A segment of one plain character shows one column.
proof fn lemma_char_seg_width(x: SegModel)
    requires
        x.0.len() == 1,
        x.0[0] != '\x1b',
        x.0[0] != '\n',
    ensures
        segs_width(seq![x]) == 1,
        no_break(seq![x]),
{
    lemma_one_char(x.0);
    assert(!x.0.contains('\n'));
    assert(seq![x].drop_last() =~= Seq::<SegModel>::empty());
    assert(segs_width(Seq::<SegModel>::empty()) == 0);
}

/// A segment of plain text shows as many columns as it has characters.
proof fn lemma_text_seg_width(x: SegModel)
    requires
        !x.0.contains(esc()),
        !x.0.contains('\n'),
    ensures
        segs_width(seq![x]) == x.0.len(),
        no_break(seq![x]),
{
    lemma_vis_len_plain(x.0);
    assert(seq![x].drop_last() =~= Seq::<SegModel>::empty());
    assert(segs_width(Seq::<SegModel>::empty()) == 0);
}

/// A cell: a space, its content, padding, a space and the bar.
proof fn lemma_cell_width(content: Seq<SegModel>, n: nat)
    requires
        no_break(content),
    ensures
        segs_width(cell(content, n)) == segs_width(content) + n + 3,
        no_break(cell(content, n)),
{
    lemma_single_char_texts();
    let sp = seq![raw(" "@)];
    let p = seq![pad(n)];
    let v = seq![vbar()];
    lemma_char_seg_width(raw(" "@));
    lemma_char_seg_width(vbar());
    lemma_pad_width(n);
    assert(cell(content, n) =~= sp + content + p + sp + v);
    lemma_segs_width_concat(sp, content);
    lemma_segs_width_concat(sp + content, p);
    lemma_segs_width_concat(sp + content + p, sp);
    lemma_segs_width_concat(sp + content + p + sp, v);
    lemma_no_break_concat(sp, content);
    lemma_no_break_concat(sp + content, p);
    lemma_no_break_concat(sp + content + p, sp);
    lemma_no_break_concat(sp + content + p + sp, v);
}

/// The header titles: plain text, their lengths the column floors.
proof fn lemma_headers()
    ensures
        forall|k: int|
            0 <= k < 5 ==> !(#[trigger] enum_headers()[k]).contains(esc()) && !enum_headers()[k].contains(
                '\n',
            ) && enum_headers()[k].len() == col_floor(k) && crate::tables::blen(enum_headers()[k])
                == col_floor(k),
{
    reveal_strlit("Handles");
    reveal_strlit("Service > Characteristics");
    reveal_strlit("Properties");
    reveal_strlit("Data");
    reveal_strlit("ASCII");
    assert forall|k: int| 0 <= k < 5 implies !(#[trigger] enum_headers()[k]).contains(esc())
        && !enum_headers()[k].contains('\n') && enum_headers()[k].len() == col_floor(k)
        && crate::tables::blen(enum_headers()[k]) == col_floor(k) by {
        let h = enum_headers()[k];
        assert(vstd::utf8::is_ascii_chars(h));
        vstd::utf8::is_ascii_chars_encode_utf8(h);
    }
}

proof fn lemma_header_cells(hs: Seq<Seq<char>>, ws: Seq<nat>, n: nat)
    requires
        n <= hs.len(),
        n <= ws.len(),
        forall|k: int|
            0 <= k < n ==> !(#[trigger] hs[k]).contains(esc()) && !hs[k].contains('\n')
                && crate::tables::blen(hs[k]) == hs[k].len() && hs[k].len() <= ws[k],
    ensures
        segs_width(header_cells(hs, ws, n)) == wsum(ws, n) + 3 * n,
        no_break(header_cells(hs, ws, n)),
    decreases n,
{
    if n > 0 {
        lemma_header_cells(hs, ws, (n - 1) as nat);
        let h = hs[n - 1];
        let a = header_cells(hs, ws, (n - 1) as nat);
        let c = seq![crate::style::bold(h, Palette::Mauve)];
        lemma_text_seg_width(crate::style::bold(h, Palette::Mauve));
        let body = cell(c, sat_sub(ws[n - 1], crate::tables::blen(h)));
        lemma_cell_width(c, sat_sub(ws[n - 1], crate::tables::blen(h)));
        assert(header_cells(hs, ws, n) =~= a + body);
        lemma_segs_width_concat(a, body);
        lemma_no_break_concat(a, body);
    }
}

/// The header line is one line as wide as the table.
proof fn lemma_header_line(ws: Seq<nat>)
    requires
        ws.len() == 5,
        forall|k: int| 0 <= k < 5 ==> #[trigger] ws[k] >= col_floor(k),
    ensures
        is_line(header_line(enum_headers(), ws), table_width(ws)),
{
    lemma_headers();
    lemma_single_char_texts();
    lemma_header_cells(enum_headers(), ws, 5);
    let a = seq![vbar()];
    let b = header_cells(enum_headers(), ws, 5);
    lemma_char_seg_width(vbar());
    let l = header_line(enum_headers(), ws);
    assert(l.drop_last() =~= a + b);
    lemma_segs_width_concat(a, b);
    lemma_no_break_concat(a, b);
    reveal_with_fuel(wsum, 6);
}

/// Text that shows as it is on one line: no escape, no line break.
pub open spec fn clean(t: Seq<char>) -> bool {
    !t.contains(esc()) && !t.contains('\n')
}

proof fn lemma_clean_seg(x: SegModel)
    requires
        clean(x.0),
    ensures
        segs_width(seq![x]) == x.0.len(),
        vis_len(x.0) == x.0.len(),
        no_break(seq![x]),
{
    lemma_text_seg_width(x);
    lemma_vis_len_plain(x.0);
}

proof fn lemma_empty_segs()
    ensures
        segs_width(Seq::<SegModel>::empty()) == 0,
        no_break(Seq::<SegModel>::empty()),
        vis_len(Seq::<char>::empty()) == 0,
{
    assert(vis(Seq::<char>::empty(), false) =~= Seq::<char>::empty());
}

/// Dropping leading whitespace leaves a suffix.
proof fn lemma_trim_start_suffix(d: Seq<char>)
    ensures
        crate::text::trim_start(d).len() <= d.len(),
        forall|i: int|
            0 <= i < crate::text::trim_start(d).len() ==> #[trigger] crate::text::trim_start(d)[i]
                == d[i + d.len() - crate::text::trim_start(d).len()],
    decreases d.len(),
{
    if d.len() > 0 && crate::text::is_ws(d[0]) {
        lemma_trim_start_suffix(d.drop_first());
    }
}

proof fn lemma_clean_suffix(d: Seq<char>)
    requires
        clean(d),
    ensures
        clean(crate::text::trim_start(d)),
{
    lemma_trim_start_suffix(d);
    let t = crate::text::trim_start(d);
    if t.contains(esc()) {
        let i = choose|i: int| 0 <= i < t.len() && t[i] == esc();
        assert(d[i + d.len() - t.len()] == esc());
    }
    if t.contains('\n') {
        let i = choose|i: int| 0 <= i < t.len() && t[i] == '\n';
        assert(d[i + d.len() - t.len()] == '\n');
    }
}

/// Leading whitespace after `k` whitespace characters.
proof fn lemma_trim_start_drop(d: Seq<char>, k: int)
    requires
        0 <= k <= d.len(),
        forall|i: int| 0 <= i < k ==> crate::text::is_ws(#[trigger] d[i]),
    ensures
        crate::text::trim_start(d) == crate::text::trim_start(d.skip(k)),
    decreases k,
{
    if k > 0 {
        assert(d.drop_first().skip(k - 1) =~= d.skip(k));
        assert forall|i: int| 0 <= i < k - 1 implies crate::text::is_ws(
            #[trigger] d.drop_first()[i],
        ) by {
            assert(d.drop_first()[i] == d[i + 1]);
        }
        lemma_trim_start_drop(d.drop_first(), k - 1);
    } else {
        assert(d.skip(0) =~= d);
    }
}

/// The handles cell content shows the handles text.
proof fn lemma_handles_content(h: Seq<char>)
    requires
        clean(h),
    ensures
        segs_width(crate::tables::handles_content(h)) == h.len(),
        no_break(crate::tables::handles_content(h)),
        vis_len(h) == h.len(),
{
    lemma_empty_segs();
    lemma_vis_len_plain(h);
    if h.len() > 0 || crate::tables::contains_arrow(h) {
        if crate::tables::contains_arrow(h) {
            lemma_clean_seg(crate::style::bold(h, Palette::Sapphire));
        } else {
            lemma_clean_seg(crate::style::col(h, Palette::Sky));
        }
    }
}

/// The description cell content shows as many columns as counted.
proof fn lemma_desc_content(d: Seq<char>)
    requires
        clean(d),
    ensures
        segs_width(crate::tables::desc_content(d)) == crate::tables::desc_shown_len(d),
        no_break(crate::tables::desc_content(d)),
        crate::tables::desc_shown_len(d) <= d.len(),
{
    lemma_vis_len_plain(d);
    lemma_clean_seg(raw(d));
    reveal_strlit("    ");
    reveal_strlit("  ");
    reveal_strlit(" ");
    let t = crate::text::trim_start(d);
    lemma_clean_suffix(d);
    lemma_trim_start_suffix(d);
    lemma_vis_len_plain(t);
    if vis_len(d) > 0 && !crate::text::starts_with(d, " "@) {
    } else if crate::text::starts_with(d, "    "@) {
        let a = seq![raw("    "@)];
        let b = seq![crate::style::col(t, Palette::Overlay0)];
        assert(clean("    "@));
        lemma_clean_seg(raw("    "@));
        lemma_clean_seg(crate::style::col(t, Palette::Overlay0));
        lemma_segs_width_concat(a, b);
        lemma_no_break_concat(a, b);
        assert(crate::tables::desc_content(d) =~= a + b);
        assert(d.take(4) == "    "@);
        assert forall|i: int| 0 <= i < 4 implies crate::text::is_ws(#[trigger] d[i]) by {
            assert(d[i] == d.take(4)[i]);
        }
        lemma_trim_start_drop(d, 4);
        lemma_trim_start_suffix(d.skip(4));
    } else if crate::text::starts_with(d, "  "@) {
        let a = seq![raw("  "@)];
        let b = seq![crate::style::col(t, Palette::Teal)];
        assert(clean("  "@));
        lemma_clean_seg(raw("  "@));
        lemma_clean_seg(crate::style::col(t, Palette::Teal));
        lemma_segs_width_concat(a, b);
        lemma_no_break_concat(a, b);
        assert(crate::tables::desc_content(d) =~= a + b);
        assert(d.take(2) == "  "@);
        assert forall|i: int| 0 <= i < 2 implies crate::text::is_ws(#[trigger] d[i]) by {
            assert(d[i] == d.take(2)[i]);
        }
        lemma_trim_start_drop(d, 2);
        lemma_trim_start_suffix(d.skip(2));
    } else {
    }
}

proof fn lemma_clean_push(c: Seq<char>, x: char)
    requires
        clean(c),
        x != '\x1b',
        x != '\n',
    ensures
        clean(c.push(x)),
{
    if c.push(x).contains(esc()) {
        let i = choose|i: int| 0 <= i < c.push(x).len() && c.push(x)[i] == esc();
        if i < c.len() {
            assert(c[i] == esc());
        }
    }
    if c.push(x).contains('\n') {
        let i = choose|i: int| 0 <= i < c.push(x).len() && c.push(x)[i] == '\n';
        if i < c.len() {
            assert(c[i] == '\n');
        }
    }
}

proof fn lemma_clean_tail(c: Seq<char>)
    requires
        clean(c),
        c.len() > 0,
    ensures
        clean(c.drop_first()),
        c[0] != '\x1b',
        c[0] != '\n',
{
    assert(c.contains(c[0]) ==> true);
    if c[0] == esc() {
        assert(c.contains(esc()));
    }
    if c[0] == '\n' {
        assert(c.contains('\n'));
    }
    if c.drop_first().contains(esc()) {
        let i = choose|i: int| 0 <= i < c.drop_first().len() && c.drop_first()[i] == esc();
        assert(c[i + 1] == esc());
    }
    if c.drop_first().contains('\n') {
        let i = choose|i: int| 0 <= i < c.drop_first().len() && c.drop_first()[i] == '\n';
        assert(c[i + 1] == '\n');
    }
}

/// Splitting clean text: clean fields, whose shown columns with one
/// separator between them add up to the text's length.
proof fn lemma_split_shown(done: Seq<Seq<char>>, cur: Seq<char>, rest: Seq<char>)
    requires
        forall|i: int| 0 <= i < done.len() ==> clean(#[trigger] done[i]),
        clean(cur),
        clean(rest),
    ensures
        forall|i: int|
            0 <= i < crate::text::split_acc(done, cur, rest, ' ').len() ==> clean(
                #[trigger] crate::text::split_acc(done, cur, rest, ' ')[i],
            ),
        crate::tables::words_shown_len(crate::text::split_acc(done, cur, rest, ' ')) == (if done.len()
            == 0 {
            0
        } else {
            crate::tables::words_shown_len(done) + 1
        }) + cur.len() + rest.len(),
    decreases rest.len(),
{
    lemma_vis_len_plain(cur);
    if rest.len() == 0 {
        let r = done.push(cur);
        assert forall|i: int| 0 <= i < r.len() implies clean(#[trigger] r[i]) by {
            if i < done.len() {
                assert(r[i] == done[i]);
            }
        }
        assert(r.drop_last() =~= done);
    } else {
        lemma_clean_tail(rest);
        if rest[0] == ' ' {
            let d2 = done.push(cur);
            assert forall|i: int| 0 <= i < d2.len() implies clean(#[trigger] d2[i]) by {
                if i < done.len() {
                    assert(d2[i] == done[i]);
                }
            }
            assert(clean(Seq::<char>::empty()));
            lemma_split_shown(d2, Seq::<char>::empty(), rest.drop_first());
            assert(d2.drop_last() =~= done);
        } else {
            lemma_clean_push(cur, rest[0]);
            lemma_split_shown(done, cur.push(rest[0]), rest.drop_first());
        }
    }
}

proof fn lemma_word_segs(ws: Seq<Seq<char>>)
    requires
        forall|i: int| 0 <= i < ws.len() ==> clean(#[trigger] ws[i]),
    ensures
        segs_width(crate::tables::word_segs(ws)) == crate::tables::words_shown_len(ws),
        no_break(crate::tables::word_segs(ws)),
    decreases ws.len(),
{
    lemma_empty_segs();
    lemma_single_char_texts();
    if ws.len() == 1 {
        let x = (ws[0], Some(crate::tables::prop_style(ws[0])));
        lemma_clean_seg(x);
    } else if ws.len() > 1 {
        let d = ws.drop_last();
        assert forall|i: int| 0 <= i < d.len() implies clean(#[trigger] d[i]) by {
            assert(d[i] == ws[i]);
        }
        lemma_word_segs(d);
        let x = (ws.last(), Some(crate::tables::prop_style(ws.last())));
        lemma_clean_seg(x);
        lemma_char_seg_width(raw(" "@));
        lemma_vis_len_plain(ws.last());
        let a = crate::tables::word_segs(d);
        let b = seq![raw(" "@)];
        let c = seq![x];
        assert(crate::tables::word_segs(ws) =~= a + b + c);
        lemma_segs_width_concat(a, b);
        lemma_segs_width_concat(a + b, c);
        lemma_no_break_concat(a, b);
        lemma_no_break_concat(a + b, c);
    }
}

/// The properties cell content shows the properties text's columns.
proof fn lemma_props_content(p: Seq<char>)
    requires
        clean(p),
    ensures
        segs_width(crate::tables::props_content(p)) == crate::tables::props_shown_len(p),
        no_break(crate::tables::props_content(p)),
        crate::tables::props_shown_len(p) == p.len(),
{
    lemma_empty_segs();
    if p.len() > 0 {
        assert(clean(Seq::<char>::empty()));
        lemma_split_shown(Seq::empty(), Seq::empty(), p);
        lemma_word_segs(crate::text::split_on(p, ' '));
    }
}

proof fn lemma_clean_sub(s: Seq<char>, a: int, e: int)
    requires
        clean(s),
        vstd::utf8::is_ascii_chars(s),
        0 <= a <= e <= s.len(),
    ensures
        clean(s.subrange(a, e)),
        vstd::utf8::is_ascii_chars(s.subrange(a, e)),
{
    let t = s.subrange(a, e);
    if t.contains(esc()) {
        let i = choose|i: int| 0 <= i < t.len() && t[i] == esc();
        assert(s[a + i] == esc());
    }
    if t.contains('\n') {
        let i = choose|i: int| 0 <= i < t.len() && t[i] == '\n';
        assert(s[a + i] == '\n');
    }
    assert forall|i: int| 0 <= i < t.len() implies '\0' <= #[trigger] t[i] <= '\u{7f}' by {
        assert(t[i] == s[a + i]);
    }
}

proof fn lemma_ascii_encode_sub(s: Seq<char>, a: int, e: int)
    requires
        vstd::utf8::is_ascii_chars(s),
        0 <= a <= e <= s.len(),
    ensures
        vstd::utf8::encode_utf8(s.subrange(a, e)) == vstd::utf8::encode_utf8(s).subrange(a, e),
{
    lemma_clean_sub_ascii(s, a, e);
    let t = s.subrange(a, e);
    vstd::utf8::is_ascii_chars_encode_utf8(s);
    vstd::utf8::is_ascii_chars_encode_utf8(t);
    assert forall|i: int| 0 <= i < t.len() implies vstd::utf8::encode_utf8(t)[i]
        == vstd::utf8::encode_utf8(s).subrange(a, e)[i] by {
        assert(t[i] == s[a + i]);
    }
    assert(vstd::utf8::encode_utf8(t) =~= vstd::utf8::encode_utf8(s).subrange(a, e));
}

proof fn lemma_clean_sub_ascii(s: Seq<char>, a: int, e: int)
    requires
        vstd::utf8::is_ascii_chars(s),
        0 <= a <= e <= s.len(),
    ensures
        vstd::utf8::is_ascii_chars(s.subrange(a, e)),
{
    let t = s.subrange(a, e);
    assert forall|i: int| 0 <= i < t.len() implies '\0' <= #[trigger] t[i] <= '\u{7f}' by {
        assert(t[i] == s[a + i]);
    }
}

/// The wrapped pieces of clean ASCII text decode to clean text no wider
/// than the width.
proof fn lemma_wrap_rest_clean(s: Seq<char>, w: nat)
    requires
        clean(s),
        vstd::utf8::is_ascii_chars(s),
        w > 0,
    ensures
        forall|i: int|
            0 <= i < crate::tables::wrap_rest(vstd::utf8::encode_utf8(s), w).len() ==> {
                let c = vstd::utf8::decode_utf8(
                    #[trigger] crate::tables::wrap_rest(vstd::utf8::encode_utf8(s), w)[i],
                );
                clean(c) && c.len() <= w
            },
    decreases s.len(),
{
    broadcast use vstd::utf8::group_utf8_lib;

    let b = vstd::utf8::encode_utf8(s);
    vstd::utf8::is_ascii_chars_encode_utf8(s);
    let r = crate::tables::wrap_rest(b, w);
    if b.len() == 0 {
    } else if b.len() <= w {
        assert(r == seq![b]);
    } else {
        crate::tables::lemma_cut_range(b, w);
        let c = crate::tables::cut_at(b, w);
        lemma_ascii_encode_sub(s, 0, c);
        lemma_ascii_encode_sub(s, c, s.len() as int);
        assert(b.take(c) =~= b.subrange(0, c));
        assert(b.skip(c) =~= b.subrange(c, b.len() as int));
        let head = s.subrange(0, c);
        let tail = s.subrange(c, s.len() as int);
        lemma_clean_sub(s, 0, c);
        lemma_clean_sub(s, c, s.len() as int);
        lemma_wrap_rest_clean(tail, w);
        assert(r == seq![b.take(c)] + crate::tables::wrap_rest(b.skip(c), w));
        assert forall|i: int| 0 <= i < r.len() implies {
            let x = vstd::utf8::decode_utf8(#[trigger] r[i]);
            clean(x) && x.len() <= w
        } by {
            if i == 0 {
                assert(r[0] == vstd::utf8::encode_utf8(head));
            } else {
                assert(r[i] == crate::tables::wrap_rest(vstd::utf8::encode_utf8(tail), w)[i - 1]);
            }
        }
    }
}

/// A line of the data or ASCII column: clean and no wider than the column.
proof fn lemma_chunk(s: Seq<char>, w: nat, li: nat)
    requires
        clean(s),
        vstd::utf8::is_ascii_chars(s),
        w > 0,
    ensures
        ({
            let c = crate::tables::chunk_at(
                crate::tables::decode_lines(crate::tables::wrap_plain(vstd::utf8::encode_utf8(s), w)),
                li,
            );
            clean(c) && c.len() <= w && vis_len(c) == c.len()
        }),
{
    broadcast use vstd::utf8::group_utf8_lib;

    let b = vstd::utf8::encode_utf8(s);
    let ls = crate::tables::wrap_plain(b, w);
    let dl = crate::tables::decode_lines(ls);
    lemma_wrap_rest_clean(s, w);
    lemma_empty_segs();
    if li < dl.len() {
        assert(dl[li as int] == vstd::utf8::decode_utf8(ls[li as int]));
        if b.len() == 0 {
            assert(ls[li as int] == b);
            assert(vstd::utf8::decode_utf8(b) == s);
            vstd::utf8::is_ascii_chars_encode_utf8(s);
        }
        lemma_vis_len_plain(dl[li as int]);
    } else {
        assert(clean(Seq::<char>::empty()));
    }
}

/// A row whose texts show as they are on one line, its data and ASCII
/// columns in ASCII (as the enumerate rows are).
pub open spec fn clean_row(r: EnumRowView) -> bool {
    &&& clean(r.handles)
    &&& clean(r.description)
    &&& clean(r.properties)
    &&& clean(r.data)
    &&& clean(r.ascii)
    &&& vstd::utf8::is_ascii_chars(r.data)
    &&& vstd::utf8::is_ascii_chars(r.ascii)
}

proof fn lemma_painted_chunk(c: Seq<char>, st: Style)
    requires
        clean(c),
    ensures
        segs_width(crate::tables::painted_chunk(c, st)) == c.len(),
        no_break(crate::tables::painted_chunk(c, st)),
{
    lemma_empty_segs();
    if c.len() > 0 {
        lemma_clean_seg((c, Some(st)));
    }
}

/// A cell whose content shows `k` columns, padded to `w >= k`.
proof fn lemma_full_cell(content: Seq<SegModel>, k: nat, w: nat)
    requires
        no_break(content),
        segs_width(content) == k,
        k <= w,
    ensures
        segs_width(cell(content, sat_sub(w, k))) == w + 3,
        no_break(cell(content, sat_sub(w, k))),
{
    lemma_cell_width(content, sat_sub(w, k));
}

/// Every line of an enumerate row is one line as wide as the table, when
/// the row's texts fit their columns.
proof fn lemma_enum_line(r: crate::tables::EnumRowView, ws: Seq<nat>, li: nat)
    requires
        ws.len() == 5,
        clean_row(r),
        ws[3] > 0,
        ws[4] > 0,
        r.handles.len() <= ws[0],
        r.description.len() <= ws[1],
        r.properties.len() <= ws[2],
    ensures
        is_line(
            crate::tables::enum_line(
                r,
                ws,
                crate::tables::data_lines(r, ws),
                crate::tables::ascii_lines(r, ws),
                li,
            ),
            table_width(ws),
        ),
{
    lemma_empty_segs();
    lemma_single_char_texts();
    let dl = crate::tables::data_lines(r, ws);
    let al = crate::tables::ascii_lines(r, ws);
    let e = Seq::<SegModel>::empty();
    let ch = if li == 0 {
        cell(crate::tables::handles_content(r.handles), sat_sub(ws[0], vis_len(r.handles)))
    } else {
        cell(seq![], ws[0])
    };
    let cd = if li == 0 {
        cell(
            crate::tables::desc_content(r.description),
            sat_sub(ws[1], crate::tables::desc_shown_len(r.description)),
        )
    } else {
        cell(seq![], ws[1])
    };
    let cp = if li == 0 {
        cell(
            crate::tables::props_content(r.properties),
            sat_sub(ws[2], crate::tables::props_shown_len(r.properties)),
        )
    } else {
        cell(seq![], ws[2])
    };
    let dst = Style { color: Palette::Flamingo, bold: false };
    let ast = Style { color: Palette::Yellow, bold: true };
    let dc = crate::tables::chunk_at(dl, li);
    let ac = crate::tables::chunk_at(al, li);
    let cdat = cell(crate::tables::painted_chunk(dc, dst), sat_sub(ws[3], vis_len(dc)));
    let casc = cell(crate::tables::painted_chunk(ac, ast), sat_sub(ws[4], vis_len(ac)));
    lemma_handles_content(r.handles);
    lemma_desc_content(r.description);
    lemma_props_content(r.properties);
    if li == 0 {
        lemma_full_cell(crate::tables::handles_content(r.handles), r.handles.len(), ws[0]);
        lemma_full_cell(
            crate::tables::desc_content(r.description),
            crate::tables::desc_shown_len(r.description),
            ws[1],
        );
        lemma_full_cell(crate::tables::props_content(r.properties), r.properties.len(), ws[2]);
    } else {
        assert(seq![] =~= e);
        lemma_full_cell(e, 0, ws[0]);
        lemma_full_cell(e, 0, ws[1]);
        lemma_full_cell(e, 0, ws[2]);
    }
    lemma_chunk(r.data, ws[3], li);
    lemma_chunk(r.ascii, ws[4], li);
    lemma_painted_chunk(dc, dst);
    lemma_painted_chunk(ac, ast);
    lemma_full_cell(crate::tables::painted_chunk(dc, dst), dc.len(), ws[3]);
    lemma_full_cell(crate::tables::painted_chunk(ac, ast), ac.len(), ws[4]);
    let v = seq![vbar()];
    lemma_char_seg_width(vbar());
    let l = crate::tables::enum_line(r, ws, dl, al, li);
    assert(l.drop_last() =~= v + ch + cd + cp + cdat + casc);
    lemma_segs_width_concat(v, ch);
    lemma_segs_width_concat(v + ch, cd);
    lemma_segs_width_concat(v + ch + cd, cp);
    lemma_segs_width_concat(v + ch + cd + cp, cdat);
    lemma_segs_width_concat(v + ch + cd + cp + cdat, casc);
    lemma_no_break_concat(v, ch);
    lemma_no_break_concat(v + ch, cd);
    lemma_no_break_concat(v + ch + cd, cp);
    lemma_no_break_concat(v + ch + cd + cp, cdat);
    lemma_no_break_concat(v + ch + cd + cp + cdat, casc);
    reveal_with_fuel(wsum, 6);
}

/// The first `n` lines of a row.
pub open spec fn row_line_list(r: EnumRowView, ws: Seq<nat>, n: nat) -> Seq<Seq<SegModel>>
    decreases n,
{
    if n == 0 {
        seq![]
    } else {
        row_line_list(r, ws, (n - 1) as nat).push(
            crate::tables::enum_line(
                r,
                ws,
                crate::tables::data_lines(r, ws),
                crate::tables::ascii_lines(r, ws),
                (n - 1) as nat,
            ),
        )
    }
}

/// The lines of the first `n` rows.
pub open spec fn rows_line_list(rows: Seq<EnumRowView>, ws: Seq<nat>, n: nat) -> Seq<
    Seq<SegModel>,
>
    decreases n,
{
    if n == 0 {
        seq![]
    } else {
        rows_line_list(rows, ws, (n - 1) as nat) + row_line_list(
            rows[n - 1],
            ws,
            crate::tables::line_count(rows[n - 1], ws),
        )
    }
}

/// The enumerate table as a list of lines: the top border, the header, the
/// rule under it, the lines of every row, the bottom border.
pub open spec fn enum_table_lines(rows: Seq<EnumRowView>, tw: nat) -> Seq<Seq<SegModel>> {
    let ws = enum_widths(rows, tw);
    seq![
        border_line(ws, "┌"@, "┬"@, "┐"@),
        header_line(enum_headers(), ws),
        border_line(ws, "├"@, "┼"@, "┤"@),
    ] + rows_line_list(rows, ws, rows.len()) + seq![border_line(ws, "└"@, "┴"@, "┘"@)]
}

proof fn lemma_join_concat(a: Seq<Seq<SegModel>>, b: Seq<Seq<SegModel>>)
    ensures
        join_lines(a + b) == join_lines(a) + join_lines(b),
    decreases b.len(),
{
    if b.len() == 0 {
        assert(a + b =~= a);
        assert(join_lines(a) + Seq::<SegModel>::empty() =~= join_lines(a));
    } else {
        lemma_join_concat(a, b.drop_last());
        assert((a + b).drop_last() =~= a + b.drop_last());
        assert(join_lines(a) + join_lines(b.drop_last()) + b.last() =~= join_lines(a) + (join_lines(
            b.drop_last(),
        ) + b.last()));
    }
}

proof fn lemma_join_row(r: EnumRowView, ws: Seq<nat>, n: nat)
    ensures
        join_lines(row_line_list(r, ws, n)) == crate::tables::enum_row_lines(r, ws, n),
    decreases n,
{
    if n > 0 {
        lemma_join_row(r, ws, (n - 1) as nat);
        assert(row_line_list(r, ws, n).drop_last() =~= row_line_list(r, ws, (n - 1) as nat));
    }
}

proof fn lemma_join_rows(rows: Seq<EnumRowView>, ws: Seq<nat>, n: nat)
    requires
        n <= rows.len(),
    ensures
        join_lines(rows_line_list(rows, ws, n)) == crate::tables::enum_rows_segs(rows, ws, n),
    decreases n,
{
    if n > 0 {
        lemma_join_rows(rows, ws, (n - 1) as nat);
        let r = rows[n - 1];
        lemma_join_concat(
            rows_line_list(rows, ws, (n - 1) as nat),
            row_line_list(r, ws, crate::tables::line_count(r, ws)),
        );
        lemma_join_row(r, ws, crate::tables::line_count(r, ws));
    }
}

proof fn lemma_col_max_ge(rows: Seq<EnumRowView>, k: int, i: int)
    requires
        0 <= i < rows.len(),
    ensures
        col_max(rows, k) >= crate::tables::col_measure(rows[i], k),
    decreases rows.len(),
{
    if i < rows.len() - 1 {
        lemma_col_max_ge(rows.drop_last(), k, i);
        assert(rows.drop_last()[i] == rows[i]);
    }
}

proof fn lemma_row_lines_wide(r: EnumRowView, ws: Seq<nat>, n: nat)
    requires
        ws.len() == 5,
        clean_row(r),
        ws[3] > 0,
        ws[4] > 0,
        r.handles.len() <= ws[0],
        r.description.len() <= ws[1],
        r.properties.len() <= ws[2],
    ensures
        forall|i: int|
            0 <= i < row_line_list(r, ws, n).len() ==> is_line(
                #[trigger] row_line_list(r, ws, n)[i],
                table_width(ws),
            ),
        row_line_list(r, ws, n).len() == n,
    decreases n,
{
    if n > 0 {
        lemma_row_lines_wide(r, ws, (n - 1) as nat);
        lemma_enum_line(r, ws, (n - 1) as nat);
    }
}

proof fn lemma_rows_lines_wide(rows: Seq<EnumRowView>, ws: Seq<nat>, n: nat)
    requires
        n <= rows.len(),
        ws.len() == 5,
        ws[3] > 0,
        ws[4] > 0,
        forall|j: int|
            0 <= j < rows.len() ==> clean_row(#[trigger] rows[j]) && rows[j].handles.len() <= ws[0]
                && rows[j].description.len() <= ws[1] && rows[j].properties.len() <= ws[2],
    ensures
        forall|i: int|
            0 <= i < rows_line_list(rows, ws, n).len() ==> is_line(
                #[trigger] rows_line_list(rows, ws, n)[i],
                table_width(ws),
            ),
    decreases n,
{
    if n > 0 {
        lemma_rows_lines_wide(rows, ws, (n - 1) as nat);
        let r = rows[n - 1];
        let c = crate::tables::line_count(r, ws);
        lemma_row_lines_wide(r, ws, c);
        let a = rows_line_list(rows, ws, (n - 1) as nat);
        let b = row_line_list(r, ws, c);
        assert forall|i: int| 0 <= i < (a + b).len() implies is_line(
            #[trigger] (a + b)[i],
            table_width(ws),
        ) by {
            if i < a.len() {
                assert((a + b)[i] == a[i]);
            } else {
                assert((a + b)[i] == b[i - a.len()]);
            }
        }
    }
}

/// The enumerate table is made of lines all equally wide: every line,
/// borders, header and each line of each row, shows the columns' widths
/// and their frames, and the lines, joined, are the table. Where the
/// handle, description and properties columns leave at least 13 columns
/// of the terminal, that is the terminal's width: the table adapts to it.
pub proof fn lemma_enum_table_lines(rows: Seq<EnumRowView>, tw: nat)
    requires
        forall|i: int| 0 <= i < rows.len() ==> clean_row(#[trigger] rows[i]),
    ensures
        join_lines(enum_table_lines(rows, tw)) == crate::tables::enum_table(rows, tw),
        forall|i: int|
            0 <= i < enum_table_lines(rows, tw).len() ==> is_line(
                #[trigger] enum_table_lines(rows, tw)[i],
                table_width(enum_widths(rows, tw)),
            ),
        tw >= col_max(rows, 0) + col_max(rows, 1) + col_max(rows, 2) + 16 + 13 ==> table_width(
            enum_widths(rows, tw),
        ) == tw,
{
    let ws = enum_widths(rows, tw);
    lemma_single_char_texts();
    crate::tables::lemma_col_max_floor(rows, 0);
    crate::tables::lemma_col_max_floor(rows, 1);
    crate::tables::lemma_col_max_floor(rows, 2);
    crate::tables::lemma_col_max_floor(rows, 4);
    assert forall|k: int| 0 <= k < 5 implies #[trigger] ws[k] >= col_floor(k) by {}
    assert forall|j: int| 0 <= j < rows.len() implies clean_row(#[trigger] rows[j])
        && rows[j].handles.len() <= ws[0] && rows[j].description.len() <= ws[1]
        && rows[j].properties.len() <= ws[2] by {
        lemma_col_max_ge(rows, 0, j);
        lemma_col_max_ge(rows, 1, j);
        lemma_col_max_ge(rows, 2, j);
        lemma_vis_len_plain(rows[j].handles);
        lemma_vis_len_plain(rows[j].description);
        lemma_vis_len_plain(rows[j].properties);
    }
    lemma_rows_lines_wide(rows, ws, rows.len());
    lemma_border_line(ws, "┌"@, "┬"@, "┐"@);
    lemma_border_line(ws, "├"@, "┼"@, "┤"@);
    lemma_border_line(ws, "└"@, "┴"@, "┘"@);
    lemma_header_line(ws);
    let top = seq![
        border_line(ws, "┌"@, "┬"@, "┐"@),
        header_line(enum_headers(), ws),
        border_line(ws, "├"@, "┼"@, "┤"@),
    ];
    let mid = rows_line_list(rows, ws, rows.len());
    let bot = seq![border_line(ws, "└"@, "┴"@, "┘"@)];
    let all = enum_table_lines(rows, tw);
    assert(all == top + mid + bot);
    assert forall|i: int| 0 <= i < all.len() implies is_line(
        #[trigger] all[i],
        table_width(ws),
    ) by {
        if i < 3 {
            assert(all[i] == top[i]);
        } else if i < 3 + mid.len() {
            assert(all[i] == mid[i - 3]);
        } else {
            assert(all[i] == bot[0]);
        }
    }
    lemma_join_concat(top, mid);
    lemma_join_concat(top + mid, bot);
    lemma_join_rows(rows, ws, rows.len());
    reveal_with_fuel(join_lines, 4);
    assert(join_lines(top) =~= border_line(ws, "┌"@, "┬"@, "┐"@) + header_line(enum_headers(), ws)
        + border_line(ws, "├"@, "┼"@, "┤"@));
    assert(join_lines(bot) =~= border_line(ws, "└"@, "┴"@, "┘"@));
    reveal_with_fuel(wsum, 6);
    if tw >= col_max(rows, 0) + col_max(rows, 1) + col_max(rows, 2) + 16 + 13 {
        crate::tables::lemma_enum_table_fills_terminal(rows, tw);
    }
}

} // verus!

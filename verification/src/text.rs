//! Character-level building blocks shared by the parsers and formatters:
//! digit classes, integer parsing and printing, whitespace handling,
//! splitting, padding and string assembly.

use vstd::prelude::*;

verus! {

// ───────────────────────────── character classes ─────────────────────────────

/// Digits `0-9`, `a-f`, `A-F`.
pub open spec fn is_hex_digit(c: char) -> bool {
    ('0' <= c && c <= '9') || ('a' <= c && c <= 'f') || ('A' <= c && c <= 'F')
}

/// Value of a digit in the given radix (10 or 16), as `char::to_digit` gives it.
pub open spec fn digit_value(c: char, radix: nat) -> Option<nat> {
    if '0' <= c && c <= '9' && (c as int) - ('0' as int) < radix {
        Some(((c as int) - ('0' as int)) as nat)
    } else if radix == 16 && 'a' <= c && c <= 'f' {
        Some(((c as int) - ('a' as int) + 10) as nat)
    } else if radix == 16 && 'A' <= c && c <= 'F' {
        Some(((c as int) - ('A' as int) + 10) as nat)
    } else {
        None
    }
}

/// Every character of `s` is a hexadecimal digit.
pub open spec fn all_hex(s: Seq<char>) -> bool {
    forall|i: int| 0 <= i < s.len() ==> is_hex_digit(#[trigger] s[i])
}

/// Value of a string of hexadecimal digits (empty string: 0).
pub open spec fn hex_value(s: Seq<char>) -> nat
    decreases s.len(),
{
    if s.len() == 0 {
        0
    } else {
        hex_value(s.drop_last()) * 16 + digit_value(s.last(), 16).unwrap_or(0)
    }
}

/// Unicode `White_Space` property, which `char::is_whitespace` reports.
pub open spec fn is_ws(c: char) -> bool {
    let u = c as u32;
    (0x09 <= u && u <= 0x0d) || u == 0x20 || u == 0x85 || u == 0xa0 || u == 0x1680 || (0x2000
        <= u && u <= 0x200a) || u == 0x2028 || u == 0x2029 || u == 0x202f || u == 0x205f || u
        == 0x3000
}

/// ASCII lowercase mapping of one character (others unchanged).
pub open spec fn ascii_lower(c: char) -> char {
    if 'A' <= c && c <= 'Z' {
        ((c as int) + 32) as char
    } else {
        c
    }
}

/// ASCII lowercase mapping of a string.
pub open spec fn ascii_lower_seq(s: Seq<char>) -> Seq<char> {
    s.map_values(|c: char| ascii_lower(c))
}

/// `char::is_whitespace`.
pub fn is_whitespace(c: char) -> (r: bool)
    ensures
        r == is_ws(c),
{
    let u = c as u32;
    (0x09 <= u && u <= 0x0d) || u == 0x20 || u == 0x85 || u == 0xa0 || u == 0x1680 || (0x2000
        <= u && u <= 0x200a) || u == 0x2028 || u == 0x2029 || u == 0x202f || u == 0x205f || u
        == 0x3000
}

/// Value of `c` as a digit of `radix` (10 or 16), like `char::to_digit`.
pub fn to_digit(c: char, radix: u32) -> (r: Option<u32>)
    requires
        radix == 10 || radix == 16,
    ensures
        r matches Some(d) ==> digit_value(c, radix as nat) == Some(d as nat),
        r is None ==> digit_value(c, radix as nat) is None,
{
    let u = c as u32;
    if '0' <= c && c <= '9' && u - 48 < radix {
        Some(u - 48)
    } else if radix == 16 && 'a' <= c && c <= 'f' {
        Some(u - 97 + 10)
    } else if radix == 16 && 'A' <= c && c <= 'F' {
        Some(u - 65 + 10)
    } else {
        None
    }
}

// ───────────────────────────── integer parsing ─────────────────────────────

/// Why an integer could not be parsed (the kinds that `from_str_radix`
/// reports for unsigned types).
#[derive(Clone, Copy, Debug, PartialEq, Eq, Structural)]
pub enum IntErrorKind {
    Empty,
    InvalidDigit,
    PosOverflow,
}

/// Left-to-right digit accumulation: the first bad digit or the first
/// overflow past `max` stops it.
pub open spec fn digits_parse(acc: nat, s: Seq<char>, radix: nat, max: nat) -> Result<
    nat,
    IntErrorKind,
>
    decreases s.len(),
{
    if s.len() == 0 {
        Ok(acc)
    } else {
        match digit_value(s[0], radix) {
            None => Err(IntErrorKind::InvalidDigit),
            Some(d) => if acc * radix + d > max {
                Err(IntErrorKind::PosOverflow)
            } else {
                digits_parse(acc * radix + d, s.drop_first(), radix, max)
            },
        }
    }
}

/// Unsigned integer parsing with an optional leading `+`, as
/// `uN::from_str_radix` does, for a type whose largest value is `max`.
pub open spec fn uint_parse(s: Seq<char>, radix: nat, max: nat) -> Result<nat, IntErrorKind> {
    if s.len() == 0 {
        Err(IntErrorKind::Empty)
    } else if (s[0] == '+' || s[0] == '-') && s.len() == 1 {
        Err(IntErrorKind::InvalidDigit)
    } else if s[0] == '+' {
        digits_parse(0, s.drop_first(), radix, max)
    } else {
        digits_parse(0, s, radix, max)
    }
}

/// The message that `ParseIntError` displays for each kind.
pub open spec fn int_error_text(k: IntErrorKind) -> Seq<char> {
    match k {
        IntErrorKind::Empty => "cannot parse integer from empty string"@,
        IntErrorKind::InvalidDigit => "invalid digit found in string"@,
        IntErrorKind::PosOverflow => "number too large to fit in target type"@,
    }
}

proof fn lemma_digits_parse_bound(acc: nat, s: Seq<char>, radix: nat, max: nat)
    requires
        acc <= max,
    ensures
        digits_parse(acc, s, radix, max) matches Ok(v) ==> v <= max,
    decreases s.len(),
{
    if s.len() > 0 {
        if let Some(d) = digit_value(s[0], radix) {
            if acc * radix + d <= max {
                lemma_digits_parse_bound(acc * radix + d, s.drop_first(), radix, max);
            }
        }
    }
}

/// Parses `s[from..]` as an unsigned integer of the given radix whose largest
/// value is `max`.
pub fn parse_uint(s: &Vec<char>, from: usize, radix: u32, max: u64) -> (r: Result<u64, IntErrorKind>)
    requires
        radix == 10 || radix == 16,
        max <= 0xffff_ffff,
        from <= s.len(),
    ensures
        r matches Ok(v) ==> uint_parse(s@.skip(from as int), radix as nat, max as nat) == Ok::<
            nat,
            IntErrorKind,
        >(v as nat),
        r matches Err(k) ==> uint_parse(s@.skip(from as int), radix as nat, max as nat) == Err::<
            nat,
            IntErrorKind,
        >(k),
{
    let ghost t = s@.skip(from as int);
    if from == s.len() {
        return Err(IntErrorKind::Empty);
    }
    let first = s[from];
    if (first == '+' || first == '-') && from + 1 == s.len() {
        return Err(IntErrorKind::InvalidDigit);
    }
    let mut i: usize = if first == '+' {
        from + 1
    } else {
        from
    };
    assert(uint_parse(t, radix as nat, max as nat) == digits_parse(
        0,
        s@.skip(i as int),
        radix as nat,
        max as nat,
    )) by {
        if first == '+' {
            assert(t.drop_first() =~= s@.skip(i as int));
        }
    }
    let mut acc: u64 = 0;
    while i < s.len()
        invariant
            from <= i <= s.len(),
            t == s@.skip(from as int),
            radix == 10 || radix == 16,
            max <= 0xffff_ffff,
            acc <= max,
            uint_parse(t, radix as nat, max as nat) == digits_parse(
                acc as nat,
                s@.skip(i as int),
                radix as nat,
                max as nat,
            ),
        decreases s.len() - i,
    {
        let ghost rest = s@.skip(i as int);
        assert(rest.len() > 0 && rest[0] == s@[i as int]);
        match to_digit(s[i], radix) {
            None => {
                assert(digits_parse(acc as nat, rest, radix as nat, max as nat) == Err::<
                    nat,
                    IntErrorKind,
                >(IntErrorKind::InvalidDigit));
                return Err(IntErrorKind::InvalidDigit);
            },
            Some(d) => {
                assert(acc * radix <= 0xffff_ffffu64 * 16) by (nonlinear_arith)
                    requires
                        acc <= 0xffff_ffff,
                        radix <= 16,
                ;
                let next = acc * (radix as u64) + (d as u64);
                if next > max {
                    assert(digits_parse(acc as nat, rest, radix as nat, max as nat) == Err::<
                        nat,
                        IntErrorKind,
                    >(IntErrorKind::PosOverflow));
                    return Err(IntErrorKind::PosOverflow);
                }
                assert(rest.drop_first() =~= s@.skip(i + 1));
                acc = next;
                i += 1;
            },
        }
    }
    assert(s@.skip(i as int).len() == 0);
    Ok(acc)
}

// ───────────────────────────── integer printing ─────────────────────────────

/// The `d`-th lowercase hexadecimal digit.
pub open spec fn hex_lower(d: nat) -> char {
    seq!['0', '1', '2', '3', '4', '5', '6', '7', '8', '9', 'a', 'b', 'c', 'd', 'e', 'f'][d as int]
}

/// The `d`-th uppercase hexadecimal digit.
pub open spec fn hex_upper(d: nat) -> char {
    seq!['0', '1', '2', '3', '4', '5', '6', '7', '8', '9', 'A', 'B', 'C', 'D', 'E', 'F'][d as int]
}

/// The last `w` hexadecimal digits of `n`, zero-filled (`{:0wx}` / `{:0wX}`
/// for a value below `16^w`).
pub open spec fn hex_fixed(n: nat, w: nat, upper: bool) -> Seq<char>
    decreases w,
{
    if w == 0 {
        seq![]
    } else {
        hex_fixed(n / 16, (w - 1) as nat, upper).push(
            if upper {
                hex_upper(n % 16)
            } else {
                hex_lower(n % 16)
            },
        )
    }
}

/// `{:02x}`
pub open spec fn hex2(n: u8) -> Seq<char> {
    hex_fixed(n as nat, 2, false)
}

/// `{:04x}`
pub open spec fn hex4(n: u16) -> Seq<char> {
    hex_fixed(n as nat, 4, false)
}

/// Decimal digits of `n` (`{}`).
pub open spec fn dec_str(n: nat) -> Seq<char>
    decreases n,
{
    if n < 10 {
        seq![hex_lower(n)]
    } else {
        dec_str(n / 10).push(hex_lower(n % 10))
    }
}

/// Decimal text of a signed integer (`{}`).
pub open spec fn int_str(i: int) -> Seq<char> {
    if i < 0 {
        seq!['-'] + dec_str((-i) as nat)
    } else {
        dec_str(i as nat)
    }
}

const HEX_LOWER: [char; 16] = ['0', '1', '2', '3', '4', '5', '6', '7', '8', '9', 'a', 'b', 'c', 'd', 'e', 'f'];

const HEX_UPPER: [char; 16] = ['0', '1', '2', '3', '4', '5', '6', '7', '8', '9', 'A', 'B', 'C', 'D', 'E', 'F'];

fn hex_digit_char(d: u8, upper: bool) -> (c: char)
    requires
        d < 16,
    ensures
        c == (if upper {
            hex_upper(d as nat)
        } else {
            hex_lower(d as nat)
        }),
{
    if upper {
        HEX_UPPER[d as usize]
    } else {
        HEX_LOWER[d as usize]
    }
}

/// Appends the chars of `v` to `s`.
pub fn push_chars(s: &mut String, v: &Vec<char>)
    ensures
        final(s)@ == old(s)@ + v@,
{
    let mut i: usize = 0;
    while i < v.len()
        invariant
            i <= v.len(),
            s@ == old(s)@ + v@.take(i as int),
        decreases v.len() - i,
    {
        push_char(s, v[i]);
        assert(v@.take(i as int + 1) == v@.take(i as int).push(v@[i as int]));
        i += 1;
    }
    assert(v@.take(v.len() as int) == v@);
}

/// Appends the last `w` hex digits of `n` (`{:0wx}`, or `{:0wX}` when `upper`).
pub fn push_hex(s: &mut String, n: u128, w: usize, upper: bool)
    ensures
        final(s)@ == old(s)@ + hex_fixed(n as nat, w as nat, upper),
{
    let mut tail: Vec<char> = Vec::new();
    let mut cur: u128 = n;
    let mut k: usize = 0;
    while k < w
        invariant
            k <= w,
            hex_fixed(n as nat, w as nat, upper) == hex_fixed(cur as nat, (w - k) as nat, upper)
                + tail@,
        decreases w - k,
    {
        let d = (cur % 16) as u8;
        let c = hex_digit_char(d, upper);
        assert(hex_fixed(cur as nat, (w - k) as nat, upper) == hex_fixed(
            (cur / 16) as nat,
            (w - k - 1) as nat,
            upper,
        ).push(c));
        let ghost old_tail = tail@;
        tail.insert(0, c);
        assert(tail@ =~= seq![c] + old_tail);
        assert(hex_fixed((cur / 16) as nat, (w - k - 1) as nat, upper).push(c) + old_tail
            =~= hex_fixed((cur / 16) as nat, (w - k - 1) as nat, upper) + tail@);
        cur = cur / 16;
        k += 1;
    }
    assert(hex_fixed(cur as nat, 0, upper) == Seq::<char>::empty());
    assert(hex_fixed(n as nat, w as nat, upper) =~= tail@);
    push_chars(s, &tail);
}

/// Appends `{:02x}` of a byte.
pub fn push_hex2(s: &mut String, b: u8)
    ensures
        final(s)@ == old(s)@ + hex2(b),
{
    push_hex(s, b as u128, 2, false);
}

/// Appends `{:04x}` of a 16-bit value.
pub fn push_hex4(s: &mut String, h: u16)
    ensures
        final(s)@ == old(s)@ + hex4(h),
{
    push_hex(s, h as u128, 4, false);
}

/// Appends the decimal text of `n`.
pub fn push_dec(s: &mut String, n: u64)
    ensures
        final(s)@ == old(s)@ + dec_str(n as nat),
{
    let mut tail: Vec<char> = Vec::new();
    let mut cur: u64 = n;
    while cur >= 10
        invariant
            dec_str(n as nat) == dec_str(cur as nat) + tail@,
        decreases cur,
    {
        let c = hex_digit_char((cur % 10) as u8, false);
        let ghost old_tail = tail@;
        tail.insert(0, c);
        assert(tail@ =~= seq![c] + old_tail);
        assert(dec_str((cur / 10) as nat).push(c) + old_tail =~= dec_str((cur / 10) as nat)
            + tail@);
        cur = cur / 10;
    }
    let c = hex_digit_char(cur as u8, false);
    let ghost old_tail = tail@;
    tail.insert(0, c);
    assert(tail@ =~= seq![c] + old_tail);
    assert(dec_str(n as nat) =~= tail@);
    push_chars(s, &tail);
}

/// Appends the decimal text of a signed value.
pub fn push_int(s: &mut String, i: i64)
    ensures
        final(s)@ == old(s)@ + int_str(i as int),
{
    if i < 0 {
        push_char(s, '-');
        let m: u64 = (0i128 - (i as i128)) as u64;
        push_dec(s, m);
        assert(final(s)@ =~= old(s)@ + int_str(i as int));
    } else {
        push_dec(s, i as u64);
    }
}

// ───────────────────────────── strings ─────────────────────────────

/// `String::push`.
#[verifier::external_body]
pub(crate) fn push_char(s: &mut String, c: char)
    ensures
        final(s)@ == old(s)@.push(c),
{
    s.push(c);
}

/// Appends a string slice.
pub fn push_str(s: &mut String, t: &str)
    ensures
        final(s)@ == old(s)@ + t@,
{
    s.append(t);
}

/// The characters of `s`.
pub fn chars_of(s: &str) -> (v: Vec<char>)
    ensures
        v@ == s@,
{
    let mut v: Vec<char> = Vec::new();
    for c in it: s.chars()
        invariant
            v@ == it.seq().take(it.index() as int),
            it.seq() == s@,
    {
        v.push(c);
    }
    v
}

/// A `String` holding the characters of `v`.
pub fn string_of(v: &Vec<char>) -> (s: String)
    ensures
        s@ == v@,
{
    let mut s = String::new();
    push_chars(&mut s, v);
    s
}

/// A `String` holding the characters of a slice.
pub fn string_from(t: &str) -> (s: String)
    ensures
        s@ == t@,
{
    let mut s = String::new();
    push_str(&mut s, t);
    s
}

/// Equality of two character sequences.
pub fn chars_eq(a: &Vec<char>, b: &Vec<char>) -> (r: bool)
    ensures
        r == (a@ == b@),
{
    if a.len() != b.len() {
        return false;
    }
    let mut i: usize = 0;
    while i < a.len()
        invariant
            a.len() == b.len(),
            i <= a.len(),
            forall|j: int| 0 <= j < i ==> a@[j] == b@[j],
        decreases a.len() - i,
    {
        if a[i] != b[i] {
            return false;
        }
        i += 1;
    }
    assert(a@ =~= b@);
    true
}

/// Equality of two strings.
pub fn str_eq(a: &str, b: &str) -> (r: bool)
    ensures
        r == (a@ == b@),
{
    chars_eq(&chars_of(a), &chars_of(b))
}

/// `s` begins with `p`.
pub open spec fn starts_with(s: Seq<char>, p: Seq<char>) -> bool {
    p.len() <= s.len() && s.take(p.len() as int) == p
}

/// Whether `s[from..]` begins with `p`.
pub fn starts_with_at(s: &Vec<char>, from: usize, p: &str) -> (r: bool)
    requires
        from <= s.len(),
    ensures
        r == starts_with(s@.skip(from as int), p@),
{
    let pv = chars_of(p);
    if pv.len() > s.len() - from {
        return false;
    }
    let mut i: usize = 0;
    while i < pv.len()
        invariant
            pv@ == p@,
            from + pv.len() <= s.len(),
            i <= pv.len(),
            forall|j: int| 0 <= j < i ==> s@[from + j] == pv@[j],
        decreases pv.len() - i,
    {
        if s[from + i] != pv[i] {
            assert(s@.skip(from as int).take(pv.len() as int)[i as int] != pv@[i as int]);
            return false;
        }
        i += 1;
    }
    assert(s@.skip(from as int).take(pv.len() as int) =~= pv@);
    true
}

/// `s` with `p` taken off its front when it begins with `p`
/// (`strip_prefix(p).unwrap_or(s)`).
pub open spec fn strip_prefix_or_self(s: Seq<char>, p: Seq<char>) -> Seq<char> {
    if starts_with(s, p) {
        s.skip(p.len() as int)
    } else {
        s
    }
}

/// Whitespace removed from the front.
pub open spec fn trim_start(s: Seq<char>) -> Seq<char>
    decreases s.len(),
{
    if s.len() > 0 && is_ws(s[0]) {
        trim_start(s.drop_first())
    } else {
        s
    }
}

/// Whitespace removed from the back.
pub open spec fn trim_end(s: Seq<char>) -> Seq<char>
    decreases s.len(),
{
    if s.len() > 0 && is_ws(s.last()) {
        trim_end(s.drop_last())
    } else {
        s
    }
}

/// `str::trim`: whitespace removed from both ends.
pub open spec fn trim(s: Seq<char>) -> Seq<char> {
    trim_end(trim_start(s))
}

proof fn lemma_trim_start_skip(s: Seq<char>, i: int)
    requires
        0 <= i <= s.len(),
        forall|j: int| 0 <= j < i ==> is_ws(#[trigger] s[j]),
    ensures
        trim_start(s) == trim_start(s.skip(i)),
    decreases i,
{
    if i > 0 {
        assert(s.drop_first().skip(i - 1) =~= s.skip(i));
        assert forall|j: int| 0 <= j < i - 1 implies is_ws(#[trigger] s.drop_first()[j]) by {
            assert(s.drop_first()[j] == s[j + 1]);
        }
        lemma_trim_start_skip(s.drop_first(), i - 1);
    } else {
        assert(s.skip(0) =~= s);
    }
}

proof fn lemma_trim_end_take(s: Seq<char>, k: int)
    requires
        0 <= k <= s.len(),
        forall|j: int| k <= j < s.len() ==> is_ws(#[trigger] s[j]),
    ensures
        trim_end(s) == trim_end(s.take(k)),
    decreases s.len() - k,
{
    if k < s.len() {
        assert(s.drop_last().take(k) =~= s.take(k));
        lemma_trim_end_take(s.drop_last(), k);
    } else {
        assert(s.take(k) =~= s);
    }
}

/// Whitespace removed from both ends of `v`.
pub fn trim_chars(v: &Vec<char>) -> (r: Vec<char>)
    ensures
        r@ == trim(v@),
{
    let mut a: usize = 0;
    while a < v.len() && is_whitespace(v[a])
        invariant
            a <= v.len(),
            forall|j: int| 0 <= j < a ==> is_ws(#[trigger] v@[j]),
        decreases v.len() - a,
    {
        a += 1;
    }
    proof {
        lemma_trim_start_skip(v@, a as int);
    }
    let ghost t = v@.skip(a as int);
    let mut b: usize = v.len();
    while b > a && is_whitespace(v[b - 1])
        invariant
            a <= b <= v.len(),
            t == v@.skip(a as int),
            forall|j: int| (b - a) <= j < t.len() ==> is_ws(#[trigger] t[j]),
        decreases b,
    {
        assert(t[b - 1 - a] == v@[b - 1]);
        b -= 1;
    }
    proof {
        lemma_trim_end_take(t, (b - a) as int);
        assert(trim_start(t) == t);
    }
    let r = slice_chars(v, a, b);
    assert(r@ =~= t.take((b - a) as int));
    r
}

/// Whitespace removed from the front of `v`.
pub fn trim_start_chars(v: &Vec<char>) -> (r: Vec<char>)
    ensures
        r@ == trim_start(v@),
{
    let mut a: usize = 0;
    while a < v.len() && is_whitespace(v[a])
        invariant
            a <= v.len(),
            forall|j: int| 0 <= j < a ==> is_ws(#[trigger] v@[j]),
        decreases v.len() - a,
    {
        a += 1;
    }
    proof {
        lemma_trim_start_skip(v@, a as int);
        if a < v.len() {
            assert(v@.skip(a as int)[0] == v@[a as int]);
        }
    }
    let r = slice_chars(v, a, v.len());
    assert(r@ =~= v@.skip(a as int));
    r
}

/// Characters `v[from..to]`.
pub fn slice_chars(v: &Vec<char>, from: usize, to: usize) -> (r: Vec<char>)
    requires
        from <= to <= v.len(),
    ensures
        r@ == v@.subrange(from as int, to as int),
{
    let mut r: Vec<char> = Vec::new();
    let mut i = from;
    while i < to
        invariant
            from <= i <= to <= v.len(),
            r@ == v@.subrange(from as int, i as int),
        decreases to - i,
    {
        r.push(v[i]);
        assert(v@.subrange(from as int, i + 1) =~= v@.subrange(from as int, i as int).push(
            v@[i as int],
        ));
        i += 1;
    }
    r
}

/// `n` spaces.
pub open spec fn spaces(n: nat) -> Seq<char> {
    Seq::new(n, |i: int| ' ')
}

/// Appends `n` copies of `c`.
pub fn push_repeat(s: &mut String, c: char, n: usize)
    ensures
        final(s)@ == old(s)@ + Seq::new(n as nat, |i: int| c),
{
    let mut i: usize = 0;
    while i < n
        invariant
            i <= n,
            s@ == old(s)@ + Seq::new(i as nat, |j: int| c),
        decreases n - i,
    {
        push_char(s, c);
        assert(Seq::new(i as nat, |j: int| c).push(c) =~= Seq::new((i + 1) as nat, |j: int| c));
        i += 1;
    }
}

/// `{:>w}`: right-aligned in a field of `w` characters.
pub open spec fn pad_left(s: Seq<char>, w: nat) -> Seq<char> {
    if s.len() < w {
        spaces((w - s.len()) as nat) + s
    } else {
        s
    }
}

/// `{:<w}`: left-aligned in a field of `w` characters.
pub open spec fn pad_right(s: Seq<char>, w: nat) -> Seq<char> {
    if s.len() < w {
        s + spaces((w - s.len()) as nat)
    } else {
        s
    }
}

/// Appends `t` right-aligned in a field of `w` characters.
pub fn push_pad_left(s: &mut String, t: &Vec<char>, w: usize)
    ensures
        final(s)@ == old(s)@ + pad_left(t@, w as nat),
{
    if t.len() < w {
        push_repeat(s, ' ', w - t.len());
    }
    push_chars(s, t);
    assert(final(s)@ =~= old(s)@ + pad_left(t@, w as nat));
}

/// Appends `t` left-aligned in a field of `w` characters.
pub fn push_pad_right(s: &mut String, t: &Vec<char>, w: usize)
    ensures
        final(s)@ == old(s)@ + pad_right(t@, w as nat),
{
    push_chars(s, t);
    if t.len() < w {
        push_repeat(s, ' ', w - t.len());
    }
    assert(final(s)@ =~= old(s)@ + pad_right(t@, w as nat));
}


/// Hexadecimal digit strings are bounded by the matching power of 16.
pub open spec fn pow16(n: nat) -> nat
    decreases n,
{
    if n == 0 {
        1
    } else {
        pow16((n - 1) as nat) * 16
    }
}

pub proof fn lemma_hex_value_bound(s: Seq<char>)
    ensures
        hex_value(s) < pow16(s.len()),
    decreases s.len(),
{
    if s.len() > 0 {
        lemma_hex_value_bound(s.drop_last());
        let a = hex_value(s.drop_last());
        let p = pow16(s.drop_last().len());
        let d = digit_value(s.last(), 16).unwrap_or(0);
        assert(d < 16) by {
            if let Some(x) = digit_value(s.last(), 16) {
            }
        }
        assert(a * 16 + d < p * 16) by (nonlinear_arith)
            requires
                a < p,
                d < 16,
        ;
    }
}

/// Value of an all-hex string of at most eight digits.
pub fn hex_value_of(v: &Vec<char>) -> (r: u32)
    requires
        all_hex(v@),
        v.len() <= 8,
    ensures
        r as nat == hex_value(v@),
{
    let mut acc: u64 = 0;
    let mut i: usize = 0;
    while i < v.len()
        invariant
            i <= v.len() <= 8,
            all_hex(v@),
            acc as nat == hex_value(v@.take(i as int)),
        decreases v.len() - i,
    {
        proof {
            lemma_hex_value_bound(v@.take(i as int));
            assert(pow16(i as nat) <= pow16(7)) by {
                lemma_pow16_mono(i as nat, 7);
            }
            lemma_pow16_8();
        }
        assert(is_hex_digit(v@[i as int]));
        let d = to_digit(v[i], 16);
        let dv = match d {
            Some(x) => x,
            None => 0,
        };
        assert(v@.take(i + 1).drop_last() =~= v@.take(i as int));
        acc = acc * 16 + (dv as u64);
        i += 1;
    }
    proof {
        lemma_hex_value_bound(v@);
        lemma_pow16_mono(v.len() as nat, 8);
        lemma_pow16_8();
        assert(v@.take(v.len() as int) =~= v@);
    }
    acc as u32
}

pub proof fn lemma_pow16_8()
    ensures
        pow16(7) == 0x1000_0000,
        pow16(8) == 0x1_0000_0000,
{
    reveal_with_fuel(pow16, 9);
}

pub proof fn lemma_pow16_mono(a: nat, b: nat)
    requires
        a <= b,
    ensures
        pow16(a) <= pow16(b),
    decreases b,
{
    if a < b {
        lemma_pow16_mono(a, (b - 1) as nat);
    }
}

/// `a + b` hexadecimal digits of `n` are its leading `a` digits (of
/// `n / 16^b`) followed by its last `b` digits (of `n % 16^b`).
pub proof fn lemma_hex_fixed_split(n: nat, a: nat, b: nat, up: bool)
    ensures
        pow16(b) > 0,
        hex_fixed(n, a + b, up) == hex_fixed(n / pow16(b), a, up) + hex_fixed(n % pow16(b), b, up),
    decreases b,
{
    if b == 0 {
        assert(n / 1 == n && n % 1 == 0) by (nonlinear_arith);
        assert(hex_fixed(n, a, up) + Seq::<char>::empty() =~= hex_fixed(n, a, up));
    } else {
        let p = pow16((b - 1) as nat);
        lemma_hex_fixed_split(n / 16, a, (b - 1) as nat, up);
        assert(pow16(b) == p * 16);
        vstd::arithmetic::div_mod::lemma_div_denominator(n as int, 16, p as int);
        assert((n / 16) / p == n / (16 * p));
        assert(16 * p == p * 16) by (nonlinear_arith);
        vstd::arithmetic::div_mod::lemma_mod_mod(n as int, 16, p as int);
        vstd::arithmetic::div_mod::lemma_mod_breakdown(n as int, 16, p as int);
        let m = n % (16 * p);
        assert(m == 16 * ((n / 16) % p) + n % 16);
        assert(n % 16 < 16);
        vstd::arithmetic::div_mod::lemma_fundamental_div_mod_converse(
            m as int,
            16,
            ((n / 16) % p) as int,
            (n % 16) as int,
        );
        assert(m / 16 == (n / 16) % p);
        assert(m % 16 == n % 16);
        assert((a + b - 1) as nat == a + (b - 1) as nat);
        assert(hex_fixed(n, a + b, up) == hex_fixed(n / 16, a + (b - 1) as nat, up).push(
            if up {
                hex_upper(n % 16)
            } else {
                hex_lower(n % 16)
            },
        ));
        assert(hex_fixed(m, b, up) == hex_fixed(m / 16, (b - 1) as nat, up).push(
            if up {
                hex_upper(m % 16)
            } else {
                hex_lower(m % 16)
            },
        ));
        assert(hex_fixed(n, a + b, up) =~= hex_fixed(n / pow16(b), a, up) + hex_fixed(
            n % pow16(b),
            b,
            up,
        ));
    }
}

/// All characters are hexadecimal digits.
pub fn chars_all_hex(v: &Vec<char>) -> (r: bool)
    ensures
        r == all_hex(v@),
{
    let mut i: usize = 0;
    while i < v.len()
        invariant
            i <= v.len(),
            forall|j: int| 0 <= j < i ==> is_hex_digit(#[trigger] v@[j]),
        decreases v.len() - i,
    {
        let c = v[i];
        if !(('0' <= c && c <= '9') || ('a' <= c && c <= 'f') || ('A' <= c && c <= 'F')) {
            return false;
        }
        i += 1;
    }
    true
}

/// Parts joined by a separator.
pub open spec fn join(parts: Seq<Seq<char>>, sep: Seq<char>) -> Seq<char>
    decreases parts.len(),
{
    if parts.len() == 0 {
        seq![]
    } else if parts.len() == 1 {
        parts[0]
    } else {
        join(parts.drop_last(), sep) + sep + parts.last()
    }
}

/// Appends the parts joined by `sep`.
pub fn push_join(s: &mut String, parts: &Vec<Vec<char>>, sep: &str)
    ensures
        final(s)@ == old(s)@ + join(parts@.map_values(|v: Vec<char>| v@), sep@),
{
    let ghost ps = parts@.map_values(|v: Vec<char>| v@);
    let mut i: usize = 0;
    while i < parts.len()
        invariant
            i <= parts.len(),
            ps == parts@.map_values(|v: Vec<char>| v@),
            s@ == old(s)@ + join(ps.take(i as int), sep@),
        decreases parts.len() - i,
    {
        assert(ps.take(i + 1).drop_last() =~= ps.take(i as int));
        assert(ps.take(i + 1).last() == parts@[i as int]@);
        if i > 0 {
            push_str(s, sep);
        }
        push_chars(s, &parts[i]);
        i += 1;
        proof {
            if i == 1 {
                assert(join(ps.take(0), sep@) =~= Seq::<char>::empty());
            }
            assert(s@ =~= old(s)@ + join(ps.take(i as int), sep@));
        }
    }
    assert(ps.take(parts.len() as int) =~= ps);
}

/// The lowercase equivalent of a string, as `str::to_lowercase` defines it
/// by the Unicode `Lowercase` mapping.
pub uninterp spec fn lowercase(s: Seq<char>) -> Seq<char>;

/// `str::to_lowercase`.  The result is named: the full Unicode case mapping
/// is not written out here.  On ASCII text the Unicode mapping is the ASCII
/// one (`A`-`Z` to `a`-`z`, everything else unchanged), which is stated.
#[verifier::external_body]
pub(crate) fn to_lowercase(s: &str) -> (r: String)
    ensures
        r@ == lowercase(s@),
        is_ascii_chars(s@) ==> r@ == ascii_lower_seq(s@),
{
    s.to_lowercase()
}

/// `str::to_lowercase` as far as it is stated: the ASCII mapping on ASCII
/// text, the named Unicode mapping otherwise.
pub open spec fn lower_text(s: Seq<char>) -> Seq<char> {
    if is_ascii_chars(s) {
        ascii_lower_seq(s)
    } else {
        lowercase(s)
    }
}

/// Characters below 128.
pub open spec fn is_ascii_chars(s: Seq<char>) -> bool {
    forall|i: int| 0 <= i < s.len() ==> (#[trigger] s[i] as u32) < 128
}


/// `str::split` on one separator character, processed left to right:
/// `done` holds the finished fields, `cur` the field being read.
pub open spec fn split_acc(done: Seq<Seq<char>>, cur: Seq<char>, rest: Seq<char>, sep: char) -> Seq<
    Seq<char>,
>
    decreases rest.len(),
{
    if rest.len() == 0 {
        done.push(cur)
    } else if rest[0] == sep {
        split_acc(done.push(cur), seq![], rest.drop_first(), sep)
    } else {
        split_acc(done, cur.push(rest[0]), rest.drop_first(), sep)
    }
}

/// The fields of `s` between separators (at least one, possibly empty).
pub open spec fn split_on(s: Seq<char>, sep: char) -> Seq<Seq<char>> {
    split_acc(seq![], seq![], s, sep)
}

/// A field free of the separator, then the separator: the field is
/// finished and a new one starts.
pub proof fn lemma_split_field(done: Seq<Seq<char>>, cur: Seq<char>, x: Seq<char>, rest: Seq<char>, sep: char)
    requires
        forall|i: int| 0 <= i < x.len() ==> x[i] != sep,
    ensures
        split_acc(done, cur, x + seq![sep] + rest, sep) == split_acc(done.push(cur + x), seq![], rest, sep),
    decreases x.len(),
{
    if x.len() == 0 {
        assert(x + seq![sep] + rest =~= seq![sep] + rest);
        assert((seq![sep] + rest).drop_first() =~= rest);
        assert(cur + x =~= cur);
    } else {
        let t = x + seq![sep] + rest;
        assert(t[0] == x[0]);
        assert(t.drop_first() =~= x.drop_first() + seq![sep] + rest);
        lemma_split_field(done, cur.push(x[0]), x.drop_first(), rest, sep);
        assert(cur.push(x[0]) + x.drop_first() =~= cur + x);
    }
}

/// The last field, free of the separator, ends the split.
pub proof fn lemma_split_last(done: Seq<Seq<char>>, cur: Seq<char>, x: Seq<char>, sep: char)
    requires
        forall|i: int| 0 <= i < x.len() ==> x[i] != sep,
    ensures
        split_acc(done, cur, x, sep) == done.push(cur + x),
    decreases x.len(),
{
    if x.len() == 0 {
        assert(cur + x =~= cur);
    } else {
        lemma_split_last(done, cur.push(x[0]), x.drop_first(), sep);
        assert(cur.push(x[0]) + x.drop_first() =~= cur + x);
    }
}

/// Two uppercase hexadecimal digits parse back to the byte they print.
pub proof fn lemma_hex2_upper_parses(n: u8)
    ensures
        hex_fixed(n as nat, 2, true).len() == 2,
        forall|i: int| 0 <= i < 2 ==> is_hex_digit(#[trigger] hex_fixed(n as nat, 2, true)[i]),
        uint_parse(hex_fixed(n as nat, 2, true), 16, 0xff) == Ok::<nat, IntErrorKind>(n as nat),
{
    let hi = (n as nat) / 16;
    let lo = (n as nat) % 16;
    let s = hex_fixed(n as nat, 2, true);
    assert(hex_fixed(hi / 16, 0, true) =~= Seq::<char>::empty());
    assert(hi / 16 == 0);
    assert(hex_fixed(hi, 1, true) =~= seq![hex_upper(hi % 16)]);
    assert(hi % 16 == hi);
    assert(s =~= seq![hex_upper(hi), hex_upper(lo)]);
    assert(hi < 16 && lo < 16);
    assert(digit_value(hex_upper(hi), 16) == Some(hi)) by {
        reveal_with_fuel(hex_upper, 1);
    }
    assert(digit_value(hex_upper(lo), 16) == Some(lo));
    assert(is_hex_digit(hex_upper(hi)) && is_hex_digit(hex_upper(lo)));
    assert(s[0] != '+' && s[0] != '-');
    assert(s.drop_first() =~= seq![hex_upper(lo)]);
    assert(seq![hex_upper(lo)].drop_first() =~= Seq::<char>::empty());
    assert(hi * 16 + lo == n as nat);
    assert(digits_parse(0, s, 16, 0xff) == digits_parse(hi, s.drop_first(), 16, 0xff));
    assert(digits_parse(hi, seq![hex_upper(lo)], 16, 0xff) == digits_parse(
        n as nat,
        Seq::<char>::empty(),
        16,
        0xff,
    ));
}

/// ASCII uppercase mapping of one character (others unchanged).
pub open spec fn ascii_upper(c: char) -> char {
    if 'a' <= c && c <= 'z' {
        ((c as int) - 32) as char
    } else {
        c
    }
}

/// ASCII uppercase mapping of a string.
pub open spec fn ascii_upper_seq(s: Seq<char>) -> Seq<char> {
    s.map_values(|c: char| ascii_upper(c))
}

/// A hexadecimal digit's value, printed as an uppercase digit, is the
/// digit in uppercase.
pub proof fn lemma_hex_digit_upper(c: char)
    requires
        is_hex_digit(c),
    ensures
        digit_value(c, 16) matches Some(d) && d < 16 && hex_upper(d) == ascii_upper(c),
{
    if c == '0' {
    } else if c == '1' {
    } else if c == '2' {
    } else if c == '3' {
    } else if c == '4' {
    } else if c == '5' {
    } else if c == '6' {
    } else if c == '7' {
    } else if c == '8' {
    } else if c == '9' {
    } else if c == 'a' {
    } else if c == 'b' {
    } else if c == 'c' {
    } else if c == 'd' {
    } else if c == 'e' {
    } else if c == 'f' {
    } else if c == 'A' {
    } else if c == 'B' {
    } else if c == 'C' {
    } else if c == 'D' {
    } else if c == 'E' {
    } else if c == 'F' {
    } else {
        assert(false);
    }
}

/// Two hexadecimal digits parse to a byte that prints back as the same
/// digits in uppercase.
pub proof fn lemma_hex_pair(c1: char, c2: char)
    requires
        is_hex_digit(c1),
        is_hex_digit(c2),
    ensures
        uint_parse(seq![c1, c2], 16, 0xff) matches Ok(v) && v < 256 && hex_fixed(v, 2, true)
            == seq![ascii_upper(c1), ascii_upper(c2)],
{
    lemma_hex_digit_upper(c1);
    lemma_hex_digit_upper(c2);
    let d1 = digit_value(c1, 16)->Some_0;
    let d2 = digit_value(c2, 16)->Some_0;
    let f = seq![c1, c2];
    assert(f[0] != '+' && f[0] != '-');
    assert(f.drop_first() =~= seq![c2]);
    assert(seq![c2].drop_first() =~= Seq::<char>::empty());
    let v = d1 * 16 + d2;
    assert(v < 256);
    assert(digits_parse(0, f, 16, 0xff) == digits_parse(d1, seq![c2], 16, 0xff));
    assert(digits_parse(d1, seq![c2], 16, 0xff) == digits_parse(v, Seq::<char>::empty(), 16, 0xff));
    assert(v / 16 == d1 && v % 16 == d2);
    assert(d1 / 16 == 0);
    assert(hex_fixed(d1 / 16, 0, true) =~= Seq::<char>::empty());
    assert(hex_fixed(d1, 1, true) =~= seq![hex_upper(d1 % 16)]);
    assert(d1 % 16 == d1);
    assert(hex_fixed(v, 2, true) =~= seq![hex_upper(d1), hex_upper(d2)]);
}

/// Two strictly increasing sequences of keys with the same members are
/// the same sequence.
pub proof fn lemma_increasing_unique<T>(a: Seq<T>, b: Seq<T>, f: spec_fn(T) -> int)
    requires
        forall|i: int, j: int| 0 <= i < j < a.len() ==> f(a[i]) < f(a[j]),
        forall|i: int, j: int| 0 <= i < j < b.len() ==> f(b[i]) < f(b[j]),
        forall|x: T| a.contains(x) <==> b.contains(x),
    ensures
        a == b,
    decreases a.len(),
{
    if a.len() == 0 {
        if b.len() > 0 {
            assert(b.contains(b[0]));
        }
        assert(a =~= b);
    } else {
        assert(a.contains(a[0]));
        if b.len() == 0 {
            assert(false);
        }
        assert(b.contains(b[0]));
        let i = choose|i: int| 0 <= i < a.len() && a[i] == b[0];
        let j = choose|j: int| 0 <= j < b.len() && b[j] == a[0];
        assert(f(a[0]) <= f(a[i]));
        assert(f(b[0]) <= f(b[j]));
        assert(a[0] == b[0]);
        let ta = a.drop_first();
        let tb = b.drop_first();
        assert forall|x: T| ta.contains(x) <==> tb.contains(x) by {
            if ta.contains(x) {
                let p = choose|p: int| 0 <= p < ta.len() && ta[p] == x;
                assert(a[p + 1] == x);
                assert(a.contains(x));
                let q = choose|q: int| 0 <= q < b.len() && b[q] == x;
                assert(f(a[0]) < f(x));
                assert(q != 0);
                assert(tb[q - 1] == x);
            }
            if tb.contains(x) {
                let p = choose|p: int| 0 <= p < tb.len() && tb[p] == x;
                assert(b[p + 1] == x);
                assert(b.contains(x));
                let q = choose|q: int| 0 <= q < a.len() && a[q] == x;
                assert(f(b[0]) < f(x));
                assert(q != 0);
                assert(ta[q - 1] == x);
            }
        }
        assert forall|i: int, j: int| 0 <= i < j < ta.len() implies f(ta[i]) < f(ta[j]) by {
            assert(ta[i] == a[i + 1] && ta[j] == a[j + 1]);
        }
        assert forall|i: int, j: int| 0 <= i < j < tb.len() implies f(tb[i]) < f(tb[j]) by {
            assert(tb[i] == b[i + 1] && tb[j] == b[j + 1]);
        }
        lemma_increasing_unique(ta, tb, f);
        assert(a =~= seq![a[0]] + ta);
        assert(b =~= seq![b[0]] + tb);
    }
}

/// `s` with every whitespace character taken out.
pub open spec fn without_ws(s: Seq<char>) -> Seq<char>
    decreases s.len(),
{
    if s.len() == 0 {
        seq![]
    } else if is_ws(s.last()) {
        without_ws(s.drop_last())
    } else {
        without_ws(s.drop_last()).push(s.last())
    }
}

/// Takes every whitespace character out of `s`.
pub fn strip_whitespace(s: &str) -> (r: String)
    ensures
        r@ == without_ws(s@),
{
    let v = chars_of(s);
    let mut r = String::new();
    let mut i: usize = 0;
    while i < v.len()
        invariant
            i <= v.len(),
            v@ == s@,
            r@ == without_ws(v@.take(i as int)),
        decreases v.len() - i,
    {
        assert(v@.take(i + 1).drop_last() =~= v@.take(i as int));
        if !is_whitespace(v[i]) {
            push_char(&mut r, v[i]);
        }
        i += 1;
    }
    assert(v@.take(v.len() as int) =~= v@);
    r
}

/// Views of a list of character vectors.
pub open spec fn views(v: Seq<Vec<char>>) -> Seq<Seq<char>> {
    v.map_values(|x: Vec<char>| x@)
}

/// The fields of `v` between occurrences of `sep`.
pub fn split_chars(v: &Vec<char>, sep: char) -> (r: Vec<Vec<char>>)
    ensures
        views(r@) == split_on(v@, sep),
{
    let mut done: Vec<Vec<char>> = Vec::new();
    let mut cur: Vec<char> = Vec::new();
    let mut i: usize = 0;
    assert(v@.skip(0) =~= v@);
    assert(views(done@) =~= Seq::<Seq<char>>::empty());
    assert(cur@ =~= Seq::<char>::empty());
    while i < v.len()
        invariant
            i <= v.len(),
            split_on(v@, sep) == split_acc(views(done@), cur@, v@.skip(i as int), sep),
        decreases v.len() - i,
    {
        let c = v[i];
        let ghost rest = v@.skip(i as int);
        assert(rest[0] == c);
        assert(rest.drop_first() =~= v@.skip(i + 1));
        if c == sep {
            let ghost d = views(done@);
            let ghost cu = cur@;
            done.push(cur);
            cur = Vec::new();
            assert(views(done@) =~= d.push(cu));
            assert(cur@ =~= Seq::<char>::empty());
        } else {
            cur.push(c);
        }
        i += 1;
    }
    let ghost d = views(done@);
    let ghost cu = cur@;
    assert(v@.skip(i as int).len() == 0);
    done.push(cur);
    assert(views(done@) =~= d.push(cu));
    done
}

/// Case-insensitive ASCII comparison (`str::eq_ignore_ascii_case` against
/// an ASCII text).
pub open spec fn eq_ignore_ascii_case(s: Seq<char>, t: Seq<char>) -> bool {
    s.len() == t.len() && forall|i: int| 0 <= i < s.len() ==> ascii_lower(#[trigger] s[i])
        == ascii_lower(t[i])
}

fn ascii_lower_char(c: char) -> (r: char)
    ensures
        r == ascii_lower(c),
{
    if 'A' <= c && c <= 'Z' {
        ((c as u8) + 32) as char
    } else {
        c
    }
}

/// Whether `s` equals `t` ignoring ASCII case.
pub fn eq_ignore_case(s: &Vec<char>, t: &str) -> (r: bool)
    ensures
        r == eq_ignore_ascii_case(s@, t@),
{
    let tv = chars_of(t);
    if s.len() != tv.len() {
        return false;
    }
    let mut i: usize = 0;
    while i < s.len()
        invariant
            tv@ == t@,
            s.len() == tv.len(),
            i <= s.len(),
            forall|j: int| 0 <= j < i ==> ascii_lower(#[trigger] s@[j]) == ascii_lower(tv@[j]),
        decreases s.len() - i,
    {
        if ascii_lower_char(s[i]) != ascii_lower_char(tv[i]) {
            return false;
        }
        i += 1;
    }
    true
}


/// Views of a list of strings.
pub open spec fn strs(v: Seq<String>) -> Seq<Seq<char>> {
    v.map_values(|x: String| x@)
}


/// `str::split_whitespace`, processed left to right: `cur` is the word
/// being read.
pub open spec fn words_acc(done: Seq<Seq<char>>, cur: Seq<char>, rest: Seq<char>) -> Seq<Seq<char>>
    decreases rest.len(),
{
    if rest.len() == 0 {
        if cur.len() > 0 {
            done.push(cur)
        } else {
            done
        }
    } else if is_ws(rest[0]) {
        words_acc(
            if cur.len() > 0 {
                done.push(cur)
            } else {
                done
            },
            seq![],
            rest.drop_first(),
        )
    } else {
        words_acc(done, cur.push(rest[0]), rest.drop_first())
    }
}

/// The non-empty runs of non-whitespace characters of `s`.
pub open spec fn split_ws(s: Seq<char>) -> Seq<Seq<char>> {
    words_acc(seq![], seq![], s)
}

/// The whitespace-separated words of `v`.
pub fn split_whitespace_chars(v: &Vec<char>) -> (r: Vec<Vec<char>>)
    ensures
        views(r@) == split_ws(v@),
{
    let mut done: Vec<Vec<char>> = Vec::new();
    let mut cur: Vec<char> = Vec::new();
    let mut i: usize = 0;
    assert(v@.skip(0) =~= v@);
    assert(views(done@) =~= Seq::<Seq<char>>::empty());
    assert(cur@ =~= Seq::<char>::empty());
    while i < v.len()
        invariant
            i <= v.len(),
            split_ws(v@) == words_acc(views(done@), cur@, v@.skip(i as int)),
        decreases v.len() - i,
    {
        let c = v[i];
        let ghost rest = v@.skip(i as int);
        assert(rest[0] == c);
        assert(rest.drop_first() =~= v@.skip(i + 1));
        if is_whitespace(c) {
            if cur.len() > 0 {
                let ghost d = views(done@);
                let ghost cu = cur@;
                done.push(cur);
                assert(views(done@) =~= d.push(cu));
                cur = Vec::new();
            }
            assert(cur@ =~= Seq::<char>::empty());
        } else {
            cur.push(c);
        }
        i += 1;
    }
    assert(v@.skip(i as int).len() == 0);
    if cur.len() > 0 {
        let ghost d = views(done@);
        let ghost cu = cur@;
        done.push(cur);
        assert(views(done@) =~= d.push(cu));
    }
    done
}


proof fn lemma_trim_start_head(s: Seq<char>)
    ensures
        trim_start(s).len() > 0 ==> !is_ws(trim_start(s)[0]),
    decreases s.len(),
{
    if s.len() > 0 && is_ws(s[0]) {
        lemma_trim_start_head(s.drop_first());
    }
}

proof fn lemma_trim_end_prefix(s: Seq<char>)
    ensures
        trim_end(s).len() <= s.len(),
        trim_end(s) == s.take(trim_end(s).len() as int),
    decreases s.len(),
{
    if s.len() > 0 && is_ws(s.last()) {
        lemma_trim_end_prefix(s.drop_last());
        let t = trim_end(s.drop_last());
        assert(s.drop_last().take(t.len() as int) =~= s.take(t.len() as int));
    } else {
        assert(s.take(s.len() as int) =~= s);
    }
}

/// A trimmed text that is not empty starts with a non-whitespace character.
pub proof fn lemma_trim_head(s: Seq<char>)
    ensures
        trim(s).len() > 0 ==> !is_ws(trim(s)[0]),
{
    lemma_trim_start_head(s);
    lemma_trim_end_prefix(trim_start(s));
}

proof fn lemma_words_acc_len(done: Seq<Seq<char>>, cur: Seq<char>, rest: Seq<char>)
    ensures
        words_acc(done, cur, rest).len() >= done.len() + (if cur.len() > 0 {
            1int
        } else {
            0int
        }),
    decreases rest.len(),
{
    if rest.len() > 0 {
        if is_ws(rest[0]) {
            let d2 = if cur.len() > 0 {
                done.push(cur)
            } else {
                done
            };
            lemma_words_acc_len(d2, seq![], rest.drop_first());
        } else {
            lemma_words_acc_len(done, cur.push(rest[0]), rest.drop_first());
        }
    }
}

/// A text whose first character is not whitespace has a first word.
pub proof fn lemma_first_word(s: Seq<char>)
    requires
        s.len() > 0,
        !is_ws(s[0]),
    ensures
        split_ws(s).len() > 0,
{
    lemma_words_acc_len(seq![], seq![s[0]], s.drop_first());
    assert(Seq::<char>::empty().push(s[0]) =~= seq![s[0]]);
}

} // verus!

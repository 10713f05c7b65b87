//! Byte-level text handling for the bytecode format: line splitting,
//! whitespace trimming, comment stripping and the quoting tokenizer.
use vstd::prelude::*;

verus! {

pub const NEWLINE: u8 = 10;

pub const CARRIAGE_RETURN: u8 = 13;

pub const QUOTE: u8 = 34;

pub const HASH: u8 = 35;

pub const SLASH: u8 = 47;

pub const SEMICOLON: u8 = 59;

/// ASCII whitespace: space, tab, line feed, vertical tab, form feed, carriage return.
pub open spec fn is_space(b: u8) -> bool {
    b == 32 || (9 <= b && b <= 13)
}

/// The three-byte UTF-8 encodings of Unicode whitespace: U+1680, U+2000 to
/// U+200A, U+2028, U+2029, U+202F, U+205F and U+3000.
pub open spec fn is_space3(a: u8, b: u8, c: u8) -> bool {
    (a == 0xe1 && b == 0x9a && c == 0x80) || (a == 0xe2 && b == 0x80 && ((0x80 <= c && c <= 0x8a)
        || c == 0xa8 || c == 0xa9 || c == 0xaf)) || (a == 0xe2 && b == 0x81 && c == 0x9f) || (a
        == 0xe3 && b == 0x80 && c == 0x80)
}

/// The two-byte UTF-8 encodings of Unicode whitespace: U+0085 and U+00A0.
pub open spec fn is_space2(a: u8, b: u8) -> bool {
    a == 0xc2 && (b == 0x85 || b == 0xa0)
}

/// The byte length of the whitespace character that begins at `i` in UTF-8
/// text `s`, or 0 when none does.
pub open spec fn space_len(s: Seq<u8>, i: int) -> int {
    if 0 <= i < s.len() && is_space(s[i]) {
        1
    } else if 0 <= i && i + 1 < s.len() && is_space2(s[i], s[i + 1]) {
        2
    } else if 0 <= i && i + 2 < s.len() && is_space3(s[i], s[i + 1], s[i + 2]) {
        3
    } else {
        0
    }
}

/// The byte length of the whitespace character that ends `s`, or 0.
pub open spec fn space_len_end(s: Seq<u8>) -> int {
    let n = s.len() as int;
    if n >= 1 && is_space(s[n - 1]) {
        1
    } else if n >= 2 && is_space2(s[n - 2], s[n - 1]) {
        2
    } else if n >= 3 && is_space3(s[n - 3], s[n - 2], s[n - 1]) {
        3
    } else {
        0
    }
}

/// Whether whitespace begins at `i` depends on `s[i..]` alone.
pub proof fn lemma_space_len_sub(s: Seq<u8>, i: int)
    requires
        0 <= i <= s.len(),
    ensures
        space_len(s.subrange(i, s.len() as int), 0) == space_len(s, i),
{
    let t = s.subrange(i, s.len() as int);
    if t.len() >= 1 {
        assert(t[0] == s[i]);
    }
    if t.len() >= 2 {
        assert(t[1] == s[i + 1]);
    }
    if t.len() >= 3 {
        assert(t[2] == s[i + 2]);
    }
}

/// `space_len(s[i..to], 0)`: the whitespace that begins at `i`, looking no
/// further than `to`.
pub fn space_at(s: &[u8], i: usize, to: usize) -> (r: usize)
    requires
        i <= to <= s@.len(),
    ensures
        r as int == space_len(s@.subrange(i as int, to as int), 0),
        r <= to - i,
{
    let ghost t = s@.subrange(i as int, to as int);
    let n = to - i;
    if n >= 1 {
        assert(t[0] == s@[i as int]);
    }
    if n >= 2 {
        assert(t[1] == s@[i + 1]);
    }
    if n >= 3 {
        assert(t[2] == s@[i + 2]);
    }
    if n >= 1 && (s[i] == 32 || (9 <= s[i] && s[i] <= 13)) {
        1
    } else if n >= 2 && s[i] == 0xc2 && (s[i + 1] == 0x85 || s[i + 1] == 0xa0) {
        2
    } else if n >= 3 && is_space3_bytes(s[i], s[i + 1], s[i + 2]) {
        3
    } else {
        0
    }
}

/// `space_len_end(s[from..to])`.
pub fn space_before(s: &[u8], from: usize, to: usize) -> (r: usize)
    requires
        from <= to <= s@.len(),
    ensures
        r as int == space_len_end(s@.subrange(from as int, to as int)),
        r <= to - from,
{
    let ghost t = s@.subrange(from as int, to as int);
    let n = to - from;
    if n >= 1 {
        assert(t[n - 1] == s@[to - 1]);
    }
    if n >= 2 {
        assert(t[n - 2] == s@[to - 2]);
    }
    if n >= 3 {
        assert(t[n - 3] == s@[to - 3]);
    }
    if n >= 1 && (s[to - 1] == 32 || (9 <= s[to - 1] && s[to - 1] <= 13)) {
        1
    } else if n >= 2 && s[to - 2] == 0xc2 && (s[to - 1] == 0x85 || s[to - 1] == 0xa0) {
        2
    } else if n >= 3 && is_space3_bytes(s[to - 3], s[to - 2], s[to - 1]) {
        3
    } else {
        0
    }
}

fn is_space3_bytes(a: u8, b: u8, c: u8) -> (r: bool)
    ensures
        r == is_space3(a, b, c),
{
    (a == 0xe1 && b == 0x9a && c == 0x80) || (a == 0xe2 && b == 0x80 && ((0x80 <= c && c <= 0x8a)
        || c == 0xa8 || c == 0xa9 || c == 0xaf)) || (a == 0xe2 && b == 0x81 && c == 0x9f) || (a
        == 0xe3 && b == 0x80 && c == 0x80)
}

/// `s` without its leading whitespace.
pub open spec fn trim_start(s: Seq<u8>) -> Seq<u8>
    decreases s.len(),
{
    if space_len(s, 0) > 0 {
        trim_start(s.subrange(space_len(s, 0), s.len() as int))
    } else {
        s
    }
}

/// `s` without its trailing whitespace.
pub open spec fn trim_end(s: Seq<u8>) -> Seq<u8>
    decreases s.len(),
{
    if space_len_end(s) > 0 {
        trim_end(s.subrange(0, s.len() - space_len_end(s)))
    } else {
        s
    }
}

/// `s` without leading and trailing whitespace.
pub open spec fn trim(s: Seq<u8>) -> Seq<u8> {
    trim_end(trim_start(s))
}

/// Index of the first `b` in `s` at or after `i`, or `s.len()` when there is none.
pub open spec fn find_byte(s: Seq<u8>, b: u8, i: int) -> int
    decreases s.len() - i,
{
    if i >= s.len() {
        s.len() as int
    } else if s[i] == b {
        i
    } else {
        find_byte(s, b, i + 1)
    }
}

/// Index of the first `//` in `s` at or after `i`, or `s.len()` when there is none.
pub open spec fn find_double_slash(s: Seq<u8>, i: int) -> int
    decreases s.len() - i,
{
    if i + 1 >= s.len() {
        s.len() as int
    } else if s[i] == SLASH && s[i + 1] == SLASH {
        i
    } else {
        find_double_slash(s, i + 1)
    }
}

/// The smaller of two positions.
pub open spec fn min_pos(a: int, b: int) -> int {
    if a <= b {
        a
    } else {
        b
    }
}

/// Where the comment of a line begins: the first `#`, `//` or `;`,
/// whichever comes first; `s.len()` when there is none.
pub open spec fn comment_start(s: Seq<u8>) -> int {
    min_pos(min_pos(find_byte(s, HASH, 0), find_double_slash(s, 0)), find_byte(s, SEMICOLON, 0))
}

/// A trimmed line cut at its first comment marker of any kind; the part
/// before the marker is trimmed again.
pub open spec fn strip_comment(s: Seq<u8>) -> Seq<u8> {
    if comment_start(s) < s.len() {
        trim(s.subrange(0, comment_start(s)))
    } else {
        s
    }
}

/// The code part of a source line: trimmed, comment removed.
pub open spec fn clean_line(line: Seq<u8>) -> Seq<u8> {
    strip_comment(trim(line))
}

/// A line that ended with a line feed loses one carriage return before it.
pub open spec fn strip_cr(s: Seq<u8>) -> Seq<u8> {
    if s.len() > 0 && s.last() == CARRIAGE_RETURN {
        s.drop_last()
    } else {
        s
    }
}

/// The lines of `s` from position `i` on, the current line having begun at
/// `start`. Lines end at a line feed; a final line feed opens no empty line.
pub open spec fn lines_from(s: Seq<u8>, start: int, i: int) -> Seq<Seq<u8>>
    decreases s.len() - i,
{
    if i >= s.len() {
        if start < s.len() {
            seq![s.subrange(start, s.len() as int)]
        } else {
            Seq::empty()
        }
    } else if s[i] == NEWLINE {
        seq![strip_cr(s.subrange(start, i))] + lines_from(s, i + 1, i + 1)
    } else {
        lines_from(s, start, i + 1)
    }
}

/// The lines of a source text.
pub open spec fn lines_of(s: Seq<u8>) -> Seq<Seq<u8>> {
    lines_from(s, 0, 0)
}

/// Puts `parts` in front of the tokens of a rest, if the rest tokenizes.
pub open spec fn prepend_tokens(parts: Seq<Seq<u8>>, rest: Option<Seq<Seq<u8>>>) -> Option<
    Seq<Seq<u8>>,
> {
    match rest {
        Some(r) => Some(parts + r),
        None => None,
    }
}

/// The quoting tokenizer, as a machine over positions. The current token is
/// `s[start..i]`; `quoted` is set between a double quote and the next one.
/// Whitespace (ASCII or Unicode) outside quotes ends a token; quotes stay in the token; a line
/// that ends inside quotes has no tokens (`None`).
pub open spec fn tokens_from(s: Seq<u8>, start: int, i: int, quoted: bool) -> Option<
    Seq<Seq<u8>>,
>
    decreases s.len() - i,
{
    if i >= s.len() {
        if quoted {
            None
        } else if start < s.len() {
            Some(seq![s.subrange(start, s.len() as int)])
        } else {
            Some(Seq::empty())
        }
    } else if quoted {
        tokens_from(s, start, i + 1, s[i] != QUOTE)
    } else if s[i] == QUOTE {
        tokens_from(s, start, i + 1, true)
    } else if space_len(s, i) > 0 {
        let next = i + space_len(s, i);
        if start < i {
            prepend_tokens(seq![s.subrange(start, i)], tokens_from(s, next, next, false))
        } else {
            tokens_from(s, next, next, false)
        }
    } else {
        tokens_from(s, start, i + 1, false)
    }
}

/// The tokens of a line, or `None` when a quote is left open.
pub open spec fn tokens_of(s: Seq<u8>) -> Option<Seq<Seq<u8>>> {
    tokens_from(s, 0, 0, false)
}

/// ASCII lowercase of one byte.
pub open spec fn lower_byte(b: u8) -> u8 {
    if 65 <= b && b <= 90 {
        (b + 32) as u8
    } else {
        b
    }
}

/// ASCII uppercase of one byte.
pub open spec fn upper_byte(b: u8) -> u8 {
    if 97 <= b && b <= 122 {
        (b - 32) as u8
    } else {
        b
    }
}

pub open spec fn lower_ascii(s: Seq<u8>) -> Seq<u8> {
    s.map_values(|b: u8| lower_byte(b))
}

pub open spec fn upper_ascii(s: Seq<u8>) -> Seq<u8> {
    s.map_values(|b: u8| upper_byte(b))
}

/// The bytes `s[from..to]` as a vector.
pub fn copy_range(s: &[u8], from: usize, to: usize) -> (r: Vec<u8>)
    requires
        from <= to <= s@.len(),
    ensures
        r@ == s@.subrange(from as int, to as int),
{
    let mut r: Vec<u8> = Vec::new();
    let mut i: usize = from;
    while i < to
        invariant
            from <= i <= to <= s@.len(),
            r@ == s@.subrange(from as int, i as int),
        decreases to - i,
    {
        r.push(s[i]);
        i = i + 1;
    }
    r
}

/// Lowercases the ASCII letters of `s`.
pub fn to_lower_ascii(s: &[u8]) -> (r: Vec<u8>)
    ensures
        r@ == lower_ascii(s@),
{
    let mut r: Vec<u8> = Vec::new();
    let mut i: usize = 0;
    while i < s.len()
        invariant
            i <= s@.len(),
            r@ == lower_ascii(s@.subrange(0, i as int)),
        decreases s@.len() - i,
    {
        let b = s[i];
        let c: u8 = if 65 <= b && b <= 90 {
            b + 32
        } else {
            b
        };
        r.push(c);
        assert(lower_ascii(s@.subrange(0, i + 1)) =~= lower_ascii(s@.subrange(0, i as int)).push(
            c,
        ));
        i = i + 1;
    }
    assert(s@.subrange(0, i as int) =~= s@);
    r
}

/// Uppercases the ASCII letters of `s`.
pub fn to_upper_ascii(s: &[u8]) -> (r: Vec<u8>)
    ensures
        r@ == upper_ascii(s@),
{
    let mut r: Vec<u8> = Vec::new();
    let mut i: usize = 0;
    while i < s.len()
        invariant
            i <= s@.len(),
            r@ == upper_ascii(s@.subrange(0, i as int)),
        decreases s@.len() - i,
    {
        let b = s[i];
        let c: u8 = if 97 <= b && b <= 122 {
            b - 32
        } else {
            b
        };
        r.push(c);
        assert(upper_ascii(s@.subrange(0, i + 1)) =~= upper_ascii(s@.subrange(0, i as int)).push(
            c,
        ));
        i = i + 1;
    }
    assert(s@.subrange(0, i as int) =~= s@);
    r
}

/// The bounds `(a, b)` of `trim(s[from..to])` within `s`.
pub fn trim_bounds(s: &[u8], from: usize, to: usize) -> (r: (usize, usize))
    requires
        from <= to <= s@.len(),
    ensures
        from <= r.0 <= r.1 <= to,
        s@.subrange(r.0 as int, r.1 as int) == trim(s@.subrange(from as int, to as int)),
{
    let ghost t = s@.subrange(from as int, to as int);
    let mut a: usize = from;
    let mut w = space_at(s, a, to);
    while w > 0
        invariant
            from <= a <= to <= s@.len(),
            w as int == space_len(s@.subrange(a as int, to as int), 0),
            w <= to - a,
            trim_start(t) == trim_start(s@.subrange(a as int, to as int)),
        decreases to - a,
    {
        assert(s@.subrange(a as int, to as int).subrange(w as int, to - a) =~= s@.subrange(
            a + w,
            to as int,
        ));
        a = a + w;
        w = space_at(s, a, to);
    }
    let ghost u = s@.subrange(a as int, to as int);
    assert(trim_start(u) == u);
    let mut b: usize = to;
    let mut v = space_before(s, a, b);
    while v > 0
        invariant
            from <= a <= b <= to <= s@.len(),
            v as int == space_len_end(s@.subrange(a as int, b as int)),
            v <= b - a,
            u == s@.subrange(a as int, to as int),
            trim_end(u) == trim_end(s@.subrange(a as int, b as int)),
        decreases b - a,
    {
        assert(s@.subrange(a as int, b as int).subrange(0, b - a - v) =~= s@.subrange(
            a as int,
            b - v,
        ));
        b = b - v;
        v = space_before(s, a, b);
    }
    (a, b)
}

/// Index of the first `c` in `s[from..to]`, or `to`.
pub fn find_byte_in(s: &[u8], c: u8, from: usize, to: usize) -> (r: usize)
    requires
        from <= to <= s@.len(),
    ensures
        from <= r <= to,
        r as int == find_byte(s@.subrange(from as int, to as int), c, 0) + from,
{
    let ghost t = s@.subrange(from as int, to as int);
    let mut i: usize = from;
    while i < to && s[i] != c
        invariant
            from <= i <= to <= s@.len(),
            find_byte(t, c, 0) == find_byte(t, c, i - from),
            t == s@.subrange(from as int, to as int),
        decreases to - i,
    {
        assert(t[i - from] == s@[i as int]);
        i = i + 1;
    }
    i
}

/// Index of the first `//` in `s[from..to]`, or `to`.
pub fn find_double_slash_in(s: &[u8], from: usize, to: usize) -> (r: usize)
    requires
        from <= to <= s@.len(),
    ensures
        from <= r <= to,
        r as int == find_double_slash(s@.subrange(from as int, to as int), 0) + from,
{
    let ghost t = s@.subrange(from as int, to as int);
    let mut i: usize = from;
    while i < to && to - i > 1 && !(s[i] == SLASH && s[i + 1] == SLASH)
        invariant
            from <= i <= to <= s@.len(),
            find_double_slash(t, 0) == find_double_slash(t, i - from),
            t == s@.subrange(from as int, to as int),
        decreases to - i,
    {
        assert(t[i - from] == s@[i as int] && t[i - from + 1] == s@[i + 1]);
        i = i + 1;
    }
    if i < to && to - i > 1 {
        assert(t[i - from] == s@[i as int] && t[i - from + 1] == s@[i + 1]);
        i
    } else {
        to
    }
}

} // verus!

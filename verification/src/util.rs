use vstd::prelude::*;

verus! {

/// Reading a stored file failed.
#[derive(Debug, Clone, Copy, PartialEq, Eq, Structural)]
pub struct LoadFileError;

/// Writing a stored file failed.
#[derive(Debug, Clone, Copy, PartialEq, Eq, Structural)]
pub struct SaveFileError;

/// The characters of a string, in order.
pub fn chars_of(s: &str) -> (r: Vec<char>)
    ensures
        r@ == s@,
{
    let mut r: Vec<char> = Vec::new();
    for c in iter: s.chars()
        invariant
            r@ == iter.seq().take(iter.index() as int),
    {
        r.push(c);
    }
    r
}

/// The characters with the Unicode White_Space property.
pub open spec fn is_white_space(c: char) -> bool {
    let v = c as u32;
    ||| 0x9 <= v <= 0xd
    ||| v == 0x20
    ||| v == 0x85
    ||| v == 0xa0
    ||| v == 0x1680
    ||| 0x2000 <= v <= 0x200a
    ||| v == 0x2028
    ||| v == 0x2029
    ||| v == 0x202f
    ||| v == 0x205f
    ||| v == 0x3000
}

/// Whether `c` has the Unicode White_Space property.
pub fn white_space(c: char) -> (r: bool)
    ensures
        r == is_white_space(c),
{
    let v = c as u32;
    (0x9 <= v && v <= 0xd) || v == 0x20 || v == 0x85 || v == 0xa0 || v == 0x1680 || (0x2000 <= v && v <= 0x200a)
        || v == 0x2028 || v == 0x2029 || v == 0x202f || v == 0x205f || v == 0x3000
}

/// The position of the first line feed at or after `i`, or the length of `s` when there is none.
pub open spec fn newline_from(s: Seq<char>, i: int) -> int
    decreases (if i < s.len() { s.len() - i } else { 0 }),
{
    if i >= s.len() {
        s.len() as int
    } else if s[i] == '\n' {
        i
    } else {
        newline_from(s, i + 1)
    }
}

/// The characters of `s` before its first line feed.
pub open spec fn first_line(s: Seq<char>) -> Seq<char> {
    s.take(newline_from(s, 0))
}

/// The position of the first character at or after `i` that is not white space, or the length of `s`.
pub open spec fn content_start(s: Seq<char>, i: int) -> int
    decreases (if i < s.len() { s.len() - i } else { 0 }),
{
    if i >= s.len() {
        s.len() as int
    } else if !is_white_space(s[i]) {
        i
    } else {
        content_start(s, i + 1)
    }
}

/// One past the last character before `j` that is not white space, or 0.
pub open spec fn content_end(s: Seq<char>, j: int) -> int
    decreases (if j > 0 { j } else { 0 }),
{
    if j <= 0 {
        0
    } else if !is_white_space(s[j - 1]) {
        j
    } else {
        content_end(s, j - 1)
    }
}

/// `s` without leading and trailing white space.
pub open spec fn trimmed(s: Seq<char>) -> Seq<char> {
    let a = content_start(s, 0);
    let b = content_end(s, s.len() as int);
    if a < b {
        s.subrange(a, b)
    } else {
        Seq::empty()
    }
}

/// Every character is a decimal digit.
pub open spec fn all_digits(d: Seq<char>) -> bool {
    forall|i: int| 0 <= i < d.len() ==> '0' <= #[trigger] d[i] <= '9'
}

/// The number that a sequence of decimal digits writes.
pub open spec fn digits_value(d: Seq<char>) -> int
    decreases d.len(),
{
    if d.len() == 0 {
        0
    } else {
        digits_value(d.drop_last()) * 10 + ((d.last() as u32) - ('0' as u32))
    }
}

/// Decimal reading of an unsigned 32-bit number: an optional `+` followed by at least
/// one digit, and a value that fits in 32 bits; nothing else is accepted.
pub open spec fn spec_parse_u32(t: Seq<char>) -> Option<u32> {
    let d = if t.len() > 0 && t[0] == '+' { t.drop_first() } else { t };
    if d.len() > 0 && all_digits(d) && digits_value(d) <= u32::MAX {
        Some(digits_value(d) as u32)
    } else {
        None
    }
}

/// The three colour bytes of an ARGB colour word: red, green, blue.
pub open spec fn spec_rgb_of_word(v: u32) -> Seq<u8> {
    seq![((v / 0x10000) % 0x100) as u8, ((v / 0x100) % 0x100) as u8, (v % 0x100) as u8]
}

/// The red, green and blue bytes of a window colour word laid out as 0xAARRGGBB.
pub fn rgb_from_colorization(color: u32) -> (r: [u8; 3])
    ensures
        r@ == spec_rgb_of_word(color),
{
    let r = ((color >> 16) & 0xFF) as u8;
    let g = ((color >> 8) & 0xFF) as u8;
    let b = (color & 0xFF) as u8;
    assert((color >> 16) & 0xFF == (color / 0x10000) % 0x100) by (bit_vector);
    assert((color >> 8) & 0xFF == (color / 0x100) % 0x100) by (bit_vector);
    assert(color & 0xFF == color % 0x100) by (bit_vector);
    let out = [r, g, b];
    assert(out@ =~= spec_rgb_of_word(color));
    out
}

/// The three colour bytes put back together give the colour word without its alpha byte.
pub proof fn lemma_rgb_of_word_recomposes(v: u32)
    ensures
        spec_rgb_of_word(v)[0] * 0x10000 + spec_rgb_of_word(v)[1] * 0x100 + spec_rgb_of_word(v)[2] == v % 0x100_0000,
{
    let r = (v / 0x10000) % 0x100;
    let g = (v / 0x100) % 0x100;
    let b = v % 0x100;
    assert(r * 0x10000 + g * 0x100 + b == v % 0x100_0000) by (nonlinear_arith)
        requires r == (v / 0x10000) % 0x100, g == (v / 0x100) % 0x100, b == v % 0x100, v >= 0;
}

proof fn lemma_digits_value_monotone(d: Seq<char>, k: int)
    requires
        0 <= k <= d.len(),
        all_digits(d),
    ensures
        digits_value(d.take(k)) <= digits_value(d),
        0 <= digits_value(d.take(k)),
    decreases d.len(),
{
    if k < d.len() {
        assert(all_digits(d.drop_last()));
        assert(d.drop_last().take(k) =~= d.take(k));
        lemma_digits_value_monotone(d.drop_last(), k);
        assert(d.take(d.len() as int) =~= d);
    } else {
        assert(d.take(k) =~= d);
        if d.len() > 0 {
            lemma_digits_value_monotone(d.drop_last(), d.len() - 1);
            assert(d.drop_last().take(d.len() - 1) =~= d.drop_last());
        }
    }
}

/// Reads an unsigned 32-bit number written in decimal (see `spec_parse_u32`).
pub fn parse_u32(t: &Vec<char>) -> (r: Option<u32>)
    ensures
        r == spec_parse_u32(t@),
{
    let start: usize = if t.len() > 0 && t[0] == '+' { 1 } else { 0 };
    let ghost d = if t@.len() > 0 && t@[0] == '+' { t@.drop_first() } else { t@ };
    assert(d =~= t@.subrange(start as int, t@.len() as int));
    if start >= t.len() {
        return None;
    }
    let mut value: u64 = 0;
    let mut i: usize = start;
    while i < t.len()
        invariant
            start <= i <= t@.len(),
            d == (if t@.len() > 0 && t@[0] == '+' { t@.drop_first() } else { t@ }),
            d =~= t@.subrange(start as int, t@.len() as int),
            all_digits(d.take(i - start)),
            value == digits_value(d.take(i - start)),
            value <= u32::MAX,
        decreases t.len() - i,
    {
        let c = t[i];
        if !('0' <= c && c <= '9') {
            assert(d[i - start] == c);
            return None;
        }
        let digit = (c as u32 - '0' as u32) as u64;
        let ghost prev = d.take(i - start);
        assert(d.take(i + 1 - start).drop_last() =~= prev);
        assert(d.take(i + 1 - start).last() == c);
        value = value * 10 + digit;
        assert(all_digits(d.take(i + 1 - start)));
        if value > 0xFFFF_FFFF {
            proof {
                if all_digits(d) {
                    lemma_digits_value_monotone(d, i + 1 - start);
                }
            }
            return None;
        }
        i = i + 1;
    }
    assert(d.take(i - start) =~= d);
    Some(value as u32)
}

/// The characters of `s` before its first line feed, without surrounding white space.
pub fn trimmed_first_line(s: &Vec<char>) -> (r: Vec<char>)
    ensures
        r@ == trimmed(first_line(s@)),
{
    let mut end: usize = 0;
    while end < s.len() && s[end] != '\n'
        invariant
            end <= s@.len(),
            newline_from(s@, 0) == newline_from(s@, end as int),
        decreases s.len() - end,
    {
        end = end + 1;
    }
    let ghost line = first_line(s@);
    assert(line =~= s@.take(end as int));
    let mut a: usize = 0;
    while a < end && white_space(s[a])
        invariant
            a <= end,
            end <= s@.len(),
            line == first_line(s@),
            content_start(line, 0) == content_start(line, a as int),
            line =~= s@.take(end as int),
        decreases end - a,
    {
        a = a + 1;
    }
    let mut b: usize = end;
    while b > 0 && white_space(s[b - 1])
        invariant
            b <= end,
            end <= s@.len(),
            line == first_line(s@),
            content_end(line, line.len() as int) == content_end(line, b as int),
            line =~= s@.take(end as int),
        decreases b,
    {
        b = b - 1;
    }
    assert(content_start(line, 0) == a as int) by {
        if a < end {
            assert(!is_white_space(line[a as int]));
        }
    }
    assert(content_end(line, line.len() as int) == b as int) by {
        if b > 0 {
            assert(!is_white_space(line[b - 1]));
        }
    }
    let mut r: Vec<char> = Vec::new();
    if a < b {
        let mut k: usize = a;
        while k < b
            invariant
                a <= k <= b,
                b <= end,
                end <= s@.len(),
                line =~= s@.take(end as int),
                r@ =~= line.subrange(a as int, k as int),
            decreases b - k,
        {
            r.push(s[k]);
            k = k + 1;
        }
    }
    r
}

/// The accent colour reported by the system: the first line of the output, without
/// surrounding white space, read as a decimal colour word 0xAARRGGBB, of which the
/// red, green and blue bytes are taken. `None` when that line is no such number.
pub fn accent_color_from_output(output: &str) -> (r: Option<[u8; 3]>)
    ensures
        r is None <==> spec_parse_u32(trimmed(first_line(output@))) is None,
        r matches Some(c) ==> c@ == spec_rgb_of_word(spec_parse_u32(trimmed(first_line(output@)))->0),
{
    let chars = chars_of(output);
    let line = trimmed_first_line(&chars);
    match parse_u32(&line) {
        Some(v) => Some(rgb_from_colorization(v)),
        None => None,
    }
}

} // verus!

//! The text forms of configured values: an aspect ratio as `16:9`, a colour
//! as `#bea966`, and a colour probe as `x,y,#hexcolor,tolerance`.

use crate::layout::{PixelCheck, Rgba8};
use vstd::prelude::*;
use vstd::string::StrSliceExecFns;
use vstd::string::StringExecFns;

verus! {

/// Why a text is not the form of a value.
#[derive(Clone, Copy, Debug, PartialEq, Eq, Structural)]
pub enum ConfigTextError {
    /// An aspect ratio is not of the form `width:height`.
    AspectRatioFormat,
    /// The width of an aspect ratio is not a number of 32 bits.
    InvalidWidth,
    /// The height of an aspect ratio is not a number of 32 bits.
    InvalidHeight,
    /// A colour is not three, four, six or eight hexadecimal digits.
    InvalidColor,
    /// A colour probe is not of the form `x,y,#hexcolor,tolerance`.
    PixelCheckFormat,
    /// The x coordinate of a colour probe is not a number of 32 bits.
    InvalidX,
    /// The y coordinate of a colour probe is not a number of 32 bits.
    InvalidY,
    /// The tolerance of a colour probe is not a number of 32 bits.
    InvalidTolerance,
}

/// Whether `c` is white space.
pub open spec fn is_space(c: char) -> bool {
    let code = c as u32;
    ||| 0x09 <= code <= 0x0d
    ||| code == 0x20
    ||| code == 0x85
    ||| code == 0xa0
    ||| code == 0x1680
    ||| 0x2000 <= code <= 0x200a
    ||| code == 0x2028
    ||| code == 0x2029
    ||| code == 0x202f
    ||| code == 0x205f
    ||| code == 0x3000
}

/// `s` without the white space at its start and at its end.
pub open spec fn trimmed(s: Seq<char>) -> Seq<char>
    decreases s.len(),
{
    if s.len() > 0 && is_space(s[0]) {
        trimmed(s.drop_first())
    } else if s.len() > 0 && is_space(s.last()) {
        trimmed(s.drop_last())
    } else {
        s
    }
}

/// The pieces of `s` between the occurrences of `sep`: one more than there
/// are occurrences.
pub open spec fn split_on(s: Seq<char>, sep: char) -> Seq<Seq<char>>
    decreases s.len(),
{
    if s.len() == 0 {
        seq![Seq::empty()]
    } else {
        let before = split_on(s.drop_last(), sep);
        if s.last() == sep {
            before.push(Seq::empty())
        } else {
            before.drop_last().push(before.last().push(s.last()))
        }
    }
}

/// Whether `c` is one of the digits `0` to `9`.
pub open spec fn is_digit(c: char) -> bool {
    '0' <= c <= '9'
}

/// The value of the digit `c`.
pub open spec fn digit_value(c: char) -> nat {
    (c as u32 - '0' as u32) as nat
}

/// The number that a sequence of decimal digits writes; the empty sequence
/// writes zero, and anything but digits writes no number.
pub open spec fn digits_value(s: Seq<char>) -> Option<nat>
    decreases s.len(),
{
    if s.len() == 0 {
        Some(0nat)
    } else {
        match digits_value(s.drop_last()) {
            Some(v) => if is_digit(s.last()) {
                Some(v * 10 + digit_value(s.last()))
            } else {
                None
            },
            None => None,
        }
    }
}

/// The number of 32 bits that `s` writes in decimal digits, with or without
/// a plus sign before them. There has to be at least one digit.
pub open spec fn parsed_u32(s: Seq<char>) -> Option<u32> {
    let digits = if s.len() > 0 && s[0] == '+' {
        s.drop_first()
    } else {
        s
    };
    if digits.len() == 0 {
        None
    } else {
        match digits_value(digits) {
            Some(v) => if v <= u32::MAX {
                Some(v as u32)
            } else {
                None
            },
            None => None,
        }
    }
}

/// The value of the hexadecimal digit `c`, in either case.
pub open spec fn hex_value(c: char) -> Option<u8> {
    if '0' <= c <= '9' {
        Some((c as u32 - '0' as u32) as u8)
    } else if 'a' <= c <= 'f' {
        Some((c as u32 - 'a' as u32 + 10) as u8)
    } else if 'A' <= c <= 'F' {
        Some((c as u32 - 'A' as u32 + 10) as u8)
    } else {
        None
    }
}

/// The values of the digits of `s`, if all of `s` is hexadecimal digits.
pub open spec fn hex_values(s: Seq<char>) -> Option<Seq<u8>>
    decreases s.len(),
{
    if s.len() == 0 {
        Some(Seq::empty())
    } else {
        match (hex_values(s.drop_last()), hex_value(s.last())) {
            (Some(before), Some(v)) => Some(before.push(v)),
            _ => None,
        }
    }
}

/// The colour that hexadecimal digits write: `rgb`, `rgba`, `rrggbb` or
/// `rrggbbaa`. A short digit counts twice, and alpha is full where none is
/// written.
pub open spec fn color_of_digits(d: Seq<u8>) -> Option<Rgba8> {
    if d.len() == 3 {
        Some(
            Rgba8 {
                r: (d[0] * 17) as u8,
                g: (d[1] * 17) as u8,
                b: (d[2] * 17) as u8,
                a: 255,
            },
        )
    } else if d.len() == 4 {
        Some(
            Rgba8 {
                r: (d[0] * 17) as u8,
                g: (d[1] * 17) as u8,
                b: (d[2] * 17) as u8,
                a: (d[3] * 17) as u8,
            },
        )
    } else if d.len() == 6 {
        Some(
            Rgba8 {
                r: (d[0] * 16 + d[1]) as u8,
                g: (d[2] * 16 + d[3]) as u8,
                b: (d[4] * 16 + d[5]) as u8,
                a: 255,
            },
        )
    } else if d.len() == 8 {
        Some(
            Rgba8 {
                r: (d[0] * 16 + d[1]) as u8,
                g: (d[2] * 16 + d[3]) as u8,
                b: (d[4] * 16 + d[5]) as u8,
                a: (d[6] * 16 + d[7]) as u8,
            },
        )
    } else {
        None
    }
}

/// The colour that `s` writes in hexadecimal digits, with or without a `#`
/// before them.
pub open spec fn parsed_color(s: Seq<char>) -> Option<Rgba8> {
    let digits = if s.len() > 0 && s[0] == '#' {
        s.drop_first()
    } else {
        s
    };
    match hex_values(digits) {
        Some(d) => color_of_digits(d),
        None => None,
    }
}

/// The aspect ratio that `s` writes: two numbers with a colon between them,
/// each with or without white space around it.
pub open spec fn parsed_aspect_ratio(s: Seq<char>) -> Result<(u32, u32), ConfigTextError> {
    let parts = split_on(s, ':');
    if parts.len() != 2 {
        Err(ConfigTextError::AspectRatioFormat)
    } else {
        match parsed_u32(trimmed(parts[0])) {
            None => Err(ConfigTextError::InvalidWidth),
            Some(width) => match parsed_u32(trimmed(parts[1])) {
                None => Err(ConfigTextError::InvalidHeight),
                Some(height) => Ok((width, height)),
            },
        }
    }
}

/// The colour probe that `s` writes: two coordinates, a colour and a
/// tolerance with commas between them, each with or without white space
/// around it.
pub open spec fn parsed_pixel_check(s: Seq<char>) -> Result<PixelCheck, ConfigTextError> {
    let parts = split_on(s, ',');
    if parts.len() != 4 {
        Err(ConfigTextError::PixelCheckFormat)
    } else {
        match parsed_u32(trimmed(parts[0])) {
            None => Err(ConfigTextError::InvalidX),
            Some(x) => match parsed_u32(trimmed(parts[1])) {
                None => Err(ConfigTextError::InvalidY),
                Some(y) => match parsed_color(trimmed(parts[2])) {
                    None => Err(ConfigTextError::InvalidColor),
                    Some(color) => match parsed_u32(trimmed(parts[3])) {
                        None => Err(ConfigTextError::InvalidTolerance),
                        Some(tolerance) => Ok(PixelCheck { x, y, color, tolerance }),
                    },
                },
            },
        }
    }
}

/// The views of a sequence of pieces.
pub open spec fn pieces(parts: Seq<Vec<char>>) -> Seq<Seq<char>> {
    parts.map_values(|p: Vec<char>| p@)
}

fn chars_of(text: &str) -> (chars: Vec<char>)
    ensures
        chars@ == text@,
{
    let len = text.unicode_len();
    let mut chars: Vec<char> = Vec::new();
    let mut i: usize = 0;
    while i < len
        invariant
            0 <= i <= len,
            len == text@.len(),
            chars@ == text@.take(i as int),
        decreases len - i,
    {
        chars.push(text.get_char(i));
        assert(text@.take(i + 1) =~= text@.take(i as int).push(text@[i as int]));
        i += 1;
    }
    assert(text@.take(len as int) =~= text@);
    chars
}

fn space(c: char) -> (r: bool)
    ensures
        r == is_space(c),
{
    let code = c as u32;
    (0x09 <= code && code <= 0x0d) || code == 0x20 || code == 0x85 || code == 0xa0 || code
        == 0x1680 || (0x2000 <= code && code <= 0x200a) || code == 0x2028 || code == 0x2029 || code
        == 0x202f || code == 0x205f || code == 0x3000
}

/// Trimming takes white space off the start until none is left there.
proof fn lemma_trimmed_skips_leading_space(s: Seq<char>, start: int)
    requires
        0 <= start <= s.len(),
        forall|k: int| 0 <= k < start ==> is_space(s[k]),
    ensures
        trimmed(s) == trimmed(s.skip(start)),
    decreases start,
{
    if start == 0 {
        assert(s.skip(0) =~= s);
    } else {
        assert(is_space(s[0]));
        let rest = s.drop_first();
        assert forall|k: int| 0 <= k < start - 1 implies is_space(rest[k]) by {
            assert(rest[k] == s[k + 1]);
        }
        lemma_trimmed_skips_leading_space(rest, start - 1);
        assert(rest.skip(start - 1) =~= s.skip(start));
    }
}

/// Trimming a text that starts with no white space takes it off the end
/// until none is left there.
proof fn lemma_trimmed_drops_trailing_space(s: Seq<char>, end: int)
    requires
        0 <= end <= s.len(),
        end > 0 ==> !is_space(s[0]),
        forall|k: int| end <= k < s.len() ==> is_space(s[k]),
        end > 0 ==> !is_space(s[end - 1]),
    ensures
        trimmed(s) == s.take(end),
    decreases s.len() - end,
{
    if end == s.len() {
        assert(s.take(end) =~= s);
    } else if end == 0 {
        assert(is_space(s[0]));
        let rest = s.drop_first();
        assert forall|k: int| 0 <= k < rest.len() implies is_space(rest[k]) by {
            assert(rest[k] == s[k + 1]);
        }
        lemma_trimmed_drops_trailing_space(rest, 0);
        assert(rest.take(0) =~= s.take(0));
    } else {
        assert(is_space(s.last()));
        let front = s.drop_last();
        lemma_trimmed_drops_trailing_space(front, end);
        assert(front.take(end) =~= s.take(end));
    }
}

fn trim(chars: &Vec<char>) -> (r: Vec<char>)
    ensures
        r@ == trimmed(chars@),
{
    let mut start: usize = 0;
    while start < chars.len() && space(chars[start])
        invariant
            0 <= start <= chars@.len(),
            forall|k: int| 0 <= k < start ==> is_space(chars@[k]),
        decreases chars@.len() - start,
    {
        start += 1;
    }
    let mut end: usize = chars.len();
    while end > start && space(chars[end - 1])
        invariant
            start <= end <= chars@.len(),
            forall|k: int| end <= k < chars@.len() ==> is_space(chars@[k]),
        decreases end,
    {
        end -= 1;
    }
    let mut r: Vec<char> = Vec::new();
    let mut i: usize = start;
    while i < end
        invariant
            start <= i <= end <= chars@.len(),
            r@ == chars@.subrange(start as int, i as int),
        decreases end - i,
    {
        r.push(chars[i]);
        assert(chars@.subrange(start as int, i + 1) =~= chars@.subrange(
            start as int,
            i as int,
        ).push(chars@[i as int]));
        i += 1;
    }
    proof {
        let rest = chars@.skip(start as int);
        lemma_trimmed_skips_leading_space(chars@, start as int);
        assert forall|k: int| end - start <= k < rest.len() implies is_space(rest[k]) by {
            assert(rest[k] == chars@[k + start]);
        }
        if end > start {
            assert(rest[0] == chars@[start as int]);
            assert(rest[end - start - 1] == chars@[end - 1]);
        }
        lemma_trimmed_drops_trailing_space(rest, end - start);
        assert(rest.take(end - start) =~= chars@.subrange(start as int, end as int));
    }
    r
}

fn split(chars: &Vec<char>, sep: char) -> (parts: Vec<Vec<char>>)
    ensures
        pieces(parts@) == split_on(chars@, sep),
        parts@.len() >= 1,
{
    let mut done: Vec<Vec<char>> = Vec::new();
    let mut current: Vec<char> = Vec::new();
    let mut i: usize = 0;
    proof {
        assert(chars@.take(0) =~= Seq::<char>::empty());
        assert(pieces(done@).push(current@) =~= split_on(chars@.take(0), sep));
    }
    while i < chars.len()
        invariant
            0 <= i <= chars@.len(),
            pieces(done@).push(current@) == split_on(chars@.take(i as int), sep),
        decreases chars@.len() - i,
    {
        let c = chars[i];
        let ghost before = split_on(chars@.take(i as int), sep);
        let ghost old_done = done@;
        let ghost old_current = current@;
        proof {
            assert(chars@.take(i + 1).drop_last() =~= chars@.take(i as int));
            assert(chars@.take(i + 1).last() == c);
            assert(before.last() == old_current);
            assert(before.drop_last() =~= pieces(old_done));
        }
        if c == sep {
            done.push(current);
            current = Vec::new();
            proof {
                assert(pieces(done@) =~= pieces(old_done).push(old_current));
                assert(current@ =~= Seq::<char>::empty());
            }
        } else {
            current.push(c);
        }
        i += 1;
    }
    proof {
        assert(chars@.take(i as int) =~= chars@);
    }
    let ghost all = pieces(done@).push(current@);
    done.push(current);
    proof {
        assert(pieces(done@) =~= all);
    }
    done
}

/// A run of digits that is followed by more digits writes a number that is
/// not smaller.
proof fn lemma_digits_value_grows(s: Seq<char>, k: int)
    requires
        0 <= k <= s.len(),
        digits_value(s) is Some,
    ensures
        digits_value(s.take(k)) is Some,
        digits_value(s.take(k))->0 <= digits_value(s)->0,
    decreases s.len() - k,
{
    if k == s.len() {
        assert(s.take(k) =~= s);
    } else {
        lemma_digits_value_grows(s.drop_last(), k);
        assert(s.drop_last().take(k) =~= s.take(k));
    }
}

/// Digits after something that is no digit do not make a number.
proof fn lemma_digits_value_stays_none(s: Seq<char>, k: int)
    requires
        0 <= k <= s.len(),
        digits_value(s.take(k)) is None,
    ensures
        digits_value(s) is None,
    decreases s.len() - k,
{
    if k == s.len() {
        assert(s.take(k) =~= s);
    } else {
        assert(s.drop_last().take(k) =~= s.take(k));
        lemma_digits_value_stays_none(s.drop_last(), k);
    }
}

fn parse_digits(chars: &Vec<char>, from: usize) -> (r: Option<u32>)
    requires
        from <= chars@.len(),
    ensures
        r is Some <==> digits_value(chars@.skip(from as int)) is Some && digits_value(
            chars@.skip(from as int),
        )->0 <= u32::MAX,
        r is Some ==> r->0 == digits_value(chars@.skip(from as int))->0,
{
    let ghost digits = chars@.skip(from as int);
    let mut value: u64 = 0;
    let mut i: usize = from;
    proof {
        assert(digits.take(0) =~= Seq::<char>::empty());
    }
    while i < chars.len()
        invariant
            from <= i <= chars@.len(),
            digits == chars@.skip(from as int),
            digits_value(digits.take(i - from)) == Some(value as nat),
            value <= u32::MAX,
        decreases chars@.len() - i,
    {
        let c = chars[i];
        proof {
            assert(digits.take(i - from + 1).drop_last() =~= digits.take(i - from));
            assert(digits.take(i - from + 1).last() == c);
        }
        if c < '0' || c > '9' {
            proof {
                lemma_digits_value_stays_none(digits, i - from + 1);
            }
            return None;
        }
        let digit: u64 = (c as u32 - '0' as u32) as u64;
        value = value * 10 + digit;
        if value > u32::MAX as u64 {
            proof {
                if digits_value(digits) is Some {
                    lemma_digits_value_grows(digits, i - from + 1);
                }
            }
            return None;
        }
        i += 1;
    }
    proof {
        assert(digits.take(i - from) =~= digits);
    }
    Some(value as u32)
}

fn parse_u32(chars: &Vec<char>) -> (r: Option<u32>)
    ensures
        r == parsed_u32(chars@),
{
    let from: usize = if chars.len() > 0 && chars[0] == '+' {
        1
    } else {
        0
    };
    proof {
        assert(chars@.skip(0) =~= chars@);
        if chars@.len() > 0 {
            assert(chars@.skip(1) =~= chars@.drop_first());
        }
    }
    if from == chars.len() {
        return None;
    }
    parse_digits(chars, from)
}

fn hex_digit(c: char) -> (r: Option<u8>)
    ensures
        r == hex_value(c),
        r is Some ==> r->0 < 16,
{
    if '0' <= c && c <= '9' {
        Some((c as u32 - '0' as u32) as u8)
    } else if 'a' <= c && c <= 'f' {
        Some((c as u32 - 'a' as u32 + 10) as u8)
    } else if 'A' <= c && c <= 'F' {
        Some((c as u32 - 'A' as u32 + 10) as u8)
    } else {
        None
    }
}

/// Digits after something that is no hexadecimal digit do not make a
/// sequence of values.
proof fn lemma_hex_values_stays_none(s: Seq<char>, k: int)
    requires
        0 <= k <= s.len(),
        hex_values(s.take(k)) is None,
    ensures
        hex_values(s) is None,
    decreases s.len() - k,
{
    if k == s.len() {
        assert(s.take(k) =~= s);
    } else {
        assert(s.drop_last().take(k) =~= s.take(k));
        lemma_hex_values_stays_none(s.drop_last(), k);
    }
}

fn parse_hex_digits(chars: &Vec<char>, from: usize) -> (r: Option<Vec<u8>>)
    requires
        from <= chars@.len(),
    ensures
        r is Some <==> hex_values(chars@.skip(from as int)) is Some,
        r is Some ==> r->0@ == hex_values(chars@.skip(from as int))->0,
        r is Some ==> forall|k: int| 0 <= k < r->0@.len() ==> r->0@[k] < 16,
{
    let ghost digits = chars@.skip(from as int);
    proof {
        assert(digits.take(0) =~= Seq::<char>::empty());
    }
    let mut values: Vec<u8> = Vec::new();
    let mut i: usize = from;
    while i < chars.len()
        invariant
            from <= i <= chars@.len(),
            digits == chars@.skip(from as int),
            hex_values(digits.take(i - from)) == Some(values@),
            values@.len() == i - from,
            forall|k: int| 0 <= k < values@.len() ==> values@[k] < 16,
        decreases chars@.len() - i,
    {
        proof {
            assert(digits.take(i - from + 1).drop_last() =~= digits.take(i - from));
            assert(digits.take(i - from + 1).last() == chars@[i as int]);
        }
        match hex_digit(chars[i]) {
            Some(v) => {
                values.push(v);
            },
            None => {
                proof {
                    lemma_hex_values_stays_none(digits, i - from + 1);
                }
                return None;
            },
        }
        i += 1;
    }
    proof {
        assert(digits.take(i - from) =~= digits);
    }
    Some(values)
}

fn parse_color(chars: &Vec<char>) -> (r: Option<Rgba8>)
    ensures
        r == parsed_color(chars@),
{
    let from: usize = if chars.len() > 0 && chars[0] == '#' {
        1
    } else {
        0
    };
    proof {
        assert(chars@.skip(0) =~= chars@);
        if chars@.len() > 0 {
            assert(chars@.skip(1) =~= chars@.drop_first());
        }
    }
    let values = match parse_hex_digits(chars, from) {
        Some(values) => values,
        None => {
            return None;
        },
    };
    let n = values.len();
    if n == 3 {
        Some(Rgba8 { r: values[0] * 17, g: values[1] * 17, b: values[2] * 17, a: 255 })
    } else if n == 4 {
        Some(
            Rgba8 {
                r: values[0] * 17,
                g: values[1] * 17,
                b: values[2] * 17,
                a: values[3] * 17,
            },
        )
    } else if n == 6 {
        Some(
            Rgba8 {
                r: values[0] * 16 + values[1],
                g: values[2] * 16 + values[3],
                b: values[4] * 16 + values[5],
                a: 255,
            },
        )
    } else if n == 8 {
        Some(
            Rgba8 {
                r: values[0] * 16 + values[1],
                g: values[2] * 16 + values[3],
                b: values[4] * 16 + values[5],
                a: values[6] * 16 + values[7],
            },
        )
    } else {
        None
    }
}

/// An aspect ratio of the form `width:height` as a pair.
pub open spec fn ratio_pair(ratio: [u32; 2]) -> (u32, u32) {
    (ratio[0], ratio[1])
}

/// Reads an aspect ratio of the form `width:height`.
pub fn parse_aspect_ratio(text: &str) -> (r: Result<[u32; 2], ConfigTextError>)
    ensures
        r is Ok <==> parsed_aspect_ratio(text@) is Ok,
        r is Ok ==> ratio_pair(r->Ok_0) == parsed_aspect_ratio(text@)->Ok_0,
        r is Err ==> r->Err_0 == parsed_aspect_ratio(text@)->Err_0,
{
    let chars = chars_of(text);
    let parts = split(&chars, ':');
    if parts.len() != 2 {
        return Err(ConfigTextError::AspectRatioFormat);
    }
    proof {
        assert(pieces(parts@)[0] == parts@[0]@);
        assert(pieces(parts@)[1] == parts@[1]@);
    }
    let width = match parse_u32(&trim(&parts[0])) {
        Some(width) => width,
        None => {
            return Err(ConfigTextError::InvalidWidth);
        },
    };
    let height = match parse_u32(&trim(&parts[1])) {
        Some(height) => height,
        None => {
            return Err(ConfigTextError::InvalidHeight);
        },
    };
    Ok([width, height])
}

impl Rgba8 {
    /// Reads a colour of the form `#rgb`, `#rgba`, `#rrggbb` or `#rrggbbaa`;
    /// the `#` may be missing.
    pub fn hex(text: &str) -> (r: Result<Rgba8, ConfigTextError>)
        ensures
            r is Ok <==> parsed_color(text@) is Some,
            r is Ok ==> r->Ok_0 == parsed_color(text@)->0,
            r is Err ==> r->Err_0 == ConfigTextError::InvalidColor,
    {
        let chars = chars_of(text);
        match parse_color(&chars) {
            Some(color) => Ok(color),
            None => Err(ConfigTextError::InvalidColor),
        }
    }
}

impl PixelCheck {
    /// Reads a colour probe of the form `x,y,#hexcolor,tolerance`.
    pub fn parse(text: &str) -> (r: Result<PixelCheck, ConfigTextError>)
        ensures
            r == parsed_pixel_check(text@),
    {
        let chars = chars_of(text);
        let parts = split(&chars, ',');
        if parts.len() != 4 {
            return Err(ConfigTextError::PixelCheckFormat);
        }
        proof {
            assert(pieces(parts@)[0] == parts@[0]@);
            assert(pieces(parts@)[1] == parts@[1]@);
            assert(pieces(parts@)[2] == parts@[2]@);
            assert(pieces(parts@)[3] == parts@[3]@);
        }
        let x = match parse_u32(&trim(&parts[0])) {
            Some(x) => x,
            None => {
                return Err(ConfigTextError::InvalidX);
            },
        };
        let y = match parse_u32(&trim(&parts[1])) {
            Some(y) => y,
            None => {
                return Err(ConfigTextError::InvalidY);
            },
        };
        let color = match parse_color(&trim(&parts[2])) {
            Some(color) => color,
            None => {
                return Err(ConfigTextError::InvalidColor);
            },
        };
        let tolerance = match parse_u32(&trim(&parts[3])) {
            Some(tolerance) => tolerance,
            None => {
                return Err(ConfigTextError::InvalidTolerance);
            },
        };
        Ok(PixelCheck { x, y, color, tolerance })
    }
}

/// The decimal digit of a value below ten.
pub open spec fn digit_char(d: nat) -> char {
    seq!['0', '1', '2', '3', '4', '5', '6', '7', '8', '9'][d as int]
}

/// The upper-case hexadecimal digit of a value below sixteen.
pub open spec fn hex_char(d: nat) -> char {
    seq!['0', '1', '2', '3', '4', '5', '6', '7', '8', '9', 'A', 'B', 'C', 'D', 'E', 'F'][d as int]
}

/// `n` in decimal digits, without leading zeros.
pub open spec fn decimal_text(n: nat) -> Seq<char>
    decreases n,
{
    if n < 10 {
        seq![digit_char(n)]
    } else {
        decimal_text(n / 10).push(digit_char(n % 10))
    }
}

/// A byte in two upper-case hexadecimal digits.
pub open spec fn byte_text(b: u8) -> Seq<char> {
    seq![hex_char((b / 16) as nat), hex_char((b % 16) as nat)]
}

/// A colour as `#RRGGBB`, or as `#RRGGBBAA` where alpha is not full.
pub open spec fn color_text(c: Rgba8) -> Seq<char> {
    let opaque = seq!['#'] + byte_text(c.r) + byte_text(c.g) + byte_text(c.b);
    if c.a == 255 {
        opaque
    } else {
        opaque + byte_text(c.a)
    }
}

/// An aspect ratio as `width:height`.
pub open spec fn aspect_ratio_text(width: u32, height: u32) -> Seq<char> {
    decimal_text(width as nat) + seq![':'] + decimal_text(height as nat)
}

/// A colour probe as `x,y,#hexcolor,tolerance`.
pub open spec fn pixel_check_text(check: PixelCheck) -> Seq<char> {
    decimal_text(check.x as nat) + seq![','] + decimal_text(check.y as nat) + seq![',']
        + color_text(check.color) + seq![','] + decimal_text(check.tolerance as nat)
}

fn digit_str(d: u8) -> (r: &'static str)
    requires
        d < 16,
    ensures
        r@ == seq![hex_char(d as nat)],
        d < 10 ==> r@ == seq![digit_char(d as nat)],
{
    proof {
        reveal_strlit("0");
        reveal_strlit("1");
        reveal_strlit("2");
        reveal_strlit("3");
        reveal_strlit("4");
        reveal_strlit("5");
        reveal_strlit("6");
        reveal_strlit("7");
        reveal_strlit("8");
        reveal_strlit("9");
        reveal_strlit("A");
        reveal_strlit("B");
        reveal_strlit("C");
        reveal_strlit("D");
        reveal_strlit("E");
        reveal_strlit("F");
    }
    let r = match d {
        0 => "0",
        1 => "1",
        2 => "2",
        3 => "3",
        4 => "4",
        5 => "5",
        6 => "6",
        7 => "7",
        8 => "8",
        9 => "9",
        10 => "A",
        11 => "B",
        12 => "C",
        13 => "D",
        14 => "E",
        _ => "F",
    };
    assert(r@ =~= seq![hex_char(d as nat)]);
    r
}

fn append_decimal(out: &mut String, n: u32)
    ensures
        final(out)@ == old(out)@ + decimal_text(n as nat),
    decreases n,
{
    let ghost start = out@;
    if n >= 10 {
        append_decimal(out, n / 10);
    }
    let ghost before = out@;
    out.append(digit_str((n % 10) as u8));
    proof {
        if n >= 10 {
            assert(before + seq![digit_char((n % 10) as nat)] =~= start + decimal_text(
                (n / 10) as nat,
            ).push(digit_char((n % 10) as nat)));
        }
    }
}

fn append_byte(out: &mut String, b: u8)
    ensures
        final(out)@ == old(out)@ + byte_text(b),
{
    let ghost start = out@;
    out.append(digit_str(b / 16));
    out.append(digit_str(b % 16));
    assert(out@ =~= start + byte_text(b));
}

/// Writes an aspect ratio as `width:height`.
pub fn format_aspect_ratio(aspect_ratio: &[u32; 2]) -> (r: String)
    ensures
        r@ == aspect_ratio_text(aspect_ratio[0], aspect_ratio[1]),
{
    let mut out = String::new();
    append_decimal(&mut out, aspect_ratio[0]);
    proof {
        reveal_strlit(":");
        assert(":"@ =~= seq![':']);
    }
    out.append(":");
    append_decimal(&mut out, aspect_ratio[1]);
    assert(out@ =~= aspect_ratio_text(aspect_ratio[0], aspect_ratio[1]));
    out
}

fn append_color(out: &mut String, color: &Rgba8)
    ensures
        final(out)@ == old(out)@ + color_text(*color),
{
    let ghost start = out@;
    proof {
        reveal_strlit("#");
        assert("#"@ =~= seq!['#']);
    }
    out.append("#");
    append_byte(out, color.r);
    append_byte(out, color.g);
    append_byte(out, color.b);
    if color.a != 255 {
        append_byte(out, color.a);
    }
    assert(out@ =~= start + color_text(*color));
}

impl Rgba8 {
    /// Writes the colour as `#RRGGBB`, or as `#RRGGBBAA` where alpha is not
    /// full.
    pub fn to_hex(&self) -> (r: String)
        ensures
            r@ == color_text(*self),
    {
        let mut out = String::new();
        append_color(&mut out, self);
        assert(out@ =~= color_text(*self));
        out
    }
}

impl PixelCheck {
    /// Writes the probe as `x,y,#hexcolor,tolerance`.
    pub fn format(&self) -> (r: String)
        ensures
            r@ == pixel_check_text(*self),
    {
        proof {
            reveal_strlit(",");
            assert(","@ =~= seq![',']);
        }
        let mut out = String::new();
        append_decimal(&mut out, self.x);
        out.append(",");
        append_decimal(&mut out, self.y);
        out.append(",");
        append_color(&mut out, &self.color);
        out.append(",");
        append_decimal(&mut out, self.tolerance);
        assert(out@ =~= pixel_check_text(*self));
        out
    }
}

/// Whether `sep` does not occur in `s`.
pub open spec fn free_of(s: Seq<char>, sep: char) -> bool {
    forall|i: int| 0 <= i < s.len() ==> s[i] != sep
}

/// Whether `s` is one or more decimal digits.
pub open spec fn all_digits(s: Seq<char>) -> bool {
    s.len() > 0 && forall|i: int| 0 <= i < s.len() ==> is_digit(#[trigger] s[i])
}

/// Whether `s` is a `#` and upper-case hexadecimal digits after it.
pub open spec fn hash_and_digits(s: Seq<char>) -> bool {
    s.len() > 1 && s[0] == '#' && forall|i: int|
        1 <= i < s.len() ==> hex_value(#[trigger] s[i]) is Some
}

proof fn lemma_digit_char(d: nat)
    requires
        d < 10,
    ensures
        is_digit(digit_char(d)),
        digit_value(digit_char(d)) == d,
        hex_char(d) == digit_char(d),
{
}

proof fn lemma_hex_char(d: nat)
    requires
        d < 16,
    ensures
        hex_value(hex_char(d)) == Some(d as u8),
        !is_space(hex_char(d)),
        hex_char(d) != ',',
{
}

/// The decimal form of a number is digits, and they write that number.
pub proof fn lemma_decimal_text(n: nat)
    ensures
        all_digits(decimal_text(n)),
        digits_value(decimal_text(n)) == Some(n),
    decreases n,
{
    if n < 10 {
        lemma_digit_char(n);
        let t = decimal_text(n);
        assert(t.drop_last() =~= Seq::<char>::empty());
        assert(digits_value(t.drop_last()) == Some(0nat));
    } else {
        lemma_decimal_text(n / 10);
        lemma_digit_char(n % 10);
        let t = decimal_text(n);
        assert(t.drop_last() =~= decimal_text(n / 10));
        assert(t.last() == digit_char(n % 10));
        assert forall|i: int| 0 <= i < t.len() implies is_digit(#[trigger] t[i]) by {
            if i < t.len() - 1 {
                assert(t[i] == decimal_text(n / 10)[i]);
            }
        }
    }
}

proof fn lemma_trimmed_is_all(s: Seq<char>)
    requires
        s.len() > 0,
        !is_space(s[0]),
        !is_space(s.last()),
    ensures
        trimmed(s) == s,
{
}

proof fn lemma_split_without_separator(s: Seq<char>, sep: char)
    requires
        free_of(s, sep),
    ensures
        split_on(s, sep) == seq![s],
    decreases s.len(),
{
    if s.len() == 0 {
        assert(s =~= Seq::<char>::empty());
    } else {
        assert forall|i: int| 0 <= i < s.drop_last().len() implies s.drop_last()[i] != sep by {
            assert(s.drop_last()[i] == s[i]);
        }
        lemma_split_without_separator(s.drop_last(), sep);
        let before = split_on(s.drop_last(), sep);
        assert(s.last() != sep);
        assert(s.drop_last().push(s.last()) =~= s);
        assert(before.drop_last().push(before.last().push(s.last())) =~= seq![s]);
    }
}

proof fn lemma_split_after_separator(a: Seq<char>, b: Seq<char>, sep: char)
    requires
        free_of(b, sep),
    ensures
        split_on(a + seq![sep] + b, sep) == split_on(a, sep).push(b),
    decreases b.len(),
{
    let whole = a + seq![sep] + b;
    if b.len() == 0 {
        assert(whole.drop_last() =~= a);
        assert(b =~= Seq::<char>::empty());
    } else {
        lemma_split_after_separator(a, b.drop_last(), sep);
        assert(whole.drop_last() =~= a + seq![sep] + b.drop_last());
        assert(whole.last() == b.last());
        let before = split_on(whole.drop_last(), sep);
        assert(before.last() == b.drop_last());
        assert(before.drop_last() =~= split_on(a, sep));
        assert(b.drop_last().push(b.last()) =~= b);
    }
}

/// Reading the decimal form of a number of 32 bits gives the number back.
pub proof fn lemma_decimal_round_trip(n: u32)
    ensures
        parsed_u32(trimmed(decimal_text(n as nat))) == Some(n),
        free_of(decimal_text(n as nat), ':'),
        free_of(decimal_text(n as nat), ','),
{
    let t = decimal_text(n as nat);
    lemma_decimal_text(n as nat);
    assert(is_digit(t[0]));
    assert(is_digit(t.last()));
    lemma_trimmed_is_all(t);
    assert forall|i: int| 0 <= i < t.len() implies t[i] != ':' && t[i] != ',' by {
        assert(is_digit(t[i]));
    }
}

/// Reading the text of an aspect ratio gives the aspect ratio back.
pub proof fn lemma_aspect_ratio_round_trip(width: u32, height: u32)
    ensures
        parsed_aspect_ratio(aspect_ratio_text(width, height)) == Ok::<
            (u32, u32),
            ConfigTextError,
        >((width, height)),
{
    let w = decimal_text(width as nat);
    let h = decimal_text(height as nat);
    lemma_decimal_round_trip(width);
    lemma_decimal_round_trip(height);
    lemma_split_without_separator(w, ':');
    lemma_split_after_separator(w, h, ':');
    let parts = split_on(aspect_ratio_text(width, height), ':');
    assert(parts =~= seq![w, h]);
}

proof fn lemma_byte_text(b: u8)
    ensures
        hex_values(byte_text(b)) == Some(seq![b / 16, b % 16]),
        (b / 16) * 16 + b % 16 == b,
{
    lemma_hex_char((b / 16) as nat);
    lemma_hex_char((b % 16) as nat);
    let t = byte_text(b);
    assert(t.drop_last() =~= seq![hex_char((b / 16) as nat)]);
    assert(t.drop_last().drop_last() =~= Seq::<char>::empty());
    assert(hex_values(t.drop_last().drop_last()) == Some(Seq::<u8>::empty()));
    assert(hex_values(t.drop_last()) == Some(Seq::<u8>::empty().push(b / 16)));
    assert(Seq::<u8>::empty().push(b / 16).push(b % 16) =~= seq![b / 16, b % 16]);
}

proof fn lemma_hex_values_concat(a: Seq<char>, b: Seq<char>)
    requires
        hex_values(a) is Some,
        hex_values(b) is Some,
    ensures
        hex_values(a + b) == Some(hex_values(a)->0 + hex_values(b)->0),
    decreases b.len(),
{
    if b.len() == 0 {
        assert(a + b =~= a);
        assert(hex_values(a)->0 + hex_values(b)->0 =~= hex_values(a)->0);
    } else {
        lemma_hex_values_concat(a, b.drop_last());
        assert((a + b).drop_last() =~= a + b.drop_last());
        assert((a + b).last() == b.last());
        assert((hex_values(a)->0 + hex_values(b.drop_last())->0).push(hex_value(b.last())->0)
            =~= hex_values(a)->0 + hex_values(b)->0);
    }
}

/// Reading the text of a colour gives the colour back.
pub proof fn lemma_color_round_trip(color: Rgba8)
    ensures
        parsed_color(trimmed(color_text(color))) == Some(color),
        free_of(color_text(color), ','),
{
    let r = byte_text(color.r);
    let g = byte_text(color.g);
    let b = byte_text(color.b);
    let a = byte_text(color.a);
    lemma_byte_text(color.r);
    lemma_byte_text(color.g);
    lemma_byte_text(color.b);
    lemma_byte_text(color.a);
    lemma_hex_values_concat(r, g);
    lemma_hex_values_concat(r + g, b);
    lemma_hex_values_concat(r + g + b, a);
    lemma_hex_char((color.r / 16) as nat);
    lemma_hex_char((color.r % 16) as nat);
    lemma_hex_char((color.g / 16) as nat);
    lemma_hex_char((color.g % 16) as nat);
    lemma_hex_char((color.b / 16) as nat);
    lemma_hex_char((color.b % 16) as nat);
    lemma_hex_char((color.a / 16) as nat);
    lemma_hex_char((color.a % 16) as nat);
    let t = color_text(color);
    let digits = if color.a == 255 {
        r + g + b
    } else {
        r + g + b + a
    };
    assert(t =~= seq!['#'] + digits);
    assert(t.drop_first() =~= digits);
    assert(t[0] == '#');
    assert(!is_space(t.last()));
    lemma_trimmed_is_all(t);
    let values = hex_values(digits)->0;
    if color.a == 255 {
        assert(values =~= seq![
            color.r / 16,
            color.r % 16,
            color.g / 16,
            color.g % 16,
            color.b / 16,
            color.b % 16,
        ]);
    } else {
        assert(values =~= seq![
            color.r / 16,
            color.r % 16,
            color.g / 16,
            color.g % 16,
            color.b / 16,
            color.b % 16,
            color.a / 16,
            color.a % 16,
        ]);
    }
    assert forall|i: int| 0 <= i < t.len() implies t[i] != ',' by {
        if i > 0 {
            assert(t[i] == digits[i - 1]);
        }
    }
}

/// Reading the text of a colour probe gives the probe back.
pub proof fn lemma_pixel_check_round_trip(check: PixelCheck)
    ensures
        parsed_pixel_check(pixel_check_text(check)) == Ok::<PixelCheck, ConfigTextError>(check),
{
    let x = decimal_text(check.x as nat);
    let y = decimal_text(check.y as nat);
    let c = color_text(check.color);
    let t = decimal_text(check.tolerance as nat);
    lemma_decimal_round_trip(check.x);
    lemma_decimal_round_trip(check.y);
    lemma_color_round_trip(check.color);
    lemma_decimal_round_trip(check.tolerance);
    lemma_split_without_separator(x, ',');
    lemma_split_after_separator(x, y, ',');
    lemma_split_after_separator(x + seq![','] + y, c, ',');
    lemma_split_after_separator(x + seq![','] + y + seq![','] + c, t, ',');
    let parts = split_on(pixel_check_text(check), ',');
    assert(parts =~= seq![x, y, c, t]);
}

} // verus!

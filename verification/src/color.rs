//! RGB colors and their textual form `R:G:B`.

use vstd::prelude::*;
use vstd::utf8::encode_utf8;
use crate::error::ConfigError;

verus! {

/// An RGB color with 8-bit channels.
#[derive(Clone, Copy, Debug, PartialEq, Eq, Structural)]
pub struct Color {
    pub red: u8,
    pub green: u8,
    pub blue: u8,
}

impl Color {
    /// Channel `k` of the color: 0 is red, 1 is green, anything else blue.
    pub open spec fn channel(&self, k: int) -> u8 {
        if k == 0 {
            self.red
        } else if k == 1 {
            self.green
        } else {
            self.blue
        }
    }
}

/// The byte `:` that separates the channels of a color text.
pub const COLON: u8 = 0x3a;

/// The byte `+` that may precede the digits of a channel.
pub const PLUS: u8 = 0x2b;

/// The byte `0`.
pub const ZERO_DIGIT: u8 = 0x30;

/// The byte `9`.
pub const NINE_DIGIT: u8 = 0x39;

/// Whether `b` is an ASCII decimal digit.
pub open spec fn is_digit(b: u8) -> bool {
    ZERO_DIGIT <= b <= NINE_DIGIT
}

/// The number that a string of decimal digits denotes; leading zeros count
/// for nothing and the empty string denotes zero.
pub open spec fn decimal_value(digits: Seq<u8>) -> nat
    decreases digits.len(),
{
    if digits.len() == 0 {
        0
    } else {
        (10 * decimal_value(digits.drop_last()) + (digits.last() - ZERO_DIGIT)) as nat
    }
}

/// The digits of a channel field: the field without its optional leading `+`.
pub open spec fn channel_digits(field: Seq<u8>) -> Seq<u8> {
    if field.len() > 0 && field[0] == PLUS {
        field.skip(1)
    } else {
        field
    }
}

/// Whether a channel field is a decimal number: an optional `+` followed by
/// at least one digit and nothing else.
pub open spec fn is_decimal(field: Seq<u8>) -> bool {
    let digits = channel_digits(field);
    digits.len() > 0 && forall|i: int| 0 <= i < digits.len() ==> is_digit(#[trigger] digits[i])
}

/// What a channel field parses to.
pub open spec fn channel_of(field: Seq<u8>) -> Result<u8, ConfigError> {
    if !is_decimal(field) {
        Err(ConfigError::MalformedColor)
    } else if decimal_value(channel_digits(field)) > 255 {
        Err(ConfigError::ChannelOutOfRange)
    } else {
        Ok(decimal_value(channel_digits(field)) as u8)
    }
}

/// The position of the first colon in `text`, or `text.len()` if it has none.
pub open spec fn first_colon(text: Seq<u8>) -> int
    decreases text.len(),
{
    if text.len() == 0 || text[0] == COLON {
        0
    } else {
        1 + first_colon(text.skip(1))
    }
}

/// The fields of `text`: the stretches between its colons, in order. A text
/// with `n` colons has `n + 1` fields, some of which may be empty.
pub open spec fn fields_of(text: Seq<u8>) -> Seq<Seq<u8>>
    decreases text.len(),
{
    let k = first_colon(text);
    if 0 <= k < text.len() {
        seq![text.take(k)] + fields_of(text.skip(k + 1))
    } else {
        seq![text]
    }
}

/// What a color text parses to. The text must have exactly three fields,
/// each a decimal number, or it is malformed; a well-formed text with a
/// channel above 255 is out of range.
pub open spec fn color_of(text: Seq<u8>) -> Result<Color, ConfigError> {
    let fields = fields_of(text);
    if fields.len() != 3 {
        Err(ConfigError::MalformedColor)
    } else {
        match (channel_of(fields[0]), channel_of(fields[1]), channel_of(fields[2])) {
            (Ok(red), Ok(green), Ok(blue)) => Ok(Color { red, green, blue }),
            (Err(ConfigError::MalformedColor), _, _) => Err(ConfigError::MalformedColor),
            (_, Err(ConfigError::MalformedColor), _) => Err(ConfigError::MalformedColor),
            (_, _, Err(ConfigError::MalformedColor)) => Err(ConfigError::MalformedColor),
            _ => Err(ConfigError::ChannelOutOfRange),
        }
    }
}

/// What a color text parses to, the text taken as characters: what its
/// UTF-8 bytes parse to.
pub open spec fn color_of_text(text: Seq<char>) -> Result<Color, ConfigError> {
    color_of(encode_utf8(text))
}

/// A colon-free stretch of `text` that ends at a colon or at the end of the
/// text is where `first_colon` points.
proof fn lemma_first_colon(text: Seq<u8>, k: int)
    requires
        0 <= k <= text.len(),
        forall|j: int| 0 <= j < k ==> text[j] != COLON,
        k < text.len() ==> text[k] == COLON,
    ensures
        first_colon(text) == k,
    decreases k,
{
    if k > 0 {
        let rest = text.skip(1);
        assert forall|j: int| 0 <= j < k - 1 implies rest[j] != COLON by {
            assert(rest[j] == text[j + 1]);
        }
        lemma_first_colon(rest, k - 1);
    }
}

/// Every text has at least one field.
proof fn lemma_fields_nonempty(text: Seq<u8>)
    ensures
        fields_of(text).len() >= 1,
    decreases text.len(),
{
    let k = first_colon(text);
    if 0 <= k < text.len() {
        lemma_fields_nonempty(text.skip(k + 1));
    }
}

/// Finds the first colon of `text` at or after `from`; the result is
/// `text.len()` if there is none.
fn find_colon(text: &[u8], from: usize) -> (k: usize)
    requires
        from <= text@.len(),
    ensures
        from <= k <= text@.len(),
        k - from == first_colon(text@.skip(from as int)),
{
    let mut k: usize = from;
    while k < text.len() && text[k] != COLON
        invariant
            from <= k <= text@.len(),
            forall|j: int| from <= j < k ==> text@[j] != COLON,
        decreases text@.len() - k,
    {
        k += 1;
    }
    proof {
        lemma_first_colon(text@.skip(from as int), k - from);
    }
    k
}

/// Parses the channel field `text[from..to]`.
fn parse_channel(text: &[u8], from: usize, to: usize) -> (r: Result<u8, ConfigError>)
    requires
        from <= to <= text@.len(),
    ensures
        r == channel_of(text@.subrange(from as int, to as int)),
{
    let ghost field = text@.subrange(from as int, to as int);
    let start: usize = if from < to && text[from] == PLUS {
        from + 1
    } else {
        from
    };
    let ghost digits = text@.subrange(start as int, to as int);
    assert(digits =~= channel_digits(field));
    if start == to {
        return Err(ConfigError::MalformedColor);
    }
    let mut value: u16 = 0;
    let mut over: bool = false;
    let mut i: usize = start;
    while i < to
        invariant
            start <= i <= to <= text@.len(),
            digits == text@.subrange(start as int, to as int),
            digits == channel_digits(text@.subrange(from as int, to as int)),
            forall|j: int| 0 <= j < i - start ==> is_digit(#[trigger] digits[j]),
            !over ==> value == decimal_value(digits.take(i - start)) && value <= 255,
            over ==> decimal_value(digits.take(i - start)) > 255,
        decreases to - i,
    {
        let b: u8 = text[i];
        if b < ZERO_DIGIT || b > NINE_DIGIT {
            assert(!is_digit(digits[i - start]));
            return Err(ConfigError::MalformedColor);
        }
        proof {
            let longer = digits.take(i - start + 1);
            assert(longer.drop_last() =~= digits.take(i - start));
            assert(longer.last() == b);
        }
        if !over {
            value = 10 * value + (b - ZERO_DIGIT) as u16;
            if value > 255 {
                over = true;
            }
        }
        i += 1;
    }
    assert(digits.take(to - start) =~= digits);
    if over {
        Err(ConfigError::ChannelOutOfRange)
    } else {
        Ok(value as u8)
    }
}

impl Color {
    /// Parses a color from the bytes of its text `R:G:B`.
    pub fn parse_bytes(text: &[u8]) -> (r: Result<Color, ConfigError>)
        ensures
            r == color_of(text@),
    {
        let n: usize = text.len();
        let ghost whole = text@;
        assert(whole.skip(0) =~= whole);
        let k0: usize = find_colon(text, 0);
        if k0 == n {
            return Err(ConfigError::MalformedColor);
        }
        let ghost rest1 = whole.skip(k0 + 1);
        let k1: usize = find_colon(text, k0 + 1);
        if k1 == n {
            assert(fields_of(rest1) =~= seq![rest1]);
            return Err(ConfigError::MalformedColor);
        }
        let ghost rest2 = whole.skip(k1 + 1);
        assert(rest1.skip(k1 - k0 - 1 + 1) =~= rest2);
        let k2: usize = find_colon(text, k1 + 1);
        if k2 < n {
            proof {
                lemma_fields_nonempty(rest2.skip(k2 - k1 - 1 + 1));
                assert(fields_of(rest2).len() >= 2);
                assert(fields_of(rest1).len() >= 3);
                assert(fields_of(whole).len() >= 4);
            }
            return Err(ConfigError::MalformedColor);
        }
        proof {
            assert(fields_of(rest2) =~= seq![rest2]);
            assert(fields_of(rest1) =~= seq![rest1.take(k1 - k0 - 1), rest2]);
            assert(fields_of(whole) =~= seq![
                whole.take(k0 as int),
                rest1.take(k1 - k0 - 1),
                rest2,
            ]);
            assert(whole.take(k0 as int) =~= whole.subrange(0, k0 as int));
            assert(rest1.take(k1 - k0 - 1) =~= whole.subrange(k0 + 1, k1 as int));
            assert(rest2 =~= whole.subrange(k1 + 1, n as int));
        }
        let red = parse_channel(text, 0, k0);
        let green = parse_channel(text, k0 + 1, k1);
        let blue = parse_channel(text, k1 + 1, n);
        match (red, green, blue) {
            (Ok(red), Ok(green), Ok(blue)) => Ok(Color { red, green, blue }),
            (Err(ConfigError::MalformedColor), _, _) => Err(ConfigError::MalformedColor),
            (_, Err(ConfigError::MalformedColor), _) => Err(ConfigError::MalformedColor),
            (_, _, Err(ConfigError::MalformedColor)) => Err(ConfigError::MalformedColor),
            _ => Err(ConfigError::ChannelOutOfRange),
        }
    }

    /// Parses a color from its text `R:G:B`.
    pub fn parse(text: &str) -> (r: Result<Color, ConfigError>)
        ensures
            r == color_of_text(text@),
    {
        Color::parse_bytes(text.as_bytes())
    }
}

/// Parses a list of color texts, in order, stopping at the first text that
/// is not a color and reporting why it is not.
pub fn parse_colors(texts: &Vec<String>) -> (r: Result<Vec<Color>, ConfigError>)
    ensures
        match r {
            Ok(colors) => {
                &&& colors@.len() == texts@.len()
                &&& forall|i: int|
                    0 <= i < texts@.len() ==> color_of_text(#[trigger] texts@[i]@) == Ok::<
                        Color,
                        ConfigError,
                    >(colors@[i])
            },
            Err(e) => exists|i: int|
                {
                    &&& 0 <= i < texts@.len()
                    &&& color_of_text(#[trigger] texts@[i]@) == Err::<Color, ConfigError>(e)
                    &&& forall|j: int| 0 <= j < i ==> color_of_text(#[trigger] texts@[j]@) is Ok
                },
        },
{
    let mut colors: Vec<Color> = Vec::new();
    let mut i: usize = 0;
    while i < texts.len()
        invariant
            0 <= i <= texts@.len(),
            colors@.len() == i,
            forall|j: int|
                0 <= j < i ==> color_of_text(#[trigger] texts@[j]@) == Ok::<Color, ConfigError>(
                    colors@[j],
                ),
        decreases texts@.len() - i,
    {
        match Color::parse(texts[i].as_str()) {
            Ok(color) => {
                colors.push(color);
            },
            Err(e) => {
                return Err(e);
            },
        }
        i += 1;
    }
    Ok(colors)
}

} // verus!

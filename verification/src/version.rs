use vstd::prelude::*;
use crate::text::chars_of;

verus! {

/// A version number of four segments, as written in `a.b.c.d`.
#[derive(Clone, Copy, Debug, PartialEq, Eq, Structural)]
pub struct VersionSpec {
    pub first: u32,
    pub second: u32,
    pub third: u32,
    pub fourth: u32,
}

/// Why a text is not a version number.
#[derive(Clone, Copy, Debug, PartialEq, Eq, Structural)]
pub enum VersionFormatError {
    /// The text does not consist of exactly four dot-separated segments.
    SegmentCount { found: usize },
    /// The segment at `index` (counted from zero) is not a decimal number
    /// that fits in 32 bits; every segment before it is.
    NonNumericSegment { index: usize },
}

/// The segments of `text` between its dots. A text without a dot is one
/// segment; two adjacent dots enclose an empty segment.
pub open spec fn split_on_dots(text: Seq<char>) -> Seq<Seq<char>>
    decreases text.len(),
{
    if text.len() == 0 {
        seq![Seq::<char>::empty()]
    } else {
        let before = split_on_dots(text.drop_last());
        if text.last() == '.' {
            before.push(Seq::<char>::empty())
        } else {
            before.drop_last().push(before.last().push(text.last()))
        }
    }
}

/// The texts that a vector of character vectors holds.
pub open spec fn texts_of(segments: Seq<Vec<char>>) -> Seq<Seq<char>> {
    Seq::new(segments.len(), |i: int| segments[i]@)
}

pub open spec fn is_decimal_digit(c: char) -> bool {
    '0' <= c && c <= '9'
}

pub open spec fn all_decimal_digits(digits: Seq<char>) -> bool {
    forall|i: int| 0 <= i < digits.len() ==> is_decimal_digit(#[trigger] digits[i])
}

/// The number that a sequence of decimal digits denotes, most significant
/// digit first. The empty sequence denotes zero.
pub open spec fn decimal_value(digits: Seq<char>) -> nat
    decreases digits.len(),
{
    if digits.len() == 0 {
        0
    } else {
        (10 * decimal_value(digits.drop_last()) + (digits.last() as int - '0' as int)) as nat
    }
}

/// A segment without the plus sign that may lead it.
pub open spec fn unsigned_part(segment: Seq<char>) -> Seq<char> {
    if segment.len() > 0 && segment[0] == '+' {
        segment.skip(1)
    } else {
        segment
    }
}

/// The value of a segment: one or more decimal digits, after an optional
/// plus sign, that denote a number of at most 32 bits. Anything else has no
/// value.
pub open spec fn segment_value(segment: Seq<char>) -> Option<u32> {
    let digits = unsigned_part(segment);
    if digits.len() > 0 && all_decimal_digits(digits) && decimal_value(digits) <= u32::MAX {
        Some(decimal_value(digits) as u32)
    } else {
        None
    }
}

/// What `text` reads as: the version whose four segments are the values of the
/// four dot-separated parts, or the first reason why there is none. The number
/// of parts is judged before any part is.
pub open spec fn parsed_version(text: Seq<char>) -> Result<VersionSpec, VersionFormatError> {
    let parts = split_on_dots(text);
    if parts.len() != 4 {
        Err(VersionFormatError::SegmentCount { found: parts.len() as usize })
    } else if segment_value(parts[0]) is None {
        Err(VersionFormatError::NonNumericSegment { index: 0 })
    } else if segment_value(parts[1]) is None {
        Err(VersionFormatError::NonNumericSegment { index: 1 })
    } else if segment_value(parts[2]) is None {
        Err(VersionFormatError::NonNumericSegment { index: 2 })
    } else if segment_value(parts[3]) is None {
        Err(VersionFormatError::NonNumericSegment { index: 3 })
    } else {
        Ok(
            VersionSpec {
                first: segment_value(parts[0])->0,
                second: segment_value(parts[1])->0,
                third: segment_value(parts[2])->0,
                fourth: segment_value(parts[3])->0,
            },
        )
    }
}

/// A digit sequence denotes at least what any of its prefixes denotes.
proof fn lemma_decimal_value_grows(digits: Seq<char>, k: int)
    requires
        all_decimal_digits(digits),
        0 <= k <= digits.len(),
    ensures
        decimal_value(digits.take(k)) <= decimal_value(digits),
    decreases digits.len() - k,
{
    if k == digits.len() {
        assert(digits.take(k) =~= digits);
    } else {
        lemma_decimal_value_grows(digits, k + 1);
        let longer = digits.take(k + 1);
        assert(longer.drop_last() =~= digits.take(k));
        assert(is_decimal_digit(digits[k]));
        assert(longer.last() == digits[k]);
    }
}

/// Splits `text` at its dots.
pub fn split_segments(text: &str) -> (segments: Vec<Vec<char>>)
    ensures
        texts_of(segments@) == split_on_dots(text@),
{
    let chars = chars_of(text);
    let mut done: Vec<Vec<char>> = Vec::new();
    let mut current: Vec<char> = Vec::new();
    let mut i: usize = 0;
    while i < chars.len()
        invariant
            i <= chars.len(),
            texts_of(done@).push(current@) == split_on_dots(chars@.take(i as int)),
        decreases chars.len() - i,
    {
        let c = chars[i];
        let ghost seen = chars@.take(i as int);
        let ghost next = chars@.take(i + 1);
        assert(next.drop_last() =~= seen);
        assert(next.last() == c);
        let ghost done_before = texts_of(done@);
        if c == '.' {
            done.push(current);
            assert(texts_of(done@) =~= done_before.push(current@));
            current = Vec::new();
        } else {
            let ghost current_before = current@;
            current.push(c);
            assert(done_before.push(current_before).drop_last() =~= done_before);
        }
        i += 1;
    }
    assert(chars@.take(i as int) =~= chars@);
    let ghost done_before = texts_of(done@);
    done.push(current);
    assert(texts_of(done@) =~= done_before.push(current@));
    done
}

/// Reads one segment of a version number.
pub fn parse_segment(segment: &Vec<char>) -> (value: Option<u32>)
    ensures
        value == segment_value(segment@),
{
    let n = segment.len();
    let start: usize = if n > 0 && segment[0] == '+' {
        1
    } else {
        0
    };
    if start == n {
        return None;
    }
    let ghost digits = unsigned_part(segment@);
    assert(digits =~= segment@.skip(start as int));
    let mut value: u32 = 0;
    let mut i: usize = start;
    while i < n
        invariant
            start <= i <= n,
            n == segment.len(),
            digits == unsigned_part(segment@),
            digits == segment@.skip(start as int),
            all_decimal_digits(digits.take(i - start)),
            value == decimal_value(digits.take(i - start)),
        decreases n - i,
    {
        let c = segment[i];
        assert(c == digits[i - start]);
        if !('0' <= c && c <= '9') {
            assert(!is_decimal_digit(digits[i - start]));
            return None;
        }
        let ghost seen = digits.take(i - start);
        let ghost next = digits.take(i - start + 1);
        assert(next.drop_last() =~= seen);
        assert(next.last() == c);
        assert(all_decimal_digits(next)) by {
            assert forall|k: int| 0 <= k < next.len() implies is_decimal_digit(#[trigger] next[k]) by {
                if k < seen.len() {
                    assert(next[k] == seen[k]);
                }
            }
        }
        let digit: u32 = (c as u32) - ('0' as u32);
        assert(decimal_value(next) == 10 * value + digit);
        let grown: Option<u32> = match value.checked_mul(10) {
            Some(tens) => tens.checked_add(digit),
            None => None,
        };
        match grown {
            Some(v) => {
                value = v;
            },
            None => {
                proof {
                    if all_decimal_digits(digits) {
                        lemma_decimal_value_grows(digits, i - start + 1);
                    }
                }
                return None;
            },
        }
        i += 1;
    }
    assert(digits.take(i - start) =~= digits);
    Some(value)
}

/// Reads a version number of the form `a.b.c.d`.
pub fn parse_version(text: &str) -> (parsed: Result<VersionSpec, VersionFormatError>)
    ensures
        parsed == parsed_version(text@),
{
    let segments = split_segments(text);
    if segments.len() != 4 {
        return Err(VersionFormatError::SegmentCount { found: segments.len() });
    }
    let ghost parts = split_on_dots(text@);
    assert(forall|i: int| 0 <= i < 4 ==> #[trigger] parts[i] == segments[i]@);
    let first = match parse_segment(&segments[0]) {
        Some(value) => value,
        None => {
            return Err(VersionFormatError::NonNumericSegment { index: 0 });
        },
    };
    let second = match parse_segment(&segments[1]) {
        Some(value) => value,
        None => {
            return Err(VersionFormatError::NonNumericSegment { index: 1 });
        },
    };
    let third = match parse_segment(&segments[2]) {
        Some(value) => value,
        None => {
            return Err(VersionFormatError::NonNumericSegment { index: 2 });
        },
    };
    let fourth = match parse_segment(&segments[3]) {
        Some(value) => value,
        None => {
            return Err(VersionFormatError::NonNumericSegment { index: 3 });
        },
    };
    Ok(VersionSpec { first, second, third, fourth })
}

/// The lower-case hexadecimal digit for a value below sixteen.
pub open spec fn hex_digit(value: nat) -> char {
    if value < 10 {
        ('0' as nat + value) as char
    } else {
        ('a' as nat + value - 10) as char
    }
}

/// `value` in hexadecimal, most significant digit first, with as many digits
/// as it needs and at least one.
pub open spec fn hex_text(value: nat) -> Seq<char>
    decreases value,
{
    if value < 16 {
        seq![hex_digit(value)]
    } else {
        hex_text(value / 16).push(hex_digit(value % 16))
    }
}

/// `value` in hexadecimal, with a leading zero where one digit would do.
pub open spec fn hex_text_padded(value: nat) -> Seq<char> {
    if value < 16 {
        seq!['0', hex_digit(value)]
    } else {
        hex_text(value)
    }
}

pub open spec fn is_hex_digit(c: char) -> bool {
    ('0' <= c && c <= '9') || ('a' <= c && c <= 'f')
}

pub open spec fn is_hex_text(text: Seq<char>) -> bool {
    forall|i: int| 0 <= i < text.len() ==> is_hex_digit(#[trigger] text[i])
}

/// The value below sixteen that a lower-case hexadecimal digit denotes.
pub open spec fn hex_digit_value(c: char) -> nat
    recommends
        is_hex_digit(c),
{
    if c <= '9' {
        (c as int - '0' as int) as nat
    } else {
        (c as int - 'a' as int + 10) as nat
    }
}

/// Byte `i` of a hexadecimal text read two digits at a time from the left:
/// digits `2i` and `2i + 1` as one number, or digit `2i` alone where the text
/// ends after it.
pub open spec fn packed_byte(text: Seq<char>, i: int) -> u8
    recommends
        is_hex_text(text),
        0 <= 2 * i < text.len(),
{
    if 2 * i + 1 < text.len() {
        (16 * hex_digit_value(text[2 * i]) + hex_digit_value(text[2 * i + 1])) as u8
    } else {
        hex_digit_value(text[2 * i]) as u8
    }
}

/// The bytes of a hexadecimal text read two digits at a time from the left.
/// A text of odd length ends in a byte of its last digit alone.
pub open spec fn packed_bytes(text: Seq<char>) -> Seq<u8>
    recommends
        is_hex_text(text),
{
    Seq::new(((text.len() + 1) / 2) as nat, |i: int| packed_byte(text, i))
}

/// The byte sequence that stands in for a text that is no version number.
pub open spec fn fallback_bytes() -> Seq<u8> {
    seq![18u8, 5u8, 0u8, 100u8]
}

impl VersionSpec {
    /// The hexadecimal text of the version: the digit `6`, the first segment
    /// in as many digits as it needs, and each later segment in two digits
    /// or more.
    pub open spec fn hex_string(self) -> Seq<char> {
        seq!['6'] + hex_text(self.first as nat) + hex_text_padded(self.second as nat)
            + hex_text_padded(self.third as nat) + hex_text_padded(self.fourth as nat)
    }

    /// The bytes of the version: its hexadecimal text packed two digits to a
    /// byte, last byte first.
    pub open spec fn encoded(self) -> Seq<u8> {
        packed_bytes(self.hex_string()).reverse()
    }
}

/// The bytes that `text` encodes to: those of the version it reads as, or the
/// fallback where it reads as none.
pub open spec fn encoded_text(text: Seq<char>) -> Seq<u8> {
    match parsed_version(text) {
        Ok(version) => version.encoded(),
        Err(_) => fallback_bytes(),
    }
}

proof fn lemma_hex_digit_is_hex(value: nat)
    requires
        value < 16,
    ensures
        is_hex_digit(hex_digit(value)),
        hex_digit_value(hex_digit(value)) == value,
{
}

proof fn lemma_hex_text_is_hex(value: nat)
    ensures
        is_hex_text(hex_text(value)),
        hex_text(value).len() >= 1,
    decreases value,
{
    if value < 16 {
        lemma_hex_digit_is_hex(value);
    } else {
        lemma_hex_text_is_hex(value / 16);
        lemma_hex_digit_is_hex(value % 16);
    }
}

fn hex_digit_of(value: u32) -> (c: char)
    requires
        value < 16,
    ensures
        c == hex_digit(value as nat),
{
    match value {
        0 => '0',
        1 => '1',
        2 => '2',
        3 => '3',
        4 => '4',
        5 => '5',
        6 => '6',
        7 => '7',
        8 => '8',
        9 => '9',
        10 => 'a',
        11 => 'b',
        12 => 'c',
        13 => 'd',
        14 => 'e',
        _ => 'f',
    }
}

fn push_hex(out: &mut Vec<char>, value: u32)
    requires
        is_hex_text(old(out)@),
    ensures
        final(out)@ == old(out)@ + hex_text(value as nat),
        is_hex_text(final(out)@),
    decreases value,
{
    proof {
        lemma_hex_text_is_hex(value as nat);
    }
    if value >= 16 {
        push_hex(out, value / 16);
    }
    out.push(hex_digit_of(value % 16));
    assert(out@ =~= old(out)@ + hex_text(value as nat));
}

fn push_hex_padded(out: &mut Vec<char>, value: u32)
    requires
        is_hex_text(old(out)@),
    ensures
        final(out)@ == old(out)@ + hex_text_padded(value as nat),
        is_hex_text(final(out)@),
{
    if value < 16 {
        out.push('0');
    }
    push_hex(out, value);
    assert(out@ =~= old(out)@ + hex_text_padded(value as nat));
}

fn hex_value_of(c: char) -> (value: u8)
    requires
        is_hex_digit(c),
    ensures
        value == hex_digit_value(c),
        value < 16,
{
    if c <= '9' {
        ((c as u32) - ('0' as u32)) as u8
    } else {
        ((c as u32) - ('a' as u32) + 10) as u8
    }
}

/// Reads a text of lower-case hexadecimal digits two digits at a time.
pub fn pack_hex(text: &Vec<char>) -> (bytes: Vec<u8>)
    requires
        is_hex_text(text@),
    ensures
        bytes@ == packed_bytes(text@),
{
    let n = text.len();
    let count = n / 2 + n % 2;
    let mut bytes: Vec<u8> = Vec::new();
    let mut k: usize = 0;
    while k < count
        invariant
            n == text.len(),
            count == (n + 1) / 2,
            is_hex_text(text@),
            k <= count,
            bytes.len() == k,
            forall|j: int| 0 <= j < bytes.len() ==> bytes[j] == packed_byte(text@, j),
        decreases count - k,
    {
        let at = 2 * k;
        let high = hex_value_of(text[at]);
        let byte: u8 = if n - at > 1 {
            high * 16 + hex_value_of(text[at + 1])
        } else {
            high
        };
        bytes.push(byte);
        k += 1;
    }
    assert(bytes@ =~= packed_bytes(text@));
    bytes
}

/// The elements of `bytes`, last first.
pub fn reversed(bytes: &Vec<u8>) -> (out: Vec<u8>)
    ensures
        out@ == bytes@.reverse(),
{
    let mut out: Vec<u8> = Vec::new();
    let mut i: usize = bytes.len();
    while i > 0
        invariant
            i <= bytes.len(),
            out.len() == bytes.len() - i,
            forall|k: int| 0 <= k < out.len() ==> out[k] == bytes[bytes.len() - 1 - k],
        decreases i,
    {
        i -= 1;
        out.push(bytes[i]);
    }
    assert(out@ =~= bytes@.reverse());
    out
}

/// Builds the fallback byte sequence.
pub fn fallback() -> (bytes: Vec<u8>)
    ensures
        bytes@ == fallback_bytes(),
{
    let mut bytes: Vec<u8> = Vec::new();
    bytes.push(18);
    bytes.push(5);
    bytes.push(0);
    bytes.push(100);
    assert(bytes@ =~= fallback_bytes());
    bytes
}

impl VersionSpec {
    /// Writes the version as hexadecimal text.
    pub fn hex_digits(&self) -> (digits: Vec<char>)
        ensures
            digits@ == self.hex_string(),
            is_hex_text(digits@),
    {
        let mut digits: Vec<char> = Vec::new();
        digits.push('6');
        push_hex(&mut digits, self.first);
        push_hex_padded(&mut digits, self.second);
        push_hex_padded(&mut digits, self.third);
        push_hex_padded(&mut digits, self.fourth);
        assert(digits@ =~= self.hex_string());
        digits
    }

    /// Encodes the version as the bytes to write.
    pub fn to_bytes(&self) -> (bytes: Vec<u8>)
        ensures
            bytes@ == self.encoded(),
    {
        let digits = self.hex_digits();
        let packed = pack_hex(&digits);
        reversed(&packed)
    }
}

/// Why `text` encodes to the fallback bytes, if it does.
pub open spec fn fallback_reason(text: Seq<char>) -> Option<VersionFormatError> {
    match parsed_version(text) {
        Ok(_) => None,
        Err(reason) => Some(reason),
    }
}

/// Encodes a version text as the bytes to write, and says why where the
/// bytes are the fallback because the text is no version number.
pub fn encode_checked(version: &str) -> (result: (Vec<u8>, Option<VersionFormatError>))
    ensures
        result.0@ == encoded_text(version@),
        result.1 == fallback_reason(version@),
{
    match parse_version(version) {
        Ok(parsed) => (parsed.to_bytes(), None),
        Err(reason) => (fallback(), Some(reason)),
    }
}

/// Encodes a version text as the bytes to write. A text that is no version
/// number gives the fallback bytes.
pub fn encode(version: &str) -> (bytes: Vec<u8>)
    ensures
        bytes@ == encoded_text(version@),
{
    encode_checked(version).0
}

/// How many hexadecimal digits a number needs: one below 16, two below 256,
/// three below 4096, and more from there on.
pub proof fn lemma_hex_text_len(value: nat)
    ensures
        hex_text(value).len() >= 1,
        hex_text(value).len() == 1 <==> value < 16,
        hex_text(value).len() == 2 <==> 16 <= value < 256,
        hex_text(value).len() == 3 <==> 256 <= value < 4096,
    decreases value,
{
    if value >= 16 {
        lemma_hex_text_len(value / 16);
    }
}

/// A version encodes to half as many bytes as its hexadecimal text has
/// digits, rounded up, and never to fewer than four.
pub proof fn lemma_encoded_len(version: VersionSpec)
    ensures
        version.encoded().len() == (version.hex_string().len() + 1) / 2,
        version.hex_string().len() == 1 + hex_text(version.first as nat).len() + hex_text_padded(
            version.second as nat,
        ).len() + hex_text_padded(version.third as nat).len() + hex_text_padded(
            version.fourth as nat,
        ).len(),
        version.encoded().len() >= 4,
{
    lemma_hex_text_len(version.first as nat);
    lemma_hex_text_len(version.second as nat);
    lemma_hex_text_len(version.third as nat);
    lemma_hex_text_len(version.fourth as nat);
}

/// The encoding of a version is four bytes long exactly when its first
/// segment is below 16, provided that no later segment needs a third
/// hexadecimal digit while the first needs only one. A first segment of two
/// or three digits, before later segments of two, gives five bytes.
pub proof fn lemma_encoded_len_tracks_first_segment(version: VersionSpec)
    requires
        version.first >= 16 || (version.second < 256 && version.third < 256 && version.fourth
            < 256),
    ensures
        version.encoded().len() == 4 <==> version.first < 16,
        16 <= version.first < 4096 && version.second < 256 && version.third < 256
            && version.fourth < 256 ==> version.encoded().len() == 5,
{
    lemma_encoded_len(version);
    lemma_hex_text_len(version.first as nat);
    lemma_hex_text_len(version.second as nat);
    lemma_hex_text_len(version.third as nat);
    lemma_hex_text_len(version.fourth as nat);
}

/// What a text encodes to is four bytes long exactly when the text is no
/// version number or its first segment is below 16, under the same proviso
/// on the later segments.
pub proof fn lemma_encoded_text_len(text: Seq<char>)
    requires
        parsed_version(text) matches Ok(version) ==> version.first >= 16 || (version.second < 256
            && version.third < 256 && version.fourth < 256),
    ensures
        encoded_text(text).len() == 4 <==> (parsed_version(text) matches Ok(version)
            ==> version.first < 16),
{
    match parsed_version(text) {
        Ok(version) => {
            lemma_encoded_len_tracks_first_segment(version);
        },
        Err(_) => {},
    }
}

/// The text that parts make when a dot is put between each two neighbours.
pub open spec fn joined_with_dots(parts: Seq<Seq<char>>) -> Seq<char>
    decreases parts.len(),
{
    if parts.len() == 0 {
        Seq::<char>::empty()
    } else if parts.len() == 1 {
        parts[0]
    } else {
        joined_with_dots(parts.drop_last()) + seq!['.'] + parts.last()
    }
}

/// The segments of a text hold no dot, and with the dots put back between
/// them they make the text again. There is always at least one segment.
pub proof fn lemma_split_on_dots(text: Seq<char>)
    ensures
        split_on_dots(text).len() >= 1,
        forall|i: int, k: int|
            0 <= i < split_on_dots(text).len() && 0 <= k < split_on_dots(text)[i].len()
                ==> #[trigger] split_on_dots(text)[i][k] != '.',
        joined_with_dots(split_on_dots(text)) == text,
    decreases text.len(),
{
    let parts = split_on_dots(text);
    if text.len() == 0 {
        assert(joined_with_dots(parts) =~= text);
    } else {
        let before = split_on_dots(text.drop_last());
        lemma_split_on_dots(text.drop_last());
        if text.last() == '.' {
            assert(parts.drop_last() =~= before);
            assert(joined_with_dots(parts) =~= text);
        } else {
            assert(parts.last() == before.last().push(text.last()));
            if before.len() == 1 {
                assert(joined_with_dots(parts) =~= text);
            } else {
                assert(parts.drop_last() =~= before.drop_last());
                assert(joined_with_dots(parts) =~= joined_with_dots(before).push(text.last()));
                assert(joined_with_dots(parts) =~= text);
            }
        }
    }
}

/// The number that a text of hexadecimal digits denotes, most significant
/// digit first.
pub open spec fn hex_number(text: Seq<char>) -> nat
    decreases text.len(),
{
    if text.len() == 0 {
        0
    } else {
        16 * hex_number(text.drop_last()) + hex_digit_value(text.last())
    }
}

/// The hexadecimal text of a number denotes that number, in lower-case
/// digits and without a leading zero but for zero itself.
pub proof fn lemma_hex_text_denotes(value: nat)
    ensures
        is_hex_text(hex_text(value)),
        hex_number(hex_text(value)) == value,
        value > 0 ==> hex_text(value)[0] != '0',
    decreases value,
{
    lemma_hex_text_is_hex(value);
    if value < 16 {
        lemma_hex_digit_is_hex(value);
        assert(hex_text(value).drop_last() =~= Seq::<char>::empty());
        assert(hex_number(Seq::<char>::empty()) == 0);
        assert(hex_text(value).last() == hex_digit(value));
    } else {
        lemma_hex_text_denotes(value / 16);
        lemma_hex_digit_is_hex(value % 16);
        assert(hex_text(value).drop_last() =~= hex_text(value / 16));
        assert(hex_text(value).last() == hex_digit(value % 16));
        assert(hex_text(value)[0] == hex_text(value / 16)[0]);
    }
}

} // verus!

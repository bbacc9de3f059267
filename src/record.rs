use vstd::prelude::*;
use vstd::string::StringExecFns;
use crate::crc32::crc32_ieee;
use crate::text::{
    all_hex_digits, chars_of, hex_digits_of, hex_of, hex_val, hex_value, is_hex_digit, is_space,
    is_word, lemma_hex_of, lemma_hex_value_append, lemma_hex_value_bound, lemma_pow16_positive,
    lemma_tokens_space_then, lemma_tokens_word_then, next_token, parse_hex, parse_hex_range,
    pow16, push_char, push_hex, tokens,
};

verus! {

/// The mathematical content of a record: the path text and the checksum.
pub struct RecordView {
    pub path: Seq<char>,
    pub checksum: u32,
}

/// A path and the CRC-32 checksum claimed for the file's contents.
#[derive(Debug)]
pub struct SfvRecord {
    path: String,
    checksum: u32,
}

/// Why a manifest line is not a record.
#[derive(Debug, Clone, Copy, PartialEq, Eq, Structural)]
pub enum ParseSfvRecordError {
    MissingFilePath,
    MissingChecksum,
    InvalidChecksum,
    TooLong,
}

/// A data line: exactly two whitespace-separated tokens, the path and a
/// hexadecimal checksum.
pub open spec fn parse_record(line: Seq<char>) -> Result<RecordView, ParseSfvRecordError> {
    let t = tokens(line);
    if t.len() == 0 {
        Err(ParseSfvRecordError::MissingFilePath)
    } else if t.len() == 1 {
        Err(ParseSfvRecordError::MissingChecksum)
    } else if t.len() > 2 {
        Err(ParseSfvRecordError::TooLong)
    } else {
        match parse_hex(t[1]) {
            None => Err(ParseSfvRecordError::InvalidChecksum),
            Some(c) => Ok(RecordView { path: t[0], checksum: c }),
        }
    }
}

/// `<path> <checksum in lowercase hex>` and a newline.
pub open spec fn record_line(r: RecordView) -> Seq<char> {
    r.path + seq![' '] + hex_of(r.checksum as nat) + seq!['\n']
}

/// The check of a record against what reading its file gave: `None` when the
/// file could not be opened or read, else the checksum of its contents.
pub open spec fn checksum_matches(r: RecordView, found: Option<u32>) -> bool {
    found == Some(r.checksum)
}

impl View for SfvRecord {
    type V = RecordView;

    closed spec fn view(&self) -> RecordView {
        RecordView { path: self.path@, checksum: self.checksum }
    }
}

fn string_of_range(chars: &Vec<char>, b: usize, e: usize) -> (r: String)
    requires
        b <= e <= chars.len(),
    ensures
        r@ == chars@.subrange(b as int, e as int),
{
    let mut r = String::new();
    let mut i = b;
    while i < e
        invariant
            b <= i <= e <= chars.len(),
            r@ == chars@.subrange(b as int, i as int),
        decreases e - i,
    {
        push_char(&mut r, chars[i]);
        i = i + 1;
        assert(r@ =~= chars@.subrange(b as int, i as int));
    }
    r
}

impl SfvRecord {
    /// A record claiming `checksum` for the file at `path`.
    pub fn new(path: String, checksum: u32) -> (r: SfvRecord)
        ensures
            r@ == (RecordView { path: path@, checksum }),
    {
        SfvRecord { path, checksum }
    }

    pub fn path(&self) -> (r: &str)
        ensures
            r@ == self@.path,
    {
        self.path.as_str()
    }

    pub fn checksum(&self) -> (r: u32)
        ensures
            r == self@.checksum,
    {
        self.checksum
    }

    /// Appends the record's manifest line to `out`.
    pub fn write(&self, out: &mut String)
        ensures
            final(out)@ == old(out)@ + record_line(self@),
    {
        out.append(self.path.as_str());
        push_char(out, ' ');
        push_hex(out, self.checksum);
        push_char(out, '\n');
        assert(final(out)@ =~= old(out)@ + record_line(self@));
    }

    /// Whether the file still has the recorded checksum. `found` is what
    /// reading the file gave: `None` when it could not be opened or read.
    pub fn validate(&self, found: Option<u32>) -> (r: bool)
        ensures
            r == checksum_matches(self@, found),
    {
        match found {
            Some(c) => c == self.checksum,
            None => false,
        }
    }

    /// Parses one data line of a manifest.
    pub fn parse(line: &str) -> (r: Result<SfvRecord, ParseSfvRecordError>)
        ensures
            match r {
                Ok(x) => parse_record(line@) == Ok::<RecordView, ParseSfvRecordError>(x@),
                Err(e) => parse_record(line@) == Err::<RecordView, ParseSfvRecordError>(e),
            },
    {
        let chars = chars_of(line);
        assert(chars@.skip(0) =~= line@);
        match next_token(&chars, 0) {
            None => Err(ParseSfvRecordError::MissingFilePath),
            Some((b0, e0)) => match next_token(&chars, e0) {
                None => Err(ParseSfvRecordError::MissingChecksum),
                Some((b1, e1)) => {
                    let ghost t = tokens(line@);
                    assert(t[0] == chars@.subrange(b0 as int, e0 as int));
                    assert(t[1] == chars@.subrange(b1 as int, e1 as int));
                    match next_token(&chars, e1) {
                        Some(_) => {
                            assert(t.len() > 2);
                            Err(ParseSfvRecordError::TooLong)
                        },
                        None => {
                            assert(t.len() == 2);
                            match parse_hex_range(&chars, b1, e1) {
                                None => Err(ParseSfvRecordError::InvalidChecksum),
                                Some(c) => {
                                    let path = string_of_range(&chars, b0, e0);
                                    Ok(SfvRecord { path, checksum: c })
                                },
                            }
                        },
                    }
                },
            },
        }
    }
}

impl std::str::FromStr for SfvRecord {
    type Err = ParseSfvRecordError;

    fn from_str(s: &str) -> (r: Result<SfvRecord, ParseSfvRecordError>)
        ensures
            match r {
                Ok(x) => parse_record(s@) == Ok::<RecordView, ParseSfvRecordError>(x@),
                Err(e) => parse_record(s@) == Err::<RecordView, ParseSfvRecordError>(e),
            },
    {
        SfvRecord::parse(s)
    }
}

proof fn lemma_tokens_of_spaces(s: Seq<char>)
    requires
        forall|i: int| 0 <= i < s.len() ==> is_space(#[trigger] s[i]),
    ensures
        tokens(s).len() == 0,
    decreases s.len(),
{
    if s.len() > 0 {
        lemma_tokens_of_spaces(s.drop_first());
    }
}

/// Two words separated by a space, then only spaces, make exactly two tokens.
proof fn lemma_tokens_pair(a: Seq<char>, b: Seq<char>, tail: Seq<char>)
    requires
        is_word(a),
        is_word(b),
        forall|i: int| 0 <= i < tail.len() ==> is_space(#[trigger] tail[i]),
    ensures
        tokens(a + seq![' '] + b + tail) == seq![a, b],
{
    let rest = seq![' '] + (b + tail);
    assert(a + seq![' '] + b + tail =~= a + rest);
    lemma_tokens_word_then(a, rest);
    lemma_tokens_space_then(' ', b + tail);
    lemma_tokens_word_then(b, tail);
    lemma_tokens_of_spaces(tail);
    assert(seq![a] + (seq![b] + tokens(tail)) =~= seq![a, b]);
}

/// A lowercase digit string of at most eight digits reads back as a checksum.
proof fn lemma_parse_digits(h: Seq<char>)
    requires
        h.len() > 0,
        h.len() <= 8,
        all_hex_digits(h),
    ensures
        parse_hex(h) == Some(hex_value(h) as u32),
{
    assert(is_hex_digit(h[0]));
    assert(hex_digits_of(h) == h);
    lemma_hex_value_bound(h);
    lemma_pow16_monotonic(h.len(), 8);
    assert(pow16(8) == 4294967296) by {
        reveal_with_fuel(pow16, 9);
    }
}

proof fn lemma_pow16_monotonic(a: nat, b: nat)
    requires
        a <= b,
    ensures
        pow16(a) <= pow16(b),
    decreases b,
{
    if a < b {
        lemma_pow16_monotonic(a, (b - 1) as nat);
    }
}

/// Serialising a record and parsing the line gives the record back, for every
/// path that is a single token (a path with whitespace cannot be represented).
pub proof fn lemma_round_trip(r: RecordView)
    requires
        is_word(r.path),
    ensures
        parse_record(record_line(r)) == Ok::<RecordView, ParseSfvRecordError>(r),
{
    let h = hex_of(r.checksum as nat);
    lemma_hex_of(r.checksum as nat);
    assert(pow16(8) == 4294967296) by {
        reveal_with_fuel(pow16, 9);
    }
    lemma_tokens_pair(r.path, h, seq!['\n']);
    lemma_parse_digits(h);
}

/// Digit strings whose digits have the same values, case aside, have the same value.
proof fn lemma_hex_value_ignores_case(a: Seq<char>, b: Seq<char>)
    requires
        a.len() == b.len(),
        forall|i: int| 0 <= i < a.len() ==> hex_val(#[trigger] a[i]) == hex_val(b[i]),
    ensures
        hex_value(a) == hex_value(b),
    decreases a.len(),
{
    if a.len() > 0 {
        lemma_hex_value_ignores_case(a.drop_last(), b.drop_last());
    }
}

proof fn lemma_hex_value_single(c: char)
    ensures
        hex_value(seq![c]) == hex_val(c),
{
    let s = seq![c];
    assert(s.drop_last() =~= Seq::<char>::empty());
    assert(s.last() == c);
    assert(hex_value(s) == hex_value(s.drop_last()) * 16 + hex_val(s.last()));
    assert(hex_value(Seq::<char>::empty()) == 0);
}

/// Changing digit `j` changes the value by the digit difference times its weight.
proof fn lemma_hex_value_update(a: Seq<char>, j: int, d: char)
    requires
        0 <= j < a.len(),
    ensures
        hex_value(a.update(j, d)) + hex_val(a[j]) * pow16((a.len() - j - 1) as nat)
            == hex_value(a) + hex_val(d) * pow16((a.len() - j - 1) as nat),
{
    let pre = a.take(j);
    let post = a.skip(j + 1);
    let b = a.update(j, d);
    assert(a =~= pre + (seq![a[j]] + post));
    assert(b =~= pre + (seq![d] + post));
    lemma_hex_value_append(pre, seq![a[j]] + post);
    lemma_hex_value_append(pre, seq![d] + post);
    lemma_hex_value_append(seq![a[j]], post);
    lemma_hex_value_append(seq![d], post);
    lemma_hex_value_single(a[j]);
    lemma_hex_value_single(d);
}

/// A manifest line that carries the checksum of a file's contents, with its
/// digits in either case, passes the check against those contents; changing
/// any one digit to a digit of another value makes the line fail the check.
pub proof fn lemma_validation_detects_digit_change(
    path: Seq<char>,
    contents: Seq<u8>,
    digits: Seq<char>,
    j: int,
    d: char,
)
    requires
        is_word(path),
        digits.len() == hex_of(crc32_ieee(0, contents) as nat).len(),
        all_hex_digits(digits),
        forall|i: int|
            0 <= i < digits.len() ==> hex_val(#[trigger] digits[i]) == hex_val(
                hex_of(crc32_ieee(0, contents) as nat)[i],
            ),
        0 <= j < digits.len(),
        is_hex_digit(d),
        hex_val(d) != hex_val(digits[j]),
    ensures
        parse_record(path + seq![' '] + digits) is Ok,
        checksum_matches(
            parse_record(path + seq![' '] + digits)->Ok_0,
            Some(crc32_ieee(0, contents)),
        ),
        parse_record(path + seq![' '] + digits.update(j, d)) is Ok,
        !checksum_matches(
            parse_record(path + seq![' '] + digits.update(j, d))->Ok_0,
            Some(crc32_ieee(0, contents)),
        ),
{
    let c = crc32_ieee(0, contents);
    let h = hex_of(c as nat);
    let flipped = digits.update(j, d);
    lemma_hex_of(c as nat);
    assert(pow16(8) == 4294967296) by {
        reveal_with_fuel(pow16, 9);
    }
    assert(is_word(digits)) by {
        assert forall|i: int| 0 <= i < digits.len() implies !is_space(#[trigger] digits[i]) by {
            assert(is_hex_digit(digits[i]));
        }
    }
    assert(all_hex_digits(flipped)) by {
        assert forall|i: int| 0 <= i < flipped.len() implies is_hex_digit(#[trigger] flipped[i]) by {
            if i != j {
                assert(flipped[i] == digits[i]);
            }
        }
    }
    assert(is_word(flipped)) by {
        assert forall|i: int| 0 <= i < flipped.len() implies !is_space(#[trigger] flipped[i]) by {
            assert(is_hex_digit(flipped[i]));
        }
    }
    lemma_tokens_pair(path, digits, Seq::empty());
    lemma_tokens_pair(path, flipped, Seq::empty());
    assert(path + seq![' '] + digits + Seq::<char>::empty() =~= path + seq![' '] + digits);
    assert(path + seq![' '] + flipped + Seq::<char>::empty() =~= path + seq![' '] + flipped);
    lemma_parse_digits(digits);
    lemma_parse_digits(flipped);
    lemma_hex_value_ignores_case(digits, h);
    lemma_hex_value_update(digits, j, d);
    lemma_hex_value_bound(flipped);
    lemma_pow16_monotonic(flipped.len(), 8);
    let k = (digits.len() - j - 1) as nat;
    lemma_pow16_positive(k);
    let p = pow16(k);
    let x = hex_val(digits[j]);
    let y = hex_val(d);
    assert(x * p != y * p) by (nonlinear_arith)
        requires
            x != y,
            p >= 1,
    ;
}

} // verus!

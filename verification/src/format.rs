//! Identifiers shown for diagnostics: the payload in hexadecimal, and seven lines
//! that give both forms of the identifier and its parts.

use crate::alphabet::{hex_text, HEX_DIGITS};
use crate::bytes::{word_bytes, ByteOrder};
use crate::epoch::EPOCH_SECONDS;
use crate::ksuid::{lemma_network_bytes, Ksuid};
use crate::numerals::{encoded, lemma_encoded_digits, write_numeral};
use crate::radix::{lemma_fixed_numeral, numeral};
use vstd::prelude::*;
use vstd::slice::slice_subrange;
use vstd::string::StringExecFns;

verus! {

/// The date and time that lie `unix_seconds` after the start of 1970 (UTC), as RFC
/// 2822 writes them: `Tue, 1 Jul 2003 10:52:37 +0000`.
pub uninterp spec fn rfc2822(unix_seconds: int) -> Seq<char>;

/// `chrono::DateTime::to_rfc2822`, on the instant of UTC that lies `seconds` after
/// the start of 1970. The result depends on `seconds` alone. (The call panics for
/// years before 0 or after 9999, which the bounds leave out.)
#[verifier::external_body]
fn rfc2822_text(seconds: i64) -> (text: String)
    requires
        0 <= seconds <= 253_402_300_799,
    ensures
        text@ == rfc2822(seconds as int),
{
    chrono::DateTime::from_timestamp(seconds, 0).unwrap().to_rfc2822()
}

/// The number `n` in decimal digits; zero is `0`.
pub open spec fn decimal_text(n: nat) -> Seq<char> {
    let digits = if n == 0 {
        seq![0u8]
    } else {
        numeral(n, 10)
    };
    Seq::new(digits.len(), |i: int| (digits[i] + 48) as char)
}

/// The lines, each followed by a line feed, one after the other.
pub open spec fn joined(lines: Seq<Seq<char>>) -> Seq<char>
    decreases lines.len(),
{
    if lines.len() == 0 {
        Seq::empty()
    } else {
        joined(lines.drop_last()) + lines.last() + seq!['\n']
    }
}

/// The character of one decimal digit, as a text.
fn decimal_digit(d: u8) -> (text: &'static str)
    requires
        d < 10,
    ensures
        text@ == seq![(d + 48) as char],
{
    proof {
        reveal_strlit("0");
        reveal_strlit("1");
        reveal_strlit("2");
        reveal_strlit("3");
        reveal_strlit("4");
        reveal_strlit("5");
        reveal_strlit("6");
        reveal_strlit("7");
        reveal_strlit("8");
        reveal_strlit("9");
    }
    match d {
        0 => "0",
        1 => "1",
        2 => "2",
        3 => "3",
        4 => "4",
        5 => "5",
        6 => "6",
        7 => "7",
        8 => "8",
        _ => "9",
    }
}

/// The number `n` in decimal digits.
pub fn decimal(n: u32) -> (text: String)
    ensures
        text@ == decimal_text(n as nat),
{
    if n == 0 {
        return String::from_str(decimal_digit(0));
    }
    let mut low_first: Vec<u8> = Vec::new();
    let mut rest: u32 = n;
    while rest > 0
        invariant
            numeral(n as nat, 10) == numeral(rest as nat, 10) + low_first@.reverse(),
            forall|i: int| 0 <= i < low_first@.len() ==> low_first@[i] < 10,
        decreases rest,
    {
        // The digit that is cut off the number goes to the front of the row.
        low_first.push((rest % 10) as u8);
        rest = rest / 10;
    }
    let ghost digits = low_first@.reverse();
    let mut text = String::new();
    let mut left: usize = low_first.len();
    while left > 0
        invariant
            left <= low_first@.len(),
            digits == low_first@.reverse(),
            forall|i: int| 0 <= i < low_first@.len() ==> low_first@[i] < 10,
            text@ == Seq::new(
                (low_first@.len() - left) as nat,
                |i: int| (digits[i] + 48) as char,
            ),
        decreases left,
    {
        left = left - 1;
        text.append(decimal_digit(low_first[left]));
    }
    text
}

impl Ksuid {
    /// The payload in upper-case hexadecimal: a `0` for each zero byte at its left
    /// end, then the digits of the number, at least one.
    pub open spec fn payload_text(self) -> Seq<char> {
        hex_text(encoded(word_bytes(self.payload as nat, 16, ByteOrder::Big), 16))
    }

    /// The first 16 of the identifier's 20 bytes in upper-case hexadecimal, written
    /// as the payload is.
    pub open spec fn raw_text(self) -> Seq<char> {
        hex_text(encoded(self.bytes_in(ByteOrder::Big).take(16), 16))
    }

    /// The seven lines that show the identifier, with `time` for its time.
    pub open spec fn formatted_lines(self, time: Seq<char>) -> Seq<Seq<char>> {
        seq![
            "REPRESENTATION:"@,
            "\tString: "@ + self.text(),
            "\tRaw: "@ + self.raw_text(),
            "COMPONENTS:"@,
            "\tTime: "@ + time,
            "\tTimestamp: "@ + decimal_text(self.timestamp as nat),
            "\tPayload: "@ + self.payload_text(),
        ]
    }

    /// The payload in upper-case hexadecimal.
    pub fn get_payload(&self) -> (text: String)
        ensures
            text@ == self.payload_text(),
    {
        let bytes = self.payload_network_bytes();
        proof {
            lemma_fixed_numeral(self.payload as nat, 256, 16);
            lemma_encoded_digits(bytes@, 16);
        }
        match write_numeral(bytes.as_slice(), 16, HEX_DIGITS.as_slice()) {
            Some(text) => text,
            // Never taken: the table has a character for every digit.
            None => String::new(),
        }
    }

    /// The first 16 of the identifier's 20 bytes in upper-case hexadecimal.
    fn get_raw(&self) -> (text: String)
        ensures
            text@ == self.raw_text(),
    {
        let bytes = self.get_network_bytes();
        proof {
            lemma_network_bytes(*self);
        }
        let first = slice_subrange(bytes.as_slice(), 0, 16);
        proof {
            assert(first@ =~= bytes@.take(16));
            lemma_encoded_digits(first@, 16);
        }
        match write_numeral(first, 16, HEX_DIGITS.as_slice()) {
            Some(text) => text,
            // Never taken: the table has a character for every digit.
            None => String::new(),
        }
    }

    /// The seven lines that show the identifier, with `time` for its time.
    pub fn formatted_lines_with(&self, time: &str) -> (lines: [String; 7])
        ensures
            forall|i: int| 0 <= i < 7 ==> (#[trigger] lines[i])@ == self.formatted_lines(time@)[i],
    {
        let heading = String::from_str("REPRESENTATION:");
        let mut string = String::from_str("\tString: ");
        string.append(self.serialize().as_str());
        let mut raw = String::from_str("\tRaw: ");
        raw.append(self.get_raw().as_str());
        let components = String::from_str("COMPONENTS:");
        let mut shown_time = String::from_str("\tTime: ");
        shown_time.append(time);
        let mut timestamp = String::from_str("\tTimestamp: ");
        timestamp.append(decimal(self.timestamp).as_str());
        let mut payload = String::from_str("\tPayload: ");
        payload.append(self.get_payload().as_str());
        [heading, string, raw, components, shown_time, timestamp, payload]
    }

    /// The seven lines that show the identifier: its text form and its bytes, then
    /// its time as RFC 2822 writes it, its timestamp, and its payload.
    pub fn get_formatted_lines(&self) -> (lines: [String; 7])
        ensures
            forall|i: int| 0 <= i < 7 ==> (#[trigger] lines[i])@ == self.formatted_lines(
                rfc2822(EPOCH_SECONDS + self.timestamp),
            )[i],
    {
        let time = rfc2822_text(self.get_time().seconds);
        self.formatted_lines_with(time.as_str())
    }

    /// The seven lines that show the identifier, with `time` for its time, as one
    /// text in which a line feed ends each line.
    pub fn formatted_with(&self, time: &str) -> (text: String)
        ensures
            text@ == joined(self.formatted_lines(time@)),
    {
        let lines = self.formatted_lines_with(time);
        let ghost want = self.formatted_lines(time@);
        let mut text = String::new();
        let mut at: usize = 0;
        proof {
            reveal_strlit("\n");
        }
        while at < 7
            invariant
                at <= 7,
                want.len() == 7,
                "\n"@ == seq!['\n'],
                forall|i: int| 0 <= i < 7 ==> (#[trigger] lines[i])@ == want[i],
                text@ == joined(want.take(at as int)),
            decreases 7 - at,
        {
            proof {
                assert(want.take(at + 1).drop_last() =~= want.take(at as int));
            }
            text.append(lines[at].as_str());
            text.append("\n");
            at = at + 1;
        }
        assert(want.take(7) =~= want);
        text
    }

    /// The seven lines of `get_formatted_lines` as one text in which a line feed
    /// ends each line.
    pub fn get_formatted(&self) -> (text: String)
        ensures
            text@ == joined(self.formatted_lines(rfc2822(EPOCH_SECONDS + self.timestamp))),
    {
        let time = rfc2822_text(self.get_time().seconds);
        self.formatted_with(time.as_str())
    }
}

} // verus!

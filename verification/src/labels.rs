use vstd::prelude::*;

use crate::error::ParseError;
use crate::header::{be_u32_of, magic_of, read_header_part, LABEL_FILE_MAGICNUMBER};

verus! {

/// Loads the header and parses the main content of a label file.
#[derive(Debug, Default)]
pub struct LabelReader {
    label_count: usize,
}

/// The declared label count of a label stream: its second big-endian field.
pub open spec fn label_count_of(s: Seq<u8>) -> u32
    recommends
        s.len() >= 8,
{
    be_u32_of(s.subrange(4, 8))
}

/// What a label decode yields on any stream: a truncation failure under 4
/// bytes, a wrong-magic failure unless the stream opens with the label
/// magic number, a truncation failure under the full 8-byte header, and
/// otherwise every payload byte, verbatim and in order. The declared label
/// count is never checked against the payload length.
pub open spec fn label_parse_spec(s: Seq<u8>) -> Result<Seq<u8>, ParseError> {
    if s.len() < 4 {
        Err(ParseError::TruncatedInput)
    } else if magic_of(s) != LABEL_FILE_MAGICNUMBER {
        Err(ParseError::WrongMagic)
    } else if s.len() < 8 {
        Err(ParseError::TruncatedInput)
    } else {
        Ok(s.skip(8))
    }
}

/// What a strict label decode yields: as the plain decode, except that a
/// payload whose length differs from the declared label count is a length
/// mismatch failure.
pub open spec fn label_parse_strict_spec(s: Seq<u8>) -> Result<Seq<u8>, ParseError> {
    match label_parse_spec(s) {
        Ok(labels) => if labels.len() == label_count_of(s) {
            Ok(labels)
        } else {
            Err(ParseError::LengthMismatch)
        },
        Err(e) => Err(e),
    }
}

impl LabelReader {
    /// Loads the header fields that follow the magic number: the one
    /// dimension field at `pos`, the declared label count.
    fn load(input: &[u8], pos: usize) -> (r: Result<LabelReader, ParseError>)
        ensures
            pos + 4 <= input@.len() ==> (r matches Ok(h) && h.label_count == be_u32_of(
                input@.subrange(pos as int, pos + 4),
            ) as usize),
            pos + 4 > input@.len() ==> r == Err::<LabelReader, ParseError>(
                ParseError::TruncatedInput,
            ),
    {
        let label_count = match read_header_part(input, pos) {
            Ok(v) => v as usize,
            Err(e) => {
                return Err(e);
            },
        };
        Ok(LabelReader { label_count })
    }

    /// Decodes a label file: checks the magic number, loads the header, and
    /// returns the remaining bytes verbatim as the label sequence. The
    /// declared count only pre-sizes the buffer; the payload decides the
    /// result.
    pub fn parse(input: &[u8]) -> (r: Result<Vec<u8>, ParseError>)
        ensures
            match r {
                Ok(labels) => label_parse_spec(input@) == Ok::<Seq<u8>, ParseError>(labels@),
                Err(e) => label_parse_spec(input@) == Err::<Seq<u8>, ParseError>(e),
            },
    {
        let magic_number = match read_header_part(input, 0) {
            Ok(v) => v,
            Err(e) => {
                return Err(e);
            },
        };
        if magic_number != LABEL_FILE_MAGICNUMBER {
            return Err(ParseError::WrongMagic);
        }
        let header = match Self::load(input, 4) {
            Ok(h) => h,
            Err(e) => {
                return Err(e);
            },
        };

        let mut buf: Vec<u8> = Vec::with_capacity(header.label_count);
        let mut i: usize = 8;
        while i < input.len()
            invariant
                8 <= i <= input@.len(),
                buf@ == input@.subrange(8, i as int),
            decreases input@.len() - i,
        {
            buf.push(input[i]);
            proof {
                assert(input@.subrange(8, i + 1) =~= input@.subrange(8, i as int).push(
                    input@[i as int],
                ));
            }
            i = i + 1;
        }
        proof {
            assert(buf@ =~= input@.skip(8));
        }
        Ok(buf)
    }

    /// Decodes a label file in strict-validation mode: as `parse`, except
    /// that a payload whose length is not exactly the declared label count
    /// fails with a length mismatch instead of being returned as it is.
    pub fn parse_strict(input: &[u8]) -> (r: Result<Vec<u8>, ParseError>)
        ensures
            match r {
                Ok(labels) => label_parse_strict_spec(input@) == Ok::<Seq<u8>, ParseError>(
                    labels@,
                ),
                Err(e) => label_parse_strict_spec(input@) == Err::<Seq<u8>, ParseError>(e),
            },
    {
        let labels = match Self::parse(input) {
            Ok(l) => l,
            Err(e) => {
                return Err(e);
            },
        };
        let declared = match read_header_part(input, 4) {
            Ok(v) => v as usize,
            Err(e) => {
                return Err(e);
            },
        };
        if labels.len() == declared {
            Ok(labels)
        } else {
            Err(ParseError::LengthMismatch)
        }
    }
}

/// Law: a valid label stream decodes to its payload verbatim — the result
/// has one entry per payload byte, equal to that byte, in file order.
pub proof fn lemma_label_payload_verbatim(s: Seq<u8>)
    requires
        s.len() >= 8,
        magic_of(s) == LABEL_FILE_MAGICNUMBER,
    ensures
        label_parse_spec(s) matches Ok(labels) && labels.len() == s.len() - 8 && (forall|i: int|
            0 <= i < s.len() - 8 ==> #[trigger] labels[i] == s[8 + i]),
{
}

/// Law: a stream that does not open with the label magic number is
/// rejected as the wrong file kind whenever the magic field itself is
/// complete — whatever the bytes beyond that field hold.
pub proof fn lemma_label_wrong_magic_rejected(s: Seq<u8>)
    requires
        s.len() >= 4,
        magic_of(s) != LABEL_FILE_MAGICNUMBER,
    ensures
        label_parse_spec(s) == Err::<Seq<u8>, ParseError>(ParseError::WrongMagic),
{
}

/// Law: a stream shorter than 4 bytes, or one with the right magic number
/// but shorter than the full 8-byte header, is rejected as truncated —
/// never answered with a partial header.
pub proof fn lemma_label_truncation_rejected(s: Seq<u8>)
    requires
        s.len() < 4 || (magic_of(s) == LABEL_FILE_MAGICNUMBER && s.len() < 8),
    ensures
        label_parse_spec(s) == Err::<Seq<u8>, ParseError>(ParseError::TruncatedInput),
{
}

/// Law: a label decode is a function of the input bytes alone — any two
/// results its contract admits for the same stream are equal.
pub proof fn lemma_label_parse_deterministic(
    s: Seq<u8>,
    r1: Result<Seq<u8>, ParseError>,
    r2: Result<Seq<u8>, ParseError>,
)
    requires
        r1 == label_parse_spec(s),
        r2 == label_parse_spec(s),
    ensures
        r1 == r2,
{
}

} // verus!

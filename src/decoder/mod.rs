//! Decoding of wire-format messages.

use vstd::prelude::*;

use crate::common::header::{extract_header_bits_from_buffer, Header};
use crate::common::opt_record::{OptRecord, OptView};
use crate::common::question::{Question, QuestionView};
use crate::common::resource_record::{RecordView, ResourceRecord};
use crate::common::{opt_view, questions_view, records_view, Message, MessageView};
use crate::utils::be16;

use self::header::header_of;
use self::opt_record::opt_of;
use self::question::question_at;
use self::resource_record::record_at;

pub mod domain_name;
pub mod header;
pub mod opt_record;
pub mod question;
pub mod resource_record;

verus! {

/// Why an OPT record was refused.
#[derive(Debug, PartialEq, Eq, Structural, Clone, Copy)]
pub enum OptRecordFault {
    /// The owner name is not the root.
    NonRootOwner,
    /// The fixed fields or the RDATA run past the end of the message.
    Truncated,
    /// An option header is cut short or an option overruns the RDATA.
    MalformedOption,
}

#[derive(Debug, PartialEq, Eq, Structural, Clone, Copy)]
pub enum DecodingError {
    InvalidHeaderSize,
    InvalidHeaderQueryType(u8),
    InvalidHeaderResponseCode(u8),
    InvalidResourceRecordType(u16),
    InvalidResourceRecordClass(u16),
    InvalidQuestionType(u16),
    InvalidQuestionClass(u16),
    /// A bad compression pointer, a label too long, a pointer loop or a name
    /// running past the end of the message.
    InvalidName,
    InvalidOptRecord(OptRecordFault),
    MultipleOptRecords,
    ResourceDataLengthMismatch { expected: usize, actual: usize },
    /// A fixed-size field runs past the end of the message.
    UnexpectedEndOfBuffer,
}

/// `buffer` is the tail of `source`.
pub open spec fn is_suffix(buffer: Seq<u8>, source: Seq<u8>) -> bool {
    &&& buffer.len() <= source.len()
    &&& source.subrange(source.len() - buffer.len(), source.len() as int) == buffer
}

/// Where the tail `buffer` starts in `source`.
pub open spec fn offset_in(buffer: Seq<u8>, source: Seq<u8>) -> int {
    source.len() - buffer.len()
}

pub trait Decoder {
    /// What `decode` returns for a buffer.
    spec fn decoding(&self, buffer: Seq<u8>) -> Result<MessageView, DecodingError>;

    fn decode(&self, buffer: &[u8]) -> (r: Result<Message, DecodingError>)
        ensures
            decoded_view(r) == self.decoding(buffer@),
            r matches Ok(m) ==> m.wf(),
    ;
}

pub struct MessageDecoder {}

/// What a decoding result stands for.
pub open spec fn decoded_view(r: Result<Message, DecodingError>) -> Result<MessageView, DecodingError> {
    match r {
        Ok(m) => Ok(m@),
        Err(e) => Err(e),
    }
}

/// `n` questions one after the other from `pos`, and where they end.
pub open spec fn questions_at(src: Seq<u8>, pos: int, n: nat) -> Result<
    (Seq<QuestionView>, int),
    DecodingError,
>
    decreases n,
{
    if n == 0 {
        Ok((Seq::empty(), pos))
    } else {
        match question_at(src, pos) {
            Err(e) => Err(e),
            Ok((q, next)) => match questions_at(src, next, (n - 1) as nat) {
                Err(e) => Err(e),
                Ok((rest, end)) => Ok((seq![q] + rest, end)),
            },
        }
    }
}

/// `n` resource records one after the other from `pos`, and where they end.
pub open spec fn records_at(src: Seq<u8>, pos: int, n: nat) -> Result<
    (Seq<RecordView>, int),
    DecodingError,
>
    decreases n,
{
    if n == 0 {
        Ok((Seq::empty(), pos))
    } else {
        match record_at(src, pos) {
            Err(e) => Err(e),
            Ok((r, next)) => match records_at(src, next, (n - 1) as nat) {
                Err(e) => Err(e),
                Ok((rest, end)) => Ok((seq![r] + rest, end)),
            },
        }
    }
}

/// Where the owner name that starts at `i` ends, read without following
/// pointers.
pub open spec fn skip_name(b: Seq<u8>, i: int) -> Option<int>
    decreases b.len() - i,
{
    if i < 0 || i >= b.len() {
        None
    } else if b[i] == 0 {
        Some(i + 1)
    } else if b[i] >= 192 {
        Some(i + 2)
    } else if i + 1 + b[i] >= b.len() {
        None
    } else {
        skip_name(b, i + 1 + b[i])
    }
}

/// The TYPE field of the record at the start of `b`.
pub open spec fn peek_type(b: Seq<u8>) -> Option<u16> {
    match skip_name(b, 0) {
        Some(q) => if q + 2 <= b.len() {
            Some(be16(b[q], b[q + 1]) as u16)
        } else {
            None
        },
        None => None,
    }
}

/// The additional record at `pos` is an OPT record.
pub open spec fn is_opt_at(src: Seq<u8>, pos: int) -> bool {
    peek_type(src.subrange(pos, src.len() as int)) == Some(41u16)
}

/// The OPT record at `pos`, and where it ends.
pub open spec fn opt_at(src: Seq<u8>, pos: int) -> Result<(OptView, int), DecodingError> {
    match opt_of(src.subrange(pos, src.len() as int)) {
        Ok((o, end)) => Ok((o, pos + end)),
        Err(e) => Err(e),
    }
}

/// `n` additional entries from `pos`, `opt` being the OPT record met so far:
/// the regular records, the OPT record, and where they end.
pub open spec fn additionals_at(src: Seq<u8>, pos: int, n: nat, opt: Option<OptView>) -> Result<
    (Seq<RecordView>, Option<OptView>, int),
    DecodingError,
>
    decreases n,
{
    if n == 0 {
        Ok((Seq::empty(), opt, pos))
    } else if is_opt_at(src, pos) {
        if opt is Some {
            Err(DecodingError::MultipleOptRecords)
        } else {
            match opt_at(src, pos) {
                Err(e) => Err(e),
                Ok((o, next)) => additionals_at(src, next, (n - 1) as nat, Some(o)),
            }
        }
    } else {
        match record_at(src, pos) {
            Err(e) => Err(e),
            Ok((r, next)) => match additionals_at(src, next, (n - 1) as nat, opt) {
                Err(e) => Err(e),
                Ok((rest, o, end)) => Ok((seq![r] + rest, o, end)),
            },
        }
    }
}

/// The message that a buffer holds, or why it holds none. Bytes after the
/// last section are ignored.
#[verifier::opaque]
pub open spec fn message_of(src: Seq<u8>) -> Result<MessageView, DecodingError> {
    if src.len() < 12 {
        Err(DecodingError::InvalidHeaderSize)
    } else {
        match header_of(src.subrange(0, 12)) {
            Err(e) => Err(e),
            Ok(h) => match questions_at(src, 12, h.questions_count as nat) {
                Err(e) => Err(e),
                Ok((questions, after_questions)) => match records_at(
                    src,
                    after_questions,
                    h.answers_count as nat,
                ) {
                    Err(e) => Err(e),
                    Ok((answers, after_answers)) => match records_at(
                        src,
                        after_answers,
                        h.authority_count as nat,
                    ) {
                        Err(e) => Err(e),
                        Ok((authorities, after_authorities)) => match additionals_at(
                            src,
                            after_authorities,
                            h.additional_count as nat,
                            None,
                        ) {
                            Err(e) => Err(e),
                            Ok((additionals, opt, _)) => Ok(
                                MessageView { header: h, questions, answers, authorities, additionals, opt },
                            ),
                        },
                    },
                },
            },
        }
    }
}

fn decode_questions<'a>(buffer: &'a [u8], source: &'a [u8], count: u16) -> (r: Result<
    (Vec<Question>, &'a [u8]),
    DecodingError,
>)
    requires
        is_suffix(buffer@, source@),
    ensures
        match questions_at(source@, offset_in(buffer@, source@), count as nat) {
            Ok((qs, end)) => offset_in(buffer@, source@) <= end <= source@.len() && (r matches Ok((questions, rest))
                && questions_view(questions@) == qs
                && questions@.len() == count && rest@ == source@.subrange(end, source@.len() as int)
                && is_suffix(rest@, source@)),
            Err(e) => r matches Err(x) && x == e,
        },
{
    let ghost all = questions_at(source@, offset_in(buffer@, source@), count as nat);
    let mut questions: Vec<Question> = Vec::new();
    let mut rest = buffer;
    let mut i: u16 = 0;
    while i < count
        invariant
            is_suffix(rest@, source@),
            offset_in(buffer@, source@) <= offset_in(rest@, source@),
            i <= count,
            questions@.len() == i,
            all == questions_at(source@, offset_in(buffer@, source@), count as nat),
            all == match questions_at(source@, offset_in(rest@, source@), (count - i) as nat) {
                Ok((more, end)) => Ok((questions_view(questions@) + more, end)),
                Err(e) => Err(e),
            },
        decreases count - i,
    {
        assert(questions_at(source@, offset_in(rest@, source@), (count - i) as nat) == match question_at(
            source@,
            offset_in(rest@, source@),
        ) {
            Err(e) => Err(e),
            Ok((q, next)) => match questions_at(source@, next, (count - i - 1) as nat) {
                Err(e) => Err(e),
                Ok((more, end)) => Ok((seq![q] + more, end)),
            },
        });
        let (question, next) = match question::decode(rest, source) {
            Ok(decoded) => decoded,
            Err(e) => return Err(e),
        };
        proof {
            self::domain_name::lemma_name_at_len(
                source@,
                offset_in(rest@, source@),
                self::domain_name::MAX_LABELS as nat,
            );
        }
        let ghost before = questions@;
        questions.push(question);
        assert(questions_view(questions@) =~= questions_view(before) + seq![question@]);
        assert(is_suffix(next@, source@));
        proof {
            let tail = questions_at(source@, offset_in(next@, source@), (count - i - 1) as nat);
            if let Ok((more, _)) = tail {
                assert(questions_view(before) + (seq![question@] + more) =~= questions_view(
                    questions@,
                ) + more);
            }
        }
        rest = next;
        i = i + 1;
    }
    assert(questions_view(questions@) + Seq::<QuestionView>::empty() =~= questions_view(
        questions@,
    ));
    Ok((questions, rest))
}

fn decode_records<'a>(buffer: &'a [u8], source: &'a [u8], count: u16) -> (r: Result<
    (Vec<ResourceRecord>, &'a [u8]),
    DecodingError,
>)
    requires
        is_suffix(buffer@, source@),
    ensures
        match records_at(source@, offset_in(buffer@, source@), count as nat) {
            Ok((rs, end)) => offset_in(buffer@, source@) <= end <= source@.len() && (r matches Ok((records, rest))
                && records_view(records@) == rs && records@.len() == count && rest@
                == source@.subrange(end, source@.len() as int) && is_suffix(rest@, source@)),
            Err(e) => r matches Err(x) && x == e,
        },
{
    let ghost all = records_at(source@, offset_in(buffer@, source@), count as nat);
    let mut records: Vec<ResourceRecord> = Vec::new();
    let mut rest = buffer;
    let mut i: u16 = 0;
    while i < count
        invariant
            is_suffix(rest@, source@),
            offset_in(buffer@, source@) <= offset_in(rest@, source@),
            i <= count,
            records@.len() == i,
            all == records_at(source@, offset_in(buffer@, source@), count as nat),
            all == match records_at(source@, offset_in(rest@, source@), (count - i) as nat) {
                Ok((more, end)) => Ok((records_view(records@) + more, end)),
                Err(e) => Err(e),
            },
        decreases count - i,
    {
        assert(records_at(source@, offset_in(rest@, source@), (count - i) as nat) == match record_at(
            source@,
            offset_in(rest@, source@),
        ) {
            Err(e) => Err(e),
            Ok((r, next)) => match records_at(source@, next, (count - i - 1) as nat) {
                Err(e) => Err(e),
                Ok((more, end)) => Ok((seq![r] + more, end)),
            },
        });
        let (record, next) = match resource_record::decode(rest, source) {
            Ok(decoded) => decoded,
            Err(e) => return Err(e),
        };
        assert(is_suffix(next@, source@));
        let ghost before = records@;
        records.push(record);
        assert(records_view(records@) =~= records_view(before) + seq![record@]);
        proof {
            let cur = record_at(source@, offset_in(rest@, source@));
            assert(cur is Ok);
            let e = cur->Ok_0.1;
            assert(cur->Ok_0.0 == record@);
            assert(next@.len() == source@.len() - e);
            assert(offset_in(next@, source@) == e);
            let tail = records_at(source@, offset_in(next@, source@), (count - i - 1) as nat);
            if let Ok((more, _)) = tail {
                assert(records_view(before) + (seq![record@] + more) =~= records_view(records@)
                    + more);
            }
        }
        rest = next;
        i = i + 1;
    }
    assert(records_view(records@) + Seq::<RecordView>::empty() =~= records_view(records@));
    Ok((records, rest))
}

/// Peek at the resource record type without consuming the buffer
/// Assumes we're at the start of a resource record
fn peek_rr_type(buffer: &[u8]) -> (r: Option<u16>)
    ensures
        r == peek_type(buffer@),
{
    // Skip domain name to get to type field
    let mut pos: usize = 0;
    loop
        invariant_except_break
            pos < buffer@.len() + 2,
            skip_name(buffer@, 0) == skip_name(buffer@, pos as int),
        ensures
            pos <= buffer@.len() + 1,
            skip_name(buffer@, 0) == Some(pos as int),
        decreases buffer@.len() - pos,
    {
        if pos >= buffer.len() {
            return None;
        }
        let byte = buffer[pos];
        if byte == 0 {
            // End of domain name
            pos = pos + 1;
            break;
        } else if byte >= 192 {
            // Compression pointer (2 bytes), then room for the type field
            if buffer.len() - pos < 4 {
                return None;
            }
            pos = pos + 2;
            break;
        } else {
            // Regular label: byte contains the label length
            if byte as usize >= buffer.len() - pos - 1 {
                return None;
            }
            pos = pos + 1 + byte as usize;
        }
    }
    // Now we're at the type field (2 bytes)
    if pos > buffer.len() || buffer.len() - pos < 2 {
        return None;
    }
    Some(crate::utils::concat_two_u8s(buffer[pos], buffer[pos + 1]))
}

fn is_opt_record(buffer: &[u8]) -> (r: bool)
    ensures
        r == (peek_type(buffer@) == Some(41u16)),
{
    match peek_rr_type(buffer) {
        Some(t) => t == 41,
        None => false,
    }
}

proof fn lemma_additionals_step(src: Seq<u8>, pos: int, n: nat, opt: Option<OptView>)
    requires
        n > 0,
    ensures
        additionals_at(src, pos, n, opt) == if is_opt_at(src, pos) {
            if opt is Some {
                Err(DecodingError::MultipleOptRecords)
            } else {
                match opt_at(src, pos) {
                    Err(e) => Err(e),
                    Ok((o, next)) => additionals_at(src, next, (n - 1) as nat, Some(o)),
                }
            }
        } else {
            match record_at(src, pos) {
                Err(e) => Err(e),
                Ok((r, next)) => match additionals_at(src, next, (n - 1) as nat, opt) {
                    Err(e) => Err(e),
                    Ok((more, o, end)) => Ok((seq![r] + more, o, end)),
                },
            }
        },
{
}

/// The additional section: regular records, and at most one OPT record,
/// told apart by their TYPE field.
#[verifier::rlimit(100)]
fn decode_additionals<'a>(buffer: &'a [u8], source: &'a [u8], count: u16) -> (r: Result<
    (Vec<ResourceRecord>, Option<OptRecord>, &'a [u8]),
    DecodingError,
>)
    requires
        is_suffix(buffer@, source@),
    ensures
        match additionals_at(source@, offset_in(buffer@, source@), count as nat, None) {
            Ok((rs, o, _)) => r matches Ok((records, opt, _)) && records_view(records@) == rs
                && opt_view(opt) == o && records@.len() + (if opt is Some {
                1int
            } else {
                0int
            }) == count,
            Err(e) => r matches Err(x) && x == e,
        },
{
    let ghost src = source@;
    let ghost all = additionals_at(src, offset_in(buffer@, src), count as nat, None);
    let mut additionnals: Vec<ResourceRecord> = Vec::new();
    let mut opt_record: Option<OptRecord> = None;
    let mut rest = buffer;
    let mut i: u16 = 0;
    while i < count
        invariant
            src == source@,
            all == additionals_at(src, offset_in(buffer@, src), count as nat, None),
            is_suffix(rest@, src),
            i <= count,
            additionnals@.len() + (if opt_record is Some {
                1int
            } else {
                0int
            }) == i,
            all == match additionals_at(
                src,
                offset_in(rest@, src),
                (count - i) as nat,
                opt_view(opt_record),
            ) {
                Ok((more, o, end)) => Ok((records_view(additionnals@) + more, o, end)),
                Err(e) => Err(e),
            },
        decreases count - i,
    {
        assert(rest@ =~= src.subrange(offset_in(rest@, src), src.len() as int));
        proof {
            lemma_additionals_step(src, offset_in(rest@, src), (count - i) as nat, opt_view(opt_record));
        }
        if is_opt_record(rest) {
            if opt_record.is_some() {
                return Err(DecodingError::MultipleOptRecords);
            }
            let (opt, next) = match opt_record::decode(rest) {
                Ok(decoded) => decoded,
                Err(e) => return Err(e),
            };
            assert(is_suffix(next@, src)) by {
                assert(src.subrange(src.len() - next@.len(), src.len() as int) =~= next@);
            }
            opt_record = Some(opt);
            rest = next;
        } else {
            let (record, next) = match resource_record::decode(rest, source) {
                Ok(decoded) => decoded,
                Err(e) => return Err(e),
            };
            assert(is_suffix(next@, src));
            let ghost before = additionnals@;
            additionnals.push(record);
            assert(records_view(additionnals@) =~= records_view(before) + seq![record@]);
            proof {
                let tail = additionals_at(
                    src,
                    offset_in(next@, src),
                    (count - i - 1) as nat,
                    opt_view(opt_record),
                );
                if let Ok((more, _, _)) = tail {
                    assert(records_view(before) + (seq![record@] + more) =~= records_view(
                        additionnals@,
                    ) + more);
                }
            }
            rest = next;
        }
        i = i + 1;
    }
    assert(records_view(additionnals@) + Seq::<RecordView>::empty() =~= records_view(
        additionnals@,
    ));
    Ok((additionnals, opt_record, rest))
}

impl Decoder for MessageDecoder {
    open spec fn decoding(&self, buffer: Seq<u8>) -> Result<MessageView, DecodingError> {
        message_of(buffer)
    }

    fn decode(&self, buffer: &[u8]) -> (r: Result<Message, DecodingError>) {
        reveal(message_of);
        let source = buffer;
        let ghost src = source@;
        if buffer.len() < 12 {
            return Err(DecodingError::InvalidHeaderSize);
        }
        let (header_bits, rest) = extract_header_bits_from_buffer(buffer);
        let header_bytes: [u8; 12] = [
            header_bits[0],
            header_bits[1],
            header_bits[2],
            header_bits[3],
            header_bits[4],
            header_bits[5],
            header_bits[6],
            header_bits[7],
            header_bits[8],
            header_bits[9],
            header_bits[10],
            header_bits[11],
        ];
        assert(header_bytes@ =~= src.subrange(0, 12));
        let header = match header::decode(&header_bytes) {
            Ok(h) => h,
            Err(e) => return Err(e),
        };
        assert(is_suffix(rest@, src));

        let (questions, rest) = match decode_questions(rest, source, header.questions_count) {
            Ok(decoded) => decoded,
            Err(e) => return Err(e),
        };
        let (answers, rest) = match decode_records(rest, source, header.answers_count) {
            Ok(decoded) => decoded,
            Err(e) => return Err(e),
        };
        let (authorities, rest) = match decode_records(rest, source, header.authority_count) {
            Ok(decoded) => decoded,
            Err(e) => return Err(e),
        };

        // Decode additional section, checking for OPT record
        let (additionnals, opt_record, _) = match decode_additionals(
            rest,
            source,
            header.additional_count,
        ) {
            Ok(decoded) => decoded,
            Err(e) => return Err(e),
        };

        Ok(Message::new(header, questions, answers, authorities, additionnals, opt_record))
    }
}

} // verus!

verus! {

/// Once an OPT record has been read, any later OPT entry fails with
/// `MultipleOptRecords`, so a decoded additional section keeps the first OPT
/// record as its only one.
pub proof fn lemma_opt_record_stays_single(src: Seq<u8>, pos: int, n: nat, o: OptView)
    ensures
        additionals_at(src, pos, n, Some(o)) matches Ok((_, kept, _)) ==> kept == Some(o),
        n > 0 && is_opt_at(src, pos) ==> additionals_at(src, pos, n, Some(o)) == Err::<
            (Seq<RecordView>, Option<OptView>, int),
            DecodingError,
        >(DecodingError::MultipleOptRecords),
    decreases n,
{
    if n > 0 && !is_opt_at(src, pos) {
        if let Ok((_, next)) = record_at(src, pos) {
            lemma_opt_record_stays_single(src, next, (n - 1) as nat, o);
        }
    }
}

/// A second OPT record in the additional section makes the message invalid:
/// when two entries in a row are OPT records, decoding fails with
/// `MultipleOptRecords`.
pub proof fn lemma_two_opt_records_rejected(src: Seq<u8>, pos: int, n: nat)
    requires
        n >= 2,
        is_opt_at(src, pos),
        opt_at(src, pos) is Ok,
        is_opt_at(src, opt_at(src, pos)->Ok_0.1),
    ensures
        additionals_at(src, pos, n, None) == Err::<
            (Seq<RecordView>, Option<OptView>, int),
            DecodingError,
        >(DecodingError::MultipleOptRecords),
{
    let next = opt_at(src, pos)->Ok_0.1;
    let o = opt_at(src, pos)->Ok_0.0;
    assert(additionals_at(src, next, (n - 1) as nat, Some(o)) == Err::<
        (Seq<RecordView>, Option<OptView>, int),
        DecodingError,
    >(DecodingError::MultipleOptRecords));
}

/// An OPT record whose owner name is not the root is refused with
/// `InvalidOptRecord`, on its own and as the first OPT record of an
/// additional section.
pub proof fn lemma_opt_owner_must_be_root(src: Seq<u8>, pos: int, n: nat)
    requires
        0 <= pos < src.len(),
        src[pos] != 0,
    ensures
        opt_of(src.subrange(pos, src.len() as int)) == Err::<(OptView, int), DecodingError>(
            DecodingError::InvalidOptRecord(OptRecordFault::NonRootOwner),
        ),
        n > 0 && is_opt_at(src, pos) ==> additionals_at(src, pos, n, None) == Err::<
            (Seq<RecordView>, Option<OptView>, int),
            DecodingError,
        >(DecodingError::InvalidOptRecord(OptRecordFault::NonRootOwner)),
{
    assert(src.subrange(pos, src.len() as int)[0] == src[pos]);
}

} // verus!

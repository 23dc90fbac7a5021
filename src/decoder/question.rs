//! Decoding of questions.

use vstd::prelude::*;

use crate::common::question::{class_from_code, qtype_from_code, Class, Question, QuestionView, Type};
use crate::decoder::domain_name::{decode as decode_domain_name, name_at, MAX_LABELS};
use crate::decoder::{is_suffix, offset_in, DecodingError};
use crate::utils::{be16, extract_next_sixteen_bits_from_buffer};

verus! {

/// The question that starts at `pos` in `src`, and where it ends.
pub open spec fn question_at(src: Seq<u8>, pos: int) -> Result<(QuestionView, int), DecodingError> {
    match name_at(src, pos, MAX_LABELS as nat) {
        None => Err(DecodingError::InvalidName),
        Some((name, q)) => if q + 4 > src.len() {
            Err(DecodingError::UnexpectedEndOfBuffer)
        } else {
            let t = be16(src[q], src[q + 1]) as u16;
            let c = be16(src[q + 2], src[q + 3]) as u16;
            match qtype_from_code(t) {
                None => Err(DecodingError::InvalidQuestionType(t)),
                Some(type_) => match class_from_code(c) {
                    None => Err(DecodingError::InvalidQuestionClass(c)),
                    Some(class) => Ok((QuestionView { name, type_, class }, q + 4)),
                },
            }
        },
    }
}

pub fn decode<'a>(buffer: &'a [u8], source: &'a [u8]) -> (r: Result<
    (Question, &'a [u8]),
    DecodingError,
>)
    requires
        is_suffix(buffer@, source@),
    ensures
        match question_at(source@, offset_in(buffer@, source@)) {
            Ok((q, end)) => offset_in(buffer@, source@) < end <= source@.len() && (r matches Ok((question, rest)) && question@ == q
                && rest@ == source@.subrange(end, source@.len() as int)),
            Err(e) => r matches Err(x) && x == e,
        },
{
    proof {
        crate::decoder::domain_name::lemma_name_at_len(
            source@,
            offset_in(buffer@, source@),
            MAX_LABELS as nat,
        );
    }
    let (name, buffer) = match decode_domain_name(buffer, source) {
        Ok(decoded) => decoded,
        Err(e) => return Err(e),
    };
    if buffer.len() < 4 {
        return Err(DecodingError::UnexpectedEndOfBuffer);
    }
    let ghost q = source@.len() - buffer@.len();
    assert(buffer@[0] == source@[q] && buffer@[1] == source@[q + 1]);
    assert(buffer@[2] == source@[q + 2] && buffer@[3] == source@[q + 3]);
    let (type_bytes, buffer) = extract_next_sixteen_bits_from_buffer(buffer);
    let (class_bytes, buffer) = extract_next_sixteen_bits_from_buffer(buffer);
    assert(type_bytes == be16(source@[q], source@[q + 1]) as u16);
    assert(class_bytes == be16(source@[q + 2], source@[q + 3]) as u16);
    let type_ = match Type::try_from(type_bytes) {
        Ok(t) => t,
        Err(v) => return Err(DecodingError::InvalidQuestionType(v)),
    };
    let class = match Class::try_from(class_bytes) {
        Ok(c) => c,
        Err(v) => return Err(DecodingError::InvalidQuestionClass(v)),
    };
    assert(buffer@ =~= source@.subrange(q + 4, source@.len() as int));
    Ok((Question { name, type_, class }, buffer))
}

} // verus!

verus! {

impl Question {
    /// Decodes a question at the start of a buffer that is a whole message of
    /// its own.
    pub fn from_buffer(buffer: &[u8]) -> (r: Result<(Question, &[u8]), DecodingError>)
        ensures
            match question_at(buffer@, 0) {
                Ok((q, end)) => r matches Ok((question, rest)) && question@ == q && rest@
                    == buffer@.subrange(end, buffer@.len() as int),
                Err(e) => r matches Err(x) && x == e,
            },
    {
        assert(buffer@.subrange(0, buffer@.len() as int) =~= buffer@);
        decode(buffer, buffer)
    }
}

} // verus!

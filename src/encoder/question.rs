//! Encoding of questions.

use vstd::prelude::*;

use crate::common::question::{class_code, qtype_code, Question, QuestionView};
use crate::encoder::domain_name::{encode as encode_domain_name, encoded_name};
use crate::utils::{push_u16_to_u8_vec, u16_bytes};

verus! {

/// A question on the wire: its name, QTYPE and QCLASS.
pub open spec fn encoded_question(q: QuestionView) -> Seq<u8> {
    encoded_name(q.name) + u16_bytes(qtype_code(q.type_)) + u16_bytes(class_code(q.class))
}

pub fn encode(question: Question) -> (r: Vec<u8>)
    ensures
        r@ == encoded_question(question@),
{
    let ghost q = question@;
    let mut r = encode_domain_name(question.name);
    push_u16_to_u8_vec(&mut r, question.type_.into());
    push_u16_to_u8_vec(&mut r, question.class.into());
    assert(r@ =~= encoded_question(q));
    r
}

} // verus!

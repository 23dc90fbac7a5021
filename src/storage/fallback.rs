//! What the upstream forwarder computes: the query it sends and what it
//! takes from the reply. The round trip itself is the caller's.

use vstd::prelude::*;

use crate::common::header::{Header, MessageType, QueryType, ResponseCode};
use crate::common::question::{Question, QuestionView};
use crate::common::resource_record::ResourceRecord;
use crate::common::{records_view, Message, MessageView};
use crate::decoder::Decoder;
use crate::storage::RepositoryError;

verus! {

/// The query sent upstream: the single question, recursion desired, no OPT.
pub open spec fn upstream_query(question: QuestionView, id: u16) -> MessageView {
    MessageView {
        header: Header {
            id,
            qr: MessageType::Query,
            opcode: QueryType::Standard,
            authoritative_answer: false,
            truncated: false,
            recursion_desired: true,
            recursion_available: false,
            reserved: false,
            response_code: ResponseCode::NoError,
            questions_count: 1,
            answers_count: 0,
            authority_count: 0,
            additional_count: 0,
        },
        questions: seq![question],
        answers: Seq::empty(),
        authorities: Seq::empty(),
        additionals: Seq::empty(),
        opt: None,
    }
}

pub fn generate_message_with_question(question: Question, id: u16) -> (r: Message)
    ensures
        r@ == upstream_query(question@, id),
        r.wf(),
{
    let ghost q = question@;
    let r = Message::new(
        Header {
            id,
            qr: MessageType::Query,
            opcode: QueryType::Standard,
            authoritative_answer: false,
            truncated: false,
            recursion_desired: true,
            recursion_available: false,
            reserved: false,
            response_code: ResponseCode::NoError,
            questions_count: 1,
            answers_count: 0,
            authority_count: 0,
            additional_count: 0,
        },
        vec![question],
        Vec::new(),
        Vec::new(),
        Vec::new(),
        None,
    );
    assert(r@ =~= upstream_query(q, id)) by {
        assert(crate::common::questions_view(r.questions@) =~= seq![q]);
        assert(records_view(r.answers@) =~= Seq::empty());
        assert(records_view(r.authorities@) =~= Seq::empty());
        assert(records_view(r.additionnals@) =~= Seq::empty());
    }
    r
}

/// The answers of an upstream reply; a reply that does not decode is an error.
pub fn answers_from_upstream_reply<D: Decoder>(decoder: &D, reply: &[u8]) -> (r: Result<
    Vec<ResourceRecord>,
    RepositoryError,
>)
    ensures
        match decoder.decoding(reply@) {
            Ok(m) => r matches Ok(v) && records_view(v@) == m.answers,
            Err(e) => r matches Err(RepositoryError::DecodingFallbackServerResponseError(x))
                && x == e,
        },
{
    match decoder.decode(reply) {
        Ok(message) => Ok(message.answers),
        Err(e) => Err(RepositoryError::DecodingFallbackServerResponseError(e)),
    }
}

} // verus!

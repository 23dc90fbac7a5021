//! Encoding of messages into wire format.

use vstd::prelude::*;

use crate::common::opt_record::OptView;
use crate::common::question::QuestionView;
use crate::common::resource_record::RecordView;
use crate::common::{Message, MessageView};

use self::header::{encode as encode_header, encoded_header};
use self::opt_record::encoded_opt;
use self::question::{encode as encode_question, encoded_question};
use self::resource_record::{encode as encode_resource_record, encoded_record};

pub mod domain_name;
pub mod header;
pub mod opt_record;
pub mod question;
pub mod resource_record;

verus! {

pub trait Encoder {
    /// The bytes that `encode` writes for a message.
    spec fn encoding(&self, message: MessageView) -> Seq<u8>;

    fn encode(&self, message: Message) -> (r: Vec<u8>)
        ensures
            r@ == self.encoding(message@),
    ;
}

pub struct MessageEncoder {}

pub open spec fn encoded_question_list(qs: Seq<QuestionView>) -> Seq<Seq<u8>> {
    Seq::new(qs.len(), |i: int| encoded_question(qs[i]))
}

pub open spec fn encoded_questions(qs: Seq<QuestionView>) -> Seq<u8> {
    encoded_question_list(qs).flatten()
}

pub open spec fn encoded_record_list(rs: Seq<RecordView>) -> Seq<Seq<u8>> {
    Seq::new(rs.len(), |i: int| encoded_record(rs[i]))
}

pub open spec fn encoded_records(rs: Seq<RecordView>) -> Seq<u8> {
    encoded_record_list(rs).flatten()
}

pub open spec fn encoded_opt_section(opt: Option<OptView>) -> Seq<u8> {
    match opt {
        Some(o) => encoded_opt(o),
        None => Seq::empty(),
    }
}

/// A message on the wire: header, questions, answers, authorities,
/// additionals, then the OPT record if there is one. Names are not compressed.
#[verifier::opaque]
pub open spec fn encoded_message(m: MessageView) -> Seq<u8> {
    encoded_header(m.header) + encoded_questions(m.questions) + encoded_records(m.answers)
        + encoded_records(m.authorities) + encoded_records(m.additionals) + encoded_opt_section(
        m.opt,
    )
}

fn encode_section(r: &mut Vec<u8>, records: &Vec<crate::common::resource_record::ResourceRecord>)
    ensures
        final(r)@ == old(r)@ + encoded_records(crate::common::records_view(records@)),
{
    let ghost start = r@;
    let ghost rs = crate::common::records_view(records@);
    let mut i: usize = 0;
    while i < records.len()
        invariant
            i <= records@.len(),
            rs == crate::common::records_view(records@),
            r@ == start + encoded_records(rs.take(i as int)),
        decreases records@.len() - i,
    {
        let mut e = encode_resource_record(records[i].clone());
        proof {
            assert(encoded_record_list(rs.take(i + 1)) =~= encoded_record_list(rs.take(i as int)).push(
                encoded_record(rs[i as int]),
            ));
            encoded_record_list(rs.take(i as int)).lemma_flatten_push(encoded_record(rs[i as int]));
        }
        r.append(&mut e);
        assert(r@ =~= start + encoded_records(rs.take(i + 1)));
        i = i + 1;
    }
    assert(rs.take(i as int) =~= rs);
}

impl Encoder for MessageEncoder {
    open spec fn encoding(&self, message: MessageView) -> Seq<u8> {
        encoded_message(message)
    }

    fn encode(&self, message: Message) -> (r: Vec<u8>) {
        reveal(encoded_message);
        let ghost m = message@;
        let mut r = encode_header(message.header);

        let ghost qs = m.questions;
        let ghost after_header = r@;
        let mut i: usize = 0;
        while i < message.questions.len()
            invariant
                i <= message.questions@.len(),
                m == message@,
                qs == m.questions,
                r@ == after_header + encoded_questions(qs.take(i as int)),
            decreases message.questions@.len() - i,
        {
            let mut e = encode_question(message.questions[i].clone());
            proof {
                assert(encoded_question_list(qs.take(i + 1)) =~= encoded_question_list(
                    qs.take(i as int),
                ).push(encoded_question(qs[i as int])));
                encoded_question_list(qs.take(i as int)).lemma_flatten_push(
                    encoded_question(qs[i as int]),
                );
            }
            r.append(&mut e);
            assert(r@ =~= after_header + encoded_questions(qs.take(i + 1)));
            i = i + 1;
        }
        assert(qs.take(i as int) =~= qs);

        encode_section(&mut r, &message.answers);
        encode_section(&mut r, &message.authorities);
        encode_section(&mut r, &message.additionnals);

        if let Some(opt) = &message.opt_record {
            let mut e = opt_record::encode(opt);
            r.append(&mut e);
        }
        assert(r@ =~= encoded_message(m));
        r
    }
}

} // verus!

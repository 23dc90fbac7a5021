//! The message model shared by the decoder, the encoder and the server.

use vstd::prelude::*;

use crate::transport::UDP_MAX_MESSAGE_SIZE;

use self::header::{Header, MessageType, ResponseCode};
use self::opt_record::{OptRecord, OptView};
use self::question::{Question, QuestionView};
use self::resource_record::{RecordView, ResourceRecord};

pub mod domain_name;
pub mod header;
pub mod opt_record;
pub mod question;
pub mod resource_record;

/*
 Message format:
    +---------------------+
    |        Header       |
    +---------------------+
    |       Question      | the question for the name server
    +---------------------+
    |        Answer       | RRs answering the question
    +---------------------+
    |      Authority      | RRs pointing toward an authority
    +---------------------+
    |      Additional     | RRs holding additional information
    +---------------------+
*/

verus! {

#[derive(Debug, PartialEq)]
pub struct Message {
    pub header: Header,
    pub questions: Vec<Question>,
    pub answers: Vec<ResourceRecord>,
    pub authorities: Vec<ResourceRecord>,
    pub additionnals: Vec<ResourceRecord>,
    pub opt_record: Option<OptRecord>,
}

/// What a message stands for.
pub struct MessageView {
    pub header: Header,
    pub questions: Seq<QuestionView>,
    pub answers: Seq<RecordView>,
    pub authorities: Seq<RecordView>,
    pub additionals: Seq<RecordView>,
    pub opt: Option<OptView>,
}

pub open spec fn questions_view(qs: Seq<Question>) -> Seq<QuestionView> {
    Seq::new(qs.len(), |i: int| qs[i]@)
}

pub open spec fn records_view(rs: Seq<ResourceRecord>) -> Seq<RecordView> {
    Seq::new(rs.len(), |i: int| rs[i]@)
}

pub open spec fn opt_view(o: Option<OptRecord>) -> Option<OptView> {
    match o {
        Some(r) => Some(r@),
        None => None,
    }
}

impl View for Message {
    type V = MessageView;

    open spec fn view(&self) -> MessageView {
        MessageView {
            header: self.header,
            questions: questions_view(self.questions@),
            answers: records_view(self.answers@),
            authorities: records_view(self.authorities@),
            additionals: records_view(self.additionnals@),
            opt: opt_view(self.opt_record),
        }
    }
}

impl MessageView {
    /// The header's four section counts equal the section lengths, the OPT
    /// record counting as one additional record.
    pub open spec fn wf(self) -> bool {
        &&& self.header.questions_count == self.questions.len()
        &&& self.header.answers_count == self.answers.len()
        &&& self.header.authority_count == self.authorities.len()
        &&& self.header.additional_count == self.additionals.len() + if self.opt is Some {
            1int
        } else {
            0int
        }
    }

    /// The message with `qr` set to Response.
    pub open spec fn into_response(self) -> MessageView {
        MessageView { header: Header { qr: MessageType::Response, ..self.header }, ..self }
    }

    /// The message with header and questions kept, every record section
    /// cleared, the TC bit set and the response code NoError.
    pub open spec fn truncated(self) -> MessageView {
        MessageView {
            header: Header {
                truncated: true,
                response_code: ResponseCode::NoError,
                answers_count: 0,
                authority_count: 0,
                additional_count: 0,
                ..self.header
            },
            questions: self.questions,
            answers: Seq::empty(),
            authorities: Seq::empty(),
            additionals: Seq::empty(),
            opt: None,
        }
    }

    /// The largest UDP response the sender of this message accepts.
    pub open spec fn max_message_size(self) -> nat {
        match self.opt {
            Some(o) => o.udp_payload_size as nat,
            None => UDP_MAX_MESSAGE_SIZE as nat,
        }
    }
}

impl Message {
    pub open spec fn wf(&self) -> bool {
        self@.wf()
    }

    /// Panics, as a broken count would, unless the header's counts match the sections.
    pub fn new(
        header: Header,
        questions: Vec<Question>,
        answers: Vec<ResourceRecord>,
        authorities: Vec<ResourceRecord>,
        additionnals: Vec<ResourceRecord>,
        opt_record: Option<OptRecord>,
    ) -> (r: Self)
        requires
            header.questions_count == questions@.len(),
            header.answers_count == answers@.len(),
            header.authority_count == authorities@.len(),
            header.additional_count == additionnals@.len() + if opt_record is Some {
                1int
            } else {
                0int
            },
        ensures
            r.header == header,
            r.questions == questions,
            r.answers == answers,
            r.authorities == authorities,
            r.additionnals == additionnals,
            r.opt_record == opt_record,
            r.wf(),
    {
        Self { header, questions, answers, authorities, additionnals, opt_record }
    }

    pub fn into_response(self) -> (r: Self)
        ensures
            r@ == self@.into_response(),
    {
        let mut m = self;
        m.header.qr = MessageType::Response;
        m
    }

    pub fn truncate(self) -> (r: Self)
        ensures
            r@ == self@.truncated(),
    {
        let mut m = self;
        m.header.truncated = true;
        m.set_answers(Vec::new());
        m.set_authorities(Vec::new());
        m.opt_record = None;
        m.set_additionnals(Vec::new());
        m.header.response_code = ResponseCode::NoError;
        assert(records_view(m.answers@) =~= Seq::empty());
        assert(records_view(m.authorities@) =~= Seq::empty());
        assert(records_view(m.additionnals@) =~= Seq::empty());
        m
    }

    pub fn set_answers(&mut self, answers: Vec<ResourceRecord>)
        requires
            answers@.len() <= 65535,
        ensures
            final(self).answers == answers,
            final(self).header == (Header {
                answers_count: answers@.len() as u16,
                ..old(self).header
            }),
            final(self).questions == old(self).questions,
            final(self).authorities == old(self).authorities,
            final(self).additionnals == old(self).additionnals,
            final(self).opt_record == old(self).opt_record,
    {
        self.header.answers_count = answers.len() as u16;
        self.answers = answers;
    }

    pub fn set_authorities(&mut self, authorities: Vec<ResourceRecord>)
        requires
            authorities@.len() <= 65535,
        ensures
            final(self).authorities == authorities,
            final(self).header == (Header {
                authority_count: authorities@.len() as u16,
                ..old(self).header
            }),
            final(self).questions == old(self).questions,
            final(self).answers == old(self).answers,
            final(self).additionnals == old(self).additionnals,
            final(self).opt_record == old(self).opt_record,
    {
        self.header.authority_count = authorities.len() as u16;
        self.authorities = authorities;
    }

    /// Sets the additional records; the count covers them and the OPT record,
    /// if the message has one.
    pub fn set_additionnals(&mut self, additionnals: Vec<ResourceRecord>)
        requires
            additionnals@.len() + (if old(self).opt_record is Some {
                1int
            } else {
                0int
            }) <= 65535,
        ensures
            final(self).additionnals == additionnals,
            final(self).header == (Header {
                additional_count: (additionnals@.len() + if old(self).opt_record is Some {
                    1int
                } else {
                    0int
                }) as u16,
                ..old(self).header
            }),
            final(self).questions == old(self).questions,
            final(self).answers == old(self).answers,
            final(self).authorities == old(self).authorities,
            final(self).opt_record == old(self).opt_record,
    {
        let opt_count: usize = if self.opt_record.is_some() {
            1
        } else {
            0
        };
        self.header.additional_count = (additionnals.len() + opt_count) as u16;
        self.additionnals = additionnals;
    }

    pub fn max_message_size(&self) -> (r: usize)
        ensures
            r == self@.max_message_size(),
    {
        if let Some(opt_record) = &self.opt_record {
            opt_record.udp_payload_size as usize
        } else {
            UDP_MAX_MESSAGE_SIZE
        }
    }
}

impl Clone for Message {
    fn clone(&self) -> (r: Self)
        ensures
            r@ == self@,
    {
        let questions = self.questions.clone();
        let answers = self.answers.clone();
        let authorities = self.authorities.clone();
        let additionnals = self.additionnals.clone();
        let opt_record = match &self.opt_record {
            Some(o) => Some(o.clone()),
            None => None,
        };
        assert(questions_view(questions@) =~= questions_view(self.questions@));
        assert(records_view(answers@) =~= records_view(self.answers@));
        assert(records_view(authorities@) =~= records_view(self.authorities@));
        assert(records_view(additionnals@) =~= records_view(self.additionnals@));
        Message { header: self.header, questions, answers, authorities, additionnals, opt_record }
    }
}

} // verus!

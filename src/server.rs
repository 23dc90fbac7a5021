//! The per-request pipeline: decode, resolve each question, build the
//! response, apply the size policy of the transport.

use vstd::prelude::*;

use crate::common::header::{Header, MessageType, QueryType, ResponseCode};
use crate::common::question::Question;
use crate::common::resource_record::{RecordView, ResourceRecord};
use crate::common::{records_view, Message, MessageView};
use crate::decoder::Decoder;
use crate::encoder::Encoder;
use crate::common::question::QuestionView;
use crate::common::questions_view;
use crate::storage::{answers_view, RepositoryError, ResourceRecordRepository};
use crate::transport::TCP_MAX_MESSAGE_SIZE;
use crate::utils::{be16, concat_two_u8s};

verus! {

/// The transport a request came in on.
#[derive(Debug, PartialEq, Eq, Structural, Clone, Copy)]
pub enum Transport {
    Udp,
    Tcp,
}

pub struct Server<D: Decoder, E: Encoder, R: ResourceRecordRepository> {
    pub decoder: D,
    pub encoder: E,
    pub storage: R,
}

/// The largest response a request may get: over UDP the size the request
/// advertises with OPT, else 512; over TCP what the length prefix can frame.
pub open spec fn size_limit(request: MessageView, transport: Transport) -> nat {
    match transport {
        Transport::Udp => request.max_message_size(),
        Transport::Tcp => TCP_MAX_MESSAGE_SIZE as nat,
    }
}

/// The response to a request: the request turned into a response with RA set
/// and the answers attached; ServerFailure with no answers when the
/// repository failed; truncated when the answers do not fit the 16-bit count.
pub open spec fn response_view(
    request: MessageView,
    answers: Result<Seq<RecordView>, RepositoryError>,
) -> MessageView {
    let base = MessageView {
        header: Header { recursion_available: true, ..request.into_response().header },
        ..request
    };
    match answers {
        Err(_) => MessageView {
            header: Header { response_code: ResponseCode::ServerFailure, answers_count: 0, ..base.header },
            answers: Seq::empty(),
            ..base
        },
        Ok(a) => if a.len() <= 65535 {
            MessageView { header: Header { answers_count: a.len() as u16, ..base.header }, answers: a, ..base }
        } else {
            base.truncated()
        },
    }
}

/// The bytes sent for a response: its encoding when it fits the limit, else
/// the encoding of its truncated form.
pub open spec fn sized_response<E: Encoder>(encoder: E, response: MessageView, limit: nat) -> Seq<u8> {
    if encoder.encoding(response).len() > limit {
        encoder.encoding(response.truncated())
    } else {
        encoder.encoding(response)
    }
}

/// The answer to a request that could not be decoded: FormatError, echoing the id.
pub open spec fn format_error_view(id: u16) -> MessageView {
    MessageView {
        header: Header {
            id,
            qr: MessageType::Response,
            opcode: QueryType::Standard,
            authoritative_answer: false,
            truncated: false,
            recursion_desired: false,
            recursion_available: true,
            reserved: false,
            response_code: ResponseCode::FormatError,
            questions_count: 0,
            answers_count: 0,
            authority_count: 0,
            additional_count: 0,
        },
        questions: Seq::empty(),
        answers: Seq::empty(),
        authorities: Seq::empty(),
        additionals: Seq::empty(),
        opt: None,
    }
}

/// The answers gathered from one lookup result per question, in order: the
/// records one after the other, or the first error.
pub open spec fn gathered(results: Seq<Result<Seq<RecordView>, RepositoryError>>) -> Result<
    Seq<RecordView>,
    RepositoryError,
>
    decreases results.len(),
{
    if results.len() == 0 {
        Ok(Seq::empty())
    } else {
        match gathered(results.drop_last()) {
            Err(e) => Err(e),
            Ok(v) => match results.last() {
                Err(e) => Err(e),
                Ok(w) => Ok(v + w),
            },
        }
    }
}

/// The repository knows ahead its answer to each question.
pub open spec fn all_known<R: ResourceRecordRepository>(storage: R, questions: Seq<QuestionView>) -> bool {
    forall|i: int| 0 <= i < questions.len() ==> (#[trigger] storage.known_answer(questions[i])) is Some
}

/// The answers the repository knows ahead, one per question.
pub open spec fn known_answers<R: ResourceRecordRepository>(
    storage: R,
    questions: Seq<QuestionView>,
) -> Seq<Result<Seq<RecordView>, RepositoryError>> {
    Seq::new(questions.len(), |i: int| storage.known_answer(questions[i])->Some_0)
}

/// The lookup results met so far: one per question, ending early only at an error.
pub open spec fn lookup_trace(
    results: Seq<Result<Seq<RecordView>, RepositoryError>>,
    questions: Seq<QuestionView>,
) -> bool {
    &&& results.len() <= questions.len()
    &&& results.len() < questions.len() ==> results.len() > 0 && results.last() is Err
}

/// Each result was the repository's answer to its question, asked in order,
/// `states` holding the repository before and after each lookup.
pub open spec fn answered_in_turn<R: ResourceRecordRepository>(
    states: Seq<R>,
    results: Seq<Result<Seq<RecordView>, RepositoryError>>,
    questions: Seq<QuestionView>,
) -> bool {
    &&& states.len() == results.len() + 1
    &&& results.len() <= questions.len()
    &&& forall|i: int|
        0 <= i < results.len() ==> #[trigger] states[i].answered(
            questions[i],
            results[i],
            states[i + 1],
        )
}

proof fn lemma_gathered_error_stays(results: Seq<Result<Seq<RecordView>, RepositoryError>>, k: int)
    requires
        0 < k <= results.len(),
        gathered(results.take(k)) is Err,
    ensures
        gathered(results) == gathered(results.take(k)),
    decreases results.len() - k,
{
    if k < results.len() {
        assert(results.take(k + 1).drop_last() =~= results.take(k));
        lemma_gathered_error_stays(results, k + 1);
    } else {
        assert(results.take(k) =~= results);
    }
}

/// Builds the response to a decoded request from what the repository returned.
pub fn build_response(request: Message, answers: Result<Vec<ResourceRecord>, RepositoryError>) -> (r: Message)
    requires
        request.wf(),
    ensures
        r@ == response_view(request@, answers_view(answers)),
        r.wf(),
{
    let ghost a = answers_view(answers);
    let mut response = request.into_response();
    response.header.recursion_available = true;
    match answers {
        Err(_) => {
            response.header.response_code = ResponseCode::ServerFailure;
            response.set_answers(Vec::new());
            assert(records_view(response.answers@) =~= Seq::<RecordView>::empty());
            response
        },
        Ok(records) => {
            if records.len() <= 65535 {
                response.set_answers(records);
                response
            } else {
                response.truncate()
            }
        },
    }
}

/// The bytes to send: the encoded response, or the encoded truncated response
/// when the first exceeds `limit`.
pub fn fit_response<E: Encoder>(encoder: &E, response: Message, limit: usize) -> (r: Vec<u8>)
    ensures
        r@ == sized_response(*encoder, response@, limit as nat),
{
    let kept = response.clone();
    let encoded = encoder.encode(response);
    if encoded.len() > limit {
        encoder.encode(kept.truncate())
    } else {
        encoded
    }
}

/// The response to a request that could not be decoded.
pub fn format_error_response(id: u16) -> (r: Message)
    ensures
        r@ == format_error_view(id),
        r.wf(),
{
    let r = Message::new(
        Header {
            id,
            qr: MessageType::Response,
            opcode: QueryType::Standard,
            authoritative_answer: false,
            truncated: false,
            recursion_desired: false,
            recursion_available: true,
            reserved: false,
            response_code: ResponseCode::FormatError,
            questions_count: 0,
            answers_count: 0,
            authority_count: 0,
            additional_count: 0,
        },
        Vec::new(),
        Vec::new(),
        Vec::new(),
        Vec::new(),
        None,
    );
    assert(r@ =~= format_error_view(id)) by {
        assert(crate::common::questions_view(r.questions@) =~= Seq::empty());
        assert(records_view(r.answers@) =~= Seq::<RecordView>::empty());
        assert(records_view(r.authorities@) =~= Seq::<RecordView>::empty());
        assert(records_view(r.additionnals@) =~= Seq::<RecordView>::empty());
    }
    r
}

/// Asks the repository about each question in turn and gathers the answers;
/// the first failure is returned. When the repository knows every answer
/// ahead, the result is those answers gathered and the repository is unchanged.
pub fn resolve<R: ResourceRecordRepository>(storage: &mut R, questions: &Vec<Question>) -> (r: Result<
    Vec<ResourceRecord>,
    RepositoryError,
>)
    ensures
        exists|results: Seq<Result<Seq<RecordView>, RepositoryError>>, states: Seq<R>|
            #![trigger answered_in_turn(states, results, questions_view(questions@))]
            lookup_trace(results, questions_view(questions@)) && answered_in_turn(
                states,
                results,
                questions_view(questions@),
            ) && states[0] == *old(storage) && states.last() == *final(storage) && answers_view(r)
                == gathered(results),
        all_known(*old(storage), questions_view(questions@)) ==> answers_view(r) == gathered(
            known_answers(*old(storage), questions_view(questions@)),
        ) && *final(storage) == *old(storage),
{
    let ghost qs = questions_view(questions@);
    let ghost start = *storage;
    let ghost mut results: Seq<Result<Seq<RecordView>, RepositoryError>> = Seq::empty();
    let ghost mut states: Seq<R> = seq![*storage];
    let mut answers: Vec<ResourceRecord> = Vec::new();
    assert(records_view(answers@) =~= Seq::<RecordView>::empty());
    let mut i: usize = 0;
    while i < questions.len()
        invariant
            qs == questions_view(questions@),
            start == *old(storage),
            i <= questions@.len(),
            results.len() == i,
            answered_in_turn(states, results, qs),
            states[0] == start,
            states.last() == *storage,
            gathered(results) == Ok::<Seq<RecordView>, RepositoryError>(records_view(answers@)),
            all_known(start, qs) ==> *storage == start && results == known_answers(start, qs).take(
                i as int,
            ),
        decreases questions@.len() - i,
    {
        let question = questions[i].clone();
        let ghost before = results;
        let ghost states_before = states;
        let looked_up = storage.get_resource_records(question);
        proof {
            results = results.push(answers_view(looked_up));
            states = states.push(*storage);
            assert forall|k: int| 0 <= k < results.len() implies #[trigger] states[k].answered(
                qs[k],
                results[k],
                states[k + 1],
            ) by {
                if k < i {
                    assert(states_before[k].answered(qs[k], before[k], states_before[k + 1]));
                }
            }
            assert(results.drop_last() =~= before);
            if all_known(start, qs) {
                assert(start.known_answer(qs[i as int]) is Some);
                assert(results =~= known_answers(start, qs).take(i + 1));
            }
        }
        match looked_up {
            Ok(mut records) => {
                let ghost got = records@;
                let ghost kept = answers@;
                answers.append(&mut records);
                assert(records_view(answers@) =~= records_view(kept) + records_view(got));
            },
            Err(e) => {
                proof {
                    assert(lookup_trace(results, qs));
                    assert(answered_in_turn(states, results, qs));
                    assert(results.drop_last() =~= before);
                    assert(gathered(results) == Err::<Seq<RecordView>, RepositoryError>(e));
                    if all_known(start, qs) {
                        let all = known_answers(start, qs);
                        assert(results =~= all.take(i + 1));
                        lemma_gathered_error_stays(all, i + 1);
                    }
                }
                return Err(e);
            },
        }
        i = i + 1;
    }
    proof {
        if all_known(start, qs) {
            assert(known_answers(start, qs).take(i as int) =~= known_answers(start, qs));
        }
        assert(lookup_trace(results, qs));
    }
    Ok(answers)
}

impl<D: Decoder, E: Encoder, R: ResourceRecordRepository> Server<D, E, R> {
    pub fn new(decoder: D, encoder: E, storage: R) -> (r: Self)
        ensures
            r.decoder == decoder,
            r.encoder == encoder,
            r.storage == storage,
    {
        Server { decoder, encoder, storage }
    }

    /// Handles one request. A buffer too short to hold a header is dropped
    /// (`None`). A request that does not decode gets a FormatError response
    /// with its id. Otherwise the response holds whatever the repository
    /// returned for the questions, sized to the transport.
    pub fn handle(&mut self, buffer: &[u8], transport: Transport) -> (r: Option<Vec<u8>>)
        ensures
            final(self).decoder == old(self).decoder,
            final(self).encoder == old(self).encoder,
            buffer@.len() < 12 ==> r is None,
            buffer@.len() >= 12 ==> match old(self).decoder.decoding(buffer@) {
                Err(_) => r matches Some(bytes) && bytes@ == old(self).encoder.encoding(
                    format_error_view(be16(buffer@[0], buffer@[1]) as u16),
                ),
                Ok(request) => r matches Some(bytes) && (exists|
                    results: Seq<Result<Seq<RecordView>, RepositoryError>>,
                    states: Seq<R>,
                |
                    #![trigger answered_in_turn(states, results, request.questions)]
                    lookup_trace(results, request.questions) && answered_in_turn(
                        states,
                        results,
                        request.questions,
                    ) && states[0] == old(self).storage && states.last() == final(self).storage
                        && bytes@ == sized_response(
                        old(self).encoder,
                        response_view(request, gathered(results)),
                        size_limit(request, transport),
                    )) && (all_known(old(self).storage, request.questions) ==> bytes@
                    == sized_response(
                    old(self).encoder,
                    response_view(request, gathered(known_answers(old(self).storage, request.questions))),
                    size_limit(request, transport),
                )),
            },
    {
        if buffer.len() < 12 {
            return None;
        }
        match self.decoder.decode(buffer) {
            Err(_) => {
                let id = concat_two_u8s(buffer[0], buffer[1]);
                Some(self.encoder.encode(format_error_response(id)))
            },
            Ok(message) => {
                let limit = match transport {
                    Transport::Udp => message.max_message_size(),
                    Transport::Tcp => TCP_MAX_MESSAGE_SIZE,
                };
                let ghost before = self.storage;
                let answers = resolve(&mut self.storage, &message.questions);
                let ghost a = answers_view(answers);
                let ghost request = message@;
                proof {
                    let qs = request.questions;
                    let (rs, st) = choose|
                        rs: Seq<Result<Seq<RecordView>, RepositoryError>>,
                        st: Seq<R>,
                    |
                        #![trigger answered_in_turn(st, rs, qs)]
                        lookup_trace(rs, qs) && answered_in_turn(st, rs, qs) && st[0] == before
                            && st.last() == self.storage && a == gathered(rs);
                    assert(answered_in_turn(st, rs, qs));
                }
                let response = build_response(message, answers);
                let bytes = fit_response(&self.encoder, response, limit);
                assert(bytes@ == sized_response(
                    self.encoder,
                    response_view(request, a),
                    size_limit(request, transport),
                ));
                Some(bytes)
            },
        }
    }
}

/// Over UDP without OPT the limit is 512 bytes, and a response whose encoding
/// exceeds it is replaced by its truncated form: TC set, no records in any
/// section, response code NoError.
pub proof fn lemma_udp_truncation<E: Encoder>(encoder: E, request: MessageView, response: MessageView)
    requires
        request.opt is None,
        encoder.encoding(response).len() > 512,
    ensures
        size_limit(request, Transport::Udp) == 512,
        sized_response(encoder, response, size_limit(request, Transport::Udp)) == encoder.encoding(
            response.truncated(),
        ),
        response.truncated().header.truncated,
        response.truncated().header.response_code == ResponseCode::NoError,
        response.truncated().answers.len() == 0,
        response.truncated().authorities.len() == 0,
        response.truncated().additionals.len() == 0,
        response.truncated().opt is None,
        response.truncated().header.id == response.header.id,
        response.truncated().questions == response.questions,
{
}

/// Over UDP with an OPT record advertising a payload size, that size is the limit.
pub proof fn lemma_edns_limit(request: MessageView)
    requires
        request.opt is Some,
    ensures
        size_limit(request, Transport::Udp) == request.opt->Some_0.udp_payload_size,
{
}

/// The TCP frame of a message: its length as two big-endian bytes, then the message.
pub fn tcp_frame(message: &[u8]) -> (r: Vec<u8>)
    requires
        message@.len() <= TCP_MAX_MESSAGE_SIZE,
    ensures
        r@ == crate::utils::u16_bytes(message@.len() as u16) + message@,
{
    let mut r: Vec<u8> = Vec::new();
    crate::utils::push_u16_to_u8_vec(&mut r, message.len() as u16);
    let mut i: usize = 0;
    let ghost prefix = r@;
    while i < message.len()
        invariant
            i <= message@.len(),
            r@ == prefix + message@.take(i as int),
        decreases message@.len() - i,
    {
        r.push(message[i]);
        assert(r@ =~= prefix + message@.take(i + 1));
        i = i + 1;
    }
    assert(message@.take(i as int) =~= message@);
    r
}

} // verus!

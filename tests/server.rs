use std::cell::Cell;
use std::rc::Rc;

use dns_server::common::domain_name::DomainName;
use dns_server::common::header::{Header, MessageType, QueryType, ResponseCode};
use dns_server::common::opt_record::OptRecord;
use dns_server::common::question::{Class, Question, Type};
use dns_server::common::resource_record::{ResourceRecord, Type as RRType};
use dns_server::common::Message;
use dns_server::decoder::{Decoder, MessageDecoder};
use dns_server::encoder::{Encoder, MessageEncoder};
use dns_server::server::{
    build_response, fit_response, format_error_response, resolve, tcp_frame, Server, Transport,
};
use dns_server::storage::combined::{accept_fallback_answer, cached_answer, CombinedRepository};
use dns_server::storage::fallback::{answers_from_upstream_reply, generate_message_with_question};
use dns_server::storage::{
    InMemoryResourceRecordRepository, RepositoryError, ResourceRecordRepository,
};

fn query(id: u16, name: &str, type_: Type, opt: Option<OptRecord>) -> Vec<u8> {
    let additional = if opt.is_some() { 1 } else { 0 };
    let message = Message::new(
        Header {
            id,
            qr: MessageType::Query,
            opcode: QueryType::Standard,
            authoritative_answer: false,
            truncated: false,
            recursion_desired: true,
            recursion_available: false,
            reserved: false,
            response_code: ResponseCode::NoError,
            questions_count: 1,
            answers_count: 0,
            authority_count: 0,
            additional_count: additional,
        },
        vec![Question { name: DomainName::from(name), type_, class: Class::IN }],
        vec![],
        vec![],
        vec![],
        opt,
    );
    MessageEncoder {}.encode(message)
}

fn a_record(name: &str, ttl: u32, address: [u8; 4]) -> ResourceRecord {
    ResourceRecord::new(DomainName::from(name), RRType::A, Class::IN, ttl, address.to_vec())
}

fn server_with(
    store: InMemoryResourceRecordRepository,
) -> Server<MessageDecoder, MessageEncoder, InMemoryResourceRecordRepository> {
    Server::new(MessageDecoder {}, MessageEncoder {}, store)
}

#[test]
fn a_record_cache_hit() {
    let mut store = InMemoryResourceRecordRepository::new();
    store.save(a_record("google.com.", 3600, [74, 125, 193, 101]));
    let mut server = server_with(store);

    let request = [
        0xE2, 0x2C, 0x01, 0x00, 0, 1, 0, 0, 0, 0, 0, 0, // header: RD, one question
        6, b'g', b'o', b'o', b'g', b'l', b'e', 3, b'c', b'o', b'm', 0, // google.com.
        0, 1, // A
        0, 1, // IN
    ];
    let bytes = server.handle(&request, Transport::Udp).unwrap();
    let response = MessageDecoder {}.decode(&bytes).unwrap();

    assert_eq!(0xE22C, response.header.id);
    assert_eq!(MessageType::Response, response.header.qr);
    assert!(response.header.recursion_available);
    assert_eq!(
        (1, 1, 0, 0),
        (
            response.header.questions_count,
            response.header.answers_count,
            response.header.authority_count,
            response.header.additional_count
        )
    );
    assert_eq!(vec![0x4A, 0x7D, 0xC1, 0x65], response.answers[0].resource_data);
}

struct Upstream {
    calls: Rc<Cell<usize>>,
    answer: ResourceRecord,
}

impl ResourceRecordRepository for Upstream {
    fn get_resource_records(
        &mut self,
        _question: Question,
    ) -> Result<Vec<ResourceRecord>, RepositoryError> {
        self.calls.set(self.calls.get() + 1);
        Ok(vec![self.answer.clone()])
    }
}

#[test]
fn upstream_forwarding_with_insert() {
    let calls = Rc::new(Cell::new(0));
    let upstream = Upstream {
        calls: calls.clone(),
        answer: a_record("example.com.", 1800, [93, 184, 216, 34]),
    };
    let repository =
        CombinedRepository::new(InMemoryResourceRecordRepository::new(), upstream);
    let mut server = Server::new(MessageDecoder {}, MessageEncoder {}, repository);

    let first = server
        .handle(&query(1, "example.com.", Type::RRType(RRType::A), None), Transport::Udp)
        .unwrap();
    let first = MessageDecoder {}.decode(&first).unwrap();
    assert_eq!(vec![a_record("example.com.", 1800, [93, 184, 216, 34])], first.answers);
    assert_eq!(1, calls.get());

    let second = server
        .handle(&query(2, "example.com.", Type::RRType(RRType::A), None), Transport::Udp)
        .unwrap();
    let second = MessageDecoder {}.decode(&second).unwrap();
    assert_eq!(first.answers, second.answers);
    assert_eq!(2, second.header.id);
    assert_eq!(1, calls.get());
}

#[test]
fn zero_ttl_answers_are_not_cached() {
    let calls = Rc::new(Cell::new(0));
    let upstream = Upstream { calls: calls.clone(), answer: a_record("t.example.", 0, [1, 2, 3, 4]) };
    let mut repository =
        CombinedRepository::new(InMemoryResourceRecordRepository::new(), upstream);
    let question = Question {
        name: DomainName::from("t.example."),
        type_: Type::RRType(RRType::A),
        class: Class::IN,
    };
    assert_eq!(1, repository.get_resource_records(question.clone()).unwrap().len());
    assert_eq!(1, repository.get_resource_records(question).unwrap().len());
    assert_eq!(2, calls.get());
}

#[test]
fn name_compression_round_trip() {
    let response: &[u8] = &[
        0xE2, 0x2C, 129, 128, 0, 1, 0, 1, 0, 0, 0, 0, // header
        6, b'g', b'o', b'o', b'g', b'l', b'e', 3, b'c', b'o', b'm', 0, 0, 1, 0, 1, // question
        0xC0, 0x0C, 0, 1, 0, 1, 0, 0, 0, 244, 0, 4, 216, 58, 214, 174, // answer
    ];
    assert_eq!(44, response.len());
    let message = MessageDecoder {}.decode(response).unwrap();
    assert_eq!(DomainName::from("google.com."), message.answers[0].name);
    assert_eq!(vec![216, 58, 214, 174], message.answers[0].resource_data);
}

fn big_store() -> InMemoryResourceRecordRepository {
    let mut store = InMemoryResourceRecordRepository::new();
    for i in 0..30u8 {
        store.save(a_record("big.example.", 300, [10, 0, 0, i]));
    }
    store
}

#[test]
fn udp_truncation() {
    let mut server = server_with(big_store());
    let bytes = server
        .handle(&query(9, "big.example.", Type::RRType(RRType::A), None), Transport::Udp)
        .unwrap();
    assert!(bytes.len() <= 512);
    let response = MessageDecoder {}.decode(&bytes).unwrap();
    assert!(response.header.truncated);
    assert_eq!(ResponseCode::NoError, response.header.response_code);
    assert!(response.answers.is_empty());
    assert!(response.authorities.is_empty());
    assert!(response.additionnals.is_empty());
    assert_eq!(1, response.questions.len());
}

#[test]
fn edns_enlargement() {
    let mut server = server_with(big_store());
    let opt = OptRecord::new(4096, 0, 0, false, vec![]);
    let bytes = server
        .handle(&query(9, "big.example.", Type::RRType(RRType::A), Some(opt)), Transport::Udp)
        .unwrap();
    assert!(bytes.len() > 512);
    assert!(bytes.len() <= 4096);
    let response = MessageDecoder {}.decode(&bytes).unwrap();
    assert!(!response.header.truncated);
    assert_eq!(30, response.answers.len());
}

#[test]
fn edns_payload_below_the_response_still_truncates() {
    let mut server = server_with(big_store());
    let opt = OptRecord::new(600, 0, 0, false, vec![]);
    let bytes = server
        .handle(&query(9, "big.example.", Type::RRType(RRType::A), Some(opt)), Transport::Udp)
        .unwrap();
    let response = MessageDecoder {}.decode(&bytes).unwrap();
    assert!(response.header.truncated);
    assert!(response.answers.is_empty());
    assert_eq!(None, response.opt_record);
}

#[test]
fn tcp_is_not_truncated() {
    let mut server = server_with(big_store());
    let bytes = server
        .handle(&query(9, "big.example.", Type::RRType(RRType::A), None), Transport::Tcp)
        .unwrap();
    let response = MessageDecoder {}.decode(&bytes).unwrap();
    assert!(!response.header.truncated);
    assert_eq!(30, response.answers.len());
    let framed = tcp_frame(&bytes);
    assert_eq!(bytes.len(), (framed[0] as usize) * 256 + framed[1] as usize);
    assert_eq!(&bytes[..], &framed[2..]);
}

#[test]
fn malformed_input() {
    let mut server = server_with(big_store());
    assert_eq!(None, server.handle(&[1, 2, 3, 4], Transport::Udp));
    // the server keeps serving
    assert!(server
        .handle(&query(3, "big.example.", Type::RRType(RRType::A), None), Transport::Udp)
        .is_some());
}

#[test]
fn undecodable_request_gets_format_error() {
    let mut server = server_with(big_store());
    // a header announcing a question that is not there
    let bytes = server.handle(&[0xAB, 0xCD, 1, 0, 0, 1, 0, 0, 0, 0, 0, 0], Transport::Udp).unwrap();
    let response = MessageDecoder {}.decode(&bytes).unwrap();
    assert_eq!(0xABCD, response.header.id);
    assert_eq!(ResponseCode::FormatError, response.header.response_code);
    assert_eq!(MessageType::Response, response.header.qr);
    assert_eq!(format_error_response(0xABCD), response);
}

#[test]
fn axfr_gets_server_failure() {
    let mut server = server_with(big_store());
    let bytes = server.handle(&query(4, "big.example.", Type::AXFR, None), Transport::Udp).unwrap();
    let response = MessageDecoder {}.decode(&bytes).unwrap();
    assert_eq!(ResponseCode::ServerFailure, response.header.response_code);
    assert!(response.answers.is_empty());
}

#[test]
fn lookup_matching_rules() {
    let mut store = InMemoryResourceRecordRepository::new();
    store.save(a_record("Mixed.Example.", 60, [1, 1, 1, 1]));
    store.save(ResourceRecord::new(
        DomainName::from("mixed.example."),
        RRType::MX,
        Class::IN,
        60,
        vec![0, 1, 0],
    ));
    store.save(ResourceRecord::new(
        DomainName::from("mixed.example."),
        RRType::MB_EXP,
        Class::CH,
        60,
        vec![0],
    ));
    let ask = |type_: Type, class: Class| Question {
        name: DomainName::from("MIXED.example."),
        type_,
        class,
    };
    assert_eq!(1, store.lookup(&ask(Type::RRType(RRType::A), Class::IN)).unwrap().len());
    assert_eq!(2, store.lookup(&ask(Type::ALL, Class::IN)).unwrap().len());
    assert_eq!(3, store.lookup(&ask(Type::ALL, Class::ALL)).unwrap().len());
    assert_eq!(1, store.lookup(&ask(Type::MAILA, Class::IN)).unwrap().len());
    assert_eq!(0, store.lookup(&ask(Type::MAILB, Class::IN)).unwrap().len());
    assert_eq!(1, store.lookup(&ask(Type::MAILB, Class::CH)).unwrap().len());
    assert!(matches!(
        store.lookup(&ask(Type::AXFR, Class::IN)),
        Err(RepositoryError::NotImplemented)
    ));
    let other = Question {
        name: DomainName::from("other.example."),
        type_: Type::ALL,
        class: Class::ALL,
    };
    assert!(store.lookup(&other).unwrap().is_empty());
}

#[test]
fn saving_the_same_record_twice_keeps_one() {
    let mut store = InMemoryResourceRecordRepository::new();
    store.save(a_record("a.example.", 60, [1, 2, 3, 4]));
    store.save(a_record("a.example.", 120, [1, 2, 3, 4]));
    store.save(a_record("a.example.", 60, [1, 2, 3, 5]));
    let found = store
        .get_resource_records(Question {
            name: DomainName::from("a.example."),
            type_: Type::RRType(RRType::A),
            class: Class::IN,
        })
        .unwrap();
    assert_eq!(
        vec![a_record("a.example.", 120, [1, 2, 3, 4]), a_record("a.example.", 60, [1, 2, 3, 5])],
        found
    );
}

#[test]
fn cache_answers_skips_zero_ttl() {
    let mut store = InMemoryResourceRecordRepository::new();
    store.cache_answers(&vec![a_record("z.example.", 0, [1, 1, 1, 1]), a_record("z.example.", 5, [2, 2, 2, 2])]);
    let found = store
        .lookup(&Question {
            name: DomainName::from("z.example."),
            type_: Type::ALL,
            class: Class::ALL,
        })
        .unwrap();
    assert_eq!(vec![a_record("z.example.", 5, [2, 2, 2, 2])], found);
}

#[test]
fn response_building() {
    let request = MessageDecoder {}
        .decode(&query(5, "x.example.", Type::RRType(RRType::A), None))
        .unwrap();
    let ok = build_response(request.clone(), Ok(vec![a_record("x.example.", 1, [9, 9, 9, 9])]));
    assert_eq!(1, ok.header.answers_count);
    assert!(ok.header.recursion_available);
    assert_eq!(MessageType::Response, ok.header.qr);
    let failed = build_response(request, Err(RepositoryError::FallbackServerTimeout));
    assert_eq!(ResponseCode::ServerFailure, failed.header.response_code);
    assert_eq!(0, failed.header.answers_count);
    let small = fit_response(&MessageEncoder {}, ok.clone(), 20);
    let decoded = MessageDecoder {}.decode(&small).unwrap();
    assert_eq!(ok.truncate(), decoded);
}

#[test]
fn upstream_query_and_reply() {
    let question = Question {
        name: DomainName::from("example.com."),
        type_: Type::RRType(RRType::A),
        class: Class::IN,
    };
    let query = generate_message_with_question(question.clone(), 77);
    assert_eq!(77, query.header.id);
    assert!(query.header.recursion_desired);
    assert_eq!(vec![question], query.questions);
    assert_eq!(None, query.opt_record);

    let reply = [
        0, 77, 129, 128, 0, 0, 0, 1, 0, 0, 0, 0, // header
        0, 0, 1, 0, 1, 0, 0, 0, 5, 0, 4, 1, 2, 3, 4, // one answer for the root
    ];
    let answers = answers_from_upstream_reply(&MessageDecoder {}, &reply).unwrap();
    let root = DomainName { labels: vec![vec![]] };
    assert_eq!(vec![ResourceRecord::new(root, RRType::A, Class::IN, 5, vec![1, 2, 3, 4])], answers);
    assert!(matches!(
        answers_from_upstream_reply(&MessageDecoder {}, &[0, 1]),
        Err(RepositoryError::DecodingFallbackServerResponseError(_))
    ));
}

struct FailingUpstream;

impl ResourceRecordRepository for FailingUpstream {
    fn get_resource_records(
        &mut self,
        _question: Question,
    ) -> Result<Vec<ResourceRecord>, RepositoryError> {
        Err(RepositoryError::FallbackServerTimeout)
    }
}

#[test]
fn fallback_error_is_returned_and_nothing_cached() {
    let mut repository =
        CombinedRepository::new(InMemoryResourceRecordRepository::new(), FailingUpstream);
    let question = Question {
        name: DomainName::from("gone.example."),
        type_: Type::RRType(RRType::A),
        class: Class::IN,
    };
    assert!(matches!(
        repository.get_resource_records(question.clone()),
        Err(RepositoryError::FallbackServerTimeout)
    ));
    assert!(repository.in_memory_repository.lookup(&question).unwrap().is_empty());
}

#[test]
fn failing_repository_gives_server_failure() {
    let repository =
        CombinedRepository::new(InMemoryResourceRecordRepository::new(), FailingUpstream);
    let mut server = Server::new(MessageDecoder {}, MessageEncoder {}, repository);
    let bytes = server
        .handle(&query(6, "gone.example.", Type::RRType(RRType::A), None), Transport::Udp)
        .unwrap();
    let response = MessageDecoder {}.decode(&bytes).unwrap();
    assert_eq!(6, response.header.id);
    assert_eq!(ResponseCode::ServerFailure, response.header.response_code);
    assert!(response.answers.is_empty());
}

#[test]
fn resolve_gathers_in_order_and_stops_at_the_first_error() {
    let mut store = big_store();
    store.save(a_record("small.example.", 60, [7, 7, 7, 7]));
    let ask = |name: &str, type_: Type| Question { name: DomainName::from(name), type_, class: Class::IN };
    let answers = resolve(
        &mut store,
        &vec![ask("small.example.", Type::RRType(RRType::A)), ask("big.example.", Type::RRType(RRType::A))],
    )
    .unwrap();
    assert_eq!(31, answers.len());
    assert_eq!(a_record("small.example.", 60, [7, 7, 7, 7]), answers[0]);
    assert!(matches!(
        resolve(
            &mut store,
            &vec![ask("small.example.", Type::RRType(RRType::A)), ask("big.example.", Type::AXFR)],
        ),
        Err(RepositoryError::NotImplemented)
    ));
}

#[test]
fn cache_aside_steps() {
    let mut store = InMemoryResourceRecordRepository::new();
    let question = Question {
        name: DomainName::from("step.example."),
        type_: Type::RRType(RRType::A),
        class: Class::IN,
    };
    assert!(cached_answer(&store, &question).unwrap().is_none());
    let answer = accept_fallback_answer(&mut store, Ok(vec![a_record("step.example.", 9, [5, 5, 5, 5])]));
    assert_eq!(vec![a_record("step.example.", 9, [5, 5, 5, 5])], answer.unwrap());
    assert_eq!(
        Some(vec![a_record("step.example.", 9, [5, 5, 5, 5])]),
        cached_answer(&store, &question).unwrap()
    );
}

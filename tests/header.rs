use dns_server::common::header::{
    extract_header_bits_from_buffer, Header, MessageType, QueryType, ResponseCode,
};
use dns_server::decoder::header::decode;
use dns_server::decoder::DecodingError;
use dns_server::encoder::header::encode;

const BUFFER: &[u8; 12] = &[226, 44, 1, 0, 0, 1, 0, 0, 0, 0, 0, 0];

#[test]
fn test() {
    let header = decode(BUFFER).unwrap();

    let expected_header = Header {
        id: 57900,
        qr: MessageType::Query,
        opcode: QueryType::Standard,
        authoritative_answer: false,
        truncated: false,
        recursion_desired: true,
        recursion_available: false,
        reserved: false,
        response_code: ResponseCode::NoError,
        questions_count: 1,
        answers_count: 0,
        authority_count: 0,
        additional_count: 0,
    };

    assert!(header == expected_header);
}

#[test]
fn encode_header() {
    let header = Header {
        id: 57900,
        qr: MessageType::Query,
        opcode: QueryType::Standard,
        authoritative_answer: false,
        truncated: false,
        recursion_desired: true,
        recursion_available: true,
        reserved: false,
        response_code: ResponseCode::FormatError,
        questions_count: 1,
        answers_count: 0,
        authority_count: 12,
        additional_count: 0,
    };

    let encoded = encode(header);

    assert_eq!(
        [226, 44, 1, 129, 0, 1, 0, 0, 0, 12, 0, 0],
        encoded.as_slice()
    );
}

#[test]
fn unknown_opcode_is_rejected() {
    // opcode 3 in bits 1..5 of the third byte
    let buffer: &[u8; 12] = &[0, 1, 0b0001_1000, 0, 0, 0, 0, 0, 0, 0, 0, 0];
    assert_eq!(Err(DecodingError::InvalidHeaderQueryType(3)), decode(buffer));
}

#[test]
fn unknown_rcode_is_rejected() {
    let buffer: &[u8; 12] = &[0, 1, 0, 6, 0, 0, 0, 0, 0, 0, 0, 0];
    assert_eq!(Err(DecodingError::InvalidHeaderResponseCode(6)), decode(buffer));
}

#[test]
fn reserved_bits_are_ignored_and_flags_read() {
    // QR, opcode 2, AA, TC, RD; RA, Z bits set, rcode 5
    let buffer: &[u8; 12] = &[1, 2, 0b1001_0111, 0b1111_0101, 0, 1, 0, 2, 0, 3, 0, 4];
    let header = decode(buffer).unwrap();
    assert_eq!(
        Header {
            id: 258,
            qr: MessageType::Response,
            opcode: QueryType::ServerStatusRequest,
            authoritative_answer: true,
            truncated: true,
            recursion_desired: true,
            recursion_available: true,
            reserved: false,
            response_code: ResponseCode::Refused,
            questions_count: 1,
            answers_count: 2,
            authority_count: 3,
            additional_count: 4,
        },
        header
    );
    // Z bits are written as zero
    assert_eq!(vec![1, 2, 0b1001_0111, 0b1000_0101, 0, 1, 0, 2, 0, 3, 0, 4], encode(header));
}

#[test]
fn header_round_trip() {
    let header = Header {
        id: 0xBEEF,
        qr: MessageType::Response,
        opcode: QueryType::Inverse,
        authoritative_answer: false,
        truncated: true,
        recursion_desired: false,
        recursion_available: true,
        reserved: false,
        response_code: ResponseCode::NameError,
        questions_count: 7,
        answers_count: 300,
        authority_count: 0,
        additional_count: 65535,
    };
    let bytes = encode(header);
    let array: [u8; 12] = bytes.as_slice().try_into().unwrap();
    assert_eq!(Ok(header), decode(&array));
}

#[test]
fn response_code_values() {
    assert_eq!(0, ResponseCode::NoError.value());
    assert_eq!(1, ResponseCode::FormatError.value());
    assert_eq!(2, ResponseCode::ServerFailure.value());
    assert_eq!(3, ResponseCode::NameError.value());
    assert_eq!(4, ResponseCode::NotImplemented.value());
    assert_eq!(5, ResponseCode::Refused.value());
}

#[test]
fn header_bits_split_off() {
    let buffer = [1u8, 2, 3, 4, 5, 6, 7, 8, 9, 10, 11, 12, 13, 14];
    let (header, rest) = extract_header_bits_from_buffer(&buffer);
    assert_eq!(&buffer[..12], header);
    assert_eq!(&[13, 14], rest);
}

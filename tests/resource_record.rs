use dns_server::common::domain_name::DomainName;
use dns_server::common::question::Class;
use dns_server::common::resource_record::{ResourceRecord, Type};
use dns_server::decoder::resource_record::{
    decode, decode_record_type_as_domain_name, decode_type_a_data, decode_type_aaaa_data,
    decode_type_mx_data, decode_type_txt_data,
};
use dns_server::decoder::DecodingError;
use dns_server::encoder::domain_name::encode as encode_domain_name;
use dns_server::encoder::resource_record::{encode, encode_type_txt_string};
use dns_server::resource_data::get_data_from_type_and_buffer;

#[test]
fn decode_resource_record() {
    let buffer = [
        6, b'g', b'o', b'o', b'g', b'l', b'e', 3, b'c', b'o', b'm',
        0, // name: "google.com"
        0, 1, // type: A (1)
        0, 1, // class: IN (1)
        0, 0, 0, 60, // ttl: 60 seconds
        0x00, 0x04, // resource data length: 4 bytes
        192, 168, 0, 1, // resource data: IP address (192.168.0.1)
    ];

    let (rr, buffer) = decode(&buffer, &buffer).unwrap();

    let expected = ResourceRecord::new(
        DomainName::from("google.com"),
        Type::A,
        Class::IN,
        60,
        vec![192, 168, 0, 1],
    );

    assert_eq!(expected, rr);
    assert!(buffer.is_empty(), "Buffer should be empty after decoding");
}

#[test]
fn decode_aaaa_resource_record() {
    // IPv6 address: 2001:db8::1
    let buffer = [
        6, b'g', b'o', b'o', b'g', b'l', b'e', 3, b'c', b'o', b'm',
        0, // name: "google.com"
        0, 28, // type: AAAA (28)
        0, 1, // class: IN (1)
        0, 0, 0, 60, // ttl: 60 seconds
        0x00, 0x10, // resource data length: 16 bytes
        0x20, 0x01, 0x0d, 0xb8, 0x00, 0x00, 0x00, 0x00, // IPv6 address
        0x00, 0x00, 0x00, 0x00, 0x00, 0x00, 0x00, 0x01, // 2001:db8::1
    ];

    let (rr, buffer) = decode(&buffer, &buffer).unwrap();

    let expected = ResourceRecord::new(
        DomainName::from("google.com"),
        Type::AAAA,
        Class::IN,
        60,
        vec![
            0x20, 0x01, 0x0d, 0xb8, 0x00, 0x00, 0x00, 0x00, 0x00, 0x00, 0x00, 0x00, 0x00, 0x00,
            0x00, 0x01,
        ],
    );

    assert_eq!(expected, rr);
    assert!(buffer.is_empty(), "Buffer should be empty after decoding");
}

#[test]
fn decode_cname_resource_record() {
    // CNAME for www.example.com pointing to example.com
    let buffer = [
        3, b'w', b'w', b'w', 7, b'e', b'x', b'a', b'm', b'p', b'l', b'e', 3, b'c', b'o', b'm',
        0, // name: "www.example.com"
        0, 5, // type: CNAME (5)
        0, 1, // class: IN (1)
        0, 0, 14, 16, // ttl: 3600 seconds
        0, 13, // resource data length: 13 bytes (including trailing 0)
        7, b'e', b'x', b'a', b'm', b'p', b'l', b'e', 3, b'c', b'o', b'm',
        0, // cname target: "example.com"
    ];

    let (rr, buffer) = decode(&buffer, &buffer).unwrap();

    let expected = ResourceRecord::new(
        DomainName::from("www.example.com"),
        Type::CNAME,
        Class::IN,
        3600,
        vec![
            7, b'e', b'x', b'a', b'm', b'p', b'l', b'e', 3, b'c', b'o', b'm', 0,
        ],
    );

    assert_eq!(expected, rr);
    assert!(buffer.is_empty(), "Buffer should be empty after decoding");
}

#[test]
fn decode_ns_resource_record() {
    // NS record for example.com pointing to ns1.example.com
    let buffer = [
        7, b'e', b'x', b'a', b'm', b'p', b'l', b'e', 3, b'c', b'o', b'm',
        0, // name: "example.com"
        0, 2, // type: NS (2)
        0, 1, // class: IN (1)
        0, 1, 81, 128, // ttl: 86400 seconds (1 day)
        0, 17, // resource data length: 17 bytes
        3, b'n', b's', b'1', 7, b'e', b'x', b'a', b'm', b'p', b'l', b'e', 3, b'c', b'o', b'm',
        0, // ns target: "ns1.example.com"
    ];

    let (rr, buffer) = decode(&buffer, &buffer).unwrap();

    let expected = ResourceRecord::new(
        DomainName::from("example.com"),
        Type::NS,
        Class::IN,
        86400,
        vec![
            3, b'n', b's', b'1', 7, b'e', b'x', b'a', b'm', b'p', b'l', b'e', 3, b'c', b'o',
            b'm', 0,
        ],
    );

    assert_eq!(expected, rr);
    assert!(buffer.is_empty(), "Buffer should be empty after decoding");
}

#[test]
fn decode_mx_resource_record() {
    // MX record for example.com pointing to mail.example.com with preference 10
    let buffer = [
        7, b'e', b'x', b'a', b'm', b'p', b'l', b'e', 3, b'c', b'o', b'm',
        0, // name: "example.com"
        0, 15, // type: MX (15)
        0, 1, // class: IN (1)
        0, 0, 14, 16, // ttl: 3600 seconds
        0, 20, // resource data length: 20 bytes (2 for preference + 18 for domain)
        0, 10, // preference: 10
        4, b'm', b'a', b'i', b'l', 7, b'e', b'x', b'a', b'm', b'p', b'l', b'e', 3, b'c', b'o',
        b'm', 0, // exchange: "mail.example.com"
    ];

    let (rr, buffer) = decode(&buffer, &buffer).unwrap();

    let expected = ResourceRecord::new(
        DomainName::from("example.com"),
        Type::MX,
        Class::IN,
        3600,
        vec![
            0, 10, // preference: 10
            4, b'm', b'a', b'i', b'l', 7, b'e', b'x', b'a', b'm', b'p', b'l', b'e', 3, b'c',
            b'o', b'm', 0, // exchange: "mail.example.com"
        ],
    );

    assert_eq!(expected, rr);
    assert!(buffer.is_empty(), "Buffer should be empty after decoding");
}

#[test]
fn decode_type_mx_data_with_preference_and_domain() {
    // MX record: preference 10, mail.example.com
    let buffer = [
        0, 10, // preference: 10
        4, b'm', b'a', b'i', b'l', 7, b'e', b'x', b'a', b'm', b'p', b'l', b'e', 3, b'c', b'o',
        b'm', 0, // exchange: "mail.example.com"
    ];

    let result = decode_type_mx_data(&buffer, &buffer, buffer.len()).unwrap();

    // Should return the entire buffer
    assert_eq!(result, buffer.to_vec());
    assert_eq!(result.len(), 20, "MX data should be 20 bytes");
}

#[test]
fn mx_data_with_extra_bytes_is_rejected() {
    let buffer = [
        0, 10, // preference: 10
        4, b'm', b'a', b'i', b'l', 3, b'c', b'o', b'm', 0, // exchange: "mail.com"
        1, 2, 3, // extra bytes that shouldn't be here
    ];
    assert_eq!(
        Err(DecodingError::ResourceDataLengthMismatch { expected: 15, actual: 12 }),
        decode_type_mx_data(&buffer, &buffer, buffer.len())
    );
}

#[test]
fn mx_data_without_domain_is_rejected() {
    assert_eq!(Err(DecodingError::InvalidName), decode_type_mx_data(&[0, 10], &[0, 10], 2));
    assert_eq!(Err(DecodingError::InvalidName), decode_type_mx_data(&[], &[], 0));
}

#[test]
fn fixed_size_data() {
    assert_eq!(Ok(vec![1, 2, 3, 4]), decode_type_a_data(&[1, 2, 3, 4]));
    assert_eq!(
        Err(DecodingError::ResourceDataLengthMismatch { expected: 3, actual: 4 }),
        decode_type_a_data(&[1, 2, 3])
    );
    assert_eq!(
        Err(DecodingError::ResourceDataLengthMismatch { expected: 4, actual: 16 }),
        decode_type_aaaa_data(&[1, 2, 3, 4])
    );
    assert_eq!(Ok(vec![7; 16]), decode_type_aaaa_data(&[7; 16]));
}

#[test]
fn txt_data_shapes() {
    assert_eq!(Ok(vec![2, b'h', b'i', 1, b'x']), decode_type_txt_data(&[2, b'h', b'i', 1, b'x']));
    assert_eq!(
        Err(DecodingError::ResourceDataLengthMismatch { expected: 3, actual: 6 }),
        decode_type_txt_data(&[5, b'a', b'b'])
    );
    assert_eq!(
        Err(DecodingError::ResourceDataLengthMismatch { expected: 0, actual: 1 }),
        decode_type_txt_data(&[])
    );
}

#[test]
fn name_data_must_fill_the_rdata() {
    let buffer = [1, b'a', 0, 9];
    assert_eq!(Ok(vec![1, b'a', 0]), decode_record_type_as_domain_name(&buffer, &buffer, 3));
    assert_eq!(
        Err(DecodingError::ResourceDataLengthMismatch { expected: 4, actual: 3 }),
        decode_record_type_as_domain_name(&buffer, &buffer, 4)
    );
}

#[test]
fn record_with_wrong_a_length_is_rejected() {
    let buffer = [0, 0, 1, 0, 1, 0, 0, 0, 60, 0, 5, 1, 2, 3, 4, 5];
    assert_eq!(
        Err(DecodingError::ResourceDataLengthMismatch { expected: 5, actual: 4 }),
        decode(&buffer, &buffer).map(|_| ())
    );
}

#[test]
fn record_errors() {
    let unknown_type = [0, 0, 99, 0, 1, 0, 0, 0, 60, 0, 0];
    assert_eq!(
        Err(DecodingError::InvalidResourceRecordType(99)),
        decode(&unknown_type, &unknown_type).map(|_| ())
    );
    let unknown_class = [0, 0, 1, 0, 7, 0, 0, 0, 60, 0, 4, 1, 2, 3, 4];
    assert_eq!(
        Err(DecodingError::InvalidResourceRecordClass(7)),
        decode(&unknown_class, &unknown_class).map(|_| ())
    );
    let short_fields = [0, 0, 1, 0, 1];
    assert_eq!(
        Err(DecodingError::UnexpectedEndOfBuffer),
        decode(&short_fields, &short_fields).map(|_| ())
    );
    let overrun = [0, 0, 1, 0, 1, 0, 0, 0, 60, 0, 4, 1, 2];
    assert_eq!(
        Err(DecodingError::ResourceDataLengthMismatch { expected: 4, actual: 2 }),
        decode(&overrun, &overrun).map(|_| ())
    );
}

#[test]
fn opaque_types_keep_their_data() {
    let buffer = [0, 0, 64, 0, 1, 0, 0, 0, 1, 0, 3, 9, 8, 7];
    let (rr, rest) = decode(&buffer, &buffer).unwrap();
    assert_eq!(Type::SVCB, rr.type_);
    assert_eq!(vec![9, 8, 7], rr.resource_data);
    assert!(rest.is_empty());
}

#[test]
fn encode_resource_record() {
    let rr = ResourceRecord::new(
        DomainName::from("google.com"),
        Type::A,
        Class::IN,
        60,
        vec![192, 168, 0, 1],
    );

    let encoded_rr = encode(rr);

    let expected = [
        6, b'g', b'o', b'o', b'g', b'l', b'e', 3, b'c', b'o', b'm',
        0, // name: "google.com"
        0, 1, // type: A (1)
        0, 1, // class: IN (1)
        0, 0, 0, 60, // ttl: 60 seconds
        0, 4, // resource data length: 4 bytes
        192, 168, 0, 1, // resource data: IP address (192.168.0.1)
    ];

    assert_eq!(expected, encoded_rr.as_slice());
}

#[test]
fn encode_type_txt_string_with_simple_text() {
    let text = "hello world".as_bytes().to_vec();
    let encoded = encode_type_txt_string(text);

    // Expected: length byte (11) followed by the text
    let expected = vec![
        11, b'h', b'e', b'l', b'l', b'o', b' ', b'w', b'o', b'r', b'l', b'd',
    ];

    assert_eq!(expected, encoded);
}

#[test]
fn encode_type_txt_string_empty() {
    let text = String::new().as_bytes().to_vec();
    let encoded = encode_type_txt_string(text);

    // Expected: just a length byte of 0
    let expected = vec![0];

    assert_eq!(expected, encoded);
}

#[test]
fn encode_type_txt_string_max_length() {
    // TXT records can have up to 255 characters per string
    let text = "a".repeat(255).as_bytes().to_vec();
    let encoded = encode_type_txt_string(text);

    // Expected: length byte (255) followed by 255 'a' characters
    assert_eq!(256, encoded.len());
    assert_eq!(255, encoded[0]);
    assert!(encoded[1..].iter().all(|&b| b == b'a'));
}

#[test]
fn encode_txt_resource_record() {
    // TXT data is held in wire form: one character string built from the text
    let text_content = encode_type_txt_string("some content for google.com".as_bytes().to_vec());
    let rr = ResourceRecord::new(
        DomainName::from("google.com"),
        Type::TXT,
        Class::IN,
        3600,
        text_content,
    );

    let encoded_rr = encode(rr);

    let expected = [
        6, b'g', b'o', b'o', b'g', b'l', b'e', 3, b'c', b'o', b'm',
        0, // name: "google.com"
        0, 16, // type: TXT (16)
        0, 1, // class: IN (1)
        0, 0, 14, 16, // ttl: 3600 seconds
        0, 28, // resource data length: 28 bytes (1 length byte + 27 text bytes)
        27, // length byte
        b's', b'o', b'm', b'e', b' ', b'c', b'o', b'n', b't', b'e', b'n', b't', b' ', b'f',
        b'o', b'r', b' ', b'g', b'o', b'o', b'g', b'l', b'e', b'.', b'c', b'o', b'm',
    ];

    assert_eq!(expected, encoded_rr.as_slice());
}

#[test]
fn encode_cname_resource_record() {
    // CNAME for www.example.com pointing to example.com
    let cname_target = DomainName::from("example.com");
    let cname_data = encode_domain_name(cname_target);

    let rr = ResourceRecord::new(
        DomainName::from("www.example.com"),
        Type::CNAME,
        Class::IN,
        3600,
        cname_data,
    );

    let encoded_rr = encode(rr);

    let expected = [
        3, b'w', b'w', b'w', 7, b'e', b'x', b'a', b'm', b'p', b'l', b'e', 3, b'c', b'o', b'm',
        0, // name: "www.example.com"
        0, 5, // type: CNAME (5)
        0, 1, // class: IN (1)
        0, 0, 14, 16, // ttl: 3600 seconds
        0, 13, // resource data length: 13 bytes (including trailing 0)
        7, b'e', b'x', b'a', b'm', b'p', b'l', b'e', 3, b'c', b'o', b'm',
        0, // cname target: "example.com"
    ];

    assert_eq!(expected, encoded_rr.as_slice());
}

#[test]
fn encode_ns_resource_record() {
    // NS record for example.com pointing to ns1.example.com
    let ns_target = DomainName::from("ns1.example.com");
    let ns_data = encode_domain_name(ns_target);

    let rr = ResourceRecord::new(
        DomainName::from("example.com"),
        Type::NS,
        Class::IN,
        86400,
        ns_data,
    );

    let encoded_rr = encode(rr);

    let expected = [
        7, b'e', b'x', b'a', b'm', b'p', b'l', b'e', 3, b'c', b'o', b'm',
        0, // name: "example.com"
        0, 2, // type: NS (2)
        0, 1, // class: IN (1)
        0, 1, 81, 128, // ttl: 86400 seconds (1 day)
        0, 17, // resource data length: 17 bytes
        3, b'n', b's', b'1', 7, b'e', b'x', b'a', b'm', b'p', b'l', b'e', 3, b'c', b'o', b'm',
        0, // ns target: "ns1.example.com"
    ];

    assert_eq!(expected, encoded_rr.as_slice());
}

#[test]
fn record_round_trip() {
    let rr = ResourceRecord::new(
        DomainName::from("Example.net"),
        Type::MX,
        Class::CH,
        0xFFFF_FFFF,
        vec![0, 5, 2, b'm', b'x', 0],
    );
    let encoded = encode(rr.clone());
    let (decoded, rest) = decode(&encoded, &encoded).unwrap();
    assert_eq!(rr, decoded);
    assert!(rest.is_empty());
}

#[test]
fn a_data_presentation() {
    assert_eq!("192.168.0.1", get_data_from_type_and_buffer(Type::A, &[192, 168, 0, 1]));
    assert_eq!("8.80.255.0", get_data_from_type_and_buffer(Type::A, &[8, 80, 255, 0]));
    assert_eq!("Unknown RR type", get_data_from_type_and_buffer(Type::MX, &[0, 1]));
}

#[test]
fn record_type_codes() {
    assert_eq!(Ok(Type::OPT), Type::try_from(41));
    assert_eq!(Ok(Type::AAAA), Type::try_from(28));
    assert_eq!(Err(29), Type::try_from(29));
    assert_eq!(65u16, u16::from(Type::HTTPS));
    assert_eq!(16u16, u16::from(Type::TXT));
}

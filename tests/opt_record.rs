use dns_server::common::opt_record::{EdnsOption, OptRecord};
use dns_server::decoder::opt_record::{decode, decode_options, decode_ttl};
use dns_server::decoder::{DecodingError, OptRecordFault};
use dns_server::encoder::opt_record::{encode, encode_options, encode_ttl};

#[test]
fn decode_opt_record_basic() {
    // OPT record with no options
    let buffer = [
        0, // NAME: root (0)
        0, 41, // TYPE: OPT (41)
        0x10, 0x00, // CLASS: UDP payload size 4096
        0x00, 0x00, 0x00, 0x00, // TTL: extended_rcode=0, version=0, flags=0
        0x00, 0x00, // RDLEN: 0 (no options)
    ];

    let (opt, remaining) = decode(&buffer).unwrap();

    assert_eq!(opt.udp_payload_size, 4096);
    assert_eq!(opt.extended_rcode, 0);
    assert_eq!(opt.version, 0);
    assert_eq!(opt.dnssec_ok, false);
    assert!(opt.options.is_empty());
    assert!(remaining.is_empty());
}

#[test]
fn decode_opt_record_with_dnssec() {
    // OPT record with DNSSEC OK flag set
    let buffer = [
        0, // NAME: root (0)
        0, 41, // TYPE: OPT (41)
        0x10, 0x00, // CLASS: UDP payload size 4096
        0x00, 0x00, 0x80, 0x00, // TTL: DO flag set (bit 15)
        0x00, 0x00, // RDLEN: 0
    ];

    let (opt, _) = decode(&buffer).unwrap();

    assert_eq!(opt.dnssec_ok, true);
}

#[test]
fn decode_opt_record_with_option() {
    // OPT record with one option (code 10, length 2, data [0xAB, 0xCD])
    let buffer = [
        0, // NAME: root (0)
        0, 41, // TYPE: OPT (41)
        0x10, 0x00, // CLASS: UDP payload size 4096
        0x00, 0x00, 0x00, 0x00, // TTL
        0x00, 0x06, // RDLEN: 6 bytes (4 for option header + 2 for data)
        0x00, 0x0A, // Option code: 10
        0x00, 0x02, // Option length: 2
        0xAB, 0xCD, // Option data
    ];

    let (opt, _) = decode(&buffer).unwrap();

    assert_eq!(opt.options.len(), 1);
    assert_eq!(opt.options[0].code, 10);
    assert_eq!(opt.options[0].data, vec![0xAB, 0xCD]);
}

#[test]
fn decode_opt_record_invalid_name() {
    // OPT record with non-zero NAME (invalid)
    let buffer = [
        3, b'c', b'o', b'm', 0, // NAME: com. (invalid for OPT)
        0, 41, // TYPE: OPT (41)
        0x10, 0x00, // CLASS
        0x00, 0x00, 0x00, 0x00, // TTL
        0x00, 0x00, // RDLEN
    ];

    let result = decode(&buffer);
    assert!(matches!(result, Err(DecodingError::InvalidOptRecord(_))));
}

#[test]
fn test_opt_record_decode_ttl() {
    let (extended_rcode, version, dnssec_ok) = decode_ttl(0xAB008000);
    assert_eq!(extended_rcode, 0xAB);
    assert_eq!(version, 0);
    assert_eq!(dnssec_ok, true);
}

#[test]
fn test_opt_record_decode_ttl_no_dnssec() {
    let (extended_rcode, version, dnssec_ok) = decode_ttl(0x12000000);
    assert_eq!(extended_rcode, 0x12);
    assert_eq!(version, 0);
    assert_eq!(dnssec_ok, false);
}

#[test]
fn decode_ttl_reads_version() {
    assert_eq!((0x01, 0x02, true), decode_ttl(0x0102_FFFF));
    assert_eq!((0, 0, false), decode_ttl(0x0000_7FFF));
}

#[test]
fn malformed_options_are_rejected() {
    assert_eq!(
        Err(DecodingError::InvalidOptRecord(OptRecordFault::MalformedOption)),
        decode_options(&[0, 1, 0])
    );
    assert_eq!(
        Err(DecodingError::InvalidOptRecord(OptRecordFault::MalformedOption)),
        decode_options(&[0, 1, 0, 3, 9, 9])
    );
    let options = decode_options(&[0, 1, 0, 0, 0, 2, 0, 1, 7]).unwrap();
    assert_eq!(vec![EdnsOption::new(1, vec![]), EdnsOption::new(2, vec![7])], options);
}

#[test]
fn truncated_opt_record_is_rejected() {
    assert_eq!(
        Err(DecodingError::InvalidOptRecord(OptRecordFault::Truncated)),
        decode(&[0, 0, 41, 0x10]).map(|_| ())
    );
    assert_eq!(
        Err(DecodingError::InvalidOptRecord(OptRecordFault::Truncated)),
        decode(&[0, 0, 41, 0x10, 0, 0, 0, 0, 0, 0, 4, 0, 1]).map(|_| ())
    );
    assert_eq!(
        Err(DecodingError::InvalidOptRecord(OptRecordFault::NonRootOwner)),
        decode(&[0xC0, 0x0C, 0, 41]).map(|_| ())
    );
}

#[test]
fn encode_opt_record_basic() {
    let opt = OptRecord::new(4096, 0, 0, false, vec![]);
    let encoded = encode(&opt);

    let expected = vec![
        0, // NAME: root (0)
        0, 41, // TYPE: OPT (41)
        0x10, 0x00, // CLASS: UDP payload size 4096
        0x00, 0x00, 0x00, 0x00, // TTL: extended_rcode=0, version=0, flags=0
        0x00, 0x00, // RDLEN: 0 (no options)
    ];

    assert_eq!(expected, encoded);
}

#[test]
fn encode_opt_record_with_dnssec() {
    let opt = OptRecord::new(4096, 0, 0, true, vec![]);
    let encoded = encode(&opt);

    let expected = vec![
        0, // NAME: root (0)
        0, 41, // TYPE: OPT (41)
        0x10, 0x00, // CLASS: UDP payload size 4096
        0x00, 0x00, 0x80, 0x00, // TTL: DO flag set (bit 15)
        0x00, 0x00, // RDLEN: 0
    ];

    assert_eq!(expected, encoded);
}

#[test]
fn encode_opt_record_with_option() {
    let option = EdnsOption::new(10, vec![0xAB, 0xCD]);
    let opt = OptRecord::new(4096, 0, 0, false, vec![option]);
    let encoded = encode(&opt);

    let expected = vec![
        0, // NAME: root (0)
        0, 41, // TYPE: OPT (41)
        0x10, 0x00, // CLASS: UDP payload size 4096
        0x00, 0x00, 0x00, 0x00, // TTL
        0x00, 0x06, // RDLEN: 6 bytes
        0x00, 0x0A, // Option code: 10
        0x00, 0x02, // Option length: 2
        0xAB, 0xCD, // Option data
    ];

    assert_eq!(expected, encoded);
}

#[test]
fn test_opt_record_encode_ttl_no_dnssec() {
    let opt = OptRecord::new(4096, 0, 0, false, vec![]);
    assert_eq!(encode_ttl(&opt), 0x00000000);
}

#[test]
fn test_opt_record_encode_ttl_with_dnssec() {
    let opt = OptRecord::new(4096, 0, 0, true, vec![]);
    assert_eq!(encode_ttl(&opt), 0x00008000);
}

#[test]
fn test_opt_record_encode_ttl_with_extended_rcode() {
    let opt = OptRecord::new(4096, 0x12, 0, false, vec![]);
    assert_eq!(encode_ttl(&opt), 0x12000000);
}

#[test]
fn test_opt_record_encode_ttl_full() {
    let opt = OptRecord::new(4096, 0xAB, 0, true, vec![]);
    assert_eq!(encode_ttl(&opt), 0xAB008000);
}

#[test]
fn opt_record_round_trip() {
    let opt = OptRecord::new(
        1232,
        3,
        1,
        true,
        vec![EdnsOption::new(8, vec![0, 1, 24, 0]), EdnsOption::new(65001, vec![])],
    );
    let encoded = encode(&opt);
    let (decoded, rest) = decode(&encoded).unwrap();
    assert_eq!(opt, decoded);
    assert!(rest.is_empty());
    assert_eq!(vec![0, 8, 0, 4, 0, 1, 24, 0, 0xFD, 0xE9, 0, 0], encode_options(&opt.options));
}

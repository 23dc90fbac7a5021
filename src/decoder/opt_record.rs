//! Decoding of the EDNS(0) OPT pseudo-record.

use vstd::prelude::*;

use crate::common::opt_record::{options_view, EdnsOption, OptRecord, OptView};
use crate::decoder::{DecodingError, OptRecordFault};
use crate::utils::{be16, be32, extract_next_sixteen_bits_from_buffer};

verus! {

/// The options packed in OPT RDATA: each is a code, a length and that many
/// bytes. `None` when one is cut short or overruns the data.
pub open spec fn options_of(data: Seq<u8>) -> Option<Seq<(u16, Seq<u8>)>>
    decreases data.len(),
{
    if data.len() == 0 {
        Some(Seq::empty())
    } else if data.len() < 4 {
        None
    } else {
        let len = be16(data[2], data[3]);
        if 4 + len > data.len() {
            None
        } else {
            match options_of(data.subrange(4 + len, data.len() as int)) {
                Some(rest) => Some(
                    seq![(be16(data[0], data[1]) as u16, data.subrange(4, 4 + len))] + rest,
                ),
                None => None,
            }
        }
    }
}

/// The extended RCODE, version and DO bit packed in the TTL field of an OPT record.
pub open spec fn ttl_fields(ttl: u32) -> (u8, u8, bool) {
    ((ttl / 16777216) as u8, ((ttl / 65536) % 256) as u8, (ttl / 32768) % 2 == 1)
}

/// The OPT record at the start of `b`, and where it ends.
pub open spec fn opt_of(b: Seq<u8>) -> Result<(OptView, int), DecodingError> {
    if b.len() >= 1 && b[0] != 0 {
        Err(DecodingError::InvalidOptRecord(OptRecordFault::NonRootOwner))
    } else if b.len() < 11 {
        Err(DecodingError::InvalidOptRecord(OptRecordFault::Truncated))
    } else {
        let len = be16(b[9], b[10]);
        if 11 + len > b.len() {
            Err(DecodingError::InvalidOptRecord(OptRecordFault::Truncated))
        } else {
            match options_of(b.subrange(11, 11 + len)) {
                None => Err(DecodingError::InvalidOptRecord(OptRecordFault::MalformedOption)),
                Some(options) => {
                    let fields = ttl_fields(be32(b[5], b[6], b[7], b[8]) as u32);
                    Ok(
                        (
                            OptView {
                                udp_payload_size: be16(b[3], b[4]) as u16,
                                extended_rcode: fields.0,
                                version: fields.1,
                                dnssec_ok: fields.2,
                                options,
                            },
                            11 + len,
                        ),
                    )
                },
            }
        }
    }
}

pub fn decode(buffer: &[u8]) -> (r: Result<(OptRecord, &[u8]), DecodingError>)
    ensures
        match opt_of(buffer@) {
            Ok((o, end)) => r matches Ok((opt, rest)) && opt@ == o && rest@ == buffer@.subrange(
                end,
                buffer@.len() as int,
            ),
            Err(e) => r matches Err(x) && x == e,
        },
{
    let ghost b = buffer@;
    // record name must always be 0 (root domain) for OPT
    if buffer.len() >= 1 && buffer[0] != 0 {
        return Err(DecodingError::InvalidOptRecord(OptRecordFault::NonRootOwner));
    }
    if buffer.len() < 11 {
        return Err(DecodingError::InvalidOptRecord(OptRecordFault::Truncated));
    }
    let buffer = vstd::slice::slice_subrange(buffer, 1, buffer.len());

    // TYPE field is always 41 for OPT, so we can skip it
    let (_, buffer) = extract_next_sixteen_bits_from_buffer(buffer);

    // CLASS field is UDP payload size
    let (udp_payload_size, buffer) = extract_next_sixteen_bits_from_buffer(buffer);

    // TTL field contains: extended_rcode (8 bits) + version (8 bits) + flags (16 bits)
    let (ttl_high, buffer) = extract_next_sixteen_bits_from_buffer(buffer);
    let (ttl_low, buffer) = extract_next_sixteen_bits_from_buffer(buffer);
    let ttl = (ttl_high as u32) * 65536 + ttl_low as u32;
    assert(ttl == be32(b[5], b[6], b[7], b[8]));

    let (extended_rcode, version, dnssec_ok) = decode_ttl(ttl);

    // RDLEN
    let (rdlen, buffer) = extract_next_sixteen_bits_from_buffer(buffer);
    assert(buffer@ =~= b.subrange(11, b.len() as int));
    if rdlen as usize > buffer.len() {
        return Err(DecodingError::InvalidOptRecord(OptRecordFault::Truncated));
    }

    // RDATA contains options
    let (rdata, buffer) = buffer.split_at(rdlen as usize);
    assert(rdata@ =~= b.subrange(11, 11 + rdlen));
    assert(buffer@ =~= b.subrange(11 + rdlen, b.len() as int));

    let options = match decode_options(rdata) {
        Ok(options) => options,
        Err(e) => return Err(e),
    };

    Ok((OptRecord::new(udp_payload_size, extended_rcode, version, dnssec_ok, options), buffer))
}

pub fn decode_ttl(ttl: u32) -> (r: (u8, u8, bool))
    ensures
        r == ttl_fields(ttl),
{
    let extended_rcode = (ttl / 16777216) as u8;
    let version = ((ttl / 65536) % 256) as u8;
    let dnssec_ok = (ttl / 32768) % 2 == 1;

    (extended_rcode, version, dnssec_ok)
}

pub fn decode_options(buffer: &[u8]) -> (r: Result<Vec<EdnsOption>, DecodingError>)
    ensures
        match options_of(buffer@) {
            Some(o) => r matches Ok(options) && options_view(options@) == o,
            None => r == Err::<Vec<EdnsOption>, _>(
                DecodingError::InvalidOptRecord(OptRecordFault::MalformedOption),
            ),
        },
{
    let mut options: Vec<EdnsOption> = Vec::new();
    let mut remaining = buffer;

    while !remaining.is_empty()
        invariant
            options_of(buffer@) == match options_of(remaining@) {
                Some(rest) => Some(options_view(options@) + rest),
                None => None,
            },
        decreases remaining@.len(),
    {
        if remaining.len() < 4 {
            return Err(DecodingError::InvalidOptRecord(OptRecordFault::MalformedOption));
        }
        let ghost here = remaining@;
        let (code, rest) = extract_next_sixteen_bits_from_buffer(remaining);
        let (length, rest) = extract_next_sixteen_bits_from_buffer(rest);

        if rest.len() < length as usize {
            return Err(DecodingError::InvalidOptRecord(OptRecordFault::MalformedOption));
        }

        let (data, rest) = rest.split_at(length as usize);
        assert(data@ =~= here.subrange(4, 4 + length));
        assert(rest@ =~= here.subrange(4 + length, here.len() as int));
        let ghost before = options@;
        options.push(EdnsOption::new(code, vstd::slice::slice_to_vec(data)));
        assert(options_view(options@) =~= options_view(before) + seq![(code, data@)]);
        assert(options_view(before) + seq![(code, data@)] + options_of(rest@)->Some_0
            =~= options_view(before) + (seq![(code, data@)] + options_of(rest@)->Some_0));

        remaining = rest;
    }
    assert(options_view(options@) + Seq::<(u16, Seq<u8>)>::empty() =~= options_view(options@));
    Ok(options)
}

} // verus!

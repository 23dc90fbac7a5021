//! Decoding of resource records, with per-type checks of the RDATA.

use vstd::prelude::*;

use crate::common::question::{class_from_code, Class};
use crate::common::resource_record::{type_from_code, RecordView, ResourceRecord, Type};
use crate::decoder::domain_name::{decode as decode_domain_name, lemma_name_at_len, name_at, MAX_LABELS};
use crate::decoder::{is_suffix, offset_in, DecodingError};
use crate::utils::{
    be16, be32, extract_next_sixteen_bits_from_buffer, extract_next_thirty_two_bits_from_buffer,
};

verus! {

/// Where a run of TXT character strings that starts at `i` ends: each string
/// is a length byte and that many bytes.
pub open spec fn txt_end(data: Seq<u8>, i: int) -> int
    decreases data.len() - i,
{
    if i < 0 || i >= data.len() || i + 1 + data[i] >= data.len() {
        if 0 <= i < data.len() {
            i + 1 + data[i]
        } else {
            i
        }
    } else {
        txt_end(data, i + 1 + data[i])
    }
}

/// How many bytes TXT data claims: one or more character strings, so empty
/// data claims one byte.
pub open spec fn txt_consumed(data: Seq<u8>) -> int {
    if data.len() == 0 {
        1
    } else {
        txt_end(data, 0)
    }
}

/// How many bytes the RDATA of a record of type `t` that starts at `start`
/// takes when read by its type's rules; `None` when a name in it is invalid.
/// Names may be compressed, their pointers taken within the whole message.
pub open spec fn rdata_consumed(src: Seq<u8>, start: int, len: int, t: Type) -> Option<int> {
    match t {
        Type::A => Some(4),
        Type::AAAA => Some(16),
        Type::CNAME | Type::NS | Type::PTR => match name_at(src, start, MAX_LABELS as nat) {
            Some((_, end)) => Some(end - start),
            None => None,
        },
        Type::MX => match name_at(src, start + 2, MAX_LABELS as nat) {
            Some((_, end)) => Some(end - start),
            None => None,
        },
        Type::TXT => Some(txt_consumed(src.subrange(start, start + len))),
        _ => Some(len),
    }
}

/// The RDATA of `len` bytes at `start` when its shape fits type `t`.
pub open spec fn rdata_at(src: Seq<u8>, start: int, len: int, t: Type) -> Result<
    Seq<u8>,
    DecodingError,
> {
    match rdata_consumed(src, start, len, t) {
        None => Err(DecodingError::InvalidName),
        Some(c) => if c == len {
            Ok(src.subrange(start, start + len))
        } else {
            Err(DecodingError::ResourceDataLengthMismatch { expected: len as usize, actual: c as usize })
        },
    }
}

/// The resource record that starts at `pos` in `src`, and where it ends.
pub open spec fn record_at(src: Seq<u8>, pos: int) -> Result<(RecordView, int), DecodingError> {
    match name_at(src, pos, MAX_LABELS as nat) {
        None => Err(DecodingError::InvalidName),
        Some((name, q)) => if q + 10 > src.len() {
            Err(DecodingError::UnexpectedEndOfBuffer)
        } else {
            let t = be16(src[q], src[q + 1]) as u16;
            let c = be16(src[q + 2], src[q + 3]) as u16;
            let ttl = be32(src[q + 4], src[q + 5], src[q + 6], src[q + 7]) as u32;
            let len = be16(src[q + 8], src[q + 9]);
            let d = q + 10;
            match type_from_code(t) {
                None => Err(DecodingError::InvalidResourceRecordType(t)),
                Some(type_) => match class_from_code(c) {
                    None => Err(DecodingError::InvalidResourceRecordClass(c)),
                    Some(class) => if d + len > src.len() {
                        Err(
                            DecodingError::ResourceDataLengthMismatch {
                                expected: len as usize,
                                actual: (src.len() - d) as usize,
                            },
                        )
                    } else {
                        match rdata_at(src, d, len, type_) {
                            Err(e) => Err(e),
                            Ok(data) => Ok(
                                (RecordView { name, type_, class, ttl, data }, d + len),
                            ),
                        }
                    },
                },
            }
        },
    }
}

fn check_length(expected: usize, data: &[u8]) -> (r: Result<Vec<u8>, DecodingError>)
    ensures
        r == (if data@.len() == expected {
            Ok::<Vec<u8>, DecodingError>(r->Ok_0)
        } else {
            Err(DecodingError::ResourceDataLengthMismatch { expected: data@.len() as usize, actual: expected })
        }),
        r matches Ok(v) ==> v@ == data@,
{
    if data.len() == expected {
        Ok(vstd::slice::slice_to_vec(data))
    } else {
        Err(DecodingError::ResourceDataLengthMismatch { expected: data.len(), actual: expected })
    }
}

/// An A record's data: exactly 4 bytes.
pub fn decode_type_a_data(buffer: &[u8]) -> (r: Result<Vec<u8>, DecodingError>)
    ensures
        match rdata_at(buffer@, 0, buffer@.len() as int, Type::A) {
            Ok(d) => r matches Ok(v) && v@ == d,
            Err(e) => r matches Err(x) && x == e,
        },
{
    check_length(4, buffer)
}

/// An AAAA record's data: exactly 16 bytes.
pub fn decode_type_aaaa_data(buffer: &[u8]) -> (r: Result<Vec<u8>, DecodingError>)
    ensures
        match rdata_at(buffer@, 0, buffer@.len() as int, Type::AAAA) {
            Ok(d) => r matches Ok(v) && v@ == d,
            Err(e) => r matches Err(x) && x == e,
        },
{
    check_length(16, buffer)
}

/// A TXT record's data: one or more length-prefixed character strings that
/// fill it exactly.
pub fn decode_type_txt_data(buffer: &[u8]) -> (r: Result<Vec<u8>, DecodingError>)
    requires
        buffer@.len() <= 65535,
    ensures
        match rdata_at(buffer@, 0, buffer@.len() as int, Type::TXT) {
            Ok(d) => r matches Ok(v) && v@ == d,
            Err(e) => r matches Err(x) && x == e,
        },
{
    let len = buffer.len();
    let consumed: usize = if len == 0 {
        1
    } else {
        let mut i: usize = 0;
        while i < len
            invariant
                len == buffer@.len(),
                len <= 65535,
                i <= len + 256,
                txt_end(buffer@, 0) == txt_end(buffer@, i as int),
            decreases len + 256 - i,
        {
            i = i + 1 + buffer[i] as usize;
        }
        i
    };
    assert(buffer@.subrange(0, len as int) =~= buffer@);
    if consumed == len {
        Ok(vstd::slice::slice_to_vec(buffer))
    } else {
        Err(DecodingError::ResourceDataLengthMismatch { expected: len, actual: consumed })
    }
}

/// Data made of a domain name (CNAME, NS, PTR), which must fill it exactly.
/// `buffer` is the tail of the message that starts with the data.
pub fn decode_record_type_as_domain_name(buffer: &[u8], source: &[u8], length: usize) -> (r: Result<
    Vec<u8>,
    DecodingError,
>)
    requires
        is_suffix(buffer@, source@),
        length <= buffer@.len(),
        length <= 65535,
    ensures
        match rdata_at(source@, offset_in(buffer@, source@), length as int, Type::CNAME) {
            Ok(d) => r matches Ok(v) && v@ == d,
            Err(e) => r matches Err(x) && x == e,
        },
{
    proof {
        lemma_name_at_len(source@, offset_in(buffer@, source@), MAX_LABELS as nat);
    }
    let (_, remaining) = match decode_domain_name(buffer, source) {
        Ok(decoded) => decoded,
        Err(e) => return Err(e),
    };
    let consumed = buffer.len() - remaining.len();
    if consumed == length {
        let data = vstd::slice::slice_subrange(buffer, 0, length);
        assert(data@ =~= source@.subrange(
            offset_in(buffer@, source@),
            offset_in(buffer@, source@) + length,
        ));
        Ok(vstd::slice::slice_to_vec(data))
    } else {
        Err(DecodingError::ResourceDataLengthMismatch { expected: length, actual: consumed })
    }
}

/// MX data: a 16-bit preference, then a domain name that ends the data exactly.
/// `buffer` is the tail of the message that starts with the data.
pub fn decode_type_mx_data(buffer: &[u8], source: &[u8], length: usize) -> (r: Result<
    Vec<u8>,
    DecodingError,
>)
    requires
        is_suffix(buffer@, source@),
        length <= buffer@.len(),
        length <= 65535,
    ensures
        match rdata_at(source@, offset_in(buffer@, source@), length as int, Type::MX) {
            Ok(d) => r matches Ok(v) && v@ == d,
            Err(e) => r matches Err(x) && x == e,
        },
{
    let ghost start = offset_in(buffer@, source@);
    if buffer.len() < 2 {
        proof {
            assert(start + 2 > source@.len());
        }
        return Err(DecodingError::InvalidName);
    }
    let domain_buffer = vstd::slice::slice_subrange(buffer, 2, buffer.len());
    assert(is_suffix(domain_buffer@, source@)) by {
        assert(source@.subrange(
            source@.len() - domain_buffer@.len(),
            source@.len() as int,
        ) =~= domain_buffer@);
    }
    proof {
        lemma_name_at_len(source@, start + 2, MAX_LABELS as nat);
    }
    let (_, remaining) = match decode_domain_name(domain_buffer, source) {
        Ok(decoded) => decoded,
        Err(e) => return Err(e),
    };
    let consumed = buffer.len() - remaining.len();
    if consumed == length {
        let data = vstd::slice::slice_subrange(buffer, 0, length);
        assert(data@ =~= source@.subrange(start, start + length));
        Ok(vstd::slice::slice_to_vec(data))
    } else {
        Err(DecodingError::ResourceDataLengthMismatch { expected: length, actual: consumed })
    }
}

/// Checks the shape of a record's data by its type and copies it out.
/// `buffer` is the tail of the message that starts with the data.
fn decode_data_from_type_and_buffer(
    type_: Type,
    buffer: &[u8],
    source: &[u8],
    length: usize,
) -> (r: Result<Vec<u8>, DecodingError>)
    requires
        is_suffix(buffer@, source@),
        length <= buffer@.len(),
        length <= 65535,
    ensures
        match rdata_at(source@, offset_in(buffer@, source@), length as int, type_) {
            Ok(d) => r matches Ok(v) && v@ == d,
            Err(e) => r matches Err(x) && x == e,
        },
{
    let ghost start = offset_in(buffer@, source@);
    let data = vstd::slice::slice_subrange(buffer, 0, length);
    assert(data@ =~= source@.subrange(start, start + length));
    assert(data@.subrange(0, length as int) =~= data@);
    match type_ {
        Type::A => decode_type_a_data(data),
        Type::AAAA => decode_type_aaaa_data(data),
        Type::TXT => decode_type_txt_data(data),
        Type::MX => decode_type_mx_data(buffer, source, length),
        Type::CNAME | Type::NS | Type::PTR => decode_record_type_as_domain_name(buffer, source, length),
        _ => Ok(vstd::slice::slice_to_vec(data)),
    }
}

pub fn decode<'a>(buffer: &'a [u8], source: &'a [u8]) -> (r: Result<
    (ResourceRecord, &'a [u8]),
    DecodingError,
>)
    requires
        is_suffix(buffer@, source@),
    ensures
        match record_at(source@, offset_in(buffer@, source@)) {
            Ok((rr, end)) => offset_in(buffer@, source@) < end <= source@.len() && (r matches Ok((record, rest)) && record@ == rr
                && rest@ == source@.subrange(end, source@.len() as int)),
            Err(e) => r matches Err(x) && x == e,
        },
        r matches Ok((_, rest)) ==> is_suffix(rest@, source@),
{
    proof {
        lemma_name_at_len(source@, offset_in(buffer@, source@), MAX_LABELS as nat);
    }
    let (name, buffer) = match decode_domain_name(buffer, source) {
        Ok(decoded) => decoded,
        Err(e) => return Err(e),
    };
    if buffer.len() < 10 {
        return Err(DecodingError::UnexpectedEndOfBuffer);
    }
    let ghost q = source@.len() - buffer@.len();
    let ghost fields = buffer@;
    assert(forall|k: int| 0 <= k < 10 ==> fields[k] == source@[q + k]);

    let (type_, buffer) = extract_next_sixteen_bits_from_buffer(buffer);
    let (class, buffer) = extract_next_sixteen_bits_from_buffer(buffer);
    let (ttl, buffer) = extract_next_thirty_two_bits_from_buffer(buffer);
    let (resource_data_length, buffer) = extract_next_sixteen_bits_from_buffer(buffer);
    assert(buffer@ =~= source@.subrange(q + 10, source@.len() as int));

    let type_ = match Type::try_from(type_) {
        Ok(t) => t,
        Err(v) => return Err(DecodingError::InvalidResourceRecordType(v)),
    };
    let class = match Class::try_from(class) {
        Ok(c) => c,
        Err(v) => return Err(DecodingError::InvalidResourceRecordClass(v)),
    };
    let length = resource_data_length as usize;
    if length > buffer.len() {
        return Err(
            DecodingError::ResourceDataLengthMismatch { expected: length, actual: buffer.len() },
        );
    }
    let resource_data = match decode_data_from_type_and_buffer(type_, buffer, source, length) {
        Ok(data) => data,
        Err(e) => return Err(e),
    };
    let rest = vstd::slice::slice_subrange(buffer, length, buffer.len());
    assert(rest@ =~= source@.subrange(q + 10 + length, source@.len() as int));
    Ok((ResourceRecord::new(name, type_, class, ttl, resource_data), rest))
}

} // verus!

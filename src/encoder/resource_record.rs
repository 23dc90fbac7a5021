//! Encoding of resource records; RDATA is stored in wire form and written as is.

use vstd::prelude::*;

use crate::common::question::class_code;
use crate::common::resource_record::{type_code, RecordView, ResourceRecord};
use crate::encoder::domain_name::{encode as encode_domain_name, encoded_name};
use crate::utils::{push_u16_to_u8_vec, push_u32_to_u8_vec, u16_bytes, u32_bytes};

verus! {

/// A record on the wire: name, TYPE, CLASS, TTL, RDLENGTH, RDATA.
pub open spec fn encoded_record(r: RecordView) -> Seq<u8> {
    encoded_name(r.name) + u16_bytes(type_code(r.type_)) + u16_bytes(class_code(r.class))
        + u32_bytes(r.ttl) + u16_bytes(r.data.len() as u16) + r.data
}

pub fn encode(resource_record: ResourceRecord) -> (r: Vec<u8>)
    ensures
        r@ == encoded_record(resource_record@),
{
    let ghost rr = resource_record@;
    let mut r = encode_domain_name(resource_record.name);

    push_u16_to_u8_vec(&mut r, resource_record.type_.into());
    push_u16_to_u8_vec(&mut r, resource_record.class.into());

    push_u32_to_u8_vec(&mut r, resource_record.ttl);

    let mut data = resource_record.resource_data;
    push_u16_to_u8_vec(&mut r, data.len() as u16);
    r.append(&mut data);
    assert(r@ =~= encoded_record(rr));
    r
}

/// One TXT character string: a length byte, then the text.
pub fn encode_type_txt_string(value: Vec<u8>) -> (r: Vec<u8>)
    requires
        value@.len() <= 255,
    ensures
        r@ == seq![value@.len() as u8] + value@,
{
    let mut result: Vec<u8> = Vec::new();
    // TXT records must be prefixed with a length byte
    result.push(value.len() as u8);
    let mut value = value;
    let ghost text = value@;
    result.append(&mut value);
    assert(result@ =~= seq![text.len() as u8] + text);
    result
}

} // verus!

//! Encoding of the EDNS(0) OPT pseudo-record.

use vstd::prelude::*;

use crate::common::opt_record::{options_view, EdnsOption, OptRecord, OptView};
use crate::common::resource_record::Type;
use crate::utils::{push_u16_to_u8_vec, push_u32_to_u8_vec, u16_bytes, u32_bytes};

verus! {

/// The TTL field of an OPT record: extended RCODE, version, then the flags,
/// of which only DO is set.
pub open spec fn opt_ttl(o: OptView) -> u32 {
    (o.extended_rcode as int * 16777216 + o.version as int * 65536 + if o.dnssec_ok {
        32768int
    } else {
        0int
    }) as u32
}

/// One option on the wire: code, length, data.
pub open spec fn encoded_option(option: (u16, Seq<u8>)) -> Seq<u8> {
    u16_bytes(option.0) + u16_bytes(option.1.len() as u16) + option.1
}

pub open spec fn encoded_option_list(options: Seq<(u16, Seq<u8>)>) -> Seq<Seq<u8>> {
    Seq::new(options.len(), |i: int| encoded_option(options[i]))
}

/// The RDATA of an OPT record: its options one after the other.
pub open spec fn encoded_options(options: Seq<(u16, Seq<u8>)>) -> Seq<u8> {
    encoded_option_list(options).flatten()
}

/// An OPT record on the wire: root owner, TYPE 41, the payload size in the
/// CLASS field, the packed TTL field, RDLENGTH and the options.
pub open spec fn encoded_opt(o: OptView) -> Seq<u8> {
    seq![0u8] + u16_bytes(41) + u16_bytes(o.udp_payload_size) + u32_bytes(opt_ttl(o)) + u16_bytes(
        encoded_options(o.options).len() as u16,
    ) + encoded_options(o.options)
}

pub fn encode(opt: &OptRecord) -> (r: Vec<u8>)
    ensures
        r@ == encoded_opt(opt@),
{
    let mut r: Vec<u8> = Vec::new();

    // NAME: must be 0 (root domain)
    r.push(0);

    // TYPE: 41 (OPT)
    push_u16_to_u8_vec(&mut r, Type::OPT.into());

    // CLASS: UDP payload size
    push_u16_to_u8_vec(&mut r, opt.udp_payload_size);

    // TTL: extended_rcode + version + flags
    let ttl = encode_ttl(opt);
    push_u32_to_u8_vec(&mut r, ttl);

    // Encode options
    let mut options_data = encode_options(opt.options.as_slice());

    // RDLEN
    push_u16_to_u8_vec(&mut r, options_data.len() as u16);

    // RDATA
    r.append(&mut options_data);
    assert(r@ =~= encoded_opt(opt@));
    r
}

pub fn encode_ttl(opt: &OptRecord) -> (r: u32)
    ensures
        r == opt_ttl(opt@),
{
    let flags: u32 = if opt.dnssec_ok {
        0x8000
    } else {
        0
    };

    (opt.extended_rcode as u32) * 16777216 + (opt.version as u32) * 65536 + flags
}

pub fn encode_options(options: &[EdnsOption]) -> (r: Vec<u8>)
    ensures
        r@ == encoded_options(options_view(options@)),
{
    let mut data: Vec<u8> = Vec::new();
    let mut i: usize = 0;
    while i < options.len()
        invariant
            i <= options@.len(),
            data@ == encoded_options(options_view(options@).take(i as int)),
        decreases options@.len() - i,
    {
        let option = &options[i];
        let ghost before = data@;
        // Option code
        push_u16_to_u8_vec(&mut data, option.code);
        // Option length
        push_u16_to_u8_vec(&mut data, option.data.len() as u16);
        // Option data
        let mut j: usize = 0;
        while j < option.data.len()
            invariant
                j <= option.data@.len(),
                data@ == before + u16_bytes(option.code) + u16_bytes(option.data@.len() as u16)
                    + option.data@.take(j as int),
            decreases option.data@.len() - j,
        {
            data.push(option.data[j]);
            assert(data@ =~= before + u16_bytes(option.code) + u16_bytes(
                option.data@.len() as u16,
            ) + option.data@.take(j + 1));
            j = j + 1;
        }
        proof {
            assert(option.data@.take(j as int) =~= option.data@);
            let all = options_view(options@);
            assert(encoded_option_list(all.take(i + 1)) =~= encoded_option_list(all.take(i as int)).push(
                encoded_option(all[i as int]),
            ));
            encoded_option_list(all.take(i as int)).lemma_flatten_push(encoded_option(all[i as int]));
            assert(data@ =~= before + encoded_option(all[i as int]));
        }
        i = i + 1;
    }
    assert(options_view(options@).take(i as int) =~= options_view(options@));
    data
}

} // verus!

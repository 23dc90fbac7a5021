//! The EDNS(0) OPT pseudo-record.

use vstd::prelude::*;

verus! {

/// EDNS(0) OPT pseudo-RR for DNS extension mechanism
/// OPT is a special record type (41) that carries control information
/// and does not represent actual DNS data.
#[derive(Debug, PartialEq)]
pub struct OptRecord {
    pub udp_payload_size: u16,
    pub extended_rcode: u8,
    pub version: u8,
    pub dnssec_ok: bool,
    pub options: Vec<EdnsOption>,
}

/// What an OPT record stands for; each option is its code and data.
pub struct OptView {
    pub udp_payload_size: u16,
    pub extended_rcode: u8,
    pub version: u8,
    pub dnssec_ok: bool,
    pub options: Seq<(u16, Seq<u8>)>,
}

/// The code and data of each option.
pub open spec fn options_view(options: Seq<EdnsOption>) -> Seq<(u16, Seq<u8>)> {
    Seq::new(options.len(), |i: int| (options[i].code, options[i].data@))
}

impl View for OptRecord {
    type V = OptView;

    open spec fn view(&self) -> OptView {
        OptView {
            udp_payload_size: self.udp_payload_size,
            extended_rcode: self.extended_rcode,
            version: self.version,
            dnssec_ok: self.dnssec_ok,
            options: options_view(self.options@),
        }
    }
}

impl Clone for OptRecord {
    fn clone(&self) -> (r: Self)
        ensures
            r@ == self@,
    {
        let mut options: Vec<EdnsOption> = Vec::new();
        let mut i: usize = 0;
        while i < self.options.len()
            invariant
                i <= self.options@.len(),
                options@.len() == i,
                options_view(options@) == options_view(self.options@).take(i as int),
            decreases self.options@.len() - i,
        {
            let option = self.options[i].clone();
            let ghost before = options@;
            assert(option.code == self.options@[i as int].code);
            assert(option.data@ == self.options@[i as int].data@);
            options.push(option);
            assert(options@ == before.push(option));
            assert forall|k: int| 0 <= k < i implies #[trigger] options_view(options@)[k]
                == options_view(self.options@)[k] by {
                assert(options@[k] == before[k]);
                assert(options_view(before)[k] == options_view(self.options@).take(i as int)[k]);
            }
            assert(options_view(options@)[i as int] == options_view(self.options@)[i as int]);
            assert(options_view(options@) =~= options_view(self.options@).take(i + 1));
            i = i + 1;
        }
        assert(options_view(self.options@).take(i as int) =~= options_view(self.options@));
        OptRecord {
            udp_payload_size: self.udp_payload_size,
            extended_rcode: self.extended_rcode,
            version: self.version,
            dnssec_ok: self.dnssec_ok,
            options,
        }
    }
}

impl OptRecord {
    pub fn new(
        udp_payload_size: u16,
        extended_rcode: u8,
        version: u8,
        dnssec_ok: bool,
        options: Vec<EdnsOption>,
    ) -> (r: Self)
        ensures
            r.udp_payload_size == udp_payload_size,
            r.extended_rcode == extended_rcode,
            r.version == version,
            r.dnssec_ok == dnssec_ok,
            r.options == options,
    {
        Self { udp_payload_size, extended_rcode, version, dnssec_ok, options }
    }
}

#[derive(Debug, PartialEq)]
pub struct EdnsOption {
    pub code: u16,
    pub data: Vec<u8>,
}

impl Clone for EdnsOption {
    fn clone(&self) -> (r: Self)
        ensures
            r.code == self.code,
            r.data@ == self.data@,
    {
        let data = self.data.clone();
        assert(data@ =~= self.data@);
        EdnsOption { code: self.code, data }
    }
}

impl EdnsOption {
    pub fn new(code: u16, data: Vec<u8>) -> (r: Self)
        ensures
            r.code == code,
            r.data == data,
    {
        Self { code, data }
    }
}

} // verus!

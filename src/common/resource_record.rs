//! Resource records and their TYPE field.
// RR: resource record
// see: https://datatracker.ietf.org/doc/html/rfc1035#section-3.2

use vstd::prelude::*;

use crate::common::domain_name::DomainName;
use crate::common::question::Class as QuestionClass;

verus! {

pub type TimeToLive = u32;

/// A resource record. `resource_data` holds the RDATA in wire form.
#[derive(Debug, PartialEq)]
pub struct ResourceRecord {
    pub name: DomainName,
    pub type_: Type,
    pub class: QuestionClass,
    pub ttl: TimeToLive,
    pub resource_data: Vec<u8>,
}

/// What a resource record stands for: owner labels, type, class, TTL and RDATA.
pub struct RecordView {
    pub name: Seq<Seq<u8>>,
    pub type_: Type,
    pub class: QuestionClass,
    pub ttl: u32,
    pub data: Seq<u8>,
}

impl View for ResourceRecord {
    type V = RecordView;

    open spec fn view(&self) -> RecordView {
        RecordView {
            name: self.name@,
            type_: self.type_,
            class: self.class,
            ttl: self.ttl,
            data: self.resource_data@,
        }
    }
}

impl Clone for ResourceRecord {
    fn clone(&self) -> (r: Self)
        ensures
            r@ == self@,
    {
        let data = self.resource_data.clone();
        assert(data@ =~= self.resource_data@);
        ResourceRecord {
            name: self.name.clone(),
            type_: self.type_,
            class: self.class,
            ttl: self.ttl,
            resource_data: data,
        }
    }
}

impl ResourceRecord {
    pub fn new(
        name: DomainName,
        type_: Type,
        class: QuestionClass,
        ttl: TimeToLive,
        resource_data: Vec<u8>,
    ) -> (r: Self)
        ensures
            r.name == name,
            r.type_ == type_,
            r.class == class,
            r.ttl == ttl,
            r.resource_data == resource_data,
    {
        Self { name, type_, class, ttl, resource_data }
    }
}

// *_OBS: obsolete
// *_EXP: experimental
#[allow(non_camel_case_types)]
#[derive(Debug, PartialEq, Eq, Structural, Clone, Copy)]
pub enum Type {
    A,  // IPv4 host address
    AAAA,  // IPv6 host address
    NS,  // authoritative name server
    MD_OBS,  // mail destination, obsolete, use MX instead
    MF_OBS,  // mail forwarder, obsolete, use MX instead
    CNAME,  // canonical name for an alias
    SOA,  // start of authority zone
    MB_EXP,  // mailbox domain name, experimental
    MG_EXP,  // mail group member, experimental
    MR_EXP,  // mail rename domain name, experimental
    NULL_EXP,  // null RR, experimental
    WKS,  // well known service description
    PTR,  // domain name pointer
    HINFO,  // host information
    MINFO,  // mailbox information
    MX,  // mail exchange
    TXT,  // text strings
    SVCB,  // service binding
    HTTPS,  // HTTPS binding
    OPT,  // pseudo-record type needed to support EDNS
}

/// The TYPE code of a record type on the wire.
pub open spec fn type_code(t: Type) -> u16 {
    match t {
        Type::A => 1,
        Type::NS => 2,
        Type::MD_OBS => 3,
        Type::MF_OBS => 4,
        Type::CNAME => 5,
        Type::SOA => 6,
        Type::MB_EXP => 7,
        Type::MG_EXP => 8,
        Type::MR_EXP => 9,
        Type::NULL_EXP => 10,
        Type::WKS => 11,
        Type::PTR => 12,
        Type::HINFO => 13,
        Type::MINFO => 14,
        Type::MX => 15,
        Type::TXT => 16,
        Type::AAAA => 28,
        Type::OPT => 41,
        Type::SVCB => 64,
        Type::HTTPS => 65,
    }
}

/// The record type with a given TYPE code, if it is one this server knows.
pub open spec fn type_from_code(v: u16) -> Option<Type> {
    if v == 1 { Some(Type::A) }
    else if v == 2 { Some(Type::NS) }
    else if v == 3 { Some(Type::MD_OBS) }
    else if v == 4 { Some(Type::MF_OBS) }
    else if v == 5 { Some(Type::CNAME) }
    else if v == 6 { Some(Type::SOA) }
    else if v == 7 { Some(Type::MB_EXP) }
    else if v == 8 { Some(Type::MG_EXP) }
    else if v == 9 { Some(Type::MR_EXP) }
    else if v == 10 { Some(Type::NULL_EXP) }
    else if v == 11 { Some(Type::WKS) }
    else if v == 12 { Some(Type::PTR) }
    else if v == 13 { Some(Type::HINFO) }
    else if v == 14 { Some(Type::MINFO) }
    else if v == 15 { Some(Type::MX) }
    else if v == 16 { Some(Type::TXT) }
    else if v == 28 { Some(Type::AAAA) }
    else if v == 41 { Some(Type::OPT) }
    else if v == 64 { Some(Type::SVCB) }
    else if v == 65 { Some(Type::HTTPS) }
    else { None }
}

pub proof fn lemma_type_code_round_trip(t: Type)
    ensures
        type_from_code(type_code(t)) == Some(t),
{
}

impl TryFrom<u16> for Type {
    type Error = u16;

    /// Fails with the code itself when it names no known type.
    fn try_from(value: u16) -> (r: Result<Self, Self::Error>)
        ensures
            r == (match type_from_code(value) {
                Some(t) => Ok(t),
                None => Err(value),
            }),
    {
        match value {
            1 => Ok(Self::A),
            2 => Ok(Self::NS),
            3 => Ok(Self::MD_OBS),
            4 => Ok(Self::MF_OBS),
            5 => Ok(Self::CNAME),
            6 => Ok(Self::SOA),
            7 => Ok(Self::MB_EXP),
            8 => Ok(Self::MG_EXP),
            9 => Ok(Self::MR_EXP),
            10 => Ok(Self::NULL_EXP),
            11 => Ok(Self::WKS),
            12 => Ok(Self::PTR),
            13 => Ok(Self::HINFO),
            14 => Ok(Self::MINFO),
            15 => Ok(Self::MX),
            16 => Ok(Self::TXT),
            28 => Ok(Self::AAAA),
            41 => Ok(Self::OPT),
            64 => Ok(Self::SVCB),
            65 => Ok(Self::HTTPS),
            _ => Err(value),
        }
    }
}

impl vstd::std_specs::convert::TryFromSpecImpl<u16> for Type {
    open spec fn obeys_try_from_spec() -> bool {
        true
    }

    open spec fn try_from_spec(v: u16) -> Result<Self, Self::Error> {
        match type_from_code(v) {
            Some(t) => Ok(t),
            None => Err(v),
        }
    }
}

impl From<Type> for u16 {
    fn from(value: Type) -> (r: u16)
        ensures
            r == type_code(value),
    {
        match value {
            Type::A => 1,
            Type::NS => 2,
            Type::MD_OBS => 3,
            Type::MF_OBS => 4,
            Type::CNAME => 5,
            Type::SOA => 6,
            Type::MB_EXP => 7,
            Type::MG_EXP => 8,
            Type::MR_EXP => 9,
            Type::NULL_EXP => 10,
            Type::WKS => 11,
            Type::PTR => 12,
            Type::HINFO => 13,
            Type::MINFO => 14,
            Type::MX => 15,
            Type::TXT => 16,
            Type::AAAA => 28,
            Type::OPT => 41,
            Type::SVCB => 64,
            Type::HTTPS => 65,
        }
    }
}

impl vstd::std_specs::convert::FromSpecImpl<Type> for u16 {
    open spec fn obeys_from_spec() -> bool {
        true
    }

    open spec fn from_spec(v: Type) -> u16 {
        type_code(v)
    }
}

} // verus!

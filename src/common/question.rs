//! Questions: a name with the QTYPE and QCLASS asked for.

use vstd::prelude::*;

use crate::common::domain_name::DomainName;
use crate::common::resource_record::{type_code, type_from_code, Type as RRType};

verus! {

#[derive(Debug, PartialEq)]
pub struct Question {
    pub name: DomainName,
    pub type_: Type,
    pub class: Class,
}

/// What a question stands for: the labels of its name, its type and class.
pub struct QuestionView {
    pub name: Seq<Seq<u8>>,
    pub type_: Type,
    pub class: Class,
}

impl View for Question {
    type V = QuestionView;

    open spec fn view(&self) -> QuestionView {
        QuestionView { name: self.name@, type_: self.type_, class: self.class }
    }
}

impl Clone for Question {
    fn clone(&self) -> (r: Self)
        ensures
            r@ == self@,
    {
        Question { name: self.name.clone(), type_: self.type_, class: self.class }
    }
}

#[derive(Debug, PartialEq, Eq, Structural, Clone, Copy)]
pub enum Type {
    RRType(RRType),
    AXFR,  // request for transfer of entire zone
    MAILB,  // request for mailbox-related records (MB, MG or MR)
    MAILA,  // request for mail agent RRs (Obsolete - see MX)
    ALL,  // request for all records
}

/// The QTYPE code of a question type on the wire.
pub open spec fn qtype_code(t: Type) -> u16 {
    match t {
        Type::RRType(r) => type_code(r),
        Type::AXFR => 252,
        Type::MAILB => 253,
        Type::MAILA => 254,
        Type::ALL => 255,
    }
}

/// The question type with a given QTYPE code, if there is one.
pub open spec fn qtype_from_code(v: u16) -> Option<Type> {
    match type_from_code(v) {
        Some(r) => Some(Type::RRType(r)),
        None => if v == 252 {
            Some(Type::AXFR)
        } else if v == 253 {
            Some(Type::MAILB)
        } else if v == 254 {
            Some(Type::MAILA)
        } else if v == 255 {
            Some(Type::ALL)
        } else {
            None
        },
    }
}

pub proof fn lemma_qtype_code_round_trip(t: Type)
    ensures
        qtype_from_code(qtype_code(t)) == Some(t),
{
}

impl TryFrom<u16> for Type {
    type Error = u16;

    /// Fails with the code itself when it names no question type.
    fn try_from(value: u16) -> (r: Result<Self, Self::Error>)
        ensures
            r == (match qtype_from_code(value) {
                Some(t) => Ok(t),
                None => Err(value),
            }),
    {
        match RRType::try_from(value) {
            Ok(rr_type) => Ok(Type::RRType(rr_type)),
            Err(_) => match value {
                252 => Ok(Self::AXFR),
                253 => Ok(Self::MAILB),
                254 => Ok(Self::MAILA),
                255 => Ok(Self::ALL),
                _ => Err(value),
            },
        }
    }
}

impl vstd::std_specs::convert::TryFromSpecImpl<u16> for Type {
    open spec fn obeys_try_from_spec() -> bool {
        true
    }

    open spec fn try_from_spec(v: u16) -> Result<Self, Self::Error> {
        match qtype_from_code(v) {
            Some(t) => Ok(t),
            None => Err(v),
        }
    }
}

impl From<Type> for u16 {
    fn from(value: Type) -> (r: u16)
        ensures
            r == qtype_code(value),
    {
        match value {
            Type::RRType(r) => u16::from(r),
            Type::AXFR => 252,
            Type::MAILB => 253,
            Type::MAILA => 254,
            Type::ALL => 255,
        }
    }
}

impl vstd::std_specs::convert::FromSpecImpl<Type> for u16 {
    open spec fn obeys_from_spec() -> bool {
        true
    }

    open spec fn from_spec(v: Type) -> u16 {
        qtype_code(v)
    }
}

#[derive(Debug, PartialEq, Eq, Structural, Clone, Copy)]
pub enum Class {
    IN,  // the Internet
    CS,  // the CSNET class (Obsolete - use IN)
    CH,  // the CHAOS class
    HS,  // Hesiod [Dyer 87]
    ALL,
}

/// The CLASS code of a class on the wire.
pub open spec fn class_code(c: Class) -> u16 {
    match c {
        Class::IN => 1,
        Class::CS => 2,
        Class::CH => 3,
        Class::HS => 4,
        Class::ALL => 255,
    }
}

/// The class with a given CLASS code, if there is one.
pub open spec fn class_from_code(v: u16) -> Option<Class> {
    if v == 1 {
        Some(Class::IN)
    } else if v == 2 {
        Some(Class::CS)
    } else if v == 3 {
        Some(Class::CH)
    } else if v == 4 {
        Some(Class::HS)
    } else if v == 255 {
        Some(Class::ALL)
    } else {
        None
    }
}

pub proof fn lemma_class_code_round_trip(c: Class)
    ensures
        class_from_code(class_code(c)) == Some(c),
{
}

impl TryFrom<u16> for Class {
    type Error = u16;

    /// Fails with the code itself when it names no class.
    fn try_from(value: u16) -> (r: Result<Self, Self::Error>)
        ensures
            r == (match class_from_code(value) {
                Some(c) => Ok(c),
                None => Err(value),
            }),
    {
        match value {
            1 => Ok(Self::IN),
            2 => Ok(Self::CS),
            3 => Ok(Self::CH),
            4 => Ok(Self::HS),
            255 => Ok(Self::ALL),
            _ => Err(value),
        }
    }
}

impl vstd::std_specs::convert::TryFromSpecImpl<u16> for Class {
    open spec fn obeys_try_from_spec() -> bool {
        true
    }

    open spec fn try_from_spec(v: u16) -> Result<Self, Self::Error> {
        match class_from_code(v) {
            Some(c) => Ok(c),
            None => Err(v),
        }
    }
}

impl From<Class> for u16 {
    fn from(value: Class) -> (r: u16)
        ensures
            r == class_code(value),
    {
        match value {
            Class::IN => 1,
            Class::CS => 2,
            Class::CH => 3,
            Class::HS => 4,
            Class::ALL => 255,
        }
    }
}

impl vstd::std_specs::convert::FromSpecImpl<Class> for u16 {
    open spec fn obeys_from_spec() -> bool {
        true
    }

    open spec fn from_spec(v: Class) -> u16 {
        class_code(v)
    }
}

} // verus!

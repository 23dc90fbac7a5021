//! Presentation of resource data, for display only.

use vstd::prelude::*;
use vstd::string::StringExecFns;

use crate::common::domain_name::{lossy_text, text_from_bytes};
use crate::common::resource_record::Type;
use vstd::utf8::{
    decode_utf8, is_leading_byte_width_1, partial_valid_utf8_extend_ascii_block, valid_utf8,
};

verus! {

/// The decimal digits of a byte.
pub open spec fn decimal(n: u8) -> Seq<u8> {
    if n >= 100 {
        seq![(48 + n / 100) as u8, (48 + (n / 10) % 10) as u8, (48 + n % 10) as u8]
    } else if n >= 10 {
        seq![(48 + n / 10) as u8, (48 + n % 10) as u8]
    } else {
        seq![(48 + n) as u8]
    }
}

/// Four bytes written as an IPv4 address, `a.b.c.d`.
pub open spec fn dotted_quad(b: Seq<u8>) -> Seq<u8> {
    decimal(b[0]) + seq![46u8] + decimal(b[1]) + seq![46u8] + decimal(b[2]) + seq![46u8] + decimal(
        b[3],
    )
}

fn push_decimal(out: &mut Vec<u8>, n: u8)
    ensures
        final(out)@ == old(out)@ + decimal(n),
{
    if n >= 100 {
        out.push(48 + n / 100);
        out.push(48 + (n / 10) % 10);
        out.push(48 + n % 10);
    } else if n >= 10 {
        out.push(48 + n / 10);
        out.push(48 + n % 10);
    } else {
        out.push(48 + n);
    }
    assert(final(out)@ =~= old(out)@ + decimal(n));
}

/// The presentation form of resource data: the address of an A record;
/// other types are not presented.
pub fn get_data_from_type_and_buffer(type_: Type, buffer: &[u8]) -> (r: String)
    requires
        type_ == Type::A ==> buffer@.len() == 4,
    ensures
        type_ == Type::A ==> r@ == lossy_text(dotted_quad(buffer@)),
        type_ == Type::A ==> r@ == decode_utf8(dotted_quad(buffer@)),
        type_ != Type::A ==> r@ == "Unknown RR type"@,
{
    match type_ {
        Type::A => {
            let mut text: Vec<u8> = Vec::new();
            push_decimal(&mut text, buffer[0]);
            text.push(46);
            push_decimal(&mut text, buffer[1]);
            text.push(46);
            push_decimal(&mut text, buffer[2]);
            text.push(46);
            push_decimal(&mut text, buffer[3]);
            assert(text@ =~= dotted_quad(buffer@));
            proof {
                let b = text@;
                assert(b.subrange(0, 0) =~= Seq::<u8>::empty());
                assert forall|i: int| 0 <= i < b.len() implies #[trigger] is_leading_byte_width_1(
                    b[i],
                ) by {
                    assert(b[i] < 128);
                }
                partial_valid_utf8_extend_ascii_block(b, 0, b.len() as int);
                assert(b.subrange(0, b.len() as int) =~= b);
            }
            text_from_bytes(text.as_slice())
        },
        _ => String::from_str("Unknown RR type"),
    }
}

} // verus!

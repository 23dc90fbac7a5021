//! Encoding of domain names, always uncompressed.

use vstd::prelude::*;

use crate::common::domain_name::DomainName;

verus! {

/// A label on the wire: its length byte, then its bytes.
pub open spec fn encoded_label(label: Seq<u8>) -> Seq<u8> {
    seq![label.len() as u8] + label
}

/// The wire form of each label.
pub open spec fn encoded_labels(labels: Seq<Seq<u8>>) -> Seq<Seq<u8>> {
    Seq::new(labels.len(), |i: int| encoded_label(labels[i]))
}

/// The uncompressed wire form of a name: each label with its length byte.
/// For a canonical name the last, empty label gives the terminating zero.
pub open spec fn encoded_name(labels: Seq<Seq<u8>>) -> Seq<u8> {
    encoded_labels(labels).flatten()
}

pub proof fn lemma_encoded_labels_take(labels: Seq<Seq<u8>>, i: int)
    requires
        0 <= i < labels.len(),
    ensures
        encoded_name(labels.take(i + 1)) == encoded_name(labels.take(i)) + encoded_label(
            labels[i],
        ),
{
    assert(encoded_labels(labels.take(i + 1)) =~= encoded_labels(labels.take(i)).push(
        encoded_label(labels[i]),
    ));
    encoded_labels(labels.take(i)).lemma_flatten_push(encoded_label(labels[i]));
}

pub proof fn lemma_encoded_name_first(labels: Seq<Seq<u8>>)
    requires
        labels.len() > 0,
    ensures
        encoded_name(labels) == encoded_label(labels[0]) + encoded_name(labels.drop_first()),
{
    assert(encoded_labels(labels).drop_first() =~= encoded_labels(labels.drop_first()));
}

pub fn encode(domain_name: DomainName) -> (r: Vec<u8>)
    ensures
        r@ == encoded_name(domain_name@),
{
    let mut e: Vec<u8> = Vec::new();
    let mut i: usize = 0;
    while i < domain_name.labels.len()
        invariant
            i <= domain_name.labels@.len(),
            e@ == encoded_name(domain_name@.take(i as int)),
        decreases domain_name.labels@.len() - i,
    {
        let label = &domain_name.labels[i];
        let ghost before = e@;
        e.push(label.len() as u8);
        let mut j: usize = 0;
        while j < label.len()
            invariant
                j <= label@.len(),
                e@ == before + seq![label@.len() as u8] + label@.take(j as int),
            decreases label@.len() - j,
        {
            e.push(label[j]);
            assert(e@ =~= before + seq![label@.len() as u8] + label@.take(j + 1));
            j = j + 1;
        }
        proof {
            assert(label@.take(j as int) =~= label@);
            lemma_encoded_labels_take(domain_name@, i as int);
            assert(e@ =~= before + encoded_label(domain_name@[i as int]));
        }
        i = i + 1;
    }
    assert(domain_name@.take(i as int) =~= domain_name@);
    e
}

} // verus!

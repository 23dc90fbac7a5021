//! Domain names as sequences of labels ending with the empty root label.

use vstd::prelude::*;
use vstd::string::StringSliceAdditionalSpecFns;
use vstd::utf8::{decode_utf8, valid_utf8};

verus! {

pub type Label = Vec<u8>;

/// A domain name. In canonical form the last label is the empty root label.
#[derive(Debug, PartialEq, Eq, Hash)]
pub struct DomainName {
    pub labels: Vec<Label>,
}

/// The byte sequences of a list of labels.
pub open spec fn labels_view(labels: Seq<Label>) -> Seq<Seq<u8>> {
    Seq::new(labels.len(), |i: int| labels[i]@)
}

impl View for DomainName {
    type V = Seq<Seq<u8>>;

    open spec fn view(&self) -> Seq<Seq<u8>> {
        labels_view(self.labels@)
    }
}

impl Clone for DomainName {
    fn clone(&self) -> (r: Self)
        ensures
            r@ == self@,
    {
        let mut labels: Vec<Label> = Vec::new();
        let mut i: usize = 0;
        while i < self.labels.len()
            invariant
                i <= self.labels@.len(),
                labels_view(labels@) == self@.take(i as int),
            decreases self.labels@.len() - i,
        {
            let label = self.labels[i].clone();
            assert(label@ =~= self.labels@[i as int]@);
            let ghost before = labels@;
            assert(self@.len() == self.labels@.len());
            assert(label@ == self@[i as int]);
            labels.push(label);
            assert(labels@ == before.push(label));
            assert(labels_view(before).len() == i);
            assert forall|k: int| 0 <= k < i implies #[trigger] labels@[k]@ == self@[k] by {
                assert(labels_view(before)[k] == self@.take(i as int)[k]);
            }
            assert(labels_view(labels@) =~= self@.take(i + 1));
            i = i + 1;
        }
        assert(self@.take(i as int) =~= self@);
        DomainName { labels }
    }
}

/// The pieces of `b` between the dots, in order (`a.b.` gives `a`, `b` and an empty piece).
pub open spec fn split_dots(b: Seq<u8>) -> Seq<Seq<u8>>
    decreases b.len(),
{
    if b.len() == 0 {
        seq![Seq::<u8>::empty()]
    } else {
        let s = split_dots(b.drop_last());
        if b.last() == 46 {
            s.push(Seq::<u8>::empty())
        } else {
            s.update(s.len() - 1, s.last().push(b.last()))
        }
    }
}

/// The labels of a name written in presentation form: the pieces between the
/// dots, with the empty root label added when the text does not end with a dot.
pub open spec fn presentation_labels(b: Seq<u8>) -> Seq<Seq<u8>> {
    let s = split_dots(b);
    if s.last().len() == 0 {
        s
    } else {
        s.push(Seq::<u8>::empty())
    }
}

/// The labels joined with dots.
pub open spec fn dotted(labels: Seq<Seq<u8>>) -> Seq<u8>
    decreases labels.len(),
{
    if labels.len() == 0 {
        Seq::empty()
    } else if labels.len() == 1 {
        labels[0]
    } else {
        dotted(labels.drop_last()).push(46) + labels.last()
    }
}

/// What `String::from_utf8_lossy` makes of a byte sequence.
pub uninterp spec fn lossy_text(b: Seq<u8>) -> Seq<char>;

/// Relies on `String::from_utf8_lossy`: a function of the bytes alone, which
/// returns the text itself when the bytes are valid UTF-8.
#[verifier::external_body]
pub(crate) fn text_from_bytes(b: &[u8]) -> (r: String)
    ensures
        r@ == lossy_text(b@),
        valid_utf8(b@) ==> r@ == decode_utf8(b@),
{
    String::from_utf8_lossy(b).into_owned()
}

impl DomainName {
    /// The presentation form: the labels joined with dots, so that a canonical
    /// name ends with a dot.
    pub fn to_string(&self) -> (r: String)
        ensures
            r@ == lossy_text(dotted(self@)),
            valid_utf8(dotted(self@)) ==> r@ == decode_utf8(dotted(self@)),
    {
        let mut bytes: Vec<u8> = Vec::new();
        let mut i: usize = 0;
        while i < self.labels.len()
            invariant
                i <= self.labels@.len(),
                bytes@ == dotted(self@.take(i as int)),
            decreases self.labels@.len() - i,
        {
            if i > 0 {
                bytes.push(46);
            }
            let label = &self.labels[i];
            let mut j: usize = 0;
            let ghost before = bytes@;
            while j < label.len()
                invariant
                    j <= label@.len(),
                    bytes@ == before + label@.take(j as int),
                decreases label@.len() - j,
            {
                bytes.push(label[j]);
                assert(bytes@ =~= before + label@.take(j + 1));
                j = j + 1;
            }
            assert(label@.take(j as int) =~= label@);
            proof {
                let t = self@.take(i + 1);
                assert(t.drop_last() =~= self@.take(i as int));
                assert(t.last() == label@);
                if i == 0 {
                    assert(bytes@ =~= dotted(t));
                } else {
                    assert(bytes@ =~= dotted(t));
                }
            }
            i = i + 1;
        }
        assert(self@.take(i as int) =~= self@);
        text_from_bytes(bytes.as_slice())
    }
}

impl From<&str> for DomainName {
    /// Parses the presentation form: splits on dots and adds the root label
    /// when the text does not end with a dot.
    fn from(s: &str) -> (r: Self)
        ensures
            r@ == presentation_labels(s.spec_bytes()),
    {
        let b = s.as_bytes();
        let mut labels: Vec<Label> = Vec::new();
        let mut current: Vec<u8> = Vec::new();
        let mut i: usize = 0;
        while i < b.len()
            invariant
                i <= b@.len(),
                b@ == s.spec_bytes(),
                labels_view(labels@).push(current@) == split_dots(b@.take(i as int)),
            decreases b@.len() - i,
        {
            let ghost prev = split_dots(b@.take(i as int));
            assert(b@.take(i + 1).drop_last() =~= b@.take(i as int));
            if b[i] == 46 {
                let done = current;
                labels.push(done);
                current = Vec::new();
                assert(labels_view(labels@).push(current@) =~= prev.push(
                    Seq::<u8>::empty(),
                ));
            } else {
                current.push(b[i]);
                assert(labels_view(labels@).push(current@) =~= prev.update(
                    prev.len() - 1,
                    prev.last().push(b@[i as int]),
                ));
            }
            i = i + 1;
        }
        assert(b@.take(i as int) =~= b@);
        let ghost pieces = split_dots(b@);
        let root_missing = current.len() != 0;
        labels.push(current);
        if root_missing {
            labels.push(Vec::new());
        }
        assert(labels_view(labels@) =~= presentation_labels(b@));
        DomainName { labels }
    }
}

impl vstd::std_specs::convert::FromSpecImpl<&str> for DomainName {
    open spec fn obeys_from_spec() -> bool {
        false
    }

    open spec fn from_spec(v: &str) -> DomainName {
        choose|d: DomainName| d@ == presentation_labels(v.spec_bytes())
    }
}

} // verus!

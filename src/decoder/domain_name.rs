//! Decoding of domain names, following compression pointers.

use vstd::prelude::*;

use crate::common::domain_name::{labels_view, DomainName, Label};
use crate::decoder::{is_suffix, offset_in, DecodingError};
use crate::encoder::domain_name::{encoded_labels, encoded_name, lemma_encoded_name_first};

verus! {

/// The two top bits of a byte that starts a compression pointer.
pub const ALIAS_FLAG: u8 = 0b11000000;

/// The longest label.
pub const MAX_LABEL_LENGTH: u8 = 63;

/// How many labels besides the root a decoded name may hold; this also stops
/// pointer loops.
pub const MAX_LABELS: usize = 127;

/// The offset that a two-byte compression pointer names.
pub open spec fn pointer_offset(hi: u8, lo: u8) -> int {
    (hi as int - 192) * 256 + lo as int
}

/// The name that starts at `pos` in `src`: its labels, and where the bytes of
/// the name end at `pos` (after the root label, or after the first pointer).
/// A pointer must point strictly before itself; at most `budget` labels
/// besides the root are read. `None` when the name is invalid.
pub open spec fn name_at(src: Seq<u8>, pos: int, budget: nat) -> Option<(Seq<Seq<u8>>, int)>
    decreases budget, pos,
{
    if pos < 0 || pos >= src.len() {
        None
    } else {
        let b = src[pos];
        if b == 0 {
            Some((seq![Seq::<u8>::empty()], pos + 1))
        } else if b >= 192 {
            if pos + 1 >= src.len() {
                None
            } else {
                let off = pointer_offset(b, src[pos + 1]);
                if off >= pos {
                    None
                } else {
                    match name_at(src, off, budget) {
                        Some((labels, _)) => Some((labels, pos + 2)),
                        None => None,
                    }
                }
            }
        } else if b > 63 || budget == 0 || pos + 1 + b > src.len() {
            None
        } else {
            match name_at(src, pos + 1 + b, (budget - 1) as nat) {
                Some((labels, end)) => Some(
                    (seq![src.subrange(pos + 1, pos + 1 + b)] + labels, end),
                ),
                None => None,
            }
        }
    }
}

/// Where the labels and pointer of a name decoded at some position end,
/// given the name read from the current position on.
pub open spec fn name_continues(
    rest: Option<(Seq<Seq<u8>>, int)>,
    read: Seq<Seq<u8>>,
    end: Option<int>,
) -> Option<(Seq<Seq<u8>>, int)> {
    match rest {
        Some((labels, e)) => Some(
            (
                read + labels,
                match end {
                    Some(x) => x,
                    None => e,
                },
            ),
        ),
        None => None,
    }
}

pub fn decode<'a>(bytes: &'a [u8], source: &'a [u8]) -> (r: Result<
    (DomainName, &'a [u8]),
    DecodingError,
>)
    requires
        is_suffix(bytes@, source@),
    ensures
        match name_at(source@, offset_in(bytes@, source@), MAX_LABELS as nat) {
            Some((labels, end)) => r matches Ok((name, rest)) && name@ == labels && rest@
                == source@.subrange(end, source@.len() as int),
            None => r == Err::<(DomainName, &[u8]), _>(DecodingError::InvalidName),
        },
        r matches Ok((_, rest)) ==> is_suffix(rest@, source@) && rest@.len() < bytes@.len(),
{
    proof {
        lemma_name_at_len(source@, offset_in(bytes@, source@), MAX_LABELS as nat);
    }
    let ghost src = source@;
    let start = source.len() - bytes.len();
    let mut pos: usize = start;
    let mut budget: usize = MAX_LABELS;
    let mut labels: Vec<Label> = Vec::new();
    let mut end: Option<usize> = None;
    loop
        invariant
            src == source@,
            start == offset_in(bytes@, source@),
            is_suffix(bytes@, source@),
            budget <= MAX_LABELS,
            pos <= source@.len(),
            end matches Some(x) ==> start < x <= source@.len(),
            end is None ==> start <= pos,
            name_at(src, start as int, MAX_LABELS as nat) == name_continues(
                name_at(src, pos as int, budget as nat),
                labels_view(labels@),
                match end {
                    Some(x) => Some(x as int),
                    None => None,
                },
            ),
        decreases budget, pos,
    {
        if pos >= source.len() {
            return Err(DecodingError::InvalidName);
        }
        let b = source[pos];
        if b == 0 {
            let ghost before = labels@;
            labels.push(Vec::new());
            assert(labels_view(labels@) =~= labels_view(before) + seq![Seq::<u8>::empty()]);
            let e = match end {
                Some(x) => x,
                None => pos + 1,
            };
            let rest = vstd::slice::slice_subrange(bytes, e - start, bytes.len());
            assert(rest@ =~= source@.subrange(e as int, source@.len() as int));
            return Ok((DomainName { labels }, rest));
        } else if b & ALIAS_FLAG == ALIAS_FLAG {
            assert(b & ALIAS_FLAG == ALIAS_FLAG <==> b >= 192) by (bit_vector);
            if pos + 1 >= source.len() {
                return Err(DecodingError::InvalidName);
            }
            let off = ((b - ALIAS_FLAG) as usize) * 256 + source[pos + 1] as usize;
            if off >= pos {
                return Err(DecodingError::InvalidName);
            }
            if end.is_none() {
                end = Some(pos + 2);
            }
            pos = off;
        } else {
            assert(b & ALIAS_FLAG == ALIAS_FLAG <==> b >= 192) by (bit_vector);
            if b > MAX_LABEL_LENGTH || budget == 0 || b as usize >= source.len() - pos {
                return Err(DecodingError::InvalidName);
            }
            let next = pos + 1 + b as usize;
            let label = vstd::slice::slice_to_vec(
                vstd::slice::slice_subrange(source, pos + 1, next),
            );
            let ghost before = labels@;
            labels.push(label);
            assert(labels_view(labels@) =~= labels_view(before) + seq![
                src.subrange(pos + 1, next as int),
            ]);
            budget = budget - 1;
            pos = next;
        }
    }
}

pub fn is_alias_flag(byte: u8) -> (r: bool)
    ensures
        r == (byte >= 192),
{
    let r = byte & ALIAS_FLAG == ALIAS_FLAG;
    assert(byte & ALIAS_FLAG == ALIAS_FLAG <==> byte >= 192) by (bit_vector);
    r
}

} // verus!

verus! {

/// A canonical name: at least the root label, which comes last and alone is
/// empty; every other label holds 1 to 63 bytes; at most `MAX_LABELS` labels
/// besides the root.
pub open spec fn well_formed_name(labels: Seq<Seq<u8>>) -> bool {
    &&& 1 <= labels.len() <= MAX_LABELS + 1
    &&& labels.last().len() == 0
    &&& forall|i: int|
        0 <= i < labels.len() - 1 ==> 1 <= #[trigger] labels[i].len() <= MAX_LABEL_LENGTH
}

/// Labels that can stand before a pointer: each holds 1 to 63 bytes.
pub open spec fn prefix_labels(labels: Seq<Seq<u8>>) -> bool {
    forall|i: int| 0 <= i < labels.len() ==> 1 <= #[trigger] labels[i].len() <= MAX_LABEL_LENGTH
}

/// A decoded name holds the root label, and at most `budget` labels besides
/// it; its bytes end within the message, after its start.
pub proof fn lemma_name_at_len(src: Seq<u8>, pos: int, budget: nat)
    ensures
        name_at(src, pos, budget) matches Some((labels, end)) ==> 1 <= labels.len() <= budget
            + 1 && pos < end <= src.len(),
    decreases budget, pos,
{
    if 0 <= pos < src.len() {
        let b = src[pos];
        if b >= 192 && pos + 1 < src.len() {
            let off = pointer_offset(b, src[pos + 1]);
            if off < pos {
                lemma_name_at_len(src, off, budget);
            }
        } else if b != 0 && b <= 63 && budget > 0 && pos + 1 + b <= src.len() {
            lemma_name_at_len(src, pos + 1 + b, (budget - 1) as nat);
        }
    }
}

/// Any budget that covers the labels of a decoded name decodes it the same.
pub proof fn lemma_name_at_budget(src: Seq<u8>, pos: int, budget: nat, other: nat)
    requires
        name_at(src, pos, budget) matches Some((labels, _)) && labels.len() <= other + 1,
    ensures
        name_at(src, pos, other) == name_at(src, pos, budget),
    decreases budget, pos,
{
    let b = src[pos];
    if b >= 192 {
        let off = pointer_offset(b, src[pos + 1]);
        lemma_name_at_budget(src, off, budget, other);
    } else if b != 0 {
        let next = pos + 1 + b;
        lemma_name_at_len(src, next, (budget - 1) as nat);
        lemma_name_at_budget(src, next, (budget - 1) as nat, (other - 1) as nat);
    }
}

/// Decoding the uncompressed encoding of a canonical name, wherever it stands
/// in a message, gives back the name and ends right after its encoding.
pub proof fn lemma_name_round_trip(labels: Seq<Seq<u8>>, src: Seq<u8>, pos: int, budget: nat)
    requires
        well_formed_name(labels),
        labels.len() <= budget + 1,
        0 <= pos,
        pos + encoded_name(labels).len() <= src.len(),
        src.subrange(pos, pos + encoded_name(labels).len()) == encoded_name(labels),
    ensures
        name_at(src, pos, budget) == Some((labels, pos + encoded_name(labels).len())),
    decreases labels.len(),
{
    let enc = encoded_name(labels);
    lemma_encoded_name_first(labels);
    let first = labels[0];
    let rest = labels.drop_first();
    assert(src[pos] == enc[0]);
    assert(enc[0] == first.len() as u8);
    if labels.len() == 1 {
        assert(rest =~= Seq::<Seq<u8>>::empty());
        assert(encoded_name(rest) =~= Seq::<u8>::empty());
        assert(labels[0] =~= Seq::<u8>::empty());
        assert(labels =~= seq![Seq::<u8>::empty()]);
    } else {
        assert(1 <= labels[0].len() <= 63);
        let n = first.len();
        assert(src[pos] == n);
        let next = pos + 1 + n;
        assert(well_formed_name(rest)) by {
            assert(rest.last() == labels.last());
            assert forall|i: int| 0 <= i < rest.len() - 1 implies 1 <= #[trigger] rest[i].len()
                <= MAX_LABEL_LENGTH by {
                assert(rest[i] == labels[i + 1]);
            }
        }
        assert(src.subrange(next, next + encoded_name(rest).len()) =~= encoded_name(rest)) by {
            assert forall|k: int| 0 <= k < encoded_name(rest).len() implies src[next + k]
                == encoded_name(rest)[k] by {
                assert(src.subrange(pos, pos + enc.len())[1 + n + k] == enc[1 + n + k]);
            }
        }
        assert(src.subrange(pos + 1, next) =~= first) by {
            assert forall|k: int| 0 <= k < n implies src[pos + 1 + k] == first[k] by {
                assert(src.subrange(pos, pos + enc.len())[1 + k] == enc[1 + k]);
            }
        }
        lemma_name_round_trip(rest, src, next, (budget - 1) as nat);
        assert(seq![first] + rest =~= labels);
    }
}

/// A name that is a single pointer to an earlier name decodes to the labels of
/// that earlier name, and ends right after the pointer.
pub proof fn lemma_pointer_to_earlier_name(src: Seq<u8>, pos: int, target: int)
    requires
        0 <= target < pos,
        pos + 1 < src.len(),
        src[pos] >= 192,
        pointer_offset(src[pos], src[pos + 1]) == target,
    ensures
        name_at(src, pos, MAX_LABELS as nat) == match name_at(
            src,
            target,
            MAX_LABELS as nat,
        ) {
            Some((labels, _)) => Some((labels, pos + 2)),
            None => None,
        },
{
}

/// Labels written out in full and then a pointer to an earlier name decode to
/// those labels followed by the labels of the earlier name, when the whole
/// stays within `MAX_LABELS` labels besides the root.
pub proof fn lemma_prefix_then_pointer(
    src: Seq<u8>,
    pos: int,
    prefix: Seq<Seq<u8>>,
    target: int,
)
    requires
        prefix_labels(prefix),
        0 <= pos,
        pos + encoded_name(prefix).len() + 1 < src.len(),
        src.subrange(pos, pos + encoded_name(prefix).len()) == encoded_name(prefix),
        src[pos + encoded_name(prefix).len()] >= 192,
        pointer_offset(
            src[pos + encoded_name(prefix).len()],
            src[pos + encoded_name(prefix).len() + 1],
        ) == target,
        0 <= target < pos + encoded_name(prefix).len(),
        name_at(src, target, MAX_LABELS as nat) matches Some((labels, _)) && prefix.len()
            + labels.len() <= MAX_LABELS + 1,
    ensures
        name_at(src, target, MAX_LABELS as nat) matches Some((labels, _)) && name_at(
            src,
            pos,
            MAX_LABELS as nat,
        ) == Some((prefix + labels, pos + encoded_name(prefix).len() + 2)),
{
    let labels = name_at(src, target, MAX_LABELS as nat)->Some_0.0;
    lemma_name_at_len(src, target, MAX_LABELS as nat);
    lemma_name_at_budget(src, target, MAX_LABELS as nat, (MAX_LABELS - prefix.len()) as nat);
    lemma_prefix_then_pointer_budget(src, pos, prefix, target, MAX_LABELS as nat);
}

proof fn lemma_prefix_then_pointer_budget(
    src: Seq<u8>,
    pos: int,
    prefix: Seq<Seq<u8>>,
    target: int,
    budget: nat,
)
    requires
        prefix_labels(prefix),
        prefix.len() <= budget,
        0 <= pos,
        pos + encoded_name(prefix).len() + 1 < src.len(),
        src.subrange(pos, pos + encoded_name(prefix).len()) == encoded_name(prefix),
        src[pos + encoded_name(prefix).len()] >= 192,
        pointer_offset(
            src[pos + encoded_name(prefix).len()],
            src[pos + encoded_name(prefix).len() + 1],
        ) == target,
        0 <= target < pos + encoded_name(prefix).len(),
        name_at(src, target, (budget - prefix.len()) as nat) is Some,
    ensures
        name_at(src, target, (budget - prefix.len()) as nat) matches Some((labels, _))
            && name_at(src, pos, budget) == Some(
            (prefix + labels, pos + encoded_name(prefix).len() + 2),
        ),
    decreases prefix.len(),
{
    let enc = encoded_name(prefix);
    let labels = name_at(src, target, (budget - prefix.len()) as nat)->Some_0.0;
    if prefix.len() == 0 {
        assert(encoded_labels(prefix) =~= Seq::<Seq<u8>>::empty());
        assert(enc =~= Seq::<u8>::empty());
        assert(prefix + labels =~= labels);
    } else {
        lemma_encoded_name_first(prefix);
        let first = prefix[0];
        let rest = prefix.drop_first();
        let n = first.len();
        let next = pos + 1 + n;
        assert(1 <= n <= 63);
        assert(src[pos] == enc[0]);
        assert(src.subrange(next, next + encoded_name(rest).len()) =~= encoded_name(rest)) by {
            assert forall|k: int| 0 <= k < encoded_name(rest).len() implies src[next + k]
                == encoded_name(rest)[k] by {
                assert(src.subrange(pos, pos + enc.len())[1 + n + k] == enc[1 + n + k]);
            }
        }
        assert(src.subrange(pos + 1, next) =~= first) by {
            assert forall|k: int| 0 <= k < n implies src[pos + 1 + k] == first[k] by {
                assert(src.subrange(pos, pos + enc.len())[1 + k] == enc[1 + k]);
            }
        }
        assert(prefix_labels(rest)) by {
            assert forall|i: int| 0 <= i < rest.len() implies 1 <= #[trigger] rest[i].len()
                <= MAX_LABEL_LENGTH by {
                assert(rest[i] == prefix[i + 1]);
            }
        }
        assert((budget - 1) as nat - rest.len() == budget - prefix.len());
        lemma_prefix_then_pointer_budget(src, next, rest, target, (budget - 1) as nat);
        assert(seq![first] + (rest + labels) =~= prefix + labels);
    }
}

/// Pointer to pointer to labels: the name decodes to the labels at the end of
/// the chain.
pub proof fn lemma_nested_pointers(src: Seq<u8>, pos: int, middle: int, target: int)
    requires
        0 <= target < middle < pos,
        pos + 1 < src.len(),
        src[pos] >= 192,
        pointer_offset(src[pos], src[pos + 1]) == middle,
        src[middle] >= 192,
        pointer_offset(src[middle], src[middle + 1]) == target,
    ensures
        name_at(src, pos, MAX_LABELS as nat) == match name_at(
            src,
            target,
            MAX_LABELS as nat,
        ) {
            Some((labels, _)) => Some((labels, pos + 2)),
            None => None,
        },
{
    lemma_pointer_to_earlier_name(src, middle, target);
    lemma_pointer_to_earlier_name(src, pos, middle);
}

/// A pointer to its own position or beyond makes the name invalid, whether it
/// starts the name or follows labels written out in full.
pub proof fn lemma_forward_pointer_rejected(
    src: Seq<u8>,
    pos: int,
    prefix: Seq<Seq<u8>>,
    budget: nat,
)
    requires
        prefix_labels(prefix),
        0 <= pos,
        pos + encoded_name(prefix).len() + 1 < src.len(),
        src.subrange(pos, pos + encoded_name(prefix).len()) == encoded_name(prefix),
        src[pos + encoded_name(prefix).len()] >= 192,
        pointer_offset(
            src[pos + encoded_name(prefix).len()],
            src[pos + encoded_name(prefix).len() + 1],
        ) >= pos + encoded_name(prefix).len(),
    ensures
        name_at(src, pos, budget) is None,
    decreases prefix.len(),
{
    let enc = encoded_name(prefix);
    if prefix.len() == 0 {
        assert(encoded_labels(prefix) =~= Seq::<Seq<u8>>::empty());
        assert(enc =~= Seq::<u8>::empty());
    } else {
        lemma_encoded_name_first(prefix);
        let first = prefix[0];
        let rest = prefix.drop_first();
        let n = first.len();
        let next = pos + 1 + n;
        assert(1 <= n <= 63);
        assert(src[pos] == enc[0]);
        assert(src.subrange(next, next + encoded_name(rest).len()) =~= encoded_name(rest)) by {
            assert forall|k: int| 0 <= k < encoded_name(rest).len() implies src[next + k]
                == encoded_name(rest)[k] by {
                assert(src.subrange(pos, pos + enc.len())[1 + n + k] == enc[1 + n + k]);
            }
        }
        assert(prefix_labels(rest)) by {
            assert forall|i: int| 0 <= i < rest.len() implies 1 <= #[trigger] rest[i].len()
                <= MAX_LABEL_LENGTH by {
                assert(rest[i] == prefix[i + 1]);
            }
        }
        if budget > 0 {
            lemma_forward_pointer_rejected(src, next, rest, (budget - 1) as nat);
        }
    }
}

} // verus!

verus! {

impl DomainName {
    /// Decodes a name at the start of a buffer that is a whole message of its
    /// own, so that its pointers refer to offsets in `bytes`.
    pub fn from_buffer(bytes: &[u8]) -> (r: Result<(DomainName, &[u8]), DecodingError>)
        ensures
            match name_at(bytes@, 0, MAX_LABELS as nat) {
                Some((labels, end)) => r matches Ok((name, rest)) && name@ == labels && rest@
                    == bytes@.subrange(end, bytes@.len() as int),
                None => r == Err::<(DomainName, &[u8]), _>(DecodingError::InvalidName),
            },
    {
        assert(bytes@.subrange(0, bytes@.len() as int) =~= bytes@);
        decode(bytes, bytes)
    }
}

} // verus!

//! Decoding what the encoder writes gives back the message.

use vstd::prelude::*;

use crate::common::header::Header;
use crate::common::opt_record::OptView;
use crate::common::question::{
    class_code, lemma_class_code_round_trip, lemma_qtype_code_round_trip, qtype_code, QuestionView,
};
use crate::common::resource_record::{lemma_type_code_round_trip, type_code, RecordView, Type};
use crate::common::MessageView;
use crate::decoder::domain_name::{lemma_name_round_trip, well_formed_name, MAX_LABELS};
use crate::decoder::header::{header_of, lemma_header_round_trip};
use crate::decoder::opt_record::{options_of, opt_of, ttl_fields};
use crate::decoder::question::question_at;
use crate::decoder::resource_record::{record_at, rdata_at, txt_consumed};
use crate::decoder::{additionals_at, is_opt_at, message_of, opt_at, peek_type, questions_at, records_at, skip_name};
use crate::encoder::domain_name::{encoded_label, encoded_labels, encoded_name, lemma_encoded_name_first};
use crate::encoder::header::encoded_header;
use crate::encoder::opt_record::{encoded_opt, encoded_option, encoded_option_list, encoded_options, opt_ttl};
use crate::encoder::question::encoded_question;
use crate::encoder::resource_record::encoded_record;
use crate::encoder::{
    encoded_message, encoded_opt_section, encoded_question_list, encoded_questions, encoded_record_list,
    encoded_records,
};
use crate::utils::{be16, be32, u16_bytes, u32_bytes};

verus! {

/// RDATA in the shape its type asks for, with names written out in full.
pub open spec fn well_formed_rdata(t: Type, data: Seq<u8>) -> bool {
    &&& data.len() <= 65535
    &&& match t {
        Type::A => data.len() == 4,
        Type::AAAA => data.len() == 16,
        Type::CNAME | Type::NS | Type::PTR => exists|l: Seq<Seq<u8>>|
            well_formed_name(l) && data == #[trigger] encoded_name(l),
        Type::MX => data.len() >= 2 && exists|l: Seq<Seq<u8>>|
            well_formed_name(l) && data.subrange(2, data.len() as int) == #[trigger] encoded_name(l),
        Type::TXT => txt_consumed(data) == data.len(),
        _ => true,
    }
}

/// A record that encodes and decodes cleanly: a canonical owner name, RDATA
/// of the right shape, and not of type OPT (which only the OPT record carries).
pub open spec fn well_formed_record(r: RecordView) -> bool {
    &&& well_formed_name(r.name)
    &&& well_formed_rdata(r.type_, r.data)
    &&& r.type_ != Type::OPT
}

/// Options whose lengths fit their 16-bit fields.
pub open spec fn well_formed_opt(o: OptView) -> bool {
    &&& forall|i: int| 0 <= i < o.options.len() ==> (#[trigger] o.options[i]).1.len() <= 65535
    &&& encoded_options(o.options).len() <= 65535
}

/// A message whose counts match its sections, with no reserved bit set, and
/// whose names, records and OPT record are all well formed.
pub open spec fn well_formed_message(m: MessageView) -> bool {
    &&& m.wf()
    &&& !m.header.reserved
    &&& forall|i: int| 0 <= i < m.questions.len() ==> well_formed_name((#[trigger] m.questions[i]).name)
    &&& forall|i: int| 0 <= i < m.answers.len() ==> well_formed_record(#[trigger] m.answers[i])
    &&& forall|i: int| 0 <= i < m.authorities.len() ==> well_formed_record(#[trigger] m.authorities[i])
    &&& forall|i: int| 0 <= i < m.additionals.len() ==> well_formed_record(#[trigger] m.additionals[i])
    &&& m.opt matches Some(o) ==> well_formed_opt(o)
}

proof fn lemma_be16(n: u16)
    ensures
        be16(u16_bytes(n)[0], u16_bytes(n)[1]) == n,
{
}

proof fn lemma_be32(n: u32)
    ensures
        be32(u32_bytes(n)[0], u32_bytes(n)[1], u32_bytes(n)[2], u32_bytes(n)[3]) == n,
{
}

/// `x` stands at `pos` in `src`.
pub open spec fn stands_at(src: Seq<u8>, pos: int, x: Seq<u8>) -> bool {
    &&& 0 <= pos
    &&& pos + x.len() <= src.len()
    &&& src.subrange(pos, pos + x.len()) == x
}

proof fn lemma_stands_split(src: Seq<u8>, pos: int, a: Seq<u8>, b: Seq<u8>)
    requires
        stands_at(src, pos, a + b),
    ensures
        stands_at(src, pos, a),
        stands_at(src, pos + a.len(), b),
{
    let s = src.subrange(pos, pos + (a + b).len());
    assert(src.subrange(pos, pos + a.len()) =~= s.subrange(0, a.len() as int));
    assert(s.subrange(0, a.len() as int) =~= a);
    assert(src.subrange(pos + a.len(), pos + a.len() + b.len()) =~= s.subrange(
        a.len() as int,
        (a + b).len() as int,
    ));
    assert(s.subrange(a.len() as int, (a + b).len() as int) =~= b);
}

proof fn lemma_stands_byte(src: Seq<u8>, pos: int, x: Seq<u8>, k: int)
    requires
        stands_at(src, pos, x),
        0 <= k < x.len(),
    ensures
        src[pos + k] == x[k],
{
    assert(src.subrange(pos, pos + x.len())[k] == x[k]);
}

proof fn lemma_question_round_trip(q: QuestionView, src: Seq<u8>, pos: int)
    requires
        well_formed_name(q.name),
        stands_at(src, pos, encoded_question(q)),
    ensures
        question_at(src, pos) == Ok::<(QuestionView, int), crate::decoder::DecodingError>(
            (q, pos + encoded_question(q).len()),
        ),
{
    let n = encoded_name(q.name);
    let t = u16_bytes(qtype_code(q.type_));
    let c = u16_bytes(class_code(q.class));
    assert(encoded_question(q) == n + (t + c)) by {
        assert(n + t + c =~= n + (t + c));
    }
    lemma_stands_split(src, pos, n, t + c);
    lemma_stands_split(src, pos + n.len(), t, c);
    lemma_name_round_trip(q.name, src, pos, MAX_LABELS as nat);
    let e = pos + n.len();
    lemma_stands_byte(src, e, t, 0);
    lemma_stands_byte(src, e, t, 1);
    lemma_stands_byte(src, e + 2, c, 0);
    lemma_stands_byte(src, e + 2, c, 1);
    lemma_be16(qtype_code(q.type_));
    lemma_be16(class_code(q.class));
    lemma_qtype_code_round_trip(q.type_);
    lemma_class_code_round_trip(q.class);
}

/// RDATA of the shape its type asks for is read back as it is.
proof fn lemma_rdata_round_trip(t: Type, data: Seq<u8>, src: Seq<u8>, pos: int)
    requires
        well_formed_rdata(t, data),
        stands_at(src, pos, data),
    ensures
        rdata_at(src, pos, data.len() as int, t) == Ok::<Seq<u8>, crate::decoder::DecodingError>(
            data,
        ),
{
    match t {
        Type::CNAME | Type::NS | Type::PTR => {
            let l = choose|l: Seq<Seq<u8>>| well_formed_name(l) && data == #[trigger] encoded_name(l);
            lemma_name_round_trip(l, src, pos, MAX_LABELS as nat);
        },
        Type::MX => {
            let l = choose|l: Seq<Seq<u8>>|
                well_formed_name(l) && data.subrange(2, data.len() as int) == #[trigger] encoded_name(l);
            assert(data =~= data.subrange(0, 2) + encoded_name(l));
            lemma_stands_split(src, pos, data.subrange(0, 2), encoded_name(l));
            lemma_name_round_trip(l, src, pos + 2, MAX_LABELS as nat);
        },
        _ => {},
    }
}

proof fn lemma_record_round_trip(r: RecordView, src: Seq<u8>, pos: int)
    requires
        well_formed_record(r),
        stands_at(src, pos, encoded_record(r)),
    ensures
        record_at(src, pos) == Ok::<(RecordView, int), crate::decoder::DecodingError>(
            (r, pos + encoded_record(r).len()),
        ),
{
    let n = encoded_name(r.name);
    let t = u16_bytes(type_code(r.type_));
    let c = u16_bytes(crate::common::question::class_code(r.class));
    let ttl = u32_bytes(r.ttl);
    let l = u16_bytes(r.data.len() as u16);
    let f = t + c + ttl + l;
    assert(f.len() == 10);
    assert(f[0] == t[0] && f[1] == t[1] && f[2] == c[0] && f[3] == c[1]);
    assert(f[4] == ttl[0] && f[5] == ttl[1] && f[6] == ttl[2] && f[7] == ttl[3]);
    assert(f[8] == l[0] && f[9] == l[1]);
    assert(encoded_record(r) == n + (f + r.data)) by {
        assert(encoded_record(r) =~= n + (f + r.data));
    }
    lemma_stands_split(src, pos, n, f + r.data);
    let e = pos + n.len();
    lemma_stands_split(src, e, f, r.data);
    lemma_name_round_trip(r.name, src, pos, MAX_LABELS as nat);
    assert forall|k: int| 0 <= k < 10 implies src[e + k] == f[k] by {
        lemma_stands_byte(src, e, f, k);
    }
    lemma_be16(type_code(r.type_));
    lemma_be16(crate::common::question::class_code(r.class));
    lemma_be32(r.ttl);
    lemma_be16(r.data.len() as u16);
    assert((r.data.len() as u16) as int == r.data.len());
    assert(be16(src[e + 8], src[e + 9]) == r.data.len());
    lemma_type_code_round_trip(r.type_);
    lemma_class_code_round_trip(r.class);
    lemma_rdata_round_trip(r.type_, r.data, src, e + 10);
}

proof fn lemma_questions_round_trip(qs: Seq<QuestionView>, src: Seq<u8>, pos: int)
    requires
        forall|i: int| 0 <= i < qs.len() ==> well_formed_name((#[trigger] qs[i]).name),
        stands_at(src, pos, encoded_questions(qs)),
    ensures
        questions_at(src, pos, qs.len()) == Ok::<(Seq<QuestionView>, int), crate::decoder::DecodingError>(
            (qs, pos + encoded_questions(qs).len()),
        ),
    decreases qs.len(),
{
    if qs.len() == 0 {
        assert(encoded_question_list(qs) =~= Seq::<Seq<u8>>::empty());
        assert(qs =~= Seq::<QuestionView>::empty());
    } else {
        let rest = qs.drop_first();
        assert(encoded_question_list(qs).drop_first() =~= encoded_question_list(rest));
        assert(encoded_questions(qs) == encoded_question(qs[0]) + encoded_questions(rest));
        lemma_stands_split(src, pos, encoded_question(qs[0]), encoded_questions(rest));
        lemma_question_round_trip(qs[0], src, pos);
        assert forall|i: int| 0 <= i < rest.len() implies well_formed_name((#[trigger] rest[i]).name) by {
            assert(rest[i] == qs[i + 1]);
        }
        let next = pos + encoded_question(qs[0]).len();
        lemma_questions_round_trip(rest, src, next);
        assert(seq![qs[0]] + rest =~= qs);
        assert(questions_at(src, pos, qs.len()) == match question_at(src, pos) {
            Err(e) => Err(e),
            Ok((q, n)) => match questions_at(src, n, (qs.len() - 1) as nat) {
                Err(e) => Err(e),
                Ok((more, end)) => Ok((seq![q] + more, end)),
            },
        });
    }
}

proof fn lemma_records_round_trip(rs: Seq<RecordView>, src: Seq<u8>, pos: int)
    requires
        forall|i: int| 0 <= i < rs.len() ==> well_formed_record(#[trigger] rs[i]),
        stands_at(src, pos, encoded_records(rs)),
    ensures
        records_at(src, pos, rs.len()) == Ok::<(Seq<RecordView>, int), crate::decoder::DecodingError>(
            (rs, pos + encoded_records(rs).len()),
        ),
    decreases rs.len(),
{
    if rs.len() == 0 {
        assert(encoded_record_list(rs) =~= Seq::<Seq<u8>>::empty());
        assert(rs =~= Seq::<RecordView>::empty());
    } else {
        let rest = rs.drop_first();
        assert(encoded_record_list(rs).drop_first() =~= encoded_record_list(rest));
        assert(encoded_records(rs) == encoded_record(rs[0]) + encoded_records(rest));
        lemma_stands_split(src, pos, encoded_record(rs[0]), encoded_records(rest));
        lemma_record_round_trip(rs[0], src, pos);
        assert forall|i: int| 0 <= i < rest.len() implies well_formed_record(#[trigger] rest[i]) by {
            assert(rest[i] == rs[i + 1]);
        }
        lemma_records_round_trip(rest, src, pos + encoded_record(rs[0]).len());
        assert(seq![rs[0]] + rest =~= rs);
        assert(records_at(src, pos, rs.len()) == match record_at(src, pos) {
            Err(e) => Err(e),
            Ok((r, n)) => match records_at(src, n, (rs.len() - 1) as nat) {
                Err(e) => Err(e),
                Ok((more, end)) => Ok((seq![r] + more, end)),
            },
        });
    }
}

proof fn lemma_skip_encoded_name(labels: Seq<Seq<u8>>, b: Seq<u8>, i: int)
    requires
        well_formed_name(labels),
        stands_at(b, i, encoded_name(labels)),
    ensures
        skip_name(b, i) == Some(i + encoded_name(labels).len()),
    decreases labels.len(),
{
    lemma_encoded_name_first(labels);
    let rest = labels.drop_first();
    lemma_stands_split(b, i, encoded_label(labels[0]), encoded_name(rest));
    lemma_stands_byte(b, i, encoded_label(labels[0]), 0);
    if labels.len() == 1 {
        assert(labels[0].len() == 0);
        assert(encoded_labels(rest) =~= Seq::<Seq<u8>>::empty());
    } else {
        assert(1 <= labels[0].len() <= 63);
        assert(well_formed_name(rest)) by {
            assert(rest.last() == labels.last());
            assert forall|k: int| 0 <= k < rest.len() - 1 implies 1 <= #[trigger] rest[k].len()
                <= 63 by {
                assert(rest[k] == labels[k + 1]);
            }
        }
        lemma_encoded_name_first(rest);
        lemma_skip_encoded_name(rest, b, i + 1 + labels[0].len());
    }
}

proof fn lemma_record_not_opt(r: RecordView, src: Seq<u8>, pos: int)
    requires
        well_formed_record(r),
        stands_at(src, pos, encoded_record(r)),
    ensures
        !is_opt_at(src, pos),
{
    let b = src.subrange(pos, src.len() as int);
    let n = encoded_name(r.name);
    let rest = encoded_record(r).subrange(n.len() as int, encoded_record(r).len() as int);
    assert(encoded_record(r) =~= n + rest);
    assert(stands_at(b, 0, encoded_record(r))) by {
        assert(b.subrange(0, encoded_record(r).len() as int) =~= src.subrange(
            pos,
            pos + encoded_record(r).len(),
        ));
    }
    lemma_stands_split(b, 0, n, rest);
    lemma_skip_encoded_name(r.name, b, 0);
    lemma_stands_byte(b, n.len() as int, rest, 0);
    lemma_stands_byte(b, n.len() as int, rest, 1);
    lemma_be16(type_code(r.type_));
}

proof fn lemma_options_round_trip(options: Seq<(u16, Seq<u8>)>)
    requires
        forall|i: int| 0 <= i < options.len() ==> (#[trigger] options[i]).1.len() <= 65535,
    ensures
        options_of(encoded_options(options)) == Some(options),
    decreases options.len(),
{
    if options.len() == 0 {
        assert(encoded_option_list(options) =~= Seq::<Seq<u8>>::empty());
    } else {
        let rest = options.drop_first();
        let first = encoded_option(options[0]);
        assert(encoded_option_list(options).drop_first() =~= encoded_option_list(rest));
        let all = encoded_options(options);
        assert(all == first + encoded_options(rest));
        let len = options[0].1.len() as int;
        lemma_be16(options[0].0);
        lemma_be16(options[0].1.len() as u16);
        assert(all[0] == first[0] && all[1] == first[1] && all[2] == first[2] && all[3] == first[3]);
        assert(all.subrange(4 + len, all.len() as int) =~= encoded_options(rest));
        assert(all.subrange(4, 4 + len) =~= options[0].1);
        assert forall|i: int| 0 <= i < rest.len() implies (#[trigger] rest[i]).1.len() <= 65535 by {
            assert(rest[i] == options[i + 1]);
        }
        lemma_options_round_trip(rest);
        assert(seq![(be16(all[0], all[1]) as u16, all.subrange(4, 4 + len))] + rest =~= options);
    }
}

proof fn lemma_ttl_round_trip(o: OptView)
    ensures
        ttl_fields(opt_ttl(o)) == (o.extended_rcode, o.version, o.dnssec_ok),
{
    let t = opt_ttl(o);
    let x = o.extended_rcode as int * 16777216 + o.version as int * 65536 + if o.dnssec_ok {
        32768int
    } else {
        0int
    };
    assert(0 <= x < 4294967296);
    assert(t == x);
}

proof fn lemma_opt_round_trip(o: OptView, src: Seq<u8>, pos: int)
    requires
        well_formed_opt(o),
        stands_at(src, pos, encoded_opt(o)),
    ensures
        is_opt_at(src, pos),
        opt_at(src, pos) == Ok::<(OptView, int), crate::decoder::DecodingError>(
            (o, pos + encoded_opt(o).len()),
        ),
{
    let b = src.subrange(pos, src.len() as int);
    let e = encoded_opt(o);
    let opts = encoded_options(o.options);
    assert(forall|k: int| 0 <= k < e.len() ==> b[k] == #[trigger] e[k]) by {
        assert forall|k: int| 0 <= k < e.len() implies b[k] == #[trigger] e[k] by {
            lemma_stands_byte(src, pos, e, k);
        }
    }
    assert(e.len() == 11 + opts.len());
    lemma_be16(41);
    lemma_be16(o.udp_payload_size);
    lemma_be32(opt_ttl(o));
    lemma_be16(opts.len() as u16);
    lemma_ttl_round_trip(o);
    assert(b.subrange(11, 11 + opts.len() as int) =~= opts) by {
        assert forall|k: int| 0 <= k < opts.len() implies b[11 + k] == opts[k] by {
            assert(e[11 + k] == opts[k]);
        }
    }
    lemma_options_round_trip(o.options);
    assert(peek_type(b) == Some(41u16));
}

proof fn lemma_opt_section_round_trip(opt: Option<OptView>, src: Seq<u8>, pos: int)
    requires
        opt matches Some(o) ==> well_formed_opt(o),
        stands_at(src, pos, encoded_opt_section(opt)),
    ensures
        additionals_at(
            src,
            pos,
            (if opt is Some {
                1int
            } else {
                0int
            }) as nat,
            None,
        ) == Ok::<(Seq<RecordView>, Option<OptView>, int), crate::decoder::DecodingError>(
            (Seq::empty(), opt, pos + encoded_opt_section(opt).len()),
        ),
{
    if let Some(o) = opt {
        lemma_opt_round_trip(o, src, pos);
        let next = pos + encoded_opt(o).len();
        assert(additionals_at(src, next, 0, Some(o)) == Ok::<
            (Seq<RecordView>, Option<OptView>, int),
            crate::decoder::DecodingError,
        >((Seq::empty(), Some(o), next)));
    }
}

#[verifier::rlimit(40)]
proof fn lemma_additionals_round_trip(
    rs: Seq<RecordView>,
    opt: Option<OptView>,
    src: Seq<u8>,
    pos: int,
)
    requires
        forall|i: int| 0 <= i < rs.len() ==> well_formed_record(#[trigger] rs[i]),
        opt matches Some(o) ==> well_formed_opt(o),
        stands_at(src, pos, encoded_records(rs) + encoded_opt_section(opt)),
    ensures
        additionals_at(
            src,
            pos,
            (rs.len() + if opt is Some {
                1int
            } else {
                0int
            }) as nat,
            None,
        ) matches Ok((decoded, o, _)) && decoded == rs && o == opt,
    decreases rs.len(),
{
    if rs.len() == 0 {
        assert(encoded_record_list(rs) =~= Seq::<Seq<u8>>::empty());
        assert(encoded_records(rs) + encoded_opt_section(opt) =~= encoded_opt_section(opt));
        lemma_opt_section_round_trip(opt, src, pos);
        assert(rs =~= Seq::<RecordView>::empty());
    } else {
        let rest = rs.drop_first();
        let first = encoded_record(rs[0]);
        assert(encoded_record_list(rs).drop_first() =~= encoded_record_list(rest));
        assert(encoded_records(rs) == first + encoded_records(rest));
        assert(encoded_records(rs) + encoded_opt_section(opt) =~= first + (encoded_records(rest)
            + encoded_opt_section(opt)));
        lemma_stands_split(src, pos, first, encoded_records(rest) + encoded_opt_section(opt));
        lemma_record_round_trip(rs[0], src, pos);
        lemma_record_not_opt(rs[0], src, pos);
        assert forall|i: int| 0 <= i < rest.len() implies well_formed_record(#[trigger] rest[i]) by {
            assert(rest[i] == rs[i + 1]);
        }
        lemma_additionals_round_trip(rest, opt, src, pos + first.len());
        assert(seq![rs[0]] + rest =~= rs);
    }
}

proof fn lemma_stands_join(src: Seq<u8>, pos: int, a: Seq<u8>, b: Seq<u8>)
    requires
        stands_at(src, pos, a),
        stands_at(src, pos + a.len(), b),
    ensures
        stands_at(src, pos, a + b),
{
    assert(src.subrange(pos, pos + (a + b).len()) =~= a + b) by {
        assert forall|k: int| 0 <= k < (a + b).len() implies src.subrange(
            pos,
            pos + (a + b).len(),
        )[k] == (a + b)[k] by {
            if k < a.len() {
                lemma_stands_byte(src, pos, a, k);
            } else {
                lemma_stands_byte(src, pos + a.len(), b, k - a.len());
            }
        }
    }
}

proof fn lemma_message_of_sections(src: Seq<u8>, m: MessageView, after_questions: int, after_answers: int, after_authorities: int)
    requires
        src.len() >= 12,
        header_of(src.subrange(0, 12)) == Ok::<Header, crate::decoder::DecodingError>(m.header),
        questions_at(src, 12, m.header.questions_count as nat) == Ok::<
            (Seq<QuestionView>, int),
            crate::decoder::DecodingError,
        >((m.questions, after_questions)),
        records_at(src, after_questions, m.header.answers_count as nat) == Ok::<
            (Seq<RecordView>, int),
            crate::decoder::DecodingError,
        >((m.answers, after_answers)),
        records_at(src, after_answers, m.header.authority_count as nat) == Ok::<
            (Seq<RecordView>, int),
            crate::decoder::DecodingError,
        >((m.authorities, after_authorities)),
        additionals_at(src, after_authorities, m.header.additional_count as nat, None) matches Ok(
            (decoded, opt, _),
        ) && decoded == m.additionals && opt == m.opt,
    ensures
        message_of(src) == Ok::<MessageView, crate::decoder::DecodingError>(m),
{
    reveal(message_of);
}

proof fn lemma_message_sections_stand(m: MessageView)
    ensures
        ({
            let src = encoded_message(m);
            let q = encoded_questions(m.questions);
            let an = encoded_records(m.answers);
            let ns = encoded_records(m.authorities);
            let after_questions = 12 + q.len() as int;
            let after_answers = after_questions + an.len() as int;
            let after_authorities = after_answers + ns.len() as int;
            &&& src.len() >= 12
            &&& src.subrange(0, 12) == encoded_header(m.header)
            &&& stands_at(src, 12, q)
            &&& stands_at(src, after_questions, an)
            &&& stands_at(src, after_answers, ns)
            &&& stands_at(
                src,
                after_authorities,
                encoded_records(m.additionals) + encoded_opt_section(m.opt),
            )
        }),
{
    reveal(encoded_message);
    let src = encoded_message(m);
    let h = encoded_header(m.header);
    let q = encoded_questions(m.questions);
    let an = encoded_records(m.answers);
    let ns = encoded_records(m.authorities);
    let ad = encoded_records(m.additionals);
    let o = encoded_opt_section(m.opt);
    let after_questions = 12 + q.len() as int;
    let after_answers = after_questions + an.len() as int;
    let after_authorities = after_answers + ns.len() as int;
    assert(stands_at(src, 0, src)) by {
        assert(src.subrange(0, src.len() as int) =~= src);
    }
    lemma_stands_split(src, 0, h + q + an + ns + ad, o);
    lemma_stands_split(src, 0, h + q + an + ns, ad);
    lemma_stands_split(src, 0, h + q + an, ns);
    lemma_stands_split(src, 0, h + q, an);
    lemma_stands_split(src, 0, h, q);
    lemma_stands_join(src, after_authorities, ad, o);
}

proof fn lemma_message_header(m: MessageView, src: Seq<u8>)
    requires
        !m.header.reserved,
        src.len() >= 12,
        src.subrange(0, 12) == encoded_header(m.header),
    ensures
        header_of(src.subrange(0, 12)) == Ok::<Header, crate::decoder::DecodingError>(m.header),
{
    lemma_header_round_trip(m.header);
    assert(Header { reserved: false, ..m.header } == m.header);
}

/// Encoding a well-formed message (names are never compressed on output) and
/// decoding the bytes gives the same message back, its OPT record included.
pub proof fn lemma_message_round_trip(m: MessageView)
    requires
        well_formed_message(m),
    ensures
        message_of(encoded_message(m)) == Ok::<MessageView, crate::decoder::DecodingError>(m),
{
    let src = encoded_message(m);
    let after_questions = 12 + encoded_questions(m.questions).len() as int;
    let after_answers = after_questions + encoded_records(m.answers).len() as int;
    let after_authorities = after_answers + encoded_records(m.authorities).len() as int;
    lemma_message_sections_stand(m);
    lemma_message_header(m, src);
    lemma_questions_round_trip(m.questions, src, 12);
    lemma_records_round_trip(m.answers, src, after_questions);
    lemma_records_round_trip(m.authorities, src, after_answers);
    lemma_additionals_round_trip(m.additionals, m.opt, src, after_authorities);
    lemma_message_of_sections(src, m, after_questions, after_answers, after_authorities);
}

/// A message with an OPT record comes back from the encoder and decoder with
/// the OPT record populated and the other additional records as they were.
pub proof fn lemma_opt_record_round_trip(m: MessageView)
    requires
        well_formed_message(m),
        m.opt is Some,
    ensures
        message_of(encoded_message(m)) matches Ok(d) && d.opt == m.opt && d.additionals
            == m.additionals,
{
    lemma_message_round_trip(m);
}

} // verus!

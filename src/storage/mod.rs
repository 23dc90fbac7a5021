//! Record repositories: the in-memory store and the lookup contract.

use vstd::prelude::*;

use crate::common::domain_name::DomainName;
use crate::common::question::{Class as QuestionClass, Question, QuestionView, Type as QuestionType};
use crate::common::records_view;
use crate::common::resource_record::{RecordView, ResourceRecord, Type};
use crate::decoder::DecodingError;

pub mod combined;
pub mod fallback;

verus! {

#[derive(Debug)]
pub enum RepositoryError {
    ContactingFallbackServerError(String),
    DecodingFallbackServerResponseError(DecodingError),
    FallbackServerTimeout,
    /// The question asks for something this repository does not answer (AXFR).
    NotImplemented,
}

/// What a lookup result stands for.
pub open spec fn answers_view(a: Result<Vec<ResourceRecord>, RepositoryError>) -> Result<
    Seq<RecordView>,
    RepositoryError,
> {
    match a {
        Ok(v) => Ok(records_view(v@)),
        Err(e) => Err(e),
    }
}

/// Looks up the records that answer a question.
pub trait ResourceRecordRepository: Sized {
    /// Asked `question`, the repository may give `answer` and be left as
    /// `after`. A repository that states nothing more admits every answer.
    open spec fn answered(
        &self,
        question: QuestionView,
        answer: Result<Seq<RecordView>, RepositoryError>,
        after: Self,
    ) -> bool {
        true
    }

    /// The answer to a question when the repository knows it ahead and gives
    /// it without changing; `None` when it depends on more, such as an
    /// upstream server.
    open spec fn known_answer(&self, question: QuestionView) -> Option<
        Result<Seq<RecordView>, RepositoryError>,
    > {
        None
    }

    fn get_resource_records(&mut self, question: Question) -> (r: Result<
        Vec<ResourceRecord>,
        RepositoryError,
    >)
        ensures
            old(self).answered(question@, answers_view(r), *final(self)),
            old(self).known_answer(question@) matches Some(a) ==> answers_view(r) == a
                && *final(self) == *old(self),
    ;
}

/// ASCII letters compare without regard to case.
pub open spec fn lower(b: u8) -> u8 {
    if 65 <= b <= 90 {
        (b + 32) as u8
    } else {
        b
    }
}

pub open spec fn same_label(a: Seq<u8>, b: Seq<u8>) -> bool {
    &&& a.len() == b.len()
    &&& forall|i: int| 0 <= i < a.len() ==> lower(#[trigger] a[i]) == lower(b[i])
}

/// Two names are equal label by label, without regard to ASCII case.
pub open spec fn same_name(a: Seq<Seq<u8>>, b: Seq<Seq<u8>>) -> bool {
    &&& a.len() == b.len()
    &&& forall|i: int| 0 <= i < a.len() ==> same_label(#[trigger] a[i], b[i])
}

pub open spec fn class_matches(q: QuestionClass, r: QuestionClass) -> bool {
    q == QuestionClass::ALL || q == r
}

pub open spec fn type_matches(q: QuestionType, r: Type) -> bool {
    match q {
        QuestionType::ALL => true,
        QuestionType::MAILA => r == Type::MX,
        QuestionType::MAILB => r == Type::MB_EXP || r == Type::MG_EXP || r == Type::MR_EXP,
        QuestionType::AXFR => false,
        QuestionType::RRType(t) => r == t,
    }
}

/// A record answers a question: same name, and class and type matched.
pub open spec fn answers(q: QuestionView, r: RecordView) -> bool {
    &&& same_name(q.name, r.name)
    &&& class_matches(q.class, r.class)
    &&& type_matches(q.type_, r.type_)
}

/// The records of `store` that answer `q`, in the store's order.
pub open spec fn matching(store: Seq<RecordView>, q: QuestionView) -> Seq<RecordView>
    decreases store.len(),
{
    if store.len() == 0 {
        Seq::empty()
    } else {
        let rest = matching(store.drop_last(), q);
        if answers(q, store.last()) {
            rest.push(store.last())
        } else {
            rest
        }
    }
}

/// What a lookup in a store returns.
pub open spec fn lookup_result(store: Seq<RecordView>, q: QuestionView) -> Result<
    Seq<RecordView>,
    RepositoryError,
> {
    if q.type_ == QuestionType::AXFR {
        Err(RepositoryError::NotImplemented)
    } else {
        Ok(matching(store, q))
    }
}

/// Two records are the same record: name, type, class and data; the TTL may differ.
pub open spec fn identical(a: RecordView, b: RecordView) -> bool {
    &&& a.name == b.name
    &&& a.type_ == b.type_
    &&& a.class == b.class
    &&& a.data == b.data
}

/// The index of the first record of `store`, from `from` on, that is the same
/// record as `r`; -1 when there is none.
pub open spec fn first_identical(store: Seq<RecordView>, r: RecordView, from: int) -> int
    decreases store.len() - from,
{
    if from < 0 || from >= store.len() {
        -1
    } else if identical(store[from], r) {
        from
    } else {
        first_identical(store, r, from + 1)
    }
}

/// The store after saving `r`: it takes the place of the first same record if
/// the store holds one, else it is added at the end.
pub open spec fn saved(store: Seq<RecordView>, r: RecordView) -> Seq<RecordView> {
    let i = first_identical(store, r, 0);
    if i < 0 {
        store.push(r)
    } else {
        store.update(i, r)
    }
}

/// The store after saving each record with a TTL other than zero, in order.
pub open spec fn cached(store: Seq<RecordView>, records: Seq<RecordView>) -> Seq<RecordView>
    decreases records.len(),
{
    if records.len() == 0 {
        store
    } else {
        let before = cached(store, records.drop_last());
        if records.last().ttl == 0 {
            before
        } else {
            saved(before, records.last())
        }
    }
}

/// Records held in memory, each record at most once.
pub struct InMemoryResourceRecordRepository {
    records: Vec<ResourceRecord>,
}

impl View for InMemoryResourceRecordRepository {
    type V = Seq<RecordView>;

    closed spec fn view(&self) -> Seq<RecordView> {
        records_view(self.records@)
    }
}

fn bytes_equal(a: &[u8], b: &[u8]) -> (r: bool)
    ensures
        r == (a@ == b@),
{
    if a.len() != b.len() {
        return false;
    }
    let mut i: usize = 0;
    while i < a.len()
        invariant
            a@.len() == b@.len(),
            i <= a@.len(),
            a@.take(i as int) == b@.take(i as int),
        decreases a@.len() - i,
    {
        if a[i] != b[i] {
            assert(a@.take(i + 1)[i as int] != b@.take(i + 1)[i as int]);
            assert(a@ != b@) by {
                if a@ == b@ {
                    assert(a@[i as int] == b@[i as int]);
                }
            }
            return false;
        }
        assert(a@.take(i + 1) =~= b@.take(i + 1));
        i = i + 1;
    }
    assert(a@ =~= a@.take(i as int));
    assert(b@ =~= b@.take(i as int));
    true
}

fn lower_byte(b: u8) -> (r: u8)
    ensures
        r == lower(b),
{
    if 65 <= b && b <= 90 {
        b + 32
    } else {
        b
    }
}

fn same_label_exec(a: &Vec<u8>, b: &Vec<u8>) -> (r: bool)
    ensures
        r == same_label(a@, b@),
{
    if a.len() != b.len() {
        return false;
    }
    let mut i: usize = 0;
    while i < a.len()
        invariant
            a@.len() == b@.len(),
            i <= a@.len(),
            forall|k: int| 0 <= k < i ==> lower(#[trigger] a@[k]) == lower(b@[k]),
        decreases a@.len() - i,
    {
        if lower_byte(a[i]) != lower_byte(b[i]) {
            return false;
        }
        i = i + 1;
    }
    true
}

/// Name equality without regard to ASCII case.
fn same_name_exec(a: &DomainName, b: &DomainName) -> (r: bool)
    ensures
        r == same_name(a@, b@),
{
    if a.labels.len() != b.labels.len() {
        return false;
    }
    let mut i: usize = 0;
    while i < a.labels.len()
        invariant
            a.labels@.len() == b.labels@.len(),
            i <= a.labels@.len(),
            forall|k: int| 0 <= k < i ==> same_label(#[trigger] a@[k], b@[k]),
        decreases a.labels@.len() - i,
    {
        if !same_label_exec(&a.labels[i], &b.labels[i]) {
            assert(!same_label(a@[i as int], b@[i as int]));
            return false;
        }
        i = i + 1;
    }
    true
}

fn same_labels_exact(a: &DomainName, b: &DomainName) -> (r: bool)
    ensures
        r == (a@ == b@),
{
    if a.labels.len() != b.labels.len() {
        return false;
    }
    let mut i: usize = 0;
    while i < a.labels.len()
        invariant
            a.labels@.len() == b.labels@.len(),
            i <= a.labels@.len(),
            a@.take(i as int) == b@.take(i as int),
        decreases a.labels@.len() - i,
    {
        if !bytes_equal(a.labels[i].as_slice(), b.labels[i].as_slice()) {
            assert(a@ != b@) by {
                if a@ == b@ {
                    assert(a@[i as int] == b@[i as int]);
                }
            }
            return false;
        }
        assert(a@.take(i + 1) =~= b@.take(i + 1)) by {
            assert(a@.take(i + 1)[i as int] == b@.take(i + 1)[i as int]);
            assert forall|k: int| 0 <= k < i implies #[trigger] a@.take(i + 1)[k] == b@.take(i + 1)[k] by {
                assert(a@.take(i as int)[k] == b@.take(i as int)[k]);
            }
        }
        i = i + 1;
    }
    assert(a@ =~= a@.take(i as int));
    assert(b@ =~= b@.take(i as int));
    true
}

fn identical_exec(a: &ResourceRecord, b: &ResourceRecord) -> (r: bool)
    ensures
        r == identical(a@, b@),
{
    a.type_ == b.type_ && a.class == b.class && same_labels_exact(&a.name, &b.name)
        && bytes_equal(a.resource_data.as_slice(), b.resource_data.as_slice())
}

fn answers_exec(question: &Question, record: &ResourceRecord) -> (r: bool)
    requires
        question.type_ != QuestionType::AXFR,
    ensures
        r == answers(question@, record@),
{
    let class_ok = match question.class {
        QuestionClass::ALL => true,
        _ => question.class == record.class,
    };
    let type_ok = match question.type_ {
        QuestionType::ALL => true,
        QuestionType::MAILA => record.type_ == Type::MX,
        QuestionType::MAILB => record.type_ == Type::MB_EXP || record.type_ == Type::MG_EXP
            || record.type_ == Type::MR_EXP,
        QuestionType::AXFR => false,
        QuestionType::RRType(t) => record.type_ == t,
    };
    class_ok && type_ok && same_name_exec(&question.name, &record.name)
}

impl InMemoryResourceRecordRepository {
    pub fn new() -> (r: Self)
        ensures
            r@ == Seq::<RecordView>::empty(),
    {
        let r = Self { records: Vec::new() };
        assert(records_view(r.records@) =~= Seq::<RecordView>::empty());
        r
    }

    /// Stores a record; saving the same record again replaces it.
    pub fn save(&mut self, resource_record: ResourceRecord)
        ensures
            final(self)@ == saved(old(self)@, resource_record@),
    {
        let ghost store = self@;
        let ghost r = resource_record@;
        let mut i: usize = 0;
        while i < self.records.len()
            invariant
                store == records_view(self.records@),
                store == old(self)@,
                r == resource_record@,
                i <= self.records@.len(),
                first_identical(store, r, 0) == first_identical(store, r, i as int),
            decreases self.records@.len() - i,
        {
            assert(store[i as int] == self.records@[i as int]@);
            if identical_exec(&self.records[i], &resource_record) {
                assert(first_identical(store, r, i as int) == i);
                self.records.set(i, resource_record);
                assert(records_view(self.records@) =~= store.update(i as int, r));
                return;
            }
            i = i + 1;
        }
        self.records.push(resource_record);
        assert(records_view(self.records@) =~= store.push(r));
    }

    /// The records that answer a question, in the order they were saved.
    /// AXFR is not answered from this store.
    pub fn lookup(&self, question: &Question) -> (r: Result<Vec<ResourceRecord>, RepositoryError>)
        ensures
            match lookup_result(self@, question@) {
                Ok(rs) => r matches Ok(v) && records_view(v@) == rs,
                Err(_) => r matches Err(RepositoryError::NotImplemented),
            },
    {
        if question.type_ == QuestionType::AXFR {
            return Err(RepositoryError::NotImplemented);
        }
        let ghost store = self@;
        let mut found: Vec<ResourceRecord> = Vec::new();
        let mut i: usize = 0;
        while i < self.records.len()
            invariant
                store == records_view(self.records@),
                question.type_ != QuestionType::AXFR,
                i <= self.records@.len(),
                records_view(found@) == matching(store.take(i as int), question@),
            decreases self.records@.len() - i,
        {
            let ghost before = found@;
            assert(store.take(i + 1).drop_last() =~= store.take(i as int));
            if answers_exec(question, &self.records[i]) {
                found.push(self.records[i].clone());
                assert(records_view(found@) =~= records_view(before).push(store[i as int]));
            }
            i = i + 1;
        }
        assert(store.take(i as int) =~= store);
        Ok(found)
    }

    /// Saves each record that has a TTL other than zero, in order.
    pub fn cache_answers(&mut self, records: &Vec<ResourceRecord>)
        ensures
            final(self)@ == cached(old(self)@, records_view(records@)),
    {
        let ghost start = self@;
        let ghost rs = records_view(records@);
        let mut i: usize = 0;
        while i < records.len()
            invariant
                rs == records_view(records@),
                i <= records@.len(),
                self@ == cached(start, rs.take(i as int)),
            decreases records@.len() - i,
        {
            assert(rs.take(i + 1).drop_last() =~= rs.take(i as int));
            if records[i].ttl != 0 {
                self.save(records[i].clone());
            }
            i = i + 1;
        }
        assert(rs.take(i as int) =~= rs);
    }
}

impl ResourceRecordRepository for InMemoryResourceRecordRepository {
    /// The store answers with its lookup and stays as it is.
    open spec fn answered(
        &self,
        question: QuestionView,
        answer: Result<Seq<RecordView>, RepositoryError>,
        after: Self,
    ) -> bool {
        answer == lookup_result(self@, question) && after == *self
    }

    open spec fn known_answer(&self, question: QuestionView) -> Option<
        Result<Seq<RecordView>, RepositoryError>,
    > {
        Some(lookup_result(self@, question))
    }

    fn get_resource_records(&mut self, question: Question) -> (r: Result<
        Vec<ResourceRecord>,
        RepositoryError,
    >)
        ensures
            final(self)@ == old(self)@,
            match lookup_result(old(self)@, question@) {
                Ok(rs) => r matches Ok(v) && records_view(v@) == rs,
                Err(_) => r matches Err(RepositoryError::NotImplemented),
            },
    {
        self.lookup(&question)
    }
}

} // verus!

verus! {

proof fn lemma_first_identical_after_push(store: Seq<RecordView>, r: RecordView, from: int)
    requires
        0 <= from <= store.len(),
        first_identical(store, r, from) == -1,
    ensures
        first_identical(store.push(r), r, from) == store.len(),
    decreases store.len() - from,
{
    if from < store.len() {
        assert(store.push(r)[from] == store[from]);
        lemma_first_identical_after_push(store, r, from + 1);
    } else {
        assert(store.push(r)[from] == r);
    }
}

proof fn lemma_first_identical_after_update(store: Seq<RecordView>, r: RecordView, from: int, at: int)
    requires
        0 <= from <= at < store.len(),
        first_identical(store, r, from) == at,
    ensures
        first_identical(store.update(at, r), r, from) == at,
    decreases at - from,
{
    if from < at {
        assert(store.update(at, r)[from] == store[from]);
        lemma_first_identical_after_update(store, r, from + 1, at);
    }
}

proof fn lemma_first_identical_range(store: Seq<RecordView>, r: RecordView, from: int)
    requires
        0 <= from,
    ensures
        first_identical(store, r, from) == -1 || from <= first_identical(store, r, from) < store.len(),
    decreases store.len() - from,
{
    if from < store.len() && !identical(store[from], r) {
        lemma_first_identical_range(store, r, from + 1);
    }
}

/// Saving is idempotent: saving the same record a second time leaves the
/// store as the first save left it.
pub proof fn lemma_save_idempotent(store: Seq<RecordView>, r: RecordView)
    ensures
        saved(saved(store, r), r) == saved(store, r),
{
    let i = first_identical(store, r, 0);
    lemma_first_identical_range(store, r, 0);
    if i < 0 {
        lemma_first_identical_after_push(store, r, 0);
        assert(store.push(r).update(store.len() as int, r) =~= store.push(r));
    } else {
        lemma_first_identical_after_update(store, r, 0, i);
        assert(store.update(i, r).update(i, r) =~= store.update(i, r));
    }
}

} // verus!

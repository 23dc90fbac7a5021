//! Cache-aside: the in-memory store first, the fallback on a miss.

use vstd::prelude::*;

use crate::common::question::{Question, QuestionView};
use crate::common::records_view;
use crate::common::resource_record::{RecordView, ResourceRecord};
use crate::storage::{
    answers_view, cached, lookup_result, InMemoryResourceRecordRepository, RepositoryError,
    ResourceRecordRepository,
};

verus! {

pub struct CombinedRepository<F: ResourceRecordRepository> {
    pub in_memory_repository: InMemoryResourceRecordRepository,
    pub fallback_repository: F,
}

impl<F: ResourceRecordRepository> CombinedRepository<F> {
    pub fn new(in_memory_repository: InMemoryResourceRecordRepository, fallback_repository: F) -> (r: Self)
        ensures
            r.in_memory_repository == in_memory_repository,
            r.fallback_repository == fallback_repository,
    {
        Self { in_memory_repository, fallback_repository }
    }
}

/// The first step of a cache-aside lookup: the cached records when the store
/// holds any that answer the question, `None` on a miss.
pub fn cached_answer(in_memory: &InMemoryResourceRecordRepository, question: &Question) -> (r: Result<
    Option<Vec<ResourceRecord>>,
    RepositoryError,
>)
    ensures
        match lookup_result(in_memory@, question@) {
            Err(_) => r matches Err(RepositoryError::NotImplemented),
            Ok(found) => if found.len() > 0 {
                r matches Ok(Some(v)) && records_view(v@) == found
            } else {
                r matches Ok(None)
            },
        },
{
    match in_memory.lookup(question) {
        Ok(records) => if records.len() > 0 {
            Ok(Some(records))
        } else {
            Ok(None)
        },
        Err(e) => Err(e),
    }
}

/// The step after a miss: caches the records of the fallback's answer (TTL
/// zero excepted) and hands that answer back unchanged.
pub fn accept_fallback_answer(
    in_memory: &mut InMemoryResourceRecordRepository,
    answer: Result<Vec<ResourceRecord>, RepositoryError>,
) -> (r: Result<Vec<ResourceRecord>, RepositoryError>)
    ensures
        r == answer,
        match answer {
            Ok(v) => final(in_memory)@ == cached(old(in_memory)@, records_view(v@)),
            Err(_) => final(in_memory)@ == old(in_memory)@,
        },
{
    if let Ok(records) = &answer {
        in_memory.cache_answers(records);
    }
    answer
}

impl<F: ResourceRecordRepository> ResourceRecordRepository for CombinedRepository<F> {
    /// From memory when it holds matching records, the whole repository
    /// staying as it is; else the fallback's answer to the same question, with
    /// its records cached when it is a success.
    open spec fn answered(
        &self,
        question: QuestionView,
        answer: Result<Seq<RecordView>, RepositoryError>,
        after: Self,
    ) -> bool {
        match lookup_result(self.in_memory_repository@, question) {
            Err(e) => answer == Err::<Seq<RecordView>, RepositoryError>(e) && after == *self,
            Ok(found) => if found.len() > 0 {
                answer == Ok::<Seq<RecordView>, RepositoryError>(found) && after == *self
            } else {
                &&& self.fallback_repository.answered(question, answer, after.fallback_repository)
                &&& after.in_memory_repository@ == match answer {
                    Ok(v) => cached(self.in_memory_repository@, v),
                    Err(_) => self.in_memory_repository@,
                }
            },
        }
    }

    /// Known when the store answers by itself: an error, or cached records.
    open spec fn known_answer(&self, question: QuestionView) -> Option<
        Result<Seq<RecordView>, RepositoryError>,
    > {
        match lookup_result(self.in_memory_repository@, question) {
            Err(e) => Some(Err(e)),
            Ok(found) => if found.len() > 0 {
                Some(Ok(found))
            } else {
                None
            },
        }
    }

    /// Answers from memory when it holds matching records, leaving the
    /// fallback untouched; else asks the fallback, returns its answer and
    /// caches its records (TTL zero excepted).
    fn get_resource_records(&mut self, question: Question) -> (r: Result<
        Vec<ResourceRecord>,
        RepositoryError,
    >)
        ensures
            match lookup_result(old(self).in_memory_repository@, question@) {
                Err(_) => r matches Err(RepositoryError::NotImplemented) && *final(self) == *old(
                    self,
                ),
                Ok(found) => if found.len() > 0 {
                    r matches Ok(v) && records_view(v@) == found && *final(self) == *old(self)
                } else {
                    &&& old(self).fallback_repository.answered(
                        question@,
                        answers_view(r),
                        final(self).fallback_repository,
                    )
                    &&& old(self).fallback_repository.known_answer(question@) matches Some(a)
                        ==> answers_view(r) == a
                    &&& match r {
                        Ok(v) => final(self).in_memory_repository@ == cached(
                            old(self).in_memory_repository@,
                            records_view(v@),
                        ),
                        Err(_) => final(self).in_memory_repository@
                            == old(self).in_memory_repository@,
                    }
                },
            },
    {
        match cached_answer(&self.in_memory_repository, &question) {
            Err(e) => Err(e),
            Ok(Some(records)) => Ok(records),
            Ok(None) => {
                let answer = self.fallback_repository.get_resource_records(question);
                accept_fallback_answer(&mut self.in_memory_repository, answer)
            },
        }
    }
}

} // verus!

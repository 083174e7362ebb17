//! A body that is handed on chunk by chunk while validators look at every byte;
//! at its end the validators decide, and a failed decision becomes a final error
//! item after which the body only repeats an error.
use vstd::prelude::*;

use crate::util::digests::{
    md5_consumed, md5_finish, md5_of, md5_start, md5_update, sha1_consumed, sha1_finish, sha1_of,
    sha1_start, sha1_update, Sha1Hasher,
};

verus! {

/// Something that looks at a body's bytes as they pass and decides at the end
/// whether the body was valid.
pub trait HttpBodyValidator: Sized {
    /// Whether validation would pass if `more` were fed before the end.
    spec fn passes_after(&self, more: Seq<u8>) -> bool;

    fn add_data(&mut self, data: &[u8])
        ensures
            forall|more: Seq<u8>| #[trigger]
                final(self).passes_after(more) == old(self).passes_after(data@ + more),
    ;

    fn do_validate(&self) -> (r: bool)
        ensures
            r == self.passes_after(Seq::empty()),
    ;
}

/// The chunks' bytes, one after the other.
pub open spec fn joined(chunks: Seq<Seq<u8>>) -> Seq<u8>
    decreases chunks.len(),
{
    if chunks.len() == 0 {
        Seq::empty()
    } else {
        joined(chunks.drop_last()) + chunks.last()
    }
}

proof fn lemma_chunked_prefix<V: HttpBodyValidator>(states: Seq<V>, chunks: Seq<Seq<u8>>, n: int, more: Seq<u8>)
    requires
        states.len() == chunks.len() + 1,
        0 <= n <= chunks.len(),
        forall|i: int, m: Seq<u8>|
            0 <= i < chunks.len() ==> #[trigger] states[i + 1].passes_after(m) == states[i].passes_after(
                chunks[i] + m,
            ),
    ensures
        states[n].passes_after(more) == states[0].passes_after(joined(chunks.subrange(0, n)) + more),
    decreases n,
{
    if n == 0 {
        assert(joined(chunks.subrange(0, 0)) + more =~= more);
    } else {
        lemma_chunked_prefix(states, chunks, n - 1, chunks[n - 1] + more);
        let k = n - 1;
        assert(states[k + 1].passes_after(more) == states[k].passes_after(chunks[k] + more));
        assert(chunks.subrange(0, n).drop_last() =~= chunks.subrange(0, n - 1));
        assert(chunks.subrange(0, n).last() == chunks[n - 1]);
        assert(joined(chunks.subrange(0, n - 1)) + (chunks[n - 1] + more) =~= joined(
            chunks.subrange(0, n),
        ) + more);
    }
}

/// Feeding a body to a validator chunk by chunk and then validating decides on
/// the whole body: `states[i + 1]` is the validator after `add_data(chunks[i])`
/// on `states[i]`.
pub proof fn lemma_chunked_validation<V: HttpBodyValidator>(states: Seq<V>, chunks: Seq<Seq<u8>>)
    requires
        states.len() == chunks.len() + 1,
        forall|i: int, m: Seq<u8>|
            0 <= i < chunks.len() ==> #[trigger] states[i + 1].passes_after(m) == states[i].passes_after(
                chunks[i] + m,
            ),
    ensures
        states[chunks.len() as int].passes_after(Seq::empty()) == states[0].passes_after(joined(chunks)),
{
    lemma_chunked_prefix(states, chunks, chunks.len() as int, Seq::empty());
    assert(chunks.subrange(0, chunks.len() as int) =~= chunks);
    assert(joined(chunks) + Seq::<u8>::empty() =~= joined(chunks));
}

/// Accepts every body.
pub struct NopHttpBodyValidator {}

impl HttpBodyValidator for NopHttpBodyValidator {
    open spec fn passes_after(&self, more: Seq<u8>) -> bool {
        true
    }

    fn add_data(&mut self, data: &[u8]) {
        // nothing to remember
    }

    fn do_validate(&self) -> (r: bool) {
        true
    }
}

/// Accepts a body whose SHA-1 digest is the expected one.
pub struct Sha1HttpBodyValidator {
    hasher: Sha1Hasher,
    expected_hash: [u8; 20],
}

impl Sha1HttpBodyValidator {
    pub fn new(expected_hash: [u8; 20]) -> (r: Sha1HttpBodyValidator)
        ensures
            forall|body: Seq<u8>| #[trigger] r.passes_after(body) == (sha1_of(body) == expected_hash@),
    {
        let r = Sha1HttpBodyValidator { hasher: sha1_start(), expected_hash };
        assert forall|body: Seq<u8>| #[trigger] r.passes_after(body) == (sha1_of(body) == expected_hash@) by {
            assert(Seq::<u8>::empty() + body =~= body);
        }
        r
    }

    /// The bytes fed so far.
    pub closed spec fn consumed(&self) -> Seq<u8> {
        sha1_consumed(self.hasher)
    }

    pub closed spec fn expected(&self) -> Seq<u8> {
        self.expected_hash@
    }
}

impl HttpBodyValidator for Sha1HttpBodyValidator {
    open spec fn passes_after(&self, more: Seq<u8>) -> bool {
        sha1_of(self.consumed() + more) == self.expected()
    }

    fn add_data(&mut self, data: &[u8]) {
        sha1_update(&mut self.hasher, data);
        assert forall|more: Seq<u8>| #[trigger]
            final(self).passes_after(more) == old(self).passes_after(data@ + more) by {
            assert(old(self).consumed() + data@ + more =~= old(self).consumed() + (data@ + more));
        }
    }

    fn do_validate(&self) -> (r: bool) {
        let hash = sha1_finish(&self.hasher);
        assert(self.consumed() + Seq::<u8>::empty() =~= self.consumed());
        bytes_equal(&hash, &self.expected_hash)
    }
}

/// Accepts a body whose MD5 digest is the expected one.
pub struct Md5HttpBodyValidator {
    context: md5::Context,
    expected_hash: [u8; 16],
}

impl Md5HttpBodyValidator {
    pub fn new(expected_hash: [u8; 16]) -> (r: Md5HttpBodyValidator)
        ensures
            forall|body: Seq<u8>| #[trigger] r.passes_after(body) == (md5_of(body) == expected_hash@),
    {
        let r = Md5HttpBodyValidator { context: md5_start(), expected_hash };
        assert forall|body: Seq<u8>| #[trigger] r.passes_after(body) == (md5_of(body) == expected_hash@) by {
            assert(Seq::<u8>::empty() + body =~= body);
        }
        r
    }

    /// The bytes fed so far.
    pub closed spec fn consumed(&self) -> Seq<u8> {
        md5_consumed(self.context)
    }

    pub closed spec fn expected(&self) -> Seq<u8> {
        self.expected_hash@
    }
}

impl HttpBodyValidator for Md5HttpBodyValidator {
    open spec fn passes_after(&self, more: Seq<u8>) -> bool {
        md5_of(self.consumed() + more) == self.expected()
    }

    fn add_data(&mut self, data: &[u8]) {
        md5_update(&mut self.context, data);
        assert forall|more: Seq<u8>| #[trigger]
            final(self).passes_after(more) == old(self).passes_after(data@ + more) by {
            assert(old(self).consumed() + data@ + more =~= old(self).consumed() + (data@ + more));
        }
    }

    fn do_validate(&self) -> (r: bool) {
        let hash = md5_finish(&self.context);
        assert(self.consumed() + Seq::<u8>::empty() =~= self.consumed());
        bytes_equal(&hash, &self.expected_hash)
    }
}

/// Whether two byte slices are equal.
pub fn bytes_equal(a: &[u8], b: &[u8]) -> (r: bool)
    ensures
        r == (a@ == b@),
{
    if a.len() != b.len() {
        return false;
    }
    let mut i: usize = 0;
    while i < a.len()
        invariant
            a@.len() == b@.len(),
            i <= a@.len(),
            forall|j: int| 0 <= j < i ==> a@[j] == b@[j],
        decreases a@.len() - i,
    {
        if a[i] != b[i] {
            return false;
        }
        i = i + 1;
    }
    assert(a@ =~= b@);
    true
}

/// One of the digest validators.
pub enum DigestValidator {
    Sha1(Sha1HttpBodyValidator),
    Md5(Md5HttpBodyValidator),
}

impl HttpBodyValidator for DigestValidator {
    open spec fn passes_after(&self, more: Seq<u8>) -> bool {
        match self {
            DigestValidator::Sha1(v) => v.passes_after(more),
            DigestValidator::Md5(v) => v.passes_after(more),
        }
    }

    fn add_data(&mut self, data: &[u8]) {
        match self {
            DigestValidator::Sha1(v) => v.add_data(data),
            DigestValidator::Md5(v) => v.add_data(data),
        }
    }

    fn do_validate(&self) -> (r: bool) {
        match self {
            DigestValidator::Sha1(v) => v.do_validate(),
            DigestValidator::Md5(v) => v.do_validate(),
        }
    }
}

/// Several validators at once: a body passes iff it passes every one of them.
pub struct ValidatorSet {
    pub validators: Vec<DigestValidator>,
}

impl HttpBodyValidator for ValidatorSet {
    open spec fn passes_after(&self, more: Seq<u8>) -> bool {
        forall|i: int| 0 <= i < self.validators@.len() ==> #[trigger] self.validators@[i].passes_after(more)
    }

    fn add_data(&mut self, data: &[u8]) {
        let n = self.validators.len();
        let mut i: usize = 0;
        while i < n
            invariant
                n == old(self).validators@.len(),
                self.validators@.len() == n,
                i <= n,
                forall|j: int, more: Seq<u8>| 0 <= j < i ==> #[trigger] self.validators@[j].passes_after(more)
                    == old(self).validators@[j].passes_after(data@ + more),
                forall|j: int| i <= j < n ==> self.validators@[j] == old(self).validators@[j],
            decreases n - i,
        {
            let mut v = self.validators.remove(i);
            v.add_data(data);
            self.validators.insert(i, v);
            i = i + 1;
        }
        assert forall|more: Seq<u8>| #[trigger]
            final(self).passes_after(more) == old(self).passes_after(data@ + more) by {
            if old(self).passes_after(data@ + more) {
                assert forall|j: int| 0 <= j < n implies #[trigger] self.validators@[j].passes_after(more) by {
                    assert(old(self).validators@[j].passes_after(data@ + more));
                }
            }
            if final(self).passes_after(more) {
                assert forall|j: int| 0 <= j < n implies #[trigger] old(self).validators@[j].passes_after(data@ + more) by {
                    assert(self.validators@[j].passes_after(more));
                }
            }
        }
    }

    fn do_validate(&self) -> (r: bool) {
        let mut i: usize = 0;
        while i < self.validators.len()
            invariant
                i <= self.validators@.len(),
                forall|j: int| 0 <= j < i ==> #[trigger] self.validators@[j].passes_after(Seq::empty()),
            decreases self.validators@.len() - i,
        {
            if !self.validators[i].do_validate() {
                return false;
            }
            i = i + 1;
        }
        true
    }
}

/// Why a validating body produced an error item.
#[derive(Debug, Clone, PartialEq, Eq)]
pub enum BodyError {
    /// the body ended and a validator rejected it
    FailedValidation,
    /// the body was polled after it had failed
    PollingFromFailedStream,
    /// the upstream body failed, with its message
    Upstream(String),
}

/// A body that passes each upstream chunk on after showing it to its validator;
/// once it has failed it no longer reads upstream and yields only errors.
pub struct ValidatingHttpBody<V: HttpBodyValidator> {
    validator: V,
    is_failed: bool,
}

impl<V: HttpBodyValidator> ValidatingHttpBody<V> {
    pub fn new(validator: V) -> (r: ValidatingHttpBody<V>)
        ensures
            !r.failed(),
            r.validator() == validator,
    {
        ValidatingHttpBody { validator, is_failed: false }
    }

    pub closed spec fn failed(&self) -> bool {
        self.is_failed
    }

    pub closed spec fn validator(&self) -> V {
        self.validator
    }

    /// Whether the next item needs an item from upstream.
    pub fn needs_upstream(&self) -> (r: bool)
        ensures
            r == !self.failed(),
    {
        !self.is_failed
    }

    /// The next item of the body, given the next item of the upstream body
    /// (`None` at its end); `polled` is not looked at once the body has failed.
    pub fn poll_next(&mut self, polled: Option<Result<Vec<u8>, String>>) -> (r: Option<
        Result<Vec<u8>, BodyError>,
    >)
        ensures
            old(self).failed() ==> r == Some(Err::<Vec<u8>, _>(BodyError::PollingFromFailedStream))
                && *final(self) == *old(self),
            !old(self).failed() ==> match polled {
                Some(Ok(data)) => {
                    &&& r == Some(Ok::<_, BodyError>(data))
                    &&& !final(self).failed()
                    &&& forall|more: Seq<u8>| #[trigger]
                        final(self).validator().passes_after(more) == old(
                            self,
                        ).validator().passes_after(data@ + more)
                },
                None => if old(self).validator().passes_after(Seq::empty()) {
                    r is None && !final(self).failed()
                } else {
                    r == Some(Err::<Vec<u8>, _>(BodyError::FailedValidation)) && final(self).failed()
                },
                Some(Err(e)) => r == Some(Err::<Vec<u8>, _>(BodyError::Upstream(e)))
                    && final(self).failed(),
            },
    {
        if self.is_failed {
            return Some(Err(BodyError::PollingFromFailedStream));
        }
        match polled {
            Some(Ok(data)) => {
                self.validator.add_data(data.as_slice());
                Some(Ok(data))
            },
            None => {
                if self.validator.do_validate() {
                    None
                } else {
                    self.is_failed = true;
                    Some(Err(BodyError::FailedValidation))
                }
            },
            Some(Err(e)) => {
                self.is_failed = true;
                Some(Err(BodyError::Upstream(e)))
            },
        }
    }
}

} // verus!

//! Language-model surface: the mock model used for tests and wiring.
//! Real network-backed models are outside collaborators.

use vstd::prelude::*;

use crate::error::Error;
use crate::text::str_eq;

verus! {

/// Whether some pair of `s` has a key reading `k`.
pub open spec fn resp_has(s: Seq<(String, String)>, k: Seq<char>) -> bool {
    exists|i: int| 0 <= i < s.len() && (#[trigger] s[i]).0@ == k
}

/// The response stored under key `k` (meaningful when `resp_has`).
pub open spec fn resp_lookup(s: Seq<(String, String)>, k: Seq<char>) -> Seq<char> {
    s[choose|i: int| 0 <= i < s.len() && (#[trigger] s[i]).0@ == k].1@
}

/// A canned language model: maps exact inputs to canned responses,
/// with a default for everything else.
#[derive(Debug)]
pub struct MockLLM {
    /// The canned input/response pairs; keys pairwise distinct.
    pub responses: Vec<(String, String)>,
    /// The response for inputs with no canned pair.
    pub default_response: String,
}

impl MockLLM {
    /// The keys are pairwise distinct.
    pub open spec fn wf(&self) -> bool {
        forall|i: int, j: int|
            0 <= i < j < self.responses@.len() ==> (#[trigger] self.responses@[i]).0@ != (
            #[trigger] self.responses@[j]).0@
    }

    /// Creates a mock model with no canned responses.
    pub fn new() -> (r: Self)
        ensures
            r.wf(),
            r.responses@.len() == 0,
            r.default_response@ == "This is a mock response."@,
    {
        MockLLM { responses: Vec::new(), default_response: "This is a mock response.".to_owned() }
    }

    /// Adds a canned response, replacing any previous one for the same
    /// input.
    pub fn with_response(self, input: String, response: String) -> (r: Self)
        requires
            self.wf(),
        ensures
            r.wf(),
            r.default_response == self.default_response,
            resp_has(r.responses@, input@),
            resp_lookup(r.responses@, input@) == response@,
            forall|k: Seq<char>|
                k != input@ ==> resp_has(r.responses@, k) == resp_has(self.responses@, k),
            forall|k: Seq<char>|
                k != input@ && resp_has(self.responses@, k) ==> resp_lookup(r.responses@, k)
                    == resp_lookup(self.responses@, k),
    {
        let mut m = self;
        let ghost old_s = m.responses@;
        let mut i: usize = 0;
        let mut found: Option<usize> = None;
        while i < m.responses.len()
            invariant
                i <= m.responses@.len(),
                m.responses@ == old_s,
                match found {
                    Some(fi) => fi < i && old_s[fi as int].0@ == input@,
                    None => forall|j: int| 0 <= j < i ==> old_s[j].0@ != input@,
                },
            decreases m.responses@.len() - i,
    {
            match found {
                Some(_) => (),
                None => {
                    if str_eq(m.responses[i].0.as_str(), input.as_str()) {
                        found = Some(i);
                    }
                },
            }
            i += 1;
        }
        match found {
            Some(fi) => {
                m.responses[fi] = (input, response);
                proof {
                    let s = m.responses@;
                    assert forall|a: int, b: int|
                        0 <= a < b < s.len() implies s[a].0@ != s[b].0@ by {
                        assert(old_s[a].0@ != old_s[b].0@);
                    }
                    lemma_resp_lookup_at(s, fi as int);
                    assert forall|k: Seq<char>| k != input@ implies resp_has(s, k) == resp_has(
                        old_s,
                        k,
                    ) by {
                        if resp_has(s, k) {
                            let a = choose|a: int| 0 <= a < s.len() && (#[trigger] s[a]).0@ == k;
                            assert(old_s[a].0@ == k);
                        }
                        if resp_has(old_s, k) {
                            let a = choose|a: int|
                                0 <= a < old_s.len() && (#[trigger] old_s[a]).0@ == k;
                            assert(s[a].0@ == k);
                        }
                    }
                    assert forall|k: Seq<char>| k != input@ && resp_has(old_s, k) implies
                        resp_lookup(s, k) == resp_lookup(old_s, k) by {
                        let a = choose|a: int|
                            0 <= a < old_s.len() && (#[trigger] old_s[a]).0@ == k;
                        assert(s[a].0@ == k && s[a].1 == old_s[a].1);
                        lemma_resp_lookup_at(s, a);
                        lemma_resp_lookup_at(old_s, a);
                    }
                }
            },
            None => {
                m.responses.push((input, response));
                proof {
                    let s = m.responses@;
                    let n = old_s.len() as int;
                    assert(s[n].0@ == input@);
                    lemma_resp_lookup_at(s, n);
                    assert forall|k: Seq<char>| k != input@ implies resp_has(s, k) == resp_has(
                        old_s,
                        k,
                    ) by {
                        if resp_has(s, k) {
                            let a = choose|a: int| 0 <= a < s.len() && (#[trigger] s[a]).0@ == k;
                            assert(a < n && old_s[a].0@ == k);
                        }
                        if resp_has(old_s, k) {
                            let a = choose|a: int|
                                0 <= a < old_s.len() && (#[trigger] old_s[a]).0@ == k;
                            assert(s[a].0@ == k);
                        }
                    }
                    assert forall|k: Seq<char>| k != input@ && resp_has(old_s, k) implies
                        resp_lookup(s, k) == resp_lookup(old_s, k) by {
                        let a = choose|a: int|
                            0 <= a < old_s.len() && (#[trigger] old_s[a]).0@ == k;
                        assert(s[a].0@ == k && s[a].1 == old_s[a].1);
                        lemma_resp_lookup_at(s, a);
                        lemma_resp_lookup_at(old_s, a);
                    }
                }
            },
        }
        m
    }

    /// Replaces the default response.
    pub fn with_default_response(self, response: String) -> (r: Self)
        ensures
            r.responses == self.responses,
            r.default_response == response,
    {
        MockLLM { default_response: response, ..self }
    }

    /// Produces the canned response for `input`, or the default.
    pub fn invoke(&self, input: String) -> (r: Result<String, Error>)
        requires
            self.wf(),
        ensures
            r matches Ok(out) ==> out@ == if resp_has(self.responses@, input@) {
                resp_lookup(self.responses@, input@)
            } else {
                self.default_response@
            },
            r is Ok,
    {
        let mut i: usize = 0;
        while i < self.responses.len()
            invariant
                self.wf(),
                i <= self.responses@.len(),
                forall|j: int| 0 <= j < i ==> (#[trigger] self.responses@[j]).0@ != input@,
            decreases self.responses@.len() - i,
        {
            if str_eq(self.responses[i].0.as_str(), input.as_str()) {
                proof {
                    lemma_resp_lookup_at(self.responses@, i as int);
                }
                return Ok(self.responses[i].1.clone());
            }
            i += 1;
        }
        Ok(self.default_response.clone())
    }

    /// The model's name.
    pub fn model_name(&self) -> (r: &'static str)
        ensures
            r@ == "mock-llm"@,
    {
        "mock-llm"
    }

    /// The model's parameters; the mock has none.
    pub fn parameters(&self) -> (r: crate::state::Entries)
        ensures
            r@.len() == 0,
    {
        Vec::new()
    }
}

/// Under distinct keys, the pair at any index `i` with key `k` holds
/// exactly `resp_lookup(s, k)`.
pub proof fn lemma_resp_lookup_at(s: Seq<(String, String)>, i: int)
    requires
        forall|a: int, b: int| 0 <= a < b < s.len() ==> (#[trigger] s[a]).0@ != (#[trigger] s[b]).0@,
        0 <= i < s.len(),
    ensures
        resp_lookup(s, s[i].0@) == s[i].1@,
{
    let k = s[i].0@;
    let j = choose|j: int| 0 <= j < s.len() && (#[trigger] s[j]).0@ == k;
    assert(0 <= j < s.len() && s[j].0@ == k);
    if i < j {
        assert(s[i].0@ != s[j].0@);
    } else if j < i {
        assert(s[j].0@ != s[i].0@);
    }
}

} // verus!

verus! {

impl Default for MockLLM {
    /// A mock model with no canned responses and the stock default
    /// reply.
    fn default() -> (r: Self)
        ensures
            r.wf(),
            r.responses@.len() == 0,
            r.default_response@ == "This is a mock response."@,
    {
        MockLLM::new()
    }
}

} // verus!

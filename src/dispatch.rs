//! What a worker decides: which HTTP methods a run accepts, how long it pauses
//! between requests, and the next request it sends, drawn from the shared queue.
use vstd::prelude::*;
use crate::plan::{request_for, Request, SubstitutionPlan};
use crate::queue::WorkQueue;
use crate::template::chars_of;

verus! {

/// The HTTP methods a run may use.
#[derive(Debug, Clone, Copy, PartialEq, Eq, Structural)]
pub enum HttpMethod {
    Get,
    Post,
    Put,
    Patch,
    Delete,
    Head,
    Options,
    Connect,
    Trace,
}

/// The name of a method, as written on the request line.
pub open spec fn method_name(m: HttpMethod) -> Seq<char> {
    match m {
        HttpMethod::Get => seq!['G', 'E', 'T'],
        HttpMethod::Post => seq!['P', 'O', 'S', 'T'],
        HttpMethod::Put => seq!['P', 'U', 'T'],
        HttpMethod::Patch => seq!['P', 'A', 'T', 'C', 'H'],
        HttpMethod::Delete => seq!['D', 'E', 'L', 'E', 'T', 'E'],
        HttpMethod::Head => seq!['H', 'E', 'A', 'D'],
        HttpMethod::Options => seq!['O', 'P', 'T', 'I', 'O', 'N', 'S'],
        HttpMethod::Connect => seq!['C', 'O', 'N', 'N', 'E', 'C', 'T'],
        HttpMethod::Trace => seq!['T', 'R', 'A', 'C', 'E'],
    }
}

/// Raised when a method name is not one of the accepted HTTP methods.
#[derive(Debug, Clone, Copy, PartialEq, Eq, Structural)]
pub struct InvalidMethod;

impl HttpMethod {
    /// The method's name, as written on the request line.
    pub fn as_str(&self) -> (r: &'static str)
        ensures
            r@ == method_name(*self),
    {
        match self {
            HttpMethod::Get => {
                proof {
                    reveal_strlit("GET");
                }
                let r = "GET";
                assert(r@ =~= method_name(*self));
                r
            },
            HttpMethod::Post => {
                proof {
                    reveal_strlit("POST");
                }
                let r = "POST";
                assert(r@ =~= method_name(*self));
                r
            },
            HttpMethod::Put => {
                proof {
                    reveal_strlit("PUT");
                }
                let r = "PUT";
                assert(r@ =~= method_name(*self));
                r
            },
            HttpMethod::Patch => {
                proof {
                    reveal_strlit("PATCH");
                }
                let r = "PATCH";
                assert(r@ =~= method_name(*self));
                r
            },
            HttpMethod::Delete => {
                proof {
                    reveal_strlit("DELETE");
                }
                let r = "DELETE";
                assert(r@ =~= method_name(*self));
                r
            },
            HttpMethod::Head => {
                proof {
                    reveal_strlit("HEAD");
                }
                let r = "HEAD";
                assert(r@ =~= method_name(*self));
                r
            },
            HttpMethod::Options => {
                proof {
                    reveal_strlit("OPTIONS");
                }
                let r = "OPTIONS";
                assert(r@ =~= method_name(*self));
                r
            },
            HttpMethod::Connect => {
                proof {
                    reveal_strlit("CONNECT");
                }
                let r = "CONNECT";
                assert(r@ =~= method_name(*self));
                r
            },
            HttpMethod::Trace => {
                proof {
                    reveal_strlit("TRACE");
                }
                let r = "TRACE";
                assert(r@ =~= method_name(*self));
                r
            },
        }
    }

    /// The method named exactly `name` (case matters), or `InvalidMethod`.
    pub fn parse(name: &str) -> (r: Result<HttpMethod, InvalidMethod>)
        ensures
            match r {
                Ok(m) => method_name(m) == name@,
                Err(_) => forall|m: HttpMethod| method_name(m) != name@,
            },
    {
        let all: Vec<HttpMethod> = vec![
            HttpMethod::Get,
            HttpMethod::Post,
            HttpMethod::Put,
            HttpMethod::Patch,
            HttpMethod::Delete,
            HttpMethod::Head,
            HttpMethod::Options,
            HttpMethod::Connect,
            HttpMethod::Trace,
        ];
        let text = chars_of(name);
        let mut i: usize = 0;
        while i < all.len()
            invariant
                text@ == name@,
                i <= all.len(),
                all@ == seq![
                    HttpMethod::Get,
                    HttpMethod::Post,
                    HttpMethod::Put,
                    HttpMethod::Patch,
                    HttpMethod::Delete,
                    HttpMethod::Head,
                    HttpMethod::Options,
                    HttpMethod::Connect,
                    HttpMethod::Trace,
                ],
                forall|j: int| 0 <= j < i ==> method_name(#[trigger] all@[j]) != name@,
            decreases all.len() - i,
        {
            let candidate = chars_of(all[i].as_str());
            if same_chars(&candidate, &text) {
                return Ok(all[i]);
            }
            i = i + 1;
        }
        assert forall|m: HttpMethod| method_name(m) != name@ by {
            let j: int = match m {
                HttpMethod::Get => 0,
                HttpMethod::Post => 1,
                HttpMethod::Put => 2,
                HttpMethod::Patch => 3,
                HttpMethod::Delete => 4,
                HttpMethod::Head => 5,
                HttpMethod::Options => 6,
                HttpMethod::Connect => 7,
                HttpMethod::Trace => 8,
            };
            assert(all@[j] == m);
        }
        Err(InvalidMethod)
    }
}

/// Whether `a` and `b` hold the same characters.
fn same_chars(a: &Vec<char>, b: &Vec<char>) -> (r: bool)
    ensures
        r == (a@ == b@),
{
    if a.len() != b.len() {
        return false;
    }
    let mut i: usize = 0;
    while i < a.len()
        invariant
            a.len() == b.len(),
            i <= a.len(),
            forall|j: int| 0 <= j < i ==> a@[j] == b@[j],
        decreases a.len() - i,
    {
        if a[i] != b[i] {
            return false;
        }
        i = i + 1;
    }
    assert(a@ =~= b@);
    true
}

/// How workers send: whether redirects are followed, whether responses are
/// shown in full, and the pause each worker makes after a request, if any.
#[derive(Debug, Clone, Copy, PartialEq, Eq, Structural)]
pub struct DispatchPolicy {
    pub follow_redirects: bool,
    pub verbose: bool,
    pub delay_millis: Option<u64>,
}

/// The pause, in milliseconds, that each of `concurrency` workers makes after a
/// request when `delay` is configured: the delay times the number of workers.
pub open spec fn pause_millis(delay: u64, concurrency: u16) -> int {
    delay * concurrency
}

impl DispatchPolicy {
    /// The pause each worker makes after a request, in milliseconds: the
    /// configured delay times the number of workers, held at `u64::MAX`;
    /// `None` without a configured delay.
    pub fn pause_after_request(&self, concurrency: u16) -> (r: Option<u64>)
        ensures
            match self.delay_millis {
                None => r is None,
                Some(d) => r == Some(
                    if pause_millis(d, concurrency) > u64::MAX {
                        u64::MAX
                    } else {
                        pause_millis(d, concurrency) as u64
                    },
                ),
            },
    {
        match self.delay_millis {
            None => None,
            Some(d) => {
                assert(d as u128 * concurrency as u128 <= u64::MAX as u128 * u16::MAX as u128)
                    by (nonlinear_arith);
                let pause: u128 = d as u128 * concurrency as u128;
                if pause > u64::MAX as u128 {
                    Some(u64::MAX)
                } else {
                    Some(pause as u64)
                }
            },
        }
    }
}

/// One step of a worker: takes a word from the shared queue and yields the
/// request the plan makes of it, or `None` once the queue is drained, after
/// which the worker stops.
pub fn next_request(plan: &SubstitutionPlan, queue: &mut WorkQueue) -> (r: Option<Request>)
    requires
        old(queue).wf(),
    ensures
        final(queue).wf(),
        final(queue).loaded() == old(queue).loaded(),
        old(queue).pending().len() == 0 ==> {
            &&& r is None
            &&& final(queue).pending() == old(queue).pending()
            &&& final(queue).delivered() == old(queue).delivered()
        },
        old(queue).pending().len() > 0 ==> {
            &&& r matches Some(req) && req@ == request_for(plan@, old(queue).pending().last()@)
            &&& final(queue).pending() == old(queue).pending().drop_last()
            &&& final(queue).delivered() == old(queue).delivered().push(old(queue).pending().last())
        },
{
    match queue.try_take() {
        None => None,
        Some(word) => Some(plan.materialize(word.as_str())),
    }
}

} // verus!

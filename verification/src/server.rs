//! The connection-dispatch core: given the bytes peeked off an accepted
//! connection, filter out keep-alive probes, parse the request line,
//! resolve a handler through the route table, and pick the worker that
//! the deferred operation goes to, advancing the round-robin rotation.
//! The listening socket, the threads, and the handler execution live
//! outside this crate and drive this core.

use vstd::prelude::*;
use vstd::arithmetic::div_mod::{
    lemma_mod_add_multiples_vanish, lemma_mod_multiples_basic, lemma_small_mod,
};
use crate::request::{
    MAX_PEEK_SIZE, Request, RequestError, parsed_from, spec_line_tokens, spec_parse_err,
};
use crate::routes::{Route, RouteBuilder, Routes, spec_find};

verus! {

/// What became of one accepted connection.
pub enum Dispatch<H> {
    /// Zero readable bytes: a stale or keep-alive probe, discarded
    /// without parsing or routing.
    KeepAlive,
    /// The request line could not be parsed; the connection is dropped.
    Rejected(RequestError),
    /// No route matched the parsed request; the connection is dropped
    /// without a response.
    NoRoute(Request),
    /// A handler was resolved for the parsed request and the operation
    /// goes to this worker.
    Assigned(usize, H, Request),
}

/// The dispatch core: the route table and the round-robin rotation over
/// a fixed set of workers.
pub struct ServerCore<H> {
    routes: Routes<H>,
    worker_count: usize,
    next_worker: usize,
}

impl<H: Copy> ServerCore<H> {
    /// The registered routes, oldest first.
    pub closed spec fn routes(&self) -> Seq<Route<H>> {
        self.routes.entries()
    }

    /// The route table value itself.
    pub closed spec fn routes_table(&self) -> Routes<H> {
        self.routes
    }

    /// How many workers assignments rotate over.
    pub closed spec fn spec_worker_count(&self) -> usize {
        self.worker_count
    }

    /// The worker the next assignment goes to.
    pub closed spec fn spec_next_worker(&self) -> usize {
        self.next_worker
    }

    /// The rotation index always points at a worker.
    pub open spec fn wf(&self) -> bool {
        self.spec_worker_count() >= 1 && self.spec_next_worker() < self.spec_worker_count()
    }

    /// A core with an empty route table and the rotation at worker 0.
    pub fn new(worker_count: usize) -> (r: ServerCore<H>)
        requires
            worker_count >= 1,
        ensures
            r.wf(),
            r.routes() =~= Seq::<Route<H>>::empty(),
            r.spec_worker_count() == worker_count,
            r.spec_next_worker() == 0,
    {
        ServerCore { routes: Routes::new(), worker_count, next_worker: 0 }
    }

    /// Run a one-time configuration closure over a builder seeded with
    /// the current route table, and install the table it returns.
    pub fn configure<F: FnOnce(RouteBuilder<H>) -> RouteBuilder<H>>(&mut self, f: F)
        requires
            call_requires(f, (RouteBuilder { build: old(self).routes_table() },)),
        ensures
            exists|b: RouteBuilder<H>|
                call_ensures(f, (RouteBuilder { build: old(self).routes_table() },), b)
                    && final(self).routes_table() == b.build,
            final(self).spec_worker_count() == old(self).spec_worker_count(),
            final(self).spec_next_worker() == old(self).spec_next_worker(),
    {
        self.routes.configure(f);
    }

    /// Take the rotation's current worker and advance it by one,
    /// wrapping around at the pool size.
    fn get_worker_id(&mut self) -> (r: usize)
        requires
            old(self).wf(),
        ensures
            final(self).wf(),
            r == old(self).spec_next_worker(),
            final(self).spec_next_worker() == (old(self).spec_next_worker() + 1) as int
                % old(self).spec_worker_count() as int,
            final(self).spec_worker_count() == old(self).spec_worker_count(),
            final(self).routes_table() == old(self).routes_table(),
    {
        let id = self.next_worker;
        self.next_worker = (id + 1) % self.worker_count;
        id
    }

    /// Decide what happens to one accepted connection, given the bytes
    /// peeked off it: discard zero-byte probes, reject unparsable
    /// request lines, drop unrouted requests, and otherwise assign the
    /// resolved handler to the next worker in round-robin order.
    pub fn distribute(&mut self, data: &[u8]) -> (r: Dispatch<H>)
        requires
            old(self).wf(),
            data@.len() <= MAX_PEEK_SIZE,
        ensures
            final(self).wf(),
            final(self).spec_worker_count() == old(self).spec_worker_count(),
            final(self).routes_table() == old(self).routes_table(),
            data@.len() == 0 ==> r == Dispatch::<H>::KeepAlive && *final(self) == *old(self),
            data@.len() > 0 ==> (spec_parse_err(data@) matches Some(e) ==> r
                == Dispatch::<H>::Rejected(e) && *final(self) == *old(self)),
            data@.len() > 0 && spec_parse_err(data@) is None && spec_find(
                old(self).routes(),
                spec_line_tokens(data@)[0],
                spec_line_tokens(data@)[1],
            ) is None ==> (r matches Dispatch::<H>::NoRoute(q) && parsed_from(q, data@)
                && *final(self) == *old(self)),
            data@.len() > 0 && spec_parse_err(data@) is None ==> (spec_find(
                old(self).routes(),
                spec_line_tokens(data@)[0],
                spec_line_tokens(data@)[1],
            ) matches Some(h) ==> (r matches Dispatch::<H>::Assigned(w, h2, q) && w == old(
                self,
            ).spec_next_worker() && h2 == h && parsed_from(q, data@)
                && final(self).spec_next_worker() == (old(self).spec_next_worker() + 1) as int
                % old(self).spec_worker_count() as int)),
    {
        if data.len() == 0 {
            return Dispatch::KeepAlive;
        }
        let request = match Request::from(data) {
            Ok(q) => q,
            Err(e) => {
                return Dispatch::Rejected(e);
            },
        };
        let handler = match self.routes.find(request.method().as_str(), request.uri().as_str()) {
            Some(h) => h,
            None => {
                return Dispatch::NoRoute(request);
            },
        };
        let worker = self.get_worker_id();
        Dispatch::Assigned(worker, handler, request)
    }
}

/// Remainders of numbers less than twice the divisor, spelled out.
proof fn lemma_mod_in_range(x: int, n: int)
    requires
        0 < n,
        0 <= x < 2 * n,
    ensures
        x % n == if x < n {
            x
        } else {
            x - n
        },
{
    if x < n {
        lemma_small_mod(x as nat, n as nat);
    } else {
        lemma_mod_add_multiples_vanish(x - n, n);
        lemma_small_mod((x - n) as nat, n as nat);
    }
}

/// Round-robin never repeats within one lap: starting from rotation
/// position `start`, the j-th of the next assignments goes to worker
/// `(start + j) % n`, and any two of the first `n` assignments go to
/// different workers — so across at most `n` consecutive accepted
/// connections each worker receives at most one assignment, in
/// acceptance order.
pub proof fn lemma_round_robin_distinct(start: int, n: int, j1: int, j2: int)
    requires
        0 <= start < n,
        0 <= j1 < j2 < n,
    ensures
        (start + j1) % n != (start + j2) % n,
{
    lemma_mod_in_range(start + j1, n);
    lemma_mod_in_range(start + j2, n);
}

/// Advancing the rotation one step from the j-th assignment reaches the
/// position of the (j+1)-th: repeated single steps trace out
/// `(start + j) % n` for ever-growing j.
pub proof fn lemma_rotation_advance(start: int, j: int, n: int)
    requires
        0 <= start < n,
        0 <= j,
    ensures
        ((start + j) % n + 1) % n == (start + (j + 1)) % n,
{
    let a = start + j;
    vstd::arithmetic::div_mod::lemma_mod_division_less_than_divisor(a, n);
    vstd::arithmetic::div_mod::lemma_fundamental_div_mod(a, n);
    vstd::arithmetic::div_mod::lemma_div_pos_is_pos(a, n);
    let r = a % n;
    assert(a == n * (a / n) + r);
    assert(n * (a / n) == (a / n) * n) by (nonlinear_arith);
    assert((a + 1) - (r + 1) == (a / n) * n);
    lemma_mod_multiples_basic(a / n, n);
    lemma_mod_multiples_of_difference(a + 1, r + 1, n);
}

/// Two numbers that differ by a multiple of the divisor have the same
/// remainder.
proof fn lemma_mod_multiples_of_difference(x: int, y: int, n: int)
    requires
        0 < n,
        0 <= y <= x,
        (x - y) % n == 0,
    ensures
        x % n == y % n,
    decreases x,
{
    if x - y > 0 {
        lemma_mod_add_multiples_vanish(x - n, n);
        assert((x - n - y) % n == 0) by {
            lemma_mod_add_multiples_vanish(x - n - y, n);
        }
        if x - n >= y {
            lemma_mod_multiples_of_difference(x - n, y, n);
        } else {
            // x - y is a positive multiple of n smaller than n: impossible
            assert(0 < x - y < n);
            lemma_small_mod((x - y) as nat, n as nat);
        }
    }
}

} // verus!

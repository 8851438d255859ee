//! The ordered route table: filters bound to handlers, matched first to last.
//!
//! The table is built once at startup and read-only afterwards.  Dispatching
//! an envelope walks the routes in registration order and invokes the first
//! handler whose filter matches — an explicit design choice, so overlapping
//! filters never fan out.

use vstd::prelude::*;
use crate::filter::{TopicFilter, FilterError, valid_pattern, views};
use crate::handlers::{Handler, ChatAction, ChatActionV, HandlerError, spec_handler_call};

verus! {

/// One filter-to-handler binding.
#[derive(Debug, Clone)]
pub struct Route {
    pub filter: TopicFilter,
    pub handler: Handler,
}

/// What dispatching one envelope came to.
#[derive(Debug, PartialEq, Eq)]
pub enum DispatchOutcome {
    /// A route matched; its handler's decision follows.
    Matched(Result<ChatAction, HandlerError>),
    /// No registered filter matches the topic.
    NoMatch,
}

/// The spec-level form of a dispatch outcome.
pub enum DispatchOutcomeV {
    Matched(Result<ChatActionV, HandlerError>),
    NoMatch,
}

impl View for DispatchOutcome {
    type V = DispatchOutcomeV;

    open spec fn view(&self) -> DispatchOutcomeV {
        match self {
            DispatchOutcome::Matched(res) => DispatchOutcomeV::Matched(
                match res {
                    Ok(a) => Ok(a@),
                    Err(e) => Err(*e),
                },
            ),
            DispatchOutcome::NoMatch => DispatchOutcomeV::NoMatch,
        }
    }
}

/// The index of the first route at or after `k` whose filter accepts the
/// topic.
pub open spec fn spec_first_match_from(routes: Seq<Route>, topic: Seq<u8>, k: int) -> Option<int>
    decreases routes.len() - k,
{
    if k < 0 || k >= routes.len() {
        None
    } else if routes[k].filter.spec_matches(topic) {
        Some(k)
    } else {
        spec_first_match_from(routes, topic, k + 1)
    }
}

/// The index of the first route whose filter accepts the topic.
pub open spec fn spec_first_match(routes: Seq<Route>, topic: Seq<u8>) -> Option<int> {
    spec_first_match_from(routes, topic, 0)
}

/// What dispatching the envelope over the route table comes to.
pub open spec fn spec_dispatch(routes: Seq<Route>, topic: Seq<u8>, payload: Seq<u8>)
    -> DispatchOutcomeV {
    match spec_first_match(routes, topic) {
        None => DispatchOutcomeV::NoMatch,
        Some(k) => DispatchOutcomeV::Matched(spec_handler_call(routes[k].handler, topic, payload)),
    }
}

/// The literal filter strings of the routes, one per route, in registration
/// order, not deduplicated.
pub open spec fn spec_subscription_topics(routes: Seq<Route>) -> Seq<Seq<u8>> {
    Seq::new(routes.len(), |i: int| routes[i].filter.pattern@)
}

/// The first match is a match, and nothing before it matches.
pub proof fn lemma_first_match_from_spec(routes: Seq<Route>, topic: Seq<u8>, k: int)
    requires
        0 <= k <= routes.len(),
    ensures
        match spec_first_match_from(routes, topic, k) {
            Some(m) => k <= m < routes.len() && routes[m].filter.spec_matches(topic) && forall|
                j: int,
            | k <= j < m ==> !(#[trigger] routes[j]).filter.spec_matches(topic),
            None => forall|j: int|
                k <= j < routes.len() ==> !(#[trigger] routes[j]).filter.spec_matches(topic),
        },
    decreases routes.len() - k,
{
    if k < routes.len() && !routes[k].filter.spec_matches(topic) {
        lemma_first_match_from_spec(routes, topic, k + 1);
    }
}

/// First match wins: when two routes both accept a topic, dispatch invokes
/// the earlier one's handler — in particular never the later one's.
pub proof fn lemma_first_match_wins(
    routes: Seq<Route>,
    topic: Seq<u8>,
    payload: Seq<u8>,
    i: int,
    j: int,
)
    requires
        0 <= i < j < routes.len(),
        routes[i].filter.spec_matches(topic),
        routes[j].filter.spec_matches(topic),
    ensures
        spec_first_match(routes, topic) matches Some(k) && k <= i,
        spec_dispatch(routes, topic, payload) == DispatchOutcomeV::Matched(
            spec_handler_call(routes[spec_first_match(routes, topic).unwrap()].handler, topic,
            payload),
        ),
{
    lemma_first_match_from_spec(routes, topic, 0);
    if spec_first_match(routes, topic) is None {
        assert(!routes[i].filter.spec_matches(topic));
    }
    let k = spec_first_match(routes, topic).unwrap();
    if k > i {
        assert(!routes[i].filter.spec_matches(topic));
    }
}

/// Whether a dispatch outcome names a chat side effect.
pub open spec fn outcome_has_action(o: DispatchOutcomeV) -> bool {
    o matches DispatchOutcomeV::Matched(Ok(_))
}

/// Handler isolation: an envelope whose payload the matched handler rejects
/// produces no chat action, and any later envelope on the same topic is
/// dispatched to that same handler, its outcome a function of its own payload
/// alone — the failure leaves nothing behind.
pub proof fn lemma_handler_isolation(routes: Seq<Route>, topic: Seq<u8>, bad: Seq<u8>)
    requires
        spec_first_match(routes, topic) matches Some(k) && spec_handler_call(
            routes[k].handler,
            topic,
            bad,
        ) is Err,
    ensures
        !outcome_has_action(spec_dispatch(routes, topic, bad)),
        forall|later: Seq<u8>|
            #[trigger] spec_dispatch(routes, topic, later) == DispatchOutcomeV::Matched(
                spec_handler_call(
                    routes[spec_first_match(routes, topic).unwrap()].handler,
                    topic,
                    later,
                ),
            ),
{
}

/// The ordered, append-only route table.
#[derive(Debug, Clone)]
pub struct Router {
    pub routes: Vec<Route>,
}

impl Router {
    /// Every registered filter is well formed.
    pub open spec fn wf(self) -> bool {
        forall|k: int| 0 <= k < self.routes@.len() ==> (#[trigger] self.routes@[k]).filter.wf()
    }

    /// An empty route table.
    pub fn new() -> (r: Router)
        ensures
            r.routes@.len() == 0,
            r.wf(),
    {
        Router { routes: Vec::new() }
    }

    /// Appends one route.  Registration order is significant and preserved;
    /// a malformed pattern is rejected with `InvalidFilter` and leaves the
    /// table unchanged.
    pub fn add_route(&mut self, pattern: &[u8], handler: Handler) -> (r: Result<(), FilterError>)
        ensures
            r is Ok <==> valid_pattern(pattern@),
            r is Ok ==> {
                &&& final(self).routes@.len() == old(self).routes@.len() + 1
                &&& final(self).routes@.subrange(0, old(self).routes@.len() as int) == old(
                    self,
                ).routes@
                &&& final(self).routes@.last().filter.wf()
                &&& final(self).routes@.last().filter.pattern@ == pattern@
                &&& final(self).routes@.last().handler == handler
            },
            r is Err ==> *final(self) == *old(self),
            old(self).wf() ==> final(self).wf(),
    {
        match TopicFilter::parse(pattern) {
            Ok(filter) => {
                self.routes.push(Route { filter, handler });
                proof {
                    assert(self.routes@.subrange(0, old(self).routes@.len() as int) =~= old(
                        self,
                    ).routes@);
                }
                Ok(())
            },
            Err(e) => Err(e),
        }
    }

    /// The literal filter strings needing broker subscription: one per route,
    /// in registration order, not deduplicated.
    pub fn topics_for_subscription(&self) -> (r: Vec<Vec<u8>>)
        ensures
            views(r@) == spec_subscription_topics(self.routes@),
    {
        let mut r: Vec<Vec<u8>> = Vec::new();
        let mut k: usize = 0;
        while k < self.routes.len()
            invariant
                0 <= k <= self.routes@.len(),
                r@.len() == k,
                views(r@) =~= spec_subscription_topics(self.routes@).take(k as int),
            decreases self.routes@.len() - k,
        {
            let ghost r0 = r@;
            r.push(crate::filter::slice_to_vec(self.routes[k].filter.pattern.as_slice()));
            proof {
                let topics = spec_subscription_topics(self.routes@);
                assert(topics.len() == self.routes@.len());
                assert(topics[k as int] == self.routes@[k as int].filter.pattern@);
                assert(r0.len() == k as int);
                assert(r@[k as int]@ == topics[k as int]);
                assert forall|i: int| 0 <= i < k as int + 1 implies views(r@)[i] == topics.take(
                    k as int + 1,
                )[i] by {
                    if i < k as int {
                        assert(views(r0)[i] == topics.take(k as int)[i]);
                        assert(r@[i] == r0[i]);
                    }
                }
                assert(views(r@) =~= topics.take(k as int + 1));
            }
            k += 1;
        }
        proof {
            assert(spec_subscription_topics(self.routes@).take(self.routes@.len() as int)
                =~= spec_subscription_topics(self.routes@));
        }
        r
    }

    /// Dispatches one envelope: scans the routes in registration order and
    /// invokes the first handler whose filter matches the topic; all later
    /// matching routes are ignored.  `NoMatch` when no filter matches.
    pub fn dispatch(&self, topic: &[u8], payload: &[u8]) -> (r: DispatchOutcome)
        ensures
            r@ == spec_dispatch(self.routes@, topic@, payload@),
    {
        let mut k: usize = 0;
        while k < self.routes.len()
            invariant
                0 <= k <= self.routes@.len(),
                spec_first_match(self.routes@, topic@) == spec_first_match_from(
                    self.routes@,
                    topic@,
                    k as int,
                ),
            decreases self.routes@.len() - k,
        {
            if self.routes[k].filter.matches(topic) {
                let res = self.routes[k].handler.call(topic, payload);
                return DispatchOutcome::Matched(res);
            }
            k += 1;
        }
        DispatchOutcome::NoMatch
    }
}

} // verus!

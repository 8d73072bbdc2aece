//! The rate-limit registry and the per-request admission evaluation.
//!
//! A [`RateLimit`] maps route names to rule sets: lists of
//! [`RateLimitConfig`]s kept sorted by priority, descending, with
//! registration order preserved among equal priorities. A request is
//! evaluated rule by rule in that order through an [`Evaluation`] — a small
//! state machine, because extracting a rule's identity key may suspend and
//! is therefore done by the caller between steps — and the first rejecting
//! rule ends the evaluation.

use crate::quota::KeyedLimiter;
use crate::respond::RateLimitResponse;
use vstd::multiset::Multiset;
use vstd::prelude::*;

verus! {

/// One limiter rule: a keyed quota checker, the key-extraction strategy to
/// feed it (named by index into the caller's table of extractors), and a
/// priority. Higher priorities are evaluated first.
pub struct RateLimitConfig {
    pub limiter: KeyedLimiter,
    pub filter_id: usize,
    pub priority: u32,
}

impl RateLimitConfig {
    /// A rule with priority 0; raise it with [`RateLimitConfig::priority`].
    pub fn new(limiter: KeyedLimiter, filter_id: usize) -> (r: RateLimitConfig)
        ensures
            r.limiter == limiter,
            r.filter_id == filter_id,
            r.priority == 0,
    {
        RateLimitConfig { limiter, filter_id, priority: 0 }
    }

    /// Sets the rule's priority.
    pub fn priority(self, priority: u32) -> (r: RateLimitConfig)
        ensures
            r.filter_id == self.filter_id,
            r.priority == priority,
            r.limiter == self.limiter,
    {
        RateLimitConfig { priority, ..self }
    }
}

/// One route's entry: its name, its rules in evaluation order, and (ghost)
/// every rule ever registered for it, in registration order.
pub struct RouteEntry {
    pub name: String,
    pub rules: Vec<RateLimitConfig>,
    pub registered: Ghost<Seq<RateLimitConfig>>,
}

/// The index of the first rule in `s` whose priority is below `p`, or
/// `s.len()` if there is none: where a new rule of priority `p` belongs in a
/// descending-sorted list, after every rule that ties with it.
pub open spec fn insert_pos(s: Seq<RateLimitConfig>, p: u32) -> nat
    decreases s.len(),
{
    if s.len() == 0 {
        0
    } else if s[0].priority < p {
        0
    } else {
        1 + insert_pos(s.drop_first(), p)
    }
}

/// `x` placed into `s` at its stable position.
pub open spec fn insert_desc(s: Seq<RateLimitConfig>, x: RateLimitConfig) -> Seq<RateLimitConfig> {
    s.insert(insert_pos(s, x.priority) as int, x)
}

/// Stable sort of `s` by priority, descending: insert each rule, in order,
/// after every rule of equal or higher priority already placed.
pub open spec fn sort_desc(s: Seq<RateLimitConfig>) -> Seq<RateLimitConfig>
    decreases s.len(),
{
    if s.len() == 0 {
        Seq::empty()
    } else {
        insert_desc(sort_desc(s.drop_last()), s.last())
    }
}

/// Priorities never increase along `s`.
pub open spec fn sorted_desc(s: Seq<RateLimitConfig>) -> bool {
    forall|i: int, j: int| 0 <= i < j < s.len() ==> s[i].priority >= s[j].priority
}

proof fn lemma_insert_pos_props(s: Seq<RateLimitConfig>, p: u32)
    ensures
        insert_pos(s, p) <= s.len(),
        forall|j: int| 0 <= j < insert_pos(s, p) ==> s[j].priority >= p,
        insert_pos(s, p) < s.len() ==> s[insert_pos(s, p) as int].priority < p,
    decreases s.len(),
{
    if s.len() == 0 {
    } else if s[0].priority < p {
    } else {
        lemma_insert_pos_props(s.drop_first(), p);
        assert forall|j: int| 0 <= j < insert_pos(s, p) implies s[j].priority >= p by {
            if j > 0 {
                assert(s.drop_first()[j - 1] == s[j]);
            }
        }
        if insert_pos(s, p) < s.len() {
            assert(s.drop_first()[insert_pos(s, p) - 1] == s[insert_pos(s, p) as int]);
        }
    }
}

proof fn lemma_insert_pos_unique(s: Seq<RateLimitConfig>, p: u32, i: int)
    requires
        0 <= i <= s.len(),
        forall|j: int| 0 <= j < i ==> s[j].priority >= p,
        i < s.len() ==> s[i].priority < p,
    ensures
        insert_pos(s, p) == i,
    decreases s.len(),
{
    if i == 0 {
    } else {
        assert(s[0].priority >= p);
        lemma_insert_pos_unique(s.drop_first(), p, i - 1);
    }
}

proof fn lemma_insert_desc_sorted(s: Seq<RateLimitConfig>, x: RateLimitConfig)
    requires
        sorted_desc(s),
    ensures
        sorted_desc(insert_desc(s, x)),
{
    lemma_insert_pos_props(s, x.priority);
    let pos = insert_pos(s, x.priority) as int;
    let t = insert_desc(s, x);
    assert forall|i: int, j: int| 0 <= i < j < t.len() implies t[i].priority >= t[j].priority by {
        if i < pos && j == pos {
            assert(t[i] == s[i]);
        } else if i == pos && j > pos {
            assert(t[j] == s[j - 1]);
            assert(s[pos].priority < x.priority);
        } else if i < pos && j > pos {
            assert(t[i] == s[i] && t[j] == s[j - 1]);
        } else if i < pos && j < pos {
            assert(t[i] == s[i] && t[j] == s[j]);
        } else if i > pos && j > pos {
            assert(t[i] == s[i - 1] && t[j] == s[j - 1]);
        }
    }
}

proof fn lemma_sort_desc_sorted(s: Seq<RateLimitConfig>)
    ensures
        sorted_desc(sort_desc(s)),
    decreases s.len(),
{
    if s.len() == 0 {
    } else {
        lemma_sort_desc_sorted(s.drop_last());
        lemma_insert_desc_sorted(sort_desc(s.drop_last()), s.last());
    }
}

proof fn lemma_sort_desc_push(s: Seq<RateLimitConfig>, x: RateLimitConfig)
    ensures
        sort_desc(s.push(x)) == insert_desc(sort_desc(s), x),
{
    assert(s.push(x).drop_last() =~= s);
    assert(s.push(x).last() == x);
}

/// The rules of priority exactly `p` in `s`, in the order `s` has them.
pub open spec fn priority_class(s: Seq<RateLimitConfig>, p: u32) -> Seq<RateLimitConfig>
    decreases s.len(),
{
    if s.len() == 0 {
        Seq::empty()
    } else if s.last().priority == p {
        priority_class(s.drop_last(), p).push(s.last())
    } else {
        priority_class(s.drop_last(), p)
    }
}

proof fn lemma_class_concat(a: Seq<RateLimitConfig>, b: Seq<RateLimitConfig>, p: u32)
    ensures
        priority_class(a + b, p) == priority_class(a, p) + priority_class(b, p),
    decreases b.len(),
{
    if b.len() == 0 {
        assert(a + b =~= a);
        assert(priority_class(a, p) + priority_class(b, p) =~= priority_class(a, p));
    } else {
        assert((a + b).drop_last() =~= a + b.drop_last());
        assert((a + b).last() == b.last());
        lemma_class_concat(a, b.drop_last(), p);
        if b.last().priority == p {
            assert(priority_class(a, p) + priority_class(b.drop_last(), p).push(b.last()) =~= (
            priority_class(a, p) + priority_class(b.drop_last(), p)).push(b.last()));
        }
    }
}

proof fn lemma_class_all_below(s: Seq<RateLimitConfig>, p: u32)
    requires
        forall|i: int| 0 <= i < s.len() ==> (#[trigger] s[i].priority) < p,
    ensures
        priority_class(s, p) == Seq::<RateLimitConfig>::empty(),
    decreases s.len(),
{
    if s.len() > 0 {
        lemma_class_all_below(s.drop_last(), p);
    }
}

proof fn lemma_class_insert_desc(s: Seq<RateLimitConfig>, x: RateLimitConfig, p: u32)
    requires
        sorted_desc(s),
    ensures
        x.priority == p ==> priority_class(insert_desc(s, x), p) == priority_class(s, p).push(x),
        x.priority != p ==> priority_class(insert_desc(s, x), p) == priority_class(s, p),
{
    lemma_insert_pos_props(s, x.priority);
    let i = insert_pos(s, x.priority) as int;
    let front = s.take(i);
    let back = s.skip(i);
    let one = seq![x];
    assert(insert_desc(s, x) =~= front + (one + back));
    assert(s =~= front + back);
    lemma_class_concat(front, one + back, p);
    lemma_class_concat(one, back, p);
    lemma_class_concat(front, back, p);
    assert(one.drop_last() =~= Seq::<RateLimitConfig>::empty());
    assert(one.last() == x);
    assert(priority_class(Seq::<RateLimitConfig>::empty(), p) =~= Seq::<RateLimitConfig>::empty());
    assert(priority_class(one, p) == if x.priority == p {
        priority_class(one.drop_last(), p).push(x)
    } else {
        priority_class(one.drop_last(), p)
    });
    if x.priority == p {
        assert forall|j: int| 0 <= j < back.len() implies (#[trigger] back[j].priority) < p by {
            assert(back[j] == s[i + j]);
            assert(s[i].priority < p);
        }
        lemma_class_all_below(back, p);
        assert(priority_class(one, p) =~= seq![x]);
        assert(priority_class(insert_desc(s, x), p) =~= priority_class(s, p).push(x));
    } else {
        assert(priority_class(one, p) =~= Seq::<RateLimitConfig>::empty());
        assert(priority_class(insert_desc(s, x), p) =~= priority_class(s, p));
    }
}

proof fn lemma_insert_desc_multiset(s: Seq<RateLimitConfig>, x: RateLimitConfig)
    ensures
        insert_desc(s, x).to_multiset() == s.to_multiset().insert(x),
{
    broadcast use vstd::seq_lib::lemma_multiset_commutative;
    broadcast use vstd::seq_lib::group_to_multiset_ensures;
    broadcast use vstd::multiset::group_multiset_axioms;

    lemma_insert_pos_props(s, x.priority);
    let i = insert_pos(s, x.priority) as int;
    let front = s.take(i);
    let back = s.skip(i);
    let one = seq![x];
    assert(insert_desc(s, x) =~= front + (one + back));
    assert(s =~= front + back);
    assert(one =~= Seq::<RateLimitConfig>::empty().push(x));
    assert(one.to_multiset() =~= Multiset::<RateLimitConfig>::empty().insert(x));
    assert(insert_desc(s, x).to_multiset() =~= s.to_multiset().insert(x));
}

proof fn lemma_sort_desc_multiset(s: Seq<RateLimitConfig>)
    ensures
        sort_desc(s).to_multiset() == s.to_multiset(),
    decreases s.len(),
{
    broadcast use vstd::seq_lib::group_to_multiset_ensures;

    if s.len() == 0 {
        assert(sort_desc(s) =~= s);
    } else {
        lemma_sort_desc_multiset(s.drop_last());
        lemma_insert_desc_multiset(sort_desc(s.drop_last()), s.last());
        assert(s =~= s.drop_last().push(s.last()));
    }
}

proof fn lemma_sort_desc_stable(s: Seq<RateLimitConfig>, p: u32)
    ensures
        priority_class(sort_desc(s), p) == priority_class(s, p),
    decreases s.len(),
{
    if s.len() > 0 {
        lemma_sort_desc_stable(s.drop_last(), p);
        lemma_sort_desc_sorted(s.drop_last());
        lemma_class_insert_desc(sort_desc(s.drop_last()), s.last(), p);
    }
}

/// Evaluation order equals a stable sort by descending priority of all
/// registered rules, after any sequence of `add` calls: a route's rules are
/// exactly the registered rules (as a multiset), sorted by priority,
/// descending, and for every priority `p` the rules of priority `p` stand
/// in registration order.
pub proof fn lemma_evaluation_order_is_stable_sort(rl: RateLimit, ri: int)
    requires
        rl.wf(),
        0 <= ri < rl.routes@.len(),
    ensures
        sorted_desc(rl.routes@[ri].rules@),
        rl.routes@[ri].rules@.to_multiset() == rl.routes@[ri].registered@.to_multiset(),
        forall|p: u32|
            priority_class(rl.routes@[ri].rules@, p) == priority_class(
                rl.routes@[ri].registered@,
                p,
            ),
{
    lemma_sort_desc_sorted(rl.routes@[ri].registered@);
    lemma_sort_desc_multiset(rl.routes@[ri].registered@);
    assert forall|p: u32|
        priority_class(rl.routes@[ri].rules@, p) == priority_class(
            rl.routes@[ri].registered@,
            p,
        ) by {
        lemma_sort_desc_stable(rl.routes@[ri].registered@, p);
    }
}

/// The rate-limit registry: route name to rule set, append-and-sort only.
pub struct RateLimit {
    pub routes: Vec<RouteEntry>,
}

impl RateLimit {
    /// Route names are unique, and every rule set is exactly the stable
    /// descending-priority sort of everything registered for its route.
    pub open spec fn wf(self) -> bool {
        &&& forall|i: int, j: int|
            0 <= i < j < self.routes@.len() ==> self.routes@[i].name@ != self.routes@[j].name@
        &&& forall|i: int|
            0 <= i < self.routes@.len() ==> self.routes@[i].rules@ == sort_desc(
                #[trigger] self.routes@[i].registered@,
            )
    }

    /// The index of `name`'s entry, if registered.
    pub open spec fn route_index(self, name: Seq<char>) -> Option<int> {
        route_index_rec(self.routes@, name)
    }

    /// An empty registry.
    pub fn new() -> (r: RateLimit)
        ensures
            r.wf(),
            r.routes@.len() == 0,
    {
        RateLimit { routes: Vec::new() }
    }
}

impl Default for RateLimit {
    /// An empty registry.
    fn default() -> (r: RateLimit)
        ensures
            r.wf(),
            r.routes@.len() == 0,
    {
        RateLimit::new()
    }
}

impl RateLimit {
    fn find_route(&self, name: &String) -> (r: Option<usize>)
        ensures
            match r {
                Some(i) => {
                    &&& self.route_index(name@) == Some(i as int)
                    &&& i < self.routes@.len()
                    &&& self.routes@[i as int].name@ == name@
                },
                None => self.route_index(name@) is None,
            },
    {
        let mut i: usize = 0;
        while i < self.routes.len()
            invariant
                i <= self.routes@.len(),
                forall|j: int| 0 <= j < i ==> self.routes@[j].name@ != name@,
            decreases self.routes@.len() - i,
        {
            if self.routes[i].name == *name {
                proof {
                    lemma_route_index_found(self.routes@, name@, i as int);
                }
                return Some(i);
            }
            i = i + 1;
        }
        proof {
            lemma_route_index_not_found(self.routes@, name@);
        }
        None
    }

    /// Registers `items` for `route_name`. A new route's rules are the
    /// stable descending-priority sort of `items`; an existing route's
    /// rules are re-sorted over the whole combined list. No deduplication:
    /// registering a rule twice yields two independent evaluations.
    pub fn add(&mut self, route_name: &str, items: Vec<RateLimitConfig>)
        requires
            old(self).wf(),
        ensures
            final(self).wf(),
            match old(self).route_index(route_name@) {
                Some(ri) => {
                    &&& final(self).routes@.len() == old(self).routes@.len()
                    &&& (forall|j: int|
                        0 <= j < old(self).routes@.len() && j != ri ==> final(self).routes@[j]
                            == old(self).routes@[j])
                    &&& final(self).routes@[ri].name@ == route_name@
                    &&& final(self).routes@[ri].registered@ == old(self).routes@[ri].registered@
                        + items@
                    &&& final(self).routes@[ri].rules@ == sort_desc(
                        old(self).routes@[ri].registered@ + items@,
                    )
                },
                None => {
                    &&& final(self).routes@.len() == old(self).routes@.len() + 1
                    &&& (forall|j: int|
                        0 <= j < old(self).routes@.len() ==> final(self).routes@[j] == old(
                            self,
                        ).routes@[j])
                    &&& final(self).routes@[old(self).routes@.len() as int].name@ == route_name@
                    &&& final(self).routes@[old(self).routes@.len() as int].registered@ == items@
                    &&& final(self).routes@[old(self).routes@.len() as int].rules@ == sort_desc(
                        items@,
                    )
                },
            },
    {
        let name: String = route_name.to_owned();
        let found = self.find_route(&name);
        let ghost pre = *self;
        let ri: usize = match found {
            Some(i) => i,
            None => {
                let entry = RouteEntry {
                    name: name,
                    rules: Vec::new(),
                    registered: Ghost(Seq::empty()),
                };
                let n = self.routes.len();
                self.routes.push(entry);
                proof {
                    assert(sort_desc(Seq::<RateLimitConfig>::empty()) =~= Seq::<
                        RateLimitConfig,
                    >::empty());
                    assert forall|i: int, j: int|
                        0 <= i < j < self.routes@.len() implies self.routes@[i].name@
                        != self.routes@[j].name@ by {
                        if j == n {
                            lemma_route_index_no_match(pre.routes@, route_name@, i);
                        }
                    }
                }
                n
            },
        };
        let ghost mid = *self;
        let ghost items0 = items@;
        let ghost base = self.routes@[ri as int].registered@;
        let mut entry = self.routes.remove(ri);
        let mut items = items;
        let ghost entry0 = entry;
        while items.len() > 0
            invariant
                entry.name@ == entry0.name@,
                items0.len() >= items@.len(),
                items@ == items0.skip(items0.len() - items@.len()),
                entry.registered@ == base + items0.take(items0.len() - items@.len()),
                entry.rules@ == sort_desc(entry.registered@),
                entry0.rules@ == sort_desc(base),
            decreases items@.len(),
        {
            let ghost done = items0.len() - items@.len();
            let x = items.remove(0);
            proof {
                assert(x == items0[done]);
                assert(items@ =~= items0.skip(done + 1));
            }
            let ghost reg0 = entry.registered@;
            insert_sorted(&mut entry.rules, x);
            entry.registered = Ghost(entry.registered@.push(x));
            proof {
                lemma_sort_desc_push(reg0, x);
                assert(entry.registered@ =~= base + items0.take(done + 1));
            }
        }
        proof {
            assert(items0.take(items0.len() as int) =~= items0);
            assert(entry.registered@ == base + items0);
        }
        self.routes.insert(ri, entry);
        proof {
            assert(self.routes@ =~= mid.routes@.update(ri as int, entry));
            assert forall|i: int|
                0 <= i < self.routes@.len() implies self.routes@[i].rules@ == sort_desc(
                #[trigger] self.routes@[i].registered@,
            ) by {
                if i != ri {
                    assert(self.routes@[i] == mid.routes@[i]);
                }
            }
        }
    }

    /// The priorities of `route_name`'s rules, in evaluation order, or
    /// `None` if the route has no registered rule set.
    pub fn rule_priorities(&self, route_name: &str) -> (r: Option<Vec<u32>>)
        ensures
            (r is Some) == (self.route_index(route_name@) is Some),
            match r {
                Some(ps) => {
                    &&& self.route_index(route_name@) is Some
                    &&& ps@ == Seq::new(
                        self.routes@[self.route_index(route_name@)->Some_0].rules@.len(),
                        |i: int|
                            self.routes@[self.route_index(route_name@)->Some_0].rules@[i].priority,
                    )
                },
                None => true,
            },
    {
        let name: String = route_name.to_owned();
        match self.find_route(&name) {
            None => None,
            Some(ri) => {
                let rules = &self.routes[ri].rules;
                let mut ps: Vec<u32> = Vec::new();
                let mut i: usize = 0;
                while i < rules.len()
                    invariant
                        i <= rules@.len(),
                        ps@ == Seq::new(i as nat, |j: int| rules@[j].priority),
                    decreases rules@.len() - i,
                {
                    ps.push(rules[i].priority);
                    i = i + 1;
                    proof {
                        assert(ps@ =~= Seq::new(i as nat, |j: int| rules@[j].priority));
                    }
                }
                Some(ps)
            },
        }
    }
}

/// What one evaluated rule did, in a request's evaluation history: skipped
/// because its extractor yielded no key, passed (one quota unit consumed),
/// or rejected with a reported wait in milliseconds.
pub enum RuleEvent {
    Skipped,
    Passed,
    Rejected(u128),
}

/// One request's admission evaluation, stepped by the caller: the caller
/// asks which rule is next ([`RateLimit::current_filter`]), extracts that
/// rule's key — which may suspend, and so happens outside the library — and
/// hands it back ([`RateLimit::supply_key`]). The ghost `events` field is
/// the full history of what each evaluated rule did.
pub struct Evaluation {
    pub route: Option<usize>,
    pub next: usize,
    pub outcome: Option<RateLimitResponse>,
    pub events: Ghost<Seq<RuleEvent>>,
}

impl Evaluation {
    /// The matched route's index, when there is one.
    pub open spec fn route_idx(self) -> int {
        match self.route {
            Some(i) => i as int,
            None => -1,
        }
    }

    /// The machine's invariant against the registry it was started on:
    /// `next` counts the evaluated rules, only the last evaluated rule can
    /// have rejected, and `outcome` is set exactly when it did.
    pub open spec fn wf_for(self, rl: RateLimit) -> bool {
        match self.route {
            None => {
                &&& self.next == 0
                &&& self.outcome is None
                &&& self.events@.len() == 0
            },
            Some(ri) => {
                &&& (ri as int) < rl.routes@.len()
                &&& self.next == self.events@.len()
                &&& self.next <= rl.routes@[ri as int].rules@.len()
                &&& (forall|i: int|
                    0 <= i < self.events@.len() - 1 ==> !(#[trigger] self.events@[i] is Rejected))
                &&& match self.outcome {
                    Some(o) => {
                        &&& self.events@.len() > 0
                        &&& self.events@.last() == RuleEvent::Rejected(o.retry_after)
                    },
                    None => self.events@.len() == 0 || !(self.events@.last() is Rejected),
                }
            },
        }
    }

    /// Whether evaluation is complete: no rule set to run, a rejection
    /// already found, or every rule evaluated.
    pub open spec fn done(self, rl: RateLimit) -> bool {
        match self.route {
            None => true,
            Some(ri) => self.outcome is Some || self.next == rl.routes@[ri as int].rules@.len(),
        }
    }
}

/// How one step relates the machine's states: event `e` was appended to the
/// history, the rule cursor advanced, and a rejection (only) sets the
/// outcome.
pub open spec fn step_to(pre: Evaluation, post: Evaluation, e: RuleEvent) -> bool {
    &&& post.route == pre.route
    &&& post.events@ == pre.events@.push(e)
    &&& post.next == pre.next + 1
    &&& post.outcome == match e {
        RuleEvent::Rejected(w) => Some(RateLimitResponse { retry_after: w }),
        _ => pre.outcome,
    }
}

impl RateLimit {
    /// Starts a request's evaluation against the route it matched (`None`
    /// when no route matched or the route has no name). A request whose
    /// route has no registered rule set starts out done, with no rejection:
    /// it is unconditionally admitted.
    pub fn begin_check(&self, route_name: Option<&str>) -> (ev: Evaluation)
        requires
            self.wf(),
        ensures
            ev.wf_for(*self),
            ev.events@ == Seq::<RuleEvent>::empty(),
            ev.outcome is None,
            match route_name {
                None => ev.route is None,
                Some(name) => match self.route_index(name@) {
                    Some(ri) => ev.route == Some(ri as usize),
                    None => ev.route is None,
                },
            },
    {
        let route = match route_name {
            None => None,
            Some(name) => {
                let owned: String = name.to_owned();
                self.find_route(&owned)
            },
        };
        Evaluation { route, next: 0, outcome: None, events: Ghost(Seq::empty()) }
    }

    /// Which key-extraction strategy to run next: the filter id of the next
    /// rule in evaluation order, or `None` when evaluation is complete — in
    /// particular, `None` for every rule after a rejecting one.
    pub fn current_filter(&self, ev: &Evaluation) -> (r: Option<usize>)
        requires
            self.wf(),
            ev.wf_for(*self),
        ensures
            (r is Some) == !ev.done(*self),
            !ev.done(*self) ==> r == Some(
                self.routes@[ev.route_idx()].rules@[ev.next as int].filter_id,
            ),
    {
        match ev.route {
            None => None,
            Some(ri) => {
                if ev.outcome.is_some() {
                    None
                } else if ev.next < self.routes[ri].rules.len() {
                    Some(self.routes[ri].rules[ev.next].filter_id)
                } else {
                    None
                }
            },
        }
    }

    /// Feeds the next rule its extracted key, or `None` to skip it. With no
    /// key, the rule is skipped: no quota unit is consumed and evaluation
    /// moves on. With a key, one unit is consumed for that key if the
    /// rule's quota admits it; otherwise nothing is consumed, the reported
    /// wait becomes the evaluation's outcome, and evaluation is complete.
    /// The quota checker's answer depends on its state and clock, so the
    /// contract holds for every answer it can give.
    pub fn supply_key(&self, ev: &mut Evaluation, key: Option<String>)
        requires
            self.wf(),
            old(ev).wf_for(*self),
            !old(ev).done(*self),
        ensures
            final(ev).wf_for(*self),
            key is None ==> step_to(*old(ev), *final(ev), RuleEvent::Skipped),
            key is Some ==> exists|e: RuleEvent|
                {
                    &&& #[trigger] step_to(*old(ev), *final(ev), e)
                    &&& (e is Passed || e is Rejected)
                },
    {
        let ri: usize = match ev.route {
            Some(i) => i,
            None => {
                proof {
                    assert(false);
                }
                0
            },
        };
        let n_rules = self.routes[ri].rules.len();
        proof {
            assert(ev.next < n_rules);
        }
        match key {
            None => {
                ev.next = ev.next + 1;
                proof {
                    ev.events@ = ev.events@.push(RuleEvent::Skipped);
                }
            },
            Some(k) => {
                let checked = self.routes[ri].rules[ev.next].limiter.check_ms(&k);
                match checked {
                    None => {
                        ev.next = ev.next + 1;
                        proof {
                            ev.events@ = ev.events@.push(RuleEvent::Passed);
                            assert(step_to(*old(ev), *ev, RuleEvent::Passed));
                        }
                    },
                    Some(wait) => {
                        ev.next = ev.next + 1;
                        ev.outcome = Some(RateLimitResponse { retry_after: wait });
                        proof {
                            ev.events@ = ev.events@.push(RuleEvent::Rejected(wait));
                            assert(step_to(*old(ev), *ev, RuleEvent::Rejected(wait)));
                        }
                    },
                }
            },
        }
    }

    /// The evaluation's result: `Some` carries the first (and only)
    /// rejection's wait time; `None` means the request is admitted.
    pub fn check_result(&self, ev: &Evaluation) -> (r: Option<RateLimitResponse>)
        requires
            self.wf(),
            ev.wf_for(*self),
        ensures
            r == ev.outcome,
    {
        ev.outcome
    }
}

/// A route with no registered rule set admits every request: its evaluation
/// starts out complete with no rejection outcome, so no rejection response
/// is ever produced for it.
pub proof fn lemma_unregistered_route_admits(rl: RateLimit, ev: Evaluation)
    requires
        rl.wf(),
        ev.wf_for(rl),
        ev.route is None,
    ensures
        ev.done(rl),
        ev.outcome is None,
{
}

/// An admitted evaluation rejected nowhere: when the outcome is `None`, no
/// evaluated rule rejected, so no rejection response is ever produced for
/// the request.
pub proof fn lemma_admitted_means_no_rejection(rl: RateLimit, ev: Evaluation)
    requires
        rl.wf(),
        ev.wf_for(rl),
        ev.outcome is None,
    ensures
        forall|i: int| 0 <= i < ev.events@.len() ==> !(#[trigger] ev.events@[i] is Rejected),
{
    assert forall|i: int| 0 <= i < ev.events@.len() implies !(ev.events@[i] is Rejected) by {
        if i == ev.events@.len() - 1 {
            assert(ev.events@[i] == ev.events@.last());
        }
    }
}

/// The first rejection wins: if any evaluated rule rejected, it was the
/// last rule evaluated — no rule after it was ever consulted, so no quota
/// unit was consumed for any later rule — and its wait time is the
/// evaluation's outcome.
pub proof fn lemma_first_rejection_stops(rl: RateLimit, ev: Evaluation)
    requires
        rl.wf(),
        ev.wf_for(rl),
        exists|i: int| 0 <= i < ev.events@.len() && (#[trigger] ev.events@[i]) is Rejected,
    ensures
        ev.done(rl),
        ev.events@.last() is Rejected,
        forall|i: int| 0 <= i < ev.events@.len() - 1 ==> !(#[trigger] ev.events@[i] is Rejected),
        ev.outcome == Some(RateLimitResponse { retry_after: ev.events@.last()->Rejected_0 }),
{
    let i = choose|i: int| 0 <= i < ev.events@.len() && (#[trigger] ev.events@[i]) is Rejected;
    if i < ev.events@.len() - 1 {
        assert(!(ev.events@[i] is Rejected));
    }
    assert(ev.events@.last() is Rejected);
    match ev.outcome {
        Some(o) => {},
        None => {
            assert(false);
        },
    }
}

fn insert_sorted(rules: &mut Vec<RateLimitConfig>, x: RateLimitConfig)
    ensures
        final(rules)@ == insert_desc(old(rules)@, x),
{
    let mut i: usize = 0;
    while i < rules.len() && rules[i].priority >= x.priority
        invariant
            i <= rules@.len(),
            forall|j: int| 0 <= j < i ==> rules@[j].priority >= x.priority,
        decreases rules@.len() - i,
    {
        i = i + 1;
    }
    proof {
        lemma_insert_pos_unique(rules@, x.priority, i as int);
    }
    rules.insert(i, x);
}

pub open spec fn route_index_rec(routes: Seq<RouteEntry>, name: Seq<char>) -> Option<int>
    decreases routes.len(),
{
    if routes.len() == 0 {
        None
    } else if routes[0].name@ == name {
        Some(0)
    } else {
        match route_index_rec(routes.drop_first(), name) {
            Some(i) => Some(i + 1),
            None => None,
        }
    }
}

proof fn lemma_route_index_found(routes: Seq<RouteEntry>, name: Seq<char>, i: int)
    requires
        0 <= i < routes.len(),
        routes[i].name@ == name,
        forall|j: int| 0 <= j < i ==> routes[j].name@ != name,
    ensures
        route_index_rec(routes, name) == Some(i),
    decreases routes.len(),
{
    if i == 0 {
    } else {
        assert(routes[0].name@ != name);
        assert(routes.drop_first()[i - 1] == routes[i]);
        assert forall|j: int| 0 <= j < i - 1 implies routes.drop_first()[j].name@ != name by {
            assert(routes.drop_first()[j] == routes[j + 1]);
        }
        lemma_route_index_found(routes.drop_first(), name, i - 1);
    }
}

proof fn lemma_route_index_not_found(routes: Seq<RouteEntry>, name: Seq<char>)
    requires
        forall|j: int| 0 <= j < routes.len() ==> routes[j].name@ != name,
    ensures
        route_index_rec(routes, name) is None,
    decreases routes.len(),
{
    if routes.len() == 0 {
    } else {
        assert forall|j: int|
            0 <= j < routes.drop_first().len() implies routes.drop_first()[j].name@ != name by {
            assert(routes.drop_first()[j] == routes[j + 1]);
        }
        lemma_route_index_not_found(routes.drop_first(), name);
    }
}

proof fn lemma_route_index_no_match(routes: Seq<RouteEntry>, name: Seq<char>, i: int)
    requires
        route_index_rec(routes, name) is None,
        0 <= i < routes.len(),
    ensures
        routes[i].name@ != name,
    decreases routes.len(),
{
    if i == 0 {
    } else {
        assert(routes.drop_first()[i - 1] == routes[i]);
        lemma_route_index_no_match(routes.drop_first(), name, i - 1);
    }
}

} // verus!

//! The protocol client's own state, apart from the connection: capped event
//! buffers, the routing of events into them, the choice of a page, and the
//! per-tab emulation state that follows the active tab.
use crate::text::{dec, owned, push_all, push_str, starts_with, starts_with_chars, str_eq, string_from_chars, u64_dec};
use std::collections::VecDeque;
use vstd::prelude::*;

verus! {

// ---------------------------------------------------------------------
// Targets
// ---------------------------------------------------------------------

/// A browser target (page, worker, ...).
pub struct TargetInfo {
    pub target_id: String,
    pub title: String,
    pub url: String,
    pub target_type: String,
}

/// The page targets among `all`, in order.
pub open spec fn pages_of(all: Seq<TargetInfo>) -> Seq<TargetInfo> {
    all.filter(|t: TargetInfo| t.target_type@ == "page"@)
}

/// Keeps the targets of type `page`, in order.
pub fn page_targets(all: Vec<TargetInfo>) -> (r: Vec<TargetInfo>)
    ensures
        r@ == pages_of(all@),
{
    let ghost a = all@;
    let mut rest = all;
    let mut kept: Vec<TargetInfo> = Vec::new();
    let mut taken: usize = 0;
    let n = rest.len();
    let mut back: Vec<TargetInfo> = Vec::new();
    // reverse so that `pop` yields the targets in order
    while rest.len() > 0
        invariant
            a.len() == n,
            rest@.len() + back@.len() == n,
            rest@ == a.take(rest@.len() as int),
            forall|k: int| 0 <= k < back@.len() ==> back@[k] == a[n - 1 - k],
        decreases rest@.len(),
    {
        let ghost l = rest@.len();
        match rest.pop() {
            Some(t) => {
                back.push(t);
                proof {
                    assert(rest@ =~= a.take(l - 1));
                }
            },
            None => {},
        }
    }
    while back.len() > 0
        invariant
            a.len() == n,
            taken + back@.len() == n,
            forall|k: int| 0 <= k < back@.len() ==> back@[k] == a[n - 1 - k],
            kept@ == pages_of(a.take(taken as int)),
        decreases back@.len(),
    {
        let ghost l = back@.len();
        match back.pop() {
            Some(t) => {
                proof {
                    assert(t == a[taken as int]);
                    assert(a.take(taken + 1) =~= a.take(taken as int).push(t));
                    a.take(taken as int).lemma_filter_push(t, |t: TargetInfo| t.target_type@ == "page"@);
                }
                let is_page = str_eq(t.target_type.as_str(), "page");
                if is_page {
                    kept.push(t);
                }
                taken = taken + 1;
            },
            None => {},
        }
    }
    proof {
        assert(a.take(n as int) =~= a);
    }
    kept
}

/// The position of the first page with id `tid`.
#[verifier::opaque]
pub open spec fn page_with_id(pages: Seq<TargetInfo>, tid: Seq<char>) -> Option<int> {
    if exists|i: int| 0 <= i < pages.len() && pages[i].target_id@ == tid {
        Some(choose|i: int| 0 <= i < pages.len() && pages[i].target_id@ == tid
            && forall|j: int| 0 <= j < i ==> pages[j].target_id@ != tid)
    } else {
        None
    }
}

/// The page a command addresses: the page with id `target` when one is
/// given, else the page at index `page` (0 by default).
pub fn select_page(all: Vec<TargetInfo>, target: Option<&str>, page: Option<usize>) -> (r: Result<
    TargetInfo,
    String,
>)
    ensures
        match target {
            Some(tid) => match page_with_id(all@, tid@) {
                Some(i) => r matches Ok(t) && t == all@[i],
                None => r matches Err(m) && m@ == "No page with target ID: "@ + tid@,
            },
            None => {
                let idx = match page {
                    Some(p) => p,
                    None => 0usize,
                };
                if idx < all@.len() {
                    r matches Ok(t) && t == all@[idx as int]
                } else {
                    r matches Err(m) && m@ == "No page at index "@ + dec(idx as nat)
                }
            },
        },
{
    let mut pages = all;
    let ghost p0 = all@;
    match target {
        Some(tid) => {
            let mut i: usize = 0;
            while i < pages.len()
                invariant
                    pages@ == p0,
                    p0 == all@,
                    target == Some(tid),
                    0 <= i <= p0.len(),
                    forall|j: int| 0 <= j < i ==> p0[j].target_id@ != tid@,
                decreases p0.len() - i,
            {
                if str_eq(pages[i].target_id.as_str(), tid) {
                    proof {
                        reveal(page_with_id);
                        assert(0 <= i < p0.len() && p0[i as int].target_id@ == tid@);
                        let w = choose|w: int| 0 <= w < p0.len() && p0[w].target_id@ == tid@
                            && forall|j: int| 0 <= j < w ==> p0[j].target_id@ != tid@;
                        if w < i {
                            assert(p0[w].target_id@ != tid@);
                        } else if w > i {
                            assert(p0[i as int].target_id@ != tid@);
                        }
                        assert(page_with_id(p0, tid@) == Some(i as int));
                    }
                    return Ok(pages.remove(i));
                }
                i = i + 1;
            }
            proof {
                reveal(page_with_id);
            }
            let mut v: Vec<char> = Vec::new();
            push_str(&mut v, "No page with target ID: ");
            push_str(&mut v, tid);
            Err(string_from_chars(v.as_slice()))
        },
        None => {
            let idx = match page {
                Some(p) => p,
                None => 0,
            };
            if idx < pages.len() {
                Ok(pages.remove(idx))
            } else {
                let mut v: Vec<char> = Vec::new();
                push_str(&mut v, "No page at index ");
                let d = u64_dec(idx as u64);
                push_all(&mut v, d.as_slice());
                proof {
                    assert(v@ =~= "No page at index "@ + dec(idx as nat));
                }
                Err(string_from_chars(v.as_slice()))
            }
        },
    }
}

// ---------------------------------------------------------------------
// Event buffers
// ---------------------------------------------------------------------

/// The most events kept in the general buffer.
pub const MAX_BUFFERED_EVENTS: usize = 1000;

/// The most events kept in each persistent-session buffer.
pub const MAX_PERSISTENT_EVENTS: usize = 5000;

/// The last `cap` elements of `s` (all of them when there are fewer).
pub open spec fn last_n<T>(s: Seq<T>, cap: nat) -> Seq<T> {
    if s.len() > cap {
        s.skip(s.len() - cap)
    } else {
        s
    }
}

/// Appends `event`, dropping the oldest event when the buffer would exceed
/// `cap`.
pub fn push_capped<T>(events: &mut VecDeque<T>, event: T, cap: usize)
    requires
        cap > 0,
        old(events)@.len() <= cap,
    ensures
        final(events)@ == last_n(old(events)@.push(event), cap as nat),
        final(events)@.len() <= cap,
{
    events.push_back(event);
    if events.len() > cap {
        let _ = events.pop_front();
    }
    proof {
        assert(final(events)@ =~= last_n(old(events)@.push(event), cap as nat));
    }
}

/// Appends to the general event buffer (capped at `MAX_BUFFERED_EVENTS`).
pub fn push_to_buffer<T>(events: &mut VecDeque<T>, event: T)
    requires
        old(events)@.len() <= MAX_BUFFERED_EVENTS,
    ensures
        final(events)@ == last_n(old(events)@.push(event), MAX_BUFFERED_EVENTS as nat),
        final(events)@.len() <= MAX_BUFFERED_EVENTS,
{
    push_capped(events, event, MAX_BUFFERED_EVENTS);
}

/// A capped buffer always holds the last `cap` events pushed into it:
/// pushing onto the last `cap` events of a history gives the last `cap`
/// events of the longer history.
pub proof fn lemma_capped_buffer_keeps_latest<T>(history: Seq<T>, event: T, cap: nat)
    requires
        cap > 0,
    ensures
        last_n(last_n(history, cap).push(event), cap) == last_n(history.push(event), cap),
{
    assert(last_n(last_n(history, cap).push(event), cap) =~= last_n(history.push(event), cap));
}

/// Where an event goes: a persistent-session network or console event to
/// its own buffer, anything else to the general buffer.
#[derive(Clone, Copy, Debug, PartialEq, Eq, Structural)]
pub enum EventRoute {
    Network,
    Console,
    General,
}

pub open spec fn route_spec(persistent: Option<Seq<char>>, session: Option<Seq<char>>, method: Seq<char>) -> EventRoute {
    if persistent is Some && session == persistent {
        if method == "Network.requestWillBeSent"@ || method == "Network.responseReceived"@ || method
            == "Network.loadingFinished"@ || method == "Network.loadingFailed"@ {
            EventRoute::Network
        } else if method == "Runtime.consoleAPICalled"@ || method == "Runtime.exceptionThrown"@ {
            EventRoute::Console
        } else {
            EventRoute::General
        }
    } else {
        EventRoute::General
    }
}

/// The view of an optional string slice.
pub open spec fn opt_view(o: Option<&str>) -> Option<Seq<char>> {
    match o {
        Some(s) => Some(s@),
        None => None,
    }
}

/// See `route_spec`: only events tagged with the persistent session's id
/// reach its buffers, so an ad-hoc session's logs never mix into a page's.
pub fn route_event(persistent: Option<&str>, session: Option<&str>, method: &str) -> (r: EventRoute)
    ensures
        r == route_spec(opt_view(persistent), opt_view(session), method@),
{
    let ours = match (persistent, session) {
        (Some(p), Some(s)) => str_eq(p, s),
        _ => false,
    };
    if !ours {
        return EventRoute::General;
    }
    if str_eq(method, "Network.requestWillBeSent") || str_eq(method, "Network.responseReceived") || str_eq(
        method,
        "Network.loadingFinished",
    ) || str_eq(method, "Network.loadingFailed") {
        EventRoute::Network
    } else if str_eq(method, "Runtime.consoleAPICalled") || str_eq(method, "Runtime.exceptionThrown") {
        EventRoute::Console
    } else {
        EventRoute::General
    }
}

/// The three event buffers of a client.
pub struct EventBuffers<T> {
    pub events: VecDeque<T>,
    pub network_events: VecDeque<T>,
    pub console_events: VecDeque<T>,
}

impl<T> EventBuffers<T> {
    /// Each buffer is within its cap.
    pub open spec fn wf(&self) -> bool {
        &&& self.events@.len() <= MAX_BUFFERED_EVENTS
        &&& self.network_events@.len() <= MAX_PERSISTENT_EVENTS
        &&& self.console_events@.len() <= MAX_PERSISTENT_EVENTS
    }

    pub fn new() -> (r: Self)
        ensures
            r.wf(),
            r.events@.len() == 0,
            r.network_events@.len() == 0,
            r.console_events@.len() == 0,
    {
        EventBuffers { events: VecDeque::new(), network_events: VecDeque::new(), console_events: VecDeque::new() }
    }

    /// Files `event` where `route` says.
    pub fn push_event(&mut self, route: EventRoute, event: T)
        requires
            old(self).wf(),
        ensures
            final(self).wf(),
            final(self).events@ == (if route == EventRoute::General {
                last_n(old(self).events@.push(event), MAX_BUFFERED_EVENTS as nat)
            } else {
                old(self).events@
            }),
            final(self).network_events@ == (if route == EventRoute::Network {
                last_n(old(self).network_events@.push(event), MAX_PERSISTENT_EVENTS as nat)
            } else {
                old(self).network_events@
            }),
            final(self).console_events@ == (if route == EventRoute::Console {
                last_n(old(self).console_events@.push(event), MAX_PERSISTENT_EVENTS as nat)
            } else {
                old(self).console_events@
            }),
    {
        match route {
            EventRoute::Network => push_capped(&mut self.network_events, event, MAX_PERSISTENT_EVENTS),
            EventRoute::Console => push_capped(&mut self.console_events, event, MAX_PERSISTENT_EVENTS),
            EventRoute::General => push_capped(&mut self.events, event, MAX_BUFFERED_EVENTS),
        }
    }
}

/// While collecting events for a duration, an event not from the
/// persistent session is kept in the general buffer only when it is
/// neither a network nor a runtime event (those are returned directly, and
/// buffering them too would report them twice).
pub fn keeps_collected_event(from_persistent: bool, method: &str) -> (b: bool)
    ensures
        b == (from_persistent || !(starts_with(method@, "Network."@) || starts_with(method@, "Runtime."@))),
{
    if from_persistent {
        return true;
    }
    let m = crate::text::chars_of(method);
    let n = crate::text::chars_of("Network.");
    let r = crate::text::chars_of("Runtime.");
    !(starts_with_chars(m.as_slice(), n.as_slice()) || starts_with_chars(m.as_slice(), r.as_slice()))
}

// ---------------------------------------------------------------------
// Per-tab emulation
// ---------------------------------------------------------------------

/// A tab's overrides: blocked URL patterns, and a viewport and a
/// geolocation override of the caller's types.
pub struct TabEmulation<V, G> {
    pub blocklist: Vec<String>,
    pub viewport: Option<V>,
    pub geolocation: Option<G>,
}

/// What the tab state amounts to.
pub open spec fn tab_view<V, G>(t: TabEmulation<V, G>) -> (Seq<Seq<char>>, Option<V>, Option<G>) {
    (t.blocklist@.map_values(|s: String| s@), t.viewport, t.geolocation)
}

/// A tab with no overrides.
pub open spec fn empty_tab<V, G>() -> (Seq<Seq<char>>, Option<V>, Option<G>) {
    (Seq::empty(), None, None)
}

impl<V, G> TabEmulation<V, G> {
    pub fn empty() -> (r: Self)
        ensures
            tab_view(r) == empty_tab::<V, G>(),
    {
        let r = TabEmulation { blocklist: Vec::new(), viewport: None, geolocation: None };
        proof {
            assert(tab_view(r).0 =~= Seq::<Seq<char>>::empty());
        }
        r
    }

    /// Whether the tab has no overrides.
    pub fn is_empty(&self) -> (b: bool)
        ensures
            b == (tab_view(*self) == empty_tab::<V, G>()),
    {
        let b = self.blocklist.len() == 0 && self.viewport.is_none() && self.geolocation.is_none();
        proof {
            assert(tab_view(*self).0.len() == self.blocklist@.len());
            if b {
                assert(tab_view(*self).0 =~= Seq::<Seq<char>>::empty());
            }
        }
        b
    }
}

/// The saved state of the tabs that are not active, by target id.
pub struct TabStore<V, G> {
    entries: Vec<(String, TabEmulation<V, G>)>,
}

impl<V, G> TabStore<V, G> {
    /// Target ids are distinct.
    pub closed spec fn wf(&self) -> bool {
        forall|i: int, j: int|
            0 <= i < j < self.entries@.len() ==> (#[trigger] self.entries@[i]).0@ != (
            #[trigger] self.entries@[j]).0@
    }

    /// The saved state of each target.
    pub closed spec fn view(&self) -> Map<Seq<char>, (Seq<Seq<char>>, Option<V>, Option<G>)> {
        Map::new(
            |k: Seq<char>| exists|i: int| 0 <= i < self.entries@.len() && self.entries@[i].0@ == k,
            |k: Seq<char>|
                tab_view(
                    self.entries@[choose|i: int| 0 <= i < self.entries@.len() && self.entries@[i].0@ == k].1,
                ),
        )
    }

    pub fn new() -> (r: Self)
        ensures
            r.wf(),
            r.view() == Map::<Seq<char>, (Seq<Seq<char>>, Option<V>, Option<G>)>::empty(),
    {
        let r = TabStore { entries: Vec::new() };
        proof {
            assert(r.view() =~= Map::<Seq<char>, (Seq<Seq<char>>, Option<V>, Option<G>)>::empty());
        }
        r
    }

    /// The position of `target`'s entry.
    fn position(&self, target: &str) -> (r: Option<usize>)
        requires
            self.wf(),
        ensures
            match r {
                Some(i) => i < self.entries@.len() && self.entries@[i as int].0@ == target@,
                None => forall|i: int| 0 <= i < self.entries@.len() ==> self.entries@[i].0@ != target@,
            },
    {
        let mut i: usize = 0;
        while i < self.entries.len()
            invariant
                0 <= i <= self.entries@.len(),
                forall|j: int| 0 <= j < i ==> self.entries@[j].0@ != target@,
            decreases self.entries@.len() - i,
        {
            if str_eq(self.entries[i].0.as_str(), target) {
                return Some(i);
            }
            i = i + 1;
        }
        None
    }

    proof fn lemma_view_at(&self, i: int)
        requires
            self.wf(),
            0 <= i < self.entries@.len(),
        ensures
            self.view().contains_key(self.entries@[i].0@),
            self.view()[self.entries@[i].0@] == tab_view(self.entries@[i].1),
    {
        let k = self.entries@[i].0@;
        let w = choose|w: int| 0 <= w < self.entries@.len() && self.entries@[w].0@ == k;
        if w != i {
            if w < i {
                assert(self.entries@[w].0@ != self.entries@[i].0@);
            } else {
                assert(self.entries@[i].0@ != self.entries@[w].0@);
            }
        }
    }

    /// Whether `target` has saved state.
    pub fn contains(&self, target: &str) -> (b: bool)
        requires
            self.wf(),
        ensures
            b == self.view().contains_key(target@),
    {
        match self.position(target) {
            Some(i) => {
                proof {
                    self.lemma_view_at(i as int);
                }
                true
            },
            None => false,
        }
    }

    /// Takes `target`'s saved state out of the store (an empty state when
    /// it has none).
    pub fn take(&mut self, target: &str) -> (r: TabEmulation<V, G>)
        requires
            old(self).wf(),
        ensures
            final(self).wf(),
            final(self).view() == old(self).view().remove(target@),
            tab_view(r) == (if old(self).view().contains_key(target@) {
                old(self).view()[target@]
            } else {
                empty_tab::<V, G>()
            }),
    {
        match self.position(target) {
            Some(i) => {
                proof {
                    old(self).lemma_view_at(i as int);
                }
                let (_, state) = self.entries.remove(i);
                proof {
                    assert forall|a: int, b: int|
                        0 <= a < b < self.entries@.len() implies (#[trigger] self.entries@[a]).0@ != (
                        #[trigger] self.entries@[b]).0@ by {
                        let oa = if a < i { a } else { a + 1 };
                        let ob = if b < i { b } else { b + 1 };
                        assert(self.entries@[a] == old(self).entries@[oa]);
                        assert(self.entries@[b] == old(self).entries@[ob]);
                    }
                    assert forall|k: Seq<char>| #[trigger] self.view().contains_key(k) implies old(self).view().remove(target@).contains_key(k) && self.view()[k] == old(self).view().remove(target@)[k] by {
                        let w = choose|w: int| 0 <= w < self.entries@.len() && self.entries@[w].0@ == k;
                        let ow = if w < i { w } else { w + 1 };
                        assert(self.entries@[w] == old(self).entries@[ow]);
                        self.lemma_view_at(w);
                        old(self).lemma_view_at(ow);
                        if k == target@ {
                            assert(old(self).entries@[ow].0@ != old(self).entries@[i as int].0@) by {
                                if ow < i {
                                } else {
                                }
                            }
                        }
                    }
                    assert forall|k: Seq<char>| #[trigger] old(self).view().remove(target@).contains_key(k) implies self.view().contains_key(k) by {
                        let ow = choose|w: int| 0 <= w < old(self).entries@.len() && old(self).entries@[w].0@ == k;
                        assert(ow != i);
                        let w = if ow < i { ow } else { ow - 1 };
                        assert(self.entries@[w] == old(self).entries@[ow]);
                    }
                    assert(self.view() =~= old(self).view().remove(target@));
                }
                state
            },
            None => {
                proof {
                    assert(!old(self).view().contains_key(target@));
                    assert(self.view() =~= old(self).view().remove(target@));
                }
                TabEmulation::empty()
            },
        }
    }

    /// Saves `state` for `target`, replacing what was saved; an empty state
    /// is not saved (and `target`'s entry is left as it was).
    pub fn stash(&mut self, target: String, state: TabEmulation<V, G>)
        requires
            old(self).wf(),
        ensures
            final(self).wf(),
            final(self).view() == (if tab_view(state) == empty_tab::<V, G>() {
                old(self).view()
            } else {
                old(self).view().insert(target@, tab_view(state))
            }),
    {
        if state.is_empty() {
            return;
        }
        let ghost tv = tab_view(state);
        let ghost key = target@;
        let _ = self.take(target.as_str());
        let ghost mid = self.view();
        proof {
            assert(!mid.contains_key(key));
            assert forall|i: int| 0 <= i < self.entries@.len() implies self.entries@[i].0@ != key by {
                self.lemma_view_at(i);
            }
        }
        let ghost pre = self.entries@;
        let ghost before_self = *self;
        self.entries.push((target, state));
        proof {
            let n = self.entries@.len() - 1;
            assert forall|a: int, b: int|
                0 <= a < b < self.entries@.len() implies (#[trigger] self.entries@[a]).0@ != (
                #[trigger] self.entries@[b]).0@ by {
                if b == n {
                } else {
                }
            }
            self.lemma_view_at(n);
            assert forall|k: Seq<char>| #[trigger] self.view().contains_key(k) implies mid.insert(key, tv).contains_key(k) && self.view()[k] == mid.insert(key, tv)[k] by {
                let w = choose|w: int| 0 <= w < self.entries@.len() && self.entries@[w].0@ == k;
                self.lemma_view_at(w);
                if w < n {
                    assert(self.entries@[w] == pre[w]);
                    before_self.lemma_view_at(w);
                }
            }
            assert forall|k: Seq<char>| #[trigger] mid.insert(key, tv).contains_key(k) implies self.view().contains_key(k) by {
                if k == key {
                    assert(self.entries@[n].0@ == k);
                } else {
                    let w = choose|w: int| 0 <= w < pre.len() && pre[w].0@ == k;
                    assert(self.entries@[w] == pre[w]);
                }
            }
            assert(self.view() =~= old(self).view().remove(key).insert(key, tv));
        }
    }
}

/// The active tab and its overrides, and the saved state of the others.
pub struct TabState<V, G> {
    pub active_target: Option<String>,
    pub active: TabEmulation<V, G>,
    pub saved: TabStore<V, G>,
}

pub open spec fn opt_string(o: Option<String>) -> Option<Seq<char>> {
    match o {
        Some(s) => Some(s@),
        None => None,
    }
}

/// The saved states after leaving tab `target` (if any) with overrides
/// `state`: an empty state is not saved.
pub open spec fn stashed_view<V, G>(
    saved: Map<Seq<char>, (Seq<Seq<char>>, Option<V>, Option<G>)>,
    target: Option<Seq<char>>,
    state: (Seq<Seq<char>>, Option<V>, Option<G>),
) -> Map<Seq<char>, (Seq<Seq<char>>, Option<V>, Option<G>)> {
    match target {
        Some(t) => if state == empty_tab::<V, G>() {
            saved
        } else {
            saved.insert(t, state)
        },
        None => saved,
    }
}

impl<V, G> TabState<V, G> {
    /// The store is well formed, and the active tab has no saved entry: its
    /// overrides live in `active` alone.
    pub open spec fn wf(&self) -> bool {
        &&& self.saved.wf()
        &&& (self.active_target matches Some(t) ==> !self.saved.view().contains_key(t@))
    }

    /// Leaves the active tab: its overrides are saved under its id (unless
    /// empty), and no tab is active.
    pub fn leave_active(&mut self)
        requires
            old(self).wf(),
        ensures
            final(self).wf(),
            final(self).active_target is None,
            tab_view(final(self).active) == empty_tab::<V, G>(),
            final(self).saved.view() == stashed_view(
                old(self).saved.view(),
                opt_string(old(self).active_target),
                tab_view(old(self).active),
            ),
    {
        let mut outgoing = TabEmulation::empty();
        std::mem::swap(&mut outgoing, &mut self.active);
        match self.active_target.take() {
            Some(t) => self.saved.stash(t, outgoing),
            None => {},
        }
    }

    pub fn new() -> (r: Self)
        ensures
            r.wf(),
            r.active_target is None,
            tab_view(r.active) == empty_tab::<V, G>(),
            r.saved.view() == Map::<Seq<char>, (Seq<Seq<char>>, Option<V>, Option<G>)>::empty(),
    {
        TabState { active_target: None, active: TabEmulation::empty(), saved: TabStore::new() }
    }

    /// Makes `target` the active tab: the outgoing tab's overrides are
    /// saved under its id (unless empty), and `target`'s saved overrides
    /// (none for a fresh tab) become the active ones and leave the store.
    pub fn switch_to(&mut self, target: &str)
        requires
            old(self).wf(),
        ensures
            final(self).wf(),
            opt_string(final(self).active_target) == Some(target@),
            ({
                let stashed = match old(self).active_target {
                    Some(t) => if tab_view(old(self).active) == empty_tab::<V, G>() {
                        old(self).saved.view()
                    } else {
                        old(self).saved.view().insert(t@, tab_view(old(self).active))
                    },
                    None => old(self).saved.view(),
                };
                &&& tab_view(final(self).active) == (if stashed.contains_key(target@) {
                    stashed[target@]
                } else {
                    empty_tab::<V, G>()
                })
                &&& final(self).saved.view() == stashed.remove(target@)
            }),
    {
        let mut outgoing = TabEmulation::empty();
        std::mem::swap(&mut outgoing, &mut self.active);
        match self.active_target.take() {
            Some(t) => self.saved.stash(t, outgoing),
            None => {},
        }
        self.active = self.saved.take(target);
        self.active_target = Some(owned(target));
    }

    /// Forgets `target` (its tab closed): its saved state goes, and if it
    /// is the active tab, the active overrides are cleared and no tab is
    /// active.
    pub fn forget_target(&mut self, target: &str)
        requires
            old(self).wf(),
        ensures
            final(self).wf(),
            final(self).saved.view() == old(self).saved.view().remove(target@),
            opt_string(old(self).active_target) == Some(target@) ==> final(self).active_target is None
                && tab_view(final(self).active) == empty_tab::<V, G>(),
            opt_string(old(self).active_target) != Some(target@) ==> opt_string(final(self).active_target)
                == opt_string(old(self).active_target) && tab_view(final(self).active) == tab_view(
                old(self).active,
            ),
    {
        let _ = self.saved.take(target);
        let is_active = match &self.active_target {
            Some(t) => str_eq(t.as_str(), target),
            None => false,
        };
        if is_active {
            self.active = TabEmulation::empty();
            self.active_target = None;
        }
    }
}

/// Before the persistent session moves to page `target`: unless it is
/// already attached there (`has_session` and `target` the active tab), the
/// persistent session's buffered network and console events are dropped
/// and the active tab is left (see `TabState::leave_active`). Returns
/// whether the session is moving.
pub fn begin_session_switch<T, V, G>(
    tabs: &mut TabState<V, G>,
    buffers: &mut EventBuffers<T>,
    has_session: bool,
    target: &str,
) -> (switching: bool)
    requires
        old(tabs).wf(),
        old(buffers).wf(),
    ensures
        final(tabs).wf(),
        final(buffers).wf(),
        switching <==> !(has_session && opt_string(old(tabs).active_target) == Some(target@)),
        !switching ==> *final(tabs) == *old(tabs) && *final(buffers) == *old(buffers),
        switching ==> {
            &&& final(buffers).network_events@.len() == 0
            &&& final(buffers).console_events@.len() == 0
            &&& final(buffers).events@ == old(buffers).events@
            &&& final(tabs).active_target is None
            &&& tab_view(final(tabs).active) == empty_tab::<V, G>()
            &&& final(tabs).saved.view() == stashed_view(
                old(tabs).saved.view(),
                opt_string(old(tabs).active_target),
                tab_view(old(tabs).active),
            )
        },
{
    let on_target = match &tabs.active_target {
        Some(t) => str_eq(t.as_str(), target),
        None => false,
    };
    if has_session && on_target {
        return false;
    }
    buffers.network_events.clear();
    buffers.console_events.clear();
    tabs.leave_active();
    true
}

/// Moving the persistent session from page `a` (with overrides `state`, and,
/// as `TabState::wf` keeps, no saved entry) to another page `b` and then
/// loading `b`: `b` gets exactly the overrides saved for it (none for a
/// fresh page), `a`'s overrides are saved for it unless empty (and `a` has
/// no entry otherwise), and `b` no longer has a saved entry.
pub proof fn lemma_session_switch<V, G>(
    saved: Map<Seq<char>, (Seq<Seq<char>>, Option<V>, Option<G>)>,
    a: Seq<char>,
    state: (Seq<Seq<char>>, Option<V>, Option<G>),
    b: Seq<char>,
)
    requires
        a != b,
        !saved.contains_key(a),
    ensures
        ({
            // leaving `a`
            let left = stashed_view(saved, Some(a), state);
            // entering `b` with no tab active (`TabState::switch_to`)
            let active = if left.contains_key(b) {
                left[b]
            } else {
                empty_tab::<V, G>()
            };
            let after = left.remove(b);
            &&& active == (if saved.contains_key(b) {
                saved[b]
            } else {
                empty_tab::<V, G>()
            })
            &&& !after.contains_key(b)
            &&& (state != empty_tab::<V, G>() ==> after.contains_key(a) && after[a] == state)
            &&& (state == empty_tab::<V, G>() ==> !after.contains_key(a) && after == saved.remove(b))
        }),
{
    let left = stashed_view(saved, Some(a), state);
    if state == empty_tab::<V, G>() {
        assert(left == saved);
    } else {
        assert(left == saved.insert(a, state));
    }
}

/// Switching away from a tab and back restores exactly the overrides it
/// had, whatever tab was visited in between.
pub proof fn lemma_switch_back_restores<V, G>(
    saved: Map<Seq<char>, (Seq<Seq<char>>, Option<V>, Option<G>)>,
    a: Seq<char>,
    state: (Seq<Seq<char>>, Option<V>, Option<G>),
    b: Seq<char>,
    b_state: (Seq<Seq<char>>, Option<V>, Option<G>),
)
    requires
        a != b,
        !saved.contains_key(a),
        b_state == (if saved.contains_key(b) {
            saved[b]
        } else {
            empty_tab::<V, G>()
        }),
    ensures
        ({
            // leaving `a` (active with `state`) for `b`
            let s1 = (if state == empty_tab::<V, G>() {
                saved
            } else {
                saved.insert(a, state)
            }).remove(b);
            // leaving `b` (active with `b_state`) for `a`
            let s2 = if b_state == empty_tab::<V, G>() {
                s1
            } else {
                s1.insert(b, b_state)
            };
            &&& (if s2.contains_key(a) {
                s2[a]
            } else {
                empty_tab::<V, G>()
            }) == state
            &&& s2.remove(a) == (if b_state == empty_tab::<V, G>() {
                saved.remove(b)
            } else {
                saved.insert(b, b_state)
            })
        }),
{
    let s0 = if state == empty_tab::<V, G>() {
        saved
    } else {
        saved.insert(a, state)
    };
    let s1 = s0.remove(b);
    let s2 = if b_state == empty_tab::<V, G>() {
        s1
    } else {
        s1.insert(b, b_state)
    };
    assert(s2.remove(a) =~= (if b_state == empty_tab::<V, G>() {
        saved.remove(b)
    } else {
        saved.insert(b, b_state)
    }));
}

} // verus!

//! Which subscriptions have a dispatcher.
//!
//! From time to time the running dispatchers are held against the subscriptions' push
//! configurations, and those that differ are started, stopped or started anew. Nothing happens when
//! nothing changed, and a dispatcher that ended by itself is started again.

use crate::id_map::IdMap;
use crate::listing;
use crate::push::dispatcher::{DispatcherSettings, SettingsView};
use crate::subscription;
use crate::subscription::{PushConfig, PushConfigView, SubscriptionRecord, SubscriptionView};
use crate::text;
use vstd::prelude::*;
use vstd::string::*;

verus! {

/// One thing to do so that the running dispatchers match the configurations.
#[derive(Debug)]
pub enum Change {
    /// Stop the dispatcher of the subscription with this id, and wait until it has ended.
    Stop(u64),
    /// Start a dispatcher.
    Start(DispatcherSettings),
}

/// What a [`Change`] holds.
pub enum ChangeView {
    Stop(u64),
    Start(SettingsView),
}

impl View for Change {
    type V = ChangeView;

    open spec fn view(&self) -> ChangeView {
        match self {
            Change::Stop(id) => ChangeView::Stop(*id),
            Change::Start(settings) => ChangeView::Start(settings@),
        }
    }
}

/// The dispatchers that run, by the id of their subscription, with the configuration that each was
/// started with, and what every dispatcher is started with.
pub struct ManagerView {
    pub running: Map<u64, PushConfigView>,
    pub push_timeout_secs: u64,
    pub push_max_concurrency_per_sub: u32,
}

/// What the dispatcher of a subscription is started with.
pub open spec fn settings_for(m: ManagerView, sub: SubscriptionView) -> SettingsView {
    SettingsView {
        subscription: sub.name,
        sub_id: sub.id,
        ack_deadline_secs: sub.ack_deadline_secs,
        min_retry_backoff_secs: sub.min_retry_backoff_secs,
        max_retry_backoff_secs: sub.max_retry_backoff_secs,
        dead_letter_configured: sub.dead_letter_topic is Some,
        push_config: sub.push_config->Some_0,
        push_timeout_secs: m.push_timeout_secs,
        max_concurrency: m.push_max_concurrency_per_sub,
    }
}

/// The dispatcher of a subscription runs as its configuration wants it, or does not run where there
/// is none.
pub open spec fn is_settled(running: Map<u64, PushConfigView>, sub: SubscriptionView) -> bool {
    match sub.push_config {
        Some(config) => running.contains_key(sub.id) && running[sub.id] == config,
        None => !running.contains_key(sub.id),
    }
}

/// The dispatchers that run once that of `sub` is as it should be.
pub open spec fn settled(running: Map<u64, PushConfigView>, sub: SubscriptionView) -> Map<
    u64,
    PushConfigView,
> {
    match sub.push_config {
        Some(config) => running.insert(sub.id, config),
        None => running.remove(sub.id),
    }
}

/// What has to be done for `sub`: a dispatcher that is not as it should be is stopped, and one is
/// started where there is a configuration.
pub open spec fn changes_for(m: ManagerView, sub: SubscriptionView) -> Seq<ChangeView> {
    if is_settled(m.running, sub) {
        Seq::empty()
    } else {
        let stop = if m.running.contains_key(sub.id) {
            seq![ChangeView::Stop(sub.id)]
        } else {
            Seq::empty()
        };
        let start = if sub.push_config is Some {
            seq![ChangeView::Start(settings_for(m, sub))]
        } else {
            Seq::empty()
        };
        stop + start
    }
}

/// The dispatchers that run once those of the first `n` subscriptions are as they should be.
pub open spec fn settled_all(
    running: Map<u64, PushConfigView>,
    subs: Seq<SubscriptionView>,
    n: int,
) -> Map<u64, PushConfigView>
    decreases n,
{
    if n <= 0 {
        running
    } else {
        settled(settled_all(running, subs, n - 1), subs[n - 1])
    }
}

/// What has to be done for the first `n` subscriptions.
pub open spec fn changes_for_all(m: ManagerView, subs: Seq<SubscriptionView>, n: int) -> Seq<
    ChangeView,
>
    decreases n,
{
    if n <= 0 {
        Seq::empty()
    } else {
        changes_for_all(m, subs, n - 1) + changes_for(
            ManagerView { running: settled_all(m.running, subs, n - 1), ..m },
            subs[n - 1],
        )
    }
}

/// One of the subscriptions has this id.
pub open spec fn has_id(subs: Seq<SubscriptionView>, id: u64) -> bool {
    exists|i: int| 0 <= i < subs.len() && (#[trigger] subs[i]).id == id
}

/// The stops of the dispatchers of these subscriptions.
pub open spec fn stops(ids: Seq<u64>) -> Seq<ChangeView> {
    ids.map_values(|id: u64| ChangeView::Stop(id))
}

/// The dispatchers that run after the running ones were held against the subscriptions: those of
/// subscriptions that are gone are stopped.
pub open spec fn reconciled(running: Map<u64, PushConfigView>, subs: Seq<SubscriptionView>) -> Map<
    u64,
    PushConfigView,
> {
    let settled = settled_all(running, subs, subs.len() as int);
    settled.restrict(Set::new(|id: u64| has_id(subs, id)))
}

/// `changes` are what has to be done so that the running dispatchers match the subscriptions: first
/// those for the subscriptions, in their order, then the stops of those that are gone, in any order.
pub open spec fn is_plan(
    m: ManagerView,
    subs: Seq<SubscriptionView>,
    gone: Seq<u64>,
    changes: Seq<ChangeView>,
) -> bool {
    &&& changes == changes_for_all(m, subs, subs.len() as int) + stops(gone)
    &&& gone.no_duplicates()
    &&& forall|id: u64| #[trigger]
        gone.contains(id) <==> settled_all(m.running, subs, subs.len() as int).contains_key(id)
            && !has_id(subs, id)
}

/// Owns the knowledge of which dispatchers run.
#[derive(Debug)]
pub struct PushManager {
    entries: IdMap<PushConfig>,
    push_timeout_secs: u64,
    push_max_concurrency_per_sub: u32,
}

impl View for PushManager {
    type V = ManagerView;

    closed spec fn view(&self) -> ManagerView {
        ManagerView {
            running: self.entries@.map_values(|c: PushConfig| c@),
            push_timeout_secs: self.push_timeout_secs,
            push_max_concurrency_per_sub: self.push_max_concurrency_per_sub,
        }
    }
}

fn same_config(a: &PushConfig, b: &PushConfig) -> (r: bool)
    ensures
        r == (a@ == b@),
{
    text::str_equal(a.endpoint.as_str(), b.endpoint.as_str()) && a.no_wrapper == b.no_wrapper
        && a.write_metadata == b.write_metadata
}

impl PushManager {
    /// Manages no dispatcher yet.
    pub fn new(push_timeout_secs: u64, push_max_concurrency_per_sub: u32) -> (r: Self)
        ensures
            r@ == (ManagerView {
                running: Map::empty(),
                push_timeout_secs,
                push_max_concurrency_per_sub,
            }),
    {
        let r = PushManager {
            entries: IdMap::new(),
            push_timeout_secs,
            push_max_concurrency_per_sub,
        };
        assert(r@.running =~= Map::empty());
        r
    }

    fn forget(&mut self, ids: &Vec<u64>)
        ensures
            final(self)@ == (ManagerView {
                running: old(self)@.running.remove_keys(ids@.to_set()),
                ..old(self)@
            }),
    {
        let mut i: usize = 0;
        assert(self@.running =~= old(self)@.running.remove_keys(ids@.take(0).to_set()));
        while i < ids.len()
            invariant
                i <= ids.len(),
                self@ == (ManagerView {
                    running: old(self)@.running.remove_keys(ids@.take(i as int).to_set()),
                    ..old(self)@
                }),
            decreases ids.len() - i,
        {
            let ghost before = self@.running;
            let _ = self.entries.remove(ids[i]);
            proof {
                let now = ids@.take(i + 1);
                assert(now =~= ids@.take(i as int).push(ids@[i as int]));
                assert(self@.running =~= before.remove(ids@[i as int]));
                assert forall|id: u64| #[trigger]
                    now.to_set().contains(id) <==> ids@.take(i as int).to_set().contains(id) || id
                        == ids@[i as int] by {
                    if ids@.take(i as int).contains(id) {
                        let k = choose|k: int|
                            0 <= k < i && #[trigger] ids@.take(i as int)[k] == id;
                        assert(now[k] == id);
                    }
                    assert(now[i as int] == ids@[i as int]);
                }
                assert(self@.running =~= old(self)@.running.remove_keys(now.to_set()));
            }
            i = i + 1;
        }
        assert(ids@.take(i as int) =~= ids@);
    }

    fn settle(&mut self, sub: &SubscriptionRecord, changes: &mut Vec<Change>)
        ensures
            final(self)@ == (ManagerView {
                running: settled(old(self)@.running, sub@),
                ..old(self)@
            }),
            listing::views(final(changes)@) == listing::views(old(changes)@) + changes_for(
                old(self)@,
                sub@,
            ),
    {
        let ghost before = self@;
        let ghost listed = listing::views(changes@);
        let (settled_already, runs) = match (&sub.push_config, self.entries.get(sub.id)) {
            (Some(config), Some(running)) => (same_config(config, running), true),
            (Some(_), None) => (false, false),
            (None, Some(_)) => (false, true),
            (None, None) => (true, false),
        };
        assert(runs == before.running.contains_key(sub.id));
        assert(settled_already == is_settled(before.running, sub@));
        if settled_already {
            assert(self@.running =~= settled(before.running, sub@));
            assert(listed + Seq::<ChangeView>::empty() =~= listed);
            return;
        }
        if runs {
            let _ = self.entries.remove(sub.id);
            changes.push(Change::Stop(sub.id));
            assert(listing::views(changes@) =~= listed.push(ChangeView::Stop(sub.id)));
        }
        assert(self@.running =~= before.running.remove(sub.id));
        let ghost stopped = listing::views(changes@);
        if let Some(config) = &sub.push_config {
            let settings = DispatcherSettings {
                subscription: sub.name.clone(),
                sub_id: sub.id,
                ack_deadline_secs: sub.ack_deadline_secs,
                min_retry_backoff_secs: sub.min_retry_backoff_secs,
                max_retry_backoff_secs: sub.max_retry_backoff_secs,
                dead_letter_configured: sub.dead_letter_topic.is_some(),
                push_config: config.clone(),
                push_timeout_secs: self.push_timeout_secs,
                max_concurrency: self.push_max_concurrency_per_sub,
            };
            assert(settings@ == settings_for(before, sub@));
            changes.push(Change::Start(settings));
            assert(listing::views(changes@) =~= stopped.push(
                ChangeView::Start(settings_for(before, sub@)),
            ));
            self.entries.insert(sub.id, config.clone());
            assert(self@.running =~= settled(before.running, sub@));
        }
        assert(listing::views(changes@) =~= listed + changes_for(before, sub@));
    }

    /// Holds the running dispatchers against the subscriptions and returns what has to be done so
    /// that they match; the manager takes it as done. The dispatchers of the subscriptions in
    /// `finished` have ended by themselves and count as not running.
    pub fn reconcile(&mut self, subs: &Vec<SubscriptionRecord>, finished: &Vec<u64>) -> (changes:
        Vec<Change>)
        ensures
            ({
                let m = ManagerView {
                    running: old(self)@.running.remove_keys(finished@.to_set()),
                    ..old(self)@
                };
                &&& final(self)@ == (ManagerView {
                    running: reconciled(m.running, listing::views(subs@)),
                    ..m
                })
                &&& exists|gone: Seq<u64>| #[trigger]
                    is_plan(m, listing::views(subs@), gone, listing::views(changes@))
            }),
    {
        self.forget(finished);
        let ghost m = self@;
        let ghost all = listing::views(subs@);
        let mut changes: Vec<Change> = Vec::new();
        let mut i: usize = 0;
        assert(listing::views(changes@) =~= Seq::<ChangeView>::empty());
        while i < subs.len()
            invariant
                i <= subs.len(),
                all == listing::views(subs@),
                self@ == (ManagerView { running: settled_all(m.running, all, i as int), ..m }),
                listing::views(changes@) == changes_for_all(m, all, i as int),
            decreases subs.len() - i,
        {
            assert(all[i as int] == subs@[i as int]@);
            self.settle(&subs[i], &mut changes);
            i = i + 1;
        }
        let ghost first = listing::views(changes@);
        let ghost after = self@.running;
        let ids = self.entries.ids();
        let ghost mut gone: Seq<u64> = Seq::empty();
        let mut k: usize = 0;
        proof {
            assert(stops(gone) =~= Seq::<ChangeView>::empty());
            assert(first + stops(gone) =~= first);
            assert(gone.no_duplicates());
            assert(after =~= after.remove_keys(gone.to_set()));
        }
        while k < ids.len()
            invariant
                k <= ids.len(),
                all == listing::views(subs@),
                ids@.no_duplicates(),
                forall|id: u64| #[trigger] ids@.contains(id) <==> after.contains_key(id),
                self@ == (ManagerView { running: after.remove_keys(gone.to_set()), ..m }),
                listing::views(changes@) == first + stops(gone),
                gone.no_duplicates(),
                forall|id: u64| #[trigger]
                    gone.contains(id) <==> ids@.take(k as int).contains(id) && !has_id(all, id),
            decreases ids.len() - k,
        {
            let id: u64 = ids[k];
            let ghost listed = listing::views(changes@);
            let ghost was = gone;
            let ghost running = self@.running;
            assert(ids@.take(k + 1) =~= ids@.take(k as int).push(id));
            assert forall|other: u64| #[trigger]
                ids@.take(k + 1).contains(other) <==> ids@.take(k as int).contains(other) || other
                    == id by {
                if ids@.take(k as int).contains(other) {
                    let j = choose|j: int| 0 <= j < k && #[trigger] ids@.take(k as int)[j] == other;
                    assert(ids@.take(k + 1)[j] == other);
                }
                assert(ids@.take(k + 1)[k as int] == id);
            }
            assert(!ids@.take(k as int).contains(id));
            if !is_listed(subs, id) {
                let _ = self.entries.remove(id);
                changes.push(Change::Stop(id));
                proof {
                    assert(!was.contains(id));
                    gone = was.push(id);
                    assert(listing::views(changes@) =~= listed.push(ChangeView::Stop(id)));
                    assert(stops(gone) =~= stops(was).push(ChangeView::Stop(id)));
                    assert(listing::views(changes@) =~= first + stops(gone));
                    assert forall|other: u64| #[trigger]
                        gone.contains(other) <==> was.contains(other) || other == id by {
                        if was.contains(other) {
                            let j = choose|j: int| 0 <= j < was.len() && #[trigger] was[j] == other;
                            assert(gone[j] == other);
                        }
                        assert(gone[was.len() as int] == id);
                    }
                    assert(self@.running =~= running.remove(id));
                    assert(self@.running =~= after.remove_keys(gone.to_set()));
                }
            }
            k = k + 1;
        }
        proof {
            assert(ids@.take(k as int) =~= ids@);
            assert(self@.running =~= reconciled(m.running, all));
            assert(is_plan(m, all, gone, listing::views(changes@)));
        }
        changes
    }

    /// The ids of the subscriptions whose dispatchers run, each of which is to be stopped; none
    /// runs afterwards.
    pub fn shutdown(&mut self) -> (ids: Vec<u64>)
        ensures
            final(self)@ == (ManagerView { running: Map::empty(), ..old(self)@ }),
            ids@.no_duplicates(),
            forall|id: u64| #[trigger]
                ids@.contains(id) <==> old(self)@.running.contains_key(id),
    {
        let ids = self.entries.ids();
        self.entries = IdMap::new();
        assert(self@.running =~= Map::empty());
        ids
    }
}

fn is_listed(subs: &Vec<SubscriptionRecord>, id: u64) -> (r: bool)
    ensures
        r == has_id(listing::views(subs@), id),
{
    let ghost all = listing::views(subs@);
    let mut i: usize = 0;
    while i < subs.len()
        invariant
            i <= subs.len(),
            all == listing::views(subs@),
            forall|j: int| 0 <= j < i ==> (#[trigger] all[j]).id != id,
        decreases subs.len() - i,
    {
        assert(all[i as int] == subs@[i as int]@);
        if subs[i].id == id {
            return true;
        }
        i = i + 1;
    }
    false
}

/// No two of the subscriptions have the same id.
pub open spec fn ids_differ(subs: Seq<SubscriptionView>) -> bool {
    forall|i: int, j: int|
        #![trigger subs[i], subs[j]]
        0 <= i < j < subs.len() ==> subs[i].id != subs[j].id
}

proof fn lemma_settled_all(running: Map<u64, PushConfigView>, subs: Seq<SubscriptionView>, n: int)
    requires
        ids_differ(subs),
        0 <= n <= subs.len(),
    ensures
        forall|i: int|
            0 <= i < n ==> is_settled(settled_all(running, subs, n), #[trigger] subs[i]),
        forall|id: u64|
            (forall|i: int| 0 <= i < n ==> (#[trigger] subs[i]).id != id) ==> (
            #[trigger] settled_all(running, subs, n).contains_key(id) <==> running.contains_key(
                id,
            )) && settled_all(running, subs, n)[id] == running[id],
    decreases n,
{
    if n > 0 {
        lemma_settled_all(running, subs, n - 1);
        let before = settled_all(running, subs, n - 1);
        let last = subs[n - 1];
        let after = settled_all(running, subs, n);
        assert(after == settled(before, last));
        assert forall|i: int| 0 <= i < n implies is_settled(after, #[trigger] subs[i]) by {
            if i < n - 1 {
                assert(subs[i].id != last.id);
                assert(is_settled(before, subs[i]));
            }
        }
        assert forall|id: u64| (forall|i: int| 0 <= i < n ==> (#[trigger] subs[i]).id != id) implies (
        #[trigger] after.contains_key(id) <==> running.contains_key(id)) && after[id]
            == running[id] by {
            assert(subs[n - 1].id != id);
            assert(before.contains_key(id) <==> running.contains_key(id));
        }
    }
}

/// After the running dispatchers were held against the subscriptions, a dispatcher runs for exactly
/// those subscriptions that have a push configuration, with this configuration.
pub proof fn law_reconciling_matches_configurations(
    running: Map<u64, PushConfigView>,
    subs: Seq<SubscriptionView>,
)
    requires
        ids_differ(subs),
    ensures
        forall|i: int|
            0 <= i < subs.len() ==> is_settled(reconciled(running, subs), #[trigger] subs[i]),
        forall|id: u64| #[trigger]
            reconciled(running, subs).contains_key(id) ==> has_id(subs, id),
{
    let n = subs.len() as int;
    lemma_settled_all(running, subs, n);
    assert forall|i: int| 0 <= i < n implies is_settled(
        reconciled(running, subs),
        #[trigger] subs[i],
    ) by {
        assert(is_settled(settled_all(running, subs, n), subs[i]));
        assert(has_id(subs, subs[i].id));
    }
}

proof fn lemma_settled_stays(m: ManagerView, subs: Seq<SubscriptionView>, n: int)
    requires
        forall|i: int| 0 <= i < subs.len() ==> is_settled(m.running, #[trigger] subs[i]),
        0 <= n <= subs.len(),
    ensures
        settled_all(m.running, subs, n) == m.running,
        changes_for_all(m, subs, n) == Seq::<ChangeView>::empty(),
    decreases n,
{
    if n > 0 {
        lemma_settled_stays(m, subs, n - 1);
        assert(is_settled(m.running, subs[n - 1]));
        assert(settled(m.running, subs[n - 1]) =~= m.running);
        assert(Seq::<ChangeView>::empty() + Seq::<ChangeView>::empty() =~= Seq::empty());
    }
}

/// Holding the running dispatchers against the same subscriptions again changes nothing.
pub proof fn law_reconciling_again_does_nothing(
    m: ManagerView,
    subs: Seq<SubscriptionView>,
    gone: Seq<u64>,
    changes: Seq<ChangeView>,
)
    requires
        ids_differ(subs),
        is_plan(
            ManagerView { running: reconciled(m.running, subs), ..m },
            subs,
            gone,
            changes,
        ),
    ensures
        changes == Seq::<ChangeView>::empty(),
        reconciled(reconciled(m.running, subs), subs) == reconciled(m.running, subs),
{
    let n = subs.len() as int;
    let again = ManagerView { running: reconciled(m.running, subs), ..m };
    law_reconciling_matches_configurations(m.running, subs);
    lemma_settled_stays(again, subs, n);
    assert(gone.len() == 0) by {
        if gone.len() > 0 {
            assert(gone.contains(gone[0]));
        }
    }
    assert(stops(gone) =~= Seq::empty());
    assert(changes =~= Seq::empty());
    assert(reconciled(again.running, subs) =~= again.running);
}

/// A dispatcher that ended by itself is started again, as long as its subscription wants one.
pub proof fn law_ended_dispatcher_is_restarted(m: ManagerView, sub: SubscriptionView)
    requires
        sub.push_config is Some,
        !m.running.contains_key(sub.id),
    ensures
        changes_for(m, sub) == seq![ChangeView::Start(settings_for(m, sub))],
{
    assert(changes_for(m, sub) =~= seq![ChangeView::Start(settings_for(m, sub))]);
}

} // verus!

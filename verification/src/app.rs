use std::collections::VecDeque;
use std::sync::mpsc::Receiver;
use vstd::prelude::*;

verus! {

#[verifier::external_type_specification]
#[verifier::external_body]
#[verifier::reject_recursive_types(T)]
pub struct ExReceiver<T>(std::sync::mpsc::Receiver<T>);

/// The views (tabs) of the dashboard.
#[derive(PartialEq, Eq, Structural, Clone, Copy, Debug)]
pub enum Tab {
    Dashboard,
    Privacy,
    SystemInfo,
}

/// Number of telemetry samples that a new dashboard keeps for plotting.
pub const DEFAULT_MAX_HISTORY: usize = 100;

/// The dashboard state: the recent telemetry samples, the latest one, the
/// selected tab and the hardware identifiers, which are collected once.
#[verifier::reject_recursive_types(T)]
pub struct ZinkoApp<T> {
    /// Recent telemetry samples, oldest first.
    pub telemetry_history: VecDeque<T>,
    /// The most recent telemetry sample received from the agent.
    pub last_received: Option<T>,
    /// Maximum number of samples kept in `telemetry_history`.
    pub max_history: usize,
    /// Channel on which the agent thread delivers telemetry samples.
    pub receiver: Receiver<T>,
    /// Currently selected tab.
    pub current_tab: Tab,
    /// Hardware identifiers (label, value), cached after the first collection.
    pub wmi_identifiers: Option<Vec<(String, String)>>,
}

/// The history after one sample is appended: the sample goes to the back,
/// and when the history then holds more than `max_history` samples the
/// oldest one is dropped.
pub open spec fn history_after_push<T>(history: Seq<T>, max_history: usize, item: T) -> Seq<T> {
    let pushed = history.push(item);
    if pushed.len() > max_history {
        pushed.drop_first()
    } else {
        pushed
    }
}

/// The history built from an empty one by appending `items` in order.
pub open spec fn history_of<T>(items: Seq<T>, max_history: usize) -> Seq<T>
    decreases items.len(),
{
    if items.len() == 0 {
        Seq::empty()
    } else {
        history_after_push(history_of(items.drop_last(), max_history), max_history, items.last())
    }
}

/// The cached hardware identifiers after `identifiers` are offered to a cache
/// holding `cached`: the first identifiers offered are kept.
pub open spec fn identifiers_after_caching(
    cached: Option<Vec<(String, String)>>,
    identifiers: Vec<(String, String)>,
) -> Option<Vec<(String, String)>> {
    if cached is None {
        Some(identifiers)
    } else {
        cached
    }
}

/// Hardware identifiers are collected once: after identifiers are cached, the
/// cache holds some, later offers leave it unchanged, and so a later
/// `update_data` no longer asks for them.
pub proof fn lemma_identifiers_cached_once(
    cached: Option<Vec<(String, String)>>,
    first: Vec<(String, String)>,
    later: Vec<(String, String)>,
)
    ensures
        identifiers_after_caching(cached, first) is Some,
        identifiers_after_caching(identifiers_after_caching(cached, first), later)
            == identifiers_after_caching(cached, first),
{
}

/// The most recent `max_history` items of `items` (all of them when there are fewer).
pub open spec fn most_recent<T>(items: Seq<T>, max_history: usize) -> Seq<T> {
    if items.len() <= max_history {
        items
    } else {
        items.subrange(items.len() - max_history, items.len() as int)
    }
}

/// The history never grows past its limit: appending a sample to a history of
/// at most `max_history` samples leaves at most `max_history` samples, and
/// exactly one more unless the limit was reached.
pub proof fn lemma_history_stays_bounded<T>(history: Seq<T>, max_history: usize, item: T)
    requires
        history.len() <= max_history,
    ensures
        history_after_push(history, max_history, item).len() <= max_history,
        history.len() < max_history ==> history_after_push(history, max_history, item).len()
            == history.len() + 1,
        history.len() == max_history ==> history_after_push(history, max_history, item).len()
            == max_history,
{
}

/// The newest sample is kept: appending to a history within a positive limit
/// gives one more sample, or as many as the limit allows, and the appended
/// sample is the last one.
pub proof fn lemma_newest_sample_kept<T>(history: Seq<T>, max_history: usize, item: T)
    requires
        max_history >= 1,
        history.len() <= max_history,
    ensures
        history_after_push(history, max_history, item).len() == (if history.len() + 1
            <= max_history {
            history.len() + 1int
        } else {
            max_history as int
        }),
        history_after_push(history, max_history, item).last() == item,
{
}

/// Whether cloning a `T` always gives back an equal value.
pub open spec fn clone_is_exact<T: Clone>() -> bool {
    forall|a: T, b: T| #[trigger] cloned(a, b) ==> a == b
}

/// Starting from an empty history, the history after any sequence of samples
/// holds exactly the most recent `max_history` of them, oldest first.
pub proof fn lemma_history_is_most_recent<T>(items: Seq<T>, max_history: usize)
    ensures
        history_of(items, max_history) == most_recent(items, max_history),
    decreases items.len(),
{
    if items.len() > 0 {
        let prefix = items.drop_last();
        lemma_history_is_most_recent(prefix, max_history);
        let n = items.len() as int;
        if prefix.len() < max_history {
            assert(prefix.push(items.last()) =~= items);
        } else {
            let h = prefix.subrange(n - 1 - max_history, n - 1);
            assert(h.push(items.last()).drop_first() =~= items.subrange(n - max_history, n));
        }
    }
}

impl<T> ZinkoApp<T> {
    /// Creates a dashboard state around the channel that delivers telemetry:
    /// empty history of capacity 100, nothing received, dashboard tab selected,
    /// identifiers not yet collected.
    pub fn new(receiver: Receiver<T>) -> (app: Self)
        ensures
            app.telemetry_history@ == Seq::<T>::empty(),
            app.last_received is None,
            app.max_history == DEFAULT_MAX_HISTORY,
            app.max_history == 100,
            app.receiver == receiver,
            app.current_tab == Tab::Dashboard,
            app.wmi_identifiers is None,
    {
        ZinkoApp {
            telemetry_history: VecDeque::new(),
            last_received: None,
            max_history: DEFAULT_MAX_HISTORY,
            receiver,
            current_tab: Tab::Dashboard,
            wmi_identifiers: None,
        }
    }

    /// Records a new telemetry sample: it becomes the latest one and is
    /// appended to the history, whose oldest sample is dropped when the
    /// history grows past `max_history`.  Returns whether the hardware
    /// identifiers still have to be collected (they are collected only once).
    pub fn update_data(&mut self, data: T) -> (needs_identifiers: bool)
        where T: Clone,
        ensures
            final(self).telemetry_history@ == history_after_push(
                old(self).telemetry_history@,
                old(self).max_history,
                data,
            ),
            final(self).last_received matches Some(latest) && cloned(data, latest),
            final(self).telemetry_history@.len() > 0 ==> final(self).telemetry_history@.last()
                == data,
            clone_is_exact::<T>() ==> final(self).last_received == Some(data),
            final(self).max_history == old(self).max_history,
            final(self).receiver == old(self).receiver,
            final(self).current_tab == old(self).current_tab,
            final(self).wmi_identifiers == old(self).wmi_identifiers,
            needs_identifiers == old(self).wmi_identifiers is None,
    {
        self.last_received = Some(data.clone());
        self.telemetry_history.push_back(data);
        if self.telemetry_history.len() > self.max_history {
            self.telemetry_history.pop_front();
        }
        self.wmi_identifiers.is_none()
    }

    /// Stores the collected hardware identifiers, unless some are stored already.
    pub fn cache_wmi_identifiers(&mut self, identifiers: Vec<(String, String)>)
        ensures
            final(self).wmi_identifiers == identifiers_after_caching(
                old(self).wmi_identifiers,
                identifiers,
            ),
            final(self).telemetry_history == old(self).telemetry_history,
            final(self).last_received == old(self).last_received,
            final(self).max_history == old(self).max_history,
            final(self).receiver == old(self).receiver,
            final(self).current_tab == old(self).current_tab,
    {
        if self.wmi_identifiers.is_none() {
            self.wmi_identifiers = Some(identifiers);
        }
    }
}

} // verus!

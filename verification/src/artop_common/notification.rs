//! Notification event types (EMF `Notification.EventType`) and their names,
//! and the basic observer model built on them: adapters, a notifier that
//! delivers notifications to its adapters, and a chain that gathers
//! notifications, merging consecutive sets of one feature.
use vstd::prelude::*;
use crate::text::str_eq;
pub use crate::emf_common::notification::{Notification, NotificationModel, feature_view};

verus! {

/// Notification event kind (EMF `Notification.EventType`).
#[derive(Debug, Clone, Copy, PartialEq, Eq)]
pub enum EventType {
    /// An object was created.
    Create,
    /// A feature was set.
    SetValue,
    /// A feature was unset.
    Unset,
    /// An element was added.
    Add,
    /// An element was removed.
    Remove,
    /// Many elements were added.
    AddMany,
    /// Many elements were removed.
    RemoveMany,
    /// An element was moved.
    Move,
    /// An adapter is being removed.
    RemovingAdapter,
    /// A proxy was resolved.
    Resolve,
    /// Content type changed.
    ContentType,
}

/// The name of an event type.
pub open spec fn event_name(e: EventType) -> Seq<char> {
    match e {
        EventType::Create => "CREATE"@,
        EventType::SetValue => "SET"@,
        EventType::Unset => "UNSET"@,
        EventType::Add => "ADD"@,
        EventType::AddMany => "ADD_MANY"@,
        EventType::Remove => "REMOVE"@,
        EventType::RemoveMany => "REMOVE_MANY"@,
        EventType::Move => "MOVE"@,
        EventType::RemovingAdapter => "REMOVING_ADAPTER"@,
        EventType::Resolve => "RESOLVE"@,
        EventType::ContentType => "CONTENT_TYPE"@,
    }
}

impl EventType {
    /// Human name.
    pub fn name(&self) -> (r: &'static str)
        ensures
            r@ == event_name(*self),
    {
        match self {
            EventType::Create => "CREATE",
            EventType::SetValue => "SET",
            EventType::Unset => "UNSET",
            EventType::Add => "ADD",
            EventType::AddMany => "ADD_MANY",
            EventType::Remove => "REMOVE",
            EventType::RemoveMany => "REMOVE_MANY",
            EventType::Move => "MOVE",
            EventType::RemovingAdapter => "REMOVING_ADAPTER",
            EventType::Resolve => "RESOLVE",
            EventType::ContentType => "CONTENT_TYPE",
        }
    }
}

/// An observer that receives the notifications of a notifier.
///
/// An adapter type that sets `obeys_adapter_spec` becomes `after_notify` of
/// what it was when it receives a notification; the body of `after_notify`
/// here is a placeholder for adapter types that make no such claim.
pub trait Adapter<T>: Sized {
    /// The adapter keeps the contract of `notify_changed`.
    open spec fn obeys_adapter_spec() -> bool {
        false
    }

    /// The adapter after it received `notification`.
    open spec fn after_notify(&self, notification: Notification<T>) -> Self {
        *self
    }

    /// Receives a notification.
    fn notify_changed(&mut self, notification: &Notification<T>)
        ensures
            Self::obeys_adapter_spec() ==> *final(self) == old(self).after_notify(*notification),
    ;

    /// Whether the adapter serves the given type (none by default).
    fn is_adapter_for_type(&self, other: &str) -> (r: bool) {
        false
    }
}

/// The elements of `s` whose flag in `picked` is `false`, in order.
pub open spec fn unpicked<A>(s: Seq<A>, picked: Seq<bool>) -> Seq<A>
    decreases s.len(),
{
    if s.len() == 0 || picked.len() != s.len() {
        Seq::empty()
    } else if picked.last() {
        unpicked(s.drop_last(), picked.drop_last())
    } else {
        unpicked(s.drop_last(), picked.drop_last()).push(s.last())
    }
}

/// Holds adapters and delivers notifications to them while delivery is enabled.
pub struct Notifier<A> {
    adapters: Vec<A>,
    deliver: bool,
}

impl<A> Notifier<A> {
    /// The adapters, in the order they were added.
    pub closed spec fn adapters_spec(&self) -> Seq<A> {
        self.adapters@
    }

    /// Delivery is enabled.
    pub closed spec fn deliver_spec(&self) -> bool {
        self.deliver
    }

    /// A notifier without adapters, with delivery enabled.
    pub fn new() -> (r: Self)
        ensures
            r.adapters_spec() == Seq::<A>::empty(),
            r.deliver_spec(),
    {
        Notifier { adapters: Vec::new(), deliver: true }
    }

    /// Adds `adapter` at the end (a moved-in adapter is never one the
    /// notifier holds already).
    pub fn add_adapter(&mut self, adapter: A)
        ensures
            final(self).adapters_spec() == old(self).adapters_spec().push(adapter),
            final(self).deliver_spec() == old(self).deliver_spec(),
    {
        self.adapters.push(adapter);
    }

    /// Removes the adapters `predicate` picks (asked once for each adapter, in
    /// order); the others keep their order.
    pub fn remove_adapter<F: Fn(&A) -> bool>(&mut self, predicate: F)
        requires
            forall|a: &A| #[trigger] call_requires(predicate, (a,)),
        ensures
            final(self).deliver_spec() == old(self).deliver_spec(),
            exists|picked: Seq<bool>|
                #![trigger unpicked(old(self).adapters_spec(), picked)]
                {
                    &&& picked.len() == old(self).adapters_spec().len()
                    &&& forall|i: int|
                        0 <= i < picked.len() ==> call_ensures(
                            predicate,
                            (&old(self).adapters_spec()[i],),
                            #[trigger] picked[i],
                        )
                    &&& final(self).adapters_spec() == unpicked(old(self).adapters_spec(), picked)
                },
    {
        let mut rest: Vec<A> = Vec::new();
        std::mem::swap(&mut rest, &mut self.adapters);
        let ghost all = rest@;
        let n = rest.len();
        let mut kept: Vec<A> = Vec::new();
        let mut picked: Vec<bool> = Vec::new();
        let mut i: usize = 0;
        while i < n
            invariant
                n == all.len(),
                all == old(self).adapters@,
                i <= n,
                rest@ == all.skip(i as int),
                picked@.len() == i,
                forall|a: &A| #[trigger] call_requires(predicate, (a,)),
                forall|k: int|
                    0 <= k < i ==> call_ensures(predicate, (&all[k],), #[trigger] picked@[k]),
                kept@ == unpicked(all.take(i as int), picked@),
                self.deliver == old(self).deliver,
            decreases n - i,
        {
            let a = rest.remove(0);
            proof {
                assert(all.skip(i as int)[0] == all[i as int]);
                assert(rest@ =~= all.skip(i + 1));
            }
            let r = predicate(&a);
            let ghost prev = picked@;
            picked.push(r);
            proof {
                assert(all.take(i + 1).drop_last() =~= all.take(i as int));
                assert(all.take(i + 1).last() == all[i as int]);
                assert(picked@.drop_last() =~= prev);
            }
            if !r {
                kept.push(a);
            }
            i += 1;
        }
        proof {
            assert(all.take(n as int) =~= all);
        }
        self.adapters = kept;
        assert(self.adapters@ == unpicked(old(self).adapters_spec(), picked@));
    }

    /// The adapters.
    pub fn adapters(&self) -> (r: &[A])
        ensures
            r@ == self.adapters_spec(),
    {
        self.adapters.as_slice()
    }

    /// Whether delivery is enabled.
    pub fn deliver(&self) -> (r: bool)
        ensures
            r == self.deliver_spec(),
    {
        self.deliver
    }

    /// Enables or disables delivery.
    pub fn set_deliver(&mut self, deliver: bool)
        ensures
            final(self).deliver_spec() == deliver,
            final(self).adapters_spec() == old(self).adapters_spec(),
    {
        self.deliver = deliver;
    }

    /// Delivers `n` to each adapter in order, when delivery is enabled.
    pub fn e_notify<T>(&mut self, n: &Notification<T>)
        where
            A: Adapter<T>,
        ensures
            final(self).deliver_spec() == old(self).deliver_spec(),
            final(self).adapters_spec().len() == old(self).adapters_spec().len(),
            !old(self).deliver_spec() ==> final(self).adapters_spec() == old(self).adapters_spec(),
            old(self).deliver_spec() && A::obeys_adapter_spec() ==> forall|i: int|
                0 <= i < old(self).adapters_spec().len() ==> #[trigger] final(self).adapters_spec()[i]
                    == old(self).adapters_spec()[i].after_notify(*n),
    {
        if !self.deliver {
            return;
        }
        let len = self.adapters.len();
        let mut i: usize = 0;
        while i < len
            invariant
                len == self.adapters@.len(),
                len == old(self).adapters@.len(),
                i <= len,
                self.deliver == old(self).deliver,
                A::obeys_adapter_spec() ==> forall|k: int|
                    0 <= k < i ==> #[trigger] self.adapters@[k] == old(self).adapters@[k].after_notify(*n),
                forall|k: int| i <= k < len ==> #[trigger] self.adapters@[k] == old(self).adapters@[k],
            decreases len - i,
        {
            self.adapters[i].notify_changed(n);
            i += 1;
        }
    }
}

impl<A> Default for Notifier<A> {
    /// A notifier without adapters, with delivery disabled.
    fn default() -> (r: Self)
        ensures
            r.adapters_spec() == Seq::<A>::empty(),
            !r.deliver_spec(),
    {
        Notifier { adapters: Vec::new(), deliver: false }
    }
}

/// The chain `s` after adding `n`: a set of the same feature as the last
/// notification merges with it, keeping the earlier old value and taking the
/// rest from `n`; anything else is appended.
pub open spec fn chain_add<T>(s: Seq<NotificationModel<T>>, n: NotificationModel<T>) -> Seq<
    NotificationModel<T>,
> {
    if s.len() > 0 && s.last().event == EventType::SetValue && n.event == EventType::SetValue
        && s.last().feature == n.feature {
        s.drop_last().push(NotificationModel { old_value: s.last().old_value, ..n })
    } else {
        s.push(n)
    }
}

/// Notifications gathered to be delivered together.
pub struct NotificationChain<T> {
    notifications: Vec<Notification<T>>,
}

/// The adapter `a` after it received each notification of `ns`, in order.
pub open spec fn after_each<T, A: Adapter<T>>(a: A, ns: Seq<Notification<T>>) -> A
    decreases ns.len(),
{
    if ns.len() == 0 {
        a
    } else {
        after_each(a, ns.drop_last()).after_notify(ns.last())
    }
}

impl<T> View for NotificationChain<T> {
    type V = Seq<NotificationModel<T>>;

    closed spec fn view(&self) -> Seq<NotificationModel<T>> {
        self.notifications@.map_values(|n: Notification<T>| n@)
    }
}

/// Two optional feature names are equal.
fn same_feature(a: Option<&str>, b: Option<&str>) -> (r: bool)
    ensures
        r == (match (a, b) {
            (Some(x), Some(y)) => x@ == y@,
            (None, None) => true,
            _ => false,
        }),
{
    match (a, b) {
        (Some(x), Some(y)) => str_eq(x, y),
        (None, None) => true,
        _ => false,
    }
}

impl<T> NotificationChain<T> {
    /// The gathered notifications themselves, in order.
    pub closed spec fn entries(&self) -> Seq<Notification<T>> {
        self.notifications@
    }

    /// An empty chain.
    pub fn new() -> (r: Self)
        ensures
            r@ == Seq::<NotificationModel<T>>::empty(),
    {
        let r = NotificationChain { notifications: Vec::new() };
        proof {
            assert(r@ =~= Seq::<NotificationModel<T>>::empty());
        }
        r
    }

    /// Adds `n` as `chain_add` says.
    pub fn add(&mut self, n: Notification<T>)
        ensures
            final(self)@ == chain_add(old(self)@, n@),
    {
        let len = self.notifications.len();
        let ghost s = self@;
        if len > 0 {
            let last = len - 1;
            let merge = matches!(self.notifications[last].event(), EventType::SetValue)
                && matches!(n.event(), EventType::SetValue) && same_feature(
                self.notifications[last].feature(),
                n.feature(),
            );
            if merge {
                let top = self.notifications.remove(last);
                let mut merged = n;
                merged.keep_old_value_of(top);
                self.notifications.push(merged);
                proof {
                    assert(self@ =~= chain_add(s, n@));
                }
                return;
            }
        }
        self.notifications.push(n);
        proof {
            assert(self@ =~= chain_add(s, n@));
        }
    }

    /// The chain holds no notification.
    pub fn is_empty(&self) -> (r: bool)
        ensures
            r == (self@.len() == 0),
    {
        self.notifications.len() == 0
    }

    /// The number of gathered notifications.
    pub fn len(&self) -> (r: usize)
        ensures
            r == self@.len(),
    {
        self.notifications.len()
    }

    /// Delivers each gathered notification, in order, through `notifier`, and
    /// empties the chain.
    pub fn dispatch<A: Adapter<T>>(&mut self, notifier: &mut Notifier<A>)
        ensures
            final(self)@ == Seq::<NotificationModel<T>>::empty(),
            final(notifier).deliver_spec() == old(notifier).deliver_spec(),
            final(notifier).adapters_spec().len() == old(notifier).adapters_spec().len(),
            !old(notifier).deliver_spec() ==> final(notifier).adapters_spec()
                == old(notifier).adapters_spec(),
            old(notifier).deliver_spec() && A::obeys_adapter_spec() ==> forall|k: int|
                0 <= k < old(notifier).adapters_spec().len()
                    ==> #[trigger] final(notifier).adapters_spec()[k]
                    == after_each(old(notifier).adapters_spec()[k], old(self).entries()),
    {
        let mut drained: Vec<Notification<T>> = Vec::new();
        std::mem::swap(&mut drained, &mut self.notifications);
        let n = drained.len();
        let mut i: usize = 0;
        while i < n
            invariant
                n == drained@.len(),
                drained@ == old(self).entries(),
                i <= n,
                notifier.deliver_spec() == old(notifier).deliver_spec(),
                notifier.adapters_spec().len() == old(notifier).adapters_spec().len(),
                !old(notifier).deliver_spec() ==> notifier.adapters_spec()
                    == old(notifier).adapters_spec(),
                old(notifier).deliver_spec() && A::obeys_adapter_spec() ==> forall|k: int|
                    0 <= k < old(notifier).adapters_spec().len() ==> #[trigger] notifier.adapters_spec()[k]
                        == after_each(old(notifier).adapters_spec()[k], drained@.take(i as int)),
            decreases n - i,
        {
            proof {
                assert(drained@.take(i + 1).drop_last() =~= drained@.take(i as int));
                assert(drained@.take(i + 1).last() == drained@[i as int]);
            }
            notifier.e_notify(&drained[i]);
            i += 1;
        }
        proof {
            assert(drained@.take(n as int) =~= drained@);
        }
        proof {
            assert(self@ =~= Seq::<NotificationModel<T>>::empty());
        }
    }
}

impl<T> Default for NotificationChain<T> {
    fn default() -> (r: Self)
        ensures
            r@ == Seq::<NotificationModel<T>>::empty(),
    {
        NotificationChain::new()
    }
}

/// Consecutive sets of one feature leave a single notification: it keeps the
/// old value the run started with and takes everything else from the last.
pub proof fn lemma_sets_collapse<T>(
    s: Seq<NotificationModel<T>>,
    first: NotificationModel<T>,
    second: NotificationModel<T>,
)
    requires
        first.event == EventType::SetValue,
        second.event == EventType::SetValue,
        first.feature == second.feature,
    ensures
        chain_add(chain_add(s, first), second).last() == (NotificationModel {
            old_value: chain_add(s, first).last().old_value,
            ..second
        }),
        chain_add(chain_add(s, first), second).len() == chain_add(s, first).len(),
{
}

} // verus!

//! Change notification: the events a model object sends (`Notification`),
//! the adapters that receive them (`Adapter`), the notifier that holds the
//! adapters and delivers events to them (`Notifier`), and a chain that
//! gathers events, merging and cancelling them, before delivering them
//! together (`NotificationChain`).
use vstd::prelude::*;
use std::marker::PhantomData;
use crate::text::str_eq;
pub use crate::artop_common::notification::{event_name, EventType};
use crate::artop_common::notification::unpicked;

verus! {

/// A value that a notification carries as the old or new value of a change.
///
/// A value type that sets `obeys_value_spec` keeps the contract of
/// `object_key`; the body of `object_key_view` here is a placeholder for value
/// types that make no such claim.
pub trait NotificationValue: Sized {
    /// The value type keeps the contract of `object_key`.
    open spec fn obeys_value_spec() -> bool {
        false
    }

    /// The identity of the object the value refers to (`None`: no object).
    open spec fn object_key_view(&self) -> Option<usize> {
        None
    }

    /// The value `null_value` gives.
    open spec fn null_view() -> Self {
        arbitrary()
    }

    /// The value that stands for "nothing".
    fn null_value() -> (r: Self)
        ensures
            Self::obeys_value_spec() ==> r == Self::null_view(),
    ;

    /// The value that stands for the list of `items`.
    fn list_value(items: Vec<Self>) -> Self;

    /// The identity of the object the value refers to, if it refers to one.
    fn object_key(&self) -> (r: Option<usize>)
        ensures
            Self::obeys_value_spec() ==> r == self.object_key_view(),
    ;
}

/// A notification as the contracts see it.
pub struct NotificationModel<T> {
    pub event: EventType,
    pub feature: Option<Seq<char>>,
    pub old_value: T,
    pub new_value: T,
    pub position: i32,
    pub was_set: bool,
}

/// A change event: its kind, the feature it concerns (if any), the old and
/// new values, the list position (or -1) and whether the is-set state changed.
#[derive(Debug, Clone)]
pub struct Notification<T> {
    event: EventType,
    feature: Option<String>,
    /// The value before the change.
    pub old_value: T,
    /// The value after the change.
    pub new_value: T,
    /// The list position involved, or -1.
    pub position: i32,
    was_set: bool,
}

/// The characters of an optional feature name.
pub open spec fn feature_view(f: Option<String>) -> Option<Seq<char>> {
    match f {
        Some(s) => Some(s@),
        None => None,
    }
}

impl<T> View for Notification<T> {
    type V = NotificationModel<T>;

    closed spec fn view(&self) -> NotificationModel<T> {
        NotificationModel {
            event: self.event,
            feature: feature_view(self.feature),
            old_value: self.old_value,
            new_value: self.new_value,
            position: self.position,
            was_set: self.was_set,
        }
    }
}

/// Two optional feature names are equal.
fn same_feature(a: &Option<String>, b: &Option<String>) -> (r: bool)
    ensures
        r == (feature_view(*a) == feature_view(*b)),
{
    match (a, b) {
        (Some(x), Some(y)) => str_eq(x.as_str(), y.as_str()),
        (None, None) => true,
        _ => false,
    }
}

impl<T> Notification<T> {
    /// A notification with the given fields.
    pub fn new(
        event: EventType,
        feature: Option<String>,
        old_value: T,
        new_value: T,
        position: i32,
        was_set: bool,
    ) -> (r: Self)
        ensures
            r@ == (NotificationModel {
                event,
                feature: feature_view(feature),
                old_value,
                new_value,
                position,
                was_set,
            }),
    {
        Notification { event, feature, old_value, new_value, position, was_set }
    }

    /// The event kind.
    pub fn event(&self) -> (r: EventType)
        ensures
            r == self@.event,
    {
        self.event
    }

    /// The feature involved, if any.
    pub fn feature(&self) -> (r: Option<&str>)
        ensures
            match r {
                Some(s) => self@.feature == Some(s@),
                None => self@.feature is None,
            },
    {
        match &self.feature {
            Some(s) => Some(s.as_str()),
            None => None,
        }
    }

    /// Whether the is-set state changed.
    pub fn was_set(&self) -> (r: bool)
        ensures
            r == self@.was_set,
    {
        self.was_set
    }

    /// Takes the old value of `earlier`, keeping everything else.
    pub(crate) fn keep_old_value_of(&mut self, earlier: Notification<T>)
        ensures
            final(self)@ == (NotificationModel { old_value: earlier@.old_value, ..old(self)@ }),
    {
        self.old_value = earlier.old_value;
    }

    /// Sets the was-set flag.
    pub fn set_was_set(&mut self, was_set: bool)
        ensures
            final(self)@ == (NotificationModel { was_set, ..old(self)@ }),
    {
        self.was_set = was_set;
    }
}

/// An observer of a notifier: it receives each delivered notification and
/// records the notifier it is attached to.
///
/// An adapter type that sets `obeys_adapter_spec` becomes `after_notify` of
/// what it was when it receives a notification; the body of `after_notify`
/// here is a placeholder for adapter types that make no such claim.
pub trait Adapter<T>: Sized {
    /// The adapter keeps the contract of `notify_changed`.
    open spec fn obeys_adapter_spec() -> bool {
        false
    }

    /// The adapter after it received `notification`.
    open spec fn after_notify(&self, notification: Notification<T>) -> Self {
        *self
    }

    /// Receives a notification.
    fn notify_changed(&mut self, notification: &Notification<T>)
        ensures
            Self::obeys_adapter_spec() ==> *final(self) == old(self).after_notify(*notification),
    ;

    /// Whether the adapter serves the given type (none by default).
    fn is_adapter_for_type(&self, other: &str) -> (r: bool) {
        false
    }

    /// The identity of the notifier the adapter is attached to (none by default).
    fn target(&self) -> (r: Option<usize>) {
        None
    }

    /// Records the notifier the adapter is attached to (`None`: detached).
    fn set_target(&mut self, target: Option<usize>) {
    }
}

/// The address of `x` (`std::ptr::from_ref(x).addr()`), the identity an
/// adapter records as its target. Nothing is stated of it: it depends on where
/// `x` lives.
#[verifier::external_body]
fn address_of<X>(x: &X) -> usize {
    std::ptr::from_ref(x).addr()
}

/// How many entries of `picked` are `false`.
pub open spec fn count_kept(picked: Seq<bool>) -> nat
    decreases picked.len(),
{
    if picked.len() == 0 {
        0
    } else {
        count_kept(picked.drop_last()) + if picked.last() {
            0nat
        } else {
            1nat
        }
    }
}

/// When nothing is picked, everything is kept.
proof fn lemma_count_kept_none(picked: Seq<bool>)
    requires
        forall|i: int| 0 <= i < picked.len() ==> !picked[i],
    ensures
        count_kept(picked) == picked.len(),
    decreases picked.len(),
{
    if picked.len() > 0 {
        lemma_count_kept_none(picked.drop_last());
    }
}

/// Each adapter of `s` after it received `n`.
pub open spec fn told_all<A: Adapter<T>, T>(s: Seq<A>, n: Notification<T>) -> Seq<A> {
    s.map_values(|a: A| a.after_notify(n))
}

/// A notification that an adapter is being removed: no feature, position -1,
/// no is-set change, and (for value types that state it) the null value as
/// old and new value.
pub open spec fn is_removing_notice<T: NotificationValue>(n: Notification<T>) -> bool {
    &&& n@.event == EventType::RemovingAdapter
    &&& n@.feature is None
    &&& n@.position == -1
    &&& !n@.was_set
    &&& T::obeys_value_spec() ==> n@.old_value == T::null_view() && n@.new_value == T::null_view()
}

/// Two sequences that agree wherever `picked` is `false` keep the same
/// unpicked elements.
proof fn lemma_unpicked_agree<A>(a: Seq<A>, b: Seq<A>, picked: Seq<bool>)
    requires
        a.len() == b.len() == picked.len(),
        forall|k: int| 0 <= k < a.len() && !picked[k] ==> a[k] == b[k],
    ensures
        unpicked(a, picked) == unpicked(b, picked),
    decreases a.len(),
{
    if a.len() > 0 {
        lemma_unpicked_agree(a.drop_last(), b.drop_last(), picked.drop_last());
    }
}

/// Nothing picked keeps everything.
proof fn lemma_unpicked_none<A>(a: Seq<A>, picked: Seq<bool>)
    requires
        a.len() == picked.len(),
        forall|k: int| 0 <= k < a.len() ==> !picked[k],
    ensures
        unpicked(a, picked) == a,
    decreases a.len(),
{
    if a.len() > 0 {
        lemma_unpicked_none(a.drop_last(), picked.drop_last());
        assert(a.drop_last().push(a.last()) =~= a);
    }
}

/// Holds the adapters of a model object and delivers its notifications to
/// them while delivery is enabled.
pub struct Notifier<A, T> {
    adapters: Vec<A>,
    deliver: bool,
    marker: PhantomData<T>,
}

impl<A: Adapter<T>, T: NotificationValue> Notifier<A, T> {
    /// The adapters, in the order they were added.
    pub closed spec fn adapters_spec(&self) -> Seq<A> {
        self.adapters@
    }

    /// Delivery is enabled.
    pub closed spec fn deliver_spec(&self) -> bool {
        self.deliver
    }

    /// A notifier without adapters, with delivery enabled.
    pub fn new() -> (r: Self)
        ensures
            r.adapters_spec() == Seq::<A>::empty(),
            r.deliver_spec(),
    {
        Notifier { adapters: Vec::new(), deliver: true, marker: PhantomData }
    }

    /// Adds `adapter` at the end and attaches it to this notifier (a moved-in
    /// adapter is never one the notifier holds already).
    pub fn add_adapter(&mut self, adapter: A)
        ensures
            final(self).adapters_spec().len() == old(self).adapters_spec().len() + 1,
            final(self).adapters_spec().drop_last() == old(self).adapters_spec(),
            final(self).deliver_spec() == old(self).deliver_spec(),
    {
        let id = address_of(&*self);
        self.adapters.push(adapter);
        let last = self.adapters.len() - 1;
        self.adapters[last].set_target(Some(id));
        proof {
            assert(self.adapters@.drop_last() =~= old(self).adapters@);
        }
    }

    /// Removes the adapters `predicate` picks (asked once for each adapter, in
    /// order). When it picks any and delivery is enabled, each adapter that
    /// stays is first sent one `RemovingAdapter` notification; each removed
    /// adapter is then detached. The adapters that stay keep their order.
    pub fn remove_adapter<F: Fn(&A) -> bool>(&mut self, predicate: F)
        requires
            forall|a: &A| #[trigger] call_requires(predicate, (a,)),
        ensures
            final(self).deliver_spec() == old(self).deliver_spec(),
            exists|picked: Seq<bool>|
                #![trigger count_kept(picked)]
                {
                    &&& picked.len() == old(self).adapters_spec().len()
                    &&& forall|i: int|
                        0 <= i < picked.len() ==> call_ensures(
                            predicate,
                            (&old(self).adapters_spec()[i],),
                            #[trigger] picked[i],
                        )
                    &&& final(self).adapters_spec().len() == count_kept(picked)
                    &&& (!old(self).deliver_spec() || forall|i: int|
                        0 <= i < picked.len() ==> !picked[i]) ==> final(self).adapters_spec()
                        == unpicked(old(self).adapters_spec(), picked)
                    &&& old(self).deliver_spec() && A::obeys_adapter_spec() && (exists|i: int|
                        0 <= i < picked.len() && picked[i]) ==> exists|n: Notification<T>|
                        #![trigger told_all(old(self).adapters_spec(), n)]
                        is_removing_notice(n) && final(self).adapters_spec() == unpicked(
                            told_all(old(self).adapters_spec(), n),
                            picked,
                        )
                },
    {
        let n = self.adapters.len();
        let mut picked: Vec<bool> = Vec::new();
        let mut any = false;
        let ghost mut witness: int = 0;
        let mut i: usize = 0;
        while i < n
            invariant
                n == self.adapters@.len(),
                self.adapters@ == old(self).adapters@,
                self.deliver == old(self).deliver,
                i <= n,
                picked@.len() == i,
                forall|a: &A| #[trigger] call_requires(predicate, (a,)),
                forall|k: int|
                    0 <= k < i ==> call_ensures(
                        predicate,
                        (&self.adapters@[k],),
                        #[trigger] picked@[k],
                    ),
                !any ==> forall|k: int| 0 <= k < i ==> !picked@[k],
                any ==> 0 <= witness < i && picked@[witness],
            decreases n - i,
        {
            let r = predicate(&self.adapters[i]);
            picked.push(r);
            if r {
                any = true;
                proof {
                    witness = i as int;
                }
            }
            i += 1;
        }
        if !any {
            proof {
                lemma_count_kept_none(picked@);
                lemma_unpicked_none(old(self).adapters@, picked@);
            }
            return;
        }
        let ghost snapshot = picked@;
        let ghost all = old(self).adapters@;
        assert(snapshot[witness]);
        assert(forall|k: int|
            0 <= k < n ==> call_ensures(predicate, (&old(self).adapters@[k],), #[trigger] snapshot[k]));
        let evt = Notification::new(
            EventType::RemovingAdapter,
            None,
            T::null_value(),
            T::null_value(),
            -1,
            false,
        );
        if self.deliver {
            let mut j: usize = 0;
            while j < n
                invariant
                    n == self.adapters@.len() == picked@.len() == all.len(),
                    j <= n,
                    picked@ == snapshot,
                    self.deliver == old(self).deliver,
                    forall|k: int| j <= k < n ==> #[trigger] self.adapters@[k] == all[k],
                    forall|k: int|
                        0 <= k < j && snapshot[k] ==> #[trigger] self.adapters@[k] == all[k],
                    A::obeys_adapter_spec() ==> forall|k: int|
                        0 <= k < j && !snapshot[k] ==> #[trigger] self.adapters@[k]
                            == all[k].after_notify(evt),
                decreases n - j,
            {
                if !picked[j] {
                    self.adapters[j].notify_changed(&evt);
                }
                j += 1;
            }
        }
        let ghost mid = self.adapters@;
        proof {
            if !self.deliver {
                assert(mid == all);
            }
            if self.deliver && A::obeys_adapter_spec() {
                assert forall|k: int| 0 <= k < n && !snapshot[k] implies mid[k] == told_all(all, evt)[k] by {}
            }
        }
        let mut j: usize = 0;
        while j < n
            invariant
                n == self.adapters@.len() == picked@.len() == mid.len(),
                j <= n,
                picked@ == snapshot,
                self.deliver == old(self).deliver,
                forall|k: int| 0 <= k < n && !snapshot[k] ==> #[trigger] self.adapters@[k] == mid[k],
            decreases n - j,
        {
            if picked[j] {
                self.adapters[j].set_target(None);
            }
            j += 1;
        }
        let ghost detached = self.adapters@;
        let mut rest: Vec<A> = Vec::new();
        std::mem::swap(&mut rest, &mut self.adapters);
        let mut kept: Vec<A> = Vec::new();
        let mut j: usize = 0;
        while j < n
            invariant
                n == picked@.len() == detached.len(),
                j <= n,
                rest@ == detached.skip(j as int),
                kept@.len() == count_kept(picked@.take(j as int)),
                kept@ == unpicked(detached.take(j as int), picked@.take(j as int)),
                picked@ == snapshot,
                self.deliver == old(self).deliver,
            decreases n - j,
        {
            let a = rest.remove(0);
            proof {
                assert(detached.skip(j as int)[0] == detached[j as int]);
                assert(rest@ =~= detached.skip(j + 1));
                assert(picked@.take(j + 1).drop_last() =~= picked@.take(j as int));
                assert(picked@.take(j + 1).last() == picked@[j as int]);
                assert(detached.take(j + 1).drop_last() =~= detached.take(j as int));
                assert(detached.take(j + 1).last() == detached[j as int]);
            }
            if !picked[j] {
                kept.push(a);
            }
            j += 1;
        }
        proof {
            assert(picked@.take(n as int) =~= picked@);
            assert(detached.take(n as int) =~= detached);
            lemma_unpicked_agree(detached, mid, snapshot);
            if !old(self).deliver {
                assert(unpicked(mid, snapshot) == unpicked(all, snapshot));
            }
            if old(self).deliver && A::obeys_adapter_spec() {
                lemma_unpicked_agree(mid, told_all(all, evt), snapshot);
            }
        }
        self.adapters = kept;
        proof {
            assert(count_kept(snapshot) == self.adapters@.len());
            assert(self.adapters@ == unpicked(mid, snapshot));
            if !old(self).deliver {
                assert(self.adapters_spec() == unpicked(old(self).adapters_spec(), snapshot));
            }
            if old(self).deliver && A::obeys_adapter_spec() {
                assert(is_removing_notice(evt));
                assert(self.adapters_spec() == unpicked(told_all(old(self).adapters_spec(), evt), snapshot));
            }
            assert(forall|k: int| 0 <= k < snapshot.len() ==> call_ensures(predicate, (&old(self).adapters_spec()[k],), #[trigger] snapshot[k]));
            assert(self.adapters_spec().len() == count_kept(snapshot));
        }
    }

    /// The adapters.
    pub fn adapters(&self) -> (r: &[A])
        ensures
            r@ == self.adapters_spec(),
    {
        self.adapters.as_slice()
    }

    /// The adapters (EMF `eAdapters`).
    pub fn e_adapters(&self) -> (r: &[A])
        ensures
            r@ == self.adapters_spec(),
    {
        self.adapters.as_slice()
    }

    /// Whether delivery is enabled.
    pub fn deliver(&self) -> (r: bool)
        ensures
            r == self.deliver_spec(),
    {
        self.deliver
    }

    /// Whether delivery is enabled (EMF `eDeliver`).
    pub fn e_deliver(&self) -> (r: bool)
        ensures
            r == self.deliver_spec(),
    {
        self.deliver
    }

    /// Enables or disables delivery.
    pub fn set_deliver(&mut self, deliver: bool)
        ensures
            final(self).deliver_spec() == deliver,
            final(self).adapters_spec() == old(self).adapters_spec(),
    {
        self.deliver = deliver;
    }

    /// Enables or disables delivery (EMF `eSetDeliver`).
    pub fn e_set_deliver(&mut self, deliver: bool)
        ensures
            final(self).deliver_spec() == deliver,
            final(self).adapters_spec() == old(self).adapters_spec(),
    {
        self.deliver = deliver;
    }

    /// Notifications are wanted: delivery is enabled and there is an adapter.
    pub fn e_notification_required(&self) -> (r: bool)
        ensures
            r == (self.deliver_spec() && self.adapters_spec().len() > 0),
    {
        self.deliver && self.adapters.len() > 0
    }

    /// Delivers `n` to each adapter in order, when delivery is enabled.
    pub fn e_notify(&mut self, n: &Notification<T>)
        ensures
            final(self).deliver_spec() == old(self).deliver_spec(),
            final(self).adapters_spec().len() == old(self).adapters_spec().len(),
            !old(self).deliver_spec() ==> final(self).adapters_spec() == old(self).adapters_spec(),
            old(self).deliver_spec() && A::obeys_adapter_spec() ==> forall|i: int|
                0 <= i < old(self).adapters_spec().len() ==> #[trigger] final(self).adapters_spec()[i]
                    == old(self).adapters_spec()[i].after_notify(*n),
    {
        if !self.deliver {
            return;
        }
        let len = self.adapters.len();
        let mut i: usize = 0;
        while i < len
            invariant
                len == self.adapters@.len(),
                len == old(self).adapters@.len(),
                i <= len,
                self.deliver == old(self).deliver,
                A::obeys_adapter_spec() ==> forall|k: int|
                    0 <= k < i ==> #[trigger] self.adapters@[k] == old(self).adapters@[k].after_notify(*n),
                forall|k: int| i <= k < len ==> #[trigger] self.adapters@[k] == old(self).adapters@[k],
            decreases len - i,
        {
            self.adapters[i].notify_changed(n);
            i += 1;
        }
    }
}

impl<A: Adapter<T>, T: NotificationValue> Default for Notifier<A, T> {
    /// A notifier without adapters, with delivery disabled.
    fn default() -> (r: Self)
        ensures
            r.adapters_spec() == Seq::<A>::empty(),
            !r.deliver_spec(),
    {
        Notifier { adapters: Vec::new(), deliver: false, marker: PhantomData }
    }
}

/// `n` merges into `last`: both set the same feature.
pub open spec fn merges<T>(last: NotificationModel<T>, n: NotificationModel<T>) -> bool {
    &&& last.event == EventType::SetValue
    &&& n.event == EventType::SetValue
    &&& last.feature == n.feature
}

/// `n` may cancel `last`: `last` adds and `n` removes, on the same feature and
/// at the same position.
pub open spec fn cancel_shape<T>(last: NotificationModel<T>, n: NotificationModel<T>) -> bool {
    &&& last.event == EventType::Add
    &&& n.event == EventType::Remove
    &&& last.feature == n.feature
    &&& last.position == n.position
}

/// The value `last` adds is the object `n` removes.
pub open spec fn same_object<T: NotificationValue>(
    last: NotificationModel<T>,
    n: NotificationModel<T>,
) -> bool {
    &&& last.new_value.object_key_view() is Some
    &&& last.new_value.object_key_view() == n.old_value.object_key_view()
}

/// The chain `s` after adding `n`, where `same` tells whether the last
/// notification adds the object `n` removes: a set of the same feature as the
/// last one merges into it (the earliest old value stays, the latest new value,
/// position and was-set flag win); a removal cancels the last notification
/// when that added the same object on the same feature at the same position;
/// otherwise `n` is appended.
pub open spec fn chain_add_with<T>(
    s: Seq<NotificationModel<T>>,
    n: NotificationModel<T>,
    same: bool,
) -> Seq<NotificationModel<T>> {
    if s.len() > 0 && merges(s.last(), n) {
        s.drop_last().push(
            NotificationModel {
                new_value: n.new_value,
                position: n.position,
                was_set: n.was_set,
                ..s.last()
            },
        )
    } else if s.len() > 0 && cancel_shape(s.last(), n) && same {
        s.drop_last()
    } else {
        s.push(n)
    }
}

/// The chain `s` after adding `n`.
pub open spec fn chain_add<T: NotificationValue>(
    s: Seq<NotificationModel<T>>,
    n: NotificationModel<T>,
) -> Seq<NotificationModel<T>> {
    chain_add_with(s, n, s.len() > 0 && same_object(s.last(), n))
}

/// The chain `s` after adding each of `ns` in order.
pub open spec fn chain_add_all<T: NotificationValue>(
    s: Seq<NotificationModel<T>>,
    ns: Seq<NotificationModel<T>>,
) -> Seq<NotificationModel<T>>
    decreases ns.len(),
{
    if ns.len() == 0 {
        s
    } else {
        chain_add_all(chain_add(s, ns[0]), ns.drop_first())
    }
}

/// Notifications gathered to be delivered together.
#[derive(Debug, Clone)]
pub struct NotificationChain<T> {
    notifications: Vec<Notification<T>>,
}

/// The adapter `a` after it received each notification of `ns`, in order.
pub open spec fn after_each<T, A: Adapter<T>>(a: A, ns: Seq<Notification<T>>) -> A
    decreases ns.len(),
{
    if ns.len() == 0 {
        a
    } else {
        after_each(a, ns.drop_last()).after_notify(ns.last())
    }
}

impl<T> View for NotificationChain<T> {
    type V = Seq<NotificationModel<T>>;

    closed spec fn view(&self) -> Seq<NotificationModel<T>> {
        self.notifications@.map_values(|n: Notification<T>| n@)
    }
}

impl<T: NotificationValue> NotificationChain<T> {
    /// The gathered notifications themselves, in order.
    pub closed spec fn entries(&self) -> Seq<Notification<T>> {
        self.notifications@
    }

    /// An empty chain.
    pub fn new() -> (r: Self)
        ensures
            r@ == Seq::<NotificationModel<T>>::empty(),
    {
        let r = NotificationChain { notifications: Vec::new() };
        proof {
            assert(r@ =~= Seq::<NotificationModel<T>>::empty());
        }
        r
    }

    /// The gathered notifications.
    pub fn notifications(&self) -> (r: &[Notification<T>])
        ensures
            r@.map_values(|n: Notification<T>| n@) == self@,
    {
        self.notifications.as_slice()
    }

    /// Adds `n`, merging it into the last notification or cancelling that
    /// one as `chain_add` says.
    pub fn add(&mut self, n: Notification<T>)
        ensures
            exists|same: bool| final(self)@ == chain_add_with(old(self)@, n@, same),
            T::obeys_value_spec() ==> final(self)@ == chain_add(old(self)@, n@),
    {
        let len = self.notifications.len();
        let ghost s = self@;
        if len > 0 {
            let last = len - 1;
            let same_feat = same_feature(&self.notifications[last].feature, &n.feature);
            let merge = matches!(self.notifications[last].event, EventType::SetValue) && matches!(
                n.event,
                EventType::SetValue
            ) && same_feat;
            if merge {
                let mut top = self.notifications.remove(last);
                top.new_value = n.new_value;
                top.position = n.position;
                top.was_set = n.was_set;
                self.notifications.push(top);
                proof {
                    assert(self@ =~= chain_add_with(s, n@, false));
                    assert(self@ =~= chain_add_with(s, n@, true));
                }
                return;
            }
            let shape = matches!(self.notifications[last].event, EventType::Add) && matches!(
                n.event,
                EventType::Remove
            ) && same_feat && self.notifications[last].position == n.position;
            if shape {
                let k1 = self.notifications[last].new_value.object_key();
                let k2 = n.old_value.object_key();
                let same = match (k1, k2) {
                    (Some(a), Some(b)) => a == b,
                    _ => false,
                };
                if same {
                    self.notifications.remove(last);
                    proof {
                        assert(self@ =~= chain_add_with(s, n@, true));
                    }
                    return;
                }
                self.notifications.push(n);
                proof {
                    assert(self@ =~= chain_add_with(s, n@, false));
                }
                return;
            }
        }
        self.notifications.push(n);
        proof {
            assert(self@ =~= chain_add_with(s, n@, false));
            assert(self@ =~= chain_add_with(s, n@, true));
        }
    }

    /// Adds each notification of `other` in order (see `add`), draining it.
    pub fn merge(&mut self, other: &mut Vec<Notification<T>>)
        ensures
            final(other)@.len() == 0,
            T::obeys_value_spec() ==> final(self)@ == chain_add_all(
                old(self)@,
                old(other)@.map_values(|n: Notification<T>| n@),
            ),
    {
        let ghost start = self@;
        let ghost all = old(other)@.map_values(|n: Notification<T>| n@);
        let ghost mut done: int = 0;
        proof {
            assert(all.skip(0) =~= all);
        }
        while other.len() > 0
            invariant
                0 <= done <= all.len(),
                other@.map_values(|n: Notification<T>| n@) == all.skip(done),
                T::obeys_value_spec() ==> chain_add_all(start, all) == chain_add_all(
                    self@,
                    all.skip(done),
                ),
            decreases other@.len(),
        {
            let n = other.remove(0);
            proof {
                assert(all.skip(done)[0] == n@);
                assert(all.skip(done).drop_first() =~= all.skip(done + 1));
                assert(other@.map_values(|n: Notification<T>| n@) =~= all.skip(done + 1));
            }
            self.add(n);
            proof {
                done = done + 1;
            }
        }
        proof {
            assert(all.skip(done) =~= Seq::<NotificationModel<T>>::empty());
        }
    }

    /// The chain holds no notification.
    pub fn is_empty(&self) -> (r: bool)
        ensures
            r == (self@.len() == 0),
    {
        self.notifications.len() == 0
    }

    /// The number of gathered notifications.
    pub fn len(&self) -> (r: usize)
        ensures
            r == self@.len(),
    {
        self.notifications.len()
    }

    /// Delivers each gathered notification, in order, through `notifier`, and
    /// empties the chain.
    pub fn dispatch<A: Adapter<T>>(&mut self, notifier: &mut Notifier<A, T>)
        ensures
            final(self)@ == Seq::<NotificationModel<T>>::empty(),
            final(notifier).deliver_spec() == old(notifier).deliver_spec(),
            final(notifier).adapters_spec().len() == old(notifier).adapters_spec().len(),
            !old(notifier).deliver_spec() ==> final(notifier).adapters_spec()
                == old(notifier).adapters_spec(),
            old(notifier).deliver_spec() && A::obeys_adapter_spec() ==> forall|k: int|
                0 <= k < old(notifier).adapters_spec().len()
                    ==> #[trigger] final(notifier).adapters_spec()[k]
                    == after_each(old(notifier).adapters_spec()[k], old(self).entries()),
    {
        let mut drained: Vec<Notification<T>> = Vec::new();
        std::mem::swap(&mut drained, &mut self.notifications);
        let n = drained.len();
        let mut i: usize = 0;
        while i < n
            invariant
                n == drained@.len(),
                drained@ == old(self).entries(),
                i <= n,
                notifier.deliver_spec() == old(notifier).deliver_spec(),
                notifier.adapters_spec().len() == old(notifier).adapters_spec().len(),
                !old(notifier).deliver_spec() ==> notifier.adapters_spec()
                    == old(notifier).adapters_spec(),
                old(notifier).deliver_spec() && A::obeys_adapter_spec() ==> forall|k: int|
                    0 <= k < old(notifier).adapters_spec().len() ==> #[trigger] notifier.adapters_spec()[k]
                        == after_each(old(notifier).adapters_spec()[k], drained@.take(i as int)),
            decreases n - i,
        {
            proof {
                assert(drained@.take(i + 1).drop_last() =~= drained@.take(i as int));
                assert(drained@.take(i + 1).last() == drained@[i as int]);
            }
            notifier.e_notify(&drained[i]);
            i += 1;
        }
        proof {
            assert(drained@.take(n as int) =~= drained@);
        }
        proof {
            assert(self@ =~= Seq::<NotificationModel<T>>::empty());
        }
    }
}

/// Adding a notification that adds an object and then the one that removes
/// it again, on the same feature at the same position, leaves the chain as
/// it was.
pub proof fn lemma_add_then_remove_cancels<T: NotificationValue>(
    s: Seq<NotificationModel<T>>,
    add: NotificationModel<T>,
    remove: NotificationModel<T>,
)
    requires
        add.event == EventType::Add,
        cancel_shape(add, remove),
        same_object(add, remove),
    ensures
        chain_add(chain_add(s, add), remove) == s,
{
    assert(chain_add(s, add) == s.push(add));
    assert(chain_add(s, add).drop_last() =~= s);
}

/// Two sets of the same feature, added in turn, leave one notification that
/// keeps the first one's old value and takes the second one's new value.
pub proof fn lemma_set_set_merges<T: NotificationValue>(
    s: Seq<NotificationModel<T>>,
    first: NotificationModel<T>,
    second: NotificationModel<T>,
)
    requires
        merges(first, second),
        s.len() == 0 || !merges(s.last(), first),
        s.len() == 0 || !cancel_shape(s.last(), first),
    ensures
        chain_add(chain_add(s, first), second).len() == s.len() + 1,
        chain_add(chain_add(s, first), second).last().old_value == first.old_value,
        chain_add(chain_add(s, first), second).last().new_value == second.new_value,
        chain_add(chain_add(s, first), second).drop_last() == s,
{
    assert(chain_add(s, first) == s.push(first));
    assert(chain_add(s, first).drop_last() =~= s);
}

/// Adding notifications of distinct kinds that neither merge nor cancel just
/// appends them.
pub proof fn lemma_add_appends<T: NotificationValue>(
    s: Seq<NotificationModel<T>>,
    n: NotificationModel<T>,
)
    requires
        s.len() == 0 || (!merges(s.last(), n) && !cancel_shape(s.last(), n)),
    ensures
        chain_add(s, n) == s.push(n),
{
}

} // verus!

//! The component registry: subsystems keyed by identifier, driven through
//! init, update and dispose.
use crate::clock::{instant_now, nanos_since};
use std::time::Instant;
use crate::data_map::views;
use crate::element::{sorted_keys, Key};
use crate::event::{Dispatch, Event, EventControlHandle, EventManager};
use crate::uuid::{invalid_message, is_valid_uuid, UuidError, UUID};
use vstd::prelude::*;

verus! {

broadcast use vstd::seq_lib::group_seq_properties;

/// A registrable subsystem. Whether it can be disposed or updated is fixed:
/// no method changes it.
pub trait ComponentInstance: Sized {
    spec fn is_enabled(&self) -> bool;

    spec fn can_dispose(&self) -> bool;

    spec fn can_update(&self) -> bool;

    /// `self` is `before` with its enable flag set to `on`.
    spec fn toggled(&self, before: Self, on: bool) -> bool;

    /// `self` is `before` advanced by `delta` nanoseconds.
    spec fn advanced(&self, before: Self, delta: u128) -> bool;

    /// `self` is `before` disposed, having fired `fired` meanwhile.
    spec fn disposed(&self, before: Self, fired: Vec<Dispatch<()>>) -> bool;

    fn enabled(&self) -> (r: bool)
        ensures
            r == self.is_enabled(),
    ;

    fn set_enabled(&mut self, enabled: bool)
        ensures
            final(self).toggled(*old(self), enabled),
            final(self).is_enabled() == enabled,
            final(self).can_dispose() == old(self).can_dispose(),
            final(self).can_update() == old(self).can_update(),
    ;

    fn is_disposable(&self) -> (r: bool)
        ensures
            r == self.can_dispose(),
    ;

    /// Releases what the component holds, and hands out what its own events
    /// fired meanwhile.
    fn dispose(&mut self) -> (r: Vec<Dispatch<()>>)
        ensures
            final(self).disposed(*old(self), r),
            final(self).is_enabled() == old(self).is_enabled(),
            final(self).can_dispose() == old(self).can_dispose(),
            final(self).can_update() == old(self).can_update(),
    ;

    fn is_updateable(&self) -> (r: bool)
        ensures
            r == self.can_update(),
    ;

    /// Advances the component by `delta` nanoseconds.
    fn update(&mut self, delta: u128)
        ensures
            final(self).advanced(*old(self), delta),
            final(self).is_enabled() == old(self).is_enabled(),
            final(self).can_dispose() == old(self).can_dispose(),
            final(self).can_update() == old(self).can_update(),
    ;
}

/// A component kind with a fixed identifier and a way to make one.
pub trait ComponentFactory<C> {
    /// The kind's identifier.
    spec fn spec_uuid() -> &'static str;

    fn uuid() -> (r: String)
        ensures
            r@ == Self::spec_uuid()@,
    ;

    fn create() -> C;
}

/// Why a registration failed.
pub enum ComponentsError {
    /// The identifier is already registered.
    AlreadyExists(String),
    /// The identifier is not a valid UUID.
    InvalidUuid(UuidError),
    /// The lock around a shared registry is unusable: a holder failed while
    /// holding it.
    LockPoisoned,
}

/// The text of an already-registered error, for the identifier `uuid`.
pub open spec fn already_exists_message(uuid: Seq<char>) -> Seq<char> {
    "component with uuid "@ + uuid + " already exists"@
}

impl ComponentsError {
    /// A human-readable description of the error.
    pub fn message(&self) -> (r: String)
        ensures
            match self {
                ComponentsError::AlreadyExists(u) => r@ == already_exists_message(u@),
                ComponentsError::InvalidUuid(e) => r@ == e.message@,
                ComponentsError::LockPoisoned => r@ == "the registry lock is poisoned"@,
            },
    {
        match self {
            ComponentsError::AlreadyExists(u) => {
                let mut m = String::from_str("component with uuid ");
                m.append(u.as_str());
                m.append(" already exists");
                m
            },
            ComponentsError::InvalidUuid(e) => e.message.clone(),
            ComponentsError::LockPoisoned => String::from_str("the registry lock is poisoned"),
        }
    }
}

impl From<UuidError> for ComponentsError {
    fn from(value: UuidError) -> (r: ComponentsError)
        ensures
            r == ComponentsError::InvalidUuid(value),
    {
        ComponentsError::InvalidUuid(value)
    }
}

impl vstd::std_specs::convert::FromSpecImpl<UuidError> for ComponentsError {
    open spec fn obeys_from_spec() -> bool {
        true
    }

    open spec fn from_spec(v: UuidError) -> ComponentsError {
        ComponentsError::InvalidUuid(v)
    }
}

/// The registry: components by identifier, in increasing identifier order.
pub struct Components<C> {
    pub enabled: bool,
    ids: Vec<String>,
    list: Vec<C>,
    model: Ghost<Map<Seq<char>, C>>,
    disposed: Vec<String>,
    last_update: Option<u128>,
    origin: Instant,
    pub events: EventManager,
    pub on_disposed: Event<()>,
    pub on_init: Event<()>,
}

/// The time between two clock readings, or 0 when there is no earlier
/// reading or the clock went back.
pub open spec fn elapsed(last: Option<u128>, now: u128) -> u128 {
    match last {
        Some(t) => if now >= t {
            (now - t) as u128
        } else {
            0
        },
        None => 0,
    }
}

/// The identifiers, in order, of the components that an update tick reaches:
/// those enabled and updateable.
pub open spec fn tick_targets<C: ComponentInstance>(ids: Seq<Seq<char>>, comps: Seq<C>) -> Seq<
    Seq<char>,
>
    decreases ids.len(),
{
    if ids.len() == 0 || comps.len() == 0 {
        Seq::empty()
    } else {
        let before = tick_targets(ids.drop_last(), comps.drop_last());
        if comps.last().is_enabled() && comps.last().can_update() {
            before.push(ids.last())
        } else {
            before
        }
    }
}

/// The identifiers, in order, of the components that report themselves
/// disposable.
pub open spec fn disposable_ids<C: ComponentInstance>(ids: Seq<Seq<char>>, comps: Seq<C>) -> Seq<
    Seq<char>,
>
    decreases ids.len(),
{
    if ids.len() == 0 || comps.len() == 0 {
        Seq::empty()
    } else {
        let before = disposable_ids(ids.drop_last(), comps.drop_last());
        if comps.last().can_dispose() {
            before.push(ids.last())
        } else {
            before
        }
    }
}

/// `after` is `before` after one tick by `delta`: each enabled, updateable
/// component advanced, every other component unchanged.
pub open spec fn ticked<C: ComponentInstance>(before: Seq<C>, after: Seq<C>, delta: u128) -> bool {
    &&& after.len() == before.len()
    &&& forall|i: int|
        #![trigger after[i]]
        0 <= i < before.len() ==> if before[i].is_enabled() && before[i].can_update() {
            after[i].advanced(before[i], delta)
        } else {
            after[i] == before[i]
        }
}

/// `after` is `before` with every component's enable flag set to `on`.
pub open spec fn all_toggled<C: ComponentInstance>(before: Seq<C>, after: Seq<C>, on: bool) -> bool {
    &&& after.len() == before.len()
    &&& forall|i: int| #![trigger after[i]] 0 <= i < before.len() ==> after[i].toggled(before[i], on)
}

/// `after` holds the components of `before` with their capabilities, and
/// with enable flags as `enabled` says of each.
pub open spec fn same_capabilities<C: ComponentInstance>(
    before: Seq<C>,
    after: Seq<C>,
    enabled: spec_fn(int) -> bool,
) -> bool {
    &&& after.len() == before.len()
    &&& forall|i: int|
        0 <= i < before.len() ==> (#[trigger] after[i]).can_dispose() == before[i].can_dispose()
            && after[i].can_update() == before[i].can_update() && after[i].is_enabled()
            == enabled(i)
}

impl<C: ComponentInstance> Components<C> {
    /// The release of the registry's interface.
    pub const RELEASE: &'static str = "2.4.3";

    /// The registry's enable flag.
    pub closed spec fn active(&self) -> bool {
        self.enabled
    }

    /// The components by identifier.
    pub closed spec fn view(&self) -> Map<Seq<char>, C> {
        self.model@
    }

    /// The identifiers in increasing order.
    pub closed spec fn order(&self) -> Seq<Seq<char>> {
        views(self.ids@)
    }

    /// The components in the order of their identifiers.
    pub closed spec fn instances(&self) -> Seq<C> {
        self.list@
    }

    /// The identifiers of the components that this registry has disposed.
    pub closed spec fn ledger(&self) -> Set<Seq<char>> {
        views(self.disposed@).to_set()
    }

    /// The reading of the clock at the last update tick.
    pub closed spec fn last_tick(&self) -> Option<u128> {
        self.last_update
    }

    /// The table that holds the registry's events.
    pub closed spec fn table(&self) -> EventManager {
        self.events
    }

    /// The init event.
    pub closed spec fn init_event(&self) -> EventControlHandle {
        self.on_init.id()
    }

    /// The disposed event.
    pub closed spec fn disposed_event(&self) -> EventControlHandle {
        self.on_disposed.id()
    }

    /// Identifiers unique, one component each, and the two events in the table.
    pub closed spec fn wf(&self) -> bool {
        &&& self.ids@.len() == self.list@.len()
        &&& views(self.ids@).no_duplicates()
        &&& sorted_keys::<String>(views(self.ids@))
        &&& self.model@.dom() == views(self.ids@).to_set()
        &&& forall|i: int|
            0 <= i < self.ids@.len() ==> self.model@[#[trigger] self.ids@[i]@] == self.list@[i]
        &&& self.events.has(self.on_init.id())
        &&& self.events.has(self.on_disposed.id())
        &&& self.on_init.id() != self.on_disposed.id()
    }

    proof fn lemma_index_of(&self, i: int)
        requires
            self.wf(),
            0 <= i < self.ids@.len(),
        ensures
            self.model@.contains_key(self.ids@[i]@),
            self.order()[i] == self.ids@[i]@,
    {
        assert(views(self.ids@)[i] == self.ids@[i]@);
        assert(views(self.ids@).contains(self.ids@[i]@));
    }

    /// The identifiers are listed once each, in increasing order, and are
    /// those of the registered components.
    pub proof fn lemma_order(&self)
        requires
            self.wf(),
        ensures
            self.order().no_duplicates(),
            sorted_keys::<String>(self.order()),
            self.order().to_set() == self.view().dom(),
            self.instances().len() == self.order().len(),
    {
    }

    proof fn lemma_resync(before: &Self, after: &Self, i: int)
        requires
            before.wf(),
            0 <= i < before.ids@.len(),
            after.ids == before.ids,
            after.list@ == before.list@.update(i, after.list@[i]),
            after.model@ == before.model@.insert(before.ids@[i]@, after.list@[i]),
            after.events == before.events,
            after.on_init == before.on_init,
            after.on_disposed == before.on_disposed,
        ensures
            after.wf(),
            after.view().dom() == before.view().dom(),
    {
        before.lemma_index_of(i);
        assert(after.model@.dom() =~= before.model@.dom());
        assert forall|j: int| 0 <= j < after.ids@.len() implies after.model@[#[trigger] after.ids@[j]@]
            == after.list@[j] by {
            if j != i {
                assert(views(before.ids@)[j] != views(before.ids@)[i]);
            }
        }
    }

    fn set_enabled_at(&mut self, i: usize, on: bool)
        requires
            old(self).wf(),
            i < old(self).ids@.len(),
        ensures
            final(self).wf(),
            final(self).list@ == old(self).list@.update(i as int, final(self).list@[i as int]),
            final(self).list@[i as int].is_enabled() == on,
            final(self).list@[i as int].toggled(old(self).list@[i as int], on),
            final(self).list@[i as int].can_dispose() == old(self).list@[i as int].can_dispose(),
            final(self).list@[i as int].can_update() == old(self).list@[i as int].can_update(),
            final(self).ids == old(self).ids,
            final(self).view().dom() == old(self).view().dom(),
            final(self).enabled == old(self).enabled,
            final(self).disposed == old(self).disposed,
            final(self).last_update == old(self).last_update,
            final(self).events == old(self).events,
            final(self).on_init == old(self).on_init,
            final(self).on_disposed == old(self).on_disposed,
    {
        self.list[i].set_enabled(on);
        self.model = Ghost(self.model@.insert(self.ids@[i as int]@, self.list@[i as int]));
        proof {
            Self::lemma_resync(&*old(self), &*self, i as int);
        }
    }

    fn dispose_at(&mut self, i: usize) -> (r: Vec<Dispatch<()>>)
        requires
            old(self).wf(),
            i < old(self).ids@.len(),
        ensures
            final(self).wf(),
            final(self).list@[i as int].disposed(old(self).list@[i as int], r),
            final(self).list@ == old(self).list@.update(i as int, final(self).list@[i as int]),
            final(self).list@[i as int].is_enabled() == old(self).list@[i as int].is_enabled(),
            final(self).list@[i as int].can_dispose() == old(self).list@[i as int].can_dispose(),
            final(self).list@[i as int].can_update() == old(self).list@[i as int].can_update(),
            final(self).ids == old(self).ids,
            final(self).view().dom() == old(self).view().dom(),
            final(self).enabled == old(self).enabled,
            final(self).disposed == old(self).disposed,
            final(self).last_update == old(self).last_update,
            final(self).events == old(self).events,
            final(self).on_init == old(self).on_init,
            final(self).on_disposed == old(self).on_disposed,
    {
        let r = self.list[i].dispose();
        self.model = Ghost(self.model@.insert(self.ids@[i as int]@, self.list@[i as int]));
        proof {
            Self::lemma_resync(&*old(self), &*self, i as int);
        }
        r
    }

    fn update_one(&mut self, i: usize, delta: u128)
        requires
            old(self).wf(),
            i < old(self).ids@.len(),
        ensures
            final(self).wf(),
            final(self).list@[i as int].advanced(old(self).list@[i as int], delta),
            final(self).list@ == old(self).list@.update(i as int, final(self).list@[i as int]),
            final(self).list@[i as int].is_enabled() == old(self).list@[i as int].is_enabled(),
            final(self).list@[i as int].can_dispose() == old(self).list@[i as int].can_dispose(),
            final(self).list@[i as int].can_update() == old(self).list@[i as int].can_update(),
            final(self).ids == old(self).ids,
            final(self).view().dom() == old(self).view().dom(),
            final(self).enabled == old(self).enabled,
            final(self).disposed == old(self).disposed,
            final(self).last_update == old(self).last_update,
            final(self).events == old(self).events,
            final(self).on_init == old(self).on_init,
            final(self).on_disposed == old(self).on_disposed,
    {
        self.list[i].update(delta);
        self.model = Ghost(self.model@.insert(self.ids@[i as int]@, self.list@[i as int]));
        proof {
            Self::lemma_resync(&*old(self), &*self, i as int);
        }
    }

    /// One update tick at the clock reading `now`. A disabled registry does
    /// nothing. Otherwise every component that is enabled and updateable is
    /// advanced by the time since the last tick (0 on the first), and their
    /// identifiers are returned in order.
    pub fn update_at(&mut self, now: u128) -> (r: Vec<String>)
        requires
            old(self).wf(),
        ensures
            final(self).wf(),
            !old(self).active() ==> *final(self) == *old(self) && r@.len() == 0,
            old(self).active() ==> {
                &&& final(self).last_tick() == Some(now)
                &&& views(r@) == tick_targets(old(self).order(), old(self).instances())
                &&& ticked(
                    old(self).instances(),
                    final(self).instances(),
                    elapsed(old(self).last_tick(), now),
                )
            },
            final(self).active() == old(self).active(),
            final(self).order() == old(self).order(),
            final(self).view().dom() == old(self).view().dom(),
            final(self).ledger() == old(self).ledger(),
            final(self).table() == old(self).table(),
            final(self).init_event() == old(self).init_event(),
            final(self).disposed_event() == old(self).disposed_event(),
            same_capabilities(
                old(self).instances(),
                final(self).instances(),
                |j: int| old(self).instances()[j].is_enabled(),
            ),
    {
        let mut out: Vec<String> = Vec::new();
        if !self.enabled {
            return out;
        }
        let delta: u128 = match self.last_update {
            Some(t) => if now >= t {
                now - t
            } else {
                0
            },
            None => 0,
        };
        assert(delta == elapsed(old(self).last_update, now));
        self.last_update = Some(now);
        let ghost ids0 = views(old(self).ids@);
        let ghost comps0 = old(self).list@;
        let mut i: usize = 0;
        while i < self.list.len()
            invariant
                self.wf(),
                self.ids == old(self).ids,
                self.enabled == old(self).enabled,
                self.disposed == old(self).disposed,
                self.last_update == Some(now),
                forall|j: int|
                    #![trigger self.list@[j]]
                    0 <= j < i ==> if comps0[j].is_enabled() && comps0[j].can_update() {
                        self.list@[j].advanced(comps0[j], delta)
                    } else {
                        self.list@[j] == comps0[j]
                    },
                self.events == old(self).events,
                self.on_init == old(self).on_init,
                self.on_disposed == old(self).on_disposed,
                self.view().dom() == old(self).view().dom(),
                ids0 == views(self.ids@),
                comps0.len() == self.list@.len(),
                0 <= i <= self.list@.len(),
                forall|j: int| i <= j < comps0.len() ==> self.list@[j] == comps0[j],
                same_capabilities(comps0, self.list@, |j: int| comps0[j].is_enabled()),
                views(out@) == tick_targets(ids0.subrange(0, i as int), comps0.subrange(0, i as int)),
            decreases self.list@.len() - i,
        {
            proof {
                assert(ids0.subrange(0, i + 1).drop_last() =~= ids0.subrange(0, i as int));
                assert(comps0.subrange(0, i + 1).drop_last() =~= comps0.subrange(0, i as int));
                assert(ids0.subrange(0, i + 1).last() == self.ids@[i as int]@);
            }
            if self.list[i].enabled() && self.list[i].is_updateable() {
                self.update_one(i, delta);
                let ghost prev = out@;
                out.push(self.ids[i].clone());
                proof {
                    assert(views(out@) =~= views(prev).push(self.ids@[i as int]@));
                }
            }
            i = i + 1;
        }
        proof {
            assert(ids0.subrange(0, i as int) =~= ids0);
            assert(comps0.subrange(0, i as int) =~= comps0);
        }
        out
    }

    /// One update tick at the current reading of the monotonic clock, in
    /// nanoseconds since the registry was made.
    pub fn update(&mut self) -> (r: Vec<String>)
        requires
            old(self).wf(),
        ensures
            final(self).wf(),
            !old(self).active() ==> *final(self) == *old(self) && r@.len() == 0,
            old(self).active() ==> views(r@) == tick_targets(
                old(self).order(),
                old(self).instances(),
            ),
            old(self).active() ==> final(self).last_tick() is Some,
            final(self).active() == old(self).active(),
            final(self).view().dom() == old(self).view().dom(),
            final(self).ledger() == old(self).ledger(),
            final(self).table() == old(self).table(),
            final(self).init_event() == old(self).init_event(),
            final(self).disposed_event() == old(self).disposed_event(),
            same_capabilities(
                old(self).instances(),
                final(self).instances(),
                |j: int| old(self).instances()[j].is_enabled(),
            ),
            old(self).active() ==> exists|now: u128|
                final(self).last_tick() == Some(now) && #[trigger] ticked(
                    old(self).instances(),
                    final(self).instances(),
                    elapsed(old(self).last_tick(), now),
                ),
            final(self).order() == old(self).order(),
    {
        let now = nanos_since(&self.origin);
        self.update_at(now)
    }

    fn set_all_enabled(&mut self, on: bool)
        requires
            old(self).wf(),
        ensures
            final(self).wf(),
            final(self).ids == old(self).ids,
            final(self).view().dom() == old(self).view().dom(),
            final(self).enabled == old(self).enabled,
            final(self).disposed == old(self).disposed,
            final(self).last_update == old(self).last_update,
            final(self).events == old(self).events,
            final(self).on_init == old(self).on_init,
            final(self).on_disposed == old(self).on_disposed,
            same_capabilities(old(self).list@, final(self).list@, |j: int| on),
            all_toggled(old(self).list@, final(self).list@, on),
    {
        let mut i: usize = 0;
        while i < self.list.len()
            invariant
                self.wf(),
                self.ids == old(self).ids,
                self.enabled == old(self).enabled,
                self.disposed == old(self).disposed,
                self.last_update == old(self).last_update,
                self.events == old(self).events,
                self.on_init == old(self).on_init,
                self.on_disposed == old(self).on_disposed,
                self.view().dom() == old(self).view().dom(),
                self.list@.len() == old(self).list@.len(),
                0 <= i <= self.list@.len(),
                forall|j: int| i <= j < self.list@.len() ==> self.list@[j] == old(self).list@[j],
                forall|j: int|
                    0 <= j < i ==> (#[trigger] self.list@[j]).is_enabled() == on
                        && self.list@[j].can_dispose() == old(self).list@[j].can_dispose()
                        && self.list@[j].can_update() == old(self).list@[j].can_update()
                        && self.list@[j].toggled(old(self).list@[j], on),
            decreases self.list@.len() - i,
        {
            self.set_enabled_at(i, on);
            i = i + 1;
        }
    }

    /// Starts the registry at the clock reading `now`: enables it and every
    /// component, restarts the update clock, runs one tick, and fires init.
    pub fn init_at(&mut self, now: u128) -> (r: Dispatch<()>)
        requires
            old(self).wf(),
        ensures
            final(self).wf(),
            final(self).active(),
            final(self).last_tick() == Some(now),
            final(self).order() == old(self).order(),
            final(self).view().dom() == old(self).view().dom(),
            final(self).ledger() == old(self).ledger(),
            same_capabilities(old(self).instances(), final(self).instances(), |j: int| true),
            exists|enabled: Seq<C>|
                #[trigger] all_toggled(old(self).instances(), enabled, true) && ticked(
                    enabled,
                    final(self).instances(),
                    0,
                ),
            r.event == old(self).init_event(),
            r.handlers@ == old(self).table().dispatch_list(r.event, None),
            r.data == Some(()),
    {
        self.enabled = true;
        self.set_all_enabled(true);
        self.last_update = Some(now);
        let ghost enabled = self.list@;
        self.update_at(now);
        assert(all_toggled(old(self).instances(), enabled, true));
        self.on_init.trigger(&self.events, Some(()))
    }

    /// Starts the registry at the current reading of the monotonic clock.
    pub fn init(&mut self) -> (r: Dispatch<()>)
        requires
            old(self).wf(),
        ensures
            final(self).wf(),
            final(self).active(),
            final(self).last_tick() is Some,
            final(self).order() == old(self).order(),
            final(self).view().dom() == old(self).view().dom(),
            final(self).ledger() == old(self).ledger(),
            same_capabilities(old(self).instances(), final(self).instances(), |j: int| true),
            exists|enabled: Seq<C>|
                #[trigger] all_toggled(old(self).instances(), enabled, true) && ticked(
                    enabled,
                    final(self).instances(),
                    0,
                ),
            r.event == old(self).init_event(),
            r.handlers@ == old(self).table().dispatch_list(r.event, None),
            r.data == Some(()),
    {
        let now = nanos_since(&self.origin);
        self.init_at(now)
    }

    /// Stops the registry: disables it and every component, disposes each
    /// disposable component that it has not disposed before, records it in
    /// the ledger, and fires disposed. A component is thus disposed at most
    /// once, however often the registry is disposed. Hands out, for each
    /// component in order, what it fired while being disposed (`None` when it
    /// was not disposed now), and the registry's own disposed event.
    pub fn dispose(&mut self) -> (r: (Vec<Option<Vec<Dispatch<()>>>>, Dispatch<()>))
        requires
            old(self).wf(),
        ensures
            final(self).wf(),
            !final(self).active(),
            final(self).order() == old(self).order(),
            final(self).view().dom() == old(self).view().dom(),
            same_capabilities(old(self).instances(), final(self).instances(), |j: int| false),
            final(self).ledger() == old(self).ledger() + disposable_ids(
                old(self).order(),
                old(self).instances(),
            ).to_set(),
            r.0@.len() == old(self).instances().len(),
            forall|i: int|
                #![trigger r.0@[i]]
                0 <= i < r.0@.len() ==> {
                    &&& (r.0@[i] is Some) == (old(self).instances()[i].can_dispose()
                        && !old(self).ledger().contains(old(self).order()[i]))
                    &&& r.0@[i] matches Some(f) ==> exists|mid: C|
                        #[trigger] mid.toggled(old(self).instances()[i], false)
                            && final(self).instances()[i].disposed(mid, f)
                    &&& r.0@[i] is None ==> final(self).instances()[i].toggled(
                        old(self).instances()[i],
                        false,
                    )
                },
            r.1.event == old(self).disposed_event(),
            r.1.handlers@ == old(self).table().dispatch_list(r.1.event, None),
            r.1.data == Some(()),
    {
        self.enabled = false;
        let mut fired: Vec<Option<Vec<Dispatch<()>>>> = Vec::new();
        let ghost ids0 = views(old(self).ids@);
        let ghost comps0 = old(self).list@;
        let ghost ledger0 = views(old(self).disposed@).to_set();
        let mut i: usize = 0;
        while i < self.list.len()
            invariant
                self.wf(),
                self.ids == old(self).ids,
                !self.enabled,
                self.last_update == old(self).last_update,
                self.events == old(self).events,
                self.on_init == old(self).on_init,
                self.on_disposed == old(self).on_disposed,
                self.view().dom() == old(self).view().dom(),
                ids0 == views(self.ids@),
                ids0.no_duplicates(),
                ledger0 == views(old(self).disposed@).to_set(),
                comps0.len() == self.list@.len(),
                0 <= i <= self.list@.len(),
                forall|j: int| i <= j < comps0.len() ==> self.list@[j] == comps0[j],
                forall|j: int|
                    0 <= j < i ==> (#[trigger] self.list@[j]).is_enabled() == false
                        && self.list@[j].can_dispose() == comps0[j].can_dispose()
                        && self.list@[j].can_update() == comps0[j].can_update(),
                views(self.disposed@).to_set() == ledger0 + disposable_ids(
                    ids0.subrange(0, i as int),
                    comps0.subrange(0, i as int),
                ).to_set(),
                fired@.len() == i,
                forall|j: int|
                    #![trigger fired@[j]]
                    0 <= j < i ==> {
                        &&& (fired@[j] is Some) == (comps0[j].can_dispose() && !ledger0.contains(
                            ids0[j],
                        ))
                        &&& fired@[j] matches Some(f) ==> exists|mid: C|
                            #[trigger] mid.toggled(comps0[j], false) && self.list@[j].disposed(
                                mid,
                                f,
                            )
                        &&& fired@[j] is None ==> self.list@[j].toggled(comps0[j], false)
                    },
            decreases self.list@.len() - i,
        {
            proof {
                assert(ids0.subrange(0, i + 1).drop_last() =~= ids0.subrange(0, i as int));
                assert(comps0.subrange(0, i + 1).drop_last() =~= comps0.subrange(0, i as int));
                assert(ids0.subrange(0, i + 1).last() == self.ids@[i as int]@);
                assert(ids0[i as int] == self.ids@[i as int]@);
            }
            let ghost before = disposable_ids(ids0.subrange(0, i as int), comps0.subrange(0, i as int));
            let ghost list_before = self.list@;
            self.set_enabled_at(i, false);
            let ghost mid = self.list@[i as int];
            let ghost disposed_before = views(self.disposed@);
            proof {
                lemma_disposable_ids_within(ids0.subrange(0, i as int), comps0.subrange(0, i as int));
                let id = ids0[i as int];
                assert(!ids0.subrange(0, i as int).contains(id)) by {
                    if ids0.subrange(0, i as int).contains(id) {
                        let t = choose|t: int| 0 <= t < i && ids0.subrange(0, i as int)[t] == id;
                        assert(ids0[t] == ids0[i as int]);
                    }
                }
                assert(!before.contains(id));
                assert(disposed_before.to_set().contains(id) == disposed_before.contains(id));
                assert(before.to_set().contains(id) == before.contains(id));
                assert(disposed_before.contains(id) == ledger0.contains(id));
            }
            if self.list[i].is_disposable() && !list_has(&self.disposed, &self.ids[i]) {
                let sub = self.dispose_at(i);
                let ghost prev = self.disposed@;
                self.disposed.push(self.ids[i].clone());
                proof {
                    assert(views(self.disposed@) =~= views(prev).push(self.ids@[i as int]@));
                    assert(mid.toggled(comps0[i as int], false) && self.list@[i as int].disposed(mid, sub));
                }
                fired.push(Some(sub));
            } else {
                fired.push(None);
            }
            proof {
                let now = disposable_ids(ids0.subrange(0, i + 1), comps0.subrange(0, i + 1));
                if comps0[i as int].can_dispose() {
                    assert(now == before.push(self.ids@[i as int]@));
                    assert forall|x: Seq<char>| #[trigger] now.contains(x) <==> before.contains(x) || x == self.ids@[i as int]@ by {}
                    assert forall|x: Seq<char>| #[trigger] views(self.disposed@).contains(x) <==> disposed_before.contains(x) || x == self.ids@[i as int]@ by {
                        assert(disposed_before.to_set().contains(x) == disposed_before.contains(x));
                    }
                    assert forall|x: Seq<char>| #[trigger] views(self.disposed@).to_set().contains(x) <==> (ledger0 + now.to_set()).contains(x) by {
                        assert(disposed_before.to_set().contains(x) == disposed_before.contains(x));
                        assert(before.to_set().contains(x) == before.contains(x));
                        assert(now.to_set().contains(x) == now.contains(x));
                        assert(views(self.disposed@).to_set().contains(x) == views(self.disposed@).contains(x));
                    }
                    assert(views(self.disposed@).to_set() =~= ledger0 + now.to_set());
                } else {
                    assert(now == before);
                }
                assert forall|j: int| 0 <= j < i implies self.list@[j] == list_before[j] by {}
            }
            i = i + 1;
        }
        proof {
            assert(ids0.subrange(0, i as int) =~= ids0);
            assert(comps0.subrange(0, i as int) =~= comps0);
        }
        (fired, self.on_disposed.trigger(&self.events, Some(())))
    }

    /// The identifiers of the components that this registry has disposed.
    pub fn disposed_identifiers(&self) -> (r: Vec<String>)
        ensures
            views(r@).to_set() == self.ledger(),
    {
        let mut out: Vec<String> = Vec::new();
        let mut i: usize = 0;
        while i < self.disposed.len()
            invariant
                0 <= i <= self.disposed@.len(),
                views(out@) == views(self.disposed@).subrange(0, i as int),
            decreases self.disposed@.len() - i,
        {
            let ghost prev = out@;
            out.push(self.disposed[i].clone());
            proof {
                assert(views(out@) =~= views(prev).push(self.disposed@[i as int]@));
            }
            i = i + 1;
            assert(views(out@) =~= views(self.disposed@).subrange(0, i as int));
        }
        assert(views(self.disposed@).subrange(0, i as int) =~= views(self.disposed@));
        out
    }

    /// An empty, disabled registry.
    pub fn new() -> (r: Self)
        ensures
            r.wf(),
            !r.active(),
            r.view() == Map::<Seq<char>, C>::empty(),
            r.order() == Seq::<Seq<char>>::empty(),
            r.ledger() == Set::<Seq<char>>::empty(),
            r.last_tick() is None,
    {
        let mut events = EventManager::new();
        let on_disposed = Event::new(&mut events);
        let on_init = Event::new(&mut events);
        let r = Components {
            enabled: false,
            ids: Vec::new(),
            list: Vec::new(),
            model: Ghost(Map::empty()),
            disposed: Vec::new(),
            last_update: None,
            origin: instant_now(),
            events,
            on_disposed,
            on_init,
        };
        proof {
            assert(views(r.ids@) =~= Seq::<Seq<char>>::empty());
            assert(r.model@.dom() =~= views(r.ids@).to_set());
            assert(views(r.disposed@).to_set() =~= Set::<Seq<char>>::empty());
        }
        r
    }

    fn find(&self, uuid: &str) -> (r: Option<usize>)
        requires
            self.wf(),
        ensures
            match r {
                Some(i) => i < self.ids@.len() && self.ids@[i as int]@ == uuid@
                    && self.view().contains_key(uuid@),
                None => !self.view().contains_key(uuid@),
            },
    {
        let wanted = uuid.to_owned();
        let mut i: usize = 0;
        while i < self.ids.len()
            invariant
                self.wf(),
                wanted@ == uuid@,
                0 <= i <= self.ids@.len(),
                forall|j: int| 0 <= j < i ==> self.ids@[j]@ != uuid@,
            decreases self.ids@.len() - i,
        {
            if self.ids[i] == wanted {
                proof {
                    self.lemma_index_of(i as int);
                }
                return Some(i);
            }
            i = i + 1;
        }
        proof {
            if self.model@.contains_key(uuid@) {
                assert(views(self.ids@).contains(uuid@));
                let j = choose|j: int| 0 <= j < views(self.ids@).len() && views(self.ids@)[j] == uuid@;
                assert(self.ids@[j]@ == uuid@);
            }
        }
        None
    }

    /// What `add(uuid, instance)` does to `before`, leaving `after`: a taken
    /// identifier fails with `AlreadyExists`, an invalid one with
    /// `InvalidUuid`, and neither changes the registry; otherwise the
    /// instance is registered under the identifier.
    pub open spec fn add_outcome(
        before: &Self,
        after: &Self,
        uuid: Seq<char>,
        instance: C,
        r: Result<(), ComponentsError>,
    ) -> bool {
        &&& after.active() == before.active()
        &&& after.ledger() == before.ledger()
        &&& after.last_tick() == before.last_tick()
        &&& after.table() == before.table()
        &&& after.init_event() == before.init_event()
        &&& after.disposed_event() == before.disposed_event()
        &&& if before.view().contains_key(uuid) {
            &&& r matches Err(ComponentsError::AlreadyExists(s)) && s@ == uuid
            &&& after.view() == before.view()
            &&& after.order() == before.order()
        } else if !is_valid_uuid(uuid) {
            &&& r matches Err(ComponentsError::InvalidUuid(e)) && e.message@ == invalid_message(
                uuid,
            )
            &&& after.view() == before.view()
            &&& after.order() == before.order()
        } else {
            &&& r is Ok
            &&& after.view() == before.view().insert(uuid, instance)
        }
    }

    /// Registers `instance` under `uuid`.
    pub fn add(&mut self, uuid: &str, instance: C) -> (r: Result<(), ComponentsError>)
        requires
            old(self).wf(),
        ensures
            final(self).wf(),
            Self::add_outcome(&*old(self), &*final(self), uuid@, instance, r),
    {
        if self.find(uuid).is_some() {
            return Err(ComponentsError::AlreadyExists(uuid.to_owned()));
        }
        match UUID::validate(uuid) {
            Err(e) => {
                return Err(ComponentsError::InvalidUuid(e));
            },
            Ok(()) => {},
        }
        let key = uuid.to_owned();
        let ghost k = key@;
        let ghost v = views(self.ids@);
        let mut p: usize = 0;
        loop
            invariant
                self.wf(),
                *self == *old(self),
                v == views(self.ids@),
                k == key@,
                !v.contains(k),
                0 <= p <= self.ids@.len(),
                forall|j: int| 0 <= j < p ==> String::precedes(#[trigger] v[j], k),
            ensures
                p == v.len() || !String::precedes(v[p as int], k),
            decreases self.ids@.len() - p,
        {
            if p >= self.ids.len() {
                break;
            }
            assert(v[p as int] == self.ids@[p as int]@);
            if !self.ids[p].less(&key) {
                break;
            }
            p = p + 1;
        }
        proof {
            assert forall|j: int| p <= j < v.len() implies String::precedes(k, #[trigger] v[j]) by {
                String::lemma_order(v[p as int], k, v[p as int]);
                String::lemma_order(k, v[p as int], v[j]);
                assert(v[p as int] != k);
            }
        }
        let ghost inst = instance;
        self.ids.insert(p, key);
        self.list.insert(p, instance);
        self.model = Ghost(self.model@.insert(k, inst));
        proof {
            let w = views(self.ids@);
            assert(w =~= v.insert(p as int, k));
            assert forall|a: int, b: int| 0 <= a < b < w.len() implies String::precedes(w[a], w[b]) by {
                if a < p && b > p {
                    String::lemma_order(w[a], k, w[b]);
                }
            }
            assert forall|a: int, b: int| 0 <= a < b < w.len() implies w[a] != w[b] by {
                String::lemma_order(w[a], w[b], w[b]);
            }
            assert forall|x: Seq<char>| #[trigger] w.contains(x) <==> v.contains(x) || x == k by {
                if w.contains(x) {
                    let t = choose|t: int| 0 <= t < w.len() && w[t] == x;
                    if t < p {
                        assert(v[t] == x);
                    } else if t > p {
                        assert(v[t - 1] == x);
                    }
                }
                if v.contains(x) {
                    let t = choose|t: int| 0 <= t < v.len() && v[t] == x;
                    if t < p {
                        assert(w[t] == x);
                    } else {
                        assert(w[t + 1] == x);
                    }
                }
                if x == k {
                    assert(w[p as int] == k);
                }
            }
            assert(self.model@.dom() =~= w.to_set());
            assert forall|t: int| 0 <= t < self.ids@.len() implies self.model@[#[trigger] self.ids@[t]@]
                == self.list@[t] by {
                assert(w[t] == self.ids@[t]@);
                if t < p {
                    old(self).lemma_index_of(t);
                    assert(self.ids@[t] == old(self).ids@[t]);
                    assert(self.list@[t] == old(self).list@[t]);
                } else if t > p {
                    old(self).lemma_index_of(t - 1);
                    assert(self.ids@[t] == old(self).ids@[t - 1]);
                    assert(self.list@[t] == old(self).list@[t - 1]);
                }
            }
        }
        Ok(())
    }

    /// The component registered under `uuid`, if any.
    pub fn get_by_uuid(&self, uuid: &str) -> (r: Option<&C>)
        requires
            self.wf(),
        ensures
            match r {
                Some(c) => self.view().contains_key(uuid@) && *c == self.view()[uuid@],
                None => !self.view().contains_key(uuid@),
            },
    {
        match self.find(uuid) {
            Some(i) => Some(&self.list[i]),
            None => None,
        }
    }

    /// What `get_or_create` of the kind with identifier `uuid` does to
    /// `before`, leaving `after`: a registered kind is returned as it is and
    /// nothing is made; otherwise one component is made and registered, or
    /// the identifier is refused as invalid.
    pub open spec fn get_or_create_outcome(
        before: &Self,
        after: &Self,
        uuid: Seq<char>,
        r: Result<String, ComponentsError>,
    ) -> bool {
        &&& after.active() == before.active()
        &&& after.ledger() == before.ledger()
        &&& after.table() == before.table()
        &&& if before.view().contains_key(uuid) {
            &&& r matches Ok(id) && id@ == uuid
            &&& after.view() == before.view()
            &&& after.order() == before.order()
        } else if !is_valid_uuid(uuid) {
            &&& r matches Err(ComponentsError::InvalidUuid(e)) && e.message@ == invalid_message(
                uuid,
            )
            &&& after.view() == before.view()
            &&& after.order() == before.order()
        } else {
            &&& r matches Ok(id) && id@ == uuid
            &&& after.view().dom() == before.view().dom().insert(uuid)
            &&& after.view().remove(uuid) == before.view()
        }
    }

    /// The identifier of the component of kind `F`, made and registered on
    /// first use.
    pub fn get_or_create<F: ComponentFactory<C>>(&mut self) -> (r: Result<String, ComponentsError>)
        requires
            old(self).wf(),
        ensures
            final(self).wf(),
            Self::get_or_create_outcome(&*old(self), &*final(self), F::spec_uuid()@, r),
    {
        let uuid = F::uuid();
        if self.find(uuid.as_str()).is_some() {
            return Ok(uuid);
        }
        let instance = F::create();
        match self.add(uuid.as_str(), instance) {
            Ok(()) => {
                proof {
                    assert(self.view().remove(uuid@) =~= old(self).view());
                }
                Ok(uuid)
            },
            Err(e) => Err(e),
        }
    }
}

proof fn lemma_disposable_ids_within<C: ComponentInstance>(ids: Seq<Seq<char>>, comps: Seq<C>)
    ensures
        forall|x: Seq<char>| #[trigger] disposable_ids(ids, comps).contains(x) ==> ids.contains(x),
    decreases ids.len(),
{
    if ids.len() > 0 && comps.len() > 0 {
        lemma_disposable_ids_within(ids.drop_last(), comps.drop_last());
        assert forall|x: Seq<char>| #[trigger] disposable_ids(ids, comps).contains(x) implies ids.contains(x) by {
            if disposable_ids(ids.drop_last(), comps.drop_last()).contains(x) {
                let t = choose|t: int| 0 <= t < ids.drop_last().len() && ids.drop_last()[t] == x;
                assert(ids[t] == x);
            } else {
                assert(ids[ids.len() - 1] == x);
            }
        }
    }
}

fn list_has(v: &Vec<String>, s: &String) -> (r: bool)
    ensures
        r == views(v@).contains(s@),
{
    let mut i: usize = 0;
    while i < v.len()
        invariant
            0 <= i <= v@.len(),
            forall|j: int| 0 <= j < i ==> v@[j]@ != s@,
        decreases v@.len() - i,
    {
        if v[i] == *s {
            assert(views(v@)[i as int] == s@);
            return true;
        }
        i = i + 1;
    }
    proof {
        if views(v@).contains(s@) {
            let j = choose|j: int| 0 <= j < views(v@).len() && views(v@)[j] == s@;
            assert(v@[j]@ == s@);
        }
    }
    false
}

/// A second registration under a taken identifier fails with
/// `AlreadyExists` and leaves the first component in place.
pub proof fn lemma_duplicate_registration<C: ComponentInstance>(
    r0: &Components<C>,
    r1: &Components<C>,
    r2: &Components<C>,
    uuid: Seq<char>,
    x: C,
    y: C,
    res1: Result<(), ComponentsError>,
    res2: Result<(), ComponentsError>,
)
    requires
        Components::add_outcome(r0, r1, uuid, x, res1),
        Components::add_outcome(r1, r2, uuid, y, res2),
        res1 is Ok,
    ensures
        res2 matches Err(ComponentsError::AlreadyExists(s)) && s@ == uuid,
        r2.view().contains_key(uuid),
        r2.view()[uuid] == x,
{
}

/// Asking twice for the same kind yields the same identifier, and the
/// second request makes nothing: the component that the first request
/// returned or made is the one registered afterwards.
pub proof fn lemma_get_or_create_once<C: ComponentInstance>(
    r0: &Components<C>,
    r1: &Components<C>,
    r2: &Components<C>,
    uuid: Seq<char>,
    res1: Result<String, ComponentsError>,
    res2: Result<String, ComponentsError>,
)
    requires
        is_valid_uuid(uuid),
        Components::get_or_create_outcome(r0, r1, uuid, res1),
        Components::get_or_create_outcome(r1, r2, uuid, res2),
    ensures
        res1 matches Ok(a) && res2 matches Ok(b) && a@ == b@ && a@ == uuid,
        r2.view() == r1.view(),
        r2.order() == r1.order(),
        r2.view().contains_key(uuid),
        r0.view().contains_key(uuid) ==> r2.view()[uuid] == r0.view()[uuid],
{
    assert(r1.view().contains_key(uuid));
}

} // verus!

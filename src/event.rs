//! Events: ordered handler lists with an enable flag.
//!
//! The state of every event lives in the table of an [`EventManager`], which
//! the aggregate that owns the events holds. An [`Event`] is a typed handle
//! into that table. Triggering does not run any handler: it hands back a
//! [`Dispatch`], a snapshot of the handlers to run, so that the caller runs
//! them after its borrow of the table has ended and a handler may come back
//! to the same event.
use core::marker::PhantomData;
use vstd::prelude::*;

verus! {

broadcast use vstd::seq_lib::group_seq_properties;

/// A registered handler, known by identity. Registering the same identifier
/// twice lists it twice; removing it removes every entry.
#[derive(Clone, Copy, PartialEq, Eq, Structural, Debug, Hash)]
pub struct HandlerId(pub u64);

/// The identity of one event in the table of an [`EventManager`].
#[derive(Clone, Copy, PartialEq, Eq, Structural, Debug, Hash)]
pub struct EventControlHandle {
    index: usize,
}

/// What a trigger hands out: the handlers to run, in registration order,
/// and the payload for each of them.
pub struct Dispatch<T> {
    pub event: EventControlHandle,
    pub handlers: Vec<HandlerId>,
    pub data: Option<T>,
}

struct EventState {
    enabled: bool,
    handlers: Vec<HandlerId>,
}

fn list_contains(v: &Vec<EventControlHandle>, e: EventControlHandle) -> (r: bool)
    ensures
        r == v@.contains(e),
{
    let mut i: usize = 0;
    while i < v.len()
        invariant
            0 <= i <= v@.len(),
            forall|j: int| 0 <= j < i ==> v@[j] != e,
        decreases v@.len() - i,
    {
        if v[i] == e {
            assert(v@.contains(v@[i as int]));
            return true;
        }
        i = i + 1;
    }
    false
}

/// `s` with every entry equal to `h` left out, the others in order.
pub open spec fn without(s: Seq<HandlerId>, h: HandlerId) -> Seq<HandlerId>
    decreases s.len(),
{
    if s.len() == 0 {
        s
    } else {
        let rest = without(s.drop_last(), h);
        if s.last() == h {
            rest
        } else {
            rest.push(s.last())
        }
    }
}

/// Whether a trigger dispatches: the override when one is given, else the
/// stored flag.
pub open spec fn dispatches(enabled: bool, over: Option<bool>) -> bool {
    match over {
        Some(b) => b,
        None => enabled,
    }
}

/// The table of event states of one aggregate, and the group of member
/// events that [`EventManager::set`] and [`EventManager::reset`] act on.
pub struct EventManager {
    states: Vec<EventState>,
    list: Vec<EventControlHandle>,
}

impl EventControlHandle {
    pub closed spec fn index(&self) -> int {
        self.index as int
    }
}

/// `after` is `before` with the enable flag of every member set to `active`.
pub open spec fn group_set(before: &EventManager, after: &EventManager, active: bool) -> bool {
    &&& after.size() == before.size()
    &&& after.members() == before.members()
    &&& forall|x: EventControlHandle|
        #![trigger after.is_enabled(x)]
        #![trigger after.handlers(x)]
        before.has(x) ==> after.handlers(x) == before.handlers(x) && after.is_enabled(x) == (
        if before.members().contains(x) {
            active
        } else {
            before.is_enabled(x)
        })
}

/// `after` is `before` with the handlers of every member cleared.
pub open spec fn group_reset(before: &EventManager, after: &EventManager) -> bool {
    &&& after.size() == before.size()
    &&& after.members() == before.members()
    &&& forall|x: EventControlHandle|
        #![trigger after.is_enabled(x)]
        #![trigger after.handlers(x)]
        before.has(x) ==> after.is_enabled(x) == before.is_enabled(x) && after.handlers(x) == (
        if before.members().contains(x) {
            Seq::empty()
        } else {
            before.handlers(x)
        })
}

/// Disabling a group silences a member: a trigger hands out no handler.
/// Enabling the group again makes a trigger hand out every handler of the
/// member, in registration order.
pub proof fn lemma_group_silences_and_restores(
    before: &EventManager,
    off: &EventManager,
    on: &EventManager,
    e: EventControlHandle,
)
    requires
        before.has(e),
        before.members().contains(e),
        group_set(before, off, false),
        group_set(off, on, true),
    ensures
        off.dispatch_list(e, None) == Seq::<HandlerId>::empty(),
        on.dispatch_list(e, None) == before.handlers(e),
{
    assert(off.has(e));
    assert(!off.is_enabled(e));
    assert(on.is_enabled(e));
    assert(on.handlers(e) == before.handlers(e));
}

impl EventManager {
    /// The number of events in the table.
    pub closed spec fn size(&self) -> nat {
        self.states@.len()
    }

    /// Whether `e` names an event of this table.
    pub open spec fn has(&self, e: EventControlHandle) -> bool {
        0 <= e.index() < self.size()
    }

    /// The stored enable flag of `e`.
    pub closed spec fn is_enabled(&self, e: EventControlHandle) -> bool {
        self.states@[e.index()].enabled
    }

    /// The handlers of `e`, in registration order.
    pub closed spec fn handlers(&self, e: EventControlHandle) -> Seq<HandlerId> {
        self.states@[e.index()].handlers@
    }

    /// The member events of the group.
    pub closed spec fn members(&self) -> Set<EventControlHandle> {
        self.list@.to_set()
    }

    /// The handlers that a trigger of `e` hands out.
    pub open spec fn dispatch_list(&self, e: EventControlHandle, over: Option<bool>) -> Seq<
        HandlerId,
    > {
        if dispatches(self.is_enabled(e), over) {
            self.handlers(e)
        } else {
            Seq::empty()
        }
    }

    /// `self` and `other` have the same events, flags and handlers, but for `e`.
    pub open spec fn same_except(&self, other: &EventManager, e: EventControlHandle) -> bool {
        &&& self.size() == other.size()
        &&& self.members() == other.members()
        &&& forall|x: EventControlHandle|
            #![trigger other.is_enabled(x)]
            #![trigger other.handlers(x)]
            x != e && other.has(x) ==> other.is_enabled(x) == self.is_enabled(x)
                && other.handlers(x) == self.handlers(x)
    }

    /// Whether `e` names an event of this table.
    pub fn has_event(&self, e: EventControlHandle) -> (r: bool)
        ensures
            r == self.has(e),
    {
        e.index < self.states.len()
    }

    /// An empty table with an empty group.
    pub fn new() -> (r: EventManager)
        ensures
            r.size() == 0,
            r.members() == Set::<EventControlHandle>::empty(),
    {
        EventManager { states: Vec::new(), list: Vec::new() }
    }

    fn is_member(&self, e: EventControlHandle) -> (r: bool)
        ensures
            r == self.members().contains(e),
    {
        list_contains(&self.list, e)
    }

    /// Adds the given events to the group; each is a member once, however
    /// often it is added.
    pub fn add(&mut self, events: Vec<EventControlHandle>)
        ensures
            final(self).members() == old(self).members() + events@.to_set(),
            final(self).size() == old(self).size(),
            forall|x: EventControlHandle|
                #![trigger final(self).is_enabled(x)]
                #![trigger final(self).handlers(x)]
                old(self).has(x) ==> final(self).is_enabled(x) == old(self).is_enabled(x)
                    && final(self).handlers(x) == old(self).handlers(x),
    {
        let mut i: usize = 0;
        while i < events.len()
            invariant
                0 <= i <= events@.len(),
                self.states@ == old(self).states@,
                self.members() == old(self).members() + events@.subrange(0, i as int).to_set(),
            decreases events@.len() - i,
        {
            let e = events[i];
            let ghost prev = self.list@;
            let ghost done = events@.subrange(0, i as int);
            proof {
                assert(events@.subrange(0, i + 1) =~= done.push(e));
            }
            if !self.is_member(e) {
                self.list.push(e);
            }
            i = i + 1;
            assert forall|x: EventControlHandle|
                #[trigger] self.list@.contains(x) <==> prev.contains(x) || x == e by {
                if self.list@ != prev {
                    assert(self.list@ == prev.push(e));
                }
            }
            assert forall|x: EventControlHandle|
                #[trigger] self.members().contains(x) <==> (old(self).members()
                    + events@.subrange(0, i as int).to_set()).contains(x) by {
                assert(self.members().contains(x) == self.list@.contains(x));
                assert(prev.to_set().contains(x) == prev.contains(x));
                assert(events@.subrange(0, i as int).to_set().contains(x) == done.push(e).contains(x));
            }
            assert(self.members() =~= old(self).members() + events@.subrange(0, i as int).to_set());
        }
        assert(events@.subrange(0, events@.len() as int) =~= events@);
    }

    /// Takes the given events out of the group.
    pub fn remove(&mut self, events: Vec<EventControlHandle>)
        ensures
            final(self).members() == old(self).members() - events@.to_set(),
            final(self).size() == old(self).size(),
            forall|x: EventControlHandle|
                #![trigger final(self).is_enabled(x)]
                #![trigger final(self).handlers(x)]
                old(self).has(x) ==> final(self).is_enabled(x) == old(self).is_enabled(x)
                    && final(self).handlers(x) == old(self).handlers(x),
    {
        let mut kept: Vec<EventControlHandle> = Vec::new();
        let mut i: usize = 0;
        while i < self.list.len()
            invariant
                *self == *old(self),
                0 <= i <= self.list@.len(),
                kept@.to_set() == self.list@.subrange(0, i as int).to_set() - events@.to_set(),
            decreases self.list@.len() - i,
        {
            let x = self.list[i];
            let found = list_contains(&events, x);
            proof {
                assert(self.list@.subrange(0, i + 1) =~= self.list@.subrange(0, i as int).push(x));
            }
            let ghost prev = kept@;
            if !found {
                kept.push(x);
            }
            i = i + 1;
            assert forall|y: EventControlHandle|
                #[trigger] kept@.contains(y) <==> prev.contains(y) || (y == x && !found) by {
                if !found {
                    assert(kept@ == prev.push(x));
                }
            }
            assert forall|y: EventControlHandle|
                #[trigger] kept@.to_set().contains(y) <==> (self.list@.subrange(0, i as int).to_set()
                    - events@.to_set()).contains(y) by {
                assert(kept@.to_set().contains(y) == kept@.contains(y));
                assert(prev.to_set().contains(y) == prev.contains(y));
                assert(self.list@.subrange(0, i as int).to_set().contains(y) == self.list@.subrange(0, i - 1).push(x).contains(y));
                assert(self.list@.subrange(0, i - 1).to_set().contains(y) == self.list@.subrange(0, i - 1).contains(y));
            }
            assert(kept@.to_set() =~= self.list@.subrange(0, i as int).to_set() - events@.to_set());
        }
        assert(self.list@.subrange(0, self.list@.len() as int) =~= self.list@);
        self.list = kept;
    }

    /// Sets the enable flag of every member of the group.
    pub fn set(&mut self, active: bool)
        ensures
            group_set(&*old(self), &*final(self), active),
    {
        let mut i: usize = 0;
        while i < self.list.len()
            invariant
                0 <= i <= self.list@.len(),
                self.list@ == old(self).list@,
                self.size() == old(self).size(),
                forall|x: EventControlHandle|
                    #![trigger self.is_enabled(x)]
                    #![trigger self.handlers(x)]
                    old(self).has(x) ==> self.handlers(x) == old(self).handlers(x)
                        && self.is_enabled(x) == (if self.list@.subrange(0, i as int).contains(x) {
                        active
                    } else {
                        old(self).is_enabled(x)
                    }),
            decreases self.list@.len() - i,
        {
            let e = self.list[i];
            if e.index < self.states.len() {
                self.set_event_enabled(e, active);
            }
            proof {
                assert(self.list@.subrange(0, i + 1) =~= self.list@.subrange(0, i as int).push(e));
            }
            i = i + 1;
        }
        proof {
            assert(self.list@.subrange(0, self.list@.len() as int) =~= self.list@);
            assert forall|x: EventControlHandle| #[trigger] self.list@.contains(x) <==> old(self).members().contains(x) by {
            }
        }
    }

    /// Clears the handlers of every member of the group; the enable flags stay.
    pub fn reset(&mut self)
        ensures
            group_reset(&*old(self), &*final(self)),
    {
        let mut i: usize = 0;
        while i < self.list.len()
            invariant
                0 <= i <= self.list@.len(),
                self.list@ == old(self).list@,
                self.size() == old(self).size(),
                forall|x: EventControlHandle|
                    #![trigger self.is_enabled(x)]
                    #![trigger self.handlers(x)]
                    old(self).has(x) ==> self.is_enabled(x) == old(self).is_enabled(x)
                        && self.handlers(x) == (if self.list@.subrange(0, i as int).contains(x) {
                        Seq::empty()
                    } else {
                        old(self).handlers(x)
                    }),
            decreases self.list@.len() - i,
        {
            let e = self.list[i];
            if e.index < self.states.len() {
                self.reset_event(e);
            }
            proof {
                assert(self.list@.subrange(0, i + 1) =~= self.list@.subrange(0, i as int).push(e));
            }
            i = i + 1;
        }
        proof {
            assert(self.list@.subrange(0, self.list@.len() as int) =~= self.list@);
            assert forall|x: EventControlHandle| #[trigger] self.list@.contains(x) <==> old(self).members().contains(x) by {
            }
        }
    }

    /// Adds an enabled event with no handlers.
    fn create(&mut self) -> (e: EventControlHandle)
        ensures
            final(self).size() == old(self).size() + 1,
            e.index() == old(self).size(),
            final(self).is_enabled(e),
            final(self).handlers(e) == Seq::<HandlerId>::empty(),
            final(self).members() == old(self).members(),
            forall|x: EventControlHandle|
                #![trigger final(self).is_enabled(x)]
                #![trigger final(self).handlers(x)]
                old(self).has(x) ==> final(self).is_enabled(x) == old(self).is_enabled(x)
                    && final(self).handlers(x) == old(self).handlers(x),
    {
        let e = EventControlHandle { index: self.states.len() };
        self.states.push(EventState { enabled: true, handlers: Vec::new() });
        e
    }

    fn add_handler(&mut self, e: EventControlHandle, handler: HandlerId)
        requires
            old(self).has(e),
        ensures
            final(self).handlers(e) == old(self).handlers(e).push(handler),
            final(self).is_enabled(e) == old(self).is_enabled(e),
            old(self).same_except(&*final(self), e),
            final(self).list == old(self).list,
    {
        self.states[e.index].handlers.push(handler);
    }

    fn remove_handler(&mut self, e: EventControlHandle, handler: HandlerId)
        requires
            old(self).has(e),
        ensures
            final(self).handlers(e) == without(old(self).handlers(e), handler),
            final(self).is_enabled(e) == old(self).is_enabled(e),
            old(self).same_except(&*final(self), e),
            final(self).list == old(self).list,
    {
        let mut kept: Vec<HandlerId> = Vec::new();
        let n = self.states[e.index].handlers.len();
        let mut i: usize = 0;
        while i < n
            invariant
                *self == *old(self),
                old(self).has(e),
                n == old(self).handlers(e).len(),
                0 <= i <= n,
                kept@ == without(old(self).handlers(e).subrange(0, i as int), handler),
            decreases n - i,
        {
            let h = self.states[e.index].handlers[i];
            proof {
                let s = old(self).handlers(e);
                assert(s.subrange(0, i + 1).drop_last() =~= s.subrange(0, i as int));
            }
            if h != handler {
                kept.push(h);
            }
            i = i + 1;
        }
        proof {
            assert(old(self).handlers(e).subrange(0, n as int) =~= old(self).handlers(e));
        }
        self.states[e.index].handlers = kept;
    }

    fn set_event_enabled(&mut self, e: EventControlHandle, active: bool)
        requires
            old(self).has(e),
        ensures
            final(self).is_enabled(e) == active,
            final(self).handlers(e) == old(self).handlers(e),
            old(self).same_except(&*final(self), e),
            final(self).list == old(self).list,
    {
        self.states[e.index].enabled = active;
    }

    fn reset_event(&mut self, e: EventControlHandle)
        requires
            old(self).has(e),
        ensures
            final(self).handlers(e) == Seq::<HandlerId>::empty(),
            final(self).is_enabled(e) == old(self).is_enabled(e),
            old(self).same_except(&*final(self), e),
            final(self).list == old(self).list,
    {
        self.states[e.index].handlers = Vec::new();
    }

    fn dispatch<T>(&self, e: EventControlHandle, data: Option<T>, over: Option<bool>) -> (r:
        Dispatch<T>)
        requires
            self.has(e),
        ensures
            r.event == e,
            r.handlers@ == self.dispatch_list(e, over),
            r.data == data,
    {
        let on = match over {
            Some(b) => b,
            None => self.states[e.index].enabled,
        };
        let mut handlers: Vec<HandlerId> = Vec::new();
        if on {
            let n = self.states[e.index].handlers.len();
            let mut i: usize = 0;
            while i < n
                invariant
                    self.has(e),
                    n == self.handlers(e).len(),
                    0 <= i <= n,
                    handlers@ == self.handlers(e).subrange(0, i as int),
                decreases n - i,
            {
                handlers.push(self.states[e.index].handlers[i]);
                i = i + 1;
                assert(handlers@ =~= self.handlers(e).subrange(0, i as int));
            }
            assert(handlers@ =~= self.handlers(e));
        }
        Dispatch { event: e, handlers, data }
    }
}

/// Enable and reset control over one event of a table.
pub trait EventControl {
    /// The event that this value controls.
    spec fn controlled(&self) -> EventControlHandle;

    /// Sets the enable flag of the event; its handlers stay.
    fn set_enabled(&self, events: &mut EventManager, active: bool)
        requires
            old(events).has(self.controlled()),
        ensures
            final(events).is_enabled(self.controlled()) == active,
            final(events).handlers(self.controlled()) == old(events).handlers(self.controlled()),
            old(events).same_except(&*final(events), self.controlled()),
    ;

    /// Clears the handlers of the event; its enable flag stays.
    fn reset(&self, events: &mut EventManager)
        requires
            old(events).has(self.controlled()),
        ensures
            final(events).handlers(self.controlled()) == Seq::<HandlerId>::empty(),
            final(events).is_enabled(self.controlled()) == old(events).is_enabled(
                self.controlled(),
            ),
            old(events).same_except(&*final(events), self.controlled()),
    ;
}

impl EventControlHandle {
    /// The handle of the event at `index` of a table.
    pub fn new(index: usize) -> (r: EventControlHandle)
        ensures
            r.index() == index,
    {
        EventControlHandle { index }
    }
}

impl EventControl for EventControlHandle {
    open spec fn controlled(&self) -> EventControlHandle {
        *self
    }

    fn set_enabled(&self, events: &mut EventManager, active: bool) {
        events.set_event_enabled(*self, active);
    }

    fn reset(&self, events: &mut EventManager) {
        events.reset_event(*self);
    }
}

/// An event whose handlers take a payload of type `T`: a handle into the
/// table of an [`EventManager`].
pub struct Event<T> {
    handle: EventControlHandle,
    marker: PhantomData<T>,
}

impl<T> Event<T> {
    /// The event's place in its table.
    pub closed spec fn id(&self) -> EventControlHandle {
        self.handle
    }

    /// A new event in `events`: enabled, with no handlers, in no group.
    pub fn new(events: &mut EventManager) -> (r: Event<T>)
        ensures
            final(events).size() == old(events).size() + 1,
            r.id().index() == old(events).size(),
            final(events).is_enabled(r.id()),
            final(events).handlers(r.id()) == Seq::<HandlerId>::empty(),
            final(events).members() == old(events).members(),
            forall|x: EventControlHandle|
                #![trigger final(events).is_enabled(x)]
                #![trigger final(events).handlers(x)]
                old(events).has(x) ==> final(events).is_enabled(x) == old(events).is_enabled(x)
                    && final(events).handlers(x) == old(events).handlers(x),
    {
        Event { handle: events.create(), marker: PhantomData }
    }

    /// Appends a handler.
    pub fn add(&self, events: &mut EventManager, handler: HandlerId)
        requires
            old(events).has(self.id()),
        ensures
            final(events).handlers(self.id()) == old(events).handlers(self.id()).push(handler),
            final(events).is_enabled(self.id()) == old(events).is_enabled(self.id()),
            old(events).same_except(&*final(events), self.id()),
    {
        events.add_handler(self.handle, handler);
    }

    /// Removes every entry of a handler; nothing happens when it is absent.
    pub fn remove(&self, events: &mut EventManager, handler: HandlerId)
        requires
            old(events).has(self.id()),
        ensures
            final(events).handlers(self.id()) == without(old(events).handlers(self.id()), handler),
            final(events).is_enabled(self.id()) == old(events).is_enabled(self.id()),
            old(events).same_except(&*final(events), self.id()),
    {
        events.remove_handler(self.handle, handler);
    }

    /// Fires the event: the handlers to run with `data` when it is enabled,
    /// none when it is not.
    pub fn trigger(&self, events: &EventManager, data: Option<T>) -> (r: Dispatch<T>)
        requires
            events.has(self.id()),
        ensures
            r.event == self.id(),
            r.handlers@ == events.dispatch_list(self.id(), None),
            r.data == data,
    {
        events.dispatch(self.handle, data, None)
    }

    /// Fires the event, deciding by `enabled` in place of the stored flag
    /// when it is given.
    pub fn trigger_with(&self, events: &EventManager, data: Option<T>, enabled: Option<bool>) -> (r:
        Dispatch<T>)
        requires
            events.has(self.id()),
        ensures
            r.event == self.id(),
            r.handlers@ == events.dispatch_list(self.id(), enabled),
            r.data == data,
    {
        events.dispatch(self.handle, data, enabled)
    }

    /// Clears the handlers; the enable flag stays.
    pub fn reset(&self, events: &mut EventManager)
        requires
            old(events).has(self.id()),
        ensures
            final(events).handlers(self.id()) == Seq::<HandlerId>::empty(),
            final(events).is_enabled(self.id()) == old(events).is_enabled(self.id()),
            old(events).same_except(&*final(events), self.id()),
    {
        events.reset_event(self.handle);
    }

    /// The stored enable flag.
    pub fn enabled(&self, events: &EventManager) -> (r: bool)
        requires
            events.has(self.id()),
        ensures
            r == events.is_enabled(self.id()),
    {
        events.states[self.handle.index].enabled
    }

    /// The handle through which a group controls this event.
    pub fn control_handle(&self) -> (r: EventControlHandle)
        ensures
            r == self.id(),
    {
        self.handle
    }
}

/// An event whose handlers suspend: the caller awaits each handler of a
/// [`Dispatch`] before it starts the next.
pub struct AsyncEvent<T> {
    handle: EventControlHandle,
    marker: PhantomData<T>,
}

impl<T> AsyncEvent<T> {
    /// The event's place in its table.
    pub closed spec fn id(&self) -> EventControlHandle {
        self.handle
    }

    /// A new event in `events`: enabled, with no handlers, in no group.
    pub fn new(events: &mut EventManager) -> (r: AsyncEvent<T>)
        ensures
            final(events).size() == old(events).size() + 1,
            r.id().index() == old(events).size(),
            final(events).is_enabled(r.id()),
            final(events).handlers(r.id()) == Seq::<HandlerId>::empty(),
            final(events).members() == old(events).members(),
            forall|x: EventControlHandle|
                #![trigger final(events).is_enabled(x)]
                #![trigger final(events).handlers(x)]
                old(events).has(x) ==> final(events).is_enabled(x) == old(events).is_enabled(x)
                    && final(events).handlers(x) == old(events).handlers(x),
    {
        AsyncEvent { handle: events.create(), marker: PhantomData }
    }

    /// Appends a handler.
    pub fn add(&self, events: &mut EventManager, handler: HandlerId)
        requires
            old(events).has(self.id()),
        ensures
            final(events).handlers(self.id()) == old(events).handlers(self.id()).push(handler),
            final(events).is_enabled(self.id()) == old(events).is_enabled(self.id()),
            old(events).same_except(&*final(events), self.id()),
    {
        events.add_handler(self.handle, handler);
    }

    /// Removes every entry of a handler; nothing happens when it is absent.
    pub fn remove(&self, events: &mut EventManager, handler: HandlerId)
        requires
            old(events).has(self.id()),
        ensures
            final(events).handlers(self.id()) == without(old(events).handlers(self.id()), handler),
            final(events).is_enabled(self.id()) == old(events).is_enabled(self.id()),
            old(events).same_except(&*final(events), self.id()),
    {
        events.remove_handler(self.handle, handler);
    }

    /// Fires the event: the handlers to await in turn with `data` when it is
    /// enabled, none when it is not.
    pub fn trigger(&self, events: &EventManager, data: Option<T>) -> (r: Dispatch<T>)
        requires
            events.has(self.id()),
        ensures
            r.event == self.id(),
            r.handlers@ == events.dispatch_list(self.id(), None),
            r.data == data,
    {
        events.dispatch(self.handle, data, None)
    }

    /// Clears the handlers; the enable flag stays.
    pub fn reset(&self, events: &mut EventManager)
        requires
            old(events).has(self.id()),
        ensures
            final(events).handlers(self.id()) == Seq::<HandlerId>::empty(),
            final(events).is_enabled(self.id()) == old(events).is_enabled(self.id()),
            old(events).same_except(&*final(events), self.id()),
    {
        events.reset_event(self.handle);
    }

    /// The stored enable flag.
    pub fn enabled(&self, events: &EventManager) -> (r: bool)
        requires
            events.has(self.id()),
        ensures
            r == events.is_enabled(self.id()),
    {
        events.states[self.handle.index].enabled
    }

    /// The handle through which a group controls this event.
    pub fn control_handle(&self) -> (r: EventControlHandle)
        ensures
            r == self.id(),
    {
        self.handle
    }
}

} // verus!

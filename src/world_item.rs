//! Association of a component with the worlds it serves.
use crate::base::Base;
use crate::data_map::{DataMap, ItemEvent};
use crate::element::AcceptAll;
use crate::event::{Dispatch, Event, EventControlHandle, EventManager};
use vstd::prelude::*;

verus! {

/// A world, referred to by its identifier.
pub type WorldHandle = String;

/// Whether a world was added to or removed from an item.
#[derive(Clone, Copy, Debug, PartialEq, Eq, Structural)]
pub enum WorldAction {
    Added,
    Removed,
}

/// The payload of the world-changed event.
pub struct WorldChange {
    pub world: WorldHandle,
    pub action: WorldAction,
}

/// A component's worlds, keyed by world identifier, and the world it
/// currently works in. The current world is a plain reference: setting it
/// does not check that the world is among the item's worlds, and removing
/// a world that is current clears it.
pub struct BaseWorldItem {
    pub base: Base,
    pub worlds: DataMap<String, WorldHandle, AcceptAll>,
    pub events: EventManager,
    pub on_world_changed: Event<WorldChange>,
    current_world: Option<WorldHandle>,
}

impl BaseWorldItem {
    /// The worlds, by identifier.
    pub closed spec fn world_set(&self) -> Map<Seq<char>, Seq<char>> {
        self.worlds.view()
    }

    /// The map of worlds, with its events.
    pub closed spec fn world_map(&self) -> DataMap<String, WorldHandle, AcceptAll> {
        self.worlds
    }

    /// The identifier of the current world.
    pub closed spec fn current(&self) -> Option<Seq<char>> {
        match self.current_world {
            Some(w) => Some(w@),
            None => None,
        }
    }

    /// The world-changed event.
    pub closed spec fn changed_event(&self) -> EventControlHandle {
        self.on_world_changed.id()
    }

    /// The table that holds the world-changed event.
    pub closed spec fn table(&self) -> EventManager {
        self.events
    }

    pub closed spec fn wf(&self) -> bool {
        &&& self.worlds.wf()
        &&& self.events.has(self.on_world_changed.id())
    }

    /// An item with no worlds and no current world.
    pub fn new() -> (r: BaseWorldItem)
        ensures
            r.wf(),
            r.world_set() == Map::<Seq<char>, Seq<char>>::empty(),
            r.current() is None,
    {
        let mut events = EventManager::new();
        let on_world_changed = Event::new(&mut events);
        BaseWorldItem {
            base: Base::new(),
            worlds: DataMap::new(),
            events,
            on_world_changed,
            current_world: None,
        }
    }

    /// Sets the current world.
    pub fn set_current_world(&mut self, value: Option<WorldHandle>)
        requires
            old(self).wf(),
        ensures
            final(self).wf(),
            final(self).current() == match value {
                Some(w) => Some(w@),
                None => None::<Seq<char>>,
            },
            final(self).world_set() == old(self).world_set(),
            final(self).table() == old(self).table(),
            final(self).changed_event() == old(self).changed_event(),
    {
        self.current_world = value;
    }

    /// The current world.
    pub fn current_world(&self) -> (r: Option<&WorldHandle>)
        ensures
            match r {
                Some(w) => self.current() == Some(w@),
                None => self.current() is None,
            },
    {
        match &self.current_world {
            Some(w) => Some(w),
            None => None,
        }
    }

    /// Applies a change: a removal takes the world out of the item's worlds
    /// and clears it as current world when it is current. Then fires
    /// world-changed with the change.
    pub fn handle_world_change(&mut self, change: WorldChange) -> (r: (
        Option<Dispatch<String>>,
        Dispatch<WorldChange>,
    ))
        requires
            old(self).wf(),
        ensures
            final(self).wf(),
            change.action == WorldAction::Removed ==> {
                &&& final(self).world_set() == old(self).world_set().remove(change.world@)
                &&& final(self).current() == if old(self).current() == Some(change.world@) {
                    None
                } else {
                    old(self).current()
                }
            },
            change.action == WorldAction::Added ==> final(self).world_map() == old(
                self,
            ).world_map() && final(self).current() == old(self).current(),
            r.1.event == old(self).changed_event(),
            r.1.handlers@ == old(self).table().dispatch_list(r.1.event, None),
            r.1.data == Some(change),
            final(self).table() == old(self).table(),
            final(self).changed_event() == old(self).changed_event(),
    {
        let mut deleted: Option<Dispatch<String>> = None;
        if change.action == WorldAction::Removed {
            deleted = self.worlds.delete(&change.world);
            let is_current = match &self.current_world {
                Some(w) => *w == change.world,
                None => false,
            };
            if is_current {
                self.current_world = None;
            }
        }
        let d = self.on_world_changed.trigger(&self.events, Some(change));
        (deleted, d)
    }

    /// Adds a world under its identifier and fires world-changed with
    /// `Added`.
    pub fn add_world(&mut self, world: WorldHandle) -> (r: (
        Option<Dispatch<ItemEvent<String, WorldHandle>>>,
        Dispatch<WorldChange>,
    ))
        requires
            old(self).wf(),
        ensures
            final(self).wf(),
            final(self).world_set() == old(self).world_set().insert(world@, world@),
            DataMap::set_outcome(&old(self).world_map(), &final(self).world_map(), world, world, r.0),
            final(self).current() == old(self).current(),
            r.1.event == old(self).changed_event(),
            r.1.handlers@ == old(self).table().dispatch_list(r.1.event, None),
            r.1.data matches Some(c) && c.action == WorldAction::Added && c.world@ == world@,
            final(self).table() == old(self).table(),
            final(self).changed_event() == old(self).changed_event(),
    {
        let set = self.worlds.set(world.clone(), world.clone());
        let (_, changed) = self.handle_world_change(WorldChange { world, action: WorldAction::Added });
        (set, changed)
    }

    /// Fires world-changed with `Removed`, taking the world out of the
    /// item's worlds, and clearing it as current world when it is current.
    pub fn remove_world(&mut self, world: WorldHandle) -> (r: (
        Option<Dispatch<String>>,
        Dispatch<WorldChange>,
    ))
        requires
            old(self).wf(),
        ensures
            final(self).wf(),
            final(self).world_set() == old(self).world_set().remove(world@),
            !final(self).world_set().contains_key(world@),
            final(self).current() == if old(self).current() == Some(world@) {
                None
            } else {
                old(self).current()
            },
            r.1.event == old(self).changed_event(),
            r.1.handlers@ == old(self).table().dispatch_list(r.1.event, None),
            r.1.data matches Some(c) && c.action == WorldAction::Removed && c.world@ == world@,
            final(self).table() == old(self).table(),
            final(self).changed_event() == old(self).changed_event(),
    {
        self.handle_world_change(WorldChange { world, action: WorldAction::Removed })
    }
}

} // verus!

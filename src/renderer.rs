//! The renderer bundle of a world: its clipping planes, split into local
//! planes and the planes shared with the renderer.
use crate::event::{Dispatch, Event, EventManager, HandlerId};
use crate::world_item::BaseWorldItem;
use vstd::prelude::*;

verus! {

/// A clipping plane: the IEEE-754 bit patterns of its unit normal and of its
/// distance from the origin, and whether it is local. Two planes stand in
/// the same place when their normal and distance bit patterns agree; as bit
/// patterns, `+0.0` and `-0.0` differ and a NaN matches itself.
#[derive(Debug, Clone, Copy, PartialEq, Eq, Structural)]
pub struct Plane {
    pub normal_x: u32,
    pub normal_y: u32,
    pub normal_z: u32,
    pub constant: u32,
    pub is_local: bool,
}

impl Plane {
    /// A shared plane with the given normal and distance.
    pub fn new(normal_x: u32, normal_y: u32, normal_z: u32, constant: u32) -> (r: Plane)
        ensures
            r == (Plane { normal_x, normal_y, normal_z, constant, is_local: false }),
    {
        Plane { normal_x, normal_y, normal_z, constant, is_local: false }
    }
}

/// The planes that the renderer clips with.
pub struct Renderer {
    pub clipping_planes: Vec<Plane>,
}

/// Whether two planes have the same normal and distance.
pub open spec fn same_place(a: Plane, b: Plane) -> bool {
    a.normal_x == b.normal_x && a.normal_y == b.normal_y && a.normal_z == b.normal_z && a.constant
        == b.constant
}

/// No two planes of `s` stand in the same place.
pub open spec fn distinct_places(s: Seq<Plane>) -> bool {
    forall|i: int, j: int| 0 <= i < j < s.len() ==> !same_place(s[i], s[j])
}

/// Whether some plane of `s` stands where `x` does.
pub open spec fn has_place(s: Seq<Plane>, x: Plane) -> bool {
    exists|i: int| 0 <= i < s.len() && same_place(s[i], x)
}

/// `s` with the plane standing where `x` does replaced by `x`.
pub open spec fn replace_place(s: Seq<Plane>, x: Plane) -> Seq<Plane> {
    Seq::new(s.len(), |i: int| if same_place(s[i], x) { x } else { s[i] })
}

/// `s` without any plane standing where `x` does, the others in order.
pub open spec fn planes_without(s: Seq<Plane>, x: Plane) -> Seq<Plane>
    decreases s.len(),
{
    if s.len() == 0 {
        s
    } else {
        let rest = planes_without(s.drop_last(), x);
        if same_place(s.last(), x) {
            rest
        } else {
            rest.push(s.last())
        }
    }
}

/// The planes of `s` that are not local, in order.
pub open spec fn shared_planes(s: Seq<Plane>) -> Seq<Plane>
    decreases s.len(),
{
    if s.len() == 0 {
        s
    } else {
        let rest = shared_planes(s.drop_last());
        if s.last().is_local {
            rest
        } else {
            rest.push(s.last())
        }
    }
}

/// Removing the planes at one place keeps the others apart and leaves none
/// at that place; every plane left was in `s`.
proof fn lemma_without_keeps_distinct(s: Seq<Plane>, x: Plane)
    requires
        distinct_places(s),
    ensures
        distinct_places(planes_without(s, x)),
        !has_place(planes_without(s, x), x),
        forall|i: int|
            0 <= i < planes_without(s, x).len() ==> has_place(s, #[trigger] planes_without(s, x)[i]),
    decreases s.len(),
{
    if s.len() > 0 {
        let d = s.drop_last();
        assert(distinct_places(d));
        lemma_without_keeps_distinct(d, x);
        let rest = planes_without(d, x);
        if !same_place(s.last(), x) {
            let r = rest.push(s.last());
            assert forall|i: int| 0 <= i < r.len() implies has_place(s, #[trigger] r[i]) by {
                if i < rest.len() {
                    let w = choose|w: int| 0 <= w < d.len() && same_place(d[w], rest[i]);
                    assert(same_place(s[w], r[i]));
                } else {
                    assert(same_place(s[s.len() - 1], r[i]));
                }
            }
            assert forall|a: int, b: int| 0 <= a < b < r.len() implies !same_place(r[a], r[b]) by {
                if b == rest.len() {
                    let w = choose|w: int| 0 <= w < d.len() && same_place(d[w], rest[a]);
                    assert(!same_place(s[w], s[s.len() - 1]));
                }
            }
            assert(!has_place(r, x)) by {
                if has_place(r, x) {
                    let w = choose|w: int| 0 <= w < r.len() && same_place(r[w], x);
                    if w < rest.len() {
                        assert(has_place(rest, x));
                    }
                }
            }
        }
    }
}

/// The renderer of a world with its clipping planes and events.
pub struct BaseRenderer {
    pub base: BaseWorldItem,
    pub renderer: Renderer,
    pub events: EventManager,
    pub on_after_update: Event<()>,
    pub on_before_update: Event<()>,
    pub on_disposed: Event<()>,
    pub on_clipping_planes_updated: Event<()>,
    pub clipping_planes: Vec<Plane>,
}

impl BaseRenderer {
    /// The events are in the table and no two planes stand in one place.
    pub open spec fn wf(&self) -> bool {
        &&& distinct_places(self.clipping_planes@)
        &&& self.events.has(self.on_after_update.id())
        &&& self.events.has(self.on_before_update.id())
        &&& self.events.has(self.on_disposed.id())
        &&& self.events.has(self.on_clipping_planes_updated.id())
    }

    /// A renderer with no clipping planes.
    pub fn new(base: BaseWorldItem) -> (r: BaseRenderer)
        ensures
            r.wf(),
            r.clipping_planes@.len() == 0,
            r.renderer.clipping_planes@.len() == 0,
    {
        let mut events = EventManager::new();
        let on_after_update = Event::new(&mut events);
        let on_before_update = Event::new(&mut events);
        let on_disposed = Event::new(&mut events);
        let on_clipping_planes_updated = Event::new(&mut events);
        BaseRenderer {
            base,
            renderer: Renderer { clipping_planes: Vec::new() },
            events,
            on_after_update,
            on_before_update,
            on_disposed,
            on_clipping_planes_updated,
            clipping_planes: Vec::new(),
        }
    }

    /// Fires clipping-planes-updated.
    pub fn update_clipping_planes(&self) -> (r: Dispatch<()>)
        requires
            self.wf(),
        ensures
            r.event == self.on_clipping_planes_updated.id(),
            r.handlers@ == self.events.dispatch_list(r.event, None),
            r.data == Some(()),
    {
        self.on_clipping_planes_updated.trigger(&self.events, Some(()))
    }

    /// Sets (when `active`) or removes the plane at the place of `plane`:
    /// its normal and distance. When set, the plane is local as `is_local`
    /// says (shared when it says nothing); a plane already at that place is
    /// replaced where it stands, else the plane is appended. Removal takes out
    /// the plane at that place. The renderer then clips with the shared
    /// planes, in order.
    pub fn set_plane(&mut self, active: bool, plane: Plane, is_local: Option<bool>)
        requires
            old(self).wf(),
        ensures
            final(self).wf(),
            ({
                let p = Plane {
                    is_local: match is_local {
                        Some(b) => b,
                        None => false,
                    },
                    ..plane
                };
                final(self).clipping_planes@ == if active {
                    if has_place(old(self).clipping_planes@, p) {
                        replace_place(old(self).clipping_planes@, p)
                    } else {
                        old(self).clipping_planes@.push(p)
                    }
                } else {
                    planes_without(old(self).clipping_planes@, p)
                }
            }),
            final(self).renderer.clipping_planes@ == shared_planes(final(self).clipping_planes@),
            final(self).events == old(self).events,
            final(self).on_after_update == old(self).on_after_update,
            final(self).on_before_update == old(self).on_before_update,
            final(self).on_disposed == old(self).on_disposed,
            final(self).on_clipping_planes_updated == old(self).on_clipping_planes_updated,
    {
        let local = match is_local {
            Some(b) => b,
            None => false,
        };
        let p = Plane {
            normal_x: plane.normal_x,
            normal_y: plane.normal_y,
            normal_z: plane.normal_z,
            constant: plane.constant,
            is_local: local,
        };
        let ghost s = self.clipping_planes@;
        let mut kept: Vec<Plane> = Vec::new();
        let mut found = false;
        let mut i: usize = 0;
        while i < self.clipping_planes.len()
            invariant
                s == self.clipping_planes@,
                distinct_places(s),
                0 <= i <= s.len(),
                found == has_place(s.subrange(0, i as int), p),
                kept@ == if active {
                    replace_place(s.subrange(0, i as int), p)
                } else {
                    planes_without(s.subrange(0, i as int), p)
                },
            decreases s.len() - i,
        {
            let q = self.clipping_planes[i];
            let here = q.normal_x == p.normal_x && q.normal_y == p.normal_y && q.normal_z
                == p.normal_z && q.constant == p.constant;
            proof {
                let t = s.subrange(0, i + 1);
                assert(t.drop_last() =~= s.subrange(0, i as int));
                if has_place(t, p) {
                    let w = choose|w: int| 0 <= w < t.len() && same_place(t[w], p);
                    if w < i {
                        assert(s.subrange(0, i as int)[w] == t[w]);
                    }
                }
                if has_place(s.subrange(0, i as int), p) {
                    let w = choose|w: int| 0 <= w < i && same_place(s.subrange(0, i as int)[w], p);
                    assert(t[w] == s.subrange(0, i as int)[w]);
                }
                if here {
                    assert(same_place(t[i as int], p));
                }
            }
            if here {
                found = true;
                if active {
                    kept.push(p);
                }
            } else {
                kept.push(q);
            }
            proof {
                let t = s.subrange(0, i + 1);
                if active {
                    assert(kept@ =~= replace_place(t, p));
                }
            }
            i = i + 1;
        }
        proof {
            assert(s.subrange(0, i as int) =~= s);
        }
        if active && !found {
            kept.push(p);
        }
        proof {
            let r = kept@;
            if active {
                if found {
                    assert forall|a: int, b: int| 0 <= a < b < r.len() implies !same_place(r[a], r[b]) by {
                        if same_place(s[a], p) && !same_place(s[b], p) {
                        } else if !same_place(s[a], p) && same_place(s[b], p) {
                        } else if same_place(s[a], p) && same_place(s[b], p) {
                            assert(same_place(s[a], s[b]));
                        }
                    }
                } else {
                    assert(replace_place(s, p) =~= s);
                    assert forall|a: int, b: int| 0 <= a < b < r.len() implies !same_place(r[a], r[b]) by {
                        if b == s.len() {
                            assert(!same_place(s[a], p));
                        }
                    }
                }
            } else {
                lemma_without_keeps_distinct(s, p);
            }
        }
        self.clipping_planes = kept;
        let mut shared: Vec<Plane> = Vec::new();
        let mut i: usize = 0;
        while i < self.clipping_planes.len()
            invariant
                0 <= i <= self.clipping_planes@.len(),
                shared@ == shared_planes(self.clipping_planes@.subrange(0, i as int)),
            decreases self.clipping_planes@.len() - i,
        {
            proof {
                let s = self.clipping_planes@;
                assert(s.subrange(0, i + 1).drop_last() =~= s.subrange(0, i as int));
            }
            if !self.clipping_planes[i].is_local {
                shared.push(self.clipping_planes[i]);
            }
            i = i + 1;
        }
        assert(self.clipping_planes@.subrange(0, i as int) =~= self.clipping_planes@);
        self.renderer.clipping_planes = shared;
    }

    /// Fires disposed, then clears the handlers of that event.
    pub fn dispose(&mut self) -> (r: Dispatch<()>)
        requires
            old(self).wf(),
        ensures
            final(self).wf(),
            r.event == old(self).on_disposed.id(),
            r.handlers@ == old(self).events.dispatch_list(r.event, None),
            final(self).events.handlers(old(self).on_disposed.id()) == Seq::<HandlerId>::empty(),
    {
        let d = self.on_disposed.trigger(&self.events, Some(()));
        self.on_disposed.reset(&mut self.events);
        d
    }
}

} // verus!

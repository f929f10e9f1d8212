//! The disposer: teardown of mesh trees, and a ledger of disposed components.
use crate::base::Component;
use crate::components::{ComponentFactory, ComponentInstance};
use crate::data_map::views;
use crate::event::{Dispatch, Event, EventControlHandle, EventManager, HandlerId};
use crate::scene::{
    forest_geometries, forest_materials, own_geometry, tree_geometries, tree_materials, Geometry,
    Material, Mesh,
};
use vstd::prelude::*;

verus! {

/// Tears down mesh trees, and records the identifiers of the components
/// disposed through it.
pub struct Disposer {
    pub component: Component,
    disposed_components: Vec<String>,
    pub events: EventManager,
    pub on_disposed: Event<()>,
}

impl Disposer {
    /// The disposer's component identifier.
    pub const UUID: &'static str = "76e9cd8e-ad8f-4753-9ef6-cbc60f7247fe";

    /// The identifiers recorded as disposed.
    pub closed spec fn ledger(&self) -> Seq<Seq<char>> {
        views(self.disposed_components@)
    }

    /// The enable flag.
    pub closed spec fn is_enabled(&self) -> bool {
        self.component.is_enabled()
    }

    /// The disposed event.
    pub closed spec fn disposed_event(&self) -> EventControlHandle {
        self.on_disposed.id()
    }

    /// The table that holds the disposer's events.
    pub closed spec fn table(&self) -> EventManager {
        self.events
    }

    pub closed spec fn wf(&self) -> bool {
        self.events.has(self.on_disposed.id())
    }

    /// A disabled disposer with an empty ledger.
    pub fn new() -> (r: Disposer)
        ensures
            r.wf(),
            r.ledger() == Seq::<Seq<char>>::empty(),
            !r.is_enabled(),
    {
        let mut events = EventManager::new();
        let on_disposed = Event::new(&mut events);
        let r = Disposer {
            component: Component::new(),
            disposed_components: Vec::new(),
            events,
            on_disposed,
        };
        assert(views(r.disposed_components@) =~= Seq::<Seq<char>>::empty());
        r
    }

    /// The identifiers recorded as disposed, in the order recorded.
    pub fn get_disposed_components(&self) -> (r: &Vec<String>)
        ensures
            views(r@) == self.ledger(),
    {
        &self.disposed_components
    }

    /// Tears down `node`: detaches it, takes and releases its geometry,
    /// releases and clears its materials when `materials` is set, tears down
    /// its children in list order when `recursive` is set, and then clears
    /// its children. Hands back the released geometries and, when
    /// `materials` is set, the released materials, each in pre-order.
    pub fn destroy(&mut self, node: &mut Mesh, materials: bool, recursive: bool) -> (r: (
        Vec<Geometry>,
        Vec<Material>,
    ))
        ensures
            r.0@.len() == tree_geometries(*old(node), recursive).len(),
            forall|i: int| 0 <= i < r.0@.len() ==> (#[trigger] r.0@[i]).is_released(),
            r.1@.len() == if materials {
                tree_materials(*old(node), recursive).len()
            } else {
                0
            },
            forall|i: int| 0 <= i < r.1@.len() ==> (#[trigger] r.1@[i]).is_released(),
            final(node).geometry is None,
            final(node).children@.len() == 0,
            materials ==> final(node).material@.len() == 0,
            !materials ==> final(node).material == old(node).material,
            *final(self) == *old(self),
    {
        node.remove_from_parent();
        self.dispose_mesh(node, materials, recursive, Ghost(*node))
    }

    /// Releases a geometry; releasing it again changes nothing.
    pub fn dispose_geometry(&mut self, geometry: &mut Geometry)
        ensures
            final(geometry).is_released(),
            *final(self) == *old(self),
    {
        geometry.dispose();
    }

    fn dispose_mesh(
        &mut self,
        mesh: &mut Mesh,
        materials: bool,
        recursive: bool,
        tree: Ghost<Mesh>,
    ) -> (r: (Vec<Geometry>, Vec<Material>))
        requires
            *old(mesh) == tree@,
        ensures
            r.0@.len() == tree_geometries(*old(mesh), recursive).len(),
            forall|i: int| 0 <= i < r.0@.len() ==> (#[trigger] r.0@[i]).is_released(),
            r.1@.len() == if materials {
                tree_materials(*old(mesh), recursive).len()
            } else {
                0
            },
            forall|i: int| 0 <= i < r.1@.len() ==> (#[trigger] r.1@[i]).is_released(),
            final(mesh).geometry is None,
            final(mesh).children@.len() == 0,
            materials ==> final(mesh).material@.len() == 0,
            !materials ==> final(mesh).material == old(mesh).material,
            *final(self) == *old(self),
        decreases tree@,
    {
        let mut out: Vec<Geometry> = Vec::new();
        match mesh.geometry.take() {
            Some(g) => {
                let mut g = g;
                self.dispose_geometry(&mut g);
                out.push(g);
            },
            None => {},
        }
        assert(out@.len() == own_geometry(*old(mesh)).len());
        let mut mats: Vec<Material> = Vec::new();
        if materials {
            mats = Self::dispose_materials(&mut mesh.material);
        }
        if recursive {
            let ghost kids = old(mesh).children@;
            let mut i: usize = 0;
            while i < mesh.children.len()
                invariant
                    *self == *old(self),
                    kids == old(mesh).children@,
                    kids == tree@.children@,
                    mesh.children@.len() == kids.len(),
                    0 <= i <= kids.len(),
                    forall|j: int| i <= j < kids.len() ==> mesh.children@[j] == kids[j],
                    out@.len() == own_geometry(*old(mesh)).len() + forest_geometries(
                        kids.subrange(0, i as int),
                    ).len(),
                    forall|j: int| 0 <= j < out@.len() ==> (#[trigger] out@[j]).is_released(),
                    mats@.len() == if materials {
                        old(mesh).material@.len() + forest_materials(kids.subrange(0, i as int)).len()
                    } else {
                        0
                    },
                    forall|j: int| 0 <= j < mats@.len() ==> (#[trigger] mats@[j]).is_released(),
                    mesh.geometry is None,
                    materials ==> mesh.material@.len() == 0,
                    !materials ==> mesh.material == old(mesh).material,
                decreases kids.len() - i,
            {
                proof {
                    assert(kids.subrange(0, i + 1).drop_last() =~= kids.subrange(0, i as int));
                    assert(kids.subrange(0, i + 1).last() == kids[i as int]);
                    assert(decreases_to!(tree@ => tree@.children));
                    assert(decreases_to!(tree@.children => tree@.children@));
                    assert(decreases_to!(tree@.children@ => tree@.children@[i as int]));
                    assert(decreases_to!(tree@ => kids[i as int]));
                }
                let (mut sub, mut sub_mats) = self.dispose_mesh(
                    &mut mesh.children[i],
                    materials,
                    true,
                    Ghost(kids[i as int]),
                );
                let ghost prev = out@;
                let ghost subv = sub@;
                out.append(&mut sub);
                let ghost prev_m = mats@;
                let ghost subm = sub_mats@;
                mats.append(&mut sub_mats);
                proof {
                    assert forall|j: int| 0 <= j < out@.len() implies (#[trigger] out@[j]).is_released() by {
                        if j >= prev.len() {
                            assert(out@[j] == subv[j - prev.len()]);
                        }
                    }
                    assert forall|j: int| 0 <= j < mats@.len() implies (#[trigger] mats@[j]).is_released() by {
                        if j >= prev_m.len() {
                            assert(mats@[j] == subm[j - prev_m.len()]);
                        }
                    }
                }
                i = i + 1;
            }
            proof {
                assert(kids.subrange(0, i as int) =~= kids);
            }
        }
        mesh.children.clear();
        (out, mats)
    }

    fn dispose_materials(materials: &mut Vec<Material>) -> (r: Vec<Material>)
        ensures
            final(materials)@.len() == 0,
            r@.len() == old(materials)@.len(),
            forall|i: int| 0 <= i < r@.len() ==> (#[trigger] r@[i]).is_released(),
    {
        let mut taken: Vec<Material> = Vec::new();
        core::mem::swap(&mut taken, materials);
        let mut i: usize = 0;
        while i < taken.len()
            invariant
                0 <= i <= taken@.len(),
                taken@.len() == old(materials)@.len(),
                materials@.len() == 0,
                forall|j: int| 0 <= j < i ==> (#[trigger] taken@[j]).is_released(),
            decreases taken@.len() - i,
        {
            taken[i].dispose();
            i = i + 1;
        }
        taken
    }
}

impl ComponentInstance for Disposer {
    closed spec fn is_enabled(&self) -> bool {
        self.component.is_enabled()
    }

    closed spec fn can_dispose(&self) -> bool {
        true
    }

    closed spec fn can_update(&self) -> bool {
        false
    }

    closed spec fn toggled(&self, before: Disposer, on: bool) -> bool {
        &&& self.component.is_enabled() == on
        &&& self.component.capabilities() == before.component.capabilities()
        &&& self.disposed_components == before.disposed_components
        &&& self.events == before.events
        &&& self.on_disposed == before.on_disposed
    }

    closed spec fn advanced(&self, before: Disposer, delta: u128) -> bool {
        *self == before
    }

    /// The disposer's own identifier is recorded in its ledger; when its
    /// disposed event is in its table, that event fired once and its
    /// handlers were cleared.
    closed spec fn disposed(&self, before: Disposer, fired: Vec<Dispatch<()>>) -> bool {
        &&& self.ledger() == before.ledger().push(Disposer::UUID@)
        &&& self.component == before.component
        &&& self.on_disposed == before.on_disposed
        &&& before.wf() ==> {
            &&& fired@.len() == 1
            &&& fired@[0].event == before.disposed_event()
            &&& fired@[0].handlers@ == before.table().dispatch_list(fired@[0].event, None)
            &&& self.table().handlers(before.disposed_event()) == Seq::<HandlerId>::empty()
        }
    }

    fn enabled(&self) -> (r: bool) {
        self.component.enabled()
    }

    fn set_enabled(&mut self, enabled: bool) {
        self.component.set_enabled(enabled);
    }

    fn is_disposable(&self) -> (r: bool) {
        true
    }

    /// Records the disposer's own identifier in its ledger, fires disposed,
    /// and then clears the handlers of that event.
    fn dispose(&mut self) -> (r: Vec<Dispatch<()>>)
        ensures
            final(self).ledger() == old(self).ledger().push(Disposer::UUID@),
            old(self).wf() ==> {
                &&& r@.len() == 1
                &&& r@[0].event == old(self).disposed_event()
                &&& r@[0].handlers@ == old(self).table().dispatch_list(r@[0].event, None)
                &&& final(self).table().handlers(old(self).disposed_event()) == Seq::<
                    HandlerId,
                >::empty()
            },
    {
        let ghost prev = self.disposed_components@;
        self.disposed_components.push(String::from_str(Self::UUID));
        proof {
            assert(views(self.disposed_components@) =~= views(prev).push(Disposer::UUID@));
        }
        let mut out: Vec<Dispatch<()>> = Vec::new();
        if self.events.has_event(self.on_disposed.control_handle()) {
            let d = self.on_disposed.trigger(&self.events, Some(()));
            self.on_disposed.reset(&mut self.events);
            out.push(d);
        }
        out
    }

    fn is_updateable(&self) -> (r: bool) {
        false
    }

    fn update(&mut self, delta: u128) {
    }
}

impl ComponentFactory<Disposer> for Disposer {
    open spec fn spec_uuid() -> &'static str {
        Disposer::UUID
    }

    fn uuid() -> (r: String) {
        String::from_str(Self::UUID)
    }

    fn create() -> Disposer {
        Disposer::new()
    }
}

} // verus!

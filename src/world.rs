//! The per-world bundles: scene, cameras and the world itself.
use crate::disposer::Disposer;
use crate::event::{Dispatch, Event, EventManager, HandlerId};
use crate::interfaces::CameraControls;
use crate::renderer::BaseRenderer;
use crate::scene::{
    forest_geometries, forest_materials, AmbientLight, DirectionalLight, Geometry, Material, Mesh,
    Scene,
};
use crate::world_item::BaseWorldItem;
use vstd::prelude::*;

verus! {

/// A camera of the scene graph.
#[derive(Debug, Clone, Copy, PartialEq, Eq, Structural)]
pub struct Camera;

/// A camera bundle of a world.
pub struct BaseCamera {
    pub base: BaseWorldItem,
    pub enabled: bool,
    pub camera: Camera,
    pub controls: Option<CameraControls>,
}

impl BaseCamera {
    /// An enabled camera without controls.
    pub fn new() -> (r: BaseCamera)
        ensures
            r.enabled,
            r.controls is None,
    {
        BaseCamera { base: BaseWorldItem::new(), enabled: true, camera: Camera, controls: None }
    }

    /// Whether the camera has controls.
    pub fn has_camera_controls(&self) -> (r: bool)
        ensures
            r == self.controls is Some,
    {
        self.controls.is_some()
    }
}

/// The scene bundle of a world: its root meshes and its lights by name.
pub struct BaseScene {
    pub base: BaseWorldItem,
    pub events: EventManager,
    pub on_disposed: Event<()>,
    pub scene: Scene,
    pub directional_lights: Vec<(String, DirectionalLight)>,
    pub ambient_lights: Vec<(String, AmbientLight)>,
}

impl BaseScene {
    pub open spec fn wf(&self) -> bool {
        self.events.has(self.on_disposed.id())
    }

    /// An empty scene with no lights.
    pub fn new() -> (r: BaseScene)
        ensures
            r.wf(),
            r.scene.children@.len() == 0,
            r.directional_lights@.len() == 0,
            r.ambient_lights@.len() == 0,
    {
        let mut events = EventManager::new();
        let on_disposed = Event::new(&mut events);
        BaseScene {
            base: BaseWorldItem::new(),
            events,
            on_disposed,
            scene: Scene::new(),
            directional_lights: Vec::new(),
            ambient_lights: Vec::new(),
        }
    }

    /// Detaches and releases every light, leaving none.
    pub fn delete_all_lights(&mut self)
        ensures
            final(self).directional_lights@.len() == 0,
            final(self).ambient_lights@.len() == 0,
            final(self).scene == old(self).scene,
            final(self).events == old(self).events,
            final(self).on_disposed == old(self).on_disposed,
    {
        let mut directional: Vec<(String, DirectionalLight)> = Vec::new();
        core::mem::swap(&mut directional, &mut self.directional_lights);
        while directional.len() > 0
            invariant
                self.directional_lights@.len() == 0,
            decreases directional@.len(),
        {
            let (_, mut light) = directional.pop().unwrap();
            light.remove_from_parent();
            light.target.remove_from_parent();
            light.dispose();
        }
        let mut ambient: Vec<(String, AmbientLight)> = Vec::new();
        core::mem::swap(&mut ambient, &mut self.ambient_lights);
        while ambient.len() > 0
            invariant
                self.ambient_lights@.len() == 0,
            decreases ambient@.len(),
        {
            let (_, mut light) = ambient.pop().unwrap();
            light.remove_from_parent();
            light.dispose();
        }
    }

    /// Tears down every root mesh through `disposer`, deletes the lights,
    /// clears the root list, fires disposed and clears that event's
    /// handlers. Hands back the released geometries and materials, each in
    /// pre-order.
    pub fn dispose(&mut self, disposer: &mut Disposer) -> (r: (Vec<Geometry>, Vec<Material>, Dispatch<()>))
        requires
            old(self).wf(),
        ensures
            final(self).wf(),
            r.0@.len() == forest_geometries(old(self).scene.children@).len(),
            forall|i: int| 0 <= i < r.0@.len() ==> (#[trigger] r.0@[i]).is_released(),
            r.1@.len() == forest_materials(old(self).scene.children@).len(),
            forall|i: int| 0 <= i < r.1@.len() ==> (#[trigger] r.1@[i]).is_released(),
            final(self).scene.children@.len() == 0,
            final(self).directional_lights@.len() == 0,
            final(self).ambient_lights@.len() == 0,
            r.2.event == old(self).on_disposed.id(),
            r.2.handlers@ == old(self).events.dispatch_list(r.2.event, None),
            final(self).events.handlers(old(self).on_disposed.id()) == Seq::<HandlerId>::empty(),
            *final(disposer) == *old(disposer),
    {
        let ghost roots = self.scene.children@;
        let mut out: Vec<Geometry> = Vec::new();
        let mut mats: Vec<Material> = Vec::new();
        let mut i: usize = 0;
        while i < self.scene.children.len()
            invariant
                *disposer == *old(disposer),
                self.events == old(self).events,
                self.on_disposed == old(self).on_disposed,
                roots == old(self).scene.children@,
                self.scene.children@.len() == roots.len(),
                0 <= i <= roots.len(),
                forall|j: int| i <= j < roots.len() ==> self.scene.children@[j] == roots[j],
                out@.len() == forest_geometries(roots.subrange(0, i as int)).len(),
                forall|j: int| 0 <= j < out@.len() ==> (#[trigger] out@[j]).is_released(),
                mats@.len() == forest_materials(roots.subrange(0, i as int)).len(),
                forall|j: int| 0 <= j < mats@.len() ==> (#[trigger] mats@[j]).is_released(),
            decreases roots.len() - i,
        {
            proof {
                assert(roots.subrange(0, i + 1).drop_last() =~= roots.subrange(0, i as int));
                assert(roots.subrange(0, i + 1).last() == roots[i as int]);
            }
            let (mut sub, mut sub_mats) = disposer.destroy(&mut self.scene.children[i], true, true);
            let ghost prev = out@;
            let ghost subv = sub@;
            out.append(&mut sub);
            let ghost prev_m = mats@;
            let ghost subm = sub_mats@;
            mats.append(&mut sub_mats);
            proof {
                assert forall|j: int| 0 <= j < out@.len() implies (#[trigger] out@[j]).is_released() by {
                    if j >= prev.len() {
                        assert(out@[j] == subv[j - prev.len()]);
                    }
                }
                assert forall|j: int| 0 <= j < mats@.len() implies (#[trigger] mats@[j]).is_released() by {
                    if j >= prev_m.len() {
                        assert(mats@[j] == subm[j - prev_m.len()]);
                    }
                }
            }
            i = i + 1;
        }
        proof {
            assert(roots.subrange(0, i as int) =~= roots);
        }
        self.delete_all_lights();
        self.scene.children.clear();
        let d = self.on_disposed.trigger(&self.events, Some(()));
        self.on_disposed.reset(&mut self.events);
        (out, mats, d)
    }
}

/// A world: its scene, its default and active cameras, an optional
/// renderer, and its lifecycle events. Disposing it is final.
pub struct World {
    pub uuid: String,
    pub meshes: Vec<Mesh>,
    pub scene: BaseScene,
    pub default_camera: BaseCamera,
    /// The active camera when it differs from the default one.
    pub camera: Option<BaseCamera>,
    pub renderer: Option<BaseRenderer>,
    pub is_disposing: bool,
    pub events: EventManager,
    pub on_camera_changed: Event<()>,
    pub on_disposed: Event<()>,
    pub on_after_update: Event<()>,
    pub on_before_update: Event<()>,
}

impl World {
    /// The lifecycle events are in the table.
    pub open spec fn wf(&self) -> bool {
        &&& self.events.has(self.on_camera_changed.id())
        &&& self.events.has(self.on_disposed.id())
        &&& self.events.has(self.on_after_update.id())
        &&& self.events.has(self.on_before_update.id())
    }

    /// An active world with an empty scene, using its default camera, with
    /// no renderer.
    pub fn new(uuid: String) -> (r: World)
        ensures
            r.wf(),
            r.uuid == uuid,
            !r.is_disposing,
            r.camera is None,
            r.renderer is None,
    {
        let mut events = EventManager::new();
        let on_camera_changed = Event::new(&mut events);
        let on_disposed = Event::new(&mut events);
        let on_after_update = Event::new(&mut events);
        let on_before_update = Event::new(&mut events);
        World {
            uuid,
            meshes: Vec::new(),
            scene: BaseScene::new(),
            default_camera: BaseCamera::new(),
            camera: None,
            renderer: None,
            is_disposing: false,
            events,
            on_camera_changed,
            on_disposed,
            on_after_update,
            on_before_update,
        }
    }

    /// The camera in use.
    pub fn active_camera(&self) -> (r: &BaseCamera)
        ensures
            match self.camera {
                Some(c) => *r == c,
                None => *r == self.default_camera,
            },
    {
        match &self.camera {
            Some(c) => c,
            None => &self.default_camera,
        }
    }

    /// Switches back to the default camera and fires camera-changed.
    pub fn use_default_camera(&mut self) -> (r: Dispatch<()>)
        requires
            old(self).wf(),
        ensures
            final(self).wf(),
            final(self).camera is None,
            final(self).events == old(self).events,
            r.event == old(self).on_camera_changed.id(),
            r.handlers@ == old(self).events.dispatch_list(r.event, None),
    {
        self.camera = None;
        self.on_camera_changed.trigger(&self.events, Some(()))
    }

    /// Fires before-update and then after-update.
    pub fn update(&self) -> (r: (Dispatch<()>, Dispatch<()>))
        requires
            self.wf(),
        ensures
            r.0.event == self.on_before_update.id(),
            r.0.handlers@ == self.events.dispatch_list(r.0.event, None),
            r.1.event == self.on_after_update.id(),
            r.1.handlers@ == self.events.dispatch_list(r.1.event, None),
    {
        let before = self.on_before_update.trigger(&self.events, Some(()));
        let after = self.on_after_update.trigger(&self.events, Some(()));
        (before, after)
    }

    /// Marks the world as disposing, fires disposed, and then clears the
    /// handlers of all its events, so that disposing again fires to no one.
    pub fn dispose(&mut self) -> (r: Dispatch<()>)
        requires
            old(self).wf(),
        ensures
            final(self).wf(),
            final(self).is_disposing,
            r.event == old(self).on_disposed.id(),
            r.handlers@ == old(self).events.dispatch_list(r.event, None),
            final(self).events.handlers(final(self).on_camera_changed.id())
                == Seq::<HandlerId>::empty(),
            final(self).events.handlers(final(self).on_disposed.id()) == Seq::<HandlerId>::empty(),
            final(self).events.handlers(final(self).on_after_update.id())
                == Seq::<HandlerId>::empty(),
            final(self).events.handlers(final(self).on_before_update.id())
                == Seq::<HandlerId>::empty(),
            final(self).on_disposed == old(self).on_disposed,
    {
        self.is_disposing = true;
        let d = self.on_disposed.trigger(&self.events, Some(()));
        self.on_camera_changed.reset(&mut self.events);
        self.on_disposed.reset(&mut self.events);
        self.on_after_update.reset(&mut self.events);
        self.on_before_update.reset(&mut self.events);
        d
    }
}

/// Once a world is disposed, disposing it again fires to no handler.
pub proof fn lemma_dispose_twice_is_silent(disposed: &World, again: Dispatch<()>)
    requires
        disposed.wf(),
        disposed.events.handlers(disposed.on_disposed.id()) == Seq::<HandlerId>::empty(),
        again.event == disposed.on_disposed.id(),
        again.handlers@ == disposed.events.dispatch_list(again.event, None),
    ensures
        again.handlers@ == Seq::<HandlerId>::empty(),
{
}

} // verus!

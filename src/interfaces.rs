//! Capability interfaces that components implement, and the plain settings
//! records of their configuration.
use crate::event::{Event, EventManager};
use std::collections::BTreeSet;
use vstd::prelude::*;

verus! {

/// A component that releases what it holds.
pub trait Disposable {
    /// Releases what the value holds.
    fn dispose(&mut self);

    /// The event fired on disposal.
    fn on_disposed(&self) -> &Event<()>;
}

/// A component that can be shown and hidden.
pub trait Hideable {
    fn visible(&self) -> bool;

    fn set_visible(&mut self, visible: bool);
}

/// Progress of a long task.
#[derive(Debug, Clone, Copy, PartialEq, Eq, Structural)]
pub struct Progress {
    pub current: u64,
    pub total: u64,
}

/// A component that creates items of type `T` in steps.
pub trait Createable<T> {
    fn create(&mut self, data: T);

    fn end_creation(&mut self, data: T);

    fn cancel_creation(&mut self, data: T);

    fn delete(&mut self, data: T);
}

/// A component set up from a configuration.
pub trait Configurable<T, U> {
    fn is_setup(&self) -> bool;

    fn setup(&mut self, config: Option<U>);

    fn on_setup(&self) -> &Event<()>;

    fn config(&self) -> &T;
}

/// The controls that steer a camera.
#[derive(Debug, Clone, Copy, PartialEq, Eq, Structural)]
pub struct CameraControls;

/// A camera with controls.
pub trait CameraControllable {
    fn controls(&self) -> &CameraControls;
}

/// A component whose events one manager controls.
pub trait Eventable {
    fn event_manager(&self) -> &EventManager;
}

/// An element of a user interface.
#[derive(Debug, Clone, Copy, PartialEq, Eq, Structural)]
pub struct HtmlElement;

/// Data and settings exported from a component.
pub struct SerializationResult<D, S> {
    pub data: Option<Vec<D>>,
    pub settings: Option<S>,
}

/// A component that exports and imports its state.
pub trait Serializable<D, S> {
    fn import(&mut self, result: SerializationResult<D, S>);

    fn export(&self) -> SerializationResult<D, S>;
}

/// A yes-or-no setting.
#[derive(Debug, Clone, Copy, PartialEq, Eq, Structural)]
pub struct BooleanSettingsControl {
    pub value: bool,
}

/// A text setting.
#[derive(Debug, Clone)]
pub struct TextSettingsControl {
    pub value: String,
}

/// A choice among named options.
#[derive(Debug, Clone)]
pub struct SelectSettingControl {
    pub multiple: bool,
    pub options: BTreeSet<String>,
    pub value: String,
}

/// A set of texts.
#[derive(Debug, Clone)]
pub struct TextSetSettingControl {
    pub value: BTreeSet<String>,
}

/// A setting with no control.
#[derive(Debug, Clone)]
pub struct NoControl {
    pub value: String,
}

} // verus!

//! What every component carries: its capabilities and its enable flag.
use vstd::prelude::*;

verus! {

/// Which optional behaviours a component supports.
#[derive(Debug, Clone, Copy, PartialEq, Eq, Structural)]
pub struct BaseCapabilities {
    pub disposable: bool,
    pub resizeable: bool,
    pub updateable: bool,
    pub hideable: bool,
    pub configurable: bool,
    pub serializable: bool,
}

impl BaseCapabilities {
    /// No optional behaviour.
    pub open spec fn none() -> BaseCapabilities {
        BaseCapabilities {
            disposable: false,
            resizeable: false,
            updateable: false,
            hideable: false,
            configurable: false,
            serializable: false,
        }
    }
}

impl Default for BaseCapabilities {
    fn default() -> (r: Self)
        ensures
            r == BaseCapabilities::none(),
    {
        BaseCapabilities {
            disposable: false,
            resizeable: false,
            updateable: false,
            hideable: false,
            configurable: false,
            serializable: false,
        }
    }
}

/// The capability descriptor of a component.
pub struct Base {
    pub capabilities: BaseCapabilities,
}

impl Base {
    /// A descriptor with no optional behaviour.
    pub fn new() -> (r: Base)
        ensures
            r.capabilities == BaseCapabilities::none(),
    {
        Base { capabilities: BaseCapabilities::default() }
    }

    pub fn is_disposeable(&self) -> (r: bool)
        ensures
            r == self.capabilities.disposable,
    {
        self.capabilities.disposable
    }

    pub fn is_resizeable(&self) -> (r: bool)
        ensures
            r == self.capabilities.resizeable,
    {
        self.capabilities.resizeable
    }

    pub fn is_updateable(&self) -> (r: bool)
        ensures
            r == self.capabilities.updateable,
    {
        self.capabilities.updateable
    }

    pub fn is_hideable(&self) -> (r: bool)
        ensures
            r == self.capabilities.hideable,
    {
        self.capabilities.hideable
    }

    pub fn is_configurable(&self) -> (r: bool)
        ensures
            r == self.capabilities.configurable,
    {
        self.capabilities.configurable
    }

    pub fn is_serializable(&self) -> (r: bool)
        ensures
            r == self.capabilities.serializable,
    {
        self.capabilities.serializable
    }
}

/// A capability descriptor with an enable flag.
pub struct Component {
    pub base: Base,
    enabled: bool,
}

impl Component {
    /// The enable flag.
    pub closed spec fn is_enabled(&self) -> bool {
        self.enabled
    }

    /// The capabilities.
    pub closed spec fn capabilities(&self) -> BaseCapabilities {
        self.base.capabilities
    }

    /// A disabled component with no optional behaviour.
    pub fn new() -> (r: Component)
        ensures
            !r.is_enabled(),
            r.capabilities() == BaseCapabilities::none(),
    {
        Component { base: Base::new(), enabled: false }
    }

    pub fn enabled(&self) -> (r: bool)
        ensures
            r == self.is_enabled(),
    {
        self.enabled
    }

    pub fn set_enabled(&mut self, enabled: bool)
        ensures
            final(self).is_enabled() == enabled,
            final(self).capabilities() == old(self).capabilities(),
    {
        self.enabled = enabled;
    }
}

} // verus!

use viewer_core::components::{ComponentInstance, Components, ComponentsError};
use viewer_core::disposer::Disposer;
use viewer_core::event::{Dispatch, HandlerId};

struct Ticker {
    enabled: bool,
    ticks: Vec<u128>,
    disposals: u32,
}

impl Ticker {
    fn new() -> Ticker {
        Ticker { enabled: false, ticks: Vec::new(), disposals: 0 }
    }
}

impl ComponentInstance for Ticker {
    fn is_enabled(&self) -> bool {
        self.enabled
    }

    fn can_dispose(&self) -> bool {
        true
    }

    fn can_update(&self) -> bool {
        true
    }

    fn toggled(&self, before: Self, on: bool) -> bool {
        self.enabled == on && self.ticks == before.ticks && self.disposals == before.disposals
    }

    fn advanced(&self, before: Self, delta: u128) -> bool {
        let mut ticks = before.ticks.clone();
        ticks.push(delta);
        self.ticks == ticks
    }

    fn disposed(&self, before: Self, fired: Vec<Dispatch<()>>) -> bool {
        self.disposals == before.disposals + 1 && fired.is_empty()
    }

    fn enabled(&self) -> bool {
        self.enabled
    }

    fn set_enabled(&mut self, enabled: bool) {
        self.enabled = enabled;
    }

    fn is_disposable(&self) -> bool {
        true
    }

    fn dispose(&mut self) -> Vec<Dispatch<()>> {
        self.disposals += 1;
        Vec::new()
    }

    fn is_updateable(&self) -> bool {
        true
    }

    fn update(&mut self, delta: u128) {
        self.ticks.push(delta);
    }
}

const ID_A: &str = "267ca032-672f-4cb0-afa9-d24e904f39d6";
const ID_B: &str = "d5d8bdf0-db25-4952-b951-b643af207ace";

#[test]
fn second_registration_is_refused_and_first_stays() {
    let mut reg: Components<Ticker> = Components::new();
    let mut x = Ticker::new();
    x.disposals = 7;
    assert!(reg.add(ID_A, x).is_ok());
    match reg.add(ID_A, Ticker::new()) {
        Err(ComponentsError::AlreadyExists(id)) => assert_eq!(id, ID_A),
        _ => panic!("expected AlreadyExists"),
    }
    assert_eq!(reg.get_by_uuid(ID_A).unwrap().disposals, 7);
}

#[test]
fn invalid_identifier_is_refused() {
    let mut reg: Components<Ticker> = Components::new();
    match reg.add("fragments-manager", Ticker::new()) {
        Err(ComponentsError::InvalidUuid(e)) => assert!(e.message.starts_with("fragments-manager")),
        _ => panic!("expected InvalidUuid"),
    }
    assert!(reg.get_by_uuid("fragments-manager").is_none());
}

#[test]
fn get_or_create_makes_one_instance() {
    let mut reg: Components<Disposer> = Components::new();
    let a = reg.get_or_create::<Disposer>().ok().unwrap();
    let b = reg.get_or_create::<Disposer>().ok().unwrap();
    assert_eq!(a, Disposer::UUID);
    assert_eq!(a, b);
    assert!(reg.get_by_uuid(Disposer::UUID).is_some());
    assert!(reg.add(Disposer::UUID, Disposer::new()).is_err());
}

#[test]
fn update_ticks_enabled_updateable_components_only() {
    let mut reg: Components<Ticker> = Components::new();
    reg.add(ID_B, Ticker::new()).ok().unwrap();
    reg.add(ID_A, Ticker::new()).ok().unwrap();
    assert!(reg.update_at(100).is_empty());
    reg.init_at(1_000);
    assert_eq!(reg.get_by_uuid(ID_A).unwrap().ticks, vec![0]);
    let ticked = reg.update_at(1_250);
    assert_eq!(ticked, vec![ID_A.to_string(), ID_B.to_string()]);
    assert_eq!(reg.get_by_uuid(ID_B).unwrap().ticks, vec![0, 250]);
    assert_eq!(reg.update_at(1_200), vec![ID_A.to_string(), ID_B.to_string()]);
    assert_eq!(reg.get_by_uuid(ID_B).unwrap().ticks, vec![0, 250, 0]);
}

#[test]
fn init_fires_init_and_enables_components() {
    let mut reg: Components<Ticker> = Components::new();
    reg.on_init.add(&mut reg.events, HandlerId(9));
    reg.add(ID_A, Ticker::new()).ok().unwrap();
    let d = reg.init_at(5);
    assert_eq!(d.handlers, vec![HandlerId(9)]);
    assert!(reg.enabled);
    assert!(reg.get_by_uuid(ID_A).unwrap().enabled);
}

#[test]
fn dispose_disposes_each_component_once() {
    let mut reg: Components<Ticker> = Components::new();
    reg.on_disposed.add(&mut reg.events, HandlerId(4));
    reg.add(ID_A, Ticker::new()).ok().unwrap();
    reg.init_at(0);
    let (per_component, d) = reg.dispose();
    assert_eq!(d.handlers, vec![HandlerId(4)]);
    assert_eq!(per_component.len(), 1);
    assert!(per_component[0].is_some());
    assert!(!reg.enabled);
    assert!(!reg.get_by_uuid(ID_A).unwrap().enabled);
    let (again, _) = reg.dispose();
    assert!(again[0].is_none());
    assert_eq!(reg.get_by_uuid(ID_A).unwrap().disposals, 1);
    assert_eq!(reg.disposed_identifiers(), vec![ID_A.to_string()]);
    assert!(reg.update_at(10).is_empty());
}

#[test]
fn disposer_component_reports_its_own_disposal() {
    let mut reg: Components<Disposer> = Components::new();
    reg.get_or_create::<Disposer>().ok().unwrap();
    let (fired, _) = reg.dispose();
    assert_eq!(fired.len(), 1);
    assert_eq!(fired[0].as_ref().unwrap().len(), 1);
    let disposer = reg.get_by_uuid(Disposer::UUID).unwrap();
    assert_eq!(disposer.get_disposed_components(), &vec![Disposer::UUID.to_string()]);
}

#[test]
fn release_marker() {
    assert_eq!(Components::<Disposer>::RELEASE, "2.4.3");
}

#[test]
fn error_messages_describe_the_failure() {
    let mut reg: Components<Ticker> = Components::new();
    reg.add(ID_A, Ticker::new()).ok().unwrap();
    let dup = reg.add(ID_A, Ticker::new()).err().unwrap();
    assert_eq!(dup.message(), format!("component with uuid {} already exists", ID_A));
    let bad = reg.add("x", Ticker::new()).err().unwrap();
    assert!(bad.message().starts_with("x is not a valid UUID v4."));
    let err = viewer_core::uuid::UUID::validate("y").err().unwrap();
    let expected = err.message.clone();
    let converted = ComponentsError::from(err);
    assert_eq!(converted.message(), expected);
}

#[test]
fn a_disabled_component_is_not_ticked() {
    let mut reg: Components<Ticker> = Components::new();
    reg.add(ID_A, Ticker::new()).ok().unwrap();
    reg.add(ID_B, Ticker::new()).ok().unwrap();
    reg.init_at(0);
    let mut off = Ticker::new();
    off.enabled = false;
    let c = "76e9cd8e-ad8f-4753-9ef6-cbc60f7247fe";
    reg.add(c, off).ok().unwrap();
    assert_eq!(reg.update_at(5), vec![ID_A.to_string(), ID_B.to_string()]);
    assert!(reg.get_by_uuid(c).unwrap().ticks.is_empty());
}

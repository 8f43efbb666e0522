use fyrox_resource::manager::{
    LoadStep, ResourceEvent, ResourceManagerState, ResourceRegistrationError, ResourceWaitContext,
    UntypedResource, DEFAULT_RESOURCE_LIFETIME,
};
use fyrox_resource::loader::ResourceLoader;
use fyrox_resource::state::{LoadError, ResourceData, ResourceKind, ResourcePath, ResourceState};

const STUB_TYPE: u128 = 0x9d873ff4_3126_47e1_a492_7cd8e7168239;

fn stub_loader() -> ResourceLoader {
    ResourceLoader { extensions: vec!["txt".to_string()], data_type_uuid: STUB_TYPE }
}

fn stub_data() -> ResourceData {
    ResourceData { type_uuid: STUB_TYPE, can_be_saved: false, bytes: Vec::new() }
}

fn new_resource_manager() -> ResourceManagerState {
    ResourceManagerState::new()
}

fn random_uuid() -> u128 {
    uuid::Uuid::new_v4().as_u128()
}

fn explicit(path: &str) -> ResourcePath {
    ResourcePath::Explicit(path.to_string())
}

/// Runs the load task of `h` with a loader that always succeeds.
fn run_stub_load(state: &mut ResourceManagerState, h: UntypedResource, fresh: u128) {
    match state.process_task(h) {
        LoadStep::Load { .. } => {}
        other => panic!("unexpected step {:?}", other),
    }
    assert!(state.complete_task(h, Ok(stub_data()), fresh));
}

#[test]
fn resource_wait_context_is_all_loaded() {
    let state = new_resource_manager();
    assert!(ResourceWaitContext { resources: Vec::new() }.is_all_loaded(&state));

    let mut state = new_resource_manager();
    let a = state.new_pending(ResourceKind::External, explicit(""));
    let b = state.new_load_error(ResourceKind::External, explicit(""), LoadError::Loader(String::new()));
    let cx = ResourceWaitContext { resources: vec![a, b] };
    assert!(!cx.is_all_loaded(&state));
}

#[test]
fn resource_manager_state_new() {
    let state = new_resource_manager();

    assert!(state.resources.is_empty());
    assert!(state.loaders.is_empty());
    assert!(state.built_in_resources.is_empty());
    assert!(state.is_empty());
}

#[test]
fn resource_manager_state_push() {
    let mut state = new_resource_manager();

    assert_eq!(state.count_loaded_resources(), 0);
    assert_eq!(state.count_pending_resources(), 0);
    assert_eq!(state.count_registered_resources(), 0);
    assert_eq!(state.len(), 0);

    let a = state.new_pending(ResourceKind::External, explicit(""));
    state.push(a);
    let b = state.new_load_error(ResourceKind::External, explicit(""), LoadError::Loader(String::new()));
    state.push(b);
    let c = state.new_ok(random_uuid(), ResourceKind::Embedded, stub_data());
    state.push(c);

    assert_eq!(state.count_loaded_resources(), 1);
    assert_eq!(state.count_pending_resources(), 1);
    assert_eq!(state.count_registered_resources(), 3);
    assert_eq!(state.len(), 3);
}

#[test]
fn resource_manager_state_loading_progress() {
    let mut state = new_resource_manager();

    assert_eq!(state.loading_progress(), 100);

    let a = state.new_pending(ResourceKind::External, explicit(""));
    state.push(a);
    let b = state.new_load_error(ResourceKind::External, explicit(""), LoadError::Loader(String::new()));
    state.push(b);
    let c = state.new_ok(random_uuid(), ResourceKind::Embedded, stub_data());
    state.push(c);

    assert_eq!(state.loading_progress(), 33);
}

#[test]
fn resource_manager_state_find() {
    let mut state = new_resource_manager();

    assert!(state.find_by_path("foo.txt").is_none());

    let resource = state.new_pending(ResourceKind::External, explicit("test.txt"));
    state.push(resource);

    assert_eq!(state.find_by_path("test.txt"), Some(resource));
}

#[test]
fn resource_manager_state_resources() {
    let mut state = new_resource_manager();

    assert_eq!(state.resources(), Vec::new());

    let r1 = state.new_pending(ResourceKind::External, explicit(""));
    let r2 = state.new_load_error(ResourceKind::External, explicit(""), LoadError::Loader(String::new()));
    let r3 = state.new_ok(random_uuid(), ResourceKind::Embedded, stub_data());
    state.push(r1);
    state.push(r2);
    state.push(r3);

    assert_eq!(state.resources(), vec![r1, r2, r3]);
}

#[test]
fn resource_manager_state_destroy_unused_resources() {
    let mut state = new_resource_manager();

    let r = state.new_pending(ResourceKind::External, explicit(""));
    state.push(r);
    state.release(r);
    assert_eq!(state.len(), 1);

    state.destroy_unused_resources();
    assert_eq!(state.len(), 0);
}

#[test]
fn resource_manager_state_request() {
    let mut state = new_resource_manager();

    let resource = state.new_load_error(ResourceKind::External, explicit("test.txt"), LoadError::Loader(String::new()));
    state.push(resource);

    let res = state.request("test.txt");
    assert_eq!(res, resource);

    let res = state.request("foo.txt");
    assert_eq!(state.kind(res), ResourceKind::External);
    assert!(matches!(state.process_task(res), LoadStep::Failed));
    assert!(!state.is_loading(res));
}

#[test]
fn resource_manager_state_try_reload_resource_from_path() {
    let mut state = new_resource_manager();
    state.loaders.set(stub_loader());

    let uuid = random_uuid();
    let resource = state.new_ok(uuid, ResourceKind::External, stub_data());
    state.push(resource);
    state.resource_registry.register(uuid, "test.txt".to_string());

    assert!(!state.try_reload_resource_from_path("foo.txt"));

    assert!(state.try_reload_resource_from_path("test.txt"));
    assert!(state.is_loading(resource));
}

#[test]
fn resource_manager_state_get_wait_context() {
    let mut state = new_resource_manager();

    let resource = state.new_ok(random_uuid(), ResourceKind::External, stub_data());
    state.push(resource);
    let cx = state.get_wait_context();

    assert!(cx.resources.eq(&vec![resource]));
}

#[test]
fn resource_manager_new() {
    let state = new_resource_manager();

    assert!(state.is_empty());
    assert_eq!(state.len(), 0);
}

#[test]
fn resource_manager_register() {
    let mut state = new_resource_manager();

    let resource = state.new_pending(ResourceKind::External, explicit(""));
    let res = state.register(resource, "test.txt", |_, _| true);
    assert!(res.is_err());

    let resource = state.new_ok(random_uuid(), ResourceKind::External, stub_data());
    let res = state.register(resource, "test.txt", |_, _| true);
    assert!(res.is_ok());
}

#[test]
fn resource_manager_request() {
    let mut state = new_resource_manager();
    state.loaders.set(stub_loader());
    let untyped = state.new_ok(random_uuid(), ResourceKind::Embedded, stub_data());
    let res = state.register(untyped, "foo.txt", |_, _| true);
    assert!(res.is_ok());

    let res = state.request_typed("foo.txt", STUB_TYPE);
    assert_eq!(res.untyped, untyped);
    assert_eq!(res.type_uuid, STUB_TYPE);
}

#[test]
fn resource_manager_request_untyped() {
    let mut state = new_resource_manager();
    let resource = state.new_ok(random_uuid(), ResourceKind::Embedded, stub_data());
    let res = state.register(resource, "foo.txt", |_, _| true);
    assert!(res.is_ok());

    let res = state.request("foo.txt");
    assert_eq!(res, resource);
}

#[test]
fn display_for_resource_registration_error() {
    assert_eq!(
        ResourceRegistrationError::AlreadyRegistered.message(),
        "A resource is already registered!"
    );
    assert_eq!(
        ResourceRegistrationError::InvalidState.message(),
        "A resource was in invalid state!"
    );
    assert_eq!(
        ResourceRegistrationError::UnableToRegister.message(),
        "Unable to register the resource!"
    );
}

#[test]
fn debug_for_resource_registration_error() {
    assert_eq!(
        format!("{:?}", ResourceRegistrationError::AlreadyRegistered),
        "AlreadyRegistered"
    );
    assert_eq!(format!("{:?}", ResourceRegistrationError::InvalidState), "InvalidState");
    assert_eq!(
        format!("{:?}", ResourceRegistrationError::UnableToRegister),
        "UnableToRegister"
    );
}

/// Scenario 1 of the library's description.
fn miss_then_hit_state() -> (ResourceManagerState, UntypedResource) {
    let mut state = new_resource_manager();
    state.loaders.set(stub_loader());
    let h1 = state.request("a.txt");
    assert!(state.is_loading(h1));
    match state.process_task(h1) {
        LoadStep::Load { path, loader } => {
            assert_eq!(path, "a.txt");
            assert_eq!(loader, 0);
        }
        other => panic!("unexpected step {:?}", other),
    }
    assert!(state.complete_task(h1, Ok(stub_data()), 0x1234));
    assert!(state.state(h1).is_ok());
    (state, h1)
}

#[test]
fn miss_then_hit() {
    let (mut state, h1) = miss_then_hit_state();
    let again = state.request("a.txt");
    assert_eq!(again, h1);
    assert_eq!(state.count_registered_resources(), 1);
    assert_eq!(state.resource_uuid(h1), Some(0x1234));
    assert_eq!(state.resource_path(h1), Some("a.txt".to_string()));
}

#[test]
fn eviction_window() {
    let mut state = new_resource_manager();
    state.loaders.set(stub_loader());
    let b = state.request("b.txt");
    run_stub_load(&mut state, b, 77);
    state.release(b);
    state.take_events();

    state.update(DEFAULT_RESOURCE_LIFETIME / 2);
    state.update(DEFAULT_RESOURCE_LIFETIME / 2);
    assert_eq!(state.len(), 1);

    state.update(DEFAULT_RESOURCE_LIFETIME);
    assert_eq!(state.len(), 0);
    let events = state.take_events();
    assert_eq!(events.len(), 1);
    assert!(matches!(&events[0], ResourceEvent::Removed(p) if p == "b.txt"));
}

fn registered_state() -> (ResourceManagerState, UntypedResource, u128) {
    let mut state = new_resource_manager();
    state.loaders.set(stub_loader());
    let u = random_uuid() | 1;
    let h = state.new_ok(u, ResourceKind::Embedded, stub_data());
    assert_eq!(state.register(h, "c.txt", |_, _| true), Ok(()));
    (state, h, u)
}

#[test]
fn uuid_path_equivalence() {
    let (mut state, h, u) = registered_state();
    let by_uuid = state.request_by_uuid(u);
    let by_path = state.request("c.txt");
    assert_eq!(by_uuid, h);
    assert_eq!(by_path, h);
    assert_eq!(state.kind(h), ResourceKind::External);
}

#[test]
fn missing_loader() {
    let mut state = new_resource_manager();
    let h = state.request("d.xyz");
    assert!(matches!(state.process_task(h), LoadStep::Failed));
    match state.state(h) {
        ResourceState::LoadError { error, .. } => {
            assert!(error.message().contains("no resource loader"));
        }
        other => panic!("unexpected state {:?}", other),
    }
    assert_eq!(state.count_loaded_resources(), 0);
    assert_eq!(state.loading_progress(), 0);
}

#[test]
fn reload_keeps_identity() {
    let (mut state, h1) = miss_then_hit_state();
    state.take_events();
    state.reload_resource(h1);
    assert!(state.is_loading(h1));
    run_stub_load(&mut state, h1, 0);
    assert!(state.state(h1).is_ok());
    let events = state.take_events();
    assert_eq!(events.len(), 1);
    assert!(matches!(events[0], ResourceEvent::Reloaded(h) if h == h1));
    assert_eq!(state.request("a.txt"), h1);
}

#[test]
fn registration_duplicates() {
    let (mut state, h, _) = registered_state();
    assert_eq!(
        state.register(h, "c.txt", |_, _| true),
        Err(ResourceRegistrationError::AlreadyRegistered)
    );
    let pending = state.new_pending(ResourceKind::External, explicit("e.txt"));
    assert_eq!(
        state.register(pending, "e.txt", |_, _| true),
        Err(ResourceRegistrationError::InvalidState)
    );
}

#[test]
fn refused_registration() {
    let mut state = new_resource_manager();
    let h = state.new_ok(5, ResourceKind::Embedded, stub_data());
    assert_eq!(
        state.register(h, "f.txt", |_, _| false),
        Err(ResourceRegistrationError::UnableToRegister)
    );
    assert!(state.is_empty());
    assert_eq!(state.resource_registry.path_to_uuid("f.txt"), None);
}

#[test]
fn one_load_task_per_resource() {
    let mut state = new_resource_manager();
    state.loaders.set(stub_loader());
    let a = state.request("g.txt");
    let b = state.request("g.txt");
    assert_eq!(a, b);
    assert_eq!(state.tasks.len(), 1);
    state.reload_resource(a);
    assert_eq!(state.tasks.len(), 1);
}

#[test]
fn held_entries_get_full_lifetime() {
    let mut state = new_resource_manager();
    let h = state.request("h.txt");
    state.update(DEFAULT_RESOURCE_LIFETIME * 3);
    assert_eq!(state.len(), 1);
    assert_eq!(state.resources[0].time_to_live, DEFAULT_RESOURCE_LIFETIME);
    assert_eq!(state.use_count(h), 2);
}

#[test]
fn events_in_order() {
    let mut state = new_resource_manager();
    state.loaders.set(stub_loader());
    let h = state.request("i.txt");
    run_stub_load(&mut state, h, 9);
    let events = state.take_events();
    assert_eq!(events.len(), 2);
    assert!(matches!(events[0], ResourceEvent::Added(x) if x == h));
    assert!(matches!(events[1], ResourceEvent::Loaded(x) if x == h));
}

#[test]
fn reload_of_pending_changes_nothing() {
    let mut state = new_resource_manager();
    let h = state.request("j.txt");
    let tasks = state.tasks.len();
    state.reload_resource(h);
    assert_eq!(state.tasks.len(), tasks);
    assert!(state.is_loading(h));
}

#[test]
fn update_zero_twice_is_once() {
    let mut state = new_resource_manager();
    let a = state.request("k.txt");
    let b = state.request("l.txt");
    state.release(b);
    state.update(10);
    state.update(0);
    let once = state.resources.clone();
    state.update(0);
    assert_eq!(state.resources, once);
    assert_eq!(state.len(), 2);
    let _ = a;
}

#[test]
fn request_by_unknown_uuid_fails() {
    let mut state = new_resource_manager();
    let h = state.request_by_uuid(42);
    assert!(matches!(state.process_task(h), LoadStep::Failed));
    assert!(matches!(state.state(h), ResourceState::LoadError { error: LoadError::NoPathForUuid(42), .. }));
}

#[test]
fn waits_for_registry() {
    let mut state = new_resource_manager();
    state.loaders.set(stub_loader());
    state.begin_registry_update();
    let h = state.request("m.txt");
    assert!(matches!(state.process_task(h), LoadStep::WaitForRegistry));
    let mut container = fyrox_resource::registry::RegistryContainer::new();
    container.insert(31, "m.txt".to_string());
    state.finish_registry_update(container);
    run_stub_load(&mut state, h, 0);
    assert_eq!(state.resource_uuid(h), Some(31));
}

#[test]
fn loader_failure_is_committed() {
    let mut state = new_resource_manager();
    state.loaders.set(stub_loader());
    let h = state.request("n.txt");
    assert!(matches!(state.process_task(h), LoadStep::Load { .. }));
    assert!(state.complete_task(h, Err(LoadError::Loader("broken".to_string())), 3));
    match state.state(h) {
        ResourceState::LoadError { error, .. } => assert_eq!(error.message(), "broken"),
        other => panic!("unexpected state {:?}", other),
    }
    assert!(!state.complete_task(h, Ok(stub_data()), 3));
}

#[test]
fn unregister_drops_entry() {
    let (mut state, h, _) = registered_state();
    state.take_events();
    state.unregister("c.txt");
    assert!(state.is_empty());
    assert_eq!(state.resource_path(h), None);
    let events = state.take_events();
    assert!(matches!(&events[0], ResourceEvent::Removed(p) if p == "c.txt"));
}

#[test]
fn move_plan_lists_sidecars() {
    let (state, h, _) = registered_state();
    let plan = state.move_plan(h, "dir/c2.txt").unwrap();
    assert_eq!(plan.from, "c.txt");
    assert_eq!(plan.to, "dir/c2.txt");
    assert_eq!(plan.options_from, "c.txt.options");
    assert_eq!(plan.metadata_to, "dir/c2.txt.meta");

    let mut state = new_resource_manager();
    let p = state.new_pending(ResourceKind::External, explicit("x.txt"));
    assert_eq!(
        state.move_plan(p, "y.txt").unwrap_err(),
        fyrox_resource::manager::ResourceMoveError::NotLoaded
    );
    let e = state.new_ok(8, ResourceKind::Embedded, stub_data());
    assert_eq!(
        state.move_plan(e, "y.txt").unwrap_err().message(),
        "Cannot move embedded resource!"
    );
}

#[test]
fn typed_requests() {
    let mut state = new_resource_manager();
    state.loaders.set(stub_loader());
    assert!(state.try_request("o.png", STUB_TYPE).is_none());
    let r = state.try_request("o.TXT", STUB_TYPE).unwrap();
    assert_eq!(r.type_uuid, STUB_TYPE);
    assert!(state.try_cast(r.untyped, STUB_TYPE).is_none());
    run_stub_load(&mut state, r.untyped, 12);
    assert_eq!(state.try_cast(r.untyped, STUB_TYPE), Some(r));
    assert!(state.try_cast(r.untyped, 1).is_none());
}

#[test]
fn first_modified_path_reloads() {
    let mut state = new_resource_manager();
    state.loaders.set(stub_loader());
    let a = state.new_ok(40, ResourceKind::External, stub_data());
    state.push(a);
    let b = state.new_ok(41, ResourceKind::External, stub_data());
    state.push(b);
    state.resource_registry.register(40, "p.txt".to_string());
    state.resource_registry.register(41, "q.txt".to_string());
    let paths = vec!["unknown.txt".to_string(), "q.txt".to_string(), "p.txt".to_string()];
    assert_eq!(state.reload_from_modified_paths(&paths), Some(1));
    assert!(state.is_loading(b));
    assert!(!state.is_loading(a));
    assert_eq!(state.resource_registry.uuid_to_path(41), None);
    assert_eq!(state.resource_registry.uuid_to_path(40).map(|p| p.as_str()), Some("p.txt"));
    assert_eq!(state.reload_from_modified_paths(&vec!["r.txt".to_string()]), None);
}

#[test]
fn destroy_unused_keeps_time_of_held_entries() {
    let mut state = new_resource_manager();
    let held = state.request("s.txt");
    let unused = state.request("t.txt");
    state.release(unused);
    state.release(held);
    state.update(1000);
    let again = state.request("s.txt");
    assert_eq!(again, held);
    assert_eq!(state.resources[0].time_to_live, DEFAULT_RESOURCE_LIFETIME - 1000);
    state.destroy_unused_resources();
    assert_eq!(state.len(), 1);
    assert_eq!(state.resources[0].value, held);
    assert_eq!(state.resources[0].time_to_live, DEFAULT_RESOURCE_LIFETIME - 1000);
}

#[test]
fn refused_registration_changes_nothing() {
    let mut state = new_resource_manager();
    let first = state.new_ok(70, ResourceKind::Embedded, stub_data());
    assert_eq!(state.register(first, "u.txt", |_, _| true), Ok(()));
    state.take_events();
    let second = state.new_ok(71, ResourceKind::Embedded, stub_data());
    assert_eq!(
        state.register(second, "u.txt", |_, _| false),
        Err(ResourceRegistrationError::UnableToRegister)
    );
    assert_eq!(state.resource_registry.path_to_uuid("u.txt"), Some(70));
    assert_eq!(state.resources(), vec![first]);
    assert_eq!(state.kind(second), ResourceKind::Embedded);
    assert!(state.take_events().is_empty());
}

#[test]
fn reregistering_a_path_replaces_its_resource() {
    let mut state = new_resource_manager();
    let first = state.new_ok(80, ResourceKind::Embedded, stub_data());
    assert_eq!(state.register(first, "w.txt", |_, _| true), Ok(()));
    state.take_events();
    let second = state.new_ok(81, ResourceKind::Embedded, stub_data());
    assert_eq!(state.register(second, "w.txt", |_, _| true), Ok(()));
    assert_eq!(state.resources(), vec![second]);
    assert_eq!(state.resource_registry.path_to_uuid("w.txt"), Some(81));
    let events = state.take_events();
    assert_eq!(events.len(), 2);
    assert!(matches!(&events[0], ResourceEvent::Removed(p) if p == "w.txt"));
    assert!(matches!(events[1], ResourceEvent::Added(h) if h == second));
}

#[test]
fn missing_path_message_names_the_uuid() {
    let e = LoadError::NoPathForUuid(0x9d873ff4_3126_47e1_a492_7cd8e7168239);
    assert!(e.message().contains("9d873ff4-3126-47e1-a492-7cd8e7168239"));
}

#[test]
fn reload_resources_skips_pending() {
    let (mut state, h1) = miss_then_hit_state();
    let pending = state.request("x.txt");
    let tasks = state.tasks.len();
    let handles = state.reload_resources();
    assert_eq!(handles, vec![h1, pending]);
    assert_eq!(state.tasks.len(), tasks + 1);
    assert!(state.is_loading(h1));
}

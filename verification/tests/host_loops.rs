use lantana::api::core_services_impl::LantanaCoreServices;
use lantana::dispatch::{CoreAction, CoreLoop, DispatchAction, Dispatcher, HostMessage};
use lantana::load_config::{CauseKind, ConfigLoad, GlobalConfig};
use lantana::path::FsPath;

#[test]
fn core_loop_does_not_start_without_plugins() {
    assert!(CoreLoop::start(0).is_none());
    assert_eq!(CoreLoop::start(2).unwrap().activated(), 0);
}

#[test]
fn core_loop_finishes_when_every_active_plugin_completed() {
    let mut core = CoreLoop::start(2).unwrap();
    match core.handle(HostMessage::InitializeDone("a")) {
        CoreAction::ForwardToDispatcher(p) => assert_eq!(p, "a"),
        _ => panic!("started plugin not forwarded"),
    }
    assert!(matches!(core.handle(HostMessage::<&str>::PluginActivate), CoreAction::Wait));
    assert!(matches!(core.handle(HostMessage::<&str>::PluginActivate), CoreAction::Wait));
    assert_eq!(core.activated(), 2);
    assert!(matches!(core.handle(HostMessage::<&str>::CoreClosing), CoreAction::ForwardClosing));
    assert!(matches!(core.handle(HostMessage::<&str>::DispatchMessage), CoreAction::Wait));
    assert!(matches!(core.handle(HostMessage::<&str>::PluginProcessingComplete), CoreAction::Wait));
    assert!(matches!(core.handle(HostMessage::<&str>::PluginProcessingComplete), CoreAction::Finish));
    assert_eq!(core.activated(), 0);
}

#[test]
fn core_loop_accepts_within_its_counter() {
    let core = CoreLoop::start(1).unwrap();
    assert!(core.accepts(&HostMessage::<u8>::PluginActivate));
    assert!(core.accepts(&HostMessage::<u8>::PluginProcessingComplete));
    assert!(core.accepts(&HostMessage::<u8>::CoreClosing));
}

#[test]
fn dispatcher_ends_started_plugins_in_arrival_order() {
    let mut d: Dispatcher<u32> = Dispatcher::new();
    assert!(matches!(d.handle(HostMessage::InitializeDone(10)), DispatchAction::NotifyActivated));
    assert!(matches!(d.handle(HostMessage::DispatchMessage), DispatchAction::Nothing));
    assert!(matches!(d.handle(HostMessage::InitializeDone(20)), DispatchAction::NotifyActivated));
    assert!(matches!(d.handle(HostMessage::PluginActivate), DispatchAction::Nothing));
    match d.handle(HostMessage::CoreClosing) {
        DispatchAction::EndSessions(v) => assert_eq!(v, vec![10, 20]),
        _ => panic!("closing did not end sessions"),
    }
    match d.handle(HostMessage::CoreClosing) {
        DispatchAction::EndSessions(v) => assert!(v.is_empty()),
        _ => panic!("closing did not end sessions"),
    }
}

#[test]
fn core_services_know_their_plugin() {
    let p = FsPath::from_components(true, vec!["opt".to_string(), "a.so".to_string()]);
    let services = LantanaCoreServices::new(p.clone());
    assert!(services.get_dll_name().same_as(&p));
}

#[test]
fn config_values() {
    let c = GlobalConfig::new();
    assert_eq!(c, GlobalConfig::new());
    assert_eq!(CauseKind::BrokenFile, CauseKind::BrokenFile);
}

#[test]
fn configuration_that_was_read_is_used() {
    match GlobalConfig::after_load(Ok::<Box<GlobalConfig>, String>(Box::new(GlobalConfig::new()))) {
        ConfigLoad::Use(c) => assert_eq!(*c, GlobalConfig::new()),
        ConfigLoad::Recover { .. } => panic!("a read configuration is not recovered"),
    }
}

#[test]
fn unreadable_configuration_is_backed_up_and_replaced() {
    match GlobalConfig::after_load(Err::<Box<GlobalConfig>, String>("broken".to_string())) {
        ConfigLoad::Recover { cause, default } => {
            assert_eq!(cause, CauseKind::BrokenFile);
            assert_eq!(default, GlobalConfig::new());
        }
        ConfigLoad::Use(_) => panic!("a broken configuration is not used"),
    }
}

use profile_mem::registration::Registration;
use profile_mem::registry::{NextAction, ProfilerMsg, Registry};

type Msg = ProfilerMsg<u32, u8>;

#[test]
fn open_registers_and_close_unregisters_the_same_name() {
    let (reg, msg): (Registration, Msg) = Registration::open("painter".to_string(), 9);
    assert_eq!(reg.reporter_name(), "painter");
    match msg {
        ProfilerMsg::RegisterReporter(n, h) => {
            assert_eq!(n, "painter");
            assert_eq!(h, 9);
        },
        _ => panic!("expected a registration"),
    }
    let closing: Msg = reg.close();
    match closing {
        ProfilerMsg::UnregisterReporter(n) => assert_eq!(n, "painter"),
        _ => panic!("expected an unregistration"),
    }
}

fn failing_action(registry: &mut Registry<u32>) -> Result<(), String> {
    let (reg, msg): (Registration, Msg) = Registration::open("R1".to_string(), 1);
    assert!(matches!(registry.handle_msg(msg), Ok(NextAction::Continue)));
    let outcome: Result<(), String> = Err("action failed".to_string());
    let closing: Msg = reg.close();
    assert!(matches!(registry.handle_msg(closing), Ok(NextAction::Continue)));
    outcome
}

#[test]
fn registration_is_closed_when_the_action_fails() {
    let mut registry: Registry<u32> = Registry::new();
    assert!(failing_action(&mut registry).is_err());
    assert_eq!(registry.len(), 0);
    let (_reg, again): (Registration, Msg) = Registration::open("R1".to_string(), 2);
    assert!(matches!(registry.handle_msg(again), Ok(NextAction::Continue)));
    assert_eq!(registry.len(), 1);
}

use lignin::callback_registry::{
    CallbackRegistration, CallbackRegistry, DeferredOp, InvokeError, Key, ToRefThreadBoundFallback,
};
use lignin::handlers::{LatestEvent, RetireOnEvent};
use lignin::CallbackRef;

type StrRegistry = CallbackRegistry<Option<&'static str>, LatestEvent>;
type RetireRegistry = CallbackRegistry<(u64, Option<&'static str>), RetireOnEvent>;
type StrResult = Result<(), InvokeError<u64>>;

fn quiet() -> RetireOnEvent {
    RetireOnEvent { targets: Vec::new(), abort: None }
}

#[test]
fn assert_no_quantization() {
    // Assert field type: a reference's identity is its key.
    let _ = CallbackRef { key: Key(u32::MAX as u64) };

    for x in u32::MAX - 1000..u32::MAX {
        let f: f64 = x.into();
        assert_eq!(f as u32, x);
    }
}

#[test]
fn distinct() {
    let mut registry: StrRegistry = CallbackRegistry::new();
    let a = registry.register(None, LatestEvent, true);
    let b = registry.register(None, LatestEvent, true);
    assert_ne!(a.to_ref(), b.to_ref());
    assert_ne!(a.to_ref_thread_bound(), b.to_ref_thread_bound());
}

#[test]
fn copied_refs_are_equal() {
    let mut registry: StrRegistry = CallbackRegistry::new();
    let a = registry.register(None, LatestEvent, true);
    let r1 = a.to_ref();
    let r2 = r1;
    assert_eq!(r1, r2);
    assert_eq!(a.to_ref(), r2);
}

#[test]
fn registered_keys_strictly_increase() {
    let mut registry: StrRegistry = CallbackRegistry::new();
    let mut keys = Vec::new();
    for _ in 0..5 {
        keys.push(registry.register(None, LatestEvent, false).key.0);
    }
    for i in 0..keys.len() {
        for j in i + 1..keys.len() {
            assert!(keys[i] < keys[j]);
            assert_ne!(keys[i], keys[j]);
        }
    }
    assert_eq!(keys, vec![1, 2, 3, 4, 5]);
}

#[test]
fn live_invoke_calls_handler_once_with_parameter() {
    let mut registry: RetireRegistry = CallbackRegistry::new();
    let b = registry.register((0, None), quiet(), false);
    let (regs, result): (Vec<CallbackRegistration>, StrResult) =
        registry.invoke(b.key, "click");
    assert!(regs.is_empty());
    assert_eq!(result, Ok(()));
    // exactly one invocation, parameter passed through unchanged
    assert_eq!(registry.get_receiver(b.key), Some(&(1, Some("click"))));
}

#[test]
fn call_through_reference() {
    let mut registry: RetireRegistry = CallbackRegistry::new();
    let b = registry.register((0, None), quiet(), false);
    let reference = b.to_ref_thread_bound();
    let (_, result): (Vec<CallbackRegistration>, StrResult) =
        reference.call(&mut registry, "input");
    assert_eq!(result, Ok(()));
    assert_eq!(registry.get_receiver(b.key), Some(&(1, Some("input"))));
}

#[test]
fn dropped_registration_makes_invoke_inert() {
    let mut registry: RetireRegistry = CallbackRegistry::new();
    let a = registry.register((0, None), quiet(), false);
    let b = registry.register((0, None), quiet(), false);
    assert_eq!(a.key, Key(1));
    assert_eq!(b.key, Key(2));
    let a_key = a.key;
    registry.deregister(a);
    // invoke(1, "click"): no call, no panic, no observable side effect
    let (regs, result): (Vec<CallbackRegistration>, StrResult) =
        registry.invoke(a_key, "click");
    assert!(regs.is_empty());
    assert_eq!(result, Ok(()));
    assert_eq!(registry.get_receiver(a_key), None);
    assert_eq!(registry.get_receiver(b.key), Some(&(0, None)));
    // invoke(2, "click"): B's handler called once with "click"
    let (_, result): (Vec<CallbackRegistration>, StrResult) =
        registry.invoke(b.key, "click");
    assert_eq!(result, Ok(()));
    assert_eq!(registry.get_receiver(b.key), Some(&(1, Some("click"))));
}

#[test]
fn deferred_deregistration_runs_after_dispatch_exactly_once() {
    let mut registry: RetireRegistry = CallbackRegistry::new();
    let _a = registry.register((0, None), quiet(), false);
    let c_probe = registry.register((0, None), quiet(), false);
    let c = registry.register((0, None), quiet(), false);
    // B's handler schedules the removal of C while it runs inside invoke.
    let b = registry.register((0, None), RetireOnEvent { targets: vec![c.key], abort: None }, false);
    assert!(registry.get_receiver(c.key).is_some());
    let (regs, result): (Vec<CallbackRegistration>, StrResult) =
        registry.invoke(b.key, "click");
    assert!(regs.is_empty());
    assert_eq!(result, Ok(()));
    // B itself ran, and after invoke returned, C's entry is gone.
    assert_eq!(registry.get_receiver(b.key), Some(&(1, Some("click"))));
    assert_eq!(registry.get_receiver(c.key), None);
    // other entries are untouched
    assert_eq!(registry.get_receiver(c_probe.key), Some(&(0, None)));
    // the removal happened exactly once: a second round finds it stale
    let (_, result): (Vec<CallbackRegistration>, StrResult) =
        registry.invoke(b.key, "again");
    assert_eq!(result, Err(InvokeError::StaleDeregistration(c.key)));
}

#[test]
fn panicking_handler_discards_scheduled_continuations() {
    let mut registry: RetireRegistry = CallbackRegistry::new();
    let c = registry.register((0, None), quiet(), false);
    let b = registry.register(
        (0, None),
        RetireOnEvent { targets: vec![c.key], abort: Some(7) },
        false,
    );
    let (regs, result): (Vec<CallbackRegistration>, StrResult) =
        registry.invoke(b.key, "boom");
    // the panic payload reaches the invoking caller unchanged
    assert!(regs.is_empty());
    assert_eq!(result, Err(InvokeError::HandlerPanicked(7)));
    // the scheduled removal of C never executed
    assert_eq!(registry.get_receiver(c.key), Some(&(0, None)));
    // and the panicking handler's receiver state is untouched
    assert_eq!(registry.get_receiver(b.key), Some(&(0, None)));
}

#[test]
fn when_unlocked_locally_runs_immediately_while_idle() {
    let mut registry: RetireRegistry = CallbackRegistry::new();
    let c = registry.register((0, None), quiet(), false);
    // no dispatch is underway, so the continuation runs at once
    let (regs, result): (Vec<CallbackRegistration>, StrResult) =
        registry.when_unlocked_locally(DeferredOp::Deregister(c.key));
    assert!(regs.is_empty());
    assert_eq!(result, Ok(()));
    assert_eq!(registry.get_receiver(c.key), None);
    // a deferred registration hands its handle back
    let (regs, result): (Vec<CallbackRegistration>, StrResult) =
        registry.when_unlocked_locally(DeferredOp::Register((0, None), quiet(), false));
    assert_eq!(result, Ok(()));
    assert_eq!(regs.len(), 1);
    assert_eq!(regs[0].key, Key(2));
    assert!(registry.get_receiver(regs[0].key).is_some());
}

#[test]
fn stale_deferred_deregistration_is_an_error() {
    let mut registry: RetireRegistry = CallbackRegistry::new();
    let (regs, result): (Vec<CallbackRegistration>, StrResult) =
        registry.when_unlocked_locally(DeferredOp::Deregister(Key(9)));
    assert!(regs.is_empty());
    assert_eq!(result, Err(InvokeError::StaleDeregistration(Key(9))));
}

#[test]
fn deferred_registration_on_exhausted_keys_is_an_error() {
    let mut registry: RetireRegistry = CallbackRegistry::new();
    registry.key_count = u64::MAX;
    let (regs, result): (Vec<CallbackRegistration>, StrResult) =
        registry.when_unlocked_locally(DeferredOp::Register((0, None), quiet(), false));
    assert!(regs.is_empty());
    assert_eq!(result, Err(InvokeError::KeysExhausted));
}

#[test]
fn reset_with_no_live_registrations_restarts_keys() {
    let mut registry: StrRegistry = CallbackRegistry::new();
    let a = registry.register(None, LatestEvent, false);
    assert_eq!(a.key, Key(1));
    registry.deregister(a);
    assert_eq!(registry.reset_callback_registry(), Ok(()));
    // the next allocated key is the original starting key
    let b = registry.register(None, LatestEvent, false);
    assert_eq!(b.key, Key(1));
}

#[test]
fn reset_with_live_registrations_fails_safely() {
    let mut registry: StrRegistry = CallbackRegistry::new();
    let a = registry.register(None, LatestEvent, false);
    let b = registry.register(None, LatestEvent, false);
    registry.deregister(b);
    assert_eq!(registry.reset_callback_registry(), Err(()));
    // the next allocated key is strictly greater than any live key
    let c = registry.register(None, LatestEvent, false);
    assert!(c.key.0 > a.key.0);
    assert_eq!(c.key, Key(2));
    // the live entry is untouched
    assert!(registry.get_receiver(a.key).is_some());
}

#[test]
fn force_clear_empties_table_and_counter() {
    let mut registry: StrRegistry = CallbackRegistry::new();
    let a = registry.register(None, LatestEvent, false);
    let b = registry.register(None, LatestEvent, false);
    registry.yet_more_unsafe_force_clear_callback_registry();
    assert_eq!(registry.get_receiver(a.key), None);
    assert_eq!(registry.get_receiver(b.key), None);
    assert_eq!(registry.registry_exhaustion(), 0);
    // keys restart from the beginning
    let c = registry.register(None, LatestEvent, false);
    assert_eq!(c.key, Key(1));
}

#[test]
fn registry_exhaustion_reports_high_byte() {
    let mut registry: StrRegistry = CallbackRegistry::new();
    assert_eq!(registry.registry_exhaustion(), 0);
    registry.register(None, LatestEvent, false);
    assert_eq!(registry.registry_exhaustion(), 0);
    registry.key_count = 200u64 << 56 | 12345;
    assert_eq!(registry.registry_exhaustion(), 200);
    registry.key_count = u64::MAX;
    assert_eq!(registry.registry_exhaustion(), 255);
}

#[test]
fn references_compare_by_key_only() {
    let mut registry: StrRegistry = CallbackRegistry::new();
    let a = registry.register(None, LatestEvent, true);
    let b = registry.register(None, LatestEvent, false);
    // the capability lives on the registration, not in the reference value
    assert!(a.thread_safe);
    assert!(!b.thread_safe);
    // every reference derived from one registration is equal by key
    assert_eq!(a.to_ref(), a.to_ref_thread_bound());
    let fallback = ToRefThreadBoundFallback::to_ref(&a);
    assert_eq!(fallback, a.to_ref_thread_bound());
    assert_eq!(fallback, a.to_ref());
    assert_eq!(fallback.key, a.key);
    // and distinct registrations give distinct references either way
    assert_ne!(a.to_ref(), b.to_ref_thread_bound());
}

#[test]
fn leaked_registration_keeps_entry_alive() {
    let mut registry: RetireRegistry = CallbackRegistry::new();
    let a = registry.register((0, None), quiet(), false);
    let reference = a.to_ref_thread_bound();
    a.leak();
    let (_, result): (Vec<CallbackRegistration>, StrResult) =
        reference.call(&mut registry, "still here");
    assert_eq!(result, Ok(()));
    assert_eq!(registry.get_receiver(reference.key), Some(&(1, Some("still here"))));
}

#[test]
fn registration_new_matches_register() {
    let mut registry: StrRegistry = CallbackRegistry::new();
    let a = CallbackRegistration::new(&mut registry, None, LatestEvent, true);
    assert_eq!(a.key, Key(1));
    assert!(a.thread_safe);
    assert!(registry.get_receiver(a.key).is_some());
}

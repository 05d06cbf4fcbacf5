use asml_runtime::executor::UnitOfWork;
use asml_runtime::iomod::{
    asml_abi_event_len, asml_abi_event_ptr, asml_abi_invoke, asml_abi_poll, read_guest_bytes,
    spawn_event, AbiFault, Handler, ModuleRegistry, RegisterError, RuntimeContext,
    SpawnEventError,
};

fn registry_with(entries: &[(&str, &str, &str, u32, &[u8])]) -> ModuleRegistry {
    let mut registry = ModuleRegistry::new();
    for (org, ns, name, latency, response) in entries {
        let handler = Handler { latency: *latency, response: response.to_vec() };
        registry
            .register(
                org.as_bytes().to_vec(),
                ns.as_bytes().to_vec(),
                name.as_bytes().to_vec(),
                handler,
            )
            .expect("registration at boot must succeed");
    }
    registry
}

#[test]
fn end_to_end_kv_get() {
    let registry = registry_with(&[("acme", "kv", "get", 1, b"VALUE")]);
    let mut ctx = RuntimeContext::new(registry);

    let mut memory: Vec<u8> = Vec::new();
    memory.extend_from_slice(b"acme.kv.get");
    memory.extend_from_slice(b"key1");

    let id = asml_abi_invoke(&mut ctx, &memory, 0, 11, 11, 4).expect("invoke must not fault");
    assert_eq!(id, 0);

    assert_eq!(asml_abi_poll(&ctx, 0), 0);
    ctx.run();
    assert_eq!(asml_abi_poll(&ctx, 0), 1);

    let ptr = asml_abi_event_ptr(&ctx, 0).expect("ready event has a pointer");
    let len = asml_abi_event_len(&ctx, 0).expect("ready event has a length");
    assert_eq!(len, 5);
    let bytes = ctx.read_output(ptr as usize, len as usize);
    assert_eq!(bytes, b"VALUE".to_vec());
}

#[test]
fn executor_three_units() {
    let registry = ModuleRegistry::new();
    let mut ctx = RuntimeContext::new(registry);

    let first = spawn_event(&mut ctx, UnitOfWork { remaining_polls: 0, output: b"a".to_vec() });
    let second = spawn_event(&mut ctx, UnitOfWork { remaining_polls: 1, output: b"bb".to_vec() });
    let third = spawn_event(&mut ctx, UnitOfWork { remaining_polls: 2, output: b"ccc".to_vec() });
    assert_eq!(first, Ok(0));
    assert_eq!(second, Ok(1));
    assert_eq!(third, Ok(2));

    assert_eq!(asml_abi_poll(&ctx, 0), 0);
    ctx.run();

    for (id, expected) in [(0u32, &b"a"[..]), (1, &b"bb"[..]), (2, &b"ccc"[..])] {
        assert_eq!(asml_abi_poll(&ctx, id), 1);
        let ptr = asml_abi_event_ptr(&ctx, id).unwrap();
        let len = asml_abi_event_len(&ctx, id).unwrap();
        assert_eq!(len as usize, expected.len());
        assert_eq!(ctx.read_output(ptr as usize, len as usize), expected.to_vec());
    }

    // Running again finds an empty queue and re-polls nothing: every result
    // is unchanged.
    ctx.run();
    for (id, expected) in [(0u32, &b"a"[..]), (1, &b"bb"[..]), (2, &b"ccc"[..])] {
        let ptr = asml_abi_event_ptr(&ctx, id).unwrap();
        let len = asml_abi_event_len(&ctx, id).unwrap();
        assert_eq!(ctx.read_output(ptr as usize, len as usize), expected.to_vec());
    }
}

#[test]
fn invoke_malformed_coordinate_returns_minus_one() {
    let registry = registry_with(&[("acme", "kv", "get", 0, b"VALUE")]);
    let mut ctx = RuntimeContext::new(registry);

    for coord in ["acme.kv", "acmekvget", "acme.kv.get.extra", ""] {
        let memory = coord.as_bytes().to_vec();
        let r = asml_abi_invoke(&mut ctx, &memory, 0, memory.len() as u32, 0, 0);
        assert_eq!(r, Ok(-1), "coordinate {:?} must fail to resolve", coord);
    }

    // No event id was consumed by the failures: the first hit still gets id 0.
    let memory = b"acme.kv.get".to_vec();
    let r = asml_abi_invoke(&mut ctx, &memory, 0, 11, 0, 0);
    assert_eq!(r, Ok(0));
}

#[test]
fn invoke_unregistered_coordinate_returns_minus_one() {
    let registry = registry_with(&[("acme", "kv", "get", 0, b"VALUE")]);
    let mut ctx = RuntimeContext::new(registry);

    for coord in ["acme.kv.put", "acme.sql.get", "other.kv.get", "a..b"] {
        let memory = coord.as_bytes().to_vec();
        let r = asml_abi_invoke(&mut ctx, &memory, 0, memory.len() as u32, 0, 0);
        assert_eq!(r, Ok(-1), "coordinate {:?} must miss", coord);
        assert_eq!(asml_abi_poll(&ctx, 0), 0);
    }
}

#[test]
fn invoke_out_of_bounds_pointer_faults() {
    let registry = registry_with(&[("acme", "kv", "get", 0, b"VALUE")]);
    let mut ctx = RuntimeContext::new(registry);
    let memory = b"acme.kv.get".to_vec();

    // Name range runs past guest memory.
    assert_eq!(asml_abi_invoke(&mut ctx, &memory, 0, 12, 0, 0), Err(AbiFault::MemoryBounds));
    // Input range runs past guest memory even though the name resolves.
    assert_eq!(asml_abi_invoke(&mut ctx, &memory, 0, 11, 8, 100), Err(AbiFault::MemoryBounds));
    // A faulted invoke created no event.
    assert_eq!(asml_abi_poll(&ctx, 0), 0);
}

#[test]
fn poll_unknown_id_reports_not_ready() {
    let registry = registry_with(&[("acme", "kv", "get", 0, b"VALUE")]);
    let mut ctx = RuntimeContext::new(registry);
    assert_eq!(asml_abi_poll(&ctx, 0), 0);
    assert_eq!(asml_abi_poll(&ctx, 12345), 0);

    let memory = b"acme.kv.get".to_vec();
    asml_abi_invoke(&mut ctx, &memory, 0, 11, 0, 0).unwrap();
    ctx.run();
    assert_eq!(asml_abi_poll(&ctx, 0), 1);
    // An id never returned by invoke stays not-ready, even after completions.
    assert_eq!(asml_abi_poll(&ctx, 1), 0);
    assert_eq!(asml_abi_poll(&ctx, 99), 0);
}

#[test]
fn result_pointer_before_ready_faults() {
    let registry = registry_with(&[("acme", "kv", "get", 3, b"VALUE")]);
    let mut ctx = RuntimeContext::new(registry);
    let memory = b"acme.kv.get".to_vec();
    let id = asml_abi_invoke(&mut ctx, &memory, 0, 11, 0, 0).unwrap();
    assert_eq!(id, 0);

    assert_eq!(asml_abi_event_ptr(&ctx, 0), Err(AbiFault::NotReady));
    assert_eq!(asml_abi_event_len(&ctx, 0), Err(AbiFault::NotReady));
    assert_eq!(asml_abi_event_ptr(&ctx, 7), Err(AbiFault::NotReady));

    ctx.run();
    assert!(asml_abi_event_ptr(&ctx, 0).is_ok());
    assert!(asml_abi_event_len(&ctx, 0).is_ok());
}

#[test]
fn concurrent_documents_never_overlap() {
    let registry = registry_with(&[
        ("acme", "kv", "get", 2, b"VALUE"),
        ("acme", "kv", "list", 0, b"K1,K2,K3"),
    ]);
    let mut ctx = RuntimeContext::new(registry);
    let mut memory = b"acme.kv.get".to_vec();
    memory.extend_from_slice(b"acme.kv.list");

    let id_get = asml_abi_invoke(&mut ctx, &memory, 0, 11, 0, 0).unwrap();
    let id_list = asml_abi_invoke(&mut ctx, &memory, 11, 12, 0, 0).unwrap();
    assert_eq!((id_get, id_list), (0, 1));
    ctx.run();

    let p0 = asml_abi_event_ptr(&ctx, 0).unwrap() as usize;
    let l0 = asml_abi_event_len(&ctx, 0).unwrap() as usize;
    let p1 = asml_abi_event_ptr(&ctx, 1).unwrap() as usize;
    let l1 = asml_abi_event_len(&ctx, 1).unwrap() as usize;

    assert!(p0 + l0 <= p1 || p1 + l1 <= p0, "document ranges overlap");
    assert_eq!(ctx.read_output(p0, l0), b"VALUE".to_vec());
    assert_eq!(ctx.read_output(p1, l1), b"K1,K2,K3".to_vec());
}

#[test]
fn full_ready_queue_reports_busy() {
    let registry = registry_with(&[("acme", "kv", "get", 0, b"VALUE")]);
    let mut ctx = RuntimeContext::new(registry);

    for _ in 0..10000 {
        let r = spawn_event(&mut ctx, UnitOfWork { remaining_polls: 0, output: Vec::new() });
        assert!(r.is_ok());
    }
    let overflow = spawn_event(&mut ctx, UnitOfWork { remaining_polls: 0, output: Vec::new() });
    assert_eq!(overflow, Err(SpawnEventError::Busy));

    // The guest-visible invoke path reports the recoverable busy sentinel.
    let memory = b"acme.kv.get".to_vec();
    assert_eq!(asml_abi_invoke(&mut ctx, &memory, 0, 11, 0, 0), Ok(-2));

    // Draining the queue makes room again.
    ctx.run();
    assert_eq!(asml_abi_invoke(&mut ctx, &memory, 0, 11, 0, 0), Ok(10000));
}

#[test]
fn register_rejects_duplicates_and_bad_components() {
    let mut registry = ModuleRegistry::new();
    let ok = registry.register(
        b"acme".to_vec(),
        b"kv".to_vec(),
        b"get".to_vec(),
        Handler { latency: 0, response: Vec::new() },
    );
    assert_eq!(ok, Ok(()));

    let dup = registry.register(
        b"acme".to_vec(),
        b"kv".to_vec(),
        b"get".to_vec(),
        Handler { latency: 1, response: b"other".to_vec() },
    );
    assert_eq!(dup, Err(RegisterError::AlreadyRegistered));

    let empty = registry.register(
        b"acme".to_vec(),
        Vec::new(),
        b"get".to_vec(),
        Handler { latency: 0, response: Vec::new() },
    );
    assert_eq!(empty, Err(RegisterError::InvalidCoordinate));

    let dotted = registry.register(
        b"acme".to_vec(),
        b"k.v".to_vec(),
        b"get".to_vec(),
        Handler { latency: 0, response: Vec::new() },
    );
    assert_eq!(dotted, Err(RegisterError::InvalidCoordinate));

    let non_ascii = registry.register(
        vec![0xC3, 0xA9],
        b"kv".to_vec(),
        b"get".to_vec(),
        Handler { latency: 0, response: Vec::new() },
    );
    assert_eq!(non_ascii, Err(RegisterError::InvalidCoordinate));

    // A distinct name under the same org and namespace is fine.
    let other = registry.register(
        b"acme".to_vec(),
        b"kv".to_vec(),
        b"put".to_vec(),
        Handler { latency: 0, response: Vec::new() },
    );
    assert_eq!(other, Ok(()));
}

#[test]
fn read_guest_bytes_checks_bounds() {
    let memory = b"hello guest".to_vec();
    assert_eq!(read_guest_bytes(&memory, 0, 5), Ok(b"hello".to_vec()));
    assert_eq!(read_guest_bytes(&memory, 6, 5), Ok(b"guest".to_vec()));
    assert_eq!(read_guest_bytes(&memory, 0, 12), Err(AbiFault::MemoryBounds));
    assert_eq!(read_guest_bytes(&memory, 11, 1), Err(AbiFault::MemoryBounds));
    assert_eq!(read_guest_bytes(&memory, 11, 0), Ok(Vec::new()));
}

use duktape_bridge::{DukContext, DukType, JsEngine, JsNumber};

#[test]
fn test_get_invalid_context() {
    let mut engine = JsEngine::new().unwrap();
    let res = engine.ctx().get_context(0);
    assert!(res.is_err());
}

#[test]
fn test_push_thread() {
    let mut engine = JsEngine::new().unwrap();
    let ctx = engine.ctx();
    let new_idx = ctx.push_thread();
    let guard = ctx.get_context(new_idx).unwrap();
    ctx.push_string("test");
    assert_eq!(ctx.get_string(-1), "test");
    ctx.pop();
    assert!(ctx.get_stack_dump().contains("ctx: top=0"));
    ctx.release_context(guard);
    ctx.pop();
    assert!(ctx.get_stack_dump().contains("ctx: top=0"));
}

#[test]
fn test_nested_push_thread() {
    let mut engine = JsEngine::new().unwrap();
    let ctx = engine.ctx();
    let new_idx = ctx.push_thread();
    let outer = ctx.get_context(new_idx).unwrap();
    let nested_id = ctx.push_thread();
    let inner = ctx.get_context(nested_id).unwrap();
    ctx.push_string("test");
    assert_eq!(ctx.get_string(-1), "test");
    ctx.release_context(inner);
    ctx.release_context(outer);
    ctx.pop();
    assert!(ctx.get_stack_dump().contains("ctx: top=0"));
}

#[test]
fn test_push_thread_new_globalenv() {
    let mut engine = JsEngine::new().unwrap();
    let ctx = engine.ctx();
    let new_idx = ctx.push_thread_new_globalenv();
    let new_idx2 = ctx.push_thread_new_globalenv();

    let first = ctx.get_context(new_idx).unwrap();
    ctx.push_string("test");
    assert_eq!(ctx.get_string(-1), "test");
    ctx.pop();
    assert!(ctx.get_stack_dump().contains("ctx: top=0"));
    ctx.release_context(first);

    let second = ctx.get_context(new_idx2).unwrap();
    ctx.push_string("test2");
    ctx.push_string("test2");
    assert_eq!(ctx.get_string(-1), "test2");
    ctx.pop();
    assert!(ctx.get_stack_dump().contains("ctx: top=1"));
    ctx.release_context(second);

    ctx.pop_n(2);
    assert!(ctx.get_stack_dump().contains("ctx: top=0"));
}

#[test]
fn ctx_test_to_lstring_safety() {
    let mut engine = JsEngine::new().unwrap();
    engine.ctx().push_string("test");
    let s = engine.ctx().safe_to_lstring(-1);
    assert_eq!(s, "test");
    engine.ctx().pop();
    assert_eq!(s, "test");
    drop(engine);
    assert_eq!(s, "test");
}

#[test]
fn test_check_stack_error() {
    let engine = JsEngine::new().unwrap();
    let res = engine.ctx.check_stack(i32::MAX as usize);
    assert!(res.is_err());
}

#[test]
fn test_xcopy_top() {
    let mut engine = JsEngine::new().unwrap();
    let ctx = engine.ctx();
    let root = ctx.context_id();

    ctx.push_object();
    ctx.push_i32(1);
    ctx.put_prop_string(-2, "a");
    ctx.push_i32(2);
    ctx.put_prop_string(-2, "b");
    ctx.put_global_string("GLOBAL_TEST");

    let ctx1_idx = ctx.push_thread_new_globalenv();
    assert!(ctx.get_global_string("GLOBAL_TEST"));
    let ctx1 = ctx.get_context(ctx1_idx).unwrap();

    ctx.check_stack(1).unwrap();
    ctx.xcopy_top(root, 1);
    ctx.put_global_string("GLOBAL_TEST");

    assert!(ctx.get_global_string("GLOBAL_TEST"));
    assert!(ctx.get_prop_string(-1, "b"));
    assert_eq!(ctx.get_number(-1), JsNumber::Int(2));
    ctx.pop();

    ctx.push_i32(5);
    ctx.put_prop_string(-2, "b");
    ctx.pop();
    ctx.release_context(ctx1);

    assert!(ctx.get_global_string("GLOBAL_TEST"));
    assert!(ctx.get_prop_string(-1, "b"));
    assert_eq!(ctx.get_number(-1), JsNumber::Int(5));
    ctx.pop();
}

#[test]
fn test_set_global_object() {
    let mut engine = JsEngine::new().unwrap();
    let ctx = engine.ctx();
    ctx.push_object();
    ctx.put_global_string("Math");
    assert!(ctx.get_global_string("Math"));
    ctx.pop();

    ctx.push_object();
    ctx.push_i32(1);
    ctx.put_prop_string(-2, "a");
    ctx.push_i32(2);
    ctx.put_prop_string(-2, "b");
    ctx.set_global_object();

    assert!(!ctx.get_global_string("Math"));
    assert_eq!(ctx.get_type(-1), DukType::DUK_TYPE_UNDEFINED);
    assert_eq!(ctx.safe_to_lstring(-1), "undefined");
    assert!(ctx.get_global_string("a"));
    assert_eq!(ctx.get_number(-1), JsNumber::Int(1));
}

#[test]
fn copied_scalar_is_independent() {
    let mut ctx = DukContext::new();
    let root = ctx.context_id();
    let idx = ctx.push_thread();
    ctx.push_i32(7);
    let guard = ctx.get_context(idx).unwrap();
    ctx.xcopy_top(root, 1);
    assert_eq!(ctx.get_number(-1), JsNumber::Int(7));
    ctx.pop();
    ctx.push_i32(8);
    assert_eq!(ctx.get_number(-1), JsNumber::Int(8));
    ctx.release_context(guard);
    assert_eq!(ctx.get_number(-1), JsNumber::Int(7));
}

#[test]
fn copied_object_is_shared() {
    let mut ctx = DukContext::new();
    let root = ctx.context_id();
    let idx = ctx.push_thread();
    ctx.push_object();
    let guard = ctx.get_context(idx).unwrap();
    ctx.xcopy_top(root, 1);
    ctx.push_string("seen");
    ctx.put_prop_string(-2, "mark");
    ctx.release_context(guard);
    assert!(ctx.get_prop_string(-1, "mark"));
    assert_eq!(ctx.get_string(-1), "seen");
}

#[test]
fn moved_values_leave_the_source() {
    let mut ctx = DukContext::new();
    let root = ctx.context_id();
    let idx = ctx.push_thread();
    ctx.push_string("one");
    ctx.push_string("two");
    let guard = ctx.get_context(idx).unwrap();
    ctx.xmove_top(root, 2);
    assert_eq!(ctx.get_top(), 2);
    assert_eq!(ctx.get_string(0), "one");
    assert_eq!(ctx.get_string(1), "two");
    ctx.release_context(guard);
    assert_eq!(ctx.get_top(), 1);
    assert!(ctx.is_thread(-1));
}

#[test]
fn nested_contexts_restore_root_depth() {
    let mut ctx = DukContext::new();
    ctx.push_string("base");
    let mut guards = Vec::new();
    for _ in 0..5 {
        let idx = ctx.push_thread();
        guards.push(ctx.get_context(idx).unwrap());
        assert_eq!(ctx.get_top(), 0);
    }
    while let Some(g) = guards.pop() {
        ctx.release_context(g);
        ctx.pop();
    }
    assert_eq!(ctx.get_top(), 1);
    assert_eq!(ctx.get_string(-1), "base");
}

#[test]
fn stack_primitives() {
    let mut ctx = DukContext::new();
    ctx.push_i32(1);
    ctx.push_boolean(true);
    ctx.push_null();
    ctx.push_undefined();
    ctx.push_u32(4_000_000_000);
    assert_eq!(ctx.normalize_index(-1), Some(4));
    assert_eq!(ctx.normalize_index(-6), None);
    assert_eq!(ctx.normalize_index(5), None);
    assert_eq!(ctx.get_type(1), DukType::DUK_TYPE_BOOLEAN);
    assert_eq!(ctx.get_type(2), DukType::DUK_TYPE_NULL);
    assert_eq!(ctx.get_type(3), DukType::DUK_TYPE_UNDEFINED);
    assert_eq!(ctx.get_type(9), DukType::DUK_TYPE_NONE);
    assert_eq!(ctx.get_number(4), JsNumber::Int(4_000_000_000));
    ctx.dup(0);
    assert_eq!(ctx.get_number(-1), JsNumber::Int(1));
    ctx.remove(1);
    assert_eq!(ctx.get_type(1), DukType::DUK_TYPE_NULL);
    ctx.swap(0, 1);
    assert_eq!(ctx.get_type(0), DukType::DUK_TYPE_NULL);
    assert!(ctx.is_number(1));
    assert!(!ctx.is_string(1));
    assert!(!ctx.get_boolean(1));
    assert_eq!(ctx.get_number(3), JsNumber::Int(4_000_000_000));
    assert_eq!(ctx.safe_to_lstring(1), "1");
    ctx.push_i32(-42);
    assert_eq!(ctx.safe_to_lstring(-1), "-42");
    ctx.pop_n(ctx.get_top());
    assert_eq!(ctx.get_top(), 0);
    assert!(ctx.check_stack(1).is_ok());
    assert!(ctx.check_stack_top(1_000_000).is_ok());
    assert!(ctx.check_stack_top(1_000_001).is_err());
}

#[test]
fn index_properties() {
    let mut ctx = DukContext::new();
    ctx.push_array();
    ctx.push_string("x");
    ctx.put_prop_index(-2, 2);
    assert_eq!(ctx.get_length(-1), 3);
    assert!(!ctx.get_prop_index(-1, 5));
    assert_eq!(ctx.get_type(-1), DukType::DUK_TYPE_UNDEFINED);
    ctx.pop();
    assert!(ctx.get_prop_index(-1, 0));
    assert_eq!(ctx.get_type(-1), DukType::DUK_TYPE_UNDEFINED);
    ctx.pop();
    assert!(ctx.get_prop_index(-1, 2));
    assert_eq!(ctx.get_string(-1), "x");
}

#[test]
fn globals_and_functions() {
    let mut ctx = DukContext::new();
    ctx.put_global_function("add", 2);
    assert_eq!(ctx.get_top(), 0);
    assert!(ctx.get_global_string("add"));
    assert!(ctx.is_function(-1));
    assert!(ctx.is_object(-1));
    assert!(!ctx.is_pure_object(-1));
    ctx.pop();
    ctx.push_global_object();
    assert!(ctx.get_prop_string(-1, "add"));
    assert!(ctx.is_function(-1));
    assert!(!ctx.get_global_string("missing"));
}

#[test]
fn stack_dump_counts_values() {
    let mut ctx = DukContext::new();
    assert_eq!(ctx.get_stack_dump(), "ctx: top=0");
    for _ in 0..12 {
        ctx.push_null();
    }
    assert_eq!(ctx.get_stack_dump(), "ctx: top=12");
}

#[test]
fn enumeration_walks_elements_then_names() {
    let mut ctx = DukContext::new();
    ctx.push_array();
    ctx.push_string("a");
    ctx.put_prop_index(-2, 0);
    ctx.push_string("b");
    ctx.put_prop_index(-2, 1);
    ctx.push_i32(9);
    ctx.put_prop_string(-2, "extra");

    ctx.enum_keys(-1);
    let mut seen = Vec::new();
    while ctx.next(-1) {
        seen.push(format!("{}={}", ctx.get_string(-2), ctx.safe_to_lstring(-1)));
        ctx.pop_n(2);
    }
    assert_eq!(seen, vec!["0=a", "1=b", "extra=9"]);
    assert!(!ctx.next(-1));
    ctx.pop();

    ctx.enum_indices(-1);
    let mut count = 0;
    while ctx.next(-1) {
        count += 1;
        ctx.pop_n(2);
    }
    assert_eq!(count, 2);
    ctx.pop();
    assert_eq!(ctx.get_top(), 1);
}

#[test]
fn keyed_property_access() {
    let mut ctx = DukContext::new();
    ctx.push_object();
    ctx.push_string("name");
    ctx.push_string("value");
    assert!(ctx.put_prop(0));
    ctx.push_i32(3);
    ctx.push_boolean(true);
    assert!(ctx.put_prop(0));
    ctx.push_boolean(false);
    ctx.push_i32(1);
    assert!(!ctx.put_prop(0));
    assert_eq!(ctx.get_top(), 1);

    ctx.push_string("name");
    assert!(ctx.get_prop(0));
    assert_eq!(ctx.get_string(-1), "value");
    ctx.pop();
    ctx.push_i32(3);
    assert!(ctx.get_prop(0));
    assert!(ctx.get_boolean(-1));
    ctx.pop();
    ctx.push_i32(1);
    assert!(ctx.get_prop(0));
    assert_eq!(ctx.get_type(-1), DukType::DUK_TYPE_UNDEFINED);
    ctx.pop();
    ctx.push_string("missing");
    assert!(!ctx.get_prop(0));
    assert_eq!(ctx.get_top(), 2);
}

#[test]
fn type_codes() {
    assert_eq!(DukType::from_code(5), Some(DukType::DUK_TYPE_STRING));
    assert_eq!(DukType::from_code(10), None);
    assert_eq!(DukType::from_code(-1), None);
    assert_eq!(DukType::DUK_TYPE_LIGHTFUNC.code(), 9);
    assert_eq!(DukType::from_code(DukType::DUK_TYPE_OBJECT.code()), Some(DukType::DUK_TYPE_OBJECT));
}

#[test]
fn error_texts_and_renderings() {
    let mut ctx = DukContext::new();
    let err = ctx.get_context(-3).unwrap_err();
    assert_eq!(err.message(), "could not get context from index -3");
    let err = ctx.check_stack(2_000_000).unwrap_err();
    assert_eq!(err.message(), "failed to reserve enough stack space");
    ctx.push_number(JsNumber::Bits(f64::NAN.to_bits()));
    assert_eq!(ctx.safe_to_lstring(-1), "NaN");
    ctx.push_number(JsNumber::Bits(f64::NEG_INFINITY.to_bits()));
    assert_eq!(ctx.safe_to_lstring(-1), "-Infinity");
    ctx.push_number(JsNumber::Bits(4.0f64.to_bits()));
    assert_eq!(ctx.safe_to_lstring(-1), "4");
    ctx.push_number(JsNumber::Bits(0.25f64.to_bits()));
    assert_eq!(ctx.safe_to_lstring(-1), "[number]");
    ctx.push_array();
    assert_eq!(ctx.safe_to_lstring(-1), "[object Array]");
    ctx.push_function("f", 0);
    assert_eq!(ctx.safe_to_lstring(-1), "[object Function]");
    ctx.push_ext_buffer(&[1, 2]);
    assert_eq!(ctx.safe_to_lstring(-1), "[object Buffer]");
    ctx.push_i32(3);
    let err = ctx.propagate_js_error::<()>(Err(-1)).unwrap_err();
    assert_eq!(err.message(), "3");
    assert_eq!(ctx.get_top(), 7);
}

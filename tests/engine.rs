use duktape_bridge::{
    ConsoleFunc, ConsoleLevel, DukContext, JsEngine, JsError, JsInterop, JsNumber, NoopInterop, Return,
};

#[derive(Debug, Default)]
struct Interop {
    stdout: String,
    number: f64,
}

fn as_f64(n: JsNumber) -> f64 {
    f64::from_bits(n.to_bits())
}

impl JsInterop for Interop {
    fn call(&mut self, ctx: &mut DukContext, func_name: &str) -> Result<Return, JsError> {
        match func_name {
            "add" => {
                let a = as_f64(ctx.get_number(0));
                let b = as_f64(ctx.get_number(1));
                ctx.push_number(JsNumber::Bits((a + b).to_bits()));
                Ok(Return::Top)
            },
            "sub" => {
                let a = as_f64(ctx.get_number(0));
                let b = as_f64(ctx.get_number(1));
                ctx.push_number(JsNumber::Bits((a - b).to_bits()));
                Ok(Return::Top)
            },
            "put_number" => {
                self.number = as_f64(ctx.get_number(0));
                Ok(Return::Undefined)
            },
            "get_number" => {
                ctx.push_number(JsNumber::Bits(self.number.to_bits()));
                Ok(Return::Top)
            },
            "fail" | "some_fn" => Err(JsError::from_str("test error")),
            "range" => Ok(Return::RangeError),
            _ => unreachable!(),
        }
    }

    fn console(&mut self, _func: ConsoleFunc, msg: &str) {
        self.stdout.push_str(msg);
        self.stdout.push('\n');
    }
}

fn init() -> JsEngine<Interop> {
    let mut e = JsEngine::with_interop(Interop::default()).unwrap();
    e.ctx().put_global_function("add", 2);
    e.ctx().put_global_function("sub", 2);
    e.ctx().put_global_function("put_number", 1);
    e.ctx().put_global_function("get_number", 0);
    e.ctx().put_global_function("fail", 0);
    e.ctx().put_global_function("range", 0);
    e
}

/// Calls the global function `name` with integer arguments, leaving its result on top.
fn call_global(e: &mut JsEngine<Interop>, name: &str, args: &[i32]) -> Result<(), i32> {
    assert!(e.ctx().get_global_string(name));
    for a in args {
        e.ctx().push_i32(*a);
    }
    e.pcall(args.len())
}

/// Calls `put_number` with the value on top, consuming it.
fn put_top(e: &mut JsEngine<Interop>) {
    assert!(e.ctx().get_global_string("put_number"));
    e.ctx().swap(-1, -2);
    e.pcall(1).unwrap();
    e.ctx().pop();
}

fn check_calls(e: &mut JsEngine<Interop>) {
    call_global(e, "add", &[10, 11]).unwrap();
    put_top(e);
    assert_eq!(21f64, e.interop().number);

    call_global(e, "sub", &[12, 10]).unwrap();
    put_top(e);
    assert_eq!(2f64, e.interop().number);

    e.ctx().push_number(JsNumber::Bits(123.5f64.to_bits()));
    put_top(e);
    call_global(e, "get_number", &[]).unwrap();
    assert_eq!(as_f64(e.ctx().get_number(-1)), 123.5);
    e.ctx().pop();
    assert_eq!(e.ctx().get_top(), 0);
}

#[test]
fn interop_call_rust_function() {
    let mut e = init();
    check_calls(&mut e);
}

#[test]
fn lib_call_rust_function() {
    let mut e = init();
    check_calls(&mut e);
    e.interop_mut().console(ConsoleFunc::Log, "123.5");
    assert_eq!("123.5\n", e.interop().stdout);
}

#[test]
fn lib_test_to_lstring_safety() {
    let mut engine = JsEngine::new().unwrap();
    engine.ctx().push_string("test");
    let s = engine.ctx().safe_to_lstring(-1);
    assert_eq!(s, "test");
    engine.ctx().pop();
    assert_eq!(s, "test");
    drop(engine);
    assert_eq!(s, "test");
}

#[test]
fn test_trait_bounds() {
    fn is_send_sync<T: Send + Sync>() {}
    is_send_sync::<JsEngine<NoopInterop>>();
}

#[test]
fn tes_propagate_js_error() {
    let mut e = init();
    e.ctx().push_object();
    e.ctx().push_i32(1);
    e.ctx().put_prop_string(0, "foo");
    e.ctx().push_string("baz");
    e.ctx().put_prop_string(0, "bar");
    e.ctx().put_prop_function(0, "some_fn", 0);

    e.ctx().push_string("some_fn");
    let call_res = e.pcall_prop(0, 0);
    assert!(call_res.is_err());
    let res = e.ctx().propagate_js_error(call_res);

    assert!(res.is_err());
    let err = res.unwrap_err();
    assert!(err.to_string().contains("test error"));
    assert_eq!(e.ctx().get_top(), 1);
}

#[test]
fn failing_host_call_reports_its_message() {
    let mut e = init();
    let call_res = call_global(&mut e, "fail", &[]);
    assert_eq!(call_res, Err(-1));
    assert_eq!(e.ctx().safe_to_lstring(-1), "test error");
    let err = e.ctx().propagate_js_error(call_res).unwrap_err();
    assert_eq!(err.message(), "test error");
    assert_eq!(e.ctx().get_top(), 0);
}

#[test]
fn call_through_property() {
    let mut e = init();
    e.ctx().push_object();
    e.ctx().put_prop_function(0, "add", 2);
    assert_eq!(e.ctx().get_top(), 1);
    e.ctx().push_string("add");
    e.ctx().push_i32(4);
    e.ctx().push_i32(5);
    e.pcall_prop(0, 2).unwrap();
    assert_eq!(as_f64(e.ctx().get_number(-1)), 9.0);
    assert_eq!(e.ctx().get_top(), 2);
    e.ctx().push_string("missing");
    assert_eq!(e.pcall_prop(0, 0), Err(-6));
}

#[test]
fn test_changed_duk_context() {
    let mut e = init();
    assert!(e.ctx().get_global_string("add"));
    assert!(e.ctx().is_function(-1));
    e.ctx().pop();

    let new_idx = e.ctx().push_thread_new_globalenv();
    let guard = e.ctx().get_context(new_idx).unwrap();
    assert!(!e.ctx().get_global_string("add"));
    e.ctx().pop();

    e.ctx().put_global_function("add", 2);
    call_global(&mut e, "add", &[2, 3]).unwrap();
    assert_eq!(as_f64(e.ctx().get_number(-1)), 5.0);
    e.ctx().pop();

    e.ctx().put_global_function("multiply", 2);
    assert!(e.ctx().get_global_string("multiply"));
    e.ctx().pop();

    e.ctx().release_context(guard);
    e.ctx().pop();

    call_global(&mut e, "add", &[2, 3]).unwrap();
    assert_eq!(as_f64(e.ctx().get_number(-1)), 5.0);
    e.ctx().pop();

    assert!(!e.ctx().get_global_string("multiply"));
    e.ctx().pop();
    assert_eq!(e.ctx().get_top(), 0);
}

#[test]
fn call_error_kinds_and_non_callables() {
    let mut e = init();
    assert_eq!(call_global(&mut e, "range", &[]), Err(-3));
    assert_eq!(e.ctx().safe_to_lstring(-1), "RangeError");
    e.ctx().pop();
    e.ctx().push_i32(5);
    e.ctx().push_i32(6);
    assert_eq!(e.pcall(1), Err(-6));
    assert_eq!(e.ctx().get_top(), 1);
    assert_eq!(e.ctx().safe_to_lstring(-1), "TypeError");
    let ok: Result<u8, JsError> = e.ctx().propagate_js_error(Ok(3));
    assert_eq!(ok.unwrap(), 3);
    assert_eq!(e.ctx().get_top(), 1);
}

#[test]
fn noop_interop_returns_undefined() {
    let mut e = JsEngine::new().unwrap();
    e.ctx().put_global_function("anything", 1);
    assert!(e.ctx().get_global_string("anything"));
    e.ctx().push_i32(1);
    assert_eq!(e.pcall(1), Ok(()));
    assert_eq!(e.ctx().get_top(), 1);
    assert_eq!(e.ctx().safe_to_lstring(-1), "undefined");
}

#[test]
fn console_levels() {
    assert_eq!(ConsoleFunc::Assert.level(), ConsoleLevel::Error);
    assert_eq!(ConsoleFunc::Log.level(), ConsoleLevel::Debug);
    assert_eq!(ConsoleFunc::Debug.level(), ConsoleLevel::Debug);
    assert_eq!(ConsoleFunc::Trace.level(), ConsoleLevel::Trace);
    assert_eq!(ConsoleFunc::Info.level(), ConsoleLevel::Info);
    assert_eq!(ConsoleFunc::Warn.level(), ConsoleLevel::Warn);
    assert_eq!(ConsoleFunc::Error.level(), ConsoleLevel::Error);
    assert_eq!(ConsoleFunc::Exception.level(), ConsoleLevel::Error);
    assert_eq!(ConsoleFunc::Dir.level(), ConsoleLevel::Debug);
    assert_eq!(ConsoleFunc::from(1), ConsoleFunc::Assert);
    assert_eq!(ConsoleFunc::from(9), ConsoleFunc::Dir);
    assert_eq!(ConsoleFunc::from(42), ConsoleFunc::Log);
    assert_eq!(ConsoleFunc::from(ConsoleFunc::Warn.code()), ConsoleFunc::Warn);
}

#[test]
fn return_codes() {
    assert_eq!(Return::Undefined.code(), 0);
    assert_eq!(Return::Top.code(), 1);
    assert_eq!(Return::Error.code(), -1);
    assert_eq!(Return::UriError.code(), -7);
}

#[test]
fn error_rendering() {
    let e = JsError::from("boom".to_string());
    assert_eq!(e.to_string(), "Error: boom");
    assert_eq!(e.message(), "boom");
}

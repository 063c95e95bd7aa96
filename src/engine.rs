use vstd::prelude::*;
use crate::console::ConsoleFunc;
use crate::ctx::{DukContext, JsValue, ObjectKind, STACK_LIMIT, prop_lookup, rendering};
use crate::error::JsError;
use crate::Return;

verus! {

broadcast use vstd::std_specs::vec::group_vec_axioms;

/// The host side of a heap: it answers calls of registered host functions and receives
/// console output.
pub trait JsInterop {
    /// Whether this interop has answered a call of the host function named `func_name`. An
    /// interop that keeps no record of its calls leaves this as it is; code generic over the
    /// interop learns it only from `call`'s postcondition.
    closed spec fn answered(&self, func_name: Seq<char>) -> bool {
        true
    }

    /// Runs the host function registered as `func_name`. Its arguments are the values on the
    /// stack of `ctx`, the first at position 0. With `Return::Top` the value on top of that
    /// stack is the result. Any context entered here is left again before returning.
    fn call(&mut self, ctx: &mut DukContext, func_name: &str) -> (r: Result<Return, JsError>)
        requires
            old(ctx).wf(),
        ensures
            final(self).answered(func_name@),
            final(ctx).wf(),
            final(ctx).active@ == old(ctx).active@,
            final(ctx).threads@.len() >= old(ctx).threads@.len(),
            forall|t: int| 0 <= t < old(ctx).threads@.len() && t != old(ctx).current() ==> #[trigger] final(ctx).threads@[t]
                == old(ctx).threads@[t],
    ;

    /// Receives a message that a script wrote to its console.
    fn console(&mut self, _func: ConsoleFunc, _msg: &str) {
    }
}

/// An interop that answers every call with no value.
#[derive(Debug)]
pub struct NoopInterop;

impl JsInterop for NoopInterop {
    fn call(&mut self, _ctx: &mut DukContext, _func_name: &str) -> (r: Result<Return, JsError>) {
        Ok(Return::Undefined)
    }
}

/// The result value a call leaves, given what the host function returned and the stack it
/// ran on: its top for `Top` (undefined if empty), undefined for `Undefined`; `None` where
/// the call failed.
pub open spec fn call_result(res: Result<Return, JsError>, frame: Seq<JsValue>) -> Option<JsValue> {
    match res {
        Ok(Return::Top) => Some(
            if frame.len() > 0 {
                frame.last()
            } else {
                JsValue::Undefined
            },
        ),
        Ok(Return::Undefined) => Some(JsValue::Undefined),
        _ => None,
    }
}

/// The code a call reports: 0 on success, the error kind's code where the host function chose
/// one, and -1 where it failed with an error of its own.
pub open spec fn call_code(res: Result<Return, JsError>) -> i32 {
    match res {
        Ok(r) => if r.spec_is_error() {
            r.spec_code()
        } else {
            0
        },
        Err(_) => -1i32,
    }
}

/// The registered name of the host function that `v` is, where it is one.
pub open spec fn function_name(c: &DukContext, v: JsValue) -> Option<Seq<char>> {
    match v {
        JsValue::Object(o) => match c.objects@[o as int].kind {
            ObjectKind::Function(n, _) => Some(c.strings@[n as int]@),
            _ => None,
        },
        _ => None,
    }
}

/// Whether `top` is what a call that reported `r` leaves, given its frame's stack after the
/// host function ran: on success the frame's top (the `Top` result) or undefined, on failure a
/// string error value and a negative code.
pub open spec fn call_left(r: Result<(), i32>, top: JsValue, frame: Seq<JsValue>) -> bool {
    match r {
        Ok(_) => top == JsValue::Undefined || (frame.len() > 0 && top == frame.last()),
        Err(code) => code < 0 && top is String,
    }
}

/// The name of an error kind.
fn error_name(r: Return) -> (s: &'static str) {
    match r {
        Return::EvalError => "EvalError",
        Return::RangeError => "RangeError",
        Return::ReferenceError => "ReferenceError",
        Return::SyntaxError => "SyntaxError",
        Return::TypeError => "TypeError",
        Return::UriError => "URIError",
        _ => "Error",
    }
}

impl DukContext {
    /// Opens a call frame: a new context whose stack holds the top `nargs` values of the
    /// current stack, moved there in order, and which becomes the current context.
    pub(crate) fn begin_call(&mut self, nargs: usize) -> (frame: usize)
        requires
            old(self).wf(),
            old(self).stack().len() >= nargs,
        ensures
            final(self).wf(),
            frame == old(self).threads@.len(),
            old(self).same_heap(final(self)),
            final(self).active@ == old(self).active@.push(frame),
            final(self).threads@.len() == old(self).threads@.len() + 1,
            final(self).stack() == old(self).stack().subrange(
                old(self).stack().len() - nargs,
                old(self).stack().len() as int,
            ),
            final(self).threads@[old(self).current()].stack@ == old(self).stack().subrange(
                0,
                old(self).stack().len() - nargs,
            ),
            final(self).threads@[old(self).current()].global == old(self).threads@[old(self).current()].global,
            forall|t: int| 0 <= t < old(self).threads@.len() && t != old(self).current() ==> #[trigger] final(self).threads@[t]
                == old(self).threads@[t],
    {
        let caller = self.current_thread();
        proof {
            assert(self.valid_thread(self.threads@[caller as int]));
        }
        let g = self.threads[caller].global;
        let t = self.new_thread(g);
        self.active.push(t);
        proof {
            assert forall|i: int| 0 <= i < self.active@.len() implies #[trigger] self.active@[i] < self.threads@.len() by {
                if i < old(self).active@.len() {
                    assert(self.active@[i] == old(self).active@[i]);
                }
            }
            assert(self.stack().len() == 0);
        }
        self.xmove_top(caller, nargs);
        proof {
            assert(self.stack() =~= old(self).stack().subrange(
                old(self).stack().len() - nargs,
                old(self).stack().len() as int,
            ));
        }
        t
    }

    /// Closes the call frame that is the current context, given what its host function
    /// returned: leaves it, and replaces the callee on top of the caller's stack with the call's
    /// result, or with an error value where the call failed (a host error keeps its message).
    /// Returns the call's code.
    pub fn complete_call(&mut self, res: Result<Return, JsError>) -> (r: Result<(), i32>)
        requires
            old(self).wf(),
            old(self).active@.len() >= 2,
            old(self).threads@[old(self).active@[old(self).active@.len() - 2] as int].stack@.len() >= 1,
        ensures
            final(self).wf(),
            final(self).active@ == old(self).active@.drop_last(),
            r is Ok <==> call_code(res) == 0,
            r matches Err(code) ==> code == call_code(res),
            final(self).threads@.len() == old(self).threads@.len(),
            final(self).stack().len() == old(self).threads@[old(self).active@[old(self).active@.len()
                - 2] as int].stack@.len(),
            final(self).stack().drop_last() == old(self).threads@[old(self).active@[old(self).active@.len()
                - 2] as int].stack@.drop_last(),
            match call_result(res, old(self).stack()) {
                Some(v) => final(self).stack().last() == v,
                None => final(self).stack().last() == JsValue::String(old(self).strings@.len() as usize),
            },
            res matches Err(e) ==> final(self).strings@.last()@ == e.0@,
            forall|t: int| 0 <= t < old(self).threads@.len() && t != final(self).current() ==> #[trigger] final(self).threads@[t]
                == old(self).threads@[t],
    {
        let result: Option<JsValue> = match &res {
            Ok(Return::Top) => {
                let top = self.get_top();
                if top > 0 {
                    self.get_value(-1)
                } else {
                    Some(JsValue::Undefined)
                }
            },
            Ok(Return::Undefined) => Some(JsValue::Undefined),
            _ => None,
        };
        let code: i32 = match &res {
            Ok(k) => if k.code() < 0 {
                k.code()
            } else {
                0
            },
            Err(_) => -1,
        };
        let v = match result {
            Some(v) => v,
            None => {
                let msg = match &res {
                    Err(e) => e.0.clone(),
                    Ok(k) => error_name(*k).to_owned(),
                };
                JsValue::String(self.new_string(msg))
            },
        };
        let ghost mid = *self;
        self.active.pop();
        proof {
            assert forall|i: int| 0 <= i < self.active@.len() implies #[trigger] self.active@[i] < self.threads@.len() by {
                assert(self.active@[i] == mid.active@[i]);
            }
            assert(self.valid_value(v));
        }
        self.pop();
        self.push_value(v);
        if code == 0 {
            Ok(())
        } else {
            Err(code)
        }
    }

    /// Pops the error value a failed protected call left on top and turns it into an error
    /// carrying its text as `rendering` gives it; a success passes through and the stack is left as it was.
    pub fn propagate_js_error<T>(&mut self, js_res: Result<T, i32>) -> (r: Result<T, JsError>)
        requires
            old(self).wf(),
            js_res is Err ==> old(self).stack().len() >= 1,
        ensures
            final(self).wf(),
            old(self).same_but_stack(final(self)),
            match js_res {
                Ok(v) => r == Ok::<T, JsError>(v) && final(self).stack() == old(self).stack(),
                Err(_) => r is Err && final(self).stack() == old(self).stack().drop_last() && r->Err_0.0@
                    == rendering(old(self), old(self).stack().last()),
            },
    {
        match js_res {
            Ok(v) => Ok(v),
            Err(_) => {
                let msg = self.safe_to_lstring(-1);
                self.pop();
                Err(JsError(msg))
            },
        }
    }
}

/// A heap with its host side: the value store and the interop object that answers its calls.
pub struct JsEngine<I: JsInterop> {
    pub ctx: DukContext,
    pub interop: I,
}

impl JsEngine<NoopInterop> {
    /// A heap whose calls all return no value.
    pub fn new() -> (r: Result<JsEngine<NoopInterop>, JsError>)
        ensures
            r matches Ok(e) && e.ctx.wf() && e.ctx.stack().len() == 0,
    {
        Self::with_interop(NoopInterop)
    }
}

impl<I: JsInterop> JsEngine<I> {
    /// A heap answered by `interop`, with an empty root context.
    pub fn with_interop(interop: I) -> (r: Result<JsEngine<I>, JsError>)
        ensures
            r matches Ok(e) && e.ctx.wf() && e.ctx.stack().len() == 0 && e.ctx.active@ == seq![0usize]
                && e.interop == interop,
    {
        Ok(JsEngine { ctx: DukContext::new(), interop })
    }

    /// The value store.
    pub fn ctx(&mut self) -> (r: &mut DukContext)
        ensures
            *r == old(self).ctx,
            final(self).ctx == *final(r),
            final(self).interop == old(self).interop,
    {
        &mut self.ctx
    }

    /// The interop object.
    pub fn interop(&self) -> (r: &I)
        ensures
            *r == self.interop,
    {
        &self.interop
    }

    /// The interop object, to change it.
    pub fn interop_mut(&mut self) -> (r: &mut I)
        ensures
            *r == old(self).interop,
            final(self).interop == *final(r),
            final(self).ctx == old(self).ctx,
    {
        &mut self.interop
    }

    /// Calls the host function that lies below the top `nargs` values, with those values as its
    /// arguments, catching its failure. The callee and arguments are replaced by one value: the
    /// result, or an error value where the call failed, whose code is returned. A callee that
    /// is not a host function fails with the type error code.
    pub fn pcall(&mut self, nargs: usize) -> (r: Result<(), i32>)
        requires
            old(self).ctx.wf(),
            old(self).ctx.stack().len() >= nargs + 1,
        ensures
            final(self).ctx.wf(),
            final(self).ctx.active@ == old(self).ctx.active@,
            final(self).ctx.stack().len() == old(self).ctx.stack().len() - nargs,
            final(self).ctx.stack().drop_last() == old(self).ctx.stack().subrange(
                0,
                old(self).ctx.stack().len() - nargs - 1,
            ),
            match function_name(&old(self).ctx, old(self).ctx.stack()[old(self).ctx.stack().len() - nargs - 1]) {
                Some(name) => {
                    &&& final(self).interop.answered(name)
                    &&& final(self).ctx.threads@.len() > old(self).ctx.threads@.len()
                    &&& call_left(
                        r,
                        final(self).ctx.stack().last(),
                        final(self).ctx.threads@[old(self).ctx.threads@.len() as int].stack@,
                    )
                },
                None => r == Err::<(), i32>(Return::TypeError.spec_code()) && final(self).ctx.stack().last() is String,
            },
    {
        let len = self.ctx.get_top();
        let callee_at = len - nargs - 1;
        let cur = self.ctx.current_thread();
        proof {
            assert(self.ctx.valid_thread(self.ctx.threads@[cur as int]));
        }
        let callee = self.ctx.threads[cur].stack[callee_at];
        let name_id: Option<usize> = match callee {
            JsValue::Object(o) => match self.ctx.objects[o].kind {
                ObjectKind::Function(n, _) => Some(n),
                _ => None,
            },
            _ => None,
        };
        match name_id {
            None => {
                let ghost before = self.ctx;
                self.ctx.pop_n(nargs + 1);
                let msg = self.ctx.new_string(error_name(Return::TypeError).to_owned());
                self.ctx.push_value(JsValue::String(msg));
                proof {
                    assert(self.ctx.stack().drop_last() =~= before.stack().subrange(0, len - nargs - 1));
                }
                Err(Return::TypeError.code())
            },
            Some(n) => {
                proof {
                    let o = callee->Object_0 as int;
                    assert(self.ctx.valid_object(self.ctx.objects@[o]));
                }
                let name = self.ctx.strings[n].clone();
                let ghost before = self.ctx;
                let frame = self.ctx.begin_call(nargs);
                let ghost framed = self.ctx;
                let res = self.interop.call(&mut self.ctx, name.as_str());
                let ghost called = self.ctx;
                let ghost gres = res;
                proof {
                    assert(self.ctx.active@[self.ctx.active@.len() - 2] == before.current());
                    assert(self.ctx.threads@[before.current()] == framed.threads@[before.current()]);
                    assert(called.current() == frame);
                }
                let r = self.ctx.complete_call(res);
                proof {
                    assert(self.ctx.stack().drop_last() =~= before.stack().subrange(0, len - nargs - 1));
                    assert(self.ctx.current() == before.current());
                    assert(self.ctx.threads@[frame as int] == called.threads@[frame as int]);
                    match gres {
                        Ok(k) => {
                            if k.spec_is_error() {
                                assert(call_result(gres, called.stack()) is None);
                            }
                        },
                        Err(_) => {},
                    }
                }
                r
            },
        }
    }

    /// Calls the property of the object at `obj_index` whose key lies below the top `nargs`
    /// values, with those values as arguments: the key is replaced by the property's value as
    /// `prop_lookup` finds it (undefined where there is none), and the call goes on as `pcall`.
    pub fn pcall_prop(&mut self, obj_index: i32, nargs: usize) -> (r: Result<(), i32>)
        requires
            old(self).ctx.wf(),
            old(self).ctx.stack().len() >= nargs + 1,
        ensures
            final(self).ctx.wf(),
            final(self).ctx.active@ == old(self).ctx.active@,
            final(self).ctx.stack().len() == old(self).ctx.stack().len() - nargs,
            final(self).ctx.stack().drop_last() == old(self).ctx.stack().subrange(
                0,
                old(self).ctx.stack().len() - nargs - 1,
            ),
            ({
                let key = old(self).ctx.stack()[old(self).ctx.stack().len() - nargs - 1];
                let found = prop_lookup(&old(self).ctx, old(self).ctx.slot(obj_index), key);
                match found {
                    Some(f) => match function_name(&old(self).ctx, f) {
                        Some(name) => {
                            &&& final(self).interop.answered(name)
                            &&& final(self).ctx.threads@.len() > old(self).ctx.threads@.len()
                            &&& call_left(
                                r,
                                final(self).ctx.stack().last(),
                                final(self).ctx.threads@[old(self).ctx.threads@.len() as int].stack@,
                            )
                        },
                        None => r == Err::<(), i32>(Return::TypeError.spec_code())
                            && final(self).ctx.stack().last() is String,
                    },
                    None => r == Err::<(), i32>(Return::TypeError.spec_code())
                        && final(self).ctx.stack().last() is String,
                }
            }),
    {
        let len = self.ctx.get_top();
        let key_at = len - nargs - 1;
        let cur = self.ctx.current_thread();
        proof {
            assert(self.ctx.valid_thread(self.ctx.threads@[cur as int]));
        }
        let key = self.ctx.threads[cur].stack[key_at];
        let target = self.ctx.get_value(obj_index);
        let f = match self.ctx.lookup_prop(target, key) {
            Some(v) => v,
            None => JsValue::Undefined,
        };
        let ghost before = self.ctx;
        self.ctx.threads[cur].stack.set(key_at, f);
        proof {
            assert(self.ctx.valid_thread(self.ctx.threads@[cur as int]));
            assert forall|x: int| 0 <= x < self.ctx.threads@.len() implies self.ctx.valid_thread(#[trigger] self.ctx.threads@[x]) by {
                assert(before.valid_thread(before.threads@[x]));
            }
            assert(self.ctx.stack().subrange(0, len - nargs - 1) =~= before.stack().subrange(0, len - nargs - 1));
            assert(self.ctx.stack()[len - nargs - 1] == f);
        }
        self.pcall(nargs)
    }
}

} // verus!

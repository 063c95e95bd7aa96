//! A verified value bridge between host data and a stack-based script runtime.
//!
//! `DukContext` is a model of the runtime's value store: per-context operand stacks, a heap of
//! strings, buffers and objects held by reference, properties, enumeration and nested contexts.
//! Its operations are the runtime's primitive contract, and the encoding and decoding bridges
//! (`push_host`, `read_as`), the context guards and the call dispatch (`JsEngine::pcall`) are
//! verified against this model. The runtime's interpreter and compiler are not part of it.
//! `AllocShim` is the bookkeeping of the runtime's allocation hooks; it stands alone and is not
//! connected to `JsEngine`.

use vstd::prelude::*;

pub mod allocator;
pub mod console;
pub mod ctx;
pub mod de;
pub mod engine;
pub mod error;
pub mod host;
pub mod laws;
pub mod number;
pub mod ser;
pub mod text;

pub use allocator::AllocShim;
pub use console::{ConsoleFunc, ConsoleLevel};
pub use ctx::{STACK_LIMIT, DukContext, DukContextGuard, DukType, JsObject, JsValue, ObjectKind, Prop, ThreadState};
pub use engine::{JsEngine, JsInterop, NoopInterop};
pub use error::JsError;
pub use host::{Host, HostValue, Shape};
pub use number::JsNumber;
pub use ser::property_name;

use crate::de::decode;
use crate::ser::{denotes, extends};

verus! {

/// A host type that can be encoded onto a stack.
pub trait WriteJs {
    /// The host value that `self` is.
    spec fn host(&self) -> Host;

    /// Pushes the encoding of `self`: the stack grows by exactly one value, which encodes
    /// `self.host()`, and nothing already in the heap changes.
    fn write_js(&self, ctx: &mut DukContext) -> (r: Result<(), JsError>)
        requires
            old(ctx).wf(),
            old(ctx).stack().len() < STACK_LIMIT,
        ensures
            r is Ok,
            final(ctx).wf(),
            extends(old(ctx), final(ctx)),
            old(ctx).same_threads_but_stack(final(ctx)),
            final(ctx).stack().len() == old(ctx).stack().len() + 1,
            final(ctx).stack().drop_last() == old(ctx).stack(),
            denotes(final(ctx), final(ctx).stack().last(), self.host()),
    ;
}

/// A host type that can be read from a stack slot.
pub trait ReadJs: Sized {
    /// The value of this type that `v` stands for in the heap of `ctx`, where there is one.
    spec fn read_spec(ctx: &DukContext, v: JsValue) -> Option<Self>;

    /// Reads the value at `obj_index`; fails where there is none or where it has no reading as
    /// this type. The stack is left as it was.
    fn read_js(ctx: &DukContext, obj_index: i32) -> (r: Result<Self, JsError>)
        requires
            ctx.wf(),
        ensures
            match ctx.slot(obj_index) {
                Some(v) => (r is Ok <==> Self::read_spec(ctx, v) is Some) && (r matches Ok(x)
                    ==> Self::read_spec(ctx, v) == Some(x)),
                None => r is Err,
            },
    ;

    /// Reads the value on top of the stack.
    fn read_js_top(ctx: &DukContext) -> (r: Result<Self, JsError>)
        requires
            ctx.wf(),
        ensures
            match ctx.slot(-1i32) {
                Some(v) => (r is Ok <==> Self::read_spec(ctx, v) is Some) && (r matches Ok(x)
                    ==> Self::read_spec(ctx, v) == Some(x)),
                None => r is Err,
            },
    {
        Self::read_js(ctx, -1)
    }
}

impl WriteJs for HostValue {
    open spec fn host(&self) -> Host {
        self.model()
    }

    fn write_js(&self, ctx: &mut DukContext) -> (r: Result<(), JsError>) {
        ctx.push_host(self);
        Ok(())
    }
}

impl WriteJs for bool {
    open spec fn host(&self) -> Host {
        Host::Bool(*self)
    }

    fn write_js(&self, ctx: &mut DukContext) -> (r: Result<(), JsError>) {
        ctx.push_host(&HostValue::Bool(*self));
        Ok(())
    }
}

impl WriteJs for i64 {
    open spec fn host(&self) -> Host {
        Host::I64(*self)
    }

    fn write_js(&self, ctx: &mut DukContext) -> (r: Result<(), JsError>) {
        ctx.push_host(&HostValue::I64(*self));
        Ok(())
    }
}

impl WriteJs for u64 {
    open spec fn host(&self) -> Host {
        Host::U64(*self)
    }

    fn write_js(&self, ctx: &mut DukContext) -> (r: Result<(), JsError>) {
        ctx.push_host(&HostValue::U64(*self));
        Ok(())
    }
}

impl WriteJs for String {
    open spec fn host(&self) -> Host {
        Host::Str(self@)
    }

    fn write_js(&self, ctx: &mut DukContext) -> (r: Result<(), JsError>) {
        ctx.push_host(&HostValue::Str(self.clone()));
        Ok(())
    }
}

impl ReadJs for bool {
    open spec fn read_spec(ctx: &DukContext, v: JsValue) -> Option<bool> {
        match decode(ctx, v, Shape::Bool) {
            Some(Host::Bool(b)) => Some(b),
            _ => None,
        }
    }

    fn read_js(ctx: &DukContext, obj_index: i32) -> (r: Result<bool, JsError>) {
        match ctx.read_as(obj_index, &Shape::Bool) {
            Ok(HostValue::Bool(b)) => Ok(b),
            Ok(_) => Err(JsError::from_str("unsupported value shape")),
            Err(e) => Err(e),
        }
    }
}

impl ReadJs for i64 {
    open spec fn read_spec(ctx: &DukContext, v: JsValue) -> Option<i64> {
        match decode(ctx, v, Shape::I64) {
            Some(Host::I64(n)) => Some(n),
            _ => None,
        }
    }

    fn read_js(ctx: &DukContext, obj_index: i32) -> (r: Result<i64, JsError>) {
        match ctx.read_as(obj_index, &Shape::I64) {
            Ok(HostValue::I64(n)) => Ok(n),
            Ok(_) => Err(JsError::from_str("unsupported value shape")),
            Err(e) => Err(e),
        }
    }
}

impl ReadJs for u64 {
    open spec fn read_spec(ctx: &DukContext, v: JsValue) -> Option<u64> {
        match decode(ctx, v, Shape::U64) {
            Some(Host::U64(n)) => Some(n),
            _ => None,
        }
    }

    fn read_js(ctx: &DukContext, obj_index: i32) -> (r: Result<u64, JsError>) {
        match ctx.read_as(obj_index, &Shape::U64) {
            Ok(HostValue::U64(n)) => Ok(n),
            Ok(_) => Err(JsError::from_str("unsupported value shape")),
            Err(e) => Err(e),
        }
    }
}

impl ReadJs for String {
    open spec fn read_spec(ctx: &DukContext, v: JsValue) -> Option<String> {
        match v {
            JsValue::String(i) => Some(ctx.strings@[i as int]),
            _ => None,
        }
    }

    fn read_js(ctx: &DukContext, obj_index: i32) -> (r: Result<String, JsError>) {
        match ctx.get_value(obj_index) {
            Some(JsValue::String(i)) => Ok(ctx.strings[i].clone()),
            Some(_) => Err(JsError::from_str("unsupported value shape")),
            None => Err(JsError::from_str("invalid stack index")),
        }
    }
}

impl WriteJs for i32 {
    open spec fn host(&self) -> Host {
        Host::I64(*self as i64)
    }

    fn write_js(&self, ctx: &mut DukContext) -> (r: Result<(), JsError>) {
        ctx.push_host(&HostValue::I64(*self as i64));
        Ok(())
    }
}

impl WriteJs for u32 {
    open spec fn host(&self) -> Host {
        Host::U64(*self as u64)
    }

    fn write_js(&self, ctx: &mut DukContext) -> (r: Result<(), JsError>) {
        ctx.push_host(&HostValue::U64(*self as u64));
        Ok(())
    }
}

impl ReadJs for i32 {
    open spec fn read_spec(ctx: &DukContext, v: JsValue) -> Option<i32> {
        match decode(ctx, v, Shape::I64) {
            Some(Host::I64(n)) => if i32::MIN <= n <= i32::MAX {
                Some(n as i32)
            } else {
                None
            },
            _ => None,
        }
    }

    fn read_js(ctx: &DukContext, obj_index: i32) -> (r: Result<i32, JsError>) {
        match ctx.read_as(obj_index, &Shape::I64) {
            Ok(HostValue::I64(n)) => if i32::MIN as i64 <= n && n <= i32::MAX as i64 {
                Ok(n as i32)
            } else {
                Err(JsError::from_str("number out of range"))
            },
            Ok(_) => Err(JsError::from_str("unsupported value shape")),
            Err(e) => Err(e),
        }
    }
}

impl ReadJs for u32 {
    open spec fn read_spec(ctx: &DukContext, v: JsValue) -> Option<u32> {
        match decode(ctx, v, Shape::U64) {
            Some(Host::U64(n)) => if n <= u32::MAX {
                Some(n as u32)
            } else {
                None
            },
            _ => None,
        }
    }

    fn read_js(ctx: &DukContext, obj_index: i32) -> (r: Result<u32, JsError>) {
        match ctx.read_as(obj_index, &Shape::U64) {
            Ok(HostValue::U64(n)) => if n <= u32::MAX as u64 {
                Ok(n as u32)
            } else {
                Err(JsError::from_str("number out of range"))
            },
            Ok(_) => Err(JsError::from_str("unsupported value shape")),
            Err(e) => Err(e),
        }
    }
}

impl ReadJs for char {
    open spec fn read_spec(ctx: &DukContext, v: JsValue) -> Option<char> {
        match decode(ctx, v, Shape::Char) {
            Some(Host::Char(c)) => Some(c),
            _ => None,
        }
    }

    fn read_js(ctx: &DukContext, obj_index: i32) -> (r: Result<char, JsError>) {
        match ctx.read_as(obj_index, &Shape::Char) {
            Ok(HostValue::Char(c)) => Ok(c),
            Ok(_) => Err(JsError::from_str("unsupported value shape")),
            Err(e) => Err(e),
        }
    }
}

impl DukContext {
    /// Pushes the encoding of `obj`: the stack grows by exactly one value.
    pub fn write<O: WriteJs>(&mut self, obj: &O) -> (r: Result<(), JsError>)
        requires
            old(self).wf(),
            old(self).stack().len() < STACK_LIMIT,
        ensures
            r is Ok,
            final(self).wf(),
            extends(old(self), final(self)),
            old(self).same_threads_but_stack(final(self)),
            final(self).stack().len() == old(self).stack().len() + 1,
            final(self).stack().drop_last() == old(self).stack(),
            denotes(final(self), final(self).stack().last(), obj.host()),
    {
        obj.write_js(self)
    }

    /// Reads the value at `obj_index` as an `O`; the stack is left as it was.
    pub fn read<O: ReadJs>(&self, obj_index: i32) -> (r: Result<O, JsError>)
        requires
            self.wf(),
        ensures
            match self.slot(obj_index) {
                Some(v) => (r is Ok <==> O::read_spec(self, v) is Some) && (r matches Ok(x)
                    ==> O::read_spec(self, v) == Some(x)),
                None => r is Err,
            },
    {
        O::read_js(self, obj_index)
    }

    /// Reads the value on top of the stack as an `O`.
    pub fn read_top<O: ReadJs>(&self) -> (r: Result<O, JsError>)
        requires
            self.wf(),
        ensures
            match self.slot(-1i32) {
                Some(v) => (r is Ok <==> O::read_spec(self, v) is Some) && (r matches Ok(x)
                    ==> O::read_spec(self, v) == Some(x)),
                None => r is Err,
            },
    {
        self.read(-1)
    }
}

/// How a host function hands its outcome back to the script: no value, the value on top of
/// its stack, or a thrown error of the given kind.
#[derive(Debug, Clone, Copy, PartialEq, Eq, Structural, PartialOrd, Ord, Hash)]
pub enum Return {
    Undefined,
    Top,
    Error,
    EvalError,
    RangeError,
    ReferenceError,
    SyntaxError,
    TypeError,
    UriError,
}

impl Return {
    pub open spec fn spec_code(self) -> i32 {
        match self {
            Return::Undefined => 0,
            Return::Top => 1,
            Return::Error => -1i32,
            Return::EvalError => -2i32,
            Return::RangeError => -3i32,
            Return::ReferenceError => -4i32,
            Return::SyntaxError => -5i32,
            Return::TypeError => -6i32,
            Return::UriError => -7i32,
        }
    }

    /// The call-result code of this disposition: 0 and 1 for the two successes, a negative code
    /// for each error kind.
    pub fn code(&self) -> (r: i32)
        ensures
            r == self.spec_code(),
    {
        match *self {
            Return::Undefined => 0,
            Return::Top => 1,
            Return::Error => -1,
            Return::EvalError => -2,
            Return::RangeError => -3,
            Return::ReferenceError => -4,
            Return::SyntaxError => -5,
            Return::TypeError => -6,
            Return::UriError => -7,
        }
    }

    pub open spec fn spec_is_error(self) -> bool {
        self.spec_code() < 0
    }
}

} // verus!

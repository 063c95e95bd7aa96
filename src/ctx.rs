use vstd::prelude::*;
use vstd::string::StrSliceExecFns;
use crate::number::JsNumber;
use crate::error::JsError;
use crate::text::{decimal, i64_decimal, push_decimal, signed_decimal};
use vstd::string::StringExecFns;

verus! {

broadcast use vstd::std_specs::vec::group_vec_axioms;

/// The most values one context's stack may hold.
pub const STACK_LIMIT: usize = 1_000_000;

/// The type tag of a stack slot.
#[allow(non_camel_case_types)]
#[derive(Debug, PartialEq, Eq, Structural, Clone, Copy)]
pub enum DukType {
    DUK_TYPE_NONE,
    DUK_TYPE_UNDEFINED,
    DUK_TYPE_NULL,
    DUK_TYPE_BOOLEAN,
    DUK_TYPE_NUMBER,
    DUK_TYPE_STRING,
    DUK_TYPE_OBJECT,
    DUK_TYPE_BUFFER,
    DUK_TYPE_POINTER,
    DUK_TYPE_LIGHTFUNC,
}

impl DukType {
    pub open spec fn spec_code(self) -> i32 {
        match self {
            DukType::DUK_TYPE_NONE => 0,
            DukType::DUK_TYPE_UNDEFINED => 1,
            DukType::DUK_TYPE_NULL => 2,
            DukType::DUK_TYPE_BOOLEAN => 3,
            DukType::DUK_TYPE_NUMBER => 4,
            DukType::DUK_TYPE_STRING => 5,
            DukType::DUK_TYPE_OBJECT => 6,
            DukType::DUK_TYPE_BUFFER => 7,
            DukType::DUK_TYPE_POINTER => 8,
            DukType::DUK_TYPE_LIGHTFUNC => 9,
        }
    }

    /// The wire code of this tag, from 0 for `DUK_TYPE_NONE` to 9 for `DUK_TYPE_LIGHTFUNC`.
    pub fn code(&self) -> (r: i32)
        ensures
            r == self.spec_code(),
    {
        match *self {
            DukType::DUK_TYPE_NONE => 0,
            DukType::DUK_TYPE_UNDEFINED => 1,
            DukType::DUK_TYPE_NULL => 2,
            DukType::DUK_TYPE_BOOLEAN => 3,
            DukType::DUK_TYPE_NUMBER => 4,
            DukType::DUK_TYPE_STRING => 5,
            DukType::DUK_TYPE_OBJECT => 6,
            DukType::DUK_TYPE_BUFFER => 7,
            DukType::DUK_TYPE_POINTER => 8,
            DukType::DUK_TYPE_LIGHTFUNC => 9,
        }
    }

    /// The tag with wire code `code`; none for a code outside 0 to 9.
    pub fn from_code(code: i32) -> (r: Option<DukType>)
        ensures
            match r {
                Some(t) => t.spec_code() == code,
                None => !(0 <= code <= 9),
            },
    {
        if code == 0 {
            Some(DukType::DUK_TYPE_NONE)
        } else if code == 1 {
            Some(DukType::DUK_TYPE_UNDEFINED)
        } else if code == 2 {
            Some(DukType::DUK_TYPE_NULL)
        } else if code == 3 {
            Some(DukType::DUK_TYPE_BOOLEAN)
        } else if code == 4 {
            Some(DukType::DUK_TYPE_NUMBER)
        } else if code == 5 {
            Some(DukType::DUK_TYPE_STRING)
        } else if code == 6 {
            Some(DukType::DUK_TYPE_OBJECT)
        } else if code == 7 {
            Some(DukType::DUK_TYPE_BUFFER)
        } else if code == 8 {
            Some(DukType::DUK_TYPE_POINTER)
        } else if code == 9 {
            Some(DukType::DUK_TYPE_LIGHTFUNC)
        } else {
            None
        }
    }
}

/// One value on a stack or in a property. Strings, buffers and objects live in the heap and are
/// held by reference: copying such a value aliases the same heap entry.
#[derive(Debug, PartialEq, Eq, Structural, Clone, Copy)]
pub enum JsValue {
    Undefined,
    Null,
    Boolean(bool),
    Number(JsNumber),
    String(usize),
    Buffer(usize),
    Object(usize),
}

/// What an object is: arrays, plain objects, host functions and threads all share the object tag.
#[derive(Debug, PartialEq, Eq, Structural, Clone, Copy)]
pub enum ObjectKind {
    Plain,
    Array,
    /// A host function: the string holding its registered name, and its declared argument count.
    Function(usize, i32),
    /// The value that keeps a child context alive.
    Thread(usize),
    /// An enumeration in progress: the object walked, the position reached, and whether only
    /// element positions are walked.
    Enumerator(usize, usize, bool),
}

/// A named own property.
pub struct Prop {
    pub key: String,
    pub value: JsValue,
}

/// A heap object: its kind, its named properties in insertion order, and (for arrays) its
/// elements by index.
pub struct JsObject {
    pub kind: ObjectKind,
    pub props: Vec<Prop>,
    pub elems: Vec<JsValue>,
}

/// One execution context: its operand stack and its global object.
pub struct ThreadState {
    pub stack: Vec<JsValue>,
    pub global: usize,
}

/// A proof that a child context was entered; it must be handed back, innermost first.
#[derive(Debug)]
pub struct DukContextGuard {
    depth: usize,
    thread: usize,
}

impl DukContextGuard {
    pub closed spec fn spec_depth(&self) -> nat {
        self.depth as nat
    }

    pub closed spec fn spec_thread(&self) -> nat {
        self.thread as nat
    }

    /// The context this guard stands for.
    pub fn thread(&self) -> (r: usize)
        ensures
            r == self.spec_thread(),
    {
        self.thread
    }
}

/// The value store of one heap: interned strings, buffers, objects, and the operand stacks of
/// its contexts. `active` is the chain of entered contexts, the root first; every operation acts
/// on the last one. The fields are open to reading; the methods keep `wf`, and code that
/// changes the fields directly must keep it too.
pub struct DukContext {
    pub strings: Vec<String>,
    pub buffers: Vec<Vec<u8>>,
    pub objects: Vec<JsObject>,
    pub threads: Vec<ThreadState>,
    pub active: Vec<usize>,
}

/// The message of a failed stack reservation.
pub open spec fn stack_space_error() -> Seq<char> {
    seq!['f', 'a', 'i', 'l', 'e', 'd', ' ', 't', 'o', ' ', 'r', 'e', 's', 'e', 'r', 'v', 'e', ' ', 'e', 'n', 'o', 'u', 'g', 'h', ' ', 's', 't', 'a', 'c', 'k', ' ', 's', 'p', 'a', 'c', 'e']
}

/// Position `idx` (negative: from the top) of a stack of `len` values, when it exists.
pub open spec fn spec_normalize(len: int, idx: i32) -> Option<int> {
    if idx < 0 {
        if len + idx >= 0 {
            Some(len + idx)
        } else {
            None
        }
    } else if idx < len {
        Some(idx as int)
    } else {
        None
    }
}

impl DukContext {
    pub open spec fn current(&self) -> int {
        self.active@.last() as int
    }

    /// The operand stack of the current context.
    pub open spec fn stack(&self) -> Seq<JsValue> {
        self.threads@[self.current()].stack@
    }

    pub open spec fn valid_value(&self, v: JsValue) -> bool {
        match v {
            JsValue::String(i) => i < self.strings@.len(),
            JsValue::Buffer(i) => i < self.buffers@.len(),
            JsValue::Object(i) => i < self.objects@.len(),
            _ => true,
        }
    }

    pub open spec fn valid_object(&self, o: JsObject) -> bool {
        &&& match o.kind {
            ObjectKind::Function(name, _) => name < self.strings@.len(),
            ObjectKind::Thread(t) => t < self.threads@.len(),
            ObjectKind::Enumerator(t, _, _) => t < self.objects@.len(),
            _ => true,
        }
        &&& forall|i: int| 0 <= i < o.props@.len() ==> self.valid_value(#[trigger] o.props@[i].value)
        &&& forall|i: int| 0 <= i < o.elems@.len() ==> self.valid_value(#[trigger] o.elems@[i])
    }

    pub open spec fn valid_thread(&self, t: ThreadState) -> bool {
        &&& t.global < self.objects@.len()
        &&& t.stack@.len() <= STACK_LIMIT
        &&& forall|i: int| 0 <= i < t.stack@.len() ==> self.valid_value(#[trigger] t.stack@[i])
    }

    /// Well-formedness: every reference points into the heap, every stack is within the limit,
    /// and the chain of entered contexts starts at the root.
    pub open spec fn wf(&self) -> bool {
        &&& self.threads@.len() >= 1
        &&& self.active@.len() >= 1
        &&& self.active@[0] == 0
        &&& forall|i: int| 0 <= i < self.active@.len() ==> #[trigger] self.active@[i] < self.threads@.len()
        &&& forall|i: int| 0 <= i < self.objects@.len() ==> self.valid_object(#[trigger] self.objects@[i])
        &&& forall|i: int| 0 <= i < self.threads@.len() ==> self.valid_thread(#[trigger] self.threads@[i])
    }

    /// Whether `other` holds the same strings, buffers and objects as `self`.
    pub open spec fn same_heap(&self, other: &DukContext) -> bool {
        &&& self.strings == other.strings
        &&& self.buffers == other.buffers
        &&& self.objects == other.objects
    }

    /// Whether `other` holds the same contexts as `self`, but for the current stack.
    pub open spec fn same_threads_but_stack(&self, other: &DukContext) -> bool {
        &&& self.active == other.active
        &&& self.threads@.len() == other.threads@.len()
        &&& forall|t: int| 0 <= t < self.threads@.len() && t != self.current()
            ==> #[trigger] other.threads@[t] == self.threads@[t]
        &&& other.threads@[self.current()].global == self.threads@[self.current()].global
    }

    /// Whether `other` holds the same heap and contexts as `self`, but for the current stack.
    pub open spec fn same_but_stack(&self, other: &DukContext) -> bool {
        self.same_heap(other) && self.same_threads_but_stack(other)
    }

    /// The slot at `idx` of the current stack, when it exists.
    pub open spec fn slot(&self, idx: i32) -> Option<JsValue> {
        match spec_normalize(self.stack().len() as int, idx) {
            Some(i) => Some(self.stack()[i]),
            None => None,
        }
    }

    /// A fresh store: one root context with an empty stack and an empty global object.
    pub fn new() -> (r: DukContext)
        ensures
            r.wf(),
            r.stack().len() == 0,
            r.active@ == seq![0usize],
            r.threads@.len() == 1,
            r.objects@.len() == 1,
    {
        let mut objects: Vec<JsObject> = Vec::new();
        objects.push(JsObject { kind: ObjectKind::Plain, props: Vec::new(), elems: Vec::new() });
        let mut threads: Vec<ThreadState> = Vec::new();
        threads.push(ThreadState { stack: Vec::new(), global: 0 });
        let mut active: Vec<usize> = Vec::new();
        active.push(0);
        let r = DukContext { strings: Vec::new(), buffers: Vec::new(), objects, threads, active };
        assert(r.valid_object(r.objects@[0]));
        r
    }

    /// The position that `index` (negative: from the top) denotes in the current stack.
    pub fn normalize_index(&self, index: i32) -> (r: Option<usize>)
        requires
            self.wf(),
        ensures
            r matches Some(i) ==> spec_normalize(self.stack().len() as int, index) == Some(i as int),
            r is None ==> spec_normalize(self.stack().len() as int, index) is None,
    {
        let cur = self.active[self.active.len() - 1];
        let len = self.threads[cur].stack.len();
        if index < 0 {
            let back = (0i64 - index as i64) as usize;
            if back <= len {
                Some(len - back)
            } else {
                None
            }
        } else if (index as usize) < len {
            Some(index as usize)
        } else {
            None
        }
    }

    /// The number of values on the current stack.
    pub fn get_top(&self) -> (r: usize)
        requires
            self.wf(),
        ensures
            r == self.stack().len(),
    {
        let cur = self.active[self.active.len() - 1];
        self.threads[cur].stack.len()
    }

    /// Pushes `v`, a value whose heap references are valid.
    pub(crate) fn push_value(&mut self, v: JsValue)
        requires
            old(self).wf(),
            old(self).valid_value(v),
            old(self).stack().len() < STACK_LIMIT,
        ensures
            final(self).wf(),
            old(self).same_but_stack(final(self)),
            final(self).stack() == old(self).stack().push(v),
    {
        let cur = self.active[self.active.len() - 1];
        self.threads[cur].stack.push(v);
        assert(self.valid_thread(self.threads@[cur as int]));
    }

    /// The type tag of a value.
    pub open spec fn type_of(&self, v: JsValue) -> DukType {
        match v {
            JsValue::Undefined => DukType::DUK_TYPE_UNDEFINED,
            JsValue::Null => DukType::DUK_TYPE_NULL,
            JsValue::Boolean(_) => DukType::DUK_TYPE_BOOLEAN,
            JsValue::Number(_) => DukType::DUK_TYPE_NUMBER,
            JsValue::String(_) => DukType::DUK_TYPE_STRING,
            JsValue::Buffer(_) => DukType::DUK_TYPE_BUFFER,
            JsValue::Object(_) => DukType::DUK_TYPE_OBJECT,
        }
    }

    /// The kind of the object that `v` refers to, when it refers to one.
    pub open spec fn kind_of(&self, v: Option<JsValue>) -> Option<ObjectKind> {
        match v {
            Some(JsValue::Object(o)) => Some(self.objects@[o as int].kind),
            _ => None,
        }
    }

    pub(crate) fn current_thread(&self) -> (r: usize)
        requires
            self.wf(),
        ensures
            r == self.current(),
            r < self.threads@.len(),
    {
        self.active[self.active.len() - 1]
    }

    /// Pushes `true` or `false`.
    pub fn push_boolean(&mut self, value: bool)
        requires
            old(self).wf(),
            old(self).stack().len() < STACK_LIMIT,
        ensures
            final(self).wf(),
            old(self).same_but_stack(final(self)),
            final(self).stack() == old(self).stack().push(JsValue::Boolean(value)),
    {
        self.push_value(JsValue::Boolean(value));
    }

    /// Pushes `null`.
    pub fn push_null(&mut self)
        requires
            old(self).wf(),
            old(self).stack().len() < STACK_LIMIT,
        ensures
            final(self).wf(),
            old(self).same_but_stack(final(self)),
            final(self).stack() == old(self).stack().push(JsValue::Null),
    {
        self.push_value(JsValue::Null);
    }

    /// Pushes `undefined`.
    pub fn push_undefined(&mut self)
        requires
            old(self).wf(),
            old(self).stack().len() < STACK_LIMIT,
        ensures
            final(self).wf(),
            old(self).same_but_stack(final(self)),
            final(self).stack() == old(self).stack().push(JsValue::Undefined),
    {
        self.push_value(JsValue::Undefined);
    }

    /// Pushes a number.
    pub fn push_number(&mut self, value: JsNumber)
        requires
            old(self).wf(),
            old(self).stack().len() < STACK_LIMIT,
        ensures
            final(self).wf(),
            old(self).same_but_stack(final(self)),
            final(self).stack() == old(self).stack().push(JsValue::Number(value)),
    {
        self.push_value(JsValue::Number(value));
    }

    /// Pushes the number `value`.
    pub fn push_i32(&mut self, value: i32)
        requires
            old(self).wf(),
            old(self).stack().len() < STACK_LIMIT,
        ensures
            final(self).wf(),
            old(self).same_but_stack(final(self)),
            final(self).stack() == old(self).stack().push(JsValue::Number(JsNumber::Int(value as i64))),
    {
        self.push_value(JsValue::Number(JsNumber::Int(value as i64)));
    }

    /// Pushes the number `value`.
    pub fn push_u32(&mut self, value: u32)
        requires
            old(self).wf(),
            old(self).stack().len() < STACK_LIMIT,
        ensures
            final(self).wf(),
            old(self).same_but_stack(final(self)),
            final(self).stack() == old(self).stack().push(JsValue::Number(JsNumber::Int(value as i64))),
    {
        self.push_value(JsValue::Number(JsNumber::Int(value as i64)));
    }

    /// Interns `s` as a new heap string and returns its reference.
    pub(crate) fn new_string(&mut self, s: String) -> (r: usize)
        requires
            old(self).wf(),
        ensures
            final(self).wf(),
            r == old(self).strings@.len(),
            final(self).strings@ == old(self).strings@.push(s),
            final(self).buffers == old(self).buffers,
            final(self).objects == old(self).objects,
            final(self).threads == old(self).threads,
            final(self).active == old(self).active,
    {
        let r = self.strings.len();
        self.strings.push(s);
        assert forall|i: int| 0 <= i < self.objects@.len() implies self.valid_object(#[trigger] self.objects@[i]) by {
            assert(old(self).valid_object(old(self).objects@[i]));
        }
        assert forall|i: int| 0 <= i < self.threads@.len() implies self.valid_thread(#[trigger] self.threads@[i]) by {
            assert(old(self).valid_thread(old(self).threads@[i]));
        }
        r
    }

    /// Pushes a copy of `value` as a new string.
    pub fn push_string(&mut self, value: &str)
        requires
            old(self).wf(),
            old(self).stack().len() < STACK_LIMIT,
        ensures
            final(self).wf(),
            final(self).strings@.len() == old(self).strings@.len() + 1,
            final(self).strings@.last()@ == value@,
            final(self).strings@.drop_last() == old(self).strings@,
            final(self).buffers == old(self).buffers,
            final(self).objects == old(self).objects,
            old(self).same_threads_but_stack(final(self)),
            final(self).stack() == old(self).stack().push(JsValue::String(old(self).strings@.len() as usize)),
    {
        let id = self.new_string(value.to_owned());
        self.push_value(JsValue::String(id));
        assert(self.strings@.drop_last() =~= old(self).strings@);
    }

    /// Adds `obj`, whose references are valid, to the heap and returns its reference.
    pub(crate) fn new_object(&mut self, obj: JsObject) -> (r: usize)
        requires
            old(self).wf(),
            old(self).valid_object(obj),
        ensures
            final(self).wf(),
            r == old(self).objects@.len(),
            final(self).objects@ == old(self).objects@.push(obj),
            final(self).strings == old(self).strings,
            final(self).buffers == old(self).buffers,
            final(self).threads == old(self).threads,
            final(self).active == old(self).active,
    {
        let r = self.objects.len();
        self.objects.push(obj);
        assert forall|i: int| 0 <= i < self.objects@.len() implies self.valid_object(#[trigger] self.objects@[i]) by {
            if i < r {
                assert(old(self).valid_object(old(self).objects@[i]));
            }
        }
        assert forall|i: int| 0 <= i < self.threads@.len() implies self.valid_thread(#[trigger] self.threads@[i]) by {
            assert(old(self).valid_thread(old(self).threads@[i]));
        }
        r
    }

    /// Adds a copy of `data` to the heap as a new buffer and returns its reference.
    pub(crate) fn new_buffer(&mut self, data: &[u8]) -> (r: usize)
        requires
            old(self).wf(),
        ensures
            final(self).wf(),
            r == old(self).buffers@.len(),
            final(self).buffers@.len() == old(self).buffers@.len() + 1,
            final(self).buffers@.last()@ == data@,
            final(self).buffers@.drop_last() == old(self).buffers@,
            final(self).strings == old(self).strings,
            final(self).objects == old(self).objects,
            final(self).threads == old(self).threads,
            final(self).active == old(self).active,
    {
        let r = self.buffers.len();
        let mut copy: Vec<u8> = Vec::new();
        let mut i: usize = 0;
        while i < data.len()
            invariant
                i <= data@.len(),
                copy@ == data@.subrange(0, i as int),
            decreases data@.len() - i,
        {
            copy.push(data[i]);
            i = i + 1;
            assert(copy@ =~= data@.subrange(0, i as int));
        }
        assert(copy@ =~= data@);
        self.buffers.push(copy);
        assert(self.buffers@.drop_last() =~= old(self).buffers@);
        assert forall|i: int| 0 <= i < self.objects@.len() implies self.valid_object(#[trigger] self.objects@[i]) by {
            assert(old(self).valid_object(old(self).objects@[i]));
        }
        assert forall|i: int| 0 <= i < self.threads@.len() implies self.valid_thread(#[trigger] self.threads@[i]) by {
            assert(old(self).valid_thread(old(self).threads@[i]));
        }
        r
    }

    /// Pushes a new empty plain object and returns its stack position.
    pub fn push_object(&mut self) -> (r: usize)
        requires
            old(self).wf(),
            old(self).stack().len() < STACK_LIMIT,
        ensures
            final(self).wf(),
            r == old(self).stack().len(),
            final(self).objects@.len() == old(self).objects@.len() + 1,
            final(self).objects@.drop_last() == old(self).objects@,
            final(self).objects@.last().kind == ObjectKind::Plain,
            final(self).objects@.last().props@.len() == 0,
            final(self).objects@.last().elems@.len() == 0,
            final(self).strings == old(self).strings,
            final(self).buffers == old(self).buffers,
            old(self).same_threads_but_stack(final(self)),
            final(self).stack() == old(self).stack().push(JsValue::Object(old(self).objects@.len() as usize)),
    {
        let r = self.get_top();
        let o = self.new_object(JsObject { kind: ObjectKind::Plain, props: Vec::new(), elems: Vec::new() });
        self.push_value(JsValue::Object(o));
        assert(self.objects@.drop_last() =~= old(self).objects@);
        r
    }

    /// Pushes a new empty array and returns its stack position.
    pub fn push_array(&mut self) -> (r: usize)
        requires
            old(self).wf(),
            old(self).stack().len() < STACK_LIMIT,
        ensures
            final(self).wf(),
            r == old(self).stack().len(),
            final(self).objects@.len() == old(self).objects@.len() + 1,
            final(self).objects@.drop_last() == old(self).objects@,
            final(self).objects@.last().kind == ObjectKind::Array,
            final(self).objects@.last().props@.len() == 0,
            final(self).objects@.last().elems@.len() == 0,
            final(self).strings == old(self).strings,
            final(self).buffers == old(self).buffers,
            old(self).same_threads_but_stack(final(self)),
            final(self).stack() == old(self).stack().push(JsValue::Object(old(self).objects@.len() as usize)),
    {
        let r = self.get_top();
        let o = self.new_object(JsObject { kind: ObjectKind::Array, props: Vec::new(), elems: Vec::new() });
        self.push_value(JsValue::Object(o));
        assert(self.objects@.drop_last() =~= old(self).objects@);
        r
    }

    /// Pushes a buffer holding a copy of `data`.
    pub fn push_ext_buffer(&mut self, data: &[u8])
        requires
            old(self).wf(),
            old(self).stack().len() < STACK_LIMIT,
        ensures
            final(self).wf(),
            final(self).buffers@.len() == old(self).buffers@.len() + 1,
            final(self).buffers@.last()@ == data@,
            final(self).buffers@.drop_last() == old(self).buffers@,
            final(self).strings == old(self).strings,
            final(self).objects == old(self).objects,
            old(self).same_threads_but_stack(final(self)),
            final(self).stack() == old(self).stack().push(JsValue::Buffer(old(self).buffers@.len() as usize)),
    {
        let b = self.new_buffer(data);
        self.push_value(JsValue::Buffer(b));
    }

    /// Removes the top value. The stack must not be empty.
    pub fn pop(&mut self)
        requires
            old(self).wf(),
            old(self).stack().len() >= 1,
        ensures
            final(self).wf(),
            old(self).same_but_stack(final(self)),
            final(self).stack() == old(self).stack().drop_last(),
    {
        let cur = self.current_thread();
        self.threads[cur].stack.pop();
        assert(self.valid_thread(self.threads@[cur as int]));
    }

    /// Removes the top `n` values. The stack must hold at least `n`.
    pub fn pop_n(&mut self, n: usize)
        requires
            old(self).wf(),
            old(self).stack().len() >= n,
        ensures
            final(self).wf(),
            old(self).same_but_stack(final(self)),
            final(self).stack() == old(self).stack().subrange(0, old(self).stack().len() - n),
    {
        let cur = self.current_thread();
        let len = self.threads[cur].stack.len();
        self.threads[cur].stack.truncate(len - n);
        assert(self.valid_thread(self.threads@[cur as int]));
    }

    /// Pushes a copy of the value at `index`, which must exist.
    pub fn dup(&mut self, index: i32)
        requires
            old(self).wf(),
            old(self).slot(index) is Some,
            old(self).stack().len() < STACK_LIMIT,
        ensures
            final(self).wf(),
            old(self).same_but_stack(final(self)),
            final(self).stack() == old(self).stack().push(old(self).slot(index)->0),
    {
        let i = self.normalize_index(index).unwrap();
        let cur = self.current_thread();
        let v = self.threads[cur].stack[i];
        assert(self.valid_thread(self.threads@[cur as int]));
        self.push_value(v);
    }

    /// Removes the value at `index`, which must exist, shifting those above it down.
    pub fn remove(&mut self, index: i32)
        requires
            old(self).wf(),
            old(self).slot(index) is Some,
        ensures
            final(self).wf(),
            old(self).same_but_stack(final(self)),
            final(self).stack() == old(self).stack().remove(
                spec_normalize(old(self).stack().len() as int, index)->0,
            ),
    {
        let i = self.normalize_index(index).unwrap();
        let cur = self.current_thread();
        self.threads[cur].stack.remove(i);
        assert(self.valid_thread(self.threads@[cur as int]));
    }

    /// Exchanges the values at `idx1` and `idx2`, which must exist.
    pub fn swap(&mut self, idx1: i32, idx2: i32)
        requires
            old(self).wf(),
            old(self).slot(idx1) is Some,
            old(self).slot(idx2) is Some,
        ensures
            final(self).wf(),
            old(self).same_but_stack(final(self)),
            final(self).stack() == old(self).stack().update(
                spec_normalize(old(self).stack().len() as int, idx1)->0,
                old(self).slot(idx2)->0,
            ).update(spec_normalize(old(self).stack().len() as int, idx2)->0, old(self).slot(idx1)->0),
    {
        let a = self.normalize_index(idx1).unwrap();
        let b = self.normalize_index(idx2).unwrap();
        let cur = self.current_thread();
        let va = self.threads[cur].stack[a];
        let vb = self.threads[cur].stack[b];
        assert(self.valid_thread(self.threads@[cur as int]));
        self.threads[cur].stack.set(a, vb);
        self.threads[cur].stack.set(b, va);
        assert(self.valid_thread(self.threads@[cur as int]));
    }

    /// The type tag of the value at `index`; `DUK_TYPE_NONE` where there is none.
    pub fn get_type(&self, index: i32) -> (r: DukType)
        requires
            self.wf(),
        ensures
            r == match self.slot(index) {
                Some(v) => self.type_of(v),
                None => DukType::DUK_TYPE_NONE,
            },
    {
        match self.normalize_index(index) {
            None => DukType::DUK_TYPE_NONE,
            Some(i) => {
                let cur = self.current_thread();
                match self.threads[cur].stack[i] {
                    JsValue::Undefined => DukType::DUK_TYPE_UNDEFINED,
                    JsValue::Null => DukType::DUK_TYPE_NULL,
                    JsValue::Boolean(_) => DukType::DUK_TYPE_BOOLEAN,
                    JsValue::Number(_) => DukType::DUK_TYPE_NUMBER,
                    JsValue::String(_) => DukType::DUK_TYPE_STRING,
                    JsValue::Buffer(_) => DukType::DUK_TYPE_BUFFER,
                    JsValue::Object(_) => DukType::DUK_TYPE_OBJECT,
                }
            },
        }
    }

    /// The value at `index`, when there is one.
    pub fn get_value(&self, index: i32) -> (r: Option<JsValue>)
        requires
            self.wf(),
        ensures
            r == self.slot(index),
            r matches Some(v) ==> self.valid_value(v),
    {
        match self.normalize_index(index) {
            None => None,
            Some(i) => {
                let cur = self.current_thread();
                assert(self.valid_thread(self.threads@[cur as int]));
                Some(self.threads[cur].stack[i])
            },
        }
    }

    /// Whether the value at `index` is a string.
    pub fn is_string(&self, index: i32) -> (r: bool)
        requires
            self.wf(),
        ensures
            r == (self.slot(index) matches Some(JsValue::String(_))),
    {
        matches!(self.get_value(index), Some(JsValue::String(_)))
    }

    /// Whether the value at `index` is a number.
    pub fn is_number(&self, index: i32) -> (r: bool)
        requires
            self.wf(),
        ensures
            r == (self.slot(index) matches Some(JsValue::Number(_))),
    {
        matches!(self.get_value(index), Some(JsValue::Number(_)))
    }

    /// Whether the value at `index` is an object of any kind.
    pub fn is_object(&self, index: i32) -> (r: bool)
        requires
            self.wf(),
        ensures
            r == (self.slot(index) matches Some(JsValue::Object(_))),
    {
        matches!(self.get_value(index), Some(JsValue::Object(_)))
    }

    /// The kind of the object at `index`, when the value there is an object.
    pub fn get_object_kind(&self, index: i32) -> (r: Option<ObjectKind>)
        requires
            self.wf(),
        ensures
            r == self.kind_of(self.slot(index)),
    {
        match self.get_value(index) {
            Some(JsValue::Object(o)) => Some(self.objects[o].kind),
            _ => None,
        }
    }

    /// Whether the value at `index` is an array.
    pub fn is_array(&self, index: i32) -> (r: bool)
        requires
            self.wf(),
        ensures
            r == (self.kind_of(self.slot(index)) == Some(ObjectKind::Array)),
    {
        match self.get_object_kind(index) {
            Some(ObjectKind::Array) => true,
            _ => false,
        }
    }

    /// Whether the value at `index` is a plain object: not an array, a function or a thread.
    pub fn is_pure_object(&self, index: i32) -> (r: bool)
        requires
            self.wf(),
        ensures
            r == (self.kind_of(self.slot(index)) == Some(ObjectKind::Plain)),
    {
        match self.get_object_kind(index) {
            Some(ObjectKind::Plain) => true,
            _ => false,
        }
    }

    /// Whether the value at `index` is a host function.
    pub fn is_function(&self, index: i32) -> (r: bool)
        requires
            self.wf(),
        ensures
            r == (self.kind_of(self.slot(index)) matches Some(ObjectKind::Function(_, _))),
    {
        match self.get_object_kind(index) {
            Some(ObjectKind::Function(_, _)) => true,
            _ => false,
        }
    }

    /// Whether the value at `index` is a thread, the value that keeps a child context alive.
    pub fn is_thread(&self, index: i32) -> (r: bool)
        requires
            self.wf(),
        ensures
            r == (self.kind_of(self.slot(index)) matches Some(ObjectKind::Thread(_))),
    {
        match self.get_object_kind(index) {
            Some(ObjectKind::Thread(_)) => true,
            _ => false,
        }
    }

    /// The boolean at `index`; `false` where the value there is not a boolean.
    pub fn get_boolean(&self, index: i32) -> (r: bool)
        requires
            self.wf(),
        ensures
            r == (self.slot(index) == Some(JsValue::Boolean(true))),
    {
        match self.get_value(index) {
            Some(JsValue::Boolean(b)) => b,
            _ => false,
        }
    }

    /// The number at `index`; NaN where the value there is not a number.
    pub fn get_number(&self, index: i32) -> (r: JsNumber)
        requires
            self.wf(),
        ensures
            r == match self.slot(index) {
                Some(JsValue::Number(n)) => n,
                _ => JsNumber::Bits(0x7ff8_0000_0000_0000),
            },
    {
        match self.get_value(index) {
            Some(JsValue::Number(n)) => n,
            _ => JsNumber::Bits(0x7ff8_0000_0000_0000),
        }
    }

    /// The string at `index`; empty where the value there is not a string.
    pub fn get_string(&self, index: i32) -> (r: &str)
        requires
            self.wf(),
        ensures
            r@ == match self.slot(index) {
                Some(JsValue::String(s)) => self.strings@[s as int]@,
                _ => Seq::empty(),
            },
    {
        match self.get_value(index) {
            Some(JsValue::String(s)) => self.strings[s].as_str(),
            _ => {
                proof {
                    reveal_strlit("");
                }
                ""
            },
        }
    }

    /// The bytes of the buffer at `index`; empty where the value there is not a buffer.
    pub fn get_buffer(&self, index: i32) -> (r: &[u8])
        requires
            self.wf(),
        ensures
            r@ == match self.slot(index) {
                Some(JsValue::Buffer(b)) => self.buffers@[b as int]@,
                _ => Seq::empty(),
            },
    {
        match self.get_value(index) {
            Some(JsValue::Buffer(b)) => self.buffers[b].as_slice(),
            _ => &[],
        }
    }

    /// The length of the value at `index`: elements of an array, characters of a string, bytes
    /// of a buffer; 0 for anything else.
    pub fn get_length(&self, index: i32) -> (r: usize)
        requires
            self.wf(),
        ensures
            r == match self.slot(index) {
                Some(JsValue::String(s)) => self.strings@[s as int]@.len(),
                Some(JsValue::Buffer(b)) => self.buffers@[b as int]@.len(),
                Some(JsValue::Object(o)) => if self.objects@[o as int].kind == ObjectKind::Array {
                    self.objects@[o as int].elems@.len()
                } else {
                    0
                },
                _ => 0,
            },
    {
        match self.get_value(index) {
            Some(JsValue::String(s)) => self.strings[s].as_str().unicode_len(),
            Some(JsValue::Buffer(b)) => self.buffers[b].len(),
            Some(JsValue::Object(o)) => match self.objects[o].kind {
                ObjectKind::Array => self.objects[o].elems.len(),
                _ => 0,
            },
            _ => 0,
        }
    }

    /// Whether `b` is `a` with at most object `o` changed, keeping its kind.
    pub open spec fn only_object_changed(a: &DukContext, b: &DukContext, o: int) -> bool {
        &&& a.strings == b.strings
        &&& a.buffers == b.buffers
        &&& a.objects@.len() == b.objects@.len()
        &&& b.objects@[o].kind == a.objects@[o].kind
        &&& forall|i: int| 0 <= i < a.objects@.len() && i != o ==> #[trigger] b.objects@[i] == a.objects@[i]
    }

    /// The position of the object value at `obj_index` below the top value, with its reference.
    pub open spec fn object_below_top(&self, obj_index: i32) -> bool {
        &&& self.stack().len() >= 1
        &&& spec_normalize(self.stack().len() as int, obj_index) matches Some(p) && p < self.stack().len() - 1
        &&& self.slot(obj_index) matches Some(JsValue::Object(_))
    }

    /// Sets the property `key` of object `o` to `v`: the first property of that name is
    /// overwritten, or a new one is added last.
    pub(crate) fn set_named(&mut self, o: usize, key: &str, v: JsValue)
        requires
            old(self).wf(),
            o < old(self).objects@.len(),
            old(self).valid_value(v),
        ensures
            final(self).wf(),
            named_set(old(self), final(self), o as int, key@, v),
            final(self).threads == old(self).threads,
            final(self).active == old(self).active,
    {
        proof {
            lemma_find_named(self.objects@[o as int].props@, key@);
            assert(self.valid_object(self.objects@[o as int]));
        }
        let ghost ps = self.objects@[o as int].props@;
        let wanted = key.to_owned();
        let mut i: usize = 0;
        let n = self.objects[o].props.len();
        while i < n
            invariant
                i <= n,
                n == ps.len(),
                *self == *old(self),
                self.wf(),
                o < self.objects@.len(),
                old(self).valid_value(v),
                ps == self.objects@[o as int].props@,
                wanted@ == key@,
                forall|a: int| 0 <= a < i ==> #[trigger] ps[a].key@ != key@,
            decreases n - i,
        {
            if self.objects[o].props[i].key == wanted {
                let k = self.objects[o].props[i].key.clone();
                self.objects[o].props.set(i, Prop { key: k, value: v });
                proof {
                    lemma_find_named(ps, key@);
                    assert(self.valid_object(self.objects@[o as int]));
                    assert forall|x: int| 0 <= x < self.objects@.len() implies self.valid_object(#[trigger] self.objects@[x]) by {
                        if x != o {
                            assert(old(self).valid_object(old(self).objects@[x]));
                        }
                    }
                    assert forall|x: int| 0 <= x < self.threads@.len() implies self.valid_thread(#[trigger] self.threads@[x]) by {
                        assert(old(self).valid_thread(old(self).threads@[x]));
                    }
                }
                return;
            }
            i = i + 1;
        }
        self.objects[o].props.push(Prop { key: key.to_owned(), value: v });
        proof {
            assert(self.objects@[o as int].props@.drop_last() =~= ps);
            assert(self.valid_object(self.objects@[o as int]));
            assert forall|x: int| 0 <= x < self.objects@.len() implies self.valid_object(#[trigger] self.objects@[x]) by {
                if x != o {
                    assert(old(self).valid_object(old(self).objects@[x]));
                }
            }
            assert forall|x: int| 0 <= x < self.threads@.len() implies self.valid_thread(#[trigger] self.threads@[x]) by {
                assert(old(self).valid_thread(old(self).threads@[x]));
            }
        }
    }

    /// The value of the property `key` of object `o`, where it has one.
    pub(crate) fn get_named(&self, o: usize, key: &str) -> (r: Option<JsValue>)
        requires
            self.wf(),
            o < self.objects@.len(),
        ensures
            r == match find_named(self.objects@[o as int].props@, key@) {
                Some(j) => Some(self.objects@[o as int].props@[j].value),
                None => None,
            },
            r matches Some(v) ==> self.valid_value(v),
    {
        proof {
            lemma_find_named(self.objects@[o as int].props@, key@);
            assert(self.valid_object(self.objects@[o as int]));
        }
        let ghost ps = self.objects@[o as int].props@;
        let wanted = key.to_owned();
        let mut i: usize = 0;
        let n = self.objects[o].props.len();
        while i < n
            invariant
                i <= n,
                n == ps.len(),
                self.wf(),
                o < self.objects@.len(),
                ps == self.objects@[o as int].props@,
                wanted@ == key@,
                forall|a: int| 0 <= a < i ==> #[trigger] ps[a].key@ != key@,
            decreases n - i,
        {
            if self.objects[o].props[i].key == wanted {
                proof {
                    lemma_find_named(ps, key@);
                }
                return Some(self.objects[o].props[i].value);
            }
            i = i + 1;
        }
        None
    }

    /// Pops the top value and stores it as the property `key` of the object at `obj_index`,
    /// which lies below the top.
    pub fn put_prop_string(&mut self, obj_index: i32, key: &str)
        requires
            old(self).wf(),
            old(self).object_below_top(obj_index),
        ensures
            final(self).wf(),
            final(self).stack() == old(self).stack().drop_last(),
            old(self).same_threads_but_stack(final(self)),
            named_set(
                old(self),
                final(self),
                old(self).slot(obj_index)->0->Object_0 as int,
                key@,
                old(self).stack().last(),
            ),
    {
        let o = match self.get_value(obj_index) {
            Some(JsValue::Object(o)) => o,
            _ => 0,
        };
        let v = self.get_value(-1).unwrap();
        let ghost before = *self;
        self.set_named(o, key, v);
        proof {
            assert(self.stack() == before.stack());
        }
        self.pop();
    }

    /// Pushes the property `key` of the object at `obj_index` (undefined where it has none, or
    /// where the value there is not an object) and tells whether it was found.
    pub fn get_prop_string(&mut self, obj_index: i32, key: &str) -> (r: bool)
        requires
            old(self).wf(),
            old(self).stack().len() < STACK_LIMIT,
        ensures
            final(self).wf(),
            old(self).same_but_stack(final(self)),
            ({
                let found: Option<JsValue> = match old(self).slot(obj_index) {
                    Some(JsValue::Object(o)) => match find_named(old(self).objects@[o as int].props@, key@) {
                        Some(j) => Some(old(self).objects@[o as int].props@[j].value),
                        None => None,
                    },
                    _ => None,
                };
                &&& r == found is Some
                &&& final(self).stack() == old(self).stack().push(
                    match found {
                        Some(v) => v,
                        None => JsValue::Undefined,
                    },
                )
            }),
    {
        let found = match self.get_value(obj_index) {
            Some(JsValue::Object(o)) => self.get_named(o, key),
            _ => None,
        };
        match found {
            Some(v) => {
                self.push_value(v);
                true
            },
            None => {
                self.push_value(JsValue::Undefined);
                false
            },
        }
    }

    /// Pushes the current context's global object.
    pub fn push_global_object(&mut self)
        requires
            old(self).wf(),
            old(self).stack().len() < STACK_LIMIT,
        ensures
            final(self).wf(),
            old(self).same_but_stack(final(self)),
            final(self).stack() == old(self).stack().push(
                JsValue::Object(old(self).threads@[old(self).current()].global),
            ),
    {
        let cur = self.current_thread();
        proof {
            assert(self.valid_thread(self.threads@[cur as int]));
        }
        let g = self.threads[cur].global;
        self.push_value(JsValue::Object(g));
    }

    /// Pops the top value and stores it as the global `key` of the current context.
    pub fn put_global_string(&mut self, key: &str)
        requires
            old(self).wf(),
            old(self).stack().len() >= 1,
        ensures
            final(self).wf(),
            final(self).stack() == old(self).stack().drop_last(),
            old(self).same_threads_but_stack(final(self)),
            named_set(
                old(self),
                final(self),
                old(self).threads@[old(self).current()].global as int,
                key@,
                old(self).stack().last(),
            ),
    {
        let cur = self.current_thread();
        proof {
            assert(self.valid_thread(self.threads@[cur as int]));
        }
        let g = self.threads[cur].global;
        let v = self.get_value(-1).unwrap();
        let ghost before = *self;
        self.set_named(g, key, v);
        proof {
            assert(self.stack() == before.stack());
        }
        self.pop();
    }

    /// Pushes the global `key` of the current context (undefined where there is none) and tells
    /// whether it was found.
    pub fn get_global_string(&mut self, key: &str) -> (r: bool)
        requires
            old(self).wf(),
            old(self).stack().len() < STACK_LIMIT,
        ensures
            final(self).wf(),
            old(self).same_but_stack(final(self)),
            ({
                let g = old(self).threads@[old(self).current()].global as int;
                let ps = old(self).objects@[g].props@;
                &&& r == find_named(ps, key@) is Some
                &&& final(self).stack() == old(self).stack().push(
                    match find_named(ps, key@) {
                        Some(j) => ps[j].value,
                        None => JsValue::Undefined,
                    },
                )
            }),
    {
        let cur = self.current_thread();
        proof {
            assert(self.valid_thread(self.threads@[cur as int]));
        }
        let g = self.threads[cur].global;
        match self.get_named(g, key) {
            Some(v) => {
                self.push_value(v);
                true
            },
            None => {
                self.push_value(JsValue::Undefined);
                false
            },
        }
    }
}

/// Whether the heap of `b` is that of `a` with the property `key` of object `o` set to `v`:
/// the first property of that name now holds `v`, or, where there was none, a property of that
/// name holding `v` was added last. Nothing else in the heap differs.
pub open spec fn named_set(a: &DukContext, b: &DukContext, o: int, key: Seq<char>, v: JsValue) -> bool {
    &&& DukContext::only_object_changed(a, b, o)
    &&& b.objects@[o].elems == a.objects@[o].elems
    &&& props_set(a.objects@[o].props@, b.objects@[o].props@, key, v)
}

/// Whether `ps2` is `ps` with the property `key` set to `v`: the first property of that name
/// now holds `v`, or, where there was none, a property of that name holding `v` comes last.
pub open spec fn props_set(ps: Seq<Prop>, ps2: Seq<Prop>, key: Seq<char>, v: JsValue) -> bool {
    match find_named(ps, key) {
        Some(j) => ps2.len() == ps.len() && ps2[j].key@ == key && ps2[j].value == v && forall|i: int|
            0 <= i < ps.len() && i != j ==> #[trigger] ps2[i] == ps[i],
        None => ps2.len() == ps.len() + 1 && ps2.drop_last() == ps && ps2.last().key@ == key
            && ps2.last().value == v,
    }
}

/// Whether the heap of `b` is that of `a` with element `index` of object `o` set to `v`,
/// positions between the old length and `index` filled with undefined. Nothing else in the
/// heap differs.
pub open spec fn element_set(a: &DukContext, b: &DukContext, o: int, index: int, v: JsValue) -> bool {
    let es = a.objects@[o].elems@;
    let es2 = b.objects@[o].elems@;
    &&& DukContext::only_object_changed(a, b, o)
    &&& b.objects@[o].props == a.objects@[o].props
    &&& es2.len() == if index < es.len() {
        es.len() as int
    } else {
        index + 1
    }
    &&& es2[index] == v
    &&& forall|k: int| 0 <= k < es.len() && k != index ==> #[trigger] es2[k] == es[k]
    &&& forall|k: int| es.len() <= k < index ==> #[trigger] es2[k] == JsValue::Undefined
}

/// Position of the first property named `k`.
pub open spec fn find_named(ps: Seq<Prop>, k: Seq<char>) -> Option<int>
    decreases ps.len(),
{
    if ps.len() == 0 {
        None
    } else {
        match find_named(ps.drop_last(), k) {
            Some(j) => Some(j),
            None => if ps.last().key@ == k {
                Some(ps.len() - 1)
            } else {
                None
            },
        }
    }
}

/// What `find_named` returns: the first position holding the name, or none where no property
/// has it.
pub proof fn lemma_find_named(ps: Seq<Prop>, k: Seq<char>)
    ensures
        find_named(ps, k) matches Some(j) ==> 0 <= j < ps.len() && ps[j].key@ == k && forall|a: int|
            0 <= a < j ==> #[trigger] ps[a].key@ != k,
        find_named(ps, k) is None ==> forall|a: int| 0 <= a < ps.len() ==> #[trigger] ps[a].key@ != k,
    decreases ps.len(),
{
    if ps.len() > 0 {
        let init = ps.drop_last();
        lemma_find_named(init, k);
        assert forall|a: int| 0 <= a < ps.len() - 1 implies #[trigger] ps[a] == init[a] by {}
        match find_named(init, k) {
            Some(j) => {
                assert(find_named(ps, k) == Some(j));
            },
            None => {
                if ps.last().key@ == k {
                    assert(find_named(ps, k) == Some(ps.len() - 1));
                } else {
                    assert(find_named(ps, k) is None);
                }
            },
        }
    }
}


impl DukContext {
    /// Whether `b` is `a` after a thread value was pushed: a new context with an empty stack
    /// and global object `global`, held by a new thread object on top of the current stack.
    pub open spec fn pushed_thread(a: &DukContext, b: &DukContext, global: usize) -> bool {
        &&& a.threads@.len() <= usize::MAX
        &&& b.wf()
        &&& b.strings == a.strings
        &&& b.buffers == a.buffers
        &&& b.objects@.len() == a.objects@.len() + 1
        &&& forall|i: int| 0 <= i < a.objects@.len() ==> #[trigger] b.objects@[i] == a.objects@[i]
        &&& b.objects@.last().kind == ObjectKind::Thread(a.threads@.len() as usize)
        &&& b.active == a.active
        &&& b.threads@.len() == a.threads@.len() + 1
        &&& forall|t: int| 0 <= t < a.threads@.len() && t != a.current() ==> #[trigger] b.threads@[t] == a.threads@[t]
        &&& b.threads@[a.current()].global == a.threads@[a.current()].global
        &&& b.stack() == a.stack().push(JsValue::Object(a.objects@.len() as usize))
        &&& b.threads@.last().stack@.len() == 0
        &&& b.threads@.last().global == global
    }

    /// Whether `b` is `a` with the context `t` entered.
    pub open spec fn entered(a: &DukContext, b: &DukContext, t: usize) -> bool {
        &&& b.wf()
        &&& a.same_heap(b)
        &&& b.threads == a.threads
        &&& b.active@ == a.active@.push(t)
    }

    /// Whether `b` is `a` with the innermost entered context left.
    pub open spec fn left(a: &DukContext, b: &DukContext) -> bool {
        &&& b.wf()
        &&& a.same_heap(b)
        &&& b.threads == a.threads
        &&& a.active@.len() >= 2
        &&& b.active@ == a.active@.drop_last()
    }

    /// Whether `b` is `a` with the top value of the current stack popped.
    pub open spec fn popped(a: &DukContext, b: &DukContext) -> bool {
        &&& b.wf()
        &&& a.stack().len() >= 1
        &&& a.same_but_stack(b)
        &&& b.stack() == a.stack().drop_last()
    }

    /// Whether `b` is `a` with copies of the top `count` values of context `from` pushed onto the
    /// current stack, in order.
    pub open spec fn copied_top(a: &DukContext, b: &DukContext, from: usize, count: usize) -> bool {
        let src = a.threads@[from as int].stack@;
        &&& b.wf()
        &&& a.same_but_stack(b)
        &&& count <= src.len()
        &&& b.stack() == a.stack() + src.subrange(src.len() - count, src.len() as int)
    }

    /// Adds a context with an empty stack and global object `global`; returns its number.
    pub(crate) fn new_thread(&mut self, global: usize) -> (r: usize)
        requires
            old(self).wf(),
            global < old(self).objects@.len(),
        ensures
            final(self).wf(),
            r == old(self).threads@.len(),
            final(self).threads@ == old(self).threads@.push(final(self).threads@.last()),
            final(self).threads@.last().stack@.len() == 0,
            final(self).threads@.last().global == global,
            old(self).same_heap(final(self)),
            final(self).active == old(self).active,
    {
        let r = self.threads.len();
        self.threads.push(ThreadState { stack: Vec::new(), global });
        proof {
            assert(self.threads@ =~= old(self).threads@.push(self.threads@.last()));
            assert forall|x: int| 0 <= x < self.objects@.len() implies self.valid_object(#[trigger] self.objects@[x]) by {
                assert(old(self).valid_object(old(self).objects@[x]));
            }
            assert forall|x: int| 0 <= x < self.threads@.len() implies self.valid_thread(#[trigger] self.threads@[x]) by {
                if x < r {
                    assert(old(self).valid_thread(old(self).threads@[x]));
                }
            }
        }
        r
    }

    fn push_thread_with_global(&mut self, global: usize) -> (r: i32)
        requires
            old(self).wf(),
            global < old(self).objects@.len(),
            old(self).stack().len() < STACK_LIMIT,
        ensures
            DukContext::pushed_thread(old(self), final(self), global),
            r == old(self).stack().len(),
    {
        let r = self.get_top() as i32;
        let t = self.new_thread(global);
        let ghost mid1 = *self;
        let o = self.new_object(JsObject { kind: ObjectKind::Thread(t), props: Vec::new(), elems: Vec::new() });
        proof {
            assert(mid1.stack() == old(self).stack());
            assert(self.stack() == old(self).stack());
        }
        self.push_value(JsValue::Object(o));
        r
    }

    /// Pushes a thread value holding a new child context that shares the current global object;
    /// returns its stack position.
    pub fn push_thread(&mut self) -> (r: i32)
        requires
            old(self).wf(),
            old(self).stack().len() < STACK_LIMIT,
        ensures
            DukContext::pushed_thread(old(self), final(self), old(self).threads@[old(self).current()].global),
            r == old(self).stack().len(),
    {
        let cur = self.current_thread();
        proof {
            assert(self.valid_thread(self.threads@[cur as int]));
        }
        let g = self.threads[cur].global;
        self.push_thread_with_global(g)
    }

    /// Pushes a thread value holding a new child context with a fresh, empty global object;
    /// returns its stack position.
    pub fn push_thread_new_globalenv(&mut self) -> (r: i32)
        requires
            old(self).wf(),
            old(self).stack().len() < STACK_LIMIT,
        ensures
            r == old(self).stack().len(),
            ({
                let g = old(self).objects@.len();
                &&& final(self).objects@[g as int].kind == ObjectKind::Plain
                &&& final(self).objects@[g as int].props@.len() == 0
                &&& exists|mid: DukContext| {
                    &&& mid.wf()
                    &&& mid.strings == old(self).strings
                    &&& mid.buffers == old(self).buffers
                    &&& mid.objects@ == old(self).objects@.push(mid.objects@.last())
                    &&& mid.threads == old(self).threads
                    &&& mid.active == old(self).active
                    &&& DukContext::pushed_thread(&mid, final(self), g as usize)
                }
            }),
    {
        let g = self.new_object(JsObject { kind: ObjectKind::Plain, props: Vec::new(), elems: Vec::new() });
        let ghost mid = *self;
        proof {
            assert(mid.objects@ =~= old(self).objects@.push(mid.objects@.last()));
        }
        self.push_thread_with_global(g)
    }

    /// Enters the child context whose thread value is at `index`. From here until the returned
    /// guard is handed back, every operation acts on that context.
    pub fn get_context(&mut self, index: i32) -> (r: Result<DukContextGuard, JsError>)
        requires
            old(self).wf(),
        ensures
            match old(self).kind_of(old(self).slot(index)) {
                Some(ObjectKind::Thread(t)) => r matches Ok(g) && DukContext::entered(old(self), final(self), t)
                    && g.spec_depth() == final(self).active@.len() && g.spec_thread() == t,
                _ => r matches Err(e) && e.0@ == seq!['c', 'o', 'u', 'l', 'd', ' ', 'n', 'o', 't', ' ', 'g', 'e', 't', ' ', 'c', 'o', 'n', 't', 'e', 'x', 't', ' ', 'f', 'r', 'o', 'm', ' ', 'i', 'n', 'd', 'e', 'x', ' '] + signed_decimal(index as int)
                    && *final(self) == *old(self),
            },
    {
        match self.get_object_kind(index) {
            Some(ObjectKind::Thread(t)) => {
                proof {
                    let o = self.slot(index)->0->Object_0 as int;
                    assert(self.valid_object(self.objects@[o]));
                }
                self.active.push(t);
                proof {
                    assert forall|i: int| 0 <= i < self.active@.len() implies #[trigger] self.active@[i] < self.threads@.len() by {
                        if i < old(self).active@.len() {
                            assert(self.active@[i] == old(self).active@[i]);
                        }
                    }
                }
                Ok(DukContextGuard { depth: self.active.len(), thread: t })
            },
            _ => {
                let mut msg = String::from_str("could not get context from index ");
                proof {
                    reveal_strlit("could not get context from index ");
                }
                let n = i64_decimal(index as i64);
                msg.append(n.as_str());
                Err(JsError(msg))
            },
        }
    }

    /// Leaves the innermost entered context, handing back its guard.
    pub fn release_context(&mut self, guard: DukContextGuard)
        requires
            old(self).wf(),
            old(self).active@.len() >= 2,
            guard.spec_depth() == old(self).active@.len(),
            guard.spec_thread() == old(self).current(),
        ensures
            DukContext::left(old(self), final(self)),
    {
        self.active.pop();
        proof {
            assert forall|i: int| 0 <= i < self.active@.len() implies #[trigger] self.active@[i] < self.threads@.len() by {
                assert(self.active@[i] == old(self).active@[i]);
            }
        }
    }

    /// The number of the current context.
    pub fn context_id(&self) -> (r: usize)
        requires
            self.wf(),
        ensures
            r == self.current(),
    {
        self.current_thread()
    }

    /// Pushes copies of the top `count` values of context `from` onto the current stack, in
    /// order. Values are copied as they are: a copied object still refers to the same object.
    pub fn xcopy_top(&mut self, from: usize, count: usize)
        requires
            old(self).wf(),
            from < old(self).threads@.len(),
            count <= old(self).threads@[from as int].stack@.len(),
            old(self).stack().len() + count <= STACK_LIMIT,
        ensures
            DukContext::copied_top(old(self), final(self), from, count),
    {
        proof {
            assert(self.valid_thread(self.threads@[from as int]));
        }
        let ghost src = self.threads@[from as int].stack@;
        let ghost base = self.stack();
        let n = self.threads[from].stack.len();
        let mut i: usize = n - count;
        while i < n
            invariant
                self.wf(),
                old(self).same_but_stack(self),
                from < self.threads@.len(),
                src.len() == n,
                n - count <= i <= n,
                count <= n,
                base == old(self).stack(),
                base.len() + count <= STACK_LIMIT,
                forall|k: int| 0 <= k < n ==> old(self).valid_value(#[trigger] src[k]),
                from != self.current() ==> self.threads@[from as int].stack@ == src,
                from == self.current() ==> self.stack().subrange(0, n as int) == src,
                from == self.current() ==> base == src,
                self.stack() == base + src.subrange(n - count, i as int),
            decreases n - i,
        {
            proof {
                if from == self.current() {
                    assert(self.threads@[from as int].stack@ == self.stack());
                }
            }
            let v = self.threads[from].stack[i];
            proof {
                if from == self.current() {
                    assert(self.stack().subrange(0, n as int)[i as int] == src[i as int]);
                }
                assert(v == src[i as int]);
            }
            self.push_value(v);
            i = i + 1;
            proof {
                assert(self.stack() =~= base + src.subrange(n - count, i as int));
                if from == self.current() {
                    assert(self.stack().subrange(0, n as int) =~= src);
                }
            }
        }
    }

    /// Moves the top `count` values of context `from`, which is not the current one, onto the
    /// current stack, in order.
    pub fn xmove_top(&mut self, from: usize, count: usize)
        requires
            old(self).wf(),
            from < old(self).threads@.len(),
            from != old(self).current(),
            count <= old(self).threads@[from as int].stack@.len(),
            old(self).stack().len() + count <= STACK_LIMIT,
        ensures
            final(self).wf(),
            old(self).same_heap(final(self)),
            final(self).active == old(self).active,
            final(self).threads@.len() == old(self).threads@.len(),
            forall|t: int| 0 <= t < old(self).threads@.len() && t != old(self).current() && t != from
                ==> #[trigger] final(self).threads@[t] == old(self).threads@[t],
            final(self).stack() == old(self).stack() + old(self).threads@[from as int].stack@.subrange(
                old(self).threads@[from as int].stack@.len() - count,
                old(self).threads@[from as int].stack@.len() as int,
            ),
            final(self).threads@[from as int].stack@ == old(self).threads@[from as int].stack@.subrange(
                0,
                old(self).threads@[from as int].stack@.len() - count,
            ),
            final(self).threads@[from as int].global == old(self).threads@[from as int].global,
            final(self).threads@[old(self).current()].global == old(self).threads@[old(self).current()].global,
    {
        self.xcopy_top(from, count);
        let n = self.threads[from].stack.len();
        self.threads[from].stack.truncate(n - count);
        proof {
            assert(self.valid_thread(self.threads@[from as int]));
            assert forall|x: int| 0 <= x < self.threads@.len() implies self.valid_thread(#[trigger] self.threads@[x]) by {}
        }
    }

    /// Succeeds when `extra` more values fit on the current stack.
    pub fn check_stack(&self, extra: usize) -> (r: Result<(), JsError>)
        requires
            self.wf(),
        ensures
            r is Ok <==> self.stack().len() + extra <= STACK_LIMIT,
            r matches Err(e) ==> e.0@ == stack_space_error(),
    {
        let top = self.get_top();
        if extra <= STACK_LIMIT - top {
            Ok(())
        } else {
            proof {
                reveal_strlit("failed to reserve enough stack space");
            }
            Err(JsError::from_str("failed to reserve enough stack space"))
        }
    }

    /// Succeeds when the current stack may grow to `top` values.
    pub fn check_stack_top(&self, top: usize) -> (r: Result<(), JsError>)
        requires
            self.wf(),
        ensures
            r is Ok <==> top <= STACK_LIMIT,
            r matches Err(e) ==> e.0@ == stack_space_error(),
    {
        if top <= STACK_LIMIT {
            Ok(())
        } else {
            proof {
                reveal_strlit("failed to reserve enough stack space");
            }
            Err(JsError::from_str("failed to reserve enough stack space"))
        }
    }
}


impl DukContext {
    /// Pushes a host function registered under `func_name`, taking `nargs` arguments.
    pub fn push_function(&mut self, func_name: &str, nargs: i32)
        requires
            old(self).wf(),
            old(self).stack().len() < STACK_LIMIT,
        ensures
            final(self).wf(),
            final(self).strings@.len() == old(self).strings@.len() + 1,
            final(self).strings@.drop_last() == old(self).strings@,
            final(self).strings@.last()@ == func_name@,
            final(self).buffers == old(self).buffers,
            final(self).objects@.len() == old(self).objects@.len() + 1,
            final(self).objects@.drop_last() == old(self).objects@,
            final(self).objects@.last().kind == ObjectKind::Function(old(self).strings@.len() as usize, nargs),
            final(self).objects@.last().props@.len() == 0,
            old(self).same_threads_but_stack(final(self)),
            final(self).stack() == old(self).stack().push(JsValue::Object(old(self).objects@.len() as usize)),
    {
        let name = self.new_string(func_name.to_owned());
        let ghost mid = *self;
        let o = self.new_object(JsObject { kind: ObjectKind::Function(name, nargs), props: Vec::new(), elems: Vec::new() });
        self.push_value(JsValue::Object(o));
        proof {
            assert(self.strings@.drop_last() =~= old(self).strings@);
            assert(self.objects@.drop_last() =~= old(self).objects@);
        }
    }

    /// Registers a host function as the global `func_name` of the current context, taking
    /// `nargs` arguments. The stack is left as it was.
    pub fn put_global_function(&mut self, func_name: &str, nargs: i32)
        requires
            old(self).wf(),
            old(self).stack().len() < STACK_LIMIT,
        ensures
            final(self).wf(),
            final(self).stack() == old(self).stack(),
            final(self).active == old(self).active,
            final(self).strings@.len() == old(self).strings@.len() + 1,
            final(self).strings@.drop_last() == old(self).strings@,
            final(self).strings@.last()@ == func_name@,
            final(self).objects@.len() == old(self).objects@.len() + 1,
            final(self).objects@.last().kind == ObjectKind::Function(old(self).strings@.len() as usize, nargs),
            final(self).objects@.last().props@.len() == 0,
            ({
                let g = old(self).threads@[old(self).current()].global as int;
                &&& forall|i: int| 0 <= i < old(self).objects@.len() && i != g ==> #[trigger] final(self).objects@[i]
                    == old(self).objects@[i]
                &&& props_set(
                    old(self).objects@[g].props@,
                    final(self).objects@[g].props@,
                    func_name@,
                    JsValue::Object(old(self).objects@.len() as usize),
                )
            }),
    {
        self.push_function(func_name, nargs);
        self.put_global_string(func_name);
        proof {
            assert(self.stack() =~= old(self).stack());
        }
    }

    /// Pops the top value and stores it at position `index` among the elements of the object at
    /// `obj_index`, which lies below the top; positions between the old length and `index`
    /// become undefined.
    pub fn put_prop_index(&mut self, obj_index: i32, index: u32)
        requires
            old(self).wf(),
            old(self).object_below_top(obj_index),
        ensures
            final(self).wf(),
            final(self).stack() == old(self).stack().drop_last(),
            old(self).same_threads_but_stack(final(self)),
            element_set(
                old(self),
                final(self),
                old(self).slot(obj_index)->0->Object_0 as int,
                index as int,
                old(self).stack().last(),
            ),
    {
        let o = match self.get_value(obj_index) {
            Some(JsValue::Object(o)) => o,
            _ => 0,
        };
        let v = self.get_value(-1).unwrap();
        let ghost before = *self;
        self.set_element(o, index as usize, v);
        proof {
            assert(self.stack() == before.stack());
        }
        self.pop();
    }

    /// Sets element `idx` of object `o` to `v`, a valid value, filling positions between the old
    /// length and `idx` with undefined.
    pub(crate) fn set_element(&mut self, o: usize, idx: usize, v: JsValue)
        requires
            old(self).wf(),
            o < old(self).objects@.len(),
            old(self).valid_value(v),
        ensures
            final(self).wf(),
            element_set(old(self), final(self), o as int, idx as int, v),
            final(self).threads == old(self).threads,
            final(self).active == old(self).active,
    {
        let ghost es = self.objects@[o as int].elems@;
        let ghost before = *self;
        proof {
            assert(self.valid_object(self.objects@[o as int]));
        }
        if idx < self.objects[o].elems.len() {
            self.objects[o].elems.set(idx, v);
        } else {
            while self.objects[o].elems.len() < idx
                invariant
                    o < self.objects@.len(),
                    DukContext::only_object_changed(&before, self, o as int),
                    self.threads == before.threads,
                    self.active == before.active,
                    self.objects@[o as int].props == before.objects@[o as int].props,
                    self.objects@[o as int].elems@.len() <= idx,
                    self.objects@[o as int].elems@.len() >= es.len(),
                    forall|k: int| 0 <= k < es.len() ==> #[trigger] self.objects@[o as int].elems@[k] == es[k],
                    forall|k: int| es.len() <= k < self.objects@[o as int].elems@.len() ==> #[trigger] self.objects@[o as int].elems@[k] == JsValue::Undefined,
                decreases idx - self.objects@[o as int].elems@.len(),
            {
                self.objects[o].elems.push(JsValue::Undefined);
            }
            self.objects[o].elems.push(v);
        }
        proof {
            assert forall|x: int| 0 <= x < self.objects@.len() implies self.valid_object(#[trigger] self.objects@[x]) by {
                if x != o {
                    assert(before.valid_object(before.objects@[x]));
                } else {
                    let ob = before.objects@[o as int];
                    assert(before.valid_object(ob));
                    assert forall|k: int| 0 <= k < self.objects@[x].elems@.len() implies self.valid_value(#[trigger] self.objects@[x].elems@[k]) by {
                        if k < es.len() && k != idx {
                            assert(before.valid_value(es[k]));
                        }
                    }
                    assert forall|k: int| 0 <= k < self.objects@[x].props@.len() implies self.valid_value(#[trigger] self.objects@[x].props@[k].value) by {
                        assert(before.valid_value(ob.props@[k].value));
                    }
                }
            }
            assert forall|x: int| 0 <= x < self.threads@.len() implies self.valid_thread(#[trigger] self.threads@[x]) by {
                assert(before.valid_thread(before.threads@[x]));
            }
        }
    }

    /// Pushes the element at position `index` of the object at `obj_index` (undefined where
    /// there is none, or where the value there is not an object) and tells whether it exists.
    pub fn get_prop_index(&mut self, obj_index: i32, index: u32) -> (r: bool)
        requires
            old(self).wf(),
            old(self).stack().len() < STACK_LIMIT,
        ensures
            final(self).wf(),
            old(self).same_but_stack(final(self)),
            ({
                let found: Option<JsValue> = match old(self).slot(obj_index) {
                    Some(JsValue::Object(o)) => if index < old(self).objects@[o as int].elems@.len() {
                        Some(old(self).objects@[o as int].elems@[index as int])
                    } else {
                        None
                    },
                    _ => None,
                };
                &&& r == found is Some
                &&& final(self).stack() == old(self).stack().push(
                    match found {
                        Some(v) => v,
                        None => JsValue::Undefined,
                    },
                )
            }),
    {
        let found = match self.get_value(obj_index) {
            Some(JsValue::Object(o)) => {
                proof {
                    assert(self.valid_object(self.objects@[o as int]));
                }
                if (index as usize) < self.objects[o].elems.len() {
                    Some(self.objects[o].elems[index as usize])
                } else {
                    None
                }
            },
            _ => None,
        };
        match found {
            Some(v) => {
                self.push_value(v);
                true
            },
            None => {
                self.push_value(JsValue::Undefined);
                false
            },
        }
    }
}


/// The text of a double's bits that are not an integer in `i64` range: `NaN`, `Infinity`,
/// `-Infinity`, and `[number]` for any other value (a fractional or very large number has no
/// decimal rendering here).
pub open spec fn bits_rendering(b: u64) -> Seq<char> {
    let exp = (b >> 52u64) & 0x7ffu64;
    let frac = b & 0xF_FFFF_FFFF_FFFFu64;
    if exp == 0x7ff && frac != 0 {
        seq!['N', 'a', 'N']
    } else if exp == 0x7ff && (b >> 63u64) == 0 {
        seq!['I', 'n', 'f', 'i', 'n', 'i', 't', 'y']
    } else if exp == 0x7ff {
        seq!['-', 'I', 'n', 'f', 'i', 'n', 'i', 't', 'y']
    } else {
        seq!['[', 'n', 'u', 'm', 'b', 'e', 'r', ']']
    }
}

/// How a value reads as text: a string as itself, `undefined`, `null`, `true`, `false`, an
/// integral number in decimal, other numbers as `bits_rendering` gives, a buffer as
/// `[object Buffer]`, and objects by kind as `[object Array]`, `[object Function]`,
/// `[object Thread]` or `[object Object]`.
pub open spec fn rendering(c: &DukContext, v: JsValue) -> Seq<char> {
    match v {
        JsValue::String(s) => c.strings@[s as int]@,
        JsValue::Undefined => seq!['u', 'n', 'd', 'e', 'f', 'i', 'n', 'e', 'd'],
        JsValue::Null => seq!['n', 'u', 'l', 'l'],
        JsValue::Boolean(true) => seq!['t', 'r', 'u', 'e'],
        JsValue::Boolean(false) => seq!['f', 'a', 'l', 's', 'e'],
        JsValue::Number(n) => match n.spec_as_i64() {
            Some(x) => signed_decimal(x as int),
            None => bits_rendering(n->Bits_0),
        },
        JsValue::Buffer(_) => seq!['[', 'o', 'b', 'j', 'e', 'c', 't', ' ', 'B', 'u', 'f', 'f', 'e', 'r', ']'],
        JsValue::Object(o) => match c.objects@[o as int].kind {
            ObjectKind::Array => seq!['[', 'o', 'b', 'j', 'e', 'c', 't', ' ', 'A', 'r', 'r', 'a', 'y', ']'],
            ObjectKind::Function(_, _) => seq!['[', 'o', 'b', 'j', 'e', 'c', 't', ' ', 'F', 'u', 'n', 'c', 't', 'i', 'o', 'n', ']'],
            ObjectKind::Thread(_) => seq!['[', 'o', 'b', 'j', 'e', 'c', 't', ' ', 'T', 'h', 'r', 'e', 'a', 'd', ']'],
            _ => seq!['[', 'o', 'b', 'j', 'e', 'c', 't', ' ', 'O', 'b', 'j', 'e', 'c', 't', ']'],
        },
    }
}

impl DukContext {
    /// The text of the value at `index`, as `rendering` gives it, copied out so that it
    /// outlives the value.
    pub fn safe_to_lstring(&self, index: i32) -> (r: String)
        requires
            self.wf(),
            self.slot(index) is Some,
        ensures
            r@ == rendering(self, self.slot(index)->0),
    {
        let v = self.get_value(index).unwrap();
        match v {
            JsValue::String(s) => self.strings[s].clone(),
            JsValue::Undefined => {
                proof {
                    reveal_strlit("undefined");
                }
                "undefined".to_owned()
            },
            JsValue::Null => {
                proof {
                    reveal_strlit("null");
                }
                "null".to_owned()
            },
            JsValue::Boolean(true) => {
                proof {
                    reveal_strlit("true");
                }
                "true".to_owned()
            },
            JsValue::Boolean(false) => {
                proof {
                    reveal_strlit("false");
                }
                "false".to_owned()
            },
            JsValue::Number(n) => match n.as_i64() {
                Some(x) => i64_decimal(x),
                None => {
                    let b = n.to_bits();
                    let exp = (b >> 52u64) & 0x7ffu64;
                    let frac = b & 0xF_FFFF_FFFF_FFFFu64;
                    if exp == 0x7ff && frac != 0 {
                proof {
                    reveal_strlit("NaN");
                }
                "NaN".to_owned()
            } else if exp == 0x7ff && (b >> 63u64) == 0 {
                proof {
                    reveal_strlit("Infinity");
                }
                "Infinity".to_owned()
            } else if exp == 0x7ff {
                proof {
                    reveal_strlit("-Infinity");
                }
                "-Infinity".to_owned()
            } else {
                proof {
                    reveal_strlit("[number]");
                }
                "[number]".to_owned()
            }
                }
            },
            JsValue::Buffer(_) => {
                proof {
                    reveal_strlit("[object Buffer]");
                }
                "[object Buffer]".to_owned()
            },
            JsValue::Object(o) => {
                proof {
                    assert(self.valid_value(v));
                }
                match self.objects[o].kind {
                    ObjectKind::Array => {
                proof {
                    reveal_strlit("[object Array]");
                }
                "[object Array]".to_owned()
            },
                    ObjectKind::Function(_, _) => {
                proof {
                    reveal_strlit("[object Function]");
                }
                "[object Function]".to_owned()
            },
                    ObjectKind::Thread(_) => {
                proof {
                    reveal_strlit("[object Thread]");
                }
                "[object Thread]".to_owned()
            },
                    _ => {
                proof {
                    reveal_strlit("[object Object]");
                }
                "[object Object]".to_owned()
            },
                }
            },
        }
    }

    /// Pops the object on top and makes it the global object of the current context.
    pub fn set_global_object(&mut self)
        requires
            old(self).wf(),
            old(self).stack().last() is Object,
            old(self).stack().len() >= 1,
        ensures
            final(self).wf(),
            old(self).same_heap(final(self)),
            final(self).active == old(self).active,
            final(self).threads@.len() == old(self).threads@.len(),
            forall|t: int| 0 <= t < old(self).threads@.len() && t != old(self).current() ==> #[trigger] final(self).threads@[t]
                == old(self).threads@[t],
            final(self).stack() == old(self).stack().drop_last(),
            final(self).threads@[old(self).current()].global == old(self).stack().last()->Object_0,
    {
        let o = match self.get_value(-1) {
            Some(JsValue::Object(o)) => o,
            _ => 0,
        };
        self.pop();
        let cur = self.current_thread();
        self.threads[cur].global = o;
        proof {
            assert(self.valid_thread(self.threads@[cur as int]));
            assert forall|x: int| 0 <= x < self.threads@.len() implies self.valid_thread(#[trigger] self.threads@[x]) by {}
        }
    }
}


impl DukContext {
    /// A short description of the current stack: `ctx: top=` and the number of values on it.
    pub fn get_stack_dump(&self) -> (r: String)
        requires
            self.wf(),
        ensures
            r@ == seq!['c', 't', 'x', ':', ' ', 't', 'o', 'p', '='] + decimal(self.stack().len() as nat),
    {
        let mut s = String::from_str("ctx: top=");
        proof {
            reveal_strlit("ctx: top=");
        }
        push_decimal(self.get_top() as u64, &mut s);
        s
    }
}


/// What an enumeration of object `target` walks, in order: each element position with its
/// value (the position as decimal text), then, unless only element positions are walked, each
/// named property with its value.
pub open spec fn enum_entries(c: &DukContext, target: usize, indices_only: bool) -> Seq<(Seq<char>, JsValue)> {
    let obj = c.objects@[target as int];
    let elems = Seq::new(obj.elems@.len(), |i: int| (decimal(i as nat), obj.elems@[i]));
    if indices_only {
        elems
    } else {
        elems + Seq::new(obj.props@.len(), |i: int| (obj.props@[i].key@, obj.props@[i].value))
    }
}

impl DukContext {
    fn push_enumerator(&mut self, obj_index: i32, indices_only: bool)
        requires
            old(self).wf(),
            old(self).slot(obj_index) matches Some(JsValue::Object(_)),
            old(self).stack().len() < STACK_LIMIT,
        ensures
            final(self).wf(),
            final(self).strings == old(self).strings,
            final(self).buffers == old(self).buffers,
            final(self).objects@.len() == old(self).objects@.len() + 1,
            final(self).objects@.drop_last() == old(self).objects@,
            final(self).objects@.last().kind == ObjectKind::Enumerator(
                old(self).slot(obj_index)->0->Object_0,
                0,
                indices_only,
            ),
            old(self).same_threads_but_stack(final(self)),
            final(self).stack() == old(self).stack().push(JsValue::Object(old(self).objects@.len() as usize)),
    {
        let target = match self.get_value(obj_index) {
            Some(JsValue::Object(o)) => o,
            _ => 0,
        };
        let e = self.new_object(
            JsObject { kind: ObjectKind::Enumerator(target, 0, indices_only), props: Vec::new(), elems: Vec::new() },
        );
        self.push_value(JsValue::Object(e));
        assert(self.objects@.drop_last() =~= old(self).objects@);
    }

    /// Pushes an enumerator over the element positions of the object at `obj_index`.
    pub fn enum_indices(&mut self, obj_index: i32)
        requires
            old(self).wf(),
            old(self).slot(obj_index) matches Some(JsValue::Object(_)),
            old(self).stack().len() < STACK_LIMIT,
        ensures
            final(self).wf(),
            final(self).strings == old(self).strings,
            final(self).buffers == old(self).buffers,
            final(self).objects@.len() == old(self).objects@.len() + 1,
            final(self).objects@.drop_last() == old(self).objects@,
            final(self).objects@.last().kind == ObjectKind::Enumerator(
                old(self).slot(obj_index)->0->Object_0,
                0,
                true,
            ),
            old(self).same_threads_but_stack(final(self)),
            final(self).stack() == old(self).stack().push(JsValue::Object(old(self).objects@.len() as usize)),
    {
        self.push_enumerator(obj_index, true);
    }

    /// Pushes an enumerator over the own properties of the object at `obj_index`: its element
    /// positions, then its named properties.
    pub fn enum_keys(&mut self, obj_index: i32)
        requires
            old(self).wf(),
            old(self).slot(obj_index) matches Some(JsValue::Object(_)),
            old(self).stack().len() < STACK_LIMIT,
        ensures
            final(self).wf(),
            final(self).strings == old(self).strings,
            final(self).buffers == old(self).buffers,
            final(self).objects@.len() == old(self).objects@.len() + 1,
            final(self).objects@.drop_last() == old(self).objects@,
            final(self).objects@.last().kind == ObjectKind::Enumerator(
                old(self).slot(obj_index)->0->Object_0,
                0,
                false,
            ),
            old(self).same_threads_but_stack(final(self)),
            final(self).stack() == old(self).stack().push(JsValue::Object(old(self).objects@.len() as usize)),
    {
        self.push_enumerator(obj_index, false);
    }

    /// Advances the enumerator at `enum_index`: where an entry remains (and its position is
    /// below `usize::MAX`), pushes its key (as a new string) and its value and returns true;
    /// otherwise pushes nothing and returns false.
    pub fn next(&mut self, enum_index: i32) -> (r: bool)
        requires
            old(self).wf(),
            old(self).kind_of(old(self).slot(enum_index)) matches Some(ObjectKind::Enumerator(_, _, _)),
            old(self).stack().len() + 2 <= STACK_LIMIT,
        ensures
            final(self).wf(),
            ({
                let e = old(self).slot(enum_index)->0->Object_0 as int;
                let (t, pos, only) = match old(self).objects@[e].kind {
                    ObjectKind::Enumerator(t, pos, only) => (t, pos, only),
                    _ => (0usize, 0usize, false),
                };
                let entries = enum_entries(old(self), t, only);
                if pos < entries.len() && pos < usize::MAX {
                    &&& r
                    &&& final(self).strings@.len() == old(self).strings@.len() + 1
                    &&& final(self).strings@.drop_last() == old(self).strings@
                    &&& final(self).strings@.last()@ == entries[pos as int].0
                    &&& final(self).buffers == old(self).buffers
                    &&& final(self).objects@.len() == old(self).objects@.len()
                    &&& forall|i: int| 0 <= i < old(self).objects@.len() && i != e ==> #[trigger] final(self).objects@[i]
                        == old(self).objects@[i]
                    &&& final(self).objects@[e].kind == ObjectKind::Enumerator(t, (pos + 1) as usize, only)
                    &&& old(self).same_threads_but_stack(final(self))
                    &&& final(self).stack() == old(self).stack().push(
                        JsValue::String(old(self).strings@.len() as usize),
                    ).push(entries[pos as int].1)
                } else {
                    !r && *final(self) == *old(self)
                }
            }),
    {
        let e = match self.get_value(enum_index) {
            Some(JsValue::Object(o)) => o,
            _ => 0,
        };
        proof {
            assert(self.valid_object(self.objects@[e as int]));
        }
        let (t, pos, only) = match self.objects[e].kind {
            ObjectKind::Enumerator(t, pos, only) => (t, pos, only),
            _ => (0usize, 0usize, false),
        };
        proof {
            assert(self.valid_object(self.objects@[t as int]));
        }
        let ghost entries = enum_entries(self, t, only);
        if pos == usize::MAX {
            return false;
        }
        let n_elems = self.objects[t].elems.len();
        let n_props = self.objects[t].props.len();
        let (key, value) = if pos < n_elems {
            let mut k = String::new();
            push_decimal(pos as u64, &mut k);
            (k, self.objects[t].elems[pos])
        } else if !only && pos - n_elems < n_props {
            let p = pos - n_elems;
            (self.objects[t].props[p].key.clone(), self.objects[t].props[p].value)
        } else {
            return false;
        };
        proof {
            assert(entries[pos as int].0 == key@);
            assert(entries[pos as int].1 == value);
            assert(self.valid_value(value));
        }
        let ghost before = *self;
        let id = self.new_string(key);
        self.objects[e].kind = ObjectKind::Enumerator(t, pos + 1, only);
        proof {
            assert(self.valid_object(self.objects@[e as int]));
            assert forall|x: int| 0 <= x < self.objects@.len() implies self.valid_object(#[trigger] self.objects@[x]) by {
                if x != e {
                    assert(before.valid_object(before.objects@[x]));
                }
            }
            assert forall|x: int| 0 <= x < self.threads@.len() implies self.valid_thread(#[trigger] self.threads@[x]) by {
                assert(before.valid_thread(before.threads@[x]));
            }
        }
        self.push_value(JsValue::String(id));
        self.push_value(value);
        true
    }
}


/// The value that reading property `key` of `target` finds: a string key names a property, an
/// integer key an element; anything else, or a target that is not an object, finds nothing.
pub open spec fn prop_lookup(c: &DukContext, target: Option<JsValue>, key: JsValue) -> Option<JsValue> {
    match target {
        Some(JsValue::Object(o)) => match key {
            JsValue::String(s) => match find_named(c.objects@[o as int].props@, c.strings@[s as int]@) {
                Some(j) => Some(c.objects@[o as int].props@[j].value),
                None => None,
            },
            JsValue::Number(JsNumber::Int(n)) => if 0 <= n < c.objects@[o as int].elems@.len() {
                Some(c.objects@[o as int].elems@[n as int])
            } else {
                None
            },
            _ => None,
        },
        _ => None,
    }
}

impl DukContext {
    /// The value that reading property `key` of `target` finds, as `prop_lookup` says.
    pub fn lookup_prop(&self, target: Option<JsValue>, key: JsValue) -> (r: Option<JsValue>)
        requires
            self.wf(),
            target matches Some(t) ==> self.valid_value(t),
            self.valid_value(key),
        ensures
            r == prop_lookup(self, target, key),
            r matches Some(v) ==> self.valid_value(v),
    {
        match target {
            Some(JsValue::Object(o)) => {
                proof {
                    assert(self.valid_object(self.objects@[o as int]));
                }
                match key {
                    JsValue::String(s) => self.get_named(o, self.strings[s].as_str()),
                    JsValue::Number(JsNumber::Int(n)) => {
                        if 0 <= n && (n as u64) < (self.objects[o].elems.len() as u64) {
                            Some(self.objects[o].elems[n as usize])
                        } else {
                            None
                        }
                    },
                    _ => None,
                }
            },
            _ => None,
        }
    }

    /// Replaces the key on top with the value of that property of the value at `obj_index`
    /// (undefined where there is none) and tells whether it was found.
    pub fn get_prop(&mut self, obj_index: i32) -> (r: bool)
        requires
            old(self).wf(),
            old(self).stack().len() >= 1,
        ensures
            final(self).wf(),
            old(self).same_but_stack(final(self)),
            ({
                let found = prop_lookup(old(self), old(self).slot(obj_index), old(self).stack().last());
                &&& r == found is Some
                &&& final(self).stack() == old(self).stack().drop_last().push(
                    match found {
                        Some(v) => v,
                        None => JsValue::Undefined,
                    },
                )
            }),
    {
        let key = self.get_value(-1).unwrap();
        let target = self.get_value(obj_index);
        let found = self.lookup_prop(target, key);
        self.pop();
        match found {
            Some(v) => {
                self.push_value(v);
                true
            },
            None => {
                self.push_value(JsValue::Undefined);
                false
            },
        }
    }

    /// Pops a key and a value (the value on top) and stores the value as that property of the
    /// object at `obj_index`, which lies below both: a string key names a property, an integer
    /// key from 0 to `u32::MAX` an element. Any other key stores nothing; the result tells
    /// whether something was stored.
    pub fn put_prop(&mut self, obj_index: i32) -> (r: bool)
        requires
            old(self).wf(),
            old(self).stack().len() >= 2,
            spec_normalize(old(self).stack().len() as int, obj_index) matches Some(p) && p < old(self).stack().len() - 2,
            old(self).slot(obj_index) matches Some(JsValue::Object(_)),
        ensures
            final(self).wf(),
            old(self).same_threads_but_stack(final(self)),
            final(self).stack() == old(self).stack().subrange(0, old(self).stack().len() - 2),
            ({
                let o = old(self).slot(obj_index)->0->Object_0 as int;
                let key = old(self).stack()[old(self).stack().len() - 2];
                let v = old(self).stack().last();
                match key {
                    JsValue::String(s) => r && named_set(old(self), final(self), o, old(self).strings@[s as int]@, v),
                    JsValue::Number(JsNumber::Int(n)) => if 0 <= n <= u32::MAX {
                        r && element_set(old(self), final(self), o, n as int, v)
                    } else {
                        !r && old(self).same_heap(final(self))
                    },
                    _ => !r && old(self).same_heap(final(self)),
                }
            }),
    {
        let o = match self.get_value(obj_index) {
            Some(JsValue::Object(o)) => o,
            _ => 0,
        };
        let key = self.get_value(-2).unwrap();
        let v = self.get_value(-1).unwrap();
        let ghost before = *self;
        let stored = match key {
            JsValue::String(s) => {
                let name = self.strings[s].clone();
                self.set_named(o, name.as_str(), v);
                true
            },
            JsValue::Number(JsNumber::Int(n)) => {
                if 0 <= n && n <= 0xffff_ffff {
                    self.set_element(o, n as usize, v);
                    true
                } else {
                    false
                }
            },
            _ => false,
        };
        proof {
            assert(self.stack() == before.stack());
        }
        self.pop_n(2);
        stored
    }
}


impl DukContext {
    /// Registers a host function as the property `func_name` of the object at `obj_index`,
    /// taking `nargs` arguments. The stack is left as it was.
    pub fn put_prop_function(&mut self, obj_index: i32, func_name: &str, nargs: i32)
        requires
            old(self).wf(),
            old(self).stack().len() < STACK_LIMIT,
            old(self).slot(obj_index) matches Some(JsValue::Object(_)),
        ensures
            final(self).wf(),
            final(self).stack() == old(self).stack(),
            final(self).active == old(self).active,
            final(self).strings@.len() == old(self).strings@.len() + 1,
            final(self).strings@.last()@ == func_name@,
            final(self).objects@.len() == old(self).objects@.len() + 1,
            final(self).objects@.last().kind == ObjectKind::Function(old(self).strings@.len() as usize, nargs),
            ({
                let o = old(self).slot(obj_index)->0->Object_0 as int;
                &&& forall|i: int| 0 <= i < old(self).objects@.len() && i != o ==> #[trigger] final(self).objects@[i]
                    == old(self).objects@[i]
                &&& props_set(
                    old(self).objects@[o].props@,
                    final(self).objects@[o].props@,
                    func_name@,
                    JsValue::Object(old(self).objects@.len() as usize),
                )
            }),
    {
        let pos = self.normalize_index(obj_index).unwrap();
        self.push_function(func_name, nargs);
        let ghost mid = *self;
        proof {
            assert(mid.stack()[pos as int] == old(self).stack()[pos as int]);
        }
        self.put_prop_string(pos as i32, func_name);
        proof {
            assert(self.stack() =~= old(self).stack());
        }
    }
}

} // verus!

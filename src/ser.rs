use vstd::prelude::*;
use crate::ctx::{DukContext, JsObject, JsValue, ObjectKind, Prop, STACK_LIMIT};
use crate::error::JsError;
use crate::host::{Host, HostValue};
use crate::number::JsNumber;
use crate::text::{char_string, decimal, i64_decimal, push_decimal, signed_decimal};
use vstd::string::StringExecFns;

verus! {

broadcast use vstd::std_specs::vec::group_vec_axioms;

/// Whether `b` holds every string, buffer and object of `a` unchanged, perhaps with more after.
pub open spec fn extends(a: &DukContext, b: &DukContext) -> bool {
    &&& a.strings@.len() <= b.strings@.len()
    &&& a.buffers@.len() <= b.buffers@.len()
    &&& a.objects@.len() <= b.objects@.len()
    &&& forall|i: int| 0 <= i < a.strings@.len() ==> #[trigger] b.strings@[i] == a.strings@[i]
    &&& forall|i: int| 0 <= i < a.buffers@.len() ==> #[trigger] b.buffers@[i] == a.buffers@[i]
    &&& forall|i: int| 0 <= i < a.objects@.len() ==> #[trigger] b.objects@[i] == a.objects@[i]
}

/// Whether the value `v` encodes the host value `m` in the heap of `c`: scalars as the matching
/// primitive, strings and one-character strings as heap strings, byte buffers as buffers, absent
/// options and unit as null, a present option as its payload, sequences as arrays, maps and
/// structs as plain objects with one property per entry in order, a unit variant as its name,
/// and any other variant as an object with the variant's name as its only property.
pub open spec fn denotes(c: &DukContext, v: JsValue, m: Host) -> bool
    decreases m,
{
    match m {
        Host::Unit => v == JsValue::Null,
        Host::Absent => v == JsValue::Null,
        Host::Bool(b) => v == JsValue::Boolean(b),
        Host::I64(n) => v == JsValue::Number(JsNumber::Int(n)),
        Host::U64(n) => v == JsValue::Number(JsNumber::spec_from_u64(n)),
        Host::F64(b) => v == JsValue::Number(JsNumber::Bits(b)),
        Host::Char(ch) => v matches JsValue::String(i) && i < c.strings@.len() && c.strings@[i as int]@
            == seq![ch],
        Host::Str(s) => v matches JsValue::String(i) && i < c.strings@.len() && c.strings@[i as int]@
            == s,
        Host::Bytes(b) => v matches JsValue::Buffer(i) && i < c.buffers@.len() && c.buffers@[i as int]@
            == b,
        Host::Present(x) => denotes(c, v, *x),
        Host::List(items) => v matches JsValue::Object(o) && o < c.objects@.len()
            && c.objects@[o as int].kind == ObjectKind::Array && denotes_elems(
            c,
            c.objects@[o as int].elems@,
            items,
        ),
        Host::Record(entries) => v matches JsValue::Object(o) && o < c.objects@.len()
            && c.objects@[o as int].kind == ObjectKind::Plain && denotes_props(
            c,
            c.objects@[o as int].props@,
            entries,
        ),
        Host::UnitVariant(n) => v matches JsValue::String(i) && i < c.strings@.len()
            && c.strings@[i as int]@ == n,
        Host::Variant(n, x) => v matches JsValue::Object(o) && o < c.objects@.len() && {
            let obj = c.objects@[o as int];
            &&& obj.kind == ObjectKind::Plain
            &&& obj.props@.len() == 1
            &&& obj.props@[0].key@ == n
            &&& denotes(c, obj.props@[0].value, *x)
        },
    }
}

/// Whether each of `vs` encodes the item of `items` at its position.
pub open spec fn denotes_elems(c: &DukContext, vs: Seq<JsValue>, items: Seq<Host>) -> bool
    decreases items,
{
    &&& vs.len() == items.len()
    &&& items.len() > 0 ==> {
        &&& denotes_elems(c, vs.drop_last(), items.drop_last())
        &&& denotes(c, vs.last(), items.last())
    }
}

/// Whether each of `ps` carries the name of the entry of `entries` at its position and a value
/// that encodes the entry's value.
pub open spec fn denotes_props(c: &DukContext, ps: Seq<Prop>, entries: Seq<(Seq<char>, Host)>) -> bool
    decreases entries,
{
    &&& ps.len() == entries.len()
    &&& entries.len() > 0 ==> {
        &&& denotes_props(c, ps.drop_last(), entries.drop_last())
        &&& ps.last().key@ == entries.last().0
        &&& denotes(c, ps.last().value, entries.last().1)
    }
}

/// What a value encodes is kept when the heap only grows.
pub proof fn lemma_denotes_extends(a: &DukContext, b: &DukContext, v: JsValue, m: Host)
    requires
        denotes(a, v, m),
        extends(a, b),
    ensures
        denotes(b, v, m),
    decreases m,
{
    match m {
        Host::Present(x) => {
            lemma_denotes_extends(a, b, v, *x);
        },
        Host::List(items) => {
            let o = v->Object_0 as int;
            lemma_elems_extends(a, b, a.objects@[o].elems@, items);
        },
        Host::Record(entries) => {
            let o = v->Object_0 as int;
            lemma_props_extends(a, b, a.objects@[o].props@, entries);
        },
        Host::Variant(n, x) => {
            let o = v->Object_0 as int;
            lemma_denotes_extends(a, b, a.objects@[o].props@[0].value, *x);
        },
        _ => {},
    }
}

pub proof fn lemma_elems_extends(a: &DukContext, b: &DukContext, vs: Seq<JsValue>, items: Seq<Host>)
    requires
        denotes_elems(a, vs, items),
        extends(a, b),
    ensures
        denotes_elems(b, vs, items),
    decreases items,
{
    if items.len() > 0 {
        lemma_elems_extends(a, b, vs.drop_last(), items.drop_last());
        lemma_denotes_extends(a, b, vs.last(), items.last());
    }
}

pub proof fn lemma_props_extends(
    a: &DukContext,
    b: &DukContext,
    ps: Seq<Prop>,
    entries: Seq<(Seq<char>, Host)>,
)
    requires
        denotes_props(a, ps, entries),
        extends(a, b),
    ensures
        denotes_props(b, ps, entries),
    decreases entries,
{
    if entries.len() > 0 {
        lemma_props_extends(a, b, ps.drop_last(), entries.drop_last());
        lemma_denotes_extends(a, b, ps.last().value, entries.last().1);
    }
}

impl DukContext {
    /// Builds the encoding of `v` in the heap and returns the value that stands for it; no
    /// stack changes, and nothing already in the heap changes. Every entry of a record becomes
    /// one property, in order, even where two entries share a name.
    pub fn encode_value(&mut self, v: &HostValue) -> (r: JsValue)
        requires
            old(self).wf(),
        ensures
            final(self).wf(),
            extends(old(self), final(self)),
            final(self).threads == old(self).threads,
            final(self).active == old(self).active,
            final(self).valid_value(r),
            denotes(final(self), r, v.model()),
        decreases v,
    {
        match v {
            HostValue::Unit => JsValue::Null,
            HostValue::Absent => JsValue::Null,
            HostValue::Bool(b) => JsValue::Boolean(*b),
            HostValue::I64(n) => JsValue::Number(JsNumber::Int(*n)),
            HostValue::U64(n) => JsValue::Number(JsNumber::from_u64(*n)),
            HostValue::F64(b) => JsValue::Number(JsNumber::Bits(*b)),
            HostValue::Char(c) => {
                let s = char_string(*c);
                JsValue::String(self.new_string(s))
            },
            HostValue::Str(s) => JsValue::String(self.new_string(s.clone())),
            HostValue::UnitVariant(n) => JsValue::String(self.new_string(n.clone())),
            HostValue::Bytes(b) => JsValue::Buffer(self.new_buffer(b.as_slice())),
            HostValue::Present(x) => self.encode_value(x),
            HostValue::List(items) => {
                let ghost start = *self;
                let ghost mitems = v.model()->List_0;
                let mut elems: Vec<JsValue> = Vec::new();
                let mut i: usize = 0;
                while i < items.len()
                    invariant
                        self.wf(),
                        extends(&start, self),
                        self.threads == start.threads,
                        self.active == start.active,
                        *v == HostValue::List(*items),
                        mitems == v.model()->List_0,
                        mitems.len() == items.len(),
                        forall|k: int| 0 <= k < items.len() ==> #[trigger] mitems[k] == items[k].model(),
                        i <= items.len(),
                        forall|k: int| 0 <= k < elems@.len() ==> self.valid_value(#[trigger] elems@[k]),
                        denotes_elems(self, elems@, mitems.take(i as int)),
                    decreases items.len() - i,
                {
                    let ghost before = *self;
                    let ghost prev = elems@;
                    proof {
                        assert(*v == HostValue::List(*items));
                        assert(decreases_to!(*v => *items));
                        assert(decreases_to!(*items => items[i as int]));
                    }
                    let e = self.encode_value(&items[i]);
                    proof {
                        lemma_elems_extends(&before, self, elems@, mitems.take(i as int));
                    }
                    elems.push(e);
                    i = i + 1;
                    proof {
                        assert(mitems.take(i as int).drop_last() =~= mitems.take(i - 1));
                        assert(elems@.drop_last() =~= prev);
                        assert(mitems.take(i as int).last() == mitems[i - 1]);
                    }
                }
                assert(mitems.take(i as int) =~= mitems);
                let ghost before = *self;
                let o = self.new_object(JsObject { kind: ObjectKind::Array, props: Vec::new(), elems });
                proof {
                    lemma_elems_extends(&before, self, elems@, mitems);
                }
                JsValue::Object(o)
            },
            HostValue::Record(entries) => {
                let ghost start = *self;
                let ghost ments = v.model()->Record_0;
                let mut props: Vec<Prop> = Vec::new();
                let mut i: usize = 0;
                while i < entries.len()
                    invariant
                        self.wf(),
                        extends(&start, self),
                        self.threads == start.threads,
                        self.active == start.active,
                        *v == HostValue::Record(*entries),
                        ments == v.model()->Record_0,
                        ments.len() == entries.len(),
                        forall|k: int| 0 <= k < entries.len() ==> #[trigger] ments[k] == (entries[k].0@, entries[k].1.model()),
                        i <= entries.len(),
                        forall|k: int| 0 <= k < props@.len() ==> self.valid_value(#[trigger] props@[k].value),
                        denotes_props(self, props@, ments.take(i as int)),
                    decreases entries.len() - i,
                {
                    let ghost before = *self;
                    let ghost prev = props@;
                    proof {
                        assert(*v == HostValue::Record(*entries));
                        assert(decreases_to!(*v => *entries));
                        assert(decreases_to!(*entries => entries[i as int]));
                        assert(decreases_to!(entries[i as int] => entries[i as int].1));
                    }
                    let e = self.encode_value(&entries[i].1);
                    proof {
                        lemma_props_extends(&before, self, props@, ments.take(i as int));
                    }
                    props.push(Prop { key: entries[i].0.clone(), value: e });
                    i = i + 1;
                    proof {
                        assert(ments.take(i as int).drop_last() =~= ments.take(i - 1));
                        assert(props@.drop_last() =~= prev);
                        assert(ments.take(i as int).last() == ments[i - 1]);
                    }
                }
                assert(ments.take(i as int) =~= ments);
                let ghost before = *self;
                let o = self.new_object(JsObject { kind: ObjectKind::Plain, props, elems: Vec::new() });
                proof {
                    lemma_props_extends(&before, self, props@, ments);
                }
                JsValue::Object(o)
            },
            HostValue::Variant(n, x) => {
                let e = self.encode_value(x);
                let mut props: Vec<Prop> = Vec::new();
                props.push(Prop { key: n.clone(), value: e });
                let ghost before = *self;
                let o = self.new_object(JsObject { kind: ObjectKind::Plain, props, elems: Vec::new() });
                proof {
                    lemma_denotes_extends(&before, self, e, x.model());
                }
                JsValue::Object(o)
            },
        }
    }

    /// Encodes `v` and pushes the one value that stands for it: the stack grows by exactly that
    /// value, and nothing already in the heap changes.
    pub fn push_host(&mut self, v: &HostValue)
        requires
            old(self).wf(),
            old(self).stack().len() < STACK_LIMIT,
        ensures
            final(self).wf(),
            extends(old(self), final(self)),
            old(self).same_threads_but_stack(final(self)),
            final(self).stack().len() == old(self).stack().len() + 1,
            final(self).stack().drop_last() == old(self).stack(),
            denotes(final(self), final(self).stack().last(), v.model()),
    {
        let ghost start = *self;
        let e = self.encode_value(v);
        let ghost mid = *self;
        proof {
            assert(forall|t: int| 0 <= t < mid.threads@.len() ==> #[trigger] mid.threads@[t] == start.threads@[t]);
            assert(mid.stack() == start.stack());
        }
        self.push_value(e);
        proof {
            lemma_denotes_extends(&mid, self, e, v.model());
        }
        assert(self.stack().drop_last() =~= start.stack());
    }
}

/// The property name a map key stands for: a string or a unit variant as itself, a char as a
/// one-character string, an integer in decimal, a boolean as `true` or `false`; other keys
/// name no property.
pub open spec fn property_name_of(k: Host) -> Option<Seq<char>> {
    match k {
        Host::Str(s) => Some(s),
        Host::UnitVariant(s) => Some(s),
        Host::Char(c) => Some(seq![c]),
        Host::I64(n) => Some(signed_decimal(n as int)),
        Host::U64(n) => Some(decimal(n as nat)),
        Host::Bool(true) => Some(seq!['t', 'r', 'u', 'e']),
        Host::Bool(false) => Some(seq!['f', 'a', 'l', 's', 'e']),
        _ => None,
    }
}

/// The property name that the map key `key` stands for, as `property_name_of` says.
pub fn property_name(key: &HostValue) -> (r: Option<String>)
    ensures
        match property_name_of(key.model()) {
            Some(t) => r matches Some(x) && x@ == t,
            None => r is None,
        },
{
    match key {
        HostValue::Str(s) => Some(s.clone()),
        HostValue::UnitVariant(s) => Some(s.clone()),
        HostValue::Char(c) => Some(char_string(*c)),
        HostValue::I64(n) => Some(i64_decimal(*n)),
        HostValue::U64(n) => {
            let mut t = String::new();
            push_decimal(*n, &mut t);
            Some(t)
        },
        HostValue::Bool(true) => {
            proof {
                reveal_strlit("true");
            }
            Some(String::from_str("true"))
        },
        HostValue::Bool(false) => {
            proof {
                reveal_strlit("false");
            }
            Some(String::from_str("false"))
        },
        _ => None,
    }
}

} // verus!

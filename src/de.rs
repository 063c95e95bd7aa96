use vstd::prelude::*;
use crate::ctx::{DukContext, JsValue, ObjectKind, Prop};
use crate::error::JsError;
use vstd::string::StrSliceExecFns;
use crate::host::{
    Host, HostValue, Shape, conforms, conforms_elems, conforms_fields, conforms_tuple, conforms_values,
    distinct_keys, find_variant, nullish, ANY_DEPTH,
};
use crate::ser::{denotes, denotes_elems, denotes_props};

verus! {

broadcast use vstd::std_specs::vec::group_vec_axioms;

/// Position of the first property named `k`.
pub open spec fn find_prop(ps: Seq<Prop>, k: Seq<char>) -> Option<int>
    decreases ps.len(),
{
    if ps.len() == 0 {
        None
    } else {
        match find_prop(ps.drop_last(), k) {
            Some(j) => Some(j),
            None => if ps.last().key@ == k {
                Some(ps.len() - 1)
            } else {
                None
            },
        }
    }
}

/// The host value of shape `s` that the value `v` stands for in the heap of `c`, or `None` where
/// `v` has no such reading. Null and undefined read as unit or an absent option; a number reads
/// as an integer only where it is integral and in range, and as a float always; a string of one
/// character reads as a char; arrays read as sequences and tuples; plain objects read as maps,
/// as structs (fields looked up by name, a missing optional field reading as absent), and as a
/// variant where they hold exactly one property; a string reads as a unit variant.
pub open spec fn decode(c: &DukContext, v: JsValue, s: Shape) -> Option<Host>
    decreases s, 0nat,
{
    match s {
        Shape::Any => decode_any(c, v, ANY_DEPTH as nat),
        Shape::Unit => if v is Undefined || v is Null {
            Some(Host::Unit)
        } else {
            None
        },
        Shape::Bool => match v {
            JsValue::Boolean(b) => Some(Host::Bool(b)),
            _ => None,
        },
        Shape::I64 => match v {
            JsValue::Number(n) => match n.spec_as_i64() {
                Some(x) => Some(Host::I64(x)),
                None => None,
            },
            _ => None,
        },
        Shape::U64 => match v {
            JsValue::Number(n) => match n.spec_as_u64() {
                Some(x) => Some(Host::U64(x)),
                None => None,
            },
            _ => None,
        },
        Shape::F64 => match v {
            JsValue::Number(n) => Some(Host::F64(n.spec_bits())),
            _ => None,
        },
        Shape::Char => match v {
            JsValue::String(i) => if c.strings@[i as int]@.len() == 1 {
                Some(Host::Char(c.strings@[i as int]@[0]))
            } else {
                None
            },
            _ => None,
        },
        Shape::Str => match v {
            JsValue::String(i) => Some(Host::Str(c.strings@[i as int]@)),
            _ => None,
        },
        Shape::Bytes => match v {
            JsValue::Buffer(i) => Some(Host::Bytes(c.buffers@[i as int]@)),
            _ => None,
        },
        Shape::Optional(inner) => if v is Undefined || v is Null {
            Some(Host::Absent)
        } else {
            match decode(c, v, *inner) {
                Some(x) => Some(Host::Present(Box::new(x))),
                None => None,
            }
        },
        Shape::List(es) => match v {
            JsValue::Object(o) => if c.objects@[o as int].kind == ObjectKind::Array {
                match decode_elems(c, c.objects@[o as int].elems@, *es) {
                    Some(xs) => Some(Host::List(xs)),
                    None => None,
                }
            } else {
                None
            },
            _ => None,
        },
        Shape::Tuple(ss) => match v {
            JsValue::Object(o) => if c.objects@[o as int].kind == ObjectKind::Array {
                match decode_tuple(c, c.objects@[o as int].elems@, ss@) {
                    Some(xs) => Some(Host::List(xs)),
                    None => None,
                }
            } else {
                None
            },
            _ => None,
        },
        Shape::Dict(vs) => match v {
            JsValue::Object(o) => if c.objects@[o as int].kind == ObjectKind::Plain {
                match decode_props(c, c.objects@[o as int].props@, *vs) {
                    Some(es) => Some(Host::Record(es)),
                    None => None,
                }
            } else {
                None
            },
            _ => None,
        },
        Shape::Struct(fs) => match v {
            JsValue::Object(o) => if c.objects@[o as int].kind == ObjectKind::Plain {
                match decode_fields(c, c.objects@[o as int].props@, fs@) {
                    Some(es) => Some(Host::Record(es)),
                    None => None,
                }
            } else {
                None
            },
            _ => None,
        },
        Shape::Enum(vars) => match v {
            JsValue::String(i) => match find_variant(vars@, c.strings@[i as int]@) {
                Some(k) => if 0 <= k < vars.len() && vars[k].1 is None {
                    Some(Host::UnitVariant(c.strings@[i as int]@))
                } else {
                    None
                },
                None => None,
            },
            JsValue::Object(o) => {
                let obj = c.objects@[o as int];
                if obj.kind == ObjectKind::Plain && obj.props@.len() == 1 {
                    let name = obj.props@[0].key@;
                    match find_variant(vars@, name) {
                        Some(k) => if 0 <= k < vars.len() {
                            match vars[k].1 {
                                Some(ps) => match decode(c, obj.props@[0].value, ps) {
                                    Some(x) => Some(Host::Variant(name, Box::new(x))),
                                    None => None,
                                },
                                None => None,
                            }
                        } else {
                            None
                        },
                        None => None,
                    }
                } else {
                    None
                }
            },
            _ => None,
        },
    }
}

/// The self-describing reading of `v`, descending at most `depth` levels into arrays and
/// plain objects: null and undefined read as absent, a number as `I64` where it is integral
/// and in range and as `F64` otherwise, strings, buffers and booleans as themselves, arrays as
/// lists and plain objects as records; functions and threads have no reading.
pub open spec fn decode_any(c: &DukContext, v: JsValue, depth: nat) -> Option<Host>
    decreases depth, 0nat,
{
    match v {
        JsValue::Undefined => Some(Host::Absent),
        JsValue::Null => Some(Host::Absent),
        JsValue::Boolean(b) => Some(Host::Bool(b)),
        JsValue::Number(n) => match n.spec_as_i64() {
            Some(x) => Some(Host::I64(x)),
            None => Some(Host::F64(n.spec_bits())),
        },
        JsValue::String(i) => Some(Host::Str(c.strings@[i as int]@)),
        JsValue::Buffer(i) => Some(Host::Bytes(c.buffers@[i as int]@)),
        JsValue::Object(o) => if depth == 0 {
            None
        } else if c.objects@[o as int].kind == ObjectKind::Array {
            match decode_any_elems(c, c.objects@[o as int].elems@, (depth - 1) as nat) {
                Some(xs) => Some(Host::List(xs)),
                None => None,
            }
        } else if c.objects@[o as int].kind == ObjectKind::Plain {
            match decode_any_props(c, c.objects@[o as int].props@, (depth - 1) as nat) {
                Some(es) => Some(Host::Record(es)),
                None => None,
            }
        } else {
            None
        },
    }
}

pub open spec fn decode_any_elems(c: &DukContext, vs: Seq<JsValue>, depth: nat) -> Option<Seq<Host>>
    decreases depth, vs.len(),
{
    if vs.len() == 0 {
        Some(Seq::empty())
    } else {
        match decode_any_elems(c, vs.drop_last(), depth) {
            Some(xs) => match decode_any(c, vs.last(), depth) {
                Some(x) => Some(xs.push(x)),
                None => None,
            },
            None => None,
        }
    }
}

pub open spec fn decode_any_props(c: &DukContext, ps: Seq<Prop>, depth: nat) -> Option<Seq<(Seq<char>, Host)>>
    decreases depth, ps.len(),
{
    if ps.len() == 0 {
        Some(Seq::empty())
    } else {
        match decode_any_props(c, ps.drop_last(), depth) {
            Some(es) => match decode_any(c, ps.last().value, depth) {
                Some(x) => Some(es.push((ps.last().key@, x))),
                None => None,
            },
            None => None,
        }
    }
}

/// Reading of every element with the one shape `es`.
pub open spec fn decode_elems(c: &DukContext, vs: Seq<JsValue>, es: Shape) -> Option<Seq<Host>>
    decreases es, vs.len(),
{
    if vs.len() == 0 {
        Some(Seq::empty())
    } else {
        match decode_elems(c, vs.drop_last(), es) {
            Some(xs) => match decode(c, vs.last(), es) {
                Some(x) => Some(xs.push(x)),
                None => None,
            },
            None => None,
        }
    }
}

/// Reading of exactly as many elements as there are shapes, each with its own.
pub open spec fn decode_tuple(c: &DukContext, vs: Seq<JsValue>, ss: Seq<Shape>) -> Option<Seq<Host>>
    decreases ss, 0nat,
{
    if vs.len() != ss.len() {
        None
    } else if ss.len() == 0 {
        Some(Seq::empty())
    } else {
        match decode_tuple(c, vs.drop_last(), ss.drop_last()) {
            Some(xs) => match decode(c, vs.last(), ss.last()) {
                Some(x) => Some(xs.push(x)),
                None => None,
            },
            None => None,
        }
    }
}

/// Reading of every property, in order, with the one value shape `vs`.
pub open spec fn decode_props(c: &DukContext, ps: Seq<Prop>, vs: Shape) -> Option<Seq<(Seq<char>, Host)>>
    decreases vs, ps.len(),
{
    if ps.len() == 0 {
        Some(Seq::empty())
    } else {
        match decode_props(c, ps.drop_last(), vs) {
            Some(es) => match decode(c, ps.last().value, vs) {
                Some(x) => Some(es.push((ps.last().key@, x))),
                None => None,
            },
            None => None,
        }
    }
}

/// Reading of each field of a struct, in declaration order, from the property of its name.
pub open spec fn decode_fields(c: &DukContext, ps: Seq<Prop>, fs: Seq<(String, Shape)>) -> Option<
    Seq<(Seq<char>, Host)>,
>
    decreases fs, 0nat,
{
    if fs.len() == 0 {
        Some(Seq::empty())
    } else {
        match decode_fields(c, ps, fs.drop_last()) {
            Some(es) => {
                let name = fs.last().0@;
                match find_prop(ps, name) {
                    Some(j) => if 0 <= j < ps.len() {
                        match decode(c, ps[j].value, fs.last().1) {
                            Some(x) => Some(es.push((name, x))),
                            None => None,
                        }
                    } else {
                        None
                    },
                    None => if fs.last().1 is Optional {
                        Some(es.push((name, Host::Absent)))
                    } else {
                        None
                    },
                }
            },
            None => None,
        }
    }
}

/// What `find_prop` returns: the first position holding the name, or none where no
/// property has it.
pub proof fn lemma_find_prop(ps: Seq<Prop>, k: Seq<char>)
    ensures
        find_prop(ps, k) matches Some(j) ==> 0 <= j < ps.len() && ps[j].key@ == k && forall|a: int|
            0 <= a < j ==> #[trigger] ps[a].key@ != k,
        find_prop(ps, k) is None ==> forall|a: int| 0 <= a < ps.len() ==> #[trigger] ps[a].key@ != k,
    decreases ps.len(),
{
    if ps.len() > 0 {
        let init = ps.drop_last();
        lemma_find_prop(init, k);
        assert forall|a: int| 0 <= a < ps.len() - 1 implies #[trigger] ps[a] == init[a] by {}
        match find_prop(init, k) {
            Some(j) => {
                assert(find_prop(ps, k) == Some(j));
            },
            None => {
                if ps.last().key@ == k {
                    assert(find_prop(ps, k) == Some(ps.len() - 1));
                } else {
                    assert(find_prop(ps, k) is None);
                }
            },
        }
    }
}

/// Reading what `denotes_props` relates, position by position.
pub proof fn lemma_props_index(c: &DukContext, ps: Seq<Prop>, entries: Seq<(Seq<char>, Host)>)
    requires
        denotes_props(c, ps, entries),
    ensures
        ps.len() == entries.len(),
        forall|i: int| 0 <= i < ps.len() ==> (#[trigger] ps[i]).key@ == entries[i].0 && denotes(c, ps[i].value, entries[i].1),
    decreases entries,
{
    if entries.len() > 0 {
        lemma_props_index(c, ps.drop_last(), entries.drop_last());
        assert forall|i: int| 0 <= i < ps.len() implies (#[trigger] ps[i]).key@ == entries[i].0 && denotes(c, ps[i].value, entries[i].1) by {
            if i < ps.len() - 1 {
                assert(ps[i] == ps.drop_last()[i]);
                assert(entries[i] == entries.drop_last()[i]);
            }
        }
    }
}

/// A value of a shape that is not encoded as null is not encoded as null or undefined.
pub proof fn lemma_not_null(c: &DukContext, v: JsValue, x: Host, s: Shape)
    requires
        denotes(c, v, x),
        conforms(x, s),
        !nullish(s),
    ensures
        !(v is Null),
        !(v is Undefined),
{
}

/// Decoding what was encoded, with a shape that the value conforms to, gives the value back.
/// Floats come back bit for bit (NaN included). Integers come back exactly for every `i64` and
/// every `u64` up to `i64::MAX` (`conforms` bounds the latter), a wider range than the 2^53 a
/// double-only runtime keeps exactly.
pub proof fn lemma_round_trip(c: &DukContext, v: JsValue, m: Host, s: Shape)
    requires
        denotes(c, v, m),
        conforms(m, s),
    ensures
        decode(c, v, s) == Some(m),
    decreases s, 0nat,
{
    match s {
        Shape::Char => {
            let i = v->String_0 as int;
            assert(c.strings@[i]@ == seq![m->Char_0]);
        },
        Shape::Optional(inner) => {
            if m is Present {
                let x = *(m->Present_0);
                lemma_not_null(c, v, x, *inner);
                lemma_round_trip(c, v, x, *inner);
            }
        },
        Shape::List(es) => {
            let o = v->Object_0 as int;
            lemma_elems_round_trip(c, c.objects@[o].elems@, m->List_0, *es);
        },
        Shape::Tuple(ss) => {
            let o = v->Object_0 as int;
            lemma_tuple_round_trip(c, c.objects@[o].elems@, m->List_0, ss@);
        },
        Shape::Dict(vs) => {
            let o = v->Object_0 as int;
            lemma_props_round_trip(c, c.objects@[o].props@, m->Record_0, *vs);
        },
        Shape::Struct(fs) => {
            let o = v->Object_0 as int;
            let ps = c.objects@[o].props@;
            let entries = m->Record_0;
            lemma_props_index(c, ps, entries);
            assert(conforms_fields(entries, fs@));
            assert(entries.len() == fs@.len());
            assert(entries.take(fs@.len() as int) =~= entries);
            lemma_fields_round_trip(c, ps, entries, entries, fs@);
        },
        Shape::Enum(vars) => {
            if m is Variant {
                let o = v->Object_0 as int;
                let obj = c.objects@[o];
                let k = find_variant(vars@, m->Variant_0)->0;
                lemma_round_trip(c, obj.props@[0].value, *(m->Variant_1), vars[k].1->0);
            }
        },
        _ => {},
    }
}

pub proof fn lemma_elems_round_trip(c: &DukContext, vs: Seq<JsValue>, items: Seq<Host>, es: Shape)
    requires
        denotes_elems(c, vs, items),
        conforms_elems(items, es),
    ensures
        decode_elems(c, vs, es) == Some(items),
    decreases es, vs.len(),
{
    if vs.len() > 0 {
        lemma_elems_round_trip(c, vs.drop_last(), items.drop_last(), es);
        lemma_round_trip(c, vs.last(), items.last(), es);
        assert(items.drop_last().push(items.last()) =~= items);
    }
}

pub proof fn lemma_tuple_round_trip(c: &DukContext, vs: Seq<JsValue>, items: Seq<Host>, ss: Seq<Shape>)
    requires
        denotes_elems(c, vs, items),
        conforms_tuple(items, ss),
    ensures
        decode_tuple(c, vs, ss) == Some(items),
    decreases ss, 0nat,
{
    if ss.len() > 0 {
        lemma_tuple_round_trip(c, vs.drop_last(), items.drop_last(), ss.drop_last());
        lemma_round_trip(c, vs.last(), items.last(), ss.last());
        assert(items.drop_last().push(items.last()) =~= items);
    }
}

pub proof fn lemma_props_round_trip(
    c: &DukContext,
    ps: Seq<Prop>,
    entries: Seq<(Seq<char>, Host)>,
    vs: Shape,
)
    requires
        denotes_props(c, ps, entries),
        conforms_values(entries, vs),
    ensures
        decode_props(c, ps, vs) == Some(entries),
    decreases vs, ps.len(),
{
    if ps.len() > 0 {
        lemma_props_round_trip(c, ps.drop_last(), entries.drop_last(), vs);
        lemma_round_trip(c, ps.last().value, entries.last().1, vs);
        assert(entries.drop_last().push((ps.last().key@, entries.last().1)) =~= entries);
    }
}

pub proof fn lemma_fields_round_trip(
    c: &DukContext,
    ps: Seq<Prop>,
    all: Seq<(Seq<char>, Host)>,
    entries: Seq<(Seq<char>, Host)>,
    fs: Seq<(String, Shape)>,
)
    requires
        ps.len() == all.len(),
        forall|i: int| 0 <= i < ps.len() ==> (#[trigger] ps[i]).key@ == all[i].0 && denotes(c, ps[i].value, all[i].1),
        distinct_keys(all),
        fs.len() <= all.len(),
        entries == all.take(fs.len() as int),
        conforms_fields(entries, fs),
    ensures
        decode_fields(c, ps, fs) == Some(entries),
    decreases fs, 0nat,
{
    if fs.len() > 0 {
        let j = fs.len() - 1;
        assert(entries.drop_last() =~= all.take(j));
        lemma_fields_round_trip(c, ps, all, entries.drop_last(), fs.drop_last());
        let name = fs.last().0@;
        assert(name == all[j].0);
        lemma_find_prop(ps, name);
        match find_prop(ps, name) {
            Some(f) => {
                assert(all[f].0 == all[j].0);
            },
            None => {
                assert(ps[j].key@ == name);
            },
        }
        lemma_round_trip(c, ps[j].value, all[j].1, fs.last().1);
        assert(entries.drop_last().push((name, all[j].1)) =~= entries);
    }
}


/// What `find_variant` returns: the first position holding the name, or none where no
/// variant has it.
pub proof fn lemma_find_variant(vars: Seq<(String, Option<Shape>)>, k: Seq<char>)
    ensures
        find_variant(vars, k) matches Some(j) ==> 0 <= j < vars.len() && vars[j].0@ == k && forall|a: int|
            0 <= a < j ==> #[trigger] vars[a].0@ != k,
        find_variant(vars, k) is None ==> forall|a: int| 0 <= a < vars.len() ==> #[trigger] vars[a].0@ != k,
    decreases vars.len(),
{
    if vars.len() > 0 {
        let init = vars.drop_last();
        lemma_find_variant(init, k);
        assert forall|a: int| 0 <= a < vars.len() - 1 implies #[trigger] vars[a] == init[a] by {}
        match find_variant(init, k) {
            Some(j) => {
                assert(find_variant(vars, k) == Some(j));
                assert(vars[j] == init[j]);
                assert forall|a: int| 0 <= a < j implies #[trigger] vars[a].0@ != k by {
                    assert(vars[a] == init[a]);
                }
            },
            None => {
                if vars.last().0@ == k {
                    assert(find_variant(vars, k) == Some(vars.len() - 1));
                    assert forall|a: int| 0 <= a < vars.len() - 1 implies #[trigger] vars[a].0@ != k by {
                        assert(vars[a] == init[a]);
                    }
                } else {
                    assert(find_variant(vars, k) is None);
                    assert forall|a: int| 0 <= a < vars.len() implies #[trigger] vars[a].0@ != k by {
                        if a < vars.len() - 1 {
                            assert(vars[a] == init[a]);
                        }
                    }
                }
            },
        }
    }
}

proof fn lemma_elems_none(c: &DukContext, vs: Seq<JsValue>, es: Shape, i: int)
    requires
        0 <= i <= vs.len(),
        decode_elems(c, vs.take(i), es) is None,
    ensures
        decode_elems(c, vs, es) is None,
    decreases vs.len() - i,
{
    if i == vs.len() {
        assert(vs.take(i) =~= vs);
    } else {
        assert(vs.take(i + 1).drop_last() =~= vs.take(i));
        lemma_elems_none(c, vs, es, i + 1);
    }
}

proof fn lemma_tuple_none(c: &DukContext, vs: Seq<JsValue>, ss: Seq<Shape>, i: int)
    requires
        vs.len() == ss.len(),
        0 <= i <= vs.len(),
        decode_tuple(c, vs.take(i), ss.take(i)) is None,
    ensures
        decode_tuple(c, vs, ss) is None,
    decreases vs.len() - i,
{
    if i == vs.len() {
        assert(vs.take(i) =~= vs);
        assert(ss.take(i) =~= ss);
    } else {
        assert(vs.take(i + 1).drop_last() =~= vs.take(i));
        assert(ss.take(i + 1).drop_last() =~= ss.take(i));
        lemma_tuple_none(c, vs, ss, i + 1);
    }
}

proof fn lemma_props_none(c: &DukContext, ps: Seq<Prop>, vs: Shape, i: int)
    requires
        0 <= i <= ps.len(),
        decode_props(c, ps.take(i), vs) is None,
    ensures
        decode_props(c, ps, vs) is None,
    decreases ps.len() - i,
{
    if i == ps.len() {
        assert(ps.take(i) =~= ps);
    } else {
        assert(ps.take(i + 1).drop_last() =~= ps.take(i));
        lemma_props_none(c, ps, vs, i + 1);
    }
}

proof fn lemma_fields_none(c: &DukContext, ps: Seq<Prop>, fs: Seq<(String, Shape)>, i: int)
    requires
        0 <= i <= fs.len(),
        decode_fields(c, ps, fs.take(i)) is None,
    ensures
        decode_fields(c, ps, fs) is None,
    decreases fs.len() - i,
{
    if i == fs.len() {
        assert(fs.take(i) =~= fs);
    } else {
        assert(fs.take(i + 1).drop_last() =~= fs.take(i));
        lemma_fields_none(c, ps, fs, i + 1);
    }
}

/// Position of the first property of `ps` named `k`.
fn find_prop_index(ps: &Vec<Prop>, k: &String) -> (r: Option<usize>)
    ensures
        match r {
            Some(j) => find_prop(ps@, k@) == Some(j as int),
            None => find_prop(ps@, k@) is None,
        },
{
    proof {
        lemma_find_prop(ps@, k@);
    }
    let mut i: usize = 0;
    while i < ps.len()
        invariant
            i <= ps@.len(),
            forall|a: int| 0 <= a < i ==> #[trigger] ps@[a].key@ != k@,
        decreases ps@.len() - i,
    {
        if ps[i].key == *k {
            proof {
                lemma_find_prop(ps@, k@);
            }
            return Some(i);
        }
        i = i + 1;
    }
    proof {
        lemma_find_prop(ps@, k@);
        match find_prop(ps@, k@) {
            Some(j) => {
                assert(ps@[j].key@ != k@);
            },
            None => {},
        }
    }
    None
}

/// Position of the first variant of `vars` named `k`.
fn find_variant_index(vars: &Vec<(String, Option<Shape>)>, k: &String) -> (r: Option<usize>)
    ensures
        match r {
            Some(j) => find_variant(vars@, k@) == Some(j as int),
            None => find_variant(vars@, k@) is None,
        },
{
    proof {
        lemma_find_variant(vars@, k@);
    }
    let mut i: usize = 0;
    while i < vars.len()
        invariant
            i <= vars@.len(),
            forall|a: int| 0 <= a < i ==> #[trigger] vars@[a].0@ != k@,
        decreases vars@.len() - i,
    {
        if vars[i].0 == *k {
            proof {
                lemma_find_variant(vars@, k@);
            }
            return Some(i);
        }
        i = i + 1;
    }
    proof {
        lemma_find_variant(vars@, k@);
        match find_variant(vars@, k@) {
            Some(j) => {
                assert(vars@[j].0@ != k@);
            },
            None => {},
        }
    }
    None
}

/// A copy of `data`.
pub(crate) fn copy_bytes(data: &[u8]) -> (r: Vec<u8>)
    ensures
        r@ == data@,
{
    let mut copy: Vec<u8> = Vec::new();
    let mut i: usize = 0;
    while i < data.len()
        invariant
            i <= data@.len(),
            copy@ == data@.subrange(0, i as int),
        decreases data@.len() - i,
    {
        copy.push(data[i]);
        i = i + 1;
        assert(copy@ =~= data@.subrange(0, i as int));
    }
    assert(copy@ =~= data@);
    copy
}

fn shape_error() -> (r: JsError) {
    JsError::from_str("unsupported value shape")
}

impl DukContext {
    /// Reads the host value of shape `s` that `v` stands for; fails exactly where `decode` has
    /// no reading. Nothing changes.
    pub fn decode_value(&self, v: JsValue, s: &Shape) -> (r: Result<HostValue, JsError>)
        requires
            self.wf(),
            self.valid_value(v),
        ensures
            r is Ok <==> decode(self, v, *s) is Some,
            r matches Ok(x) ==> decode(self, v, *s) == Some(x.model()),
        decreases s, 1nat,
    {
        match s {
            Shape::Any => self.decode_any_exec(v, ANY_DEPTH),
            Shape::Unit => match v {
                JsValue::Undefined => Ok(HostValue::Unit),
                JsValue::Null => Ok(HostValue::Unit),
                _ => Err(shape_error()),
            },
            Shape::Bool => match v {
                JsValue::Boolean(b) => Ok(HostValue::Bool(b)),
                _ => Err(shape_error()),
            },
            Shape::I64 => match v {
                JsValue::Number(n) => match n.as_i64() {
                    Some(x) => Ok(HostValue::I64(x)),
                    None => Err(shape_error()),
                },
                _ => Err(shape_error()),
            },
            Shape::U64 => match v {
                JsValue::Number(n) => match n.as_u64() {
                    Some(x) => Ok(HostValue::U64(x)),
                    None => Err(shape_error()),
                },
                _ => Err(shape_error()),
            },
            Shape::F64 => match v {
                JsValue::Number(n) => Ok(HostValue::F64(n.to_bits())),
                _ => Err(shape_error()),
            },
            Shape::Char => match v {
                JsValue::String(i) => {
                    let st = self.strings[i].as_str();
                    if st.unicode_len() == 1 {
                        Ok(HostValue::Char(st.get_char(0)))
                    } else {
                        Err(shape_error())
                    }
                },
                _ => Err(shape_error()),
            },
            Shape::Str => match v {
                JsValue::String(i) => Ok(HostValue::Str(self.strings[i].clone())),
                _ => Err(shape_error()),
            },
            Shape::Bytes => match v {
                JsValue::Buffer(i) => Ok(HostValue::Bytes(copy_bytes(self.buffers[i].as_slice()))),
                _ => Err(shape_error()),
            },
            Shape::Optional(inner) => match v {
                JsValue::Undefined => Ok(HostValue::Absent),
                JsValue::Null => Ok(HostValue::Absent),
                _ => match self.decode_value(v, inner) {
                    Ok(x) => Ok(HostValue::Present(Box::new(x))),
                    Err(e) => Err(e),
                },
            },
            Shape::List(es) => match v {
                JsValue::Object(o) => {
                    match self.objects[o].kind {
                        ObjectKind::Array => {},
                        _ => {
                            return Err(shape_error());
                        },
                    }
                    self.decode_elems_exec(o, s, es)
                },
                _ => Err(shape_error()),
            },
            Shape::Tuple(ss) => match v {
                JsValue::Object(o) => {
                    match self.objects[o].kind {
                        ObjectKind::Array => {},
                        _ => {
                            return Err(shape_error());
                        },
                    }
                    self.decode_tuple_exec(o, s, ss)
                },
                _ => Err(shape_error()),
            },
            Shape::Dict(vs) => match v {
                JsValue::Object(o) => {
                    match self.objects[o].kind {
                        ObjectKind::Plain => {},
                        _ => {
                            return Err(shape_error());
                        },
                    }
                    self.decode_props_exec(o, s, vs)
                },
                _ => Err(shape_error()),
            },
            Shape::Struct(fs) => match v {
                JsValue::Object(o) => {
                    match self.objects[o].kind {
                        ObjectKind::Plain => {},
                        _ => {
                            return Err(shape_error());
                        },
                    }
                    self.decode_fields_exec(o, s, fs)
                },
                _ => Err(shape_error()),
            },
            Shape::Enum(vars) => self.decode_variant_exec(v, s, vars),
        }
    }
}

impl DukContext {
    fn decode_elems_exec(&self, o: usize, s: &Shape, es: &Shape) -> (r: Result<HostValue, JsError>)
        requires
            self.wf(),
            o < self.objects@.len(),
            self.objects@[o as int].kind == ObjectKind::Array,
            *s is List,
            *es == *(s->List_0),
        ensures
            r is Ok <==> decode(self, JsValue::Object(o), *s) is Some,
            r matches Ok(x) ==> decode(self, JsValue::Object(o), *s) == Some(x.model()),
        decreases s, 0nat,
    {
        let ghost vs = self.objects@[o as int].elems@;
        proof {
            assert(self.valid_object(self.objects@[o as int]));
        }
        let n = self.objects[o].elems.len();
        let mut out: Vec<HostValue> = Vec::new();
        let ghost mut acc: Seq<Host> = Seq::empty();
        let mut i: usize = 0;
        assert(vs.take(0) =~= Seq::<JsValue>::empty());
        while i < n
            invariant
                self.wf(),
                o < self.objects@.len(),
                vs == self.objects@[o as int].elems@,
                n == vs.len(),
                forall|k: int| 0 <= k < vs.len() ==> self.valid_value(#[trigger] vs[k]),
                *s is List,
                *es == *(s->List_0),
                i <= n,
                decode_elems(self, vs.take(i as int), *es) == Some(acc),
                acc.len() == i,
                out@.len() == i,
                forall|k: int| 0 <= k < i ==> #[trigger] out@[k].model() == acc[k],
            decreases n - i,
        {
            proof {
                assert(decreases_to!(*s => *es));
                assert(vs.take(i + 1).drop_last() =~= vs.take(i as int));
                assert(vs.take(i + 1).last() == vs[i as int]);
            }
            match self.decode_value(self.objects[o].elems[i], es) {
                Ok(x) => {
                    out.push(x);
                    proof {
                        acc = acc.push(x.model());
                    }
                    i = i + 1;
                },
                Err(e) => {
                    proof {
                        lemma_elems_none(self, vs, *es, i + 1);
                    }
                    return Err(e);
                },
            }
        }
        assert(vs.take(n as int) =~= vs);
        let ghost outs = out@;
        let r = HostValue::List(out);
        assert forall|k: int| 0 <= k < acc.len() implies r.model()->List_0[k] == acc[k] by {
            assert(outs[k].model() == acc[k]);
        }
        assert(r.model()->List_0 =~= acc);
        Ok(r)
    }

    fn decode_tuple_exec(&self, o: usize, s: &Shape, ss: &Vec<Shape>) -> (r: Result<HostValue, JsError>)
        requires
            self.wf(),
            o < self.objects@.len(),
            self.objects@[o as int].kind == ObjectKind::Array,
            *s == Shape::Tuple(*ss),
        ensures
            r is Ok <==> decode(self, JsValue::Object(o), *s) is Some,
            r matches Ok(x) ==> decode(self, JsValue::Object(o), *s) == Some(x.model()),
        decreases s, 0nat,
    {
        let ghost vs = self.objects@[o as int].elems@;
        proof {
            assert(self.valid_object(self.objects@[o as int]));
        }
        let n = self.objects[o].elems.len();
        if n != ss.len() {
            assert(decode_tuple(self, vs, ss@) is None);
            return Err(shape_error());
        }
        let mut out: Vec<HostValue> = Vec::new();
        let ghost mut acc: Seq<Host> = Seq::empty();
        let mut i: usize = 0;
        assert(vs.take(0) =~= Seq::<JsValue>::empty());
        assert(ss@.take(0) =~= Seq::<Shape>::empty());
        while i < n
            invariant
                self.wf(),
                o < self.objects@.len(),
                vs == self.objects@[o as int].elems@,
                n == vs.len(),
                n == ss@.len(),
                forall|k: int| 0 <= k < vs.len() ==> self.valid_value(#[trigger] vs[k]),
                *s == Shape::Tuple(*ss),
                i <= n,
                decode_tuple(self, vs.take(i as int), ss@.take(i as int)) == Some(acc),
                acc.len() == i,
                out@.len() == i,
                forall|k: int| 0 <= k < i ==> #[trigger] out@[k].model() == acc[k],
            decreases n - i,
        {
            proof {
                assert(decreases_to!(*s => *ss));
                assert(decreases_to!(*ss => ss[i as int]));
                assert(vs.take(i + 1).drop_last() =~= vs.take(i as int));
                assert(ss@.take(i + 1).drop_last() =~= ss@.take(i as int));
                assert(vs.take(i + 1).last() == vs[i as int]);
                assert(ss@.take(i + 1).last() == ss@[i as int]);
            }
            match self.decode_value(self.objects[o].elems[i], &ss[i]) {
                Ok(x) => {
                    out.push(x);
                    proof {
                        acc = acc.push(x.model());
                    }
                    i = i + 1;
                },
                Err(e) => {
                    proof {
                        lemma_tuple_none(self, vs, ss@, i + 1);
                    }
                    return Err(e);
                },
            }
        }
        assert(vs.take(n as int) =~= vs);
        assert(ss@.take(n as int) =~= ss@);
        let ghost outs = out@;
        let r = HostValue::List(out);
        assert forall|k: int| 0 <= k < acc.len() implies r.model()->List_0[k] == acc[k] by {
            assert(outs[k].model() == acc[k]);
        }
        assert(r.model()->List_0 =~= acc);
        Ok(r)
    }

    fn decode_props_exec(&self, o: usize, s: &Shape, vsh: &Shape) -> (r: Result<HostValue, JsError>)
        requires
            self.wf(),
            o < self.objects@.len(),
            self.objects@[o as int].kind == ObjectKind::Plain,
            *s is Dict,
            *vsh == *(s->Dict_0),
        ensures
            r is Ok <==> decode(self, JsValue::Object(o), *s) is Some,
            r matches Ok(x) ==> decode(self, JsValue::Object(o), *s) == Some(x.model()),
        decreases s, 0nat,
    {
        let ghost ps = self.objects@[o as int].props@;
        proof {
            assert(self.valid_object(self.objects@[o as int]));
        }
        let n = self.objects[o].props.len();
        let mut out: Vec<(String, HostValue)> = Vec::new();
        let ghost mut acc: Seq<(Seq<char>, Host)> = Seq::empty();
        let mut i: usize = 0;
        assert(ps.take(0) =~= Seq::<Prop>::empty());
        while i < n
            invariant
                self.wf(),
                o < self.objects@.len(),
                ps == self.objects@[o as int].props@,
                n == ps.len(),
                forall|k: int| 0 <= k < ps.len() ==> self.valid_value(#[trigger] ps[k].value),
                *s is Dict,
                *vsh == *(s->Dict_0),
                i <= n,
                decode_props(self, ps.take(i as int), *vsh) == Some(acc),
                acc.len() == i,
                out@.len() == i,
                forall|k: int| 0 <= k < i ==> #[trigger] out@[k].1.model() == acc[k].1 && out@[k].0@ == acc[k].0,
            decreases n - i,
        {
            proof {
                assert(decreases_to!(*s => *vsh));
                assert(ps.take(i + 1).drop_last() =~= ps.take(i as int));
                assert(ps.take(i + 1).last() == ps[i as int]);
            }
            match self.decode_value(self.objects[o].props[i].value, vsh) {
                Ok(x) => {
                    let key = self.objects[o].props[i].key.clone();
                    out.push((key, x));
                    proof {
                        acc = acc.push((ps[i as int].key@, x.model()));
                    }
                    i = i + 1;
                },
                Err(e) => {
                    proof {
                        lemma_props_none(self, ps, *vsh, i + 1);
                    }
                    return Err(e);
                },
            }
        }
        assert(ps.take(n as int) =~= ps);
        let ghost outs = out@;
        let r = HostValue::Record(out);
        assert forall|k: int| 0 <= k < acc.len() implies r.model()->Record_0[k] == acc[k] by {
            assert(outs[k].1.model() == acc[k].1 && outs[k].0@ == acc[k].0);
        }
        assert(r.model()->Record_0 =~= acc);
        Ok(r)
    }

    fn decode_fields_exec(&self, o: usize, s: &Shape, fs: &Vec<(String, Shape)>) -> (r: Result<HostValue, JsError>)
        requires
            self.wf(),
            o < self.objects@.len(),
            self.objects@[o as int].kind == ObjectKind::Plain,
            *s == Shape::Struct(*fs),
        ensures
            r is Ok <==> decode(self, JsValue::Object(o), *s) is Some,
            r matches Ok(x) ==> decode(self, JsValue::Object(o), *s) == Some(x.model()),
        decreases s, 0nat,
    {
        let ghost ps = self.objects@[o as int].props@;
        proof {
            assert(self.valid_object(self.objects@[o as int]));
        }
        let n = fs.len();
        let mut out: Vec<(String, HostValue)> = Vec::new();
        let ghost mut acc: Seq<(Seq<char>, Host)> = Seq::empty();
        let mut i: usize = 0;
        assert(fs@.take(0) =~= Seq::<(String, Shape)>::empty());
        while i < n
            invariant
                self.wf(),
                o < self.objects@.len(),
                ps == self.objects@[o as int].props@,
                n == fs@.len(),
                forall|k: int| 0 <= k < ps.len() ==> self.valid_value(#[trigger] ps[k].value),
                *s == Shape::Struct(*fs),
                i <= n,
                decode_fields(self, ps, fs@.take(i as int)) == Some(acc),
                acc.len() == i,
                out@.len() == i,
                forall|k: int| 0 <= k < i ==> #[trigger] out@[k].1.model() == acc[k].1 && out@[k].0@ == acc[k].0,
            decreases n - i,
        {
            proof {
                assert(decreases_to!(*s => *fs));
                assert(decreases_to!(*fs => fs[i as int]));
                assert(decreases_to!(fs[i as int] => fs[i as int].1));
                assert(fs@.take(i + 1).drop_last() =~= fs@.take(i as int));
                assert(fs@.take(i + 1).last() == fs@[i as int]);
            }
            let name = fs[i].0.clone();
            match find_prop_index(&self.objects[o].props, &fs[i].0) {
                Some(j) => {
                    proof {
                        lemma_find_prop(ps, fs@[i as int].0@);
                    }
                    match self.decode_value(self.objects[o].props[j].value, &fs[i].1) {
                        Ok(x) => {
                            out.push((name, x));
                            proof {
                                acc = acc.push((fs@[i as int].0@, x.model()));
                            }
                        },
                        Err(e) => {
                            proof {
                                lemma_fields_none(self, ps, fs@, i + 1);
                            }
                            return Err(e);
                        },
                    }
                },
                None => {
                    match fs[i].1 {
                        Shape::Optional(_) => {
                            out.push((name, HostValue::Absent));
                            proof {
                                acc = acc.push((fs@[i as int].0@, Host::Absent));
                            }
                        },
                        _ => {
                            proof {
                                lemma_fields_none(self, ps, fs@, i + 1);
                            }
                            return Err(shape_error());
                        },
                    }
                },
            }
            i = i + 1;
        }
        assert(fs@.take(n as int) =~= fs@);
        let ghost outs = out@;
        let r = HostValue::Record(out);
        assert forall|k: int| 0 <= k < acc.len() implies r.model()->Record_0[k] == acc[k] by {
            assert(outs[k].1.model() == acc[k].1 && outs[k].0@ == acc[k].0);
        }
        assert(r.model()->Record_0 =~= acc);
        Ok(r)
    }

    fn decode_variant_exec(&self, v: JsValue, s: &Shape, vars: &Vec<(String, Option<Shape>)>) -> (r: Result<HostValue, JsError>)
        requires
            self.wf(),
            self.valid_value(v),
            *s == Shape::Enum(*vars),
        ensures
            r is Ok <==> decode(self, v, *s) is Some,
            r matches Ok(x) ==> decode(self, v, *s) == Some(x.model()),
        decreases s, 0nat,
    {
        match v {
            JsValue::String(i) => match find_variant_index(vars, &self.strings[i]) {
                Some(k) => {
                    proof {
                        lemma_find_variant(vars@, self.strings@[i as int]@);
                    }
                    match vars[k].1 {
                        None => Ok(HostValue::UnitVariant(self.strings[i].clone())),
                        Some(_) => Err(shape_error()),
                    }
                },
                None => Err(shape_error()),
            },
            JsValue::Object(o) => {
                proof {
                    assert(self.valid_object(self.objects@[o as int]));
                }
                match self.objects[o].kind {
                    ObjectKind::Plain => {},
                    _ => {
                        return Err(shape_error());
                    },
                }
                if self.objects[o].props.len() != 1 {
                    return Err(shape_error());
                }
                match find_variant_index(vars, &self.objects[o].props[0].key) {
                    Some(k) => {
                        proof {
                            lemma_find_variant(vars@, self.objects@[o as int].props@[0].key@);
                            assert(decreases_to!(*s => *vars));
                            assert(decreases_to!(*vars => vars[k as int]));
                            assert(decreases_to!(vars[k as int] => vars[k as int].1));
                        }
                        match &vars[k].1 {
                            Some(ps) => {
                                proof {
                                    assert(decreases_to!(vars[k as int].1 => vars[k as int].1->0));
                                }
                                match self.decode_value(self.objects[o].props[0].value, ps) {
                                    Ok(x) => {
                                        let name = self.objects[o].props[0].key.clone();
                                        Ok(HostValue::Variant(name, Box::new(x)))
                                    },
                                    Err(e) => Err(e),
                                }
                            },
                            None => Err(shape_error()),
                        }
                    },
                    None => Err(shape_error()),
                }
            },
            _ => Err(shape_error()),
        }
    }

    /// Reads the value at `index` as a host value of shape `s`: fails where there is no value
    /// there or where `decode` has no reading of it. The stack is left as it was.
    pub fn read_as(&self, index: i32, s: &Shape) -> (r: Result<HostValue, JsError>)
        requires
            self.wf(),
        ensures
            match self.slot(index) {
                Some(v) => (r is Ok <==> decode(self, v, *s) is Some) && (r matches Ok(x) ==> decode(
                    self,
                    v,
                    *s,
                ) == Some(x.model())),
                None => r is Err,
            },
    {
        match self.get_value(index) {
            Some(v) => self.decode_value(v, s),
            None => Err(JsError::from_str("invalid stack index")),
        }
    }
}


proof fn lemma_any_elems_none(c: &DukContext, vs: Seq<JsValue>, d: nat, i: int)
    requires
        0 <= i <= vs.len(),
        decode_any_elems(c, vs.take(i), d) is None,
    ensures
        decode_any_elems(c, vs, d) is None,
    decreases vs.len() - i,
{
    if i == vs.len() {
        assert(vs.take(i) =~= vs);
    } else {
        assert(vs.take(i + 1).drop_last() =~= vs.take(i));
        lemma_any_elems_none(c, vs, d, i + 1);
    }
}

proof fn lemma_any_props_none(c: &DukContext, ps: Seq<Prop>, d: nat, i: int)
    requires
        0 <= i <= ps.len(),
        decode_any_props(c, ps.take(i), d) is None,
    ensures
        decode_any_props(c, ps, d) is None,
    decreases ps.len() - i,
{
    if i == ps.len() {
        assert(ps.take(i) =~= ps);
    } else {
        assert(ps.take(i + 1).drop_last() =~= ps.take(i));
        lemma_any_props_none(c, ps, d, i + 1);
    }
}

impl DukContext {
    /// Reads `v` without a shape, as `decode_any` describes, at most `depth` levels deep.
    pub fn decode_any_exec(&self, v: JsValue, depth: u32) -> (r: Result<HostValue, JsError>)
        requires
            self.wf(),
            self.valid_value(v),
        ensures
            r is Ok <==> decode_any(self, v, depth as nat) is Some,
            r matches Ok(x) ==> decode_any(self, v, depth as nat) == Some(x.model()),
        decreases depth,
    {
        match v {
            JsValue::Undefined => Ok(HostValue::Absent),
            JsValue::Null => Ok(HostValue::Absent),
            JsValue::Boolean(b) => Ok(HostValue::Bool(b)),
            JsValue::Number(n) => match n.as_i64() {
                Some(x) => Ok(HostValue::I64(x)),
                None => Ok(HostValue::F64(n.to_bits())),
            },
            JsValue::String(i) => Ok(HostValue::Str(self.strings[i].clone())),
            JsValue::Buffer(i) => Ok(HostValue::Bytes(copy_bytes(self.buffers[i].as_slice()))),
            JsValue::Object(o) => {
                if depth == 0 {
                    return Err(JsError::from_str("value nested too deeply"));
                }
                proof {
                    assert(self.valid_object(self.objects@[o as int]));
                }
                let d = depth - 1;
                match self.objects[o].kind {
                    ObjectKind::Array => {
                        let ghost vs = self.objects@[o as int].elems@;
                        let n = self.objects[o].elems.len();
                        let mut out: Vec<HostValue> = Vec::new();
                        let ghost mut acc: Seq<Host> = Seq::empty();
                        let mut i: usize = 0;
                        assert(vs.take(0) =~= Seq::<JsValue>::empty());
                        while i < n
                            invariant
                                self.wf(),
                                o < self.objects@.len(),
                                vs == self.objects@[o as int].elems@,
                                n == vs.len(),
                                d < depth,
                                d == depth - 1,
                                v == JsValue::Object(o),
                                self.objects@[o as int].kind == ObjectKind::Array,
                                forall|k: int| 0 <= k < vs.len() ==> self.valid_value(#[trigger] vs[k]),
                                i <= n,
                                decode_any_elems(self, vs.take(i as int), d as nat) == Some(acc),
                                acc.len() == i,
                                out@.len() == i,
                                forall|k: int| 0 <= k < i ==> #[trigger] out@[k].model() == acc[k],
                            decreases n - i,
                        {
                            proof {
                                assert(vs.take(i + 1).drop_last() =~= vs.take(i as int));
                                assert(vs.take(i + 1).last() == vs[i as int]);
                            }
                            match self.decode_any_exec(self.objects[o].elems[i], d) {
                                Ok(x) => {
                                    out.push(x);
                                    proof {
                                        acc = acc.push(x.model());
                                    }
                                    i = i + 1;
                                },
                                Err(e) => {
                                    proof {
                                        lemma_any_elems_none(self, vs, d as nat, i + 1);
                                    }
                                    return Err(e);
                                },
                            }
                        }
                        assert(vs.take(n as int) =~= vs);
                        let ghost outs = out@;
                        let r = HostValue::List(out);
                        assert forall|k: int| 0 <= k < acc.len() implies r.model()->List_0[k] == acc[k] by {
                            assert(outs[k].model() == acc[k]);
                        }
                        assert(r.model()->List_0 =~= acc);
                        Ok(r)
                    },
                    ObjectKind::Plain => {
                        let ghost ps = self.objects@[o as int].props@;
                        let n = self.objects[o].props.len();
                        let mut out: Vec<(String, HostValue)> = Vec::new();
                        let ghost mut acc: Seq<(Seq<char>, Host)> = Seq::empty();
                        let mut i: usize = 0;
                        assert(ps.take(0) =~= Seq::<Prop>::empty());
                        while i < n
                            invariant
                                self.wf(),
                                o < self.objects@.len(),
                                ps == self.objects@[o as int].props@,
                                n == ps.len(),
                                d < depth,
                                d == depth - 1,
                                v == JsValue::Object(o),
                                self.objects@[o as int].kind == ObjectKind::Plain,
                                forall|k: int| 0 <= k < ps.len() ==> self.valid_value(#[trigger] ps[k].value),
                                i <= n,
                                decode_any_props(self, ps.take(i as int), d as nat) == Some(acc),
                                acc.len() == i,
                                out@.len() == i,
                                forall|k: int| 0 <= k < i ==> #[trigger] out@[k].1.model() == acc[k].1 && out@[k].0@ == acc[k].0,
                            decreases n - i,
                        {
                            proof {
                                assert(ps.take(i + 1).drop_last() =~= ps.take(i as int));
                                assert(ps.take(i + 1).last() == ps[i as int]);
                            }
                            match self.decode_any_exec(self.objects[o].props[i].value, d) {
                                Ok(x) => {
                                    let key = self.objects[o].props[i].key.clone();
                                    out.push((key, x));
                                    proof {
                                        acc = acc.push((ps[i as int].key@, x.model()));
                                    }
                                    i = i + 1;
                                },
                                Err(e) => {
                                    proof {
                                        lemma_any_props_none(self, ps, d as nat, i + 1);
                                    }
                                    return Err(e);
                                },
                            }
                        }
                        assert(ps.take(n as int) =~= ps);
                        let ghost outs = out@;
                        let r = HostValue::Record(out);
                        assert forall|k: int| 0 <= k < acc.len() implies r.model()->Record_0[k] == acc[k] by {
                            assert(outs[k].1.model() == acc[k].1 && outs[k].0@ == acc[k].0);
                        }
                        assert(r.model()->Record_0 =~= acc);
                        Ok(r)
                    },
                    _ => Err(shape_error()),
                }
            },
        }
    }
}

} // verus!

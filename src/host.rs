use vstd::prelude::*;

verus! {

broadcast use vstd::std_specs::vec::group_vec_axioms;

/// A host value, in the shapes that cross the bridge: scalars, strings, byte buffers, options,
/// sequences (also tuples), maps and structs (named entries in order), and enum variants.
/// A float is held as its IEEE-754 bit pattern.
#[derive(Debug)]
pub enum HostValue {
    /// Unit, or a unit struct.
    Unit,
    /// An absent option.
    Absent,
    Bool(bool),
    I64(i64),
    U64(u64),
    F64(u64),
    Char(char),
    Str(String),
    Bytes(Vec<u8>),
    /// A present option.
    Present(Box<HostValue>),
    /// A sequence, tuple or tuple struct.
    List(Vec<HostValue>),
    /// A map or a struct: named entries in order.
    Record(Vec<(String, HostValue)>),
    /// An enum variant without payload.
    UnitVariant(String),
    /// A newtype, tuple or struct variant with its payload.
    Variant(String, Box<HostValue>),
}

/// The mathematical value of a `HostValue`.
pub enum Host {
    Unit,
    Absent,
    Bool(bool),
    I64(i64),
    U64(u64),
    F64(u64),
    Char(char),
    Str(Seq<char>),
    Bytes(Seq<u8>),
    Present(Box<Host>),
    List(Seq<Host>),
    Record(Seq<(Seq<char>, Host)>),
    UnitVariant(Seq<char>),
    Variant(Seq<char>, Box<Host>),
}

/// The host type that a decode is directed by.
#[derive(Debug)]
pub enum Shape {
    /// Whatever the value is: null and undefined as absent, an integral number as `I64`,
    /// another number as `F64`, arrays as lists and plain objects as records, nested at most
    /// `ANY_DEPTH` deep.
    Any,
    Unit,
    Bool,
    I64,
    U64,
    F64,
    Char,
    Str,
    Bytes,
    Optional(Box<Shape>),
    /// A sequence of elements of one shape.
    List(Box<Shape>),
    /// A tuple or tuple struct: a fixed number of elements, each of its own shape.
    Tuple(Vec<Shape>),
    /// A map from names to values of one shape.
    Dict(Box<Shape>),
    /// A struct: its fields' names and shapes, in declaration order.
    Struct(Vec<(String, Shape)>),
    /// An enum: each variant's name, and the shape of its payload where it has one.
    Enum(Vec<(String, Option<Shape>)>),
}

impl HostValue {
    pub open spec fn model(&self) -> Host
        decreases self,
    {
        match self {
            HostValue::Unit => Host::Unit,
            HostValue::Absent => Host::Absent,
            HostValue::Bool(b) => Host::Bool(*b),
            HostValue::I64(n) => Host::I64(*n),
            HostValue::U64(n) => Host::U64(*n),
            HostValue::F64(b) => Host::F64(*b),
            HostValue::Char(c) => Host::Char(*c),
            HostValue::Str(s) => Host::Str(s@),
            HostValue::Bytes(b) => Host::Bytes(b@),
            HostValue::Present(x) => Host::Present(Box::new(x.model())),
            HostValue::List(v) => Host::List(
                Seq::new(
                    v.len() as nat,
                    |i: int|
                        if 0 <= i < v.len() {
                            v[i].model()
                        } else {
                            Host::Unit
                        },
                ),
            ),
            HostValue::Record(v) => Host::Record(
                Seq::new(
                    v.len() as nat,
                    |i: int|
                        if 0 <= i < v.len() {
                            (v[i].0@, v[i].1.model())
                        } else {
                            (Seq::empty(), Host::Unit)
                        },
                ),
            ),
            HostValue::UnitVariant(n) => Host::UnitVariant(n@),
            HostValue::Variant(n, x) => Host::Variant(n@, Box::new(x.model())),
        }
    }
}

/// Position of the first variant named `name`.
pub open spec fn find_variant(vars: Seq<(String, Option<Shape>)>, name: Seq<char>) -> Option<int>
    decreases vars.len(),
{
    if vars.len() == 0 {
        None
    } else {
        match find_variant(vars.drop_last(), name) {
            Some(k) => Some(k),
            None => if vars.last().0@ == name {
                Some(vars.len() - 1)
            } else {
                None
            },
        }
    }
}

/// Whether the names of `entries` are pairwise distinct.
pub open spec fn distinct_keys(entries: Seq<(Seq<char>, Host)>) -> bool {
    forall|i: int, j: int|
        0 <= i < entries.len() && 0 <= j < entries.len() && i != j ==> #[trigger] entries[i].0
            != #[trigger] entries[j].0
}

/// Whether a value of shape `s` is encoded as null.
pub open spec fn nullish(s: Shape) -> bool {
    s is Unit || s is Optional || s is Any
}

/// How deep a self-describing read descends into arrays and objects.
pub const ANY_DEPTH: u32 = 256;

/// Whether `m` is a value of shape `s`. Unsigned integers are bounded by `i64::MAX`, map and
/// struct names are distinct, and an option's payload is not itself encoded as null.
pub open spec fn conforms(m: Host, s: Shape) -> bool
    decreases s, 0nat,
{
    match s {
        Shape::Any => false,
        Shape::Unit => m is Unit,
        Shape::Bool => m is Bool,
        Shape::I64 => m is I64,
        Shape::U64 => m matches Host::U64(n) && n <= 0x7fff_ffff_ffff_ffff,
        Shape::F64 => m is F64,
        Shape::Char => m is Char,
        Shape::Str => m is Str,
        Shape::Bytes => m is Bytes,
        Shape::Optional(inner) => match m {
            Host::Absent => true,
            Host::Present(x) => !nullish(*inner) && conforms(*x, *inner),
            _ => false,
        },
        Shape::List(es) => match m {
            Host::List(items) => conforms_elems(items, *es),
            _ => false,
        },
        Shape::Tuple(ss) => match m {
            Host::List(items) => conforms_tuple(items, ss@),
            _ => false,
        },
        Shape::Dict(vs) => match m {
            Host::Record(entries) => distinct_keys(entries) && conforms_values(entries, *vs),
            _ => false,
        },
        Shape::Struct(fs) => match m {
            Host::Record(entries) => distinct_keys(entries) && conforms_fields(entries, fs@),
            _ => false,
        },
        Shape::Enum(vars) => match m {
            Host::UnitVariant(n) => match find_variant(vars@, n) {
                Some(k) => 0 <= k < vars.len() && vars[k].1 is None,
                None => false,
            },
            Host::Variant(n, x) => match find_variant(vars@, n) {
                Some(k) => if 0 <= k < vars.len() {
                    match vars[k].1 {
                        Some(ps) => conforms(*x, ps),
                        None => false,
                    }
                } else {
                    false
                },
                None => false,
            },
            _ => false,
        },
    }
}

pub open spec fn conforms_elems(items: Seq<Host>, es: Shape) -> bool
    decreases es, items.len(),
{
    if items.len() == 0 {
        true
    } else {
        conforms_elems(items.drop_last(), es) && conforms(items.last(), es)
    }
}

pub open spec fn conforms_tuple(items: Seq<Host>, ss: Seq<Shape>) -> bool
    decreases ss, 0nat,
{
    if items.len() != ss.len() {
        false
    } else if ss.len() == 0 {
        true
    } else {
        conforms_tuple(items.drop_last(), ss.drop_last()) && conforms(items.last(), ss.last())
    }
}

pub open spec fn conforms_values(entries: Seq<(Seq<char>, Host)>, vs: Shape) -> bool
    decreases vs, entries.len(),
{
    if entries.len() == 0 {
        true
    } else {
        conforms_values(entries.drop_last(), vs) && conforms(entries.last().1, vs)
    }
}

pub open spec fn conforms_fields(entries: Seq<(Seq<char>, Host)>, fs: Seq<(String, Shape)>) -> bool
    decreases fs, 0nat,
{
    if entries.len() != fs.len() {
        false
    } else if fs.len() == 0 {
        true
    } else {
        &&& conforms_fields(entries.drop_last(), fs.drop_last())
        &&& entries.last().0 == fs.last().0@
        &&& conforms(entries.last().1, fs.last().1)
    }
}

} // verus!

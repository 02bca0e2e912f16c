//! Three-valued values: what a policy expression evaluates to.
//!
//! Two special values:
//! - Null: definite absence (no parent). `Null == X` is false, `Null != X` true.
//! - Unknown: an unknowable value (`sudo -u $(expr)`). All comparisons with it
//!   are unknown.

use crate::text::str_eq;
use vstd::prelude::*;

verus! {

/// What a `TriVal` is, mathematically.
pub ghost enum Tri {
    Text(Seq<char>),
    Int(int),
    Bool(bool),
    List { elements: Seq<Tri>, exhaustive: bool },
    Object(Map<Seq<char>, Tri>),
    Null,
    Unknown,
}

/// A value in the three-valued type system.
#[derive(Debug, PartialEq)]
pub enum TriVal {
    String(String),
    Int(i64),
    Bool(bool),
    List { elements: Vec<TriVal>, exhaustive: bool },
    Object(TriMap),
    Null,
    Unknown,
}

/// A map from names to values. A later entry hides an earlier one of the same
/// name.
#[derive(Debug, PartialEq)]
pub struct TriMap {
    entries: Vec<(String, TriVal)>,
}

/// The mathematical value of `v`.
pub closed spec fn tri(v: TriVal) -> Tri
    decreases v, 0nat,
{
    match v {
        TriVal::String(s) => Tri::Text(s@),
        TriVal::Int(n) => Tri::Int(n as int),
        TriVal::Bool(b) => Tri::Bool(b),
        TriVal::List { elements, exhaustive } => Tri::List {
            elements: Seq::new(
                elements@.len(),
                |i: int|
                    if 0 <= i < elements@.len() {
                        tri(elements@[i])
                    } else {
                        Tri::Null
                    },
            ),
            exhaustive,
        },
        TriVal::Object(m) => Tri::Object(map_of_prefix(m, m.entries@.len())),
        TriVal::Null => Tri::Null,
        TriVal::Unknown => Tri::Unknown,
    }
}

/// The map that the first `n` entries of `m` make.
closed spec fn map_of_prefix(m: TriMap, n: nat) -> Map<Seq<char>, Tri>
    decreases m, n,
{
    if n == 0 || n > m.entries@.len() {
        Map::empty()
    } else {
        map_of_prefix(m, (n - 1) as nat).insert(
            m.entries@[n - 1].0@,
            tri(m.entries@[n - 1].1),
        )
    }
}

/// The mathematical values of a sequence.
pub open spec fn tris(s: Seq<TriVal>) -> Seq<Tri> {
    Seq::new(s.len(), |i: int| s[i]@)
}

impl View for TriVal {
    type V = Tri;

    closed spec fn view(&self) -> Tri {
        tri(*self)
    }
}

impl View for TriMap {
    type V = Map<Seq<char>, Tri>;

    closed spec fn view(&self) -> Map<Seq<char>, Tri> {
        map_of_prefix(*self, self.entries@.len())
    }
}

/// The view of each variant.
pub broadcast proof fn tri_unfold(v: TriVal)
    ensures
        #[trigger] v@ == (match v {
            TriVal::String(s) => Tri::Text(s@),
            TriVal::Int(n) => Tri::Int(n as int),
            TriVal::Bool(b) => Tri::Bool(b),
            TriVal::List { elements, exhaustive } => Tri::List {
                elements: tris(elements@),
                exhaustive,
            },
            TriVal::Object(m) => Tri::Object(m@),
            TriVal::Null => Tri::Null,
            TriVal::Unknown => Tri::Unknown,
        }),
{
    if let TriVal::List { elements, exhaustive } = v {
        assert(v@->elements =~= tris(elements@));
    }
}

/// The elements of a list after one more.
pub proof fn tris_push(s: Seq<TriVal>, v: TriVal)
    ensures
        tris(s.push(v)) == tris(s).push(v@),
{
    assert(tris(s.push(v)) =~= tris(s).push(v@));
}

/// Entries before the last one make the map without it.
proof fn prefix_ignores_tail(a: TriMap, b: TriMap, n: nat)
    requires
        n <= a.entries@.len(),
        n <= b.entries@.len(),
        forall|i: int| 0 <= i < n ==> a.entries@[i] == b.entries@[i],
    ensures
        map_of_prefix(a, n) == map_of_prefix(b, n),
    decreases n,
{
    if n > 0 {
        prefix_ignores_tail(a, b, (n - 1) as nat);
    }
}

impl TriMap {
    /// The map without entries.
    pub fn new() -> (r: TriMap)
        ensures
            r@ == Map::<Seq<char>, Tri>::empty(),
    {
        TriMap { entries: Vec::new() }
    }

    /// Bind `name` to `value`.
    pub fn insert(&mut self, name: String, value: TriVal)
        ensures
            final(self)@ == old(self)@.insert(name@, value@),
    {
        let ghost before = *self;
        self.entries.push((name, value));
        proof {
            prefix_ignores_tail(before, *self, before.entries@.len());
            assert(self.entries@[before.entries@.len() as int] == (name, value));
        }
    }

    /// The value bound to `name`.
    pub fn get(&self, name: &str) -> (r: Option<&TriVal>)
        ensures
            match r {
                Some(v) => self@.dom().contains(name@) && v@ == self@[name@],
                None => !self@.dom().contains(name@),
            },
    {
        let mut i: usize = self.entries.len();
        while i > 0
            invariant
                i <= self.entries@.len(),
                self@.dom().contains(name@) == map_of_prefix(*self, i as nat).dom().contains(
                    name@,
                ),
                self@.dom().contains(name@) ==> self@[name@] == map_of_prefix(
                    *self,
                    i as nat,
                )[name@],
            decreases i,
        {
            i = i - 1;
            if str_eq(self.entries[i].0.as_str(), name) {
                return Some(&self.entries[i].1);
            }
        }
        None
    }

    /// Whether `name` is bound.
    pub fn contains_key(&self, name: &str) -> (r: bool)
        ensures
            r == self@.dom().contains(name@),
    {
        self.get(name).is_some()
    }
}

/// Entries of equal names and values make equal maps.
proof fn equal_entries_equal_maps(a: TriMap, b: TriMap, n: nat)
    requires
        n <= a.entries@.len(),
        n <= b.entries@.len(),
        forall|i: int|
            0 <= i < n ==> (#[trigger] a.entries@[i]).0@ == b.entries@[i].0@ && a.entries@[i].1@
                == b.entries@[i].1@,
    ensures
        map_of_prefix(a, n) == map_of_prefix(b, n),
    decreases n,
{
    if n > 0 {
        equal_entries_equal_maps(a, b, (n - 1) as nat);
        assert(a.entries@[n - 1].1@ == b.entries@[n - 1].1@);
    }
}

/// A copy of a map.
fn copy_map(m: &TriMap) -> (r: TriMap)
    ensures
        r@ == m@,
    decreases m,
{
    let mut entries: Vec<(String, TriVal)> = Vec::new();
    let mut i: usize = 0;
    while i < m.entries.len()
        invariant
            i <= m.entries@.len(),
            entries@.len() == i,
            forall|j: int|
                0 <= j < i ==> (#[trigger] entries@[j]).0@ == m.entries@[j].0@ && entries@[j].1@
                    == m.entries@[j].1@,
        decreases m.entries@.len() - i,
    {
        let name = m.entries[i].0.clone();
        let value = copy_val(&m.entries[i].1);
        entries.push((name, value));
        i = i + 1;
    }
    let out = TriMap { entries };
    proof {
        equal_entries_equal_maps(out, *m, out.entries@.len());
    }
    out
}

/// A copy of a value.
fn copy_val(v: &TriVal) -> (r: TriVal)
    ensures
        r@ == v@,
    decreases v,
{
    broadcast use tri_unfold;

    match v {
        TriVal::String(s) => TriVal::String(s.clone()),
        TriVal::Int(n) => TriVal::Int(*n),
        TriVal::Bool(b) => TriVal::Bool(*b),
        TriVal::List { elements, exhaustive } => {
            let mut out: Vec<TriVal> = Vec::new();
            let mut i: usize = 0;
            while i < elements.len()
                invariant
                    i <= elements@.len(),
                    tris(out@) == tris(elements@).subrange(0, i as int),
                    decreases_to!(v => elements),
                decreases elements@.len() - i,
            {
                let e = copy_val(&elements[i]);
                proof {
                    tris_push(out@, e);
                }
                out.push(e);
                i = i + 1;
                assert(tris(out@) =~= tris(elements@).subrange(0, i as int));
            }
            assert(tris(out@) =~= tris(elements@));
            TriVal::List { elements: out, exhaustive: *exhaustive }
        },
        TriVal::Object(m) => TriVal::Object(copy_map(m)),
        TriVal::Null => TriVal::Null,
        TriVal::Unknown => TriVal::Unknown,
    }
}

impl Clone for TriMap {
    fn clone(&self) -> (r: TriMap)
        ensures
            r@ == self@,
    {
        copy_map(self)
    }
}

impl Clone for TriVal {
    fn clone(&self) -> (r: TriVal)
        ensures
            r@ == self@,
    {
        copy_val(self)
    }
}

/// A copy of `v[from..]`.
pub fn clone_from(v: &[TriVal], from: usize) -> (r: Vec<TriVal>)
    requires
        from <= v@.len(),
    ensures
        tris(r@) == tris(v@).subrange(from as int, v@.len() as int),
{
    let mut out: Vec<TriVal> = Vec::new();
    let mut i: usize = from;
    while i < v.len()
        invariant
            from <= i <= v@.len(),
            tris(out@) == tris(v@).subrange(from as int, i as int),
        decreases v@.len() - i,
    {
        let e = v[i].clone();
        proof {
            tris_push(out@, e);
        }
        out.push(e);
        i = i + 1;
        assert(tris(out@) =~= tris(v@).subrange(from as int, i as int));
    }
    out
}

/// Three-valued boolean for intermediate computation.
#[derive(Debug, Clone, Copy, PartialEq, Eq, Structural)]
pub enum TriBool {
    True,
    False,
    Unknown,
}

/// The truth of a value: `true`, `false` and unknown stand for themselves,
/// anything else is false.
pub open spec fn truth(v: Tri) -> TriBool {
    match v {
        Tri::Bool(true) => TriBool::True,
        Tri::Unknown => TriBool::Unknown,
        _ => TriBool::False,
    }
}

/// Kleene conjunction.
pub open spec fn kleene_and(a: TriBool, b: TriBool) -> TriBool {
    if a == TriBool::False || b == TriBool::False {
        TriBool::False
    } else if a == TriBool::True && b == TriBool::True {
        TriBool::True
    } else {
        TriBool::Unknown
    }
}

/// Kleene negation.
pub open spec fn kleene_not(a: TriBool) -> TriBool {
    match a {
        TriBool::True => TriBool::False,
        TriBool::False => TriBool::True,
        TriBool::Unknown => TriBool::Unknown,
    }
}

/// Kleene disjunction.
pub open spec fn kleene_or(a: TriBool, b: TriBool) -> TriBool {
    if a == TriBool::True || b == TriBool::True {
        TriBool::True
    } else if a == TriBool::False && b == TriBool::False {
        TriBool::False
    } else {
        TriBool::Unknown
    }
}

/// A three-valued boolean as a value.
pub open spec fn of_bool(b: TriBool) -> Tri {
    match b {
        TriBool::True => Tri::Bool(true),
        TriBool::False => Tri::Bool(false),
        TriBool::Unknown => Tri::Unknown,
    }
}

/// The connectives are those of Kleene's strong logic: De Morgan's laws hold,
/// negation undoes itself, and both connectives commute.
pub proof fn kleene_laws(a: TriBool, b: TriBool)
    ensures
        kleene_not(kleene_and(a, b)) == kleene_or(kleene_not(a), kleene_not(b)),
        kleene_not(kleene_or(a, b)) == kleene_and(kleene_not(a), kleene_not(b)),
        kleene_not(kleene_not(a)) == a,
        kleene_and(a, b) == kleene_and(b, a),
        kleene_or(a, b) == kleene_or(b, a),
        truth(of_bool(a)) == a,
{
}

/// Whether `b` is `a`, or `a` is unknown.
pub open spec fn refines(a: TriBool, b: TriBool) -> bool {
    a == TriBool::Unknown || a == b
}

/// What is known stays known: where the connectives have an answer, more
/// knowledge does not change it.
pub proof fn kleene_is_monotone(a: TriBool, b: TriBool, c: TriBool, d: TriBool)
    requires
        refines(a, c),
        refines(b, d),
    ensures
        refines(kleene_and(a, b), kleene_and(c, d)),
        refines(kleene_or(a, b), kleene_or(c, d)),
        refines(kleene_not(a), kleene_not(c)),
{
}

/// Both connectives are associative.
pub proof fn kleene_associative(a: TriBool, b: TriBool, c: TriBool)
    ensures
        kleene_and(kleene_and(a, b), c) == kleene_and(a, kleene_and(b, c)),
        kleene_or(kleene_or(a, b), c) == kleene_or(a, kleene_or(b, c)),
{
}

impl TriVal {
    /// The truth of this value.
    pub fn is_truthy(&self) -> (r: TriBool)
        ensures
            r == truth(self@),
    {
        broadcast use tri_unfold;

        match self {
            TriVal::Bool(true) => TriBool::True,
            TriVal::Bool(false) => TriBool::False,
            TriVal::Unknown => TriBool::Unknown,
            _ => TriBool::False,
        }
    }
}

impl TriBool {
    /// Conjunction.
    pub fn and(self, other: TriBool) -> (r: TriBool)
        ensures
            r == kleene_and(self, other),
    {
        match (self, other) {
            (TriBool::False, _) | (_, TriBool::False) => TriBool::False,
            (TriBool::True, TriBool::True) => TriBool::True,
            _ => TriBool::Unknown,
        }
    }

    /// Disjunction.
    pub fn or(self, other: TriBool) -> (r: TriBool)
        ensures
            r == kleene_or(self, other),
    {
        match (self, other) {
            (TriBool::True, _) | (_, TriBool::True) => TriBool::True,
            (TriBool::False, TriBool::False) => TriBool::False,
            _ => TriBool::Unknown,
        }
    }

    /// Negation.
    pub fn not(self) -> (r: TriBool)
        ensures
            r == kleene_not(self),
    {
        match self {
            TriBool::True => TriBool::False,
            TriBool::False => TriBool::True,
            TriBool::Unknown => TriBool::Unknown,
        }
    }

    /// As a value.
    pub fn to_trival(self) -> (r: TriVal)
        ensures
            r@ == of_bool(self),
    {
        broadcast use tri_unfold;

        match self {
            TriBool::True => TriVal::Bool(true),
            TriBool::False => TriVal::Bool(false),
            TriBool::Unknown => TriVal::Unknown,
        }
    }
}

/// Equality with unknowns: an unknown side leaves the answer unknown, `Null`
/// equals only itself, and values of different kinds differ.
pub open spec fn tri_equal(a: Tri, b: Tri) -> TriBool {
    if a is Unknown || b is Unknown {
        TriBool::Unknown
    } else {
        let same = match (a, b) {
            (Tri::Null, Tri::Null) => true,
            (Tri::Text(x), Tri::Text(y)) => x == y,
            (Tri::Int(x), Tri::Int(y)) => x == y,
            (Tri::Bool(x), Tri::Bool(y)) => x == y,
            _ => false,
        };
        if same {
            TriBool::True
        } else {
            TriBool::False
        }
    }
}

/// Equality is symmetric; with `Null` it is definite, and with an unknown
/// value unknown, whatever the other side.
pub proof fn tri_equal_laws(a: Tri, b: Tri)
    ensures
        tri_equal(a, b) == tri_equal(b, a),
        tri_equal(Tri::Unknown, a) == TriBool::Unknown,
        !(a is Unknown) && !(a is Null) ==> tri_equal(Tri::Null, a) == TriBool::False,
        tri_equal(Tri::Null, Tri::Null) == TriBool::True,
{
}

/// Equality with unknowns.
pub fn tri_eq(a: &TriVal, b: &TriVal) -> (r: TriBool)
    ensures
        r == tri_equal(a@, b@),
{
    broadcast use tri_unfold;

    match (a, b) {
        (TriVal::Unknown, _) | (_, TriVal::Unknown) => TriBool::Unknown,
        (TriVal::Null, TriVal::Null) => TriBool::True,
        (TriVal::Null, _) | (_, TriVal::Null) => TriBool::False,
        (TriVal::String(a), TriVal::String(b)) => if str_eq(a.as_str(), b.as_str()) {
            TriBool::True
        } else {
            TriBool::False
        },
        (TriVal::Int(a), TriVal::Int(b)) => if *a == *b {
            TriBool::True
        } else {
            TriBool::False
        },
        (TriVal::Bool(a), TriVal::Bool(b)) => if *a == *b {
            TriBool::True
        } else {
            TriBool::False
        },
        _ => TriBool::False,
    }
}

} // verus!

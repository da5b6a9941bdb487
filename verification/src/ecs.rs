use vstd::prelude::*;

use crate::bundles::{call_outcome, circle_bundle, circle_of_bundle, tagged_at, wf_store, G_MAX, PHYS};

verus! {

broadcast use vstd::std_specs::vec::group_vec_axioms;

/// Fill color of a drawable shape: red, green, blue and alpha channels,
/// each held in thousandths (0 = none, `SCALE` = full intensity).
#[derive(Clone, Copy, PartialEq, Eq, Structural, Debug)]
pub struct Rgba {
    pub r: i64,
    pub g: i64,
    pub b: i64,
    pub a: i64,
}

/// Drawable payload of an entity. Radius and position are fixed-point
/// world measures (thousandths of a unit).
#[derive(Clone, Copy, PartialEq, Eq, Structural, Debug)]
pub enum Shape {
    Circle { radius: i64, color: Rgba, x: i64, y: i64 },
}

/// One tagged component value of an entity.
///
/// The variants mirror the value model: identity tag, drawable payload,
/// behavior handle (a closed set with one member, the physics behavior,
/// together with its registered name), query handle (name only), text,
/// fixed-point number, two-vector, ordered list, boolean, integer, and
/// keyed mapping (keys unique, held as a list of pairs).
pub enum Component {
    GRAPHICS(Shape),
    FUNC(PHYS, String),
    API(String),
    Text(String),
    Float(i64),
    Vec2(Box<Component>, Box<Component>),
    List(Vec<Component>),
    Bool(bool),
    Int(i32),
    Mapping(Vec<(String, Component)>),
    Name(String),
}

/// Type-only mirror of [`Component`], used for schema filtering.
pub enum ComponentType {
    GRAPHICS(Shape),
    FUNC(String),
    API(String),
    Text,
    Float,
    Vec2(Box<ComponentType>, Box<ComponentType>),
    List(Vec<ComponentType>),
    Bool,
    Int,
    Mapping(Vec<(String, ComponentType)>),
    Name(String),
}

/// An entity record: an ordered sequence of component values. By
/// convention slot 0 holds the identity tag.
pub type Bundle = Vec<Component>;

/// Index of the first pair at or after position `i` whose key equals
/// `key`, or -1 when no such pair exists. Mapping keys are unique by
/// convention, so the first pair with the key decides.
pub open spec fn key_index_from(cm: Seq<(String, Component)>, key: Seq<char>, i: int) -> int
    decreases cm.len() - i,
{
    if i < 0 || i >= cm.len() {
        -1
    } else if cm[i].0@ == key {
        i
    } else {
        key_index_from(cm, key, i + 1)
    }
}

/// Structural type equality between a component value and a schema
/// entry: tag equality for scalars, payload equality for drawables and
/// names, recursive element-wise equality for two-vectors and lists,
/// and for mappings every schema key must be present in the component
/// mapping with a type-equal value (extra component keys are ignored).
/// A behavior handle matches no schema entry.
pub open spec fn type_matches(c: Component, t: ComponentType) -> bool
    decreases c,
{
    match (c, t) {
        (Component::GRAPHICS(g), ComponentType::GRAPHICS(s)) => g == s,
        (Component::API(m), ComponentType::API(n)) => m@ == n@,
        (Component::Text(_), ComponentType::Text) => true,
        (Component::Float(_), ComponentType::Float) => true,
        (Component::Vec2(a, b), ComponentType::Vec2(ta, tb)) => type_matches(*a, *ta)
            && type_matches(*b, *tb),
        (Component::List(cs), ComponentType::List(ts)) => cs.len() == ts.len() && (forall|i: int|
            0 <= i < cs.len() ==> type_matches(#[trigger] cs[i], ts[i])),
        (Component::Bool(_), ComponentType::Bool) => true,
        (Component::Int(_), ComponentType::Int) => true,
        (Component::Mapping(cm), ComponentType::Mapping(tm)) => forall|j: int|
            0 <= j < tm.len() ==> {
                let ki = key_index_from(cm@, (#[trigger] tm[j]).0@, 0);
                0 <= ki < cm@.len() && type_matches(cm@[ki].1, tm[j].1)
            },
        (Component::Name(s), ComponentType::Name(s2)) => s@ == s2@,
        _ => false,
    }
}

impl Component {
    /// Decides [`type_matches`] between this component and a schema entry.
    pub fn matches_type(&self, t: &ComponentType) -> (r: bool)
        ensures
            r == type_matches(*self, *t),
        decreases *self,
    {
        match (self, t) {
            (Component::GRAPHICS(g), ComponentType::GRAPHICS(s)) => *g == *s,
            (Component::API(m), ComponentType::API(n)) => *m == *n,
            (Component::Text(_), ComponentType::Text) => true,
            (Component::Float(_), ComponentType::Float) => true,
            (Component::Vec2(a, b), ComponentType::Vec2(ta, tb)) => {
                let first: bool = a.matches_type(ta);
                first && b.matches_type(tb)
            },
            (Component::List(cs), ComponentType::List(ts)) => list_matches(cs, ts),
            (Component::Bool(_), ComponentType::Bool) => true,
            (Component::Int(_), ComponentType::Int) => true,
            (Component::Mapping(cm), ComponentType::Mapping(tm)) => mapping_matches(cm, tm),
            (Component::Name(s), ComponentType::Name(s2)) => *s == *s2,
            _ => false,
        }
    }
}


/// Decides the list clause of [`type_matches`]: equal length and
/// element-wise type equality.
fn list_matches(cs: &Vec<Component>, ts: &Vec<ComponentType>) -> (r: bool)
    ensures
        r == (cs@.len() == ts@.len() && (forall|i: int|
            0 <= i < cs@.len() ==> type_matches(#[trigger] cs@[i], ts@[i]))),
    decreases *cs,
{
    if cs.len() != ts.len() {
        return false;
    }
    let mut i: usize = 0;
    while i < cs.len()
        invariant
            0 <= i <= cs.len(),
            cs.len() == ts.len(),
            forall|k: int| 0 <= k < i ==> type_matches(#[trigger] cs@[k], ts@[k]),
        decreases cs.len() - i,
    {
        proof {
            vstd::seq::axiom_seq_index_decreases::<Component>(cs@, i as int);
        }
        if !cs[i].matches_type(&ts[i]) {
            assert(!type_matches(cs@[i as int], ts@[i as int]));
            return false;
        }
        i = i + 1;
    }
    true
}

/// Decides the mapping clause of [`type_matches`]: every schema key is
/// present in the component mapping with a type-equal value.
fn mapping_matches(cm: &Vec<(String, Component)>, tm: &Vec<(String, ComponentType)>) -> (r: bool)
    ensures
        r == (forall|j: int|
            0 <= j < tm@.len() ==> {
                let ki = key_index_from(cm@, (#[trigger] tm@[j]).0@, 0);
                0 <= ki < cm@.len() && type_matches(cm@[ki].1, tm@[j].1)
            }),
    decreases *cm,
{
    let mut j: usize = 0;
    while j < tm.len()
        invariant
            0 <= j <= tm@.len(),
            forall|jj: int|
                0 <= jj < j ==> {
                    let ki = key_index_from(cm@, (#[trigger] tm@[jj]).0@, 0);
                    0 <= ki < cm@.len() && type_matches(cm@[ki].1, tm@[jj].1)
                },
        decreases tm@.len() - j,
    {
        let mut i: usize = 0;
        loop
            invariant
                0 <= i <= cm@.len(),
                0 <= j < tm@.len(),
                key_index_from(cm@, tm@[j as int].0@, 0) == key_index_from(
                    cm@,
                    tm@[j as int].0@,
                    i as int,
                ),
            ensures
                ({
                    let ki = key_index_from(cm@, tm@[j as int].0@, 0);
                    0 <= ki < cm@.len() && type_matches(cm@[ki].1, tm@[j as int].1)
                }),
            decreases cm@.len() - i,
        {
            if i == cm.len() {
                proof {
                    assert(key_index_from(cm@, tm@[j as int].0@, i as int) == -1);
                }
                return false;
            }
            if cm[i].0 == tm[j].0 {
                proof {
                    assert(key_index_from(cm@, tm@[j as int].0@, i as int) == i as int);
                    vstd::seq::axiom_seq_index_decreases::<(String, Component)>(cm@, i as int);
                }
                if cm[i].1.matches_type(&tm[j].1) {
                    break;
                } else {
                    return false;
                }
            }
            proof {
                assert(key_index_from(cm@, tm@[j as int].0@, i as int) == key_index_from(
                    cm@,
                    tm@[j as int].0@,
                    i + 1,
                ));
            }
            i = i + 1;
        }
        j = j + 1;
    }
    true
}

/// Positional prefix match of an entity against a schema: the two
/// sequences must be pairwise type-equal for as many positions as the
/// shorter one covers. An empty schema matches every entity.
pub open spec fn bundle_matches(b: Seq<Component>, s: Seq<ComponentType>) -> bool {
    forall|i: int|
        0 <= i < b.len() && i < s.len() ==> type_matches(#[trigger] b[i], s[i])
}

/// Decides [`bundle_matches`].
pub fn bundle_matches_exec(b: &Bundle, s: &Vec<ComponentType>) -> (r: bool)
    ensures
        r == bundle_matches(b@, s@),
{
    let n: usize = if b.len() < s.len() {
        b.len()
    } else {
        s.len()
    };
    let mut i: usize = 0;
    while i < n
        invariant
            0 <= i <= n,
            n <= b.len(),
            n <= s.len(),
            n == if b@.len() < s@.len() {
                b@.len()
            } else {
                s@.len()
            },
            forall|k: int| 0 <= k < i ==> type_matches(#[trigger] b@[k], s@[k]),
        decreases n - i,
    {
        if !b[i].matches_type(&s[i]) {
            return false;
        }
        i = i + 1;
    }
    true
}

} // verus!

verus! {

/// Indices below `n` of the entities whose bundle prefix-matches the
/// schema, in ascending order.
pub open spec fn matching_up_to(es: Seq<Bundle>, sch: Seq<ComponentType>, n: int) -> Seq<usize>
    decreases n,
{
    if n <= 0 {
        Seq::empty()
    } else {
        let p = matching_up_to(es, sch, n - 1);
        if bundle_matches(es[n - 1]@, sch) {
            p.push((n - 1) as usize)
        } else {
            p
        }
    }
}

/// The bundle's identity tag (slot 0) equals `name`.
pub open spec fn bundle_has_name(b: Seq<Component>, name: Seq<char>) -> bool {
    b.len() > 0 && (b[0] matches Component::Name(n) && n@ == name)
}

/// The entities whose identity tag is not `name`, in their previous
/// order.
pub open spec fn keep_unnamed(es: Seq<Bundle>, name: Seq<char>) -> Seq<Bundle>
    decreases es.len(),
{
    if es.len() == 0 {
        Seq::empty()
    } else {
        let p = keep_unnamed(es.drop_last(), name);
        if bundle_has_name(es.last()@, name) {
            p
        } else {
            p.push(es.last())
        }
    }
}

/// Registered name of a system.
pub open spec fn system_name_spec(s: System) -> Seq<char> {
    match s {
        System::Start(_) => "Start"@,
    }
}

/// The systems whose registered name differs from `name`, in order.
pub open spec fn keep_systems(ss: Seq<System>, name: Seq<char>) -> Seq<System>
    decreases ss.len(),
{
    if ss.len() == 0 {
        Seq::empty()
    } else {
        let p = keep_systems(ss.drop_last(), name);
        if system_name_spec(ss.last()) == name {
            p
        } else {
            p.push(ss.last())
        }
    }
}

/// Decides [`bundle_has_name`].
pub fn bundle_has_name_exec(b: &Bundle, name: &String) -> (r: bool)
    ensures
        r == bundle_has_name(b@, name@),
{
    if b.len() == 0 {
        return false;
    }
    match &b[0] {
        Component::Name(n) => *n == *name,
        _ => false,
    }
}

/// A registered system: a closed set of behavior kinds dispatched by
/// tag. The only kind is the one-shot bootstrap.
#[derive(Clone, Copy, PartialEq, Eq, Structural, Debug)]
pub enum System {
    Start(crate::boot::Start),
}

impl System {
    /// Registered name of this system.
    pub fn name(&self) -> (r: String)
        ensures
            r@ == system_name_spec(*self),
    {
        match self {
            System::Start(s) => s.name(),
        }
    }

    /// Schema that selects the entities this system asks for.
    pub fn contains(&self) -> (r: Vec<ComponentType>)
        ensures
            r@ == system_schema_spec(*self),
    {
        match self {
            System::Start(s) => s.contains(),
        }
    }
}

/// Schema a system declares; the bootstrap declares the empty schema.
pub open spec fn system_schema_spec(s: System) -> Seq<ComponentType> {
    match s {
        System::Start(_) => Seq::empty(),
    }
}

/// The entity-component store: it owns every entity record and every
/// registered system, together with the canvas size in fixed-point
/// world units that the physics behavior reads.
pub struct ECS {
    pub entitys: Vec<Bundle>,
    pub systems: Vec<System>,
    pub size: (i64, i64),
}

/// Accumulates entities and systems before the store starts running.
pub struct Builder {
    pub entitys: Vec<Bundle>,
    pub systems: Vec<System>,
}

impl Builder {
    /// Registers one more system.
    pub fn add(self, system: System) -> (r: Builder)
        ensures
            r.entitys@ == self.entitys@,
            r.systems@ == self.systems@.push(system),
    {
        let mut systems = self.systems;
        systems.push(system);
        Builder { systems, ..self }
    }
}

impl ECS {
    /// An empty builder: no entities, no systems.
    pub fn start() -> (b: Builder)
        ensures
            b.entitys@.len() == 0,
            b.systems@.len() == 0,
    {
        Builder { entitys: Vec::new(), systems: Vec::new() }
    }

    /// Appends an entity record; no uniqueness check is made.
    pub fn add_entity(&mut self, entity: Bundle)
        ensures
            final(self).entitys@ == old(self).entitys@.push(entity),
            final(self).systems@ == old(self).systems@,
            final(self).size == old(self).size,
    {
        self.entitys.push(entity);
    }

    /// Registers a system at the end of the list.
    pub fn add_system(&mut self, system: System)
        ensures
            final(self).systems@ == old(self).systems@.push(system),
            final(self).entitys@ == old(self).entitys@,
            final(self).size == old(self).size,
    {
        self.systems.push(system);
    }

    /// Indices of every entity whose components, compared positionally
    /// against the schema from slot 0, are pairwise type-equal for as
    /// many positions as the shorter sequence covers. An empty schema
    /// selects every entity; trailing components on either side are
    /// never inspected.
    pub fn with(&self, vec: &Vec<ComponentType>) -> (r: Vec<usize>)
        ensures
            r@ == matching_up_to(self.entitys@, vec@, self.entitys@.len() as int),
    {
        let mut r: Vec<usize> = Vec::new();
        let mut i: usize = 0;
        while i < self.entitys.len()
            invariant
                0 <= i <= self.entitys@.len(),
                r@ == matching_up_to(self.entitys@, vec@, i as int),
        decreases self.entitys@.len() - i,
        {
            if bundle_matches_exec(&self.entitys[i], vec) {
                r.push(i);
            }
            i = i + 1;
        }
        r
    }

    /// Removes every entity whose identity tag equals the given
    /// value; a no-op when none matches.
    pub fn remove_entity(&mut self, name: String)
        ensures
            final(self).entitys@ == keep_unnamed(old(self).entitys@, name@),
            final(self).systems@ == old(self).systems@,
            final(self).size == old(self).size,
    {
        let ghost orig: Seq<Bundle> = self.entitys@;
        let mut i: usize = 0;
        let ghost mut p: int = 0;
        while i < self.entitys.len()
            invariant
                0 <= p <= orig.len(),
                i as int == keep_unnamed(orig.take(p), name@).len(),
                self.entitys@ == keep_unnamed(orig.take(p), name@) + orig.skip(p),
                self.systems@ == old(self).systems@,
                self.size == old(self).size,
            decreases orig.len() - p,
        {
            proof {
                assert(orig.take(p + 1).drop_last() =~= orig.take(p));
                assert(orig.take(p + 1).last() == orig[p]);
                assert(self.entitys@[i as int] == orig[p]);
            }
            if bundle_has_name_exec(&self.entitys[i], &name) {
                self.entitys.remove(i);
                proof {
                    p = p + 1;
                    assert(self.entitys@ =~= keep_unnamed(orig.take(p), name@) + orig.skip(p));
                }
            } else {
                i = i + 1;
                proof {
                    p = p + 1;
                    assert(keep_unnamed(orig.take(p), name@) == keep_unnamed(
                        orig.take(p - 1),
                        name@,
                    ).push(orig[p - 1]));
                    assert(self.entitys@ =~= keep_unnamed(orig.take(p), name@) + orig.skip(p));
                }
            }
        }
        proof {
            assert(p == orig.len());
            assert(orig.take(p) =~= orig);
            assert(orig.skip(p) =~= Seq::<Bundle>::empty());
            assert(self.entitys@ =~= keep_unnamed(orig, name@));
        }
    }

    /// Removes every system whose registered name equals `name`.
    pub fn remove_system(&mut self, name: String)
        ensures
            final(self).systems@ == keep_systems(old(self).systems@, name@),
            final(self).entitys@ == old(self).entitys@,
            final(self).size == old(self).size,
    {
        let ghost orig: Seq<System> = self.systems@;
        let mut i: usize = 0;
        let ghost mut p: int = 0;
        while i < self.systems.len()
            invariant
                0 <= p <= orig.len(),
                i as int == keep_systems(orig.take(p), name@).len(),
                self.systems@ == keep_systems(orig.take(p), name@) + orig.skip(p),
                self.entitys@ == old(self).entitys@,
                self.size == old(self).size,
            decreases orig.len() - p,
        {
            proof {
                assert(orig.take(p + 1).drop_last() =~= orig.take(p));
                assert(orig.take(p + 1).last() == orig[p]);
                assert(self.systems@[i as int] == orig[p]);
            }
            let n = self.systems[i].name();
            if n == name {
                self.systems.remove(i);
                proof {
                    p = p + 1;
                    assert(self.systems@ =~= keep_systems(orig.take(p), name@) + orig.skip(p));
                }
            } else {
                i = i + 1;
                proof {
                    p = p + 1;
                    assert(keep_systems(orig.take(p), name@) == keep_systems(
                        orig.take(p - 1),
                        name@,
                    ).push(orig[p - 1]));
                    assert(self.systems@ =~= keep_systems(orig.take(p), name@) + orig.skip(p));
                }
            }
        }
        proof {
            assert(p == orig.len());
            assert(orig.take(p) =~= orig);
            assert(self.systems@ =~= keep_systems(orig, name@));
        }
    }
}

} // verus!

verus! {

/// `std::time::Instant` is opaque to the verifier; it is declared so
/// that it can sit in a field and pass through the trusted clock
/// wrappers below.
#[verifier::external_type_specification]
#[verifier::external_body]
pub struct ExInstant(std::time::Instant);

/// Relies on std::time::Instant::now: an opaque reading of the
/// monotonic clock. Nothing can be promised of its value.
#[verifier::external_body]
fn instant_now() -> std::time::Instant {
    std::time::Instant::now()
}

/// Relies on std::time::Instant::elapsed: the time since that
/// instant, which depends on when the call runs.
#[verifier::external_body]
fn instant_elapsed(i: &std::time::Instant) -> core::time::Duration {
    i.elapsed()
}

/// Relies on core::time::Duration's ordering: whether `a` is longer
/// than `b`. Duration is opaque here, so no more is stated.
#[verifier::external_body]
fn duration_gt(a: &core::time::Duration, b: &core::time::Duration) -> bool {
    a > b
}

/// A fixed-period timer that paces the scheduler loop.
pub struct Waiter {
    pub time: core::time::Duration,
    pub start: std::time::Instant,
}

impl Waiter {
    /// A timer with the given period, started now.
    pub fn new(time: core::time::Duration) -> (w: Waiter)
        ensures
            w.time == time,
    {
        Waiter { time, start: instant_now() }
    }

    /// True, and restarts the period, exactly when the period has
    /// elapsed since the last restart. The period itself never
    /// changes.
    pub fn update(&mut self) -> (r: bool)
        ensures
            final(self).time == old(self).time,
    {
        let e = instant_elapsed(&self.start);
        if duration_gt(&e, &self.time) {
            self.start = instant_now();
            true
        } else {
            false
        }
    }

    /// Restarts the period without reporting anything.
    pub fn reset(&mut self)
        ensures
            final(self).time == old(self).time,
    {
        self.start = instant_now();
    }

    /// Time elapsed since the last restart.
    pub fn time(&self) -> core::time::Duration {
        instant_elapsed(&self.start)
    }

    /// Spins until the period has elapsed since the last restart.
    /// The spin carries an iteration bound far beyond any real clock
    /// so that it provably terminates.
    pub fn wait(&mut self)
        ensures
            *final(self) == *old(self),
    {
        let mut k: u64 = 0;
        while k < 18446744073709551615
            invariant
                *self == *old(self),
            decreases 18446744073709551615u64 - k,
        {
            let e = instant_elapsed(&self.start);
            if duration_gt(&e, &self.time) {
                return ;
            }
            k = k + 1;
        }
    }
}

/// A single-owner cell with a count of the handles taken from it: it
/// owns its value outright, and `clone` duplicates the value instead
/// of sharing it.
pub struct Ref<T> {
    pub value: T,
    pub rc: usize,
}

impl<T> Ref<T> {
    /// Wraps a value with a reference count of one.
    pub fn new(t: T) -> (r: Ref<T>)
        ensures
            r.value == t,
            r.rc == 1,
    {
        Ref { value: t, rc: 1 }
    }

    /// Borrows the value.
    pub fn get(&self) -> (r: &T)
        ensures
            *r == self.value,
    {
        &self.value
    }
}

impl<T: Clone> Ref<T> {
    /// A duplicate handle: the value is cloned and the count grows by
    /// one.
    pub fn clone(&self) -> (r: Ref<T>)
        requires
            self.rc < usize::MAX,
        ensures
            r.rc == self.rc + 1,
    {
        Ref { value: self.value.clone(), rc: self.rc + 1 }
    }
}

} // verus!

verus! {

/// The drawable payloads among the first `j` components of a bundle,
/// in slot order.
pub open spec fn graphics_up_to(b: Seq<Component>, j: int) -> Seq<Shape>
    decreases j,
{
    if j <= 0 {
        Seq::empty()
    } else {
        graphics_up_to(b, j - 1) + (match b[j - 1] {
            Component::GRAPHICS(g) => seq![g],
            _ => Seq::empty(),
        })
    }
}

/// Every drawable payload of the first `i` entities, in store order.
pub open spec fn all_graphics(es: Seq<Bundle>, i: int) -> Seq<Shape>
    decreases i,
{
    if i <= 0 {
        Seq::empty()
    } else {
        all_graphics(es, i - 1) + graphics_up_to(es[i - 1]@, es[i - 1]@.len() as int)
    }
}

/// The behavior payloads among the first `j` components of a bundle,
/// in slot order.
pub open spec fn func_payloads(b: Seq<Component>, j: int) -> Seq<PHYS>
    decreases j,
{
    if j <= 0 {
        Seq::empty()
    } else {
        func_payloads(b, j - 1) + (match b[j - 1] {
            Component::FUNC(p, _n) => seq![p],
            _ => Seq::empty(),
        })
    }
}

/// One behavior invocation on entity `i` with gravity `g`: when the
/// index is valid, the store is inside the working range and the
/// gravity is in range, the stores are related by
/// [`crate::bundles::call_outcome`] through a tagged intermediate;
/// otherwise the store is unchanged.
pub open spec fn call_step(es_a: Seq<Bundle>, es_b: Seq<Bundle>, i: int, g: i64) -> bool {
    if i < es_a.len() && wf_store(es_a) && 0 <= g <= G_MAX {
        exists|t: Seq<Bundle>, t2: Seq<Bundle>|
            tagged_at(t, es_a, i) && #[trigger] call_outcome(es_a, es_b, i, g, t, t2)
    } else {
        es_b == es_a
    }
}

/// A trace of one entity visit: `tr` lists the store before and after
/// each behavior invocation of entity `i`, one invocation for each
/// behavior payload the entity held when the visit began.
pub open spec fn visit_trace(tr: Seq<Seq<Bundle>>, a: Seq<Bundle>, b: Seq<Bundle>, i: int) -> bool {
    let ps = func_payloads(a[i]@, a[i]@.len() as int);
    &&& tr.len() == ps.len() + 1
    &&& tr[0] == a
    &&& tr[ps.len() as int] == b
    &&& forall|k: int|
        0 <= k < ps.len() ==> call_step(#[trigger] tr[k], tr[k + 1], i, ps[k].gravity)
}

/// The stores are related by one entity visit: some trace of behavior
/// invocations leads from `a` to `b`.
pub open spec fn visit_rel(a: Seq<Bundle>, b: Seq<Bundle>, i: int) -> bool {
    exists|tr: Seq<Seq<Bundle>>| #[trigger] visit_trace(tr, a, b, i)
}

/// A trace of a whole dispatch: `vtr` lists the store before and after
/// each of the `n` entity visits, in store order.
pub open spec fn dispatch_trace(vtr: Seq<Seq<Bundle>>, a: Seq<Bundle>, b: Seq<Bundle>, n: int) -> bool {
    &&& vtr.len() == n + 1
    &&& vtr[0] == a
    &&& vtr[n] == b
    &&& forall|v: int| 0 <= v < n ==> visit_rel(#[trigger] vtr[v], vtr[v + 1], v)
}

/// The stores are related by visiting entities `0..n` in order, each
/// visit invoking that entity's behavior handles (as they stand when
/// the visit begins) on the store.
pub open spec fn dispatch_rel(a: Seq<Bundle>, b: Seq<Bundle>, n: int) -> bool {
    exists|vtr: Seq<Seq<Bundle>>| #[trigger] dispatch_trace(vtr, a, b, n)
}

/// Some slot of the bundle is a behavior handle.
pub open spec fn has_behavior(b: Seq<Component>) -> bool {
    exists|j: int| 0 <= j < b.len() && (#[trigger] b[j]) is FUNC
}

/// Every registered system is the bootstrap (the closed set has one
/// member), so removing the bootstrap's name empties the list.
pub proof fn lemma_keep_all_start(ss: Seq<System>)
    ensures
        keep_systems(ss, "Start"@).len() == 0,
    decreases ss.len(),
{
    if ss.len() > 0 {
        lemma_keep_all_start(ss.drop_last());
    }
}

impl ECS {
    /// Runs registered systems, in registration order, until the
    /// system list is empty: each system is handed the indices of the
    /// entities matching its declared schema and full store access.
    /// The only registered kind is the one-shot bootstrap, which
    /// spawns its particles and deregisters every system carrying its
    /// name, so the first round already empties the list.
    pub fn run_systems(&mut self)
        requires
            old(self).entitys@.len() + crate::boot::SPAWN_COUNT <= usize::MAX,
        ensures
            final(self).size == old(self).size,
            final(self).systems@.len() == 0,
            old(self).systems@.len() == 0 ==> *final(self) == *old(self),
            old(self).systems@.len() > 0 ==> {
                &&& final(self).entitys@.len() == old(self).entitys@.len()
                    + crate::boot::SPAWN_COUNT
                &&& (forall|k: int|
                    0 <= k < old(self).entitys@.len() ==> final(self).entitys@[k] == old(
                        self,
                    ).entitys@[k])
                &&& (forall|k: int|
                    old(self).entitys@.len() <= k < final(self).entitys@.len()
                        ==> crate::bundles::atom_shape(#[trigger] final(self).entitys@[k]@))
            },
    {
        while self.systems.len() > 0
            invariant
                old(self).entitys@.len() + crate::boot::SPAWN_COUNT <= usize::MAX,
                self.size == old(self).size,
                self.systems@.len() > 0 ==> *self == *old(self),
                self.systems@.len() == 0 && old(self).systems@.len() == 0 ==> *self == *old(self),
                self.systems@.len() == 0 && old(self).systems@.len() > 0 ==> {
                    &&& self.entitys@.len() == old(self).entitys@.len()
                        + crate::boot::SPAWN_COUNT
                    &&& (forall|k: int|
                        0 <= k < old(self).entitys@.len() ==> self.entitys@[k] == old(
                            self,
                        ).entitys@[k])
                    &&& (forall|k: int|
                        old(self).entitys@.len() <= k < self.entitys@.len()
                            ==> crate::bundles::atom_shape(#[trigger] self.entitys@[k]@))
                },
            decreases self.systems@.len(),
        {
            let sys = self.systems[0];
            let schema = sys.contains();
            let view = self.with(&schema);
            match sys {
                System::Start(st) => {
                    st.update(view, self);
                },
            }
            proof {
                lemma_keep_all_start(old(self).systems@);
            }
        }
    }

    /// Behavior-and-drawable dispatch for this tick: walks the
    /// entities in store order; each entity's drawable shapes are
    /// collected (as they stand when that entity is visited) and each
    /// behavior handle is invoked on its owning entity with full
    /// store access. The resulting store is related to the old one by
    /// [`dispatch_rel`]: one [`call_step`] per behavior handle, per
    /// entity, in order. The entity count never changes; a store with
    /// no behavior handles is returned unchanged with exactly its
    /// drawables, in order; and every entity a behavior rewrote ends
    /// as a written-back circle bundle.
    pub fn dispatch(&mut self) -> (shapes: Vec<Shape>)
        ensures
            final(self).entitys@.len() == old(self).entitys@.len(),
            final(self).systems@ == old(self).systems@,
            final(self).size == old(self).size,
            dispatch_rel(
                old(self).entitys@,
                final(self).entitys@,
                old(self).entitys@.len() as int,
            ),
            (forall|k: int|
                0 <= k < old(self).entitys@.len() ==> !has_behavior(
                    #[trigger] old(self).entitys@[k]@,
                )) ==> final(self).entitys@ == old(self).entitys@ && shapes@ == all_graphics(
                old(self).entitys@,
                old(self).entitys@.len() as int,
            ),
            forall|k: int|
                0 <= k < old(self).entitys@.len() ==> (#[trigger] final(self).entitys@[k]) == old(
                    self,
                ).entitys@[k] || circle_bundle(
                    final(self).entitys@[k]@,
                    circle_of_bundle(final(self).entitys@[k]@),
                ),
    {
        let ghost es0: Seq<Bundle> = old(self).entitys@;
        let ghost mut vtr: Seq<Seq<Bundle>> = seq![es0];
        let mut shapes: Vec<Shape> = Vec::new();
        let mut i: usize = 0;
        while i < self.entitys.len()
            invariant
                es0 == old(self).entitys@,
                self.entitys@.len() == es0.len(),
                self.systems@ == old(self).systems@,
                self.size == old(self).size,
                0 <= i <= self.entitys@.len(),
                vtr.len() == i + 1,
                vtr[0] == es0,
                vtr[i as int] == self.entitys@,
                forall|v: int| 0 <= v < i ==> visit_rel(#[trigger] vtr[v], vtr[v + 1], v),
                (forall|k: int|
                    0 <= k < es0.len() ==> !has_behavior(#[trigger] es0[k]@)) ==> self.entitys@
                    == es0 && shapes@ == all_graphics(es0, i as int),
                forall|k: int|
                    0 <= k < es0.len() ==> (#[trigger] self.entitys@[k]) == es0[k]
                        || circle_bundle(
                        self.entitys@[k]@,
                        circle_of_bundle(self.entitys@[k]@),
                    ),
            decreases self.entitys@.len() - i,
        {
            let ghost es_visit: Seq<Bundle> = self.entitys@;
            let mut funcs: Vec<PHYS> = Vec::new();
            let mut j: usize = 0;
            while j < self.entitys[i].len()
                invariant
                    es0 == old(self).entitys@,
                    0 <= i < self.entitys@.len(),
                    0 <= j <= self.entitys@[i as int]@.len(),
                    self.entitys@ == es_visit,
                    self.entitys@.len() == es0.len(),
                    self.systems@ == old(self).systems@,
                    self.size == old(self).size,
                    funcs@ == func_payloads(es_visit[i as int]@, j as int),
                    (forall|k: int|
                        0 <= k < es0.len() ==> !has_behavior(#[trigger] es0[k]@))
                        ==> self.entitys@ == es0 && funcs@.len() == 0 && shapes@ == all_graphics(
                        es0,
                        i as int,
                    ) + graphics_up_to(es0[i as int]@, j as int),
                    forall|k: int|
                        0 <= k < es0.len() ==> (#[trigger] self.entitys@[k]) == es0[k]
                            || circle_bundle(
                            self.entitys@[k]@,
                            circle_of_bundle(self.entitys@[k]@),
                        ),
                decreases self.entitys@[i as int]@.len() - j,
            {
                match &self.entitys[i][j] {
                    Component::GRAPHICS(g) => {
                        shapes.push(*g);
                    },
                    Component::FUNC(p, _n) => {
                        proof {
                            assert(has_behavior(self.entitys@[i as int]@));
                        }
                        funcs.push(*p);
                    },
                    _ => {},
                }
                proof {
                    let b0 = es_visit[i as int]@;
                    assert(func_payloads(b0, j + 1) == func_payloads(b0, j as int) + (
                    match b0[j as int] {
                        Component::FUNC(p, _n) => seq![p],
                        _ => Seq::empty(),
                    }));
                    assert(funcs@ =~= func_payloads(b0, j + 1));
                    if (forall|k: int|
                        0 <= k < es0.len() ==> !has_behavior(#[trigger] es0[k]@)) {
                        let be = es0[i as int]@;
                        assert(graphics_up_to(be, j + 1) == graphics_up_to(be, j as int) + (
                        match be[j as int] {
                            Component::GRAPHICS(g) => seq![g],
                            _ => Seq::empty(),
                        }));
                        assert(shapes@ =~= all_graphics(es0, i as int) + graphics_up_to(
                            be,
                            j + 1,
                        ));
                    }
                }
                j = j + 1;
            }
            proof {
                if (forall|k: int| 0 <= k < es0.len() ==> !has_behavior(#[trigger] es0[k]@)) {
                    assert(all_graphics(es0, i + 1) == all_graphics(es0, i as int)
                        + graphics_up_to(es0[i as int]@, es0[i as int]@.len() as int));
                    assert(shapes@ =~= all_graphics(es0, i + 1));
                }
            }
            let ghost mut ctr: Seq<Seq<Bundle>> = seq![es_visit];
            let mut f: usize = 0;
            while f < funcs.len()
                invariant
                    es0 == old(self).entitys@,
                    self.entitys@.len() == es0.len(),
                    self.systems@ == old(self).systems@,
                    self.size == old(self).size,
                    0 <= i < self.entitys@.len(),
                    0 <= f <= funcs@.len(),
                    funcs@ == func_payloads(es_visit[i as int]@, es_visit[i as int]@.len() as int),
                    ctr.len() == f + 1,
                    ctr[0] == es_visit,
                    ctr[f as int] == self.entitys@,
                    forall|k: int|
                        0 <= k < f ==> call_step(
                            #[trigger] ctr[k],
                            ctr[k + 1],
                            i as int,
                            funcs@[k].gravity,
                        ),
                    (forall|k: int|
                        0 <= k < es0.len() ==> !has_behavior(#[trigger] es0[k]@)) ==> funcs@.len()
                        == 0 && self.entitys@ == es0 && shapes@ == all_graphics(es0, i + 1),
                    forall|k: int|
                        0 <= k < es0.len() ==> (#[trigger] self.entitys@[k]) == es0[k]
                            || circle_bundle(
                            self.entitys@[k]@,
                            circle_of_bundle(self.entitys@[k]@),
                        ),
                decreases funcs@.len() - f,
            {
                let ghost pre: Seq<Bundle> = self.entitys@;
                let mut p: PHYS = funcs[f];
                p.call(self, i);
                proof {
                    assert(call_step(pre, self.entitys@, i as int, funcs@[f as int].gravity));
                    ctr = ctr.push(self.entitys@);
                    assert forall|k: int|
                        0 <= k < es0.len() implies (#[trigger] self.entitys@[k]) == es0[k]
                            || circle_bundle(
                            self.entitys@[k]@,
                            circle_of_bundle(self.entitys@[k]@),
                        ) by {
                        if self.entitys@[k] == pre[k] {
                            assert(pre[k] == es0[k] || circle_bundle(
                                pre[k]@,
                                circle_of_bundle(pre[k]@),
                            ));
                        }
                    }
                }
                f = f + 1;
            }
            proof {
                assert(visit_trace(ctr, es_visit, self.entitys@, i as int));
                assert(visit_rel(es_visit, self.entitys@, i as int));
                vtr = vtr.push(self.entitys@);
            }
            i = i + 1;
        }
        proof {
            assert(dispatch_trace(vtr, es0, self.entitys@, es0.len() as int));
            assert(dispatch_rel(es0, self.entitys@, es0.len() as int));
        }
        shapes
    }

    /// One scheduler tick: run the registered systems until the list
    /// empties, then dispatch every entity's drawables and behaviors.
    /// After the tick the system list is empty and the entity count
    /// equals the old count plus one bootstrap population if (and only
    /// if) any system was still registered. On steady-state ticks
    /// (no system registered) the dispatch guarantees pass through:
    /// a behavior-free store comes back unchanged with exactly its
    /// drawables, and every entity a behavior rewrote ends as a
    /// written-back circle bundle.
    pub fn tick(&mut self) -> (shapes: Vec<Shape>)
        requires
            old(self).entitys@.len() + crate::boot::SPAWN_COUNT <= usize::MAX,
        ensures
            final(self).size == old(self).size,
            final(self).systems@.len() == 0,
            old(self).systems@.len() == 0 ==> final(self).entitys@.len() == old(
                self,
            ).entitys@.len(),
            old(self).systems@.len() > 0 ==> final(self).entitys@.len() == old(
                self,
            ).entitys@.len() + crate::boot::SPAWN_COUNT,
            (old(self).systems@.len() == 0 && (forall|k: int|
                0 <= k < old(self).entitys@.len() ==> !has_behavior(
                    #[trigger] old(self).entitys@[k]@,
                ))) ==> final(self).entitys@ == old(self).entitys@ && shapes@ == all_graphics(
                old(self).entitys@,
                old(self).entitys@.len() as int,
            ),
            old(self).systems@.len() == 0 ==> (forall|k: int|
                0 <= k < old(self).entitys@.len() ==> (#[trigger] final(self).entitys@[k]) == old(
                    self,
                ).entitys@[k] || circle_bundle(
                    final(self).entitys@[k]@,
                    circle_of_bundle(final(self).entitys@[k]@),
                )),
            old(self).systems@.len() == 0 ==> dispatch_rel(
                old(self).entitys@,
                final(self).entitys@,
                old(self).entitys@.len() as int,
            ),
    {
        self.run_systems();
        self.dispatch()
    }
}

} // verus!

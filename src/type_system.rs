use vstd::prelude::*;
use vstd::set_lib::{lemma_int_range, lemma_len_subset, set_int_range};

verus! {

/// Width of an unsigned integer type.
#[derive(Clone, Copy, PartialEq, Eq, Structural, Debug, Hash)]
pub enum IntegerBits {
    Eight,
    Sixteen,
    ThirtyTwo,
    SixtyFour,
}

/// Handle of a slot in the type engine.
#[derive(Clone, Copy, PartialEq, Eq, Structural, Debug, Hash)]
pub struct TypeId {
    pub index: usize,
}

/// Handle of a declaration in the declaration engine.
#[derive(Clone, Copy, PartialEq, Eq, Structural, Debug, Hash)]
pub struct DeclarationId {
    pub index: usize,
}

/// A declaration handle together with its cached display name.
#[derive(Debug)]
pub struct DeclarationRef {
    pub id: DeclarationId,
    pub name: String,
}

/// A type descriptor.
#[derive(Debug)]
pub enum TypeInfo {
    Unknown,
    UnknownGeneric { name: String },
    Ref(TypeId),
    DeclarationRef { decl: DeclarationRef, type_arguments: Vec<TypeId> },
    UnsignedInteger(IntegerBits),
}

impl Default for TypeInfo {
    fn default() -> (r: TypeInfo)
        ensures
            r == TypeInfo::Unknown,
    {
        TypeInfo::Unknown
    }
}

impl DeclarationRef {
    pub fn copy(&self) -> (r: DeclarationRef)
        ensures
            r == *self,
    {
        DeclarationRef { id: self.id, name: self.name.clone() }
    }
}

pub fn copy_type_ids(v: &Vec<TypeId>) -> (r: Vec<TypeId>)
    ensures
        r@ == v@,
{
    let mut r: Vec<TypeId> = Vec::new();
    let mut i: usize = 0;
    while i < v.len()
        invariant
            i <= v.len(),
            r@ == v@.subrange(0, i as int),
        decreases v.len() - i,
    {
        r.push(v[i]);
        i = i + 1;
    }
    assert(r@ =~= v@);
    r
}

impl TypeInfo {
    /// A deep copy.
    pub fn copy(&self) -> (r: TypeInfo)
        ensures
            r.view_eq(*self),
    {
        match self {
            TypeInfo::Unknown => TypeInfo::Unknown,
            TypeInfo::UnknownGeneric { name } => TypeInfo::UnknownGeneric { name: name.clone() },
            TypeInfo::Ref(t) => TypeInfo::Ref(*t),
            TypeInfo::DeclarationRef { decl, type_arguments } => TypeInfo::DeclarationRef {
                decl: decl.copy(),
                type_arguments: copy_type_ids(type_arguments),
            },
            TypeInfo::UnsignedInteger(b) => TypeInfo::UnsignedInteger(*b),
        }
    }

    /// Equality of descriptors up to the contents of their vectors.
    pub open spec fn view_eq(self, o: TypeInfo) -> bool {
        match (self, o) {
            (TypeInfo::DeclarationRef { decl: d1, type_arguments: a1 },
             TypeInfo::DeclarationRef { decl: d2, type_arguments: a2 }) => d1 == d2 && a1@ == a2@,
            _ => self == o,
        }
    }
}

pub fn t_u8() -> (r: TypeInfo)
    ensures
        r == TypeInfo::UnsignedInteger(IntegerBits::Eight),
{
    TypeInfo::UnsignedInteger(IntegerBits::Eight)
}

pub fn t_u16() -> (r: TypeInfo)
    ensures
        r == TypeInfo::UnsignedInteger(IntegerBits::Sixteen),
{
    TypeInfo::UnsignedInteger(IntegerBits::Sixteen)
}

pub fn t_u32() -> (r: TypeInfo)
    ensures
        r == TypeInfo::UnsignedInteger(IntegerBits::ThirtyTwo),
{
    TypeInfo::UnsignedInteger(IntegerBits::ThirtyTwo)
}

pub fn t_u64() -> (r: TypeInfo)
    ensures
        r == TypeInfo::UnsignedInteger(IntegerBits::SixtyFour),
{
    TypeInfo::UnsignedInteger(IntegerBits::SixtyFour)
}

/// Follows `Ref` links from slot `id`, taking at most `fuel` links. `None` when a
/// slot on the way is unbound or the links go on for longer than `fuel`.
pub open spec fn resolve_fuel(slots: Seq<TypeInfo>, id: int, fuel: nat) -> Option<TypeInfo>
    decreases fuel,
{
    if id < 0 || id >= slots.len() {
        None
    } else {
        match slots[id] {
            TypeInfo::Ref(t) => if fuel == 0 {
                None
            } else {
                resolve_fuel(slots, t.index as int, (fuel - 1) as nat)
            },
            info => Some(info),
        }
    }
}

/// What a slot stands for once every `Ref` on the way has been followed. A chain
/// of links that never ends (a cycle) resolves to nothing.
pub open spec fn resolve(slots: Seq<TypeInfo>, id: int) -> Option<TypeInfo> {
    resolve_fuel(slots, id, slots.len())
}

/// Structural equality of two descriptors: names compared by their characters,
/// `Ref`s by their target slot.
pub open spec fn same_info(a: TypeInfo, b: TypeInfo) -> bool {
    match (a, b) {
        (TypeInfo::Unknown, TypeInfo::Unknown) => true,
        (TypeInfo::UnknownGeneric { name: x }, TypeInfo::UnknownGeneric { name: y }) => x@ == y@,
        (TypeInfo::Ref(x), TypeInfo::Ref(y)) => x == y,
        (
            TypeInfo::DeclarationRef { decl: d1, type_arguments: a1 },
            TypeInfo::DeclarationRef { decl: d2, type_arguments: a2 },
        ) => d1.id == d2.id && d1.name@ == d2.name@ && a1@ == a2@,
        (TypeInfo::UnsignedInteger(x), TypeInfo::UnsignedInteger(y)) => x == y,
        _ => false,
    }
}

/// Two handles stand for the same type: the same slot, or slots that resolve
/// to structurally equal descriptors.
pub open spec fn same_type(slots: Seq<TypeInfo>, a: TypeId, b: TypeId) -> bool {
    a == b || (resolve(slots, a.index as int) matches Some(x) && resolve(slots, b.index as int) matches Some(y)
        && same_info(x, y))
}

fn ids_equal(a: &Vec<TypeId>, b: &Vec<TypeId>) -> (r: bool)
    ensures
        r == (a@ == b@),
{
    if a.len() != b.len() {
        return false;
    }
    let mut i: usize = 0;
    while i < a.len()
        invariant
            a@.len() == b@.len(),
            i <= a@.len(),
            forall|j: int| 0 <= j < i ==> a@[j] == b@[j],
        decreases a.len() - i,
    {
        if a[i] != b[i] {
            return false;
        }
        i = i + 1;
    }
    assert(a@ =~= b@);
    true
}

impl TypeInfo {
    /// Structural equality, as `same_info`.
    pub fn same(&self, o: &TypeInfo) -> (r: bool)
        ensures
            r == same_info(*self, *o),
    {
        match (self, o) {
            (TypeInfo::Unknown, TypeInfo::Unknown) => true,
            (TypeInfo::UnknownGeneric { name: x }, TypeInfo::UnknownGeneric { name: y }) => *x == *y,
            (TypeInfo::Ref(x), TypeInfo::Ref(y)) => *x == *y,
            (
                TypeInfo::DeclarationRef { decl: d1, type_arguments: a1 },
                TypeInfo::DeclarationRef { decl: d2, type_arguments: a2 },
            ) => d1.id == d2.id && d1.name == d2.name && ids_equal(a1, a2),
            (TypeInfo::UnsignedInteger(x), TypeInfo::UnsignedInteger(y)) => *x == *y,
            _ => false,
        }
    }
}

/// The slot reached from `i` after `k` steps along `Ref` links (staying put at a
/// slot that is not a `Ref`).
pub open spec fn chain(slots: Seq<TypeInfo>, i: int, k: nat) -> int
    decreases k,
{
    if k == 0 {
        i
    } else {
        let j = chain(slots, i, (k - 1) as nat);
        if 0 <= j < slots.len() && slots[j] is Ref {
            slots[j]->Ref_0.index as int
        } else {
            j
        }
    }
}

pub open spec fn is_ref_slot(slots: Seq<TypeInfo>, j: int) -> bool {
    0 <= j < slots.len() && slots[j] is Ref
}

proof fn lemma_chain_shift(slots: Seq<TypeInfo>, i: int, m: nat)
    requires
        is_ref_slot(slots, i),
    ensures
        chain(slots, i, m + 1) == chain(slots, slots[i]->Ref_0.index as int, m),
    decreases m,
{
    let t = slots[i]->Ref_0.index as int;
    if m > 0 {
        lemma_chain_shift(slots, i, (m - 1) as nat);
        assert(chain(slots, i, m) == chain(slots, t, (m - 1) as nat));
        let j = chain(slots, i, m);
        assert(chain(slots, i, m + 1) == (if 0 <= j < slots.len() && slots[j] is Ref {
            slots[j]->Ref_0.index as int
        } else {
            j
        }));
    } else {
        assert(chain(slots, i, 0) == i);
        assert(chain(slots, i, 1) == t);
    }
}

proof fn lemma_chain_period(slots: Seq<TypeInfo>, i: int, p: nat, q: nat, r: nat)
    requires
        chain(slots, i, p) == chain(slots, i, q),
    ensures
        chain(slots, i, p + r) == chain(slots, i, q + r),
    decreases r,
{
    if r > 0 {
        lemma_chain_period(slots, i, p, q, (r - 1) as nat);
        assert(chain(slots, i, p + r) == chain(slots, i, (p + r - 1) as nat + 1));
    }
}

/// Resolving with one more step of fuel than is needed changes nothing.
proof fn lemma_fuel_mono(slots: Seq<TypeInfo>, i: int, f: nat)
    requires
        resolve_fuel(slots, i, f) is Some,
    ensures
        resolve_fuel(slots, i, f + 1) == resolve_fuel(slots, i, f),
    decreases f,
{
    if f > 0 && slots[i] is Ref {
        lemma_fuel_mono(slots, slots[i]->Ref_0.index as int, (f - 1) as nat);
    }
}

/// When `f` steps of fuel are needed and `f - 1` are not, the first `f` slots of
/// the chain are `Ref`s and the next one is not.
proof fn lemma_exact_fuel(slots: Seq<TypeInfo>, i: int, f: nat, m: nat)
    requires
        resolve_fuel(slots, i, f) is Some,
        f > 0,
        resolve_fuel(slots, i, (f - 1) as nat) is None,
        m <= f,
    ensures
        m < f ==> is_ref_slot(slots, chain(slots, i, m)),
        m == f ==> 0 <= chain(slots, i, m) < slots.len() && !(slots[chain(slots, i, m)] is Ref),
    decreases f,
{
    let t = slots[i]->Ref_0.index as int;
    assert(is_ref_slot(slots, i));
    if m > 0 {
        lemma_chain_shift(slots, i, (m - 1) as nat);
        if f == 1 {
            assert(resolve_fuel(slots, t, 0) is Some);
        } else {
            lemma_exact_fuel(slots, t, (f - 1) as nat, (m - 1) as nat);
        }
    }
}

/// A sequence of distinct numbers in `[0, n)` has at most `n` elements.
pub proof fn lemma_distinct_ints(s: Seq<int>, n: int)
    requires
        n >= 0,
        s.no_duplicates(),
        forall|i: int| 0 <= i < s.len() ==> 0 <= #[trigger] s[i] < n,
    ensures
        s.len() <= n,
{
    s.unique_seq_to_set();
    lemma_int_range(0, n);
    assert(s.to_set().subset_of(set_int_range(0, n)));
    lemma_len_subset(s.to_set(), set_int_range(0, n));
}

/// A slot whose chain resolves, and which a `Ref` slot `a` points to, resolves
/// with one step less than there are slots.
proof fn lemma_resolve_below_len(slots: Seq<TypeInfo>, a: int, c: int)
    requires
        is_ref_slot(slots, a),
        slots[a]->Ref_0.index == c,
        resolve(slots, c) is Some,
    ensures
        resolve_fuel(slots, c, (slots.len() - 1) as nat) == resolve(slots, c),
{
    let n = slots.len();
    if resolve_fuel(slots, c, (n - 1) as nat) is Some {
        lemma_fuel_mono(slots, c, (n - 1) as nat);
    } else {
        // All of a, chain(c, 0), ..., chain(c, n - 1) would be distinct `Ref` slots: n + 1 of them.
        let s = Seq::new((n + 1) as nat, |k: int| if k == 0 { a } else { chain(slots, c, (k - 1) as nat) });
        assert forall|k: int| 0 <= k < s.len() implies 0 <= #[trigger] s[k] < n by {
            if k > 0 {
                lemma_exact_fuel(slots, c, n as nat, (k - 1) as nat);
            }
        }
        assert forall|x: int, y: int| 0 <= x < y < s.len() implies s[x] != s[y] by {
            lemma_exact_fuel(slots, c, n as nat, (y - 1) as nat);
            lemma_exact_fuel(slots, c, n as nat, n as nat);
            if x == 0 {
                if s[x] == s[y] {
                    // chain(c, y) == c == chain(c, 0): the chain repeats with period y.
                    lemma_chain_shift(slots, a, (y - 1) as nat);
                    assert(chain(slots, a, 0) == a);
                    assert(chain(slots, c, (y - 1) as nat) == a);
                    assert(chain(slots, c, y as nat) == c) by {
                        assert(chain(slots, c, y as nat) == chain(slots, c, ((y - 1) as nat + 1) as nat));
                    }
                    lemma_chain_period(slots, c, 0, y as nat, (n - y) as nat);
                    lemma_exact_fuel(slots, c, n as nat, (n - y) as nat);
                }
            } else {
                if s[x] == s[y] {
                    let p = (x - 1) as nat;
                    let q = (y - 1) as nat;
                    lemma_chain_period(slots, c, p, q, (n - q) as nat);
                    lemma_exact_fuel(slots, c, n as nat, (p + n - q) as nat);
                }
            }
        }
        lemma_distinct_ints(s, n as int);
    }
}

/// A `Ref` is followed transparently: handles `a` and `b` bound to `Ref(c)` and
/// `Ref(d)`, where `c` and `d` resolve to structurally equal descriptors, resolve
/// as `c` and `d` do, and so stand for the same type, though `a != b`.
pub proof fn resolve_through_refs(slots: Seq<TypeInfo>, a: TypeId, b: TypeId, c: TypeId, d: TypeId)
    requires
        a.index < slots.len(),
        b.index < slots.len(),
        slots[a.index as int] == TypeInfo::Ref(c),
        slots[b.index as int] == TypeInfo::Ref(d),
        resolve(slots, c.index as int) matches Some(x) && resolve(slots, d.index as int) matches Some(y)
            && same_info(x, y),
    ensures
        resolve(slots, a.index as int) == resolve(slots, c.index as int),
        resolve(slots, b.index as int) == resolve(slots, d.index as int),
        same_type(slots, a, b),
{
    lemma_resolve_below_len(slots, a.index as int, c.index as int);
    lemma_resolve_below_len(slots, b.index as int, d.index as int);
}

/// The arena of type descriptors. Slots are never removed; a slot can be rebound.
pub struct TypeEngine {
    pub slots: Vec<TypeInfo>,
}

impl TypeEngine {
    pub open spec fn view(&self) -> Seq<TypeInfo> {
        self.slots@
    }

    pub fn new() -> (r: TypeEngine)
        ensures
            r.view() == Seq::<TypeInfo>::empty(),
    {
        TypeEngine { slots: Vec::new() }
    }

    pub fn len(&self) -> (r: usize)
        ensures
            r == self.view().len(),
    {
        self.slots.len()
    }

    /// Allocates a fresh slot bound to `info`.
    pub fn insert(&mut self, info: TypeInfo) -> (r: TypeId)
        ensures
            r.index == old(self).view().len(),
            final(self).view() == old(self).view().push(info),
    {
        self.slots.push(info);
        TypeId { index: self.slots.len() - 1 }
    }

    /// Binds slot `id` to `info` in place.
    pub fn rebind(&mut self, id: TypeId, info: TypeInfo)
        requires
            id.index < old(self).view().len(),
        ensures
            final(self).view() == old(self).view().update(id.index as int, info),
    {
        self.slots.set(id.index, info);
    }

    /// The slot reached from `id` by following `Ref` links, if the chain ends.
    pub fn resolve_slot(&self, id: TypeId) -> (r: Option<usize>)
        ensures
            r is None <==> resolve(self.view(), id.index as int) is None,
            r matches Some(i) ==> i < self.view().len() && !(self.view()[i as int] is Ref)
                && resolve(self.view(), id.index as int) == Some(self.view()[i as int]),
    {
        let n = self.slots.len();
        let mut cur: usize = id.index;
        let mut fuel: usize = n;
        while cur < n
            invariant
                n == self.view().len(),
                fuel <= n,
                resolve_fuel(self.view(), cur as int, fuel as nat) == resolve(
                    self.view(),
                    id.index as int,
                ),
            decreases fuel,
        {
            match &self.slots[cur] {
                TypeInfo::Ref(t) => {
                    if fuel == 0 {
                        return None;
                    }
                    cur = t.index;
                    fuel = fuel - 1;
                },
                _ => {
                    return Some(cur);
                },
            }
        }
        None
    }

    /// Whether `a` and `b` stand for the same type, `Ref` links followed.
    pub fn types_equal(&self, a: TypeId, b: TypeId) -> (r: bool)
        ensures
            r == same_type(self.view(), a, b),
    {
        if a == b {
            return true;
        }
        match (self.resolve_slot(a), self.resolve_slot(b)) {
            (Some(i), Some(j)) => self.slots[i].same(&self.slots[j]),
            _ => false,
        }
    }

    /// The descriptor that `id` stands for, with `Ref` links followed.
    pub fn look_up(&self, id: TypeId) -> (r: Option<TypeInfo>)
        ensures
            r is None <==> resolve(self.view(), id.index as int) is None,
            r matches Some(info) ==> resolve(self.view(), id.index as int) matches Some(x)
                && info.view_eq(x),
    {
        match self.resolve_slot(id) {
            None => None,
            Some(i) => Some(self.slots[i].copy()),
        }
    }
}

} // verus!

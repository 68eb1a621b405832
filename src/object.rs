use crate::gc::{Gc, GcState};
use crate::values::{value_handle, AvmNull, AvmObjectRef, AvmValue};
use vstd::prelude::*;

verus! {

/// Whether two texts are equal.
pub fn same_chars(a: &Vec<char>, b: &Vec<char>) -> (r: bool)
    ensures
        r == (a@ == b@),
{
    if a.len() != b.len() {
        return false;
    }
    let mut i: usize = 0;
    while i < a.len()
        invariant
            a@.len() == b@.len(),
            i <= a@.len(),
            forall|j: int| 0 <= j < i ==> a@[j] == b@[j],
        decreases a@.len() - i,
    {
        if a[i] != b[i] {
            return false;
        }
        i = i + 1;
    }
    assert(a@ =~= b@);
    true
}

/// A copy of a text.
pub fn copy_chars(a: &Vec<char>) -> (r: Vec<char>)
    ensures
        r@ == a@,
{
    let mut r: Vec<char> = Vec::new();
    let mut i: usize = 0;
    while i < a.len()
        invariant
            i <= a@.len(),
            r@ == a@.subrange(0, i as int),
        decreases a@.len() - i,
    {
        r.push(a[i]);
        i = i + 1;
        assert(r@ =~= a@.subrange(0, i as int));
    }
    assert(a@.subrange(0, a@.len() as int) =~= a@);
    r
}

/// The characters of a string slice.
pub fn chars_of(s: &str) -> (r: Vec<char>)
    ensures
        r@ == s@,
{
    let n = s.unicode_len();
    let mut r: Vec<char> = Vec::new();
    let mut i: usize = 0;
    while i < n
        invariant
            n == s@.len(),
            i <= n,
            r@ == s@.subrange(0, i as int),
        decreases n - i,
    {
        r.push(s.get_char(i));
        i = i + 1;
        assert(r@ =~= s@.subrange(0, i as int));
    }
    assert(s@.subrange(0, n as int) =~= s@);
    r
}

/// An immutable text held in the heap.
pub struct AvmString {
    pub value: Vec<char>,
}

impl AvmString {
    pub fn new(value: Vec<char>) -> (r: AvmString)
        ensures
            r.value@ == value@,
    {
        AvmString { value }
    }

    pub fn value(&self) -> (r: &Vec<char>)
        ensures
            r@ == self.value@,
    {
        &self.value
    }
}

/// The internal `[[Class]]` tag of an object.
#[derive(Clone, Copy, Debug, PartialEq, Eq, Structural)]
pub enum ObjectClass {
    Object,
    Function,
}

impl ObjectClass {
    pub open spec fn text(self) -> Seq<char> {
        match self {
            ObjectClass::Object => seq!['O', 'b', 'j', 'e', 'c', 't'],
            ObjectClass::Function => seq!['F', 'u', 'n', 'c', 't', 'i', 'o', 'n'],
        }
    }

    pub fn name(&self) -> (r: Vec<char>)
        ensures
            r@ == self.text(),
    {
        match self {
            ObjectClass::Object => {
                let r = vec!['O', 'b', 'j', 'e', 'c', 't'];
                assert(r@ =~= self.text());
                r
            },
            ObjectClass::Function => {
                let r = vec!['F', 'u', 'n', 'c', 't', 'i', 'o', 'n'];
                assert(r@ =~= self.text());
                r
            },
        }
    }
}

#[derive(Clone, Copy, Debug, PartialEq, Eq, Structural)]
pub struct AvmObjectProperty {
    pub read_only: bool,
    pub enumerable: bool,
    pub deletable: bool,
    pub internal: bool,
    pub value: AvmValue,
}

impl AvmObjectProperty {
    /// A property as a script creates it: writable, enumerable, deletable,
    /// not internal.
    pub open spec fn user(value: AvmValue) -> AvmObjectProperty {
        AvmObjectProperty { read_only: false, enumerable: true, deletable: true, internal: false, value }
    }

    /// A property of the intrinsic objects: read-only, hidden, permanent,
    /// internal.
    pub open spec fn intrinsic(value: AvmValue) -> AvmObjectProperty {
        AvmObjectProperty { read_only: true, enumerable: false, deletable: false, internal: true, value }
    }
}

/// The internal `[[Prototype]]` link of an object.
#[derive(Clone, Copy, Debug, PartialEq, Eq, Structural)]
pub enum AvmObjectPrototype {
    Null(AvmNull),
    Object(AvmObjectRef),
}

impl AvmObjectPrototype {
    /// The prototype link that a value stands for: `null` or an object.
    pub fn from_value(v: AvmValue) -> (r: Option<AvmObjectPrototype>)
        ensures
            r == match v {
                AvmValue::Null(n) => Some(AvmObjectPrototype::Null(n)),
                AvmValue::Object(o) => Some(AvmObjectPrototype::Object(o)),
                _ => None,
            },
    {
        match v {
            AvmValue::Null(n) => Some(AvmObjectPrototype::Null(n)),
            AvmValue::Object(o) => Some(AvmObjectPrototype::Object(o)),
            _ => None,
        }
    }
}

/// The functions that the host provides to scripts.
#[derive(Clone, Copy, Debug, PartialEq, Eq, Structural)]
pub enum HostFunction {
    /// `Object.prototype.toString`: `"[object <class>]"`.
    ObjectPrototypeToString,
}

/// A function defined by byte code: its body and the scope it closes over.
pub struct AvmFunction {
    pub code: Vec<u8>,
    pub scope: Gc,
    pub register_count: u8,
}

pub enum AvmCallable {
    AvmFunction(AvmFunction),
    HostFunction(HostFunction),
}

/// A mutable record of properties with a prototype link. Keys are unique
/// and keep the order in which they were first set.
pub struct AvmObject {
    pub class: ObjectClass,
    pub prototype: AvmObjectPrototype,
    pub keys: Vec<Vec<char>>,
    pub properties: Vec<AvmObjectProperty>,
    pub callable: Option<AvmCallable>,
}

/// A variable frame: names bound to values, and the enclosing scope.
pub struct Scope {
    pub names: Vec<Vec<char>>,
    pub values: Vec<AvmValue>,
    pub parent: Option<Gc>,
}

/// What a heap cell holds.
pub enum HeapCell {
    String(AvmString),
    Object(AvmObject),
    Scope(Scope),
}

/// The texts of a list of keys.
pub open spec fn key_texts(keys: Seq<Vec<char>>) -> Seq<Seq<char>> {
    keys.map_values(|k: Vec<char>| k@)
}

/// `i` is the first position of `key` among `keys`.
pub open spec fn first_index(keys: Seq<Vec<char>>, key: Seq<char>, i: int) -> bool {
    &&& 0 <= i < keys.len()
    &&& keys[i]@ == key
    &&& forall|j: int| 0 <= j < i ==> (#[trigger] keys[j])@ != key
}

pub proof fn lemma_first_index_unique(keys: Seq<Vec<char>>, key: Seq<char>, i: int, j: int)
    requires
        first_index(keys, key, i),
        first_index(keys, key, j),
    ensures
        i == j,
{
    if i < j {
        assert(keys[i]@ != key);
    } else if j < i {
        assert(keys[j]@ != key);
    }
}

/// The value stored with the first occurrence of `key`.
pub open spec fn lookup<V>(keys: Seq<Vec<char>>, values: Seq<V>, key: Seq<char>) -> Option<V> {
    if exists|i: int| first_index(keys, key, i) {
        Some(values[choose|i: int| first_index(keys, key, i)])
    } else {
        None
    }
}

/// Replacing the value at the first occurrence of `key`, or appending
/// `key` when it is absent, changes the lookup of `key` alone.
proof fn lemma_store<V>(
    keys: Seq<Vec<char>>,
    values: Seq<V>,
    keys2: Seq<Vec<char>>,
    values2: Seq<V>,
    key: Vec<char>,
    v: V,
    found: Option<int>,
)
    requires
        keys.len() == values.len(),
        found matches Some(i) ==> first_index(keys, key@, i) && keys2 == keys && values2 == values.update(i, v),
        found is None ==> (forall|j: int| 0 <= j < keys.len() ==> (#[trigger] keys[j])@ != key@) && keys2
            == keys.push(key) && values2 == values.push(v),
    ensures
        keys2.len() == values2.len(),
        lookup(keys2, values2, key@) == Some(v),
        forall|k: Seq<char>| k != key@ ==> #[trigger] lookup(keys2, values2, k) == lookup(keys, values, k),
{
    match found {
        Some(i) => {
            assert(first_index(keys2, key@, i));
            assert forall|k: Seq<char>| k != key@ implies #[trigger] lookup(keys2, values2, k) == lookup(keys, values, k) by {
                if exists|j: int| first_index(keys, k, j) {
                    let j = choose|j: int| first_index(keys, k, j);
                    assert(first_index(keys2, k, j));
                    let j2 = choose|j: int| first_index(keys2, k, j);
                    lemma_first_index_unique(keys2, k, j, j2);
                    assert(j != i);
                }
            }
            let i2 = choose|j: int| first_index(keys2, key@, j);
            lemma_first_index_unique(keys2, key@, i, i2);
        },
        None => {
            let n = keys.len() as int;
            assert(first_index(keys2, key@, n));
            let i2 = choose|j: int| first_index(keys2, key@, j);
            lemma_first_index_unique(keys2, key@, n, i2);
            assert forall|k: Seq<char>| k != key@ implies #[trigger] lookup(keys2, values2, k) == lookup(keys, values, k) by {
                if exists|j: int| first_index(keys, k, j) {
                    let j = choose|j: int| first_index(keys, k, j);
                    assert(first_index(keys2, k, j));
                    let j2 = choose|j: int| first_index(keys2, k, j);
                    lemma_first_index_unique(keys2, k, j, j2);
                } else if exists|j: int| first_index(keys2, k, j) {
                    let j = choose|j: int| first_index(keys2, k, j);
                    assert(j < n);
                    assert(keys2[j] == keys[j]);
                    assert forall|q: int| 0 <= q < j implies (#[trigger] keys[q])@ != k by {
                        assert(keys2[q] == keys[q]);
                    }
                    assert(first_index(keys, k, j));
                }
            }
        },
    }
}

/// The position of `key` among `keys`, if it occurs.
pub fn position_of(keys: &Vec<Vec<char>>, key: &Vec<char>) -> (r: Option<usize>)
    ensures
        r matches Some(i) ==> first_index(keys@, key@, i as int),
        r is None ==> forall|i: int| 0 <= i < keys@.len() ==> (#[trigger] keys@[i])@ != key@,
{
    let mut i: usize = 0;
    while i < keys.len()
        invariant
            i <= keys@.len(),
            forall|j: int| 0 <= j < i ==> (#[trigger] keys@[j])@ != key@,
        decreases keys@.len() - i,
    {
        if same_chars(&keys[i], key) {
            return Some(i);
        }
        i = i + 1;
    }
    None
}

/// Appends the handle of `v`, if it holds one.
fn push_handle(out: &mut Vec<Gc>, v: AvmValue)
    ensures
        final(out)@ == match value_handle(v) {
            Some(h) => old(out)@.push(h),
            None => old(out)@,
        },
{
    match v {
        AvmValue::Object(o) => out.push(o.handle),
        AvmValue::String(h) => out.push(h),
        _ => {},
    }
}

/// Every element of `new` is `v` or an element of `old`.
pub open spec fn values_from<V>(new: Seq<V>, old: Seq<V>, v: V) -> bool {
    forall|q: int| 0 <= q < new.len() ==> #[trigger] new[q] == v || exists|p: int| 0 <= p < old.len() && old[p] == new[q]
}

/// Every handle that a value of `vs` holds names a live cell.
pub open spec fn values_live(heap: GcState<HeapCell>, vs: Seq<AvmValue>) -> bool {
    forall|k: int| 0 <= k < vs.len() ==> (value_handle(#[trigger] vs[k]) matches Some(h) ==> heap.live(h.index as int))
}

pub open spec fn value_live(heap: GcState<HeapCell>, v: AvmValue) -> bool {
    value_handle(v) matches Some(h) ==> heap.live(h.index as int)
}

/// The handles that live values hold are live.
pub proof fn lemma_handles_live(heap: GcState<HeapCell>, vs: Seq<AvmValue>)
    requires
        values_live(heap, vs),
    ensures
        forall|j: int| 0 <= j < handles_of_values(vs).len() ==> heap.live(#[trigger] handles_of_values(vs)[j].index as int),
    decreases vs.len(),
{
    if vs.len() > 0 {
        assert(values_live(heap, vs.drop_last())) by {
            assert forall|k: int| 0 <= k < vs.drop_last().len() implies (value_handle(#[trigger] vs.drop_last()[k]) matches Some(h)
                ==> heap.live(h.index as int)) by {
                assert(vs.drop_last()[k] == vs[k]);
            }
        }
        lemma_handles_live(heap, vs.drop_last());
        let rest = handles_of_values(vs.drop_last());
        assert(vs.last() == vs[vs.len() - 1]);
        assert(value_handle(vs[vs.len() - 1]) matches Some(h) ==> heap.live(h.index as int));
        assert forall|j: int| 0 <= j < handles_of_values(vs).len() implies heap.live(
            #[trigger] handles_of_values(vs)[j].index as int,
        ) by {
            if j < rest.len() {
                assert(handles_of_values(vs)[j] == rest[j]);
            }
        }
    }
}

/// Values drawn from live values, and from a live `v`, are live.
pub proof fn lemma_values_from_live(heap: GcState<HeapCell>, new: Seq<AvmValue>, old: Seq<AvmValue>, v: AvmValue)
    requires
        values_from(new, old, v),
        values_live(heap, old),
        value_live(heap, v),
    ensures
        values_live(heap, new),
{
    assert forall|q: int| 0 <= q < new.len() implies (value_handle(#[trigger] new[q]) matches Some(h) ==> heap.live(h.index as int)) by {
        if new[q] != v {
            let p = choose|p: int| 0 <= p < old.len() && old[p] == new[q];
            assert(value_handle(old[p]) matches Some(h) ==> heap.live(h.index as int));
        }
    }
}

/// Checks that every handle that a value of `vs` holds names a live cell.
pub fn check_values_live(heap: &GcState<HeapCell>, vs: &Vec<AvmValue>) -> (r: bool)
    ensures
        r == values_live(*heap, vs@),
{
    let mut k: usize = 0;
    while k < vs.len()
        invariant
            k <= vs@.len(),
            forall|j: int| 0 <= j < k ==> (value_handle(#[trigger] vs@[j]) matches Some(h) ==> heap.live(h.index as int)),
        decreases vs@.len() - k,
    {
        if !check_value_live(heap, vs[k]) {
            return false;
        }
        k = k + 1;
    }
    true
}

pub fn check_value_live(heap: &GcState<HeapCell>, v: AvmValue) -> (r: bool)
    ensures
        r == value_live(*heap, v),
{
    match v {
        AvmValue::Object(o) => heap.is_live(o.handle),
        AvmValue::String(h) => heap.is_live(h),
        _ => true,
    }
}

/// The handles held by a sequence of values.
pub open spec fn handles_of_values(vs: Seq<AvmValue>) -> Seq<Gc>
    decreases vs.len(),
{
    if vs.len() == 0 {
        Seq::empty()
    } else {
        let rest = handles_of_values(vs.drop_last());
        match value_handle(vs.last()) {
            Some(h) => rest.push(h),
            None => rest,
        }
    }
}

pub fn push_value_handles(out: &mut Vec<Gc>, vs: &Vec<AvmValue>)
    ensures
        final(out)@ == old(out)@ + handles_of_values(vs@),
{
    let mut i: usize = 0;
    while i < vs.len()
        invariant
            i <= vs@.len(),
            out@ == old(out)@ + handles_of_values(vs@.subrange(0, i as int)),
        decreases vs@.len() - i,
    {
        let ghost before = out@;
        push_handle(out, vs[i]);
        assert(vs@.subrange(0, i + 1).drop_last() =~= vs@.subrange(0, i as int));
        proof {
            let sub = vs@.subrange(0, i + 1);
            assert(sub.last() == vs@[i as int]);
            match value_handle(vs@[i as int]) {
                Some(h) => {
                    assert(out@ =~= old(out)@ + handles_of_values(sub));
                },
                None => {
                    assert(out@ =~= old(out)@ + handles_of_values(sub));
                },
            }
        }
        i = i + 1;
    }
    assert(vs@.subrange(0, vs@.len() as int) =~= vs@);
}

pub open spec fn property_values(ps: Seq<AvmObjectProperty>) -> Seq<AvmValue> {
    ps.map_values(|p: AvmObjectProperty| p.value)
}

impl AvmObject {
    /// Every key has a property.
    pub open spec fn wf(&self) -> bool {
        self.keys@.len() == self.properties@.len()
    }

    /// The property stored under `key`, if any.
    pub open spec fn property_spec(&self, key: Seq<char>) -> Option<AvmObjectProperty> {
        lookup(self.keys@, self.properties@, key)
    }

    /// The handles that this object holds: its prototype, the values of its
    /// properties, and the scope its function closes over.
    pub open spec fn handles_spec(&self) -> Seq<Gc> {
        let proto = match self.prototype {
            AvmObjectPrototype::Object(p) => seq![p.handle],
            AvmObjectPrototype::Null(_) => Seq::empty(),
        };
        let closure = match self.callable {
            Some(AvmCallable::AvmFunction(f)) => seq![f.scope],
            _ => Seq::empty(),
        };
        proto + handles_of_values(property_values(self.properties@)) + closure
    }

    /// An object with no property.
    pub fn new(class: ObjectClass, prototype: AvmObjectPrototype, callable: Option<AvmCallable>) -> (r: AvmObject)
        ensures
            r.wf(),
            r.class == class,
            r.prototype == prototype,
            r.callable == callable,
            r.keys@.len() == 0,
            forall|k: Seq<char>| #[trigger] r.property_spec(k) is None,
    {
        AvmObject { class, prototype, keys: Vec::new(), properties: Vec::new(), callable }
    }

    /// A function object with no property and no prototype.
    pub fn new_callable(callable: AvmCallable) -> (r: AvmObject)
        ensures
            r.wf(),
            r.class == ObjectClass::Function,
            r.prototype == AvmObjectPrototype::Null(AvmNull),
            r.callable == Some(callable),
            r.keys@.len() == 0,
    {
        AvmObject::new(ObjectClass::Function, AvmObjectPrototype::Null(AvmNull), Some(callable))
    }

    pub fn is_wf(&self) -> (r: bool)
        ensures
            r == self.wf(),
    {
        self.keys.len() == self.properties.len()
    }

    /// The own property stored under `key`.
    pub fn get_local_property(&self, key: &Vec<char>) -> (r: Option<AvmObjectProperty>)
        requires
            self.wf(),
        ensures
            r == self.property_spec(key@),
    {
        match position_of(&self.keys, key) {
            Some(i) => {
                proof {
                    let j = choose|j: int| first_index(self.keys@, key@, j);
                    lemma_first_index_unique(self.keys@, key@, i as int, j);
                }
                Some(self.properties[i])
            },
            None => None,
        }
    }

    /// The value of the own property stored under `key`.
    pub fn get_local(&self, key: &Vec<char>) -> (r: Option<AvmValue>)
        requires
            self.wf(),
        ensures
            r == match self.property_spec(key@) {
                Some(p) => Some(p.value),
                None => None,
            },
    {
        match self.get_local_property(key) {
            Some(p) => Some(p.value),
            None => None,
        }
    }

    /// Stores `property` under `key`: in place when the key is there, so
    /// that its position is kept, else after every other key.
    pub fn put(&mut self, key: Vec<char>, property: AvmObjectProperty)
        requires
            old(self).wf(),
        ensures
            final(self).wf(),
            final(self).class == old(self).class,
            final(self).prototype == old(self).prototype,
            final(self).callable == old(self).callable,
            final(self).property_spec(key@) == Some(property),
            forall|k: Seq<char>| k != key@ ==> #[trigger] final(self).property_spec(k) == old(self).property_spec(k),
            values_from(final(self).properties@, old(self).properties@, property),
    {
        match position_of(&self.keys, &key) {
            Some(i) => {
                self.properties.set(i, property);
                proof {
                    lemma_store(old(self).keys@, old(self).properties@, self.keys@, self.properties@, key, property, Some(i as int));
                }
            },
            None => {
                let ghost k = key;
                self.keys.push(key);
                self.properties.push(property);
                proof {
                    lemma_store(old(self).keys@, old(self).properties@, self.keys@, self.properties@, k, property, None);
                }
            },
        }
    }

    /// `[[Put]]`: a writable property (or a new one) takes `value` with the
    /// attributes a script gives; a read-only one is left as it is.
    pub fn set(&mut self, key: Vec<char>, value: AvmValue)
        requires
            old(self).wf(),
        ensures
            final(self).wf(),
            final(self).class == old(self).class,
            final(self).prototype == old(self).prototype,
            final(self).callable == old(self).callable,
            final(self).property_spec(key@) == match old(self).property_spec(key@) {
                Some(p) => if p.read_only {
                    Some(p)
                } else {
                    Some(AvmObjectProperty::user(value))
                },
                None => Some(AvmObjectProperty::user(value)),
            },
            forall|k: Seq<char>| k != key@ ==> #[trigger] final(self).property_spec(k) == old(self).property_spec(k),
            values_from(final(self).properties@, old(self).properties@, AvmObjectProperty::user(value)),
    {
        match self.get_local_property(&key) {
            Some(p) => {
                if !p.read_only {
                    self.put(
                        key,
                        AvmObjectProperty { read_only: false, enumerable: true, deletable: true, internal: false, value },
                    );
                }
            },
            None => {
                self.put(
                    key,
                    AvmObjectProperty { read_only: false, enumerable: true, deletable: true, internal: false, value },
                );
            },
        }
    }

    /// The handles that this object holds.
    pub fn handles(&self) -> (r: Vec<Gc>)
        ensures
            r@ == self.handles_spec(),
    {
        let mut r: Vec<Gc> = Vec::new();
        match self.prototype {
            AvmObjectPrototype::Object(p) => r.push(p.handle),
            AvmObjectPrototype::Null(_) => {},
        }
        let ghost proto = r@;
        let mut i: usize = 0;
        while i < self.properties.len()
            invariant
                i <= self.properties@.len(),
                r@ == proto + handles_of_values(property_values(self.properties@).subrange(0, i as int)),
            decreases self.properties@.len() - i,
        {
            let ghost before = r@;
            let v = self.properties[i].value;
            push_handle(&mut r, v);
            proof {
                let sub = property_values(self.properties@).subrange(0, i + 1);
                assert(sub.drop_last() =~= property_values(self.properties@).subrange(0, i as int));
                assert(sub.last() == v);
                assert(r@ =~= proto + handles_of_values(sub));
            }
            i = i + 1;
        }
        assert(property_values(self.properties@).subrange(0, self.properties@.len() as int) =~= property_values(
            self.properties@,
        ));
        match &self.callable {
            Some(AvmCallable::AvmFunction(f)) => r.push(f.scope),
            _ => {},
        }
        assert(r@ =~= self.handles_spec());
        r
    }
}

impl Scope {
    /// Every name has a value.
    pub open spec fn wf(&self) -> bool {
        self.names@.len() == self.values@.len()
    }

    /// The value bound to `name` in this scope alone.
    pub open spec fn binding_spec(&self, name: Seq<char>) -> Option<AvmValue> {
        lookup(self.names@, self.values@, name)
    }

    pub open spec fn handles_spec(&self) -> Seq<Gc> {
        handles_of_values(self.values@) + match self.parent {
            Some(p) => seq![p],
            None => Seq::empty(),
        }
    }

    pub fn empty(parent: Option<Gc>) -> (r: Scope)
        ensures
            r.wf(),
            r.parent == parent,
            r.names@.len() == 0,
            forall|k: Seq<char>| #[trigger] r.binding_spec(k) is None,
    {
        Scope { names: Vec::new(), values: Vec::new(), parent }
    }

    pub fn is_wf(&self) -> (r: bool)
        ensures
            r == self.wf(),
    {
        self.names.len() == self.values.len()
    }

    pub fn get(&self, name: &Vec<char>) -> (r: Option<AvmValue>)
        requires
            self.wf(),
        ensures
            r == self.binding_spec(name@),
    {
        match position_of(&self.names, name) {
            Some(i) => {
                proof {
                    let j = choose|j: int| first_index(self.names@, name@, j);
                    lemma_first_index_unique(self.names@, name@, i as int, j);
                }
                Some(self.values[i])
            },
            None => None,
        }
    }

    /// Binds `name` to `value` in this scope.
    pub fn set_local(&mut self, name: Vec<char>, value: AvmValue)
        requires
            old(self).wf(),
        ensures
            final(self).wf(),
            final(self).parent == old(self).parent,
            final(self).binding_spec(name@) == Some(value),
            forall|k: Seq<char>| k != name@ ==> #[trigger] final(self).binding_spec(k) == old(self).binding_spec(k),
            values_from(final(self).values@, old(self).values@, value),
    {
        match position_of(&self.names, &name) {
            Some(i) => {
                self.values.set(i, value);
                proof {
                    lemma_store(old(self).names@, old(self).values@, self.names@, self.values@, name, value, Some(i as int));
                }
            },
            None => {
                let ghost k = name;
                self.names.push(name);
                self.values.push(value);
                proof {
                    lemma_store(old(self).names@, old(self).values@, self.names@, self.values@, k, value, None);
                }
            },
        }
    }

    pub fn handles(&self) -> (r: Vec<Gc>)
        ensures
            r@ == self.handles_spec(),
    {
        let mut r: Vec<Gc> = Vec::new();
        push_value_handles(&mut r, &self.values);
        match self.parent {
            Some(p) => r.push(p),
            None => {},
        }
        assert(r@ =~= self.handles_spec());
        r
    }
}

impl HeapCell {
    pub open spec fn handles_spec(&self) -> Seq<Gc> {
        match self {
            HeapCell::String(_) => Seq::empty(),
            HeapCell::Object(o) => o.handles_spec(),
            HeapCell::Scope(s) => s.handles_spec(),
        }
    }

    pub fn handles(&self) -> (r: Vec<Gc>)
        ensures
            r@ == self.handles_spec(),
    {
        match self {
            HeapCell::String(_) => Vec::new(),
            HeapCell::Object(o) => o.handles(),
            HeapCell::Scope(s) => s.handles(),
        }
    }
}

/// The text of the string cell that `h` names, if it names one.
pub open spec fn text_at(heap: GcState<HeapCell>, h: Gc) -> Option<Seq<char>> {
    if heap.live(h.index as int) {
        match heap.boxes@[h.index as int].value.unwrap() {
            HeapCell::String(s) => Some(s.value@),
            _ => None,
        }
    } else {
        None
    }
}

/// The object that `h` names, if it names one.
pub open spec fn object_at(heap: GcState<HeapCell>, h: Gc) -> Option<AvmObject> {
    if heap.live(h.index as int) {
        match heap.boxes@[h.index as int].value.unwrap() {
            HeapCell::Object(o) => Some(o),
            _ => None,
        }
    } else {
        None
    }
}

/// The scope that `h` names, if it names one.
pub open spec fn scope_at(heap: GcState<HeapCell>, h: Gc) -> Option<Scope> {
    if heap.live(h.index as int) {
        match heap.boxes@[h.index as int].value.unwrap() {
            HeapCell::Scope(s) => Some(s),
            _ => None,
        }
    } else {
        None
    }
}

pub fn text_in(heap: &GcState<HeapCell>, h: Gc) -> (r: Option<&Vec<char>>)
    ensures
        r matches Some(t) ==> text_at(*heap, h) == Some(t@),
        r is None ==> text_at(*heap, h) is None,
{
    match heap.get(h) {
        Some(HeapCell::String(s)) => Some(&s.value),
        _ => None,
    }
}

pub fn object_in(heap: &GcState<HeapCell>, h: Gc) -> (r: Option<&AvmObject>)
    ensures
        r matches Some(o) ==> object_at(*heap, h) == Some(*o),
        r is None ==> object_at(*heap, h) is None,
{
    match heap.get(h) {
        Some(HeapCell::Object(o)) => Some(o),
        _ => None,
    }
}

pub fn scope_in(heap: &GcState<HeapCell>, h: Gc) -> (r: Option<&Scope>)
    ensures
        r matches Some(s) ==> scope_at(*heap, h) == Some(*s),
        r is None ==> scope_at(*heap, h) is None,
{
    match heap.get(h) {
        Some(HeapCell::Scope(s)) => Some(s),
        _ => None,
    }
}

} // verus!

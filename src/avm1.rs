use crate::coerce::{
    abstract_equals, abstract_equals_eval, arith, arith_spec, get_member, get_spec, less_than,
    less_than_eval, primitive_text, strict_equals, strict_equals_eval, to_primitive,
    to_primitive_spec, value_chars, value_text, view_primitive, Eval, Fault, FloatAnswer, FloatOp,
    FloatQuery, Primitive, PrimitiveSpec,
};
use crate::error::{ReferenceToUndeclaredVariableWarning, Warning};
use crate::gc::{Gc, GcState};
use crate::host::{Host, LoggedHost};
use crate::number::{num_eq, num_lt, safe_int, AvmNumber, ONE_BITS, SAFE_BOUND};
use crate::object::{
    check_value_live, check_values_live, lemma_values_from_live, value_live, values_live, chars_of,
    key_texts, object_at, property_values, scope_at, text_at, AvmCallable, AvmFunction,
    AvmObject, AvmObjectPrototype, AvmObjectProperty, AvmString, HeapCell, HostFunction,
    ObjectClass, Scope,
};
use crate::values::{
    value_handle, legacy_boolean_spec, legacy_number_spec, AvmBoolean, AvmNull, AvmObjectRef, AvmUndefined,
    AvmValue, ToPrimitiveHint,
};
use vstd::prelude::*;

verus! {

/// The most actions that one run carries out.
pub const MAX_ACTIONS: usize = 1000;

/// A value that a `Push` action carries.
pub enum PushValue {
    Boolean(bool),
    Constant(u16),
    Number(AvmNumber),
    Null,
    Register(u8),
    String(Vec<char>),
    Undefined,
}

/// The decoded actions that the machine carries out; every other opcode is
/// `Unsupported`.
pub enum Action {
    Add,
    Add2,
    And,
    CallFunction,
    ConstantPool(Vec<Vec<char>>),
    DefineFunction { name: Vec<char>, parameters: Vec<Vec<char>>, body_size: u16 },
    DefineLocal,
    Divide,
    Equals,
    Equals2,
    GetMember,
    GetVariable,
    Greater,
    If { offset: i16 },
    Increment,
    InitObject,
    Jump { offset: i16 },
    Less,
    Less2,
    Multiply,
    Not,
    Or,
    Pop,
    Push(Vec<PushValue>),
    PushDuplicate,
    Return,
    SetVariable,
    StrictEquals,
    StringAdd,
    StringEquals,
    StringLength,
    Subtract,
    Trace,
    Unsupported,
}

#[derive(Clone, Copy, Debug, PartialEq, Eq, Structural)]
pub struct Avm1ScriptId {
    pub id: usize,
}

#[derive(Clone, Copy, Debug, PartialEq, Eq, Structural)]
pub struct TargetId {
    pub id: usize,
}

pub struct Avm1Script {
    /// Key identifying this script, unique for each machine.
    pub id: Avm1ScriptId,
    /// Optional URI to help the user identify this script.
    pub uri: Option<Vec<char>>,
    /// The byte code of this script.
    pub code: Vec<u8>,
    /// Default target for contextual actions.
    pub target: Option<TargetId>,
}

/// The strings that `Push` can name by index; none until a `ConstantPool`
/// action installs them.
pub struct ConstantPool {
    pub strings: Option<Vec<Gc>>,
}

impl ConstantPool {
    pub open spec fn get_spec(&self, index: u16) -> AvmValue {
        match self.strings {
            Some(p) => if (index as int) < p@.len() {
                AvmValue::String(p@[index as int])
            } else {
                AvmValue::Undefined(AvmUndefined)
            },
            None => AvmValue::Undefined(AvmUndefined),
        }
    }

    pub fn new() -> (r: ConstantPool)
        ensures
            r.strings is None,
    {
        ConstantPool { strings: None }
    }

    pub fn set(&mut self, pool: Vec<Gc>)
        ensures
            final(self).strings == Some(pool),
    {
        self.strings = Some(pool);
    }

    /// The string at `index`, or `undefined` out of range or before any pool
    /// is installed.
    pub fn get(&self, index: u16) -> (r: AvmValue)
        ensures
            r == self.get_spec(index),
    {
        match &self.strings {
            None => AvmValue::Undefined(AvmUndefined),
            Some(pool) => {
                if (index as usize) < pool.len() {
                    AvmValue::String(pool[index as usize])
                } else {
                    AvmValue::Undefined(AvmUndefined)
                }
            },
        }
    }
}

/// The operand stack of a frame; popping it empty gives `undefined`.
pub struct Stack {
    pub values: Vec<AvmValue>,
}

/// The `k`-th value from the top of `s` (0 is the top), `undefined` below
/// the bottom.
pub open spec fn peek_spec(s: Seq<AvmValue>, k: int) -> AvmValue {
    if 0 <= k < s.len() {
        s[s.len() - 1 - k]
    } else {
        AvmValue::Undefined(AvmUndefined)
    }
}

/// `s` without its `n` top values.
pub open spec fn pop_spec(s: Seq<AvmValue>, n: int) -> Seq<AvmValue> {
    if n <= s.len() {
        s.subrange(0, s.len() - n)
    } else {
        Seq::empty()
    }
}

impl Stack {
    pub fn new() -> (r: Stack)
        ensures
            r.values@.len() == 0,
    {
        Stack { values: Vec::new() }
    }

    pub fn pop(&mut self) -> (r: AvmValue)
        ensures
            r == peek_spec(old(self).values@, 0),
            final(self).values@ == pop_spec(old(self).values@, 1),
    {
        match self.values.pop() {
            Some(v) => v,
            None => AvmValue::Undefined(AvmUndefined),
        }
    }

    pub fn push(&mut self, value: AvmValue)
        ensures
            final(self).values@ == old(self).values@.push(value),
    {
        self.values.push(value);
    }

    pub fn peek(&self, k: usize) -> (r: AvmValue)
        ensures
            r == peek_spec(self.values@, k as int),
    {
        if k < self.values.len() {
            self.values[self.values.len() - 1 - k]
        } else {
            AvmValue::Undefined(AvmUndefined)
        }
    }

    /// Removes the `n` top values.
    pub fn drop_top(&mut self, n: usize)
        ensures
            final(self).values@ == pop_spec(old(self).values@, n as int),
    {
        let mut i: usize = 0;
        while i < n && self.values.len() > 0
            invariant
                i <= n,
                i + self.values@.len() <= n + old(self).values@.len(),
                self.values@ == pop_spec(old(self).values@, i as int),
            decreases n - i,
        {
            self.values.pop();
            i = i + 1;
            assert(self.values@ =~= pop_spec(old(self).values@, i as int));
        }
        assert(self.values@ =~= pop_spec(old(self).values@, n as int));
    }
}

/// The intrinsic objects of a machine.
pub struct Realm {
    /// `Object.prototype`
    pub object_prototype: Gc,
    /// `Function.prototype`
    pub function_prototype: Gc,
    /// The `Object` constructor.
    pub object: Gc,
    /// The `Function` constructor.
    pub function: Gc,
    /// `Object.prototype.toString`
    pub object_to_string: Gc,
}

/// What a run makes visible, in order.
pub enum Output {
    Trace(Vec<char>),
    Warn(Warning),
}

#[derive(Clone, Copy, Debug, PartialEq, Eq, Structural)]
pub enum ExecOutcome {
    /// The action was carried out.
    Continue,
    /// The action needs this answer first; nothing changed.
    Ask(FloatQuery),
    /// The action cannot be carried out; nothing changed.
    Fault(Fault),
}

/// A machine: its heap, intrinsics, scripts and constant pool, and what it
/// has made visible.
pub struct Vm {
    pub swf_version: u8,
    pub heap: GcState<HeapCell>,
    pub pool: ConstantPool,
    pub scripts: Vec<Avm1Script>,
    pub realm: Realm,
    pub output: Vec<Output>,
    pub answers: Vec<FloatAnswer>,
}

/// The frame being run: its code, instruction pointer, operand stack and
/// scope.
pub struct CallFrame {
    pub code: Vec<u8>,
    pub ip: usize,
    pub stack: Stack,
    pub scope: Gc,
}

/// A run of one script on a machine: the frame being run, and the frames
/// of the calls in progress, outermost first.
pub struct ExecutionContext {
    pub vm: Vm,
    pub frame: CallFrame,
    pub callers: Vec<CallFrame>,
    pub steps: usize,
}

/// `new` is `old` with one more traced line, `t`.
pub open spec fn traced(old: Seq<Output>, new: Seq<Output>, t: Seq<char>) -> bool {
    &&& new.len() == old.len() + 1
    &&& forall|i: int| 0 <= i < old.len() ==> #[trigger] new[i] == old[i]
    &&& new.last() matches Output::Trace(m) && m@ == t
}

/// `new` is `old` with one more warning, whose line is `t`.
pub open spec fn warned(old: Seq<Output>, new: Seq<Output>, t: Seq<char>) -> bool {
    &&& new.len() == old.len() + 1
    &&& forall|i: int| 0 <= i < old.len() ==> #[trigger] new[i] == old[i]
    &&& new.last() matches Output::Warn(w) && w.text_spec() == t
}

#[derive(Clone, Copy, Debug, PartialEq, Eq, Structural)]
pub enum LegacyLogic {
    And,
    Or,
    Not,
    Equals,
    Less,
}

/// The boolean that a binary legacy opcode computes from its operands.
pub open spec fn legacy_logic_spec(kind: LegacyLogic, a: u64, b: u64) -> bool {
    match kind {
        LegacyLogic::And => !num_eq(a, 0) && !num_eq(b, 0),
        LegacyLogic::Or => !num_eq(a, 0) || !num_eq(b, 0),
        LegacyLogic::Not => num_eq(b, 0),
        LegacyLogic::Equals => num_eq(a, b),
        LegacyLogic::Less => num_lt(a, b),
    }
}

/// ToNumber of a value that needs neither heap nor parsing (else +0).
pub open spec fn number_operand(v: AvmValue) -> u64 {
    match crate::values::to_number_spec(v) {
        Some(x) => x,
        None => 0u64,
    }
}

/// An action that pushes a boolean ended as `e` says.
pub open spec fn bool_step(old: ExecutionContext, new: ExecutionContext, r: ExecOutcome, e: Eval<bool>, n: int, legacy: bool) -> bool {
    &&& outcome_of(e, r)
    &&& !(r is Continue) ==> new == old
    &&& e matches Eval::Done(b) ==> new.replaced_top(
        &old,
        n,
        if legacy {
            legacy_boolean_spec(b, old.vm.swf_version)
        } else {
            AvmValue::Boolean(AvmBoolean { value: b })
        },
    )
}

/// An action that pushes a new string ended as `e` says: it succeeds when
/// `e` gives a text and the heap has room for one more cell; otherwise
/// nothing changes.
pub open spec fn text_step(old: ExecutionContext, new: ExecutionContext, r: ExecOutcome, e: Eval<Seq<char>>, n: int) -> bool {
    &&& e is Done ==> (r is Continue <==> old.vm.heap.boxes@.len() < usize::MAX)
    &&& e is Done && !(r is Continue) ==> r == ExecOutcome::Fault(Fault::Heap)
    &&& !(e is Done) ==> outcome_of(e, r)
    &&& !(r is Continue) ==> new == old
    &&& r is Continue ==> (e matches Eval::Done(t) && new.replaced_top_by_text(&old, n, t))
}

/// A string primitive, or a text that a conversion produced.
pub open spec fn stringish(p: PrimitiveSpec) -> bool {
    match p {
        PrimitiveSpec::Text(_) => true,
        PrimitiveSpec::Value(v) => v is String,
    }
}

/// The number of a primitive that is neither a string nor a text.
pub open spec fn primitive_operand(p: PrimitiveSpec) -> u64 {
    match p {
        PrimitiveSpec::Value(v) => number_operand(v),
        PrimitiveSpec::Text(_) => 0u64,
    }
}

pub open spec fn concat_eval(a: Eval<Seq<char>>, b: Eval<Seq<char>>) -> Eval<Seq<char>> {
    match a {
        Eval::Done(x) => match b {
            Eval::Done(y) => Eval::Done(x + y),
            Eval::Ask(q) => Eval::Ask(q),
            Eval::Fault(f) => Eval::Fault(f),
        },
        Eval::Ask(q) => Eval::Ask(q),
        Eval::Fault(f) => Eval::Fault(f),
    }
}

/// `v` is what pushing `pv` gives, with `pool` as the constant pool.
pub open spec fn pushed_value(heap: GcState<HeapCell>, pool: ConstantPool, pv: PushValue, v: AvmValue) -> bool {
    match pv {
        PushValue::Boolean(b) => v == AvmValue::Boolean(AvmBoolean { value: b }),
        PushValue::Constant(i) => v == pool.get_spec(i),
        PushValue::Number(n) => v == AvmValue::Number(n),
        PushValue::Null => v == AvmValue::Null(AvmNull),
        PushValue::Undefined => v == AvmValue::Undefined(AvmUndefined),
        PushValue::String(t) => v matches AvmValue::String(h) && text_at(heap, h) == Some(t@),
        PushValue::Register(_) => false,
    }
}

pub proof fn lemma_extends_trans(a: GcState<HeapCell>, b: GcState<HeapCell>, c: GcState<HeapCell>)
    requires
        heap_extends(a, b),
        heap_extends(b, c),
    ensures
        heap_extends(a, c),
{
    assert forall|i: int| 0 <= i < a.boxes@.len() implies {
        &&& (#[trigger] c.boxes@[i]).value == a.boxes@[i].value
        &&& c.boxes@[i].edges@ == a.boxes@[i].edges@
    } by {
        assert(c.boxes@[i].value == b.boxes@[i].value);
    }
}

pub proof fn lemma_text_kept(a: GcState<HeapCell>, b: GcState<HeapCell>, h: Gc)
    requires
        heap_extends(a, b),
        text_at(a, h) is Some,
    ensures
        text_at(b, h) == text_at(a, h),
{
    assert(b.boxes@[h.index as int].value == a.boxes@[h.index as int].value);
}

proof fn lemma_pushed_kept(a: GcState<HeapCell>, b: GcState<HeapCell>, pool: ConstantPool, pv: PushValue, v: AvmValue)
    requires
        heap_extends(a, b),
        pushed_value(a, pool, pv, v),
    ensures
        pushed_value(b, pool, pv, v),
{
    match pv {
        PushValue::String(t) => {
            if let AvmValue::String(h) = v {
                lemma_text_kept(a, b, h);
            }
        },
        _ => {},
    }
}

/// The value bound to `name` in the scope `s` or, failing that, along its
/// enclosing scopes, following at most `fuel` links.
pub open spec fn scope_lookup(heap: GcState<HeapCell>, s: Gc, name: Seq<char>, fuel: nat) -> Eval<Option<AvmValue>>
    decreases fuel,
{
    if fuel == 0 {
        Eval::Done(None)
    } else {
        match scope_at(heap, s) {
            None => Eval::Fault(Fault::Heap),
            Some(sc) => if !sc.wf() {
                Eval::Fault(Fault::Heap)
            } else {
                match sc.binding_spec(name) {
                    Some(v) => Eval::Done(Some(v)),
                    None => match sc.parent {
                        None => Eval::Done(None),
                        Some(p) => scope_lookup(heap, p, name, (fuel - 1) as nat),
                    },
                }
            },
        }
    }
}

/// The scope that an assignment to `name` writes: the nearest one, from
/// `s` outward, that binds it, else the outermost.
pub open spec fn assign_target(heap: GcState<HeapCell>, s: Gc, name: Seq<char>, fuel: nat) -> Eval<Gc>
    decreases fuel,
{
    if fuel == 0 {
        Eval::Done(s)
    } else {
        match scope_at(heap, s) {
            None => Eval::Fault(Fault::Heap),
            Some(sc) => if !sc.wf() {
                Eval::Fault(Fault::Heap)
            } else if sc.binding_spec(name) is Some {
                Eval::Done(s)
            } else {
                match sc.parent {
                    None => Eval::Done(s),
                    Some(p) => assign_target(heap, p, name, (fuel - 1) as nat),
                }
            },
        }
    }
}

/// `h` names a scope cell that can take a new binding: its names and
/// values agree in number, and every handle it holds names a live cell.
pub open spec fn scope_bindable(heap: GcState<HeapCell>, h: Gc) -> bool {
    &&& scope_at(heap, h) is Some
    &&& scope_at(heap, h).unwrap().wf()
    &&& values_live(heap, scope_at(heap, h).unwrap().values@)
    &&& scope_at(heap, h).unwrap().parent matches Some(p) ==> heap.live(p.index as int)
}

/// A cell that can take a binding still can once the heap has grown.
pub proof fn lemma_bindable_kept(a: GcState<HeapCell>, b: GcState<HeapCell>, h: Gc)
    requires
        heap_extends(a, b),
        scope_bindable(a, h),
    ensures
        scope_bindable(b, h),
{
    assert(b.boxes@[h.index as int].value == a.boxes@[h.index as int].value);
    let sc = scope_at(a, h).unwrap();
    assert forall|k: int| 0 <= k < sc.values@.len() implies (value_handle(#[trigger] sc.values@[k]) matches Some(x)
        ==> b.live(x.index as int)) by {
        if let Some(x) = value_handle(sc.values@[k]) {
            assert(a.live(x.index as int));
            assert(b.boxes@[x.index as int].value == a.boxes@[x.index as int].value);
        }
    }
    if let Some(p) = sc.parent {
        assert(b.boxes@[p.index as int].value == a.boxes@[p.index as int].value);
    }
}

/// `new` is `old` with `name` bound to `value` in the scope cell `h`, and
/// every other cell as it was.
pub open spec fn scope_updated(old: GcState<HeapCell>, new: GcState<HeapCell>, h: Gc, name: Seq<char>, value: AvmValue) -> bool {
    &&& new.wf()
    &&& new.boxes@.len() == old.boxes@.len()
    &&& forall|i: int| 0 <= i < old.boxes@.len() && i != h.index ==> #[trigger] new.boxes@[i] == old.boxes@[i]
    &&& scope_at(old, h) is Some
    &&& scope_at(new, h) is Some
    &&& scope_at(new, h).unwrap().wf()
    &&& scope_at(new, h).unwrap().parent == scope_at(old, h).unwrap().parent
    &&& scope_at(new, h).unwrap().binding_spec(name) == Some(value)
    &&& forall|k: Seq<char>| k != name ==> #[trigger] scope_at(new, h).unwrap().binding_spec(k) == scope_at(old, h).unwrap().binding_spec(k)
}

/// The most pairs that one `InitObject` takes.
pub const MAX_INIT_PAIRS: usize = 0x3FFF_FFFF;

/// The texts of the keys of the first `n` pairs below the count of an
/// `InitObject`: pair `i` has its key at depth `2i + 1` and its value at
/// depth `2i + 2`.
pub open spec fn init_keys(heap: GcState<HeapCell>, swf: u8, ans: Seq<FloatAnswer>, stack: Seq<AvmValue>, n: nat) -> Eval<Seq<Seq<char>>>
    decreases n,
{
    if n == 0 {
        Eval::Done(Seq::empty())
    } else {
        match init_keys(heap, swf, ans, stack, (n - 1) as nat) {
            Eval::Done(ks) => match value_text(heap, swf, ans, peek_spec(stack, 2 * (n - 1) + 1)) {
                Eval::Done(t) => Eval::Done(ks.push(t)),
                Eval::Ask(q) => Eval::Ask(q),
                Eval::Fault(f) => Eval::Fault(f),
            },
            Eval::Ask(q) => Eval::Ask(q),
            Eval::Fault(f) => Eval::Fault(f),
        }
    }
}

proof fn lemma_init_keys_len(heap: GcState<HeapCell>, swf: u8, ans: Seq<FloatAnswer>, stack: Seq<AvmValue>, n: nat)
    requires
        init_keys(heap, swf, ans, stack, n) is Done,
    ensures
        init_keys(heap, swf, ans, stack, n) matches Eval::Done(ks) && ks.len() == n,
    decreases n,
{
    if n > 0 {
        lemma_init_keys_len(heap, swf, ans, stack, (n - 1) as nat);
    }
}

/// Once a key cannot be read, no longer prefix can be.
proof fn lemma_init_keys_stuck(heap: GcState<HeapCell>, swf: u8, ans: Seq<FloatAnswer>, stack: Seq<AvmValue>, i: nat, n: nat)
    requires
        i < n,
        init_keys(heap, swf, ans, stack, i) is Done,
        !(value_text(heap, swf, ans, peek_spec(stack, (2 * i + 1) as int)) is Done),
    ensures
        init_keys(heap, swf, ans, stack, n) == match value_text(heap, swf, ans, peek_spec(stack, (2 * i + 1) as int)) {
            Eval::Ask(q) => Eval::<Seq<Seq<char>>>::Ask(q),
            Eval::Fault(f) => Eval::<Seq<Seq<char>>>::Fault(f),
            Eval::Done(_) => Eval::<Seq<Seq<char>>>::Fault(Fault::Heap),
        },
    decreases n - i,
{
    if n > i + 1 {
        lemma_init_keys_stuck(heap, swf, ans, stack, i, (n - 1) as nat);
    }
}

/// The value of the last of the first `n` pairs whose key is `k`.
pub open spec fn last_pair(ks: Seq<Seq<char>>, stack: Seq<AvmValue>, k: Seq<char>, n: nat) -> Option<AvmValue>
    decreases n,
{
    if n == 0 {
        None
    } else if ks[n - 1] == k {
        Some(peek_spec(stack, 2 * (n - 1) + 2))
    } else {
        last_pair(ks, stack, k, (n - 1) as nat)
    }
}

/// The number of pairs that an `InitObject` count stands for: a number
/// that is a whole count no larger than `MAX_INIT_PAIRS`.
pub open spec fn pair_count(v: AvmValue) -> Option<nat> {
    match v {
        AvmValue::Number(x) => if crate::number::is_zero_bits(x.bits) {
            Some(0)
        } else {
            match safe_int(x.bits) {
                Some(c) => if 0 <= c <= MAX_INIT_PAIRS {
                    Some(c as nat)
                } else {
                    None
                },
                None => None,
            }
        },
        _ => None,
    }
}

/// The count that `v` stands for, as `pair_count` reads it.
pub fn count_of(v: AvmValue) -> (r: Option<usize>)
    ensures
        r matches Some(c) ==> pair_count(v) == Some(c as nat),
        r is None ==> pair_count(v) is None,
{
    match v {
        AvmValue::Number(x) => {
            if x.is_zero() {
                Some(0)
            } else {
                match x.to_safe_int() {
                    Some(c) => {
                        if 0 <= c && c <= MAX_INIT_PAIRS as i64 {
                            Some(c as usize)
                        } else {
                            None
                        }
                    },
                    None => None,
                }
            }
        },
        _ => None,
    }
}

/// The values of the first `n` pairs below an `InitObject` count hold live
/// handles.
pub open spec fn pair_values_live(heap: GcState<HeapCell>, stack: Seq<AvmValue>, n: nat) -> bool {
    forall|i: int| 0 <= i < n ==> value_live(heap, #[trigger] peek_spec(stack, 2 * i + 2))
}

/// The property that a script creates for a value, if any.
pub open spec fn user_property(v: Option<AvmValue>) -> Option<AvmObjectProperty> {
    match v {
        Some(x) => Some(AvmObjectProperty::user(x)),
        None => None,
    }
}

/// `ip` moved by `offset`, stopping at 0 and at the largest `usize`.
pub open spec fn offset_ip(ip: usize, offset: i16) -> usize {
    let t = ip + offset;
    if t < 0 {
        0
    } else if t > usize::MAX {
        usize::MAX
    } else {
        t as usize
    }
}

pub fn add_offset(ip: usize, offset: i16) -> (r: usize)
    ensures
        r == offset_ip(ip, offset),
{
    if offset >= 0 {
        let d = offset as usize;
        if ip > usize::MAX - d {
            usize::MAX
        } else {
            ip + d
        }
    } else {
        let d = (-(offset as i32)) as usize;
        if ip < d {
            0
        } else {
            ip - d
        }
    }
}

/// The line that a host logs for an output.
pub open spec fn output_line(o: Output) -> Seq<char> {
    match o {
        Output::Trace(m) => m@,
        Output::Warn(w) => w.text_spec(),
    }
}

/// `new` holds every cell of `old` unchanged, and maybe more.
pub open spec fn heap_extends(old: GcState<HeapCell>, new: GcState<HeapCell>) -> bool {
    &&& new.wf()
    &&& new.boxes@.len() >= old.boxes@.len()
    &&& forall|i: int|
        0 <= i < old.boxes@.len() ==> {
            &&& (#[trigger] new.boxes@[i]).value == old.boxes@[i].value
            &&& new.boxes@[i].edges@ == old.boxes@[i].edges@
        }
}

/// The ways an action is allowed to end.
pub open spec fn outcome_of<T>(e: Eval<T>, r: ExecOutcome) -> bool {
    match e {
        Eval::Done(_) => r is Continue,
        Eval::Ask(q) => r == ExecOutcome::Ask(q),
        Eval::Fault(f) => r == ExecOutcome::Fault(f),
    }
}

/// What `exec_pop` does.
pub open spec fn pop_post(old: ExecutionContext, new: ExecutionContext) -> bool {
    &&& new.same_frame(&old)
    &&& new.stack() == pop_spec(old.stack(), 1)
    &&& new.vm.heap == old.vm.heap
    &&& new.vm.output == old.vm.output
}

/// What `exec_push_duplicate` does.
pub open spec fn push_duplicate_post(old: ExecutionContext, new: ExecutionContext) -> bool {
    &&& new.same_frame(&old)
    &&& new.stack() == pop_spec(old.stack(), 1).push(peek_spec(old.stack(), 0)).push(
        peek_spec(old.stack(), 0),
    )
    &&& new.vm.heap == old.vm.heap
    &&& new.vm.output == old.vm.output
}

/// What `exec_trace` does.
pub open spec fn trace_post(old: ExecutionContext, new: ExecutionContext, r: ExecOutcome) -> bool {
    &&& ({
        let e = value_text(old.vm.heap, old.vm.swf_version, old.vm.answers@, peek_spec(old.stack(), 0));
        &&& outcome_of(e, r)
        &&& e matches Eval::Done(t) ==> {
            &&& new.same_frame(&old)
            &&& new.stack() == pop_spec(old.stack(), 1)
            &&& new.vm.heap == old.vm.heap
            &&& traced(old.vm.output@, new.vm.output@, t)
        }
    })
}

/// What `exec_legacy_arith` does.
pub open spec fn legacy_arith_post(old: ExecutionContext, new: ExecutionContext, r: ExecOutcome, op: FloatOp) -> bool {
    &&& ({
        let a = legacy_number_spec(peek_spec(old.stack(), 1));
        let b = legacy_number_spec(peek_spec(old.stack(), 0));
        if op == FloatOp::Divide && crate::number::is_zero_bits(b) && old.vm.swf_version < 5 {
            &&& (r is Continue <==> old.vm.heap.boxes@.len() < usize::MAX)
            &&& r is Continue ==> new.replaced_top_by_text(&old, 2, "#ERROR#"@)
            &&& !(r is Continue) ==> r == ExecOutcome::Fault(Fault::Heap) && new == old
        } else {
            exists|e: Eval<u64>|
                #![trigger arith_spec(op, a, b, old.vm.answers@, e)]
                arith_spec(op, a, b, old.vm.answers@, e) && outcome_of(e, r) && (e is Ask ==> new
                    == old) && (e matches Eval::Done(z) ==> new.replaced_top(
                    &old,
                    2,
                    AvmValue::Number(AvmNumber { bits: z }),
                ))
        }
    })
    &&& r is Fault ==> op == FloatOp::Divide
}

/// What `exec_increment` does.
pub open spec fn increment_post(old: ExecutionContext, new: ExecutionContext, r: ExecOutcome) -> bool {
    &&& crate::values::to_number_spec(peek_spec(old.stack(), 0)) is None ==> r == ExecOutcome::Fault(
        Fault::Unsupported,
    ) && new == old
    &&& ({
        let v = peek_spec(old.stack(), 0);
        let a = number_operand(v);
        crate::values::to_number_spec(v) is Some ==> exists|e: Eval<u64>|
            #![trigger arith_spec(FloatOp::Add, a, ONE_BITS, old.vm.answers@, e)]
            arith_spec(FloatOp::Add, a, ONE_BITS, old.vm.answers@, e) && outcome_of(e, r) && (e
                is Ask ==> new == old) && (e matches Eval::Done(z) ==> new.replaced_top(
                &old,
                1,
                AvmValue::Number(AvmNumber { bits: z }),
            ))
    })
}

/// What `exec_legacy_logic` does.
pub open spec fn legacy_logic_post(old: ExecutionContext, new: ExecutionContext, kind: LegacyLogic) -> bool {
    &&& ({
        let a = legacy_number_spec(peek_spec(old.stack(), 1));
        let b = legacy_number_spec(peek_spec(old.stack(), 0));
        let swf = old.vm.swf_version;
        match kind {
            LegacyLogic::Not => new.replaced_top(&old, 1, legacy_boolean_spec(num_eq(b, 0), swf)),
            _ => new.replaced_top(&old, 2, legacy_boolean_spec(legacy_logic_spec(kind, a, b), swf)),
        }
    })
}

/// What `exec_strict_equals` does.
pub open spec fn strict_equals_post(old: ExecutionContext, new: ExecutionContext, r: ExecOutcome) -> bool {
    &&& bool_step(
        old,
        new,
        r,
        strict_equals_eval(old.vm.heap, peek_spec(old.stack(), 1), peek_spec(old.stack(), 0)),
        2,
        false,
    )
}

/// What `exec_equals2` does.
pub open spec fn equals2_post(old: ExecutionContext, new: ExecutionContext, r: ExecOutcome) -> bool {
    &&& bool_step(
        old,
        new,
        r,
        abstract_equals_eval(old.vm.heap, peek_spec(old.stack(), 1), peek_spec(old.stack(), 0)),
        2,
        false,
    )
}

/// What `exec_less2` does.
pub open spec fn less2_post(old: ExecutionContext, new: ExecutionContext, r: ExecOutcome) -> bool {
    &&& bool_step(
        old,
        new,
        r,
        less_than_eval(old.vm.heap, peek_spec(old.stack(), 1), peek_spec(old.stack(), 0)),
        2,
        false,
    )
}

/// What `exec_greater` does.
pub open spec fn greater_post(old: ExecutionContext, new: ExecutionContext, r: ExecOutcome) -> bool {
    &&& bool_step(
        old,
        new,
        r,
        less_than_eval(old.vm.heap, peek_spec(old.stack(), 0), peek_spec(old.stack(), 1)),
        2,
        true,
    )
}

/// What `exec_string_equals` does.
pub open spec fn string_equals_post(old: ExecutionContext, new: ExecutionContext, r: ExecOutcome) -> bool {
    &&& ({
        let h = old.vm.heap;
        let swf = old.vm.swf_version;
        let ans = old.vm.answers@;
        let e = match value_text(h, swf, ans, peek_spec(old.stack(), 1)) {
            Eval::Done(x) => match value_text(h, swf, ans, peek_spec(old.stack(), 0)) {
                Eval::Done(y) => Eval::Done(x == y),
                Eval::Ask(q) => Eval::Ask(q),
                Eval::Fault(f) => Eval::Fault(f),
            },
            Eval::Ask(q) => Eval::Ask(q),
            Eval::Fault(f) => Eval::<bool>::Fault(f),
        };
        bool_step(old, new, r, e, 2, true)
    })
}

/// What `exec_string_add` does.
pub open spec fn string_add_post(old: ExecutionContext, new: ExecutionContext, r: ExecOutcome) -> bool {
    &&& ({
        let h = old.vm.heap;
        let swf = old.vm.swf_version;
        let ans = old.vm.answers@;
        let e = match value_text(h, swf, ans, peek_spec(old.stack(), 1)) {
            Eval::Done(x) => match value_text(h, swf, ans, peek_spec(old.stack(), 0)) {
                Eval::Done(y) => Eval::Done(x + y),
                Eval::Ask(q) => Eval::Ask(q),
                Eval::Fault(f) => Eval::Fault(f),
            },
            Eval::Ask(q) => Eval::Ask(q),
            Eval::Fault(f) => Eval::<Seq<char>>::Fault(f),
        };
        text_step(old, new, r, e, 2)
    })
}

/// What `exec_string_length` does.
pub open spec fn string_length_post(old: ExecutionContext, new: ExecutionContext, r: ExecOutcome) -> bool {
    &&& ({
        let e = value_text(old.vm.heap, old.vm.swf_version, old.vm.answers@, peek_spec(old.stack(), 0));
        &&& outcome_of(e, r) || (r == ExecOutcome::Fault(Fault::Unsupported) && (e matches Eval::Done(t) && t.len() >= SAFE_BOUND))
        &&& (e is Ask ==> new == old)
        &&& (r is Continue ==> (e matches Eval::Done(t) && new.same_frame(&old) && new.stack().drop_last() == pop_spec(old.stack(), 1)
            && (new.stack().last() matches AvmValue::Number(n) && safe_int(n.bits) == Some(t.len() as int))
            && new.vm.heap == old.vm.heap && new.vm.output == old.vm.output))
    })
}

/// What `exec_add2` does.
pub open spec fn add2_post(old: ExecutionContext, new: ExecutionContext, r: ExecOutcome) -> bool {
    &&& ({
        let h = old.vm.heap;
        let swf = old.vm.swf_version;
        let ans = old.vm.answers@;
        let px = to_primitive_spec(h, peek_spec(old.stack(), 1), ToPrimitiveHint::Default);
        let py = to_primitive_spec(h, peek_spec(old.stack(), 0), ToPrimitiveHint::Default);
        match (px, py) {
            (Eval::Done(a), Eval::Done(b)) => if stringish(a) || stringish(b) {
                text_step(
                    old,
                    new,
                    r,
                    concat_eval(primitive_text(h, swf, ans, px), primitive_text(h, swf, ans, py)),
                    2,
                )
            } else {
                exists|e: Eval<u64>|
                    #![trigger arith_spec(FloatOp::Add, primitive_operand(a), primitive_operand(b), ans, e)]
                    arith_spec(FloatOp::Add, primitive_operand(a), primitive_operand(b), ans, e) && outcome_of(e, r)
                        && (e is Ask ==> new == old) && (e matches Eval::Done(z)
                        ==> new.replaced_top(&old, 2, AvmValue::Number(AvmNumber { bits: z })))
            },
            (Eval::Ask(q), _) => r == ExecOutcome::Ask(q) && new == old,
            (Eval::Fault(f), _) => r == ExecOutcome::Fault(f),
            (Eval::Done(_), Eval::Ask(q)) => r == ExecOutcome::Ask(q) && new == old,
            (Eval::Done(_), Eval::Fault(f)) => r == ExecOutcome::Fault(f),
        }
    })
}

/// What `exec_push` does.
pub open spec fn push_post(old: ExecutionContext, new: ExecutionContext, r: ExecOutcome, values: Vec<PushValue>) -> bool {
    &&& (exists|k: int| 0 <= k < values@.len() && values@[k] is Register) <==> r == ExecOutcome::Fault(
        Fault::Unsupported,
    )
    &&& !(exists|k: int| 0 <= k < values@.len() && values@[k] is Register) ==> (r is Continue <==> old.vm.heap.boxes@.len()
        + values@.len() < usize::MAX)
    &&& r is Continue || r == ExecOutcome::Fault(Fault::Unsupported) || r == ExecOutcome::Fault(Fault::Heap)
    &&& !(r is Continue) ==> new == old
    &&& r is Continue ==> {
        &&& new.same_frame(&old)
        &&& new.vm.output == old.vm.output
        &&& heap_extends(old.vm.heap, new.vm.heap)
        &&& new.vm.heap.boxes@.len() <= old.vm.heap.boxes@.len() + values@.len()
        &&& new.stack().len() == old.stack().len() + values@.len()
        &&& new.stack().subrange(0, old.stack().len() as int) == old.stack()
        &&& forall|k: int|
            0 <= k < values@.len() ==> pushed_value(
                new.vm.heap,
                old.vm.pool,
                #[trigger] values@[k],
                new.stack()[old.stack().len() + k],
            )
    }
}

/// What `exec_constant_pool` does.
pub open spec fn constant_pool_post(old: ExecutionContext, new: ExecutionContext, r: ExecOutcome, strings: Vec<Vec<char>>) -> bool {
    &&& r is Continue || r == ExecOutcome::Fault(Fault::Heap)
    &&& (r is Continue <==> old.vm.heap.boxes@.len() + strings@.len() <= usize::MAX)
    &&& !(r is Continue) ==> new == old
    &&& r is Continue ==> {
        &&& new.same_frame_but_pool(&old)
        &&& new.stack() == old.stack()
        &&& new.vm.output == old.vm.output
        &&& heap_extends(old.vm.heap, new.vm.heap)
        &&& new.vm.heap.boxes@.len() == old.vm.heap.boxes@.len() + strings@.len()
        &&& new.vm.pool.strings matches Some(p) && p@.len() == strings@.len() && forall|k: int|
            0 <= k < strings@.len() ==> text_at(new.vm.heap, #[trigger] p@[k]) == Some(strings@[k]@)
    }
}

/// What `exec_get_variable` does.
pub open spec fn get_variable_post(old: ExecutionContext, new: ExecutionContext, r: ExecOutcome) -> bool {
    &&& ({
        let name = value_text(old.vm.heap, old.vm.swf_version, old.vm.answers@, peek_spec(old.stack(), 0));
        match name {
            Eval::Done(n) => {
                let found = scope_lookup(old.vm.heap, old.frame.scope, n, old.vm.heap.boxes@.len());
                match found {
                    Eval::Done(Some(v)) => r is Continue && new.replaced_top(&old, 1, v),
                    Eval::Done(None) => {
                        &&& r is Continue
                        &&& new.same_frame(&old)
                        &&& new.stack() == pop_spec(old.stack(), 1).push(AvmValue::Undefined(AvmUndefined))
                        &&& new.vm.heap == old.vm.heap
                        &&& warned(old.vm.output@, new.vm.output@, "Warning: Reference to undeclared variable, '"@ + n + "'"@)
                    },
                    Eval::Ask(q) => r == ExecOutcome::Ask(q) && new == old,
                    Eval::Fault(f) => r == ExecOutcome::Fault(f) && new == old,
                }
            },
            Eval::Ask(q) => r == ExecOutcome::Ask(q) && new == old,
            Eval::Fault(f) => r == ExecOutcome::Fault(f) && new == old,
        }
    })
}

/// What `exec_set_variable` does.
pub open spec fn set_variable_post(old: ExecutionContext, new: ExecutionContext, r: ExecOutcome) -> bool {
    &&& ({
        let value = peek_spec(old.stack(), 0);
        let name = value_text(old.vm.heap, old.vm.swf_version, old.vm.answers@, peek_spec(old.stack(), 1));
        match name {
            Eval::Done(n) => match assign_target(old.vm.heap, old.frame.scope, n, old.vm.heap.boxes@.len()) {
                Eval::Done(target) => {
                    &&& (r is Continue <==> scope_bindable(old.vm.heap, target) && value_live(old.vm.heap, value))
                    &&& !(r is Continue) ==> r == ExecOutcome::Fault(Fault::Heap) && new == old
                    &&& r is Continue ==> {
                        &&& new.same_frame(&old)
                        &&& new.stack() == pop_spec(old.stack(), 2)
                        &&& new.vm.output == old.vm.output
                        &&& scope_updated(old.vm.heap, new.vm.heap, target, n, value)
                    }
                },
                Eval::Ask(q) => r == ExecOutcome::Ask(q) && new == old,
                Eval::Fault(f) => r == ExecOutcome::Fault(f) && new == old,
            },
            Eval::Ask(q) => r == ExecOutcome::Ask(q) && new == old,
            Eval::Fault(f) => r == ExecOutcome::Fault(f) && new == old,
        }
    })
}

/// What `exec_define_local` does.
pub open spec fn define_local_post(old: ExecutionContext, new: ExecutionContext, r: ExecOutcome) -> bool {
    &&& ({
        let value = peek_spec(old.stack(), 0);
        let name = value_text(old.vm.heap, old.vm.swf_version, old.vm.answers@, peek_spec(old.stack(), 1));
        match name {
            Eval::Done(n) => {
                &&& (r is Continue <==> scope_bindable(old.vm.heap, old.frame.scope) && value_live(old.vm.heap, value))
                &&& !(r is Continue) ==> r == ExecOutcome::Fault(Fault::Heap) && new == old
                &&& r is Continue ==> {
                    &&& new.same_frame(&old)
                    &&& new.stack() == pop_spec(old.stack(), 2)
                    &&& new.vm.output == old.vm.output
                    &&& scope_updated(old.vm.heap, new.vm.heap, old.frame.scope, n, value)
                }
            },
            Eval::Ask(q) => r == ExecOutcome::Ask(q) && new == old,
            Eval::Fault(f) => r == ExecOutcome::Fault(f) && new == old,
        }
    })
}

/// What `exec_get_member` does.
pub open spec fn get_member_post(old: ExecutionContext, new: ExecutionContext, r: ExecOutcome) -> bool {
    &&& ({
        let key = value_text(old.vm.heap, old.vm.swf_version, old.vm.answers@, peek_spec(old.stack(), 0));
        match key {
            Eval::Done(k) => match peek_spec(old.stack(), 1) {
                AvmValue::Object(o) => match get_spec(old.vm.heap, o.handle, k) {
                    Eval::Done(Some(v)) => r is Continue && new.replaced_top(&old, 2, v),
                    Eval::Done(None) => r is Continue && new.replaced_top(&old, 2, AvmValue::Undefined(AvmUndefined)),
                    Eval::Ask(q) => r == ExecOutcome::Ask(q) && new == old,
                    Eval::Fault(f) => r == ExecOutcome::Fault(f) && new == old,
                },
                _ => r == ExecOutcome::Fault(Fault::Unsupported) && new == old,
            },
            Eval::Ask(q) => r == ExecOutcome::Ask(q) && new == old,
            Eval::Fault(f) => r == ExecOutcome::Fault(f) && new == old,
        }
    })
}

/// What `exec_init_object` does.
pub open spec fn init_object_post(old: ExecutionContext, new: ExecutionContext, r: ExecOutcome) -> bool {
    &&& ({
        let h = old.vm.heap;
        let st = old.stack();
        match pair_count(peek_spec(st, 0)) {
            None => r == ExecOutcome::Fault(Fault::Unsupported) && new == old,
            Some(n) => match init_keys(h, old.vm.swf_version, old.vm.answers@, st, n) {
                Eval::Done(ks) => {
                    &&& r is Continue || r == ExecOutcome::Fault(Fault::Heap)
                    &&& (r is Continue <==> h.boxes@.len() < usize::MAX && h.live(old.vm.realm.object_prototype.index as int)
                        && pair_values_live(h, st, n))
                    &&& !(r is Continue) ==> new == old
                    &&& r is Continue ==> {
                        &&& new.same_frame(&old)
                        &&& new.vm.output == old.vm.output
                        &&& heap_extends(h, new.vm.heap)
                        &&& new.stack().len() == pop_spec(st, (2 * n + 1) as int).len() + 1
                        &&& new.stack().drop_last() == pop_spec(st, (2 * n + 1) as int)
                        &&& new.stack().last() matches AvmValue::Object(o) && object_at(new.vm.heap, o.handle) matches Some(obj)
                            && obj.wf() && obj.class == ObjectClass::Object
                            && obj.prototype == AvmObjectPrototype::Object(AvmObjectRef { handle: old.vm.realm.object_prototype })
                            && forall|k: Seq<char>| #[trigger] obj.property_spec(k) == user_property(last_pair(ks, st, k, n))
                    }
                },
                Eval::Ask(q) => r == ExecOutcome::Ask(q) && new == old,
                Eval::Fault(f) => r == ExecOutcome::Fault(f) && new == old,
            },
        }
    })
}

/// What `exec_define_function` does.
pub open spec fn define_function_post(old: ExecutionContext, new: ExecutionContext, r: ExecOutcome, name: Vec<char>, parameters: Vec<Vec<char>>, body_size: u16) -> bool {
    &&& parameters@.len() > 0 || old.frame.ip + body_size > old.frame.code@.len() ==> r == ExecOutcome::Fault(
        Fault::Unsupported,
    ) && new == old
    &&& !(parameters@.len() > 0 || old.frame.ip + body_size > old.frame.code@.len()) ==> (r is Continue || r
        == ExecOutcome::Fault(Fault::Heap))
    &&& !(parameters@.len() > 0 || old.frame.ip + body_size > old.frame.code@.len()) ==> (r is Continue <==> {
        &&& old.vm.heap.boxes@.len() < usize::MAX
        &&& old.vm.heap.live(old.vm.realm.function_prototype.index as int)
        &&& old.vm.heap.live(old.frame.scope.index as int)
        &&& name@.len() > 0 ==> scope_bindable(old.vm.heap, old.frame.scope)
    })
    &&& !(r is Continue) ==> new == old
    &&& r is Continue ==> {
        let ip = old.frame.ip;
        &&& new.frame.ip == ip + body_size
        &&& new.frame.code == old.frame.code
        &&& new.frame.scope == old.frame.scope
        &&& new.vm.output == old.vm.output
        &&& new.vm.realm == old.vm.realm
        &&& new.vm.pool == old.vm.pool
        &&& new.vm.answers == old.vm.answers
        &&& new.vm.swf_version == old.vm.swf_version
        &&& new.steps == old.steps
        &&& new.callers == old.callers
        &&& new.stack().drop_last() == old.stack()
        &&& new.stack().last() matches AvmValue::Object(o) && (object_at(new.vm.heap, o.handle) matches Some(f)
            && (f.class == ObjectClass::Function
            && f.prototype == AvmObjectPrototype::Object(AvmObjectRef { handle: old.vm.realm.function_prototype })
            && (f.callable matches Some(AvmCallable::AvmFunction(af)) && (af.code@ == old.frame.code@.subrange(
            ip as int,
            ip + body_size,
        ) && af.scope == old.frame.scope))
            && (name@.len() > 0 ==> (scope_at(new.vm.heap, old.frame.scope) matches Some(sc)
            && sc.binding_spec(name@) == Some(AvmValue::Object(o))))))
    }
}

/// What `exec_if` does.
pub open spec fn if_post(old: ExecutionContext, new: ExecutionContext, r: ExecOutcome, offset: i16) -> bool {
    &&& match crate::values::to_boolean_spec(peek_spec(old.stack(), 0)) {
        None => r == ExecOutcome::Fault(Fault::Unsupported) && new == old,
        Some(b) => {
            &&& r is Continue
            &&& new.stack() == pop_spec(old.stack(), 1)
            &&& new.frame.ip == if b {
                offset_ip(old.frame.ip, offset)
            } else {
                old.frame.ip
            }
            &&& new.frame.code == old.frame.code
            &&& new.frame.scope == old.frame.scope
            &&& new.vm == old.vm
            &&& new.steps == old.steps
            &&& new.callers == old.callers
        },
    }
}

/// What `exec_jump` does.
pub open spec fn jump_post(old: ExecutionContext, new: ExecutionContext, offset: i16) -> bool {
    &&& new.frame.ip == offset_ip(old.frame.ip, offset)
    &&& new.frame.code == old.frame.code
    &&& new.frame.scope == old.frame.scope
    &&& new.frame.stack == old.frame.stack
    &&& new.vm == old.vm
}

/// What `exec` does with `action`: what the matching `exec_*` method
/// does.
pub open spec fn exec_post(o: ExecutionContext, n: ExecutionContext, action: Action, r: ExecOutcome) -> bool {
    match action {
        Action::Add => legacy_arith_post(o, n, r, FloatOp::Add),
        Action::Add2 => add2_post(o, n, r),
        Action::And => r is Continue && legacy_logic_post(o, n, LegacyLogic::And),
        Action::CallFunction => call_function_post(o, n, r),
        Action::ConstantPool(strings) => constant_pool_post(o, n, r, strings),
        Action::DefineFunction { name, parameters, body_size } => define_function_post(
            o,
            n,
            r,
            name,
            parameters,
            body_size,
        ),
        Action::DefineLocal => define_local_post(o, n, r),
        Action::Divide => legacy_arith_post(o, n, r, FloatOp::Divide),
        Action::Equals => r is Continue && legacy_logic_post(o, n, LegacyLogic::Equals),
        Action::Equals2 => equals2_post(o, n, r),
        Action::GetMember => get_member_post(o, n, r),
        Action::GetVariable => get_variable_post(o, n, r),
        Action::Greater => greater_post(o, n, r),
        Action::If { offset } => if_post(o, n, r, offset),
        Action::Increment => increment_post(o, n, r),
        Action::InitObject => init_object_post(o, n, r),
        Action::Jump { offset } => r is Continue && jump_post(o, n, offset),
        Action::Less => r is Continue && legacy_logic_post(o, n, LegacyLogic::Less),
        Action::Less2 => less2_post(o, n, r),
        Action::Multiply => legacy_arith_post(o, n, r, FloatOp::Multiply),
        Action::Not => r is Continue && legacy_logic_post(o, n, LegacyLogic::Not),
        Action::Or => r is Continue && legacy_logic_post(o, n, LegacyLogic::Or),
        Action::Pop => r is Continue && pop_post(o, n),
        Action::Push(values) => push_post(o, n, r, values),
        Action::PushDuplicate => r is Continue && push_duplicate_post(o, n),
        Action::Return => r is Continue && return_post(o, n),
        Action::SetVariable => set_variable_post(o, n, r),
        Action::StrictEquals => strict_equals_post(o, n, r),
        Action::StringAdd => string_add_post(o, n, r),
        Action::StringEquals => string_equals_post(o, n, r),
        Action::StringLength => string_length_post(o, n, r),
        Action::Subtract => legacy_arith_post(o, n, r, FloatOp::Subtract),
        Action::Trace => trace_post(o, n, r),
        Action::Unsupported => r == ExecOutcome::Fault(Fault::Unsupported) && n == o,
    }
}

/// `c` with its instruction pointer moved past an action of `size` bytes.
pub open spec fn advanced(c: ExecutionContext, size: usize) -> ExecutionContext {
    ExecutionContext {
        frame: CallFrame {
            ip: if c.frame.ip + size > usize::MAX {
                usize::MAX
            } else {
                (c.frame.ip + size) as usize
            },
            ..c.frame
        },
        ..c
    }
}

/// `c` with `steps` actions counted.
pub open spec fn counted(c: ExecutionContext, steps: usize) -> ExecutionContext {
    ExecutionContext { steps, ..c }
}

/// The run entered a call of `af`: the frame being run, with its `n` top
/// values popped, waits among the callers, and a new frame runs the body
/// of `af` in a new scope enclosed by the one `af` closes over.
pub open spec fn called(old: ExecutionContext, new: ExecutionContext, af: AvmFunction, n: int) -> bool {
    &&& new.callers@.len() == old.callers@.len() + 1
    &&& forall|i: int| 0 <= i < old.callers@.len() ==> #[trigger] new.callers@[i] == old.callers@[i]
    &&& new.callers@.last().code == old.frame.code
    &&& new.callers@.last().ip == old.frame.ip
    &&& new.callers@.last().scope == old.frame.scope
    &&& new.callers@.last().stack.values@ == pop_spec(old.stack(), n)
    &&& new.frame.code@ == af.code@
    &&& new.frame.ip == 0
    &&& new.stack().len() == 0
    &&& scope_at(new.vm.heap, new.frame.scope) matches Some(sc) && sc.wf() && sc.parent == Some(af.scope) && forall|k: Seq<char>|
        #[trigger] sc.binding_spec(k) is None
    &&& heap_extends(old.vm.heap, new.vm.heap)
    &&& new.vm.output == old.vm.output
    &&& new.vm.pool == old.vm.pool
    &&& new.vm.realm == old.vm.realm
    &&& new.vm.answers == old.vm.answers
    &&& new.vm.swf_version == old.vm.swf_version
    &&& new.steps == old.steps
}

/// What `exec_call_function` does.
pub open spec fn call_function_post(old: ExecutionContext, new: ExecutionContext, r: ExecOutcome) -> bool {
    let h = old.vm.heap;
    match value_text(h, old.vm.swf_version, old.vm.answers@, peek_spec(old.stack(), 0)) {
        Eval::Ask(q) => r == ExecOutcome::Ask(q) && new == old,
        Eval::Fault(f) => r == ExecOutcome::Fault(f) && new == old,
        Eval::Done(name) => match pair_count(peek_spec(old.stack(), 1)) {
            None => r == ExecOutcome::Fault(Fault::Unsupported) && new == old,
            Some(argc) => match scope_lookup(h, old.frame.scope, name, h.boxes@.len()) {
                Eval::Done(Some(AvmValue::Object(o))) => match object_at(h, o.handle) {
                    Some(fo) => match fo.callable {
                        Some(AvmCallable::AvmFunction(af)) => {
                            &&& (r is Continue <==> h.boxes@.len() < usize::MAX && h.live(af.scope.index as int))
                            &&& !(r is Continue) ==> r == ExecOutcome::Fault(Fault::Heap) && new == old
                            &&& r is Continue ==> called(old, new, af, (argc + 2) as int)
                        },
                        Some(AvmCallable::HostFunction(_)) => r == ExecOutcome::Fault(Fault::Unsupported) && new == old,
                        None => r == ExecOutcome::Fault(Fault::TypeError) && new == old,
                    },
                    None => r == ExecOutcome::Fault(Fault::Heap) && new == old,
                },
                Eval::Done(_) => r == ExecOutcome::Fault(Fault::TypeError) && new == old,
                Eval::Ask(q) => r == ExecOutcome::Ask(q) && new == old,
                Eval::Fault(f) => r == ExecOutcome::Fault(f) && new == old,
            },
        },
    }
}

/// What `exec_return` does: the top value goes to the caller's stack and
/// the caller runs on; with no caller the run ends.
pub open spec fn return_post(old: ExecutionContext, new: ExecutionContext) -> bool {
    let v = peek_spec(old.stack(), 0);
    &&& new.vm == old.vm
    &&& new.steps == old.steps
    &&& if old.callers@.len() == 0 {
        &&& new.callers@.len() == 0
        &&& new.frame.code == old.frame.code
        &&& new.frame.scope == old.frame.scope
        &&& new.frame.ip == old.frame.code@.len()
        &&& new.stack() == pop_spec(old.stack(), 1)
    } else {
        let caller = old.callers@.last();
        &&& new.callers@ == old.callers@.drop_last()
        &&& new.frame.code == caller.code
        &&& new.frame.ip == caller.ip
        &&& new.frame.scope == caller.scope
        &&& new.stack() == caller.stack.values@.push(v)
    }
}

/// The handles that a frame holds: its operand stack and its scope.
pub open spec fn frame_roots(f: CallFrame) -> Seq<usize> {
    crate::object::handles_of_values(f.stack.values@).map_values(|h: Gc| h.index) + seq![f.scope.index]
}

pub open spec fn frames_roots(fs: Seq<CallFrame>) -> Seq<usize>
    decreases fs.len(),
{
    if fs.len() == 0 {
        Seq::empty()
    } else {
        frames_roots(fs.drop_last()) + frame_roots(fs.last())
    }
}

/// Appends the handles that `f` holds.
fn push_frame_roots(roots: &mut Vec<usize>, f: &CallFrame)
    ensures
        final(roots)@ == old(roots)@ + frame_roots(*f),
{
    let mut values: Vec<Gc> = Vec::new();
    crate::object::push_value_handles(&mut values, &f.stack.values);
    assert(values@ =~= crate::object::handles_of_values(f.stack.values@));
    let ghost start = roots@;
    let mut i: usize = 0;
    while i < values.len()
        invariant
            i <= values@.len(),
            roots@ == start + values@.subrange(0, i as int).map_values(|h: Gc| h.index),
        decreases values@.len() - i,
    {
        roots.push(values[i].index);
        i = i + 1;
        assert(roots@ =~= start + values@.subrange(0, i as int).map_values(|h: Gc| h.index));
    }
    assert(values@.subrange(0, values@.len() as int) =~= values@);
    roots.push(f.scope.index);
    assert(roots@ =~= start + frame_roots(*f));
}

impl ExecutionContext {
    pub open spec fn stack(&self) -> Seq<AvmValue> {
        self.frame.stack.values@
    }

    pub open spec fn wf(&self) -> bool {
        self.vm.heap.wf()
    }

    /// Everything but the operand stack, the heap and the output is as in
    /// `old`.
    pub open spec fn same_frame(&self, old: &ExecutionContext) -> bool {
        &&& self.vm.swf_version == old.vm.swf_version
        &&& self.vm.pool == old.vm.pool
        &&& self.vm.scripts == old.vm.scripts
        &&& self.vm.realm == old.vm.realm
        &&& self.vm.answers == old.vm.answers
        &&& self.frame.code == old.frame.code
        &&& self.frame.ip == old.frame.ip
        &&& self.frame.scope == old.frame.scope
        &&& self.callers == old.callers
        &&& self.steps == old.steps
    }

    /// Everything but the constant pool, the operand stack, the heap and the
    /// output is as in `old`.
    pub open spec fn same_frame_but_pool(&self, old: &ExecutionContext) -> bool {
        &&& self.vm.swf_version == old.vm.swf_version
        &&& self.vm.scripts == old.vm.scripts
        &&& self.vm.realm == old.vm.realm
        &&& self.vm.answers == old.vm.answers
        &&& self.frame.code == old.frame.code
        &&& self.frame.ip == old.frame.ip
        &&& self.frame.scope == old.frame.scope
        &&& self.callers == old.callers
        &&& self.steps == old.steps
    }

    /// The action replaced the `n` top values by `v`, and changed nothing
    /// else.
    pub open spec fn replaced_top(&self, old: &ExecutionContext, n: int, v: AvmValue) -> bool {
        &&& self.same_frame(old)
        &&& self.stack() == pop_spec(old.stack(), n).push(v)
        &&& self.vm.heap == old.vm.heap
        &&& self.vm.output == old.vm.output
    }

    /// The action replaced the `n` top values by a new string holding `t`.
    pub open spec fn replaced_top_by_text(&self, old: &ExecutionContext, n: int, t: Seq<char>) -> bool {
        &&& self.same_frame(old)
        &&& self.stack().len() == pop_spec(old.stack(), n).len() + 1
        &&& self.stack().drop_last() == pop_spec(old.stack(), n)
        &&& self.stack().last() matches AvmValue::String(h) && text_at(self.vm.heap, h) == Some(t)
        &&& heap_extends(old.vm.heap, self.vm.heap)
        &&& self.vm.heap.boxes@.len() == old.vm.heap.boxes@.len() + 1
        &&& self.vm.output == old.vm.output
    }

    /// Allocates a string cell holding `text`.
    fn alloc_string(&mut self, text: Vec<char>) -> (r: Result<Gc, Fault>)
        requires
            old(self).wf(),
        ensures
            final(self).wf(),
            final(self).same_frame(old(self)),
            final(self).stack() == old(self).stack(),
            final(self).vm.output == old(self).vm.output,
            r matches Ok(h) ==> heap_extends(old(self).vm.heap, final(self).vm.heap) && text_at(
                final(self).vm.heap,
                h,
            ) == Some(text@),
            r matches Ok(h) ==> h.index == old(self).vm.heap.boxes@.len() && final(self).vm.heap.boxes@.len()
                == old(self).vm.heap.boxes@.len() + 1,
            r is Err <==> old(self).vm.heap.boxes@.len() == usize::MAX,
            r is Err ==> *final(self) == *old(self),
            r matches Err(f) ==> f == Fault::Heap,
    {
        let ghost t = text@;
        let cell = HeapCell::String(AvmString::new(text));
        let none: Vec<Gc> = Vec::new();
        assert(none@.len() == 0);
        match self.vm.heap.allocate(cell, none) {
            Ok(h) => {
                self.vm.heap.unroot(h);
                let _cells = self.vm.heap.boxes.len();
                proof {
                    assert(self.vm.heap.live(h.index as int));
                }
                Ok(h)
            },
            Err(_) => Err(Fault::Heap),
        }
    }

    /// Replaces the `n` top values by a new string holding `text`.
    fn replace_top_by_text(&mut self, n: usize, text: Vec<char>) -> (r: ExecOutcome)
        requires
            old(self).wf(),
        ensures
            final(self).wf(),
            final(self).steps == old(self).steps,
            r is Continue ==> final(self).replaced_top_by_text(old(self), n as int, text@),
            r is Continue || r == ExecOutcome::Fault(Fault::Heap),
            r is Continue <==> old(self).vm.heap.boxes@.len() < usize::MAX,
            !(r is Continue) ==> *final(self) == *old(self),
    {
        match self.alloc_string(text) {
            Ok(h) => {
                self.frame.stack.drop_top(n);
                self.frame.stack.push(AvmValue::String(h));
                assert(self.stack().drop_last() =~= pop_spec(old(self).stack(), n as int));
                ExecOutcome::Continue
            },
            Err(f) => ExecOutcome::Fault(f),
        }
    }

    /// `Pop`: drops the top value.
    pub fn exec_pop(&mut self)
        requires
            old(self).wf(),
        ensures
            final(self).wf(),
            final(self).steps == old(self).steps,
            pop_post(*old(self), *final(self)),
    {
        self.frame.stack.pop();
    }

    /// `PushDuplicate`: pushes the top value again.
    pub fn exec_push_duplicate(&mut self)
        requires
            old(self).wf(),
        ensures
            final(self).wf(),
            final(self).steps == old(self).steps,
            push_duplicate_post(*old(self), *final(self)),
    {
        let v = self.frame.stack.pop();
        self.frame.stack.push(v);
        self.frame.stack.push(v);
    }

    /// Replaces the `n` top values by `v`.
    fn replace_top(&mut self, n: usize, v: AvmValue)
        ensures
            final(self).replaced_top(old(self), n as int, v),
    {
        self.frame.stack.drop_top(n);
        self.frame.stack.push(v);
    }

    /// `Trace`: pops a value and traces its text.
    pub fn exec_trace(&mut self) -> (r: ExecOutcome)
        requires
            old(self).wf(),
        ensures
            final(self).wf(),
            final(self).steps == old(self).steps,
            !(r is Continue) ==> *final(self) == *old(self),
            trace_post(*old(self), *final(self), r),
    {
        match value_chars(&self.vm.heap, self.vm.swf_version, &self.vm.answers, self.frame.stack.peek(0)) {
            Eval::Done(t) => {
                self.frame.stack.pop();
                self.vm.output.push(Output::Trace(t));
                ExecOutcome::Continue
            },
            Eval::Ask(q) => ExecOutcome::Ask(q),
            Eval::Fault(f) => ExecOutcome::Fault(f),
        }
    }

    /// The arithmetic opcodes of SWF 4 (`Add`, `Subtract`, `Multiply`,
    /// `Divide`): both operands read as legacy numbers; a division by zero
    /// before SWF 5 gives the string `#ERROR#`.
    pub fn exec_legacy_arith(&mut self, op: FloatOp) -> (r: ExecOutcome)
        requires
            old(self).wf(),
        ensures
            final(self).wf(),
            final(self).steps == old(self).steps,
            !(r is Continue) ==> *final(self) == *old(self),
            legacy_arith_post(*old(self), *final(self), r, op),
    {
        let a = self.frame.stack.peek(1).legacy_to_avm_number();
        let b = self.frame.stack.peek(0).legacy_to_avm_number();
        if op == FloatOp::Divide && b.is_zero() && self.vm.swf_version < 5 {
            return self.replace_top_by_text(2, chars_of("#ERROR#"));
        }
        let e = arith(op, a, b, &self.vm.answers);
        match e {
            Eval::Done(z) => {
                self.replace_top(2, AvmValue::Number(AvmNumber { bits: z }));
                assert(arith_spec(op, a.bits, b.bits, old(self).vm.answers@, Eval::<u64>::Done(z)));
                ExecOutcome::Continue
            },
            Eval::Ask(q) => {
                assert(arith_spec(op, a.bits, b.bits, old(self).vm.answers@, Eval::<u64>::Ask(q)));
                ExecOutcome::Ask(q)
            },
            Eval::Fault(f) => ExecOutcome::Fault(f),
        }
    }

    /// `Increment`: ToNumber of the top value, plus one.
    pub fn exec_increment(&mut self) -> (r: ExecOutcome)
        requires
            old(self).wf(),
        ensures
            final(self).wf(),
            final(self).steps == old(self).steps,
            !(r is Continue) ==> *final(self) == *old(self),
            increment_post(*old(self), *final(self), r),
    {
        let v = self.frame.stack.peek(0);
        match v.to_avm_number() {
            Some(a) => {
                assert(number_operand(peek_spec(old(self).stack(), 0)) == a.bits);
                let e = arith(FloatOp::Add, a, AvmNumber { bits: ONE_BITS }, &self.vm.answers);
                match e {
                    Eval::Done(z) => {
                        self.replace_top(1, AvmValue::Number(AvmNumber { bits: z }));
                        assert(arith_spec(FloatOp::Add, a.bits, ONE_BITS, old(self).vm.answers@, Eval::<u64>::Done(z)));
                        ExecOutcome::Continue
                    },
                    Eval::Ask(q) => {
                        assert(arith_spec(FloatOp::Add, a.bits, ONE_BITS, old(self).vm.answers@, Eval::<u64>::Ask(q)));
                        ExecOutcome::Ask(q)
                    },
                    Eval::Fault(f) => ExecOutcome::Fault(f),
                }
            },
            None => ExecOutcome::Fault(Fault::Unsupported),
        }
    }

    /// The logical and comparison opcodes of SWF 4 (`And`, `Or`, `Not`,
    /// `Equals`, `Less`): operands read as legacy numbers, result pushed by
    /// the legacy boolean rule.
    pub fn exec_legacy_logic(&mut self, kind: LegacyLogic)
        requires
            old(self).wf(),
        ensures
            final(self).wf(),
            final(self).steps == old(self).steps,
            legacy_logic_post(*old(self), *final(self), kind),
    {
        let a = self.frame.stack.peek(1).legacy_to_avm_number();
        let b = self.frame.stack.peek(0).legacy_to_avm_number();
        let zero = AvmNumber { bits: 0 };
        let swf = self.vm.swf_version;
        match kind {
            LegacyLogic::Not => {
                self.replace_top(1, AvmValue::legacy_boolean(b.num_equals(&zero), swf));
            },
            LegacyLogic::And => {
                let v = !a.num_equals(&zero) && !b.num_equals(&zero);
                self.replace_top(2, AvmValue::legacy_boolean(v, swf));
            },
            LegacyLogic::Or => {
                let v = !a.num_equals(&zero) || !b.num_equals(&zero);
                self.replace_top(2, AvmValue::legacy_boolean(v, swf));
            },
            LegacyLogic::Equals => {
                let v = a.num_equals(&b);
                self.replace_top(2, AvmValue::legacy_boolean(v, swf));
            },
            LegacyLogic::Less => {
                let v = a.num_less(&b);
                self.replace_top(2, AvmValue::legacy_boolean(v, swf));
            },
        }
    }


    /// Replaces the `n` top values by the boolean that `e` gives, unless
    /// `e` asks or faults.
    fn finish_bool(&mut self, n: usize, e: Eval<bool>, legacy: bool) -> (r: ExecOutcome)
        requires
            old(self).wf(),
        ensures
            final(self).wf(),
            final(self).steps == old(self).steps,
            !(r is Continue) ==> *final(self) == *old(self),
            bool_step(*old(self), *final(self), r, e, n as int, legacy),
    {
        match e {
            Eval::Done(b) => {
                let v = if legacy {
                    AvmValue::legacy_boolean(b, self.vm.swf_version)
                } else {
                    AvmValue::boolean(b)
                };
                self.replace_top(n, v);
                ExecOutcome::Continue
            },
            Eval::Ask(q) => ExecOutcome::Ask(q),
            Eval::Fault(f) => ExecOutcome::Fault(f),
        }
    }

    /// `StrictEquals`: pushes whether the two top values are strictly
    /// equal.
    pub fn exec_strict_equals(&mut self) -> (r: ExecOutcome)
        requires
            old(self).wf(),
        ensures
            final(self).wf(),
            final(self).steps == old(self).steps,
            !(r is Continue) ==> *final(self) == *old(self),
            strict_equals_post(*old(self), *final(self), r),
    {
        let e = strict_equals(&self.vm.heap, self.frame.stack.peek(1), self.frame.stack.peek(0));
        self.finish_bool(2, e, false)
    }

    /// `Equals2`: pushes whether the two top values are equal by the
    /// abstract equality.
    pub fn exec_equals2(&mut self) -> (r: ExecOutcome)
        requires
            old(self).wf(),
        ensures
            final(self).wf(),
            final(self).steps == old(self).steps,
            !(r is Continue) ==> *final(self) == *old(self),
            equals2_post(*old(self), *final(self), r),
    {
        let e = abstract_equals(&self.vm.heap, self.frame.stack.peek(1), self.frame.stack.peek(0));
        self.finish_bool(2, e, false)
    }

    /// `Less2`: pushes whether the second value is less than the top one.
    pub fn exec_less2(&mut self) -> (r: ExecOutcome)
        requires
            old(self).wf(),
        ensures
            final(self).wf(),
            final(self).steps == old(self).steps,
            !(r is Continue) ==> *final(self) == *old(self),
            less2_post(*old(self), *final(self), r),
    {
        let e = less_than(&self.vm.heap, self.frame.stack.peek(1), self.frame.stack.peek(0));
        self.finish_bool(2, e, false)
    }

    /// `Greater`: pushes whether the second value is greater than the top
    /// one, by the legacy boolean rule.
    pub fn exec_greater(&mut self) -> (r: ExecOutcome)
        requires
            old(self).wf(),
        ensures
            final(self).wf(),
            final(self).steps == old(self).steps,
            !(r is Continue) ==> *final(self) == *old(self),
            greater_post(*old(self), *final(self), r),
    {
        let e = less_than(&self.vm.heap, self.frame.stack.peek(0), self.frame.stack.peek(1));
        self.finish_bool(2, e, true)
    }

    /// `StringEquals`: pushes, by the legacy boolean rule, whether the texts
    /// of the two top values are equal.
    pub fn exec_string_equals(&mut self) -> (r: ExecOutcome)
        requires
            old(self).wf(),
        ensures
            final(self).wf(),
            final(self).steps == old(self).steps,
            !(r is Continue) ==> *final(self) == *old(self),
            string_equals_post(*old(self), *final(self), r),
    {
        let e = match value_chars(&self.vm.heap, self.vm.swf_version, &self.vm.answers, self.frame.stack.peek(1)) {
            Eval::Done(x) => match value_chars(&self.vm.heap, self.vm.swf_version, &self.vm.answers, self.frame.stack.peek(0)) {
                Eval::Done(y) => Eval::Done(crate::object::same_chars(&x, &y)),
                Eval::Ask(q) => Eval::Ask(q),
                Eval::Fault(f) => Eval::Fault(f),
            },
            Eval::Ask(q) => Eval::Ask(q),
            Eval::Fault(f) => Eval::Fault(f),
        };
        self.finish_bool(2, e, true)
    }

    /// `StringAdd`: replaces the two top values by the concatenation of
    /// their texts.
    pub fn exec_string_add(&mut self) -> (r: ExecOutcome)
        requires
            old(self).wf(),
        ensures
            final(self).wf(),
            final(self).steps == old(self).steps,
            !(r is Continue) ==> *final(self) == *old(self),
            string_add_post(*old(self), *final(self), r),
    {
        match value_chars(&self.vm.heap, self.vm.swf_version, &self.vm.answers, self.frame.stack.peek(1)) {
            Eval::Done(x) => match value_chars(&self.vm.heap, self.vm.swf_version, &self.vm.answers, self.frame.stack.peek(0)) {
                Eval::Done(y) => {
                    let mut t = x;
                    let mut y = y;
                    t.append(&mut y);
                    self.replace_top_by_text(2, t)
                },
                Eval::Ask(q) => ExecOutcome::Ask(q),
                Eval::Fault(f) => ExecOutcome::Fault(f),
            },
            Eval::Ask(q) => ExecOutcome::Ask(q),
            Eval::Fault(f) => ExecOutcome::Fault(f),
        }
    }

    /// `StringLength`: replaces the top value by the number of characters
    /// of its text.
    pub fn exec_string_length(&mut self) -> (r: ExecOutcome)
        requires
            old(self).wf(),
        ensures
            final(self).wf(),
            final(self).steps == old(self).steps,
            !(r is Continue) ==> *final(self) == *old(self),
            string_length_post(*old(self), *final(self), r),
    {
        match value_chars(&self.vm.heap, self.vm.swf_version, &self.vm.answers, self.frame.stack.peek(0)) {
            Eval::Done(t) => {
                if (t.len() as u64) < SAFE_BOUND {
                    let n = AvmNumber::from_u64(t.len() as u64);
                    self.replace_top(1, AvmValue::Number(n));
                    assert(self.stack().drop_last() =~= pop_spec(old(self).stack(), 1));
                    ExecOutcome::Continue
                } else {
                    ExecOutcome::Fault(Fault::Unsupported)
                }
            },
            Eval::Ask(q) => ExecOutcome::Ask(q),
            Eval::Fault(f) => ExecOutcome::Fault(f),
        }
    }

    /// `Add2` (ECMA-262 section 11.6.1): both operands to primitives; if
    /// either is a string, the concatenation of their texts, else the sum of
    /// their numbers.
    pub fn exec_add2(&mut self) -> (r: ExecOutcome)
        requires
            old(self).wf(),
        ensures
            final(self).wf(),
            final(self).steps == old(self).steps,
            !(r is Continue) ==> *final(self) == *old(self),
            add2_post(*old(self), *final(self), r),
    {
        let x = self.frame.stack.peek(1);
        let y = self.frame.stack.peek(0);
        let px = match to_primitive(&self.vm.heap, x, ToPrimitiveHint::Default) {
            Eval::Done(p) => p,
            Eval::Ask(q) => {
                return ExecOutcome::Ask(q);
            },
            Eval::Fault(f) => {
                return ExecOutcome::Fault(f);
            },
        };
        let py = match to_primitive(&self.vm.heap, y, ToPrimitiveHint::Default) {
            Eval::Done(p) => p,
            Eval::Ask(q) => {
                return ExecOutcome::Ask(q);
            },
            Eval::Fault(f) => {
                return ExecOutcome::Fault(f);
            },
        };
        assert(to_primitive_spec(old(self).vm.heap, peek_spec(old(self).stack(), 1), ToPrimitiveHint::Default)
            == Eval::Done(view_primitive(px)));
        assert(to_primitive_spec(old(self).vm.heap, peek_spec(old(self).stack(), 0), ToPrimitiveHint::Default)
            == Eval::Done(view_primitive(py)));
        let left_string = match &px {
            Primitive::Text(_) => true,
            Primitive::Value(v) => matches!(v, AvmValue::String(_)),
        };
        let right_string = match &py {
            Primitive::Text(_) => true,
            Primitive::Value(v) => matches!(v, AvmValue::String(_)),
        };
        if left_string || right_string {
            let tx = match px {
                Primitive::Text(t) => Eval::Done(t),
                Primitive::Value(v) => value_chars(&self.vm.heap, self.vm.swf_version, &self.vm.answers, v),
            };
            let mut tx = match tx {
                Eval::Done(t) => t,
                Eval::Ask(q) => {
                    return ExecOutcome::Ask(q);
                },
                Eval::Fault(f) => {
                    return ExecOutcome::Fault(f);
                },
            };
            let ty = match py {
                Primitive::Text(t) => Eval::Done(t),
                Primitive::Value(v) => value_chars(&self.vm.heap, self.vm.swf_version, &self.vm.answers, v),
            };
            let mut ty = match ty {
                Eval::Done(t) => t,
                Eval::Ask(q) => {
                    return ExecOutcome::Ask(q);
                },
                Eval::Fault(f) => {
                    return ExecOutcome::Fault(f);
                },
            };
            tx.append(&mut ty);
            self.replace_top_by_text(2, tx)
        } else {
            let a = match px {
                Primitive::Value(v) => v.to_avm_number(),
                Primitive::Text(_) => None,
            };
            let b = match py {
                Primitive::Value(v) => v.to_avm_number(),
                Primitive::Text(_) => None,
            };
            match (a, b) {
                (Some(a), Some(b)) => {
                    assert(primitive_operand(view_primitive(px)) == a.bits);
                    assert(primitive_operand(view_primitive(py)) == b.bits);
                    let ghost ga = a.bits;
                    let ghost gb = b.bits;
                    match arith(FloatOp::Add, a, b, &self.vm.answers) {
                        Eval::Done(z) => {
                            self.replace_top(2, AvmValue::Number(AvmNumber { bits: z }));
                            assert(arith_spec(FloatOp::Add, ga, gb, old(self).vm.answers@, Eval::<u64>::Done(z)));
                            ExecOutcome::Continue
                        },
                        Eval::Ask(q) => {
                            assert(arith_spec(FloatOp::Add, ga, gb, old(self).vm.answers@, Eval::<u64>::Ask(q)));
                            ExecOutcome::Ask(q)
                        },
                        Eval::Fault(f) => ExecOutcome::Fault(f),
                    }
                },
                _ => ExecOutcome::Fault(Fault::Unsupported),
            }
        }
    }

    /// `Push`: pushes each value in order; a string literal becomes a new
    /// string, a constant is read from the pool. Registers are reserved.
    pub fn exec_push(&mut self, values: &Vec<PushValue>) -> (r: ExecOutcome)
        requires
            old(self).wf(),
        ensures
            final(self).wf(),
            final(self).steps == old(self).steps,
            !(r is Continue) ==> *final(self) == *old(self),
            push_post(*old(self), *final(self), r, *values),
    {
        let mut k: usize = 0;
        while k < values.len()
            invariant
                k <= values@.len(),
                *self == *old(self),
                old(self).wf(),
                forall|q: int| 0 <= q < k ==> !(values@[q] is Register),
            decreases values@.len() - k,
        {
            match &values[k] {
                PushValue::Register(_) => {
                    return ExecOutcome::Fault(Fault::Unsupported);
                },
                _ => {},
            }
            k = k + 1;
        }
        if values.len() >= usize::MAX - self.vm.heap.boxes.len() {
            return ExecOutcome::Fault(Fault::Heap);
        }
        let ghost n0 = old(self).stack().len();
        let mut i: usize = 0;
        while i < values.len()
            invariant
                i <= values@.len(),
                forall|q: int| 0 <= q < values@.len() ==> !(values@[q] is Register),
                self.wf(),
                self.same_frame(old(self)),
                self.vm.output == old(self).vm.output,
                heap_extends(old(self).vm.heap, self.vm.heap),
                self.vm.heap.boxes@.len() <= old(self).vm.heap.boxes@.len() + i,
                old(self).vm.heap.boxes@.len() + values@.len() < usize::MAX,
                self.stack().len() == n0 + i,
                self.stack().subrange(0, n0 as int) == old(self).stack(),
                forall|q: int|
                    0 <= q < i ==> pushed_value(self.vm.heap, old(self).vm.pool, #[trigger] values@[q], self.stack()[n0 + q]),
            decreases values@.len() - i,
        {
            let ghost h0 = self.vm.heap;
            let ghost s0 = self.stack();
            let v = match &values[i] {
                PushValue::Boolean(b) => AvmValue::boolean(*b),
                PushValue::Constant(c) => self.vm.pool.get(*c),
                PushValue::Number(n) => AvmValue::Number(*n),
                PushValue::Null => AvmValue::Null(AvmNull),
                PushValue::Undefined => AvmValue::Undefined(AvmUndefined),
                PushValue::Register(_) => AvmValue::Undefined(AvmUndefined),
                PushValue::String(t) => {
                    match self.alloc_string(crate::object::copy_chars(t)) {
                        Ok(h) => AvmValue::String(h),
                        Err(f) => {
                            return ExecOutcome::Fault(f);
                        },
                    }
                },
            };
            proof {
                lemma_extends_trans(old(self).vm.heap, h0, self.vm.heap);
                assert forall|q: int| 0 <= q < i implies pushed_value(self.vm.heap, old(self).vm.pool, #[trigger] values@[q], s0[n0 + q]) by {
                    lemma_pushed_kept(h0, self.vm.heap, old(self).vm.pool, values@[q], s0[n0 + q]);
                }
            }
            self.frame.stack.push(v);
            proof {
                assert(self.stack().subrange(0, n0 as int) =~= old(self).stack());
                assert forall|q: int| 0 <= q < i + 1 implies pushed_value(self.vm.heap, old(self).vm.pool, #[trigger] values@[q], self.stack()[n0 + q]) by {
                    if q < i {
                        assert(self.stack()[n0 + q] == s0[n0 + q]);
                    }
                }
            }
            i = i + 1;
        }
        ExecOutcome::Continue
    }

    /// `ConstantPool`: replaces the pool by new strings holding `strings`.
    pub fn exec_constant_pool(&mut self, strings: &Vec<Vec<char>>) -> (r: ExecOutcome)
        requires
            old(self).wf(),
        ensures
            final(self).wf(),
            final(self).steps == old(self).steps,
            !(r is Continue) ==> *final(self) == *old(self),
            constant_pool_post(*old(self), *final(self), r, *strings),
    {
        if strings.len() > usize::MAX - self.vm.heap.boxes.len() {
            return ExecOutcome::Fault(Fault::Heap);
        }
        let mut pool: Vec<Gc> = Vec::new();
        let mut i: usize = 0;
        while i < strings.len()
            invariant
                i <= strings@.len(),
                pool@.len() == i,
                self.wf(),
                self.same_frame(old(self)),
                self.vm.heap.boxes@.len() == old(self).vm.heap.boxes@.len() + i,
                old(self).vm.heap.boxes@.len() + strings@.len() <= usize::MAX,
                self.steps == old(self).steps,
                self.stack() == old(self).stack(),
                self.vm.output == old(self).vm.output,
                heap_extends(old(self).vm.heap, self.vm.heap),
                forall|k: int| 0 <= k < i ==> text_at(self.vm.heap, #[trigger] pool@[k]) == Some(strings@[k]@),
            decreases strings@.len() - i,
        {
            let ghost h0 = self.vm.heap;
            match self.alloc_string(crate::object::copy_chars(&strings[i])) {
                Ok(h) => {
                    proof {
                        lemma_extends_trans(old(self).vm.heap, h0, self.vm.heap);
                        assert forall|k: int| 0 <= k < i implies text_at(self.vm.heap, #[trigger] pool@[k]) == Some(strings@[k]@) by {
                            lemma_text_kept(h0, self.vm.heap, pool@[k]);
                        }
                    }
                    pool.push(h);
                },
                Err(f) => {
                    return ExecOutcome::Fault(f);
                },
            }
            i = i + 1;
        }
        self.vm.pool.set(pool);
        ExecOutcome::Continue
    }

    /// Binds `name` to `value` in the scope cell `h`; every other cell stays
    /// as it is.
    /// Whether the scope cell `h` can take a new binding.
    fn bindable(&self, h: Gc) -> (r: bool)
        ensures
            r == scope_bindable(self.vm.heap, h),
    {
        match crate::object::scope_in(&self.vm.heap, h) {
            Some(sc) => {
                if !sc.is_wf() || !check_values_live(&self.vm.heap, &sc.values) {
                    return false;
                }
                match sc.parent {
                    Some(p) => self.vm.heap.is_live(p),
                    None => true,
                }
            },
            None => false,
        }
    }

    fn update_scope(&mut self, h: Gc, name: Vec<char>, value: AvmValue) -> (r: Result<(), Fault>)
        requires
            old(self).wf(),
        ensures
            final(self).wf(),
            final(self).same_frame(old(self)),
            final(self).stack() == old(self).stack(),
            final(self).vm.output == old(self).vm.output,
            r is Ok <==> scope_bindable(old(self).vm.heap, h) && value_live(old(self).vm.heap, value),
            r is Ok ==> scope_updated(old(self).vm.heap, final(self).vm.heap, h, name@, value),
            r is Err ==> *final(self) == *old(self),
            r matches Err(f) ==> f == Fault::Heap,
    {
        match crate::object::scope_in(&self.vm.heap, h) {
            Some(sc) => {
                if !sc.is_wf() || !check_values_live(&self.vm.heap, &sc.values) || !check_value_live(&self.vm.heap, value) {
                    return Err(Fault::Heap);
                }
                match sc.parent {
                    Some(p) => {
                        if !self.vm.heap.is_live(p) {
                            return Err(Fault::Heap);
                        }
                    },
                    None => {},
                }
            },
            None => {
                return Err(Fault::Heap);
            },
        }
        let ghost name_view = name@;
        let placeholder = HeapCell::String(AvmString::new(Vec::new()));
        let none: Vec<Gc> = Vec::new();
        assert(none@.len() == 0);
        let taken = self.vm.heap.replace(h, placeholder, none);
        match taken {
            Ok(HeapCell::Scope(mut sc)) => {
                let ghost s0 = sc;
                sc.set_local(name, value);
                let handles = sc.handles();
                let ghost s1 = sc;
                let ghost mid = self.vm.heap;
                proof {
                    let oh = old(self).vm.heap;
                    assert(scope_at(oh, h) == Some(s0));
                    assert forall|i: int| #[trigger] mid.live(i) == oh.live(i) by {
                        if 0 <= i < oh.boxes@.len() && i != h.index {
                            assert(mid.boxes@[i] == oh.boxes@[i]);
                        }
                    }
                    lemma_values_from_live(oh, s1.values@, s0.values@, value);
                    assert(values_live(mid, s1.values@));
                    crate::object::lemma_handles_live(mid, s1.values@);
                    let hv = crate::object::handles_of_values(s1.values@);
                    assert forall|k: int| 0 <= k < handles@.len() implies mid.live(#[trigger] handles@[k].index as int) by {
                        if k < hv.len() {
                            assert(handles@[k] == hv[k]);
                        }
                    }
                }
                match self.vm.heap.replace(h, HeapCell::Scope(sc), handles) {
                    Ok(_) => {
                        proof {
                            assert(scope_at(old(self).vm.heap, h) == Some(s0));
                            assert(scope_at(self.vm.heap, h) == Some(s1));
                            assert forall|i: int|
                                0 <= i < old(self).vm.heap.boxes@.len() && i != h.index implies #[trigger] self.vm.heap.boxes@[i]
                                == old(self).vm.heap.boxes@[i] by {
                                assert(mid.boxes@[i] == old(self).vm.heap.boxes@[i]);
                            }
                        }
                        Ok(())
                    },
                    Err(_) => {
                        proof {
                            assert(false);
                        }
                        Err(Fault::Heap)
                    },
                }
            },
            _ => {
                proof {
                    assert(false);
                }
                Err(Fault::Heap)
            },
        }
    }

    /// The value bound to `name` in the current scope chain.
    fn lookup_variable(&self, name: &Vec<char>) -> (r: Eval<Option<AvmValue>>)
        ensures
            r == scope_lookup(self.vm.heap, self.frame.scope, name@, self.vm.heap.boxes@.len()),
    {
        let mut fuel: usize = self.vm.heap.boxes.len();
        let mut cur = self.frame.scope;
        while fuel > 0
            invariant
                scope_lookup(self.vm.heap, cur, name@, fuel as nat) == scope_lookup(
                    self.vm.heap,
                    self.frame.scope,
                    name@,
                    self.vm.heap.boxes@.len(),
                ),
            decreases fuel,
        {
            match crate::object::scope_in(&self.vm.heap, cur) {
                None => {
                    return Eval::Fault(Fault::Heap);
                },
                Some(sc) => {
                    if !sc.is_wf() {
                        return Eval::Fault(Fault::Heap);
                    }
                    match sc.get(name) {
                        Some(v) => {
                            return Eval::Done(Some(v));
                        },
                        None => match sc.parent {
                            None => {
                                return Eval::Done(None);
                            },
                            Some(p) => {
                                cur = p;
                            },
                        },
                    }
                },
            }
            fuel = fuel - 1;
        }
        Eval::Done(None)
    }

    /// The scope that an assignment to `name` writes.
    fn assignment_scope(&self, name: &Vec<char>) -> (r: Eval<Gc>)
        ensures
            r == assign_target(self.vm.heap, self.frame.scope, name@, self.vm.heap.boxes@.len()),
    {
        let mut fuel: usize = self.vm.heap.boxes.len();
        let mut cur = self.frame.scope;
        while fuel > 0
            invariant
                assign_target(self.vm.heap, cur, name@, fuel as nat) == assign_target(
                    self.vm.heap,
                    self.frame.scope,
                    name@,
                    self.vm.heap.boxes@.len(),
                ),
            decreases fuel,
        {
            match crate::object::scope_in(&self.vm.heap, cur) {
                None => {
                    return Eval::Fault(Fault::Heap);
                },
                Some(sc) => {
                    if !sc.is_wf() {
                        return Eval::Fault(Fault::Heap);
                    }
                    match sc.get(name) {
                        Some(_) => {
                            return Eval::Done(cur);
                        },
                        None => match sc.parent {
                            None => {
                                return Eval::Done(cur);
                            },
                            Some(p) => {
                                cur = p;
                            },
                        },
                    }
                },
            }
            fuel = fuel - 1;
        }
        Eval::Done(cur)
    }

    /// `GetVariable`: replaces the name on top by the value it is bound to
    /// along the scope chain; an unbound name gives `undefined` and a
    /// warning.
    pub fn exec_get_variable(&mut self) -> (r: ExecOutcome)
        requires
            old(self).wf(),
        ensures
            final(self).wf(),
            final(self).steps == old(self).steps,
            !(r is Continue) ==> *final(self) == *old(self),
            get_variable_post(*old(self), *final(self), r),
    {
        let name = match value_chars(&self.vm.heap, self.vm.swf_version, &self.vm.answers, self.frame.stack.peek(0)) {
            Eval::Done(n) => n,
            Eval::Ask(q) => {
                return ExecOutcome::Ask(q);
            },
            Eval::Fault(f) => {
                return ExecOutcome::Fault(f);
            },
        };
        match self.lookup_variable(&name) {
            Eval::Done(Some(v)) => {
                self.replace_top(1, v);
                ExecOutcome::Continue
            },
            Eval::Done(None) => {
                let warning = Warning::ReferenceToUndeclaredVariable(ReferenceToUndeclaredVariableWarning { variable: name });
                self.vm.output.push(Output::Warn(warning));
                self.replace_top(1, AvmValue::Undefined(AvmUndefined));
                ExecOutcome::Continue
            },
            Eval::Ask(q) => ExecOutcome::Ask(q),
            Eval::Fault(f) => ExecOutcome::Fault(f),
        }
    }

    /// `SetVariable`: binds the name below the top to the top value, in the
    /// nearest scope that binds it, else in the outermost scope.
    pub fn exec_set_variable(&mut self) -> (r: ExecOutcome)
        requires
            old(self).wf(),
        ensures
            final(self).wf(),
            final(self).steps == old(self).steps,
            !(r is Continue) ==> *final(self) == *old(self),
            set_variable_post(*old(self), *final(self), r),
    {
        let value = self.frame.stack.peek(0);
        let name = match value_chars(&self.vm.heap, self.vm.swf_version, &self.vm.answers, self.frame.stack.peek(1)) {
            Eval::Done(n) => n,
            Eval::Ask(q) => {
                return ExecOutcome::Ask(q);
            },
            Eval::Fault(f) => {
                return ExecOutcome::Fault(f);
            },
        };
        let target = match self.assignment_scope(&name) {
            Eval::Done(t) => t,
            Eval::Ask(q) => {
                return ExecOutcome::Ask(q);
            },
            Eval::Fault(f) => {
                return ExecOutcome::Fault(f);
            },
        };
        match self.update_scope(target, name, value) {
            Ok(()) => {
                self.frame.stack.drop_top(2);
                ExecOutcome::Continue
            },
            Err(f) => ExecOutcome::Fault(f),
        }
    }

    /// `DefineLocal`: binds the name below the top to the top value in the
    /// current scope. No other cell changes; in particular no enclosing
    /// scope does.
    pub fn exec_define_local(&mut self) -> (r: ExecOutcome)
        requires
            old(self).wf(),
        ensures
            final(self).wf(),
            final(self).steps == old(self).steps,
            !(r is Continue) ==> *final(self) == *old(self),
            define_local_post(*old(self), *final(self), r),
    {
        let value = self.frame.stack.peek(0);
        let name = match value_chars(&self.vm.heap, self.vm.swf_version, &self.vm.answers, self.frame.stack.peek(1)) {
            Eval::Done(n) => n,
            Eval::Ask(q) => {
                return ExecOutcome::Ask(q);
            },
            Eval::Fault(f) => {
                return ExecOutcome::Fault(f);
            },
        };
        let scope = self.frame.scope;
        match self.update_scope(scope, name, value) {
            Ok(()) => {
                self.frame.stack.drop_top(2);
                ExecOutcome::Continue
            },
            Err(f) => ExecOutcome::Fault(f),
        }
    }

    /// `GetMember`: replaces an object and a key by the value that
    /// `[[Get]]` finds under the key's text, `undefined` when there is none.
    /// A receiver that is not an object is reserved.
    pub fn exec_get_member(&mut self) -> (r: ExecOutcome)
        requires
            old(self).wf(),
        ensures
            final(self).wf(),
            final(self).steps == old(self).steps,
            !(r is Continue) ==> *final(self) == *old(self),
            get_member_post(*old(self), *final(self), r),
    {
        let key = match value_chars(&self.vm.heap, self.vm.swf_version, &self.vm.answers, self.frame.stack.peek(0)) {
            Eval::Done(k) => k,
            Eval::Ask(q) => {
                return ExecOutcome::Ask(q);
            },
            Eval::Fault(f) => {
                return ExecOutcome::Fault(f);
            },
        };
        match self.frame.stack.peek(1) {
            AvmValue::Object(o) => match get_member(&self.vm.heap, o.handle, &key) {
                Eval::Done(Some(v)) => {
                    self.replace_top(2, v);
                    ExecOutcome::Continue
                },
                Eval::Done(None) => {
                    self.replace_top(2, AvmValue::Undefined(AvmUndefined));
                    ExecOutcome::Continue
                },
                Eval::Ask(q) => ExecOutcome::Ask(q),
                Eval::Fault(f) => ExecOutcome::Fault(f),
            },
            _ => ExecOutcome::Fault(Fault::Unsupported),
        }
    }

    /// The texts of the keys of the first `n` pairs below the count.
    fn init_object_keys(&self, n: usize) -> (r: Eval<Vec<Vec<char>>>)
        requires
            n <= MAX_INIT_PAIRS,
        ensures
            match r {
                Eval::Done(ks) => init_keys(self.vm.heap, self.vm.swf_version, self.vm.answers@, self.stack(), n as nat)
                    == Eval::Done(key_texts(ks@)),
                Eval::Ask(q) => init_keys(self.vm.heap, self.vm.swf_version, self.vm.answers@, self.stack(), n as nat)
                    == Eval::<Seq<Seq<char>>>::Ask(q),
                Eval::Fault(f) => init_keys(self.vm.heap, self.vm.swf_version, self.vm.answers@, self.stack(), n as nat)
                    == Eval::<Seq<Seq<char>>>::Fault(f),
            },
    {
        let mut keys: Vec<Vec<char>> = Vec::new();
        let mut i: usize = 0;
        assert(key_texts(keys@) =~= Seq::<Seq<char>>::empty());
        while i < n
            invariant
                i <= n <= MAX_INIT_PAIRS,
                init_keys(self.vm.heap, self.vm.swf_version, self.vm.answers@, self.stack(), i as nat) == Eval::Done(
                    key_texts(keys@),
                ),
            decreases n - i,
        {
            match value_chars(&self.vm.heap, self.vm.swf_version, &self.vm.answers, self.frame.stack.peek(2 * i + 1)) {
                Eval::Done(t) => {
                    let ghost tv = t@;
                    let ghost before = keys@;
                    keys.push(t);
                    assert(key_texts(keys@) =~= key_texts(before).push(tv));
                    assert(((2 * (i + 1 - 1) + 1) as int) == (2 * i + 1) as int);
                },
                Eval::Ask(q) => {
                    proof {
                        lemma_init_keys_stuck(self.vm.heap, self.vm.swf_version, self.vm.answers@, self.stack(), i as nat, n as nat);
                    }
                    return Eval::Ask(q);
                },
                Eval::Fault(f) => {
                    proof {
                        lemma_init_keys_stuck(self.vm.heap, self.vm.swf_version, self.vm.answers@, self.stack(), i as nat, n as nat);
                    }
                    return Eval::Fault(f);
                },
            }
            i = i + 1;
        }
        Eval::Done(keys)
    }

    /// `InitObject`: pops a count `n` and `n` (key, value) pairs and pushes
    /// a new object, whose prototype is `Object.prototype`, with each key's
    /// text set to its value in the order the pairs are popped (so that of
    /// equal keys the deepest pair wins).
    pub fn exec_init_object(&mut self) -> (r: ExecOutcome)
        requires
            old(self).wf(),
        ensures
            final(self).wf(),
            final(self).steps == old(self).steps,
            !(r is Continue) ==> *final(self) == *old(self),
            init_object_post(*old(self), *final(self), r),
    {
        let n: usize = match count_of(self.frame.stack.peek(0)) {
            Some(c) => c,
            None => {
                return ExecOutcome::Fault(Fault::Unsupported);
            },
        };
        assert(pair_count(peek_spec(old(self).stack(), 0)) == Some(n as nat));
        let keys = match self.init_object_keys(n) {
            Eval::Done(ks) => ks,
            Eval::Ask(q) => {
                return ExecOutcome::Ask(q);
            },
            Eval::Fault(f) => {
                return ExecOutcome::Fault(f);
            },
        };
        let ghost ks = key_texts(keys@);
        let ghost st = old(self).stack();
        proof {
            lemma_init_keys_len(self.vm.heap, self.vm.swf_version, self.vm.answers@, st, n as nat);
        }
        if self.vm.heap.boxes.len() == usize::MAX || !self.vm.heap.is_live(self.vm.realm.object_prototype) {
            return ExecOutcome::Fault(Fault::Heap);
        }
        let mut j: usize = 0;
        while j < n
            invariant
                j <= n <= MAX_INIT_PAIRS,
                st == self.stack(),
                *self == *old(self),
                old(self).wf(),
                keys@.len() == n,
                pair_count(peek_spec(st, 0)) == Some(n as nat),
                init_keys(self.vm.heap, self.vm.swf_version, self.vm.answers@, st, n as nat) == Eval::Done(key_texts(keys@)),
                self.vm.heap.boxes@.len() < usize::MAX,
                self.vm.heap.live(self.vm.realm.object_prototype.index as int),
                forall|q: int| 0 <= q < j ==> value_live(self.vm.heap, #[trigger] peek_spec(st, 2 * q + 2)),
            decreases n - j,
        {
            if !check_value_live(&self.vm.heap, self.frame.stack.peek(2 * j + 2)) {
                return ExecOutcome::Fault(Fault::Heap);
            }
            j = j + 1;
        }
        let proto = AvmObjectPrototype::Object(AvmObjectRef { handle: self.vm.realm.object_prototype });
        let mut obj = AvmObject::new(ObjectClass::Object, proto, None);
        let mut i: usize = 0;
        while i < n
            invariant
                i <= n <= MAX_INIT_PAIRS,
                keys@.len() == n,
                ks == key_texts(keys@),
                st == self.stack(),
                *self == *old(self),
                obj.wf(),
                obj.class == ObjectClass::Object,
                obj.prototype == proto,
                obj.callable is None,
                forall|k: Seq<char>| #[trigger] obj.property_spec(k) == user_property(last_pair(ks, st, k, i as nat)),
                pair_values_live(self.vm.heap, st, n as nat),
                values_live(self.vm.heap, property_values(obj.properties@)),
            decreases n - i,
        {
            let v = self.frame.stack.peek(2 * i + 2);
            let key = crate::object::copy_chars(&keys[i]);
            let ghost before = obj;
            proof {
                assert(ks[i as int] == keys@[i as int]@);
            }
            obj.set(key, v);
            proof {
                assert(value_live(self.vm.heap, peek_spec(st, 2 * i + 2)));
                assert forall|q: int| 0 <= q < obj.properties@.len() implies (value_handle(
                    #[trigger] property_values(obj.properties@)[q],
                ) matches Some(x) ==> self.vm.heap.live(x.index as int)) by {
                    if obj.properties@[q] != AvmObjectProperty::user(v) {
                        let p = choose|p: int| 0 <= p < before.properties@.len() && before.properties@[p] == obj.properties@[q];
                        assert(property_values(before.properties@)[p] == obj.properties@[q].value);
                    }
                }
                assert forall|k: Seq<char>| #[trigger] obj.property_spec(k) == user_property(last_pair(ks, st, k, (i + 1) as nat)) by {
                    assert(((2 * (i + 1 - 1) + 2) as int) == (2 * i + 2) as int);
                    if k == ks[i as int] {
                    } else {
                        assert(obj.property_spec(k) == before.property_spec(k));
                    }
                }
            }
            i = i + 1;
        }
        let handles = obj.handles();
        let ghost objv = obj;
        proof {
            crate::object::lemma_handles_live(self.vm.heap, property_values(obj.properties@));
            let hv = crate::object::handles_of_values(property_values(obj.properties@));
            assert forall|k: int| 0 <= k < handles@.len() implies self.vm.heap.live(#[trigger] handles@[k].index as int) by {
                if k > 0 {
                    assert(handles@[k] == hv[k - 1]);
                }
            }
        }
        match self.vm.heap.allocate(HeapCell::Object(obj), handles) {
            Ok(h) => {
                self.vm.heap.unroot(h);
                assert(object_at(self.vm.heap, h) == Some(objv));
                self.frame.stack.drop_top(2 * n + 1);
                self.frame.stack.push(AvmValue::Object(AvmObjectRef { handle: h }));
                assert(self.stack().drop_last() =~= pop_spec(st, (2 * n + 1) as int));
                ExecOutcome::Continue
            },
            Err(_) => {
                proof {
                    assert(false);
                }
                ExecOutcome::Fault(Fault::Heap)
            },
        }
    }

    /// `DefineFunction`: a function object whose body is the next
    /// `body_size` bytes of code and which closes over the current scope;
    /// it is bound to its name in the current scope when the name is not
    /// empty, and pushed; the instruction pointer moves past the body.
    /// Parameters are reserved.
    pub fn exec_define_function(&mut self, name: &Vec<char>, parameters: &Vec<Vec<char>>, body_size: u16) -> (r: ExecOutcome)
        requires
            old(self).wf(),
        ensures
            final(self).wf(),
            final(self).steps == old(self).steps,
            !(r is Continue) ==> *final(self) == *old(self),
            define_function_post(*old(self), *final(self), r, *name, *parameters, body_size),
    {
        if parameters.len() > 0 {
            return ExecOutcome::Fault(Fault::Unsupported);
        }
        let start = self.frame.ip;
        if start > self.frame.code.len() || (body_size as usize) > self.frame.code.len() - start {
            return ExecOutcome::Fault(Fault::Unsupported);
        }
        let end = start + body_size as usize;
        let mut code: Vec<u8> = Vec::new();
        let mut i = start;
        while i < end
            invariant
                start <= i <= end <= self.frame.code@.len(),
                code@ == self.frame.code@.subrange(start as int, i as int),
            decreases end - i,
        {
            code.push(self.frame.code[i]);
            i = i + 1;
            assert(code@ =~= self.frame.code@.subrange(start as int, i as int));
        }
        let scope = self.frame.scope;
        if self.vm.heap.boxes.len() == usize::MAX || !self.vm.heap.is_live(self.vm.realm.function_prototype)
            || !self.vm.heap.is_live(scope) {
            return ExecOutcome::Fault(Fault::Heap);
        }
        if name.len() > 0 && !self.bindable(scope) {
            return ExecOutcome::Fault(Fault::Heap);
        }
        let function = AvmFunction { code, scope, register_count: 0 };
        let proto = AvmObjectPrototype::Object(AvmObjectRef { handle: self.vm.realm.function_prototype });
        let obj = AvmObject::new(ObjectClass::Function, proto, Some(AvmCallable::AvmFunction(function)));
        let handles = obj.handles();
        let ghost objv = obj;
        proof {
            assert(handles@ =~= seq![self.vm.realm.function_prototype, scope]);
        }
        let ghost before = self.vm.heap;
        let h = match self.vm.heap.allocate(HeapCell::Object(obj), handles) {
            Ok(h) => h,
            Err(_) => {
                proof {
                    assert(false);
                }
                return ExecOutcome::Fault(Fault::Heap);
            },
        };
        self.vm.heap.unroot(h);
        assert(object_at(self.vm.heap, h) == Some(objv));
        let value = AvmValue::Object(AvmObjectRef { handle: h });
        if name.len() > 0 {
            let ghost mid = self.vm.heap;
            proof {
                lemma_bindable_kept(before, mid, scope);
                assert(mid.live(h.index as int));
                assert(h.index != scope.index);
            }
            match self.update_scope(scope, crate::object::copy_chars(name), value) {
                Ok(()) => {
                    proof {
                        if h.index != scope.index {
                            assert(self.vm.heap.boxes@[h.index as int] == mid.boxes@[h.index as int]);
                        }
                    }
                },
                Err(f) => {
                    proof {
                        assert(false);
                    }
                    return ExecOutcome::Fault(f);
                },
            }
        }
        self.frame.stack.push(value);
        assert(self.stack().drop_last() =~= old(self).stack());
        self.frame.ip = end;
        ExecOutcome::Continue
    }

    /// `If`: pops a value; when its ToBoolean is true the instruction
    /// pointer moves by `offset`. ToBoolean of a string is left open.
    pub fn exec_if(&mut self, offset: i16) -> (r: ExecOutcome)
        requires
            old(self).wf(),
        ensures
            final(self).wf(),
            final(self).steps == old(self).steps,
            !(r is Continue) ==> *final(self) == *old(self),
            if_post(*old(self), *final(self), r, offset),
    {
        match self.frame.stack.peek(0).to_avm_boolean() {
            None => ExecOutcome::Fault(Fault::Unsupported),
            Some(b) => {
                self.frame.stack.pop();
                if b.value {
                    self.frame.ip = add_offset(self.frame.ip, offset);
                }
                ExecOutcome::Continue
            },
        }
    }

    /// `Jump`: the instruction pointer moves by `offset`.
    pub fn exec_jump(&mut self, offset: i16)
        requires
            old(self).wf(),
        ensures
            final(self).wf(),
            final(self).steps == old(self).steps,
            final(self).steps == old(self).steps,
            jump_post(*old(self), *final(self), offset),
    {
        self.frame.ip = add_offset(self.frame.ip, offset);
    }

    /// `CallFunction`: pops a function name and an argument count, then the
    /// arguments, and calls the function bound to the name along the scope
    /// chain, with no parameter bound. Host functions called this way are
    /// reserved.
    pub fn exec_call_function(&mut self) -> (r: ExecOutcome)
        requires
            old(self).wf(),
        ensures
            final(self).wf(),
            final(self).steps == old(self).steps,
            !(r is Continue) ==> *final(self) == *old(self),
            call_function_post(*old(self), *final(self), r),
    {
        let name = match value_chars(&self.vm.heap, self.vm.swf_version, &self.vm.answers, self.frame.stack.peek(0)) {
            Eval::Done(n) => n,
            Eval::Ask(q) => {
                return ExecOutcome::Ask(q);
            },
            Eval::Fault(f) => {
                return ExecOutcome::Fault(f);
            },
        };
        let argc = match count_of(self.frame.stack.peek(1)) {
            Some(c) => c,
            None => {
                return ExecOutcome::Fault(Fault::Unsupported);
            },
        };
        let f = match self.lookup_variable(&name) {
            Eval::Done(Some(AvmValue::Object(o))) => o,
            Eval::Done(_) => {
                return ExecOutcome::Fault(Fault::TypeError);
            },
            Eval::Ask(q) => {
                return ExecOutcome::Ask(q);
            },
            Eval::Fault(f) => {
                return ExecOutcome::Fault(f);
            },
        };
        let (code, closure) = match crate::object::object_in(&self.vm.heap, f.handle) {
            None => {
                return ExecOutcome::Fault(Fault::Heap);
            },
            Some(fo) => match &fo.callable {
                Some(AvmCallable::AvmFunction(af)) => (copy_bytes(&af.code), af.scope),
                Some(AvmCallable::HostFunction(_)) => {
                    return ExecOutcome::Fault(Fault::Unsupported);
                },
                None => {
                    return ExecOutcome::Fault(Fault::TypeError);
                },
            },
        };
        if self.vm.heap.boxes.len() == usize::MAX || !self.vm.heap.is_live(closure) {
            return ExecOutcome::Fault(Fault::Heap);
        }
        let local = Scope::empty(Some(closure));
        let ghost lv = local;
        let handles = local.handles();
        proof {
            assert(crate::object::handles_of_values(lv.values@) =~= Seq::<Gc>::empty());
            assert(handles@ =~= seq![closure]);
        }
        let h = match self.vm.heap.allocate(HeapCell::Scope(local), handles) {
            Ok(h) => h,
            Err(_) => {
                proof {
                    assert(false);
                }
                return ExecOutcome::Fault(Fault::Heap);
            },
        };
        self.vm.heap.unroot(h);
        assert(scope_at(self.vm.heap, h) == Some(lv));
        self.frame.stack.drop_top(argc + 2);
        let mut frame = CallFrame { code, ip: 0, stack: Stack::new(), scope: h };
        std::mem::swap(&mut self.frame, &mut frame);
        self.callers.push(frame);
        ExecOutcome::Continue
    }

    /// `Return`: hands the top value back to the caller; at the outermost
    /// frame it ends the run.
    pub fn exec_return(&mut self)
        requires
            old(self).wf(),
        ensures
            final(self).wf(),
            final(self).steps == old(self).steps,
            return_post(*old(self), *final(self)),
    {
        let v = self.frame.stack.pop();
        match self.callers.pop() {
            Some(caller) => {
                self.frame = caller;
                self.frame.stack.push(v);
            },
            None => {
                self.frame.ip = self.frame.code.len();
            },
        }
    }

    /// When the frame being run has reached its end and a caller waits, the
    /// call returns `undefined` to it; `false`, with nothing changed,
    /// otherwise.
    pub fn return_at_end(&mut self) -> (r: bool)
        requires
            old(self).wf(),
        ensures
            final(self).wf(),
            r == (old(self).steps < MAX_ACTIONS && (old(self).frame.ip >= old(self).frame.code@.len()
                || old(self).frame.code@[old(self).frame.ip as int] == 0) && old(self).callers@.len() > 0),
            !r ==> *final(self) == *old(self),
            r ==> {
                let caller = old(self).callers@.last();
                &&& final(self).callers@ == old(self).callers@.drop_last()
                &&& final(self).frame.code == caller.code
                &&& final(self).frame.ip == caller.ip
                &&& final(self).frame.scope == caller.scope
                &&& final(self).stack() == caller.stack.values@.push(AvmValue::Undefined(AvmUndefined))
                &&& final(self).vm == old(self).vm
                &&& final(self).steps == old(self).steps
            },
    {
        let ended = self.frame.ip >= self.frame.code.len() || self.frame.code[self.frame.ip] == 0;
        if self.steps < MAX_ACTIONS && ended && self.callers.len() > 0 {
            match self.callers.pop() {
                Some(caller) => {
                    self.frame = caller;
                    self.frame.stack.push(AvmValue::Undefined(AvmUndefined));
                    true
                },
                None => false,
            }
        } else {
            false
        }
    }

    /// Carries out one decoded action. Unless it returns `Continue`, nothing
    /// has changed: on `Ask`, record the answer with `provide_answer` and
    /// carry the same action out again.
    pub fn exec(&mut self, action: &Action) -> (r: ExecOutcome)
        requires
            old(self).wf(),
        ensures
            final(self).wf(),
            !(r is Continue) ==> *final(self) == *old(self),
            final(self).steps == old(self).steps,
            exec_post(*old(self), *final(self), *action, r),
    {
        match action {
            Action::Add => self.exec_legacy_arith(FloatOp::Add),
            Action::Add2 => self.exec_add2(),
            Action::And => {
                self.exec_legacy_logic(LegacyLogic::And);
                ExecOutcome::Continue
            },
            Action::CallFunction => self.exec_call_function(),
            Action::ConstantPool(strings) => self.exec_constant_pool(strings),
            Action::DefineFunction { name, parameters, body_size } => self.exec_define_function(name, parameters, *body_size),
            Action::DefineLocal => self.exec_define_local(),
            Action::Divide => self.exec_legacy_arith(FloatOp::Divide),
            Action::Equals => {
                self.exec_legacy_logic(LegacyLogic::Equals);
                ExecOutcome::Continue
            },
            Action::Equals2 => self.exec_equals2(),
            Action::GetMember => self.exec_get_member(),
            Action::GetVariable => self.exec_get_variable(),
            Action::Greater => self.exec_greater(),
            Action::If { offset } => self.exec_if(*offset),
            Action::Increment => self.exec_increment(),
            Action::InitObject => self.exec_init_object(),
            Action::Jump { offset } => {
                self.exec_jump(*offset);
                ExecOutcome::Continue
            },
            Action::Less => {
                self.exec_legacy_logic(LegacyLogic::Less);
                ExecOutcome::Continue
            },
            Action::Less2 => self.exec_less2(),
            Action::Multiply => self.exec_legacy_arith(FloatOp::Multiply),
            Action::Not => {
                self.exec_legacy_logic(LegacyLogic::Not);
                ExecOutcome::Continue
            },
            Action::Or => {
                self.exec_legacy_logic(LegacyLogic::Or);
                ExecOutcome::Continue
            },
            Action::Pop => {
                self.exec_pop();
                ExecOutcome::Continue
            },
            Action::Push(values) => self.exec_push(values),
            Action::PushDuplicate => {
                self.exec_push_duplicate();
                ExecOutcome::Continue
            },
            Action::Return => {
                self.exec_return();
                ExecOutcome::Continue
            },
            Action::SetVariable => self.exec_set_variable(),
            Action::StrictEquals => self.exec_strict_equals(),
            Action::StringAdd => self.exec_string_add(),
            Action::StringEquals => self.exec_string_equals(),
            Action::StringLength => self.exec_string_length(),
            Action::Subtract => self.exec_legacy_arith(FloatOp::Subtract),
            Action::Trace => self.exec_trace(),
            Action::Unsupported => ExecOutcome::Fault(Fault::Unsupported),
        }
    }

    /// Where the next action starts, or `None` when the run is over: the
    /// code is exhausted, an `End` byte is reached, or `MAX_ACTIONS`
    /// actions have been carried out.
    pub fn next_action_at(&self) -> (r: Option<usize>)
        ensures
            r is None <==> (self.steps >= MAX_ACTIONS || self.frame.ip >= self.frame.code@.len() || self.frame.code@[self.frame.ip as int] == 0),
            r matches Some(ip) ==> ip == self.frame.ip,
    {
        if self.steps >= MAX_ACTIONS || self.frame.ip >= self.frame.code.len() || self.frame.code[self.frame.ip] == 0 {
            None
        } else {
            Some(self.frame.ip)
        }
    }

    /// Carries out the action that starts at the instruction pointer and
    /// takes `size` bytes: the pointer first moves past it, as jumps count
    /// from the next action. Unless the action was carried out, nothing has
    /// changed.
    pub fn step(&mut self, action: &Action, size: usize) -> (r: ExecOutcome)
        requires
            old(self).wf(),
        ensures
            final(self).wf(),
            !(r is Continue) ==> *final(self) == *old(self),
            r is Continue ==> exec_post(advanced(*old(self), size), counted(*final(self), old(self).steps), *action, r),
            !(r is Continue) ==> exec_post(advanced(*old(self), size), advanced(*old(self), size), *action, r),
            final(self).steps == if r is Continue && old(self).steps < usize::MAX {
                (old(self).steps + 1) as usize
            } else {
                old(self).steps
            },
    {
        let ip = self.frame.ip;
        self.frame.ip = if ip > usize::MAX - size {
            usize::MAX
        } else {
            ip + size
        };
        let ghost moved = *self;
        let r = self.exec(action);
        match r {
            ExecOutcome::Continue => {
                if self.steps < usize::MAX {
                    self.steps = self.steps + 1;
                }
            },
            _ => {
                self.frame.ip = ip;
                assert(*self == *old(self)) by {
                    assert(self.frame.stack == old(self).frame.stack);
                }
            },
        }
        r
    }

    /// Records the host's answer to a question.
    pub fn provide_answer(&mut self, answer: FloatAnswer)
        ensures
            final(self).vm.answers@ == old(self).vm.answers@.push(answer),
            final(self).frame == old(self).frame,
            final(self).vm.heap == old(self).vm.heap,
            final(self).vm.output == old(self).vm.output,
            final(self).steps == old(self).steps,
    {
        self.vm.answers.push(answer);
    }

    /// Appends the lines of what the run made visible to `host`'s log, in
    /// order, and forgets them.
    pub fn flush_to_log(&mut self, host: &mut LoggedHost)
        ensures
            final(host).logs@.len() == old(host).logs@.len() + old(self).vm.output@.len(),
            forall|i: int| 0 <= i < old(host).logs@.len() ==> #[trigger] final(host).logs@[i] == old(host).logs@[i],
            forall|k: int|
                0 <= k < old(self).vm.output@.len() ==> (#[trigger] final(host).logs@[old(host).logs@.len() + k])@
                    == output_line(old(self).vm.output@[k]),
            final(self).vm.output@.len() == 0,
            final(self).frame == old(self).frame,
            final(self).callers == old(self).callers,
            final(self).vm.heap == old(self).vm.heap,
            final(self).steps == old(self).steps,
    {
        let n0 = host.logs.len();
        let mut i: usize = 0;
        while i < self.vm.output.len()
            invariant
                i <= self.vm.output@.len(),
                self.vm.output == old(self).vm.output,
                self.frame == old(self).frame,
                self.callers == old(self).callers,
                self.vm.heap == old(self).vm.heap,
                self.steps == old(self).steps,
                n0 == old(host).logs@.len(),
                host.logs@.len() == n0 + i,
                forall|j: int| 0 <= j < n0 ==> #[trigger] host.logs@[j] == old(host).logs@[j],
                forall|k: int| 0 <= k < i ==> (#[trigger] host.logs@[n0 + k])@ == output_line(self.vm.output@[k]),
            decreases self.vm.output@.len() - i,
        {
            match &self.vm.output[i] {
                Output::Trace(t) => host.log_trace(t),
                Output::Warn(w) => host.log_warning(w),
            }
            i = i + 1;
        }
        self.vm.output = Vec::new();
    }

    /// Hands what the run made visible to `host`, in order, and forgets it.
    pub fn flush<H: Host>(&mut self, host: &mut H)
        ensures
            final(self).vm.output@.len() == 0,
            final(self).frame == old(self).frame,
            final(self).vm.heap == old(self).vm.heap,
    {
        let mut i: usize = 0;
        while i < self.vm.output.len()
            invariant
                i <= self.vm.output@.len(),
                self.frame == old(self).frame,
                self.vm.heap == old(self).vm.heap,
            decreases self.vm.output@.len() - i,
        {
            match &self.vm.output[i] {
                Output::Trace(t) => host.trace(t),
                Output::Warn(w) => host.warn(w),
            }
            i = i + 1;
        }
        self.vm.output = Vec::new();
    }

    /// The handles that the run holds directly: the operand stacks and
    /// scopes of its frames, the constant pool and the intrinsics.
    pub open spec fn roots(&self) -> Seq<usize> {
        frame_roots(self.frame) + frames_roots(self.callers@) + match self.vm.pool.strings {
            Some(p) => p@.map_values(|h: Gc| h.index),
            None => Seq::empty(),
        } + seq![
            self.vm.realm.object_prototype.index,
            self.vm.realm.function_prototype.index,
            self.vm.realm.object.index,
            self.vm.realm.function.index,
            self.vm.realm.object_to_string.index,
        ]
    }

    /// Frees every cell that the run no longer reaches.
    pub fn collect_garbage(&mut self)
        requires
            old(self).wf(),
        ensures
            final(self).wf(),
            final(self).frame == old(self).frame,
            final(self).vm.pool == old(self).vm.pool,
            final(self).vm.realm == old(self).vm.realm,
            final(self).vm.heap.boxes@.len() == old(self).vm.heap.boxes@.len(),
            forall|j: int|
                0 <= j < old(self).vm.heap.len() ==> (#[trigger] final(self).vm.heap.live(j)
                    <==> old(self).vm.heap.reachable(old(self).roots(), j)),
            forall|j: int|
                #![trigger final(self).vm.heap.boxes@[j]]
                final(self).vm.heap.live(j) ==> final(self).vm.heap.boxes@[j].value == old(self).vm.heap.boxes@[j].value
                    && final(self).vm.heap.boxes@[j].edges@ == old(self).vm.heap.boxes@[j].edges@,
    {
        let mut roots: Vec<usize> = Vec::new();
        push_frame_roots(&mut roots, &self.frame);
        let ghost first = roots@;
        let mut c: usize = 0;
        while c < self.callers.len()
            invariant
                c <= self.callers@.len(),
                roots@ == first + frames_roots(self.callers@.subrange(0, c as int)),
            decreases self.callers@.len() - c,
        {
            push_frame_roots(&mut roots, &self.callers[c]);
            assert(self.callers@.subrange(0, c + 1).drop_last() =~= self.callers@.subrange(0, c as int));
            c = c + 1;
            assert(roots@ =~= first + frames_roots(self.callers@.subrange(0, c as int)));
        }
        assert(self.callers@.subrange(0, self.callers@.len() as int) =~= self.callers@);
        let ghost before_pool = roots@;
        match &self.vm.pool.strings {
            Some(p) => {
                let mut k: usize = 0;
                while k < p.len()
                    invariant
                        k <= p@.len(),
                        roots@ == before_pool + p@.subrange(0, k as int).map_values(|h: Gc| h.index),
                    decreases p@.len() - k,
                {
                    roots.push(p[k].index);
                    k = k + 1;
                    assert(roots@ =~= before_pool + p@.subrange(0, k as int).map_values(|h: Gc| h.index));
                }
                assert(p@.subrange(0, p@.len() as int) =~= p@);
            },
            None => {
                assert(roots@ =~= before_pool + Seq::<usize>::empty());
            },
        }
        roots.push(self.vm.realm.object_prototype.index);
        roots.push(self.vm.realm.function_prototype.index);
        roots.push(self.vm.realm.object.index);
        roots.push(self.vm.realm.function.index);
        roots.push(self.vm.realm.object_to_string.index);
        assert(roots@ =~= self.roots());
        self.vm.heap.collect_garbage(&roots);
    }
}

/// Allocates `obj` in a heap of fewer than `usize::MAX` cells, when the
/// handles it holds name live cells.
fn alloc_object(heap: &mut GcState<HeapCell>, obj: AvmObject) -> (r: Gc)
    requires
        old(heap).wf(),
        old(heap).boxes@.len() < 100,
        forall|k: int| 0 <= k < obj.handles_spec().len() ==> old(heap).live(#[trigger] obj.handles_spec()[k].index as int),
    ensures
        heap_extends(*old(heap), *final(heap)),
        final(heap).boxes@.len() == old(heap).boxes@.len() + 1,
        r.index == old(heap).boxes@.len(),
        object_at(*final(heap), r) == Some(obj),
{
    let handles = obj.handles();
    let ghost objv = obj;
    match heap.allocate(HeapCell::Object(obj), handles) {
        Ok(h) => {
            heap.unroot(h);
            assert(object_at(*heap, h) == Some(objv));
            h
        },
        Err(_) => {
            proof {
                assert(false);
            }
            vstd::pervasive::unreached()
        },
    }
}

impl Realm {
    /// `Object.prototype`, `Function.prototype`, the two constructors, and
    /// `Object.prototype.toString` installed on `Object.prototype`.
    pub open spec fn wired(&self, heap: GcState<HeapCell>) -> bool {
        &&& object_at(heap, self.object_prototype) matches Some(op) && op.prototype is Null
            && op.class == ObjectClass::Object && op.callable is None && op.property_spec("toString"@) == Some(
            AvmObjectProperty::intrinsic(AvmValue::Object(AvmObjectRef { handle: self.object_to_string })),
        )
        &&& object_at(heap, self.function_prototype) matches Some(fp) && fp.prototype == AvmObjectPrototype::Object(
            AvmObjectRef { handle: self.object_prototype },
        ) && fp.class == ObjectClass::Object
        &&& object_at(heap, self.object) matches Some(o) && o.prototype == AvmObjectPrototype::Object(
            AvmObjectRef { handle: self.function_prototype },
        ) && o.class == ObjectClass::Function
        &&& object_at(heap, self.function) matches Some(f) && f.prototype == AvmObjectPrototype::Object(
            AvmObjectRef { handle: self.function_prototype },
        ) && f.class == ObjectClass::Function
        &&& object_at(heap, self.object_to_string) matches Some(ts) && ts.callable == Some(
            AvmCallable::HostFunction(HostFunction::ObjectPrototypeToString),
        ) && ts.class == ObjectClass::Function && ts.prototype == AvmObjectPrototype::Object(
            AvmObjectRef { handle: self.function_prototype },
        )
    }

    /// Builds the intrinsic objects in an empty heap.
    pub fn new(heap: &mut GcState<HeapCell>) -> (r: Realm)
        requires
            old(heap).wf(),
            old(heap).boxes@.len() == 0,
        ensures
            final(heap).wf(),
            final(heap).boxes@.len() == 5,
            r.wired(*final(heap)),
    {
        let null = AvmObjectPrototype::Null(AvmNull);
        let op = AvmObject::new(ObjectClass::Object, null, None);
        assert(op.handles_spec() =~= Seq::<Gc>::empty());
        let object_prototype = alloc_object(heap, op);
        let fp = AvmObject::new(ObjectClass::Object, AvmObjectPrototype::Object(AvmObjectRef { handle: object_prototype }), None);
        assert(fp.handles_spec() =~= seq![object_prototype]);
        let function_prototype = alloc_object(heap, fp);
        let ghost h1 = *heap;
        let o = AvmObject::new(ObjectClass::Function, AvmObjectPrototype::Object(AvmObjectRef { handle: function_prototype }), None);
        assert(o.handles_spec() =~= seq![function_prototype]);
        let object = alloc_object(heap, o);
        let f = AvmObject::new(ObjectClass::Function, AvmObjectPrototype::Object(AvmObjectRef { handle: function_prototype }), None);
        assert(f.handles_spec() =~= seq![function_prototype]);
        let function = alloc_object(heap, f);
        let ts = AvmObject::new(
            ObjectClass::Function,
            AvmObjectPrototype::Object(AvmObjectRef { handle: function_prototype }),
            Some(AvmCallable::HostFunction(HostFunction::ObjectPrototypeToString)),
        );
        assert(ts.handles_spec() =~= seq![function_prototype]);
        let object_to_string = alloc_object(heap, ts);
        let method = AvmValue::Object(AvmObjectRef { handle: object_to_string });
        let prop = AvmObjectProperty { read_only: true, enumerable: false, deletable: false, internal: true, value: method };
        let prototype_cell = AvmObject {
            class: ObjectClass::Object,
            prototype: null,
            keys: vec![chars_of("toString")],
            properties: vec![prop],
            callable: None,
        };
        let handles = prototype_cell.handles();
        proof {
            assert(property_values(prototype_cell.properties@) =~= seq![method]);
            assert(seq![method].drop_last() =~= Seq::<AvmValue>::empty());
            assert(crate::object::handles_of_values(Seq::<AvmValue>::empty()) =~= Seq::<Gc>::empty());
            assert(seq![method].last() == method);
            assert(crate::object::handles_of_values(seq![method]) =~= seq![object_to_string]);
            assert(handles@ =~= seq![object_to_string]);
            assert(crate::object::first_index(prototype_cell.keys@, "toString"@, 0));
            let i = choose|i: int| crate::object::first_index(prototype_cell.keys@, "toString"@, i);
            crate::object::lemma_first_index_unique(prototype_cell.keys@, "toString"@, 0, i);
        }
        let ghost h4 = *heap;
        let ghost prototype_view = prototype_cell;
        match heap.replace(object_prototype, HeapCell::Object(prototype_cell), handles) {
            Ok(_) => {},
            Err(_) => {
                proof {
                    assert(h4.live(object_prototype.index as int));
                    assert(h4.live(object_to_string.index as int));
                    assert(false);
                }
            },
        }
        let realm = Realm { object_prototype, function_prototype, object, function, object_to_string };
        proof {
            assert(object_at(*heap, object_prototype) == Some(prototype_view));
            assert(heap.boxes@[function_prototype.index as int] == h4.boxes@[function_prototype.index as int]);
            assert(heap.boxes@[object.index as int] == h4.boxes@[object.index as int]);
            assert(heap.boxes@[function.index as int] == h4.boxes@[function.index as int]);
            assert(heap.boxes@[object_to_string.index as int] == h4.boxes@[object_to_string.index as int]);
        }
        realm
    }
}

impl Vm {
    /// A machine for containers of SWF version `swf_version`, with its
    /// intrinsic objects and no script.
    pub fn new(swf_version: u8) -> (r: Vm)
        ensures
            r.swf_version == swf_version,
            r.heap.wf(),
            r.heap.boxes@.len() == 5,
            r.realm.wired(r.heap),
            r.pool.strings is None,
            r.scripts@.len() == 0,
            r.output@.len() == 0,
            r.answers@.len() == 0,
    {
        let mut heap = GcState::new();
        let realm = Realm::new(&mut heap);
        Vm { swf_version, heap, pool: ConstantPool::new(), scripts: Vec::new(), realm, output: Vec::new(), answers: Vec::new() }
    }

    /// Registers a script; its id is the number of scripts registered
    /// before it.
    pub fn create_script(&mut self, code: Vec<u8>, uri: Option<Vec<char>>, target: Option<TargetId>) -> (r: Avm1ScriptId)
        ensures
            r.id == old(self).scripts@.len(),
            final(self).scripts@.len() == old(self).scripts@.len() + 1,
            final(self).scripts@[r.id as int].code@ == code@,
            final(self).scripts@[r.id as int].id == r,
            final(self).scripts@[r.id as int].uri == uri,
            final(self).scripts@[r.id as int].target == target,
            final(self).pool == old(self).pool,
            final(self).output == old(self).output,
            final(self).answers == old(self).answers,
            forall|i: int| 0 <= i < old(self).scripts@.len() ==> #[trigger] final(self).scripts@[i] == old(self).scripts@[i],
            final(self).heap == old(self).heap,
            final(self).realm == old(self).realm,
            final(self).swf_version == old(self).swf_version,
    {
        let id = Avm1ScriptId { id: self.scripts.len() };
        self.scripts.push(Avm1Script { id, uri, code, target });
        id
    }
}

impl ExecutionContext {
    /// Starts a run of the script `script_id` in a new global scope; hands
    /// the machine back when there is no such script or no room for the
    /// scope.
    pub fn new(vm: Vm, script_id: Avm1ScriptId) -> (r: Result<ExecutionContext, Vm>)
        requires
            vm.heap.wf(),
        ensures
            r matches Ok(c) ==> {
                &&& c.wf()
                &&& script_id.id < vm.scripts@.len()
                &&& c.frame.code@ == vm.scripts@[script_id.id as int].code@
                &&& c.frame.ip == 0
                &&& c.stack().len() == 0
                &&& c.steps == 0
                &&& heap_extends(vm.heap, c.vm.heap)
                &&& c.vm.heap.boxes@.len() == vm.heap.boxes@.len() + 1
                &&& c.callers@.len() == 0
                &&& c.vm.pool == vm.pool
                &&& c.vm.output == vm.output
                &&& c.vm.answers == vm.answers
                &&& c.vm.scripts == vm.scripts
                &&& scope_at(c.vm.heap, c.frame.scope) matches Some(g) && g.parent is None && forall|k: Seq<char>|
                    #[trigger] g.binding_spec(k) is None
                &&& c.vm.realm == vm.realm
                &&& c.vm.swf_version == vm.swf_version
            },
            r is Err <==> script_id.id >= vm.scripts@.len() || vm.heap.boxes@.len() == usize::MAX,
    {
        if script_id.id >= vm.scripts.len() {
            return Err(vm);
        }
        let code = copy_bytes(&vm.scripts[script_id.id].code);
        let mut vm = vm;
        let global = Scope::empty(None);
        let ghost gv = global;
        assert(global.handles_spec() =~= Seq::<Gc>::empty());
        let handles = global.handles();
        match vm.heap.allocate(HeapCell::Scope(global), handles) {
            Ok(h) => {
                vm.heap.unroot(h);
                let _cells = vm.heap.boxes.len();
                assert(scope_at(vm.heap, h) == Some(gv));
                let frame = CallFrame { code, ip: 0, stack: Stack::new(), scope: h };
                Ok(ExecutionContext { vm, frame, callers: Vec::new(), steps: 0 })
            },
            Err(_) => Err(vm),
        }
    }

    /// Ends the run and hands the machine back.
    pub fn into_vm(self) -> (r: Vm)
        ensures
            r == self.vm,
    {
        self.vm
    }
}

/// A copy of a byte buffer.
pub fn copy_bytes(a: &Vec<u8>) -> (r: Vec<u8>)
    ensures
        r@ == a@,
{
    let mut r: Vec<u8> = Vec::new();
    let mut i: usize = 0;
    while i < a.len()
        invariant
            i <= a@.len(),
            r@ == a@.subrange(0, i as int),
        decreases a@.len() - i,
    {
        r.push(a[i]);
        i = i + 1;
        assert(r@ =~= a@.subrange(0, i as int));
    }
    assert(a@.subrange(0, a@.len() as int) =~= a@);
    r
}

/// The stack after `k` single pops.
pub open spec fn pops(s: Seq<AvmValue>, k: nat) -> Seq<AvmValue>
    decreases k,
{
    if k == 0 {
        s
    } else {
        pop_spec(pops(s, (k - 1) as nat), 1)
    }
}

proof fn lemma_pops(s: Seq<AvmValue>, k: nat)
    ensures
        pops(s, k) == pop_spec(s, k as int),
    decreases k,
{
    if k == 0 {
        assert(s.subrange(0, s.len() as int) =~= s);
    } else {
        lemma_pops(s, (k - 1) as nat);
        assert(pop_spec(pop_spec(s, k - 1), 1) =~= pop_spec(s, k as int));
    }
}

/// Pushing `n` values and then popping `n` times leaves the operand stack
/// as it was, at the same depth.
pub proof fn lemma_push_then_pop(before: Seq<AvmValue>, after_push: Seq<AvmValue>, n: nat)
    requires
        after_push.len() == before.len() + n,
        after_push.subrange(0, before.len() as int) == before,
    ensures
        pops(after_push, n) == before,
        pops(after_push, n).len() == before.len(),
{
    lemma_pops(after_push, n);
}

/// A `Push` of `values` that was carried out, followed by as many single
/// pops, leaves the operand stack as it was before the `Push`.
pub proof fn lemma_push_action_then_pop(before: ExecutionContext, after_push: ExecutionContext, values: Vec<PushValue>)
    requires
        push_post(before, after_push, ExecOutcome::Continue, values),
    ensures
        pops(after_push.stack(), values@.len()) == before.stack(),
        pops(after_push.stack(), values@.len()).len() == before.stack().len(),
{
    lemma_push_then_pop(before.stack(), after_push.stack(), values@.len());
}

/// Each carried-out `Pop` takes one value off: `k` of them after a state
/// leave `pops` of its stack.
pub proof fn lemma_pop_actions(states: Seq<ExecutionContext>, k: nat)
    requires
        states.len() == k + 1,
        forall|i: int| 0 <= i < k ==> pop_post(#[trigger] states[i], states[i + 1]),
    ensures
        states[k as int].stack() == pops(states[0].stack(), k),
    decreases k,
{
    if k > 0 {
        lemma_pop_actions(states.drop_last(), (k - 1) as nat);
        assert(states.drop_last()[(k - 1) as int] == states[(k - 1) as int]);
        assert(pop_post(states[(k - 1) as int], states[k as int]));
    }
}

/// A live root survives a collection: it is reachable.
pub proof fn lemma_root_reachable(heap: GcState<HeapCell>, roots: Seq<usize>, k: int)
    requires
        0 <= k < roots.len(),
        heap.live(roots[k] as int),
    ensures
        heap.reachable(roots, roots[k] as int),
{
    assert(heap.is_root(roots, roots[k] as int));
}

/// Binding a name in one scope changes no other cell: the scopes that
/// enclose it, in particular, stay as they were.
pub proof fn lemma_binding_keeps_other_cells(
    old: GcState<HeapCell>,
    new: GcState<HeapCell>,
    h: Gc,
    name: Seq<char>,
    value: AvmValue,
    other: Gc,
)
    requires
        scope_updated(old, new, h, name, value),
        other != h,
        (other.index as int) < old.boxes@.len(),
    ensures
        new.boxes@[other.index as int] == old.boxes@[other.index as int],
        scope_at(new, other) == scope_at(old, other),
{
    assert(other.index != h.index);
}

} // verus!

//! The runtime handle: one value stack and one table arena, with the raw
//! stack primitives of the native calling interface.
//!
//! Slots are addressed by 1-based positive index from the bottom of the
//! stack or by negative index from the top; the pseudo-index
//! [`LUA_GLOBALSINDEX`] addresses the globals table, which is table `0` of
//! the arena.  Every operation's net stack effect is part of its contract.

use vstd::prelude::*;

use crate::host::Host;
use crate::value::kind_of;
use crate::value::LuaErr;
use crate::value::LuaType;
use crate::value::SErr;
use crate::value::SVal;
use crate::value::Value;

verus! {

/// Pseudo-index addressing the globals table.
pub const LUA_GLOBALSINDEX: i64 = -10002;

/// Status code of a call interrupted by a yield.
pub const LUA_YIELD: i64 = 1;

/// Status code of a runtime error raised during a call.
pub const LUA_ERRRUN: i64 = 2;

/// Status code of a syntax error in compiled source.
pub const LUA_ERRSYNTAX: i64 = 3;

/// Status code of a memory-allocation failure.
pub const LUA_ERRMEM: i64 = 4;

/// Status code of an error raised while running the error handler.
pub const LUA_ERRERR: i64 = 5;

/// The greatest stack height the height-setting primitive accepts as an
/// absolute argument, as the native interface bounds its stack.
pub const MAXSTACK: usize = 1000000;

/// One table: an association list of key/value pairs in insertion order.
pub type TableModel = Seq<(SVal, SVal)>;

/// The mathematical state of a runtime handle: the value stack and the
/// table arena.  Table `0` is the globals table.
#[verifier::ext_equal]
pub struct StateView {
    pub stack: Seq<SVal>,
    pub tables: Seq<TableModel>,
}

/// A value is well formed when any table it names exists in the arena.
pub open spec fn wf_val(v: SVal, n: int) -> bool {
    v matches SVal::Table(id) ==> 0 <= id < n
}

/// A table is well formed when its entries hold well-formed, non-nil keys
/// and values and no key occurs twice.
pub open spec fn wf_table(t: TableModel, n: int) -> bool {
    &&& forall|i: int|
        0 <= i < t.len() ==> wf_val((#[trigger] t[i]).0, n) && wf_val(t[i].1, n) && t[i].0
            != SVal::Nil && t[i].1 != SVal::Nil
    &&& forall|i: int, j: int| 0 <= i < j < t.len() ==> (#[trigger] t[i]).0 != (#[trigger] t[j]).0
}

impl StateView {
    /// The globals table exists, the stack is within bounds, and every
    /// reachable value names an existing table.
    pub open spec fn wf(self) -> bool {
        &&& 1 <= self.tables.len()
        &&& forall|i: int|
            0 <= i < self.stack.len() ==> wf_val(#[trigger] self.stack[i], self.tables.len() as int)
        &&& forall|t: int|
            0 <= t < self.tables.len() ==> wf_table(
                #[trigger] self.tables[t],
                self.tables.len() as int,
            )
    }

    /// Stack height.
    pub open spec fn top(self) -> int {
        self.stack.len() as int
    }

    /// A plain index that names an existing slot; the globals
    /// pseudo-index is never a plain slot.
    pub open spec fn valid_slot(self, i: int) -> bool {
        ((1 <= i <= self.top()) || (-self.top() <= i <= -1)) && i != LUA_GLOBALSINDEX as int
    }

    /// The 0-based stack position of a plain index.
    pub open spec fn abs_slot(self, i: int) -> int {
        if i > 0 {
            i - 1
        } else {
            self.top() + i
        }
    }

    /// An index a value can be read through: a valid slot or the globals
    /// pseudo-index.
    pub open spec fn readable(self, i: int) -> bool {
        self.valid_slot(i) || i == LUA_GLOBALSINDEX as int
    }

    /// The value read through an index.
    pub open spec fn read_at(self, i: int) -> SVal {
        if i == LUA_GLOBALSINDEX as int {
            SVal::Table(0)
        } else {
            self.stack[self.abs_slot(i)]
        }
    }

    /// The kind reported for an index; indices naming no slot report
    /// `TNone`.
    pub open spec fn type_at(self, i: int) -> LuaType {
        if self.readable(i) {
            kind_of(self.read_at(i))
        } else {
            LuaType::TNone
        }
    }

    /// An index reading a table, and that table's arena identifier.
    pub open spec fn table_at(self, i: int) -> bool {
        self.readable(i) && self.read_at(i) matches SVal::Table(_)
    }

    /// The arena identifier of the table read through an index.
    pub open spec fn table_id_at(self, i: int) -> int {
        self.read_at(i)->Table_0
    }
}

/// Position of the first entry of `t` whose key is `k`, or `-1`.
pub open spec fn tbl_find(t: TableModel, k: SVal) -> int
    decreases t.len(),
{
    if t.len() == 0 {
        -1
    } else if t[0].0 == k {
        0
    } else {
        let r = tbl_find(t.subrange(1, t.len() as int), k);
        if r == -1 {
            -1
        } else {
            r + 1
        }
    }
}

/// Whether `t` maps the key `k`.
pub open spec fn tbl_has(t: TableModel, k: SVal) -> bool {
    tbl_find(t, k) >= 0
}

/// The value `t` maps `k` to, or nil when `k` is unmapped.
pub open spec fn tbl_get(t: TableModel, k: SVal) -> SVal {
    if tbl_has(t, k) {
        t[tbl_find(t, k)].1
    } else {
        SVal::Nil
    }
}

/// The table after `t[k] = v`: assigning nil removes the key, assigning to
/// a present key updates it in place, and a fresh key is appended.
pub open spec fn tbl_set(t: TableModel, k: SVal, v: SVal) -> TableModel {
    if v == SVal::Nil {
        if tbl_has(t, k) {
            t.remove(tbl_find(t, k))
        } else {
            t
        }
    } else {
        if tbl_has(t, k) {
            t.update(tbl_find(t, k), (k, v))
        } else {
            t.push((k, v))
        }
    }
}

/// `tbl_find` names the first entry holding the key: a position within the
/// table whose key is `k`, with no earlier occurrence, or `-1` when no
/// entry holds `k`.
pub proof fn lemma_tbl_find(t: TableModel, k: SVal)
    ensures
        tbl_find(t, k) == -1 ==> forall|j: int| 0 <= j < t.len() ==> (#[trigger] t[j]).0 != k,
        tbl_find(t, k) != -1 ==> 0 <= tbl_find(t, k) < t.len() && t[tbl_find(t, k)].0 == k
            && forall|j: int| 0 <= j < tbl_find(t, k) ==> (#[trigger] t[j]).0 != k,
    decreases t.len(),
{
    if t.len() != 0 && t[0].0 != k {
        let s = t.subrange(1, t.len() as int);
        lemma_tbl_find(s, k);
        if tbl_find(t, k) == -1 {
            assert forall|j: int| 0 <= j < t.len() implies (#[trigger] t[j]).0 != k by {
                if j >= 1 {
                    assert(s[j - 1] == t[j]);
                }
            }
        } else {
            let r = tbl_find(t, k);
            assert(t[r] == s[r - 1]);
            assert forall|j: int| 0 <= j < r implies (#[trigger] t[j]).0 != k by {
                if j >= 1 {
                    assert(s[j - 1] == t[j]);
                }
            }
        }
    }
}

/// The model of one executable table: its entries, viewed pairwise.
pub open spec fn tbl_view(t: Seq<(Value, Value)>) -> TableModel {
    Seq::new(t.len(), |i: int| (t[i].0@, t[i].1@))
}

/// The runtime handle.  It exclusively owns one value stack and one table
/// arena; all host data crosses into the runtime through it.
pub struct State {
    stack: Vec<Value>,
    tables: Vec<Vec<(Value, Value)>>,
}

impl View for State {
    type V = StateView;

    closed spec fn view(&self) -> StateView {
        StateView {
            stack: Seq::new(self.stack@.len(), |i: int| self.stack@[i]@),
            tables: Seq::new(self.tables@.len(), |t: int| tbl_view(self.tables@[t]@)),
        }
    }
}

/// Pushing a well-formed value onto a well-formed state keeps it well
/// formed.
proof fn lemma_push_wf(pre: StateView, post: StateView, v: SVal)
    requires
        pre.wf(),
        post.tables == pre.tables,
        post.stack == pre.stack.push(v),
        wf_val(v, pre.tables.len() as int),
    ensures
        post.wf(),
{
    assert(forall|i: int|
        0 <= i < post.stack.len() ==> #[trigger] post.stack[i] == if i < pre.stack.len() {
            pre.stack[i]
        } else {
            v
        });
}

/// Opens a fresh runtime handle with an empty stack and an empty globals
/// table.
#[allow(non_snake_case)]
pub fn NewState() -> (s: State)
    ensures
        s@.wf(),
        s@.stack.len() == 0,
        s@.tables.len() == 1,
        s@.tables[0].len() == 0,
{
    let mut tables: Vec<Vec<(Value, Value)>> = Vec::new();
    tables.push(Vec::new());
    State { stack: Vec::new(), tables }
}

impl State {
    /// Reports the stack height.
    pub fn get_top(&self) -> (r: usize)
        ensures
            r == self@.stack.len(),
    {
        self.stack.len()
    }

    /// The 0-based position of a valid plain index.
    fn resolve(&self, i: i64) -> (p: usize)
        requires
            self@.wf(),
            self@.valid_slot(i as int),
        ensures
            p == self@.abs_slot(i as int),
            p < self@.stack.len(),
    {
        let top = self.stack.len();
        if i > 0 {
            (i as usize) - 1
        } else {
            top - (((-(i + 1)) as usize) + 1)
        }
    }

    /// Reports the kind of the slot an index reads; indices naming no slot
    /// report `TNone`, and the globals pseudo-index reports `TTable`.
    pub fn index_type(&self, i: i64) -> (r: LuaType)
        requires
            self@.wf(),
        ensures
            r == self@.type_at(i as int),
    {
        if i == LUA_GLOBALSINDEX {
            LuaType::TTable
        } else {
            let top = self.stack.len();
            let valid: bool = if i > 0 {
                i as u64 <= top as u64
            } else if i < 0 {
                ((-(i + 1)) as u64) + 1 <= top as u64
            } else {
                false
            };
            if valid {
                let p = self.resolve(i);
                self.stack[p].kind()
            } else {
                LuaType::TNone
            }
        }
    }

    /// Reads a boolean slot; requesting any other kind is caller misuse.
    pub fn to_bool(&self, i: i64) -> (r: bool)
        requires
            self@.wf(),
            self@.valid_slot(i as int),
            self@.read_at(i as int) matches SVal::Bool(_),
        ensures
            self@.read_at(i as int) == SVal::Bool(r),
    {
        let p = self.resolve(i);
        match &self.stack[p] {
            Value::Bool(b) => *b,
            _ => vstd::pervasive::unreached(),
        }
    }

    /// Reads an integer slot; requesting any other kind is caller misuse.
    pub fn to_int(&self, i: i64) -> (r: i64)
        requires
            self@.wf(),
            self@.valid_slot(i as int),
            self@.read_at(i as int) matches SVal::Int(_),
        ensures
            self@.read_at(i as int) == SVal::Int(r as int),
    {
        let p = self.resolve(i);
        match &self.stack[p] {
            Value::Int(v) => *v,
            _ => vstd::pervasive::unreached(),
        }
    }

    /// Reads a floating-point slot as its raw 64-bit pattern; requesting
    /// any other kind is caller misuse.
    pub fn to_num(&self, i: i64) -> (r: u64)
        requires
            self@.wf(),
            self@.valid_slot(i as int),
            self@.read_at(i as int) matches SVal::Num(_),
        ensures
            self@.read_at(i as int) == SVal::Num(r),
    {
        let p = self.resolve(i);
        match &self.stack[p] {
            Value::Num(v) => *v,
            _ => vstd::pervasive::unreached(),
        }
    }

    /// Reads a string slot; requesting any other kind is caller misuse.
    pub fn to_str(&self, i: i64) -> (r: String)
        requires
            self@.wf(),
            self@.valid_slot(i as int),
            self@.read_at(i as int) matches SVal::Str(_),
        ensures
            self@.read_at(i as int) == SVal::Str(r@),
    {
        let p = self.resolve(i);
        match &self.stack[p] {
            Value::Str(s) => s.clone(),
            _ => vstd::pervasive::unreached(),
        }
    }

    /// Pushes one already-built value.
    fn push_val(&mut self, v: Value)
        requires
            old(self)@.wf(),
            wf_val(v@, old(self)@.tables.len() as int),
        ensures
            final(self)@.wf(),
            final(self)@.tables == old(self)@.tables,
            final(self)@.stack == old(self)@.stack.push(v@),
    {
        let ghost pre = self@;
        let ghost sv = v@;
        self.stack.push(v);
        proof {
            assert(self@.stack =~= pre.stack.push(sv));
            assert(self@.tables =~= pre.tables);
            lemma_push_wf(pre, self@, sv);
        }
    }

    /// Pushes nil.
    pub fn push_nil(&mut self)
        requires
            old(self)@.wf(),
        ensures
            final(self)@.wf(),
            final(self)@.tables == old(self)@.tables,
            final(self)@.stack == old(self)@.stack.push(SVal::Nil),
    {
        self.push_val(Value::Nil)
    }

    /// Pushes a boolean.
    pub fn push_bool(&mut self, b: bool)
        requires
            old(self)@.wf(),
        ensures
            final(self)@.wf(),
            final(self)@.tables == old(self)@.tables,
            final(self)@.stack == old(self)@.stack.push(SVal::Bool(b)),
    {
        self.push_val(Value::Bool(b))
    }

    /// Pushes an integer.
    pub fn push_int(&mut self, v: i64)
        requires
            old(self)@.wf(),
        ensures
            final(self)@.wf(),
            final(self)@.tables == old(self)@.tables,
            final(self)@.stack == old(self)@.stack.push(SVal::Int(v as int)),
    {
        self.push_val(Value::Int(v))
    }

    /// Pushes a floating-point number given as its raw 64-bit pattern.
    pub fn push_num(&mut self, v: u64)
        requires
            old(self)@.wf(),
        ensures
            final(self)@.wf(),
            final(self)@.tables == old(self)@.tables,
            final(self)@.stack == old(self)@.stack.push(SVal::Num(v)),
    {
        self.push_val(Value::Num(v))
    }

    /// Pushes a copy of a string.
    pub fn push_str(&mut self, s: &str)
        requires
            old(self)@.wf(),
        ensures
            final(self)@.wf(),
            final(self)@.tables == old(self)@.tables,
            final(self)@.stack == old(self)@.stack.push(SVal::Str(s@)),
    {
        let owned: String = <String as vstd::string::StringExecFns>::from_str(s);
        self.push_val(Value::Str(owned))
    }

    /// Pushes the callable registered with the host under a token.
    pub fn push_function(&mut self, fid: u64)
        requires
            old(self)@.wf(),
        ensures
            final(self)@.wf(),
            final(self)@.tables == old(self)@.tables,
            final(self)@.stack == old(self)@.stack.push(SVal::Fn(fid)),
    {
        self.push_val(Value::Fn(fid))
    }

    /// Whether a valid slot holds an integer number.
    pub fn is_int_slot(&self, i: i64) -> (r: bool)
        requires
            self@.wf(),
            self@.valid_slot(i as int),
        ensures
            r == (self@.read_at(i as int) matches SVal::Int(_)),
    {
        if i == LUA_GLOBALSINDEX {
            false
        } else {
            let p = self.resolve(i);
            match &self.stack[p] {
                Value::Int(_) => true,
                _ => false,
            }
        }
    }

    /// Whether a valid slot holds a floating-point number pattern.
    pub fn is_num_slot(&self, i: i64) -> (r: bool)
        requires
            self@.wf(),
            self@.valid_slot(i as int),
        ensures
            r == (self@.read_at(i as int) matches SVal::Num(_)),
    {
        if i == LUA_GLOBALSINDEX {
            false
        } else {
            let p = self.resolve(i);
            match &self.stack[p] {
                Value::Num(_) => true,
                _ => false,
            }
        }
    }

    /// The equivalent positive index of a valid index, stable while the
    /// stack above it grows and shrinks.
    pub fn abs_index(&self, i: i64) -> (r: i64)
        requires
            self@.wf(),
            self@.valid_slot(i as int),
            self@.top() <= i64::MAX as int,
        ensures
            1 <= r as int <= self@.top(),
            self@.abs_slot(r as int) == self@.abs_slot(i as int),
    {
        let p = self.resolve(i);
        (p as i64) + 1
    }

    /// Pushes a copy of the value a readable index names: the slot
    /// duplication primitive.
    pub fn push_value(&mut self, i: i64)
        requires
            old(self)@.wf(),
            old(self)@.readable(i as int),
        ensures
            final(self)@.wf(),
            final(self)@.tables == old(self)@.tables,
            final(self)@.stack == old(self)@.stack.push(old(self)@.read_at(i as int)),
    {
        let v = if i == LUA_GLOBALSINDEX {
            Value::Table(0)
        } else {
            let p = self.resolve(i);
            self.stack[p].duplicate()
        };
        self.push_val(v);
    }

    /// Releases the runtime instance.  Consuming the handle ends its
    /// life: the instance is freed exactly once, and no further use of
    /// the handle can follow.
    pub fn close(self) {
    }

    /// Pops the top `n` slots.
    pub fn pop(&mut self, n: usize)
        requires
            old(self)@.wf(),
            n <= old(self)@.stack.len(),
        ensures
            final(self)@.wf(),
            final(self)@.tables == old(self)@.tables,
            final(self)@.stack == old(self)@.stack.take(old(self)@.stack.len() - n),
    {
        let ghost pre = self@;
        let newlen = self.stack.len() - n;
        self.stack.truncate(newlen);
        proof {
            assert(self@.stack =~= pre.stack.take(pre.stack.len() - n));
            assert(self@.tables =~= pre.tables);
        }
    }
}

/// Setting a non-nil key keeps a table well formed.
pub proof fn lemma_tbl_set_wf(t: TableModel, k: SVal, v: SVal, n: int)
    requires
        wf_table(t, n),
        k != SVal::Nil,
        wf_val(k, n),
        wf_val(v, n),
    ensures
        wf_table(tbl_set(t, k, v), n),
{
    lemma_tbl_find(t, k);
    let r = tbl_set(t, k, v);
    if v == SVal::Nil {
        if tbl_has(t, k) {
            let p = tbl_find(t, k);
            assert(forall|i: int|
                0 <= i < r.len() ==> #[trigger] r[i] == if i < p {
                    t[i]
                } else {
                    t[i + 1]
                });
        }
    } else {
        if tbl_has(t, k) {
            let p = tbl_find(t, k);
            assert(forall|j: int| 0 <= j < t.len() && j != p ==> (#[trigger] t[j]).0 != k);
        } else {
            assert(forall|j: int| 0 <= j < t.len() ==> (#[trigger] t[j]).0 != k);
        }
    }
}

/// Position of the first entry of `t` whose key equals `k`.
fn tbl_find_exec(t: &Vec<(Value, Value)>, k: &Value) -> (r: Option<usize>)
    ensures
        match r {
            Some(p) => p as int == tbl_find(tbl_view(t@), k@),
            None => tbl_find(tbl_view(t@), k@) == -1,
        },
{
    let ghost tv = tbl_view(t@);
    proof {
        lemma_tbl_find(tv, k@);
    }
    let mut j: usize = 0;
    while j < t.len()
        invariant
            j <= t.len(),
            tv == tbl_view(t@),
            forall|q: int| 0 <= q < j ==> (#[trigger] tv[q]).0 != k@,
            tbl_find(tv, k@) == -1 || tbl_find(tv, k@) >= j,
        decreases t.len() - j,
    {
        let e = &t[j];
        if e.0.same_as(k) {
            proof {
                lemma_tbl_find(tv, k@);
                assert(tv[j as int].0 == k@);
            }
            return Some(j);
        }
        proof {
            lemma_tbl_find(tv, k@);
        }
        j += 1;
    }
    None
}

/// The value `t` maps `k` to, or nil.
fn tbl_lookup(t: &Vec<(Value, Value)>, k: &Value) -> (r: Value)
    ensures
        r@ == tbl_get(tbl_view(t@), k@),
{
    proof {
        lemma_tbl_find(tbl_view(t@), k@);
    }
    match tbl_find_exec(t, k) {
        Some(p) => t[p].1.duplicate(),
        None => Value::Nil,
    }
}

/// A fresh table equal to `t` with the binding `k = v` applied.
fn tbl_set_exec(t: &Vec<(Value, Value)>, k: &Value, v: &Value) -> (r: Vec<(Value, Value)>)
    requires
        k@ != SVal::Nil,
    ensures
        tbl_view(r@) == tbl_set(tbl_view(t@), k@, v@),
{
    let ghost tv = tbl_view(t@);
    proof {
        lemma_tbl_find(tv, k@);
    }
    let found = tbl_find_exec(t, k);
    let vnil = match v {
        Value::Nil => true,
        _ => false,
    };
    let ghost pos = tbl_find(tv, k@);
    let mut out: Vec<(Value, Value)> = Vec::new();
    let mut j: usize = 0;
    while j < t.len()
        invariant
            j <= t.len(),
            tv == tbl_view(t@),
            pos == tbl_find(tv, k@),
            vnil == (v@ == SVal::Nil),
            k@ != SVal::Nil,
            match found {
                Some(p) => p as int == pos,
                None => pos == -1,
            },
            -1 <= pos < tv.len(),
            pos != -1 ==> tv[pos].0 == k@,
            if pos == -1 || pos >= j {
                tbl_view(out@) =~= tv.take(j as int)
            } else if vnil {
                tbl_view(out@) =~= tv.take(pos) + tv.subrange(pos + 1, j as int)
            } else {
                tbl_view(out@) =~= tv.take(j as int).update(pos, (k@, v@))
            },
        decreases t.len() - j,
    {
        let ghost pre = tbl_view(out@);
        let skip: bool = match found {
            Some(p) => {
                if j == p {
                    if vnil {
                        true
                    } else {
                        out.push((k.duplicate(), v.duplicate()));
                        false
                    }
                } else {
                    let e = &t[j];
                    out.push((e.0.duplicate(), e.1.duplicate()));
                    false
                }
            },
            None => {
                let e = &t[j];
                out.push((e.0.duplicate(), e.1.duplicate()));
                false
            },
        };
        proof {
            if !skip {
                assert(tbl_view(out@) =~= pre.push(
                    (tbl_view(out@)[out@.len() - 1].0, tbl_view(out@)[out@.len() - 1].1),
                ));
            }
        }
        j += 1;
    }
    if !vnil {
        match found {
            Some(_) => {},
            None => {
                proof {
                    assert(tbl_view(out@) =~= tv);
                }
                let ghost pre2 = tbl_view(out@);
                out.push((k.duplicate(), v.duplicate()));
                proof {
                    assert(tbl_view(out@) =~= pre2.push((k@, v@)));
                }
            },
        }
    }
    proof {
        if vnil && pos != -1 {
            assert(tbl_view(out@) =~= tv.remove(pos));
        }
        if !vnil && pos != -1 {
            assert(tbl_view(out@) =~= tv.update(pos, (k@, v@)));
        }
        if vnil && pos == -1 {
            assert(tbl_view(out@) =~= tv);
        }
    }
    out
}

/// A well-formed state stays well formed when one table is rewritten to a
/// well-formed table and the top of the stack is truncated.
proof fn lemma_wf_after_update(pre: StateView, post: StateView, tid: int, nt: TableModel, dropped: int)
    requires
        pre.wf(),
        0 <= tid < pre.tables.len(),
        wf_table(nt, pre.tables.len() as int),
        post.tables == pre.tables.update(tid, nt),
        0 <= dropped <= pre.stack.len(),
        post.stack == pre.stack.take(pre.stack.len() - dropped),
    ensures
        post.wf(),
{
}

impl State {
    /// The arena identifier of the table an index reads.
    fn read_table_id(&self, i: i64) -> (tid: usize)
        requires
            self@.wf(),
            self@.table_at(i as int),
        ensures
            tid as int == self@.table_id_at(i as int),
            tid < self@.tables.len(),
    {
        if i == LUA_GLOBALSINDEX {
            0
        } else {
            let p = self.resolve(i);
            match &self.stack[p] {
                Value::Table(t) => *t,
                _ => vstd::pervasive::unreached(),
            }
        }
    }

    /// Creates a fresh empty table and pushes it.  The size hints of the
    /// native interface are accepted and ignored.
    pub fn create_table(&mut self, narr: usize, nrec: usize)
        requires
            old(self)@.wf(),
        ensures
            final(self)@.wf(),
            final(self)@.tables == old(self)@.tables.push(Seq::empty()),
            final(self)@.stack == old(self)@.stack.push(
                SVal::Table(old(self)@.tables.len() as int),
            ),
    {
        let _ = narr;
        let _ = nrec;
        let id = self.tables.len();
        self.tables.push(Vec::new());
        let ghost mid = self@;
        self.stack.push(Value::Table(id));
        proof {
            assert(mid.tables =~~= old(self)@.tables.push(Seq::empty()));
            assert(self@.tables =~= mid.tables);
            assert(self@.stack =~= old(self)@.stack.push(
                SVal::Table(old(self)@.tables.len() as int),
            ));
            assert forall|q: int| 0 <= q < self@.stack.len() implies wf_val(
                #[trigger] self@.stack[q],
                self@.tables.len() as int,
            ) by {
                if q < old(self)@.stack.len() {
                    assert(wf_val(old(self)@.stack[q], old(self)@.tables.len() as int));
                }
            }
            assert forall|t: int| 0 <= t < self@.tables.len() implies wf_table(
                #[trigger] self@.tables[t],
                self@.tables.len() as int,
            ) by {
                if t < old(self)@.tables.len() {
                    assert(wf_table(old(self)@.tables[t], old(self)@.tables.len() as int));
                }
            }
        }
    }

    /// Creates a fresh empty table with no size hints and pushes it.
    pub fn new_table(&mut self)
        requires
            old(self)@.wf(),
        ensures
            final(self)@.wf(),
            final(self)@.tables == old(self)@.tables.push(Seq::empty()),
            final(self)@.stack == old(self)@.stack.push(
                SVal::Table(old(self)@.tables.len() as int),
            ),
    {
        self.create_table(0, 0)
    }

    /// Pushes the value the table read through `i` maps `name` to, or nil.
    pub fn get_field(&mut self, i: i64, name: &str)
        requires
            old(self)@.wf(),
            old(self)@.table_at(i as int),
        ensures
            final(self)@.wf(),
            final(self)@.tables == old(self)@.tables,
            final(self)@.stack == old(self)@.stack.push(
                tbl_get(
                    old(self)@.tables[old(self)@.table_id_at(i as int)],
                    SVal::Str(name@),
                ),
            ),
    {
        let tid = self.read_table_id(i);
        let k = Value::Str(<String as vstd::string::StringExecFns>::from_str(name));
        let v = tbl_lookup(&self.tables[tid], &k);
        proof {
            let t = old(self)@.tables[tid as int];
            lemma_tbl_find(t, k@);
            assert(wf_val(v@, old(self)@.tables.len() as int));
        }
        self.push_val(v);
    }

    /// Pushes the global named `name`, or nil.
    pub fn get_global(&mut self, name: &str)
        requires
            old(self)@.wf(),
        ensures
            final(self)@.wf(),
            final(self)@.tables == old(self)@.tables,
            final(self)@.stack == old(self)@.stack.push(
                tbl_get(old(self)@.tables[0], SVal::Str(name@)),
            ),
    {
        self.get_field(LUA_GLOBALSINDEX, name)
    }

    /// Pops the top value and binds it to `name` in the table read through
    /// `i`.
    pub fn set_field(&mut self, i: i64, name: &str)
        requires
            old(self)@.wf(),
            old(self)@.stack.len() >= 1,
            old(self)@.table_at(i as int),
        ensures
            final(self)@.wf(),
            final(self)@.stack == old(self)@.stack.drop_last(),
            final(self)@.tables == old(self)@.tables.update(
                old(self)@.table_id_at(i as int),
                tbl_set(
                    old(self)@.tables[old(self)@.table_id_at(i as int)],
                    SVal::Str(name@),
                    old(self)@.stack.last(),
                ),
            ),
    {
        let tid = self.read_table_id(i);
        let v = match self.stack.pop() {
            Some(x) => x,
            None => vstd::pervasive::unreached(),
        };
        let k = Value::Str(<String as vstd::string::StringExecFns>::from_str(name));
        let nt = tbl_set_exec(&self.tables[tid], &k, &v);
        self.tables.set(tid, nt);
        proof {
            let pre = old(self)@;
            let snt = tbl_set(pre.tables[tid as int], SVal::Str(name@), pre.stack.last());
            assert(self@.stack =~= pre.stack.drop_last());
            assert(self@.tables =~= pre.tables.update(tid as int, snt));
            lemma_tbl_set_wf(
                pre.tables[tid as int],
                SVal::Str(name@),
                pre.stack.last(),
                pre.tables.len() as int,
            );
            assert(pre.stack.drop_last() =~= pre.stack.take(pre.stack.len() - 1));
            lemma_wf_after_update(pre, self@, tid as int, snt, 1);
        }
    }

    /// Pops the top value and binds it as the global named `name`.
    pub fn set_global(&mut self, name: &str)
        requires
            old(self)@.wf(),
            old(self)@.stack.len() >= 1,
        ensures
            final(self)@.wf(),
            final(self)@.stack == old(self)@.stack.drop_last(),
            final(self)@.tables == old(self)@.tables.update(
                0,
                tbl_set(old(self)@.tables[0], SVal::Str(name@), old(self)@.stack.last()),
            ),
    {
        self.set_field(LUA_GLOBALSINDEX, name)
    }

    /// Pops a value and below it a key, and binds key to value in the
    /// table read through `i`.  A nil key is caller misuse.
    pub fn raw_set(&mut self, i: i64)
        requires
            old(self)@.wf(),
            old(self)@.stack.len() >= 2,
            old(self)@.stack[old(self)@.top() - 2] != SVal::Nil,
            old(self)@.table_at(i as int),
        ensures
            final(self)@.wf(),
            final(self)@.stack == old(self)@.stack.take(old(self)@.top() - 2),
            final(self)@.tables == old(self)@.tables.update(
                old(self)@.table_id_at(i as int),
                tbl_set(
                    old(self)@.tables[old(self)@.table_id_at(i as int)],
                    old(self)@.stack[old(self)@.top() - 2],
                    old(self)@.stack.last(),
                ),
            ),
    {
        let tid = self.read_table_id(i);
        let v = match self.stack.pop() {
            Some(x) => x,
            None => vstd::pervasive::unreached(),
        };
        let k = match self.stack.pop() {
            Some(x) => x,
            None => vstd::pervasive::unreached(),
        };
        let nt = tbl_set_exec(&self.tables[tid], &k, &v);
        self.tables.set(tid, nt);
        proof {
            let pre = old(self)@;
            let snt = tbl_set(pre.tables[tid as int], pre.stack[pre.top() - 2], pre.stack.last());
            assert(self@.stack =~= pre.stack.take(pre.top() - 2));
            assert(self@.tables =~= pre.tables.update(tid as int, snt));
            lemma_tbl_set_wf(
                pre.tables[tid as int],
                pre.stack[pre.top() - 2],
                pre.stack.last(),
                pre.tables.len() as int,
            );
            lemma_wf_after_update(pre, self@, tid as int, snt, 2);
        }
    }

    /// Pops a value and binds the integer key `n` to it in the table read
    /// through `i`.
    pub fn raw_set_i(&mut self, i: i64, n: i64)
        requires
            old(self)@.wf(),
            old(self)@.stack.len() >= 1,
            old(self)@.table_at(i as int),
        ensures
            final(self)@.wf(),
            final(self)@.stack == old(self)@.stack.drop_last(),
            final(self)@.tables == old(self)@.tables.update(
                old(self)@.table_id_at(i as int),
                tbl_set(
                    old(self)@.tables[old(self)@.table_id_at(i as int)],
                    SVal::Int(n as int),
                    old(self)@.stack.last(),
                ),
            ),
    {
        let tid = self.read_table_id(i);
        let v = match self.stack.pop() {
            Some(x) => x,
            None => vstd::pervasive::unreached(),
        };
        let k = Value::Int(n);
        let nt = tbl_set_exec(&self.tables[tid], &k, &v);
        self.tables.set(tid, nt);
        proof {
            let pre = old(self)@;
            let snt = tbl_set(pre.tables[tid as int], SVal::Int(n as int), pre.stack.last());
            assert(self@.stack =~= pre.stack.drop_last());
            assert(self@.tables =~= pre.tables.update(tid as int, snt));
            lemma_tbl_set_wf(
                pre.tables[tid as int],
                SVal::Int(n as int),
                pre.stack.last(),
                pre.tables.len() as int,
            );
            assert(pre.stack.drop_last() =~= pre.stack.take(pre.stack.len() - 1));
            lemma_wf_after_update(pre, self@, tid as int, snt, 1);
        }
    }

    /// Pops a value and below it a key, and binds key to value in the
    /// table read through `i`.  The model has no metatables, so this is
    /// the raw assignment.
    pub fn set_table(&mut self, i: i64)
        requires
            old(self)@.wf(),
            old(self)@.stack.len() >= 2,
            old(self)@.stack[old(self)@.top() - 2] != SVal::Nil,
            old(self)@.table_at(i as int),
        ensures
            final(self)@.wf(),
            final(self)@.stack == old(self)@.stack.take(old(self)@.top() - 2),
            final(self)@.tables == old(self)@.tables.update(
                old(self)@.table_id_at(i as int),
                tbl_set(
                    old(self)@.tables[old(self)@.table_id_at(i as int)],
                    old(self)@.stack[old(self)@.top() - 2],
                    old(self)@.stack.last(),
                ),
            ),
    {
        self.raw_set(i)
    }
}

/// Truncating the stack keeps a state well formed.
proof fn lemma_wf_truncate(pre: StateView, post: StateView, n: int)
    requires
        pre.wf(),
        0 <= n <= pre.stack.len(),
        post.tables == pre.tables,
        post.stack == pre.stack.take(n),
    ensures
        post.wf(),
{
}

/// The traversal position following key `k` of table `t`: the first entry
/// for a nil key, and the entry after `k`'s otherwise.
pub open spec fn next_pos(t: TableModel, k: SVal) -> int {
    if k == SVal::Nil {
        0
    } else {
        tbl_find(t, k) + 1
    }
}

impl StateView {
    /// An argument the height-setting primitive accepts: an absolute new
    /// height, or a negative height relative to the current top.
    pub open spec fn settop_ok(self, i: int) -> bool {
        (0 <= i <= MAXSTACK) || (-(self.top() + 1) <= i <= -1)
    }

    /// The stack height the height-setting primitive establishes.
    pub open spec fn new_top(self, i: int) -> int {
        if i >= 0 {
            i
        } else {
            self.top() + i + 1
        }
    }
}

/// The typed error a native status code classifies to, carrying the
/// message captured from the stack.
pub open spec fn classify(errn: int, msg: Seq<char>) -> SErr {
    if errn == LUA_YIELD as int {
        SErr::Yield(msg)
    } else if errn == LUA_ERRRUN as int {
        SErr::Runtime(msg)
    } else if errn == LUA_ERRSYNTAX as int {
        SErr::Syntax(msg)
    } else if errn == LUA_ERRMEM as int {
        SErr::MemAlloc(msg)
    } else if errn == LUA_ERRERR as int {
        SErr::ErrFunc(msg)
    } else {
        SErr::Unknown(msg)
    }
}

impl State {
    /// One traversal step over the table read through `i`.  Pops the
    /// current key from the top of the stack — nil to start — and either
    /// pushes the next key/value pair, value on top, or pushes nothing and
    /// reports exhaustion.  Popping a key that is neither nil nor present
    /// in the table is caller misuse.
    pub fn next(&mut self, i: i64) -> (r: bool)
        requires
            old(self)@.wf(),
            old(self)@.stack.len() >= 1,
            old(self)@.table_at(i as int),
            old(self)@.stack.last() == SVal::Nil || tbl_has(
                old(self)@.tables[old(self)@.table_id_at(i as int)],
                old(self)@.stack.last(),
            ),
        ensures
            final(self)@.wf(),
            final(self)@.tables == old(self)@.tables,
            ({
                let t = old(self)@.tables[old(self)@.table_id_at(i as int)];
                let pos = next_pos(t, old(self)@.stack.last());
                if pos < t.len() {
                    r && final(self)@.stack == old(self)@.stack.drop_last().push(t[pos].0).push(
                        t[pos].1,
                    )
                } else {
                    !r && final(self)@.stack == old(self)@.stack.drop_last()
                }
            }),
    {
        let ghost pre = self@;
        let ghost t = pre.tables[pre.table_id_at(i as int)];
        let tid = self.read_table_id(i);
        let k = match self.stack.pop() {
            Some(x) => x,
            None => vstd::pervasive::unreached(),
        };
        proof {
            assert(self@.stack =~= pre.stack.drop_last());
            assert(self@.tables =~= pre.tables);
            assert(pre.stack.drop_last() =~= pre.stack.take(pre.stack.len() - 1));
            lemma_wf_truncate(pre, self@, pre.stack.len() - 1);
            lemma_tbl_find(t, k@);
        }
        let tlen = self.tables[tid].len();
        let pos: usize = match &k {
            Value::Nil => 0,
            _ => match tbl_find_exec(&self.tables[tid], &k) {
                Some(p) => {
                    proof {
                        assert(p < tlen);
                    }
                    p + 1
                },
                None => vstd::pervasive::unreached(),
            },
        };
        if pos < tlen {
            let e = &self.tables[tid][pos];
            let a = e.0.duplicate();
            let b = e.1.duplicate();
            proof {
                assert(a@ == t[pos as int].0);
                assert(b@ == t[pos as int].1);
                assert(wf_val(a@, self@.tables.len() as int));
                assert(wf_val(b@, self@.tables.len() as int));
            }
            self.push_val(a);
            self.push_val(b);
            true
        } else {
            false
        }
    }

    /// Moves the top value into the slot a valid index names, shifting the
    /// slots above it up by one.
    pub fn insert(&mut self, i: i64)
        requires
            old(self)@.wf(),
            old(self)@.stack.len() >= 1,
            old(self)@.valid_slot(i as int),
        ensures
            final(self)@.wf(),
            final(self)@.tables == old(self)@.tables,
            final(self)@.stack == old(self)@.stack.drop_last().insert(
                old(self)@.abs_slot(i as int),
                old(self)@.stack.last(),
            ),
    {
        let ghost pre = self@;
        let p = self.resolve(i);
        let v = match self.stack.pop() {
            Some(x) => x,
            None => vstd::pervasive::unreached(),
        };
        self.stack.insert(p, v);
        proof {
            let dropped = pre.stack.drop_last();
            let ins = dropped.insert(p as int, pre.stack.last());
            assert(self@.stack =~= ins);
            assert(self@.tables =~= pre.tables);
            assert forall|q: int| 0 <= q < ins.len() implies wf_val(
                #[trigger] ins[q],
                pre.tables.len() as int,
            ) by {
                if q < p {
                    assert(ins[q] == pre.stack[q]);
                } else if q == p {
                    assert(ins[q] == pre.stack.last());
                } else {
                    assert(ins[q] == pre.stack[q - 1]);
                }
            }
        }
    }

    /// Removes the slot a valid index names, shifting the slots above it
    /// down by one.
    pub fn remove(&mut self, i: i64)
        requires
            old(self)@.wf(),
            old(self)@.valid_slot(i as int),
        ensures
            final(self)@.wf(),
            final(self)@.tables == old(self)@.tables,
            final(self)@.stack == old(self)@.stack.remove(old(self)@.abs_slot(i as int)),
    {
        let ghost pre = self@;
        let p = self.resolve(i);
        let _ = self.stack.remove(p);
        proof {
            let rem = pre.stack.remove(p as int);
            assert(self@.stack =~= rem);
            assert(self@.tables =~= pre.tables);
            assert forall|q: int| 0 <= q < rem.len() implies wf_val(
                #[trigger] rem[q],
                pre.tables.len() as int,
            ) by {
                if q < p {
                    assert(rem[q] == pre.stack[q]);
                } else {
                    assert(rem[q] == pre.stack[q + 1]);
                }
            }
        }
    }

    /// Sets the stack height: truncates to a lower height, or pads with
    /// nil up to a greater one.  A negative argument counts from the top,
    /// `-1` leaving the stack unchanged.
    pub fn set_top(&mut self, i: i64)
        requires
            old(self)@.wf(),
            old(self)@.settop_ok(i as int),
        ensures
            final(self)@.wf(),
            final(self)@.tables == old(self)@.tables,
            final(self)@.stack.len() == old(self)@.new_top(i as int),
            forall|q: int|
                0 <= q < old(self)@.stack.len() && q < final(self)@.stack.len()
                    ==> final(self)@.stack[q] == old(self)@.stack[q],
            forall|q: int|
                old(self)@.stack.len() <= q < final(self)@.stack.len() ==> final(self)@.stack[q]
                    == SVal::Nil,
    {
        let ghost pre = self@;
        let n: usize = if i >= 0 {
            i as usize
        } else {
            self.stack.len() - ((-(i + 1)) as usize)
        };
        if n <= self.stack.len() {
            self.stack.truncate(n);
            proof {
                assert(self@.stack =~= pre.stack.take(n as int));
                assert(self@.tables =~= pre.tables);
                lemma_wf_truncate(pre, self@, n as int);
            }
        } else {
            while self.stack.len() < n
                invariant
                    self@.wf(),
                    pre.stack.len() <= self@.stack.len() <= n,
                    self@.tables == pre.tables,
                    forall|q: int|
                        0 <= q < pre.stack.len() ==> self@.stack[q] == #[trigger] pre.stack[q],
                    forall|q: int|
                        pre.stack.len() <= q < self@.stack.len() ==> self@.stack[q] == SVal::Nil,
                decreases n - self@.stack.len(),
            {
                self.push_val(Value::Nil);
            }
        }
    }

    /// Classifies a nonzero native status code into a typed error carrying
    /// the message on top of the stack.  The message slot is left in
    /// place.
    pub fn pop_err(&self, errn: i64) -> (r: LuaErr)
        requires
            self@.wf(),
            errn != 0,
            self@.stack.len() >= 1,
            self@.stack.last() matches SVal::Str(_),
        ensures
            r@ == classify(errn as int, self@.stack.last()->Str_0),
    {
        let msg = self.to_str(-1);
        if errn == LUA_YIELD {
            LuaErr::Yield(msg)
        } else if errn == LUA_ERRRUN {
            LuaErr::Runtime(msg)
        } else if errn == LUA_ERRSYNTAX {
            LuaErr::Syntax(msg)
        } else if errn == LUA_ERRMEM {
            LuaErr::MemAlloc(msg)
        } else if errn == LUA_ERRERR {
            LuaErr::ErrFunc(msg)
        } else {
            LuaErr::Unknown(msg)
        }
    }

    /// Classifies a native status code: zero is success, anything else
    /// carries the typed error whose message is on top of the stack.
    pub fn maybe_err(&self, errn: i64) -> (r: Option<LuaErr>)
        requires
            self@.wf(),
            errn != 0 ==> self@.stack.len() >= 1 && self@.stack.last() matches SVal::Str(_),
        ensures
            match r {
                None => errn == 0,
                Some(e) => errn != 0 && e@ == classify(errn as int, self@.stack.last()->Str_0),
            },
    {
        if errn == 0 {
            None
        } else {
            Some(self.pop_err(errn))
        }
    }
}

/// The result slot a protected call keeps when one result is expected:
/// the first of the `rc` results the callable reports — the deepest of
/// the top `rc` frame slots — or nil when it reports none, or more than
/// its frame holds.
pub open spec fn kept_result(frame: Seq<SVal>, rc: int) -> SVal {
    if 1 <= rc <= frame.len() {
        frame[frame.len() - rc]
    } else {
        SVal::Nil
    }
}

impl State {
    /// Extracts the result a protected call keeps from the callable's
    /// final frame, given how many results the callable reported.
    fn first_result(&self, rc: usize) -> (v: Value)
        requires
            self@.wf(),
        ensures
            v@ == kept_result(self@.stack, rc as int),
            wf_val(v@, self@.tables.len() as int),
    {
        let flen = self.stack.len();
        if 1 <= rc && rc <= flen {
            self.stack[flen - rc].duplicate()
        } else {
            Value::Nil
        }
    }

    /// The protected call.  Expects the callable and then `nargs` arguments
    /// pushed on the stack; pops them all.  The callable runs on a fresh
    /// frame holding exactly the arguments, against the shared table
    /// arena.  On success the first `nresults` results are pushed — nil
    /// padded if the callable left fewer.  On failure the stack instead
    /// receives the error message, and the classified runtime-class error
    /// is returned.  Whatever the callable did, the slots below the
    /// callable are untouched and the arena only grows.
    pub fn pcall<H: Host>(&mut self, nargs: usize, nresults: usize, errfunc: i64, host: &H) -> (r:
        Option<LuaErr>)
        requires
            old(self)@.wf(),
            nargs + 1 <= old(self)@.stack.len(),
            nresults <= 1,
            errfunc == 0,
        ensures
            final(self)@.wf(),
            old(self)@.tables.len() <= final(self)@.tables.len(),
            ({
                let base = old(self)@.top() - nargs - 1;
                let fslot = old(self)@.stack[base];
                &&& forall|q: int|
                    0 <= q < base ==> final(self)@.stack[q] == #[trigger] old(self)@.stack[q]
                &&& match r {
                    None => {
                        &&& fslot matches SVal::Fn(_)
                        &&& final(self)@.stack.len() == base + nresults
                    },
                    Some(e) => {
                        &&& e@ matches SErr::Runtime(_)
                        &&& final(self)@.stack.len() == base + 1
                        &&& final(self)@.stack.last() == SVal::Str(e@->Runtime_0)
                        &&& !(fslot matches SVal::Fn(_)) ==> e@ == SErr::Runtime(
                            "attempt to call a non-function value"@,
                        )
                    },
                }
            }),
    {
        let ghost pre = self@;
        let top = self.stack.len();
        let base = top - nargs - 1;
        let callable = match &self.stack[base] {
            Value::Fn(_) => true,
            _ => false,
        };
        if !callable {
            self.pop(nargs + 1);
            self.push_str("attempt to call a non-function value");
            let msg = <String as vstd::string::StringExecFns>::from_str(
                "attempt to call a non-function value",
            );
            return Some(LuaErr::Runtime(msg));
        }
        let fid = match &self.stack[base] {
            Value::Fn(f) => *f,
            _ => vstd::pervasive::unreached(),
        };
        let fstack = self.stack.split_off(base + 1);
        let _ = self.stack.pop();
        let mut tabs: Vec<Vec<(Value, Value)>> = Vec::new();
        core::mem::swap(&mut tabs, &mut self.tables);
        let mut frame = State { stack: fstack, tables: tabs };
        proof {
            assert(frame@.tables =~= pre.tables);
            assert(frame@.stack =~= pre.stack.subrange(base as int + 1, pre.top()));
            assert forall|q: int| 0 <= q < frame@.stack.len() implies wf_val(
                #[trigger] frame@.stack[q],
                frame@.tables.len() as int,
            ) by {
                assert(frame@.stack[q] == pre.stack[base + 1 + q]);
            }
        }
        let res = host.invoke(&mut frame, fid);
        let ghost post_frame = frame@;
        let kept: Value = match &res {
            Ok(rc) => frame.first_result(*rc),
            Err(_) => Value::Nil,
        };
        core::mem::swap(&mut self.tables, &mut frame.tables);
        proof {
            assert(self@.stack =~= pre.stack.take(base as int));
            assert(self@.tables =~= post_frame.tables);
            assert forall|q: int| 0 <= q < self@.stack.len() implies wf_val(
                #[trigger] self@.stack[q],
                self@.tables.len() as int,
            ) by {
                assert(self@.stack[q] == pre.stack[q]);
                assert(wf_val(pre.stack[q], pre.tables.len() as int));
            }
            assert(self@.wf());
        }
        match res {
            Ok(_) => {
                if nresults == 1 {
                    proof {
                        assert(wf_val(kept@, self@.tables.len() as int));
                    }
                    self.push_val(kept);
                }
                None
            },
            Err(m) => {
                self.push_str(m.as_str());
                Some(LuaErr::Runtime(m))
            },
        }
    }
}

/// The character of one decimal digit.
pub open spec fn digit_char(d: nat) -> char {
    if d == 0 {
        '0'
    } else if d == 1 {
        '1'
    } else if d == 2 {
        '2'
    } else if d == 3 {
        '3'
    } else if d == 4 {
        '4'
    } else if d == 5 {
        '5'
    } else if d == 6 {
        '6'
    } else if d == 7 {
        '7'
    } else if d == 8 {
        '8'
    } else {
        '9'
    }
}

/// The decimal digits of `n`, most significant first.
pub open spec fn dec_digits(n: nat) -> Seq<char>
    decreases n,
{
    if n < 10 {
        seq![digit_char(n)]
    } else {
        dec_digits(n / 10).push(digit_char(n % 10))
    }
}

/// The decimal rendering of an integer, with a leading minus sign when it
/// is negative.
pub open spec fn dec_int(n: int) -> Seq<char> {
    if n < 0 {
        seq!['-'] + dec_digits((-n) as nat)
    } else {
        dec_digits(n as nat)
    }
}

/// One decimal digit as text.
fn digit_str(d: u64) -> (r: &'static str)
    requires
        d < 10,
    ensures
        r@ == seq![digit_char(d as nat)],
{
    proof {
        reveal_strlit("0");
        reveal_strlit("1");
        reveal_strlit("2");
        reveal_strlit("3");
        reveal_strlit("4");
        reveal_strlit("5");
        reveal_strlit("6");
        reveal_strlit("7");
        reveal_strlit("8");
        reveal_strlit("9");
    }
    if d == 0 {
        "0"
    } else if d == 1 {
        "1"
    } else if d == 2 {
        "2"
    } else if d == 3 {
        "3"
    } else if d == 4 {
        "4"
    } else if d == 5 {
        "5"
    } else if d == 6 {
        "6"
    } else if d == 7 {
        "7"
    } else if d == 8 {
        "8"
    } else {
        "9"
    }
}

/// Renders an unsigned number in decimal.
pub fn u64_dec(n: u64) -> (s: String)
    ensures
        s@ == dec_digits(n as nat),
    decreases n,
{
    if n < 10 {
        <String as vstd::string::StringExecFns>::from_str(digit_str(n))
    } else {
        let mut s = u64_dec(n / 10);
        <String as vstd::string::StringExecFns>::append(&mut s, digit_str(n % 10));
        s
    }
}

/// Renders a signed number in decimal.
pub fn i64_dec(n: i64) -> (s: String)
    ensures
        s@ == dec_int(n as int),
{
    if n >= 0 {
        u64_dec(n as u64)
    } else {
        proof {
            reveal_strlit("-");
        }
        let mut s = <String as vstd::string::StringExecFns>::from_str("-");
        let mag: u64 = ((-(n + 1)) as u64) + 1;
        let digits = u64_dec(mag);
        <String as vstd::string::StringExecFns>::append(&mut s, digits.as_str());
        proof {
            assert(s@ =~= seq!['-'] + dec_digits(mag as nat));
        }
        s
    }
}

/// The name `LuaType::to_str` renders for a kind.
pub open spec fn spec_type_str(t: LuaType) -> Seq<char> {
    match t {
        LuaType::TNone => "none"@,
        LuaType::TNil => "nil"@,
        LuaType::TBoolean => "boolean"@,
        LuaType::TLightUserData => "light user data"@,
        LuaType::TNumber => "number"@,
        LuaType::TString => "string"@,
        LuaType::TTable => "table"@,
        LuaType::TFunction => "function"@,
        LuaType::TUserData => "user data"@,
        LuaType::TThread => "thread"@,
        LuaType::TUnknown(i) => "unknown: "@ + dec_int(i as int),
    }
}

impl LuaType {
    /// The kind's name as text.
    pub fn to_str(&self) -> (r: String)
        ensures
            r@ == spec_type_str(*self),
    {
        match self {
            LuaType::TNone => <String as vstd::string::StringExecFns>::from_str("none"),
            LuaType::TNil => <String as vstd::string::StringExecFns>::from_str("nil"),
            LuaType::TBoolean => <String as vstd::string::StringExecFns>::from_str("boolean"),
            LuaType::TLightUserData => <String as vstd::string::StringExecFns>::from_str(
                "light user data",
            ),
            LuaType::TNumber => <String as vstd::string::StringExecFns>::from_str("number"),
            LuaType::TString => <String as vstd::string::StringExecFns>::from_str("string"),
            LuaType::TTable => <String as vstd::string::StringExecFns>::from_str("table"),
            LuaType::TFunction => <String as vstd::string::StringExecFns>::from_str("function"),
            LuaType::TUserData => <String as vstd::string::StringExecFns>::from_str("user data"),
            LuaType::TThread => <String as vstd::string::StringExecFns>::from_str("thread"),
            LuaType::TUnknown(i) => {
                let mut s = <String as vstd::string::StringExecFns>::from_str("unknown: ");
                let d = i64_dec(*i);
                <String as vstd::string::StringExecFns>::append(&mut s, d.as_str());
                s
            },
        }
    }
}

/// The description `LuaErr::to_str` renders for an error.
pub open spec fn spec_err_str(e: SErr) -> Seq<char> {
    match e {
        SErr::Yield(m) => "Lua yield error: "@ + m,
        SErr::Runtime(m) => "Lua runtime error: "@ + m,
        SErr::Syntax(m) => "Lua syntax error: "@ + m,
        SErr::MemAlloc(m) => "Lua memory allocation error: "@ + m,
        SErr::ErrFunc(m) => "Lua error handler error: "@ + m,
        SErr::Unknown(m) => "Lua error: "@ + m,
    }
}

impl LuaErr {
    /// The error's kind and message as one line of text.
    pub fn to_str(&self) -> (r: String)
        ensures
            r@ == spec_err_str(self@),
    {
        let mut s = match self {
            LuaErr::Yield(_) => <String as vstd::string::StringExecFns>::from_str(
                "Lua yield error: ",
            ),
            LuaErr::Runtime(_) => <String as vstd::string::StringExecFns>::from_str(
                "Lua runtime error: ",
            ),
            LuaErr::Syntax(_) => <String as vstd::string::StringExecFns>::from_str(
                "Lua syntax error: ",
            ),
            LuaErr::MemAlloc(_) => <String as vstd::string::StringExecFns>::from_str(
                "Lua memory allocation error: ",
            ),
            LuaErr::ErrFunc(_) => <String as vstd::string::StringExecFns>::from_str(
                "Lua error handler error: ",
            ),
            LuaErr::Unknown(_) => <String as vstd::string::StringExecFns>::from_str("Lua error: "),
        };
        let m = self.message();
        <String as vstd::string::StringExecFns>::append(&mut s, m.as_str());
        s
    }
}

/// The description `index_str` renders for the slot an index reads.
pub open spec fn spec_index_str(st: StateView, i: int) -> Seq<char> {
    match st.type_at(i) {
        LuaType::TNone => "none: none"@,
        LuaType::TNil => "nil: nil"@,
        LuaType::TBoolean => if st.read_at(i) == SVal::Bool(true) {
            "bool: true"@
        } else {
            "bool: false"@
        },
        LuaType::TNumber => match st.read_at(i) {
            SVal::Int(n) => "number: "@ + dec_int(n),
            SVal::Num(b) => "number: raw "@ + dec_digits(b as nat),
            _ => Seq::empty(),
        },
        LuaType::TString => "string: "@ + st.read_at(i)->Str_0,
        LuaType::TTable => "table"@,
        LuaType::TFunction => "function"@,
        LuaType::TLightUserData => "light user data"@,
        LuaType::TUserData => "userdata"@,
        LuaType::TThread => "thread"@,
        LuaType::TUnknown(_) => "unknown"@,
    }
}

impl State {
    /// Describes the slot an index reads: its kind, and for a scalar its
    /// value.  Numbers render in decimal, floating-point ones as their
    /// raw 64-bit pattern.
    pub fn index_str(&self, i: i64) -> (r: String)
        requires
            self@.wf(),
        ensures
            r@ == spec_index_str(self@, i as int),
    {
        match self.index_type(i) {
            LuaType::TNone => <String as vstd::string::StringExecFns>::from_str("none: none"),
            LuaType::TNil => <String as vstd::string::StringExecFns>::from_str("nil: nil"),
            LuaType::TBoolean => {
                if self.to_bool(i) {
                    <String as vstd::string::StringExecFns>::from_str("bool: true")
                } else {
                    <String as vstd::string::StringExecFns>::from_str("bool: false")
                }
            },
            LuaType::TNumber => {
                if self.is_int_slot(i) {
                    let mut s = <String as vstd::string::StringExecFns>::from_str("number: ");
                    let d = i64_dec(self.to_int(i));
                    <String as vstd::string::StringExecFns>::append(&mut s, d.as_str());
                    s
                } else {
                    let mut s = <String as vstd::string::StringExecFns>::from_str("number: raw ");
                    let d = u64_dec(self.to_num(i));
                    <String as vstd::string::StringExecFns>::append(&mut s, d.as_str());
                    s
                }
            },
            LuaType::TString => {
                let mut s = <String as vstd::string::StringExecFns>::from_str("string: ");
                let v = self.to_str(i);
                <String as vstd::string::StringExecFns>::append(&mut s, v.as_str());
                s
            },
            LuaType::TTable => <String as vstd::string::StringExecFns>::from_str("table"),
            LuaType::TFunction => <String as vstd::string::StringExecFns>::from_str("function"),
            LuaType::TLightUserData => <String as vstd::string::StringExecFns>::from_str(
                "light user data",
            ),
            LuaType::TUserData => <String as vstd::string::StringExecFns>::from_str("userdata"),
            LuaType::TThread => <String as vstd::string::StringExecFns>::from_str("thread"),
            LuaType::TUnknown(_) => <String as vstd::string::StringExecFns>::from_str("unknown"),
        }
    }
}

} // verus!

//! The conversion protocol: the generic push/read capability pair.
//!
//! Every marshallable type describes itself with three relations over the
//! table arena.  `rep` says that a slot value represents an abstract
//! value, resting only on tables created at or after a given arena slot;
//! `can_read` says that a slot value has the right shape to be read back;
//! `reads` says what reading a slot value yields.  The laws tie the
//! relations together, and every pair of capabilities satisfies the round
//! trip: reading back a pushed value yields an equal value.

use vstd::prelude::*;

use crate::state::State;
use crate::state::TableModel;
use crate::value::SVal;

verus! {

/// The model relations of a marshallable type.  `Self::V` is the type's
/// mathematical shape, given by its deep view.
pub trait LuaVal: Sized + DeepView {
    /// How many levels of table nesting one read of this type descends;
    /// each level uses two slots of stack headroom during traversal.
    spec fn depth() -> nat;

    /// Against the arena `tabs`, the slot value `v` represents the
    /// abstract value `x`, and every table it rests on has an arena slot
    /// at least `lo`.
    spec fn rep(tabs: Seq<TableModel>, v: SVal, x: Self::V, lo: int) -> bool;

    /// The slot value `v` has the shape reading expects.
    spec fn can_read(tabs: Seq<TableModel>, v: SVal) -> bool;

    /// Reading the slot value `v` against the arena `tabs` yields `x`.
    spec fn reads(tabs: Seq<TableModel>, v: SVal, x: Self::V) -> bool;

    /// Representation is untouched by growing the arena or changing
    /// tables below `lo`.
    proof fn rep_frame(tabs1: Seq<TableModel>, tabs2: Seq<TableModel>, v: SVal, x: Self::V, lo: int)
        requires
            Self::rep(tabs1, v, x, lo),
            tabs1.len() <= tabs2.len(),
            forall|j: int| lo <= j < tabs1.len() ==> tabs1[j] == #[trigger] tabs2[j],
        ensures
            Self::rep(tabs2, v, x, lo),
    ;

    /// Representation survives lowering the freshness bound.
    proof fn rep_weaken(tabs: Seq<TableModel>, v: SVal, x: Self::V, lo1: int, lo2: int)
        requires
            Self::rep(tabs, v, x, lo1),
            lo2 <= lo1,
        ensures
            Self::rep(tabs, v, x, lo2),
    ;

    /// A represented slot is never nil, can be read, and reads back only
    /// the value it represents.
    proof fn rep_reads(tabs: Seq<TableModel>, v: SVal, x: Self::V, lo: int)
        requires
            Self::rep(tabs, v, x, lo),
        ensures
            v != SVal::Nil,
            Self::can_read(tabs, v),
            forall|y: Self::V| Self::reads(tabs, v, y) ==> y == x,
    ;
}

/// The push capability: serializes a host value onto the stack top,
/// a net stack effect of exactly one slot.
pub trait LuaPush: LuaVal {
    /// Whether this value fits the runtime's limits: every sequence in it
    /// is short enough to key by integer position, and every mapping in
    /// it has pairwise distinct keys.
    spec fn pushable(&self) -> bool;

    /// Pushes this value's serialization.  Slots below the new top and
    /// tables that existed before the call are untouched.
    fn lua_push(&self, lua: &mut State)
        requires
            old(lua)@.wf(),
            self.pushable(),
        ensures
            final(lua)@.wf(),
            final(lua)@.stack.len() == old(lua)@.stack.len() + 1,
            forall|q: int|
                0 <= q < old(lua)@.stack.len() ==> final(lua)@.stack[q] == #[trigger] old(
                    lua,
                )@.stack[q],
            old(lua)@.tables.len() <= final(lua)@.tables.len(),
            forall|j: int|
                0 <= j < old(lua)@.tables.len() ==> final(lua)@.tables[j] == #[trigger] old(
                    lua,
                )@.tables[j],
            Self::rep(
                final(lua)@.tables,
                final(lua)@.stack.last(),
                self.deep_view(),
                old(lua)@.tables.len() as int,
            ),
    ;
}

/// The read capability: deserializes the slot a valid index names,
/// type-checked and partial, leaving the whole state as it found it.
pub trait LuaTo: LuaVal {
    /// Reads the slot, or reports `None` on a kind mismatch anywhere
    /// within it.
    fn lua_to(lua: &mut State, index: i64) -> (r: Option<Self>)
        requires
            old(lua)@.wf(),
            old(lua)@.valid_slot(index as int),
            old(lua)@.stack.len() + 2 * Self::depth() <= i64::MAX as int,
        ensures
            final(lua)@ == old(lua)@,
            match r {
                Some(x) => Self::can_read(old(lua)@.tables, old(lua)@.read_at(index as int))
                    && Self::reads(
                    old(lua)@.tables,
                    old(lua)@.read_at(index as int),
                    x.deep_view(),
                ),
                None => !Self::can_read(old(lua)@.tables, old(lua)@.read_at(index as int)),
            },
    ;
}

impl LuaVal for i64 {
    open spec fn depth() -> nat {
        0
    }

    open spec fn rep(tabs: Seq<TableModel>, v: SVal, x: i64, lo: int) -> bool {
        v == SVal::Int(x as int)
    }

    open spec fn can_read(tabs: Seq<TableModel>, v: SVal) -> bool {
        v matches SVal::Int(_)
    }

    open spec fn reads(tabs: Seq<TableModel>, v: SVal, x: i64) -> bool {
        v == SVal::Int(x as int)
    }

    proof fn rep_frame(tabs1: Seq<TableModel>, tabs2: Seq<TableModel>, v: SVal, x: i64, lo: int) {
    }

    proof fn rep_weaken(tabs: Seq<TableModel>, v: SVal, x: i64, lo1: int, lo2: int) {
    }

    proof fn rep_reads(tabs: Seq<TableModel>, v: SVal, x: i64, lo: int) {
    }
}

impl LuaPush for i64 {
    open spec fn pushable(&self) -> bool {
        true
    }

    fn lua_push(&self, lua: &mut State) {
        lua.push_int(*self);
    }
}

impl LuaTo for i64 {
    fn lua_to(lua: &mut State, index: i64) -> (r: Option<i64>) {
        if lua.is_int_slot(index) {
            Some(lua.to_int(index))
        } else {
            None
        }
    }
}

impl LuaVal for bool {
    open spec fn depth() -> nat {
        0
    }

    open spec fn rep(tabs: Seq<TableModel>, v: SVal, x: bool, lo: int) -> bool {
        v == SVal::Bool(x)
    }

    open spec fn can_read(tabs: Seq<TableModel>, v: SVal) -> bool {
        v matches SVal::Bool(_)
    }

    open spec fn reads(tabs: Seq<TableModel>, v: SVal, x: bool) -> bool {
        v == SVal::Bool(x)
    }

    proof fn rep_frame(tabs1: Seq<TableModel>, tabs2: Seq<TableModel>, v: SVal, x: bool, lo: int) {
    }

    proof fn rep_weaken(tabs: Seq<TableModel>, v: SVal, x: bool, lo1: int, lo2: int) {
    }

    proof fn rep_reads(tabs: Seq<TableModel>, v: SVal, x: bool, lo: int) {
    }
}

impl LuaPush for bool {
    open spec fn pushable(&self) -> bool {
        true
    }

    fn lua_push(&self, lua: &mut State) {
        lua.push_bool(*self);
    }
}

impl LuaTo for bool {
    fn lua_to(lua: &mut State, index: i64) -> (r: Option<bool>) {
        match lua.index_type(index) {
            crate::value::LuaType::TBoolean => Some(lua.to_bool(index)),
            _ => None,
        }
    }
}

/// `u64` marshals as a floating-point number: the value is the raw 64-bit
/// pattern of the number, which the host encodes and decodes at the
/// boundary.
impl LuaVal for u64 {
    open spec fn depth() -> nat {
        0
    }

    open spec fn rep(tabs: Seq<TableModel>, v: SVal, x: u64, lo: int) -> bool {
        v == SVal::Num(x)
    }

    open spec fn can_read(tabs: Seq<TableModel>, v: SVal) -> bool {
        v matches SVal::Num(_)
    }

    open spec fn reads(tabs: Seq<TableModel>, v: SVal, x: u64) -> bool {
        v == SVal::Num(x)
    }

    proof fn rep_frame(tabs1: Seq<TableModel>, tabs2: Seq<TableModel>, v: SVal, x: u64, lo: int) {
    }

    proof fn rep_weaken(tabs: Seq<TableModel>, v: SVal, x: u64, lo1: int, lo2: int) {
    }

    proof fn rep_reads(tabs: Seq<TableModel>, v: SVal, x: u64, lo: int) {
    }
}

impl LuaPush for u64 {
    open spec fn pushable(&self) -> bool {
        true
    }

    fn lua_push(&self, lua: &mut State) {
        lua.push_num(*self);
    }
}

impl LuaTo for u64 {
    fn lua_to(lua: &mut State, index: i64) -> (r: Option<u64>) {
        if lua.is_num_slot(index) {
            Some(lua.to_num(index))
        } else {
            None
        }
    }
}

impl LuaVal for String {
    open spec fn depth() -> nat {
        0
    }

    open spec fn rep(tabs: Seq<TableModel>, v: SVal, x: Seq<char>, lo: int) -> bool {
        v == SVal::Str(x)
    }

    open spec fn can_read(tabs: Seq<TableModel>, v: SVal) -> bool {
        v matches SVal::Str(_)
    }

    open spec fn reads(tabs: Seq<TableModel>, v: SVal, x: Seq<char>) -> bool {
        v == SVal::Str(x)
    }

    proof fn rep_frame(
        tabs1: Seq<TableModel>,
        tabs2: Seq<TableModel>,
        v: SVal,
        x: Seq<char>,
        lo: int,
    ) {
    }

    proof fn rep_weaken(tabs: Seq<TableModel>, v: SVal, x: Seq<char>, lo1: int, lo2: int) {
    }

    proof fn rep_reads(tabs: Seq<TableModel>, v: SVal, x: Seq<char>, lo: int) {
    }
}

impl LuaPush for String {
    open spec fn pushable(&self) -> bool {
        true
    }

    fn lua_push(&self, lua: &mut State) {
        lua.push_str(self.as_str());
    }
}

impl LuaTo for String {
    fn lua_to(lua: &mut State, index: i64) -> (r: Option<String>) {
        match lua.index_type(index) {
            crate::value::LuaType::TString => Some(lua.to_str(index)),
            _ => None,
        }
    }
}

/// A reference to a host-registered callable: pushing it places the
/// function value carrying the host's dispatch token on the stack, so a
/// callable can itself be passed as a call argument.
pub struct LuaFn(pub u64);

impl DeepView for LuaFn {
    type V = u64;

    open spec fn deep_view(&self) -> u64 {
        self.0
    }
}

impl LuaVal for LuaFn {
    open spec fn depth() -> nat {
        0
    }

    open spec fn rep(tabs: Seq<TableModel>, v: SVal, x: u64, lo: int) -> bool {
        v == SVal::Fn(x)
    }

    open spec fn can_read(tabs: Seq<TableModel>, v: SVal) -> bool {
        v matches SVal::Fn(_)
    }

    open spec fn reads(tabs: Seq<TableModel>, v: SVal, x: u64) -> bool {
        v == SVal::Fn(x)
    }

    proof fn rep_frame(tabs1: Seq<TableModel>, tabs2: Seq<TableModel>, v: SVal, x: u64, lo: int) {
    }

    proof fn rep_weaken(tabs: Seq<TableModel>, v: SVal, x: u64, lo1: int, lo2: int) {
    }

    proof fn rep_reads(tabs: Seq<TableModel>, v: SVal, x: u64, lo: int) {
    }
}

impl LuaPush for LuaFn {
    open spec fn pushable(&self) -> bool {
        true
    }

    fn lua_push(&self, lua: &mut State) {
        lua.push_function(self.0);
    }
}

/// A sequence marshals as a table keyed `1..=n` in element order.
impl<T: LuaVal> LuaVal for Vec<T> {
    open spec fn depth() -> nat {
        T::depth() + 1
    }

    open spec fn rep(tabs: Seq<TableModel>, v: SVal, x: Seq<T::V>, lo: int) -> bool {
        &&& v matches SVal::Table(_)
        &&& 0 <= v->Table_0 < tabs.len()
        &&& lo <= v->Table_0
        &&& tabs[v->Table_0].len() == x.len()
        &&& forall|k: int|
            0 <= k < x.len() ==> (#[trigger] tabs[v->Table_0][k]).0 == SVal::Int(k + 1) && T::rep(
                tabs,
                tabs[v->Table_0][k].1,
                x[k],
                lo,
            )
    }

    open spec fn can_read(tabs: Seq<TableModel>, v: SVal) -> bool {
        &&& v matches SVal::Table(_)
        &&& 0 <= v->Table_0 < tabs.len()
        &&& forall|k: int|
            0 <= k < tabs[v->Table_0].len() ==> T::can_read(tabs, (#[trigger] tabs[v->Table_0][k]).1)
    }

    open spec fn reads(tabs: Seq<TableModel>, v: SVal, x: Seq<T::V>) -> bool {
        &&& v matches SVal::Table(_)
        &&& 0 <= v->Table_0 < tabs.len()
        &&& tabs[v->Table_0].len() == x.len()
        &&& forall|k: int|
            0 <= k < x.len() ==> T::reads(tabs, (#[trigger] tabs[v->Table_0][k]).1, x[k])
    }

    proof fn rep_frame(
        tabs1: Seq<TableModel>,
        tabs2: Seq<TableModel>,
        v: SVal,
        x: Seq<T::V>,
        lo: int,
    ) {
        let id = v->Table_0;
        assert(tabs2[id] == tabs1[id]);
        assert forall|k: int| 0 <= k < x.len() implies (#[trigger] tabs2[id][k]).0 == SVal::Int(
            k + 1,
        ) && T::rep(tabs2, tabs2[id][k].1, x[k], lo) by {
            T::rep_frame(tabs1, tabs2, tabs1[id][k].1, x[k], lo);
        }
    }

    proof fn rep_weaken(tabs: Seq<TableModel>, v: SVal, x: Seq<T::V>, lo1: int, lo2: int) {
        let id = v->Table_0;
        assert forall|k: int| 0 <= k < x.len() implies (#[trigger] tabs[id][k]).0 == SVal::Int(
            k + 1,
        ) && T::rep(tabs, tabs[id][k].1, x[k], lo2) by {
            T::rep_weaken(tabs, tabs[id][k].1, x[k], lo1, lo2);
        }
    }

    proof fn rep_reads(tabs: Seq<TableModel>, v: SVal, x: Seq<T::V>, lo: int) {
        let id = v->Table_0;
        assert forall|k: int| 0 <= k < tabs[id].len() implies T::can_read(
            tabs,
            (#[trigger] tabs[id][k]).1,
        ) by {
            T::rep_reads(tabs, tabs[id][k].1, x[k], lo);
        }
        assert forall|y: Seq<T::V>| Self::reads(tabs, v, y) implies y == x by {
            assert forall|k: int| 0 <= k < x.len() implies y[k] == x[k] by {
                T::rep_reads(tabs, tabs[id][k].1, x[k], lo);
            }
            assert(y =~= x);
        }
    }
}

impl<T: LuaPush> LuaPush for Vec<T> {
    open spec fn pushable(&self) -> bool {
        &&& self.len() <= i64::MAX
        &&& forall|k: int| 0 <= k < self.len() ==> (#[trigger] self[k]).pushable()
    }

    fn lua_push(&self, lua: &mut State) {
        let ghost pre = lua@;
        let ghost lo = pre.tables.len() as int;
        let ghost dx = self.deep_view();
        lua.new_table();
        let mut i: usize = 0;
        while i < self.len()
            invariant
                lua@.wf(),
                i <= self.len(),
                self.pushable(),
                dx == self.deep_view(),
                dx.len() == self.len(),
                lo == pre.tables.len() as int,
                lua@.stack =~= pre.stack.push(SVal::Table(lo)),
                lo < lua@.tables.len(),
                forall|j: int| 0 <= j < lo ==> lua@.tables[j] == #[trigger] pre.tables[j],
                lua@.tables[lo].len() == i,
                forall|k: int|
                    0 <= k < i ==> (#[trigger] lua@.tables[lo][k]).0 == SVal::Int(k + 1) && T::rep(
                        lua@.tables,
                        lua@.tables[lo][k].1,
                        dx[k],
                        lo + 1,
                    ),
            decreases self.len() - i,
        {
            let ghost mid0 = lua@;
            let e = &self[i];
            e.lua_push(lua);
            let ghost mid1 = lua@;
            proof {
                T::rep_weaken(
                    mid1.tables,
                    mid1.stack.last(),
                    dx[i as int],
                    mid0.tables.len() as int,
                    lo + 1,
                );
                T::rep_reads(mid1.tables, mid1.stack.last(), dx[i as int], lo + 1);
                assert forall|k: int| 0 <= k < i implies T::rep(
                    mid1.tables,
                    (#[trigger] mid1.tables[lo][k]).1,
                    dx[k],
                    lo + 1,
                ) by {
                    T::rep_frame(mid0.tables, mid1.tables, mid0.tables[lo][k].1, dx[k], lo + 1);
                }
                assert(mid0.stack.last() == SVal::Table(lo));
                assert(mid1.stack[mid1.stack.len() - 2] == mid0.stack[mid0.stack.len() - 1]);
                assert(mid1.read_at(-2) == SVal::Table(lo));
            }
            lua.raw_set_i(-2, (i as i64) + 1);
            proof {
                let t = mid1.tables[lo];
                crate::state::lemma_tbl_find(t, SVal::Int(i + 1));
                if crate::state::tbl_has(t, SVal::Int(i + 1)) {
                    let p = crate::state::tbl_find(t, SVal::Int(i + 1));
                    assert(t[p].0 == SVal::Int(p + 1));
                    assert(false);
                }
                assert(lua@.tables[lo] == t.push((SVal::Int(i + 1), mid1.stack.last())));
                assert(lua@.stack =~= pre.stack.push(SVal::Table(lo)));
                assert forall|k: int| 0 <= k < i + 1 implies (#[trigger] lua@.tables[lo][k]).0
                    == SVal::Int(k + 1) && T::rep(lua@.tables, lua@.tables[lo][k].1, dx[k], lo + 1)
                by {
                    assert(lua@.tables[lo][k] == if k < i {
                        t[k]
                    } else {
                        (SVal::Int(i + 1), mid1.stack.last())
                    });
                    T::rep_frame(mid1.tables, lua@.tables, lua@.tables[lo][k].1, dx[k], lo + 1);
                }
            }
            i += 1;
        }
        proof {
            assert forall|k: int| 0 <= k < dx.len() implies (#[trigger] lua@.tables[lo][k]).0
                == SVal::Int(k + 1) && T::rep(lua@.tables, lua@.tables[lo][k].1, dx[k], lo) by {
                T::rep_weaken(lua@.tables, lua@.tables[lo][k].1, dx[k], lo + 1, lo);
            }
            assert(Self::rep(lua@.tables, lua@.stack.last(), dx, lo));
        }
    }
}

impl<T: LuaTo> LuaTo for Vec<T> {
    fn lua_to(lua: &mut State, index: i64) -> (r: Option<Vec<T>>) {
        let ghost st0 = lua@;
        match lua.index_type(index) {
            crate::value::LuaType::TTable => {},
            _ => {
                return None;
            },
        }
        let a = lua.abs_index(index);
        let ghost tid = st0.table_id_at(index as int);
        let ghost t = st0.tables[tid];
        let mut out: Vec<T> = Vec::new();
        lua.push_nil();
        proof {
            assert(lua@.stack =~= st0.stack.push(SVal::Nil));
        }
        loop
            invariant
                st0 == old(lua)@,
                lua@.wf(),
                lua@.tables == st0.tables,
                st0.wf(),
                st0.valid_slot(index as int),
                st0.stack.len() + 2 * T::depth() + 2 <= i64::MAX as int,
                1 <= a as int <= st0.stack.len(),
                st0.abs_slot(a as int) == st0.abs_slot(index as int),
                st0.read_at(index as int) == SVal::Table(tid),
                0 <= tid < st0.tables.len(),
                t == st0.tables[tid],
                out@.len() <= t.len(),
                lua@.stack =~= st0.stack.push(
                    if out@.len() == 0 {
                        SVal::Nil
                    } else {
                        t[out@.len() - 1].0
                    },
                ),
                forall|k: int| 0 <= k < out@.len() ==> T::can_read(st0.tables, (#[trigger] t[k]).1),
                forall|k: int|
                    0 <= k < out@.len() ==> T::reads(
                        st0.tables,
                        (#[trigger] t[k]).1,
                        out.deep_view()[k],
                    ),
            decreases t.len() - out@.len(),
        {
            let ghost j = out@.len() as int;
            proof {
                if j > 0 {
                    crate::state::lemma_tbl_find(t, t[j - 1].0);
                    if crate::state::tbl_find(t, t[j - 1].0) != j - 1 {
                        let p = crate::state::tbl_find(t, t[j - 1].0);
                        assert(t[p].0 == t[j - 1].0);
                        assert(false);
                    }
                }
                assert(crate::state::wf_table(t, st0.tables.len() as int));
                assert(lua@.read_at(a as int) == st0.stack[st0.abs_slot(index as int)]);
                assert(st0.read_at(index as int) == st0.stack[st0.abs_slot(index as int)]);
                assert(lua@.table_id_at(a as int) == tid);
                if j > 0 {
                    assert(t[j - 1].0 != SVal::Nil);
                    assert(crate::state::tbl_has(t, t[j - 1].0));
                }
                assert(crate::state::next_pos(t, lua@.stack.last()) == j);
            }
            if !lua.next(a) {
                proof {
                    assert(lua@.stack =~= st0.stack);
                    assert(lua@ =~~= st0);
                    assert(out@.len() == t.len());
                    assert(out.deep_view().len() == t.len());
                }
                return Some(out);
            }
            proof {
                assert(lua@.stack =~= st0.stack.push(t[j].0).push(t[j].1));
                assert(lua@.read_at(-1) == t[j].1);
            }
            let elem = T::lua_to(lua, -1);
            match elem {
                Some(x) => {
                    let ghost pre_dv = out.deep_view();
                    out.push(x);
                    proof {
                        assert(out.deep_view() =~= pre_dv.push(x.deep_view()));
                    }
                    lua.pop(1);
                    proof {
                        assert(lua@.stack =~= st0.stack.push(t[j].0));
                    }
                },
                None => {
                    lua.pop(2);
                    proof {
                        assert(lua@.stack =~= st0.stack);
                        assert(lua@ =~~= st0);
                        assert(!T::can_read(st0.tables, t[j].1));
                    }
                    return None;
                },
            }
        }
    }
}

/// Round trip: pushing any marshallable value and reading the pushed slot
/// back yields an equal value, for scalars and, by composition, for every
/// nesting of sequences, maps and records over them.  The push leaves its
/// one new slot on the stack; nothing else has moved.
pub fn push_then_read<T: LuaPush + LuaTo>(lua: &mut State, x: &T) -> (r: T)
    requires
        old(lua)@.wf(),
        x.pushable(),
        old(lua)@.stack.len() + 1 + 2 * T::depth() <= i64::MAX as int,
    ensures
        r.deep_view() == x.deep_view(),
        final(lua)@.wf(),
        final(lua)@.stack.len() == old(lua)@.stack.len() + 1,
        forall|q: int|
            0 <= q < old(lua)@.stack.len() ==> final(lua)@.stack[q] == #[trigger] old(
                lua,
            )@.stack[q],
{
    x.lua_push(lua);
    proof {
        T::rep_reads(lua@.tables, lua@.stack.last(), x.deep_view(), old(lua)@.tables.len() as int);
    }
    match T::lua_to(lua, -1) {
        Some(r) => r,
        None => vstd::pervasive::unreached(),
    }
}

} // verus!

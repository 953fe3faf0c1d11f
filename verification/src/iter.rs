//! Single-pass cursors over a table's contents, built on the traversal
//! step primitive.
//!
//! A cursor is lazy, finite and not restartable: it yields the table's
//! entries in entry order and is spent once the traversal step reports
//! exhaustion.  Between advances the current key rests on the stack as
//! the seed of the next step; after the last advance the stack is back at
//! the height it had before the first.  Iterating a table that is
//! structurally changed meanwhile is caller misuse.

use vstd::prelude::*;

use crate::convert::LuaPush;
use crate::convert::LuaTo;
use crate::convert::LuaVal;
use crate::state::next_pos;
use crate::state::tbl_find;
use crate::state::tbl_has;
use crate::state::wf_table;
use crate::state::lemma_tbl_find;
use crate::state::State;
use crate::state::StateView;
use crate::state::TableModel;
use crate::value::SVal;

verus! {

/// A cursor over the values of a table's entries.
pub struct LuaArrayIterator {
    index: i64,
    started: bool,
    closed: bool,
    base: Ghost<Seq<SVal>>,
    tid: Ghost<int>,
    tbl: Ghost<TableModel>,
    pos: Ghost<int>,
}

impl LuaArrayIterator {
    /// How many entries the cursor has yielded.
    pub closed spec fn at(self) -> int {
        self.pos@
    }

    /// The table the cursor walks, as it stood when the cursor was made.
    pub closed spec fn table(self) -> TableModel {
        self.tbl@
    }

    /// Whether the cursor has reported exhaustion.
    pub closed spec fn done(self) -> bool {
        self.closed
    }

    /// Whether a traversal key currently rests on the stack top.
    pub closed spec fn pending(self) -> bool {
        self.started && !self.closed
    }

    /// The cursor agrees with the state: the table it walks is unchanged,
    /// and between advances the current key rests on the stack top.
    pub closed spec fn ok(self, st: StateView) -> bool {
        &&& st.wf()
        &&& 0 <= self.tid@ < st.tables.len()
        &&& 1 <= self.index as int <= self.base@.len()
        &&& self.base@[self.index - 1] == SVal::Table(self.tid@)
        &&& st.tables[self.tid@] == self.tbl@
        &&& 0 <= self.pos@ <= self.tbl@.len()
        &&& self.base@.len() + 2 <= i64::MAX as int
        &&& if self.started && !self.closed {
            st.stack == self.base@.push(
                if self.pos@ == 0 {
                    SVal::Nil
                } else {
                    self.tbl@[self.pos@ - 1].0
                },
            )
        } else {
            st.stack == self.base@ && (!self.started ==> self.pos@ == 0)
        }
    }

    /// Advances the cursor: yields the value of the next entry, or
    /// reports exhaustion and pops the traversal key.  An entry value the
    /// requested type cannot read is caller misuse.
    pub fn next<T: LuaTo>(&mut self, lua: &mut State) -> (r: Option<T>)
        requires
            old(self).ok(old(lua)@),
            old(lua)@.stack.len() + 2 + 2 * T::depth() <= i64::MAX as int,
            old(self).at() < old(self).table().len() && !old(self).done() ==> T::can_read(
                old(lua)@.tables,
                old(self).table()[old(self).at()].1,
            ),
        ensures
            final(self).ok(final(lua)@),
            final(lua)@.wf(),
            final(lua)@.tables == old(lua)@.tables,
            final(self).table() == old(self).table(),
            final(self).at() <= final(self).table().len(),
            ({
                let b = if old(self).pending() {
                    old(lua)@.stack.drop_last()
                } else {
                    old(lua)@.stack
                };
                if old(self).done() {
                    r is None && *final(self) == *old(self) && final(lua)@ == old(lua)@
                } else if old(self).at() < old(self).table().len() {
                    &&& (r matches Some(x) && T::reads(
                        old(lua)@.tables,
                        old(self).table()[old(self).at()].1,
                        x.deep_view(),
                    ))
                    &&& final(self).at() == old(self).at() + 1
                    &&& !final(self).done()
                    &&& final(self).pending()
                    &&& final(lua)@.stack == b.push(old(self).table()[old(self).at()].0)
                } else {
                    r is None && final(self).done() && !final(self).pending() && final(lua)@.stack
                        == b
                }
            }),
    {
        let ghost st0 = lua@;
        if self.closed {
            return None;
        }
        if !self.started {
            lua.push_nil();
            self.started = true;
            proof {
                assert(lua@.stack =~= st0.stack.push(SVal::Nil));
            }
        }
        proof {
            let t = self.tbl@;
            let j = self.pos@;
            assert(wf_table(t, lua@.tables.len() as int));
            if j > 0 {
                lemma_tbl_find(t, t[j - 1].0);
                if tbl_find(t, t[j - 1].0) != j - 1 {
                    let p = tbl_find(t, t[j - 1].0);
                    assert(t[p].0 == t[j - 1].0);
                    assert(false);
                }
                assert(t[j - 1].0 != SVal::Nil);
                assert(tbl_has(t, t[j - 1].0));
            }
            assert(lua@.read_at(self.index as int) == SVal::Table(self.tid@));
            assert(next_pos(t, lua@.stack.last()) == j);
        }
        if !lua.next(self.index) {
            self.closed = true;
            proof {
                assert(lua@.stack =~= self.base@);
            }
            return None;
        }
        proof {
            assert(lua@.read_at(-1) == self.tbl@[self.pos@].1);
        }
        let v: Option<T> = T::lua_to(lua, -1);
        match v {
            Some(x) => {
                lua.pop(1);
                proof {
                    self.pos@ = self.pos@ + 1;
                    assert(lua@.stack =~= self.base@.push(self.tbl@[self.pos@ - 1].0));
                }
                Some(x)
            },
            None => vstd::pervasive::unreached(),
        }
    }
}

/// A cursor over a table's key/value pairs.
pub struct LuaTableIterator {
    index: i64,
    started: bool,
    closed: bool,
    base: Ghost<Seq<SVal>>,
    tid: Ghost<int>,
    tbl: Ghost<TableModel>,
    pos: Ghost<int>,
}

impl LuaTableIterator {
    /// How many entries the cursor has yielded.
    pub closed spec fn at(self) -> int {
        self.pos@
    }

    /// The table the cursor walks, as it stood when the cursor was made.
    pub closed spec fn table(self) -> TableModel {
        self.tbl@
    }

    /// Whether the cursor has reported exhaustion.
    pub closed spec fn done(self) -> bool {
        self.closed
    }

    /// Whether a traversal key currently rests on the stack top.
    pub closed spec fn pending(self) -> bool {
        self.started && !self.closed
    }

    /// The cursor agrees with the state, as for the value cursor.
    pub closed spec fn ok(self, st: StateView) -> bool {
        &&& st.wf()
        &&& 0 <= self.tid@ < st.tables.len()
        &&& 1 <= self.index as int <= self.base@.len()
        &&& self.base@[self.index - 1] == SVal::Table(self.tid@)
        &&& st.tables[self.tid@] == self.tbl@
        &&& 0 <= self.pos@ <= self.tbl@.len()
        &&& self.base@.len() + 2 <= i64::MAX as int
        &&& if self.started && !self.closed {
            st.stack == self.base@.push(
                if self.pos@ == 0 {
                    SVal::Nil
                } else {
                    self.tbl@[self.pos@ - 1].0
                },
            )
        } else {
            st.stack == self.base@ && (!self.started ==> self.pos@ == 0)
        }
    }

    /// Advances the cursor: yields the next entry's key and value, or
    /// reports exhaustion and pops the traversal key.  An entry the
    /// requested types cannot read is caller misuse.
    pub fn next<K: LuaTo, V: LuaTo>(&mut self, lua: &mut State) -> (r: Option<(K, V)>)
        requires
            old(self).ok(old(lua)@),
            old(lua)@.stack.len() + 2 + 2 * K::depth() <= i64::MAX as int,
            old(lua)@.stack.len() + 2 + 2 * V::depth() <= i64::MAX as int,
            old(self).at() < old(self).table().len() && !old(self).done() ==> K::can_read(
                old(lua)@.tables,
                old(self).table()[old(self).at()].0,
            ) && V::can_read(old(lua)@.tables, old(self).table()[old(self).at()].1),
        ensures
            final(self).ok(final(lua)@),
            final(lua)@.wf(),
            final(lua)@.tables == old(lua)@.tables,
            final(self).table() == old(self).table(),
            final(self).at() <= final(self).table().len(),
            ({
                let b = if old(self).pending() {
                    old(lua)@.stack.drop_last()
                } else {
                    old(lua)@.stack
                };
                if old(self).done() {
                    r is None && *final(self) == *old(self) && final(lua)@ == old(lua)@
                } else if old(self).at() < old(self).table().len() {
                    &&& (r matches Some(kv) && K::reads(
                        old(lua)@.tables,
                        old(self).table()[old(self).at()].0,
                        kv.0.deep_view(),
                    ) && V::reads(
                        old(lua)@.tables,
                        old(self).table()[old(self).at()].1,
                        kv.1.deep_view(),
                    ))
                    &&& final(self).at() == old(self).at() + 1
                    &&& !final(self).done()
                    &&& final(self).pending()
                    &&& final(lua)@.stack == b.push(old(self).table()[old(self).at()].0)
                } else {
                    r is None && final(self).done() && !final(self).pending() && final(lua)@.stack
                        == b
                }
            }),
    {
        let ghost st0 = lua@;
        if self.closed {
            return None;
        }
        if !self.started {
            lua.push_nil();
            self.started = true;
            proof {
                assert(lua@.stack =~= st0.stack.push(SVal::Nil));
            }
        }
        proof {
            let t = self.tbl@;
            let j = self.pos@;
            assert(wf_table(t, lua@.tables.len() as int));
            if j > 0 {
                lemma_tbl_find(t, t[j - 1].0);
                if tbl_find(t, t[j - 1].0) != j - 1 {
                    let p = tbl_find(t, t[j - 1].0);
                    assert(t[p].0 == t[j - 1].0);
                    assert(false);
                }
                assert(t[j - 1].0 != SVal::Nil);
                assert(tbl_has(t, t[j - 1].0));
            }
            assert(lua@.read_at(self.index as int) == SVal::Table(self.tid@));
            assert(next_pos(t, lua@.stack.last()) == j);
        }
        if !lua.next(self.index) {
            self.closed = true;
            proof {
                assert(lua@.stack =~= self.base@);
            }
            return None;
        }
        proof {
            assert(lua@.read_at(-1) == self.tbl@[self.pos@].1);
            assert(lua@.read_at(-2) == self.tbl@[self.pos@].0);
        }
        let v: Option<V> = V::lua_to(lua, -1);
        let k: Option<K> = K::lua_to(lua, -2);
        match (k, v) {
            (Some(k), Some(v)) => {
                lua.pop(1);
                proof {
                    self.pos@ = self.pos@ + 1;
                    assert(lua@.stack =~= self.base@.push(self.tbl@[self.pos@ - 1].0));
                }
                Some((k, v))
            },
            _ => vstd::pervasive::unreached(),
        }
    }
}

/// Iterating a pushed mapping yields exactly its key/value pairs, in pair
/// order, one per advance; the spent cursor leaves the stack with just
/// the pushed table on top, so one explicit pop restores the height from
/// before the push.
pub fn push_then_iterate_pairs<
    K: crate::map::LuaKey + LuaPush + LuaTo,
    V: LuaPush + LuaTo,
>(lua: &mut crate::api::Lua, m: &crate::map::KvMap<K, V>) -> (r: Vec<(K, V)>)
    requires
        old(lua).state@.wf(),
        m.pushable(),
        old(lua).state@.stack.len() + 4 + 2 * K::depth() <= i64::MAX as int,
        old(lua).state@.stack.len() + 4 + 2 * V::depth() <= i64::MAX as int,
    ensures
        r.deep_view() == m.deep_view(),
        final(lua).state@.wf(),
        final(lua).state@.stack.len() == old(lua).state@.stack.len() + 1,
        forall|q: int|
            0 <= q < old(lua).state@.stack.len() ==> final(lua).state@.stack[q] == #[trigger] old(
                lua,
            ).state@.stack[q],
{
    let ghost pre = lua.state@;
    let ghost dx = m.deep_view();
    m.lua_push(&mut lua.state);
    let ghost pushed = lua.state@;
    let ghost lo = pre.tables.len() as int;
    let ghost tid = pushed.stack.last()->Table_0;
    let ghost t = pushed.tables[tid];
    let mut it = lua.table_iter(-1);
    let mut out: Vec<(K, V)> = Vec::new();
    proof {
        assert(pushed.read_at(-1) == pushed.stack.last());
    }
    loop
        invariant
            pre == old(lua).state@,
            dx == m.deep_view(),
            it.ok(lua.state@),
            lua.state@.tables == pushed.tables,
            it.table() == t,
            t.len() == dx.len(),
            tid == pushed.stack.last()->Table_0,
            forall|k: int|
                0 <= k < dx.len() ==> K::rep(pushed.tables, (#[trigger] t[k]).0, dx[k].0, lo)
                    && V::rep(pushed.tables, t[k].1, dx[k].1, lo),
            pushed.stack == pre.stack.push(pushed.stack.last()),
            pushed.stack.len() + 3 + 2 * K::depth() <= i64::MAX as int,
            pushed.stack.len() + 3 + 2 * V::depth() <= i64::MAX as int,
            0 <= it.at() <= t.len(),
            !it.done(),
            it.pending() ==> lua.state@.stack == pushed.stack.push(lua.state@.stack.last()),
            !it.pending() ==> lua.state@.stack == pushed.stack,
            out.deep_view() =~= dx.take(it.at()),
        decreases t.len() - it.at() + 1,
    {
        proof {
            if it.at() < t.len() {
                K::rep_reads(pushed.tables, t[it.at()].0, dx[it.at()].0, lo);
                V::rep_reads(pushed.tables, t[it.at()].1, dx[it.at()].1, lo);
            }
        }
        match it.next::<K, V>(&mut lua.state) {
            Some(kv) => {
                let ghost pre_dv = out.deep_view();
                proof {
                    K::rep_reads(pushed.tables, t[it.at() - 1].0, dx[it.at() - 1].0, lo);
                    V::rep_reads(pushed.tables, t[it.at() - 1].1, dx[it.at() - 1].1, lo);
                    assert(kv.0.deep_view() == dx[it.at() - 1].0);
                    assert(kv.1.deep_view() == dx[it.at() - 1].1);
                }
                out.push(kv);
                proof {
                    assert(out.deep_view() =~= pre_dv.push(dx[it.at() - 1]));
                    assert(out.deep_view() =~= dx.take(it.at()));
                }
            },
            None => {
                proof {
                    assert(out.deep_view() =~= dx);
                    assert(lua.state@.stack =~= pushed.stack);
                }
                return out;
            },
        }
    }
}

/// Iterating a pushed sequence yields exactly its elements, in push
/// order, one per advance; the spent cursor leaves the stack with just
/// the pushed table on top, so one explicit pop restores the height from
/// before the push.
pub fn push_then_iterate<T: LuaPush + LuaTo>(
    lua: &mut crate::api::Lua,
    x: &Vec<T>,
) -> (r: Vec<T>)
    requires
        old(lua).state@.wf(),
        x.pushable(),
        old(lua).state@.stack.len() + 4 + 2 * T::depth() <= i64::MAX as int,
    ensures
        r.deep_view() == x.deep_view(),
        final(lua).state@.wf(),
        final(lua).state@.stack.len() == old(lua).state@.stack.len() + 1,
        forall|q: int|
            0 <= q < old(lua).state@.stack.len() ==> final(lua).state@.stack[q] == #[trigger] old(
                lua,
            ).state@.stack[q],
{
    let ghost pre = lua.state@;
    let ghost dx = x.deep_view();
    x.lua_push(&mut lua.state);
    let ghost pushed = lua.state@;
    let ghost lo = pre.tables.len() as int;
    let ghost tid = pushed.stack.last()->Table_0;
    let ghost t = pushed.tables[tid];
    let mut it = lua.arr_iter(-1);
    let mut out: Vec<T> = Vec::new();
    proof {
        assert(pushed.read_at(-1) == pushed.stack.last());
    }
    loop
        invariant
            pre == old(lua).state@,
            dx == x.deep_view(),
            it.ok(lua.state@),
            lua.state@.tables == pushed.tables,
            it.table() == t,
            t.len() == dx.len(),
            tid == pushed.stack.last()->Table_0,
            forall|k: int|
                0 <= k < dx.len() ==> (#[trigger] t[k]).0 == SVal::Int(k + 1) && T::rep(
                    pushed.tables,
                    t[k].1,
                    dx[k],
                    lo,
                ),
            pushed.stack == pre.stack.push(pushed.stack.last()),
            pushed.stack.len() + 3 + 2 * T::depth() <= i64::MAX as int,
            0 <= it.at() <= t.len(),
            !it.done(),
            it.pending() ==> lua.state@.stack == pushed.stack.push(lua.state@.stack.last()),
            !it.pending() ==> lua.state@.stack == pushed.stack,
            out.deep_view() =~= dx.take(it.at()),
        decreases t.len() - it.at() + 1,
    {
        proof {
            if it.at() < t.len() {
                T::rep_reads(pushed.tables, t[it.at()].1, dx[it.at()], lo);
            }
        }
        match it.next::<T>(&mut lua.state) {
            Some(v) => {
                let ghost pre_dv = out.deep_view();
                proof {
                    T::rep_reads(pushed.tables, t[it.at() - 1].1, dx[it.at() - 1], lo);
                    assert(v.deep_view() == dx[it.at() - 1]);
                }
                out.push(v);
                proof {
                    assert(out.deep_view() =~= pre_dv.push(dx[it.at() - 1]));
                    assert(out.deep_view() =~= dx.take(it.at()));
                }
            },
            None => {
                proof {
                    assert(out.deep_view() =~= dx);
                    assert(lua.state@.stack =~= pushed.stack);
                }
                return out;
            },
        }
    }
}

impl crate::api::Lua {
    /// A fresh value cursor over the table a valid index names.  Naming
    /// anything but a table is caller misuse.
    pub fn arr_iter(&mut self, index: i64) -> (it: LuaArrayIterator)
        requires
            old(self).state@.wf(),
            old(self).state@.valid_slot(index as int),
            old(self).state@.read_at(index as int) matches SVal::Table(_),
            old(self).state@.stack.len() + 2 <= i64::MAX as int,
        ensures
            final(self).state@ == old(self).state@,
            it.ok(final(self).state@),
            it.at() == 0,
            !it.done(),
            !it.pending(),
            it.at() <= it.table().len(),
            it.table() == final(self).state@.tables[final(self).state@.table_id_at(index as int)],
    {
        let a = self.state.abs_index(index);
        let ghost st = self.state@;
        LuaArrayIterator {
            index: a,
            started: false,
            closed: false,
            base: Ghost(st.stack),
            tid: Ghost(st.table_id_at(index as int)),
            tbl: Ghost(st.tables[st.table_id_at(index as int)]),
            pos: Ghost(0),
        }
    }

    /// A fresh key/value cursor over the table a valid index names.
    /// Naming anything but a table is caller misuse.
    pub fn table_iter(&mut self, index: i64) -> (it: LuaTableIterator)
        requires
            old(self).state@.wf(),
            old(self).state@.valid_slot(index as int),
            old(self).state@.read_at(index as int) matches SVal::Table(_),
            old(self).state@.stack.len() + 2 <= i64::MAX as int,
        ensures
            final(self).state@ == old(self).state@,
            it.ok(final(self).state@),
            it.at() == 0,
            !it.done(),
            !it.pending(),
            it.at() <= it.table().len(),
            it.table() == final(self).state@.tables[final(self).state@.table_id_at(index as int)],
    {
        let a = self.state.abs_index(index);
        let ghost st = self.state@;
        LuaTableIterator {
            index: a,
            started: false,
            closed: false,
            base: Ghost(st.stack),
            tid: Ghost(st.table_id_at(index as int)),
            tbl: Ghost(st.tables[st.table_id_at(index as int)]),
            pos: Ghost(0),
        }
    }
}

} // verus!

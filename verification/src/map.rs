//! Finite mappings, marshalled as tables of key/value pairs.
//!
//! The runtime keys tables by value, so a map key must be a type whose
//! representation on the stack is a single value determined by the key
//! alone — a scalar or a string, not a table.  [`KvMap`] keeps its pairs
//! in insertion order; pushing writes each pair, and reading a table back
//! collects its pairs in traversal order.

use vstd::prelude::*;

use crate::convert::LuaPush;
use crate::convert::LuaTo;
use crate::convert::LuaVal;
use crate::state::State;
use crate::state::TableModel;
use crate::value::SVal;

verus! {

/// A marshallable type that can key a table: its slot representation is
/// one value, a function of the key alone.
pub trait LuaKey: LuaVal {
    /// The slot value that stands for the key `x`.
    spec fn key_of(x: Self::V) -> SVal;

    /// Representation always places exactly `key_of` on the stack.
    proof fn key_rep(tabs: Seq<TableModel>, v: SVal, x: Self::V, lo: int)
        requires
            Self::rep(tabs, v, x, lo),
        ensures
            v == Self::key_of(x),
    ;

    /// Reading a slot as a key recovers the key the slot stands for.
    proof fn key_reads(tabs: Seq<TableModel>, v: SVal, x: Self::V)
        requires
            Self::reads(tabs, v, x),
        ensures
            v == Self::key_of(x),
    ;

    /// Whether two keys stand for the same slot value.
    fn same_key(&self, other: &Self) -> (r: bool)
        ensures
            r == (Self::key_of(self.deep_view()) == Self::key_of(other.deep_view())),
    ;
}

impl LuaKey for i64 {
    open spec fn key_of(x: i64) -> SVal {
        SVal::Int(x as int)
    }

    proof fn key_rep(tabs: Seq<TableModel>, v: SVal, x: i64, lo: int) {
    }

    proof fn key_reads(tabs: Seq<TableModel>, v: SVal, x: i64) {
    }

    fn same_key(&self, other: &Self) -> (r: bool) {
        *self == *other
    }
}

impl LuaKey for bool {
    open spec fn key_of(x: bool) -> SVal {
        SVal::Bool(x)
    }

    proof fn key_rep(tabs: Seq<TableModel>, v: SVal, x: bool, lo: int) {
    }

    proof fn key_reads(tabs: Seq<TableModel>, v: SVal, x: bool) {
    }

    fn same_key(&self, other: &Self) -> (r: bool) {
        *self == *other
    }
}

impl LuaKey for u64 {
    open spec fn key_of(x: u64) -> SVal {
        SVal::Num(x)
    }

    proof fn key_rep(tabs: Seq<TableModel>, v: SVal, x: u64, lo: int) {
    }

    proof fn key_reads(tabs: Seq<TableModel>, v: SVal, x: u64) {
    }

    fn same_key(&self, other: &Self) -> (r: bool) {
        *self == *other
    }
}

impl LuaKey for String {
    open spec fn key_of(x: Seq<char>) -> SVal {
        SVal::Str(x)
    }

    proof fn key_rep(tabs: Seq<TableModel>, v: SVal, x: Seq<char>, lo: int) {
    }

    proof fn key_reads(tabs: Seq<TableModel>, v: SVal, x: Seq<char>) {
    }

    fn same_key(&self, other: &Self) -> (r: bool) {
        self.eq(other)
    }
}

/// A finite mapping as an ordered sequence of key/value pairs with
/// distinct keys.
pub struct KvMap<K, V> {
    pairs: Vec<(K, V)>,
}

impl<K: DeepView, V: DeepView> DeepView for KvMap<K, V> {
    type V = Seq<(K::V, V::V)>;

    closed spec fn deep_view(&self) -> Seq<(K::V, V::V)> {
        self.pairs.deep_view()
    }
}

/// Position of the first pair of `s` whose key stands for the slot value
/// `k`, or `-1`.
pub open spec fn kv_find<K: LuaKey, VV>(s: Seq<(K::V, VV)>, k: SVal) -> int
    decreases s.len(),
{
    if s.len() == 0 {
        -1
    } else if K::key_of(s[0].0) == k {
        0
    } else {
        let r = kv_find::<K, VV>(s.subrange(1, s.len() as int), k);
        if r == -1 {
            -1
        } else {
            r + 1
        }
    }
}

/// `kv_find` names the first pair holding the key, as `tbl_find` does for
/// tables.
pub proof fn lemma_kv_find<K: LuaKey, VV>(s: Seq<(K::V, VV)>, k: SVal)
    ensures
        kv_find::<K, VV>(s, k) == -1 ==> forall|j: int|
            0 <= j < s.len() ==> K::key_of((#[trigger] s[j]).0) != k,
        kv_find::<K, VV>(s, k) != -1 ==> 0 <= kv_find::<K, VV>(s, k) < s.len() && K::key_of(
            s[kv_find::<K, VV>(s, k)].0,
        ) == k && forall|j: int|
            0 <= j < kv_find::<K, VV>(s, k) ==> K::key_of((#[trigger] s[j]).0) != k,
    decreases s.len(),
{
    if s.len() != 0 && K::key_of(s[0].0) != k {
        let t = s.subrange(1, s.len() as int);
        lemma_kv_find::<K, VV>(t, k);
        if kv_find::<K, VV>(s, k) == -1 {
            assert forall|j: int| 0 <= j < s.len() implies K::key_of((#[trigger] s[j]).0) != k by {
                if j >= 1 {
                    assert(t[j - 1] == s[j]);
                }
            }
        } else {
            let r = kv_find::<K, VV>(s, k);
            assert(s[r] == t[r - 1]);
            assert forall|j: int| 0 <= j < r implies K::key_of((#[trigger] s[j]).0) != k by {
                if j >= 1 {
                    assert(t[j - 1] == s[j]);
                }
            }
        }
    }
}


/// The keys of `s` stand for pairwise distinct slot values.
pub open spec fn kv_keys_distinct<K: LuaKey, VV>(s: Seq<(K::V, VV)>) -> bool {
    forall|i: int, j: int|
        0 <= i < j < s.len() ==> K::key_of((#[trigger] s[i]).0) != K::key_of((#[trigger] s[j]).0)
}

impl<K: LuaKey, V: LuaVal> KvMap<K, V> {
    /// The pairs' keys stand for pairwise distinct slot values.
    pub open spec fn keys_distinct(self) -> bool {
        kv_keys_distinct::<K, V::V>(self.deep_view())
    }

    /// An empty mapping.
    pub fn new() -> (r: KvMap<K, V>)
        ensures
            r.deep_view() == Seq::<(K::V, V::V)>::empty(),
            r.keys_distinct(),
    {
        let r = KvMap { pairs: Vec::new() };
        proof {
            assert(r.deep_view() =~= Seq::<(K::V, V::V)>::empty());
        }
        r
    }

    /// How many pairs the mapping holds.
    pub fn len(&self) -> (r: usize)
        ensures
            r == self.deep_view().len(),
    {
        self.pairs.len()
    }

    /// The pairs as a mathematical sequence.
    pub closed spec fn entries(self) -> Seq<(K, V)> {
        self.pairs@
    }

    /// The pairs, in insertion order.
    pub fn pairs(&self) -> (r: &Vec<(K, V)>)
        ensures
            r.deep_view() == self.deep_view(),
    {
        &self.pairs
    }

    /// Binds `k` to `v`: replaces the value of a pair already keyed like
    /// `k`, or appends a fresh pair.
    pub fn insert(&mut self, k: K, v: V)
        ensures
            ({
                let s = old(self).deep_view();
                let p = kv_find::<K, V::V>(s, K::key_of(k.deep_view()));
                final(self).deep_view() == if p == -1 {
                    s.push((k.deep_view(), v.deep_view()))
                } else {
                    s.update(p, (k.deep_view(), v.deep_view()))
                }
            }),
            old(self).keys_distinct() ==> final(self).keys_distinct(),
    {
        let ghost s = self.deep_view();
        let ghost kk = K::key_of(k.deep_view());
        let mut j: usize = 0;
        while j < self.pairs.len()
            invariant
                s == self.deep_view(),
                s == old(self).deep_view(),
                kk == K::key_of(k.deep_view()),
                j <= self.pairs.len(),
                s.len() == self.pairs.len(),
                forall|q: int| 0 <= q < j ==> K::key_of((#[trigger] s[q]).0) != kk,
            decreases self.pairs.len() - j,
        {
            proof {
                assert(s[j as int].0 == self.pairs@[j as int].0.deep_view());
            }
            if self.pairs[j].0.same_key(&k) {
                self.pairs.set(j, (k, v));
                proof {
                    let dv = self.deep_view();
                    assert(dv =~= s.update(j as int, (k.deep_view(), v.deep_view())));
                    lemma_kv_find::<K, V::V>(s, kk);
                    assert(kv_find::<K, V::V>(s, kk) == j);
                    if kv_keys_distinct::<K, V::V>(s) {
                        assert forall|a: int, b: int| 0 <= a < b < dv.len() implies K::key_of(
                            (#[trigger] dv[a]).0,
                        ) != K::key_of((#[trigger] dv[b]).0) by {
                            if a != j {
                                assert(dv[a] == s[a]);
                            } else {
                                assert(K::key_of(dv[a].0) == K::key_of(s[a].0));
                            }
                            if b != j {
                                assert(dv[b] == s[b]);
                            } else {
                                assert(K::key_of(dv[b].0) == K::key_of(s[b].0));
                            }
                        }
                    }
                }
                return ;
            }
            j += 1;
        }
        self.pairs.push((k, v));
        proof {
            let dv = self.deep_view();
            assert(dv =~= s.push((k.deep_view(), v.deep_view())));
            lemma_kv_find::<K, V::V>(s, kk);
            if kv_find::<K, V::V>(s, kk) != -1 {
                let p = kv_find::<K, V::V>(s, kk);
                assert(K::key_of(s[p].0) == kk);
                assert(false);
            }
            if kv_keys_distinct::<K, V::V>(s) {
                assert forall|a: int, b: int| 0 <= a < b < dv.len() implies K::key_of(
                    (#[trigger] dv[a]).0,
                ) != K::key_of((#[trigger] dv[b]).0) by {
                    assert(dv[a] == s[a]);
                    if b < s.len() {
                        assert(dv[b] == s[b]);
                    } else {
                        assert(K::key_of(s[a].0) != kk);
                    }
                }
            }
        }
    }

    /// The value bound to the pair keyed like `k`, if any.
    pub fn get(&self, k: &K) -> (r: Option<&V>)
        ensures
            ({
                let p = kv_find::<K, V::V>(self.deep_view(), K::key_of(k.deep_view()));
                match r {
                    Some(v) => p >= 0 && v.deep_view() == self.deep_view()[p].1,
                    None => p == -1,
                }
            }),
    {
        let ghost s = self.deep_view();
        let ghost kk = K::key_of(k.deep_view());
        let mut j: usize = 0;
        while j < self.pairs.len()
            invariant
                s == self.deep_view(),
                kk == K::key_of(k.deep_view()),
                j <= self.pairs.len(),
                s.len() == self.pairs.len(),
                forall|q: int| 0 <= q < j ==> K::key_of((#[trigger] s[q]).0) != kk,
            decreases self.pairs.len() - j,
        {
            proof {
                assert(s[j as int].0 == self.pairs@[j as int].0.deep_view());
            }
            if self.pairs[j].0.same_key(k) {
                proof {
                    lemma_kv_find::<K, V::V>(s, kk);
                    assert(kv_find::<K, V::V>(s, kk) == j);
                    assert(s[j as int].1 == self.pairs@[j as int].1.deep_view());
                }
                return Some(&self.pairs[j].1);
            }
            j += 1;
        }
        proof {
            lemma_kv_find::<K, V::V>(s, kk);
            if kv_find::<K, V::V>(s, kk) != -1 {
                let p = kv_find::<K, V::V>(s, kk);
                assert(K::key_of(s[p].0) == kk);
                assert(false);
            }
        }
        None
    }
}

/// A mapping marshals as a table holding one entry per pair, in pair
/// order; the runtime itself keeps no order among table keys.
impl<K: LuaKey, V: LuaVal> LuaVal for KvMap<K, V> {
    open spec fn depth() -> nat {
        K::depth() + V::depth() + 1
    }

    open spec fn rep(tabs: Seq<TableModel>, v: SVal, x: Seq<(K::V, V::V)>, lo: int) -> bool {
        &&& v matches SVal::Table(_)
        &&& 0 <= v->Table_0 < tabs.len()
        &&& lo <= v->Table_0
        &&& tabs[v->Table_0].len() == x.len()
        &&& forall|k: int|
            0 <= k < x.len() ==> K::rep(tabs, (#[trigger] tabs[v->Table_0][k]).0, x[k].0, lo)
                && V::rep(tabs, tabs[v->Table_0][k].1, x[k].1, lo)
    }

    open spec fn can_read(tabs: Seq<TableModel>, v: SVal) -> bool {
        &&& v matches SVal::Table(_)
        &&& 0 <= v->Table_0 < tabs.len()
        &&& forall|k: int|
            0 <= k < tabs[v->Table_0].len() ==> K::can_read(
                tabs,
                (#[trigger] tabs[v->Table_0][k]).0,
            ) && V::can_read(tabs, tabs[v->Table_0][k].1)
    }

    open spec fn reads(tabs: Seq<TableModel>, v: SVal, x: Seq<(K::V, V::V)>) -> bool {
        &&& v matches SVal::Table(_)
        &&& 0 <= v->Table_0 < tabs.len()
        &&& tabs[v->Table_0].len() == x.len()
        &&& forall|k: int|
            0 <= k < x.len() ==> K::reads(tabs, (#[trigger] tabs[v->Table_0][k]).0, x[k].0)
                && V::reads(tabs, tabs[v->Table_0][k].1, x[k].1)
    }

    proof fn rep_frame(
        tabs1: Seq<TableModel>,
        tabs2: Seq<TableModel>,
        v: SVal,
        x: Seq<(K::V, V::V)>,
        lo: int,
    ) {
        let id = v->Table_0;
        assert(tabs2[id] == tabs1[id]);
        assert forall|k: int| 0 <= k < x.len() implies K::rep(
            tabs2,
            (#[trigger] tabs2[id][k]).0,
            x[k].0,
            lo,
        ) && V::rep(tabs2, tabs2[id][k].1, x[k].1, lo) by {
            K::rep_frame(tabs1, tabs2, tabs1[id][k].0, x[k].0, lo);
            V::rep_frame(tabs1, tabs2, tabs1[id][k].1, x[k].1, lo);
        }
    }

    proof fn rep_weaken(tabs: Seq<TableModel>, v: SVal, x: Seq<(K::V, V::V)>, lo1: int, lo2: int) {
        let id = v->Table_0;
        assert forall|k: int| 0 <= k < x.len() implies K::rep(
            tabs,
            (#[trigger] tabs[id][k]).0,
            x[k].0,
            lo2,
        ) && V::rep(tabs, tabs[id][k].1, x[k].1, lo2) by {
            K::rep_weaken(tabs, tabs[id][k].0, x[k].0, lo1, lo2);
            V::rep_weaken(tabs, tabs[id][k].1, x[k].1, lo1, lo2);
        }
    }

    proof fn rep_reads(tabs: Seq<TableModel>, v: SVal, x: Seq<(K::V, V::V)>, lo: int) {
        let id = v->Table_0;
        assert forall|k: int| 0 <= k < tabs[id].len() implies K::can_read(
            tabs,
            (#[trigger] tabs[id][k]).0,
        ) && V::can_read(tabs, tabs[id][k].1) by {
            K::rep_reads(tabs, tabs[id][k].0, x[k].0, lo);
            V::rep_reads(tabs, tabs[id][k].1, x[k].1, lo);
        }
        assert forall|y: Seq<(K::V, V::V)>| Self::reads(tabs, v, y) implies y == x by {
            assert forall|k: int| 0 <= k < x.len() implies y[k] == x[k] by {
                K::rep_reads(tabs, tabs[id][k].0, x[k].0, lo);
                V::rep_reads(tabs, tabs[id][k].1, x[k].1, lo);
                assert(y[k].0 == x[k].0);
                assert(y[k].1 == x[k].1);
            }
            assert(y =~= x);
        }
    }
}

impl<K: LuaKey + LuaPush, V: LuaPush> LuaPush for KvMap<K, V> {
    open spec fn pushable(&self) -> bool {
        &&& self.keys_distinct()
        &&& forall|k: int|
            0 <= k < self.entries().len() ==> (#[trigger] self.entries()[k]).0.pushable()
                && self.entries()[k].1.pushable()
    }

    fn lua_push(&self, lua: &mut State) {
        let ghost pre = lua@;
        let ghost lo = pre.tables.len() as int;
        let ghost dx = self.deep_view();
        lua.new_table();
        let mut i: usize = 0;
        while i < self.pairs.len()
            invariant
                lua@.wf(),
                i <= self.pairs.len(),
                self.pushable(),
                dx == self.deep_view(),
                dx.len() == self.pairs.len(),
                lo == pre.tables.len() as int,
                lua@.stack =~= pre.stack.push(SVal::Table(lo)),
                lo < lua@.tables.len(),
                forall|j: int| 0 <= j < lo ==> lua@.tables[j] == #[trigger] pre.tables[j],
                lua@.tables[lo].len() == i,
                forall|k: int|
                    0 <= k < i ==> K::rep(lua@.tables, (#[trigger] lua@.tables[lo][k]).0, dx[k].0, lo + 1)
                        && V::rep(lua@.tables, lua@.tables[lo][k].1, dx[k].1, lo + 1),
            decreases self.pairs.len() - i,
        {
            let ghost mid0 = lua@;
            let e = &self.pairs[i];
            proof {
                assert(self.entries()[i as int] == self.pairs@[i as int]);
                assert(dx[i as int] == (self.pairs@[i as int].0.deep_view(),
                self.pairs@[i as int].1.deep_view()));
                assert(self.pairs@[i as int].0.pushable());
                assert(self.pairs@[i as int].1.pushable());
            }
            e.0.lua_push(lua);
            let ghost mid1 = lua@;
            let ghost kv = mid1.stack.last();
            proof {
                K::rep_weaken(mid1.tables, kv, dx[i as int].0, mid0.tables.len() as int, lo + 1);
            }
            e.1.lua_push(lua);
            let ghost mid2 = lua@;
            let ghost vv = mid2.stack.last();
            proof {
                V::rep_weaken(mid2.tables, vv, dx[i as int].1, mid1.tables.len() as int, lo + 1);
                K::rep_frame(mid1.tables, mid2.tables, kv, dx[i as int].0, lo + 1);
                K::rep_reads(mid2.tables, kv, dx[i as int].0, lo + 1);
                assert forall|k: int| 0 <= k < i implies K::rep(
                    mid2.tables,
                    (#[trigger] mid2.tables[lo][k]).0,
                    dx[k].0,
                    lo + 1,
                ) && V::rep(mid2.tables, mid2.tables[lo][k].1, dx[k].1, lo + 1) by {
                    K::rep_frame(mid0.tables, mid2.tables, mid0.tables[lo][k].0, dx[k].0, lo + 1);
                    V::rep_frame(mid0.tables, mid2.tables, mid0.tables[lo][k].1, dx[k].1, lo + 1);
                }
                assert(mid2.stack[mid2.stack.len() - 3] == mid0.stack[mid0.stack.len() - 1]);
                assert(mid2.read_at(-3) == SVal::Table(lo));
                assert(mid2.stack[mid2.stack.len() - 2] == mid1.stack[mid1.stack.len() - 1]);
            }
            lua.raw_set(-3);
            proof {
                let t = mid2.tables[lo];
                crate::state::lemma_tbl_find(t, kv);
                if crate::state::tbl_has(t, kv) {
                    let p = crate::state::tbl_find(t, kv);
                    K::key_rep(mid2.tables, t[p].0, dx[p].0, lo + 1);
                    K::key_rep(mid2.tables, kv, dx[i as int].0, lo + 1);
                    assert(K::key_of(dx[p].0) == K::key_of(dx[i as int].0));
                    assert(false);
                }
                V::rep_reads(mid2.tables, vv, dx[i as int].1, lo + 1);
                assert(lua@.tables[lo] == t.push((kv, vv)));
                assert(lua@.stack =~= pre.stack.push(SVal::Table(lo)));
                assert forall|k: int| 0 <= k < i + 1 implies K::rep(
                    lua@.tables,
                    (#[trigger] lua@.tables[lo][k]).0,
                    dx[k].0,
                    lo + 1,
                ) && V::rep(lua@.tables, lua@.tables[lo][k].1, dx[k].1, lo + 1) by {
                    assert(lua@.tables[lo][k] == if k < i {
                        t[k]
                    } else {
                        (kv, vv)
                    });
                    K::rep_frame(mid2.tables, lua@.tables, lua@.tables[lo][k].0, dx[k].0, lo + 1);
                    V::rep_frame(mid2.tables, lua@.tables, lua@.tables[lo][k].1, dx[k].1, lo + 1);
                }
            }
            i += 1;
        }
        proof {
            assert forall|k: int| 0 <= k < dx.len() implies K::rep(
                lua@.tables,
                (#[trigger] lua@.tables[lo][k]).0,
                dx[k].0,
                lo,
            ) && V::rep(lua@.tables, lua@.tables[lo][k].1, dx[k].1, lo) by {
                K::rep_weaken(lua@.tables, lua@.tables[lo][k].0, dx[k].0, lo + 1, lo);
                V::rep_weaken(lua@.tables, lua@.tables[lo][k].1, dx[k].1, lo + 1, lo);
            }
            assert(Self::rep(lua@.tables, lua@.stack.last(), dx, lo));
        }
    }
}

impl<K: LuaKey + LuaTo, V: LuaTo> LuaTo for KvMap<K, V> {
    fn lua_to(lua: &mut State, index: i64) -> (r: Option<KvMap<K, V>>) {
        let ghost st0 = lua@;
        match lua.index_type(index) {
            crate::value::LuaType::TTable => {},
            _ => {
                return None;
            },
        }
        let a = lua.abs_index(index);
        let ghost tid = st0.table_id_at(index as int);
        let ghost t = st0.tables[tid];
        let mut out: Vec<(K, V)> = Vec::new();
        lua.push_nil();
        proof {
            assert(lua@.stack =~= st0.stack.push(SVal::Nil));
        }
        loop
            invariant
                st0 == old(lua)@,
                lua@.wf(),
                lua@.tables == st0.tables,
                st0.wf(),
                st0.valid_slot(index as int),
                st0.stack.len() + 2 * K::depth() + 2 * V::depth() + 2 <= i64::MAX as int,
                1 <= a as int <= st0.stack.len(),
                st0.abs_slot(a as int) == st0.abs_slot(index as int),
                st0.read_at(index as int) == SVal::Table(tid),
                0 <= tid < st0.tables.len(),
                t == st0.tables[tid],
                out@.len() <= t.len(),
                lua@.stack =~= st0.stack.push(
                    if out@.len() == 0 {
                        SVal::Nil
                    } else {
                        t[out@.len() - 1].0
                    },
                ),
                forall|k: int|
                    0 <= k < out@.len() ==> K::can_read(st0.tables, (#[trigger] t[k]).0)
                        && V::can_read(st0.tables, t[k].1),
                forall|k: int|
                    0 <= k < out@.len() ==> K::reads(
                        st0.tables,
                        (#[trigger] t[k]).0,
                        out.deep_view()[k].0,
                    ) && V::reads(st0.tables, t[k].1, out.deep_view()[k].1),
            decreases t.len() - out@.len(),
        {
            let ghost j = out@.len() as int;
            proof {
                if j > 0 {
                    crate::state::lemma_tbl_find(t, t[j - 1].0);
                    if crate::state::tbl_find(t, t[j - 1].0) != j - 1 {
                        let p = crate::state::tbl_find(t, t[j - 1].0);
                        assert(t[p].0 == t[j - 1].0);
                        assert(false);
                    }
                }
                assert(crate::state::wf_table(t, st0.tables.len() as int));
                assert(lua@.read_at(a as int) == st0.stack[st0.abs_slot(index as int)]);
                assert(st0.read_at(index as int) == st0.stack[st0.abs_slot(index as int)]);
                assert(lua@.table_id_at(a as int) == tid);
                if j > 0 {
                    assert(t[j - 1].0 != SVal::Nil);
                    assert(crate::state::tbl_has(t, t[j - 1].0));
                }
                assert(crate::state::next_pos(t, lua@.stack.last()) == j);
            }
            if !lua.next(a) {
                proof {
                    assert(lua@.stack =~= st0.stack);
                    assert(lua@ =~~= st0);
                    assert(out@.len() == t.len());
                    assert(out.deep_view().len() == t.len());
                }
                let r = KvMap { pairs: out };
                return Some(r);
            }
            proof {
                assert(lua@.stack =~= st0.stack.push(t[j].0).push(t[j].1));
                assert(lua@.read_at(-1) == t[j].1);
                assert(lua@.read_at(-2) == t[j].0);
            }
            let v = match V::lua_to(lua, -1) {
                Some(v) => v,
                None => {
                    lua.pop(2);
                    proof {
                        assert(lua@.stack =~= st0.stack);
                        assert(lua@ =~~= st0);
                        assert(!V::can_read(st0.tables, t[j].1));
                    }
                    return None;
                },
            };
            let k = match K::lua_to(lua, -2) {
                Some(k) => k,
                None => {
                    lua.pop(2);
                    proof {
                        assert(lua@.stack =~= st0.stack);
                        assert(lua@ =~~= st0);
                        assert(!K::can_read(st0.tables, t[j].0));
                    }
                    return None;
                },
            };
            let ghost pre_dv = out.deep_view();
            out.push((k, v));
            proof {
                assert(out.deep_view() =~= pre_dv.push((k.deep_view(), v.deep_view())));
            }
            lua.pop(1);
            proof {
                assert(lua@.stack =~= st0.stack.push(t[j].0));
            }
        }
    }
}

} // verus!

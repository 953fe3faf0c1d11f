//! The high-level handle: typed push/read sugar over the runtime handle,
//! the module builder, and the call protocol.
//!
//! The call protocol is a linear state machine: resolve the callable by
//! name, marshal the arguments left to right, perform the protected call,
//! and decode the result or the error, restoring the stack to the height
//! recorded before resolution on every path.

use vstd::prelude::*;

use crate::convert::LuaPush;
use crate::convert::LuaTo;
use crate::convert::LuaVal;
use crate::host::Host;
use crate::state::tbl_get;
use crate::state::NewState;
use crate::state::State;
use crate::value::LuaErr;
use crate::value::LuaType;
use crate::value::SErr;
use crate::value::SVal;

verus! {

/// The high-level handle over one runtime instance.
pub struct Lua {
    /// The underlying runtime handle with the raw stack primitives.
    pub state: State,
}

/// Opens a fresh runtime: an empty stack and an empty globals table.
#[allow(non_snake_case)]
pub fn New() -> (r: Lua)
    ensures
        r.state@.wf(),
        r.state@.stack.len() == 0,
        r.state@.tables.len() == 1,
        r.state@.tables[0].len() == 0,
{
    Lua { state: NewState() }
}

/// The slot value the globals table binds to a name.
pub open spec fn global_of(st: crate::state::StateView, name: Seq<char>) -> SVal {
    tbl_get(st.tables[0], SVal::Str(name))
}

/// A table value naming a table the arena holds.
pub open spec fn is_table_in(tabs: Seq<crate::state::TableModel>, v: SVal) -> bool {
    v matches SVal::Table(_) && 0 <= v->Table_0 < tabs.len()
}

/// The value a dotted name path resolves to, walking nested tables from
/// the globals table; nil once any step leaves the tables.
pub open spec fn path_value(tabs: Seq<crate::state::TableModel>, segs: Seq<Seq<char>>) -> SVal
    decreases segs.len(),
{
    if segs.len() == 0 {
        SVal::Table(0)
    } else {
        let prefix = path_value(tabs, segs.drop_last());
        if is_table_in(tabs, prefix) {
            tbl_get(tabs[prefix->Table_0], SVal::Str(segs.last()))
        } else {
            SVal::Nil
        }
    }
}

/// Every prefix of the path resolves to a table of the arena.
pub open spec fn path_tables_ok(tabs: Seq<crate::state::TableModel>, segs: Seq<Seq<char>>) -> bool {
    forall|k: int| 0 <= k <= segs.len() ==> is_table_in(tabs, #[trigger] path_value(tabs, segs.take(k)))
}

/// The dotted spelling of a name path.
pub open spec fn dotted(segs: Seq<Seq<char>>) -> Seq<char>
    decreases segs.len(),
{
    if segs.len() == 0 {
        Seq::empty()
    } else if segs.len() == 1 {
        segs[0]
    } else {
        dotted(segs.drop_last()) + "."@ + segs.last()
    }
}

impl Lua {
    /// A borrowed reference to the runtime handle.
    pub fn state(&self) -> (r: &State)
        ensures
            r == &self.state,
    {
        &self.state
    }

    /// Pushes a value to the stack through its push capability.
    pub fn push<T: LuaPush>(&mut self, p: T)
        requires
            old(self).state@.wf(),
            p.pushable(),
        ensures
            final(self).state@.wf(),
            final(self).state@.stack.len() == old(self).state@.stack.len() + 1,
            forall|q: int|
                0 <= q < old(self).state@.stack.len() ==> final(self).state@.stack[q]
                    == #[trigger] old(self).state@.stack[q],
            old(self).state@.tables.len() <= final(self).state@.tables.len(),
            forall|j: int|
                0 <= j < old(self).state@.tables.len() ==> final(self).state@.tables[j]
                    == #[trigger] old(self).state@.tables[j],
            T::rep(
                final(self).state@.tables,
                final(self).state@.stack.last(),
                p.deep_view(),
                old(self).state@.tables.len() as int,
            ),
    {
        p.lua_push(&mut self.state)
    }

    /// Reads a value from a stack slot.  Requesting a type the slot does
    /// not hold is caller misuse.
    pub fn i_to<T: LuaTo>(&mut self, index: i64) -> (r: T)
        requires
            old(self).state@.wf(),
            old(self).state@.valid_slot(index as int),
            old(self).state@.stack.len() + 2 * T::depth() <= i64::MAX as int,
            T::can_read(old(self).state@.tables, old(self).state@.read_at(index as int)),
        ensures
            final(self).state@ == old(self).state@,
            T::reads(
                old(self).state@.tables,
                old(self).state@.read_at(index as int),
                r.deep_view(),
            ),
    {
        match T::lua_to(&mut self.state, index) {
            Some(x) => x,
            None => vstd::pervasive::unreached(),
        }
    }

    /// Pops the top value from the stack and returns it.  Requesting a
    /// type the slot does not hold is caller misuse.
    pub fn pop<T: LuaTo>(&mut self) -> (r: T)
        requires
            old(self).state@.wf(),
            old(self).state@.stack.len() >= 1,
            old(self).state@.stack.len() + 2 * T::depth() <= i64::MAX as int,
            T::can_read(old(self).state@.tables, old(self).state@.stack.last()),
        ensures
            final(self).state@.wf(),
            final(self).state@.tables == old(self).state@.tables,
            final(self).state@.stack == old(self).state@.stack.drop_last(),
            T::reads(old(self).state@.tables, old(self).state@.stack.last(), r.deep_view()),
    {
        proof {
            assert(old(self).state@.read_at(-1) == old(self).state@.stack.last());
        }
        let r: T = self.i_to(-1);
        self.state.pop(1);
        proof {
            assert(old(self).state@.stack.take(old(self).state@.stack.len() - 1)
                =~= old(self).state@.stack.drop_last());
        }
        r
    }

    /// Resolve step of the call protocol: looks the name up among the
    /// globals and pushes the callable it names.  A name bound to
    /// anything but a callable is the script author's mistake, reported
    /// as a syntax-class error with the stack left unchanged.
    pub fn begin_call(&mut self, name: &str) -> (r: Result<(), LuaErr>)
        requires
            old(self).state@.wf(),
        ensures
            final(self).state@.wf(),
            final(self).state@.tables == old(self).state@.tables,
            match r {
                Ok(()) => (global_of(old(self).state@, name@) matches SVal::Fn(_)) && final(self).state@.stack == old(self).state@.stack.push(global_of(old(self).state@, name@)),
                Err(e) => !(global_of(old(self).state@, name@) matches SVal::Fn(_)) && final(self).state@.stack == old(self).state@.stack && e@ == SErr::Syntax(
                    "unknown function "@ + name@,
                ),
            },
    {
        self.state.get_global(name);
        match self.state.index_type(-1) {
            LuaType::TFunction => Ok(()),
            _ => {
                self.state.pop(1);
                proof {
                    assert(final(self).state@.stack =~= old(self).state@.stack);
                }
                let mut m = <String as vstd::string::StringExecFns>::from_str("unknown function ");
                <String as vstd::string::StringExecFns>::append(&mut m, name);
                Err(LuaErr::Syntax(m))
            },
        }
    }

    /// Resolve step of the call protocol for a dotted name path: walks
    /// nested tables from the globals table and pushes the callable the
    /// path names.  An intermediate segment naming anything but a table
    /// is caller misuse; a final segment naming anything but a callable
    /// is the script author's mistake, reported as a syntax-class error
    /// with the stack left unchanged.
    pub fn begin_call_path(&mut self, path: &Vec<String>) -> (r: Result<(), LuaErr>)
        requires
            old(self).state@.wf(),
            path.deep_view().len() >= 1,
            path_tables_ok(old(self).state@.tables, path.deep_view().drop_last()),
        ensures
            final(self).state@.wf(),
            final(self).state@.tables == old(self).state@.tables,
            ({
                let v = path_value(old(self).state@.tables, path.deep_view());
                match r {
                    Ok(()) => (v matches SVal::Fn(_)) && final(self).state@.stack == old(
                        self,
                    ).state@.stack.push(v),
                    Err(e) => !(v matches SVal::Fn(_)) && final(self).state@.stack == old(
                        self,
                    ).state@.stack && e@ == SErr::Syntax(
                        "unknown function "@ + dotted(path.deep_view()),
                    ),
                }
            }),
    {
        let ghost pre = self.state@;
        let ghost tabs = pre.tables;
        let ghost segs = path.deep_view();
        self.state.get_global(path[0].as_str());
        let mut acc = path[0].clone();
        proof {
            assert(segs.take(1).drop_last() =~= segs.take(0));
            assert(segs[0] == path@[0].deep_view());
            assert(segs.take(1).last() == segs[0]);
            assert(segs.take(0).len() == 0);
            assert(path_value(tabs, segs.take(0)) == SVal::Table(0));
            assert(is_table_in(tabs, SVal::Table(0)));
            assert(path_value(tabs, segs.take(1)) == tbl_get(tabs[0], SVal::Str(segs[0])));
            assert(self.state@.stack =~= pre.stack.push(path_value(tabs, segs.take(1))));
            assert(acc@ == dotted(segs.take(1)));
        }
        let mut k: usize = 1;
        while k < path.len()
            invariant
                pre == old(self).state@,
                self.state@.wf(),
                self.state@.tables == tabs,
                pre.wf(),
                tabs == pre.tables,
                segs == path.deep_view(),
                segs.len() == path.len(),
                path_tables_ok(tabs, segs.drop_last()),
                1 <= k <= segs.len(),
                self.state@.stack =~= pre.stack.push(path_value(tabs, segs.take(k as int))),
                acc@ == dotted(segs.take(k as int)),
            decreases path.len() - k,
        {
            proof {
                assert(segs.drop_last().take(k as int) =~= segs.take(k as int));
                assert(is_table_in(tabs, path_value(tabs, segs.drop_last().take(k as int))));
                assert(self.state@.read_at(-1) == path_value(tabs, segs.take(k as int)));
                assert(segs.take(k + 1).drop_last() =~= segs.take(k as int));
            }
            self.state.get_field(-1, path[k].as_str());
            self.state.remove(-2);
            <String as vstd::string::StringExecFns>::append(&mut acc, ".");
            <String as vstd::string::StringExecFns>::append(&mut acc, path[k].as_str());
            proof {
                assert(self.state@.stack =~= pre.stack.push(path_value(tabs, segs.take(k + 1))));
            }
            k += 1;
        }
        proof {
            assert(segs.take(segs.len() as int) =~= segs);
        }
        match self.state.index_type(-1) {
            LuaType::TFunction => Ok(()),
            _ => {
                self.state.pop(1);
                proof {
                    assert(final(self).state@.stack =~= pre.stack);
                }
                let mut m = <String as vstd::string::StringExecFns>::from_str("unknown function ");
                <String as vstd::string::StringExecFns>::append(&mut m, acc.as_str());
                Err(LuaErr::Syntax(m))
            },
        }
    }

    /// Calls the global callable `name` with one argument, expecting one
    /// result.  Whatever the callable did, the stack is restored to its
    /// height before the call.  A syntax-class error reports exactly an
    /// unresolved name; everything else the callable raises, and a result
    /// the declared type cannot read, is a runtime-class error.  The
    /// decode step carries the result contract: on a success status it
    /// returns `Ok` exactly when the result slot is readable at `R`, with
    /// the value that slot reads as.
    pub fn call1<A: LuaPush, R: LuaTo, H: Host>(
        &mut self,
        name: &str,
        a: &A,
        host: &H,
    ) -> (r: Result<R, LuaErr>)
        requires
            old(self).state@.wf(),
            a.pushable(),
            old(self).state@.stack.len() + 2 + 2 * R::depth() <= i64::MAX as int,
        ensures
            final(self).state@.wf(),
            final(self).state@.stack == old(self).state@.stack,
            !(global_of(old(self).state@, name@) matches SVal::Fn(_)) <==> (r matches Err(e)
                && e@ matches SErr::Syntax(_)),
            match r {
                Ok(_) => true,
                Err(e) => e@ == SErr::Syntax("unknown function "@ + name@) || e@ matches
                    SErr::Runtime(_),
            },
    {
        let ghost pre = self.state@;
        match self.begin_call(name) {
            Err(e) => Err(e),
            Ok(()) => {
                let ghost s1 = self.state@;
                a.lua_push(&mut self.state);
                let ghost s2 = self.state@;
                let status = self.state.pcall(1, 1, 0, host);
                proof {
                    assert(s2.stack[s2.stack.len() - 2] == s1.stack[s1.stack.len() - 1]);
                    assert forall|q: int|
                        0 <= q < pre.stack.len() implies self.state@.stack[q] == #[trigger] pre.stack[q] by {
                        assert(s2.stack[q] == s1.stack[q]);
                        assert(self.state@.stack[q] == s2.stack[q]);
                    }
                }
                self.decode_call(status, Ghost(pre))
            },
        }
    }

    /// Calls the global callable `name` with two arguments, expecting one
    /// result, with the same guarantees as the one-argument form.
    pub fn call2<A: LuaPush, B: LuaPush, R: LuaTo, H: Host>(
        &mut self,
        name: &str,
        a: &A,
        b: &B,
        host: &H,
    ) -> (r: Result<R, LuaErr>)
        requires
            old(self).state@.wf(),
            a.pushable(),
            b.pushable(),
            old(self).state@.stack.len() + 3 + 2 * R::depth() <= i64::MAX as int,
        ensures
            final(self).state@.wf(),
            final(self).state@.stack == old(self).state@.stack,
            !(global_of(old(self).state@, name@) matches SVal::Fn(_)) <==> (r matches Err(e)
                && e@ matches SErr::Syntax(_)),
            match r {
                Ok(_) => true,
                Err(e) => e@ == SErr::Syntax("unknown function "@ + name@) || e@ matches
                    SErr::Runtime(_),
            },
    {
        let ghost pre = self.state@;
        match self.begin_call(name) {
            Err(e) => Err(e),
            Ok(()) => {
                let ghost s1 = self.state@;
                a.lua_push(&mut self.state);
                let ghost s2 = self.state@;
                b.lua_push(&mut self.state);
                let ghost s3 = self.state@;
                let status = self.state.pcall(2, 1, 0, host);
                proof {
                    assert(s3.stack[s3.stack.len() - 3] == s1.stack[s1.stack.len() - 1]);
                    assert forall|q: int|
                        0 <= q < pre.stack.len() implies self.state@.stack[q] == #[trigger] pre.stack[q] by {
                        assert(s2.stack[q] == s1.stack[q]);
                        assert(s3.stack[q] == s2.stack[q]);
                        assert(self.state@.stack[q] == s3.stack[q]);
                    }
                }
                self.decode_call(status, Ghost(pre))
            },
        }
    }

    /// Calls the global callable `name` with two arguments and no result,
    /// restoring the stack height; reports the same errors as the
    /// result-bearing forms.
    pub fn call2_void<A: LuaPush, B: LuaPush, H: Host>(
        &mut self,
        name: &str,
        a: &A,
        b: &B,
        host: &H,
    ) -> (r: Option<LuaErr>)
        requires
            old(self).state@.wf(),
            a.pushable(),
            b.pushable(),
        ensures
            final(self).state@.wf(),
            final(self).state@.stack == old(self).state@.stack,
            !(global_of(old(self).state@, name@) matches SVal::Fn(_)) <==> (r matches Some(e)
                && e@ matches SErr::Syntax(_)),
            match r {
                None => true,
                Some(e) => e@ == SErr::Syntax("unknown function "@ + name@) || e@ matches
                    SErr::Runtime(_),
            },
    {
        let ghost pre = self.state@;
        match self.begin_call(name) {
            Err(e) => Some(e),
            Ok(()) => {
                let ghost s1 = self.state@;
                a.lua_push(&mut self.state);
                let ghost s2 = self.state@;
                b.lua_push(&mut self.state);
                let ghost s3 = self.state@;
                let status = self.state.pcall(2, 0, 0, host);
                proof {
                    assert(s3.stack[s3.stack.len() - 3] == s1.stack[s1.stack.len() - 1]);
                    assert forall|q: int|
                        0 <= q < pre.stack.len() implies self.state@.stack[q] == #[trigger] pre.stack[q] by {
                        assert(s2.stack[q] == s1.stack[q]);
                        assert(s3.stack[q] == s2.stack[q]);
                        assert(self.state@.stack[q] == s3.stack[q]);
                    }
                }
                match status {
                    Some(e) => {
                        let ghost s4 = self.state@;
                        self.state.pop(1);
                        proof {
                            assert forall|q: int|
                                0 <= q < pre.stack.len() implies self.state@.stack[q]
                                == #[trigger] pre.stack[q] by {
                                assert(self.state@.stack[q] == s4.stack[q]);
                            }
                            assert(self.state@.stack =~= pre.stack);
                        }
                        Some(e)
                    },
                    None => {
                        proof {
                            assert(self.state@.stack =~= pre.stack);
                        }
                        None
                    },
                }
            },
        }
    }

    /// Decode step of the call protocol: after a protected call made with
    /// one expected result, reads the result or takes the classified
    /// error, and truncates the stack back to the recorded height.  On a
    /// success status the read is pinned: the call returns `Ok` exactly
    /// when the result slot is readable at the declared type, carrying
    /// what that slot reads as, and the mismatch error exactly when it is
    /// not; a failure status is passed through unchanged.
    fn decode_call<R: LuaTo>(&mut self, status: Option<LuaErr>, Ghost(pre): Ghost<
        crate::state::StateView,
    >) -> (r: Result<R, LuaErr>)
        requires
            old(self).state@.wf(),
            old(self).state@.stack.len() == pre.stack.len() + 1,
            forall|q: int|
                0 <= q < pre.stack.len() ==> old(self).state@.stack[q] == #[trigger] pre.stack[q],
            pre.stack.len() + 1 + 2 * R::depth() <= i64::MAX as int,
            status matches Some(e) ==> e@ matches SErr::Runtime(_),
        ensures
            final(self).state@.wf(),
            final(self).state@.tables == old(self).state@.tables,
            final(self).state@.stack == pre.stack,
            match r {
                Ok(x) => status is None && R::can_read(
                    old(self).state@.tables,
                    old(self).state@.stack.last(),
                ) && R::reads(
                    old(self).state@.tables,
                    old(self).state@.stack.last(),
                    x.deep_view(),
                ),
                Err(e) => match status {
                    Some(e0) => e@ == e0@,
                    None => !R::can_read(old(self).state@.tables, old(self).state@.stack.last())
                        && e@ == SErr::Runtime("call result has unexpected type"@),
                },
            },
    {
        match status {
            Some(e) => {
                self.state.pop(1);
                proof {
                    assert(self.state@.stack =~= pre.stack);
                }
                Err(e)
            },
            None => {
                let out = match R::lua_to(&mut self.state, -1) {
                    Some(x) => Ok(x),
                    None => Err(
                        LuaErr::Runtime(
                            <String as vstd::string::StringExecFns>::from_str(
                                "call result has unexpected type",
                            ),
                        ),
                    ),
                };
                self.state.pop(1);
                proof {
                    assert(self.state@.stack =~= pre.stack);
                }
                out
            },
        }
    }
}

impl Lua {
    /// Describes the slot an index reads, as the runtime handle does.
    pub fn index_str(&self, i: i64) -> (r: String)
        requires
            self.state@.wf(),
        ensures
            r@ == crate::state::spec_index_str(self.state@, i as int),
    {
        self.state.index_str(i)
    }

    /// Pushes the global named `name`, or nil.
    pub fn get_global(&mut self, name: &str)
        requires
            old(self).state@.wf(),
        ensures
            final(self).state@.wf(),
            final(self).state@.tables == old(self).state@.tables,
            final(self).state@.stack == old(self).state@.stack.push(
                global_of(old(self).state@, name@),
            ),
    {
        self.state.get_global(name)
    }

    /// Creates a fresh empty table and pushes it.
    pub fn new_table(&mut self)
        requires
            old(self).state@.wf(),
        ensures
            final(self).state@.wf(),
            final(self).state@.tables == old(self).state@.tables.push(Seq::empty()),
            final(self).state@.stack == old(self).state@.stack.push(
                SVal::Table(old(self).state@.tables.len() as int),
            ),
    {
        self.state.new_table()
    }

    /// Classifies a native status code, as the runtime handle does.
    pub fn maybe_err(&self, errn: i64) -> (r: Option<LuaErr>)
        requires
            self.state@.wf(),
            errn != 0 ==> self.state@.stack.len() >= 1 && self.state@.stack.last() matches SVal::Str(
                _,
            ),
        ensures
            match r {
                None => errn == 0,
                Some(e) => errn != 0 && e@ == crate::state::classify(
                    errn as int,
                    self.state@.stack.last()->Str_0,
                ),
            },
    {
        self.state.maybe_err(errn)
    }

    /// Classifies a nonzero native status code, as the runtime handle
    /// does.
    pub fn pop_err(&self, errn: i64) -> (r: LuaErr)
        requires
            self.state@.wf(),
            errn != 0,
            self.state@.stack.len() >= 1,
            self.state@.stack.last() matches SVal::Str(_),
        ensures
            r@ == crate::state::classify(errn as int, self.state@.stack.last()->Str_0),
    {
        self.state.pop_err(errn)
    }
}

/// A handle on a table being filled with named definitions: the module
/// builder of the host-facing surface.
pub struct LuaModule {
    /// The 1-based absolute stack slot of the table under construction.
    pub table_i: i64,
}

impl Lua {
    /// Begins a module: creates its table and hands back a builder for
    /// it.  Finish with `module_end`, defining entries in between.
    pub fn module(&mut self) -> (m: LuaModule)
        requires
            old(self).state@.wf(),
            old(self).state@.stack.len() + 1 <= i64::MAX as int,
        ensures
            final(self).state@.wf(),
            final(self).state@.tables == old(self).state@.tables.push(Seq::empty()),
            final(self).state@.stack == old(self).state@.stack.push(
                SVal::Table(old(self).state@.tables.len() as int),
            ),
            m.table_i as int == final(self).state@.stack.len(),
    {
        self.state.new_table();
        let m = LuaModule { table_i: self.state.get_top() as i64 };
        m
    }

    /// Ends a module: pops its table and binds it as the global `name`.
    pub fn module_end(&mut self, m: LuaModule, name: &str)
        requires
            old(self).state@.wf(),
            old(self).state@.stack.len() >= 1,
        ensures
            final(self).state@.wf(),
            final(self).state@.stack == old(self).state@.stack.drop_last(),
            final(self).state@.tables == old(self).state@.tables.update(
                0,
                crate::state::tbl_set(
                    old(self).state@.tables[0],
                    SVal::Str(name@),
                    old(self).state@.stack.last(),
                ),
            ),
    {
        let _ = m;
        self.state.set_global(name)
    }
}

impl LuaModule {
    /// Defines `name = val` in the module's table: the table gains the
    /// binding of `name` to the value's serialization; the stack and
    /// every other pre-existing table are untouched.
    pub fn def<T: LuaPush>(&self, lua: &mut Lua, name: &str, val: T)
        requires
            old(lua).state@.wf(),
            val.pushable(),
            1 <= (self.table_i as int) <= old(lua).state@.stack.len(),
            old(lua).state@.stack[self.table_i - 1] matches SVal::Table(_),
        ensures
            final(lua).state@.wf(),
            final(lua).state@.stack == old(lua).state@.stack,
            old(lua).state@.tables.len() <= final(lua).state@.tables.len(),
            forall|j: int|
                0 <= j < old(lua).state@.tables.len() && j != old(lua).state@.table_id_at(
                    self.table_i as int,
                ) ==> final(lua).state@.tables[j] == #[trigger] old(lua).state@.tables[j],
            exists|v: SVal|
                {
                    &&& #[trigger] T::rep(
                        final(lua).state@.tables,
                        v,
                        val.deep_view(),
                        old(lua).state@.tables.len() as int,
                    )
                    &&& final(lua).state@.tables[old(lua).state@.table_id_at(self.table_i as int)]
                        == crate::state::tbl_set(
                        old(lua).state@.tables[old(lua).state@.table_id_at(self.table_i as int)],
                        SVal::Str(name@),
                        v,
                    )
                },
    {
        let ghost pre = lua.state@;
        let ghost mid = pre.table_id_at(self.table_i as int);
        lua.push(<String as vstd::string::StringExecFns>::from_str(name));
        let ghost s1 = lua.state@;
        val.lua_push(&mut lua.state);
        let ghost s2 = lua.state@;
        let ghost vslot = s2.stack.last();
        proof {
            assert(s1.stack.last() == SVal::Str(name@));
            assert(s2.stack[s2.stack.len() - 2] == s1.stack[s1.stack.len() - 1]);
            assert(s2.stack[self.table_i - 1] == pre.stack[self.table_i - 1]);
            assert(s2.read_at(self.table_i as int) matches SVal::Table(_));
            assert(s2.table_id_at(self.table_i as int) == mid);
            assert(0 <= mid < pre.tables.len());
            assert(s1.tables[mid] == pre.tables[mid]);
            assert(s2.tables[mid] == s1.tables[mid]);
            T::rep_weaken(
                s2.tables,
                vslot,
                val.deep_view(),
                s1.tables.len() as int,
                pre.tables.len() as int,
            );
        }
        lua.state.raw_set(self.table_i);
        proof {
            assert(lua.state@.stack =~= pre.stack);
            T::rep_frame(
                s2.tables,
                lua.state@.tables,
                vslot,
                val.deep_view(),
                pre.tables.len() as int,
            );
            assert(lua.state@.tables[mid] == crate::state::tbl_set(
                pre.tables[mid],
                SVal::Str(name@),
                vslot,
            ));
            assert forall|j: int|
                0 <= j < pre.tables.len() && j != mid implies lua.state@.tables[j]
                == #[trigger] pre.tables[j] by {
                assert(s1.tables[j] == pre.tables[j]);
                assert(s2.tables[j] == s1.tables[j]);
                assert(lua.state@.tables[j] == s2.tables[j]);
            }
        }
    }

    /// Begins a nested namespace inside this module: creates its table
    /// and hands back a builder for it.  Finish with `namespace_end`.
    pub fn namespace(&self, lua: &mut Lua) -> (m: LuaModule)
        requires
            old(lua).state@.wf(),
            old(lua).state@.stack.len() + 1 <= i64::MAX as int,
        ensures
            final(lua).state@.wf(),
            final(lua).state@.tables == old(lua).state@.tables.push(Seq::empty()),
            final(lua).state@.stack == old(lua).state@.stack.push(
                SVal::Table(old(lua).state@.tables.len() as int),
            ),
            m.table_i as int == final(lua).state@.stack.len(),
    {
        lua.state.new_table();
        LuaModule { table_i: lua.state.get_top() as i64 }
    }

    /// Ends a nested namespace: pops its table and binds it as `name` in
    /// this module's table, which gains exactly that binding.
    pub fn namespace_end(&self, lua: &mut Lua, m: LuaModule, name: &str)
        requires
            old(lua).state@.wf(),
            old(lua).state@.stack.len() >= 1,
            1 <= (self.table_i as int) < old(lua).state@.stack.len(),
            old(lua).state@.stack[self.table_i - 1] matches SVal::Table(_),
        ensures
            final(lua).state@.wf(),
            final(lua).state@.stack == old(lua).state@.stack.drop_last(),
            final(lua).state@.tables == old(lua).state@.tables.update(
                old(lua).state@.table_id_at(self.table_i as int),
                crate::state::tbl_set(
                    old(lua).state@.tables[old(lua).state@.table_id_at(self.table_i as int)],
                    SVal::Str(name@),
                    old(lua).state@.stack.last(),
                ),
            ),
    {
        let _ = m;
        proof {
            assert(old(lua).state@.read_at(self.table_i as int) matches SVal::Table(_));
        }
        lua.state.set_field(self.table_i, name)
    }
}

} // verus!

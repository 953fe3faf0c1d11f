// The call protocol, host-registered callables, and the error taxonomy.

use lua::convert::LuaPush;
use lua::convert::LuaTo;
use lua::convert::LuaFn;
use lua::state::State;
use lua::Host;
use lua::KvMap;
use lua::Lua;
use lua::LuaErr;
use lua::New;

const FID_ADD: u64 = 1;
const FID_CONCAT: u64 = 2;
const FID_NORET: u64 = 3;
const FID_RAISE: u64 = 4;
const FID_REVERSEPLUS: u64 = 5;
const FID_SWAPPER: u64 = 6;
const FID_SUM_FLOATS: u64 = 7;
const FID_CALL_FUNC: u64 = 8;
const FID_TWO_RESULTS: u64 = 9;

// The suite's host: each token is one callable, written against the
// runtime's calling convention — arguments are the whole stack of the
// frame, results are left on top and counted in the return value.
struct Suite;

impl Host for Suite {
    fn invoke(&self, st: &mut State, fid: u64) -> Result<usize, String> {
        match fid {
            FID_ADD => {
                let a = st.to_int(1);
                let b = st.to_int(2);
                st.push_int(a + b);
                Ok(1)
            }
            FID_CONCAT => {
                let mut a = st.to_str(1);
                let b = st.to_str(2);
                a.push_str(&b);
                st.push_str(&a);
                Ok(1)
            }
            FID_NORET => Ok(0),
            FID_RAISE => Err(String::from("boom")),
            FID_REVERSEPLUS => {
                let arr: Vec<u64> = <Vec<u64> as LuaTo>::lua_to(st, 1).unwrap();
                let p = st.to_int(2) as f64;
                let mut out: Vec<u64> = Vec::new();
                for bits in arr.iter().rev() {
                    out.push((f64::from_bits(*bits) + p).to_bits());
                }
                out.lua_push(st);
                Ok(1)
            }
            FID_SWAPPER => {
                let m: KvMap<String, u64> = <KvMap<String, u64> as LuaTo>::lua_to(st, 1).unwrap();
                let mut swapped: KvMap<u64, String> = KvMap::new();
                for (k, v) in m.pairs().iter() {
                    swapped.insert(*v, k.clone());
                }
                swapped.lua_push(st);
                Ok(1)
            }
            FID_SUM_FLOATS => {
                let argn = st.get_top();
                let mut sum = 0.0f64;
                let mut i: i64 = 1;
                while i <= argn as i64 {
                    sum += f64::from_bits(st.to_num(i));
                    i += 1;
                }
                st.push_num(sum.to_bits());
                Ok(1)
            }
            FID_CALL_FUNC => {
                // callFunc(f) = f(15.5, 16.6, 18.2): the frame's one
                // argument is the callable, already at the stack bottom.
                st.push_num(15.5f64.to_bits());
                st.push_num(16.6f64.to_bits());
                st.push_num(18.2f64.to_bits());
                match st.pcall(3, 1, 0, self) {
                    None => Ok(1),
                    Some(e) => Err(e.message().clone()),
                }
            }
            FID_TWO_RESULTS => {
                st.push_int(1);
                st.push_int(2);
                Ok(2)
            }
            _ => Err(String::from("no such callable")),
        }
    }
}

fn register(lua: &mut Lua, name: &str, fid: u64) {
    lua.state.push_function(fid);
    lua.state.set_global(name);
}

#[test]
fn test_add() {
    let mut lua = New();
    register(&mut lua, "add", FID_ADD);
    let r: Result<i64, LuaErr> = lua.call2("add", &20i64, &15i64, &Suite);
    assert_eq!(r.unwrap(), 35);
    assert_eq!(lua.state.get_top(), 0);
}

#[test]
fn test_concat() {
    let mut lua = New();
    register(&mut lua, "concat", FID_CONCAT);
    let r: Result<String, LuaErr> =
        lua.call2("concat", &String::from("foo"), &String::from("bar"), &Suite);
    assert_eq!(r.unwrap(), "foobar");
    assert_eq!(lua.state.get_top(), 0);
}

#[test]
fn test_noret() {
    let mut lua = New();
    register(&mut lua, "noret", FID_NORET);
    let r = lua.call2_void("noret", &12i64, &48.23f64.to_bits(), &Suite);
    assert!(r.is_none());
    assert_eq!(lua.state.get_top(), 0);
}

#[test]
fn test_reverseplus() {
    let mut lua = New();
    register(&mut lua, "reverseplus", FID_REVERSEPLUS);
    let input: Vec<u64> = vec![
        10.5f64.to_bits(),
        5.2f64.to_bits(),
        20.9f64.to_bits(),
    ];
    let result = [30.9f64, 15.2, 20.5];
    let ret: Vec<u64> = lua.call2("reverseplus", &input, &10i64, &Suite).unwrap();
    assert_eq!(result.len(), ret.len());
    assert_eq!(lua.state.get_top(), 0);
    let mut i = 0;
    while i < ret.len() {
        assert_eq!(f64::from_bits(ret[i]), result[i]);
        i += 1;
    }
}

#[test]
fn test_swapper() {
    let mut lua = New();
    register(&mut lua, "swapper", FID_SWAPPER);
    let mut m: KvMap<String, u64> = KvMap::new();
    m.insert(String::from("foi"), 1.01f64.to_bits());
    m.insert(String::from("tats"), 74.75f64.to_bits());
    m.insert(String::from("sis"), 51.5f64.to_bits());
    let ret: KvMap<u64, String> = lua.call1("swapper", &m, &Suite).unwrap();
    assert_eq!(lua.state.get_top(), 0);
    assert_eq!(*ret.get(&1.01f64.to_bits()).unwrap(), "foi");
    assert_eq!(*ret.get(&74.75f64.to_bits()).unwrap(), "tats");
    assert_eq!(*ret.get(&51.5f64.to_bits()).unwrap(), "sis");
}

#[test]
fn test_lua_closure() {
    let mut lua = New();
    register(&mut lua, "add", FID_ADD);
    register(&mut lua, "concat", FID_CONCAT);

    let s: Vec<i64> = vec![30, 10, 20];
    let mut acc: i64 = 0;
    for x in s.iter() {
        acc = lua.call2("add", &acc, x, &Suite).unwrap();
    }
    assert_eq!(acc, 60);
    assert_eq!(lua.state.get_top(), 0);

    let foobar: String = lua
        .call2("concat", &String::from("foo"), &String::from("bar"), &Suite)
        .unwrap();
    assert_eq!(lua.state.get_top(), 0);
    assert_eq!(foobar, "foobar");
}

#[test]
fn test_push_function() {
    let mut lua = New();
    register(&mut lua, "callFunc", FID_CALL_FUNC);
    let result: u64 = lua.call1("callFunc", &LuaFn(FID_SUM_FLOATS), &Suite).unwrap();
    assert_eq!(f64::from_bits(result), 15.5 + 16.6 + 18.2);
    assert_eq!(lua.state.get_top(), 0);
}

#[test]
fn test_lua_cb() {
    // The same protocol with the callable passed by value slot: pushing
    // the function reference and calling through the resolved global.
    let mut lua = New();
    register(&mut lua, "callFunc", FID_CALL_FUNC);
    lua.push(LuaFn(FID_SUM_FLOATS));
    lua.state.set_global("cb");
    lua.state.get_global("cb");
    let cb_slot = lua.state.index_type(-1);
    assert_eq!(cb_slot, lua::LuaType::TFunction);
    lua.state.pop(1);
    let result: u64 = lua.call1("callFunc", &LuaFn(FID_SUM_FLOATS), &Suite).unwrap();
    assert_eq!(f64::from_bits(result), 15.5 + 16.6 + 18.2);
    assert_eq!(lua.state.get_top(), 0);
}

#[test]
fn test_unknown_function_is_syntax_error() {
    let mut lua = New();
    let r: Result<i64, LuaErr> = lua.call2("add", &20i64, &15i64, &Suite);
    match r {
        Err(LuaErr::Syntax(m)) => assert_eq!(m, "unknown function add"),
        _ => panic!("expected a syntax-class error"),
    }
    assert_eq!(lua.state.get_top(), 0);
}

#[test]
fn test_non_callable_global_is_syntax_error() {
    let mut lua = New();
    lua.state.push_int(7);
    lua.state.set_global("add");
    let r: Result<i64, LuaErr> = lua.call2("add", &20i64, &15i64, &Suite);
    match r {
        Err(LuaErr::Syntax(m)) => assert_eq!(m, "unknown function add"),
        _ => panic!("expected a syntax-class error"),
    }
    assert_eq!(lua.state.get_top(), 0);
}

#[test]
fn test_raised_error_is_runtime_error() {
    let mut lua = New();
    register(&mut lua, "fail", FID_RAISE);
    let before = lua.state.get_top();
    let r: Result<i64, LuaErr> = lua.call2("fail", &1i64, &2i64, &Suite);
    match r {
        Err(LuaErr::Runtime(m)) => assert_eq!(m, "boom"),
        _ => panic!("expected a runtime-class error"),
    }
    assert_eq!(lua.state.get_top(), before);
}

#[test]
fn test_pcall_non_function_slot() {
    let mut lua = New();
    lua.state.push_int(3);
    let r = lua.state.pcall(0, 0, 0, &Suite);
    match r {
        Some(LuaErr::Runtime(m)) => {
            assert_eq!(m, "attempt to call a non-function value")
        }
        _ => panic!("expected a runtime-class error"),
    }
    // The failed call leaves its message on top; popping it restores the
    // pre-call height.
    lua.state.pop(1);
    assert_eq!(lua.state.get_top(), 0);
}

#[test]
fn test_status_codes_classify() {
    let mut lua = New();
    lua.state.push_str("m");
    assert!(matches!(lua.pop_err(1), LuaErr::Yield(_)));
    assert!(matches!(lua.pop_err(2), LuaErr::Runtime(_)));
    assert!(matches!(lua.pop_err(3), LuaErr::Syntax(_)));
    assert!(matches!(lua.pop_err(4), LuaErr::MemAlloc(_)));
    assert!(matches!(lua.pop_err(5), LuaErr::ErrFunc(_)));
    assert!(matches!(lua.pop_err(7), LuaErr::Unknown(_)));
    assert!(lua.maybe_err(0).is_none());
    assert!(matches!(lua.maybe_err(2), Some(LuaErr::Runtime(_))));
}

#[test]
fn test_module_defines_globals() {
    let mut lua = New();
    let m = lua.module();
    m.def(&mut lua, "answer", 42i64);
    m.def(&mut lua, "greeting", String::from("hi"));
    let ns = m.namespace(&mut lua);
    ns.def(&mut lua, "inner", 7i64);
    m.namespace_end(&mut lua, ns, "nested");
    lua.module_end(m, "config");
    assert_eq!(lua.state.get_top(), 0);

    lua.state.get_global("config");
    lua.state.get_field(-1, "answer");
    let a: i64 = lua.pop();
    assert_eq!(a, 42);
    lua.state.get_field(-1, "greeting");
    let g: String = lua.pop();
    assert_eq!(g, "hi");
    lua.state.get_field(-1, "nested");
    lua.state.get_field(-1, "inner");
    let i: i64 = lua.pop();
    assert_eq!(i, 7);
    lua.state.pop(2);
    assert_eq!(lua.state.get_top(), 0);
}

#[test]
fn test_error_and_kind_descriptions() {
    let mut lua = New();
    lua.state.push_str("oops");
    assert_eq!(lua.pop_err(2).to_str(), "Lua runtime error: oops");
    assert_eq!(lua.pop_err(3).to_str(), "Lua syntax error: oops");
    assert_eq!(lua.pop_err(9).to_str(), "Lua error: oops");
    assert_eq!(lua::LuaType::TBoolean.to_str(), "boolean");
    assert_eq!(lua::LuaType::TUnknown(-3).to_str(), "unknown: -3");
}

#[test]
fn test_call_keeps_first_result() {
    // A callable that leaves two results: adjusting to the one expected
    // result keeps the first one it returned.
    let mut lua = New();
    register(&mut lua, "two", FID_TWO_RESULTS);
    let r: i64 = lua.call2("two", &0i64, &0i64, &Suite).unwrap();
    assert_eq!(r, 1);
    assert_eq!(lua.state.get_top(), 0);
}

#[test]
fn test_dotted_path_resolution() {
    // A callable nested in tables resolves by its dotted path; the decode
    // step restores the recorded height on success and on failure.
    let mut lua = New();
    let m = lua.module();
    let ns = m.namespace(&mut lua);
    ns.def(&mut lua, "plus", lua::LuaFn(FID_ADD));
    m.namespace_end(&mut lua, ns, "math");
    lua.module_end(m, "util");
    assert_eq!(lua.state.get_top(), 0);

    let path = vec![
        String::from("util"),
        String::from("math"),
        String::from("plus"),
    ];
    let base = lua.state.get_top();
    assert!(lua.begin_call_path(&path).is_ok());
    lua.state.push_int(2);
    lua.state.push_int(3);
    let status = lua.state.pcall(2, 1, 0, &Suite);
    assert!(status.is_none());
    let sum: i64 = lua.pop();
    assert_eq!(sum, 5);
    assert_eq!(lua.state.get_top(), base);

    let missing = vec![String::from("util"), String::from("math"), String::from("nope")];
    match lua.begin_call_path(&missing) {
        Err(LuaErr::Syntax(msg)) => assert_eq!(msg, "unknown function util.math.nope"),
        _ => panic!("expected a syntax-class error"),
    }
    assert_eq!(lua.state.get_top(), base);
}

#[test]
fn test_module_def_binds_value() {
    // The module builder's binding contract: after def, reading the name
    // back from the module's table yields the defined value.
    let mut lua = New();
    let m = lua.module();
    m.def(&mut lua, "limit", 99i64);
    lua.module_end(m, "settings");
    lua.state.get_global("settings");
    lua.state.get_field(-1, "limit");
    let limit: i64 = lua.pop();
    assert_eq!(limit, 99);
    lua.state.pop(1);
    assert_eq!(lua.state.get_top(), 0);
}

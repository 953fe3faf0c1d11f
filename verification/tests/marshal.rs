// Round trips and slot descriptions for the conversion protocol.

use lua::convert::push_then_read;
use lua::convert::LuaPush;
use lua::convert::LuaTo;
use lua::state::i64_dec;
use lua::state::u64_dec;
use lua::state::NewState;
use lua::state::LUA_GLOBALSINDEX;
use lua::KvMap;
use lua::LuaType;
use lua::New;

#[test]
fn test_scalar_int_roundtrip() {
    let mut st = NewState();
    let r: i64 = push_then_read(&mut st, &42i64);
    assert_eq!(r, 42);
    assert_eq!(st.get_top(), 1);
    st.pop(1);
    assert_eq!(st.get_top(), 0);
}

#[test]
fn test_scalar_bool_roundtrip() {
    let mut st = NewState();
    let t: bool = push_then_read(&mut st, &true);
    let f: bool = push_then_read(&mut st, &false);
    assert!(t);
    assert!(!f);
    assert_eq!(st.get_top(), 2);
}

#[test]
fn test_scalar_string_roundtrip() {
    let mut st = NewState();
    let r: String = push_then_read(&mut st, &String::from("hello stack"));
    assert_eq!(r, "hello stack");
}

#[test]
fn test_scalar_float_roundtrip() {
    let mut st = NewState();
    for x in [0.0f64, -1.5, 3.14159, 1.0e300, -0.0] {
        let r: u64 = push_then_read(&mut st, &x.to_bits());
        assert_eq!(f64::from_bits(r), x);
    }
}

#[test]
fn test_sequence_roundtrip() {
    let mut st = NewState();
    let v: Vec<i64> = vec![7, -3, 0, 99];
    let r: Vec<i64> = push_then_read(&mut st, &v);
    assert_eq!(r, v);
    let s: Vec<String> = vec![String::from("a"), String::from("bb"), String::from("")];
    let rs: Vec<String> = push_then_read(&mut st, &s);
    assert_eq!(rs, s);
}

#[test]
fn test_nested_sequence_roundtrip() {
    let mut st = NewState();
    let v: Vec<Vec<i64>> = vec![vec![1, 2], vec![], vec![3]];
    let r: Vec<Vec<i64>> = push_then_read(&mut st, &v);
    assert_eq!(r, v);
}

#[test]
fn test_empty_sequence_roundtrip() {
    let mut st = NewState();
    let v: Vec<i64> = Vec::new();
    let r: Vec<i64> = push_then_read(&mut st, &v);
    assert_eq!(r, v);
    assert_eq!(st.get_top(), 1);
}

#[test]
fn test_map_roundtrip() {
    let mut st = NewState();
    let mut m: KvMap<String, u64> = KvMap::new();
    m.insert(String::from("foi"), 1.01f64.to_bits());
    m.insert(String::from("tats"), 74.75f64.to_bits());
    m.insert(String::from("sis"), 51.5f64.to_bits());
    let r: KvMap<String, u64> = push_then_read(&mut st, &m);
    assert_eq!(r.len(), 3);
    assert_eq!(
        f64::from_bits(*r.get(&String::from("foi")).unwrap()),
        1.01
    );
    assert_eq!(
        f64::from_bits(*r.get(&String::from("tats")).unwrap()),
        74.75
    );
    assert_eq!(
        f64::from_bits(*r.get(&String::from("sis")).unwrap()),
        51.5
    );
}

#[test]
fn test_empty_map_roundtrip() {
    let mut st = NewState();
    let m: KvMap<i64, bool> = KvMap::new();
    let r: KvMap<i64, bool> = push_then_read(&mut st, &m);
    assert_eq!(r.len(), 0);
}

#[test]
fn test_map_insert_replaces() {
    let mut m: KvMap<i64, i64> = KvMap::new();
    m.insert(5, 1);
    m.insert(5, 2);
    assert_eq!(m.len(), 1);
    assert_eq!(*m.get(&5).unwrap(), 2);
    assert!(m.get(&6).is_none());
}

#[test]
fn test_kind_mismatch_reads_nothing() {
    let mut st = NewState();
    st.push_str("not a number");
    let r: Option<i64> = <i64 as LuaTo>::lua_to(&mut st, -1);
    assert!(r.is_none());
    let b: Option<bool> = <bool as LuaTo>::lua_to(&mut st, -1);
    assert!(b.is_none());
    let s: Option<String> = <String as LuaTo>::lua_to(&mut st, -1);
    assert_eq!(s.unwrap(), "not a number");
}

#[test]
fn test_lua_struct() {
    // A record marshals field by field: a table holding each declared
    // field under its name, written and read in declaration order.
    let mut lua = New();
    let bar = String::from("barbarbar");
    let qwe: i64 = 1234;

    lua.state.new_table();
    lua.state.push_str("bar");
    bar.lua_push(&mut lua.state);
    lua.state.raw_set(-3);
    lua.state.push_str("qwe");
    qwe.lua_push(&mut lua.state);
    lua.state.raw_set(-3);

    lua.state.get_field(-1, "bar");
    let bar2: String = lua.pop();
    lua.state.get_field(-1, "qwe");
    let qwe2: i64 = lua.pop();
    lua.state.pop(1);

    assert_eq!(lua.state.get_top(), 0);
    assert_eq!(bar2, "barbarbar");
    assert_eq!(qwe2, 1234);
}

#[test]
fn test_nested_record_roundtrip() {
    // A record whose field is itself a record survives push and read.
    let mut lua = New();
    lua.state.new_table();
    lua.state.push_str("inner");
    lua.state.new_table();
    lua.state.push_str("name");
    lua.state.push_str("deep");
    lua.state.raw_set(-3);
    lua.state.push_str("count");
    lua.state.push_int(-8);
    lua.state.raw_set(-3);
    lua.state.raw_set(-3);

    lua.state.get_field(-1, "inner");
    lua.state.get_field(-1, "name");
    let name: String = lua.pop();
    lua.state.get_field(-1, "count");
    let count: i64 = lua.pop();
    lua.state.pop(2);
    assert_eq!(lua.state.get_top(), 0);
    assert_eq!(name, "deep");
    assert_eq!(count, -8);
}

#[test]
fn test_index_str_renders_each_kind() {
    let mut lua = New();
    lua.state.push_int(35);
    assert_eq!(lua.index_str(-1), "number: 35");
    lua.state.push_int(-7);
    assert_eq!(lua.index_str(-1), "number: -7");
    lua.state.push_str("foo");
    assert_eq!(lua.index_str(-1), "string: foo");
    lua.state.push_bool(true);
    assert_eq!(lua.index_str(-1), "bool: true");
    lua.state.push_bool(false);
    assert_eq!(lua.index_str(-1), "bool: false");
    lua.state.push_nil();
    assert_eq!(lua.index_str(-1), "nil: nil");
    lua.state.new_table();
    assert_eq!(lua.index_str(-1), "table");
    lua.state.push_function(9);
    assert_eq!(lua.index_str(-1), "function");
    lua.state.push_num(2.5f64.to_bits());
    assert_eq!(lua.index_str(-1), "number: raw 4612811918334230528");
    assert_eq!(lua.index_str(100), "none: none");
    assert_eq!(lua.index_str(LUA_GLOBALSINDEX), "table");
}

#[test]
fn test_decimal_rendering_exact() {
    assert_eq!(u64_dec(0), "0");
    assert_eq!(u64_dec(9), "9");
    assert_eq!(u64_dec(10), "10");
    assert_eq!(u64_dec(1234567890), "1234567890");
    assert_eq!(u64_dec(u64::MAX), "18446744073709551615");
    assert_eq!(i64_dec(0), "0");
    assert_eq!(i64_dec(-1), "-1");
    assert_eq!(i64_dec(i64::MIN), "-9223372036854775808");
    assert_eq!(i64_dec(i64::MAX), "9223372036854775807");
}

#[test]
fn test_index_type_reports_kinds() {
    let mut st = NewState();
    assert_eq!(st.index_type(1), LuaType::TNone);
    st.push_int(1);
    assert_eq!(st.index_type(1), LuaType::TNumber);
    assert_eq!(st.index_type(-1), LuaType::TNumber);
    assert_eq!(st.index_type(2), LuaType::TNone);
    assert_eq!(st.index_type(LUA_GLOBALSINDEX), LuaType::TTable);
}

#[test]
fn test_stack_surgery_primitives() {
    let mut st = NewState();
    st.push_int(1);
    st.push_int(2);
    st.push_int(3);
    // Move the top below the other two: 3 1 2.
    st.insert(-3);
    assert_eq!(st.to_int(1), 3);
    assert_eq!(st.to_int(2), 1);
    assert_eq!(st.to_int(3), 2);
    // Remove the middle slot: 3 2.
    st.remove(2);
    assert_eq!(st.get_top(), 2);
    assert_eq!(st.to_int(1), 3);
    assert_eq!(st.to_int(2), 2);
    // Duplicate the bottom slot onto the top: 3 2 3.
    st.push_value(1);
    assert_eq!(st.to_int(-1), 3);
    // Pad with nil up to five slots, then truncate back down.
    st.set_top(5);
    assert_eq!(st.get_top(), 5);
    assert_eq!(st.index_type(5), LuaType::TNil);
    st.set_top(-3);
    assert_eq!(st.get_top(), 3);
    st.set_top(0);
    assert_eq!(st.get_top(), 0);
}

#[test]
fn test_close_ends_the_handle() {
    let st = NewState();
    // Closing consumes the handle: releasing it exactly once, with no
    // use possible afterwards.
    st.close();
}

// Single-pass cursors over table contents.

use lua::convert::LuaPush;
use lua::KvMap;
use lua::New;

#[test]
fn test_lua_array_iter() {
    let mut lua = New();

    let vect: Vec<String> = vec![
        String::from("qwe"),
        String::from("ads"),
        String::from("zxc"),
    ];
    vect.lua_push(&mut lua.state);

    let before = lua.state.get_top();
    let mut it = lua.arr_iter(-1);
    let mut i = 0;
    loop {
        match it.next::<String>(&mut lua.state) {
            Some(v) => {
                assert_eq!(vect[i], v);
                i += 1;
            }
            None => break,
        }
    }
    assert_eq!(i, 3);
    assert_eq!(lua.state.get_top(), before);
    lua.state.pop(1);
    assert_eq!(lua.state.get_top(), 0);
}

#[test]
fn test_lua_table_iter() {
    let mut lua = New();

    let mut m: KvMap<String, u64> = KvMap::new();
    m.insert(String::from("foi"), 1.01f64.to_bits());
    m.insert(String::from("tats"), 74.75f64.to_bits());
    m.insert(String::from("sis"), 51.5f64.to_bits());

    m.lua_push(&mut lua.state);

    let mut it = lua.table_iter(-1);
    let mut seen = 0;
    loop {
        match it.next::<String, u64>(&mut lua.state) {
            Some((k, v)) => {
                assert_eq!(*m.get(&k).unwrap(), v);
                seen += 1;
            }
            None => break,
        }
    }
    assert_eq!(seen, 3);
    lua.state.pop(1);
    assert_eq!(lua.state.get_top(), 0);
}

#[test]
fn test_array_iter_empty_table() {
    let mut lua = New();
    let empty: Vec<i64> = Vec::new();
    empty.lua_push(&mut lua.state);
    let mut it = lua.arr_iter(-1);
    assert!(it.next::<i64>(&mut lua.state).is_none());
    lua.state.pop(1);
    assert_eq!(lua.state.get_top(), 0);
}

#[test]
fn test_iter_spent_after_exhaustion() {
    let mut lua = New();
    let v: Vec<i64> = vec![5];
    v.lua_push(&mut lua.state);
    let mut it = lua.arr_iter(-1);
    assert_eq!(it.next::<i64>(&mut lua.state), Some(5));
    assert!(it.next::<i64>(&mut lua.state).is_none());
    assert!(it.next::<i64>(&mut lua.state).is_none());
    assert_eq!(lua.state.get_top(), 1);
    lua.state.pop(1);
    assert_eq!(lua.state.get_top(), 0);
}

#[test]
fn test_push_then_iterate_law() {
    let mut lua = New();
    let v: Vec<i64> = vec![11, 22, 33];
    let r = lua::iter::push_then_iterate(&mut lua, &v);
    assert_eq!(r, v);
    assert_eq!(lua.state.get_top(), 1);
    lua.state.pop(1);
    assert_eq!(lua.state.get_top(), 0);
}

#[test]
fn test_push_then_iterate_pairs_law() {
    let mut lua = New();
    let mut m: KvMap<String, i64> = KvMap::new();
    m.insert(String::from("one"), 1);
    m.insert(String::from("two"), 2);
    m.insert(String::from("three"), 3);
    let pairs = lua::iter::push_then_iterate_pairs(&mut lua, &m);
    assert_eq!(pairs.len(), 3);
    for (k, v) in pairs.iter() {
        assert_eq!(m.get(k).unwrap(), v);
    }
    assert_eq!(lua.state.get_top(), 1);
    lua.state.pop(1);
    assert_eq!(lua.state.get_top(), 0);
}

use triskelion::disconnect::NotThis;
use triskelion::lists::keep_in;
use triskelion::names::{push_named, NameTable};
use triskelion::objects::{holds, HandleEntry, HandleTable};
use triskelion::side_tables::{HandleSideTables, PipeHandle};
use triskelion::table::{pop_under, push_under, Table};

#[test]
fn a_table_keeps_the_last_value() {
    let mut t: Table<u32, u64> = Table::new();
    assert_eq!(t.len(), 0);
    t.insert(1, 10);
    t.insert(2, 20);
    t.insert(1, 11);
    assert_eq!(t.len(), 2);
    assert_eq!(t.get(1), Some(&11));
    assert_eq!(t.get(3), None);
    assert!(t.contains_key(2) && !t.contains_key(3));
    *t.get_mut(2).unwrap() += 5;
    assert_eq!(t.remove(2), Some(25));
    assert_eq!(t.remove(2), None);
    assert_eq!(t.len(), 1);
}

#[test]
fn a_table_is_walked_by_place() {
    let mut t: Table<(u32, u32), u8> = Table::new();
    for i in 0..50u32 {
        t.insert((i % 5, i), i as u8);
    }
    let mut seen: Vec<(u32, u32)> = (0..t.len()).map(|i| *t.at(i).0).collect();
    seen.sort();
    let mut want: Vec<(u32, u32)> = (0..50u32).map(|i| (i % 5, i)).collect();
    want.sort();
    assert_eq!(seen, want);
    let gone = t.extract_owner(3);
    assert_eq!(gone.len(), 10);
    assert!(gone.iter().all(|(k, v)| k.0 == 3 && k.1 == *v as u32));
    assert_eq!(t.len(), 40);
    assert_eq!(t.get((3, 8)), None);
    assert_eq!(t.get((4, 9)), Some(&9));
}

#[test]
fn keys_of_every_kind_stay_apart() {
    let mut a: Table<i32, u8> = Table::new();
    a.insert(-1, 1);
    a.insert(1, 2);
    assert_eq!(a.get(-1), Some(&1));
    assert_eq!(a.get(1), Some(&2));
    let mut b: Table<(u32, u64), u8> = Table::new();
    b.insert((1, 0x1_0000_0000), 1);
    b.insert((2, 0), 2);
    assert_eq!(b.get((1, 0x1_0000_0000)), Some(&1));
    assert_eq!(b.get((2, 0)), Some(&2));
    let mut c: Table<(u32, u32, u32), u8> = Table::new();
    c.insert((1, 2, 3), 1);
    c.insert((3, 2, 1), 2);
    assert_eq!(c.get((1, 2, 3)), Some(&1));
    assert_eq!(c.get((3, 2, 1)), Some(&2));
}

#[test]
fn the_last_value_under_a_key_is_taken_first() {
    let mut t: Table<u32, Vec<u8>> = Table::new();
    push_under(&mut t, 4, 1);
    push_under(&mut t, 4, 2);
    push_under(&mut t, 5, 3);
    assert_eq!(pop_under(&mut t, 4), Some(2));
    assert_eq!(pop_under(&mut t, 4), Some(1));
    assert_eq!(pop_under(&mut t, 4), None);
    assert_eq!(pop_under(&mut t, 5), Some(3));
}

#[test]
fn names_are_told_apart_by_their_text() {
    let mut t: NameTable<u32> = NameTable::new();
    t.insert("a".to_string(), 1);
    t.insert("A".to_string(), 2);
    t.insert("a".to_string(), 3);
    assert_eq!(t.len(), 2);
    assert_eq!(t.get("a"), Some(&3));
    assert_eq!(t.get("A"), Some(&2));
    assert_eq!(t.remove("a"), Some(3));
    assert!(!t.contains_key("a"));
    let mut q: NameTable<Vec<u32>> = NameTable::new();
    push_named(&mut q, "p".to_string(), 7);
    push_named(&mut q, "p".to_string(), 8);
    assert_eq!(q.get("p"), Some(&vec![7, 8]));
}

#[test]
fn a_choice_keeps_values_in_their_order() {
    let mut v = vec![5, 4, 2, 4, 8];
    keep_in(&mut v, &NotThis { x: 4 });
    assert_eq!(v, vec![5, 2, 8]);
}

#[test]
fn handles_are_multiples_of_four_and_not_reused() {
    let mut t = HandleTable::new();
    let a = t.allocate(7);
    let b = t.allocate(8);
    assert_eq!((a % 4, b % 4), (0, 0));
    assert_ne!(a, b);
    assert_ne!(a, 0);
    assert_eq!(t.close(a).unwrap().object_id, 7);
    assert!(t.get(a).is_none());
    assert!(t.close(a).is_none());
    let c = t.allocate(9);
    assert!(c != a && c != b);
    assert!(t.get(0).is_none());
    assert!(t.get(b + 4).is_some() && t.get(b + 8).is_none());
    t.set(b, HandleEntry::with_fd(8, 30, 1, 2, 3));
    assert_eq!(t.get(b).unwrap().fd, Some(30));
    assert!(holds(&vec![1, 2], 2) && !holds(&vec![1, 2], 3));
}

#[test]
fn side_tables_forget_a_handle() {
    let mut s = HandleSideTables::new();
    s.pipe_handles.insert((1, 4), PipeHandle { data_fd: 30 });
    s.pipe_handles.insert((1, 8), PipeHandle { data_fd: 31 });
    s.io_wait_handles.insert((1, 4), 40);
    s.fd_sent.insert((1, 4), ());
    s.completion_bindings.insert((1, 4), (12, 5));
    let mut closed = Vec::new();
    assert_eq!(s.purge(1, 4, &mut closed), Some(40));
    assert_eq!(closed, vec![30]);
    assert!(s.pipe_handles.get((1, 4)).is_none());
    assert!(s.fd_sent.get((1, 4)).is_none());
    assert!(s.completion_bindings.get((1, 4)).is_none());
    assert!(s.pipe_handles.get((1, 8)).is_some());
    assert_eq!(s.purge(1, 4, &mut closed), None);
}

#[test]
fn side_tables_forget_a_process() {
    let mut s = HandleSideTables::new();
    s.pipe_handles.insert((1, 4), PipeHandle { data_fd: 30 });
    s.pipe_handles.insert((2, 4), PipeHandle { data_fd: 31 });
    s.fd_sent.insert((1, 4), ());
    let mut closed = Vec::new();
    s.purge_pid(1, &mut closed);
    assert_eq!(closed, vec![30]);
    assert_eq!(s.pipe_handles.len(), 1);
    assert_eq!(s.fd_sent.len(), 0);
}

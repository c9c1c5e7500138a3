use candid::Principal;
use vtk_backend::assoc::AssocList;
use vtk_backend::{ceil_division, get_time, ChunkStore, Identity, OwnershipIndex, State};

#[test]
fn ceil_division_rounds_up() {
    assert_eq!(ceil_division(0, 5), 0);
    assert_eq!(ceil_division(1, 5), 1);
    assert_eq!(ceil_division(5, 5), 1);
    assert_eq!(ceil_division(6, 5), 2);
    assert_eq!(ceil_division(7, 2), 4);
    assert_eq!(ceil_division(8, 2), 4);
    assert_eq!(ceil_division(9, 1), 9);
    assert_eq!(ceil_division(usize::MAX, 1), usize::MAX);
    assert_eq!(ceil_division(usize::MAX, 2), usize::MAX / 2 + 1);
    assert_eq!(ceil_division(usize::MAX, usize::MAX), 1);
    assert_eq!(ceil_division(usize::MAX - 1, usize::MAX), 1);
}

#[test]
fn the_fixed_time() {
    assert_eq!(get_time(), 12345);
}

#[test]
fn anonymous_is_the_anonymous_principal() {
    assert_eq!(Identity::anonymous().to_vec(), vec![4]);
    assert_eq!(Identity::anonymous().to_vec(), Principal::anonymous().as_slice().to_vec());
    assert!(Identity::anonymous().is_anonymous());
    let parsed = Principal::from_text("2vxsx-fae").unwrap();
    assert!(Identity::from_slice(parsed.as_slice()).unwrap().is_anonymous());
    let management = Principal::from_text("aaaaa-aa").unwrap();
    assert!(!Identity::from_slice(management.as_slice()).unwrap().is_anonymous());
    assert!(!Identity::from_slice(&[4, 0]).unwrap().is_anonymous());
    assert!(!Identity::from_slice(&[5]).unwrap().is_anonymous());
    assert!(!Identity::from_slice(&[]).unwrap().is_anonymous());
}

#[test]
fn identity_has_at_most_29_bytes() {
    assert!(Identity::from_slice(&[1; 29]).is_some());
    assert!(Identity::from_slice(&[1; 30]).is_none());
    assert!(Identity::from_slice(&[0; 64]).is_none());
    let bytes: Vec<u8> = (0..29).collect();
    assert_eq!(Identity::from_slice(&bytes).unwrap().to_vec(), bytes);
    assert_eq!(Identity::from_slice(&[]).unwrap().to_vec(), Vec::<u8>::new());
    assert_eq!(Principal::from_slice(&Identity::from_slice(&bytes).unwrap().to_vec()).as_slice(), &bytes[..]);
}

#[test]
fn identities_are_the_same_by_their_bytes() {
    let a = Identity::from_slice(&[1, 2, 3]).unwrap();
    let b = Identity::from_slice(&[1, 2, 3]).unwrap();
    let c = Identity::from_slice(&[1, 2, 4]).unwrap();
    let d = Identity::from_slice(&[1, 2]).unwrap();
    let e = Identity::from_slice(&[1, 2, 0]).unwrap();
    assert!(a.same_as(&b));
    assert_eq!(a, b);
    assert!(!a.same_as(&c));
    assert!(!a.same_as(&d));
    assert!(!d.same_as(&e));
    assert_ne!(d, e);
}

#[test]
fn new_state_is_empty() {
    let state = State::new(&[]);
    assert_eq!(state.file_count, 0);
    assert_eq!(state.user_count, 0);
    assert!(state.file_data.is_empty());
    assert!(state.file_contents.get(&(0, 0)).is_none());
    assert!(!state.file_contents.contains_key(&(0, 0)));
    assert_eq!(state.file_contents.count_chunks(0, 1), 0);
    // A second state shares nothing with the first.
    let mut other = State::default();
    other.file_contents.insert((0, 0), vec![1]);
    assert!(state.file_contents.get(&(0, 0)).is_none());
}

#[test]
fn chunk_store_keeps_what_is_put() {
    let mut store = ChunkStore::new();
    assert_eq!(store.insert((1, 0), vec![1, 2]), None);
    assert_eq!(store.insert((1, 0), vec![3]), Some(vec![1, 2]));
    assert_eq!(store.get(&(1, 0)), Some(vec![3]));
    assert!(store.contains_key(&(1, 0)));
    assert!(!store.contains_key(&(0, 1)));
    assert_eq!(store.insert((1, 1), vec![]), None);
    assert_eq!(store.get(&(1, 1)), Some(vec![]));
    assert_eq!(store.remove(&(1, 0)), Some(vec![3]));
    assert_eq!(store.remove(&(1, 0)), None);
    assert_eq!(store.get(&(1, 0)), None);
    assert_eq!(store.get(&(1, 1)), Some(vec![]));
    let big: Vec<u8> = (0..100_000).map(|i| (i % 251) as u8).collect();
    assert_eq!(store.insert((2, 0), big.clone()), None);
    assert_eq!(store.get(&(2, 0)), Some(big));
}

#[test]
fn chunk_store_counts_the_chunks_of_one_file() {
    let mut store = ChunkStore::new();
    for file_id in [4u64, 5, 6] {
        for chunk_id in [0u64, 1, 3, 7, u64::MAX] {
            store.insert((file_id, chunk_id), vec![0]);
        }
    }
    store.insert((4, 9), vec![0]);
    store.insert((6, 2), vec![0]);
    assert_eq!(store.count_chunks(5, 0), 0);
    assert_eq!(store.count_chunks(5, 1), 1);
    assert_eq!(store.count_chunks(5, 2), 2);
    assert_eq!(store.count_chunks(5, 3), 2);
    assert_eq!(store.count_chunks(5, 4), 3);
    assert_eq!(store.count_chunks(5, 8), 4);
    assert_eq!(store.count_chunks(5, u64::MAX), 4);
    assert_eq!(store.count_chunks(3, 8), 0);
    assert_eq!(store.count_chunks(7, 8), 0);
    assert_eq!(store.count_chunks(0, u64::MAX), 0);
    assert_eq!(store.count_chunks(u64::MAX, u64::MAX), 0);
    assert_eq!(store.count_chunks(6, 4), 4);
    assert_eq!(store.count_chunks(4, 10), 5);
    for chunk_id in 0..200u64 {
        store.insert((8, chunk_id), vec![1]);
    }
    assert_eq!(store.count_chunks(8, 200), 200);
    assert_eq!(store.count_chunks(8, 150), 150);
    store.remove(&(8, 100));
    assert_eq!(store.count_chunks(8, 200), 199);
    assert_eq!(store.count_chunks(8, 100), 100);
}

#[test]
fn ownership_index_keeps_the_order() {
    let alice = Identity::from_slice(b"alice").unwrap();
    let bob = Identity::from_slice(b"bob").unwrap();
    let mut index = OwnershipIndex::new();
    assert_eq!(index.get(&alice), None);
    index.add_file(alice, 5);
    index.add_file(bob, 6);
    index.add_file(alice, 2);
    index.add_file(alice, 9);
    assert_eq!(index.get(&alice), Some(&vec![5, 2, 9]));
    assert_eq!(index.get(&bob), Some(&vec![6]));
    index.remove_file(&alice, 2);
    assert_eq!(index.get(&alice), Some(&vec![5, 9]));
    index.remove_file(&alice, 2);
    assert_eq!(index.get(&alice), Some(&vec![5, 9]));
    index.remove_file(&bob, 6);
    assert_eq!(index.get(&bob), Some(&vec![]));
    let carol = Identity::from_slice(b"carol").unwrap();
    index.remove_file(&carol, 1);
    assert_eq!(index.get(&carol), None);
    assert_eq!(index.insert(alice, vec![1, 1]), Some(vec![5, 9]));
    assert_eq!(index.insert(carol, vec![]), None);
    assert_eq!(index.get(&alice), Some(&vec![1, 1]));
}

#[test]
fn assoc_list_is_a_map() {
    let mut list: AssocList<String, Vec<u64>> = AssocList::new();
    assert!(!list.contains_key(&"a".to_string()));
    assert_eq!(list.insert("a".to_string(), vec![1]), None);
    assert_eq!(list.insert("b".to_string(), vec![2]), None);
    assert_eq!(list.insert("a".to_string(), vec![3]), Some(vec![1]));
    assert_eq!(list.get(&"a".to_string()), Some(&vec![3]));
    assert_eq!(list.get(&"b".to_string()), Some(&vec![2]));
    assert_eq!(list.remove(&"a".to_string()), Some(vec![3]));
    assert_eq!(list.remove(&"a".to_string()), None);
    assert!(!list.contains_key(&"a".to_string()));
    assert!(list.contains_key(&"b".to_string()));
    assert_eq!(list.get(&"".to_string()), None);
}

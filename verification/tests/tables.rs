use two_way_peg::output::{MainOutPoint, MerkleRoot, OutPoint, Txid};
use two_way_peg::order::Duplicate;
use two_way_peg::output::BlockHash;
use two_way_peg::rollback::{HeightStamped, RollBack};
use two_way_peg::table::Table;

fn block(b: u8, height: u32) -> (BlockHash, u32) {
    (BlockHash([b; 32]), height)
}

#[test]
fn a_table_is_listed_in_order() {
    let mut table: Table<u32, (BlockHash, u32)> = Table::new();
    assert_eq!(table.len(), 0);
    assert_eq!(table.last(), None);
    table.put(7, block(7, 0));
    table.put(2, block(2, 0));
    table.put(9, block(9, 0));
    table.put(2, block(3, 1));
    assert_eq!(table.len(), 3);
    let keys: Vec<u32> = (0..3).map(|i| *table.key_at(i)).collect();
    assert_eq!(keys, vec![2, 7, 9]);
    assert_eq!(*table.value_at(0), block(3, 1));
    assert_eq!(table.get(&7), Some(&block(7, 0)));
    assert_eq!(table.get(&8), None);
    assert!(table.contains(&9));
    assert_eq!(table.last(), Some((&9, &block(9, 0))));
    assert!(!table.delete(&8));
    assert!(table.delete(&9));
    assert_eq!(table.remove(&2), Some(block(3, 1)));
    assert_eq!(table.remove(&2), None);
    assert_eq!(table.pop_last(), Some((7, block(7, 0))));
    assert_eq!(table.pop_last(), None);
}

#[test]
fn tables_are_joined_and_compared() {
    let mut a: Table<u32, (BlockHash, u32)> = Table::new();
    a.put(1, block(1, 1));
    a.put(2, block(2, 2));
    let mut b = a.duplicate();
    assert_eq!(a, b);
    b.put(2, block(3, 3));
    b.put(4, block(4, 4));
    assert!(a.is_covered_by(&b));
    assert!(!b.is_covered_by(&a));
    assert!(!a.is_apart_from(&b));
    a.extend(&b);
    assert_eq!(a, b);
    let mut c: Table<u32, (BlockHash, u32)> = Table::new();
    assert!(c.is_apart_from(&a));
    c.put(3, block(0, 0));
    assert!(a.is_apart_from(&c));
}

#[test]
fn outpoints_are_ordered_by_kind_bytes_and_index() {
    let mut table: Table<OutPoint, u32> = Table::new();
    let listed = vec![
        OutPoint::Regular { txid: Txid([1; 32]), vout: 9 },
        OutPoint::Regular { txid: Txid([2; 32]), vout: 0 },
        OutPoint::Regular { txid: Txid([2; 32]), vout: 256 },
        OutPoint::Coinbase { merkle_root: MerkleRoot([0; 32]), vout: 0 },
        OutPoint::Deposit(MainOutPoint { txid: [0; 32], vout: 3 }),
    ];
    for (i, o) in listed.iter().enumerate().rev() {
        table.put(*o, i as u32);
    }
    let keys: Vec<OutPoint> = (0..listed.len()).map(|i| *table.key_at(i)).collect();
    assert_eq!(keys, listed);
    let mut sorted = listed.clone();
    sorted.sort();
    assert_eq!(sorted, listed);
}

#[test]
fn a_value_rolls_back() {
    let mut value: RollBack<HeightStamped<u32>> = RollBack::<HeightStamped<u32>>::new(10, 3);
    assert_eq!(*value.latest(), HeightStamped { value: 10, height: 3 });
    assert_eq!(value.previous(), None);
    assert_eq!(value.push(20, 2), Err(20));
    assert_eq!(value.push(20, 3), Ok(()));
    assert_eq!(value.push(30, 5), Ok(()));
    assert_eq!(value.previous(), Some(&HeightStamped { value: 20, height: 3 }));
    let (rest, latest) = value.pop();
    assert_eq!(latest, HeightStamped { value: 30, height: 5 });
    let (rest, latest) = rest.unwrap().pop();
    assert_eq!(latest, HeightStamped { value: 20, height: 3 });
    let (rest, latest) = rest.unwrap().pop();
    assert_eq!(latest, HeightStamped { value: 10, height: 3 });
    assert!(rest.is_none());
}

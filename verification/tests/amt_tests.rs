use fvm_core::amt::diff::{diff, ChangeType};
use fvm_core::amt::store::{AmtError, BlockStore};
use fvm_core::amt::Amt;

fn val(s: &str) -> Vec<u8> {
    s.as_bytes().to_vec()
}

#[test]
fn set_and_get() {
    let mut store = BlockStore::new();
    let mut a = Amt::new(3);
    assert_eq!(a.count(), 0);
    a.set(&mut store, 2, val("foo")).unwrap();
    a.set(&mut store, 1, val("bar")).unwrap();
    assert_eq!(a.count(), 2);
    assert_eq!(a.get(&store, 2).unwrap(), Some(val("foo")));
    assert_eq!(a.get(&store, 1).unwrap(), Some(val("bar")));
    assert_eq!(a.get(&store, 0).unwrap(), None);
    // Past the current capacity is empty without error.
    assert_eq!(a.get(&store, 1 << 60).unwrap(), None);
    // Overwrite keeps the count.
    a.set(&mut store, 2, val("baz")).unwrap();
    assert_eq!(a.count(), 2);
    assert_eq!(a.get(&store, 2).unwrap(), Some(val("baz")));
}

#[test]
fn grows_for_large_indices() {
    let mut store = BlockStore::new();
    let mut a = Amt::new(4);
    a.set(&mut store, 0, val("low")).unwrap();
    a.set(&mut store, 1_000_000, val("high")).unwrap();
    assert_eq!(a.get(&store, 0).unwrap(), Some(val("low")));
    assert_eq!(a.get(&store, 1_000_000).unwrap(), Some(val("high")));
    assert_eq!(a.get(&store, 999_999).unwrap(), None);
}

#[test]
fn index_too_large_is_rejected() {
    let mut store = BlockStore::new();
    // With a bit width of five, heights stop at sixty index bits.
    let mut a = Amt::new(5);
    let e = a.set(&mut store, u64::MAX, val("x")).unwrap_err();
    assert_eq!(e, AmtError::IndexTooLarge);
    // A width that divides sixty-four covers every index.
    let mut b = Amt::new(8);
    b.set(&mut store, u64::MAX, val("x")).unwrap();
    assert_eq!(b.get(&store, u64::MAX).unwrap(), Some(val("x")));
}

#[test]
fn flush_load_round_trip() {
    let mut store = BlockStore::new();
    let mut a = Amt::new(3);
    for j in 0..300u64 {
        a.set(&mut store, j * 7, format!("{}", j).into_bytes()).unwrap();
    }
    let root = a.flush(&mut store).unwrap();
    let b = Amt::load(&store, &root, 3).unwrap();
    assert_eq!(b.count(), a.count());
    for j in 0..300u64 {
        assert_eq!(
            b.get(&store, j * 7).unwrap(),
            Some(format!("{}", j).into_bytes()),
            "index {} must survive the round trip",
            j * 7
        );
    }
    assert_eq!(b.get(&store, 3).unwrap(), None);
    // Iteration order is unchanged.
    assert_eq!(a.entries(&store).unwrap(), b.entries(&store).unwrap());
}

#[test]
fn load_failures_are_typed() {
    let mut store = BlockStore::new();
    let mut a = Amt::new(3);
    a.set(&mut store, 1, val("v")).unwrap();
    let root = a.flush(&mut store).unwrap();
    assert_eq!(Amt::load(&store, &vec![1, 2, 3], 3).unwrap_err(), AmtError::RootNotFound);
    assert_eq!(Amt::load(&store, &root, 4).unwrap_err(), AmtError::ConfigMismatch);
}

#[test]
fn flush_is_idempotent_and_content_determined() {
    let mut store = BlockStore::new();
    let mut a = Amt::new(3);
    a.set(&mut store, 5, val("v")).unwrap();
    a.set(&mut store, 90, val("w")).unwrap();
    let r1 = a.flush(&mut store).unwrap();
    let blocks_after_first = store.len();
    let r2 = a.flush(&mut store).unwrap();
    assert_eq!(r1, r2);
    assert_eq!(store.len(), blocks_after_first);

    // The same contents written in the opposite order give the same root.
    let mut b = Amt::new(3);
    b.set(&mut store, 90, val("w")).unwrap();
    b.set(&mut store, 5, val("v")).unwrap();
    let r3 = b.flush(&mut store).unwrap();
    assert_eq!(r1, r3);

    // Overwriting an entry with the value it already holds changes nothing.
    a.set(&mut store, 5, val("v")).unwrap();
    let r4 = a.flush(&mut store).unwrap();
    assert_eq!(r1, r4);
}

#[test]
fn entries_are_sorted() {
    let mut store = BlockStore::new();
    let mut a = Amt::new(3);
    for j in [900u64, 3, 77, 12, 500] {
        a.set(&mut store, j, format!("{}", j).into_bytes()).unwrap();
    }
    let es = a.entries(&store).unwrap();
    let keys: Vec<u64> = es.iter().map(|e| e.0).collect();
    assert_eq!(keys, vec![3, 12, 77, 500, 900]);
    for (k, v) in es {
        assert_eq!(v, format!("{}", k).into_bytes());
    }
}

#[test]
fn diff_requires_equal_bit_widths() {
    let mut store = BlockStore::new();
    let mut a = Amt::new(3);
    let mut b = Amt::new(4);
    a.set(&mut store, 0, val("x")).unwrap();
    b.set(&mut store, 0, val("x")).unwrap();
    assert_eq!(diff(&store, &a, &b).unwrap_err(), AmtError::BitWidthMismatch);
}

#[test]
fn diff_of_identical_tries_is_empty() {
    let mut store = BlockStore::new();
    let mut a = Amt::new(3);
    for j in 0..64u64 {
        a.set(&mut store, j * 3, val("payload")).unwrap();
    }
    let changes = diff(&store, &a, &a).unwrap();
    assert!(changes.is_empty());

    // Two structurally identical tries built separately also share every
    // subtree identifier, so nothing is walked and nothing differs.
    let mut b = Amt::new(3);
    for j in (0..64u64).rev() {
        b.set(&mut store, j * 3, val("payload")).unwrap();
    }
    let changes = diff(&store, &a, &b).unwrap();
    assert!(changes.is_empty());
}

#[test]
fn diff_reports_adds_removes_and_modifies() {
    let mut store = BlockStore::new();
    let mut prev = Amt::new(3);
    prev.set(&mut store, 1, val("one")).unwrap();
    prev.set(&mut store, 2, val("two")).unwrap();
    prev.set(&mut store, 100, val("hundred")).unwrap();

    let mut curr = Amt::new(3);
    curr.set(&mut store, 2, val("two-changed")).unwrap();
    curr.set(&mut store, 100, val("hundred")).unwrap();
    curr.set(&mut store, 4000, val("four-thousand")).unwrap();

    let changes = diff(&store, &prev, &curr).unwrap();
    let summary: Vec<(u64, ChangeType)> =
        changes.iter().map(|c| (c.key, c.change_type)).collect();
    assert_eq!(
        summary,
        vec![
            (1, ChangeType::Remove),
            (2, ChangeType::Modify),
            (4000, ChangeType::Add),
        ]
    );
    assert_eq!(changes[0].before, Some(val("one")));
    assert_eq!(changes[0].after, None);
    assert_eq!(changes[1].before, Some(val("two")));
    assert_eq!(changes[1].after, Some(val("two-changed")));
    assert_eq!(changes[2].before, None);
    assert_eq!(changes[2].after, Some(val("four-thousand")));
}

#[test]
fn diff_applies_prev_to_curr() {
    let mut store = BlockStore::new();
    let mut prev = Amt::new(3);
    let mut curr = Amt::new(3);
    for j in 0..40u64 {
        prev.set(&mut store, j, format!("p{}", j).into_bytes()).unwrap();
    }
    for j in 20..90u64 {
        curr.set(&mut store, j, format!("c{}", j).into_bytes()).unwrap();
    }
    let changes = diff(&store, &prev, &curr).unwrap();
    // Replay the change list on top of the previous state.
    let mut replayed = std::collections::BTreeMap::new();
    for j in 0..40u64 {
        replayed.insert(j, format!("p{}", j).into_bytes());
    }
    for c in &changes {
        match c.change_type {
            ChangeType::Remove => {
                replayed.remove(&c.key);
            },
            _ => {
                replayed.insert(c.key, c.after.clone().unwrap());
            },
        }
    }
    let expected: Vec<(u64, Vec<u8>)> =
        (20..90u64).map(|j| (j, format!("c{}", j).into_bytes())).collect();
    let replayed: Vec<(u64, Vec<u8>)> = replayed.into_iter().collect();
    assert_eq!(replayed, expected);
}

#[test]
fn diff_from_and_to_empty() {
    let mut store = BlockStore::new();
    let empty = Amt::new(3);
    let mut full = Amt::new(3);
    for j in [5u64, 800, 12] {
        full.set(&mut store, j, val("v")).unwrap();
    }
    let added = diff(&store, &empty, &full).unwrap();
    assert_eq!(added.len(), 3);
    assert!(added.iter().all(|c| c.change_type == ChangeType::Add));
    assert_eq!(added.iter().map(|c| c.key).collect::<Vec<_>>(), vec![5, 12, 800]);

    let removed = diff(&store, &full, &empty).unwrap();
    assert_eq!(removed.len(), 3);
    assert!(removed.iter().all(|c| c.change_type == ChangeType::Remove));
    assert_eq!(removed[0].before, Some(val("v")));
    assert_eq!(removed[0].after, None);
}

#[test]
fn diff_skips_equal_pairs_inside_a_changed_leaf() {
    // Indices 1 and 2 share the first leaf. The leaves differ (index 2
    // changed), but index 1 holds the same value on both sides, so it is
    // not part of the symmetric difference and must not be reported.
    let mut store = BlockStore::new();
    let mut prev = Amt::new(3);
    prev.set(&mut store, 1, val("same")).unwrap();
    prev.set(&mut store, 2, val("old")).unwrap();
    let mut curr = Amt::new(3);
    curr.set(&mut store, 1, val("same")).unwrap();
    curr.set(&mut store, 2, val("new")).unwrap();
    let changes = diff(&store, &prev, &curr).unwrap();
    assert_eq!(changes.len(), 1);
    assert_eq!(changes[0].key, 2);
    assert_eq!(changes[0].change_type, ChangeType::Modify);
    assert_eq!(changes[0].before, Some(val("old")));
    assert_eq!(changes[0].after, Some(val("new")));
}

#[test]
fn diff_across_different_heights() {
    let mut store = BlockStore::new();
    let mut small = Amt::new(3);
    small.set(&mut store, 1, val("a")).unwrap();
    let mut tall = Amt::new(3);
    tall.set(&mut store, 1, val("a")).unwrap();
    tall.set(&mut store, 100_000, val("far")).unwrap();
    let changes = diff(&store, &small, &tall).unwrap();
    assert_eq!(changes.len(), 1);
    assert_eq!(changes[0].key, 100_000);
    assert_eq!(changes[0].change_type, ChangeType::Add);
}

use pocker::{AsyncRuntimeError, FixedSizedMap};

fn filled(keys: &[u32]) -> FixedSizedMap<u32, String, 4> {
    let mut map: FixedSizedMap<u32, String, 4> = FixedSizedMap::new();
    for key in keys {
        assert_eq!(map.set_default(*key, format!("v{}", key)), Ok(true));
    }
    map
}

fn keys<V, const N: usize>(map: &FixedSizedMap<u32, V, N>) -> Vec<u32> {
    let mut keys = Vec::new();
    for i in 0..N {
        match map.read_idx(i, |entry| entry.0) {
            Some(key) => keys.push(key),
            None => assert!(i >= map.len()),
        }
    }
    keys
}

#[test]
fn a_new_map_is_empty() {
    let map: FixedSizedMap<u32, u8, 3> = FixedSizedMap::new();
    assert_eq!(map.len(), 0);
    assert_eq!(keys(&map), Vec::<u32>::new());
    assert_eq!(map.read(&1, |v| *v), None);
    let none: FixedSizedMap<u32, u8, 0> = FixedSizedMap::new();
    assert_eq!(none.len(), 0);
}

#[test]
fn entries_are_kept_in_ascending_order() {
    let map = filled(&[7, 3, 9, 5]);
    assert_eq!(map.len(), 4);
    assert_eq!(keys(&map), vec![3, 5, 7, 9]);
    assert_eq!(map.read(&9, |v| v.clone()), Some("v9".to_string()));
    assert_eq!(map.read(&3, |v| v.clone()), Some("v3".to_string()));
}

#[test]
fn set_default_keeps_what_is_there() {
    let mut map = filled(&[1, 2]);
    assert_eq!(map.set_default(1, "other".to_string()), Ok(false));
    assert_eq!(map.read(&1, |v| v.clone()), Some("v1".to_string()));
    assert_eq!(map.len(), 2);
}

#[test]
fn a_full_map_takes_no_new_key() {
    let mut map = filled(&[1, 2, 3, 4]);
    assert_eq!(
        map.set_default(5, "v5".to_string()),
        Err(AsyncRuntimeError::TooManyPending)
    );
    assert_eq!(map.set_default(4, "other".to_string()), Ok(false));
    assert_eq!(keys(&map), vec![1, 2, 3, 4]);
}

#[test]
fn edit_changes_its_own_entry_only() {
    let mut map = filled(&[1, 2, 3]);
    assert!(map.edit(&2, |v| v + "!"));
    assert!(!map.edit(&4, |v| v + "!"));
    assert_eq!(map.read(&1, |v| v.clone()), Some("v1".to_string()));
    assert_eq!(map.read(&2, |v| v.clone()), Some("v2!".to_string()));
    assert_eq!(map.read(&3, |v| v.clone()), Some("v3".to_string()));
}

#[test]
fn remove_closes_the_gap() {
    let mut map = filled(&[1, 2, 3, 4]);
    assert_eq!(map.remove(&2), Some("v2".to_string()));
    assert_eq!(map.remove(&2), None);
    assert_eq!(keys(&map), vec![1, 3, 4]);
    assert_eq!(map.read(&3, |v| v.clone()), Some("v3".to_string()));
    assert_eq!(map.remove(&4), Some("v4".to_string()));
    assert_eq!(map.remove(&1), Some("v1".to_string()));
    assert_eq!(map.remove(&3), Some("v3".to_string()));
    assert_eq!(map.len(), 0);
}

#[test]
fn an_insertion_is_undone_by_a_removal() {
    for new_key in [0, 4, 8] {
        let mut map = filled(&[1, 5, 7]);
        assert_eq!(map.set_default(new_key, "new".to_string()), Ok(true));
        assert_eq!(map.read(&new_key, |v| v.clone()), Some("new".to_string()));
        assert_eq!(map.remove(&new_key), Some("new".to_string()));
        assert_eq!(keys(&map), vec![1, 5, 7]);
    }
}

#[test]
fn find_answers_with_the_first_match() {
    let map = filled(&[4, 2, 8]);
    let mut asked = Vec::new();
    let found = map.find(
        |entry| {
            let key = entry.as_ref().unwrap().0;
            asked.push(key);
            key >= 4
        },
        |entry| entry.1.clone(),
    );
    assert_eq!(found, Some("v4".to_string()));
    assert_eq!(asked, vec![2, 4]);
    assert_eq!(map.find(|_| false, |entry| entry.0), None);
}

#[test]
fn map_edit_stops_when_told() {
    let mut map = filled(&[1, 2, 3]);
    map.map_edit(|entry| {
        entry.1.push('!');
        entry.0 == 2
    });
    assert_eq!(map.read(&1, |v| v.clone()), Some("v1!".to_string()));
    assert_eq!(map.read(&2, |v| v.clone()), Some("v2!".to_string()));
    assert_eq!(map.read(&3, |v| v.clone()), Some("v3".to_string()));
}

#[test]
fn inner_join_keeps_the_shared_keys() {
    let cases: [(&[u32], &[u32], &[u32]); 6] = [
        (&[1, 2, 3], &[1, 2, 3], &[1, 2, 3]),
        (&[1, 2, 3], &[2, 3, 4], &[2, 3]),
        (&[1, 2, 3, 4], &[4, 1], &[1, 4]),
        (&[1, 2], &[3, 4], &[]),
        (&[], &[1], &[]),
        (&[1, 2], &[], &[]),
    ];
    for (ours, theirs, shared) in cases {
        let mut map = filled(ours);
        let mut other: FixedSizedMap<u32, u8, 4> = FixedSizedMap::new();
        for key in theirs {
            assert_eq!(other.set_default(*key, 0), Ok(true));
        }
        map.inner_join_keys(&other);
        assert_eq!(map.len(), shared.len());
        assert_eq!(keys(&map), shared.to_vec());
        for key in shared {
            assert_eq!(map.read(key, |v| v.clone()), Some(format!("v{}", key)));
        }
        // Once more changes nothing.
        map.inner_join_keys(&other);
        assert_eq!(keys(&map), shared.to_vec());
    }
}

#[test]
fn errors_have_their_texts() {
    assert_eq!(
        AsyncRuntimeError::TooManyPending.message(),
        "Cannot enqueue more pending futures, exceeding MAX_PENDING"
    );
    assert_eq!(
        AsyncRuntimeError::TooManyUnblocked.message(),
        "Unblocking more than one future in a single async step is disallowed"
    );
}

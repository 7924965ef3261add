use sahomedb::collection::{Collection, Config, Record};
use sahomedb::index::{IndexConfig, IndexGraph};
use sahomedb::error::Error;
use sahomedb::store::INVALID;

fn rec(vector: Vec<i32>, data: &'static str) -> Record<&'static str> {
    Record { vector, data }
}

#[test]
fn empty_collection() {
    let config = Config::default();
    let records: Vec<Record<&'static str>> = Vec::new();
    let c = Collection::build(&config, &records).unwrap();
    assert_eq!(c.len(), 0);
    assert!(c.is_empty());
    let hits = c.search(&vec![0, 0], 5).unwrap();
    assert!(hits.is_empty());
}

#[test]
fn single_record() {
    let config = Config::default();
    let mut c = Collection::new(&config);
    c.insert(&rec(vec![1000, 0], "a")).unwrap();
    let hits = c.search(&vec![1000, 0], 5).unwrap();
    assert_eq!(hits.len(), 1);
    assert_eq!(hits[0].id, 0);
    assert_eq!(hits[0].distance, 0);
    assert_eq!(hits[0].data, "a");
}

#[test]
fn three_record_ordering() {
    let config = Config::default();
    let mut c = Collection::new(&config);
    c.insert(&rec(vec![0, 0], "o")).unwrap();
    c.insert(&rec(vec![1000, 0], "x")).unwrap();
    c.insert(&rec(vec![0, 1000], "y")).unwrap();
    let hits = c.search(&vec![900, 100], 3).unwrap();
    let ids: Vec<u32> = hits.iter().map(|h| h.id).collect();
    assert_eq!(ids, vec![1, 0, 2]);
    assert!(hits[0].distance <= hits[1].distance);
    assert!(hits[1].distance <= hits[2].distance);
}

#[test]
fn dimension_mismatch() {
    let config = Config::default();
    let mut c = Collection::new(&config);
    c.insert(&rec(vec![1000, 0], "a")).unwrap();
    let e = c.insert(&rec(vec![1000, 0, 0], "b")).unwrap_err();
    assert_eq!(e, Error::DimensionMismatch);
    assert_eq!(c.len(), 1);
}

#[test]
fn delete_then_search() {
    let config = Config::default();
    let mut c = Collection::new(&config);
    c.insert(&rec(vec![0, 0], "o")).unwrap();
    c.insert(&rec(vec![1000, 0], "x")).unwrap();
    c.insert(&rec(vec![0, 1000], "y")).unwrap();
    c.delete(1).unwrap();
    assert!(!c.contains(1));
    assert_eq!(c.len(), 2);
    let hits = c.search(&vec![1000, 0], 3).unwrap();
    assert!(hits.iter().all(|h| h.id != 1));
}

#[test]
fn update_preserves_id() {
    let config = Config::default();
    let mut c = Collection::new(&config);
    c.insert(&rec(vec![0, 0], "o")).unwrap();
    c.update(0, &rec(vec![5000, 5000], "o2")).unwrap();
    let got = c.get(0).unwrap();
    assert_eq!(got.vector, vec![5000, 5000]);
    assert_eq!(got.data, "o2");
    let hits = c.search(&vec![5000, 5000], 1).unwrap();
    assert_eq!(hits[0].id, 0);
}

#[test]
fn get_after_insert_round_trips() {
    let config = Config::default();
    let mut c = Collection::new(&config);
    c.insert(&rec(vec![7, -3, 11], "payload")).unwrap();
    let got = c.get(0).unwrap();
    assert_eq!(got.vector, vec![7, -3, 11]);
    assert_eq!(got.data, "payload");
    assert_eq!(c.dimension(), 3);
}

#[test]
fn len_counts_live_slots() {
    let config = Config::default();
    let mut c = Collection::new(&config);
    for k in 0..6i32 {
        c.insert(&rec(vec![k, -k], "d")).unwrap();
    }
    c.delete(2).unwrap();
    c.delete(4).unwrap();
    let live = c.store.slots.iter().filter(|s| **s != INVALID).count();
    assert_eq!(c.len(), live);
    assert_eq!(c.len(), 4);
    assert_eq!(c.store.slots.len(), 6);
}

#[test]
fn neighbor_rows_live_and_sorted_after_inserts() {
    let config = Config::default();
    let mut c = Collection::new(&config);
    let mut state: i64 = 11;
    let mut next = move || {
        state = (state * 1103515245 + 12345) % 2147483648;
        (state % 2000) as i32
    };
    for _ in 0..64 {
        let v = vec![next(), next()];
        c.insert(&rec(v, "d")).unwrap();
    }
    let dist = |a: &Vec<i32>, b: &Vec<i32>| -> u128 {
        a.iter()
            .zip(b.iter())
            .map(|(x, y)| {
                let d = (*x as i128) - (*y as i128);
                (d * d) as u128
            })
            .sum()
    };
    for (owner, row) in c.base_layer.iter().enumerate() {
        let ov = c.get(owner as u32).unwrap().vector;
        let mut seen_invalid = false;
        let mut last: Option<u128> = None;
        for &e in row.iter() {
            if e == INVALID {
                seen_invalid = true;
                continue;
            }
            // unused entries gather at the tail
            assert!(!seen_invalid);
            // every used entry is live after an insert-only history
            assert!(c.contains(e));
            let ev = c.get(e).unwrap().vector;
            let d = dist(&ov, &ev);
            if let Some(prev) = last {
                assert!(prev <= d);
            }
            last = Some(d);
        }
    }
}

#[test]
fn true_search_is_exact() {
    let config = Config::default();
    let mut c = Collection::new(&config);
    let vectors = vec![
        vec![0, 0],
        vec![10, 0],
        vec![0, 10],
        vec![50, 50],
        vec![-20, 5],
    ];
    for v in &vectors {
        c.insert(&rec(v.clone(), "d")).unwrap();
    }
    let hits = c.true_search(&vec![1, 1], 3).unwrap();
    assert_eq!(hits.len(), 3);
    let ids: Vec<u32> = hits.iter().map(|h| h.id).collect();
    assert_eq!(ids[0], 0);
    assert!(hits[0].distance <= hits[1].distance);
    assert!(hits[1].distance <= hits[2].distance);
    // the farthest records are left out
    assert!(!ids.contains(&3));
}

#[test]
fn build_rejects_bad_layer_multiplier() {
    let mut config = Config::default();
    config.ml = 1000;
    let records = vec![rec(vec![1, 2], "a"), rec(vec![3, 4], "b")];
    let e = match Collection::build(&config, &records) {
        Err(e) => e,
        Ok(_) => panic!("expected an error"),
    };
    assert_eq!(e, Error::InvalidInput);
}

#[test]
fn get_unknown_id_is_not_found() {
    let config = Config::default();
    let mut c = Collection::new(&config);
    c.insert(&rec(vec![1, 2], "a")).unwrap();
    assert_eq!(c.get(99).unwrap_err(), Error::NotFound);
    assert_eq!(c.delete(99).unwrap_err(), Error::NotFound);
    assert_eq!(c.update(99, &rec(vec![1, 2], "b")).unwrap_err(), Error::NotFound);
}

#[test]
fn build_dimension_mismatch() {
    let config = Config::default();
    let records = vec![rec(vec![1, 2], "a"), rec(vec![3, 4, 5], "b")];
    let e = match Collection::build(&config, &records) {
        Err(e) => e,
        Ok(_) => panic!("expected an error"),
    };
    assert_eq!(e, Error::DimensionMismatch);
}

#[test]
fn recall_on_random_dataset() {
    let config = Config::default();
    let mut state: i64 = 424242;
    let mut next = move || {
        state = (state.wrapping_mul(6364136223846793005).wrapping_add(1442695040888963407))
            & 0x7FFF_FFFF_FFFF_FFFF;
        ((state >> 16) % 10000) as i32
    };
    let mut records = Vec::new();
    for _ in 0..1000 {
        records.push(rec(vec![next(), next()], "d"));
    }
    let c = Collection::build(&config, &records).unwrap();
    assert_eq!(c.len(), 1000);

    let mut overlap_total = 0usize;
    let queries = 20;
    for _ in 0..queries {
        let q = vec![next(), next()];
        let approx = c.search(&q, 10).unwrap();
        let exact = c.true_search(&q, 10).unwrap();
        let exact_ids: Vec<u32> = exact.iter().map(|h| h.id).collect();
        overlap_total += approx.iter().filter(|h| exact_ids.contains(&h.id)).count();
    }
    // at least 8 of 10 on average
    assert!(overlap_total >= 8 * queries, "overlap {overlap_total} of {}", 10 * queries);
}

#[test]
fn state_round_trip_preserves_search() {
    let config = Config::default();
    let mut records = Vec::new();
    for k in 0..40i32 {
        records.push(rec(vec![k * 13 % 97, k * 29 % 83], "d"));
    }
    let c = Collection::build(&config, &records).unwrap();

    // Re-create the collection from its persisted parts, as a persistence
    // layer does after decoding a snapshot; the parts are validated.
    let store = sahomedb::store::VectorStore {
        slots: c.store.slots.clone(),
        vectors: c.store.vectors.clone(),
        data: c.store.data.clone(),
        count: c.store.count,
        dimension: c.store.dimension,
    };
    let c2: Collection<&'static str> =
        Collection::from_state(&c.config, store, c.base_layer.clone(), c.upper_layers.clone())
            .unwrap();

    for q in [vec![5, 40], vec![90, 2], vec![33, 33]] {
        let a = c.search(&q, 5).unwrap();
        let b = c2.search(&q, 5).unwrap();
        assert_eq!(a, b);
        let ta = c.true_search(&q, 5).unwrap();
        let tb = c2.true_search(&q, 5).unwrap();
        assert_eq!(ta, tb);
    }
}

#[test]
fn index_graph_build_and_search() {
    let config = IndexConfig::default();
    let data = vec!["a", "b", "c"];
    let vectors = vec![vec![0, 0], vec![1000, 0], vec![0, 1000]];
    let ix = IndexGraph::build(config, &data, &vectors);
    let hits = ix.search(&vec![900, 100], 2);
    assert_eq!(hits.len(), 2);
    assert_eq!(hits[0].data, "b");
    assert!(hits[0].distance <= hits[1].distance);

    let empty: IndexGraph<&'static str> = IndexGraph::new(config);
    let none = empty.search(&vec![0, 0], 3);
    assert!(none.is_empty());
}

#[test]
fn from_state_rejects_corrupted_snapshot() {
    let config = Config::default();
    let mut records = Vec::new();
    for k in 0..10i32 {
        records.push(rec(vec![k, k + 1], "d"));
    }
    let c = Collection::build(&config, &records).unwrap();
    let mut store = sahomedb::store::VectorStore {
        slots: c.store.slots.clone(),
        vectors: c.store.vectors.clone(),
        data: c.store.data.clone(),
        count: c.store.count,
        dimension: c.store.dimension,
    };
    // a slot that names the wrong identifier is refused
    store.slots[3] = 7;
    let r = Collection::from_state(&c.config, store, c.base_layer.clone(), c.upper_layers.clone());
    assert!(matches!(r, Err(Error::InvalidInput)));
}

#[test]
fn zero_beam_width_returns_nothing() {
    let mut config = Config::default();
    config.ef_search = 0;
    let mut c = Collection::new(&config);
    c.insert(&rec(vec![1, 2], "a")).unwrap();
    let hits = c.search(&vec![1, 2], 5).unwrap();
    assert!(hits.is_empty());

    // results never exceed the configured beam width
    let mut narrow = Config::default();
    narrow.ef_search = 2;
    let mut c2 = Collection::new(&narrow);
    for k in 0..8i32 {
        c2.insert(&rec(vec![k, k], "d")).unwrap();
    }
    let hits = c2.search(&vec![0, 0], 8).unwrap();
    assert!(hits.len() <= 2);
    assert!(!hits.is_empty());
}

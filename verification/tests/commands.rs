use kv_collections::command::{Command, Input, Outcome, Phase, Step};
use kv_collections::execution::{normalize, Execution};
use kv_collections::frame::{Fault, Frame};
use kv_collections::keys::{encode_data, encode_index, encode_meta, encode_prefix, TypeTag};
use kv_collections::meta::Metadata;
use kv_collections::store::{Entry, MemStore, Write};

fn run(store: &mut MemStore, command: Command) -> Frame {
    Execution::run(command, store).reply
}

fn rows(reply: Frame) -> Vec<Vec<u8>> {
    match reply {
        Frame::Array(rows) => rows,
        other => panic!("expected an array, got {:?}", other),
    }
}

fn sorted_pairs(reply: Frame) -> Vec<(Vec<u8>, Vec<u8>)> {
    let rows = rows(reply);
    assert_eq!(rows.len() % 2, 0);
    let mut pairs: Vec<(Vec<u8>, Vec<u8>)> =
        rows.chunks(2).map(|c| (c[0].clone(), c[1].clone())).collect();
    pairs.sort();
    pairs
}

fn sorted_rows(reply: Frame) -> Vec<Vec<u8>> {
    let mut rows = rows(reply);
    rows.sort();
    rows
}

fn list(store: &MemStore, key: &[u8]) -> Vec<Vec<u8>> {
    let raw = store.get(&encode_meta(key));
    let m = match Metadata::load(&raw) {
        Ok(Some(m)) if m.is_live() && m.tag == TypeTag::List => m,
        _ => return Vec::new(),
    };
    (0..m.size)
        .map(|i| store.get(&encode_data(TypeTag::List, key, m.version, &encode_index(i))).unwrap())
        .collect()
}

fn b(s: &str) -> Vec<u8> {
    s.as_bytes().to_vec()
}

#[test]
fn hgetall_on_a_key_never_written_is_empty() {
    let mut store = MemStore::new();
    let reply = run(&mut store, Command::hash_get_all(b"h1", true, true));
    assert_eq!(reply, Frame::Array(Vec::new()));
    assert_eq!(store.len(), 0);
}

#[test]
fn hset_then_hgetall_then_lset_is_wrong_type() {
    let mut store = MemStore::new();
    assert_eq!(run(&mut store, Command::hash_get_all(b"h1", true, true)), Frame::Array(Vec::new()));
    assert_eq!(run(&mut store, Command::hash_set(b"h1", b"f", b"v")), Frame::Integer(1));
    assert_eq!(
        run(&mut store, Command::hash_get_all(b"h1", true, true)),
        Frame::Array(vec![b("f"), b("v")])
    );
    let before = store.len();
    let outcome = Execution::run(Command::list_set_by_index(b"h1", 0, b"x"), &mut store);
    assert_eq!(outcome.reply, Frame::Error(Fault::WrongType));
    assert!(outcome.writes.is_empty());
    assert_eq!(store.len(), before);
    assert_eq!(
        run(&mut store, Command::hash_get_all(b"h1", true, true)),
        Frame::Array(vec![b("f"), b("v")])
    );
}

#[test]
fn smembers_returns_the_set_whatever_the_insertion_order() {
    let orders: [[&str; 3]; 3] = [["a", "b", "c"], ["c", "a", "b"], ["b", "c", "a"]];
    for order in orders {
        let mut store = MemStore::new();
        for member in order {
            assert_eq!(
                run(&mut store, Command::set_add(b"s1", member.as_bytes())),
                Frame::Integer(1)
            );
        }
        let members = sorted_rows(run(&mut store, Command::set_members(b"s1")));
        assert_eq!(members, vec![b("a"), b("b"), b("c")]);
    }
}

#[test]
fn smembers_has_no_duplicates() {
    let mut store = MemStore::new();
    assert_eq!(run(&mut store, Command::set_add(b"s", b"a")), Frame::Integer(1));
    assert_eq!(run(&mut store, Command::set_add(b"s", b"a")), Frame::Integer(0));
    assert_eq!(run(&mut store, Command::set_add(b"s", b"b")), Frame::Integer(1));
    assert_eq!(sorted_rows(run(&mut store, Command::set_members(b"s"))), vec![b("a"), b("b")]);
}

#[test]
fn smembers_on_a_key_never_written_is_empty() {
    let mut store = MemStore::new();
    assert_eq!(run(&mut store, Command::set_members(b"nope")), Frame::Array(Vec::new()));
}

#[test]
fn hash_round_trip_of_writes_and_deletes() {
    let mut store = MemStore::new();
    assert_eq!(run(&mut store, Command::hash_set(b"h", b"a", b"1")), Frame::Integer(1));
    assert_eq!(run(&mut store, Command::hash_set(b"h", b"b", b"2")), Frame::Integer(1));
    assert_eq!(run(&mut store, Command::hash_set(b"h", b"c", b"3")), Frame::Integer(1));
    assert_eq!(run(&mut store, Command::hash_set(b"h", b"a", b"9")), Frame::Integer(0));
    assert_eq!(run(&mut store, Command::hash_del(b"h", b"b")), Frame::Integer(1));
    assert_eq!(run(&mut store, Command::hash_del(b"h", b"b")), Frame::Integer(0));
    assert_eq!(
        sorted_pairs(run(&mut store, Command::hash_get_all(b"h", true, true))),
        vec![(b("a"), b("9")), (b("c"), b("3"))]
    );
}

#[test]
fn hash_listing_honours_the_flags() {
    let mut store = MemStore::new();
    run(&mut store, Command::hash_set(b"h", b"a", b"1"));
    run(&mut store, Command::hash_set(b"h", b"b", b"2"));
    assert_eq!(
        sorted_rows(run(&mut store, Command::hash_get_all(b"h", true, false))),
        vec![b("a"), b("b")]
    );
    assert_eq!(
        sorted_rows(run(&mut store, Command::hash_get_all(b"h", false, true))),
        vec![b("1"), b("2")]
    );
    assert_eq!(
        run(&mut store, Command::hash_get_all(b"h", false, false)),
        Frame::Array(Vec::new())
    );
}

#[test]
fn metadata_counts_the_entries() {
    let mut store = MemStore::new();
    run(&mut store, Command::hash_set(b"h", b"a", b"1"));
    run(&mut store, Command::hash_set(b"h", b"b", b"2"));
    run(&mut store, Command::hash_set(b"h", b"a", b"3"));
    let m = Metadata::load(&store.get(&encode_meta(b"h"))).unwrap().unwrap();
    assert_eq!(m, Metadata { version: 0, size: 2, tag: TypeTag::Hash, expire_at: None });
    assert_eq!(store.scan(&encode_prefix(TypeTag::Hash, b"h", 0)).len(), 2);
    run(&mut store, Command::hash_del(b"h", b"a"));
    let m = Metadata::load(&store.get(&encode_meta(b"h"))).unwrap().unwrap();
    assert_eq!(m.size, 1);
    assert_eq!(store.scan(&encode_prefix(TypeTag::Hash, b"h", 0)).len(), 1);
}

#[test]
fn emptied_collection_reads_as_absent_and_restarts_at_next_version() {
    let mut store = MemStore::new();
    run(&mut store, Command::hash_set(b"h", b"a", b"1"));
    assert_eq!(run(&mut store, Command::hash_del(b"h", b"a")), Frame::Integer(1));
    assert_eq!(run(&mut store, Command::hash_get_all(b"h", true, true)), Frame::Array(Vec::new()));
    let tombstone = Metadata::load(&store.get(&encode_meta(b"h"))).unwrap().unwrap();
    assert_eq!(tombstone.size, 0);
    assert_eq!(tombstone.version, 0);
    assert_eq!(run(&mut store, Command::set_add(b"h", b"m")), Frame::Integer(1));
    let m = Metadata::load(&store.get(&encode_meta(b"h"))).unwrap().unwrap();
    assert_eq!(m, Metadata { version: 1, size: 1, tag: TypeTag::PlainSet, expire_at: None });
}

#[test]
fn removed_collection_never_shows_its_old_entries() {
    let mut store = MemStore::new();
    run(&mut store, Command::hash_set(b"h", b"old1", b"1"));
    run(&mut store, Command::hash_set(b"h", b"old2", b"2"));
    assert_eq!(run(&mut store, Command::remove(b"h")), Frame::Integer(1));
    assert_eq!(run(&mut store, Command::remove(b"h")), Frame::Integer(0));
    assert_eq!(store.scan(&encode_prefix(TypeTag::Hash, b"h", 0)).len(), 2);
    assert_eq!(run(&mut store, Command::hash_get_all(b"h", true, true)), Frame::Array(Vec::new()));
    assert_eq!(run(&mut store, Command::hash_set(b"h", b"new", b"3")), Frame::Integer(1));
    assert_eq!(
        run(&mut store, Command::hash_get_all(b"h", true, true)),
        Frame::Array(vec![b("new"), b("3")])
    );
}

#[test]
fn list_operation_on_a_hash_is_wrong_type() {
    let mut store = MemStore::new();
    run(&mut store, Command::hash_set(b"k", b"f", b"v"));
    for command in [Command::list_set_by_index(b"k", 0, b"x"), Command::list_push(b"k", b"x")] {
        let outcome = Execution::run(command, &mut store);
        assert_eq!(outcome.reply, Frame::Error(Fault::WrongType));
        assert!(outcome.writes.is_empty());
    }
    assert_eq!(
        run(&mut store, Command::hash_get_all(b"k", true, true)),
        Frame::Array(vec![b("f"), b("v")])
    );
}

#[test]
fn hash_operation_on_a_list_is_wrong_type() {
    let mut store = MemStore::new();
    run(&mut store, Command::list_push(b"k", b"e0"));
    for command in [
        Command::hash_set(b"k", b"f", b"v"),
        Command::hash_del(b"k", b"f"),
        Command::hash_get_all(b"k", true, true),
        Command::set_members(b"k"),
        Command::set_add(b"k", b"m"),
    ] {
        let outcome = Execution::run(command, &mut store);
        assert_eq!(outcome.reply, Frame::Error(Fault::WrongType));
        assert!(outcome.writes.is_empty());
    }
    assert_eq!(list(&store, b"k"), vec![b("e0")]);
}

#[test]
fn list_push_appends_and_answers_the_length() {
    let mut store = MemStore::new();
    assert_eq!(run(&mut store, Command::list_push(b"l", b"a")), Frame::Integer(1));
    assert_eq!(run(&mut store, Command::list_push(b"l", b"b")), Frame::Integer(2));
    assert_eq!(run(&mut store, Command::list_push(b"l", b"c")), Frame::Integer(3));
    assert_eq!(list(&store, b"l"), vec![b("a"), b("b"), b("c")]);
}

#[test]
fn lset_replaces_exactly_one_element() {
    let mut store = MemStore::new();
    for e in ["a", "b", "c"] {
        run(&mut store, Command::list_push(b"l", e.as_bytes()));
    }
    let meta_before = store.get(&encode_meta(b"l"));
    let outcome = Execution::run(Command::list_set_by_index(b"l", 1, b"X"), &mut store);
    assert_eq!(outcome.reply, Frame::Simple("OK".to_string()));
    assert_eq!(
        outcome.writes,
        vec![Write::Put(encode_data(TypeTag::List, b"l", 0, &encode_index(1)), b("X"))]
    );
    assert_eq!(list(&store, b"l"), vec![b("a"), b("X"), b("c")]);
    assert_eq!(store.get(&encode_meta(b"l")), meta_before);
}

#[test]
fn lset_minus_one_is_the_last_element() {
    let mut first = MemStore::new();
    let mut second = MemStore::new();
    for e in ["a", "b", "c"] {
        run(&mut first, Command::list_push(b"l", e.as_bytes()));
        run(&mut second, Command::list_push(b"l", e.as_bytes()));
    }
    let by_end = Execution::run(Command::list_set_by_index(b"l", -1, b"Z"), &mut first);
    let by_position = Execution::run(Command::list_set_by_index(b"l", 2, b"Z"), &mut second);
    assert_eq!(by_end, by_position);
    assert_eq!(list(&first, b"l"), vec![b("a"), b("b"), b("Z")]);
    assert_eq!(list(&second, b"l"), list(&first, b"l"));
    assert_eq!(run(&mut first, Command::list_set_by_index(b"l", -3, b"A")), Frame::ok());
    assert_eq!(list(&first, b"l"), vec![b("A"), b("b"), b("Z")]);
}

#[test]
fn lset_out_of_range_changes_nothing() {
    let mut store = MemStore::new();
    for e in ["a", "b", "c"] {
        run(&mut store, Command::list_push(b"l", e.as_bytes()));
    }
    for index in [3i64, 4, -4, i64::MAX, i64::MIN] {
        let outcome = Execution::run(Command::list_set_by_index(b"l", index, b"X"), &mut store);
        assert_eq!(outcome.reply, Frame::Error(Fault::IndexOutOfRange));
        assert!(outcome.writes.is_empty());
    }
    assert_eq!(list(&store, b"l"), vec![b("a"), b("b"), b("c")]);
}

#[test]
fn lset_on_a_missing_key_is_no_such_key() {
    let mut store = MemStore::new();
    let outcome = Execution::run(Command::list_set_by_index(b"l", 0, b"X"), &mut store);
    assert_eq!(outcome.reply, Frame::Error(Fault::NoSuchKey));
    assert!(outcome.writes.is_empty());
    assert_eq!(store.len(), 0);
}

#[test]
fn normalize_counts_from_the_end() {
    assert_eq!(normalize(0, 3), Some(0));
    assert_eq!(normalize(2, 3), Some(2));
    assert_eq!(normalize(3, 3), None);
    assert_eq!(normalize(-1, 3), Some(2));
    assert_eq!(normalize(-3, 3), Some(0));
    assert_eq!(normalize(-4, 3), None);
    assert_eq!(normalize(0, 0), None);
    assert_eq!(normalize(-1, 0), None);
    assert_eq!(normalize(i64::MIN, u64::MAX), Some(u64::MAX - (1u64 << 63)));
    assert_eq!(normalize(i64::MIN, 1u64 << 63), Some(0));
    assert_eq!(normalize(i64::MIN, (1u64 << 63) - 1), None);
}

#[test]
fn other_keys_are_left_alone() {
    let mut store = MemStore::new();
    run(&mut store, Command::hash_set(b"h", b"f", b"v"));
    run(&mut store, Command::list_push(b"l", b"e"));
    run(&mut store, Command::set_add(b"s", b"m"));
    run(&mut store, Command::hash_set(b"h", b"g", b"w"));
    run(&mut store, Command::remove(b"s"));
    assert_eq!(list(&store, b"l"), vec![b("e")]);
    assert_eq!(
        sorted_pairs(run(&mut store, Command::hash_get_all(b"h", true, true))),
        vec![(b("f"), b("v")), (b("g"), b("w"))]
    );
    assert_eq!(run(&mut store, Command::set_members(b"s")), Frame::Array(Vec::new()));
}

#[test]
fn malformed_record_is_an_internal_fault() {
    let mut store = MemStore::new();
    store.put(encode_meta(b"h"), vec![1, 2, 3]);
    for command in [
        Command::hash_get_all(b"h", true, true),
        Command::hash_set(b"h", b"f", b"v"),
        Command::list_set_by_index(b"h", 0, b"x"),
        Command::remove(b"h"),
    ] {
        let outcome = Execution::run(command, &mut store);
        assert_eq!(outcome.reply, Frame::Error(Fault::Internal));
        assert!(outcome.writes.is_empty());
    }
}

#[test]
fn keyed_command_on_a_type_without_names_is_invalid() {
    let mut store = MemStore::new();
    let command = Command::ReadAll {
        tag: TypeTag::List,
        key: b("k"),
        want_fields: true,
        want_values: true,
    };
    assert_eq!(run(&mut store, command), Frame::Error(Fault::InvalidArguments));
    let command = Command::PutEntry { tag: TypeTag::Str, key: b("k"), field: b("f"), value: b("v") };
    assert_eq!(run(&mut store, command), Frame::Error(Fault::InvalidArguments));
    assert_eq!(store.len(), 0);
}

#[test]
fn execution_asks_for_the_record_first() {
    let (execution, step) = Execution::start(Command::hash_get_all(b"h1", true, true));
    assert_eq!(step, Step::Get(encode_meta(b"h1")));
    assert_eq!(execution.phase, Phase::Meta);
    assert!(!execution.is_done());
}

#[test]
fn execution_of_a_listing_scans_the_current_version() {
    let (mut execution, _) = Execution::start(Command::hash_get_all(b"h", true, true));
    let m = Metadata { version: 5, size: 2, tag: TypeTag::Hash, expire_at: None };
    let step = execution.resume(Input::Value(Some(m.encode())));
    assert_eq!(step, Step::Scan(encode_prefix(TypeTag::Hash, b"h", 5)));
    assert_eq!(execution.phase, Phase::Listing(m));
    let found = vec![
        Entry { key: encode_data(TypeTag::Hash, b"h", 5, b"y"), value: b("2") },
        Entry { key: encode_data(TypeTag::Hash, b"h", 5, b"x"), value: b("1") },
    ];
    let step = execution.resume(Input::Entries(found));
    assert_eq!(
        step,
        Step::Finish(Outcome {
            writes: Vec::new(),
            reply: Frame::Array(vec![b("y"), b("2"), b("x"), b("1")]),
        })
    );
    assert!(execution.is_done());
}

#[test]
fn scanned_pair_of_another_collection_is_a_fault() {
    let m = Metadata { version: 5, size: 1, tag: TypeTag::Hash, expire_at: None };
    let strangers = [
        encode_data(TypeTag::Hash, b"h", 4, b"x"),
        encode_data(TypeTag::Hash, b"other", 5, b"x"),
        encode_data(TypeTag::PlainSet, b"h", 5, b"x"),
        encode_meta(b"h"),
    ];
    for key in strangers {
        let (mut execution, _) = Execution::start(Command::hash_get_all(b"h", true, true));
        execution.resume(Input::Value(Some(m.encode())));
        let step = execution.resume(Input::Entries(vec![Entry { key, value: b("1") }]));
        assert_eq!(
            step,
            Step::Finish(Outcome { writes: Vec::new(), reply: Frame::Error(Fault::Internal) })
        );
    }
}

#[test]
fn execution_of_a_new_field_writes_entry_and_record() {
    let (mut execution, _) = Execution::start(Command::hash_set(b"h", b"f", b"v"));
    let m = Metadata { version: 2, size: 1, tag: TypeTag::Hash, expire_at: None };
    let dk = encode_data(TypeTag::Hash, b"h", 2, b"f");
    assert_eq!(execution.resume(Input::Value(Some(m.encode()))), Step::Get(dk.clone()));
    let grown = Metadata { version: 2, size: 2, tag: TypeTag::Hash, expire_at: None };
    assert_eq!(
        execution.resume(Input::Value(None)),
        Step::Finish(Outcome {
            writes: vec![Write::Put(dk, b("v")), Write::Put(encode_meta(b"h"), grown.encode())],
            reply: Frame::Integer(1),
        })
    );
}

#[test]
fn execution_refuses_input_of_the_wrong_sort() {
    let refusal =
        Step::Finish(Outcome { writes: Vec::new(), reply: Frame::Error(Fault::Internal) });
    let (mut execution, _) = Execution::start(Command::hash_get_all(b"h", true, true));
    assert_eq!(execution.resume(Input::Entries(Vec::new())), refusal);
    assert!(execution.is_done());
    assert_eq!(execution.resume(Input::Value(None)), refusal);
    let (mut execution, _) = Execution::start(Command::hash_set(b"h", b"f", b"v"));
    let m = Metadata { version: 2, size: 1, tag: TypeTag::Hash, expire_at: None };
    execution.resume(Input::Value(Some(m.encode())));
    assert_eq!(execution.resume(Input::Entries(Vec::new())), refusal);
}

#[test]
fn rerun_on_the_same_store_gives_the_same_outcome() {
    let mut store = MemStore::new();
    run(&mut store, Command::hash_set(b"h", b"a", b"1"));
    let attempt = |store: &MemStore| -> Step {
        let (mut execution, first) = Execution::start(Command::hash_set(b"h", b"b", b"2"));
        let sk = match first {
            Step::Get(sk) => sk,
            other => panic!("unexpected {:?}", other),
        };
        let second = execution.resume(Input::Value(store.get(&sk)));
        match second {
            Step::Get(sk) => execution.resume(Input::Value(store.get(&sk))),
            other => other,
        }
    };
    let lost = attempt(&store);
    let again = attempt(&store);
    assert_eq!(lost, again);
    let mut single = MemStore::new();
    run(&mut single, Command::hash_set(b"h", b"a", b"1"));
    let outcome = Execution::run(Command::hash_set(b"h", b"b", b"2"), &mut single);
    assert_eq!(again, Step::Finish(outcome.clone()));
    store.apply(&outcome.writes);
    assert_eq!(
        sorted_pairs(run(&mut store, Command::hash_get_all(b"h", true, true))),
        sorted_pairs(run(&mut single, Command::hash_get_all(b"h", true, true)))
    );
}

#[test]
fn list_at_capacity_refuses_a_push() {
    let mut store = MemStore::new();
    let full = Metadata { version: 0, size: i64::MAX as u64, tag: TypeTag::List, expire_at: None };
    store.put(encode_meta(b"l"), full.encode());
    let outcome = Execution::run(Command::list_push(b"l", b"x"), &mut store);
    assert_eq!(outcome.reply, Frame::Error(Fault::IndexOutOfRange));
    assert!(outcome.writes.is_empty());
}

#[test]
fn commands_of_a_shared_run_leave_one_batch() {
    let mut stepwise = MemStore::new();
    let mut batched = MemStore::new();
    for store in [&mut stepwise, &mut batched] {
        run(store, Command::hash_set(b"h", b"a", b"1"));
    }
    let first = Execution::run(Command::hash_set(b"h", b"b", b"2"), &mut stepwise);
    let second = Execution::run(Command::list_push(b"l", b"e"), &mut stepwise);
    let mut batch = first.writes.clone();
    batch.extend(second.writes.clone());
    assert_eq!(batch.len(), 4);
    batched.apply(&batch);
    assert_eq!(list(&batched, b"l"), list(&stepwise, b"l"));
    assert_eq!(
        sorted_pairs(run(&mut batched, Command::hash_get_all(b"h", true, true))),
        sorted_pairs(run(&mut stepwise, Command::hash_get_all(b"h", true, true)))
    );
    assert_eq!(batched.len(), stepwise.len());
}

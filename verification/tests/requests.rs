use bytes::Bytes;
use kv_collections::cmd::hgetall::Hgetall;
use kv_collections::cmd::lset::Lset;
use kv_collections::cmd::smembers::Smembers;
use kv_collections::cmd::Dispatch;
use kv_collections::command::Command;
use kv_collections::execution::Execution;
use kv_collections::frame::{Fault, Frame};
use kv_collections::parse::{Parse, ParseError};
use kv_collections::store::MemStore;

fn argv(args: &[&str]) -> Vec<String> {
    args.iter().map(|a| a.to_string()).collect()
}

#[test]
fn hgetall_new_keeps_the_key() {
    let request = Hgetall::new("h1");
    assert_eq!(request.key(), "h1");
    assert!(request.is_valid());
}

#[test]
fn hgetall_new_invalid_has_no_key() {
    let request = Hgetall::new_invalid();
    assert_eq!(request.key(), "");
    assert!(!request.is_valid());
}

#[test]
fn hgetall_set_key_replaces_the_key_only() {
    let mut request = Hgetall::new("a");
    request.set_key("b");
    assert_eq!(request.key(), "b");
    assert!(request.is_valid());
    let mut invalid = Hgetall::new_invalid();
    invalid.set_key("c");
    assert_eq!(invalid.key(), "c");
    assert!(!invalid.is_valid());
}

#[test]
fn hgetall_parse_argv_takes_exactly_one_argument() {
    let request = Hgetall::parse_argv(&argv(&["h1"])).unwrap();
    assert_eq!(request.key(), "h1");
    assert!(request.is_valid());
    for args in [argv(&[]), argv(&["a", "b"])] {
        let request = Hgetall::parse_argv(&args).unwrap();
        assert!(!request.is_valid());
        assert_eq!(request.key(), "");
    }
}

#[test]
fn hgetall_parse_frames_reads_simple_and_bulk_keys() {
    let mut parse = Parse::new(vec![Frame::Simple("h1".to_string()), Frame::Null]);
    let request = Hgetall::parse_frames(&mut parse).unwrap();
    assert_eq!(request.key(), "h1");
    assert!(request.is_valid());
    assert_eq!(parse.len(), 1);
    let mut parse = Parse::new(vec![Frame::Bulk("h\u{e9}".as_bytes().to_vec())]);
    let request = Hgetall::parse_frames(&mut parse).unwrap();
    assert_eq!(request.key(), "h\u{e9}");
    assert!(request.is_valid());
}

#[test]
fn hgetall_parse_frames_defers_errors() {
    let mut parse = Parse::new(Vec::new());
    assert!(!Hgetall::parse_frames(&mut parse).unwrap().is_valid());
    let mut parse = Parse::new(vec![Frame::Integer(5)]);
    assert!(!Hgetall::parse_frames(&mut parse).unwrap().is_valid());
    assert_eq!(parse.len(), 0);
    let mut parse = Parse::new(vec![Frame::Bulk(vec![0xff, 0xfe])]);
    assert!(!Hgetall::parse_frames(&mut parse).unwrap().is_valid());
}

#[test]
fn hgetall_dispatch() {
    assert_eq!(
        Hgetall::new_invalid().hgetall(true),
        Dispatch::Reply(Frame::Error(Fault::InvalidArguments))
    );
    assert_eq!(
        Hgetall::new_invalid().hgetall(false),
        Dispatch::Reply(Frame::Error(Fault::InvalidArguments))
    );
    assert_eq!(
        Hgetall::new("h1").hgetall(false),
        Dispatch::Reply(Frame::Error(Fault::NotSupported))
    );
    assert_eq!(
        Hgetall::new("h1").hgetall(true),
        Dispatch::Run(Command::hash_get_all(b"h1", true, true))
    );
}

#[test]
fn smembers_new_and_set_key() {
    let mut request = Smembers::new("s1");
    assert_eq!(request.key(), "s1");
    assert!(request.is_valid());
    request.set_key("s2");
    assert_eq!(request.key(), "s2");
    assert!(request.is_valid());
}

#[test]
fn smembers_parse_argv_takes_exactly_one_argument() {
    let request = Smembers::parse_argv(&argv(&["s1"])).unwrap();
    assert_eq!(request.key(), "s1");
    assert!(request.is_valid());
    for args in [argv(&[]), argv(&["a", "b"])] {
        let request = Smembers::parse_argv(&args).unwrap();
        assert!(!request.is_valid());
        assert_eq!(request.key(), "");
    }
}

#[test]
fn smembers_parse_frames() {
    let mut parse = Parse::new(vec![Frame::Bulk(b"s1".to_vec())]);
    let request = Smembers::parse_frames(&mut parse).unwrap();
    assert_eq!(request.key(), "s1");
    assert!(request.is_valid());
    let mut parse = Parse::new(vec![Frame::Array(Vec::new())]);
    let request = Smembers::parse_frames(&mut parse).unwrap();
    assert!(!request.is_valid());
    assert_eq!(request.key(), "");
}

#[test]
fn smembers_dispatch() {
    let mut invalid = Smembers::parse_argv(&argv(&[])).unwrap();
    invalid.set_key("s1");
    assert_eq!(invalid.smembers(true), Dispatch::Reply(Frame::Error(Fault::InvalidArguments)));
    assert_eq!(
        Smembers::new("s1").smembers(false),
        Dispatch::Reply(Frame::Error(Fault::NotSupported))
    );
    assert_eq!(Smembers::new("s1").smembers(true), Dispatch::Run(Command::set_members(b"s1")));
}

#[test]
fn lset_new_keeps_its_parts() {
    let request = Lset::new("l1", -2, Bytes::from("elem"));
    assert_eq!(request.key(), "l1");
    assert_eq!(request.index(), -2);
    assert_eq!(request.element(), b"elem".to_vec());
    assert!(request.is_valid());
}

#[test]
fn lset_new_invalid_is_empty() {
    let request = Lset::new_invalid();
    assert_eq!(request.key(), "");
    assert_eq!(request.index(), 0);
    assert_eq!(request.element(), Vec::<u8>::new());
    assert!(!request.is_valid());
}

#[test]
fn lset_from_parts_needs_a_position() {
    let request = Lset::from_parts("l", Some(4), Bytes::from(vec![1u8, 2]));
    assert!(request.is_valid());
    assert_eq!(request.index(), 4);
    assert_eq!(request.element(), vec![1u8, 2]);
    let request = Lset::from_parts("l", None, Bytes::from(vec![1u8, 2]));
    assert!(!request.is_valid());
    assert_eq!(request.key(), "");
    assert_eq!(request.element(), Vec::<u8>::new());
}

#[test]
fn lset_parse_argv_reads_key_position_element() {
    let request = Lset::parse_argv(&argv(&["l1", "-1", "x\u{e9}"])).unwrap();
    assert!(request.is_valid());
    assert_eq!(request.key(), "l1");
    assert_eq!(request.index(), -1);
    assert_eq!(request.element(), "x\u{e9}".as_bytes().to_vec());
}

#[test]
fn lset_parse_argv_defers_errors() {
    for args in [
        argv(&[]),
        argv(&["l1", "0"]),
        argv(&["l1", "0", "x", "y"]),
        argv(&["l1", "zero", "x"]),
        argv(&["l1", "1.5", "x"]),
        argv(&["l1", " 1", "x"]),
        argv(&["l1", "9223372036854775808", "x"]),
    ] {
        let request = Lset::parse_argv(&args).unwrap();
        assert!(!request.is_valid());
        assert_eq!(request.key(), "");
        assert_eq!(request.index(), 0);
        assert_eq!(request.element(), Vec::<u8>::new());
    }
}

#[test]
fn lset_parse_frames_reads_three_frames() {
    let mut parse = Parse::new(vec![
        Frame::Bulk(b"l1".to_vec()),
        Frame::Bulk(b"-3".to_vec()),
        Frame::Bulk(vec![0xff, 0x00]),
        Frame::Null,
    ]);
    let request = Lset::parse_frames(&mut parse).unwrap();
    assert!(request.is_valid());
    assert_eq!(request.key(), "l1");
    assert_eq!(request.index(), -3);
    assert_eq!(request.element(), vec![0xff, 0x00]);
    assert_eq!(parse.len(), 1);
    let mut parse = Parse::new(vec![
        Frame::Simple("l1".to_string()),
        Frame::Integer(2),
        Frame::Simple("e".to_string()),
    ]);
    let request = Lset::parse_frames(&mut parse).unwrap();
    assert!(request.is_valid());
    assert_eq!(request.index(), 2);
    assert_eq!(request.element(), b"e".to_vec());
}

#[test]
fn lset_parse_frames_stops_behind_the_frame_that_does_not_fit() {
    let mut parse = Parse::new(vec![
        Frame::Bulk(b"l1".to_vec()),
        Frame::Bulk(b"x".to_vec()),
        Frame::Bulk(b"e".to_vec()),
    ]);
    assert!(!Lset::parse_frames(&mut parse).unwrap().is_valid());
    assert_eq!(parse.len(), 1);
    let mut parse = Parse::new(vec![Frame::Bulk(b"l1".to_vec()), Frame::Integer(1)]);
    assert!(!Lset::parse_frames(&mut parse).unwrap().is_valid());
    assert_eq!(parse.len(), 0);
    let mut parse =
        Parse::new(vec![Frame::Bulk(b"l1".to_vec()), Frame::Integer(1), Frame::Null]);
    assert!(!Lset::parse_frames(&mut parse).unwrap().is_valid());
    assert_eq!(parse.len(), 0);
    let mut parse = Parse::new(vec![Frame::Null, Frame::Integer(1), Frame::Null]);
    assert!(!Lset::parse_frames(&mut parse).unwrap().is_valid());
    assert_eq!(parse.len(), 2);
}

#[test]
fn lset_dispatch() {
    assert_eq!(
        Lset::new_invalid().lset(true),
        Dispatch::Reply(Frame::Error(Fault::InvalidArguments))
    );
    assert_eq!(
        Lset::new("l", 0, Bytes::from("x")).lset(false),
        Dispatch::Reply(Frame::Error(Fault::NotSupported))
    );
    assert_eq!(
        Lset::new("l", -1, Bytes::from("x")).lset(true),
        Dispatch::Run(Command::list_set_by_index(b"l", -1, b"x"))
    );
}

#[test]
fn requests_run_end_to_end() {
    let mut store = MemStore::new();
    let run = |store: &mut MemStore, dispatch: Dispatch| -> Frame {
        match dispatch {
            Dispatch::Reply(frame) => frame,
            Dispatch::Run(command) => Execution::run(command, store).reply,
        }
    };
    assert_eq!(run(&mut store, Hgetall::new("h1").hgetall(true)), Frame::Array(Vec::new()));
    Execution::run(Command::hash_set(b"h1", b"f", b"v"), &mut store);
    assert_eq!(
        run(&mut store, Hgetall::new("h1").hgetall(true)),
        Frame::Array(vec![b"f".to_vec(), b"v".to_vec()])
    );
    assert_eq!(
        run(&mut store, Lset::new("h1", 0, Bytes::from("x")).lset(true)),
        Frame::Error(Fault::WrongType)
    );
    assert_eq!(
        run(&mut store, Smembers::new("h1").smembers(true)),
        Frame::Error(Fault::WrongType)
    );
    Execution::run(Command::list_push(b"l1", b"a"), &mut store);
    assert_eq!(run(&mut store, Lset::new("l1", -1, Bytes::from("z")).lset(true)), Frame::ok());
    assert_eq!(
        run(&mut store, Hgetall::new("h1").hgetall(false)),
        Frame::Error(Fault::NotSupported)
    );
}

#[test]
fn parse_reads_arguments_in_turn() {
    let mut parse = Parse::new(vec![
        Frame::Simple("7".to_string()),
        Frame::Bulk(b"abc".to_vec()),
        Frame::Simple("s".to_string()),
    ]);
    assert_eq!(parse.len(), 3);
    assert_eq!(parse.next_int(), Ok(7));
    assert_eq!(parse.next_string(), Ok("abc".to_string()));
    assert_eq!(parse.next_bytes(), Ok(b"s".to_vec()));
    assert_eq!(parse.len(), 0);
    assert_eq!(parse.next_string(), Err(ParseError::EndOfStream));
    assert_eq!(parse.next_int(), Err(ParseError::EndOfStream));
    assert_eq!(parse.next_bytes(), Err(ParseError::EndOfStream));
}

#[test]
fn parse_refuses_arguments_of_the_wrong_type() {
    let mut parse = Parse::new(vec![
        Frame::Null,
        Frame::Error(Fault::Internal),
        Frame::Array(Vec::new()),
        Frame::Bulk(vec![0xc3]),
        Frame::Bulk(vec![0xc3]),
        Frame::Integer(3),
    ]);
    assert_eq!(parse.next_string(), Err(ParseError::Protocol));
    assert_eq!(parse.next_int(), Err(ParseError::Protocol));
    assert_eq!(parse.next_bytes(), Err(ParseError::Protocol));
    assert_eq!(parse.next_string(), Err(ParseError::Protocol));
    assert_eq!(parse.next_int(), Err(ParseError::Protocol));
    assert_eq!(parse.next_bytes(), Err(ParseError::Protocol));
    assert_eq!(parse.len(), 0);
}

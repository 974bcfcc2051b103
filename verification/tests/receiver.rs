use qft::common::erasure::{BLOCK_SIZE, DATA_PACKET_COUNT_PER_BLOCK};
use qft::common::error::ProtocolError;
use qft::common::wire::{complete_message, request_message, upload_packet};
use qft::server::datagram::{block_lost, handle_raw_datagram};
use qft::server::event::{emit_task_event, TaskEvent, TaskStatus};
use qft::server::layout::{block_file_name, transfer_dir_name, RECV_DIR, TMP_DIR};
use qft::server::stream::{
    finish_transfer, handle_request_id, handle_stream, handle_upload_complete, Completion,
    Registration, StreamAction, StreamState,
};
use qft::server::table::TaskTable;
use qft::server::task::{DatagramOutcome, Task};

fn sample_bytes(len: usize, seed: u32) -> Vec<u8> {
    let mut bytes = Vec::with_capacity(len);
    let mut x: u32 = seed.wrapping_mul(2654435761).wrapping_add(1);
    for _ in 0..len {
        x = x.wrapping_mul(1664525).wrapping_add(1013904223);
        bytes.push((x >> 24) as u8);
    }
    bytes
}

fn source_symbol(id: usize, block: &[u8]) -> Vec<u8> {
    let mut symbol = vec![0u8, (id >> 16) as u8, (id >> 8) as u8, id as u8];
    let start = (id * 1024).min(block.len());
    let end = ((id + 1) * 1024).min(block.len());
    symbol.extend_from_slice(&block[start..end]);
    symbol.resize(1028, 0);
    symbol
}

fn table_with(transfer_id: u128, name: &str, file_size: u64) -> TaskTable {
    let mut tasks = TaskTable::new();
    let body = request_message(file_size, name);
    handle_request_id(&mut tasks, &body[1..], transfer_id).unwrap();
    tasks
}

/// Delivers the source symbols of a block of zeros, so that the block is
/// rebuilt.
fn rebuild(tasks: &mut TaskTable, transfer_id: u128, block_id: u32) -> DatagramOutcome {
    let mut last = DatagramOutcome::Stored;
    for id in 0..DATA_PACKET_COUNT_PER_BLOCK {
        let datagram = upload_packet(transfer_id, block_id, &source_symbol(id, &[]));
        last = handle_raw_datagram(tasks, &datagram).unwrap();
    }
    assert!(matches!(last, DatagramOutcome::Decoded { .. }));
    last
}

#[test]
fn new_table_is_empty() {
    let tasks = TaskTable::new();
    assert!(tasks.is_empty());
    assert_eq!(tasks.len(), 0);
    assert!(!tasks.contains(1));
    assert!(tasks.get(1).is_none());
}

#[test]
fn table_keeps_records_by_identifier() {
    let mut tasks = TaskTable::new();
    tasks.insert(5, Task::new("a".to_string(), 10).unwrap());
    tasks.insert(6, Task::new("b".to_string(), 20).unwrap());
    assert_eq!(tasks.len(), 2);
    assert!(tasks.contains(5));
    assert_eq!(tasks.get(6).unwrap().filename(), "b");
    let taken = tasks.remove(5).unwrap();
    assert_eq!(taken.filename(), "a");
    assert!(!tasks.contains(5));
    assert!(tasks.remove(5).is_none());
    assert_eq!(tasks.len(), 1);
}

#[test]
fn new_task_has_nothing() {
    let task = Task::new("movie.mkv".to_string(), 5_000_000).unwrap();
    assert_eq!(task.filename(), "movie.mkv");
    assert_eq!(task.file_size(), 5_000_000);
    assert_eq!(task.total_blocks(), 5);
    assert_eq!(task.rebuilt_count(), 0);
    assert!(!task.is_complete());
    assert_eq!(task.missing_blocks(), vec![0, 1, 2, 3, 4]);
    assert_eq!(task.pending_count(0), 0);
    assert!(!task.is_rebuilt(0));
}

#[test]
fn empty_file_is_complete_at_once() {
    let task = Task::new("empty".to_string(), 0).unwrap();
    assert_eq!(task.total_blocks(), 0);
    assert!(task.is_complete());
    assert_eq!(task.missing_blocks(), Vec::<u32>::new());
}

#[test]
fn file_with_too_many_blocks_has_no_task() {
    let limit = u32::MAX as u64 * BLOCK_SIZE;
    assert!(Task::new("big".to_string(), limit).is_some());
    assert!(Task::new("big".to_string(), limit + 1).is_none());
    assert!(Task::new("big".to_string(), u64::MAX).is_none());
}

#[test]
fn table_stores_distinct_symbols() {
    let mut tasks = table_with(9, "f", 3 * BLOCK_SIZE);
    let first = source_symbol(1, &[1, 2, 3]);
    let mut second = source_symbol(1, &[1, 2, 3]);
    second[1027] = 1;
    let deliver = |tasks: &mut TaskTable, block: u32, symbol: &[u8]| {
        handle_raw_datagram(tasks, &upload_packet(9, block, symbol))
    };
    assert_eq!(deliver(&mut tasks, 1, &first), Ok(DatagramOutcome::Stored));
    assert_eq!(deliver(&mut tasks, 1, &second), Ok(DatagramOutcome::Stored));
    assert_eq!(deliver(&mut tasks, 1, &first), Ok(DatagramOutcome::Duplicate));
    assert_eq!(deliver(&mut tasks, 2, &first), Ok(DatagramOutcome::Stored));
    assert_eq!(deliver(&mut tasks, 3, &first), Ok(DatagramOutcome::OutOfRange));
    let task = tasks.get(9).unwrap();
    assert_eq!(task.pending_count(1), 2);
    assert_eq!(task.pending_count(2), 1);
    assert_eq!(task.pending_count(0), 0);
    assert_eq!(task.rebuilt_count(), 0);
    assert_eq!(task.missing_blocks(), vec![0, 1, 2]);
}

#[test]
fn table_counts_rebuilt_blocks() {
    let mut tasks = table_with(9, "f", 3 * BLOCK_SIZE);
    let mut last = DatagramOutcome::Stored;
    for id in 0..DATA_PACKET_COUNT_PER_BLOCK {
        let datagram = upload_packet(9, 1, &source_symbol(id, &[7; 100]));
        last = handle_raw_datagram(&mut tasks, &datagram).unwrap();
    }
    let mut block = vec![7u8; 100];
    block.resize(BLOCK_SIZE as usize, 0);
    match last {
        DatagramOutcome::Decoded { transfer_id, block_id, data, event } => {
            assert_eq!(transfer_id, 9);
            assert_eq!(block_id, 1);
            assert_eq!(data, block);
            assert_eq!(event.done_block_count, 1);
            assert_eq!(event.block_count, 3);
            assert_eq!(event.uuid, "9");
            assert_eq!(event.status, TaskStatus::Recv);
        }
        other => panic!("unexpected {:?}", other),
    }
    let task = tasks.get(9).unwrap();
    assert_eq!(task.pending_count(1), 0);
    assert!(task.is_rebuilt(1));
    assert_eq!(task.rebuilt_count(), 1);
    assert_eq!(task.missing_blocks(), vec![0, 2]);
    assert!(!task.is_complete());
    let again = upload_packet(9, 1, &source_symbol(0, &[7; 100]));
    assert_eq!(handle_raw_datagram(&mut tasks, &again), Ok(DatagramOutcome::AlreadyRebuilt));
}

#[test]
fn datagram_for_unknown_transfer_is_dropped() {
    let mut tasks = table_with(1, "f", 10);
    let datagram = upload_packet(2, 0, &source_symbol(0, &[1, 2, 3]));
    assert_eq!(handle_raw_datagram(&mut tasks, &datagram), Ok(DatagramOutcome::UnknownTransfer));
    assert_eq!(tasks.get(1).unwrap().pending_count(0), 0);
    assert_eq!(tasks.len(), 1);
}

#[test]
fn datagram_with_wrong_flag_is_turned_down() {
    let mut tasks = table_with(1, "f", 10);
    let mut datagram = upload_packet(1, 0, &source_symbol(0, &[1, 2, 3]));
    datagram[0] = 0x02;
    assert_eq!(handle_raw_datagram(&mut tasks, &datagram), Err(ProtocolError::InvalidFlag));
    assert_eq!(handle_raw_datagram(&mut tasks, &[0x04, 1, 2]), Err(ProtocolError::ShortRead));
    assert_eq!(handle_raw_datagram(&mut tasks, &[]), Err(ProtocolError::ShortRead));
    assert_eq!(tasks.get(1).unwrap().pending_count(0), 0);
}

#[test]
fn datagram_for_a_block_beyond_the_file_is_dropped() {
    let mut tasks = table_with(1, "f", BLOCK_SIZE + 1);
    let ok = upload_packet(1, 1, &source_symbol(0, &[1]));
    assert_eq!(handle_raw_datagram(&mut tasks, &ok), Ok(DatagramOutcome::Stored));
    let beyond = upload_packet(1, 2, &source_symbol(0, &[1]));
    assert_eq!(handle_raw_datagram(&mut tasks, &beyond), Ok(DatagramOutcome::OutOfRange));
    assert_eq!(tasks.get(1).unwrap().pending_count(2), 0);
}

#[test]
fn receipt_is_idempotent() {
    let mut tasks = table_with(1, "f", 10);
    let datagram = upload_packet(1, 0, &source_symbol(3, &[1, 2, 3]));
    assert_eq!(handle_raw_datagram(&mut tasks, &datagram), Ok(DatagramOutcome::Stored));
    assert_eq!(tasks.get(1).unwrap().pending_count(0), 1);
    assert_eq!(handle_raw_datagram(&mut tasks, &datagram), Ok(DatagramOutcome::Duplicate));
    assert_eq!(handle_raw_datagram(&mut tasks, &datagram), Ok(DatagramOutcome::Duplicate));
    assert_eq!(tasks.get(1).unwrap().pending_count(0), 1);
}

#[test]
fn block_is_decoded_when_the_last_source_symbol_arrives() {
    let file = sample_bytes(700 * 1024, 1);
    let mut tasks = table_with(42, "notes.txt", file.len() as u64);
    for id in 0..DATA_PACKET_COUNT_PER_BLOCK - 1 {
        let datagram = upload_packet(42, 0, &source_symbol(id, &file));
        assert_eq!(handle_raw_datagram(&mut tasks, &datagram), Ok(DatagramOutcome::Stored));
    }
    assert_eq!(tasks.get(42).unwrap().pending_count(0), 1023);
    let last = upload_packet(42, 0, &source_symbol(1023, &file));
    let outcome = handle_raw_datagram(&mut tasks, &last).unwrap();
    assert_eq!(
        outcome,
        DatagramOutcome::Decoded {
            transfer_id: 42,
            block_id: 0,
            data: file.clone(),
            event: TaskEvent {
                filename: "notes.txt".to_string(),
                file_size: 700 * 1024,
                uuid: "42".to_string(),
                block_count: 1,
                done_block_count: 1,
                status: TaskStatus::Recv,
            },
        }
    );
    assert!(tasks.get(42).unwrap().is_rebuilt(0));
    assert_eq!(tasks.get(42).unwrap().pending_count(0), 0);
    assert_eq!(handle_raw_datagram(&mut tasks, &last), Ok(DatagramOutcome::AlreadyRebuilt));
    assert!(tasks.get(42).unwrap().is_complete());
}

#[test]
fn lost_block_is_missing_again() {
    let mut tasks = table_with(1, "f", 2 * BLOCK_SIZE);
    rebuild(&mut tasks, 1, 1);
    assert_eq!(tasks.get(1).unwrap().missing_blocks(), vec![0]);
    block_lost(&mut tasks, 1, 1);
    assert_eq!(tasks.get(1).unwrap().missing_blocks(), vec![0, 1]);
    assert_eq!(tasks.get(1).unwrap().pending_count(1), 0);
    block_lost(&mut tasks, 2, 1);
    block_lost(&mut tasks, 1, 9);
    assert_eq!(tasks.len(), 1);
    rebuild(&mut tasks, 1, 1);
    assert_eq!(tasks.get(1).unwrap().missing_blocks(), vec![0]);
}

#[test]
fn malformed_symbol_is_turned_down() {
    let mut tasks = table_with(7, "f", 2000);
    let short = upload_packet(7, 0, &[0u8, 0, 0, 0, 1, 2, 3]);
    assert_eq!(handle_raw_datagram(&mut tasks, &short), Err(ProtocolError::InvalidSymbol));
    let empty = upload_packet(7, 0, &[]);
    assert_eq!(handle_raw_datagram(&mut tasks, &empty), Err(ProtocolError::InvalidSymbol));
    let mut long = source_symbol(0, &[1]);
    long.push(0);
    let long = upload_packet(7, 0, &long);
    assert_eq!(handle_raw_datagram(&mut tasks, &long), Err(ProtocolError::InvalidSymbol));
    let mut other_block = source_symbol(0, &[1]);
    other_block[0] = 1;
    let other_block = upload_packet(7, 0, &other_block);
    assert_eq!(handle_raw_datagram(&mut tasks, &other_block), Err(ProtocolError::InvalidSymbol));
    let unknown = upload_packet(8, 0, &[1, 2, 3]);
    assert_eq!(handle_raw_datagram(&mut tasks, &unknown), Err(ProtocolError::InvalidSymbol));
    assert_eq!(tasks.get(7).unwrap().pending_count(0), 0);
}

#[test]
fn decoding_fails_without_every_identifier_and_is_tried_again() {
    let file = sample_bytes(2000, 2);
    let mut tasks = table_with(7, "f", file.len() as u64);
    let mut twin = source_symbol(5, &file);
    twin[1027] ^= 0xff;
    let twin = upload_packet(7, 0, &twin);
    assert_eq!(handle_raw_datagram(&mut tasks, &twin), Ok(DatagramOutcome::Stored));
    for id in 0..DATA_PACKET_COUNT_PER_BLOCK - 2 {
        let datagram = upload_packet(7, 0, &source_symbol(id, &file));
        assert_eq!(handle_raw_datagram(&mut tasks, &datagram), Ok(DatagramOutcome::Stored));
    }
    let datagram = upload_packet(7, 0, &source_symbol(1022, &file));
    assert_eq!(handle_raw_datagram(&mut tasks, &datagram), Ok(DatagramOutcome::DecodeFailed));
    assert_eq!(handle_raw_datagram(&mut tasks, &datagram), Ok(DatagramOutcome::Duplicate));
    assert_eq!(handle_raw_datagram(&mut tasks, &twin), Ok(DatagramOutcome::Duplicate));
    assert_eq!(tasks.get(7).unwrap().pending_count(0), 1024);
    assert_eq!(tasks.get(7).unwrap().missing_blocks(), vec![0]);
    let datagram = upload_packet(7, 0, &source_symbol(1023, &file));
    match handle_raw_datagram(&mut tasks, &datagram).unwrap() {
        DatagramOutcome::Decoded { data, .. } => {
            assert_eq!(data.len(), 2000);
            assert_eq!(data[..1000], file[..1000]);
        }
        other => panic!("unexpected {:?}", other),
    }
    assert_eq!(tasks.get(7).unwrap().pending_count(0), 0);
}

#[test]
fn events_tell_the_state_of_a_task() {
    let mut tasks = table_with(1, "a.bin", 3_000_000);
    rebuild(&mut tasks, 1, 2);
    let task = tasks.remove(1).unwrap();
    let id: u128 = 0x0123_4567_89ab_cdef_0123_4567_89ab_cdef;
    let event = emit_task_event(id, &task, TaskStatus::Merge);
    assert_eq!(event.filename, "a.bin");
    assert_eq!(event.file_size, 3_000_000);
    assert_eq!(event.uuid, id.to_string());
    assert_eq!(event.block_count, 3);
    assert_eq!(event.done_block_count, 1);
    assert_eq!(event.status, TaskStatus::Merge);
    assert_eq!(TaskStatus::Recv.name(), "recv");
    assert_eq!(TaskStatus::Merge.name(), "merge");
    assert_eq!(TaskStatus::Done.name(), "done");
}

#[test]
fn names_of_directories_and_files() {
    assert_eq!(TMP_DIR, "tmp");
    assert_eq!(RECV_DIR, "recv");
    assert_eq!(transfer_dir_name(0), "0");
    assert_eq!(transfer_dir_name(u128::MAX), u128::MAX.to_string());
    assert_eq!(block_file_name(17), "17");
    assert_ne!(transfer_dir_name(12), transfer_dir_name(21));
}

#[test]
fn request_registers_a_transfer() {
    let mut tasks = TaskTable::new();
    let body = request_message(5_000_000, "movie.mkv");
    let registration = handle_request_id(&mut tasks, &body[1..], 99).unwrap();
    assert_eq!(
        registration,
        Registration {
            transfer_id: 99,
            reply: 99u128.to_be_bytes().to_vec(),
            event: TaskEvent {
                filename: "movie.mkv".to_string(),
                file_size: 5_000_000,
                uuid: "99".to_string(),
                block_count: 5,
                done_block_count: 0,
                status: TaskStatus::Recv,
            },
        }
    );
    assert_eq!(tasks.len(), 1);
    assert_eq!(tasks.get(99).unwrap().file_size(), 5_000_000);
}

#[test]
fn request_is_turned_down() {
    let mut tasks = table_with(99, "f", 1);
    let body = request_message(1, "g");
    assert_eq!(handle_request_id(&mut tasks, &body[1..], 99), Err(ProtocolError::IdCollision));
    assert_eq!(tasks.get(99).unwrap().filename(), "f");
    assert_eq!(handle_request_id(&mut tasks, &body[1..5], 100), Err(ProtocolError::ShortRead));
    let body = request_message(u64::MAX, "g");
    assert_eq!(handle_request_id(&mut tasks, &body[1..], 100), Err(ProtocolError::FileTooLarge));
    let mut body = request_message(1, "g");
    body.push(0xff);
    assert_eq!(handle_request_id(&mut tasks, &body[1..], 100), Err(ProtocolError::InvalidFilename));
    assert_eq!(tasks.len(), 1);
}

#[test]
fn completion_lists_the_missing_blocks() {
    let mut tasks = table_with(3, "f", 4 * BLOCK_SIZE);
    rebuild(&mut tasks, 3, 1);
    rebuild(&mut tasks, 3, 2);
    let message = complete_message(3);
    let completion = handle_upload_complete(&tasks, &message[1..]).unwrap();
    assert_eq!(
        completion,
        Completion::Retry {
            transfer_id: 3,
            reply: vec![0x01, 0, 0, 0, 2, 0, 0, 0, 0, 0, 0, 0, 3],
            missing: vec![0, 3],
        }
    );
    assert_eq!(finish_transfer(&mut tasks, 3), None);
    assert!(tasks.contains(3));
}

#[test]
fn completion_confirms_a_complete_file() {
    let mut tasks = table_with(3, "f.bin", 2 * BLOCK_SIZE);
    rebuild(&mut tasks, 3, 1);
    rebuild(&mut tasks, 3, 0);
    let message = complete_message(3);
    let completion = handle_upload_complete(&tasks, &message[1..]).unwrap();
    let merging = TaskEvent {
        filename: "f.bin".to_string(),
        file_size: 2 * BLOCK_SIZE,
        uuid: "3".to_string(),
        block_count: 2,
        done_block_count: 2,
        status: TaskStatus::Merge,
    };
    assert_eq!(
        completion,
        Completion::Merge {
            transfer_id: 3,
            reply: vec![0x00],
            event: merging.clone(),
            filename: "f.bin".to_string(),
            block_count: 2,
        }
    );
    assert!(tasks.contains(3));
    let done = finish_transfer(&mut tasks, 3).unwrap();
    assert_eq!(done, TaskEvent { status: TaskStatus::Done, ..merging });
    assert!(tasks.is_empty());
    assert_eq!(finish_transfer(&mut tasks, 3), None);
}

#[test]
fn completion_of_no_transfer_is_turned_down() {
    let tasks = table_with(3, "f", 10);
    let message = complete_message(4);
    assert_eq!(handle_upload_complete(&tasks, &message[1..]), Err(ProtocolError::InvalidId));
    assert_eq!(handle_upload_complete(&tasks, &message[1..9]), Err(ProtocolError::ShortRead));
}

#[test]
fn stream_with_a_request() {
    let mut tasks = TaskTable::new();
    let message = request_message(700 * 1024, "notes.txt");
    let action = handle_stream(&mut tasks, StreamState::Flag, &message[..1]);
    assert_eq!(action, StreamAction::ReadToEnd { limit: 1032, next: StreamState::Request });
    let action = handle_stream(&mut tasks, StreamState::Request, &message[1..]);
    let registration = match action {
        StreamAction::Registered(registration) => registration,
        other => panic!("unexpected {:?}", other),
    };
    assert_eq!(registration.reply, registration.transfer_id.to_be_bytes().to_vec());
    assert_eq!(registration.event.uuid, registration.transfer_id.to_string());
    assert_eq!(registration.event.status, TaskStatus::Recv);
    assert_eq!(registration.event.done_block_count, 0);
    assert_eq!(registration.event.block_count, 1);
    assert!(tasks.contains(registration.transfer_id));
    assert_eq!(tasks.len(), 1);
}

#[test]
fn streams_get_different_identifiers() {
    let mut tasks = TaskTable::new();
    let message = request_message(1, "a");
    let mut ids = Vec::new();
    for _ in 0..20 {
        match handle_stream(&mut tasks, StreamState::Request, &message[1..]) {
            StreamAction::Registered(registration) => ids.push(registration.transfer_id),
            other => panic!("unexpected {:?}", other),
        }
    }
    for i in 0..ids.len() {
        for j in 0..i {
            assert_ne!(ids[i], ids[j]);
        }
    }
    assert_eq!(tasks.len(), 20);
}

#[test]
fn stream_with_a_completion() {
    let mut tasks = table_with(3, "f", 2 * BLOCK_SIZE);
    rebuild(&mut tasks, 3, 1);
    let message = complete_message(3);
    let action = handle_stream(&mut tasks, StreamState::Flag, &message[..1]);
    assert_eq!(action, StreamAction::Read { size: 16, next: StreamState::Complete });
    let action = handle_stream(&mut tasks, StreamState::Complete, &message[1..]);
    assert_eq!(
        action,
        StreamAction::Completed(Completion::Retry {
            transfer_id: 3,
            reply: vec![0x01, 0, 0, 0, 1, 0, 0, 0, 0],
            missing: vec![0],
        })
    );
    let unknown = complete_message(4);
    let action = handle_stream(&mut tasks, StreamState::Complete, &unknown[1..]);
    assert_eq!(action, StreamAction::Reject(ProtocolError::InvalidId));
}

#[test]
fn stream_with_a_heartbeat() {
    let mut tasks = TaskTable::new();
    let action = handle_stream(&mut tasks, StreamState::Flag, &[0x80]);
    assert_eq!(action, StreamAction::Pong { reply: vec![0x80], next: StreamState::Heartbeat });
    for byte in [0x80u8, 0x00, 0x55] {
        let action = handle_stream(&mut tasks, StreamState::Heartbeat, &[byte]);
        assert_eq!(action, StreamAction::Pong { reply: vec![0x80], next: StreamState::Heartbeat });
    }
    let action = handle_stream(&mut tasks, StreamState::Heartbeat, &[]);
    assert_eq!(action, StreamAction::Reject(ProtocolError::ShortRead));
    assert!(tasks.is_empty());
}

#[test]
fn unknown_flag_on_control_stream() {
    let mut tasks = TaskTable::new();
    let action = handle_stream(&mut tasks, StreamState::Flag, &[0x77]);
    assert_eq!(action, StreamAction::Reject(ProtocolError::InvalidFlag));
    assert!(tasks.is_empty());
    let action = handle_stream(&mut tasks, StreamState::Flag, &[0x04]);
    assert_eq!(action, StreamAction::Reject(ProtocolError::InvalidFlag));
    let action = handle_stream(&mut tasks, StreamState::Flag, &[]);
    assert_eq!(action, StreamAction::Reject(ProtocolError::ShortRead));
    let message = request_message(10, "still works");
    let action = handle_stream(&mut tasks, StreamState::Flag, &message[..1]);
    assert_eq!(action, StreamAction::ReadToEnd { limit: 1032, next: StreamState::Request });
    match handle_stream(&mut tasks, StreamState::Request, &message[1..]) {
        StreamAction::Registered(_) => {}
        other => panic!("unexpected {:?}", other),
    }
    assert_eq!(tasks.len(), 1);
}

#[test]
fn stream_with_a_bad_request_creates_no_task() {
    let mut tasks = TaskTable::new();
    let action = handle_stream(&mut tasks, StreamState::Request, &[0, 0, 0]);
    assert_eq!(action, StreamAction::Reject(ProtocolError::ShortRead));
    let body = request_message(u64::MAX, "huge");
    let action = handle_stream(&mut tasks, StreamState::Request, &body[1..]);
    assert_eq!(action, StreamAction::Reject(ProtocolError::FileTooLarge));
    assert!(tasks.is_empty());
}

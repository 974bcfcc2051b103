use qft::client::event::{TaskEvent, TaskStatus};
use qft::client::heartbeat::{
    handle_heartbeat_stream, HeartbeatAction, HeartbeatState, HEARTBEAT_INTERVAL_SECS,
};
use qft::client::transfer::{
    block_datagrams, pacing_interval, send_file, SendAction, SendPhase, Transfer,
};
use qft::common::erasure::{encode_block, BlockCodec, BLOCK_SIZE};
use qft::common::error::ProtocolError;
use qft::common::fec::ObjectParameters;
use qft::common::wire::{parse_upload_packet, UploadPacket};

fn compact(symbols: u64) -> ObjectParameters {
    ObjectParameters {
        transfer_length: symbols * 1024,
        symbol_size: 1024,
        source_blocks: 1,
        sub_blocks: 1,
        alignment: 8,
    }
}

fn send_event(name: &str, size: u64, pps: u64, id: u128, blocks: u32, remain: u32) -> TaskEvent {
    TaskEvent {
        filename: name.to_string(),
        file_size: size,
        pps,
        uuid: id.to_string(),
        block_count: blocks,
        remain_block_count: remain,
        status: TaskStatus::Send,
    }
}

#[test]
fn pacing_interval_in_microseconds() {
    assert_eq!(pacing_interval(0), None);
    assert_eq!(pacing_interval(1), Some(1_000_000));
    assert_eq!(pacing_interval(10_000), Some(100));
    assert_eq!(pacing_interval(180_000), Some(5));
    assert_eq!(pacing_interval(1_000_000), Some(1));
    assert_eq!(pacing_interval(3), Some(333_333));
    assert_eq!(pacing_interval(2_000_000), Some(0));
}

#[test]
fn heartbeat_goes_round() {
    assert_eq!(HEARTBEAT_INTERVAL_SECS, 5);
    let (state, action) = handle_heartbeat_stream(HeartbeatState::Ping);
    assert_eq!(state, HeartbeatState::Pong);
    assert_eq!(action, HeartbeatAction::Send { message: vec![0x80] });
    let (state, action) = handle_heartbeat_stream(state);
    assert_eq!(state, HeartbeatState::Rest);
    assert_eq!(action, HeartbeatAction::Receive { size: 1 });
    let (state, action) = handle_heartbeat_stream(state);
    assert_eq!(state, HeartbeatState::Ping);
    assert_eq!(action, HeartbeatAction::Sleep { seconds: 5 });
}

#[test]
fn new_transfer_is_in_setup() {
    let transfer = Transfer::new("a.bin".to_string(), 5_000_000, 180_000).ok().unwrap();
    assert_eq!(transfer.filename(), "a.bin");
    assert_eq!(transfer.file_size(), 5_000_000);
    assert_eq!(transfer.pps(), 180_000);
    assert_eq!(transfer.block_count(), 5);
    assert_eq!(transfer.phase(), SendPhase::Setup);
    assert_eq!(transfer.missing(), &Vec::<u32>::new());
    assert_eq!(transfer.transfer_id(), 0);
}

#[test]
fn file_with_too_many_blocks_has_no_transfer() {
    let limit = u32::MAX as u64 * BLOCK_SIZE;
    assert!(Transfer::new("big".to_string(), limit, 0).is_ok());
    assert_eq!(
        Transfer::new("big".to_string(), limit + 1, 0).err(),
        Some(ProtocolError::FileTooLarge)
    );
}

#[test]
fn transfer_without_loss() {
    let mut transfer = Transfer::new("notes.txt".to_string(), 716_800, 0).ok().unwrap();
    let action = send_file(&mut transfer, &[]);
    let mut request = vec![0x02];
    request.extend_from_slice(&716_800u64.to_be_bytes());
    request.extend_from_slice(b"notes.txt");
    assert_eq!(action, SendAction::Request { message: request, reply_size: 16 });
    assert_eq!(transfer.phase(), SendPhase::AwaitId);

    let id: u128 = 0xfeed_0000_0000_0000_0000_0000_0000_0001;
    let action = send_file(&mut transfer, &id.to_be_bytes());
    assert_eq!(
        action,
        SendAction::Transmit {
            event: send_event("notes.txt", 716_800, 0, id, 1, 1),
            blocks: vec![0],
            interval_micros: None,
        }
    );
    assert_eq!(transfer.transfer_id(), id);
    assert_eq!(transfer.phase(), SendPhase::Transmit);

    let action = send_file(&mut transfer, &[]);
    let mut complete = vec![0x08];
    complete.extend_from_slice(&id.to_be_bytes());
    assert_eq!(action, SendAction::Complete { message: complete, reply_size: 1 });
    assert_eq!(transfer.phase(), SendPhase::AwaitReply);

    let action = send_file(&mut transfer, &[0x00]);
    let done = TaskEvent {
        remain_block_count: 0,
        status: TaskStatus::Done,
        ..send_event("notes.txt", 716_800, 0, id, 1, 0)
    };
    assert_eq!(action, SendAction::Finish { event: done.clone() });
    assert_eq!(transfer.phase(), SendPhase::Done);
    assert_eq!(send_file(&mut transfer, &[1, 2, 3]), SendAction::Finish { event: done });
    assert_eq!(transfer.phase(), SendPhase::Done);
}

#[test]
fn transfer_with_a_second_round() {
    let mut transfer = Transfer::new("f".to_string(), 5_000_000, 10_000).ok().unwrap();
    send_file(&mut transfer, &[]);
    let action = send_file(&mut transfer, &7u128.to_be_bytes());
    assert_eq!(
        action,
        SendAction::Transmit {
            event: send_event("f", 5_000_000, 10_000, 7, 5, 5),
            blocks: vec![0, 1, 2, 3, 4],
            interval_micros: Some(100),
        }
    );
    send_file(&mut transfer, &[]);
    assert_eq!(send_file(&mut transfer, &[0x01]), SendAction::Read { size: 4 });
    assert_eq!(transfer.phase(), SendPhase::AwaitMissingCount);
    assert_eq!(send_file(&mut transfer, &[0, 0, 0, 2]), SendAction::Read { size: 8 });
    assert_eq!(transfer.phase(), SendPhase::AwaitMissingList(2));
    let action = send_file(&mut transfer, &[0, 0, 0, 1, 0, 0, 0, 3]);
    assert_eq!(
        action,
        SendAction::Transmit {
            event: send_event("f", 5_000_000, 10_000, 7, 5, 2),
            blocks: vec![1, 3],
            interval_micros: Some(100),
        }
    );
    assert_eq!(transfer.missing(), &vec![1, 3]);
    assert_eq!(transfer.phase(), SendPhase::Transmit);
}

#[test]
fn transfer_with_an_empty_missing_list_goes_round_again() {
    let mut transfer = Transfer::new("f".to_string(), 10, 0).ok().unwrap();
    send_file(&mut transfer, &[]);
    send_file(&mut transfer, &7u128.to_be_bytes());
    send_file(&mut transfer, &[]);
    send_file(&mut transfer, &[0x01]);
    assert_eq!(send_file(&mut transfer, &[0, 0, 0, 0]), SendAction::Read { size: 0 });
    let action = send_file(&mut transfer, &[]);
    assert_eq!(
        action,
        SendAction::Transmit {
            event: send_event("f", 10, 0, 7, 1, 0),
            blocks: vec![],
            interval_micros: None,
        }
    );
}

#[test]
fn unknown_answer_is_fatal() {
    let mut transfer = Transfer::new("f".to_string(), 10, 0).ok().unwrap();
    send_file(&mut transfer, &[]);
    send_file(&mut transfer, &7u128.to_be_bytes());
    send_file(&mut transfer, &[]);
    assert_eq!(send_file(&mut transfer, &[0x77]), SendAction::Fail(ProtocolError::InvalidFlag));
    assert_eq!(transfer.phase(), SendPhase::Failed(ProtocolError::InvalidFlag));
    assert_eq!(send_file(&mut transfer, &[0x00]), SendAction::Fail(ProtocolError::InvalidFlag));
}

#[test]
fn answers_that_end_early_are_fatal() {
    let mut transfer = Transfer::new("f".to_string(), 10, 0).ok().unwrap();
    send_file(&mut transfer, &[]);
    assert_eq!(send_file(&mut transfer, &[1, 2, 3]), SendAction::Fail(ProtocolError::ShortRead));

    let mut transfer = Transfer::new("f".to_string(), 10, 0).ok().unwrap();
    send_file(&mut transfer, &[]);
    send_file(&mut transfer, &7u128.to_be_bytes());
    send_file(&mut transfer, &[]);
    assert_eq!(send_file(&mut transfer, &[]), SendAction::Fail(ProtocolError::ShortRead));

    let mut transfer = Transfer::new("f".to_string(), 10, 0).ok().unwrap();
    send_file(&mut transfer, &[]);
    send_file(&mut transfer, &7u128.to_be_bytes());
    send_file(&mut transfer, &[]);
    send_file(&mut transfer, &[0x01]);
    assert_eq!(send_file(&mut transfer, &[0, 0, 1]), SendAction::Fail(ProtocolError::ShortRead));

    let mut transfer = Transfer::new("f".to_string(), 10, 0).ok().unwrap();
    send_file(&mut transfer, &[]);
    send_file(&mut transfer, &7u128.to_be_bytes());
    send_file(&mut transfer, &[]);
    send_file(&mut transfer, &[0x01]);
    send_file(&mut transfer, &[0, 0, 0, 2]);
    assert_eq!(
        send_file(&mut transfer, &[0, 0, 0, 1, 0, 0]),
        SendAction::Fail(ProtocolError::ShortRead)
    );
}

#[test]
fn sender_events_have_names() {
    assert_eq!(TaskStatus::Send.name(), "send");
    assert_eq!(TaskStatus::Done.name(), "done");
}

#[test]
fn datagrams_frame_the_symbols_of_a_block() {
    let codec = BlockCodec::with_config(compact(16)).unwrap();
    let block: Vec<u8> = (0..16 * 1024).map(|i| (i % 251) as u8).collect();
    let id: u128 = 0x1122_3344_5566_7788_99aa_bbcc_ddee_ff00;
    let datagrams = block_datagrams(&codec, id, 9, &block, 25);
    let symbols = encode_block(&codec, &block, 25);
    assert_eq!(datagrams.len(), 20);
    assert_eq!(symbols.len(), 20);
    for (datagram, symbol) in datagrams.iter().zip(symbols.iter()) {
        assert_eq!(datagram.len(), 21 + 1028);
        assert_eq!(
            parse_upload_packet(datagram),
            Ok(UploadPacket { transfer_id: id, block_id: 9, symbol: symbol.clone() })
        );
    }
}

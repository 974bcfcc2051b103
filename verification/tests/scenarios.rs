use std::collections::HashMap;

use qft::client::event::TaskStatus as SendStatus;
use qft::client::transfer::{send_file, SendAction, Transfer};
use qft::common::erasure::{block_len, block_offset, DATA_PACKET_COUNT_PER_BLOCK};
use qft::common::error::ProtocolError;
use qft::common::wire::upload_packet;
use qft::server::datagram::{block_lost, handle_raw_datagram};
use qft::server::event::{TaskEvent, TaskStatus};
use qft::server::layout::{block_file_name, transfer_dir_name};
use qft::server::stream::{finish_transfer, handle_stream, Completion, StreamAction, StreamState};
use qft::server::table::TaskTable;
use qft::server::task::DatagramOutcome;

fn sample_bytes(len: usize, seed: u32) -> Vec<u8> {
    let mut bytes = Vec::with_capacity(len);
    let mut x: u32 = seed.wrapping_mul(2654435761).wrapping_add(1);
    for _ in 0..len {
        x = x.wrapping_mul(1664525).wrapping_add(1013904223);
        bytes.push((x >> 24) as u8);
    }
    bytes
}

/// The receiving side as a program would run it, with a map in place of
/// the disk.
struct Receiver {
    tasks: TaskTable,
    saved: HashMap<String, Vec<u8>>,
    files: HashMap<String, Vec<u8>>,
    events: Vec<TaskEvent>,
    decoded: usize,
    most_pending: usize,
    disk_fails: usize,
}

impl Receiver {
    fn new() -> Receiver {
        Receiver {
            tasks: TaskTable::new(),
            saved: HashMap::new(),
            files: HashMap::new(),
            events: Vec::new(),
            decoded: 0,
            most_pending: 0,
            disk_fails: 0,
        }
    }

    fn path(transfer_id: u128, block_id: u32) -> String {
        format!("tmp/{}/{}", transfer_dir_name(transfer_id), block_file_name(block_id))
    }

    fn datagram(&mut self, datagram: &[u8]) -> Result<DatagramOutcome, ProtocolError> {
        let outcome = handle_raw_datagram(&mut self.tasks, datagram)?;
        if let DatagramOutcome::Decoded { transfer_id, block_id, data, event } = &outcome {
            self.decoded += 1;
            if self.disk_fails > 0 {
                self.disk_fails -= 1;
                block_lost(&mut self.tasks, *transfer_id, *block_id);
            } else {
                self.saved.insert(Receiver::path(*transfer_id, *block_id), data.clone());
                self.events.push(event.clone());
            }
        }
        Ok(outcome)
    }

    /// One exchange on a fresh control stream: what the peer wrote, and
    /// what it gets back.
    fn stream(&mut self, message: &[u8]) -> Result<Vec<u8>, ProtocolError> {
        let mut at = message.len().min(1);
        let mut action = handle_stream(&mut self.tasks, StreamState::Flag, &message[..at]);
        loop {
            match action {
                StreamAction::Read { size, next } => {
                    let end = (at + size).min(message.len());
                    action = handle_stream(&mut self.tasks, next, &message[at..end]);
                    at = end;
                }
                StreamAction::ReadToEnd { limit, next } => {
                    let end = (at + limit).min(message.len());
                    action = handle_stream(&mut self.tasks, next, &message[at..end]);
                    at = message.len();
                }
                StreamAction::Pong { reply, .. } => return Ok(reply),
                StreamAction::Registered(registration) => {
                    self.events.push(registration.event);
                    return Ok(registration.reply);
                }
                StreamAction::Completed(Completion::Retry { reply, .. }) => return Ok(reply),
                StreamAction::Completed(Completion::Merge {
                    transfer_id,
                    reply,
                    event,
                    filename,
                    block_count,
                }) => {
                    self.events.push(event);
                    let mut file = Vec::new();
                    for block_id in 0..block_count {
                        file.extend_from_slice(&self.saved[&Receiver::path(transfer_id, block_id)]);
                    }
                    self.files.insert(filename, file);
                    let done = finish_transfer(&mut self.tasks, transfer_id).unwrap();
                    self.events.push(done);
                    for block_id in 0..block_count {
                        self.saved.remove(&Receiver::path(transfer_id, block_id));
                    }
                    return Ok(reply);
                }
                StreamAction::Reject(e) => return Err(e),
            }
        }
    }
}

/// The datagrams of the source symbols of a block, as the sender frames
/// them.
fn source_datagrams(transfer_id: u128, block_id: u32, file: &[u8]) -> Vec<Vec<u8>> {
    let start = block_offset(block_id) as usize;
    let len = block_len(file.len() as u64, block_id);
    let mut block = file[start.min(file.len())..(start + len).min(file.len())].to_vec();
    block.resize(DATA_PACKET_COUNT_PER_BLOCK * 1024, 0);
    (0..DATA_PACKET_COUNT_PER_BLOCK)
        .map(|id| {
            let mut symbol = vec![0u8, (id >> 16) as u8, (id >> 8) as u8, id as u8];
            symbol.extend_from_slice(&block[id * 1024..(id + 1) * 1024]);
            upload_packet(transfer_id, block_id, &symbol)
        })
        .collect()
}

/// What a sender saw of a transfer.
struct Sent {
    transfer_id: u128,
    rounds: Vec<Vec<u32>>,
    completions: usize,
    last_status: Option<SendStatus>,
}

/// The sending side as a program would run it. `lost` says of the datagram
/// with the running number `index` of round `round` whether the network
/// drops it.
struct Sender {
    transfer: Transfer,
    action: SendAction,
    reply: Vec<u8>,
    sent: Sent,
}

impl Sender {
    fn new(name: &str, file: &[u8], pps: u64) -> Sender {
        let mut transfer = Transfer::new(name.to_string(), file.len() as u64, pps).ok().unwrap();
        let action = send_file(&mut transfer, &[]);
        Sender {
            transfer,
            action,
            reply: Vec::new(),
            sent: Sent { transfer_id: 0, rounds: Vec::new(), completions: 0, last_status: None },
        }
    }

    fn take(&mut self, size: u64) -> Vec<u8> {
        let size = (size as usize).min(self.reply.len());
        self.reply.drain(..size).collect()
    }

    /// Carries out the next action. Returns false when the transfer is
    /// over.
    fn step(
        &mut self,
        receiver: &mut Receiver,
        file: &[u8],
        lost: &mut dyn FnMut(usize, usize) -> bool,
    ) -> bool {
        let action = std::mem::replace(&mut self.action, SendAction::Read { size: 0 });
        let input = match action {
            SendAction::Request { message, reply_size } => {
                self.reply = receiver.stream(&message).unwrap();
                self.take(reply_size)
            }
            SendAction::Transmit { event, blocks, .. } => {
                self.sent.transfer_id = self.transfer.transfer_id();
                self.sent.last_status = Some(event.status);
                let round = self.sent.rounds.len();
                let mut index = 0;
                for block_id in blocks.iter() {
                    for datagram in source_datagrams(self.sent.transfer_id, *block_id, file) {
                        if !lost(round, index) {
                            receiver.datagram(&datagram).unwrap();
                        }
                        index += 1;
                    }
                }
                self.sent.rounds.push(blocks);
                Vec::new()
            }
            SendAction::Complete { message, reply_size } => {
                self.sent.completions += 1;
                self.reply = receiver.stream(&message).unwrap();
                self.take(reply_size)
            }
            SendAction::Read { size } => self.take(size),
            SendAction::Finish { event } => {
                self.sent.last_status = Some(event.status);
                assert_eq!(event.remain_block_count, 0);
                return false;
            }
            SendAction::Fail(e) => panic!("transfer failed: {:?}", e),
        };
        self.action = send_file(&mut self.transfer, &input);
        true
    }
}

fn transfer(
    receiver: &mut Receiver,
    name: &str,
    file: &[u8],
    mut lost: impl FnMut(usize, usize) -> bool,
) -> Sent {
    let mut sender = Sender::new(name, file, 0);
    while sender.step(receiver, file, &mut lost) {
        assert!(sender.sent.rounds.len() <= 10, "the transfer does not end");
    }
    sender.sent
}

#[test]
fn zero_loss_small_file() {
    let file = sample_bytes(700 * 1024, 1);
    let mut receiver = Receiver::new();
    let sent = transfer(&mut receiver, "notes.txt", &file, |_, _| false);
    assert_eq!(sent.rounds, vec![vec![0]]);
    assert_eq!(sent.completions, 1);
    assert_eq!(sent.last_status, Some(SendStatus::Done));
    assert_eq!(receiver.files["notes.txt"], file);
    assert_eq!(receiver.decoded, 1);
    assert!(receiver.tasks.is_empty());
    assert!(receiver.saved.is_empty());
    let statuses: Vec<TaskStatus> = receiver.events.iter().map(|e| e.status).collect();
    assert_eq!(
        statuses,
        vec![TaskStatus::Recv, TaskStatus::Recv, TaskStatus::Merge, TaskStatus::Done]
    );
    assert_eq!(receiver.events[0].done_block_count, 0);
    assert_eq!(receiver.events[1].done_block_count, 1);
}

#[test]
fn exact_block_boundary_file() {
    let file = sample_bytes(1_048_576, 2);
    let mut receiver = Receiver::new();
    let sent = transfer(&mut receiver, "one-block", &file, |_, _| false);
    assert_eq!(sent.rounds, vec![vec![0]]);
    assert_eq!(receiver.events[0].block_count, 1);
    assert_eq!(receiver.files["one-block"].len(), 1_048_576);
    assert_eq!(receiver.files["one-block"], file);
}

#[test]
fn empty_file() {
    let mut receiver = Receiver::new();
    let sent = transfer(&mut receiver, "empty", &[], |_, _| false);
    assert_eq!(sent.rounds, vec![Vec::<u32>::new()]);
    assert_eq!(sent.completions, 1);
    assert_eq!(receiver.files["empty"], Vec::<u8>::new());
    assert_eq!(receiver.decoded, 0);
    assert!(receiver.tasks.is_empty());
}

#[test]
fn file_of_one_byte() {
    let mut receiver = Receiver::new();
    transfer(&mut receiver, "tiny", &[0x5a], |_, _| false);
    assert_eq!(receiver.files["tiny"], vec![0x5a]);
}

#[test]
fn multi_block_with_loss_in_two_blocks() {
    let file = sample_bytes(5_000_000, 3);
    let mut receiver = Receiver::new();
    let sent = transfer(&mut receiver, "five-blocks", &file, |round, index| {
        let block = index / DATA_PACKET_COUNT_PER_BLOCK;
        round == 0 && (block == 1 || block == 3) && index % 20 == 7
    });
    assert_eq!(sent.rounds, vec![vec![0, 1, 2, 3, 4], vec![1, 3]]);
    assert_eq!(sent.completions, 2);
    assert_eq!(receiver.files["five-blocks"].len(), 5_000_000);
    assert_eq!(receiver.files["five-blocks"], file);
    assert_eq!(receiver.decoded, 5);
    assert!(receiver.tasks.is_empty());
}

#[test]
fn heavy_loss_takes_several_rounds() {
    let file = sample_bytes(5_000_000, 4);
    let mut receiver = Receiver::new();
    let sent = transfer(&mut receiver, "lossy", &file, |round, index| (index + round + 1) % 5 < 2);
    assert_eq!(
        sent.rounds,
        vec![vec![0, 1, 2, 3, 4], vec![0, 1, 2, 3, 4], vec![0, 1, 2, 3, 4]]
    );
    assert_eq!(sent.completions, 3);
    assert_eq!(receiver.files["lossy"], file);
    assert_eq!(receiver.decoded, 5);
}

#[test]
fn concurrent_transfers() {
    let first = sample_bytes(3 * 1024 * 1024, 5);
    let second = sample_bytes(3 * 1024 * 1024, 6);
    let mut receiver = Receiver::new();
    let mut a = Sender::new("first", &first, 0);
    let mut b = Sender::new("second", &second, 10_000);
    let mut none = |_: usize, _: usize| false;
    let mut late = |round: usize, index: usize| round == 0 && index == 2000;
    let (mut a_runs, mut b_runs) = (true, true);
    while a_runs || b_runs {
        if a_runs {
            a_runs = a.step(&mut receiver, &first, &mut none);
        }
        if b_runs {
            b_runs = b.step(&mut receiver, &second, &mut late);
        }
    }
    assert_ne!(a.sent.transfer_id, b.sent.transfer_id);
    assert_eq!(a.sent.rounds, vec![vec![0, 1, 2]]);
    assert_eq!(b.sent.rounds, vec![vec![0, 1, 2], vec![1]]);
    assert_eq!(receiver.files["first"], first);
    assert_eq!(receiver.files["second"], second);
    assert!(receiver.tasks.is_empty());
    assert!(receiver.saved.is_empty());
}

#[test]
fn interleaved_datagrams_of_two_transfers() {
    let first = sample_bytes(1_048_576, 7);
    let second = sample_bytes(1_048_576, 8);
    let mut receiver = Receiver::new();
    let mut a = Sender::new("a", &first, 0);
    let mut b = Sender::new("b", &second, 0);
    let mut none = |_: usize, _: usize| false;
    a.step(&mut receiver, &first, &mut none);
    b.step(&mut receiver, &second, &mut none);
    let id_a = a.transfer.transfer_id();
    let id_b = b.transfer.transfer_id();
    let datagrams_a = source_datagrams(id_a, 0, &first);
    let datagrams_b = source_datagrams(id_b, 0, &second);
    for (da, db) in datagrams_a.iter().zip(datagrams_b.iter()) {
        receiver.datagram(da).unwrap();
        receiver.datagram(db).unwrap();
    }
    assert_eq!(receiver.decoded, 2);
    assert_eq!(receiver.saved[&Receiver::path(id_a, 0)], first);
    assert_eq!(receiver.saved[&Receiver::path(id_b, 0)], second);
    assert_ne!(Receiver::path(id_a, 0), Receiver::path(id_b, 0));
    assert!(receiver.tasks.get(id_a).unwrap().is_complete());
    assert!(receiver.tasks.get(id_b).unwrap().is_complete());
}

#[test]
fn unknown_flag_creates_no_task() {
    let mut receiver = Receiver::new();
    assert_eq!(receiver.stream(&[0x77]), Err(ProtocolError::InvalidFlag));
    assert!(receiver.tasks.is_empty());
    assert_eq!(receiver.stream(&[0x80]), Ok(vec![0x80]));
    let file = sample_bytes(2048, 9);
    transfer(&mut receiver, "after", &file, |_, _| false);
    assert_eq!(receiver.files["after"], file);
}

#[test]
fn duplicate_symbol_flood() {
    let file = sample_bytes(1_048_576, 10);
    let mut receiver = Receiver::new();
    let mut sender = Sender::new("flood", &file, 0);
    let mut none = |_: usize, _: usize| false;
    sender.step(&mut receiver, &file, &mut none);
    let id = sender.transfer.transfer_id();
    let datagrams = source_datagrams(id, 0, &file);
    let mut decoded = 0;
    for pass in 0..3 {
        for datagram in datagrams.iter() {
            let outcome = receiver.datagram(datagram).unwrap();
            let pending = receiver.tasks.get(id).unwrap().pending_count(0);
            assert!(pending <= 1024);
            receiver.most_pending = receiver.most_pending.max(pending);
            match outcome {
                DatagramOutcome::Decoded { .. } => decoded += 1,
                DatagramOutcome::Stored => assert_eq!(pass, 0),
                DatagramOutcome::AlreadyRebuilt => assert!(pass > 0),
                other => panic!("unexpected {:?}", other),
            }
        }
    }
    assert_eq!(decoded, 1);
    assert_eq!(receiver.decoded, 1);
    assert_eq!(receiver.most_pending, 1023);
    let recv_events = receiver.events.iter().filter(|e| e.done_block_count == 1).count();
    assert_eq!(recv_events, 1);
    while sender.step(&mut receiver, &file, &mut |_, _| true) {}
    assert_eq!(sender.sent.completions, 1);
    assert_eq!(receiver.files["flood"], file);
}

#[test]
fn duplicate_symbols_of_a_block_that_does_not_decode() {
    let file = sample_bytes(4096, 11);
    let mut receiver = Receiver::new();
    let mut sender = Sender::new("dups", &file, 0);
    sender.step(&mut receiver, &file, &mut |_, _| false);
    let id = sender.transfer.transfer_id();
    let mut datagrams = source_datagrams(id, 0, &file);
    datagrams[0] = datagrams[1].clone();
    datagrams[0][21 + 1027] ^= 0xff;
    for pass in 0..3 {
        for (index, datagram) in datagrams.iter().enumerate() {
            match receiver.datagram(datagram).unwrap() {
                DatagramOutcome::Stored => assert!(pass == 0 && index < 1023),
                DatagramOutcome::DecodeFailed => assert!(pass == 0 && index == 1023),
                DatagramOutcome::Duplicate => assert!(pass > 0),
                other => panic!("unexpected {:?}", other),
            }
            assert!(receiver.tasks.get(id).unwrap().pending_count(0) <= 1024);
        }
    }
    assert_eq!(receiver.decoded, 0);
    assert_eq!(receiver.tasks.get(id).unwrap().pending_count(0), 1024);
}

#[test]
fn block_that_cannot_be_saved_is_sent_again() {
    let file = sample_bytes(2 * 1_048_576 + 5, 12);
    let mut receiver = Receiver::new();
    receiver.disk_fails = 1;
    let sent = transfer(&mut receiver, "retry", &file, |_, _| false);
    assert_eq!(sent.rounds, vec![vec![0, 1, 2], vec![0]]);
    assert_eq!(receiver.decoded, 4);
    assert_eq!(receiver.files["retry"], file);
    assert!(receiver.tasks.is_empty());
}

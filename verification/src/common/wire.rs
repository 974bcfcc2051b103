//! The messages of the protocol as bytes.
//!
//! Every message opens with an operation tag of one byte. Integers are
//! big-endian. `UPLOAD_PACKET` travels as a datagram; every other message
//! travels on a reliable stream that is opened for the one exchange.

use vstd::prelude::*;
use vstd::string::*;
use vstd::utf8::*;
use crate::common::bigendian::{
    be_bytes, be_value, get_u128, get_u32, get_u64, lemma_be_bytes_len, lemma_be_value_of_bytes,
    lemma_pow256_values, put_u128, put_u32, put_u64,
};
use crate::common::bytes::copy_range;
use crate::common::error::ProtocolError;
use crate::common::flags::{
    FLAG_FILE_DECODE_ERROR, FLAG_FILE_DECODE_OK, FLAG_HEARTBEAT, FLAG_REQUEST_ID,
    FLAG_UPLOAD_COMPLETE, FLAG_UPLOAD_PACKET,
};

verus! {

/// Name that the receiver's certificate is issued for and that the sender
/// asks for when it connects.
pub const SERVER_NAME: &'static str = "qft-server";

/// Address that the receiver listens on and the sender connects to when
/// none is given.
pub const DEFAULT_ADDR: &'static str = "127.0.0.1:23333";

/// Bytes of a transfer identifier on the wire.
pub const ID_SIZE: usize = 16;

/// Bytes of a block index on the wire.
pub const BLOCK_ID_SIZE: usize = 4;

/// Bytes of a file size on the wire.
pub const FILE_SIZE_SIZE: usize = 8;

/// Bytes of a datagram before the symbol: the tag, the transfer identifier
/// and the block index.
pub const UPLOAD_HEADER_SIZE: usize = 21;

/// Longest file name that the receiver takes; what comes after is cut off.
pub const MAX_FILENAME_SIZE: usize = 1024;

/// `String::from_utf8` of the standard library: the string that the bytes
/// encode, or nothing if they are not valid UTF-8.
#[verifier::external_body]
fn string_from_utf8(bytes: Vec<u8>) -> (text: Option<String>)
    ensures
        match text {
            Some(s) => valid_utf8(bytes@) && s@ == decode_utf8(bytes@),
            None => !valid_utf8(bytes@),
        },
{
    String::from_utf8(bytes).ok()
}

/// `REQUEST_ID`: the tag, the file size, and the file name up to the end of
/// the stream.
pub open spec fn spec_request(file_size: u64, filename: Seq<char>) -> Seq<u8> {
    seq![FLAG_REQUEST_ID] + be_bytes(file_size as int, 8) + encode_utf8(filename)
}

/// The message that asks for a transfer identifier.
pub fn request_message(file_size: u64, filename: &str) -> (message: Vec<u8>)
    ensures
        message@ == spec_request(file_size, filename@),
{
    let mut message: Vec<u8> = Vec::new();
    message.push(FLAG_REQUEST_ID);
    put_u64(&mut message, file_size);
    let name = filename.as_bytes();
    let ghost head = message@;
    let mut i: usize = 0;
    while i < name.len()
        invariant
            i <= name.len(),
            message@ == head + name@.take(i as int),
        decreases name.len() - i,
    {
        message.push(name[i]);
        assert(message@ =~= head + name@.take(i + 1));
        i = i + 1;
    }
    assert(message@ =~= spec_request(file_size, filename@));
    message
}

/// What a `REQUEST_ID` message asks for.
#[derive(Clone, Debug, PartialEq, Eq)]
pub struct Request {
    pub file_size: u64,
    pub filename: String,
}

/// The bytes of the file name in what follows the tag of a `REQUEST_ID`
/// message: all behind the file size, but no more than `MAX_FILENAME_SIZE`.
pub open spec fn spec_request_filename(body: Seq<u8>) -> Seq<u8> {
    if body.len() > FILE_SIZE_SIZE + MAX_FILENAME_SIZE {
        body.subrange(FILE_SIZE_SIZE as int, FILE_SIZE_SIZE + MAX_FILENAME_SIZE)
    } else {
        body.skip(FILE_SIZE_SIZE as int)
    }
}

/// Reading of what follows the tag of a `REQUEST_ID` message.
pub open spec fn spec_parse_request(body: Seq<u8>) -> Result<(u64, Seq<char>), ProtocolError> {
    if body.len() < FILE_SIZE_SIZE {
        Err(ProtocolError::ShortRead)
    } else if !valid_utf8(spec_request_filename(body)) {
        Err(ProtocolError::InvalidFilename)
    } else {
        Ok(
            (
                be_value(body.take(FILE_SIZE_SIZE as int)) as u64,
                decode_utf8(spec_request_filename(body)),
            ),
        )
    }
}

/// Reads what follows the tag of a `REQUEST_ID` message.
pub fn parse_request(body: &[u8]) -> (parsed: Result<Request, ProtocolError>)
    ensures
        match parsed {
            Ok(request) => spec_parse_request(body@) == Ok::<
                (u64, Seq<char>),
                ProtocolError,
            >((request.file_size, request.filename@)),
            Err(e) => spec_parse_request(body@) == Err::<(u64, Seq<char>), ProtocolError>(e),
        },
{
    if body.len() < FILE_SIZE_SIZE {
        return Err(ProtocolError::ShortRead);
    }
    let file_size: u64 = get_u64(body, 0);
    let end: usize = if body.len() > FILE_SIZE_SIZE + MAX_FILENAME_SIZE {
        FILE_SIZE_SIZE + MAX_FILENAME_SIZE
    } else {
        body.len()
    };
    let name = copy_range(body, FILE_SIZE_SIZE, end);
    assert(name@ =~= spec_request_filename(body@));
    assert(body@.subrange(0, 8) =~= body@.take(FILE_SIZE_SIZE as int));
    match string_from_utf8(name) {
        Some(filename) => Ok(Request { file_size, filename }),
        None => Err(ProtocolError::InvalidFilename),
    }
}

/// The answer to `REQUEST_ID`: the identifier alone, without a tag.
pub open spec fn spec_id_reply(transfer_id: u128) -> Seq<u8> {
    be_bytes(transfer_id as int, 16)
}

/// The answer to `REQUEST_ID`.
pub fn id_reply(transfer_id: u128) -> (reply: Vec<u8>)
    ensures
        reply@ == spec_id_reply(transfer_id),
{
    let mut reply: Vec<u8> = Vec::new();
    put_u128(&mut reply, transfer_id);
    assert(reply@ =~= spec_id_reply(transfer_id));
    reply
}

/// Reading of the answer to `REQUEST_ID`.
pub open spec fn spec_parse_id_reply(reply: Seq<u8>) -> Result<u128, ProtocolError> {
    if reply.len() < ID_SIZE {
        Err(ProtocolError::ShortRead)
    } else {
        Ok(be_value(reply.take(ID_SIZE as int)) as u128)
    }
}

/// Reads the answer to `REQUEST_ID`.
pub fn parse_id_reply(reply: &[u8]) -> (parsed: Result<u128, ProtocolError>)
    ensures
        parsed == spec_parse_id_reply(reply@),
{
    if reply.len() < ID_SIZE {
        return Err(ProtocolError::ShortRead);
    }
    assert(reply@.subrange(0, 16) =~= reply@.take(ID_SIZE as int));
    Ok(get_u128(reply, 0))
}

/// `UPLOAD_PACKET`: the tag, the transfer identifier, the block index, and
/// the serialized symbol.
pub open spec fn spec_upload_packet(transfer_id: u128, block_id: u32, symbol: Seq<u8>) -> Seq<u8> {
    seq![FLAG_UPLOAD_PACKET] + be_bytes(transfer_id as int, 16) + be_bytes(block_id as int, 4)
        + symbol
}

/// The datagram that carries one serialized symbol.
pub fn upload_packet(transfer_id: u128, block_id: u32, symbol: &[u8]) -> (datagram: Vec<u8>)
    ensures
        datagram@ == spec_upload_packet(transfer_id, block_id, symbol@),
{
    let mut datagram: Vec<u8> = Vec::new();
    datagram.push(FLAG_UPLOAD_PACKET);
    put_u128(&mut datagram, transfer_id);
    put_u32(&mut datagram, block_id);
    let ghost head = datagram@;
    let mut i: usize = 0;
    while i < symbol.len()
        invariant
            i <= symbol.len(),
            datagram@ == head + symbol@.take(i as int),
        decreases symbol.len() - i,
    {
        datagram.push(symbol[i]);
        assert(datagram@ =~= head + symbol@.take(i + 1));
        i = i + 1;
    }
    assert(datagram@ =~= spec_upload_packet(transfer_id, block_id, symbol@));
    datagram
}

/// What an `UPLOAD_PACKET` datagram carries.
#[derive(Clone, Debug, PartialEq, Eq)]
pub struct UploadPacket {
    pub transfer_id: u128,
    pub block_id: u32,
    pub symbol: Vec<u8>,
}

/// Reading of a datagram. The tag is looked at first; then the fields of
/// fixed width must be complete. All that follows them is the symbol.
pub open spec fn spec_parse_upload_packet(datagram: Seq<u8>) -> Result<
    (u128, u32, Seq<u8>),
    ProtocolError,
> {
    if datagram.len() == 0 {
        Err(ProtocolError::ShortRead)
    } else if datagram[0] != FLAG_UPLOAD_PACKET {
        Err(ProtocolError::InvalidFlag)
    } else if datagram.len() < UPLOAD_HEADER_SIZE {
        Err(ProtocolError::ShortRead)
    } else {
        Ok(
            (
                be_value(datagram.subrange(1, 17)) as u128,
                be_value(datagram.subrange(17, 21)) as u32,
                datagram.skip(UPLOAD_HEADER_SIZE as int),
            ),
        )
    }
}

/// Reads a datagram.
pub fn parse_upload_packet(datagram: &[u8]) -> (parsed: Result<UploadPacket, ProtocolError>)
    ensures
        match parsed {
            Ok(packet) => spec_parse_upload_packet(datagram@) == Ok::<
                (u128, u32, Seq<u8>),
                ProtocolError,
            >((packet.transfer_id, packet.block_id, packet.symbol@)),
            Err(e) => spec_parse_upload_packet(datagram@) == Err::<
                (u128, u32, Seq<u8>),
                ProtocolError,
            >(e),
        },
{
    if datagram.len() == 0 {
        return Err(ProtocolError::ShortRead);
    }
    if datagram[0] != FLAG_UPLOAD_PACKET {
        return Err(ProtocolError::InvalidFlag);
    }
    if datagram.len() < UPLOAD_HEADER_SIZE {
        return Err(ProtocolError::ShortRead);
    }
    let transfer_id: u128 = get_u128(datagram, 1);
    let block_id: u32 = get_u32(datagram, 17);
    let symbol = copy_range(datagram, UPLOAD_HEADER_SIZE, datagram.len());
    assert(symbol@ =~= datagram@.skip(UPLOAD_HEADER_SIZE as int));
    Ok(UploadPacket { transfer_id, block_id, symbol })
}

/// `UPLOAD_COMPLETE`: the tag and the transfer identifier.
pub open spec fn spec_complete(transfer_id: u128) -> Seq<u8> {
    seq![FLAG_UPLOAD_COMPLETE] + be_bytes(transfer_id as int, 16)
}

/// The message that ends a round.
pub fn complete_message(transfer_id: u128) -> (message: Vec<u8>)
    ensures
        message@ == spec_complete(transfer_id),
{
    let mut message: Vec<u8> = Vec::new();
    message.push(FLAG_UPLOAD_COMPLETE);
    put_u128(&mut message, transfer_id);
    assert(message@ =~= spec_complete(transfer_id));
    message
}

/// Reading of what follows the tag of an `UPLOAD_COMPLETE` message.
pub open spec fn spec_parse_complete(body: Seq<u8>) -> Result<u128, ProtocolError> {
    if body.len() < ID_SIZE {
        Err(ProtocolError::ShortRead)
    } else {
        Ok(be_value(body.take(ID_SIZE as int)) as u128)
    }
}

/// Reads what follows the tag of an `UPLOAD_COMPLETE` message.
pub fn parse_complete(body: &[u8]) -> (parsed: Result<u128, ProtocolError>)
    ensures
        parsed == spec_parse_complete(body@),
{
    if body.len() < ID_SIZE {
        return Err(ProtocolError::ShortRead);
    }
    assert(body@.subrange(0, 16) =~= body@.take(ID_SIZE as int));
    Ok(get_u128(body, 0))
}

/// The block indices of a list, each as four bytes.
pub open spec fn spec_block_list(blocks: Seq<u32>) -> Seq<u8>
    decreases blocks.len(),
{
    if blocks.len() == 0 {
        Seq::empty()
    } else {
        spec_block_list(blocks.drop_last()) + be_bytes(blocks.last() as int, 4)
    }
}

/// `DECODE_ERROR`: the tag, the number of missing blocks, and their indices.
pub open spec fn spec_missing_reply(missing: Seq<u32>) -> Seq<u8> {
    seq![FLAG_FILE_DECODE_ERROR] + be_bytes(missing.len() as int, 4) + spec_block_list(missing)
}

/// `DECODE_OK`: the tag alone.
pub open spec fn spec_ok_reply() -> Seq<u8> {
    seq![FLAG_FILE_DECODE_OK]
}

/// The answer to `UPLOAD_COMPLETE` when every block is rebuilt.
pub fn ok_reply() -> (reply: Vec<u8>)
    ensures
        reply@ == spec_ok_reply(),
{
    let mut reply: Vec<u8> = Vec::new();
    reply.push(FLAG_FILE_DECODE_OK);
    assert(reply@ =~= spec_ok_reply());
    reply
}

/// The answer to `UPLOAD_COMPLETE` when blocks are missing.
pub fn missing_reply(missing: &Vec<u32>) -> (reply: Vec<u8>)
    requires
        missing.len() <= u32::MAX,
    ensures
        reply@ == spec_missing_reply(missing@),
{
    let mut reply: Vec<u8> = Vec::new();
    reply.push(FLAG_FILE_DECODE_ERROR);
    put_u32(&mut reply, missing.len() as u32);
    let ghost head = reply@;
    let mut i: usize = 0;
    while i < missing.len()
        invariant
            i <= missing.len(),
            reply@ == head + spec_block_list(missing@.take(i as int)),
        decreases missing.len() - i,
    {
        put_u32(&mut reply, missing[i]);
        proof {
            assert(missing@.take(i + 1).drop_last() =~= missing@.take(i as int));
            assert(reply@ =~= head + spec_block_list(missing@.take(i + 1)));
        }
        i = i + 1;
    }
    assert(missing@.take(missing.len() as int) =~= missing@);
    assert(reply@ =~= spec_missing_reply(missing@));
    reply
}

/// The block indices that `bytes` spell, four bytes each. Bytes behind the
/// last whole index are not looked at.
pub open spec fn spec_parse_block_list(bytes: Seq<u8>) -> Seq<u32> {
    Seq::new((bytes.len() / 4) as nat, |i: int| be_value(bytes.subrange(4 * i, 4 * i + 4)) as u32)
}

/// Reading of the list of missing blocks of a `DECODE_ERROR` answer that
/// announced `count` blocks.
pub open spec fn spec_parse_missing(count: u32, bytes: Seq<u8>) -> Result<
    Seq<u32>,
    ProtocolError,
> {
    if bytes.len() < 4 * count {
        Err(ProtocolError::ShortRead)
    } else {
        Ok(spec_parse_block_list(bytes.take(4 * count)))
    }
}

/// Reads the list of missing blocks of a `DECODE_ERROR` answer that
/// announced `count` blocks.
pub fn parse_missing(count: u32, bytes: &[u8]) -> (parsed: Result<Vec<u32>, ProtocolError>)
    ensures
        match parsed {
            Ok(missing) => spec_parse_missing(count, bytes@) == Ok::<
                Seq<u32>,
                ProtocolError,
            >(missing@),
            Err(e) => spec_parse_missing(count, bytes@) == Err::<Seq<u32>, ProtocolError>(e),
        },
{
    if bytes.len() / 4 < count as usize {
        return Err(ProtocolError::ShortRead);
    }
    let ghost list = spec_parse_block_list(bytes@.take(4 * count));
    let mut missing: Vec<u32> = Vec::new();
    let mut i: usize = 0;
    while i < count as usize
        invariant
            i <= count,
            4 * count <= bytes.len(),
            list == spec_parse_block_list(bytes@.take(4 * count)),
            missing@ == list.take(i as int),
        decreases count - i,
    {
        let block: u32 = get_u32(bytes, 4 * i);
        proof {
            assert(bytes@.take(4 * count).subrange(4 * i, 4 * i + 4) =~= bytes@.subrange(
                4 * i as int,
                4 * i + 4,
            ));
            assert(list[i as int] == block);
        }
        missing.push(block);
        assert(missing@ =~= list.take(i + 1));
        i = i + 1;
    }
    assert(list.take(count as int) =~= list);
    Ok(missing)
}

/// `HEARTBEAT`: the tag alone.
pub open spec fn spec_heartbeat() -> Seq<u8> {
    seq![FLAG_HEARTBEAT]
}

/// The liveness ping and its answer.
pub fn heartbeat_message() -> (message: Vec<u8>)
    ensures
        message@ == spec_heartbeat(),
{
    let mut message: Vec<u8> = Vec::new();
    message.push(FLAG_HEARTBEAT);
    assert(message@ =~= spec_heartbeat());
    message
}

/// Reading a datagram gives back what it was made of.
pub proof fn lemma_upload_packet_round_trip(transfer_id: u128, block_id: u32, symbol: Seq<u8>)
    ensures
        spec_parse_upload_packet(spec_upload_packet(transfer_id, block_id, symbol)) == Ok::<
            (u128, u32, Seq<u8>),
            ProtocolError,
        >((transfer_id, block_id, symbol)),
{
    let datagram = spec_upload_packet(transfer_id, block_id, symbol);
    lemma_pow256_values();
    lemma_be_bytes_len(transfer_id as int, 16);
    lemma_be_bytes_len(block_id as int, 4);
    lemma_be_value_of_bytes(transfer_id as int, 16);
    lemma_be_value_of_bytes(block_id as int, 4);
    assert(datagram.subrange(1, 17) =~= be_bytes(transfer_id as int, 16));
    assert(datagram.subrange(17, 21) =~= be_bytes(block_id as int, 4));
    assert(datagram.skip(UPLOAD_HEADER_SIZE as int) =~= symbol);
}

/// Two datagrams are equal only if they carry the same symbol of the same
/// block of the same transfer.
pub proof fn lemma_upload_packet_injective(
    id_a: u128,
    block_a: u32,
    symbol_a: Seq<u8>,
    id_b: u128,
    block_b: u32,
    symbol_b: Seq<u8>,
)
    requires
        spec_upload_packet(id_a, block_a, symbol_a) == spec_upload_packet(id_b, block_b, symbol_b),
    ensures
        id_a == id_b,
        block_a == block_b,
        symbol_a == symbol_b,
{
    lemma_upload_packet_round_trip(id_a, block_a, symbol_a);
    lemma_upload_packet_round_trip(id_b, block_b, symbol_b);
}

/// Reading a request gives back the file size and the file name, as long
/// as the name is not longer than the receiver takes.
pub proof fn lemma_request_round_trip(file_size: u64, filename: Seq<char>)
    requires
        encode_utf8(filename).len() <= MAX_FILENAME_SIZE,
    ensures
        spec_request(file_size, filename)[0] == FLAG_REQUEST_ID,
        spec_parse_request(spec_request(file_size, filename).skip(1)) == Ok::<
            (u64, Seq<char>),
            ProtocolError,
        >((file_size, filename)),
{
    let body = spec_request(file_size, filename).skip(1);
    lemma_pow256_values();
    lemma_be_bytes_len(file_size as int, 8);
    lemma_be_value_of_bytes(file_size as int, 8);
    assert(body.take(FILE_SIZE_SIZE as int) =~= be_bytes(file_size as int, 8));
    assert(spec_request_filename(body) =~= encode_utf8(filename));
    encode_utf8_valid_utf8(filename);
    encode_utf8_decode_utf8(filename);
}

/// Reading the answer to a request gives back the identifier.
pub proof fn lemma_id_reply_round_trip(transfer_id: u128)
    ensures
        spec_id_reply(transfer_id).len() == ID_SIZE,
        spec_parse_id_reply(spec_id_reply(transfer_id)) == Ok::<u128, ProtocolError>(
            transfer_id,
        ),
{
    lemma_pow256_values();
    lemma_be_bytes_len(transfer_id as int, 16);
    lemma_be_value_of_bytes(transfer_id as int, 16);
    assert(spec_id_reply(transfer_id).take(ID_SIZE as int) =~= be_bytes(transfer_id as int, 16));
}

/// Reading the end of a round gives back the identifier.
pub proof fn lemma_complete_round_trip(transfer_id: u128)
    ensures
        spec_complete(transfer_id)[0] == FLAG_UPLOAD_COMPLETE,
        spec_complete(transfer_id).len() == 1 + ID_SIZE,
        spec_parse_complete(spec_complete(transfer_id).skip(1)) == Ok::<u128, ProtocolError>(
            transfer_id,
        ),
{
    lemma_pow256_values();
    lemma_be_bytes_len(transfer_id as int, 16);
    lemma_be_value_of_bytes(transfer_id as int, 16);
    assert(spec_complete(transfer_id).skip(1).take(ID_SIZE as int) =~= be_bytes(
        transfer_id as int,
        16,
    ));
}

/// A list of block indices takes four bytes for each index.
pub proof fn lemma_block_list_len(blocks: Seq<u32>)
    ensures
        spec_block_list(blocks).len() == 4 * blocks.len(),
    decreases blocks.len(),
{
    if blocks.len() > 0 {
        lemma_block_list_len(blocks.drop_last());
        lemma_be_bytes_len(blocks.last() as int, 4);
    }
}

/// Reading a list of block indices gives back the list.
pub proof fn lemma_block_list_round_trip(blocks: Seq<u32>)
    ensures
        spec_parse_block_list(spec_block_list(blocks)) == blocks,
    decreases blocks.len(),
{
    let bytes = spec_block_list(blocks);
    lemma_block_list_len(blocks);
    if blocks.len() > 0 {
        let front = blocks.drop_last();
        let head = spec_block_list(front);
        lemma_block_list_round_trip(front);
        lemma_block_list_len(front);
        lemma_pow256_values();
        lemma_be_bytes_len(blocks.last() as int, 4);
        lemma_be_value_of_bytes(blocks.last() as int, 4);
        assert forall|i: int| 0 <= i < blocks.len() implies spec_parse_block_list(bytes)[i]
            == blocks[i] by {
            if i < front.len() {
                assert(bytes.subrange(4 * i, 4 * i + 4) =~= head.subrange(4 * i, 4 * i + 4));
                assert(spec_parse_block_list(head)[i] == front[i]);
            } else {
                assert(bytes.subrange(4 * i, 4 * i + 4) =~= be_bytes(blocks.last() as int, 4));
            }
        }
    }
    assert(spec_parse_block_list(bytes) =~= blocks);
}

/// Reading a `DECODE_ERROR` answer gives back the list of missing blocks.
pub proof fn lemma_missing_reply_round_trip(missing: Seq<u32>)
    requires
        missing.len() <= u32::MAX,
    ensures
        spec_missing_reply(missing)[0] == FLAG_FILE_DECODE_ERROR,
        be_value(spec_missing_reply(missing).subrange(1, 5)) == missing.len(),
        spec_parse_missing(missing.len() as u32, spec_missing_reply(missing).skip(5)) == Ok::<
            Seq<u32>,
            ProtocolError,
        >(missing),
{
    let reply = spec_missing_reply(missing);
    lemma_pow256_values();
    lemma_be_bytes_len(missing.len() as int, 4);
    lemma_be_value_of_bytes(missing.len() as int, 4);
    lemma_block_list_len(missing);
    lemma_block_list_round_trip(missing);
    assert(reply.subrange(1, 5) =~= be_bytes(missing.len() as int, 4));
    assert(reply.skip(5) =~= spec_block_list(missing));
    assert(reply.skip(5).take(4 * (missing.len() as int)) =~= spec_block_list(missing));
}

} // verus!

//! Block geometry and the per-block erasure codec.
//!
//! A file is cut into blocks of `BLOCK_SIZE` bytes, and every block is coded
//! as a RaptorQ object of its own with one source block. The sender emits
//! the source symbols of a block and, on top, repair symbols; the receiver
//! rebuilds the block from any sufficient set of them.

use vstd::prelude::*;
use raptorq::SourceBlockEncodingPlan;
use crate::common::bigendian::lemma_be_bytes_len;
use crate::common::bytes::{optional_bytes, payloads};
use crate::common::error::DecodeFailed;
use crate::common::fec::{
    decoder_packets, decoder_push, decoder_setup, generate_plan, new_decoder, new_encoder,
    plan_symbol_count, repair_packets, source_packets, spec_decode, spec_repair_packets,
    spec_source_packets, ObjectParameters, PACKET_HEADER_SIZE,
};

verus! {

/// Bytes in one block of the file: 1 MiB.
pub const BLOCK_SIZE: u64 = 1_048_576;

/// Largest symbol payload that fits one datagram.
pub const MAX_PACKET_SIZE: u16 = 1024;

/// Every block is coded as a RaptorQ object of its own.
pub const TRANSFER_LENGTH: u64 = BLOCK_SIZE;

/// Bytes in one symbol: `MAX_PACKET_SIZE` rounded down to a multiple of
/// `ALIGNMENT`.
pub const SYMBOL_SIZE: u16 = 1024;

pub const SOURCE_BLOCKS: u8 = 1;

pub const SUB_BLOCKS: u16 = 1;

pub const ALIGNMENT: u8 = 8;

/// Source symbols in one block: `BLOCK_SIZE / MAX_PACKET_SIZE`.
pub const DATA_PACKET_COUNT_PER_BLOCK: usize = 1024;

/// Number of the one source block of every coded object.
pub const SOURCE_BLOCK_NUMBER: u8 = 0;

/// Repair symbols sent with every block, in hundredths of the number of its
/// source symbols.
pub const PARITY_RATE_PERCENT: u32 = 10;

/// Largest parity rate that the codec takes. Up to it every repair symbol
/// has an identifier of 24 bits, whatever the number of source symbols.
pub const MAX_PARITY_RATE_PERCENT: u32 = 20_000;

/// Bytes of one serialized symbol of a block: the payload identifier and
/// the symbol.
pub const PACKET_SIZE: usize = 1028;

/// The object transmission parameters of every block.
pub open spec fn spec_encode_config() -> ObjectParameters {
    ObjectParameters {
        transfer_length: TRANSFER_LENGTH,
        symbol_size: SYMBOL_SIZE,
        source_blocks: SOURCE_BLOCKS,
        sub_blocks: SUB_BLOCKS,
        alignment: ALIGNMENT,
    }
}

/// The derived parameters agree with the ones they are derived from.
pub proof fn lemma_block_geometry()
    ensures
        SYMBOL_SIZE == MAX_PACKET_SIZE - MAX_PACKET_SIZE % (ALIGNMENT as u16),
        DATA_PACKET_COUNT_PER_BLOCK == BLOCK_SIZE / (MAX_PACKET_SIZE as u64),
        DATA_PACKET_COUNT_PER_BLOCK * SYMBOL_SIZE == BLOCK_SIZE,
        PACKET_SIZE == PACKET_HEADER_SIZE + SYMBOL_SIZE,
        spec_encode_config().symbol_count() == DATA_PACKET_COUNT_PER_BLOCK,
        spec_encode_config().supported(),
{
    assert(1024int % 8 == 0);
    assert(1_048_576int / 1024 == 1024);
    assert(1_048_576int % 1024 == 0);
}

/// The object transmission parameters of every block.
pub fn encode_config() -> (config: ObjectParameters)
    ensures
        config == spec_encode_config(),
{
    ObjectParameters {
        transfer_length: TRANSFER_LENGTH,
        symbol_size: SYMBOL_SIZE,
        source_blocks: SOURCE_BLOCKS,
        sub_blocks: SUB_BLOCKS,
        alignment: ALIGNMENT,
    }
}

/// Number of blocks of a file: `file_size / BLOCK_SIZE`, rounded up.
pub open spec fn spec_block_count(file_size: int) -> int {
    (file_size + BLOCK_SIZE - 1) / (BLOCK_SIZE as int)
}

/// Number of blocks that a file of `file_size` bytes is cut into.
pub fn block_count(file_size: u64) -> (count: u64)
    ensures
        count == spec_block_count(file_size as int),
{
    let full: u64 = file_size / BLOCK_SIZE;
    if file_size % BLOCK_SIZE == 0 {
        full
    } else {
        full + 1
    }
}

/// Offset of a block in its file.
pub open spec fn spec_block_offset(block_id: int) -> int {
    block_id * BLOCK_SIZE
}

/// Bytes of the file that lie in a block: `BLOCK_SIZE` for every block but
/// the last, what is left of the file for the last, nothing beyond the end.
pub open spec fn spec_block_len(file_size: int, block_id: int) -> int {
    let start = spec_block_offset(block_id);
    if start >= file_size {
        0
    } else if file_size - start > BLOCK_SIZE {
        BLOCK_SIZE as int
    } else {
        file_size - start
    }
}

/// Offset of block `block_id` in its file.
pub fn block_offset(block_id: u32) -> (offset: u64)
    ensures
        offset == spec_block_offset(block_id as int),
{
    block_id as u64 * BLOCK_SIZE
}

/// Number of bytes of a file of `file_size` bytes that lie in block
/// `block_id`.
pub fn block_len(file_size: u64, block_id: u32) -> (len: usize)
    ensures
        len == spec_block_len(file_size as int, block_id as int),
{
    let start: u64 = block_offset(block_id);
    if start >= file_size {
        0
    } else if file_size - start > BLOCK_SIZE {
        BLOCK_SIZE as usize
    } else {
        (file_size - start) as usize
    }
}

/// Number of repair symbols of a block of `symbol_count` source symbols at
/// a parity rate: `rate × symbol_count`, rounded down.
pub open spec fn spec_parity_count(symbol_count: int, rate_percent: int) -> int {
    rate_percent * symbol_count / 100
}

/// Number of repair symbols of every block of a file at a parity rate.
pub open spec fn spec_parity_per_block(rate_percent: int) -> int {
    spec_parity_count(DATA_PACKET_COUNT_PER_BLOCK as int, rate_percent)
}

/// Number of repair symbols of every block of a file at a parity rate given
/// in hundredths.
pub fn parity_per_block(rate_percent: u32) -> (count: u64)
    ensures
        count == spec_parity_per_block(rate_percent as int),
{
    let symbols: u64 = DATA_PACKET_COUNT_PER_BLOCK as u64;
    assert(symbols == 1024);
    rate_percent as u64 * symbols / 100
}

/// A block as it is coded: its first `size` bytes, filled up with zeros to
/// `size`.
pub open spec fn padded_block(block: Seq<u8>, size: int) -> Seq<u8> {
    Seq::new(
        size as nat,
        |i: int|
            if i < block.len() {
                block[i]
            } else {
                0u8
            },
    )
}

/// The serialized symbols of a block under the parameters `config`, in the
/// order in which they are sent: every source symbol by rising identifier,
/// then the repair symbols by rising number.
pub open spec fn spec_encode(config: ObjectParameters, block: Seq<u8>, rate_percent: int) -> Seq<
    Seq<u8>,
> {
    let data = padded_block(block, config.transfer_length as int);
    spec_source_packets(SOURCE_BLOCK_NUMBER, config.symbol_size as int, data) + spec_repair_packets(
        SOURCE_BLOCK_NUMBER,
        config,
        data,
        0,
        spec_parity_count(config.symbol_count(), rate_percent) as nat,
    )
}

/// The serialized symbols of a block of a file.
pub open spec fn spec_encode_block(block: Seq<u8>, rate_percent: int) -> Seq<Seq<u8>> {
    spec_encode(spec_encode_config(), block, rate_percent)
}

/// The encoder's state that all blocks share: the parameters and the
/// encoding plan that goes with them, built once and used for every block.
pub struct BlockCodec {
    config: ObjectParameters,
    plan: SourceBlockEncodingPlan,
}

impl View for BlockCodec {
    type V = ObjectParameters;

    closed spec fn view(&self) -> ObjectParameters {
        self.config
    }
}

impl BlockCodec {
    #[verifier::type_invariant]
    spec fn plan_fits(self) -> bool {
        &&& self.config.supported()
        &&& plan_symbol_count(self.plan) == self.config.symbol_count()
    }

    /// The codec for the blocks of a file. Building the encoding plan is
    /// costly: build one codec and keep it.
    pub fn new() -> (codec: BlockCodec)
        ensures
            codec@ == spec_encode_config(),
    {
        proof {
            lemma_block_geometry();
        }
        BlockCodec {
            config: encode_config(),
            plan: generate_plan(DATA_PACKET_COUNT_PER_BLOCK as u16),
        }
    }

    /// The codec for blocks of another geometry, if the parameters are
    /// supported.
    pub fn with_config(config: ObjectParameters) -> (codec: Option<BlockCodec>)
        ensures
            match codec {
                Some(codec) => config.supported() && codec@ == config,
                None => !config.supported(),
            },
    {
        if !config.is_supported() {
            return None;
        }
        let count: u16 = (config.transfer_length / (config.symbol_size as u64)) as u16;
        Some(BlockCodec { config, plan: generate_plan(count) })
    }

    /// The parameters of the codec.
    pub fn config(&self) -> (config: ObjectParameters)
        ensures
            config == self@,
            config.supported(),
    {
        proof {
            use_type_invariant(self);
        }
        self.config
    }
}

/// Copies a block into a buffer of `size` bytes that is zero from the end
/// of the block on.
fn pad_block(block: &[u8], size: usize) -> (data: Vec<u8>)
    ensures
        data@ == padded_block(block@, size as int),
{
    let mut data: Vec<u8> = Vec::with_capacity(size);
    let mut i: usize = 0;
    while i < size
        invariant
            i <= size,
            data.len() == i,
            forall|j: int| 0 <= j < i ==> data[j] == padded_block(block@, size as int)[j],
        decreases size - i,
    {
        if i < block.len() {
            data.push(block[i]);
        } else {
            data.push(0);
        }
        i = i + 1;
    }
    assert(data@ =~= padded_block(block@, size as int));
    data
}

/// Every source packet has the size of the header and a symbol.
proof fn lemma_source_packet_len(config: ObjectParameters, data: Seq<u8>, i: int)
    requires
        config.supported(),
        data.len() == config.transfer_length,
        0 <= i < config.symbol_count(),
    ensures
        spec_source_packets(SOURCE_BLOCK_NUMBER, config.symbol_size as int, data).len()
            == config.symbol_count(),
        spec_source_packets(SOURCE_BLOCK_NUMBER, config.symbol_size as int, data)[i].len()
            == PACKET_HEADER_SIZE + config.symbol_size,
        spec_source_packets(SOURCE_BLOCK_NUMBER, config.symbol_size as int, data)[i][0]
            == SOURCE_BLOCK_NUMBER,
{
    let size = config.symbol_size as int;
    let count = config.symbol_count();
    config.lemma_block_size();
    lemma_be_bytes_len(i, 3);
    assert(0 <= i * size && (i + 1) * size <= count * size) by (nonlinear_arith)
        requires
            0 <= i < count,
            0 < size,
    ;
    assert((i + 1) * size - i * size == size) by (nonlinear_arith);
}

/// Codes one block. `block` holds the bytes of the file from the block's
/// offset on, at most a block of them; a shorter block is filled up with
/// zeros, and what goes beyond a block is left out. Returns every source
/// symbol in the order of the data, then the repair symbols, each
/// serialized. Their number is that of the source symbols times the parity
/// rate, which is given in hundredths, rounded down.
pub fn encode_block(codec: &BlockCodec, block: &[u8], parity_rate_percent: u32) -> (packets: Vec<
    Vec<u8>,
>)
    requires
        parity_rate_percent <= MAX_PARITY_RATE_PERCENT,
    ensures
        payloads(packets@) == spec_encode(codec@, block@, parity_rate_percent as int),
        packets.len() == codec@.symbol_count() + spec_parity_count(
            codec@.symbol_count(),
            parity_rate_percent as int,
        ),
        forall|i: int|
            0 <= i < packets.len() ==> well_formed_packet(codec@, (#[trigger] packets[i])@),
{
    let config = codec.config();
    proof {
        use_type_invariant(codec);
        config.lemma_block_size();
    }
    let data = pad_block(block, config.transfer_length as usize);
    let count: u64 = config.transfer_length / (config.symbol_size as u64);
    proof {
        let rate = parity_rate_percent as int;
        assert(count == config.symbol_count());
        assert(0 <= rate * count <= 20_000 * 56_403) by (nonlinear_arith)
            requires
                0 <= rate <= 20_000,
                0 <= count <= 56_403,
        ;
    }
    let parity: u64 = parity_rate_percent as u64 * count / 100;
    let encoder = new_encoder(SOURCE_BLOCK_NUMBER, &config, data.as_slice(), &codec.plan);
    let mut packets = source_packets(&encoder);
    let mut repair = repair_packets(&encoder, 0, parity as u32);
    let ghost sources = payloads(packets@);
    let ghost repairs = payloads(repair@);
    proof {
        lemma_source_packet_len(config, data@, 0);
        assert forall|i: int| 0 <= i < packets.len() implies well_formed_packet(
            config,
            (#[trigger] packets[i])@,
        ) by {
            assert(packets[i]@ == sources[i]);
            lemma_source_packet_len(config, data@, i);
        }
        assert(repairs =~= spec_repair_packets(
            SOURCE_BLOCK_NUMBER,
            config,
            data@,
            0,
            parity as nat,
        ));
        assert forall|i: int| 0 <= i < repair.len() implies well_formed_packet(
            config,
            (#[trigger] repair[i])@,
        ) by {
            lemma_be_bytes_len(config.symbol_count() + i, 3);
            assert(repair[i]@ == repairs[i]);
        }
    }
    packets.append(&mut repair);
    proof {
        assert(payloads(packets@) =~= sources + repairs);
    }
    packets
}

/// Whether a serialized symbol can be handed to the decoder: it has the
/// size of the header and a symbol, and names the one source block.
pub open spec fn well_formed_packet(config: ObjectParameters, packet: Seq<u8>) -> bool {
    packet.len() == PACKET_HEADER_SIZE + config.symbol_size && packet[0] == SOURCE_BLOCK_NUMBER
}

/// Whether a serialized symbol can be handed to the decoder of the blocks
/// of a file.
pub fn is_well_formed(packet: &[u8]) -> (well_formed: bool)
    ensures
        well_formed == well_formed_packet(spec_encode_config(), packet@),
{
    proof {
        lemma_block_geometry();
    }
    packet.len() == PACKET_SIZE && packet[0] == SOURCE_BLOCK_NUMBER
}

/// Every serialized symbol that the codec gives for a block is well
/// formed.
pub proof fn lemma_encoded_packets_are_well_formed(
    config: ObjectParameters,
    block: Seq<u8>,
    rate_percent: int,
    i: int,
)
    requires
        config.supported(),
        0 <= i < spec_encode(config, block, rate_percent).len(),
    ensures
        well_formed_packet(config, spec_encode(config, block, rate_percent)[i]),
{
    let data = padded_block(block, config.transfer_length as int);
    config.lemma_block_size();
    lemma_source_packet_len(config, data, 0);
    if i < config.symbol_count() {
        lemma_source_packet_len(config, data, i);
    } else {
        lemma_be_bytes_len(i, 3);
    }
}

/// The block that the packets from position `fed` on rebuild, given that
/// the packets before were taken in without success. The packets are taken
/// in one at a time; the first answer of the decoder is the block. A packet
/// that is not well formed ends the attempt.
pub open spec fn spec_rebuild_from(
    config: ObjectParameters,
    packets: Seq<Seq<u8>>,
    fed: int,
) -> Option<Seq<u8>>
    decreases packets.len() - fed,
{
    if fed < 0 || fed >= packets.len() {
        None
    } else if !well_formed_packet(config, packets[fed]) {
        None
    } else {
        match spec_decode(config, config.transfer_length, packets.take(fed + 1)) {
            Some(data) => Some(data),
            None => spec_rebuild_from(config, packets, fed + 1),
        }
    }
}

/// The whole block that `packets` rebuild under the parameters `config`, if
/// they do. Nothing is rebuilt under parameters that are not supported.
pub open spec fn spec_rebuild(config: ObjectParameters, packets: Seq<Seq<u8>>) -> Option<Seq<u8>> {
    if config.supported() {
        spec_rebuild_from(config, packets, 0)
    } else {
        None
    }
}

/// Rebuilds a whole block from the serialized symbols that arrived for it.
/// The symbols are handed to the decoder one at a time, in the order given,
/// until it answers. There is no answer if the symbols run out first, at a
/// symbol that is not well formed, or under parameters that are not
/// supported.
pub fn rebuild_block(config: &ObjectParameters, packets: &Vec<Vec<u8>>) -> (block: Option<Vec<u8>>)
    ensures
        optional_bytes(block) == spec_rebuild(*config, payloads(packets@)),
        block matches Some(data) ==> data.len() == config.transfer_length,
{
    if !config.is_supported() {
        return None;
    }
    let mut decoder = new_decoder(SOURCE_BLOCK_NUMBER, config, config.transfer_length);
    let ghost all = payloads(packets@);
    let mut i: usize = 0;
    while i < packets.len()
        invariant
            i <= packets.len(),
            all == payloads(packets@),
            config.supported(),
            decoder_setup(decoder) == (SOURCE_BLOCK_NUMBER, *config, config.transfer_length),
            decoder_packets(decoder) == all.take(i as int),
            spec_rebuild(*config, all) == spec_rebuild_from(*config, all, i as int),
        decreases packets.len() - i,
    {
        let packet = &packets[i];
        proof {
            assert(all[i as int] == packet@);
            assert(all.take(i as int).push(packet@) =~= all.take(i + 1));
        }
        if packet.len() != PACKET_HEADER_SIZE + config.symbol_size as usize || packet[0]
            != SOURCE_BLOCK_NUMBER {
            return None;
        }
        match decoder_push(&mut decoder, packet.as_slice()) {
            Some(data) => {
                return Some(data);
            },
            None => {},
        }
        i = i + 1;
    }
    None
}

/// The bytes of block `block_id` of a file of `file_size` bytes that
/// `packets` rebuild: the rebuilt block without the padding behind the end
/// of the file.
pub open spec fn spec_decode_block(block_id: int, file_size: int, packets: Seq<Seq<u8>>) -> Result<
    Seq<u8>,
    DecodeFailed,
> {
    match spec_rebuild(spec_encode_config(), packets) {
        Some(data) => Ok(data.take(spec_block_len(file_size, block_id))),
        None => Err(DecodeFailed),
    }
}

/// Rebuilds one block of a file from the serialized symbols that arrived
/// for it, and cuts it to the part that lies inside the file. Fails if the
/// symbols do not rebuild the block.
pub fn decode_block(block_id: u32, file_size: u64, packets: &Vec<Vec<u8>>) -> (decoded: Result<
    Vec<u8>,
    DecodeFailed,
>)
    ensures
        match decoded {
            Ok(data) => spec_decode_block(block_id as int, file_size as int, payloads(packets@))
                == Ok::<Seq<u8>, DecodeFailed>(data@) && data.len() == spec_block_len(
                file_size as int,
                block_id as int,
            ),
            Err(_) => spec_decode_block(block_id as int, file_size as int, payloads(packets@))
                is Err,
        },
{
    let config = encode_config();
    match rebuild_block(&config, packets) {
        Some(mut data) => {
            let len: usize = block_len(file_size, block_id);
            data.truncate(len);
            Ok(data)
        },
        None => Err(DecodeFailed),
    }
}

} // verus!

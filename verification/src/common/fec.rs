//! The boundary to the `raptorq` crate.
//!
//! The functions at the end of this file hand their work to the outside
//! codec. What they state of it is not proved: it is what the codec's
//! source shows, and the rest of the crate is verified against it. What
//! takes pages to state, the payload of a repair symbol and the answer of
//! the solver, has a name and no definition.

use vstd::prelude::*;
use raptorq::{
    EncodingPacket, ObjectTransmissionInformation, SourceBlockDecoder, SourceBlockEncoder,
    SourceBlockEncodingPlan,
};
use crate::common::bigendian::{be_bytes, be_value};
use crate::common::bytes::{optional_bytes, payloads};

verus! {

#[verifier::external_type_specification]
#[verifier::external_body]
pub struct ExSourceBlockEncodingPlan(raptorq::SourceBlockEncodingPlan);

#[verifier::external_type_specification]
#[verifier::external_body]
pub struct ExSourceBlockEncoder(raptorq::SourceBlockEncoder);

#[verifier::external_type_specification]
#[verifier::external_body]
pub struct ExSourceBlockDecoder(raptorq::SourceBlockDecoder);

/// Encoding symbol identifiers are 24 bits wide.
pub const SYMBOL_ID_LIMIT: u64 = 0x100_0000;

/// Bytes of the payload identifier that opens a serialized packet.
pub const PACKET_HEADER_SIZE: usize = 4;

/// Largest number of source symbols that RaptorQ admits in one block.
pub const MAX_SOURCE_SYMBOLS: u64 = 56403;

/// The numbers of source symbols per block that this crate asks of the
/// outside codec. The codec computes its pseudo-random indices in `u32` and
/// may be built with overflow checks. For the numbers left out here a sum
/// goes out of range at some 24-bit symbol identifier; for all others none
/// does.
pub open spec fn supported_symbol_count(count: int) -> bool {
    &&& 1 <= count <= MAX_SOURCE_SYMBOLS
    &&& !(978 <= count <= 989)
    &&& !(2153 <= count <= 2195)
}

/// The object transmission parameters of one coded object, as plain values.
#[derive(Clone, Copy, Debug, PartialEq, Eq)]
pub struct ObjectParameters {
    pub transfer_length: u64,
    pub symbol_size: u16,
    pub source_blocks: u8,
    pub sub_blocks: u16,
    pub alignment: u8,
}

impl ObjectParameters {
    /// Number of source symbols of the object.
    pub open spec fn symbol_count(self) -> int {
        self.transfer_length as int / self.symbol_size as int
    }

    /// The parameters that the statements of this file are made for: one
    /// source block of whole symbols, not divided into sub-blocks, with a
    /// number of symbols that is supported.
    pub open spec fn supported(self) -> bool {
        &&& self.symbol_size > 0
        &&& self.alignment > 0
        &&& self.symbol_size as int % self.alignment as int == 0
        &&& self.source_blocks == 1
        &&& self.sub_blocks == 1
        &&& self.transfer_length as int % self.symbol_size as int == 0
        &&& supported_symbol_count(self.symbol_count())
    }

    /// Whether the parameters are supported.
    pub fn is_supported(&self) -> (supported: bool)
        ensures
            supported == self.supported(),
    {
        if self.symbol_size == 0 || self.alignment == 0 {
            return false;
        }
        if self.symbol_size % (self.alignment as u16) != 0 {
            return false;
        }
        if self.source_blocks != 1 || self.sub_blocks != 1 {
            return false;
        }
        if self.transfer_length % (self.symbol_size as u64) != 0 {
            return false;
        }
        let count: u64 = self.transfer_length / (self.symbol_size as u64);
        1 <= count && count <= MAX_SOURCE_SYMBOLS && !(978 <= count && count <= 989) && !(2153
            <= count && count <= 2195)
    }

    /// The bytes of a block are the bytes of its symbols.
    pub proof fn lemma_block_size(self)
        requires
            self.supported(),
        ensures
            self.transfer_length == self.symbol_count() * self.symbol_size,
            self.transfer_length <= u32::MAX,
    {
        let count = self.symbol_count();
        let size = self.symbol_size as int;
        assert(self.transfer_length as int == size * count) by {
            vstd::arithmetic::div_mod::lemma_fundamental_div_mod(self.transfer_length as int, size);
        }
        assert(size * count == count * size) by (nonlinear_arith);
        assert(count * size <= 56403 * 65535) by (nonlinear_arith)
            requires
                0 <= count <= 56403,
                0 <= size <= 65535,
        ;
    }
}

/// Number of source symbols that an encoding plan was generated for.
pub uninterp spec fn plan_symbol_count(plan: SourceBlockEncodingPlan) -> nat;

/// What an encoder was made with: the source block number, the parameters
/// and the source data.
pub uninterp spec fn encoder_setup(encoder: SourceBlockEncoder) -> (u8, ObjectParameters, Seq<u8>);

/// What a decoder was made with: the source block number, the parameters
/// and the length of the block in bytes.
pub uninterp spec fn decoder_setup(decoder: SourceBlockDecoder) -> (u8, ObjectParameters, u64);

/// Serialized packets that a decoder was handed so far, oldest first.
pub uninterp spec fn decoder_packets(decoder: SourceBlockDecoder) -> Seq<Seq<u8>>;

/// Payload of the repair symbol with number `repair_id` of the block `data`
/// under the parameters `config`.
pub uninterp spec fn repair_symbol(
    config: ObjectParameters,
    data: Seq<u8>,
    repair_id: nat,
) -> Seq<u8>;

/// What a decoder made with `config` for a block of `block_length` bytes
/// answers once it was handed `packets`, one at a time and in this order.
pub uninterp spec fn decode_result(
    config: ObjectParameters,
    block_length: u64,
    packets: Seq<Seq<u8>>,
) -> Option<Seq<u8>>;

/// A serialized packet: the source block number, the encoding symbol
/// identifier as three big-endian bytes, then the symbol.
pub open spec fn spec_packet(block: u8, symbol_id: int, symbol: Seq<u8>) -> Seq<u8> {
    seq![block] + be_bytes(symbol_id, 3) + symbol
}

/// Encoding symbol identifier of a serialized packet.
pub open spec fn packet_symbol_id(packet: Seq<u8>) -> int {
    be_value(packet.subrange(1, 4))
}

/// Symbol that a serialized packet carries.
pub open spec fn packet_symbol(packet: Seq<u8>) -> Seq<u8> {
    packet.skip(4)
}

/// The source packets of a block: symbol `i` is the `i`-th run of
/// `symbol_size` bytes of `data` and has the identifier `i`.
pub open spec fn spec_source_packets(block: u8, symbol_size: int, data: Seq<u8>) -> Seq<Seq<u8>> {
    Seq::new(
        (data.len() as int / symbol_size) as nat,
        |i: int| spec_packet(block, i, data.subrange(i * symbol_size, (i + 1) * symbol_size)),
    )
}

/// A symbol under `config`: `bytes`, which have the size of a symbol.
/// Bytes of any other size are no symbol; zeros stand in for them.
pub open spec fn symbol_of(config: ObjectParameters, bytes: Seq<u8>) -> Seq<u8> {
    if bytes.len() == config.symbol_size {
        bytes
    } else {
        Seq::new(config.symbol_size as nat, |i: int| 0u8)
    }
}

/// `count` repair packets from repair number `start` on. Repair symbol `j`
/// has the identifier `j` plus the number of source symbols.
pub open spec fn spec_repair_packets(
    block: u8,
    config: ObjectParameters,
    data: Seq<u8>,
    start: nat,
    count: nat,
) -> Seq<Seq<u8>> {
    Seq::new(
        count,
        |i: int|
            spec_packet(
                block,
                config.symbol_count() + start + i,
                symbol_of(config, repair_symbol(config, data, (start + i) as nat)),
            ),
    )
}

/// Position of the first packet with the identifier `symbol_id`, or the
/// number of packets if there is none.
pub open spec fn first_with_id(packets: Seq<Seq<u8>>, symbol_id: int) -> int
    decreases packets.len(),
{
    if packets.len() == 0 {
        0
    } else if packet_symbol_id(packets.first()) == symbol_id {
        0
    } else {
        1 + first_with_id(packets.drop_first(), symbol_id)
    }
}

/// Every source symbol below `symbol_count` has arrived.
pub open spec fn has_all_sources(packets: Seq<Seq<u8>>, symbol_count: nat) -> bool {
    forall|id: int| 0 <= id < symbol_count ==> #[trigger] first_with_id(packets, id) < packets.len()
}

/// The source symbols in the order of their identifiers, each as it
/// arrived first.
pub open spec fn systematic_data(packets: Seq<Seq<u8>>, symbol_count: nat) -> Seq<u8>
    decreases symbol_count,
{
    if symbol_count == 0 {
        Seq::empty()
    } else {
        systematic_data(packets, (symbol_count - 1) as nat) + packet_symbol(
            packets[first_with_id(packets, symbol_count - 1)],
        )
    }
}

/// `SourceBlockEncodingPlan::generate`. The plan serves blocks of
/// `symbol_count` source symbols.
#[verifier::external_body]
pub(crate) fn generate_plan(symbol_count: u16) -> (plan: SourceBlockEncodingPlan)
    requires
        supported_symbol_count(symbol_count as int),
    ensures
        plan_symbol_count(plan) == symbol_count,
{
    SourceBlockEncodingPlan::generate(symbol_count)
}

/// `SourceBlockEncoder::with_encoding_plan`, with the parameters handed on
/// as an `ObjectTransmissionInformation`.
#[verifier::external_body]
pub(crate) fn new_encoder(
    block: u8,
    config: &ObjectParameters,
    data: &[u8],
    plan: &SourceBlockEncodingPlan,
) -> (encoder: SourceBlockEncoder)
    requires
        config.supported(),
        data.len() == config.transfer_length,
        plan_symbol_count(*plan) == config.symbol_count(),
    ensures
        encoder_setup(encoder) == (block, *config, data@),
{
    let info = ObjectTransmissionInformation::new(
        config.transfer_length,
        config.symbol_size,
        config.source_blocks,
        config.sub_blocks,
        config.alignment,
    );
    SourceBlockEncoder::with_encoding_plan(block, &info, data, plan)
}

/// `SourceBlockEncoder::source_packets`, each packet serialized. The code is
/// systematic: the source packets carry the data itself, symbol by symbol.
#[verifier::external_body]
pub(crate) fn source_packets(encoder: &SourceBlockEncoder) -> (packets: Vec<Vec<u8>>)
    requires
        encoder_setup(*encoder).1.supported(),
        encoder_setup(*encoder).2.len() == encoder_setup(*encoder).1.transfer_length,
    ensures
        payloads(packets@) == spec_source_packets(
            encoder_setup(*encoder).0,
            encoder_setup(*encoder).1.symbol_size as int,
            encoder_setup(*encoder).2,
        ),
{
    encoder.source_packets().iter().map(|packet| packet.serialize()).collect()
}

/// `SourceBlockEncoder::repair_packets`, each packet serialized. Packet `i`
/// carries the repair symbol `start + i`. Its payload has the size of a
/// symbol, and depends on what the encoder was made with and on that number
/// alone.
#[verifier::external_body]
pub(crate) fn repair_packets(encoder: &SourceBlockEncoder, start: u32, count: u32) -> (packets: Vec<
    Vec<u8>,
>)
    requires
        encoder_setup(*encoder).1.supported(),
        encoder_setup(*encoder).2.len() == encoder_setup(*encoder).1.transfer_length,
        encoder_setup(*encoder).1.symbol_count() + start + count <= SYMBOL_ID_LIMIT,
    ensures
        packets.len() == count,
        forall|i: int|
            0 <= i < packets.len() ==> (#[trigger] packets[i])@ == spec_packet(
                encoder_setup(*encoder).0,
                encoder_setup(*encoder).1.symbol_count() + start + i,
                symbol_of(
                    encoder_setup(*encoder).1,
                    repair_symbol(
                        encoder_setup(*encoder).1,
                        encoder_setup(*encoder).2,
                        (start + i) as nat,
                    ),
                ),
            ),
{
    encoder.repair_packets(start, count).iter().map(|packet| packet.serialize()).collect()
}

/// `SourceBlockDecoder::new`, with the parameters handed on as an
/// `ObjectTransmissionInformation`. The decoder starts without packets.
#[verifier::external_body]
pub(crate) fn new_decoder(block: u8, config: &ObjectParameters, block_length: u64) -> (decoder:
    SourceBlockDecoder)
    requires
        config.supported(),
        block_length == config.transfer_length,
    ensures
        decoder_setup(decoder) == (block, *config, block_length),
        decoder_packets(decoder) == Seq::<Seq<u8>>::empty(),
{
    let info = ObjectTransmissionInformation::new(
        config.transfer_length,
        config.symbol_size,
        config.source_blocks,
        config.sub_blocks,
        config.alignment,
    );
    SourceBlockDecoder::new(block, &info, block_length)
}

/// What a decoder answers once it has `packets`: nothing while it has fewer
/// packets than the block has source symbols; the source symbols themselves,
/// in the order of their identifiers, once all of them have arrived; in
/// between whatever solving for the block gives.
pub open spec fn spec_decode(
    config: ObjectParameters,
    block_length: u64,
    packets: Seq<Seq<u8>>,
) -> Option<Seq<u8>> {
    if packets.len() < config.symbol_count() {
        None
    } else if has_all_sources(packets, config.symbol_count() as nat) {
        Some(systematic_data(packets, config.symbol_count() as nat))
    } else {
        decode_result(config, block_length, packets)
    }
}

/// `SourceBlockDecoder::decode` on one packet, read with
/// `EncodingPacket::deserialize`. The decoder takes the packet in and tries
/// to rebuild the block from all it has. With fewer packets than source
/// symbols it gives up at once. Once every source symbol has arrived it
/// hands back their concatenation, without solving anything. Whatever it
/// hands back has the length of the block.
#[verifier::external_body]
pub(crate) fn decoder_push(decoder: &mut SourceBlockDecoder, packet: &[u8]) -> (decoded: Option<
    Vec<u8>,
>)
    requires
        decoder_setup(*old(decoder)).1.supported(),
        decoder_setup(*old(decoder)).2 == decoder_setup(*old(decoder)).1.transfer_length,
        packet.len() == PACKET_HEADER_SIZE + decoder_setup(*old(decoder)).1.symbol_size,
        packet[0] == decoder_setup(*old(decoder)).0,
    ensures
        decoder_setup(*final(decoder)) == decoder_setup(*old(decoder)),
        decoder_packets(*final(decoder)) == decoder_packets(*old(decoder)).push(packet@),
        optional_bytes(decoded) == (if decoder_packets(*final(decoder)).len() < decoder_setup(
            *old(decoder),
        ).1.symbol_count() {
            None
        } else if has_all_sources(
            decoder_packets(*final(decoder)),
            decoder_setup(*old(decoder)).1.symbol_count() as nat,
        ) {
            Some(
                systematic_data(
                    decoder_packets(*final(decoder)),
                    decoder_setup(*old(decoder)).1.symbol_count() as nat,
                ),
            )
        } else {
            decode_result(
                decoder_setup(*old(decoder)).1,
                decoder_setup(*old(decoder)).2,
                decoder_packets(*final(decoder)),
            )
        }),
        decoded matches Some(data) ==> data.len() == decoder_setup(*old(decoder)).2,
{
    decoder.decode(std::iter::once(EncodingPacket::deserialize(packet)))
}

} // verus!

//! What is known of the code without solving anything: it is systematic.
//!
//! The source symbols of a block are the block itself, cut into symbols.
//! Whoever has all of them has the block, whatever the order in which they
//! came. What the repair symbols add is the business of the outside codec
//! and is not stated here.

use vstd::prelude::*;
use vstd::set_lib::*;
use crate::common::bigendian::{be_bytes, lemma_be_bytes_len, lemma_be_value_of_bytes, pow256};
use crate::common::blocks::{lemma_padding_is_cut_off, spec_file_block};
use crate::common::erasure::{
    lemma_block_geometry, padded_block, spec_decode_block, spec_encode_config, spec_rebuild,
    spec_rebuild_from, well_formed_packet, SOURCE_BLOCK_NUMBER,
};
use crate::common::error::DecodeFailed;
use crate::common::fec::{
    first_with_id, has_all_sources, packet_symbol, packet_symbol_id, spec_decode, spec_packet,
    spec_source_packets, systematic_data, ObjectParameters,
};

verus! {

/// The source packets of a block as it is coded under `config`.
pub open spec fn spec_sources(config: ObjectParameters, block: Seq<u8>) -> Seq<Seq<u8>> {
    spec_source_packets(
        SOURCE_BLOCK_NUMBER,
        config.symbol_size as int,
        padded_block(block, config.transfer_length as int),
    )
}

/// Whether `packets` are the source packets of a block in some order: as
/// many as the block has source symbols, every one a source packet of the
/// block, and every source packet of the block among them.
pub open spec fn arranges_sources(
    config: ObjectParameters,
    block: Seq<u8>,
    packets: Seq<Seq<u8>>,
) -> bool {
    &&& packets.len() == config.symbol_count()
    &&& forall|j: int|
        0 <= j < packets.len() ==> spec_sources(config, block).contains(#[trigger] packets[j])
    &&& forall|i: int|
        0 <= i < config.symbol_count() ==> packets.contains(
            #[trigger] spec_sources(config, block)[i],
        )
}

/// Source packet `i` of a block is well formed, has the identifier `i`, and
/// carries the `i`-th symbol of the block.
pub proof fn lemma_source_packet(config: ObjectParameters, block: Seq<u8>, i: int)
    requires
        config.supported(),
        0 <= i < config.symbol_count(),
    ensures
        spec_sources(config, block).len() == config.symbol_count(),
        well_formed_packet(config, spec_sources(config, block)[i]),
        packet_symbol_id(spec_sources(config, block)[i]) == i,
        packet_symbol(spec_sources(config, block)[i]) == padded_block(
            block,
            config.transfer_length as int,
        ).subrange(i * config.symbol_size, (i + 1) * config.symbol_size),
{
    let size = config.symbol_size as int;
    let count = config.symbol_count();
    let data = padded_block(block, config.transfer_length as int);
    let packet = spec_sources(config, block)[i];
    let symbol = data.subrange(i * size, (i + 1) * size);
    config.lemma_block_size();
    lemma_be_bytes_len(i, 3);
    assert(0 <= i * size && (i + 1) * size <= count * size) by (nonlinear_arith)
        requires
            0 <= i < count,
            0 < size,
    ;
    assert((i + 1) * size - i * size == size) by (nonlinear_arith);
    assert(packet == spec_packet(SOURCE_BLOCK_NUMBER, i, symbol));
    assert(packet.subrange(1, 4) =~= be_bytes(i, 3));
    assert(pow256(3) == 0x100_0000) by {
        reveal_with_fuel(pow256, 4);
    }
    lemma_be_value_of_bytes(i, 3);
    assert(packet.skip(4) =~= symbol);
}

/// Where the first packet with an identifier stands, if there is a packet
/// with that identifier.
pub proof fn lemma_first_with_id(packets: Seq<Seq<u8>>, symbol_id: int, at: int)
    requires
        0 <= at < packets.len(),
        packet_symbol_id(packets[at]) == symbol_id,
    ensures
        0 <= first_with_id(packets, symbol_id) <= at,
        packet_symbol_id(packets[first_with_id(packets, symbol_id)]) == symbol_id,
    decreases packets.len(),
{
    if packet_symbol_id(packets.first()) != symbol_id {
        lemma_first_with_id(packets.drop_first(), symbol_id, at - 1);
    }
}

/// The first `count` source symbols of an arrangement of the source packets
/// of a block are the first bytes of the block as it is coded.
proof fn lemma_systematic_prefix(
    config: ObjectParameters,
    block: Seq<u8>,
    packets: Seq<Seq<u8>>,
    count: int,
)
    requires
        config.supported(),
        arranges_sources(config, block, packets),
        0 <= count <= config.symbol_count(),
    ensures
        first_ids_present(packets, count),
        systematic_data(packets, count as nat) == padded_block(
            block,
            config.transfer_length as int,
        ).take(count * config.symbol_size),
    decreases count,
{
    let size = config.symbol_size as int;
    let data = padded_block(block, config.transfer_length as int);
    let sources = spec_sources(config, block);
    config.lemma_block_size();
    if count == 0 {
        assert(count * size == 0) by (nonlinear_arith)
            requires
                count == 0,
        ;
        assert(systematic_data(packets, 0) =~= data.take(0));
    } else {
        let id = count - 1;
        lemma_systematic_prefix(config, block, packets, id);
        lemma_source_packet(config, block, id);
        let at = choose|at: int| 0 <= at < packets.len() && packets[at] == sources[id];
        lemma_first_with_id(packets, id, at);
        let first = first_with_id(packets, id);
        let i = choose|i: int| 0 <= i < sources.len() && sources[i] == packets[first];
        lemma_source_packet(config, block, i);
        assert(i == id);
        assert(0 <= id * size && count * size <= config.symbol_count() * size)
            by (nonlinear_arith)
            requires
                0 <= id,
                count == id + 1,
                count <= config.symbol_count(),
                0 < size,
        ;
        assert((id + 1) * size == id * size + size) by (nonlinear_arith);
        assert(systematic_data(packets, count as nat) =~= data.take(count * size));
        assert forall|other: int| 0 <= other < count implies #[trigger] first_with_id(
            packets,
            other,
        ) < packets.len() by {
            if other == id {
            } else {
                assert(first_ids_present(packets, id));
            }
        }
    }
}

/// Every source symbol below `count` has arrived.
pub open spec fn first_ids_present(packets: Seq<Seq<u8>>, count: int) -> bool {
    forall|id: int| 0 <= id < count ==> #[trigger] first_with_id(packets, id) < packets.len()
}

/// As long as the packets are too few to rebuild the block, the attempt
/// goes on with the next packet.
proof fn lemma_rebuild_goes_on(config: ObjectParameters, packets: Seq<Seq<u8>>, fed: int)
    requires
        config.supported(),
        packets.len() == config.symbol_count(),
        forall|j: int| 0 <= j < packets.len() ==> well_formed_packet(config, #[trigger] packets[j]),
        0 <= fed < packets.len(),
    ensures
        spec_rebuild_from(config, packets, fed) == spec_decode(
            config,
            config.transfer_length,
            packets,
        ),
    decreases packets.len() - fed,
{
    if fed < packets.len() - 1 {
        lemma_rebuild_goes_on(config, packets, fed + 1);
        assert(packets.take(fed + 1).len() < config.symbol_count());
    } else {
        assert(packets.take(fed + 1) =~= packets);
        assert(spec_rebuild_from(config, packets, fed + 1) is None);
    }
}

/// Fewer packets than the block has source symbols rebuild nothing: not to
/// try before that many have arrived loses nothing.
pub proof fn lemma_too_few_packets(config: ObjectParameters, packets: Seq<Seq<u8>>)
    requires
        packets.len() < config.symbol_count(),
    ensures
        spec_rebuild(config, packets) is None,
{
    if config.supported() {
        lemma_too_few_from(config, packets, 0);
    }
}

proof fn lemma_too_few_from(config: ObjectParameters, packets: Seq<Seq<u8>>, fed: int)
    requires
        packets.len() < config.symbol_count(),
        0 <= fed,
    ensures
        spec_rebuild_from(config, packets, fed) is None,
    decreases packets.len() - fed,
{
    if fed < packets.len() {
        lemma_too_few_from(config, packets, fed + 1);
        assert(packets.take(fed + 1).len() < config.symbol_count());
    }
}

/// The source symbols of a block rebuild the block as it was coded, in
/// whatever order they arrive.
pub proof fn lemma_sources_rebuild_block(
    config: ObjectParameters,
    block: Seq<u8>,
    packets: Seq<Seq<u8>>,
)
    requires
        config.supported(),
        arranges_sources(config, block, packets),
    ensures
        spec_rebuild(config, packets) == Some(padded_block(block, config.transfer_length as int)),
{
    let count = config.symbol_count();
    let sources = spec_sources(config, block);
    config.lemma_block_size();
    assert forall|j: int| 0 <= j < packets.len() implies well_formed_packet(
        config,
        #[trigger] packets[j],
    ) by {
        let i = choose|i: int| 0 <= i < sources.len() && sources[i] == packets[j];
        lemma_source_packet(config, block, i);
    }
    lemma_source_packet(config, block, 0);
    lemma_systematic_prefix(config, block, packets, count);
    assert(has_all_sources(packets, count as nat));
    assert(padded_block(block, config.transfer_length as int).take(count * config.symbol_size)
        =~= padded_block(block, config.transfer_length as int));
    lemma_rebuild_goes_on(config, packets, 0);
}

/// The source symbols of a block of a file, in whatever order they arrive,
/// decode to the bytes of the file that lie in the block.
pub proof fn lemma_sources_decode_block(file: Seq<u8>, block_id: int, packets: Seq<Seq<u8>>)
    requires
        0 <= block_id,
        arranges_sources(spec_encode_config(), spec_file_block(file, block_id), packets),
    ensures
        spec_decode_block(block_id, file.len() as int, packets) == Ok::<Seq<u8>, DecodeFailed>(
            spec_file_block(file, block_id),
        ),
{
    lemma_block_geometry();
    lemma_sources_rebuild_block(spec_encode_config(), spec_file_block(file, block_id), packets);
    lemma_padding_is_cut_off(file, block_id);
}

/// The first packet with an identifier, if there is one, has that
/// identifier.
pub proof fn lemma_first_with_id_has_id(packets: Seq<Seq<u8>>, symbol_id: int)
    requires
        first_with_id(packets, symbol_id) < packets.len(),
    ensures
        0 <= first_with_id(packets, symbol_id),
        packet_symbol_id(packets[first_with_id(packets, symbol_id)]) == symbol_id,
    decreases packets.len(),
{
    if packets.len() > 0 && packet_symbol_id(packets.first()) != symbol_id {
        lemma_first_with_id_has_id(packets.drop_first(), symbol_id);
    }
}

/// Packets that hold every source symbol are at least as many as the
/// source symbols.
pub proof fn lemma_all_sources_are_many(packets: Seq<Seq<u8>>, symbol_count: nat)
    requires
        has_all_sources(packets, symbol_count),
    ensures
        symbol_count <= packets.len(),
{
    let positions = set_int_range(0, packets.len() as int);
    let id_at = |at: int| packet_symbol_id(packets[at]);
    let found = positions.map(id_at);
    let wanted = set_int_range(0, symbol_count as int);
    lemma_int_range(0, packets.len() as int);
    lemma_int_range(0, symbol_count as int);
    lemma_map_size_bound(positions, found, id_at);
    assert(wanted.subset_of(found)) by {
        assert forall|id: int| wanted.contains(id) implies found.contains(id) by {
            let at = first_with_id(packets, id);
            lemma_first_with_id_has_id(packets, id);
            assert(positions.contains(at) && id_at(at) == id);
        }
    }
    lemma_len_subset(wanted, found);
}

/// If all packets together rebuild the block, then so does the attempt
/// that takes them in one at a time, from whatever packet on it starts.
proof fn lemma_rebuild_comes(config: ObjectParameters, packets: Seq<Seq<u8>>, fed: int)
    requires
        forall|j: int| 0 <= j < packets.len() ==> well_formed_packet(config, #[trigger] packets[j]),
        spec_decode(config, config.transfer_length, packets) is Some,
        0 <= fed < packets.len(),
    ensures
        spec_rebuild_from(config, packets, fed) is Some,
    decreases packets.len() - fed,
{
    if fed < packets.len() - 1 {
        lemma_rebuild_comes(config, packets, fed + 1);
    } else {
        assert(packets.take(fed + 1) =~= packets);
    }
}

/// Well-formed packets that hold every source symbol of a block rebuild a
/// block, whatever else is among them.
pub proof fn lemma_all_sources_rebuild(config: ObjectParameters, packets: Seq<Seq<u8>>)
    requires
        config.supported(),
        forall|j: int| 0 <= j < packets.len() ==> well_formed_packet(config, #[trigger] packets[j]),
        has_all_sources(packets, config.symbol_count() as nat),
    ensures
        spec_rebuild(config, packets) is Some,
        packets.len() >= config.symbol_count(),
{
    lemma_all_sources_are_many(packets, config.symbol_count() as nat);
    lemma_rebuild_comes(config, packets, 0);
}

/// The source packets of a block differ from one another, and in the order
/// in which they are sent they are an arrangement of themselves.
pub proof fn lemma_sources_are_distinct(config: ObjectParameters, block: Seq<u8>)
    requires
        config.supported(),
    ensures
        spec_sources(config, block).no_duplicates(),
        arranges_sources(config, block, spec_sources(config, block)),
{
    let sources = spec_sources(config, block);
    lemma_source_packet(config, block, 0);
    assert forall|i: int, j: int|
        0 <= i < sources.len() && 0 <= j < sources.len() && i != j implies sources[i]
        != sources[j] by {
        lemma_source_packet(config, block, i);
        lemma_source_packet(config, block, j);
    }
}

} // verus!

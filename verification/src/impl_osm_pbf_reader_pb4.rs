use vstd::prelude::*;

use osm_pbf_reader::data::primitives::Primitive;
use osm_pbf_reader::data::PrimitiveBlock;
use osm_pbf_reader::Blob;

use crate::bbox::{bbox_union, bbox_void, BBox};
use crate::elements::{calc_nodes_bbox, count_wrapping, nano_nodes_bbox};

verus! {

/// The name of the decoder crate this module drives.
pub const CRATE_NAME: &'static str = "osm-pbf-reader";

/// A decoded primitive block of the `osm-pbf-reader` crate.
#[verifier::external_type_specification]
#[verifier::external_body]
pub struct ExPrimitiveBlock(PrimitiveBlock);

/// What a decoded `osm-pbf-reader` block holds, as
/// `PrimitiveBlock::primitives` yields it: each primitive in turn, a node as
/// `Some((nano_lat, nano_lon))`, a way or relation as `None`. `None` when
/// the iteration panics (a dense group whose key/value list ends with a
/// key without value) or overflows `i64` (summing the dense ids or
/// coordinates from their deltas, or `lat_offset + lat * granularity`),
/// which panics with overflow checks on and wraps without.
pub uninterp spec fn osm_pbf_reader_block_primitives(block: PrimitiveBlock) -> Option<
    Seq<Option<(i64, i64)>>,
>;

/// The primitives of one decoded block, from `PrimitiveBlock::primitives`,
/// each node kept by its position in nanodegrees. Claimed: they are
/// `osm_pbf_reader_block_primitives` of the block, which the caller has to
/// show defined (no panic).
#[verifier::external_body]
fn block_primitives(primitives: &PrimitiveBlock) -> (r: Vec<Option<(i64, i64)>>)
    requires
        osm_pbf_reader_block_primitives(*primitives) is Some,
    ensures
        r@ == osm_pbf_reader_block_primitives(*primitives)->0,
{
    primitives.primitives().map(|p| match p {
        Primitive::Node(n) => Some((n.nano_lat, n.nano_lon)),
        _ => None,
    }).collect()
}

/// The bounding box of the nodes of one decoded block, starting from the
/// empty box, counting each of its primitives in `num_data_blocks`
/// (wrapping).
pub fn calc_bbox(primitives: &PrimitiveBlock, num_data_blocks: &mut usize) -> (r: BBox)
    requires
        osm_pbf_reader_block_primitives(*primitives) is Some,
    ensures
        r == nano_nodes_bbox(bbox_void(), osm_pbf_reader_block_primitives(*primitives)->0),
        *final(num_data_blocks) == count_wrapping(
            *old(num_data_blocks),
            osm_pbf_reader_block_primitives(*primitives)->0.len() as int,
        ),
{
    let elems = block_primitives(primitives);
    calc_nodes_bbox(&elems, num_data_blocks)
}

/// One block read in file order: widens `bbox` by the block's node box and
/// counts the block's primitives in `num_data_blocks` (wrapping).
pub fn add_data_block(primitives: &PrimitiveBlock, bbox: &mut BBox, num_data_blocks: &mut usize)
    requires
        osm_pbf_reader_block_primitives(*primitives) is Some,
    ensures
        *final(bbox) == bbox_union(
            *old(bbox),
            nano_nodes_bbox(bbox_void(), osm_pbf_reader_block_primitives(*primitives)->0),
        ),
        *final(num_data_blocks) == count_wrapping(
            *old(num_data_blocks),
            osm_pbf_reader_block_primitives(*primitives)->0.len() as int,
        ),
{
    let b = calc_bbox(primitives, num_data_blocks);
    bbox.extend(b);
}

/// The error type of the `osm-pbf-reader` crate.
#[verifier::external_type_specification]
#[verifier::external_body]
pub struct ExOsmPbfReaderError(osm_pbf_reader::error::Error);

/// A blob of the `osm-pbf-reader` crate, encoded or decoded.
#[verifier::external_type_specification]
#[verifier::external_body]
#[verifier::reject_recursive_types(M)]
pub struct ExBlob<M>(Blob<M>);

/// Whether `Blob::decode_into` decodes the data blob (decompressing and
/// parsing its bytes) without error.
pub uninterp spec fn osm_pbf_reader_blob_decodes(blob: Blob<PrimitiveBlock>) -> bool;

/// The primitives of the block that `Blob::decode_into` decodes from the
/// blob, as `osm_pbf_reader_block_primitives` gives them for that block.
pub uninterp spec fn osm_pbf_reader_blob_primitives(blob: Blob<PrimitiveBlock>) -> Option<
    Seq<Option<(i64, i64)>>,
>;

/// `Blob::decode_into`: decompresses and parses a data blob. Claimed: it
/// succeeds exactly when `osm_pbf_reader_blob_decodes`, and the block it
/// gives holds `osm_pbf_reader_blob_primitives`.
#[verifier::external_body]
fn blob_decode_into(blob: Blob<PrimitiveBlock>) -> (r: Result<PrimitiveBlock, osm_pbf_reader::error::Error>)
    ensures
        r is Ok <==> osm_pbf_reader_blob_decodes(blob),
        r matches Ok(b) ==> osm_pbf_reader_block_primitives(b) == osm_pbf_reader_blob_primitives(blob),
{
    blob.decode_into()
}

/// One data blob read in file order: decodes it and adds its block (its
/// node box merged into `bbox`, its primitives counted in
/// `num_data_blocks`, wrapping). A blob that fails to decode gives its
/// error and changes nothing.
pub fn add_data_blob(
    blob: Blob<PrimitiveBlock>,
    bbox: &mut BBox,
    num_data_blocks: &mut usize,
) -> (r: Result<(), osm_pbf_reader::error::Error>)
    requires
        osm_pbf_reader_blob_decodes(blob) ==> osm_pbf_reader_blob_primitives(blob) is Some,
    ensures
        r is Ok <==> osm_pbf_reader_blob_decodes(blob),
        r is Err ==> *final(bbox) == *old(bbox) && *final(num_data_blocks) == *old(num_data_blocks),
        r is Ok ==> *final(bbox) == bbox_union(
            *old(bbox),
            nano_nodes_bbox(bbox_void(), osm_pbf_reader_blob_primitives(blob)->0),
        ) && *final(num_data_blocks) == count_wrapping(
            *old(num_data_blocks),
            osm_pbf_reader_blob_primitives(blob)->0.len() as int,
        ),
{
    match blob_decode_into(blob) {
        Ok(block) => {
            add_data_block(&block, bbox, num_data_blocks);
            Ok(())
        },
        Err(e) => Err(e),
    }
}

/// One data blob handed to a worker thread: decodes it and gives its
/// block's node box, with its primitives counted in `num_data_blocks`
/// (wrapping). A blob that fails to decode gives its error and counts
/// nothing.
pub fn calc_data_blob(
    blob: Blob<PrimitiveBlock>,
    num_data_blocks: &mut usize,
) -> (r: Result<BBox, osm_pbf_reader::error::Error>)
    requires
        osm_pbf_reader_blob_decodes(blob) ==> osm_pbf_reader_blob_primitives(blob) is Some,
    ensures
        r is Ok <==> osm_pbf_reader_blob_decodes(blob),
        r is Err ==> *final(num_data_blocks) == *old(num_data_blocks),
        r matches Ok(b) ==> b == nano_nodes_bbox(bbox_void(), osm_pbf_reader_blob_primitives(blob)->0)
            && *final(num_data_blocks) == count_wrapping(
            *old(num_data_blocks),
            osm_pbf_reader_blob_primitives(blob)->0.len() as int,
        ),
{
    match blob_decode_into(blob) {
        Ok(block) => Ok(calc_bbox(&block, num_data_blocks)),
        Err(e) => Err(e),
    }
}

} // verus!

use vstd::prelude::*;

use osmpbf::{Blob, BlobDecode, Element, MmapBlob, PrimitiveBlock};
use vstd::string::StringExecFns;

use crate::bbox::{bbox_union, bbox_void, BBox};
use crate::elements::{calc_nodes_bbox, count_wrapping, lemma_count_wrapping_step, nano_nodes_bbox};

verus! {

/// The name of the decoder crate this module drives.
pub const CRATE_NAME: &'static str = "osmpbf";

/// A decoded primitive block of the `osmpbf` crate.
#[verifier::external_type_specification]
#[verifier::external_body]
pub struct ExPrimitiveBlock(PrimitiveBlock);

/// What a decoded `osmpbf` block holds, as `PrimitiveBlock::for_each_element`
/// hands it out: each element in turn, a node or dense node as
/// `Some((nano_lat, nano_lon))` (`lat_offset + granularity * lat`, dense
/// coordinates summed from their deltas), a way or relation as `None`.
/// `None` whenever the iteration would panic: wherever its `i64`
/// arithmetic overflows (the dense ids, coordinates and the delta-coded
/// fields of the dense info summed from their deltas, or
/// `lat_offset + granularity * lat`), which panics with overflow checks on
/// and wraps without.
pub uninterp spec fn osmpbf_block_elements(block: PrimitiveBlock) -> Option<Seq<Option<(i64, i64)>>>;

/// The elements of one decoded block, from
/// `PrimitiveBlock::for_each_element`, each node and dense node kept by its
/// position in nanodegrees. Claimed: they are `osmpbf_block_elements` of
/// the block, which the caller has to show defined (no overflow).
#[verifier::external_body]
fn block_elements(primitives: &PrimitiveBlock) -> (r: Vec<Option<(i64, i64)>>)
    requires
        osmpbf_block_elements(*primitives) is Some,
    ensures
        r@ == osmpbf_block_elements(*primitives)->0,
{
    let mut elems = Vec::new();
    primitives.for_each_element(|e| elems.push(match e {
        Element::Node(n) => Some((n.nano_lat(), n.nano_lon())),
        Element::DenseNode(n) => Some((n.nano_lat(), n.nano_lon())),
        _ => None,
    }));
    elems
}

/// The bounding box of the nodes of one decoded block, starting from the
/// empty box, counting each of its elements in `num_data_blocks`
/// (wrapping).
pub fn calc_bbox(primitives: &PrimitiveBlock, num_data_blocks: &mut usize) -> (r: BBox)
    requires
        osmpbf_block_elements(*primitives) is Some,
    ensures
        r == nano_nodes_bbox(bbox_void(), osmpbf_block_elements(*primitives)->0),
        *final(num_data_blocks) == count_wrapping(
            *old(num_data_blocks),
            osmpbf_block_elements(*primitives)->0.len() as int,
        ),
{
    let elems = block_elements(primitives);
    calc_nodes_bbox(&elems, num_data_blocks)
}

/// One data block read in file order: widens `bbox` by the block's node
/// box and counts the block's elements in `num_data_blocks` (wrapping).
pub fn add_data_block(primitives: &PrimitiveBlock, bbox: &mut BBox, num_data_blocks: &mut usize)
    requires
        osmpbf_block_elements(*primitives) is Some,
    ensures
        *final(bbox) == bbox_union(
            *old(bbox),
            nano_nodes_bbox(bbox_void(), osmpbf_block_elements(*primitives)->0),
        ),
        *final(num_data_blocks) == count_wrapping(
            *old(num_data_blocks),
            osmpbf_block_elements(*primitives)->0.len() as int,
        ),
{
    let b = calc_bbox(primitives, num_data_blocks);
    bbox.extend(b);
}

/// The error type of the `osmpbf` crate.
#[verifier::external_type_specification]
#[verifier::external_body]
pub struct ExOsmpbfError(osmpbf::Error);

/// A blob read from a PBF file by `osmpbf::BlobReader`, not yet decoded.
#[verifier::external_type_specification]
#[verifier::external_body]
pub struct ExBlob(Blob);

/// A blob of a memory-mapped PBF file, not yet decoded.
#[verifier::external_type_specification]
#[verifier::external_body]
pub struct ExMmapBlob<'a>(MmapBlob<'a>);

/// The type string in the blob's header, as `Blob::get_type` reads it
/// (`OSMHeader`, `OSMData`, or any other, kept as it is).
pub uninterp spec fn osmpbf_blob_type(blob: Blob) -> Seq<char>;

/// The blob holds OSM data: its header type is `OSMData`.
pub open spec fn osmpbf_blob_is_data(blob: Blob) -> bool {
    osmpbf_blob_type(blob) == "OSMData"@
}

/// Whether `Blob::to_primitiveblock` decodes the blob (decompressing and
/// parsing its bytes) without error.
pub uninterp spec fn osmpbf_blob_decodes(blob: Blob) -> bool;

/// The elements of the block that `Blob::to_primitiveblock` decodes from
/// the blob, as `osmpbf_block_elements` gives them for that block.
pub uninterp spec fn osmpbf_blob_elements(blob: Blob) -> Option<Seq<Option<(i64, i64)>>>;

/// The type string in the blob's header, as `MmapBlob::get_type` reads it.
pub uninterp spec fn osmpbf_mmap_blob_type(blob: MmapBlob) -> Seq<char>;

/// The blob holds OSM data: its header type is `OSMData`.
pub open spec fn osmpbf_mmap_blob_is_data(blob: MmapBlob) -> bool {
    osmpbf_mmap_blob_type(blob) == "OSMData"@
}

/// Whether `MmapBlob::decode` parses and decodes the blob without error.
pub uninterp spec fn osmpbf_mmap_blob_decodes(blob: MmapBlob) -> bool;

/// The elements of the block that `MmapBlob::decode` gives for a data
/// blob, as `osmpbf_block_elements` gives them for that block.
pub uninterp spec fn osmpbf_mmap_blob_elements(blob: MmapBlob) -> Option<Seq<Option<(i64, i64)>>>;

/// The header type of a blob: `Blob::get_type`, as its string.
#[verifier::external_body]
fn blob_type(blob: &Blob) -> (r: String)
    ensures
        r@ == osmpbf_blob_type(*blob),
{
    blob.get_type().as_str().to_string()
}

/// The type string names an OSMData blob.
fn is_osm_data_type(t: &String) -> (r: bool)
    ensures
        r == (t@ == "OSMData"@),
{
    let osm_data = String::from_str("OSMData");
    t.eq(&osm_data)
}

/// The blob holds OSM data.
fn blob_is_data(blob: &Blob) -> (r: bool)
    ensures
        r == osmpbf_blob_is_data(*blob),
{
    is_osm_data_type(&blob_type(blob))
}

/// `Blob::to_primitiveblock`: decompresses and parses the blob. Claimed:
/// it succeeds exactly when `osmpbf_blob_decodes`, and the block it gives
/// holds `osmpbf_blob_elements`.
#[verifier::external_body]
fn blob_to_block(blob: &Blob) -> (r: Result<PrimitiveBlock, osmpbf::Error>)
    ensures
        r is Ok <==> osmpbf_blob_decodes(*blob),
        r matches Ok(b) ==> osmpbf_block_elements(b) == osmpbf_blob_elements(*blob),
{
    blob.to_primitiveblock()
}

/// The header type of a memory-mapped blob: `MmapBlob::get_type`, as its
/// string.
#[verifier::external_body]
fn mmap_blob_type(blob: &MmapBlob) -> (r: String)
    ensures
        r@ == osmpbf_mmap_blob_type(*blob),
{
    blob.get_type().as_str().to_string()
}

/// The memory-mapped blob holds OSM data.
fn mmap_blob_is_data(blob: &MmapBlob) -> (r: bool)
    ensures
        r == osmpbf_mmap_blob_is_data(*blob),
{
    is_osm_data_type(&mmap_blob_type(blob))
}

/// `MmapBlob::decode`, keeping the block of an OSMData result. Claimed: it
/// succeeds exactly when `osmpbf_mmap_blob_decodes`, gives a block exactly
/// for a blob whose header type is `OSMData` (the string `get_type` reads),
/// and a block it gives holds `osmpbf_mmap_blob_elements`.
#[verifier::external_body]
fn mmap_blob_to_block(blob: &MmapBlob) -> (r: Result<Option<PrimitiveBlock>, osmpbf::Error>)
    ensures
        r is Ok <==> osmpbf_mmap_blob_decodes(*blob),
        r matches Ok(x) ==> (x is Some <==> osmpbf_mmap_blob_is_data(*blob)),
        r matches Ok(Some(b)) ==> osmpbf_block_elements(b) == osmpbf_mmap_blob_elements(*blob),
{
    match blob.decode()? {
        BlobDecode::OsmData(block) => Ok(Some(block)),
        _ => Ok(None),
    }
}

/// One blob read in file order: a blob that holds OSM data is decoded and
/// its block added (its node box merged into `bbox`, its elements counted
/// in `num_data_blocks`, wrapping); any other blob is skipped. A data blob
/// that fails to decode gives its error and changes nothing.
pub fn add_data_blob(blob: &Blob, bbox: &mut BBox, num_data_blocks: &mut usize) -> (r: Result<(), osmpbf::Error>)
    requires
        osmpbf_blob_decodes(*blob) ==> osmpbf_blob_elements(*blob) is Some,
    ensures
        r is Ok <==> (!osmpbf_blob_is_data(*blob) || osmpbf_blob_decodes(*blob)),
        !(osmpbf_blob_is_data(*blob) && osmpbf_blob_decodes(*blob)) ==> *final(bbox) == *old(bbox)
            && *final(num_data_blocks) == *old(num_data_blocks),
        osmpbf_blob_is_data(*blob) && osmpbf_blob_decodes(*blob) ==> *final(bbox) == bbox_union(
            *old(bbox),
            nano_nodes_bbox(bbox_void(), osmpbf_blob_elements(*blob)->0),
        ) && *final(num_data_blocks) == count_wrapping(
            *old(num_data_blocks),
            osmpbf_blob_elements(*blob)->0.len() as int,
        ),
{
    if blob_is_data(blob) {
        match blob_to_block(blob) {
            Ok(block) => {
                add_data_block(&block, bbox, num_data_blocks);
                Ok(())
            },
            Err(e) => Err(e),
        }
    } else {
        Ok(())
    }
}

/// The node box that a block adds, counted as the parallel decoders count
/// it: one per element and one more for the block itself (wrapping).
fn calc_counted_block(primitives: &PrimitiveBlock, num_data_blocks: &mut usize) -> (r: BBox)
    requires
        osmpbf_block_elements(*primitives) is Some,
    ensures
        r == nano_nodes_bbox(bbox_void(), osmpbf_block_elements(*primitives)->0),
        *final(num_data_blocks) == count_wrapping(
            *old(num_data_blocks),
            osmpbf_block_elements(*primitives)->0.len() + 1int,
        ),
{
    let ghost start = *num_data_blocks;
    let b = calc_bbox(primitives, num_data_blocks);
    proof {
        lemma_count_wrapping_step(start, osmpbf_block_elements(*primitives)->0.len() as int);
    }
    *num_data_blocks = num_data_blocks.wrapping_add(1);
    b
}

/// One blob handed to a worker thread: a blob that holds OSM data is
/// decoded and gives its block's node box, with its elements and the block
/// itself counted in `num_data_blocks` (wrapping); any other blob gives
/// `None`. A data blob that fails to decode gives its error and counts
/// nothing.
pub fn calc_data_blob(blob: &Blob, num_data_blocks: &mut usize) -> (r: Result<Option<BBox>, osmpbf::Error>)
    requires
        osmpbf_blob_decodes(*blob) ==> osmpbf_blob_elements(*blob) is Some,
    ensures
        r is Ok <==> (!osmpbf_blob_is_data(*blob) || osmpbf_blob_decodes(*blob)),
        r == Ok::<Option<BBox>, osmpbf::Error>(None) <==> !osmpbf_blob_is_data(*blob),
        !(osmpbf_blob_is_data(*blob) && osmpbf_blob_decodes(*blob)) ==> *final(num_data_blocks)
            == *old(num_data_blocks),
        osmpbf_blob_is_data(*blob) && osmpbf_blob_decodes(*blob) ==> r == Ok::<Option<BBox>, osmpbf::Error>(
            Some(nano_nodes_bbox(bbox_void(), osmpbf_blob_elements(*blob)->0)),
        ) && *final(num_data_blocks) == count_wrapping(
            *old(num_data_blocks),
            osmpbf_blob_elements(*blob)->0.len() + 1int,
        ),
{
    if blob_is_data(blob) {
        match blob_to_block(blob) {
            Ok(block) => Ok(Some(calc_counted_block(&block, num_data_blocks))),
            Err(e) => Err(e),
        }
    } else {
        Ok(None)
    }
}

/// As `calc_data_blob`, for a blob of a memory-mapped file, decoded with
/// `MmapBlob::decode`.
pub fn calc_data_mmap_blob(blob: &MmapBlob, num_data_blocks: &mut usize) -> (r: Result<Option<BBox>, osmpbf::Error>)
    requires
        osmpbf_mmap_blob_decodes(*blob) ==> osmpbf_mmap_blob_elements(*blob) is Some,
    ensures
        r is Ok <==> (!osmpbf_mmap_blob_is_data(*blob) || osmpbf_mmap_blob_decodes(*blob)),
        r == Ok::<Option<BBox>, osmpbf::Error>(None) <==> !osmpbf_mmap_blob_is_data(*blob),
        !(osmpbf_mmap_blob_is_data(*blob) && osmpbf_mmap_blob_decodes(*blob)) ==> *final(num_data_blocks)
            == *old(num_data_blocks),
        osmpbf_mmap_blob_is_data(*blob) && osmpbf_mmap_blob_decodes(*blob) ==> r == Ok::<Option<BBox>, osmpbf::Error>(Some(nano_nodes_bbox(bbox_void(), osmpbf_mmap_blob_elements(*blob)->0)))
            && *final(num_data_blocks) == count_wrapping(
            *old(num_data_blocks),
            osmpbf_mmap_blob_elements(*blob)->0.len() + 1int,
        ),
{
    if mmap_blob_is_data(blob) {
        match mmap_blob_to_block(blob) {
            Ok(Some(block)) => Ok(Some(calc_counted_block(&block, num_data_blocks))),
            Ok(None) => Ok(None),
            Err(e) => Err(e),
        }
    } else {
        Ok(None)
    }
}

} // verus!

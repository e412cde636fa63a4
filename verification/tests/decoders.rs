use osm_pbf_benchmark::bbox::BBox;
use osm_pbf_benchmark::stats::Stats;
use osm_pbf_benchmark::{impl_osm_pbf_reader_pb4, impl_osmpbf, impl_osmpbfreader};
use osmpbfreader::{OsmObj, OsmPbfReader};

/// A small PBF file: one header blob and one zlib-compressed data blob with
/// three dense nodes, one way and one relation.
fn dense_zlib_pbf() -> Vec<u8> {
    vec![
        0x00, 0x00, 0x00, 0x0d, 0x0a, 0x09, 0x4f, 0x53, 0x4d, 0x48, 0x65, 0x61, 0x64, 0x65, 0x72, 0x18,
        0x31, 0x10, 0x25, 0x1a, 0x2d, 0x78, 0x9c, 0x53, 0xe2, 0xf3, 0x2f, 0xce, 0x0d, 0x4e, 0xce, 0x48,
        0xcd, 0x4d, 0xd4, 0x0d, 0x33, 0xd0, 0x33, 0x53, 0xe2, 0x72, 0x49, 0xcd, 0x2b, 0x4e, 0xf5, 0xcb,
        0x4f, 0x49, 0x2d, 0x6e, 0x62, 0x64, 0x33, 0xd0, 0x33, 0x31, 0xd6, 0x33, 0x04, 0x00, 0xd1, 0xd7,
        0x0a, 0x89, 0x00, 0x00, 0x00, 0x0c, 0x0a, 0x07, 0x4f, 0x53, 0x4d, 0x44, 0x61, 0x74, 0x61, 0x18,
        0xdc, 0x01, 0x10, 0xdf, 0x01, 0x1a, 0xd6, 0x01, 0x78, 0x9c, 0xe3, 0xf2, 0xe2, 0x62, 0xe0, 0xe2,
        0x28, 0x49, 0x2d, 0x2e, 0x29, 0x2d, 0x4e, 0x2d, 0xe2, 0xe2, 0x04, 0xb1, 0xe2, 0x8b, 0xf2, 0x73,
        0x52, 0xb9, 0x38, 0x8b, 0x52, 0x73, 0xe2, 0xcb, 0x12, 0x73, 0x4a, 0x53, 0xb9, 0xd8, 0x41, 0xcc,
        0xec, 0xd4, 0x4a, 0x2e, 0x96, 0xbc, 0xc4, 0xdc, 0x54, 0x2e, 0x8e, 0xa4, 0xd2, 0xcc, 0x9c, 0x94,
        0xcc, 0xbc, 0x74, 0x2e, 0xe6, 0xca, 0xd4, 0x62, 0xa0, 0xee, 0xa2, 0xcc, 0xc4, 0xbc, 0xf4, 0x9c,
        0x54, 0x21, 0x7b, 0x21, 0x5b, 0x2e, 0x96, 0x4b, 0x8c, 0x4c, 0x2c, 0x5a, 0xb2, 0x5c, 0xcc, 0x8c,
        0x8c, 0x8c, 0x42, 0xec, 0x33, 0x4e, 0x7d, 0x7e, 0xc1, 0xce, 0xc4, 0x24, 0xc5, 0xcc, 0xc0, 0xc0,
        0xa0, 0xc4, 0xac, 0xc4, 0xc0, 0xa0, 0xc5, 0xcc, 0xc4, 0xc0, 0xe0, 0xc4, 0xb5, 0xef, 0x6f, 0xe7,
        0x47, 0xe6, 0xed, 0xcd, 0xcc, 0xcf, 0x99, 0xbd, 0xb8, 0x1e, 0xbd, 0xfc, 0x94, 0xf7, 0x74, 0x1d,
        0xf3, 0x93, 0xe3, 0x6c, 0x42, 0xca, 0x52, 0x8a, 0x1c, 0xd9, 0x42, 0x4c, 0x6c, 0xac, 0x52, 0x4c,
        0xec, 0x1c, 0x4a, 0x7c, 0x1c, 0x8c, 0x02, 0xfd, 0x4f, 0x77, 0x7e, 0x61, 0x96, 0x60, 0x50, 0x10,
        0xd4, 0x60, 0x74, 0x62, 0x05, 0x19, 0xcd, 0x2a, 0xa4, 0xa2, 0xa4, 0xc4, 0x51, 0x21, 0xc4, 0xc8,
        0x22, 0xc5, 0xc8, 0x0c, 0x56, 0x32, 0x01, 0x49, 0x09, 0x23, 0x93, 0x17, 0xd3, 0x35, 0xc6, 0x20,
        0x46, 0xc6, 0x0e, 0xc6, 0x94, 0x09, 0x8c, 0x2f, 0xd8, 0x01, 0x56, 0x3e, 0x3a, 0x23,
    ]
}

/// The same map in a file without compression and with plain nodes.
fn plain_nodes_pbf() -> Vec<u8> {
    vec![
        0x00, 0x00, 0x00, 0x0d, 0x0a, 0x09, 0x4f, 0x53, 0x4d, 0x48, 0x65, 0x61, 0x64, 0x65, 0x72, 0x18,
        0x1d, 0x0a, 0x19, 0x22, 0x0e, 0x4f, 0x73, 0x6d, 0x53, 0x63, 0x68, 0x65, 0x6d, 0x61, 0x2d, 0x56,
        0x30, 0x2e, 0x36, 0x82, 0x01, 0x06, 0x30, 0x2e, 0x34, 0x33, 0x2e, 0x31, 0x10, 0x19, 0x00, 0x00,
        0x00, 0x0c, 0x0a, 0x07, 0x4f, 0x53, 0x4d, 0x44, 0x61, 0x74, 0x61, 0x18, 0x86, 0x02, 0x0a, 0x80,
        0x02, 0x0a, 0x4a, 0x0a, 0x00, 0x0a, 0x08, 0x74, 0x65, 0x73, 0x74, 0x75, 0x73, 0x65, 0x72, 0x0a,
        0x09, 0x74, 0x65, 0x73, 0x74, 0x5f, 0x72, 0x6f, 0x6c, 0x65, 0x0a, 0x09, 0x72, 0x65, 0x6c, 0x5f,
        0x76, 0x61, 0x6c, 0x75, 0x65, 0x0a, 0x07, 0x72, 0x65, 0x6c, 0x5f, 0x6b, 0x65, 0x79, 0x0a, 0x04,
        0x6e, 0x61, 0x6d, 0x65, 0x0a, 0x08, 0x62, 0x75, 0x69, 0x6c, 0x64, 0x69, 0x6e, 0x67, 0x0a, 0x03,
        0x79, 0x65, 0x73, 0x0a, 0x08, 0x74, 0x72, 0x69, 0x61, 0x6e, 0x67, 0x6c, 0x65, 0x12, 0x60, 0x0a,
        0x1e, 0x08, 0xd2, 0x01, 0x22, 0x0e, 0x08, 0x01, 0x10, 0x8c, 0xe5, 0xb9, 0xf4, 0x03, 0x18, 0x00,
        0x20, 0x11, 0x28, 0x01, 0x40, 0xbe, 0xfd, 0x89, 0xf1, 0x03, 0x48, 0xe2, 0xe9, 0xf2, 0x6e, 0x0a,
        0x1e, 0x08, 0xd4, 0x01, 0x22, 0x0e, 0x08, 0x01, 0x10, 0x8d, 0xe5, 0xb9, 0xf4, 0x03, 0x18, 0x00,
        0x20, 0x11, 0x28, 0x01, 0x40, 0x86, 0xfa, 0x86, 0xf1, 0x03, 0x48, 0xfc, 0xba, 0xef, 0x6e, 0x0a,
        0x1e, 0x08, 0xd8, 0x01, 0x22, 0x0e, 0x08, 0x01, 0x10, 0x8e, 0xe5, 0xb9, 0xf4, 0x03, 0x18, 0x00,
        0x20, 0x11, 0x28, 0x01, 0x40, 0x9e, 0xf6, 0x86, 0xf1, 0x03, 0x48, 0xe0, 0x82, 0xf6, 0x6e, 0x12,
        0x23, 0x1a, 0x21, 0x08, 0x6b, 0x12, 0x02, 0x06, 0x05, 0x1a, 0x02, 0x07, 0x08, 0x22, 0x0e, 0x08,
        0x01, 0x10, 0x8f, 0xe5, 0xb9, 0xf4, 0x03, 0x18, 0x00, 0x20, 0x11, 0x28, 0x01, 0x42, 0x05, 0xd2,
        0x01, 0x02, 0x04, 0x05, 0x12, 0x24, 0x22, 0x22, 0x08, 0x78, 0x12, 0x01, 0x04, 0x1a, 0x01, 0x03,
        0x22, 0x0e, 0x08, 0x01, 0x10, 0x90, 0xe5, 0xb9, 0xf4, 0x03, 0x18, 0x00, 0x20, 0x11, 0x28, 0x01,
        0x42, 0x01, 0x02, 0x4a, 0x02, 0xd6, 0x01, 0x52, 0x01, 0x01, 0x88, 0x01, 0x64, 0x90, 0x01, 0xe8,
        0x07, 0x10, 0x80, 0x02,
    ]
}

/// The box of the three nodes of both files, in decimicrodegrees.
fn expected_bbox() -> BBox {
    BBox { min_lat: 521198991, max_lat: 521224031, min_lon: 116256446, max_lon: 116310192 }
}

/// Five elements counted as one sample, added to fresh statistics.
fn expected_stats(count: usize) -> Stats {
    Stats { min: 0, max: count, total: count, count: 1 }
}

/// Reads `data` with `osmpbf` and adds each blob, in file order.
fn osmpbf_fold(data: &[u8], bbox: &mut BBox) -> usize {
    let mut num_data_blocks: usize = 0;
    for blob in osmpbf::BlobReader::new(std::io::Cursor::new(data)) {
        impl_osmpbf::add_data_blob(&blob.unwrap(), bbox, &mut num_data_blocks).unwrap();
    }
    num_data_blocks
}

/// The blobs of `data`, read with `osmpbf`.
fn osmpbf_blobs(data: &[u8]) -> Vec<osmpbf::Blob> {
    osmpbf::BlobReader::new(std::io::Cursor::new(data)).map(|b| b.unwrap()).collect()
}

/// The first data block of `data`, decoded with `osmpbf`.
fn osmpbf_first_block(data: &[u8]) -> osmpbf::PrimitiveBlock {
    osmpbf_blobs(data)[1].to_primitiveblock().unwrap()
}

/// A file whose one blob claims OSM data but holds a corrupt zlib stream.
fn corrupt_data_blob_pbf() -> Vec<u8> {
    let mut v = vec![0x00, 0x00, 0x00, 0x0b];
    v.extend_from_slice(&[0x0a, 0x07, b'O', b'S', b'M', b'D', b'a', b't', b'a', 0x18, 0x08]);
    v.extend_from_slice(&[0x10, 0x0a, 0x1a, 0x04, 0xff, 0xff, 0xff, 0xff]);
    v
}

/// An empty header blob followed by the corrupt data blob.
fn header_then_corrupt_blob_pbf() -> Vec<u8> {
    let mut v = vec![0x00, 0x00, 0x00, 0x0d];
    v.extend_from_slice(&[0x0a, 0x09, b'O', b'S', b'M', b'H', b'e', b'a', b'd', b'e', b'r', 0x18, 0x02]);
    v.extend_from_slice(&[0x0a, 0x00]);
    v.extend(corrupt_data_blob_pbf());
    v
}

#[test]
fn osmpbf_header_blob_adds_nothing() {
    let blobs = osmpbf_blobs(&dense_zlib_pbf());
    let mut bbox = BBox::void();
    let mut n: usize = 4;
    impl_osmpbf::add_data_blob(&blobs[0], &mut bbox, &mut n).unwrap();
    assert_eq!(bbox, BBox::void());
    assert_eq!(n, 4);
    assert!(impl_osmpbf::calc_data_blob(&blobs[0], &mut n).unwrap().is_none());
    assert_eq!(n, 4);
}

#[test]
fn osmpbf_corrupt_data_blob_is_error() {
    let blobs = osmpbf_blobs(&corrupt_data_blob_pbf());
    let mut bbox = BBox::void();
    let mut n: usize = 4;
    assert!(impl_osmpbf::add_data_blob(&blobs[0], &mut bbox, &mut n).is_err());
    assert!(impl_osmpbf::calc_data_blob(&blobs[0], &mut n).is_err());
    assert_eq!(bbox, BBox::void());
    assert_eq!(n, 4);
}

#[test]
fn osmpbf_calc_data_blob_counts_the_blob_too() {
    let blobs = osmpbf_blobs(&dense_zlib_pbf());
    let mut n: usize = 0;
    assert_eq!(impl_osmpbf::calc_data_blob(&blobs[1], &mut n).unwrap(), Some(expected_bbox()));
    assert_eq!(n, 6);
    let mut wrapping: usize = usize::MAX - 2;
    impl_osmpbf::calc_data_blob(&blobs[1], &mut wrapping).unwrap();
    assert_eq!(wrapping, 3);
}

#[test]
fn pb4_corrupt_data_blob_is_error() {
    let data = header_then_corrupt_blob_pbf();
    let mut blobs = osm_pbf_reader::Blobs::from_bytes(&data[..]).unwrap();
    let blob = blobs.next().unwrap().unwrap();
    let mut bbox = BBox::void();
    let mut n: usize = 4;
    assert!(impl_osm_pbf_reader_pb4::add_data_blob(blob.clone(), &mut bbox, &mut n).is_err());
    assert!(impl_osm_pbf_reader_pb4::calc_data_blob(blob, &mut n).is_err());
    assert_eq!(bbox, BBox::void());
    assert_eq!(n, 4);
}

#[test]
fn pb4_calc_data_blob_gives_the_box() {
    let data = dense_zlib_pbf();
    let mut blobs = osm_pbf_reader::Blobs::from_bytes(&data[..]).unwrap();
    let blob = blobs.next().unwrap().unwrap();
    let mut n: usize = 1;
    assert_eq!(impl_osm_pbf_reader_pb4::calc_data_blob(blob, &mut n).unwrap(), expected_bbox());
    assert_eq!(n, 4);
}

/// The position of a node; `None` for a way or a relation.
fn position(obj: &OsmObj) -> Option<(i32, i32)> {
    match obj {
        OsmObj::Node(n) => Some((n.decimicro_lat, n.decimicro_lon)),
        _ => None,
    }
}

#[test]
fn osmpbf_blocks_give_the_nodes_box_and_count() {
    for data in [dense_zlib_pbf(), plain_nodes_pbf()] {
        let mut bbox = BBox::void();
        let n = osmpbf_fold(&data, &mut bbox);
        assert_eq!(bbox, expected_bbox());
        let mut stats = Stats::default();
        stats.add(n);
        assert_eq!(stats, expected_stats(5));
    }
}

#[test]
fn osmpbf_block_widens_existing_box() {
    let mut bbox = BBox { min_lat: 0, max_lat: 0, min_lon: 0, max_lon: 0 };
    let n = osmpbf_fold(&dense_zlib_pbf(), &mut bbox);
    assert_eq!(bbox, BBox { min_lat: 0, max_lat: 521224031, min_lon: 0, max_lon: 116310192 });
    assert_eq!(n, 5);
}

#[test]
fn osmpbf_calc_bbox_of_decoded_block() {
    for data in [dense_zlib_pbf(), plain_nodes_pbf()] {
        let block = osmpbf_first_block(&data);
        let mut num_data_blocks: usize = 2;
        assert_eq!(impl_osmpbf::calc_bbox(&block, &mut num_data_blocks), expected_bbox());
        assert_eq!(num_data_blocks, 7);
    }
}

#[test]
fn osmpbfreader_objects_give_the_nodes_box_and_count() {
    for data in [dense_zlib_pbf(), plain_nodes_pbf()] {
        let mut reader = OsmPbfReader::new(std::io::Cursor::new(data));
        let mut bbox = BBox::void();
        let mut n: usize = 0;
        for obj in reader.iter() {
            impl_osmpbfreader::add_object(position(&obj.unwrap()), &mut bbox, &mut n);
        }
        assert_eq!(bbox, expected_bbox());
        assert_eq!(n, 5);
    }
}

#[test]
fn osmpbfreader_par_iter_gives_the_same() {
    for data in [dense_zlib_pbf(), plain_nodes_pbf()] {
        let mut reader = OsmPbfReader::new(std::io::Cursor::new(data));
        let mut bbox = BBox::void();
        let mut n: usize = 0;
        reader.par_iter().for_each(|obj| {
            impl_osmpbfreader::add_object(position(&obj.unwrap()), &mut bbox, &mut n);
        });
        assert_eq!(bbox, expected_bbox());
        assert_eq!(n, 5);
    }
}

#[test]
fn add_object_adds_nodes_only() {
    let mut bbox = BBox::void();
    let mut n: usize = usize::MAX;
    impl_osmpbfreader::add_object(None, &mut bbox, &mut n);
    assert_eq!(bbox, BBox::void());
    assert_eq!(n, 0);
    impl_osmpbfreader::add_object(Some((-4, 9)), &mut bbox, &mut n);
    impl_osmpbfreader::add_object(Some((6, -1)), &mut bbox, &mut n);
    assert_eq!(bbox, BBox { min_lat: -4, max_lat: 6, min_lon: -1, max_lon: 9 });
    assert_eq!(n, 2);
}

// `osm-pbf-reader` 0.1.1 keeps its primitive index from one group of a block
// to the next, so in these files (dense nodes, then a group with the way, then
// one with the relation) `PrimitiveBlock::primitives` yields the three nodes
// only: three primitives are counted.

#[test]
fn pb4_blocks_give_the_nodes_box_and_count() {
    for data in [dense_zlib_pbf(), plain_nodes_pbf()] {
        let mut bbox = BBox::void();
        let mut n: usize = 0;
        for blob in osm_pbf_reader::Blobs::from_bytes(&data[..]).unwrap() {
            impl_osm_pbf_reader_pb4::add_data_blob(blob.unwrap(), &mut bbox, &mut n).unwrap();
        }
        assert_eq!(bbox, expected_bbox());
        assert_eq!(n, 3);
    }
}

#[test]
fn pb4_decoded_blocks_give_the_same() {
    for data in [dense_zlib_pbf(), plain_nodes_pbf()] {
        let mut bbox = BBox::void();
        let mut n: usize = 0;
        let mut blobs = osm_pbf_reader::Blobs::from_bytes(&data[..]).unwrap();
        while let Some(block) = blobs.next_primitive_block_decoded().unwrap() {
            impl_osm_pbf_reader_pb4::add_data_block(&block, &mut bbox, &mut n);
        }
        assert_eq!(bbox, expected_bbox());
        assert_eq!(n, 3);
    }
}

#[test]
fn pb4_calc_bbox_of_decoded_block() {
    let data = plain_nodes_pbf();
    let mut blobs = osm_pbf_reader::Blobs::from_bytes(&data[..]).unwrap();
    let block = blobs.next_primitive_block_decoded().unwrap().unwrap();
    let mut num_data_blocks: usize = 7;
    let b = impl_osm_pbf_reader_pb4::calc_bbox(&block, &mut num_data_blocks);
    assert_eq!(b, expected_bbox());
    assert_eq!(num_data_blocks, 10);
}

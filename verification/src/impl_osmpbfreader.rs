use vstd::prelude::*;

use crate::bbox::{bbox_extended, BBox};
use crate::elements::{count_wrapping, decimicro_nodes_bbox};

verus! {

/// The name of the decoder crate whose objects this module counts.
pub const CRATE_NAME: &'static str = "osmpbfreader";

/// One object read from the file, a node given by its position in
/// decimicrodegrees and a way or relation as `None`: widens `bbox` by the
/// node and counts the object in `num_data_blocks` (wrapping).
pub fn add_object(object: Option<(i32, i32)>, bbox: &mut BBox, num_data_blocks: &mut usize)
    ensures
        *final(bbox) == decimicro_nodes_bbox(*old(bbox), seq![object]),
        *final(bbox) == match object {
            Some((lat, lon)) => bbox_extended(*old(bbox), lat, lat, lon, lon),
            None => *old(bbox),
        },
        *final(num_data_blocks) == count_wrapping(*old(num_data_blocks), 1),
{
    proof {
        assert(seq![object].drop_last() =~= Seq::<Option<(i32, i32)>>::empty());
        assert(decimicro_nodes_bbox(*old(bbox), seq![object].drop_last()) == *old(bbox));
        assert(seq![object].last() == object);
        crate::elements::lemma_count_wrapping_step(*old(num_data_blocks), 0);
        vstd::arithmetic::div_mod::lemma_small_mod(*old(num_data_blocks) as nat, (usize::MAX + 1) as nat);
    }
    match object {
        Some((lat, lon)) => {
            bbox.add(lat, lon);
        },
        None => {},
    }
    *num_data_blocks = num_data_blocks.wrapping_add(1);
}

} // verus!

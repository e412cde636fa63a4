use vstd::prelude::*;

use crate::bbox::{
    bbox_contains, bbox_extended, bbox_union, bbox_void, lemma_extend_covers, lemma_extend_smallest,
    lemma_hull_covers, lemma_hull_smallest, range_subset, BBox,
};

verus! {

/// `x / 100` rounded toward zero, as Rust's integer division rounds.
pub open spec fn div100_toward_zero(x: int) -> int {
    if x >= 0 {
        x / 100
    } else {
        -((-x) / 100)
    }
}

/// A coordinate in nanodegrees (1e-9) brought to decimicrodegrees (1e-7):
/// divided by 100 toward zero, then truncated to 32 bits.
pub open spec fn decimicro_of(nano: i64) -> i32 {
    div100_toward_zero(nano as int) as i32
}

/// Converts a coordinate from nanodegrees to decimicrodegrees the way the
/// decoders do: `(nano / 100) as i32`.
pub fn decimicro(nano: i64) -> (r: i32)
    ensures
        r == decimicro_of(nano),
        decimicro_fits(nano) ==> decimicro_brackets(nano, r as int),
{
    proof {
        lemma_decimicro_of_arith(nano);
    }
    (nano / 100) as i32
}

/// `nano / 100`, rounded toward zero, fits in an `i32`: no truncation.
pub open spec fn decimicro_fits(nano: i64) -> bool {
    -214748364899 <= nano <= 214748364799
}

/// `d` is `nano / 100` rounded toward zero, said by arithmetic: `100 * d`
/// lies on the same side of zero as `nano`, at most 99 closer to zero.
pub open spec fn decimicro_brackets(nano: i64, d: int) -> bool {
    &&& nano >= 0 ==> 0 <= 100 * d <= nano < 100 * d + 100
    &&& nano < 0 ==> 100 * d - 100 < nano <= 100 * d <= 0
}

/// Where no truncation happens, `decimicro_of` rounds toward zero: it
/// keeps the sign of its argument and drops less than 100 nanodegrees.
pub proof fn lemma_decimicro_of_arith(nano: i64)
    ensures
        decimicro_fits(nano) ==> decimicro_brackets(nano, decimicro_of(nano) as int),
{
    if decimicro_fits(nano) {
        let x = nano as int;
        if x >= 0 {
            vstd::arithmetic::div_mod::lemma_fundamental_div_mod(x, 100);
        } else {
            vstd::arithmetic::div_mod::lemma_fundamental_div_mod(-x, 100);
        }
    }
}

/// Where no truncation happens, the conversion is odd: a coordinate and its
/// mirror image across zero convert to opposite values.
pub proof fn lemma_decimicro_of_odd(nano: i64)
    requires
        decimicro_fits(nano),
        decimicro_fits((-nano) as i64),
        nano != i64::MIN,
    ensures
        decimicro_of((-nano) as i64) == -decimicro_of(nano),
{
    lemma_decimicro_of_arith(nano);
    lemma_decimicro_of_arith((-nano) as i64);
}

/// A counter that starts at `x` and is incremented, wrapping, `n` times.
pub open spec fn count_wrapping(x: usize, n: int) -> usize {
    ((x + n) % (usize::MAX + 1)) as usize
}

/// One more wrapping increment of the counter.
pub proof fn lemma_count_wrapping_step(x: usize, n: int)
    requires
        n >= 0,
    ensures
        count_wrapping(x, n + 1) == (if count_wrapping(x, n) == usize::MAX {
            0
        } else {
            count_wrapping(x, n) + 1
        }),
{
    let m: int = usize::MAX + 1;
    let a: int = x + n;
    let q = a / m;
    let r = a % m;
    vstd::arithmetic::div_mod::lemma_fundamental_div_mod(a, m);
    if r == m - 1 {
        vstd::arithmetic::div_mod::lemma_fundamental_div_mod_converse(a + 1, m, q + 1, 0);
    } else {
        vstd::arithmetic::div_mod::lemma_fundamental_div_mod_converse(a + 1, m, q, r + 1);
    }
}

/// The box `b` widened, in order, by the position of every node among
/// `elems`, given in nanodegrees; ways and relations (`None`) change nothing.
pub open spec fn nano_nodes_bbox(b: BBox, elems: Seq<Option<(i64, i64)>>) -> BBox
    decreases elems.len(),
{
    if elems.len() == 0 {
        b
    } else {
        let prev = nano_nodes_bbox(b, elems.drop_last());
        match elems.last() {
            Some(p) => bbox_extended(
                prev,
                decimicro_of(p.0),
                decimicro_of(p.0),
                decimicro_of(p.1),
                decimicro_of(p.1),
            ),
            None => prev,
        }
    }
}

/// The bounding box of the nodes of one block, given in nanodegrees, and a
/// count of its elements: every element, node or not, increments
/// `num_data_blocks` by one (wrapping). Starts from the empty box.
pub fn calc_nodes_bbox(elements: &Vec<Option<(i64, i64)>>, num_data_blocks: &mut usize) -> (r: BBox)
    ensures
        r == nano_nodes_bbox(bbox_void(), elements@),
        *final(num_data_blocks) == count_wrapping(*old(num_data_blocks), elements@.len() as int),
{
    let mut bbox = BBox::void();
    let mut i: usize = 0;
    proof {
        assert(elements@.take(0) =~= Seq::<Option<(i64, i64)>>::empty());
        vstd::arithmetic::div_mod::lemma_small_mod(*old(num_data_blocks) as nat, (usize::MAX + 1) as nat);
    }
    while i < elements.len()
        invariant
            i <= elements.len(),
            bbox == nano_nodes_bbox(bbox_void(), elements@.take(i as int)),
            *num_data_blocks == count_wrapping(*old(num_data_blocks), i as int),
        decreases elements.len() - i,
    {
        match elements[i] {
            Some((lat, lon)) => {
                bbox.add(decimicro(lat), decimicro(lon));
            },
            None => {},
        }
        proof {
            lemma_count_wrapping_step(*old(num_data_blocks), i as int);
            assert(elements@.take(i + 1).drop_last() =~= elements@.take(i as int));
        }
        *num_data_blocks = num_data_blocks.wrapping_add(1);
        i += 1;
    }
    proof {
        assert(elements@.take(elements.len() as int) =~= elements@);
    }
    bbox
}

/// The box `b` widened, in order, by the position of every node among
/// `elems`, given in decimicrodegrees; ways and relations (`None`) change
/// nothing.
pub open spec fn decimicro_nodes_bbox(b: BBox, elems: Seq<Option<(i32, i32)>>) -> BBox
    decreases elems.len(),
{
    if elems.len() == 0 {
        b
    } else {
        let prev = decimicro_nodes_bbox(b, elems.drop_last());
        match elems.last() {
            Some(p) => bbox_extended(prev, p.0, p.0, p.1, p.1),
            None => prev,
        }
    }
}

/// Incrementing `a` times and then `b` times is incrementing `a + b` times.
pub proof fn lemma_count_wrapping_add(x: usize, a: int, b: int)
    requires
        a >= 0,
        b >= 0,
    ensures
        count_wrapping(count_wrapping(x, a), b) == count_wrapping(x, a + b),
{
    let m: int = usize::MAX + 1;
    vstd::arithmetic::div_mod::lemma_add_mod_noop_right(b, x + a, m);
}

/// `b` extended, block by block in order, by the node box of each block.
pub open spec fn blocks_bbox(b: BBox, blocks: Seq<Seq<Option<(i64, i64)>>>) -> BBox
    decreases blocks.len(),
{
    if blocks.len() == 0 {
        b
    } else {
        bbox_union(blocks_bbox(b, blocks.drop_last()), nano_nodes_bbox(bbox_void(), blocks.last()))
    }
}

/// How many elements the blocks hold together.
pub open spec fn blocks_len(blocks: Seq<Seq<Option<(i64, i64)>>>) -> int
    decreases blocks.len(),
{
    if blocks.len() == 0 {
        0
    } else {
        blocks_len(blocks.drop_last()) + blocks.last().len()
    }
}

/// Every point of `a` lies in `o`, axis by axis.
pub open spec fn box_within(a: BBox, o: BBox) -> bool {
    &&& range_subset(a.min_lat as int, a.max_lat as int, o.min_lat as int, o.max_lat as int)
    &&& range_subset(a.min_lon as int, a.max_lon as int, o.min_lon as int, o.max_lon as int)
}

/// The latitude, in decimicrodegrees, of a node given in nanodegrees.
pub open spec fn node_lat(e: Option<(i64, i64)>) -> int {
    match e {
        Some((lat, _)) => decimicro_of(lat) as int,
        None => 0,
    }
}

/// The longitude, in decimicrodegrees, of a node given in nanodegrees.
pub open spec fn node_lon(e: Option<(i64, i64)>) -> int {
    match e {
        Some((_, lon)) => decimicro_of(lon) as int,
        None => 0,
    }
}

/// `o` holds the position, in decimicrodegrees, of every node among
/// `elems`.
pub open spec fn holds_nano_nodes(o: BBox, elems: Seq<Option<(i64, i64)>>) -> bool {
    forall|i: int|
        0 <= i < elems.len() && #[trigger] elems[i] is Some ==> bbox_contains(
            o,
            node_lat(elems[i]),
            node_lon(elems[i]),
        )
}

/// The box of a run of elements is the smallest box that holds the box it
/// started from and every node of the run: it holds them all, and any box
/// that holds them all holds it. So it does not depend on the order of
/// the elements.
pub proof fn lemma_nano_nodes_bbox_hull(b: BBox, elems: Seq<Option<(i64, i64)>>, o: BBox)
    ensures
        box_within(b, nano_nodes_bbox(b, elems)),
        holds_nano_nodes(nano_nodes_bbox(b, elems), elems),
        box_within(b, o) && holds_nano_nodes(o, elems) ==> box_within(nano_nodes_bbox(b, elems), o),
    decreases elems.len(),
{
    if elems.len() > 0 {
        let prefix = elems.drop_last();
        let prev = nano_nodes_bbox(b, prefix);
        lemma_nano_nodes_bbox_hull(b, prefix, o);
        lemma_holds_nano_nodes_prefix(o, elems);
        let r = nano_nodes_bbox(b, elems);
        let last = elems.last();
        assert(elems[elems.len() - 1] == last);
        let (lat, lon) = match last {
            Some(p) => (decimicro_of(p.0), decimicro_of(p.1)),
            None => (1i32, -1i32),
        };
        assert forall|i: int| 0 <= i < elems.len() && #[trigger] elems[i] is Some implies bbox_contains(
            r,
            node_lat(elems[i]),
            node_lon(elems[i]),
        ) by {
            if i < elems.len() - 1 {
                assert(prefix[i] == elems[i]);
                lemma_extend_covers(prev, lat, lat, lon, lon, node_lat(elems[i]), node_lon(elems[i]));
            } else {
                lemma_extend_covers(prev, lat, lat, lon, lon, lat as int, lon as int);
            }
        }
        if last is Some && box_within(b, o) && holds_nano_nodes(o, elems) {
            lemma_extend_smallest(prev, lat, lat, lon, lon, o);
        }
    }
}

/// A box that holds the nodes of a run holds those of the run without its
/// last element.
pub proof fn lemma_holds_nano_nodes_prefix(o: BBox, elems: Seq<Option<(i64, i64)>>)
    requires
        elems.len() > 0,
    ensures
        holds_nano_nodes(o, elems) ==> holds_nano_nodes(o, elems.drop_last()),
{
    let prefix = elems.drop_last();
    if holds_nano_nodes(o, elems) {
        assert forall|i: int| 0 <= i < prefix.len() && #[trigger] prefix[i] is Some implies bbox_contains(
            o,
            node_lat(prefix[i]),
            node_lon(prefix[i]),
        ) by {
            assert(prefix[i] == elems[i]);
        }
    }
}

/// A box within `c` holds no node that `c` does not hold.
pub proof fn lemma_holds_nano_nodes_within(a: BBox, c: BBox, elems: Seq<Option<(i64, i64)>>)
    requires
        box_within(a, c),
        holds_nano_nodes(a, elems),
    ensures
        holds_nano_nodes(c, elems),
{
    assert forall|i: int| 0 <= i < elems.len() && #[trigger] elems[i] is Some implies bbox_contains(
        c,
        node_lat(elems[i]),
        node_lon(elems[i]),
    ) by {
        assert(bbox_contains(a, node_lat(elems[i]), node_lon(elems[i])));
    }
}

/// Widening `a` by `x` gives a box within `o` when both are; and both lie
/// within the result.
pub proof fn lemma_union_hull(a: BBox, x: BBox, o: BBox)
    ensures
        box_within(a, bbox_union(a, x)),
        box_within(x, bbox_union(a, x)),
        box_within(a, o) && box_within(x, o) ==> box_within(bbox_union(a, x), o),
{
    lemma_hull_covers(a.min_lat, a.max_lat, x.min_lat, x.max_lat);
    lemma_hull_covers(a.min_lon, a.max_lon, x.min_lon, x.max_lon);
    if box_within(a, o) && box_within(x, o) {
        lemma_hull_smallest(a.min_lat, a.max_lat, x.min_lat, x.max_lat, o.min_lat as int, o.max_lat as int);
        lemma_hull_smallest(a.min_lon, a.max_lon, x.min_lon, x.max_lon, o.min_lon as int, o.max_lon as int);
    }
}

/// Folding a file block by block, each block's box merged in turn, gives
/// the smallest box that holds the starting box and every node of every
/// block, whatever the order or grouping of the blocks. This is why
/// merging per-block boxes computed on several threads gives the box of
/// the whole file.
pub proof fn lemma_blocks_bbox_hull(b: BBox, blocks: Seq<Seq<Option<(i64, i64)>>>, o: BBox)
    ensures
        box_within(b, blocks_bbox(b, blocks)),
        forall|k: int| 0 <= k < blocks.len() ==> holds_nano_nodes(blocks_bbox(b, blocks), #[trigger] blocks[k]),
        box_within(b, o) && (forall|k: int| 0 <= k < blocks.len() ==> holds_nano_nodes(o, #[trigger] blocks[k]))
            ==> box_within(blocks_bbox(b, blocks), o),
    decreases blocks.len(),
{
    if blocks.len() > 0 {
        let prefix = blocks.drop_last();
        let prev = blocks_bbox(b, prefix);
        let last = blocks.last();
        let nb = nano_nodes_bbox(bbox_void(), last);
        let r = blocks_bbox(b, blocks);
        lemma_blocks_bbox_hull(b, prefix, o);
        lemma_nano_nodes_bbox_hull(bbox_void(), last, o);
        lemma_union_hull(prev, nb, o);
        assert forall|k: int| 0 <= k < blocks.len() implies holds_nano_nodes(r, #[trigger] blocks[k]) by {
            if k < blocks.len() - 1 {
                assert(prefix[k] == blocks[k]);
                lemma_holds_nano_nodes_within(prev, r, prefix[k]);
            } else {
                lemma_holds_nano_nodes_within(nb, r, last);
            }
        }
        if box_within(b, o) && (forall|k: int| 0 <= k < blocks.len() ==> holds_nano_nodes(o, #[trigger] blocks[k])) {
            assert forall|k: int| 0 <= k < prefix.len() implies holds_nano_nodes(o, #[trigger] prefix[k]) by {
                assert(prefix[k] == blocks[k]);
            }
            assert(holds_nano_nodes(o, blocks[blocks.len() - 1]));
        }
    }
}

/// `o` holds the position of every node among `elems`, given in
/// decimicrodegrees.
pub open spec fn holds_decimicro_nodes(o: BBox, elems: Seq<Option<(i32, i32)>>) -> bool {
    forall|i: int|
        0 <= i < elems.len() && #[trigger] elems[i] is Some ==> match elems[i] {
            Some((lat, lon)) => bbox_contains(o, lat as int, lon as int),
            None => true,
        }
}

/// The box of a run of objects given in decimicrodegrees is the smallest
/// box that holds the box it started from and every node of the run, so it
/// does not depend on the order in which the objects come.
pub proof fn lemma_decimicro_nodes_bbox_hull(b: BBox, elems: Seq<Option<(i32, i32)>>, o: BBox)
    ensures
        box_within(b, decimicro_nodes_bbox(b, elems)),
        holds_decimicro_nodes(decimicro_nodes_bbox(b, elems), elems),
        box_within(b, o) && holds_decimicro_nodes(o, elems) ==> box_within(
            decimicro_nodes_bbox(b, elems),
            o,
        ),
    decreases elems.len(),
{
    if elems.len() > 0 {
        let prefix = elems.drop_last();
        let prev = decimicro_nodes_bbox(b, prefix);
        lemma_decimicro_nodes_bbox_hull(b, prefix, o);
        let r = decimicro_nodes_bbox(b, elems);
        assert forall|i: int| 0 <= i < elems.len() && #[trigger] elems[i] is Some implies match elems[i] {
            Some((lat, lon)) => bbox_contains(r, lat as int, lon as int),
            None => true,
        } by {
            if i < elems.len() - 1 {
                assert(prefix[i] == elems[i]);
                match (elems[i], elems.last()) {
                    (Some((lat, lon)), Some((a, c))) => {
                        lemma_extend_covers(prev, a, a, c, c, lat as int, lon as int);
                    },
                    _ => {},
                }
            } else {
                match elems[i] {
                    Some((lat, lon)) => {
                        lemma_extend_covers(prev, lat, lat, lon, lon, lat as int, lon as int);
                    },
                    None => {},
                }
            }
        }
        if box_within(b, o) && holds_decimicro_nodes(o, elems) {
            assert(holds_decimicro_nodes(o, prefix)) by {
                assert forall|i: int| 0 <= i < prefix.len() && #[trigger] prefix[i] is Some implies match prefix[i] {
                    Some((lat, lon)) => bbox_contains(o, lat as int, lon as int),
                    None => true,
                } by {
                    assert(prefix[i] == elems[i]);
                }
            }
            match elems.last() {
                Some((a, c)) => {
                    assert(elems[elems.len() - 1] is Some);
                    lemma_extend_smallest(prev, a, a, c, c, o);
                },
                None => {},
            }
        }
    }
}

/// Extending a box by a point commutes with first merging in another
/// box: both give the hull of the three.
proof fn lemma_point_after_union(b: BBox, v: BBox, lat: i32, lon: i32)
    ensures
        bbox_extended(bbox_union(b, v), lat, lat, lon, lon) == bbox_union(
            b,
            bbox_extended(v, lat, lat, lon, lon),
        ),
{
}

/// Extending a box by the box of a run of elements is exactly adding the
/// run's nodes to it one by one.
pub proof fn lemma_extend_by_nodes_box(b: BBox, elems: Seq<Option<(i64, i64)>>)
    ensures
        bbox_union(b, nano_nodes_bbox(bbox_void(), elems)) == nano_nodes_bbox(b, elems),
    decreases elems.len(),
{
    if elems.len() == 0 {
        crate::bbox::lemma_extend_by_empty(b, bbox_void());
    } else {
        let prefix = elems.drop_last();
        lemma_extend_by_nodes_box(b, prefix);
        match elems.last() {
            Some(p) => {
                lemma_point_after_union(
                    b,
                    nano_nodes_bbox(bbox_void(), prefix),
                    decimicro_of(p.0),
                    decimicro_of(p.1),
                );
            },
            None => {},
        }
    }
}

/// Adding the nodes of `s1 + s2` is adding those of `s1`, then those of `s2`.
pub proof fn lemma_nano_nodes_bbox_concat(b: BBox, s1: Seq<Option<(i64, i64)>>, s2: Seq<Option<(i64, i64)>>)
    ensures
        nano_nodes_bbox(b, s1 + s2) == nano_nodes_bbox(nano_nodes_bbox(b, s1), s2),
    decreases s2.len(),
{
    if s2.len() == 0 {
        assert(s1 + s2 =~= s1);
    } else {
        lemma_nano_nodes_bbox_concat(b, s1, s2.drop_last());
        assert((s1 + s2).drop_last() =~= s1 + s2.drop_last());
        assert((s1 + s2).last() == s2.last());
    }
}

/// The elements of all blocks, block after block.
pub open spec fn blocks_elements(blocks: Seq<Seq<Option<(i64, i64)>>>) -> Seq<Option<(i64, i64)>>
    decreases blocks.len(),
{
    if blocks.len() == 0 {
        Seq::empty()
    } else {
        blocks_elements(blocks.drop_last()) + blocks.last()
    }
}

/// Merging the box of each block in turn gives exactly the box that adding
/// every element of the file one by one gives, and the blocks' element
/// counts add up to the number of elements of the file.
pub proof fn lemma_blocks_bbox_flat(b: BBox, blocks: Seq<Seq<Option<(i64, i64)>>>)
    ensures
        blocks_bbox(b, blocks) == nano_nodes_bbox(b, blocks_elements(blocks)),
        blocks_len(blocks) == blocks_elements(blocks).len(),
    decreases blocks.len(),
{
    if blocks.len() > 0 {
        let prefix = blocks.drop_last();
        lemma_blocks_bbox_flat(b, prefix);
        lemma_extend_by_nodes_box(nano_nodes_bbox(b, blocks_elements(prefix)), blocks.last());
        lemma_nano_nodes_bbox_concat(b, blocks_elements(prefix), blocks.last());
    }
}

/// The run holds a node.
pub open spec fn has_node(elems: Seq<Option<(i64, i64)>>) -> bool {
    exists|i: int| 0 <= i < elems.len() && #[trigger] elems[i] is Some
}

/// Starting from the empty box, the box of a run without nodes is the empty
/// box; with nodes, each of its four bounds is the coordinate of one of
/// them. With `lemma_nano_nodes_bbox_hull` this makes the bounds the exact
/// minimum and maximum of the nodes' coordinates.
pub proof fn lemma_nodes_bbox_attained(elems: Seq<Option<(i64, i64)>>)
    ensures
        !has_node(elems) ==> nano_nodes_bbox(bbox_void(), elems) == bbox_void(),
        has_node(elems) ==> ({
            let r = nano_nodes_bbox(bbox_void(), elems);
            &&& r.min_lat <= r.max_lat
            &&& r.min_lon <= r.max_lon
            &&& exists|i: int| 0 <= i < elems.len() && #[trigger] elems[i] is Some && node_lat(elems[i]) == r.min_lat
            &&& exists|i: int| 0 <= i < elems.len() && #[trigger] elems[i] is Some && node_lat(elems[i]) == r.max_lat
            &&& exists|i: int| 0 <= i < elems.len() && #[trigger] elems[i] is Some && node_lon(elems[i]) == r.min_lon
            &&& exists|i: int| 0 <= i < elems.len() && #[trigger] elems[i] is Some && node_lon(elems[i]) == r.max_lon
        }),
    decreases elems.len(),
{
    if elems.len() > 0 {
        let prefix = elems.drop_last();
        let last_i = elems.len() - 1;
        lemma_nodes_bbox_attained(prefix);
        let prev = nano_nodes_bbox(bbox_void(), prefix);
        let r = nano_nodes_bbox(bbox_void(), elems);
        assert forall|i: int| 0 <= i < prefix.len() implies prefix[i] == elems[i] by {}
        if has_node(prefix) {
            let a = choose|i: int| 0 <= i < prefix.len() && #[trigger] prefix[i] is Some && node_lat(prefix[i]) == prev.min_lat;
            let bb = choose|i: int| 0 <= i < prefix.len() && #[trigger] prefix[i] is Some && node_lat(prefix[i]) == prev.max_lat;
            let c = choose|i: int| 0 <= i < prefix.len() && #[trigger] prefix[i] is Some && node_lon(prefix[i]) == prev.min_lon;
            let d = choose|i: int| 0 <= i < prefix.len() && #[trigger] prefix[i] is Some && node_lon(prefix[i]) == prev.max_lon;
            assert(elems[a] is Some && elems[bb] is Some && elems[c] is Some && elems[d] is Some);
            assert(elems[last_i] == elems.last());
            assert(has_node(elems));
        } else {
            if elems.last() is Some {
                assert(elems[last_i] is Some);
                assert(has_node(elems));
            } else {
                assert forall|i: int| 0 <= i < elems.len() implies !(#[trigger] elems[i] is Some) by {
                    if i < last_i {
                        assert(!(prefix[i] is Some));
                    }
                }
            }
        }
    }
}

/// Extending a box by the box of a run of objects given in
/// decimicrodegrees is exactly adding the run's nodes to it one by one
/// (`BBox::extend` of a box built with `BBox::add` from `BBox::void`).
pub proof fn lemma_extend_by_decimicro_nodes_box(b: BBox, elems: Seq<Option<(i32, i32)>>)
    ensures
        bbox_union(b, decimicro_nodes_bbox(bbox_void(), elems)) == decimicro_nodes_bbox(b, elems),
    decreases elems.len(),
{
    if elems.len() == 0 {
        crate::bbox::lemma_extend_by_empty(b, bbox_void());
    } else {
        let prefix = elems.drop_last();
        lemma_extend_by_decimicro_nodes_box(b, prefix);
        match elems.last() {
            Some(p) => {
                lemma_point_after_union(b, decimicro_nodes_bbox(bbox_void(), prefix), p.0, p.1);
            },
            None => {},
        }
    }
}

/// The latitude of an object's node (0 for a way or relation).
pub open spec fn object_lat(e: Option<(i32, i32)>) -> int {
    match e {
        Some((lat, _)) => lat as int,
        None => 0,
    }
}

/// The longitude of an object's node (0 for a way or relation).
pub open spec fn object_lon(e: Option<(i32, i32)>) -> int {
    match e {
        Some((_, lon)) => lon as int,
        None => 0,
    }
}

/// The run of objects holds a node.
pub open spec fn has_decimicro_node(elems: Seq<Option<(i32, i32)>>) -> bool {
    exists|i: int| 0 <= i < elems.len() && #[trigger] elems[i] is Some
}

/// Adding points with `BBox::add` from `BBox::void`: without nodes the box
/// stays the empty box; with nodes, each of its four bounds is the
/// coordinate of one of them. With `lemma_decimicro_nodes_bbox_hull` this
/// makes the box exactly the minimum and maximum of the points added.
pub proof fn lemma_decimicro_nodes_bbox_attained(elems: Seq<Option<(i32, i32)>>)
    ensures
        !has_decimicro_node(elems) ==> decimicro_nodes_bbox(bbox_void(), elems) == bbox_void(),
        has_decimicro_node(elems) ==> ({
            let r = decimicro_nodes_bbox(bbox_void(), elems);
            &&& r.min_lat <= r.max_lat
            &&& r.min_lon <= r.max_lon
            &&& exists|i: int| 0 <= i < elems.len() && #[trigger] elems[i] is Some && object_lat(elems[i]) == r.min_lat
            &&& exists|i: int| 0 <= i < elems.len() && #[trigger] elems[i] is Some && object_lat(elems[i]) == r.max_lat
            &&& exists|i: int| 0 <= i < elems.len() && #[trigger] elems[i] is Some && object_lon(elems[i]) == r.min_lon
            &&& exists|i: int| 0 <= i < elems.len() && #[trigger] elems[i] is Some && object_lon(elems[i]) == r.max_lon
        }),
    decreases elems.len(),
{
    if elems.len() > 0 {
        let prefix = elems.drop_last();
        let last_i = elems.len() - 1;
        lemma_decimicro_nodes_bbox_attained(prefix);
        let prev = decimicro_nodes_bbox(bbox_void(), prefix);
        assert forall|i: int| 0 <= i < prefix.len() implies prefix[i] == elems[i] by {}
        if has_decimicro_node(prefix) {
            let a = choose|i: int| 0 <= i < prefix.len() && #[trigger] prefix[i] is Some && object_lat(prefix[i]) == prev.min_lat;
            let bb = choose|i: int| 0 <= i < prefix.len() && #[trigger] prefix[i] is Some && object_lat(prefix[i]) == prev.max_lat;
            let c = choose|i: int| 0 <= i < prefix.len() && #[trigger] prefix[i] is Some && object_lon(prefix[i]) == prev.min_lon;
            let d = choose|i: int| 0 <= i < prefix.len() && #[trigger] prefix[i] is Some && object_lon(prefix[i]) == prev.max_lon;
            assert(elems[a] is Some && elems[bb] is Some && elems[c] is Some && elems[d] is Some);
            assert(elems[last_i] == elems.last());
            assert(has_decimicro_node(elems));
        } else {
            if elems.last() is Some {
                assert(elems[last_i] is Some);
                assert(has_decimicro_node(elems));
            } else {
                assert forall|i: int| 0 <= i < elems.len() implies !(#[trigger] elems[i] is Some) by {
                    if i < last_i {
                        assert(!(prefix[i] is Some));
                    }
                }
            }
        }
    }
}

} // verus!

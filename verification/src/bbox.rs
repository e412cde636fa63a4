use vstd::prelude::*;

use vstd::string::StringExecFns;

use crate::text::{decimal, push_decimal};

verus! {

/// `x` lies in the closed range `[lo, hi]`; the range is empty when `lo > hi`.
pub open spec fn in_range(lo: int, hi: int, x: int) -> bool {
    lo <= x <= hi
}

/// Every point of `[lo1, hi1]` lies in `[lo2, hi2]`.
pub open spec fn range_subset(lo1: int, hi1: int, lo2: int, hi2: int) -> bool {
    lo1 > hi1 || (lo2 <= lo1 && hi1 <= hi2)
}

/// The two ranges hold the same points.
pub open spec fn range_equiv(lo1: int, hi1: int, lo2: int, hi2: int) -> bool {
    range_subset(lo1, hi1, lo2, hi2) && range_subset(lo2, hi2, lo1, hi1)
}

/// The smallest range that holds `[lo, hi]` and `[a, b]`: an empty
/// `[a, b]` leaves `[lo, hi]` as it is, and an empty `[lo, hi]` is
/// replaced by `[a, b]`.
pub open spec fn hull(lo: i32, hi: i32, a: i32, b: i32) -> (i32, i32) {
    if a > b {
        (lo, hi)
    } else if lo > hi {
        (a, b)
    } else {
        (if a < lo { a } else { lo }, if b > hi { b } else { hi })
    }
}

/// A bounding box of coordinates in units of 1e-7 degrees: a latitude range
/// and a longitude range, each empty when its minimum exceeds its maximum.
#[derive(Debug, Clone, Copy, PartialEq, Eq, Structural)]
pub struct BBox {
    pub min_lat: i32,
    pub max_lat: i32,
    pub min_lon: i32,
    pub max_lon: i32,
}

/// `b` widened to take in the latitudes `[min_lat, max_lat]` and the
/// longitudes `[min_lon, max_lon]`, each axis on its own.
pub open spec fn bbox_extended(b: BBox, min_lat: i32, max_lat: i32, min_lon: i32, max_lon: i32) -> BBox {
    BBox {
        min_lat: hull(b.min_lat, b.max_lat, min_lat, max_lat).0,
        max_lat: hull(b.min_lat, b.max_lat, min_lat, max_lat).1,
        min_lon: hull(b.min_lon, b.max_lon, min_lon, max_lon).0,
        max_lon: hull(b.min_lon, b.max_lon, min_lon, max_lon).1,
    }
}

/// `a` widened to take in `b`.
pub open spec fn bbox_union(a: BBox, b: BBox) -> BBox {
    bbox_extended(a, b.min_lat, b.max_lat, b.min_lon, b.max_lon)
}

/// The empty box that `BBox::void` returns.
pub open spec fn bbox_void() -> BBox {
    BBox { min_lat: 1i32, max_lat: -1i32, min_lon: 1i32, max_lon: -1i32 }
}

/// The two boxes hold the same latitudes and the same longitudes.
pub open spec fn bbox_equiv(a: BBox, b: BBox) -> bool {
    &&& range_equiv(a.min_lat as int, a.max_lat as int, b.min_lat as int, b.max_lat as int)
    &&& range_equiv(a.min_lon as int, a.max_lon as int, b.min_lon as int, b.max_lon as int)
}

/// The point `(lat, lon)` lies in the box.
pub open spec fn bbox_contains(b: BBox, lat: int, lon: int) -> bool {
    in_range(b.min_lat as int, b.max_lat as int, lat) && in_range(b.min_lon as int, b.max_lon as int, lon)
}

impl Default for BBox {
    fn default() -> (b: BBox)
        ensures
            b == (BBox { min_lat: 0, max_lat: 0, min_lon: 0, max_lon: 0 }),
    {
        BBox { min_lat: 0, max_lat: 0, min_lon: 0, max_lon: 0 }
    }
}

impl BBox {
    /// The empty box: both ranges have minimum 1 and maximum -1, so the
    /// first coordinates added replace them.
    pub fn void() -> (b: BBox)
        ensures
            b == bbox_void(),
    {
        BBox { min_lat: 1, max_lat: -1, min_lon: 1, max_lon: -1 }
    }

    /// The four bounds, in the order `(min_lat, max_lat, min_lon, max_lon)`.
    pub fn load(&self) -> (r: (i32, i32, i32, i32))
        ensures
            r == (self.min_lat, self.max_lat, self.min_lon, self.max_lon),
    {
        (self.min_lat, self.max_lat, self.min_lon, self.max_lon)
    }

    /// Widens the box to take in the point `(lat, lon)`.
    pub fn add(&mut self, lat: i32, lon: i32)
        ensures
            *final(self) == bbox_extended(*old(self), lat, lat, lon, lon),
    {
        self.extend_min_max(lat, lat, lon, lon);
    }

    /// Widens the box to take in the latitudes `[min_lat, max_lat]` and the
    /// longitudes `[min_lon, max_lon]`. An empty input range leaves its axis
    /// unchanged; an empty axis of the box is replaced by the input range.
    pub fn extend_min_max(&mut self, min_lat: i32, max_lat: i32, min_lon: i32, max_lon: i32)
        ensures
            *final(self) == bbox_extended(*old(self), min_lat, max_lat, min_lon, max_lon),
    {
        if min_lat <= max_lat {
            let min = self.min_lat;
            let max = self.max_lat;
            if min_lat < min || min > max {
                self.min_lat = min_lat;
            }
            if max_lat > max || min > max {
                self.max_lat = max_lat;
            }
        }
        if min_lon <= max_lon {
            let min = self.min_lon;
            let max = self.max_lon;
            if min_lon < min || min > max {
                self.min_lon = min_lon;
            }
            if max_lon > max || min > max {
                self.max_lon = max_lon;
            }
        }
    }

    /// Widens the box to take in `other`.
    pub fn extend(&mut self, other: Self)
        ensures
            *final(self) == bbox_union(*old(self), other),
    {
        self.extend_min_max(other.min_lat, other.max_lat, other.min_lon, other.max_lon);
    }
}

/// How a box is written: `BBOX(lon:[min..max], lat:[min..max])`, each
/// bound in decimal.
pub open spec fn bbox_text(b: BBox) -> Seq<char> {
    "BBOX(lon:["@ + decimal(b.min_lon as int) + ".."@ + decimal(b.max_lon as int) + "], lat:["@
        + decimal(b.min_lat as int) + ".."@ + decimal(b.max_lat as int) + "])"@
}

/// Where each field stands in the text of a box: after `BBOX(lon:[` the
/// minimum longitude, `..`, the maximum longitude, then after `], lat:[`
/// the minimum latitude, `..`, the maximum latitude, and `])`, each bound
/// in decimal, for every box.
pub proof fn lemma_bbox_text_layout(b: BBox)
    ensures
        ({
            let t = bbox_text(b);
            let lon0 = decimal(b.min_lon as int);
            let lon1 = decimal(b.max_lon as int);
            let lat0 = decimal(b.min_lat as int);
            let lat1 = decimal(b.max_lat as int);
            let a: int = 10 + lon0.len() as int;
            let c: int = a + 2 + lon1.len();
            let d: int = c + 8 + lat0.len();
            let e: int = d + 2 + lat1.len();
            &&& t.len() == e + 2
            &&& t.subrange(0, 10) == seq!['B', 'B', 'O', 'X', '(', 'l', 'o', 'n', ':', '[']
            &&& t.subrange(10, a) == lon0
            &&& t.subrange(a, a + 2) == seq!['.', '.']
            &&& t.subrange(a + 2, c) == lon1
            &&& t.subrange(c, c + 8) == seq![']', ',', ' ', 'l', 'a', 't', ':', '[']
            &&& t.subrange(c + 8, d) == lat0
            &&& t.subrange(d, d + 2) == seq!['.', '.']
            &&& t.subrange(d + 2, e) == lat1
            &&& t.subrange(e, e + 2) == seq![']', ')']
        }),
{
    reveal_strlit("BBOX(lon:[");
    reveal_strlit("..");
    reveal_strlit("], lat:[");
    reveal_strlit("])");
    let t = bbox_text(b);
    let lon0 = decimal(b.min_lon as int);
    let lon1 = decimal(b.max_lon as int);
    let lat0 = decimal(b.min_lat as int);
    let lat1 = decimal(b.max_lat as int);
    let a: int = 10 + lon0.len() as int;
    let c: int = a + 2 + lon1.len();
    let d: int = c + 8 + lat0.len();
    let e: int = d + 2 + lat1.len();
    assert(t.subrange(0, 10) =~= seq!['B', 'B', 'O', 'X', '(', 'l', 'o', 'n', ':', '[']);
    assert(t.subrange(10, a) =~= lon0);
    assert(t.subrange(a, a + 2) =~= seq!['.', '.']);
    assert(t.subrange(a + 2, c) =~= lon1);
    assert(t.subrange(c, c + 8) =~= seq![']', ',', ' ', 'l', 'a', 't', ':', '[']);
    assert(t.subrange(c + 8, d) =~= lat0);
    assert(t.subrange(d, d + 2) =~= seq!['.', '.']);
    assert(t.subrange(d + 2, e) =~= lat1);
    assert(t.subrange(e, e + 2) =~= seq![']', ')']);
}

impl BBox {
    /// The box written out as `BBOX(lon:[min..max], lat:[min..max])`.
    pub fn to_string(&self) -> (s: String)
        ensures
            s@ == bbox_text(*self),
    {
        let (min_lat, max_lat, min_lon, max_lon) = self.load();
        let mut s = String::new();
        s.append("BBOX(lon:[");
        push_decimal(&mut s, min_lon);
        s.append("..");
        push_decimal(&mut s, max_lon);
        s.append("], lat:[");
        push_decimal(&mut s, min_lat);
        s.append("..");
        push_decimal(&mut s, max_lat);
        s.append("])");
        s
    }
}

/// `range_subset` says exactly that every point of the first range lies in
/// the second.
pub proof fn lemma_range_subset_pointwise(lo1: int, hi1: int, lo2: int, hi2: int)
    ensures
        range_subset(lo1, hi1, lo2, hi2) <==> (forall|x: int|
            in_range(lo1, hi1, x) ==> #[trigger] in_range(lo2, hi2, x)),
{
    if !range_subset(lo1, hi1, lo2, hi2) {
        if lo2 > lo1 {
            assert(in_range(lo1, hi1, lo1) && !in_range(lo2, hi2, lo1));
        } else {
            assert(in_range(lo1, hi1, hi1) && !in_range(lo2, hi2, hi1));
        }
    }
}

/// The hull holds both of its ranges.
pub proof fn lemma_hull_covers(lo: i32, hi: i32, a: i32, b: i32)
    ensures
        range_subset(lo as int, hi as int, hull(lo, hi, a, b).0 as int, hull(lo, hi, a, b).1 as int),
        range_subset(a as int, b as int, hull(lo, hi, a, b).0 as int, hull(lo, hi, a, b).1 as int),
{
}

/// Any range that holds both ranges holds their hull.
pub proof fn lemma_hull_smallest(lo: i32, hi: i32, a: i32, b: i32, l: int, h: int)
    requires
        range_subset(lo as int, hi as int, l, h),
        range_subset(a as int, b as int, l, h),
    ensures
        range_subset(hull(lo, hi, a, b).0 as int, hull(lo, hi, a, b).1 as int, l, h),
{
}

/// Extending a box keeps every point it held and takes in every point of
/// the added ranges.
pub proof fn lemma_extend_covers(
    bx: BBox,
    min_lat: i32,
    max_lat: i32,
    min_lon: i32,
    max_lon: i32,
    lat: int,
    lon: int,
)
    requires
        bbox_contains(bx, lat, lon) || (in_range(min_lat as int, max_lat as int, lat) && in_range(
            min_lon as int,
            max_lon as int,
            lon,
        )),
    ensures
        bbox_contains(bbox_extended(bx, min_lat, max_lat, min_lon, max_lon), lat, lon),
{
}

/// Extending a box gives the smallest box that holds both the old box and
/// the added ranges: any box holding both holds the result.
pub proof fn lemma_extend_smallest(
    bx: BBox,
    min_lat: i32,
    max_lat: i32,
    min_lon: i32,
    max_lon: i32,
    other: BBox,
)
    requires
        range_subset(bx.min_lat as int, bx.max_lat as int, other.min_lat as int, other.max_lat as int),
        range_subset(bx.min_lon as int, bx.max_lon as int, other.min_lon as int, other.max_lon as int),
        range_subset(min_lat as int, max_lat as int, other.min_lat as int, other.max_lat as int),
        range_subset(min_lon as int, max_lon as int, other.min_lon as int, other.max_lon as int),
    ensures
        ({
            let e = bbox_extended(bx, min_lat, max_lat, min_lon, max_lon);
            &&& range_subset(e.min_lat as int, e.max_lat as int, other.min_lat as int, other.max_lat as int)
            &&& range_subset(e.min_lon as int, e.max_lon as int, other.min_lon as int, other.max_lon as int)
        }),
{
}

/// After `add(lat, lon)` the box holds the point, and every point it held.
pub proof fn lemma_add_contains(bx: BBox, lat: i32, lon: i32, p_lat: int, p_lon: int)
    ensures
        bbox_contains(bbox_extended(bx, lat, lat, lon, lon), lat as int, lon as int),
        bbox_contains(bx, p_lat, p_lon) ==> bbox_contains(
            bbox_extended(bx, lat, lat, lon, lon),
            p_lat,
            p_lon,
        ),
{
}

/// The empty box is a left identity of `extend`: `void` extended by `b`
/// holds exactly the points of `b`, and is `b` itself when both of its
/// ranges are non-empty.
pub proof fn lemma_void_left_identity(b: BBox)
    ensures
        bbox_equiv(bbox_union(bbox_void(), b), b),
        b.min_lat <= b.max_lat && b.min_lon <= b.max_lon ==> bbox_union(bbox_void(), b) == b,
{
}

/// Extending by a box whose ranges are both empty (such as `void`) changes
/// nothing.
pub proof fn lemma_extend_by_empty(a: BBox, b: BBox)
    requires
        b.min_lat > b.max_lat,
        b.min_lon > b.max_lon,
    ensures
        bbox_union(a, b) == a,
{
}

/// Extending `a` by `b` and `b` by `a` give boxes with the same points.
pub proof fn lemma_extend_commutative(a: BBox, b: BBox)
    ensures
        bbox_equiv(bbox_union(a, b), bbox_union(b, a)),
{
}

/// Grouping does not matter: `(a + b) + c` and `a + (b + c)` hold the same
/// points, so the blocks of a file may be merged in any order.
pub proof fn lemma_extend_associative(a: BBox, b: BBox, c: BBox)
    ensures
        bbox_equiv(bbox_union(bbox_union(a, b), c), bbox_union(a, bbox_union(b, c))),
{
}

/// Extending twice by the same box is the same as extending once.
pub proof fn lemma_extend_idempotent(a: BBox, b: BBox)
    ensures
        bbox_union(bbox_union(a, b), b) == bbox_union(a, b),
{
}

} // verus!

//! Where the parts of a geometry stand in its WKB encoding: the byte order
//! and geometry code of each header, the counts that follow it, and the
//! sizes of points, lines, rings, polygons and their collections, so that
//! the structure which the reader decodes can be stated of the bytes.

use vstd::prelude::*;
use crate::shape::{PolygonRef, Shape};

verus! {

/// The header at `p` declares big-endian byte order (byte 0); byte 1 is
/// little-endian.
pub open spec fn wkb_big_endian(b: Seq<u8>, p: int) -> bool {
    b[p] == 0
}

/// The unsigned 32-bit integer in the four bytes from `p` on.
pub open spec fn wkb_u32(b: Seq<u8>, p: int, big: bool) -> int {
    if big {
        b[p] * 0x100_0000 + b[p + 1] * 0x1_0000 + b[p + 2] * 0x100 + b[p + 3]
    } else {
        b[p] + b[p + 1] * 0x100 + b[p + 2] * 0x1_0000 + b[p + 3] * 0x100_0000
    }
}

/// The geometry code of the header at `p`, read in the header's byte order.
pub open spec fn wkb_code(b: Seq<u8>, p: int) -> int {
    wkb_u32(b, p + 1, wkb_big_endian(b, p))
}

/// The geometry type in the low three bits of the code: 3 a polygon, 6 a
/// multipolygon, 7 a collection; 1, 2, 4 and 5 points and lines.
pub open spec fn wkb_kind(b: Seq<u8>, p: int) -> int {
    wkb_code(b, p) % 8
}

/// A code with the extended-WKB SRID flag is followed by a 4-byte SRID.
pub open spec fn wkb_srid_bytes(code: int) -> int {
    if (code / 0x2000_0000) % 2 == 1 {
        4
    } else {
        0
    }
}

/// The number of coordinates of a point for a geometry code: the ISO
/// thousands (Z, M, ZM) unless an extended-WKB Z or M flag is set.
pub open spec fn wkb_coord_count(code: int) -> int {
    let z = (code / 0x8000_0000) % 2 == 1;
    let m = (code / 0x4000_0000) % 2 == 1;
    if z && m {
        4
    } else if z || m {
        3
    } else if code / 1000 == 1 || code / 1000 == 2 {
        3
    } else if code / 1000 == 3 {
        4
    } else {
        2
    }
}

/// Where the count that follows the header at `p` stands.
pub open spec fn wkb_count_pos(b: Seq<u8>, p: int) -> int {
    p + 5 + wkb_srid_bytes(wkb_code(b, p))
}

/// The count (of rings, polygons or members) that follows the header at `p`.
pub open spec fn wkb_count(b: Seq<u8>, p: int) -> int {
    wkb_u32(b, wkb_count_pos(b, p), wkb_big_endian(b, p))
}

/// The end of `k` consecutive rings from `q`, each a point count and then
/// that many points of `d` coordinates of 8 bytes.
pub open spec fn wkb_rings_end(b: Seq<u8>, q: int, big: bool, d: int, k: nat) -> int
    decreases k,
{
    if k == 0 {
        q
    } else {
        let r = wkb_rings_end(b, q, big, d, (k - 1) as nat);
        r + 4 + wkb_u32(b, r, big) * d * 8
    }
}

/// The number of rings of the polygon at `p`, whose header is read in the
/// given byte order.
pub open spec fn wkb_ring_count(b: Seq<u8>, p: int, big: bool) -> int {
    wkb_u32(b, p + 5 + wkb_srid_bytes(wkb_u32(b, p + 1, big)), big)
}

/// The end of the polygon at `p`, read in the given byte order with points
/// of `d` coordinates.
pub open spec fn wkb_polygon_end(b: Seq<u8>, p: int, big: bool, d: int) -> int {
    let q = p + 9 + wkb_srid_bytes(wkb_u32(b, p + 1, big));
    wkb_rings_end(b, q, big, d, wkb_ring_count(b, p, big) as nat)
}

/// The holes of the polygon at `p`: all its rings but the exterior.
pub open spec fn wkb_polygon_holes(b: Seq<u8>, p: int, big: bool) -> int {
    let n = wkb_ring_count(b, p, big);
    if n == 0 {
        0
    } else {
        n - 1
    }
}

/// Where polygon `j` of the multipolygon at `p` starts: its polygons follow
/// the count one after the other, read in the multipolygon's byte order and
/// with its number of coordinates.
pub open spec fn wkb_part_pos(b: Seq<u8>, p: int, j: nat) -> int
    decreases j,
{
    if j == 0 {
        wkb_count_pos(b, p) + 4
    } else {
        wkb_polygon_end(
            b,
            wkb_part_pos(b, p, (j - 1) as nat),
            wkb_big_endian(b, p),
            wkb_coord_count(wkb_code(b, p)),
        )
    }
}

/// The polygons of the multipolygon at `p`, by their numbers of holes.
pub open spec fn wkb_multipolygon_parts(b: Seq<u8>, p: int) -> Seq<PolygonRef> {
    Seq::new(
        wkb_count(b, p) as nat,
        |j: int|
            PolygonRef {
                holes: wkb_polygon_holes(b, wkb_part_pos(b, p, j as nat), wkb_big_endian(b, p)) as usize,
            },
    )
}

/// The end of the line string at `q`, read in the given byte order with
/// points of `d` coordinates: its header, its point count, its points.
pub open spec fn wkb_line_end(b: Seq<u8>, q: int, big: bool, d: int) -> int {
    let c = q + 5 + wkb_srid_bytes(wkb_u32(b, q + 1, big));
    c + 4 + wkb_u32(b, c, big) * d * 8
}

/// Where line string `j` of the multilinestring at `p` starts: its line
/// strings follow the count one after the other, read in its byte order and
/// with its number of coordinates.
pub open spec fn wkb_line_pos(b: Seq<u8>, p: int, j: nat) -> int
    decreases j,
{
    if j == 0 {
        wkb_count_pos(b, p) + 4
    } else {
        wkb_line_end(
            b,
            wkb_line_pos(b, p, (j - 1) as nat),
            wkb_big_endian(b, p),
            wkb_coord_count(wkb_code(b, p)),
        )
    }
}

/// The size of the geometry at `p`: a point is its header and coordinates,
/// a line string its header, count and points, a multipoint its header,
/// count and points with a header each, a multilinestring, polygon,
/// multipolygon or collection its header, count and parts (0 for a
/// collection nested deeper than `fuel`, or an unknown type).
pub open spec fn wkb_geometry_size(b: Seq<u8>, p: int, fuel: nat) -> int
    decreases fuel, 0nat,
{
    let k = wkb_kind(b, p);
    let d = wkb_coord_count(wkb_code(b, p));
    let c = wkb_count(b, p);
    if k == 1 {
        5 + wkb_srid_bytes(wkb_code(b, p)) + d * 8
    } else if k == 2 {
        wkb_count_pos(b, p) + 4 + c * d * 8 - p
    } else if k == 3 {
        wkb_polygon_end(b, p, wkb_big_endian(b, p), d) - p
    } else if k == 4 {
        wkb_count_pos(b, p) + 4 + c * (5 + d * 8) - p
    } else if k == 5 {
        wkb_line_pos(b, p, c as nat) - p
    } else if k == 6 {
        wkb_part_pos(b, p, c as nat) - p
    } else if k == 7 && fuel > 0 {
        wkb_member_pos(b, p, c as nat, (fuel - 1) as nat) - p
    } else {
        0
    }
}

/// Where member `j` of the collection at `p` starts: each member is a whole
/// geometry with its own header, following the one before it.
pub open spec fn wkb_member_pos(b: Seq<u8>, p: int, j: nat, fuel: nat) -> int
    decreases fuel, j + 1,
{
    if j == 0 {
        wkb_count_pos(b, p) + 4
    } else {
        let q = wkb_member_pos(b, p, (j - 1) as nat, fuel);
        q + wkb_geometry_size(b, q, fuel)
    }
}

/// The collections in the geometry at `p` nest at most `fuel` deep, so that
/// the size of each of its parts is known.
pub open spec fn wkb_within_depth(b: Seq<u8>, p: int, fuel: nat) -> bool
    decreases fuel,
{
    wkb_kind(b, p) == 7 ==> fuel > 0 && forall|j: int|
        0 <= j < wkb_count(b, p) ==> wkb_within_depth(
            b,
            #[trigger] wkb_member_pos(b, p, j as nat, (fuel - 1) as nat),
            (fuel - 1) as nat,
        )
}

/// The structure `s` is what the geometry at `p` holds: a polygon with its
/// holes, a multipolygon with each of its polygons in order, a collection
/// with each of its members in order, any other type unsupported.
pub open spec fn wkb_structure(b: Seq<u8>, p: int, fuel: nat, s: Shape) -> bool
    decreases fuel,
{
    let k = wkb_kind(b, p);
    if k == 3 {
        s == Shape::Polygon(
            PolygonRef { holes: wkb_polygon_holes(b, p, wkb_big_endian(b, p)) as usize },
        )
    } else if k == 6 {
        s matches Shape::MultiPolygon(v) && v@ == wkb_multipolygon_parts(b, p)
    } else if k == 7 {
        wkb_within_depth(b, p, fuel) ==> (s matches Shape::Collection(v) && v@.len()
            == wkb_count(b, p) && forall|j: int|
            0 <= j < v@.len() ==> wkb_structure(
                b,
                wkb_member_pos(b, p, j as nat, (fuel - 1) as nat),
                (fuel - 1) as nat,
                #[trigger] v@[j],
            ))
    } else {
        s == Shape::Unsupported
    }
}

} // verus!

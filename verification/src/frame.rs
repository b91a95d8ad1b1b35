//! The sampling frame read from its WKB encoding: the structure of the
//! geometry, and the signed rings and polygons that the sampler uses.

use vstd::prelude::*;
use geo_traits::to_geo::ToGeoGeometry;
use wkb::reader::Wkb;
use geo_traits::{GeometryCollectionTrait, GeometryTrait, GeometryType, MultiPolygonTrait, PolygonTrait};
use crate::sampler::SamplingError;
use crate::shape::{
    extract_signed_rings, polygon_parts, is_polygonal, shape_polygons, shape_rings, PolygonRef,
    RingRef, Shape, polygons_rings,
};
use crate::wkb_layout::{wkb_kind, wkb_multipolygon_parts, wkb_structure};

verus! {

#[verifier::external_type_specification]
#[verifier::external_body]
pub struct ExWkb<'a>(Wkb<'a>);

/// What a WKB buffer decodes to.
#[derive(Debug, PartialEq, Eq)]
pub enum WkbFrame {
    /// The bytes are not well-formed WKB.
    Unreadable,
    /// Well-formed WKB holding an empty point, which has no geometry value.
    EmptyPoint,
    /// The structure of the decoded geometry.
    Frame(Shape),
}

/// The structure that the WKB reader and the geometry conversion give for
/// these bytes.
pub uninterp spec fn wkb_frame(bytes: Seq<u8>) -> WkbFrame;

/// The structure of a decoded WKB geometry: polygons with their hole counts,
/// the polygons of a multipolygon, the members of a collection, anything
/// else unsupported.
#[verifier::external_body]
fn shape_of_wkb(w: &Wkb) -> Shape {
    match w.as_type() {
        GeometryType::Polygon(p) => Shape::Polygon(PolygonRef { holes: p.num_interiors() }),
        GeometryType::MultiPolygon(mp) => Shape::MultiPolygon(
            mp.polygons().map(|p| PolygonRef { holes: p.num_interiors() }).collect(),
        ),
        GeometryType::GeometryCollection(gc) => Shape::Collection(
            gc.geometries().map(|g| shape_of_wkb(g)).collect(),
        ),
        _ => Shape::Unsupported,
    }
}

/// Decodes WKB bytes with `wkb::reader::Wkb::try_new`, checks with
/// geo-traits' `try_to_geometry` that the geometry has a geo value (it has
/// none when it holds an empty point), and keeps only its structure.
/// What is trusted: the result is a function of the bytes alone, named by
/// `wkb_frame`, and a decoded geometry has the structure that its encoding
/// lays out (`wkb_structure`): the reader reads a polygon's ring count after
/// its header, a multipolygon's polygons one after the other in its own byte
/// order, and a collection's members each with its own header. Whether the
/// bytes are accepted, and whether a geometry has a geo value, is not stated.
#[verifier::external_body]
pub fn decode_wkb_frame(bytes: &[u8]) -> (r: WkbFrame)
    ensures
        r == wkb_frame(bytes@),
        r matches WkbFrame::Frame(s) ==> wkb_structure(bytes@, 0, bytes@.len(), s),
{
    match Wkb::try_new(bytes) {
        Err(_) => WkbFrame::Unreadable,
        Ok(w) => match w.try_to_geometry() {
            None => WkbFrame::EmptyPoint,
            Some(_) => WkbFrame::Frame(shape_of_wkb(&w)),
        },
    }
}

/// The signed rings of the frame encoded in `bytes`, numbered by polygon in
/// document order; fails on unreadable WKB, on an empty point, and on a
/// frame with a part that is neither a polygon nor a multipolygon.
pub fn frame_rings(bytes: &[u8]) -> (r: Result<Vec<RingRef>, SamplingError>)
    ensures
        wkb_frame(bytes@) is Unreadable ==> r == Err::<Vec<RingRef>, SamplingError>(
            SamplingError::WkbParseFailed,
        ),
        wkb_frame(bytes@) is EmptyPoint ==> r == Err::<Vec<RingRef>, SamplingError>(
            SamplingError::EmptyPoint,
        ),
        wkb_frame(bytes@) matches WkbFrame::Frame(s) ==> (r is Ok <==> is_polygonal(s)) && (r matches Ok(
            v,
        ) ==> v@ == shape_rings(s)) && (r is Err ==> r == Err::<Vec<RingRef>, SamplingError>(
            SamplingError::NotPolygonal,
        )),
        wkb_frame(bytes@) is Frame && wkb_kind(bytes@, 0) == 6 ==> (r matches Ok(v) && v@
            == polygons_rings(wkb_multipolygon_parts(bytes@, 0), 0)),
{
    match decode_wkb_frame(bytes) {
        WkbFrame::Unreadable => Err(SamplingError::WkbParseFailed),
        WkbFrame::EmptyPoint => Err(SamplingError::EmptyPoint),
        WkbFrame::Frame(s) => extract_signed_rings(&s),
    }
}

/// The polygons of the frame encoded in `bytes`, in document order (other
/// parts passed over); fails on unreadable WKB and on an empty point.
pub fn frame_polygons(bytes: &[u8]) -> (r: Result<Vec<PolygonRef>, SamplingError>)
    ensures
        wkb_frame(bytes@) is Unreadable ==> r == Err::<Vec<PolygonRef>, SamplingError>(
            SamplingError::WkbParseFailed,
        ),
        wkb_frame(bytes@) is EmptyPoint ==> r == Err::<Vec<PolygonRef>, SamplingError>(
            SamplingError::EmptyPoint,
        ),
        wkb_frame(bytes@) matches WkbFrame::Frame(s) ==> r matches Ok(v) && v@ == shape_polygons(s),
        wkb_frame(bytes@) is Frame && wkb_kind(bytes@, 0) == 6 ==> (r matches Ok(v) && v@
            == wkb_multipolygon_parts(bytes@, 0)),
{
    match decode_wkb_frame(bytes) {
        WkbFrame::Unreadable => Err(SamplingError::WkbParseFailed),
        WkbFrame::EmptyPoint => Err(SamplingError::EmptyPoint),
        WkbFrame::Frame(s) => Ok(polygon_parts(&s)),
    }
}

} // verus!

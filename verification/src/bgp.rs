//! The BGP content of a BMP message, as `bgpkit-parser` decodes it: the
//! prefixes of a Route Monitoring UPDATE and the attributes that the
//! dashboard reads (AS path segments and communities).

use vstd::prelude::*;

use bgpkit_parser::models::{AsPathSegment, AttributeValue, BgpMessage, BgpUpdateMessage, Community};
use bgpkit_parser::parser::bmp::messages::BmpMessageBody;

use crate::kafka::texts;

verus! {

#[verifier::external_type_specification]
#[verifier::external_body]
pub struct ExBgpUpdateMessage(BgpUpdateMessage);

#[verifier::external_type_specification]
#[verifier::external_body]
pub struct ExAttributeValue(AttributeValue);

#[verifier::external_type_specification]
#[verifier::external_body]
pub struct ExAsPathSegment(AsPathSegment);

#[verifier::external_type_specification]
#[verifier::external_body]
pub struct ExCommunity(Community);

/// The kind of an AS path segment.
#[derive(Debug, Clone, Copy, PartialEq, Eq, Structural)]
pub enum SegmentKind {
    AsSequence,
    AsSet,
    ConfedSequence,
    ConfedSet,
}

/// One AS path segment: its kind and its ASNs in order.
pub struct PathSegment {
    pub kind: SegmentKind,
    pub asns: Vec<u32>,
}

pub struct PathSegmentV {
    pub kind: SegmentKind,
    pub asns: Seq<u32>,
}

impl View for PathSegment {
    type V = PathSegmentV;

    open spec fn view(&self) -> PathSegmentV {
        PathSegmentV { kind: self.kind, asns: self.asns@ }
    }
}

/// A BGP community (RFC 1997): one of the well-known values, or an ASN and
/// a 16-bit value.
#[derive(Debug, Clone, Copy, PartialEq, Eq, Structural)]
pub enum CommunityValue {
    NoExport,
    NoAdvertise,
    NoExportSubConfed,
    Custom(u32, u16),
}

/// A path attribute of an UPDATE: the AS path, the communities, or another
/// attribute whose content is not read.
pub enum UpdateAttribute {
    AsPath(Vec<PathSegment>),
    Communities(Vec<CommunityValue>),
    Other,
}

pub enum UpdateAttributeV {
    AsPath(Seq<PathSegmentV>),
    Communities(Seq<CommunityValue>),
    Other,
}

pub open spec fn segments_view(v: Seq<PathSegment>) -> Seq<PathSegmentV> {
    v.map_values(|s: PathSegment| s@)
}

impl View for UpdateAttribute {
    type V = UpdateAttributeV;

    open spec fn view(&self) -> UpdateAttributeV {
        match self {
            UpdateAttribute::AsPath(v) => UpdateAttributeV::AsPath(segments_view(v@)),
            UpdateAttribute::Communities(v) => UpdateAttributeV::Communities(v@),
            UpdateAttribute::Other => UpdateAttributeV::Other,
        }
    }
}

/// A BGP UPDATE: announced and withdrawn prefixes (as text, such as
/// `10.0.0.0/8`) and the path attributes in the order they were encoded.
pub struct BgpUpdate {
    pub announced: Vec<String>,
    pub withdrawn: Vec<String>,
    pub attributes: Vec<UpdateAttribute>,
}

pub struct BgpUpdateV {
    pub announced: Seq<Seq<char>>,
    pub withdrawn: Seq<Seq<char>>,
    pub attributes: Seq<UpdateAttributeV>,
}

pub open spec fn attributes_view(v: Seq<UpdateAttribute>) -> Seq<UpdateAttributeV> {
    v.map_values(|a: UpdateAttribute| a@)
}

impl View for BgpUpdate {
    type V = BgpUpdateV;

    open spec fn view(&self) -> BgpUpdateV {
        BgpUpdateV {
            announced: texts(self.announced@),
            withdrawn: texts(self.withdrawn@),
            attributes: attributes_view(self.attributes@),
        }
    }
}

/// What `bgpkit_parser::parser::bmp::parse_bmp_msg` gives for the bytes of
/// a complete BMP message: the UPDATE carried by a Route Monitoring
/// message, `None` for any other message, or the text of its error.
pub uninterp spec fn bmp_decode_of(data: Seq<u8>) -> Result<Option<BgpUpdateV>, Seq<char>>;

/// The abstract value of a decoding outcome.
pub open spec fn decoded_view(r: Result<Option<BgpUpdate>, String>) -> Result<Option<BgpUpdateV>, Seq<char>> {
    match r {
        Ok(Some(u)) => Ok(Some(u@)),
        Ok(None) => Ok(None),
        Err(e) => Err(e@),
    }
}

/// Decodes a BMP message with `bgpkit_parser::parser::bmp::parse_bmp_msg`.
/// Claimed: the outcome is that function's result on these bytes, with the
/// UPDATE of a Route Monitoring message converted field by field, or the
/// error's text. Not stated: that the parser never panics on malformed
/// input.
#[verifier::external_body]
pub(crate) fn decode_bmp(data: &[u8]) -> (r: Result<Option<BgpUpdate>, String>)
    ensures
        bmp_decode_of(data@) == decoded_view(r),
{
    let mut b = bytes::Bytes::copy_from_slice(data);
    match bgpkit_parser::parser::bmp::parse_bmp_msg(&mut b) {
        Ok(msg) => Ok(match msg.message_body {
            BmpMessageBody::RouteMonitoring(rm) => match rm.bgp_message {
                BgpMessage::Update(u) => Some(update_of(&u)),
                _ => None,
            },
            _ => None,
        }),
        Err(e) => Err(e.to_string()),
    }
}

/// Converts a `bgpkit_parser::models::BgpUpdateMessage`: each prefix by its
/// `Display` text, each attribute by `attribute_of`. Part of the conversion
/// that `decode_bmp` states.
#[verifier::external_body]
fn update_of(u: &BgpUpdateMessage) -> (r: BgpUpdate) {
    BgpUpdate {
        announced: u.announced_prefixes.iter().map(|p| p.to_string()).collect(),
        withdrawn: u.withdrawn_prefixes.iter().map(|p| p.to_string()).collect(),
        attributes: u.attributes.iter().map(attribute_of).collect(),
    }
}

/// Converts a `bgpkit_parser::models::AttributeValue`: the segments of an
/// AS path, the communities, or `Other`. Part of the conversion that
/// `decode_bmp` states.
#[verifier::external_body]
fn attribute_of(a: &AttributeValue) -> (r: UpdateAttribute) {
    match a {
        AttributeValue::AsPath { path, .. } => UpdateAttribute::AsPath(path.segments.iter().map(segment_of).collect()),
        AttributeValue::Communities(c) => UpdateAttribute::Communities(c.iter().map(community_of).collect()),
        _ => UpdateAttribute::Other,
    }
}

/// Converts a `bgpkit_parser::models::AsPathSegment`, each ASN by
/// `Asn::to_u32`. Part of the conversion that `decode_bmp` states.
#[verifier::external_body]
fn segment_of(s: &AsPathSegment) -> (r: PathSegment) {
    let (kind, v) = match s {
        AsPathSegment::AsSequence(v) => (SegmentKind::AsSequence, v),
        AsPathSegment::AsSet(v) => (SegmentKind::AsSet, v),
        AsPathSegment::ConfedSequence(v) => (SegmentKind::ConfedSequence, v),
        AsPathSegment::ConfedSet(v) => (SegmentKind::ConfedSet, v),
    };
    PathSegment { kind, asns: v.iter().map(|a| a.to_u32()).collect() }
}

/// Converts a `bgpkit_parser::models::Community`, the ASN by `Asn::to_u32`.
/// Part of the conversion that `decode_bmp` states.
#[verifier::external_body]
fn community_of(c: &Community) -> (r: CommunityValue) {
    match c {
        Community::NoExport => CommunityValue::NoExport,
        Community::NoAdvertise => CommunityValue::NoAdvertise,
        Community::NoExportSubConfed => CommunityValue::NoExportSubConfed,
        Community::Custom(asn, v) => CommunityValue::Custom(asn.to_u32(), *v),
    }
}

} // verus!

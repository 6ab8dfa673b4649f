//! Reading `.bmpd` containers: the magic, u32 length-prefixed records, and
//! the classification of each payload as a raw BMP frame, an OpenBMP
//! `OBMP`-wrapped frame, or something unrecognized.

use vstd::prelude::*;

use crate::error::{error_text, DoctorError, DoctorErrorV};
use crate::obmp_writer::{be32_bytes, container_bytes, magic_bytes, magic_vec, record_bytes, records_bytes};
use crate::raw_bmp::{
    be32, eof_text, parse_frame_from_bytes, read_be32, spec_frame, RawBmpFrame, RawBmpFrameV, MAX_FRAME_LEN,
};
use crate::text::{append_decimal, dec_str};

verus! {

// ───────────────────────── outside calls ─────────────────────────

/// What `bgpkit_parser::parser::bmp::parse_openbmp_header` gives for a
/// payload: the collector admin id, the router address text, the router
/// group and the bytes after the header; or the error's text.
pub uninterp spec fn openbmp_header_outcome(data: Seq<u8>) -> Result<(Seq<char>, Seq<char>, Option<Seq<char>>, Seq<u8>), Seq<char>>;

/// The four bytes `OBMP`.
pub open spec fn obmp_magic() -> Seq<u8> {
    seq![79u8, 66u8, 77u8, 80u8]
}

/// Whether `data` begins with `OBMP`.
pub open spec fn starts_with_obmp(data: Seq<u8>) -> bool {
    data.len() >= 4 && data.subrange(0, 4) == obmp_magic()
}

/// Strips the OpenBMP header with `bgpkit_parser::parser::bmp::parse_openbmp_header`.
/// Claimed: the outcome is the function's result on these bytes (an `Err`
/// when they do not begin with `OBMP`), and the bytes handed back are
/// those left after the header, a suffix of the input.
#[verifier::external_body]
fn unwrap_openbmp(data: &[u8]) -> (r: Result<(String, String, Option<String>, Vec<u8>), String>)
    ensures
        match r {
            Ok((admin, ip, group, rest)) => {
                &&& openbmp_header_outcome(data@) == Ok::<(Seq<char>, Seq<char>, Option<Seq<char>>, Seq<u8>), Seq<char>>((
                    admin@,
                    ip@,
                    match group {
                        Some(g) => Some(g@),
                        None => None,
                    },
                    rest@,
                ))
                &&& starts_with_obmp(data@)
                &&& rest@.len() <= data@.len()
                &&& rest@ == data@.subrange(data@.len() - rest@.len(), data@.len() as int)
            },
            Err(e) => openbmp_header_outcome(data@) == Err::<(Seq<char>, Seq<char>, Option<Seq<char>>, Seq<u8>), Seq<char>>(e@),
        },
        !starts_with_obmp(data@) ==> r is Err,
{
    let mut b = bytes::Bytes::copy_from_slice(data);
    match bgpkit_parser::parser::bmp::parse_openbmp_header(&mut b) {
        Ok(h) => Ok((h.admin_id, h.router_ip.to_string(), h.router_group, b.to_vec())),
        Err(e) => Err(e.to_string()),
    }
}

/// Text of a string in Rust's debug notation (`{:?}` of a `str`).
pub uninterp spec fn debug_text(s: Seq<char>) -> Seq<char>;

/// Renders `s` with `format!("{:?}", s)`; claimed: the result is the debug
/// notation of its characters.
#[verifier::external_body]
fn debug_str(s: &str) -> (r: String)
    ensures
        r@ == debug_text(s@),
{
    format!("{:?}", s)
}

/// Decodes UTF-8 text with `std::str::from_utf8`. Claimed: `None` exactly
/// when the bytes are not valid UTF-8, else the text they encode.
#[verifier::external_body]
pub(crate) fn utf8_or_none(bytes: &[u8]) -> (r: Option<String>)
    ensures
        r is Some <==> vstd::utf8::valid_utf8(bytes@),
        r matches Some(s) ==> s@ == vstd::utf8::decode_utf8(bytes@),
{
    match std::str::from_utf8(bytes) {
        Ok(s) => Some(s.to_string()),
        Err(_) => None,
    }
}

// ───────────────────────── metadata and counters ─────────────────────────

/// OpenBMP header fields of interest.
#[derive(Debug, Clone)]
pub struct OpenBmpMetadata {
    pub collector: Option<String>,
    pub router: Option<String>,
    pub router_ip: Option<String>,
}

/// Abstract value of an [`OpenBmpMetadata`].
pub struct OpenBmpMetadataV {
    pub collector: Option<Seq<char>>,
    pub router: Option<Seq<char>>,
    pub router_ip: Option<Seq<char>>,
}

/// The abstract value of an optional string.
pub open spec fn opt_str(s: Option<String>) -> Option<Seq<char>> {
    match s {
        Some(x) => Some(x@),
        None => None,
    }
}

impl View for OpenBmpMetadata {
    type V = OpenBmpMetadataV;

    open spec fn view(&self) -> OpenBmpMetadataV {
        OpenBmpMetadataV {
            collector: opt_str(self.collector),
            router: opt_str(self.router),
            router_ip: opt_str(self.router_ip),
        }
    }
}

/// Whether any field is present.
pub open spec fn meta_any(m: OpenBmpMetadataV) -> bool {
    m.collector is Some || m.router is Some || m.router_ip is Some
}

/// A copy of an optional string.
pub fn clone_opt_string(s: &Option<String>) -> (r: Option<String>)
    ensures
        opt_str(r) == opt_str(*s),
{
    match s {
        Some(x) => Some(x.clone()),
        None => None,
    }
}

impl OpenBmpMetadata {
    /// A copy with the same fields.
    pub fn duplicate(&self) -> (r: Self)
        ensures
            r@ == self@,
    {
        OpenBmpMetadata {
            collector: clone_opt_string(&self.collector),
            router: clone_opt_string(&self.router),
            router_ip: clone_opt_string(&self.router_ip),
        }
    }

    /// Whether any field is present.
    pub fn any(&self) -> (r: bool)
        ensures
            r == meta_any(self@),
    {
        self.collector.is_some() || self.router.is_some() || self.router_ip.is_some()
    }
}

/// A non-empty text, or nothing.
pub open spec fn nonempty(s: Seq<char>) -> Option<Seq<char>> {
    if s.len() == 0 {
        None
    } else {
        Some(s)
    }
}

/// Metadata from the parts of an OpenBMP header: the admin id names the
/// collector, the router group the router.
pub open spec fn metadata_of(admin: Seq<char>, ip: Seq<char>, group: Option<Seq<char>>) -> OpenBmpMetadataV {
    OpenBmpMetadataV {
        collector: nonempty(admin),
        router: match group {
            Some(g) => nonempty(g),
            None => None,
        },
        router_ip: nonempty(ip),
    }
}

fn nonempty_string(s: String) -> (r: Option<String>)
    ensures
        opt_str(r) == nonempty(s@),
{
    if s.as_str().unicode_len() == 0 {
        None
    } else {
        Some(s)
    }
}

/// How a container record's payload was recognized.
#[derive(Debug, Clone, Copy, PartialEq, Eq, Structural)]
pub enum PayloadKind {
    /// Starts with BMP version byte 0x03.
    RawBmp,
    /// Starts with the OpenBMP magic `OBMP`.
    OpenBmpWrapped,
    /// Neither.
    Unrecognized,
}

/// Per-record counters of a container.
#[derive(Debug, Clone)]
pub struct ContainerStats {
    pub container_records: u64,
    pub raw_bmp_payloads: u64,
    pub openbmp_wrapped_payloads: u64,
    pub unrecognized_payloads: u64,
    pub openbmp_unwrap_errors: u64,
    pub inner_bmp_parse_errors: u64,
    /// Metadata of the first OpenBMP header that had any.
    pub openbmp_metadata: Option<OpenBmpMetadata>,
}

/// Abstract value of a [`ContainerStats`].
pub struct ContainerStatsV {
    pub container_records: nat,
    pub raw_bmp_payloads: nat,
    pub openbmp_wrapped_payloads: nat,
    pub unrecognized_payloads: nat,
    pub openbmp_unwrap_errors: nat,
    pub inner_bmp_parse_errors: nat,
    pub openbmp_metadata: Option<OpenBmpMetadataV>,
}

impl View for ContainerStats {
    type V = ContainerStatsV;

    open spec fn view(&self) -> ContainerStatsV {
        ContainerStatsV {
            container_records: self.container_records as nat,
            raw_bmp_payloads: self.raw_bmp_payloads as nat,
            openbmp_wrapped_payloads: self.openbmp_wrapped_payloads as nat,
            unrecognized_payloads: self.unrecognized_payloads as nat,
            openbmp_unwrap_errors: self.openbmp_unwrap_errors as nat,
            inner_bmp_parse_errors: self.inner_bmp_parse_errors as nat,
            openbmp_metadata: match self.openbmp_metadata {
                Some(m) => Some(m@),
                None => None,
            },
        }
    }
}

/// Counters with no record seen.
pub open spec fn stats_empty() -> ContainerStatsV {
    ContainerStatsV {
        container_records: 0,
        raw_bmp_payloads: 0,
        openbmp_wrapped_payloads: 0,
        unrecognized_payloads: 0,
        openbmp_unwrap_errors: 0,
        inner_bmp_parse_errors: 0,
        openbmp_metadata: None,
    }
}

/// Whether any record was counted.
pub open spec fn stats_has_data(s: ContainerStatsV) -> bool {
    s.container_records > 0
}

impl Default for ContainerStats {
    fn default() -> (r: Self)
        ensures
            r@ == stats_empty(),
    {
        ContainerStats {
            container_records: 0,
            raw_bmp_payloads: 0,
            openbmp_wrapped_payloads: 0,
            unrecognized_payloads: 0,
            openbmp_unwrap_errors: 0,
            inner_bmp_parse_errors: 0,
            openbmp_metadata: None,
        }
    }
}

impl Default for OpenBmpMetadata {
    fn default() -> (r: Self)
        ensures
            r@ == (OpenBmpMetadataV { collector: None, router: None, router_ip: None }),
    {
        OpenBmpMetadata { collector: None, router: None, router_ip: None }
    }
}

impl ContainerStats {
    /// A copy with the same counters and metadata.
    pub fn duplicate(&self) -> (r: Self)
        ensures
            r@ == self@,
    {
        ContainerStats {
            container_records: self.container_records,
            raw_bmp_payloads: self.raw_bmp_payloads,
            openbmp_wrapped_payloads: self.openbmp_wrapped_payloads,
            unrecognized_payloads: self.unrecognized_payloads,
            openbmp_unwrap_errors: self.openbmp_unwrap_errors,
            inner_bmp_parse_errors: self.inner_bmp_parse_errors,
            openbmp_metadata: match &self.openbmp_metadata {
                Some(m) => Some(m.duplicate()),
                None => None,
            },
        }
    }

    /// Whether any record was counted (the container section of a summary is
    /// shown only then).
    pub fn has_data(&self) -> (r: bool)
        ensures
            r == stats_has_data(self@),
    {
        self.container_records > 0
    }
}

// ───────────────────────── records ─────────────────────────

/// The outcome of decoding one record payload.
pub struct RecordResult {
    pub frame: Result<RawBmpFrame, DoctorError>,
    pub kind: PayloadKind,
    /// Metadata of the OpenBMP header, for wrapped payloads.
    pub metadata: Option<OpenBmpMetadata>,
    /// The OpenBMP header could not be read.
    pub unwrap_error: bool,
    /// The OpenBMP header was read but the inner frame could not be.
    pub inner_error: bool,
}

/// Abstract value of a [`RecordResult`].
pub struct RecordResultV {
    pub frame: Result<RawBmpFrameV, DoctorErrorV>,
    pub kind: PayloadKind,
    pub metadata: Option<OpenBmpMetadataV>,
    pub unwrap_error: bool,
    pub inner_error: bool,
}

impl View for RecordResult {
    type V = RecordResultV;

    open spec fn view(&self) -> RecordResultV {
        RecordResultV {
            frame: match self.frame {
                Ok(f) => Ok(f@),
                Err(e) => Err(e@),
            },
            kind: self.kind,
            metadata: match self.metadata {
                Some(m) => Some(m@),
                None => None,
            },
            unwrap_error: self.unwrap_error,
            inner_error: self.inner_error,
        }
    }
}

/// Prefix of an error raised by record `idx` at offset `off`.
pub open spec fn record_error_prefix(idx: nat, off: nat) -> Seq<char> {
    ".obmp frame "@ + dec_str(idx) + " at offset "@ + dec_str(off) + ": "@
}

/// A frame error wrapped with the record's index and offset.
pub open spec fn wrap_record_error(e: DoctorErrorV, idx: nat, off: nat) -> DoctorErrorV {
    DoctorErrorV::Frame(record_error_prefix(idx, off) + error_text(e))
}

/// The frame decoded from `payload`, with errors wrapped.
pub open spec fn wrapped_frame(payload: Seq<u8>, off: u64, idx: nat) -> Result<RawBmpFrameV, DoctorErrorV> {
    match spec_frame(payload, off) {
        Ok(f) => Ok(f),
        Err(e) => Err(wrap_record_error(e, idx, off as nat)),
    }
}

/// Decoding of one record payload found at offset `off` as record `idx`.
pub open spec fn spec_record(payload: Seq<u8>, off: u64, idx: nat) -> RecordResultV {
    if starts_with_obmp(payload) {
        match openbmp_header_outcome(payload) {
            Ok((admin, ip, group, rest)) => {
                let inner = wrapped_frame(rest, off, idx);
                RecordResultV {
                    frame: inner,
                    kind: PayloadKind::OpenBmpWrapped,
                    metadata: Some(metadata_of(admin, ip, group)),
                    unwrap_error: false,
                    inner_error: inner is Err,
                }
            },
            Err(msg) => RecordResultV {
                frame: Err(DoctorErrorV::Frame(record_error_prefix(idx, off as nat) + "OpenBMP header error: "@ + msg)),
                kind: PayloadKind::OpenBmpWrapped,
                metadata: None,
                unwrap_error: true,
                inner_error: false,
            },
        }
    } else {
        RecordResultV {
            frame: wrapped_frame(payload, off, idx),
            kind: if payload.len() > 0 && payload[0] == 3 { PayloadKind::RawBmp } else { PayloadKind::Unrecognized },
            metadata: None,
            unwrap_error: false,
            inner_error: false,
        }
    }
}

fn record_prefix(idx: u64, off: u64) -> (r: String)
    ensures
        r@ == record_error_prefix(idx as nat, off as nat),
{
    let mut m = String::from_str(".obmp frame ");
    append_decimal(&mut m, idx);
    m.append(" at offset ");
    append_decimal(&mut m, off);
    m.append(": ");
    m
}

fn frame_with_context(payload: &[u8], off: u64, idx: u64) -> (r: Result<RawBmpFrame, DoctorError>)
    ensures
        match r {
            Ok(f) => wrapped_frame(payload@, off, idx as nat) == Ok::<RawBmpFrameV, DoctorErrorV>(f@),
            Err(e) => wrapped_frame(payload@, off, idx as nat) == Err::<RawBmpFrameV, DoctorErrorV>(e@),
        },
{
    match parse_frame_from_bytes(payload, off) {
        Ok(f) => Ok(f),
        Err(e) => {
            let mut m = record_prefix(idx, off);
            let t = e.message();
            m.append(t.as_str());
            Err(DoctorError::Frame(m))
        },
    }
}

/// Decodes one `.bmpd` record payload found at offset `offset` as record
/// `idx`: an `OBMP`-wrapped payload is unwrapped first; anything else is
/// read as a raw BMP frame.
pub fn parse_record_payload(payload: &[u8], offset: u64, idx: u64) -> (r: RecordResult)
    ensures
        r@ == spec_record(payload@, offset, idx as nat),
{
    let wrapped = payload.len() >= 4 && payload[0] == 79 && payload[1] == 66 && payload[2] == 77 && payload[3] == 80;
    proof {
        if payload@.len() >= 4 {
            assert(wrapped == (payload@.subrange(0, 4) =~= obmp_magic()));
        }
    }
    if wrapped {
        match unwrap_openbmp(payload) {
            Ok((admin, ip, group, rest)) => {
                let frame = frame_with_context(rest.as_slice(), offset, idx);
                let inner_error = frame.is_err();
                let router = match group {
                    Some(g) => nonempty_string(g),
                    None => None,
                };
                let meta = OpenBmpMetadata {
                    collector: nonempty_string(admin),
                    router,
                    router_ip: nonempty_string(ip),
                };
                RecordResult {
                    frame,
                    kind: PayloadKind::OpenBmpWrapped,
                    metadata: Some(meta),
                    unwrap_error: false,
                    inner_error,
                }
            },
            Err(msg) => {
                let mut m = record_prefix(idx, offset);
                m.append("OpenBMP header error: ");
                m.append(msg.as_str());
                RecordResult {
                    frame: Err(DoctorError::Frame(m)),
                    kind: PayloadKind::OpenBmpWrapped,
                    metadata: None,
                    unwrap_error: true,
                    inner_error: false,
                }
            },
        }
    } else {
        let kind = if payload.len() > 0 && payload[0] == 3 {
            PayloadKind::RawBmp
        } else {
            PayloadKind::Unrecognized
        };
        RecordResult {
            frame: frame_with_context(payload, offset, idx),
            kind,
            metadata: None,
            unwrap_error: false,
            inner_error: false,
        }
    }
}


// ───────────────────────── the container cursor ─────────────────────────

/// Counters after one more record decoded as `rec`.
pub open spec fn stats_after(s: ContainerStatsV, rec: RecordResultV) -> ContainerStatsV {
    ContainerStatsV {
        container_records: s.container_records + 1,
        raw_bmp_payloads: s.raw_bmp_payloads + if rec.kind is RawBmp { 1nat } else { 0nat },
        openbmp_wrapped_payloads: s.openbmp_wrapped_payloads + if rec.kind is OpenBmpWrapped { 1nat } else { 0nat },
        unrecognized_payloads: s.unrecognized_payloads + if rec.kind is Unrecognized { 1nat } else { 0nat },
        openbmp_unwrap_errors: s.openbmp_unwrap_errors + if rec.unwrap_error { 1nat } else { 0nat },
        inner_bmp_parse_errors: s.inner_bmp_parse_errors + if rec.inner_error { 1nat } else { 0nat },
        openbmp_metadata: match (s.openbmp_metadata, rec.metadata) {
            (None, Some(m)) => if meta_any(m) { Some(m) } else { None },
            _ => s.openbmp_metadata,
        },
    }
}

/// The counters tell the records apart: every record falls in exactly one
/// payload class, and wrapped records fail at their OpenBMP header or in
/// their inner frame, never both.
pub open spec fn counters_consistent(s: ContainerStatsV) -> bool {
    &&& s.container_records == s.raw_bmp_payloads + s.openbmp_wrapped_payloads + s.unrecognized_payloads
    &&& s.openbmp_unwrap_errors + s.inner_bmp_parse_errors <= s.openbmp_wrapped_payloads
}

/// The container counters are consistent when a container is opened and
/// stay so as each record is read: a record is raw BMP, OpenBMP-wrapped or
/// unrecognized, exactly one of them, and a wrapped record counts at most
/// one of an unwrap error and an inner parse error.
pub proof fn law_container_counters(s: ContainerStatsV, payload: Seq<u8>, off: u64, idx: nat)
    requires
        counters_consistent(s),
    ensures
        counters_consistent(stats_empty()),
        counters_consistent(stats_after(s, spec_record(payload, off, idx))),
{
}

/// Error of a container shorter than its magic.
pub open spec fn short_magic_error() -> DoctorErrorV {
    DoctorErrorV::Frame("Cannot read .obmp magic header: "@ + eof_text())
}

/// Error of a container whose first 13 bytes are not the magic.
pub open spec fn bad_magic_error(head: Seq<u8>) -> DoctorErrorV {
    DoctorErrorV::Frame(
        "Invalid .obmp magic at offset 0: expected "@ + debug_text("BMPDOPENBMP1\n"@) + ", got "@
            + debug_text(
            if vstd::utf8::valid_utf8(head) {
                vstd::utf8::decode_utf8(head)
            } else {
                "<binary>"@
            },
        ),
    )
}

/// Opening a container: `None` when the magic is present.
pub open spec fn open_error(data: Seq<u8>) -> Option<DoctorErrorV> {
    if data.len() < 13 {
        Some(short_magic_error())
    } else if data.subrange(0, 13) != magic_bytes() {
        Some(bad_magic_error(data.subrange(0, 13)))
    } else {
        None
    }
}

/// State of a container cursor: position, records read, end reached.
pub struct ObmpCursor {
    pub pos: nat,
    pub index: nat,
    pub eof: bool,
}

/// The message for a record whose declared length exceeds 64 MiB.
pub open spec fn oversized_record_message(len: nat, start: nat) -> Seq<char> {
    "Record length "@ + dec_str(len) + " at .obmp offset "@ + dec_str(start) + " exceeds 67108864"@
}

/// One step of the container cursor over `data`: the outcome, the record
/// decoded (if a whole record was read) and the next state.
pub open spec fn obmp_step(data: Seq<u8>, c: ObmpCursor) -> (Option<Result<RawBmpFrameV, DoctorErrorV>>, Option<RecordResultV>, ObmpCursor) {
    if c.eof {
        (None, None, c)
    } else if c.pos + 4 > data.len() {
        (
            if c.index == 0 {
                Some(Err(DoctorErrorV::Frame(
                    "Truncated length prefix at .obmp offset "@ + dec_str(c.pos) + ": "@ + eof_text(),
                )))
            } else {
                None
            },
            None,
            ObmpCursor { pos: c.pos, index: c.index, eof: true },
        )
    } else {
        let len = be32(data, c.pos as int);
        let start = c.pos + 4;
        if len > MAX_FRAME_LEN {
            (
                Some(Err(DoctorErrorV::Frame(oversized_record_message(len, start)))),
                None,
                ObmpCursor { pos: start, index: c.index, eof: true },
            )
        } else if start + len > data.len() {
            (
                Some(Err(DoctorErrorV::Frame(
                    "Truncated payload at .obmp offset "@ + dec_str(start) + ": declared length "@ + dec_str(len)
                        + " exceeds available data: "@ + eof_text(),
                ))),
                None,
                ObmpCursor { pos: start, index: c.index, eof: true },
            )
        } else {
            let rec = spec_record(data.subrange(start as int, (start + len) as int), start as u64, c.index);
            (Some(rec.frame), Some(rec), ObmpCursor { pos: start + len, index: c.index + 1, eof: false })
        }
    }
}

/// A cursor over the records of a `.bmpd` container.
pub struct ObmpReader {
    data: Vec<u8>,
    pos: usize,
    frame_index: u64,
    eof: bool,
    stats: ContainerStats,
}

impl ObmpReader {
    /// The container's bytes.
    pub closed spec fn bytes(&self) -> Seq<u8> {
        self.data@
    }

    /// The cursor's state.
    pub closed spec fn cursor(&self) -> ObmpCursor {
        ObmpCursor { pos: self.pos as nat, index: self.frame_index as nat, eof: self.eof }
    }

    /// The counters so far.
    pub closed spec fn stats_view(&self) -> ContainerStatsV {
        self.stats@
    }

    /// The cursor's invariant.
    pub closed spec fn wf(&self) -> bool {
        &&& self.pos <= self.data@.len()
        &&& self.frame_index <= self.pos
        &&& self.stats.container_records == self.frame_index
        &&& self.stats.raw_bmp_payloads <= self.frame_index
        &&& self.stats.openbmp_wrapped_payloads <= self.frame_index
        &&& self.stats.unrecognized_payloads <= self.frame_index
        &&& self.stats.openbmp_unwrap_errors <= self.frame_index
        &&& self.stats.inner_bmp_parse_errors <= self.frame_index
    }

    /// A well-formed cursor is within its bytes.
    pub proof fn lemma_position(&self)
        requires
            self.wf(),
        ensures
            self.cursor().pos <= self.bytes().len(),
    {
    }

    /// Opens a container: checks the 13-byte magic.
    pub fn from_bytes(data: Vec<u8>) -> (r: Result<Self, DoctorError>)
        ensures
            match r {
                Ok(rd) => {
                    &&& open_error(data@) is None
                    &&& rd.wf()
                    &&& rd.bytes() == data@
                    &&& rd.cursor() == ObmpCursor { pos: 13, index: 0, eof: false }
                    &&& rd.stats_view() == stats_empty()
                },
                Err(e) => open_error(data@) == Some(e@),
            },
    {
        if data.len() < 13 {
            let mut m = String::from_str("Cannot read .obmp magic header: ");
            m.append("failed to fill whole buffer");
            proof {
                reveal_strlit("failed to fill whole buffer");
            }
            return Err(DoctorError::Frame(m));
        }
        let magic = magic_vec();
        let mut i: usize = 0;
        let mut same = true;
        while i < 13
            invariant
                i <= 13,
                data@.len() >= 13,
                magic@ == magic_bytes(),
                same == (forall|j: int| 0 <= j < i ==> data@[j] == magic@[j]),
            decreases 13 - i,
        {
            if data[i] != magic[i] {
                same = false;
            }
            i = i + 1;
        }
        proof {
            if same {
                assert(data@.subrange(0, 13) =~= magic_bytes());
            } else {
                assert(data@.subrange(0, 13) != magic_bytes()) by {
                    let j = choose|j: int| 0 <= j < 13 && data@[j] != magic@[j];
                    assert(data@.subrange(0, 13)[j] != magic_bytes()[j]);
                }
            }
        }
        if !same {
            let head = vstd::slice::slice_subrange(data.as_slice(), 0, 13);
            let got = match utf8_or_none(head) {
                Some(t) => t,
                None => String::from_str("<binary>"),
            };
            let mut m = String::from_str("Invalid .obmp magic at offset 0: expected ");
            let expected = debug_str("BMPDOPENBMP1\n");
            m.append(expected.as_str());
            m.append(", got ");
            let g = debug_str(got.as_str());
            m.append(g.as_str());
            return Err(DoctorError::Frame(m));
        }
        Ok(ObmpReader { data, pos: 13, frame_index: 0, eof: false, stats: ContainerStats::default() })
    }

    /// The counters so far.
    pub fn stats(&self) -> (r: &ContainerStats)
        ensures
            r@ == self.stats_view(),
    {
        &self.stats
    }

    fn count_record(&mut self, rec: &RecordResult)
        requires
            old(self).wf(),
            old(self).frame_index < old(self).pos,
        ensures
            final(self).data == old(self).data,
            final(self).pos == old(self).pos,
            final(self).eof == old(self).eof,
            final(self).frame_index == old(self).frame_index + 1,
            final(self).wf(),
            final(self).stats@ == stats_after(old(self).stats@, rec@),
    {
        self.stats.container_records = self.stats.container_records + 1;
        match rec.kind {
            PayloadKind::RawBmp => {
                self.stats.raw_bmp_payloads = self.stats.raw_bmp_payloads + 1;
            },
            PayloadKind::OpenBmpWrapped => {
                self.stats.openbmp_wrapped_payloads = self.stats.openbmp_wrapped_payloads + 1;
            },
            PayloadKind::Unrecognized => {
                self.stats.unrecognized_payloads = self.stats.unrecognized_payloads + 1;
            },
        }
        if rec.unwrap_error {
            self.stats.openbmp_unwrap_errors = self.stats.openbmp_unwrap_errors + 1;
        }
        if rec.inner_error {
            self.stats.inner_bmp_parse_errors = self.stats.inner_bmp_parse_errors + 1;
        }
        if self.stats.openbmp_metadata.is_none() {
            match &rec.metadata {
                Some(m) => {
                    if m.any() {
                        self.stats.openbmp_metadata = Some(m.duplicate());
                    }
                },
                None => {},
            }
        }
        self.frame_index = self.frame_index + 1;
    }

    /// Reads the next record: `None` after the end. A container with no
    /// record gives one error for its missing length prefix.
    pub fn next_record(&mut self) -> (r: Option<Result<RawBmpFrame, DoctorError>>)
        requires
            old(self).wf(),
        ensures
            final(self).wf(),
            final(self).bytes() == old(self).bytes(),
            ({
                let (out, rec, c) = obmp_step(old(self).bytes(), old(self).cursor());
                &&& out == crate::raw_bmp::outcome_view(r)
                &&& c == final(self).cursor()
                &&& final(self).stats_view() == match rec {
                    Some(x) => stats_after(old(self).stats_view(), x),
                    None => old(self).stats_view(),
                }
            }),
    {
        if self.eof {
            return None;
        }
        let n = self.data.len();
        if n - self.pos < 4 {
            self.eof = true;
            if self.frame_index == 0 {
                let mut m = String::from_str("Truncated length prefix at .obmp offset ");
                append_decimal(&mut m, self.pos as u64);
                m.append(": failed to fill whole buffer");
                proof {
                    reveal_strlit(": failed to fill whole buffer");
                    reveal_strlit(": ");
                    reveal_strlit("failed to fill whole buffer");
                    assert(m@ =~= "Truncated length prefix at .obmp offset "@ + dec_str(old(self).pos as nat) + ": "@ + eof_text());
                }
                return Some(Err(DoctorError::Frame(m)));
            }
            return None;
        }
        let declared = read_be32(self.data.as_slice(), self.pos);
        let start = self.pos + 4;
        if declared > MAX_FRAME_LEN {
            self.pos = start;
            self.eof = true;
            let mut m = String::from_str("Record length ");
            append_decimal(&mut m, declared as u64);
            m.append(" at .obmp offset ");
            append_decimal(&mut m, start as u64);
            m.append(" exceeds 67108864");
            proof {
                reveal_strlit(" exceeds 67108864");
                reveal_strlit(" at .obmp offset ");
                reveal_strlit("Record length ");
            }
            return Some(Err(DoctorError::Frame(m)));
        }
        let payload_len = declared as usize;
        if payload_len > n - start {
            self.pos = start;
            self.eof = true;
            let mut m = String::from_str("Truncated payload at .obmp offset ");
            append_decimal(&mut m, start as u64);
            m.append(": declared length ");
            append_decimal(&mut m, payload_len as u64);
            m.append(" exceeds available data: failed to fill whole buffer");
            proof {
                reveal_strlit(" exceeds available data: failed to fill whole buffer");
                reveal_strlit(" exceeds available data: ");
                reveal_strlit("failed to fill whole buffer");
                assert(m@ =~= "Truncated payload at .obmp offset "@ + dec_str(start as nat) + ": declared length "@
                    + dec_str(payload_len as nat) + " exceeds available data: "@ + eof_text());
            }
            return Some(Err(DoctorError::Frame(m)));
        }
        let payload = vstd::slice::slice_subrange(self.data.as_slice(), start, start + payload_len);
        let idx = self.frame_index;
        let rec = parse_record_payload(payload, start as u64, idx);
        self.pos = start + payload_len;
        self.count_record(&rec);
        Some(rec.frame)
    }
}


// ───────────────────────── reading back what was written ─────────────────────────

/// Position of record `k`'s length prefix in a container holding `ps`.
pub open spec fn record_pos(ps: Seq<Seq<u8>>, k: int) -> nat {
    13 + records_bytes(ps.take(k)).len()
}

pub(crate) proof fn lemma_be32_roundtrip(n: nat)
    requires
        n < 4294967296,
    ensures
        be32(be32_bytes(n), 0) == n,
{
    let v = n as u32;
    assert((v / 16777216) * 16777216 + ((v / 65536) % 256) * 65536 + ((v / 256) % 256) * 256 + v % 256 == v) by (bit_vector);
    assert(n % 4294967296 == n);
}

proof fn lemma_records_take_step(ps: Seq<Seq<u8>>, k: int)
    requires
        0 <= k < ps.len(),
    ensures
        records_bytes(ps.take(k + 1)) == records_bytes(ps.take(k)) + record_bytes(ps[k]),
{
    assert(ps.take(k + 1).drop_last() =~= ps.take(k));
    assert(ps.take(k + 1).last() == ps[k]);
}

proof fn lemma_records_prefix(ps: Seq<Seq<u8>>, j: int)
    requires
        0 <= j <= ps.len(),
    ensures
        records_bytes(ps.take(j)).len() <= records_bytes(ps).len(),
        records_bytes(ps).subrange(0, records_bytes(ps.take(j)).len() as int) == records_bytes(ps.take(j)),
    decreases ps.len(),
{
    if j == ps.len() {
        assert(ps.take(j) =~= ps);
        assert(records_bytes(ps).subrange(0, records_bytes(ps).len() as int) =~= records_bytes(ps));
    } else {
        let q = ps.drop_last();
        assert(q.take(j) =~= ps.take(j));
        lemma_records_prefix(q, j);
        let a = records_bytes(q);
        let b = record_bytes(ps.last());
        assert(records_bytes(ps) == a + b);
        assert((a + b).subrange(0, records_bytes(ps.take(j)).len() as int) =~= a.subrange(0, records_bytes(ps.take(j)).len() as int));
    }
}

/// Reading back a written container, one record: at the position of record
/// `k` of a container holding `ps`, the
/// cursor decodes exactly payload `ps[k]`, found just after its length
/// prefix, and moves to record `k + 1` (payloads of at most 64 MiB, the
/// longest accepted).
pub proof fn law_container_record_roundtrip(ps: Seq<Seq<u8>>, k: int)
    requires
        forall|i: int| 0 <= i < ps.len() ==> #[trigger] ps[i].len() <= MAX_FRAME_LEN,
        0 <= k < ps.len(),
    ensures
        ({
            let rec = spec_record(ps[k], (record_pos(ps, k) + 4) as u64, k as nat);
            obmp_step(container_bytes(ps), ObmpCursor { pos: record_pos(ps, k), index: k as nat, eof: false }) == (
                Some(rec.frame),
                Some(rec),
                ObmpCursor { pos: record_pos(ps, k + 1), index: (k + 1) as nat, eof: false },
            )
        }),
{
    let data = container_bytes(ps);
    let rk = records_bytes(ps.take(k));
    let item = record_bytes(ps[k]);
    lemma_records_take_step(ps, k);
    lemma_records_prefix(ps, k + 1);
    let all = records_bytes(ps);
    assert(all.subrange(0, (rk + item).len() as int) == rk + item);
    let p: int = record_pos(ps, k) as int;
    // The record's bytes sit at [p, p + 4 + len) of the container.
    let e: int = p + item.len();
    assert(data.subrange(p, e) =~= item) by {
        assert forall|i: int| 0 <= i < item.len() implies #[trigger] data.subrange(p, e)[i] == item[i] by {
            assert(data[p + i] == all[rk.len() + i]);
            assert(all[rk.len() + i] == all.subrange(0, (rk + item).len() as int)[rk.len() + i]);
            assert((rk + item)[rk.len() + i] == item[i]);
        }
    }
    let len: int = ps[k].len() as int;
    lemma_be32_roundtrip(len as nat);
    assert(item.subrange(0, 4) =~= be32_bytes(len as nat));
    assert(be32(data, p) == be32(item, 0)) by {
        assert(data.subrange(p, e)[0] == data[p]);
        assert(data.subrange(p, e)[1] == data[p + 1]);
        assert(data.subrange(p, e)[2] == data[p + 2]);
        assert(data.subrange(p, e)[3] == data[p + 3]);
    }
    assert(item[0] == be32_bytes(len as nat)[0]);
    assert(item[1] == be32_bytes(len as nat)[1]);
    assert(item[2] == be32_bytes(len as nat)[2]);
    assert(item[3] == be32_bytes(len as nat)[3]);
    assert(be32(item, 0) == be32(be32_bytes(len as nat), 0));
    assert(data.subrange(p + 4, p + 4 + len) =~= ps[k]) by {
        assert forall|i: int| 0 <= i < len implies data.subrange(p + 4, p + 4 + len)[i] == ps[k][i] by {
            assert(data.subrange(p, e)[4 + i] == data[p + 4 + i]);
            assert(item[4 + i] == ps[k][i]);
        }
    }
    assert(record_pos(ps, k + 1) == p + 4 + len);
    assert(data.len() >= p + 4 + len) by {
        assert(data.len() == 13 + all.len());
    }
}

/// Reading back a written container, the ends: its magic is accepted, the
/// first record starts right after it, and once the last record is read
/// the cursor reports the end (a container with no record reports one
/// missing length prefix).
pub proof fn law_container_ends(ps: Seq<Seq<u8>>)
    ensures
        open_error(container_bytes(ps)) is None,
        record_pos(ps, 0) == 13,
        ps.len() > 0 ==> obmp_step(container_bytes(ps), ObmpCursor { pos: record_pos(ps, ps.len() as int), index: ps.len(), eof: false })
            == (
            None::<Result<RawBmpFrameV, DoctorErrorV>>,
            None::<RecordResultV>,
            ObmpCursor { pos: record_pos(ps, ps.len() as int), index: ps.len(), eof: true },
        ),
{
    let data = container_bytes(ps);
    assert(data.subrange(0, 13) =~= magic_bytes());
    assert(ps.take(0) =~= Seq::<Seq<u8>>::empty());
    assert(ps.take(ps.len() as int) =~= ps);
}

} // verus!

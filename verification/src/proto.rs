//! Protobuf wire format for the browser-preview page bridge.
//!
//! Field numbers are those of the integration script that runs inside the
//! proxied page; that script is the source of truth for this protocol.
//!
//! Wire framing: every RPC body is a wrapper message with the real payload in
//! field 1. Only the fields actually consumed are decoded; unknown fields are
//! skipped.

use vstd::prelude::*;
use vstd::utf8::{decode_utf8, valid_utf8};

use crate::text::{chars_of, decimal, u64_to_string};

verus! {

/// Why a buffer could not be decoded.
#[derive(Debug, Clone, Copy, PartialEq, Eq, Structural)]
pub enum ProtoError {
    /// The input ended inside a varint.
    TruncatedVarint,
    /// A varint ran past 64 bits.
    VarintTooLong,
    /// A length-delimited field claims more bytes than remain.
    TruncatedField,
    /// A wire type this decoder does not know (3, 4, 6 or 7).
    UnsupportedWireType(u8),
    /// The request envelope carries no length-delimited field 1.
    MissingPayload,
}

pub open spec fn proto_error_message(e: ProtoError) -> Seq<char> {
    match e {
        ProtoError::TruncatedVarint => "truncated varint"@,
        ProtoError::VarintTooLong => "varint too long"@,
        ProtoError::TruncatedField => "truncated length-delimited field"@,
        ProtoError::UnsupportedWireType(w) => "unsupported wire type "@ + decimal(w as nat),
        ProtoError::MissingPayload => "request envelope has no field 1 payload"@,
    }
}

impl ProtoError {
    /// The human-readable message for this error.
    pub fn to_string(&self) -> (r: String)
        ensures
            r@ == proto_error_message(*self),
    {
        match self {
            ProtoError::TruncatedVarint => "truncated varint".to_owned(),
            ProtoError::VarintTooLong => "varint too long".to_owned(),
            ProtoError::TruncatedField => "truncated length-delimited field".to_owned(),
            ProtoError::UnsupportedWireType(w) => {
                let mut s = "unsupported wire type ".to_owned();
                let n = u64_to_string(*w as u64);
                let mut v = chars_of(s.as_str());
                crate::text::append_chars(&mut v, chars_of(n.as_str()).as_slice());
                crate::text::string_of(v.as_slice())
            },
            ProtoError::MissingPayload => "request envelope has no field 1 payload".to_owned(),
        }
    }
}

/// A decoded field value, located in the buffer it was read from.
pub enum Wire {
    Varint(u64),
    /// The bytes `buf[start..end]`.
    Bytes(int, int),
}

/// Reading a varint whose earlier groups gave `acc`, the next group at `pos`
/// going to bit `shift`: the value and the position after it.
pub open spec fn varint_from(buf: Seq<u8>, pos: int, acc: u64, shift: u64) -> Result<
    (u64, int),
    ProtoError,
>
    decreases 64 - shift,
{
    if pos < 0 || pos >= buf.len() {
        Err(ProtoError::TruncatedVarint)
    } else {
        let b = buf[pos];
        let acc2 = acc | (((b & 0x7f) as u64) << shift);
        if b & 0x80 == 0 {
            Ok((acc2, pos + 1))
        } else if shift + 7 >= 64 {
            Err(ProtoError::VarintTooLong)
        } else {
            varint_from(buf, pos + 1, acc2, (shift + 7) as u64)
        }
    }
}

/// The base-128 varint starting at `pos` (least significant group first),
/// and the position after it.
pub open spec fn varint_at(buf: Seq<u8>, pos: int) -> Result<(u64, int), ProtoError> {
    varint_from(buf, pos, 0, 0)
}

pub proof fn lemma_varint_from_advances(buf: Seq<u8>, pos: int, acc: u64, shift: u64)
    ensures
        varint_from(buf, pos, acc, shift) matches Ok((v, p)) ==> pos < p <= buf.len(),
    decreases 64 - shift,
{
    if 0 <= pos < buf.len() {
        let b = buf[pos];
        let acc2 = acc | (((b & 0x7f) as u64) << shift);
        if b & 0x80 != 0 && shift + 7 < 64 {
            lemma_varint_from_advances(buf, pos + 1, acc2, (shift + 7) as u64);
        }
    }
}

/// The field starting at `pos`: its number, its value and the position after
/// it; `None` at the end of the input. Fixed-width fields (wire types 1 and 5)
/// are skipped.
pub open spec fn next_at(buf: Seq<u8>, pos: int) -> Result<Option<(u32, Wire, int)>, ProtoError>
    decreases buf.len() - pos,
{
    if pos >= buf.len() {
        Ok(None)
    } else {
        match varint_at(buf, pos) {
            Err(e) => Err(e),
            Ok((key, p1)) => {
                let field = #[verifier::truncate] ((key >> 3u64) as u32);
                let wire = key & 7;
                if wire == 0 {
                    match varint_at(buf, p1) {
                        Err(e) => Err(e),
                        Ok((v, p2)) => Ok(Some((field, Wire::Varint(v), p2))),
                    }
                } else if wire == 2 {
                    match varint_at(buf, p1) {
                        Err(e) => Err(e),
                        Ok((len, p2)) => if p2 + len > buf.len() {
                            Err(ProtoError::TruncatedField)
                        } else {
                            Ok(Some((field, Wire::Bytes(p2, p2 + len), p2 + len)))
                        },
                    }
                } else if wire == 5 || wire == 1 {
                    let q = p1 + if wire == 5 { 4int } else { 8int };
                    if q >= buf.len() {
                        Ok(None)
                    } else {
                        proof {
                            lemma_varint_from_advances(buf, pos, 0, 0);
                        }
                        next_at(buf, q)
                    }
                } else {
                    Err(ProtoError::UnsupportedWireType(wire as u8))
                }
            },
        }
    }
}

pub proof fn lemma_next_at_advances(buf: Seq<u8>, pos: int)
    ensures
        next_at(buf, pos) matches Ok(Some((n, w, p))) ==> {
            &&& pos < p <= buf.len()
            &&& (w matches Wire::Bytes(a, b) ==> pos < a <= b == p)
        },
    decreases buf.len() - pos,
{
    if pos < buf.len() {
        lemma_varint_from_advances(buf, pos, 0, 0);
        if let Ok((key, p1)) = varint_at(buf, pos) {
            lemma_varint_from_advances(buf, p1, 0, 0);
            let wire = key & 7;
            if wire == 5 && p1 + 4 < buf.len() {
                lemma_next_at_advances(buf, p1 + 4);
            } else if wire == 1 && p1 + 8 < buf.len() {
                lemma_next_at_advances(buf, p1 + 8);
            }
        }
    }
}

/// A cursor over a protobuf-encoded byte slice.
pub struct Reader<'a> {
    buf: &'a [u8],
    pos: usize,
}

/// A decoded field: either a varint or a length-delimited slice.
pub enum Field<'a> {
    Varint(u64),
    Bytes(&'a [u8]),
}

/// Field `f`, read from `buf`, is the value `w`.
pub open spec fn field_is(f: Field, w: Wire, buf: Seq<u8>) -> bool {
    match (f, w) {
        (Field::Varint(a), Wire::Varint(b)) => a == b,
        (Field::Bytes(s), Wire::Bytes(a, b)) => 0 <= a <= b <= buf.len() && s@ == buf.subrange(
            a,
            b,
        ),
        _ => false,
    }
}

impl<'a> Reader<'a> {
    #[verifier::type_invariant]
    spec fn inside(self) -> bool {
        self.pos <= self.buf@.len()
    }

    /// The bytes being read.
    pub closed spec fn bytes(&self) -> Seq<u8> {
        self.buf@
    }

    /// The read position.
    pub closed spec fn at(&self) -> int {
        self.pos as int
    }

    pub fn new(buf: &'a [u8]) -> (r: Self)
        ensures
            r.bytes() == buf@,
            r.at() == 0,
    {
        Reader { buf, pos: 0 }
    }

    pub fn is_empty(&self) -> (r: bool)
        ensures
            r == (self.at() >= self.bytes().len()),
    {
        self.pos >= self.buf.len()
    }

    fn varint(&mut self) -> (r: Result<u64, ProtoError>)
        ensures
            final(self).bytes() == old(self).bytes(),
            match varint_at(old(self).bytes(), old(self).at()) {
                Ok((v, p)) => r == Ok::<u64, ProtoError>(v) && final(self).at() == p,
                Err(e) => r == Err::<u64, ProtoError>(e),
            },
    {
        proof {
            use_type_invariant(&*self);
        }
        let ghost buf = self.buf@;
        let ghost start = self.pos as int;
        let mut out: u64 = 0;
        let mut shift: u64 = 0;
        loop
            invariant
                buf == self.buf@,
                buf == old(self).buf@,
                start == old(self).pos,
                self.pos <= buf.len(),
                shift < 64,
                varint_at(buf, start) == varint_from(buf, self.pos as int, out, shift),
            decreases 64 - shift,
        {
            if self.pos >= self.buf.len() {
                return Err(ProtoError::TruncatedVarint);
            }
            let b = self.buf[self.pos];
            self.pos = self.pos + 1;
            out = out | (((b & 0x7f) as u64) << shift);
            if b & 0x80 == 0 {
                return Ok(out);
            }
            if shift + 7 >= 64 {
                return Err(ProtoError::VarintTooLong);
            }
            shift = shift + 7;
        }
    }

    /// Advance to the next field, returning `(field_number, value)`; `None`
    /// at the end of the input. Fixed-width fields are skipped. At the end of
    /// the input the reader stays where it is; a skipped field that reaches
    /// past the end leaves it at the end.
    pub fn next_field(&mut self) -> (r: Result<Option<(u32, Field<'a>)>, ProtoError>)
        ensures
            final(self).bytes() == old(self).bytes(),
            old(self).at() >= old(self).bytes().len() ==> (r matches Ok(None) && *final(self) == *old(self)),
            match next_at(old(self).bytes(), old(self).at()) {
                Err(e) => r == Err::<Option<(u32, Field<'a>)>, ProtoError>(e),
                Ok(None) => (r matches Ok(None) && final(self).at() == old(self).bytes().len()),
                Ok(Some((n, w, p))) => r matches Ok(Some((m, f))) && m == n && field_is(
                    f,
                    w,
                    old(self).bytes(),
                ) && final(self).at() == p,
            },
    {
        proof {
            use_type_invariant(&*self);
        }
        let ghost buf = self.buf@;
        let ghost start = self.pos as int;
        loop
            invariant
                buf == self.buf@,
                buf == old(self).buf@,
                start == old(self).pos,
                self.pos <= buf.len(),
                next_at(buf, start) == next_at(buf, self.pos as int),
                start >= buf.len() ==> *self == *old(self),
            decreases buf.len() - self.pos,
        {
            proof {
                use_type_invariant(&*self);
            }
            if self.is_empty() {
                return Ok(None);
            }
            let ghost here = self.pos as int;
            proof {
                lemma_varint_from_advances(buf, here, 0, 0);
            }
            let key = match self.varint() {
                Ok(k) => k,
                Err(e) => {
                    return Err(e);
                },
            };
            proof {
                use_type_invariant(&*self);
            }
            let field = #[verifier::truncate] ((key >> 3u64) as u32);
            let wire = key & 7;
            if wire == 0 {
                let v = match self.varint() {
                    Ok(v) => v,
                    Err(e) => {
                        return Err(e);
                    },
                };
                return Ok(Some((field, Field::Varint(v))));
            } else if wire == 2 {
                let ghost p1 = self.pos as int;
                proof {
                    lemma_varint_from_advances(buf, p1, 0, 0);
                }
                let len = match self.varint() {
                    Ok(l) => l,
                    Err(e) => {
                        return Err(e);
                    },
                };
                proof {
                    use_type_invariant(&*self);
                }
                let rem = self.buf.len() - self.pos;
                if len > rem as u64 {
                    return Err(ProtoError::TruncatedField);
                }
                let l = len as usize;
                let s = &self.buf[self.pos..self.pos + l];
                self.pos = self.pos + l;
                return Ok(Some((field, Field::Bytes(s))));
            } else if wire == 5 || wire == 1 {
                let skip: usize = if wire == 5 {
                    4
                } else {
                    8
                };
                if self.buf.len() - self.pos <= skip {
                    self.pos = self.buf.len();
                } else {
                    self.pos = self.pos + skip;
                }
            } else {
                return Err(ProtoError::UnsupportedWireType(#[verifier::truncate] ((key & 7) as u8)));
            }
        }
    }
}

/// What `String::from_utf8_lossy` makes of `b`: the decoded text, with each
/// invalid sequence replaced by U+FFFD.
pub uninterp spec fn utf8_lossy(b: Seq<u8>) -> Seq<char>;

/// `String::from_utf8_lossy`; on valid UTF-8 it is the exact decoding.
#[verifier::external_body]
pub(crate) fn lossy_text(b: &[u8]) -> (r: String)
    ensures
        r@ == utf8_lossy(b@),
        valid_utf8(b@) ==> r@ == decode_utf8(b@),
{
    String::from_utf8_lossy(b).into_owned()
}

/// Bytes read as text: exactly decoded when they are valid UTF-8, else as
/// `String::from_utf8_lossy` reads them.
pub open spec fn text_from(b: Seq<u8>) -> Seq<char> {
    if valid_utf8(b) {
        decode_utf8(b)
    } else {
        utf8_lossy(b)
    }
}

/// A field's text (`unwrap_or_default` of its string reading): a varint
/// reads as empty.
pub open spec fn text_of(w: Wire, buf: Seq<u8>) -> Seq<char> {
    match w {
        Wire::Bytes(a, b) => text_from(buf.subrange(a, b)),
        Wire::Varint(_) => Seq::<char>::empty(),
    }
}

fn text_field(f: &Field) -> (r: String)
    ensures
        f matches Field::Bytes(s) ==> r@ == text_from(s@),
        f is Varint ==> r@ == Seq::<char>::empty(),
{
    match f {
        Field::Bytes(b) => lossy_text(b),
        Field::Varint(_) => String::new(),
    }
}

/// `codeium_common_pb.FileLineRange`
#[derive(Debug, Default, Clone)]
pub struct FileLineRange {
    pub absolute_uri: String,
    pub start_line: u32,
}

pub struct FileLineRangeView {
    pub absolute_uri: Seq<char>,
    pub start_line: u32,
}

impl View for FileLineRange {
    type V = FileLineRangeView;

    open spec fn view(&self) -> FileLineRangeView {
        FileLineRangeView { absolute_uri: self.absolute_uri@, start_line: self.start_line }
    }
}

/// Field 1 is the URI, a varint field 2 the start line; the last one read wins.
pub open spec fn range_step(acc: FileLineRangeView, n: u32, w: Wire, buf: Seq<u8>) -> FileLineRangeView {
    if n == 1 {
        FileLineRangeView { absolute_uri: text_of(w, buf), start_line: acc.start_line }
    } else if n == 2 {
        match w {
            Wire::Varint(v) => FileLineRangeView { absolute_uri: acc.absolute_uri, start_line: v as u32 },
            _ => acc,
        }
    } else {
        acc
    }
}

pub open spec fn range_from(buf: Seq<u8>, pos: int, acc: FileLineRangeView) -> Result<
    FileLineRangeView,
    ProtoError,
>
    decreases buf.len() - pos,
{
    match next_at(buf, pos) {
        Err(e) => Err(e),
        Ok(None) => Ok(acc),
        Ok(Some((n, w, p))) => {
            proof {
                lemma_next_at_advances(buf, pos);
            }
            range_from(buf, p, range_step(acc, n, w, buf))
        },
    }
}

pub open spec fn decode_range(buf: Seq<u8>) -> Result<FileLineRangeView, ProtoError> {
    range_from(buf, 0, FileLineRangeView { absolute_uri: Seq::<char>::empty(), start_line: 0 })
}

impl FileLineRange {
    pub fn decode(buf: &[u8]) -> (r: Result<Self, ProtoError>)
        ensures
            match decode_range(buf@) {
                Ok(v) => r matches Ok(x) && x@ == v,
                Err(e) => r matches Err(x) && x == e,
            },
    {
        let mut out = FileLineRange { absolute_uri: String::new(), start_line: 0 };
        let mut r = Reader::new(buf);
        loop
            invariant
                r.bytes() == buf@,
                0 <= r.at() <= buf@.len(),
                decode_range(buf@) == range_from(buf@, r.at(), out@),
            decreases buf@.len() - r.at(),
        {
            let ghost here = r.at();
            proof {
                lemma_next_at_advances(buf@, here);
            }
            match r.next_field() {
                Err(e) => {
                    return Err(e);
                },
                Ok(None) => {
                    return Ok(out);
                },
                Ok(Some((n, f))) => {
                    if n == 1 {
                        out.absolute_uri = text_field(&f);
                    } else if n == 2 {
                        if let Field::Varint(v) = f {
                            out.start_line = v as u32;
                        }
                    }
                },
            }
        }
    }
}

/// `codeium_common_pb.DOMElementScopeItem`
#[derive(Debug, Default, Clone)]
pub struct DomElement {
    pub tag_name: String,
    pub outer_html: String,
    pub id: String,
    pub react_component_name: String,
    pub file_line_range: Option<FileLineRange>,
}

pub struct DomElementView {
    pub tag_name: Seq<char>,
    pub outer_html: Seq<char>,
    pub id: Seq<char>,
    pub react_component_name: Seq<char>,
    pub file_line_range: Option<FileLineRangeView>,
}

impl View for DomElement {
    type V = DomElementView;

    open spec fn view(&self) -> DomElementView {
        DomElementView {
            tag_name: self.tag_name@,
            outer_html: self.outer_html@,
            id: self.id@,
            react_component_name: self.react_component_name@,
            file_line_range: match self.file_line_range {
                Some(f) => Some(f@),
                None => None,
            },
        }
    }
}

/// Fields 1 to 4 are texts; a length-delimited field 5 is a nested
/// `FileLineRange`, whose decoding error is the element's.
pub open spec fn element_step(acc: DomElementView, n: u32, w: Wire, buf: Seq<u8>) -> Result<
    DomElementView,
    ProtoError,
> {
    if n == 1 {
        Ok(DomElementView { tag_name: text_of(w, buf), ..acc })
    } else if n == 2 {
        Ok(DomElementView { outer_html: text_of(w, buf), ..acc })
    } else if n == 3 {
        Ok(DomElementView { id: text_of(w, buf), ..acc })
    } else if n == 4 {
        Ok(DomElementView { react_component_name: text_of(w, buf), ..acc })
    } else if n == 5 {
        match w {
            Wire::Bytes(a, b) => match decode_range(buf.subrange(a, b)) {
                Ok(f) => Ok(DomElementView { file_line_range: Some(f), ..acc }),
                Err(e) => Err(e),
            },
            _ => Ok(acc),
        }
    } else {
        Ok(acc)
    }
}

pub open spec fn element_from(buf: Seq<u8>, pos: int, acc: DomElementView) -> Result<
    DomElementView,
    ProtoError,
>
    decreases buf.len() - pos,
{
    match next_at(buf, pos) {
        Err(e) => Err(e),
        Ok(None) => Ok(acc),
        Ok(Some((n, w, p))) => {
            proof {
                lemma_next_at_advances(buf, pos);
            }
            match element_step(acc, n, w, buf) {
                Err(e) => Err(e),
                Ok(next) => element_from(buf, p, next),
            }
        },
    }
}

pub open spec fn decode_element(buf: Seq<u8>) -> Result<DomElementView, ProtoError> {
    element_from(
        buf,
        0,
        DomElementView {
            tag_name: Seq::<char>::empty(),
            outer_html: Seq::<char>::empty(),
            id: Seq::<char>::empty(),
            react_component_name: Seq::<char>::empty(),
            file_line_range: None,
        },
    )
}

impl DomElement {
    pub fn decode(buf: &[u8]) -> (r: Result<Self, ProtoError>)
        ensures
            match decode_element(buf@) {
                Ok(v) => r matches Ok(x) && x@ == v,
                Err(e) => r matches Err(x) && x == e,
            },
    {
        let mut out = DomElement {
            tag_name: String::new(),
            outer_html: String::new(),
            id: String::new(),
            react_component_name: String::new(),
            file_line_range: None,
        };
        let mut r = Reader::new(buf);
        loop
            invariant
                r.bytes() == buf@,
                0 <= r.at() <= buf@.len(),
                decode_element(buf@) == element_from(buf@, r.at(), out@),
            decreases buf@.len() - r.at(),
        {
            let ghost here = r.at();
            proof {
                lemma_next_at_advances(buf@, here);
            }
            match r.next_field() {
                Err(e) => {
                    return Err(e);
                },
                Ok(None) => {
                    return Ok(out);
                },
                Ok(Some((n, f))) => {
                    if n == 1 {
                        out.tag_name = text_field(&f);
                    } else if n == 2 {
                        out.outer_html = text_field(&f);
                    } else if n == 3 {
                        out.id = text_field(&f);
                    } else if n == 4 {
                        out.react_component_name = text_field(&f);
                    } else if n == 5 {
                        if let Field::Bytes(b) = f {
                            match FileLineRange::decode(b) {
                                Ok(range) => {
                                    out.file_line_range = Some(range);
                                },
                                Err(e) => {
                                    return Err(e);
                                },
                            }
                        }
                    }
                },
            }
        }
    }
}

/// `codeium_common_pb.ConsoleLogLine`
#[derive(Debug, Default, Clone)]
pub struct ConsoleLogLine {
    pub timestamp_str: String,
    pub kind: String,
    pub output: String,
}

pub struct ConsoleLogLineView {
    pub timestamp_str: Seq<char>,
    pub kind: Seq<char>,
    pub output: Seq<char>,
}

impl View for ConsoleLogLine {
    type V = ConsoleLogLineView;

    open spec fn view(&self) -> ConsoleLogLineView {
        ConsoleLogLineView {
            timestamp_str: self.timestamp_str@,
            kind: self.kind@,
            output: self.output@,
        }
    }
}

pub open spec fn line_step(acc: ConsoleLogLineView, n: u32, w: Wire, buf: Seq<u8>) -> ConsoleLogLineView {
    if n == 1 {
        ConsoleLogLineView { timestamp_str: text_of(w, buf), ..acc }
    } else if n == 2 {
        ConsoleLogLineView { kind: text_of(w, buf), ..acc }
    } else if n == 3 {
        ConsoleLogLineView { output: text_of(w, buf), ..acc }
    } else {
        acc
    }
}

pub open spec fn line_from(buf: Seq<u8>, pos: int, acc: ConsoleLogLineView) -> Result<
    ConsoleLogLineView,
    ProtoError,
>
    decreases buf.len() - pos,
{
    match next_at(buf, pos) {
        Err(e) => Err(e),
        Ok(None) => Ok(acc),
        Ok(Some((n, w, p))) => {
            proof {
                lemma_next_at_advances(buf, pos);
            }
            line_from(buf, p, line_step(acc, n, w, buf))
        },
    }
}

pub open spec fn decode_line(buf: Seq<u8>) -> Result<ConsoleLogLineView, ProtoError> {
    line_from(
        buf,
        0,
        ConsoleLogLineView {
            timestamp_str: Seq::<char>::empty(),
            kind: Seq::<char>::empty(),
            output: Seq::<char>::empty(),
        },
    )
}

fn decode_log_line(buf: &[u8]) -> (r: Result<ConsoleLogLine, ProtoError>)
    ensures
        match decode_line(buf@) {
            Ok(v) => r matches Ok(x) && x@ == v,
            Err(e) => r matches Err(x) && x == e,
        },
{
    let mut line = ConsoleLogLine {
        timestamp_str: String::new(),
        kind: String::new(),
        output: String::new(),
    };
    let mut r = Reader::new(buf);
    loop
        invariant
            r.bytes() == buf@,
            0 <= r.at() <= buf@.len(),
            decode_line(buf@) == line_from(buf@, r.at(), line@),
        decreases buf@.len() - r.at(),
    {
        let ghost here = r.at();
        proof {
            lemma_next_at_advances(buf@, here);
        }
        match r.next_field() {
            Err(e) => {
                return Err(e);
            },
            Ok(None) => {
                return Ok(line);
            },
            Ok(Some((n, f))) => {
                if n == 1 {
                    line.timestamp_str = text_field(&f);
                } else if n == 2 {
                    line.kind = text_field(&f);
                } else if n == 3 {
                    line.output = text_field(&f);
                }
            },
        }
    }
}

/// `codeium_common_pb.ConsoleLogScopeItem`
#[derive(Debug, Default, Clone)]
pub struct ConsoleLog {
    pub lines: Vec<ConsoleLogLine>,
    pub server_address: String,
}

pub struct ConsoleLogView {
    pub lines: Seq<ConsoleLogLineView>,
    pub server_address: Seq<char>,
}

impl View for ConsoleLog {
    type V = ConsoleLogView;

    open spec fn view(&self) -> ConsoleLogView {
        ConsoleLogView {
            lines: self.lines@.map_values(|l: ConsoleLogLine| l@),
            server_address: self.server_address@,
        }
    }
}

/// A length-delimited field 1 adds a line; field 2 is the server address.
pub open spec fn log_step(acc: ConsoleLogView, n: u32, w: Wire, buf: Seq<u8>) -> Result<
    ConsoleLogView,
    ProtoError,
> {
    if n == 1 {
        match w {
            Wire::Bytes(a, b) => match decode_line(buf.subrange(a, b)) {
                Ok(l) => Ok(ConsoleLogView { lines: acc.lines.push(l), ..acc }),
                Err(e) => Err(e),
            },
            _ => Ok(acc),
        }
    } else if n == 2 {
        Ok(ConsoleLogView { server_address: text_of(w, buf), ..acc })
    } else {
        Ok(acc)
    }
}

pub open spec fn log_from(buf: Seq<u8>, pos: int, acc: ConsoleLogView) -> Result<
    ConsoleLogView,
    ProtoError,
>
    decreases buf.len() - pos,
{
    match next_at(buf, pos) {
        Err(e) => Err(e),
        Ok(None) => Ok(acc),
        Ok(Some((n, w, p))) => {
            proof {
                lemma_next_at_advances(buf, pos);
            }
            match log_step(acc, n, w, buf) {
                Err(e) => Err(e),
                Ok(next) => log_from(buf, p, next),
            }
        },
    }
}

pub open spec fn decode_log(buf: Seq<u8>) -> Result<ConsoleLogView, ProtoError> {
    log_from(
        buf,
        0,
        ConsoleLogView {
            lines: Seq::<ConsoleLogLineView>::empty(),
            server_address: Seq::<char>::empty(),
        },
    )
}

impl ConsoleLog {
    pub fn decode(buf: &[u8]) -> (r: Result<Self, ProtoError>)
        ensures
            match decode_log(buf@) {
                Ok(v) => r matches Ok(x) && x@ == v,
                Err(e) => r matches Err(x) && x == e,
            },
    {
        let mut out = ConsoleLog { lines: Vec::new(), server_address: String::new() };
        let mut r = Reader::new(buf);
        assert(out@.lines =~= Seq::<ConsoleLogLineView>::empty());
        loop
            invariant
                r.bytes() == buf@,
                0 <= r.at() <= buf@.len(),
                decode_log(buf@) == log_from(buf@, r.at(), out@),
            decreases buf@.len() - r.at(),
        {
            let ghost here = r.at();
            proof {
                lemma_next_at_advances(buf@, here);
            }
            match r.next_field() {
                Err(e) => {
                    return Err(e);
                },
                Ok(None) => {
                    return Ok(out);
                },
                Ok(Some((n, f))) => {
                    if n == 1 {
                        if let Field::Bytes(b) = f {
                            match decode_log_line(b) {
                                Ok(line) => {
                                    let ghost before = out@;
                                    out.lines.push(line);
                                    assert(out@.lines =~= before.lines.push(line@));
                                },
                                Err(e) => {
                                    return Err(e);
                                },
                            }
                        }
                    } else if n == 2 {
                        out.server_address = text_field(&f);
                    }
                },
            }
        }
    }
}

/// The first length-delimited field 1 at or after `pos`, as a byte range.
pub open spec fn payload_from(buf: Seq<u8>, pos: int) -> Result<(int, int), ProtoError>
    decreases buf.len() - pos,
{
    match next_at(buf, pos) {
        Err(e) => Err(e),
        Ok(None) => Err(ProtoError::MissingPayload),
        Ok(Some((n, w, p))) => {
            proof {
                lemma_next_at_advances(buf, pos);
            }
            match w {
                Wire::Bytes(a, b) if n == 1 => Ok((a, b)),
                _ => payload_from(buf, p),
            }
        },
    }
}

/// Unwrap the request envelope: the real payload lives in field 1.
pub fn unwrap_request(body: &[u8]) -> (r: Result<&[u8], ProtoError>)
    ensures
        match payload_from(body@, 0) {
            Ok((a, b)) => r matches Ok(s) && 0 <= a <= b <= body@.len() && s@ == body@.subrange(
                a,
                b,
            ),
            Err(e) => r matches Err(x) && x == e,
        },
{
    let mut r = Reader::new(body);
    loop
        invariant
            r.bytes() == body@,
            0 <= r.at() <= body@.len(),
            payload_from(body@, 0) == payload_from(body@, r.at()),
        decreases body@.len() - r.at(),
    {
        let ghost here = r.at();
        proof {
            lemma_next_at_advances(body@, here);
        }
        match r.next_field() {
            Err(e) => {
                return Err(e);
            },
            Ok(None) => {
                return Err(ProtoError::MissingPayload);
            },
            Ok(Some((n, f))) => {
                if n == 1 {
                    if let Field::Bytes(b) = f {
                        return Ok(b);
                    }
                }
            },
        }
    }
}

/// Law: decoding a console log never drops a line it has read: the lines
/// decoded so far begin the lines of the result.
pub proof fn law_log_keeps_lines(buf: Seq<u8>, pos: int, acc: ConsoleLogView)
    ensures
        log_from(buf, pos, acc) matches Ok(v) ==> acc.lines.len() <= v.lines.len()
            && v.lines.take(acc.lines.len() as int) == acc.lines,
    decreases buf.len() - pos,
{
    match next_at(buf, pos) {
        Err(_) => {},
        Ok(None) => {
            assert(acc.lines.take(acc.lines.len() as int) =~= acc.lines);
        },
        Ok(Some((n, w, p))) => {
            lemma_next_at_advances(buf, pos);
            match log_step(acc, n, w, buf) {
                Err(_) => {},
                Ok(next) => {
                    law_log_keeps_lines(buf, p, next);
                    assert(next.lines.take(acc.lines.len() as int) =~= acc.lines);
                    match log_from(buf, p, next) {
                        Ok(v) => {
                            assert(v.lines.take(acc.lines.len() as int) =~= v.lines.take(
                                next.lines.len() as int,
                            ).take(acc.lines.len() as int));
                        },
                        Err(_) => {},
                    }
                },
            }
        },
    }
}

/// Law: a length-delimited field 1 holding a line adds that line right after
/// the lines read before it.
pub proof fn law_line_field_appends(
    buf: Seq<u8>,
    pos: int,
    acc: ConsoleLogView,
    a: int,
    b: int,
    p: int,
    l: ConsoleLogLineView,
)
    requires
        next_at(buf, pos) == Ok::<Option<(u32, Wire, int)>, ProtoError>(
            Some((1u32, Wire::Bytes(a, b), p)),
        ),
        decode_line(buf.subrange(a, b)) == Ok::<ConsoleLogLineView, ProtoError>(l),
    ensures
        log_from(buf, pos, acc) matches Ok(v) ==> acc.lines.len() < v.lines.len() && v.lines[acc.lines.len() as int] == l,
{
    lemma_next_at_advances(buf, pos);
    let next = ConsoleLogView { lines: acc.lines.push(l), ..acc };
    assert(log_step(acc, 1u32, Wire::Bytes(a, b), buf) == Ok::<ConsoleLogView, ProtoError>(next));
    law_log_keeps_lines(buf, p, next);
    match log_from(buf, p, next) {
        Ok(v) => {
            assert(v.lines.take(next.lines.len() as int)[acc.lines.len() as int] == l);
        },
        Err(_) => {},
    }
}

/// A console line as a field-1 record whose length fits in one byte.
pub open spec fn line_record(payload: Seq<u8>) -> Seq<u8> {
    seq![0x0au8, payload.len() as u8] + payload
}

/// Line records one after the other.
pub open spec fn line_records(ps: Seq<Seq<u8>>) -> Seq<u8>
    decreases ps.len(),
{
    if ps.len() == 0 {
        Seq::<u8>::empty()
    } else {
        line_records(ps.drop_last()) + line_record(ps.last())
    }
}

proof fn lemma_records_prefix(ps: Seq<Seq<u8>>, i: int)
    requires
        0 <= i <= ps.len(),
    ensures
        line_records(ps.take(i)).len() <= line_records(ps).len(),
        line_records(ps).take(line_records(ps.take(i)).len() as int) == line_records(ps.take(i)),
    decreases ps.len(),
{
    if i == ps.len() {
        assert(ps.take(i) =~= ps);
        assert(line_records(ps).take(line_records(ps).len() as int) =~= line_records(ps));
    } else {
        lemma_records_prefix(ps.drop_last(), i);
        assert(ps.drop_last().take(i) =~= ps.take(i));
        let a = line_records(ps.take(i));
        assert(line_records(ps).take(a.len() as int) =~= line_records(ps.drop_last()).take(
            a.len() as int,
        ));
    }
}

/// The line each payload decodes to.
pub open spec fn decoded_lines(ps: Seq<Seq<u8>>) -> Seq<ConsoleLogLineView> {
    ps.map_values(|q: Seq<u8>| decode_line(q)->Ok_0)
}

proof fn lemma_record_field(buf: Seq<u8>, q: int, payload: Seq<u8>)
    requires
        0 <= q,
        payload.len() < 128,
        q + 2 + payload.len() <= buf.len(),
        buf.subrange(q, q + 2 + payload.len()) == line_record(payload),
    ensures
        next_at(buf, q) == Ok::<Option<(u32, Wire, int)>, ProtoError>(
            Some((1u32, Wire::Bytes(q + 2, q + 2 + payload.len()), q + 2 + payload.len())),
        ),
        buf.subrange(q + 2, q + 2 + payload.len()) == payload,
{
    let rec = line_record(payload);
    assert(buf[q] == rec[0]);
    assert(buf[q + 1] == rec[1]);
    let k: u8 = 0x0a;
    let len: u8 = payload.len() as u8;
    assert(buf[q] == k);
    assert(buf[q + 1] == len);
    assert((k & 0x80) == 0 && (0u64 | (((k & 0x7f) as u64) << 0u64)) == 10u64) by (bit_vector)
        requires
            k == 0x0a,
    ;
    assert((len & 0x80) == 0 && (0u64 | (((len & 0x7f) as u64) << 0u64)) == len as u64) by (bit_vector)
        requires
            len < 128,
    ;
    assert(((10u64 >> 3u64) as u32) == 1u32 && (10u64 & 7) == 2) by (bit_vector);
    assert(varint_at(buf, q) == Ok::<(u64, int), ProtoError>((10u64, q + 1)));
    assert(varint_at(buf, q + 1) == Ok::<(u64, int), ProtoError>((len as u64, q + 2)));
    assert(buf.subrange(q + 2, q + 2 + payload.len()) =~= rec.subrange(2, 2int + payload.len()));
    assert(rec.subrange(2, 2int + payload.len()) =~= payload);
}

proof fn lemma_records_from(ps: Seq<Seq<u8>>, i: int, acc: ConsoleLogView)
    requires
        0 <= i <= ps.len(),
        forall|j: int| 0 <= j < ps.len() ==> (#[trigger] ps[j]).len() < 128 && decode_line(ps[j]) is Ok,
        acc.lines == decoded_lines(ps.take(i)),
    ensures
        log_from(line_records(ps), line_records(ps.take(i)).len() as int, acc) == Ok::<
            ConsoleLogView,
            ProtoError,
        >(ConsoleLogView { lines: decoded_lines(ps), ..acc }),
    decreases ps.len() - i,
{
    let buf = line_records(ps);
    let q = line_records(ps.take(i)).len() as int;
    lemma_records_prefix(ps, i);
    if i == ps.len() {
        assert(ps.take(i) =~= ps);
        assert(acc.lines =~= decoded_lines(ps));
    } else {
        lemma_records_prefix(ps, i + 1);
        let pl = ps[i];
        assert(ps.take(i + 1).drop_last() =~= ps.take(i));
        assert(ps.take(i + 1).last() == pl);
        let head = line_records(ps.take(i + 1));
        assert(head == line_records(ps.take(i)) + line_record(pl));
        assert(buf.subrange(q, q + 2 + pl.len()) =~= head.subrange(q, q + 2 + pl.len()));
        assert(head.subrange(q, q + 2 + pl.len()) =~= line_record(pl));
        lemma_record_field(buf, q, pl);
        let l = decode_line(pl)->Ok_0;
        let next = ConsoleLogView { lines: acc.lines.push(l), ..acc };
        assert(decoded_lines(ps.take(i + 1)) =~= decoded_lines(ps.take(i)).push(l));
        lemma_records_from(ps, i + 1, next);
        assert(log_step(acc, 1u32, Wire::Bytes(q + 2, q + 2 + pl.len()), buf) == Ok::<
            ConsoleLogView,
            ProtoError,
        >(next));
    }
}

/// Law: a console log made of line records, one after another, decodes to
/// their lines, all of them, in the order they came.
pub proof fn law_log_lines_in_order(ps: Seq<Seq<u8>>)
    requires
        forall|j: int| 0 <= j < ps.len() ==> (#[trigger] ps[j]).len() < 128 && decode_line(ps[j]) is Ok,
    ensures
        decode_log(line_records(ps)) matches Ok(v) && v.lines.len() == ps.len() && forall|j: int|
            0 <= j < ps.len() ==> decode_line(#[trigger] ps[j]) == Ok::<ConsoleLogLineView, ProtoError>(
                v.lines[j],
            ),
{
    let acc = ConsoleLogView {
        lines: Seq::<ConsoleLogLineView>::empty(),
        server_address: Seq::<char>::empty(),
    };
    assert(ps.take(0) =~= Seq::<Seq<u8>>::empty());
    assert(decoded_lines(ps.take(0)) =~= Seq::<ConsoleLogLineView>::empty());
    assert(line_records(ps.take(0)).len() == 0);
    lemma_records_from(ps, 0, acc);
}

} // verus!

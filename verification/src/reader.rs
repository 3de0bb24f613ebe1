//! Low-level record reader: splits GDS bytes into records and decodes their bodies.
use crate::bytes::{be_sint, be_uint, i16_from_be, i32_from_be, u16_from_be};
use crate::float::{GdsEightByteReal, GdsFourByteReal};
use crate::types::{DataType, RecordHeader};
use vstd::prelude::*;
use vstd::string::StringSliceAdditionalSpecFns;
use vstd::utf8::{is_char_boundary, is_continuation_byte, valid_utf8};

verus! {

broadcast use vstd::utf8::is_char_boundary_iff_not_is_continuation_byte,
    vstd::utf8::is_char_boundary_start_end_of_seq;

/// A record: its header and its decoded body.
#[derive(Debug)]
pub struct Record<'data> {
    pub header: RecordHeader,
    pub body: RecordBody<'data>,
}

/// Decoded body of a record. Strings borrow from the input; numbers are decoded.
#[derive(Debug, PartialEq, Eq)]
pub enum RecordBody<'data> {
    NoData,
    BitArray(Vec<u16>),
    TwoByteSignedInt(Vec<i16>),
    FourByteSignedInt(Vec<i32>),
    /// Raw reals, kept undecoded.
    FourByteReal(Vec<GdsFourByteReal>),
    /// Raw reals, kept undecoded.
    EightByteReal(Vec<GdsEightByteReal>),
    /// The characters, without the null byte that pads them to an even length.
    AsciiString(&'data str),
}

/// Error met while reading a record.
#[derive(Debug, PartialEq, Eq)]
#[allow(inconsistent_fields)]
pub enum RecordError {
    /// The body does not fit its data type: a length that is not a whole number of
    /// values, or a string that is not UTF-8.
    Invalid { expected: DataType, found: Vec<u8> },
    /// The length field is below the four bytes of the header itself.
    InvalidLength { offset: usize, length: u16 },
    /// The length field runs past the end of the input.
    Truncated { offset: usize, length: usize, available: usize },
}

// ------------------------------------------------------------------------------------------
// Views
// ------------------------------------------------------------------------------------------

/// Mathematical value of a record body; reals as their raw bytes, strings as their bytes.
pub enum BodyView {
    NoData,
    BitArray(Seq<u16>),
    TwoByteSignedInt(Seq<i16>),
    FourByteSignedInt(Seq<i32>),
    FourByteReal(Seq<Seq<u8>>),
    EightByteReal(Seq<Seq<u8>>),
    AsciiString(Seq<u8>),
}

/// Mathematical value of a record.
pub struct RecView {
    pub header: RecordHeader,
    pub body: BodyView,
}

/// Mathematical value of a record error.
#[allow(inconsistent_fields)]
pub enum RecordErrorView {
    Invalid { expected: DataType, found: Seq<u8> },
    InvalidLength { offset: usize, length: u16 },
    Truncated { offset: usize, length: usize, available: usize },
}

impl<'data> View for RecordBody<'data> {
    type V = BodyView;

    open spec fn view(&self) -> BodyView {
        match self {
            RecordBody::NoData => BodyView::NoData,
            RecordBody::BitArray(v) => BodyView::BitArray(v@),
            RecordBody::TwoByteSignedInt(v) => BodyView::TwoByteSignedInt(v@),
            RecordBody::FourByteSignedInt(v) => BodyView::FourByteSignedInt(v@),
            RecordBody::FourByteReal(v) => BodyView::FourByteReal(
                v@.map_values(|r: GdsFourByteReal| r.0@),
            ),
            RecordBody::EightByteReal(v) => BodyView::EightByteReal(
                v@.map_values(|r: GdsEightByteReal| r.0@),
            ),
            RecordBody::AsciiString(s) => BodyView::AsciiString(s.spec_bytes()),
        }
    }
}

impl<'data> View for Record<'data> {
    type V = RecView;

    open spec fn view(&self) -> RecView {
        RecView { header: self.header, body: self.body@ }
    }
}

impl View for RecordError {
    type V = RecordErrorView;

    open spec fn view(&self) -> RecordErrorView {
        match self {
            RecordError::Invalid { expected, found } => RecordErrorView::Invalid {
                expected: *expected,
                found: found@,
            },
            RecordError::InvalidLength { offset, length } => RecordErrorView::InvalidLength {
                offset: *offset,
                length: *length,
            },
            RecordError::Truncated { offset, length, available } => RecordErrorView::Truncated {
                offset: *offset,
                length: *length,
                available: *available,
            },
        }
    }
}

/// View of what reading a record gives.
pub open spec fn read_view<'data>(r: Result<Record<'data>, RecordError>) -> Result<
    RecView,
    RecordErrorView,
> {
    match r {
        Ok(rec) => Ok(rec@),
        Err(e) => Err(e@),
    }
}

// ------------------------------------------------------------------------------------------
// Decoding bodies
// ------------------------------------------------------------------------------------------

/// `s` without the null byte that pads a string to an even length, if it ends in one.
pub open spec fn trim_nul(s: Seq<u8>) -> Seq<u8> {
    if s.len() > 0 && s.last() == 0 {
        s.drop_last()
    } else {
        s
    }
}

/// The `i`-th `k`-byte chunk of `s`.
pub open spec fn chunk(s: Seq<u8>, k: int, i: int) -> Seq<u8> {
    s.subrange(k * i, k * i + k)
}

/// Decoded body of `bytes` under data type `dt`, if the bytes fit it.
pub open spec fn spec_decode_body(dt: DataType, bytes: Seq<u8>) -> Option<BodyView> {
    match dt {
        DataType::NoData => Some(BodyView::NoData),
        DataType::BitArray => if bytes.len() % 2 == 0 {
            Some(
                BodyView::BitArray(
                    Seq::new(bytes.len() / 2, |i: int| be_uint(chunk(bytes, 2, i)) as u16),
                ),
            )
        } else {
            None
        },
        DataType::TwoByteSignedInt => if bytes.len() % 2 == 0 {
            Some(
                BodyView::TwoByteSignedInt(
                    Seq::new(bytes.len() / 2, |i: int| be_sint(chunk(bytes, 2, i)) as i16),
                ),
            )
        } else {
            None
        },
        DataType::FourByteSignedInt => if bytes.len() % 4 == 0 {
            Some(
                BodyView::FourByteSignedInt(
                    Seq::new(bytes.len() / 4, |i: int| be_sint(chunk(bytes, 4, i)) as i32),
                ),
            )
        } else {
            None
        },
        DataType::FourByteReal => if bytes.len() % 4 == 0 {
            Some(BodyView::FourByteReal(Seq::new(bytes.len() / 4, |i: int| chunk(bytes, 4, i))))
        } else {
            None
        },
        DataType::EightByteReal => if bytes.len() % 8 == 0 {
            Some(BodyView::EightByteReal(Seq::new(bytes.len() / 8, |i: int| chunk(bytes, 8, i))))
        } else {
            None
        },
        DataType::AsciiString => if valid_utf8(bytes) {
            Some(BodyView::AsciiString(trim_nul(bytes)))
        } else {
            None
        },
    }
}

/// The string that `bytes` spell, through `std::str::from_utf8`; the contract claims it
/// succeeds exactly on valid UTF-8 and that the string's bytes are `bytes`.
#[verifier::external_body]
fn utf8_str<'a>(bytes: &'a [u8]) -> (r: Option<&'a str>)
    ensures
        r is Some <==> valid_utf8(bytes@),
        r matches Some(s) ==> s.spec_bytes() == bytes@,
{
    std::str::from_utf8(bytes).ok()
}

/// Length of `s` without its padding null byte.
fn trimmed_len(s: &[u8]) -> (k: usize)
    ensures
        k <= s.len(),
        s@.subrange(0, k as int) == trim_nul(s@),
        k < s.len() ==> s@[k as int] == 0,
{
    let n = s.len();
    if n > 0 && s[n - 1] == 0 {
        assert(s@.subrange(0, n - 1) =~= s@.drop_last());
        n - 1
    } else {
        assert(s@.subrange(0, n as int) =~= s@);
        n
    }
}

/// `s` without its padding null character.
fn trim_nul_str<'a>(s: &'a str) -> (r: &'a str)
    requires
        valid_utf8(s.spec_bytes()),
    ensures
        r.spec_bytes() == trim_nul(s.spec_bytes()),
{
    let bytes = s.as_bytes();
    let k = trimmed_len(bytes);
    if k < bytes.len() {
        assert(!is_continuation_byte(s.spec_bytes()[k as int]));
        assert(is_char_boundary(s.spec_bytes(), k as int));
    } else {
        assert(is_char_boundary(s.spec_bytes(), s.spec_bytes().len() as int));
    }
    let (head, _) = s.split_at(k);
    head
}

fn decode_u16s(body: &[u8]) -> (r: Vec<u16>)
    requires
        body.len() % 2 == 0,
    ensures
        r@ == Seq::new(body@.len() / 2, |i: int| be_uint(chunk(body@, 2, i)) as u16),
{
    let n = body.len() / 2;
    let mut r: Vec<u16> = Vec::new();
    let mut i: usize = 0;
    while i < n
        invariant
            n == body.len() / 2,
            i <= n,
            r@.len() == i,
            forall|j: int| 0 <= j < i ==> r@[j] == be_uint(chunk(body@, 2, j)) as u16,
        decreases n - i,
    {
        let a = [body[2 * i], body[2 * i + 1]];
        assert(a@ =~= chunk(body@, 2, i as int));
        r.push(u16_from_be(a));
        i = i + 1;
    }
    assert(r@ =~= Seq::new(body@.len() / 2, |i: int| be_uint(chunk(body@, 2, i)) as u16));
    r
}

fn decode_i16s(body: &[u8]) -> (r: Vec<i16>)
    requires
        body.len() % 2 == 0,
    ensures
        r@ == Seq::new(body@.len() / 2, |i: int| be_sint(chunk(body@, 2, i)) as i16),
{
    let n = body.len() / 2;
    let mut r: Vec<i16> = Vec::new();
    let mut i: usize = 0;
    while i < n
        invariant
            n == body.len() / 2,
            i <= n,
            r@.len() == i,
            forall|j: int| 0 <= j < i ==> r@[j] == be_sint(chunk(body@, 2, j)) as i16,
        decreases n - i,
    {
        let a = [body[2 * i], body[2 * i + 1]];
        assert(a@ =~= chunk(body@, 2, i as int));
        r.push(i16_from_be(a));
        i = i + 1;
    }
    assert(r@ =~= Seq::new(body@.len() / 2, |i: int| be_sint(chunk(body@, 2, i)) as i16));
    r
}

fn decode_i32s(body: &[u8]) -> (r: Vec<i32>)
    requires
        body.len() % 4 == 0,
    ensures
        r@ == Seq::new(body@.len() / 4, |i: int| be_sint(chunk(body@, 4, i)) as i32),
{
    let n = body.len() / 4;
    let mut r: Vec<i32> = Vec::new();
    let mut i: usize = 0;
    while i < n
        invariant
            n == body.len() / 4,
            i <= n,
            r@.len() == i,
            forall|j: int| 0 <= j < i ==> r@[j] == be_sint(chunk(body@, 4, j)) as i32,
        decreases n - i,
    {
        let a = [body[4 * i], body[4 * i + 1], body[4 * i + 2], body[4 * i + 3]];
        assert(a@ =~= chunk(body@, 4, i as int));
        r.push(i32_from_be(a));
        i = i + 1;
    }
    assert(r@ =~= Seq::new(body@.len() / 4, |i: int| be_sint(chunk(body@, 4, i)) as i32));
    r
}

fn decode_reals4(body: &[u8]) -> (r: Vec<GdsFourByteReal>)
    requires
        body.len() % 4 == 0,
    ensures
        r@.map_values(|x: GdsFourByteReal| x.0@) == Seq::new(
            body@.len() / 4,
            |i: int| chunk(body@, 4, i),
        ),
{
    let n = body.len() / 4;
    let mut r: Vec<GdsFourByteReal> = Vec::new();
    let mut i: usize = 0;
    while i < n
        invariant
            n == body.len() / 4,
            i <= n,
            r@.len() == i,
            forall|j: int| 0 <= j < i ==> r@[j].0@ == chunk(body@, 4, j),
        decreases n - i,
    {
        let a = [body[4 * i], body[4 * i + 1], body[4 * i + 2], body[4 * i + 3]];
        assert(a@ =~= chunk(body@, 4, i as int));
        r.push(GdsFourByteReal(a));
        i = i + 1;
    }
    assert(r@.map_values(|x: GdsFourByteReal| x.0@) =~= Seq::new(
        body@.len() / 4,
        |i: int| chunk(body@, 4, i),
    ));
    r
}

fn decode_reals8(body: &[u8]) -> (r: Vec<GdsEightByteReal>)
    requires
        body.len() % 8 == 0,
    ensures
        r@.map_values(|x: GdsEightByteReal| x.0@) == Seq::new(
            body@.len() / 8,
            |i: int| chunk(body@, 8, i),
        ),
{
    let n = body.len() / 8;
    let mut r: Vec<GdsEightByteReal> = Vec::new();
    let mut i: usize = 0;
    while i < n
        invariant
            n == body.len() / 8,
            i <= n,
            r@.len() == i,
            forall|j: int| 0 <= j < i ==> r@[j].0@ == chunk(body@, 8, j),
        decreases n - i,
    {
        let k = 8 * i;
        let a = [
            body[k],
            body[k + 1],
            body[k + 2],
            body[k + 3],
            body[k + 4],
            body[k + 5],
            body[k + 6],
            body[k + 7],
        ];
        assert(a@ =~= chunk(body@, 8, i as int));
        r.push(GdsEightByteReal(a));
        i = i + 1;
    }
    assert(r@.map_values(|x: GdsEightByteReal| x.0@) =~= Seq::new(
        body@.len() / 8,
        |i: int| chunk(body@, 8, i),
    ));
    r
}

impl<'data> RecordBody<'data> {
    /// Decodes the body bytes of a record with data type `data_type`. Fails with
    /// `Invalid` (carrying the bytes) where their length is not a whole number of values,
    /// or a string is not UTF-8. A NoData record's body bytes are ignored.
    pub fn decode(data_type: DataType, body: &'data [u8]) -> (r: Result<RecordBody<'data>, RecordError>)
        ensures
            match spec_decode_body(data_type, body@) {
                Some(v) => r is Ok && r.unwrap()@ == v,
                None => r is Err && r->Err_0@ == (RecordErrorView::Invalid {
                    expected: data_type,
                    found: body@,
                }),
            },
    {
        let ok = match data_type {
            DataType::NoData => true,
            DataType::BitArray | DataType::TwoByteSignedInt => body.len() % 2 == 0,
            DataType::FourByteSignedInt | DataType::FourByteReal => body.len() % 4 == 0,
            DataType::EightByteReal => body.len() % 8 == 0,
            DataType::AsciiString => true,
        };
        if !ok {
            return Err(RecordError::Invalid { expected: data_type, found: vstd::slice::slice_to_vec(body) });
        }
        match data_type {
            DataType::NoData => Ok(RecordBody::NoData),
            DataType::BitArray => Ok(RecordBody::BitArray(decode_u16s(body))),
            DataType::TwoByteSignedInt => Ok(RecordBody::TwoByteSignedInt(decode_i16s(body))),
            DataType::FourByteSignedInt => Ok(RecordBody::FourByteSignedInt(decode_i32s(body))),
            DataType::FourByteReal => Ok(RecordBody::FourByteReal(decode_reals4(body))),
            DataType::EightByteReal => Ok(RecordBody::EightByteReal(decode_reals8(body))),
            DataType::AsciiString => match utf8_str(body) {
                Some(s) => Ok(RecordBody::AsciiString(trim_nul_str(s))),
                None => Err(RecordError::Invalid { expected: data_type, found: vstd::slice::slice_to_vec(body) }),
            },
        }
    }
}

// ------------------------------------------------------------------------------------------
// Reading records
// ------------------------------------------------------------------------------------------

/// What reading the record at `off` of `input` gives, with the offset to read next:
/// `None` where no header starts at `off` (fewer than four bytes left, or an unknown
/// record or data type); after an error, reading stops at the end of the input.
pub open spec fn spec_read_record(input: Seq<u8>, off: int) -> Option<
    (Result<RecView, RecordErrorView>, int),
> {
    match RecordHeader::spec_parse(input.subrange(off, input.len() as int)) {
        None => None,
        Some(h) => {
            let len = h.length as int;
            if len < 4 {
                Some(
                    (
                        Err(RecordErrorView::InvalidLength { offset: off as usize, length: h.length }),
                        input.len() as int,
                    ),
                )
            } else if len > input.len() - off {
                Some(
                    (
                        Err(
                            RecordErrorView::Truncated {
                                offset: off as usize,
                                length: len as usize,
                                available: (input.len() - off) as usize,
                            },
                        ),
                        input.len() as int,
                    ),
                )
            } else {
                let body = input.subrange(off + 4, off + len);
                match spec_decode_body(h.data_type, body) {
                    None => Some(
                        (
                            Err(RecordErrorView::Invalid { expected: h.data_type, found: body }),
                            input.len() as int,
                        ),
                    ),
                    Some(b) => Some((Ok(RecView { header: h, body: b }), off + len)),
                }
            }
        },
    }
}

/// The stream of records read from offset `off` of `input` until no header follows or
/// an error is met (which is then the last item).
pub open spec fn spec_records(input: Seq<u8>, off: int) -> Seq<Result<RecView, RecordErrorView>>
    decreases input.len() - off,
{
    if off < 0 || off > input.len() {
        Seq::empty()
    } else {
        match spec_read_record(input, off) {
            None => Seq::empty(),
            Some((Err(e), _)) => seq![Err(e)],
            Some((Ok(r), next)) => if off < next <= input.len() {
                seq![Ok(r)] + spec_records(input, next)
            } else {
                Seq::empty()
            },
        }
    }
}

/// Nothing is read at the end of the input.
pub proof fn lemma_records_at_end(input: Seq<u8>)
    ensures
        spec_records(input, input.len() as int) == Seq::<Result<RecView, RecordErrorView>>::empty(),
{
    assert(input.subrange(input.len() as int, input.len() as int).len() == 0);
}

/// The stream of records from `off`: the record read there, then the stream after it.
pub proof fn lemma_records_step(input: Seq<u8>, off: int)
    requires
        0 <= off <= input.len(),
    ensures
        spec_records(input, off) == match spec_read_record(input, off) {
            None => Seq::empty(),
            Some((Err(e), _)) => seq![Err(e)],
            Some((Ok(r), next)) => seq![Ok(r)] + spec_records(input, next),
        },
        spec_read_record(input, off) matches Some((_, next)) ==> off < next <= input.len(),
        spec_read_record(input, off) matches Some((Err(_), next)) ==> next == input.len(),
{
}

/// Where the `k`-th record of a stream read from `off` starts: `off` plus the lengths of
/// the records before it.
pub open spec fn record_start(s: Seq<Result<RecView, RecordErrorView>>, off: int, k: int) -> int
    decreases k,
{
    if k <= 0 {
        off
    } else {
        record_start(s, off, k - 1) + s[k - 1]->Ok_0.header.length
    }
}

proof fn lemma_record_start_shift(s: Seq<Result<RecView, RecordErrorView>>, off: int, k: int)
    requires
        s.len() > 0,
        1 <= k <= s.len(),
    ensures
        record_start(s, off, k) == record_start(
            s.drop_first(),
            off + s[0]->Ok_0.header.length,
            k - 1,
        ),
    decreases k,
{
    reveal_with_fuel(record_start, 2);
    if k > 1 {
        lemma_record_start_shift(s, off, k - 1);
        assert(s[k - 1] == s.drop_first()[k - 2]);
    }
}

/// The records read from `off` tile a prefix of the input: the `k`-th, where it is read
/// without error, is read where the ones before it end, is at least its four header bytes
/// long, and ends within the input; only the last item can be an error.
pub proof fn lemma_records_tile(input: Seq<u8>, off: int, k: int)
    requires
        0 <= off <= input.len(),
        0 <= k < spec_records(input, off).len(),
    ensures
        k + 1 < spec_records(input, off).len() ==> spec_records(input, off)[k] is Ok,
        spec_records(input, off)[k] is Ok ==> {
            let r = spec_records(input, off)[k];
            &&& spec_read_record(input, record_start(spec_records(input, off), off, k)) == Some(
                (r, record_start(spec_records(input, off), off, k + 1)),
            )
            &&& r->Ok_0.header.length >= 4
            &&& record_start(spec_records(input, off), off, k + 1) <= input.len()
        },
    decreases k,
{
    let s = spec_records(input, off);
    lemma_records_step(input, off);
    match spec_read_record(input, off) {
        Some((Ok(r), next)) => {
            let t = spec_records(input, next);
            assert(next == off + r.header.length);
            if k == 0 {
                reveal_with_fuel(record_start, 2);
            } else {
                lemma_records_tile(input, next, k - 1);
                assert(s[k] == t[k - 1]);
                lemma_record_start_shift(s, off, k);
                lemma_record_start_shift(s, off, k + 1);
                assert(s.drop_first() == t);
            }
        },
        _ => {},
    }
}

/// Iterator over the records of GDS bytes.
#[derive(Debug)]
pub struct RecordIter<'data> {
    /// The GDS bytes.
    input: &'data [u8],
    /// Offset of the next record.
    offset: usize,
}

impl<'data> RecordIter<'data> {
    #[verifier::type_invariant]
    spec fn inv(self) -> bool {
        self.offset <= self.input@.len()
    }

    /// The bytes being read.
    pub closed spec fn input(&self) -> Seq<u8> {
        self.input@
    }

    /// Offset of the next record.
    pub closed spec fn position(&self) -> int {
        self.offset as int
    }

    /// The records that are left to read.
    pub open spec fn remaining(&self) -> Seq<Result<RecView, RecordErrorView>> {
        spec_records(self.input(), self.position())
    }

    /// An iterator over the records of `input`, from its start.
    pub fn new(input: &'data [u8]) -> (r: Self)
        ensures
            r.input() == input@,
            r.position() == 0,
    {
        RecordIter { input, offset: 0 }
    }

    /// Reads the next record. `None` where no header starts at the current offset (fewer
    /// than four bytes left, or an unknown record or data type). After an error the
    /// iterator is at the end of its input, so that it yields nothing more.
    pub fn next(&mut self) -> (r: Option<Result<Record<'data>, RecordError>>)
        ensures
            final(self).input() == old(self).input(),
            0 <= old(self).position() <= old(self).input().len(),
            match spec_read_record(old(self).input(), old(self).position()) {
                None => r is None && final(self).position() == old(self).position(),
                Some((v, next)) => r is Some && read_view(r.unwrap()) == v
                    && final(self).position() == next,
            },
    {
        proof {
            use_type_invariant(&*self);
        }
        let input: &'data [u8] = self.input;
        let offset = self.offset;
        let rest = vstd::slice::slice_subrange(input, offset, input.len());
        let header = match RecordHeader::parse(rest) {
            Some(h) => h,
            None => return None,
        };
        let length = header.length;
        if length < 4 {
            self.offset = input.len();
            return Some(Err(RecordError::InvalidLength { offset, length }));
        }
        let len = length as usize;
        if len > input.len() - offset {
            self.offset = input.len();
            return Some(
                Err(RecordError::Truncated { offset, length: len, available: input.len() - offset }),
            );
        }
        let body_bytes = vstd::slice::slice_subrange(input, offset + 4, offset + len);
        match RecordBody::decode(header.data_type, body_bytes) {
            Ok(body) => {
                self.offset = offset + len;
                Some(Ok(Record { header, body }))
            },
            Err(e) => {
                self.offset = input.len();
                Some(Err(e))
            },
        }
    }
}

} // verus!

//! Files in the writer's form: every well-formed file whose records are written as the
//! writer writes them is rewritten byte for byte.
use crate::bytes::{
    lemma_be_bytes_len, lemma_be_bytes_of_uint, lemma_be_sbytes_of_sint, lemma_be_uint_bound,
};
use crate::events::EventView;
use crate::parsed::{body_ok, lemma_records_ok, lemma_structure_item_ok, stream_ok};
use crate::parser::{
    sp_aref, sp_boundary, sp_expect, sp_library_begin, sp_library_item, sp_library_options,
    sp_property, sp_structure_item, sp_advance, sp_colrow, sp_elflags_plex, sp_finish, sp_gds_box, sp_more_xy,
    sp_next, sp_node, sp_opt_i16, sp_opt_i32, sp_opt_real, sp_opt_u16, sp_path, sp_req_i16,
    sp_req_str, sp_sref, sp_strans, sp_text, sp_try, sp_xy, strans_of, ParseErrorView,
    ParseState, RecordStream,
};
use crate::reader::{
    chunk, lemma_records_step, spec_decode_body, spec_read_record, spec_records, BodyView,
    RecView, RecordErrorView,
};
use crate::roundtrip::{
    lemma_flat_i16, lemma_flat_i32, lemma_flat_u16, lemma_flatten_chunks,
    lemma_records_bytes_first, rec_view_of, stream_of,
};
use crate::types::{
    lemma_data_type_code, lemma_record_type_code, DataType, RecordHeader, RecordType,
};
use crate::wellformed::{
    lemma_empty_front, lemma_endel_first, lemma_events_unfold, lemma_one, lemma_stream_split,
    parses_to, rv,
};
use crate::writer::{
    body_bytes, body_data_type, element_records, elflags_plex_records, one, opt_i16, opt_i32,
    opt_real, opt_str, opt_u16, event_records, events_records, out_record_bytes, record_length, records_bytes, strans_flags,
    strans_records, xy_chunk, xy_records, OutRecord,
};
use vstd::arithmetic::power2::lemma2_to64;
use vstd::prelude::*;

verus! {

// ------------------------------------------------------------------------------------------
// Records in the writer's form
// ------------------------------------------------------------------------------------------

/// Body bytes as the writer writes them: none for no data, an even number for a string
/// (padded with one null byte where the string has an odd length).
pub open spec fn body_bytes_canonical(dt: DataType, bytes: Seq<u8>) -> bool {
    &&& dt is NoData ==> bytes.len() == 0
    &&& dt is AsciiString ==> bytes.len() % 2 == 0
}

/// From `off` to its last byte the input is records, each read without error, with body
/// bytes as the writer writes them.
pub open spec fn reads_canonically(input: Seq<u8>, off: int) -> bool
    decreases input.len() - off,
{
    if off < 0 || off > input.len() {
        false
    } else if off == input.len() {
        true
    } else {
        match spec_read_record(input, off) {
            Some((Ok(r), next)) => off < next <= input.len() && body_bytes_canonical(
                r.header.data_type,
                input.subrange(off + 4, next),
            ) && reads_canonically(input, next),
            _ => false,
        }
    }
}

/// The record to write that a record read stands for.
pub open spec fn rec_out(r: RecView) -> OutRecord {
    OutRecord { record_type: r.header.record_type, body: r.body }
}

/// The records to write that a stream of records read stands for.
pub open spec fn outs(s: Seq<Result<RecView, RecordErrorView>>) -> Seq<OutRecord> {
    s.map_values(|x: Result<RecView, RecordErrorView>| rec_out(x->Ok_0))
}

/// A record read that is exactly what writing its type and body reads back as.
pub open spec fn in_written_form(r: RecView) -> bool {
    r == rec_view_of(rec_out(r))
}

/// Sequences of `k`-byte chunks that agree chunk by chunk are equal.
proof fn lemma_chunks_equal(a: Seq<u8>, b: Seq<u8>, k: int, n: int)
    requires
        k > 0,
        n >= 0,
        a.len() == k * n,
        b.len() == k * n,
        forall|i: int| 0 <= i < n ==> chunk(a, k, i) == chunk(b, k, i),
    ensures
        a == b,
{
    assert forall|j: int| 0 <= j < a.len() implies a[j] == b[j] by {
        let i = j / k;
        let r = j % k;
        assert(0 <= i < n && 0 <= r < k && k * i + r == j && k * i + k <= k * n) by (
        nonlinear_arith)
            requires
                k > 0,
                0 <= j < k * n,
                i == j / k,
                r == j % k,
        ;
        assert(chunk(a, k, i)[r] == a[j]);
        assert(chunk(b, k, i)[r] == b[j]);
    }
    assert(a =~= b);
}

proof fn lemma_chunk_len(bytes: Seq<u8>, k: int, i: int)
    requires
        k > 0,
        bytes.len() as int % k == 0,
        0 <= i,
    ensures
        i < bytes.len() as int / k ==> chunk(bytes, k, i).len() == k,
        bytes.len() == k * (bytes.len() as int / k),
{
    let l = bytes.len() as int;
    assert((i < l / k ==> k * i + k <= l) && l == k * (l / k)) by (nonlinear_arith)
        requires
            k > 0,
            l % k == 0,
            0 <= i,
    ;
}

/// Bytes in the writer's form decode to a body that the writer writes as those bytes, with
/// the same data type.
pub proof fn lemma_decode_inverse(dt: DataType, bytes: Seq<u8>)
    requires
        spec_decode_body(dt, bytes) is Some,
        body_bytes_canonical(dt, bytes),
    ensures
        body_bytes(spec_decode_body(dt, bytes).unwrap()) == bytes,
        body_data_type(spec_decode_body(dt, bytes).unwrap()) == dt,
{
    lemma2_to64();
    let b = spec_decode_body(dt, bytes).unwrap();
    match b {
        BodyView::BitArray(v) => {
            let n = bytes.len() as int / 2;
            lemma_flat_u16(v, 0);
            assert forall|i: int| 0 <= i < n implies chunk(body_bytes(b), 2, i) == chunk(
                bytes,
                2,
                i,
            ) by {
                lemma_chunk_len(bytes, 2, i);
                lemma_flat_u16(v, i);
                lemma_be_uint_bound(chunk(bytes, 2, i));
                lemma_be_bytes_of_uint(chunk(bytes, 2, i));
            }
            lemma_chunk_len(bytes, 2, 0);
            lemma_chunks_equal(body_bytes(b), bytes, 2, n);
        },
        BodyView::TwoByteSignedInt(v) => {
            let n = bytes.len() as int / 2;
            lemma_flat_i16(v, 0);
            assert forall|i: int| 0 <= i < n implies chunk(body_bytes(b), 2, i) == chunk(
                bytes,
                2,
                i,
            ) by {
                lemma_chunk_len(bytes, 2, i);
                lemma_flat_i16(v, i);
                lemma_be_sbytes_of_sint(chunk(bytes, 2, i));
            }
            lemma_chunk_len(bytes, 2, 0);
            lemma_chunks_equal(body_bytes(b), bytes, 2, n);
        },
        BodyView::FourByteSignedInt(v) => {
            let n = bytes.len() as int / 4;
            lemma_flat_i32(v, 0);
            assert forall|i: int| 0 <= i < n implies chunk(body_bytes(b), 4, i) == chunk(
                bytes,
                4,
                i,
            ) by {
                lemma_chunk_len(bytes, 4, i);
                lemma_flat_i32(v, i);
                lemma_be_sbytes_of_sint(chunk(bytes, 4, i));
            }
            lemma_chunk_len(bytes, 4, 0);
            lemma_chunks_equal(body_bytes(b), bytes, 4, n);
        },
        BodyView::FourByteReal(v) => {
            let n = bytes.len() as int / 4;
            assert forall|i: int| 0 <= i < v.len() implies #[trigger] v[i].len() == 4 by {
                lemma_chunk_len(bytes, 4, i);
            }
            lemma_flatten_chunks(v, 4, 0);
            assert forall|i: int| 0 <= i < n implies chunk(body_bytes(b), 4, i) == chunk(
                bytes,
                4,
                i,
            ) by {
                lemma_flatten_chunks(v, 4, i);
            }
            lemma_chunk_len(bytes, 4, 0);
            lemma_chunks_equal(body_bytes(b), bytes, 4, n);
        },
        BodyView::EightByteReal(v) => {
            let n = bytes.len() as int / 8;
            assert forall|i: int| 0 <= i < v.len() implies #[trigger] v[i].len() == 8 by {
                lemma_chunk_len(bytes, 8, i);
            }
            lemma_flatten_chunks(v, 8, 0);
            assert forall|i: int| 0 <= i < n implies chunk(body_bytes(b), 8, i) == chunk(
                bytes,
                8,
                i,
            ) by {
                lemma_flatten_chunks(v, 8, i);
            }
            lemma_chunk_len(bytes, 8, 0);
            lemma_chunks_equal(body_bytes(b), bytes, 8, n);
        },
        BodyView::AsciiString(s) => {
            if bytes.len() > 0 && bytes.last() == 0 {
                assert(s == bytes.drop_last());
                assert(s.push(0) =~= bytes);
            } else {
                assert(s == bytes);
            }
        },
        BodyView::NoData => {
            assert(bytes =~= Seq::<u8>::empty());
        },
    }
}

/// A header read from bytes is written as those bytes.
pub proof fn lemma_header_inverse(s: Seq<u8>)
    requires
        RecordHeader::spec_parse(s) is Some,
    ensures
        RecordHeader::spec_parse(s).unwrap().spec_bytes() == s.subrange(0, 4),
{
    let h = RecordHeader::spec_parse(s).unwrap();
    lemma2_to64();
    lemma_be_uint_bound(s.subrange(0, 2));
    lemma_be_bytes_of_uint(s.subrange(0, 2));
    lemma_record_type_code(h.record_type, s[2]);
    lemma_data_type_code(h.data_type, s[3]);
    lemma_be_bytes_len(h.length as nat, 2);
    assert(h.spec_bytes() =~= s.subrange(0, 4));
}

/// Input in the writer's form, from `off`, is the bytes of the records read from it, every
/// one read without error and in its written form.
pub proof fn lemma_canonical_bytes(input: Seq<u8>, off: int)
    requires
        reads_canonically(input, off),
    ensures
        input.subrange(off, input.len() as int) == records_bytes(outs(spec_records(input, off))),
        forall|i: int|
            0 <= i < spec_records(input, off).len() ==> #[trigger] spec_records(input, off)[i] is Ok
                && in_written_form(spec_records(input, off)[i]->Ok_0),
    decreases input.len() - off,
{
    lemma_records_step(input, off);
    if off == input.len() {
        assert(spec_read_record(input, off) is None) by {
            assert(input.subrange(off, input.len() as int).len() == 0);
        }
        assert(outs(spec_records(input, off)) =~= Seq::<OutRecord>::empty());
        assert(records_bytes(Seq::<OutRecord>::empty()) =~= Seq::<u8>::empty());
        assert(input.subrange(off, input.len() as int) =~= Seq::<u8>::empty());
    } else {
        match spec_read_record(input, off) {
            Some((Ok(r), next)) => {
                let rest_in = input.subrange(off, input.len() as int);
                let h = RecordHeader::spec_parse(rest_in).unwrap();
                let body = input.subrange(off + 4, next);
                lemma_decode_inverse(h.data_type, body);
                lemma_header_inverse(rest_in);
                assert(r.header == h);
                let w = rec_out(r);
                assert(record_length(body_bytes(r.body).len()) == h.length);
                assert(in_written_form(r));
                assert(out_record_bytes(w) =~= input.subrange(off, next)) by {
                    assert(rest_in.subrange(0, 4) =~= input.subrange(off, off + 4));
                }
                lemma_canonical_bytes(input, next);
                let s = spec_records(input, off);
                let t = spec_records(input, next);
                assert(s == seq![Ok::<RecView, RecordErrorView>(r)] + t);
                assert(outs(s).len() > 0);
                assert(outs(s)[0] == w);
                assert(outs(s).drop_first() =~= outs(t));
                lemma_records_bytes_first(outs(s));
                assert(input.subrange(off, input.len() as int) =~= input.subrange(off, next)
                    + input.subrange(next, input.len() as int));
                assert forall|i: int| 0 <= i < s.len() implies #[trigger] s[i] is Ok
                    && in_written_form(s[i]->Ok_0) by {
                    if i > 0 {
                        assert(s[i] == t[i - 1]);
                    }
                }
            },
            _ => {},
        }
    }
}

// ------------------------------------------------------------------------------------------
// Record streams in the writer's shape
// ------------------------------------------------------------------------------------------

/// Record types that carry no data.
pub open spec fn no_data_type(t: RecordType) -> bool {
    t is Boundary || t is Path || t is Sref || t is Aref || t is Text || t is Node || t is Box
        || t is Endel || t is EndStr || t is EndLib
}

/// Record types that carry one value.
pub open spec fn one_value_type(t: RecordType) -> bool {
    t is Header || t is Layer || t is Datatype || t is Pathtype || t is TextType || t is Nodetype
        || t is BoxType || t is Generations || t is Propattr || t is Width || t is Plex
        || t is BgnExtn || t is EndExtn || t is Elflags || t is Presentation || t is Strans
        || t is Mag || t is Angle
}

/// Number of values in a body.
pub open spec fn value_count(b: BodyView) -> int {
    match b {
        BodyView::NoData => 0,
        BodyView::BitArray(v) => v.len() as int,
        BodyView::TwoByteSignedInt(v) => v.len() as int,
        BodyView::FourByteSignedInt(v) => v.len() as int,
        BodyView::FourByteReal(v) => v.len() as int,
        BodyView::EightByteReal(v) => v.len() as int,
        BodyView::AsciiString(_) => 1,
    }
}

/// A STRANS word that uses only the reflection, absolute magnification and absolute angle
/// bits.
pub open spec fn strans_word(f: u16) -> bool {
    f == 0 || f == 2 || f == 4 || f == 6 || f == 0x8000 || f == 0x8002 || f == 0x8004 || f
        == 0x8006
}

/// A record as the writer writes it: no data where its type carries none, one value where
/// its type carries one, two for COLROW and UNITS, a STRANS word of known bits only, and
/// none of the records that the parser skips (FORMAT, MASK, ENDMASKS).
pub open spec fn rec_shaped(r: RecView) -> bool {
    let t = r.header.record_type;
    &&& no_data_type(t) ==> r.body is NoData
    &&& one_value_type(t) ==> value_count(r.body) == 1
    &&& (t is Colrow || t is Units) ==> value_count(r.body) == 2
    &&& (t is Strans && r.body is BitArray && value_count(r.body) == 1) ==> strans_word(
        r.body->BitArray_0[0],
    )
    &&& !(t is Format || t is Mask || t is EndMasks)
}

/// Rank of an optional library record in the order the writer writes them.
pub open spec fn option_rank(t: RecordType) -> int {
    if t is Reflibs {
        0
    } else if t is Fonts {
        1
    } else if t is Attrtable {
        2
    } else if t is Generations {
        3
    } else {
        -1
    }
}

/// Two records in a row as the writer writes them: an XY record is followed by another
/// only when it is full and the next is not empty, and optional library records come in
/// order, each at most once.
pub open spec fn follows_shaped(a: RecView, b: RecView) -> bool {
    &&& (a.header.record_type is Xy && b.header.record_type is Xy) ==> value_count(a.body)
        == xy_chunk() && value_count(b.body) > 0
    &&& (option_rank(a.header.record_type) >= 0 && option_rank(b.header.record_type) >= 0)
        ==> option_rank(a.header.record_type) < option_rank(b.header.record_type)
}

/// Every record of the stream, and every two records in a row, are as the writer writes
/// them.
pub open spec fn records_shaped(s: RecordStream) -> bool
    decreases s.len(),
{
    s.len() == 0 || (s[0] is Ok && rec_shaped(s[0]->Ok_0) && (s.len() > 1 ==> s[1] is Ok
        && follows_shaped(s[0]->Ok_0, s[1]->Ok_0)) && records_shaped(s.drop_first()))
}

/// A record read, in its written form, shaped, and as the reader gives it.
spec fn rec_good(r: RecView) -> bool {
    in_written_form(r) && rec_shaped(r) && body_ok(r.body)
}

/// Records all good, every two in a row shaped.
spec fn good(s: RecordStream) -> bool
    decreases s.len(),
{
    s.len() == 0 || (s[0] is Ok && rec_good(s[0]->Ok_0) && (s.len() > 1 ==> s[1] is Ok
        && follows_shaped(s[0]->Ok_0, s[1]->Ok_0)) && good(s.drop_first()))
}

proof fn lemma_good_of(s: RecordStream)
    requires
        records_shaped(s),
        stream_ok(s),
        forall|i: int| 0 <= i < s.len() ==> #[trigger] s[i] is Ok && in_written_form(s[i]->Ok_0),
    ensures
        good(s),
    decreases s.len(),
{
    if s.len() > 0 {
        let t = s.drop_first();
        assert(s[0] is Ok);
        assert forall|i: int| 0 <= i < t.len() implies #[trigger] t[i] is Ok && in_written_form(
            t[i]->Ok_0,
        ) by {
            assert(t[i] == s[i + 1]);
        }
        assert(stream_ok(t)) by {
            assert forall|i: int| 0 <= i < t.len() && #[trigger] t[i] is Ok implies body_ok(
                t[i]->Ok_0.body,
            ) by {
                assert(t[i] == s[i + 1]);
            }
        }
        lemma_good_of(t);
    }
}

proof fn lemma_good_stream_ok(s: RecordStream)
    requires
        good(s),
    ensures
        stream_ok(s),
    decreases s.len(),
{
    if s.len() > 0 {
        lemma_good_stream_ok(s.drop_first());
        assert forall|i: int| 0 <= i < s.len() && #[trigger] s[i] is Ok implies body_ok(
            s[i]->Ok_0.body,
        ) by {
            if i > 0 {
                assert(s[i] == s.drop_first()[i - 1]);
            }
        }
    }
}

// ------------------------------------------------------------------------------------------
// Each step of the grammar, on shaped records, read back what the writer writes
// ------------------------------------------------------------------------------------------

proof fn lemma_w_next(s: RecordStream, context: &'static str)
    requires
        good(s),
    ensures
        sp_next(s, context) matches Ok((r, rest)) ==> rec_good(r) && good(rest) && s == seq![
            Ok::<RecView, RecordErrorView>(r),
        ] + rest && (rest.len() > 0 ==> rest[0] is Ok && follows_shaped(r, rest[0]->Ok_0)),
{
    if s.len() > 0 {
        assert(s =~= seq![s[0]] + s.drop_first());
    }
}

proof fn lemma_w_one(r: RecView, t: RecordType, b: BodyView, u: RecordStream)
    requires
        in_written_form(r),
        r.header.record_type == t,
        r.body == b,
    ensures
        seq![Ok::<RecView, RecordErrorView>(r)] + u == stream_of(one(t, b)) + u,
{
    lemma_one(t, b, u);
}

proof fn lemma_w_req_i16(s: RecordStream, t: RecordType, context: &'static str)
    requires
        good(s),
        one_value_type(t),
    ensures
        sp_req_i16(s, t, context) matches Ok((v, rest)) ==> good(rest) && s == stream_of(
            one(t, BodyView::TwoByteSignedInt(seq![v])),
        ) + rest,
{
    lemma_w_next(s, context);
    match sp_req_i16(s, t, context) {
        Ok((v, rest)) => {
            let r = s[0]->Ok_0;
            assert(r.body->TwoByteSignedInt_0 =~= seq![v]);
            lemma_w_one(r, t, BodyView::TwoByteSignedInt(seq![v]), rest);
        },
        Err(_) => {},
    }
}

proof fn lemma_w_req_str(s: RecordStream, t: RecordType, context: &'static str)
    requires
        good(s),
    ensures
        sp_req_str(s, t, context) matches Ok((v, rest)) ==> good(rest) && s == stream_of(
            one(t, BodyView::AsciiString(v)),
        ) + rest,
{
    lemma_w_next(s, context);
    match sp_req_str(s, t, context) {
        Ok((v, rest)) => lemma_w_one(s[0]->Ok_0, t, BodyView::AsciiString(v), rest),
        Err(_) => {},
    }
}

proof fn lemma_w_absent(s: RecordStream)
    ensures
        stream_of(Seq::<OutRecord>::empty()) + s == s,
{
    lemma_empty_front(s);
}

proof fn lemma_w_opt_i16(s: RecordStream, t: RecordType)
    requires
        good(s),
        one_value_type(t),
    ensures
        sp_opt_i16(s, t) matches Ok((o, rest)) ==> good(rest) && s == stream_of(opt_i16(t, o))
            + rest,
{
    lemma_w_next(s, "");
    lemma_w_absent(s);
    match sp_opt_i16(s, t) {
        Ok((Some(v), rest)) => {
            let r = s[0]->Ok_0;
            assert(r.body->TwoByteSignedInt_0 =~= seq![v]);
            lemma_w_one(r, t, BodyView::TwoByteSignedInt(seq![v]), rest);
        },
        _ => {},
    }
}

proof fn lemma_w_opt_i32(s: RecordStream, t: RecordType)
    requires
        good(s),
        one_value_type(t),
    ensures
        sp_opt_i32(s, t) matches Ok((o, rest)) ==> good(rest) && s == stream_of(opt_i32(t, o))
            + rest,
{
    lemma_w_next(s, "");
    lemma_w_absent(s);
    match sp_opt_i32(s, t) {
        Ok((Some(v), rest)) => {
            let r = s[0]->Ok_0;
            assert(r.body->FourByteSignedInt_0 =~= seq![v]);
            lemma_w_one(r, t, BodyView::FourByteSignedInt(seq![v]), rest);
        },
        _ => {},
    }
}

proof fn lemma_w_opt_u16(s: RecordStream, t: RecordType)
    requires
        good(s),
        one_value_type(t),
    ensures
        sp_opt_u16(s, t) matches Ok((o, rest)) ==> good(rest) && s == stream_of(opt_u16(t, o))
            + rest,
{
    lemma_w_next(s, "");
    lemma_w_absent(s);
    match sp_opt_u16(s, t) {
        Ok((Some(v), rest)) => {
            let r = s[0]->Ok_0;
            assert(r.body->BitArray_0 =~= seq![v]);
            lemma_w_one(r, t, BodyView::BitArray(seq![v]), rest);
        },
        _ => {},
    }
}

proof fn lemma_w_opt_real(s: RecordStream, t: RecordType)
    requires
        good(s),
        one_value_type(t),
    ensures
        sp_opt_real(s, t) matches Ok((o, rest)) ==> good(rest) && s == stream_of(opt_real(t, o))
            + rest,
{
    lemma_w_next(s, "");
    lemma_w_absent(s);
    match sp_opt_real(s, t) {
        Ok((Some(v), rest)) => {
            let r = s[0]->Ok_0;
            assert(r.body->EightByteReal_0 =~= seq![v]);
            lemma_w_one(r, t, BodyView::EightByteReal(seq![v]), rest);
        },
        _ => {},
    }
}

proof fn lemma_w_elflags_plex(s: RecordStream)
    requires
        good(s),
    ensures
        sp_elflags_plex(s) matches Ok(((e, p), rest)) ==> good(rest) && s == stream_of(
            elflags_plex_records(e, p),
        ) + rest,
{
    lemma_w_opt_u16(s, RecordType::Elflags);
    match sp_opt_u16(s, RecordType::Elflags) {
        Ok((e, s1)) => {
            lemma_w_opt_i32(s1, RecordType::Plex);
            match sp_opt_i32(s1, RecordType::Plex) {
                Ok((p, s2)) => lemma_stream_split(
                    opt_u16(RecordType::Elflags, e),
                    opt_i32(RecordType::Plex, p),
                    s2,
                ),
                Err(_) => {},
            }
        },
        Err(_) => {},
    }
}

/// A STRANS word of known bits only is the word of the transformation it stands for.
pub proof fn lemma_strans_word(f: u16, mag: Option<Seq<u8>>, angle: Option<Seq<u8>>)
    requires
        strans_word(f),
    ensures
        strans_flags(strans_of(f, mag, angle)) == f,
{
}

proof fn lemma_w_strans(s: RecordStream)
    requires
        good(s),
    ensures
        sp_strans(s) matches Ok((o, rest)) ==> good(rest) && s == stream_of(strans_records(o))
            + rest,
{
    lemma_w_next(s, "");
    lemma_w_absent(s);
    match sp_try(s, RecordType::Strans) {
        Ok((Some(r), s1)) => match crate::parser::body_u16(r.body, RecordType::Strans) {
            Ok(f) => {
                lemma_w_opt_real(s1, RecordType::Mag);
                match sp_opt_real(s1, RecordType::Mag) {
                    Ok((mag, s2)) => {
                        lemma_w_opt_real(s2, RecordType::Angle);
                        match sp_opt_real(s2, RecordType::Angle) {
                            Ok((angle, s3)) => {
                                lemma_strans_word(f, mag, angle);
                                let st = strans_of(f, mag, angle);
                                let w = one(RecordType::Strans, BodyView::BitArray(seq![f]));
                                assert(r.body->BitArray_0 =~= seq![f]);
                                lemma_w_one(r, RecordType::Strans, BodyView::BitArray(seq![f]), s1);
                                lemma_stream_split(w + opt_real(RecordType::Mag, mag), opt_real(RecordType::Angle, angle), s3);
                                lemma_stream_split(w, opt_real(RecordType::Mag, mag), stream_of(opt_real(RecordType::Angle, angle)) + s3);
                                assert(strans_records(Some(st)) == w + opt_real(RecordType::Mag, mag) + opt_real(RecordType::Angle, angle));
                            },
                            Err(_) => {},
                        }
                    },
                    Err(_) => {},
                }
            },
            Err(_) => {},
        },
        _ => {},
    }
}

/// More XY records after the first, each accumulating onto a longer list, give that list
/// in front of what they give alone.
proof fn lemma_more_xy_append(s: RecordStream, a: Seq<i32>, b: Seq<i32>)
    ensures
        sp_more_xy(s, a + b) == match sp_more_xy(s, b) {
            Ok((x, r)) => Ok::<_, ParseErrorView>((a + x, r)),
            Err(e) => Err(e),
        },
        sp_more_xy(s, b) matches Ok((x, _)) ==> x.len() >= b.len(),
    decreases s.len(),
{
    if s.len() > 0 && s[0] is Ok && s[0]->Ok_0.header.record_type == RecordType::Xy {
        match crate::parser::body_i32s(s[0]->Ok_0.body, RecordType::Xy) {
            Ok(v) => {
                lemma_more_xy_append(s.drop_first(), a, b + v);
                assert(a + b + v =~= a + (b + v));
            },
            Err(_) => {},
        }
    }
}

proof fn lemma_w_run(s: RecordStream)
    requires
        good(s),
        s.len() > 0,
        s[0] is Ok,
        s[0]->Ok_0.header.record_type == RecordType::Xy,
        s[0]->Ok_0.body is FourByteSignedInt,
    ensures
        sp_more_xy(s.drop_first(), s[0]->Ok_0.body->FourByteSignedInt_0) matches Ok((xy, rest))
            ==> good(rest) && s == stream_of(xy_records(xy, true)) + rest,
    decreases s.len(),
{
    let r = s[0]->Ok_0;
    let v = r.body->FourByteSignedInt_0;
    let t = s.drop_first();
    assert(s =~= seq![s[0]] + t);
    if t.len() > 0 && t[0] is Ok && t[0]->Ok_0.header.record_type == RecordType::Xy
        && t[0]->Ok_0.body is FourByteSignedInt {
        let v2 = t[0]->Ok_0.body->FourByteSignedInt_0;
        lemma_w_run(t);
        lemma_more_xy_append(t.drop_first(), v, v2);
        match sp_more_xy(t.drop_first(), v2) {
            Ok((xy2, rest)) => {
                let xy = v + xy2;
                let k = xy_chunk() as int;
                assert(xy.take(k) =~= v);
                assert(xy.skip(k) =~= xy2);
                lemma_w_one(r, RecordType::Xy, BodyView::FourByteSignedInt(v), t);
                lemma_stream_split(
                    one(RecordType::Xy, BodyView::FourByteSignedInt(v)),
                    xy_records(xy2, true),
                    rest,
                );
            },
            Err(_) => {},
        }
    } else {
        lemma_w_one(r, RecordType::Xy, BodyView::FourByteSignedInt(v), t);
        assert(sp_more_xy(t, v) matches Ok((xy, rest)) ==> xy == v && rest == t);
    }
}

proof fn lemma_w_xy(s: RecordStream, context: &'static str)
    requires
        good(s),
    ensures
        sp_xy(s, context) matches Ok((xy, rest)) ==> good(rest) && s == stream_of(
            xy_records(xy, true),
        ) + rest,
{
    lemma_w_next(s, context);
    if sp_xy(s, context) is Ok {
        lemma_w_run(s);
    }
}

proof fn lemma_w_colrow(s: RecordStream)
    requires
        good(s),
    ensures
        sp_colrow(s) matches Ok((c, rest)) ==> good(rest) && s == stream_of(
            one(RecordType::Colrow, BodyView::TwoByteSignedInt(seq![c.0, c.1])),
        ) + rest,
{
    lemma_w_next(s, "Aref");
    match sp_colrow(s) {
        Ok((c, rest)) => {
            let r = s[0]->Ok_0;
            assert(r.body->TwoByteSignedInt_0 =~= seq![c.0, c.1]);
            lemma_w_one(r, RecordType::Colrow, BodyView::TwoByteSignedInt(seq![c.0, c.1]), rest);
        },
        Err(_) => {},
    }
}

/// What follows an element's records, by the state the element ends in.
pub open spec fn after_element(st: ParseState, rest: RecordStream) -> RecordStream {
    if st is Structure {
        seq![Ok::<RecView, RecordErrorView>(rv(RecordType::Endel, BodyView::NoData))] + rest
    } else {
        rest
    }
}

proof fn lemma_w_finish(s: RecordStream)
    requires
        good(s),
    ensures
        sp_finish(s) matches Ok((rest, st)) ==> good(rest) && s == after_element(st, rest)
            && (st is Structure || st is Properties),
{
    lemma_w_next(s, "element end");
    match sp_next(s, "element end") {
        Ok((r, rest)) => {
            if r.header.record_type == RecordType::Endel {
                lemma_w_one(r, RecordType::Endel, BodyView::NoData, rest);
                lemma_one(RecordType::Endel, BodyView::NoData, rest);
            }
        },
        Err(_) => {},
    }
}

#[verifier::spinoff_prover]
proof fn lemma_w_boundary(s: RecordStream)
    requires
        good(s),
    ensures
        sp_boundary(s) matches Ok((ev, rest, st)) ==> ev is Element && good(rest) && (st is Structure
            || st is Properties) && seq![
            Ok::<RecView, RecordErrorView>(rv(RecordType::Boundary, BodyView::NoData)),
        ] + s == stream_of(element_records(ev->Element_0, true)) + after_element(st, rest),
{
    reveal(sp_boundary);
    lemma_w_elflags_plex(s);
    match sp_elflags_plex(s) {
        Ok(((elflags, plex), s1)) => {
            lemma_w_req_i16(s1, RecordType::Layer, "Boundary");
            match sp_req_i16(s1, RecordType::Layer, "Boundary") {
                Ok((layer, s2)) => {
                    lemma_w_req_i16(s2, RecordType::Datatype, "Boundary");
                    match sp_req_i16(s2, RecordType::Datatype, "Boundary") {
                        Ok((datatype, s3)) => {
                            lemma_w_xy(s3, "Boundary");
                            match sp_xy(s3, "Boundary") {
                                Ok((xy, s4)) => {
                                    lemma_w_finish(s4);
                                    match sp_finish(s4) {
                                        Ok((rest, st)) => {
                                            let u = after_element(st, rest);
                                            let o = one(RecordType::Boundary, BodyView::NoData);
                                            let r1 = elflags_plex_records(elflags, plex);
                                            let r2 = one(RecordType::Layer, BodyView::TwoByteSignedInt(seq![layer]));
                                            let r3 = one(RecordType::Datatype, BodyView::TwoByteSignedInt(seq![datatype]));
                                            let r4 = xy_records(xy, true);
                                            let t4 = stream_of(r4) + u;
                                            let t3 = stream_of(r3) + t4;
                                            let t2 = stream_of(r2) + t3;
                                            let t1 = stream_of(r1) + t2;
                                            lemma_stream_split(o + r1 + r2 + r3, r4, u);
                                            lemma_stream_split(o + r1 + r2, r3, t4);
                                            lemma_stream_split(o + r1, r2, t3);
                                            lemma_stream_split(o, r1, t2);
                                            lemma_one(RecordType::Boundary, BodyView::NoData, t1);
                                        },
                                        Err(_) => {},
                                    }
                                },
                                Err(_) => {},
                            }
                        },
                        Err(_) => {},
                    }
                },
                Err(_) => {},
            }
        },
        Err(_) => {},
    }
}

#[verifier::spinoff_prover]
proof fn lemma_w_path(s: RecordStream)
    requires
        good(s),
    ensures
        sp_path(s) matches Ok((ev, rest, st)) ==> ev is Element && good(rest) && (st is Structure
            || st is Properties) && seq![
            Ok::<RecView, RecordErrorView>(rv(RecordType::Path, BodyView::NoData)),
        ] + s == stream_of(element_records(ev->Element_0, true)) + after_element(st, rest),
{
    reveal(sp_path);
    lemma_w_elflags_plex(s);
    match sp_elflags_plex(s) {
        Ok(((elflags, plex), s1)) => {
            lemma_w_req_i16(s1, RecordType::Layer, "Path");
            match sp_req_i16(s1, RecordType::Layer, "Path") {
                Ok((layer, s2)) => {
                    lemma_w_req_i16(s2, RecordType::Datatype, "Path");
                    match sp_req_i16(s2, RecordType::Datatype, "Path") {
                        Ok((datatype, s3)) => {
                            lemma_w_opt_i16(s3, RecordType::Pathtype);
                            match sp_opt_i16(s3, RecordType::Pathtype) {
                                Ok((pathtype, s4)) => {
                                    lemma_w_opt_i32(s4, RecordType::Width);
                                    match sp_opt_i32(s4, RecordType::Width) {
                                        Ok((width, s5)) => {
                                            lemma_w_opt_i32(s5, RecordType::BgnExtn);
                                            match sp_opt_i32(s5, RecordType::BgnExtn) {
                                                Ok((bgn_extn, s6)) => {
                                                    lemma_w_opt_i32(s6, RecordType::EndExtn);
                                                    match sp_opt_i32(s6, RecordType::EndExtn) {
                                                        Ok((end_extn, s7)) => {
                                                            lemma_w_xy(s7, "Path");
                                                            match sp_xy(s7, "Path") {
                                                                Ok((xy, s8)) => {
                                                                    lemma_w_finish(s8);
                                                                    match sp_finish(s8) {
                                                                        Ok((rest, st)) => {
                                                                            let u = after_element(st, rest);
                                                                            let o = one(RecordType::Path, BodyView::NoData);
                                                                            let r1 = elflags_plex_records(elflags, plex);
                                                                            let r2 = one(RecordType::Layer, BodyView::TwoByteSignedInt(seq![layer]));
                                                                            let r3 = one(RecordType::Datatype, BodyView::TwoByteSignedInt(seq![datatype]));
                                                                            let r4 = opt_i16(RecordType::Pathtype, pathtype);
                                                                            let r5 = opt_i32(RecordType::Width, width);
                                                                            let r6 = opt_i32(RecordType::BgnExtn, bgn_extn);
                                                                            let r7 = opt_i32(RecordType::EndExtn, end_extn);
                                                                            let r8 = xy_records(xy, true);
                                                                            let t8 = stream_of(r8) + u;
                                                                            let t7 = stream_of(r7) + t8;
                                                                            let t6 = stream_of(r6) + t7;
                                                                            let t5 = stream_of(r5) + t6;
                                                                            let t4 = stream_of(r4) + t5;
                                                                            let t3 = stream_of(r3) + t4;
                                                                            let t2 = stream_of(r2) + t3;
                                                                            let t1 = stream_of(r1) + t2;
                                                                            lemma_stream_split(o + r1 + r2 + r3 + r4 + r5 + r6 + r7, r8, u);
                                                                            lemma_stream_split(o + r1 + r2 + r3 + r4 + r5 + r6, r7, t8);
                                                                            lemma_stream_split(o + r1 + r2 + r3 + r4 + r5, r6, t7);
                                                                            lemma_stream_split(o + r1 + r2 + r3 + r4, r5, t6);
                                                                            lemma_stream_split(o + r1 + r2 + r3, r4, t5);
                                                                            lemma_stream_split(o + r1 + r2, r3, t4);
                                                                            lemma_stream_split(o + r1, r2, t3);
                                                                            lemma_stream_split(o, r1, t2);
                                                                            lemma_one(RecordType::Path, BodyView::NoData, t1);
                                                                        },
                                                                        Err(_) => {},
                                                                    }
                                                                },
                                                                Err(_) => {},
                                                            }
                                                        },
                                                        Err(_) => {},
                                                    }
                                                },
                                                Err(_) => {},
                                            }
                                        },
                                        Err(_) => {},
                                    }
                                },
                                Err(_) => {},
                            }
                        },
                        Err(_) => {},
                    }
                },
                Err(_) => {},
            }
        },
        Err(_) => {},
    }
}

#[verifier::spinoff_prover]
proof fn lemma_w_sref(s: RecordStream)
    requires
        good(s),
    ensures
        sp_sref(s) matches Ok((ev, rest, st)) ==> ev is Element && good(rest) && (st is Structure
            || st is Properties) && seq![
            Ok::<RecView, RecordErrorView>(rv(RecordType::Sref, BodyView::NoData)),
        ] + s == stream_of(element_records(ev->Element_0, true)) + after_element(st, rest),
{
    reveal(sp_sref);
    lemma_w_elflags_plex(s);
    match sp_elflags_plex(s) {
        Ok(((elflags, plex), s1)) => {
            lemma_w_req_str(s1, RecordType::Sname, "Sref");
            match sp_req_str(s1, RecordType::Sname, "Sref") {
                Ok((sname, s2)) => {
                    lemma_w_strans(s2);
                    match sp_strans(s2) {
                        Ok((strans, s3)) => {
                            lemma_w_xy(s3, "Sref");
                            match sp_xy(s3, "Sref") {
                                Ok((xy, s4)) => {
                                    lemma_w_finish(s4);
                                    match sp_finish(s4) {
                                        Ok((rest, st)) => {
                                            let u = after_element(st, rest);
                                            let o = one(RecordType::Sref, BodyView::NoData);
                                            let r1 = elflags_plex_records(elflags, plex);
                                            let r2 = one(RecordType::Sname, BodyView::AsciiString(sname));
                                            let r3 = strans_records(strans);
                                            let r4 = xy_records(xy, true);
                                            let t4 = stream_of(r4) + u;
                                            let t3 = stream_of(r3) + t4;
                                            let t2 = stream_of(r2) + t3;
                                            let t1 = stream_of(r1) + t2;
                                            lemma_stream_split(o + r1 + r2 + r3, r4, u);
                                            lemma_stream_split(o + r1 + r2, r3, t4);
                                            lemma_stream_split(o + r1, r2, t3);
                                            lemma_stream_split(o, r1, t2);
                                            lemma_one(RecordType::Sref, BodyView::NoData, t1);
                                        },
                                        Err(_) => {},
                                    }
                                },
                                Err(_) => {},
                            }
                        },
                        Err(_) => {},
                    }
                },
                Err(_) => {},
            }
        },
        Err(_) => {},
    }
}

#[verifier::spinoff_prover]
proof fn lemma_w_aref(s: RecordStream)
    requires
        good(s),
    ensures
        sp_aref(s) matches Ok((ev, rest, st)) ==> ev is Element && good(rest) && (st is Structure
            || st is Properties) && seq![
            Ok::<RecView, RecordErrorView>(rv(RecordType::Aref, BodyView::NoData)),
        ] + s == stream_of(element_records(ev->Element_0, true)) + after_element(st, rest),
{
    reveal(sp_aref);
    lemma_w_elflags_plex(s);
    match sp_elflags_plex(s) {
        Ok(((elflags, plex), s1)) => {
            lemma_w_req_str(s1, RecordType::Sname, "Aref");
            match sp_req_str(s1, RecordType::Sname, "Aref") {
                Ok((sname, s2)) => {
                    lemma_w_strans(s2);
                    match sp_strans(s2) {
                        Ok((strans, s3)) => {
                            lemma_w_colrow(s3);
                            match sp_colrow(s3) {
                                Ok((colrow, s4)) => {
                                    lemma_w_xy(s4, "Aref");
                                    match sp_xy(s4, "Aref") {
                                        Ok((xy, s5)) => {
                                            lemma_w_finish(s5);
                                            match sp_finish(s5) {
                                                Ok((rest, st)) => {
                                                    let u = after_element(st, rest);
                                                    let o = one(RecordType::Aref, BodyView::NoData);
                                                    let r1 = elflags_plex_records(elflags, plex);
                                                    let r2 = one(RecordType::Sname, BodyView::AsciiString(sname));
                                                    let r3 = strans_records(strans);
                                                    let r4 = one(RecordType::Colrow, BodyView::TwoByteSignedInt(seq![colrow.0, colrow.1]));
                                                    let r5 = xy_records(xy, true);
                                                    let t5 = stream_of(r5) + u;
                                                    let t4 = stream_of(r4) + t5;
                                                    let t3 = stream_of(r3) + t4;
                                                    let t2 = stream_of(r2) + t3;
                                                    let t1 = stream_of(r1) + t2;
                                                    lemma_stream_split(o + r1 + r2 + r3 + r4, r5, u);
                                                    lemma_stream_split(o + r1 + r2 + r3, r4, t5);
                                                    lemma_stream_split(o + r1 + r2, r3, t4);
                                                    lemma_stream_split(o + r1, r2, t3);
                                                    lemma_stream_split(o, r1, t2);
                                                    lemma_one(RecordType::Aref, BodyView::NoData, t1);
                                                },
                                                Err(_) => {},
                                            }
                                        },
                                        Err(_) => {},
                                    }
                                },
                                Err(_) => {},
                            }
                        },
                        Err(_) => {},
                    }
                },
                Err(_) => {},
            }
        },
        Err(_) => {},
    }
}

#[verifier::spinoff_prover]
proof fn lemma_w_text(s: RecordStream)
    requires
        good(s),
    ensures
        sp_text(s) matches Ok((ev, rest, st)) ==> ev is Element && good(rest) && (st is Structure
            || st is Properties) && seq![
            Ok::<RecView, RecordErrorView>(rv(RecordType::Text, BodyView::NoData)),
        ] + s == stream_of(element_records(ev->Element_0, true)) + after_element(st, rest),
{
    reveal(sp_text);
    lemma_w_elflags_plex(s);
    match sp_elflags_plex(s) {
        Ok(((elflags, plex), s1)) => {
            lemma_w_req_i16(s1, RecordType::Layer, "Text");
            match sp_req_i16(s1, RecordType::Layer, "Text") {
                Ok((layer, s2)) => {
                    lemma_w_req_i16(s2, RecordType::TextType, "Text");
                    match sp_req_i16(s2, RecordType::TextType, "Text") {
                        Ok((texttype, s3)) => {
                            lemma_w_opt_u16(s3, RecordType::Presentation);
                            match sp_opt_u16(s3, RecordType::Presentation) {
                                Ok((presentation, s4)) => {
                                    lemma_w_opt_i16(s4, RecordType::Pathtype);
                                    match sp_opt_i16(s4, RecordType::Pathtype) {
                                        Ok((pathtype, s5)) => {
                                            lemma_w_opt_i32(s5, RecordType::Width);
                                            match sp_opt_i32(s5, RecordType::Width) {
                                                Ok((width, s6)) => {
                                                    lemma_w_strans(s6);
                                                    match sp_strans(s6) {
                                                        Ok((strans, s7)) => {
                                                            lemma_w_xy(s7, "Text");
                                                            match sp_xy(s7, "Text") {
                                                                Ok((xy, s8)) => {
                                                                    lemma_w_req_str(s8, RecordType::String, "Text");
                                                                    match sp_req_str(s8, RecordType::String, "Text") {
                                                                        Ok((string, s9)) => {
                                                                            lemma_w_finish(s9);
                                                                            match sp_finish(s9) {
                                                                                Ok((rest, st)) => {
                                                                                    let u = after_element(st, rest);
                                                                                    let o = one(RecordType::Text, BodyView::NoData);
                                                                                    let r1 = elflags_plex_records(elflags, plex);
                                                                                    let r2 = one(RecordType::Layer, BodyView::TwoByteSignedInt(seq![layer]));
                                                                                    let r3 = one(RecordType::TextType, BodyView::TwoByteSignedInt(seq![texttype]));
                                                                                    let r4 = opt_u16(RecordType::Presentation, presentation);
                                                                                    let r5 = opt_i16(RecordType::Pathtype, pathtype);
                                                                                    let r6 = opt_i32(RecordType::Width, width);
                                                                                    let r7 = strans_records(strans);
                                                                                    let r8 = xy_records(xy, true);
                                                                                    let r9 = one(RecordType::String, BodyView::AsciiString(string));
                                                                                    let t9 = stream_of(r9) + u;
                                                                                    let t8 = stream_of(r8) + t9;
                                                                                    let t7 = stream_of(r7) + t8;
                                                                                    let t6 = stream_of(r6) + t7;
                                                                                    let t5 = stream_of(r5) + t6;
                                                                                    let t4 = stream_of(r4) + t5;
                                                                                    let t3 = stream_of(r3) + t4;
                                                                                    let t2 = stream_of(r2) + t3;
                                                                                    let t1 = stream_of(r1) + t2;
                                                                                    lemma_stream_split(o + r1 + r2 + r3 + r4 + r5 + r6 + r7 + r8, r9, u);
                                                                                    lemma_stream_split(o + r1 + r2 + r3 + r4 + r5 + r6 + r7, r8, t9);
                                                                                    lemma_stream_split(o + r1 + r2 + r3 + r4 + r5 + r6, r7, t8);
                                                                                    lemma_stream_split(o + r1 + r2 + r3 + r4 + r5, r6, t7);
                                                                                    lemma_stream_split(o + r1 + r2 + r3 + r4, r5, t6);
                                                                                    lemma_stream_split(o + r1 + r2 + r3, r4, t5);
                                                                                    lemma_stream_split(o + r1 + r2, r3, t4);
                                                                                    lemma_stream_split(o + r1, r2, t3);
                                                                                    lemma_stream_split(o, r1, t2);
                                                                                    lemma_one(RecordType::Text, BodyView::NoData, t1);
                                                                                },
                                                                                Err(_) => {},
                                                                            }
                                                                        },
                                                                        Err(_) => {},
                                                                    }
                                                                },
                                                                Err(_) => {},
                                                            }
                                                        },
                                                        Err(_) => {},
                                                    }
                                                },
                                                Err(_) => {},
                                            }
                                        },
                                        Err(_) => {},
                                    }
                                },
                                Err(_) => {},
                            }
                        },
                        Err(_) => {},
                    }
                },
                Err(_) => {},
            }
        },
        Err(_) => {},
    }
}

#[verifier::spinoff_prover]
proof fn lemma_w_node(s: RecordStream)
    requires
        good(s),
    ensures
        sp_node(s) matches Ok((ev, rest, st)) ==> ev is Element && good(rest) && (st is Structure
            || st is Properties) && seq![
            Ok::<RecView, RecordErrorView>(rv(RecordType::Node, BodyView::NoData)),
        ] + s == stream_of(element_records(ev->Element_0, true)) + after_element(st, rest),
{
    reveal(sp_node);
    lemma_w_elflags_plex(s);
    match sp_elflags_plex(s) {
        Ok(((elflags, plex), s1)) => {
            lemma_w_req_i16(s1, RecordType::Layer, "Node");
            match sp_req_i16(s1, RecordType::Layer, "Node") {
                Ok((layer, s2)) => {
                    lemma_w_req_i16(s2, RecordType::Nodetype, "Node");
                    match sp_req_i16(s2, RecordType::Nodetype, "Node") {
                        Ok((nodetype, s3)) => {
                            lemma_w_xy(s3, "Node");
                            match sp_xy(s3, "Node") {
                                Ok((xy, s4)) => {
                                    lemma_w_finish(s4);
                                    match sp_finish(s4) {
                                        Ok((rest, st)) => {
                                            let u = after_element(st, rest);
                                            let o = one(RecordType::Node, BodyView::NoData);
                                            let r1 = elflags_plex_records(elflags, plex);
                                            let r2 = one(RecordType::Layer, BodyView::TwoByteSignedInt(seq![layer]));
                                            let r3 = one(RecordType::Nodetype, BodyView::TwoByteSignedInt(seq![nodetype]));
                                            let r4 = xy_records(xy, true);
                                            let t4 = stream_of(r4) + u;
                                            let t3 = stream_of(r3) + t4;
                                            let t2 = stream_of(r2) + t3;
                                            let t1 = stream_of(r1) + t2;
                                            lemma_stream_split(o + r1 + r2 + r3, r4, u);
                                            lemma_stream_split(o + r1 + r2, r3, t4);
                                            lemma_stream_split(o + r1, r2, t3);
                                            lemma_stream_split(o, r1, t2);
                                            lemma_one(RecordType::Node, BodyView::NoData, t1);
                                        },
                                        Err(_) => {},
                                    }
                                },
                                Err(_) => {},
                            }
                        },
                        Err(_) => {},
                    }
                },
                Err(_) => {},
            }
        },
        Err(_) => {},
    }
}

#[verifier::spinoff_prover]
proof fn lemma_w_gds_box(s: RecordStream)
    requires
        good(s),
    ensures
        sp_gds_box(s) matches Ok((ev, rest, st)) ==> ev is Element && good(rest) && (st is Structure
            || st is Properties) && seq![
            Ok::<RecView, RecordErrorView>(rv(RecordType::Box, BodyView::NoData)),
        ] + s == stream_of(element_records(ev->Element_0, true)) + after_element(st, rest),
{
    reveal(sp_gds_box);
    lemma_w_elflags_plex(s);
    match sp_elflags_plex(s) {
        Ok(((elflags, plex), s1)) => {
            lemma_w_req_i16(s1, RecordType::Layer, "Box");
            match sp_req_i16(s1, RecordType::Layer, "Box") {
                Ok((layer, s2)) => {
                    lemma_w_req_i16(s2, RecordType::BoxType, "Box");
                    match sp_req_i16(s2, RecordType::BoxType, "Box") {
                        Ok((boxtype, s3)) => {
                            lemma_w_xy(s3, "Box");
                            match sp_xy(s3, "Box") {
                                Ok((xy, s4)) => {
                                    lemma_w_finish(s4);
                                    match sp_finish(s4) {
                                        Ok((rest, st)) => {
                                            let u = after_element(st, rest);
                                            let o = one(RecordType::Box, BodyView::NoData);
                                            let r1 = elflags_plex_records(elflags, plex);
                                            let r2 = one(RecordType::Layer, BodyView::TwoByteSignedInt(seq![layer]));
                                            let r3 = one(RecordType::BoxType, BodyView::TwoByteSignedInt(seq![boxtype]));
                                            let r4 = xy_records(xy, true);
                                            let t4 = stream_of(r4) + u;
                                            let t3 = stream_of(r3) + t4;
                                            let t2 = stream_of(r2) + t3;
                                            let t1 = stream_of(r1) + t2;
                                            lemma_stream_split(o + r1 + r2 + r3, r4, u);
                                            lemma_stream_split(o + r1 + r2, r3, t4);
                                            lemma_stream_split(o + r1, r2, t3);
                                            lemma_stream_split(o, r1, t2);
                                            lemma_one(RecordType::Box, BodyView::NoData, t1);
                                        },
                                        Err(_) => {},
                                    }
                                },
                                Err(_) => {},
                            }
                        },
                        Err(_) => {},
                    }
                },
                Err(_) => {},
            }
        },
        Err(_) => {},
    }
}

proof fn lemma_w_structure_item(s: RecordStream)
    requires
        good(s),
    ensures
        sp_structure_item(s) matches Ok((ev, rest, st)) ==> good(rest) && ((ev is Element && (
        st is Structure || st is Properties) && s == stream_of(
            element_records(ev->Element_0, true),
        ) + after_element(st, rest)) || (ev is StructureEnd && st is Library && s == stream_of(
            one(RecordType::EndStr, BodyView::NoData),
        ) + rest)),
{
    lemma_w_next(s, "structure");
    match sp_next(s, "structure") {
        Ok((r, rest)) => {
            lemma_w_boundary(rest);
            lemma_w_path(rest);
            lemma_w_sref(rest);
            lemma_w_aref(rest);
            lemma_w_text(rest);
            lemma_w_node(rest);
            lemma_w_gds_box(rest);
            if r.header.record_type == RecordType::EndStr {
                lemma_w_one(r, RecordType::EndStr, BodyView::NoData, rest);
            }
        },
        Err(_) => {},
    }
}

proof fn lemma_w_library_item(s: RecordStream)
    requires
        good(s),
    ensures
        sp_library_item(s) matches Ok((ev, rest, st)) ==> good(rest) && ((ev is StructureBegin
            && st is Structure && s == stream_of(event_records(ev, false, true)) + rest) || (
        ev is LibraryEnd && st is Done && s == stream_of(event_records(ev, false, true)) + rest)),
{
    lemma_w_next(s, "library");
    match sp_next(s, "library") {
        Ok((r, rest)) => {
            if r.header.record_type == RecordType::BgnStr {
                lemma_w_req_str(rest, RecordType::StrName, "structure begin");
                match sp_library_item(s) {
                    Ok((ev, rest2, _)) => match ev {
                        EventView::StructureBegin { timestamps, name } => {
                            let b = one(RecordType::BgnStr, BodyView::TwoByteSignedInt(timestamps));
                            let n = one(RecordType::StrName, BodyView::AsciiString(name));
                            lemma_w_one(r, RecordType::BgnStr, BodyView::TwoByteSignedInt(timestamps), rest);
                            lemma_stream_split(b, n, rest2);
                            assert(event_records(ev, false, true) =~= b + n);
                        },
                        _ => {},
                    },
                    Err(_) => {},
                }
            } else if r.header.record_type == RecordType::EndLib {
                lemma_w_one(r, RecordType::EndLib, BodyView::NoData, rest);
                assert(event_records(EventView::LibraryEnd, false, true) =~= one(
                    RecordType::EndLib,
                    BodyView::NoData,
                ));
            }
        },
        Err(_) => {},
    }
}

proof fn lemma_w_property(s: RecordStream)
    requires
        good(s),
    ensures
        sp_property(s) matches Ok((ev, rest, st)) ==> good(rest) && ((ev is Property
            && st is Properties && s == stream_of(event_records(ev, true, true)) + rest) || (
        s.len() > 0 && s[0] == Ok::<RecView, RecordErrorView>(
            rv(RecordType::Endel, BodyView::NoData),
        ) && sp_structure_item(s.drop_first()) == sp_property(s))),
{
    lemma_w_next(s, "properties");
    match sp_next(s, "properties") {
        Ok((r, rest)) => {
            if r.header.record_type == RecordType::Propattr {
                lemma_w_req_str(rest, RecordType::Propvalue, "property value");
                match sp_property(s) {
                    Ok((ev, rest2, _)) => match ev {
                        EventView::Property { attr, value } => {
                            let a = one(RecordType::Propattr, BodyView::TwoByteSignedInt(seq![attr]));
                            let v = one(RecordType::Propvalue, BodyView::AsciiString(value));
                            assert(r.body->TwoByteSignedInt_0 =~= seq![attr]);
                            lemma_w_one(r, RecordType::Propattr, BodyView::TwoByteSignedInt(seq![attr]), rest);
                            lemma_stream_split(a, v, rest2);
                        },
                        _ => {},
                    },
                    Err(_) => {},
                }
            } else if r.header.record_type == RecordType::Endel {
                assert(r == rv(RecordType::Endel, BodyView::NoData));
                lemma_w_structure_item(rest);
            }
        },
        Err(_) => {},
    }
}

/// The optional library records from rank `k` on, in the writer's order.
spec fn options_from(
    k: int,
    reflibs: Option<Seq<u8>>,
    fonts: Option<Seq<u8>>,
    attrtable: Option<Seq<u8>>,
    generations: Option<i16>,
) -> Seq<OutRecord> {
    (if k <= 0 {
        opt_str(RecordType::Reflibs, reflibs)
    } else {
        Seq::empty()
    }) + (if k <= 1 {
        opt_str(RecordType::Fonts, fonts)
    } else {
        Seq::empty()
    }) + (if k <= 2 {
        opt_str(RecordType::Attrtable, attrtable)
    } else {
        Seq::empty()
    }) + (if k <= 3 {
        opt_i16(RecordType::Generations, generations)
    } else {
        Seq::empty()
    })
}

/// Accumulated options from rank `k` on are still absent.
spec fn absent_from(
    k: int,
    reflibs: Option<Seq<u8>>,
    fonts: Option<Seq<u8>>,
    attrtable: Option<Seq<u8>>,
    generations: Option<i16>,
) -> bool {
    (k <= 0 ==> reflibs is None) && (k <= 1 ==> fonts is None) && (k <= 2 ==> attrtable is None)
        && (k <= 3 ==> generations is None)
}

#[verifier::rlimit(30)]
proof fn lemma_w_options(
    s: RecordStream,
    k: int,
    version: i16,
    timestamps: Seq<i16>,
    lib_name: Seq<u8>,
    reflibs: Option<Seq<u8>>,
    fonts: Option<Seq<u8>>,
    attrtable: Option<Seq<u8>>,
    generations: Option<i16>,
)
    requires
        good(s),
        0 <= k <= 4,
        absent_from(k, reflibs, fonts, attrtable, generations),
        s.len() > 0 && s[0] is Ok && option_rank(s[0]->Ok_0.header.record_type) >= 0
            ==> option_rank(s[0]->Ok_0.header.record_type) >= k,
    ensures
        sp_library_options(
            s,
            version,
            timestamps,
            lib_name,
            reflibs,
            fonts,
            attrtable,
            generations,
        ) matches Ok((ev, rest, st)) ==> good(rest) && st is Library && match ev {
            EventView::LibraryBegin {
                version: v2,
                timestamps: t2,
                lib_name: l2,
                db_in_user,
                db_in_meters,
                reflibs: r2,
                fonts: f2,
                attrtable: a2,
                generations: g2,
            } => v2 == version && t2 == timestamps && l2 == lib_name && (k > 0 ==> r2 == reflibs) && (k > 1 ==> f2 == fonts) && (k > 2 ==> a2
                == attrtable) && (k > 3 ==> g2 == generations) && s == stream_of(
                options_from(k, r2, f2, a2, g2) + one(
                    RecordType::Units,
                    BodyView::EightByteReal(seq![db_in_user, db_in_meters]),
                ),
            ) + rest,
            _ => false,
        },
    decreases s.len(),
{
    lemma_w_next(s, "");
    if s.len() > 0 {
        let r = s[0]->Ok_0;
        let t = r.header.record_type;
        let rest = s.drop_first();
        assert(s =~= seq![s[0]] + rest);
        let x = Seq::<OutRecord>::empty();
        if t == RecordType::Units {
            match r.body {
                BodyView::EightByteReal(v) => {
                    assert(v =~= seq![v[0], v[1]]);
                    let u = one(RecordType::Units, BodyView::EightByteReal(seq![v[0], v[1]]));
                    lemma_w_one(r, RecordType::Units, BodyView::EightByteReal(seq![v[0], v[1]]), rest);
                    assert(options_from(k, reflibs, fonts, attrtable, generations) + u =~= u);
                },
                _ => {},
            }
        } else if t == RecordType::Reflibs || t == RecordType::Fonts || t == RecordType::Attrtable {
            match r.body {
                BodyView::AsciiString(v) => {
                    let j = option_rank(t);
                    let (r0, f0, a0) = if t == RecordType::Reflibs {
                        (Some(v), fonts, attrtable)
                    } else if t == RecordType::Fonts {
                        (reflibs, Some(v), attrtable)
                    } else {
                        (reflibs, fonts, Some(v))
                    };
                    lemma_w_options(rest, j + 1, version, timestamps, lib_name, r0, f0, a0, generations);
                    lemma_w_one(r, t, BodyView::AsciiString(v), rest);
                    match sp_library_options(s, version, timestamps, lib_name, reflibs, fonts, attrtable, generations) {
                        Ok((EventView::LibraryBegin { db_in_user, db_in_meters, reflibs: r2, fonts: f2, attrtable: a2, generations: g2, .. }, rest2, _)) => {
                            let u = one(RecordType::Units, BodyView::EightByteReal(seq![db_in_user, db_in_meters]));
                            let w = one(t, BodyView::AsciiString(v));
                            lemma_stream_split(w, options_from(j + 1, r2, f2, a2, g2) + u, rest2);
                            assert(options_from(k, r2, f2, a2, g2) + u =~= w + (options_from(j + 1, r2, f2, a2, g2) + u));
                        },
                        _ => {},
                    }
                },
                _ => {},
            }
        } else if t == RecordType::Generations {
            match r.body {
                BodyView::TwoByteSignedInt(v) => {
                    let g = v[0];
                    assert(v =~= seq![g]);
                    lemma_w_options(rest, 4, version, timestamps, lib_name, reflibs, fonts, attrtable, Some(g));
                    lemma_w_one(r, t, BodyView::TwoByteSignedInt(seq![g]), rest);
                    match sp_library_options(s, version, timestamps, lib_name, reflibs, fonts, attrtable, generations) {
                        Ok((EventView::LibraryBegin { db_in_user, db_in_meters, reflibs: r2, fonts: f2, attrtable: a2, generations: g2, .. }, rest2, _)) => {
                            let u = one(RecordType::Units, BodyView::EightByteReal(seq![db_in_user, db_in_meters]));
                            let w = one(t, BodyView::TwoByteSignedInt(seq![g]));
                            lemma_stream_split(w, options_from(4, r2, f2, a2, g2) + u, rest2);
                            assert(options_from(k, r2, f2, a2, g2) + u =~= w + (options_from(4, r2, f2, a2, g2) + u));
                        },
                        _ => {},
                    }
                },
                _ => {},
            }
        }
    }
}

#[verifier::spinoff_prover]
#[verifier::rlimit(60)]
proof fn lemma_w_library_begin(s: RecordStream)
    requires
        good(s),
    ensures
        sp_library_begin(s) matches Ok((ev, rest, st)) ==> good(rest) && st is Library && s
            == stream_of(event_records(ev, false, true)) + rest,
{
    lemma_w_req_i16(s, RecordType::Header, "library begin");
    match sp_req_i16(s, RecordType::Header, "library begin") {
        Ok((version, s1)) => {
            lemma_w_next(s1, "library begin");
            match sp_expect(s1, RecordType::BgnLib, "library begin") {
                Ok((bgnlib, s2)) => match crate::parser::body_i16s(bgnlib.body, RecordType::BgnLib) {
                    Ok(timestamps) => {
                        lemma_w_req_str(s2, RecordType::LibName, "library begin");
                        match sp_req_str(s2, RecordType::LibName, "library begin") {
                            Ok((lib_name, s3)) => {
                                lemma_w_options(s3, 0, version, timestamps, lib_name, None, None, None, None);
                                match sp_library_begin(s) {
                                    Ok((ev, rest, _)) => match ev {
                                        EventView::LibraryBegin { db_in_user, db_in_meters, reflibs, fonts, attrtable, generations, .. } => {
                                            let h = one(RecordType::Header, BodyView::TwoByteSignedInt(seq![version]));
                                            let b = one(RecordType::BgnLib, BodyView::TwoByteSignedInt(timestamps));
                                            let n = one(RecordType::LibName, BodyView::AsciiString(lib_name));
                                            let o = options_from(0, reflibs, fonts, attrtable, generations);
                                            let u = one(RecordType::Units, BodyView::EightByteReal(seq![db_in_user, db_in_meters]));
                                            lemma_w_one(bgnlib, RecordType::BgnLib, BodyView::TwoByteSignedInt(timestamps), s2);
                                            lemma_stream_split(n, o + u, rest);
                                            lemma_stream_split(b, n + (o + u), rest);
                                            lemma_stream_split(h, b + (n + (o + u)), rest);
                                            let r_ = opt_str(RecordType::Reflibs, reflibs);
                                            let f_ = opt_str(RecordType::Fonts, fonts);
                                            let a_ = opt_str(RecordType::Attrtable, attrtable);
                                            let g_ = opt_i16(RecordType::Generations, generations);
                                            assert(o == r_ + f_ + a_ + g_);
                                            assert(event_records(ev, false, true) == h + b + n + r_ + f_ + a_ + g_ + u);
                                            assert(h + b + n + r_ + f_ + a_ + g_ + u =~= h + (b + (n + (o + u))));
                                        },
                                        _ => {},
                                    },
                                    Err(_) => {},
                                }
                            },
                            Err(_) => {},
                        }
                    },
                    Err(_) => {},
                },
                Err(_) => {},
            }
        },
        Err(_) => {},
    }
}

// ------------------------------------------------------------------------------------------
// Whole files
// ------------------------------------------------------------------------------------------

/// A step inside a structure, on shaped records, read what the writer writes for its event,
/// given that what is left reads back what the writer writes for the events after it.
proof fn lemma_w_structure_step(s: RecordStream, evs: Seq<EventView>)
    requires
        good(s),
        evs.len() > 0,
        sp_structure_item(s) matches Ok((e, rest, st2)) && e == evs[0] && rest == stream_of(
            events_records(evs.drop_first(), st2 is Properties, true),
        ) && parses_to(st2, rest, evs.drop_first()) is Some,
    ensures
        s == stream_of(events_records(evs, false, true)),
{
    let e = evs[0];
    let tail = evs.drop_first();
    lemma_w_structure_item(s);
    lemma_events_unfold(evs, false, true);
    match sp_structure_item(s) {
        Ok((_, rest, st2)) => {
            match e {
                EventView::Element(el) => {
                    assert(event_records(e, false, true) =~= element_records(el, true));
                    if st2 is Structure {
                        lemma_good_stream_ok(rest);
                        lemma_structure_item_ok(rest);
                        lemma_endel_first(tail, true);
                    }
                },
                _ => {
                    assert(event_records(e, false, true) =~= one(
                        RecordType::EndStr,
                        BodyView::NoData,
                    ));
                },
            }
        },
        Err(_) => {},
    }
}

/// The library header read what the writer writes for it, given that what is left reads
/// back what the writer writes for the events after it.
proof fn lemma_w_start_step(s: RecordStream, evs: Seq<EventView>)
    requires
        good(s),
        evs.len() > 0,
        sp_advance(ParseState::Start, s) matches Ok((e, rest, st2)) && e == evs[0] && rest == stream_of(
            events_records(evs.drop_first(), st2 is Properties, true),
        ) && parses_to(st2, rest, evs.drop_first()) is Some,
    ensures
        s == stream_of(events_records(evs, false, true)),
{
    lemma_events_unfold(evs, false, true);
    lemma_w_library_begin(s);
}

/// A step between structures read what the writer writes for its event, given that what
/// is left reads back what the writer writes for the events after it.
proof fn lemma_w_library_step(s: RecordStream, evs: Seq<EventView>)
    requires
        good(s),
        evs.len() > 0,
        sp_advance(ParseState::Library, s) matches Ok((e, rest, st2)) && e == evs[0] && rest == stream_of(
            events_records(evs.drop_first(), st2 is Properties, true),
        ) && parses_to(st2, rest, evs.drop_first()) is Some,
    ensures
        s == stream_of(events_records(evs, false, true)),
{
    lemma_events_unfold(evs, false, true);
    lemma_w_library_item(s);
}

/// A step after a property read what the writer writes for its event, given that what is
/// left reads back what the writer writes for the events after it.
#[verifier::spinoff_prover]
proof fn lemma_w_properties_step(s: RecordStream, evs: Seq<EventView>)
    requires
        good(s),
        evs.len() > 0,
        sp_advance(ParseState::Properties, s) matches Ok((e, rest, st2)) && e == evs[0] && rest == stream_of(
            events_records(evs.drop_first(), st2 is Properties, true),
        ) && parses_to(st2, rest, evs.drop_first()) is Some,
    ensures
        s == stream_of(events_records(evs, true, true)),
{
    lemma_w_property(s);
    lemma_good_stream_ok(s);
    if s.len() > 0 {
        assert(good(s.drop_first()));
        lemma_good_stream_ok(s.drop_first());
        lemma_structure_item_ok(s.drop_first());
    }
    if evs[0] is Property {
        lemma_events_unfold(evs, true, true);
    } else {
        let s1 = s.drop_first();
        assert(good(s1));
        lemma_w_structure_step(s1, evs);
        lemma_good_stream_ok(s1);
        lemma_structure_item_ok(s1);
        lemma_endel_first(evs, true);
        assert(s =~= seq![s[0]] + s1);
    }
}

proof fn lemma_w_parse(st: ParseState, s: RecordStream, evs: Seq<EventView>)
    requires
        good(s),
        parses_to(st, s, evs) == Some(Seq::<Result<RecView, RecordErrorView>>::empty()),
    ensures
        s == stream_of(events_records(evs, st is Properties, true)),
    decreases evs.len(),
{
    if st is Done || evs.len() == 0 {
        assert(stream_of(events_records(evs, st is Properties, true)) =~= Seq::<
            Result<RecView, RecordErrorView>,
        >::empty());
    } else {
        match sp_advance(st, s) {
            Ok((e, rest, st2)) => {
                match st {
                    ParseState::Start => lemma_w_library_begin(s),
                    ParseState::Library => lemma_w_library_item(s),
                    ParseState::Structure => lemma_w_structure_item(s),
                    _ => lemma_w_property(s),
                }
                lemma_w_parse(st2, rest, evs.drop_first());
                match st {
                    ParseState::Start => lemma_w_start_step(s, evs),
                    ParseState::Library => lemma_w_library_step(s, evs),
                    ParseState::Structure => lemma_w_structure_step(s, evs),
                    _ => lemma_w_properties_step(s, evs),
                }
            },
            Err(_) => {},
        }
    }
}

/// Byte-exact rewriting of well-formed files. A file that reads to its last byte, with
/// bodies as the writer writes them (no bytes where no data is carried, strings padded to
/// an even length with at most one null byte), whose records are shaped as the writer
/// writes them (one value in each single-value record, two in COLROW and UNITS, STRANS
/// words of known bits, no FORMAT, MASK or ENDMASKS, optional library records in order,
/// runs of XY records split as the writer splits them), and which parses from the start to
/// the library's end with no record left, is written back, from the events it parses to and
/// with long coordinate lists split, as exactly its own bytes.
pub proof fn lemma_well_formed_file_rewrites(data: Seq<u8>, evs: Seq<EventView>)
    requires
        reads_canonically(data, 0),
        records_shaped(spec_records(data, 0)),
        parses_to(ParseState::Start, spec_records(data, 0), evs) == Some(
            Seq::<Result<RecView, RecordErrorView>>::empty(),
        ),
    ensures
        records_bytes(events_records(evs, false, true)) == data,
{
    let s = spec_records(data, 0);
    let w = events_records(evs, false, true);
    lemma_canonical_bytes(data, 0);
    lemma_records_ok(data, 0);
    lemma_good_of(s);
    lemma_w_parse(ParseState::Start, s, evs);
    assert(outs(stream_of(w)) =~= w);
    assert(data.subrange(0, data.len() as int) =~= data);
}

} // verus!

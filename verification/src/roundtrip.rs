//! What the writer writes, the reader and the parser read back.
use crate::bytes::{
    be_bytes, be_sbytes, be_sint, be_uint, lemma_be_bytes_len, lemma_be_sint_of_sbytes,
    lemma_be_uint_of_bytes,
};
use crate::reader::{
    chunk, lemma_records_at_end, lemma_records_step, spec_decode_body, spec_read_record,
    spec_records, trim_nul, BodyView, RecView, RecordErrorView,
};
use crate::types::{lemma_header_roundtrip, RecordHeader};
use crate::writer::{
    body_bytes, body_data_type, flat_i16, flat_i32, flat_u16, out_record_bytes, record_length,
    records_bytes, OutRecord,
};
use vstd::arithmetic::power2::lemma2_to64;
use vstd::prelude::*;
use vstd::utf8::valid_utf8;

verus! {

broadcast use vstd::seq_lib::group_seq_properties;

// ------------------------------------------------------------------------------------------
// Records
// ------------------------------------------------------------------------------------------

/// A string that, padded to an even length, reads back as itself: of odd length (reading
/// takes the padding null byte off again), or not ending in a null byte.
pub open spec fn reads_back(s: Seq<u8>) -> bool {
    s.len() % 2 == 1 || s.len() == 0 || s.last() != 0
}

/// A body that reads back as itself: its bytes fit in one record (with the four header
/// bytes, at most 65535), reals have their byte count, and a string is UTF-8 and reads
/// back as itself.
pub open spec fn body_fits(b: BodyView) -> bool {
    &&& body_bytes(b).len() <= 65531
    &&& match b {
        BodyView::FourByteReal(v) => forall|i: int| 0 <= i < v.len() ==> #[trigger] v[i].len() == 4,
        BodyView::EightByteReal(v) => forall|i: int|
            0 <= i < v.len() ==> #[trigger] v[i].len() == 8,
        BodyView::AsciiString(s) => valid_utf8(s) && reads_back(s),
        _ => true,
    }
}

/// Every record of `rs` reads back as itself.
pub open spec fn records_fit(rs: Seq<OutRecord>) -> bool {
    forall|i: int| 0 <= i < rs.len() ==> body_fits(#[trigger] rs[i].body)
}

/// The record that reading the bytes of `r` gives.
pub open spec fn rec_view_of(r: OutRecord) -> RecView {
    RecView {
        header: RecordHeader {
            length: record_length(body_bytes(r.body).len()),
            record_type: r.record_type,
            data_type: body_data_type(r.body),
        },
        body: r.body,
    }
}

/// The record stream that reading the bytes of `rs` gives.
pub open spec fn stream_of(rs: Seq<OutRecord>) -> Seq<Result<RecView, RecordErrorView>> {
    rs.map_values(|r: OutRecord| Ok::<RecView, RecordErrorView>(rec_view_of(r)))
}

/// The bytes of two-byte words: two per word, the `i`-th pair spelling the `i`-th word.
pub proof fn lemma_flat_u16(v: Seq<u16>, i: int)
    ensures
        flat_u16(v).len() == 2 * v.len(),
        0 <= i < v.len() ==> chunk(flat_u16(v), 2, i) == be_bytes(v[i] as nat, 2),
    decreases v.len(),
{
    if v.len() > 0 {
        lemma_flat_u16(v.drop_last(), i);
        lemma_be_bytes_len(v.last() as nat, 2);
        let f = flat_u16(v);
        let p = flat_u16(v.drop_last());
        assert(f == p + be_bytes(v.last() as nat, 2));
        if 0 <= i < v.len() - 1 {
            assert(2 * i + 2 <= p.len());
            assert(chunk(f, 2, i) =~= chunk(p, 2, i));
        } else if i == v.len() - 1 {
            assert(chunk(f, 2, i) =~= be_bytes(v.last() as nat, 2));
        }
    }
}

/// The bytes of two-byte integers: two per value, the `i`-th pair spelling the `i`-th value.
pub proof fn lemma_flat_i16(v: Seq<i16>, i: int)
    ensures
        flat_i16(v).len() == 2 * v.len(),
        0 <= i < v.len() ==> chunk(flat_i16(v), 2, i) == be_sbytes(v[i] as int, 2),
    decreases v.len(),
{
    lemma2_to64();
    if v.len() > 0 {
        lemma_flat_i16(v.drop_last(), i);
        lemma_be_sint_of_sbytes(v.last() as int, 2);
        let f = flat_i16(v);
        let p = flat_i16(v.drop_last());
        assert(f == p + be_sbytes(v.last() as int, 2));
        if 0 <= i < v.len() - 1 {
            assert(2 * i + 2 <= p.len());
            assert(chunk(f, 2, i) =~= chunk(p, 2, i));
        } else if i == v.len() - 1 {
            assert(chunk(f, 2, i) =~= be_sbytes(v.last() as int, 2));
        }
    }
}

/// The bytes of four-byte integers: four per value, the `i`-th group spelling the `i`-th
/// value.
pub proof fn lemma_flat_i32(v: Seq<i32>, i: int)
    ensures
        flat_i32(v).len() == 4 * v.len(),
        0 <= i < v.len() ==> chunk(flat_i32(v), 4, i) == be_sbytes(v[i] as int, 4),
    decreases v.len(),
{
    lemma2_to64();
    if v.len() > 0 {
        lemma_flat_i32(v.drop_last(), i);
        lemma_be_sint_of_sbytes(v.last() as int, 4);
        let f = flat_i32(v);
        let p = flat_i32(v.drop_last());
        assert(f == p + be_sbytes(v.last() as int, 4));
        if 0 <= i < v.len() - 1 {
            assert(4 * i + 4 <= p.len());
            assert(chunk(f, 4, i) =~= chunk(p, 4, i));
        } else if i == v.len() - 1 {
            assert(chunk(f, 4, i) =~= be_sbytes(v.last() as int, 4));
        }
    }
}

/// Pieces of `k` bytes each, one after the other: the `i`-th chunk is the `i`-th piece.
pub proof fn lemma_flatten_chunks(v: Seq<Seq<u8>>, k: int, i: int)
    requires
        k > 0,
        forall|j: int| 0 <= j < v.len() ==> #[trigger] v[j].len() == k,
    ensures
        v.flatten().len() == k * v.len(),
        0 <= i < v.len() ==> chunk(v.flatten(), k, i) == v[i],
    decreases v.len(),
{
    if v.len() > 0 {
        let t = v.drop_first();
        assert forall|j: int| 0 <= j < t.len() implies #[trigger] t[j].len() == k by {
            assert(t[j] == v[j + 1]);
        }
        lemma_flatten_chunks(t, k, i - 1);
        assert(v.flatten() == v.first() + t.flatten());
        assert(k * v.len() == k + k * t.len()) by (nonlinear_arith)
            requires
                v.len() == t.len() + 1,
        ;
        assert(v.first() == v[0] && v[0].len() == k);
        if i == 0 {
            assert(chunk(v.flatten(), k, i) =~= v[0]);
        } else if 0 < i < v.len() {
            assert(k * i == k + k * (i - 1)) by (nonlinear_arith);
            assert(k * (i - 1) + k <= k * t.len()) by (nonlinear_arith)
                requires
                    i - 1 < t.len(),
                    k > 0,
            ;
            assert(chunk(v.flatten(), k, i) =~= chunk(t.flatten(), k, i - 1));
        }
    }
}

/// A fitting body decodes from its bytes to itself.
pub proof fn lemma_decode_body_bytes(b: BodyView)
    requires
        body_fits(b),
    ensures
        spec_decode_body(body_data_type(b), body_bytes(b)) == Some(b),
{
    lemma2_to64();
    match b {
        BodyView::NoData => {},
        BodyView::BitArray(v) => {
            let bytes = body_bytes(b);
            lemma_flat_u16(v, 0);
            assert forall|i: int| 0 <= i < v.len() implies be_uint(chunk(bytes, 2, i)) as u16
                == v[i] by {
                lemma_flat_u16(v, i);
                lemma_be_uint_of_bytes(v[i] as nat, 2);
            }
            assert(Seq::new(bytes.len() / 2, |i: int| be_uint(chunk(bytes, 2, i)) as u16) =~= v);
        },
        BodyView::TwoByteSignedInt(v) => {
            let bytes = body_bytes(b);
            lemma_flat_i16(v, 0);
            assert forall|i: int| 0 <= i < v.len() implies be_sint(chunk(bytes, 2, i)) as i16
                == v[i] by {
                lemma_flat_i16(v, i);
                lemma_be_sint_of_sbytes(v[i] as int, 2);
            }
            assert(Seq::new(bytes.len() / 2, |i: int| be_sint(chunk(bytes, 2, i)) as i16) =~= v);
        },
        BodyView::FourByteSignedInt(v) => {
            let bytes = body_bytes(b);
            lemma_flat_i32(v, 0);
            assert forall|i: int| 0 <= i < v.len() implies be_sint(chunk(bytes, 4, i)) as i32
                == v[i] by {
                lemma_flat_i32(v, i);
                lemma_be_sint_of_sbytes(v[i] as int, 4);
            }
            assert(Seq::new(bytes.len() / 4, |i: int| be_sint(chunk(bytes, 4, i)) as i32) =~= v);
        },
        BodyView::FourByteReal(v) => {
            let bytes = body_bytes(b);
            lemma_flatten_chunks(v, 4, 0);
            assert forall|i: int| 0 <= i < v.len() implies chunk(bytes, 4, i) == v[i] by {
                lemma_flatten_chunks(v, 4, i);
            }
            assert(Seq::new(bytes.len() / 4, |i: int| chunk(bytes, 4, i)) =~= v);
        },
        BodyView::EightByteReal(v) => {
            let bytes = body_bytes(b);
            lemma_flatten_chunks(v, 8, 0);
            assert forall|i: int| 0 <= i < v.len() implies chunk(bytes, 8, i) == v[i] by {
                lemma_flatten_chunks(v, 8, i);
            }
            assert(Seq::new(bytes.len() / 8, |i: int| chunk(bytes, 8, i)) =~= v);
        },
        BodyView::AsciiString(s) => {
            let bytes = body_bytes(b);
            if s.len() % 2 == 1 {
                let z = seq![0u8];
                assert(valid_utf8(z)) by {
                    reveal_with_fuel(valid_utf8, 2);
                    assert(z.len() == 1);
                }
                vstd::utf8::valid_utf8_concat(s, z);
                assert(s + z =~= s.push(0));
                assert(bytes.drop_last() =~= s);
                assert(trim_nul(bytes) == s);
            } else {
                assert(trim_nul(bytes) == s);
            }
        },
    }
}

/// Reading the bytes of a fitting record, wherever they stand in the input, gives the
/// record, and moves past it.
pub proof fn lemma_read_written_record(input: Seq<u8>, off: int, r: OutRecord)
    requires
        0 <= off,
        off + out_record_bytes(r).len() <= input.len(),
        input.subrange(off, off + out_record_bytes(r).len()) == out_record_bytes(r),
        body_fits(r.body),
    ensures
        spec_read_record(input, off) == Some(
            (Ok::<RecView, RecordErrorView>(rec_view_of(r)), off + out_record_bytes(r).len()),
        ),
{
    let body = body_bytes(r.body);
    let h = rec_view_of(r).header;
    let n = out_record_bytes(r).len() as int;
    crate::bytes::lemma_be_bytes_len(h.length as nat, 2);
    assert(h.spec_bytes().len() == 4);
    assert(h.length == 4 + body.len());
    let s = input.subrange(off, input.len() as int);
    let tail = s.subrange(4, s.len() as int);
    assert(s =~= h.spec_bytes() + tail) by {
        assert(s.subrange(0, n) =~= out_record_bytes(r));
    }
    lemma_header_roundtrip(h, tail);
    assert(input.subrange(off + 4, off + h.length as int) =~= body) by {
        assert(input.subrange(off + 4, off + n) =~= out_record_bytes(r).subrange(4, n));
    }
    lemma_decode_body_bytes(r.body);
}

/// The bytes of a sequence of records start with those of its first record.
pub proof fn lemma_records_bytes_first(rs: Seq<OutRecord>)
    requires
        rs.len() > 0,
    ensures
        records_bytes(rs) == out_record_bytes(rs[0]) + records_bytes(rs.drop_first()),
{
    let f = |r: OutRecord| out_record_bytes(r);
    assert(rs.map_values(f).drop_first() =~= rs.drop_first().map_values(f));
}

/// Reading the bytes of fitting records, up to the end of the input, gives the records.
pub proof fn lemma_read_written_records(input: Seq<u8>, off: int, rs: Seq<OutRecord>)
    requires
        0 <= off <= input.len(),
        input.subrange(off, input.len() as int) == records_bytes(rs),
        records_fit(rs),
    ensures
        spec_records(input, off) == stream_of(rs),
    decreases rs.len(),
{
    if rs.len() == 0 {
        assert(records_bytes(rs) =~= Seq::<u8>::empty());
        assert(off == input.len());
        lemma_records_at_end(input);
        assert(stream_of(rs) =~= Seq::<Result<RecView, RecordErrorView>>::empty());
    } else {
        lemma_records_bytes_first(rs);
        let r = rs[0];
        let n = out_record_bytes(r).len() as int;
        assert(body_fits(rs[0].body));
        assert(records_bytes(rs).len() >= n);
        assert(off + n <= input.len());
        assert(input.subrange(off, off + n) =~= out_record_bytes(r)) by {
            assert(input.subrange(off, off + n) =~= input.subrange(off, input.len() as int).subrange(0, n));
        }
        lemma_read_written_record(input, off, r);
        lemma_records_step(input, off);
        let rest = rs.drop_first();
        assert(records_fit(rest)) by {
            assert forall|i: int| 0 <= i < rest.len() implies body_fits(#[trigger] rest[i].body) by {
                assert(rest[i] == rs[i + 1]);
            }
        }
        assert(input.subrange(off + n, input.len() as int) =~= records_bytes(rest)) by {
            assert(input.subrange(off + n, input.len() as int) =~= input.subrange(off, input.len() as int).subrange(n, input.len() - off));
        }
        lemma_read_written_records(input, off + n, rest);
        assert(stream_of(rs) =~= seq![Ok::<RecView, RecordErrorView>(rec_view_of(r))] + stream_of(rest));
    }
}

} // verus!

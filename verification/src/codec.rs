//! The canonical binary form of an ephemeris record.
//!
//! Every field is written in a fixed declared order under a tag byte, so a
//! record has exactly one encoding and an encoding decodes to exactly one
//! record.  Decoding rejects malformed input with the offending byte offset;
//! it never panics and never guesses.
use vstd::prelude::*;
use crate::bytes::be16;
use crate::bytes::be32;
use crate::bytes::be64;
use crate::bytes::bei16;
use crate::bytes::bei64;
use crate::bytes::from_be16;
use crate::bytes::from_be32;
use crate::bytes::from_be64;
use crate::bytes::from_bei16;
use crate::bytes::from_bei64;
use crate::bytes::lemma_be_lens;
use crate::bytes::lemma_be16_roundtrip;
use crate::bytes::lemma_be32_roundtrip;
use crate::bytes::lemma_be64_roundtrip;
use crate::bytes::lemma_bei16_roundtrip;
use crate::bytes::lemma_bei64_roundtrip;
use crate::bytes::push_u16_be;
use crate::bytes::push_u32_be;
use crate::bytes::push_u64_be;
use crate::bytes::push_i16_be;
use crate::bytes::push_i64_be;
use crate::bytes::read_u16_be;
use crate::bytes::read_u32_be;
use crate::bytes::read_u64_be;
use crate::bytes::read_i16_be;
use crate::bytes::read_i64_be;
use crate::epoch::Epoch;
use crate::epoch::NANOSECONDS_PER_CENTURY;
use crate::errors::DecodeError;
use crate::errors::DecodeErrorKind;
use crate::records::DistanceUnit;
use crate::records::Ephemeris;
use crate::records::InterpolationKind;
use crate::records::PieceModel;
use crate::records::SegmentModel;
use crate::records::SplinePiece;
use crate::records::Splines;
use crate::records::TimeUnit;
use crate::records::coeffs_per_piece;
use crate::records::distance_unit_from_tag;
use crate::records::distance_unit_tag;
use crate::records::encodable;
use crate::records::pieces_ordered;
use crate::records::validated;
use crate::records::kind_from_tag;
use crate::records::kind_tag;
use crate::records::spec_coeffs_per_piece;
use crate::records::spec_distance_unit_from_tag;
use crate::records::spec_distance_unit_tag;
use crate::records::spec_kind_from_tag;
use crate::records::spec_kind_tag;
use crate::records::spec_time_unit_from_tag;
use crate::records::spec_time_unit_tag;
use crate::records::time_unit_from_tag;
use crate::records::time_unit_tag;

verus! {

pub const TAG_NAME: u8 = 0x01;
pub const TAG_EPOCH: u8 = 0x02;
pub const TAG_FLAG: u8 = 0x03;
pub const TAG_PARENT: u8 = 0x04;
pub const TAG_ORIENTATION: u8 = 0x05;
pub const TAG_KIND: u8 = 0x06;
pub const TAG_DISTANCE_UNIT: u8 = 0x07;
pub const TAG_TIME_UNIT: u8 = 0x08;
pub const TAG_SPLINES: u8 = 0x09;

/// Bytes of a coefficient sequence: each value in order, eight bytes each.
pub open spec fn coeffs_bytes(cs: Seq<u64>) -> Seq<u8>
    decreases cs.len(),
{
    if cs.len() == 0 {
        Seq::empty()
    } else {
        be64(cs.first()) + coeffs_bytes(cs.drop_first())
    }
}

/// Bytes of one spline piece: window bounds, then the coefficients.
pub open spec fn piece_bytes(p: PieceModel) -> Seq<u8> {
    bei64(p.window_start) + bei64(p.window_end) + coeffs_bytes(p.coefficients)
}

/// Bytes of the ordered piece sequence.
pub open spec fn pieces_bytes(ps: Seq<PieceModel>) -> Seq<u8>
    decreases ps.len(),
{
    if ps.len() == 0 {
        Seq::empty()
    } else {
        piece_bytes(ps.first()) + pieces_bytes(ps.drop_first())
    }
}

/// The name field: its tag, length and bytes.
pub open spec fn enc_name(m: SegmentModel) -> Seq<u8> {
    seq![TAG_NAME] + be16(m.name.len() as u16) + m.name
}

/// The fixed-width middle fields, in declared order, each under its tag.
pub open spec fn enc_fixed(m: SegmentModel) -> Seq<u8> {
    seq![TAG_EPOCH] + bei16(m.ref_epoch.centuries) + be64(m.ref_epoch.nanoseconds) + seq![
        TAG_FLAG,
        if m.backward {
            1u8
        } else {
            0u8
        },
    ] + seq![TAG_PARENT] + be32(m.parent_ephemeris_hash) + seq![TAG_ORIENTATION] + be32(
        m.orientation_hash,
    ) + seq![TAG_KIND, spec_kind_tag(m.interpolation_kind)] + seq![
        TAG_DISTANCE_UNIT,
        spec_distance_unit_tag(m.distance_unit),
    ] + seq![TAG_TIME_UNIT, spec_time_unit_tag(m.time_unit)] + seq![TAG_SPLINES, m.degree] + be16(
        m.pieces.len() as u16,
    )
}

/// The one canonical encoding of a record: fields in declared order, each
/// under its tag byte.
pub open spec fn spec_encode(m: SegmentModel) -> Seq<u8> {
    enc_name(m) + enc_fixed(m) + pieces_bytes(m.pieces)
}

/// Appending one coefficient appends its eight bytes.
pub proof fn lemma_coeffs_bytes_snoc(cs: Seq<u64>, c: u64)
    ensures
        coeffs_bytes(cs.push(c)) == coeffs_bytes(cs) + be64(c),
    decreases cs.len(),
{
    assert(cs.push(c).first() == if cs.len() == 0 { c } else { cs.first() });
    if cs.len() == 0 {
        assert(cs.push(c).drop_first() =~= Seq::<u64>::empty());
        assert(coeffs_bytes(Seq::<u64>::empty()) =~= Seq::<u8>::empty());
        assert(coeffs_bytes(cs.push(c)) =~= coeffs_bytes(cs) + be64(c));
    } else {
        assert(cs.push(c).drop_first() =~= cs.drop_first().push(c));
        lemma_coeffs_bytes_snoc(cs.drop_first(), c);
        assert(coeffs_bytes(cs.push(c)) =~= coeffs_bytes(cs) + be64(c));
    }
}

/// Appending one piece appends its bytes.
pub proof fn lemma_pieces_bytes_snoc(ps: Seq<PieceModel>, p: PieceModel)
    ensures
        pieces_bytes(ps.push(p)) == pieces_bytes(ps) + piece_bytes(p),
    decreases ps.len(),
{
    assert(ps.push(p).first() == if ps.len() == 0 { p } else { ps.first() });
    if ps.len() == 0 {
        assert(ps.push(p).drop_first() =~= Seq::<PieceModel>::empty());
        assert(pieces_bytes(Seq::<PieceModel>::empty()) =~= Seq::<u8>::empty());
        assert(pieces_bytes(ps.push(p)) =~= pieces_bytes(ps) + piece_bytes(p));
    } else {
        assert(ps.push(p).drop_first() =~= ps.drop_first().push(p));
        lemma_pieces_bytes_snoc(ps.drop_first(), p);
        assert(pieces_bytes(ps.push(p)) =~= pieces_bytes(ps) + piece_bytes(p));
    }
}

/// A coefficient sequence takes eight bytes per value.
pub proof fn lemma_coeffs_bytes_len(cs: Seq<u64>)
    ensures
        coeffs_bytes(cs).len() == 8 * cs.len(),
    decreases cs.len(),
{
    if cs.len() > 0 {
        lemma_coeffs_bytes_len(cs.drop_first());
    }
}

/// A piece sequence whose pieces all carry `c` coefficients takes
/// `16 + 8 * c` bytes per piece.
pub proof fn lemma_pieces_bytes_len(ps: Seq<PieceModel>, c: int)
    requires
        forall|k: int| 0 <= k < ps.len() ==> (#[trigger] ps[k]).coefficients.len() == c,
    ensures
        pieces_bytes(ps).len() == ps.len() * (16 + 8 * c),
    decreases ps.len(),
{
    if ps.len() == 0 {
    } else {
        lemma_coeffs_bytes_len(ps.first().coefficients);
        assert(forall|k: int|
            0 <= k < ps.drop_first().len() ==> (#[trigger] ps.drop_first()[k]).coefficients.len()
                == c);
        lemma_pieces_bytes_len(ps.drop_first(), c);
        assert(ps.len() * (16 + 8 * c) == (ps.len() - 1) * (16 + 8 * c) + (16 + 8 * c))
            by (nonlinear_arith);
    }
}

impl Ephemeris {
    /// The exact byte length `encode` produces for this record.
    pub fn encoded_len(&self) -> (n: u64)
        requires
            encodable(self@),
        ensures
            n == spec_encode(self@).len(),
    {
        proof {
            lemma_pieces_bytes_len(
                self@.pieces,
                spec_coeffs_per_piece(self@.interpolation_kind, self@.degree),
            );
        }
        let cpp = coeffs_per_piece(self.interpolation_kind, self.splines.degree);
        let npieces = self.splines.pieces.len();
        proof {
            assert((npieces as int) * (16 + 8 * (cpp as int)) <= 0xFFFF * (16 + 8 * 0xFFFF))
                by (nonlinear_arith)
                requires
                    0 <= npieces <= 0xFFFF,
                    0 <= cpp <= 0xFFFF,
            ;
        }
        36 + self.name.len() as u64 + (npieces as u64) * (16 + 8 * (cpp as u64))
    }

    /// Writes the one canonical encoding of this record.
    #[verifier::rlimit(100)]
    pub fn encode(&self) -> (out: Vec<u8>)
        requires
            encodable(self@),
        ensures
            out@ == spec_encode(self@),
    {
        let ghost m = self@;
        let mut out: Vec<u8> = Vec::new();
        out.push(TAG_NAME);
        push_u16_be(&mut out, self.name.len() as u16);
        let mut j: usize = 0;
        while j < self.name.len()
            invariant
                j <= self.name.len(),
                out@ == seq![TAG_NAME] + be16(m.name.len() as u16) + m.name.subrange(0, j as int),
                m == self@,
            decreases self.name.len() - j,
        {
            out.push(self.name[j]);
            proof {
                assert(m.name.subrange(0, j + 1) =~= m.name.subrange(0, j as int).push(
                    m.name[j as int],
                ));
                assert(out@ =~= seq![TAG_NAME] + be16(m.name.len() as u16) + m.name.subrange(
                    0,
                    j + 1,
                ));
            }
            j = j + 1;
        }
        proof {
            assert(m.name.subrange(0, m.name.len() as int) =~= m.name);
        }
        out.push(TAG_EPOCH);
        push_i16_be(&mut out, self.ref_epoch.centuries);
        push_u64_be(&mut out, self.ref_epoch.nanoseconds);
        out.push(TAG_FLAG);
        out.push(if self.backward { 1 } else { 0 });
        out.push(TAG_PARENT);
        push_u32_be(&mut out, self.parent_ephemeris_hash);
        out.push(TAG_ORIENTATION);
        push_u32_be(&mut out, self.orientation_hash);
        out.push(TAG_KIND);
        out.push(kind_tag(self.interpolation_kind));
        out.push(TAG_DISTANCE_UNIT);
        out.push(distance_unit_tag(self.distance_unit));
        out.push(TAG_TIME_UNIT);
        out.push(time_unit_tag(self.time_unit));
        out.push(TAG_SPLINES);
        out.push(self.splines.degree);
        push_u16_be(&mut out, self.splines.pieces.len() as u16);
        let ghost head = out@;
        let mut k: usize = 0;
        while k < self.splines.pieces.len()
            invariant
                k <= self.splines.pieces.len(),
                out@ == head + pieces_bytes(m.pieces.subrange(0, k as int)),
                m == self@,
                self.splines.pieces@.map_values(|p: SplinePiece| p@) == m.pieces,
            decreases self.splines.pieces.len() - k,
        {
            let piece = &self.splines.pieces[k];
            push_i64_be(&mut out, piece.window_start);
            push_i64_be(&mut out, piece.window_end);
            let ghost piece_head = out@;
            let mut c: usize = 0;
            while c < piece.coefficients.len()
                invariant
                    c <= piece.coefficients.len(),
                    out@ == piece_head + coeffs_bytes(piece.coefficients@.subrange(0, c as int)),
                decreases piece.coefficients.len() - c,
            {
                push_u64_be(&mut out, piece.coefficients[c]);
                proof {
                    assert(piece.coefficients@.subrange(0, c + 1) =~= piece.coefficients@.subrange(
                        0,
                        c as int,
                    ).push(piece.coefficients@[c as int]));
                    lemma_coeffs_bytes_snoc(
                        piece.coefficients@.subrange(0, c as int),
                        piece.coefficients@[c as int],
                    );
                }
                c = c + 1;
            }
            proof {
                assert(piece.coefficients@.subrange(0, piece.coefficients@.len() as int)
                    =~= piece.coefficients@);
                assert(m.pieces[k as int] == piece@);
                assert(out@ =~= head + pieces_bytes(m.pieces.subrange(0, k as int)) + piece_bytes(
                    m.pieces[k as int],
                ));
                assert(m.pieces.subrange(0, k + 1) =~= m.pieces.subrange(0, k as int).push(
                    m.pieces[k as int],
                ));
                lemma_pieces_bytes_snoc(m.pieces.subrange(0, k as int), m.pieces[k as int]);
                assert(out@ =~= head + pieces_bytes(m.pieces.subrange(0, k + 1)));
            }
            k = k + 1;
        }
        proof {
            assert(m.pieces.subrange(0, m.pieces.len() as int) =~= m.pieces);
            assert(out@ =~= spec_encode(m));
        }
        out
    }
}

/// Reads one byte, if the buffer reaches it.
pub open spec fn dec_byte(buf: Seq<u8>, i: int) -> Option<(u8, int)> {
    if 0 <= i && i + 1 <= buf.len() {
        Some((buf[i], i + 1))
    } else {
        None
    }
}

/// Reads one tag byte, which must match.
pub open spec fn dec_tag(buf: Seq<u8>, i: int, tag: u8) -> Option<int> {
    if 0 <= i && i + 1 <= buf.len() && buf[i] == tag {
        Some(i + 1)
    } else {
        None
    }
}

/// Reads a big-endian 16-bit value.
pub open spec fn dec_u16(buf: Seq<u8>, i: int) -> Option<(u16, int)> {
    if 0 <= i && i + 2 <= buf.len() {
        Some((from_be16(buf[i], buf[i + 1]), i + 2))
    } else {
        None
    }
}

/// Reads a big-endian 32-bit value.
pub open spec fn dec_u32(buf: Seq<u8>, i: int) -> Option<(u32, int)> {
    if 0 <= i && i + 4 <= buf.len() {
        Some((from_be32(buf[i], buf[i + 1], buf[i + 2], buf[i + 3]), i + 4))
    } else {
        None
    }
}

/// Reads a big-endian 64-bit value.
pub open spec fn dec_u64(buf: Seq<u8>, i: int) -> Option<(u64, int)> {
    if 0 <= i && i + 8 <= buf.len() {
        Some(
            (
                from_be64(
                    buf[i],
                    buf[i + 1],
                    buf[i + 2],
                    buf[i + 3],
                    buf[i + 4],
                    buf[i + 5],
                    buf[i + 6],
                    buf[i + 7],
                ),
                i + 8,
            ),
        )
    } else {
        None
    }
}

/// Reads a biased big-endian signed 16-bit value.
pub open spec fn dec_i16(buf: Seq<u8>, i: int) -> Option<(i16, int)> {
    if 0 <= i && i + 2 <= buf.len() {
        Some((from_bei16(buf[i], buf[i + 1]), i + 2))
    } else {
        None
    }
}

/// Reads a biased big-endian signed 64-bit value.
pub open spec fn dec_i64(buf: Seq<u8>, i: int) -> Option<(i64, int)> {
    if 0 <= i && i + 8 <= buf.len() {
        Some(
            (
                from_bei64(
                    buf[i],
                    buf[i + 1],
                    buf[i + 2],
                    buf[i + 3],
                    buf[i + 4],
                    buf[i + 5],
                    buf[i + 6],
                    buf[i + 7],
                ),
                i + 8,
            ),
        )
    } else {
        None
    }
}

/// Reads `n` raw bytes.
pub open spec fn dec_bytes(buf: Seq<u8>, i: int, n: int) -> Option<(Seq<u8>, int)> {
    if 0 <= i && 0 <= n && i + n <= buf.len() {
        Some((buf.subrange(i, i + n), i + n))
    } else {
        None
    }
}

/// Reads `n` coefficients of eight bytes each.
pub open spec fn dec_coeffs(buf: Seq<u8>, i: int, n: nat) -> Option<(Seq<u64>, int)>
    decreases n,
{
    if n == 0 {
        Some((Seq::empty(), i))
    } else {
        match dec_u64(buf, i) {
            Some((c, j)) => match dec_coeffs(buf, j, (n - 1) as nat) {
                Some((rest, k)) => Some((seq![c] + rest, k)),
                None => None,
            },
            None => None,
        }
    }
}

/// Reads one piece carrying `ncoeff` coefficients.
pub open spec fn dec_piece(buf: Seq<u8>, i: int, ncoeff: nat) -> Option<(PieceModel, int)> {
    match dec_i64(buf, i) {
        Some((t0, j)) => match dec_i64(buf, j) {
            Some((t1, k)) => match dec_coeffs(buf, k, ncoeff) {
                Some((cs, l)) => Some(
                    (PieceModel { window_start: t0, window_end: t1, coefficients: cs }, l),
                ),
                None => None,
            },
            None => None,
        },
        None => None,
    }
}

/// Reads `n` pieces in order.
pub open spec fn dec_pieces(buf: Seq<u8>, i: int, n: nat, ncoeff: nat) -> Option<
    (Seq<PieceModel>, int),
>
    decreases n,
{
    if n == 0 {
        Some((Seq::empty(), i))
    } else {
        match dec_piece(buf, i, ncoeff) {
            Some((p, j)) => match dec_pieces(buf, j, (n - 1) as nat, ncoeff) {
                Some((rest, k)) => Some((seq![p] + rest, k)),
                None => None,
            },
            None => None,
        }
    }
}

/// The one record a well-formed buffer region stands for, with the offset
/// just past it.  Mirrors the encoder field for field; any malformed or
/// non-canonical byte yields nothing.
pub open spec fn spec_decode_record(buf: Seq<u8>, start: int) -> Option<(SegmentModel, int)> {
    match dec_tag(buf, start, TAG_NAME) {
        Some(i1) => match dec_u16(buf, i1) {
            Some((name_len, i2)) => match dec_bytes(buf, i2, name_len as int) {
                Some((name, i3)) => match dec_tag(buf, i3, TAG_EPOCH) {
                    Some(i4) => match dec_i16(buf, i4) {
                        Some((centuries, i5)) => match dec_u64(buf, i5) {
                            Some((nanoseconds, i6)) => if nanoseconds
                                < NANOSECONDS_PER_CENTURY {
                                match dec_tag(buf, i6, TAG_FLAG) {
                                    Some(i7) => match dec_byte(buf, i7) {
                                        Some((flag, i8)) => if flag <= 1 {
                                            match dec_tag(buf, i8, TAG_PARENT) {
                                                Some(i9) => match dec_u32(buf, i9) {
                                                    Some((parent, i10)) => match dec_tag(
                                                        buf,
                                                        i10,
                                                        TAG_ORIENTATION,
                                                    ) {
                                                        Some(i11) => match dec_u32(buf, i11) {
                                                            Some((orientation, i12)) => spec_decode_tail(
                                                                buf,
                                                                i12,
                                                                SegmentModel {
                                                                    name,
                                                                    ref_epoch: Epoch {
                                                                        centuries,
                                                                        nanoseconds,
                                                                    },
                                                                    backward: flag == 1,
                                                                    parent_ephemeris_hash: parent,
                                                                    orientation_hash: orientation,
                                                                    interpolation_kind:
                                                                        InterpolationKind::ChebyshevPositionOnly,
                                                                    distance_unit:
                                                                        DistanceUnit::Kilometer,
                                                                    time_unit: TimeUnit::Second,
                                                                    degree: 0,
                                                                    pieces: Seq::empty(),
                                                                },
                                                            ),
                                                            None => None,
                                                        },
                                                        None => None,
                                                    },
                                                    None => None,
                                                },
                                                None => None,
                                            }
                                        } else {
                                            None
                                        },
                                        None => None,
                                    },
                                    None => None,
                                }
                            } else {
                                None
                            },
                            None => None,
                        },
                        None => None,
                    },
                    None => None,
                },
                None => None,
            },
            None => None,
        },
        None => None,
    }
}

/// The enumerated fields and the spline payload of a record, continuing a
/// partially built model.
pub open spec fn spec_decode_tail(buf: Seq<u8>, i12: int, partial: SegmentModel) -> Option<
    (SegmentModel, int),
> {
    match dec_tag(buf, i12, TAG_KIND) {
        Some(i13) => match dec_byte(buf, i13) {
            Some((kb, i14)) => match spec_kind_from_tag(kb) {
                Some(kind) => match dec_tag(buf, i14, TAG_DISTANCE_UNIT) {
                    Some(i15) => match dec_byte(buf, i15) {
                        Some((db, i16b)) => match spec_distance_unit_from_tag(db) {
                            Some(dunit) => match dec_tag(buf, i16b, TAG_TIME_UNIT) {
                                Some(i17) => match dec_byte(buf, i17) {
                                    Some((tb, i18)) => match spec_time_unit_from_tag(tb) {
                                        Some(tunit) => match dec_tag(buf, i18, TAG_SPLINES) {
                                            Some(i19) => match dec_byte(buf, i19) {
                                                Some((degree, i20)) => match dec_u16(buf, i20) {
                                                    Some((npieces, i21)) => match dec_pieces(
                                                        buf,
                                                        i21,
                                                        npieces as nat,
                                                        spec_coeffs_per_piece(
                                                            kind,
                                                            degree,
                                                        ) as nat,
                                                    ) {
                                                        Some((pieces, i22)) => if
                                                            pieces_ordered(pieces) {
                                                            Some(
                                                                (
                                                                    SegmentModel {
                                                                        interpolation_kind: kind,
                                                                        distance_unit: dunit,
                                                                        time_unit: tunit,
                                                                        degree,
                                                                        pieces,
                                                                        ..partial
                                                                    },
                                                                    i22,
                                                                ),
                                                            )
                                                        } else {
                                                            None
                                                        },
                                                        None => None,
                                                    },
                                                    None => None,
                                                },
                                                None => None,
                                            },
                                            None => None,
                                        },
                                        None => None,
                                    },
                                    None => None,
                                },
                                None => None,
                            },
                            None => None,
                        },
                        None => None,
                    },
                    None => None,
                },
                None => None,
            },
            None => None,
        },
        None => None,
    }
}

/// The one record a whole buffer stands for: exactly one record, nothing
/// after it.
pub open spec fn spec_decode(buf: Seq<u8>) -> Option<SegmentModel> {
    match spec_decode_record(buf, 0) {
        Some((m, end)) => if end == buf.len() {
            Some(m)
        } else {
            None
        },
        None => None,
    }
}

/// Where a tag read fails: at the tag byte when it is readable, at the
/// buffer end when the buffer is too short.
pub open spec fn tag_fail_offset(buf: Seq<u8>, i: int) -> int {
    if 0 <= i && i + 1 <= buf.len() {
        i
    } else {
        buf.len() as int
    }
}

/// The offset at which reading the enumerated fields and the spline
/// payload first fails, mirroring the spec decoder branch for branch.
pub open spec fn spec_tail_fail_offset(buf: Seq<u8>, i12: int) -> int {
    match dec_tag(buf, i12, TAG_KIND) {
        Some(i13) => match dec_byte(buf, i13) {
            Some((kb, i14)) => match spec_kind_from_tag(kb) {
                Some(kind) => match dec_tag(buf, i14, TAG_DISTANCE_UNIT) {
                    Some(i15) => match dec_byte(buf, i15) {
                        Some((db, i16b)) => match spec_distance_unit_from_tag(db) {
                            Some(_d) => match dec_tag(buf, i16b, TAG_TIME_UNIT) {
                                Some(i17) => match dec_byte(buf, i17) {
                                    Some((tb, i18)) => match spec_time_unit_from_tag(tb) {
                                        Some(_t) => match dec_tag(buf, i18, TAG_SPLINES) {
                                            Some(i19) => match dec_byte(buf, i19) {
                                                Some((degree, i20)) => match dec_u16(buf, i20) {
                                                    Some((npieces, i21)) => match dec_pieces(
                                                        buf,
                                                        i21,
                                                        npieces as nat,
                                                        spec_coeffs_per_piece(
                                                            kind,
                                                            degree,
                                                        ) as nat,
                                                    ) {
                                                        Some((pieces, i22)) => i22,
                                                        None => buf.len() as int,
                                                    },
                                                    None => buf.len() as int,
                                                },
                                                None => buf.len() as int,
                                            },
                                            None => tag_fail_offset(buf, i18),
                                        },
                                        None => i17,
                                    },
                                    None => buf.len() as int,
                                },
                                None => tag_fail_offset(buf, i16b),
                            },
                            None => i15,
                        },
                        None => buf.len() as int,
                    },
                    None => tag_fail_offset(buf, i14),
                },
                None => i13,
            },
            None => buf.len() as int,
        },
        None => tag_fail_offset(buf, i12),
    }
}

/// The offset at which reading a record first fails, mirroring the spec
/// decoder branch for branch: the offending tag or value byte where one is
/// readable, the buffer end where the buffer is too short, and the offset
/// just past the pieces where only the window ordering is at fault.
pub open spec fn spec_fail_offset(buf: Seq<u8>, start: int) -> int {
    match dec_tag(buf, start, TAG_NAME) {
        Some(o1) => match dec_u16(buf, o1) {
            Some((name_len, o2)) => if o2 + name_len > buf.len() {
                o2
            } else {
                match dec_tag(buf, o2 + name_len, TAG_EPOCH) {
                    Some(o4) => match dec_i16(buf, o4) {
                        Some((_c, o5)) => match dec_u64(buf, o5) {
                            Some((nanos, o6)) => if nanos >= NANOSECONDS_PER_CENTURY {
                                o5
                            } else {
                                match dec_tag(buf, o6, TAG_FLAG) {
                                    Some(o7) => match dec_byte(buf, o7) {
                                        Some((flag, o8)) => if flag > 1 {
                                            o7
                                        } else {
                                            match dec_tag(buf, o8, TAG_PARENT) {
                                                Some(o9) => match dec_u32(buf, o9) {
                                                    Some((_p, o10)) => match dec_tag(
                                                        buf,
                                                        o10,
                                                        TAG_ORIENTATION,
                                                    ) {
                                                        Some(o11) => match dec_u32(buf, o11) {
                                                            Some((_o, o12)) => spec_tail_fail_offset(
                                                                buf,
                                                                o12,
                                                            ),
                                                            None => buf.len() as int,
                                                        },
                                                        None => tag_fail_offset(buf, o10),
                                                    },
                                                    None => buf.len() as int,
                                                },
                                                None => tag_fail_offset(buf, o8),
                                            }
                                        },
                                        None => buf.len() as int,
                                    },
                                    None => tag_fail_offset(buf, o6),
                                }
                            },
                            None => buf.len() as int,
                        },
                        None => buf.len() as int,
                    },
                    None => tag_fail_offset(buf, o2 + name_len),
                }
            },
            None => buf.len() as int,
        },
        None => tag_fail_offset(buf, start),
    }
}

/// Reading `n1 + n2` coefficients is reading `n1`, then `n2` more.
pub proof fn lemma_dec_coeffs_split(buf: Seq<u8>, i: int, n1: nat, n2: nat)
    ensures
        dec_coeffs(buf, i, n1 + n2) == (match dec_coeffs(buf, i, n1) {
            Some((cs1, j)) => match dec_coeffs(buf, j, n2) {
                Some((cs2, k)) => Some((cs1 + cs2, k)),
                None => None,
            },
            None => None,
        }),
    decreases n1,
{
    if n1 == 0 {
        match dec_coeffs(buf, i, n2) {
            Some((cs2, k)) => {
                assert(Seq::<u64>::empty() + cs2 =~= cs2);
            },
            None => {},
        }
    } else {
        match dec_u64(buf, i) {
            Some((c, j)) => {
                lemma_dec_coeffs_split(buf, j, (n1 - 1) as nat, n2);
                assert((n1 + n2 - 1) as nat == (n1 - 1) as nat + n2);
                match dec_coeffs(buf, j, (n1 - 1) as nat) {
                    Some((cs1, j2)) => {
                        match dec_coeffs(buf, j2, n2) {
                            Some((cs2, k)) => {
                                assert(seq![c] + (cs1 + cs2) =~= (seq![c] + cs1) + cs2);
                            },
                            None => {},
                        }
                    },
                    None => {},
                }
            },
            None => {},
        }
    }
}

/// Reading `n1 + n2` pieces is reading `n1`, then `n2` more.
pub proof fn lemma_dec_pieces_split(buf: Seq<u8>, i: int, n1: nat, n2: nat, ncoeff: nat)
    ensures
        dec_pieces(buf, i, n1 + n2, ncoeff) == (match dec_pieces(buf, i, n1, ncoeff) {
            Some((ps1, j)) => match dec_pieces(buf, j, n2, ncoeff) {
                Some((ps2, k)) => Some((ps1 + ps2, k)),
                None => None,
            },
            None => None,
        }),
    decreases n1,
{
    if n1 == 0 {
        match dec_pieces(buf, i, n2, ncoeff) {
            Some((ps2, k)) => {
                assert(Seq::<PieceModel>::empty() + ps2 =~= ps2);
            },
            None => {},
        }
    } else {
        match dec_piece(buf, i, ncoeff) {
            Some((p, j)) => {
                lemma_dec_pieces_split(buf, j, (n1 - 1) as nat, n2, ncoeff);
                assert((n1 + n2 - 1) as nat == (n1 - 1) as nat + n2);
                match dec_pieces(buf, j, (n1 - 1) as nat, ncoeff) {
                    Some((ps1, j2)) => {
                        match dec_pieces(buf, j2, n2, ncoeff) {
                            Some((ps2, k)) => {
                                assert(seq![p] + (ps1 + ps2) =~= (seq![p] + ps1) + ps2);
                            },
                            None => {},
                        }
                    },
                    None => {},
                }
            },
            None => {},
        }
    }
}

/// Reads and checks one tag byte.
fn take_tag(buf: &[u8], i: usize, tag: u8) -> (r: Result<usize, DecodeError>)
    ensures
        match r {
            Ok(j) => dec_tag(buf@, i as int, tag) == Some(j as int) && j == i + 1 && j
                <= buf@.len(),
            Err(er) => dec_tag(buf@, i as int, tag) is None && er.offset == tag_fail_offset(
                buf@,
                i as int,
            ),
        },
{
    if i >= buf.len() {
        Err(DecodeError { kind: DecodeErrorKind::Truncated, offset: buf.len() })
    } else if buf[i] != tag {
        Err(DecodeError { kind: DecodeErrorKind::TagMismatch, offset: i })
    } else {
        Ok(i + 1)
    }
}

/// Reads one byte.
fn take_byte(buf: &[u8], i: usize) -> (r: Result<(u8, usize), DecodeError>)
    ensures
        match r {
            Ok((v, j)) => dec_byte(buf@, i as int) == Some((v, j as int)) && j == i + 1 && j
                <= buf@.len(),
            Err(er) => dec_byte(buf@, i as int) is None && er.offset == buf@.len(),
        },
{
    if i >= buf.len() {
        Err(DecodeError { kind: DecodeErrorKind::Truncated, offset: buf.len() })
    } else {
        Ok((buf[i], i + 1))
    }
}

/// Reads a big-endian 16-bit field.
fn take_u16(buf: &[u8], i: usize) -> (r: Result<(u16, usize), DecodeError>)
    ensures
        match r {
            Ok((v, j)) => dec_u16(buf@, i as int) == Some((v, j as int)) && j == i + 2 && j
                <= buf@.len(),
            Err(er) => dec_u16(buf@, i as int) is None && er.offset == buf@.len(),
        },
{
    if i >= buf.len() || buf.len() - i < 2 {
        Err(DecodeError { kind: DecodeErrorKind::Truncated, offset: buf.len() })
    } else {
        Ok((read_u16_be(buf, i), i + 2))
    }
}

/// Reads a big-endian 32-bit field.
fn take_u32(buf: &[u8], i: usize) -> (r: Result<(u32, usize), DecodeError>)
    ensures
        match r {
            Ok((v, j)) => dec_u32(buf@, i as int) == Some((v, j as int)) && j == i + 4 && j
                <= buf@.len(),
            Err(er) => dec_u32(buf@, i as int) is None && er.offset == buf@.len(),
        },
{
    if i >= buf.len() || buf.len() - i < 4 {
        Err(DecodeError { kind: DecodeErrorKind::Truncated, offset: buf.len() })
    } else {
        Ok((read_u32_be(buf, i), i + 4))
    }
}

/// Reads a big-endian 64-bit field.
fn take_u64(buf: &[u8], i: usize) -> (r: Result<(u64, usize), DecodeError>)
    ensures
        match r {
            Ok((v, j)) => dec_u64(buf@, i as int) == Some((v, j as int)) && j == i + 8 && j
                <= buf@.len(),
            Err(er) => dec_u64(buf@, i as int) is None && er.offset == buf@.len(),
        },
{
    if i >= buf.len() || buf.len() - i < 8 {
        Err(DecodeError { kind: DecodeErrorKind::Truncated, offset: buf.len() })
    } else {
        Ok((read_u64_be(buf, i), i + 8))
    }
}

/// Reads a biased big-endian signed 16-bit field.
fn take_i16(buf: &[u8], i: usize) -> (r: Result<(i16, usize), DecodeError>)
    ensures
        match r {
            Ok((v, j)) => dec_i16(buf@, i as int) == Some((v, j as int)) && j == i + 2 && j
                <= buf@.len(),
            Err(er) => dec_i16(buf@, i as int) is None && er.offset == buf@.len(),
        },
{
    if i >= buf.len() || buf.len() - i < 2 {
        Err(DecodeError { kind: DecodeErrorKind::Truncated, offset: buf.len() })
    } else {
        Ok((read_i16_be(buf, i), i + 2))
    }
}

/// Reads a biased big-endian signed 64-bit field.
fn take_i64(buf: &[u8], i: usize) -> (r: Result<(i64, usize), DecodeError>)
    ensures
        match r {
            Ok((v, j)) => dec_i64(buf@, i as int) == Some((v, j as int)) && j == i + 8 && j
                <= buf@.len(),
            Err(er) => dec_i64(buf@, i as int) is None && er.offset == buf@.len(),
        },
{
    if i >= buf.len() || buf.len() - i < 8 {
        Err(DecodeError { kind: DecodeErrorKind::Truncated, offset: buf.len() })
    } else {
        Ok((read_i64_be(buf, i), i + 8))
    }
}

/// Reads the enumerated fields and the spline payload of a record.
#[verifier::rlimit(100)]
#[verifier::loop_isolation(false)]
fn decode_tail(buf: &[u8], start: usize) -> (r: Result<
    (InterpolationKind, DistanceUnit, TimeUnit, Splines, usize),
    DecodeError,
>)
    ensures
        match r {
            Ok((kind, dunit, tunit, splines, j)) => start <= j <= buf@.len()
                && splines.pieces@.len() <= 0xFFFF && pieces_ordered(
                splines.pieces@.map_values(|q: SplinePiece| q@),
            ) && (forall|k: int|
                0 <= k < splines.pieces@.len() ==> (#[trigger] splines.pieces@[k])@.coefficients.len()
                    == spec_coeffs_per_piece(kind, splines.degree))
                && forall|
                p: SegmentModel,
            |
                #[trigger] spec_decode_tail(buf@, start as int, p) == Some(
                    (
                        SegmentModel {
                            interpolation_kind: kind,
                            distance_unit: dunit,
                            time_unit: tunit,
                            degree: splines.degree,
                            pieces: splines.pieces@.map_values(|q: SplinePiece| q@),
                            ..p
                        },
                        j as int,
                    ),
                ),
            Err(er) => er.offset <= buf@.len() && er.offset == spec_tail_fail_offset(
                buf@,
                start as int,
            ) && forall|p: SegmentModel| #[trigger]
                spec_decode_tail(buf@, start as int, p) is None,
        },
{
    let o13 = match take_tag(buf, start, TAG_KIND) {
        Ok(j) => j,
        Err(er) => { return Err(er) },
    };
    let (kb, o14) = match take_byte(buf, o13) {
        Ok(v) => v,
        Err(er) => { return Err(er) },
    };
    let kind = match kind_from_tag(kb) {
        Some(k) => k,
        None => {
            return Err(DecodeError { kind: DecodeErrorKind::UnsupportedValue, offset: o13 })
        },
    };
    let o15 = match take_tag(buf, o14, TAG_DISTANCE_UNIT) {
        Ok(j) => j,
        Err(er) => { return Err(er) },
    };
    let (db, o16) = match take_byte(buf, o15) {
        Ok(v) => v,
        Err(er) => { return Err(er) },
    };
    let dunit = match distance_unit_from_tag(db) {
        Some(d) => d,
        None => {
            return Err(DecodeError { kind: DecodeErrorKind::UnsupportedValue, offset: o15 })
        },
    };
    let o17 = match take_tag(buf, o16, TAG_TIME_UNIT) {
        Ok(j) => j,
        Err(er) => { return Err(er) },
    };
    let (tb, o18) = match take_byte(buf, o17) {
        Ok(v) => v,
        Err(er) => { return Err(er) },
    };
    let tunit = match time_unit_from_tag(tb) {
        Some(t) => t,
        None => {
            return Err(DecodeError { kind: DecodeErrorKind::UnsupportedValue, offset: o17 })
        },
    };
    let o19 = match take_tag(buf, o18, TAG_SPLINES) {
        Ok(j) => j,
        Err(er) => { return Err(er) },
    };
    let (degree, o20) = match take_byte(buf, o19) {
        Ok(v) => v,
        Err(er) => { return Err(er) },
    };
    let (npieces, o21) = match take_u16(buf, o20) {
        Ok(v) => v,
        Err(er) => { return Err(er) },
    };
    let cpp = coeffs_per_piece(kind, degree);
    let mut pieces: Vec<SplinePiece> = Vec::new();
    let mut done: u16 = 0;
    let mut cur: usize = o21;
    while done < npieces
        invariant
            done <= npieces,
            start <= o21 <= cur <= buf@.len(),
            cpp == spec_coeffs_per_piece(kind, degree),
            pieces@.len() == done as nat,
            forall|k: int|
                0 <= k < pieces@.len() ==> (#[trigger] pieces@[k])@.coefficients.len()
                    == cpp as nat,
            dec_pieces(buf@, o21 as int, done as nat, cpp as nat) == Some(
                (pieces@.map_values(|q: SplinePiece| q@), cur as int),
            ),
        decreases npieces - done,
    {
        let ghost pre_models = pieces@.map_values(|q: SplinePiece| q@);
        let (t0, c1) = match take_i64(buf, cur) {
            Ok(v) => v,
            Err(er) => {
                proof {
                    lemma_dec_pieces_split(
                        buf@,
                        o21 as int,
                        done as nat,
                        (npieces - done) as nat,
                        cpp as nat,
                    );
                    assert(done as nat + (npieces - done) as nat == npieces as nat);
                    assert(dec_pieces(buf@, cur as int, (npieces - done) as nat, cpp as nat)
                        is None);
                    assert(dec_pieces(buf@, o21 as int, npieces as nat, cpp as nat) is None);
                }
                return Err(er);
            },
        };
        let (t1, c2) = match take_i64(buf, c1) {
            Ok(v) => v,
            Err(er) => {
                proof {
                    lemma_dec_pieces_split(
                        buf@,
                        o21 as int,
                        done as nat,
                        (npieces - done) as nat,
                        cpp as nat,
                    );
                    assert(done as nat + (npieces - done) as nat == npieces as nat);
                    assert(dec_pieces(buf@, cur as int, (npieces - done) as nat, cpp as nat)
                        is None);
                    assert(dec_pieces(buf@, o21 as int, npieces as nat, cpp as nat) is None);
                }
                return Err(er);
            },
        };
        let mut coeffs: Vec<u64> = Vec::new();
        let mut got: u16 = 0;
        let mut cc: usize = c2;
        while got < cpp
            invariant
                got <= cpp,
                c2 <= cc <= buf@.len(),
                coeffs@.len() == got as nat,
                dec_coeffs(buf@, c2 as int, got as nat) == Some((coeffs@, cc as int)),
            decreases cpp - got,
        {
            let (cv, cnext) = match take_u64(buf, cc) {
                Ok(v) => v,
                Err(er) => {
                    proof {
                        lemma_dec_coeffs_split(
                            buf@,
                            c2 as int,
                            got as nat,
                            (cpp - got) as nat,
                        );
                        assert(got as nat + (cpp - got) as nat == cpp as nat);
                        assert(dec_coeffs(buf@, cc as int, (cpp - got) as nat) is None);
                        assert(dec_coeffs(buf@, c2 as int, cpp as nat) is None);
                        assert(dec_piece(buf@, cur as int, cpp as nat) is None);
                        lemma_dec_pieces_split(
                            buf@,
                            o21 as int,
                            done as nat,
                            (npieces - done) as nat,
                            cpp as nat,
                        );
                        assert(done as nat + (npieces - done) as nat == npieces as nat);
                        assert(dec_pieces(buf@, cur as int, (npieces - done) as nat, cpp as nat)
                            is None);
                        assert(dec_pieces(buf@, o21 as int, npieces as nat, cpp as nat) is None);
                    }
                    return Err(er);
                },
            };
            let ghost pre_coeffs = coeffs@;
            coeffs.push(cv);
            proof {
                lemma_dec_coeffs_split(buf@, c2 as int, got as nat, 1);
                assert(dec_coeffs(buf@, cnext as int, 0) == Some(
                    (Seq::<u64>::empty(), cnext as int),
                ));
                assert(seq![cv] + Seq::<u64>::empty() =~= seq![cv]);
                assert(dec_coeffs(buf@, cc as int, 1) == Some((seq![cv], cnext as int)));
                assert(coeffs@ =~= pre_coeffs + seq![cv]);
                assert((got + 1) as nat == got as nat + 1);
            }
            got = got + 1;
            cc = cnext;
        }
        let ghost coeff_seq = coeffs@;
        let piece = SplinePiece { window_start: t0, window_end: t1, coefficients: coeffs };
        pieces.push(piece);
        proof {
            let pm = PieceModel { window_start: t0, window_end: t1, coefficients: coeff_seq };
            assert(dec_piece(buf@, cur as int, cpp as nat) == Some((pm, cc as int)));
            lemma_dec_pieces_split(buf@, o21 as int, done as nat, 1, cpp as nat);
            assert(dec_pieces(buf@, cc as int, 0, cpp as nat) == Some(
                (Seq::<PieceModel>::empty(), cc as int),
            ));
            assert(seq![pm] + Seq::<PieceModel>::empty() =~= seq![pm]);
            assert(dec_pieces(buf@, cur as int, 1, cpp as nat) == Some((seq![pm], cc as int)));
            assert(pieces@.map_values(|q: SplinePiece| q@) =~= pre_models + seq![pm]);
            assert((done + 1) as nat == done as nat + 1);
        }
        done = done + 1;
        cur = cc;
    }
    let ghost piece_models = pieces@.map_values(|q: SplinePiece| q@);
    let mut ck: usize = 0;
    let n_pieces: usize = pieces.len();
    while ck < n_pieces
        invariant
            ck <= n_pieces,
            n_pieces == pieces@.len(),
            piece_models == pieces@.map_values(|q: SplinePiece| q@),
            forall|k: int|
                0 <= k < ck ==> (#[trigger] piece_models[k]).window_start
                    < piece_models[k].window_end,
            forall|k: int|
                0 <= k < ck && k + 1 < n_pieces ==> (#[trigger] piece_models[k]).window_end
                    <= piece_models[k + 1].window_start,
        decreases n_pieces - ck,
    {
        let p = &pieces[ck];
        proof {
            assert(piece_models[ck as int] == pieces@[ck as int]@);
        }
        if p.window_start >= p.window_end {
            return Err(DecodeError { kind: DecodeErrorKind::UnsupportedValue, offset: cur });
        }
        if ck + 1 < n_pieces {
            proof {
                assert(piece_models[ck + 1] == pieces@[ck + 1]@);
            }
            if pieces[ck + 1].window_start < p.window_end {
                return Err(DecodeError { kind: DecodeErrorKind::UnsupportedValue, offset: cur });
            }
        }
        ck = ck + 1;
    }
    proof {
        assert(pieces_ordered(piece_models));
    }
    Ok((kind, dunit, tunit, Splines { degree, pieces }, cur))
}

impl Ephemeris {
    /// Reads one record starting at the given offset, returning it with the
    /// offset just past it.
    ///
    /// Succeeds exactly on the canonical encoding of a record; any
    /// malformed, truncated or non-canonical byte yields an error positioned
    /// inside the buffer.
    #[verifier::rlimit(100)]
    #[verifier::loop_isolation(false)]
    pub fn decode_record(buf: &[u8], start: usize) -> (r: Result<(Ephemeris, usize), DecodeError>)
        ensures
            match r {
                Ok((e, j)) => spec_decode_record(buf@, start as int) == Some((e@, j as int))
                    && start < j <= buf@.len() && validated(e@),
                Err(er) => spec_decode_record(buf@, start as int) is None && er.offset
                    <= buf@.len() && er.offset == spec_fail_offset(buf@, start as int),
            },
    {
        let o1 = match take_tag(buf, start, TAG_NAME) {
            Ok(j) => j,
            Err(er) => { return Err(er) },
        };
        let (name_len, o2) = match take_u16(buf, o1) {
            Ok(v) => v,
            Err(er) => { return Err(er) },
        };
        if buf.len() - o2 < name_len as usize {
            return Err(DecodeError { kind: DecodeErrorKind::LengthOverflow, offset: o2 });
        }
        let o3 = o2 + name_len as usize;
        let mut name: Vec<u8> = Vec::new();
        let mut nj: usize = o2;
        while nj < o3
            invariant
                o2 <= nj <= o3 <= buf@.len(),
                name@ == buf@.subrange(o2 as int, nj as int),
            decreases o3 - nj,
        {
            name.push(buf[nj]);
            proof {
                assert(buf@.subrange(o2 as int, nj + 1) =~= buf@.subrange(o2 as int, nj as int)
                    .push(buf@[nj as int]));
            }
            nj = nj + 1;
        }
        proof {
            assert(dec_bytes(buf@, o2 as int, name_len as int) == Some((name@, o3 as int)));
        }
        let o4 = match take_tag(buf, o3, TAG_EPOCH) {
            Ok(j) => j,
            Err(er) => { return Err(er) },
        };
        let (centuries, o5) = match take_i16(buf, o4) {
            Ok(v) => v,
            Err(er) => { return Err(er) },
        };
        let (nanoseconds, o6) = match take_u64(buf, o5) {
            Ok(v) => v,
            Err(er) => { return Err(er) },
        };
        if nanoseconds >= NANOSECONDS_PER_CENTURY {
            return Err(DecodeError { kind: DecodeErrorKind::UnsupportedValue, offset: o5 });
        }
        let o7 = match take_tag(buf, o6, TAG_FLAG) {
            Ok(j) => j,
            Err(er) => { return Err(er) },
        };
        let (flag, o8) = match take_byte(buf, o7) {
            Ok(v) => v,
            Err(er) => { return Err(er) },
        };
        if flag > 1 {
            return Err(DecodeError { kind: DecodeErrorKind::UnsupportedValue, offset: o7 });
        }
        let o9 = match take_tag(buf, o8, TAG_PARENT) {
            Ok(j) => j,
            Err(er) => { return Err(er) },
        };
        let (parent, o10) = match take_u32(buf, o9) {
            Ok(v) => v,
            Err(er) => { return Err(er) },
        };
        let o11 = match take_tag(buf, o10, TAG_ORIENTATION) {
            Ok(j) => j,
            Err(er) => { return Err(er) },
        };
        let (orientation, o12) = match take_u32(buf, o11) {
            Ok(v) => v,
            Err(er) => { return Err(er) },
        };
        let (kind, dunit, tunit, splines, end) = match decode_tail(buf, o12) {
            Ok(v) => v,
            Err(er) => { return Err(er) },
        };
        let e = Ephemeris {
            name,
            ref_epoch: Epoch { centuries, nanoseconds },
            backward: flag == 1,
            parent_ephemeris_hash: parent,
            orientation_hash: orientation,
            interpolation_kind: kind,
            distance_unit: dunit,
            time_unit: tunit,
            splines,
        };
        proof {
            let partial = SegmentModel {
                name: buf@.subrange(o2 as int, o2 + name_len),
                ref_epoch: Epoch { centuries, nanoseconds },
                backward: flag == 1,
                parent_ephemeris_hash: parent,
                orientation_hash: orientation,
                interpolation_kind: InterpolationKind::ChebyshevPositionOnly,
                distance_unit: DistanceUnit::Kilometer,
                time_unit: TimeUnit::Second,
                degree: 0,
                pieces: Seq::empty(),
            };
            assert(spec_decode_tail(buf@, o12 as int, partial) == Some((e@, end as int)));
            assert(spec_decode_record(buf@, start as int) == Some((e@, end as int)));
            assert(e@.name.len() <= 0xFFFF);
            assert(validated(e@));
        }
        Ok((e, end))
    }

    /// Reads the one record a whole buffer holds; bytes after the record
    /// are an error, so a buffer stands for at most one record.
    pub fn decode(buf: &[u8]) -> (r: Result<Ephemeris, DecodeError>)
        ensures
            match r {
                Ok(e) => spec_decode(buf@) == Some(e@) && validated(e@),
                Err(er) => spec_decode(buf@) is None && er.offset <= buf@.len() && er.offset
                    == (match spec_decode_record(buf@, 0) {
                    Some((m, end)) => end,
                    None => spec_fail_offset(buf@, 0),
                }),
            },
    {
        match Ephemeris::decode_record(buf, 0) {
            Ok((e, end)) => {
                if end == buf.len() {
                    Ok(e)
                } else {
                    Err(DecodeError { kind: DecodeErrorKind::TrailingBytes, offset: end })
                }
            },
            Err(er) => Err(er),
        }
    }
}

/// A buffer that holds the two bytes of a 16-bit value reads back as it.
proof fn lemma_dec_u16_exact(buf: Seq<u8>, i: int, v: u16)
    requires
        0 <= i,
        i + 2 <= buf.len(),
        buf.subrange(i, i + 2) == be16(v),
    ensures
        dec_u16(buf, i) == Some((v, i + 2)),
{
    assert(buf[i] == be16(v)[0]);
    assert(buf[i + 1] == be16(v)[1]);
    lemma_be16_roundtrip(v);
}

/// A buffer that holds the four bytes of a 32-bit value reads back as it.
proof fn lemma_dec_u32_exact(buf: Seq<u8>, i: int, v: u32)
    requires
        0 <= i,
        i + 4 <= buf.len(),
        buf.subrange(i, i + 4) == be32(v),
    ensures
        dec_u32(buf, i) == Some((v, i + 4)),
{
    assert(buf[i] == be32(v)[0]);
    assert(buf[i + 1] == be32(v)[1]);
    assert(buf[i + 2] == be32(v)[2]);
    assert(buf[i + 3] == be32(v)[3]);
    lemma_be32_roundtrip(v);
}

/// A buffer that holds the eight bytes of a 64-bit value reads back as it.
proof fn lemma_dec_u64_exact(buf: Seq<u8>, i: int, v: u64)
    requires
        0 <= i,
        i + 8 <= buf.len(),
        buf.subrange(i, i + 8) == be64(v),
    ensures
        dec_u64(buf, i) == Some((v, i + 8)),
{
    assert(buf[i] == be64(v)[0]);
    assert(buf[i + 1] == be64(v)[1]);
    assert(buf[i + 2] == be64(v)[2]);
    assert(buf[i + 3] == be64(v)[3]);
    assert(buf[i + 4] == be64(v)[4]);
    assert(buf[i + 5] == be64(v)[5]);
    assert(buf[i + 6] == be64(v)[6]);
    assert(buf[i + 7] == be64(v)[7]);
    lemma_be64_roundtrip(v);
}

/// A buffer that holds the biased bytes of a signed 16-bit value reads back
/// as it.
proof fn lemma_dec_i16_exact(buf: Seq<u8>, i: int, v: i16)
    requires
        0 <= i,
        i + 2 <= buf.len(),
        buf.subrange(i, i + 2) == bei16(v),
    ensures
        dec_i16(buf, i) == Some((v, i + 2)),
{
    assert(buf[i] == bei16(v)[0]);
    assert(buf[i + 1] == bei16(v)[1]);
    lemma_bei16_roundtrip(v);
}

/// A buffer that holds the biased bytes of a signed 64-bit value reads back
/// as it.
proof fn lemma_dec_i64_exact(buf: Seq<u8>, i: int, v: i64)
    requires
        0 <= i,
        i + 8 <= buf.len(),
        buf.subrange(i, i + 8) == bei64(v),
    ensures
        dec_i64(buf, i) == Some((v, i + 8)),
{
    assert(buf[i] == bei64(v)[0]);
    assert(buf[i + 1] == bei64(v)[1]);
    assert(buf[i + 2] == bei64(v)[2]);
    assert(buf[i + 3] == bei64(v)[3]);
    assert(buf[i + 4] == bei64(v)[4]);
    assert(buf[i + 5] == bei64(v)[5]);
    assert(buf[i + 6] == bei64(v)[6]);
    assert(buf[i + 7] == bei64(v)[7]);
    lemma_bei64_roundtrip(v);
}

/// Reassociating a concatenation of four buffers.
proof fn lemma_concat_shift(pre: Seq<u8>, a: Seq<u8>, b: Seq<u8>, post: Seq<u8>)
    ensures
        pre + (a + b) + post == pre + a + (b + post),
        pre + (a + b) + post == (pre + a) + b + post,
{
    assert(pre + (a + b) + post =~= pre + a + (b + post));
    assert(pre + (a + b) + post =~= (pre + a) + b + post);
}

/// A buffer laid out as some prefix, a coefficient sequence, and a suffix
/// reads the coefficients back exactly.
proof fn lemma_dec_coeffs_prefix(pre: Seq<u8>, cs: Seq<u64>, post: Seq<u8>)
    ensures
        dec_coeffs(pre + coeffs_bytes(cs) + post, pre.len() as int, cs.len() as nat) == Some(
            (cs, (pre.len() + coeffs_bytes(cs).len()) as int),
        ),
    decreases cs.len(),
{
    lemma_be_lens();
    lemma_coeffs_bytes_len(cs);
    let buf = pre + coeffs_bytes(cs) + post;
    let i = pre.len() as int;
    if cs.len() == 0 {
        assert(Seq::<u64>::empty() =~= cs);
    } else {
        let c0 = cs.first();
        let rest = cs.drop_first();
        lemma_coeffs_bytes_len(rest);
        assert(coeffs_bytes(cs) == be64(c0) + coeffs_bytes(rest));
        lemma_concat_shift(pre, be64(c0), coeffs_bytes(rest), post);
        assert(buf.subrange(i, i + 8) =~= be64(c0));
        lemma_dec_u64_exact(buf, i, c0);
        lemma_dec_coeffs_prefix(pre + be64(c0), rest, post);
        assert(seq![c0] + rest =~= cs);
    }
}

/// A buffer laid out as some prefix, one piece, and a suffix reads the
/// piece back exactly.
proof fn lemma_dec_piece_prefix(pre: Seq<u8>, p: PieceModel, post: Seq<u8>)
    ensures
        dec_piece(pre + piece_bytes(p) + post, pre.len() as int, p.coefficients.len() as nat)
            == Some((p, (pre.len() + piece_bytes(p).len()) as int)),
{
    lemma_be_lens();
    lemma_coeffs_bytes_len(p.coefficients);
    let buf = pre + piece_bytes(p) + post;
    let i = pre.len() as int;
    assert(buf.subrange(i, i + 8) =~= bei64(p.window_start));
    lemma_dec_i64_exact(buf, i, p.window_start);
    assert(buf.subrange(i + 8, i + 16) =~= bei64(p.window_end));
    lemma_dec_i64_exact(buf, i + 8, p.window_end);
    assert(buf =~= (pre + bei64(p.window_start) + bei64(p.window_end)) + coeffs_bytes(
        p.coefficients,
    ) + post);
    lemma_dec_coeffs_prefix(pre + bei64(p.window_start) + bei64(p.window_end), p.coefficients, post);
}

/// A buffer laid out as some prefix, a piece sequence of uniform
/// coefficient count, and a suffix reads the pieces back exactly.
#[verifier::rlimit(100)]
proof fn lemma_dec_pieces_prefix(pre: Seq<u8>, ps: Seq<PieceModel>, post: Seq<u8>, ncoeff: nat)
    requires
        forall|k: int| 0 <= k < ps.len() ==> (#[trigger] ps[k]).coefficients.len() == ncoeff,
    ensures
        dec_pieces(pre + pieces_bytes(ps) + post, pre.len() as int, ps.len() as nat, ncoeff)
            == Some((ps, (pre.len() + pieces_bytes(ps).len()) as int)),
    decreases ps.len(),
{
    lemma_pieces_bytes_len(ps, ncoeff as int);
    let buf = pre + pieces_bytes(ps) + post;
    let i = pre.len() as int;
    if ps.len() == 0 {
        assert(Seq::<PieceModel>::empty() =~= ps);
    } else {
        let p = ps.first();
        let rest = ps.drop_first();
        assert(forall|k: int|
            0 <= k < rest.len() ==> (#[trigger] rest[k]).coefficients.len() == ncoeff);
        lemma_pieces_bytes_len(rest, ncoeff as int);
        lemma_coeffs_bytes_len(p.coefficients);
        assert(pieces_bytes(ps) == piece_bytes(p) + pieces_bytes(rest));
        lemma_concat_shift(pre, piece_bytes(p), pieces_bytes(rest), post);
        lemma_dec_piece_prefix(pre, p, pieces_bytes(rest) + post);
        lemma_dec_pieces_prefix(pre + piece_bytes(p), rest, post, ncoeff);
        assert(seq![p] + rest =~= ps);
    }
}

/// The fixed-width middle fields of a record, embedded after any prefix,
/// read back exactly.
#[verifier::rlimit(100)]
proof fn lemma_dec_fixed(pre: Seq<u8>, m: SegmentModel, post: Seq<u8>)
    ensures
        ({
            let buf = pre + enc_fixed(m) + post;
            let b = pre.len() as int;
            &&& dec_tag(buf, b, TAG_EPOCH) == Some(b + 1)
            &&& dec_i16(buf, b + 1) == Some((m.ref_epoch.centuries, b + 3))
            &&& dec_u64(buf, b + 3) == Some((m.ref_epoch.nanoseconds, b + 11))
            &&& dec_tag(buf, b + 11, TAG_FLAG) == Some(b + 12)
            &&& dec_byte(buf, b + 12) == Some(
                (if m.backward {
                    1u8
                } else {
                    0u8
                }, b + 13),
            )
            &&& dec_tag(buf, b + 13, TAG_PARENT) == Some(b + 14)
            &&& dec_u32(buf, b + 14) == Some((m.parent_ephemeris_hash, b + 18))
            &&& dec_tag(buf, b + 18, TAG_ORIENTATION) == Some(b + 19)
            &&& dec_u32(buf, b + 19) == Some((m.orientation_hash, b + 23))
            &&& dec_tag(buf, b + 23, TAG_KIND) == Some(b + 24)
            &&& dec_byte(buf, b + 24) == Some((spec_kind_tag(m.interpolation_kind), b + 25))
            &&& dec_tag(buf, b + 25, TAG_DISTANCE_UNIT) == Some(b + 26)
            &&& dec_byte(buf, b + 26) == Some((spec_distance_unit_tag(m.distance_unit), b + 27))
            &&& dec_tag(buf, b + 27, TAG_TIME_UNIT) == Some(b + 28)
            &&& dec_byte(buf, b + 28) == Some((spec_time_unit_tag(m.time_unit), b + 29))
            &&& dec_tag(buf, b + 29, TAG_SPLINES) == Some(b + 30)
            &&& dec_byte(buf, b + 30) == Some((m.degree, b + 31))
            &&& dec_u16(buf, b + 31) == Some((m.pieces.len() as u16, b + 33))
        }),
{
    lemma_be_lens();
    let buf = pre + enc_fixed(m) + post;
    let b = pre.len() as int;
    assert(enc_fixed(m).len() == 33);
    assert(buf[b] == TAG_EPOCH);
    assert(buf.subrange(b + 1, b + 3) =~= bei16(m.ref_epoch.centuries));
    lemma_dec_i16_exact(buf, b + 1, m.ref_epoch.centuries);
    assert(buf.subrange(b + 3, b + 11) =~= be64(m.ref_epoch.nanoseconds));
    lemma_dec_u64_exact(buf, b + 3, m.ref_epoch.nanoseconds);
    assert(buf[b + 11] == TAG_FLAG);
    assert(buf[b + 12] == if m.backward {
        1u8
    } else {
        0u8
    });
    assert(buf[b + 13] == TAG_PARENT);
    assert(buf.subrange(b + 14, b + 18) =~= be32(m.parent_ephemeris_hash));
    lemma_dec_u32_exact(buf, b + 14, m.parent_ephemeris_hash);
    assert(buf[b + 18] == TAG_ORIENTATION);
    assert(buf.subrange(b + 19, b + 23) =~= be32(m.orientation_hash));
    lemma_dec_u32_exact(buf, b + 19, m.orientation_hash);
    assert(buf[b + 23] == TAG_KIND);
    assert(buf[b + 24] == spec_kind_tag(m.interpolation_kind));
    assert(buf[b + 25] == TAG_DISTANCE_UNIT);
    assert(buf[b + 26] == spec_distance_unit_tag(m.distance_unit));
    assert(buf[b + 27] == TAG_TIME_UNIT);
    assert(buf[b + 28] == spec_time_unit_tag(m.time_unit));
    assert(buf[b + 29] == TAG_SPLINES);
    assert(buf[b + 30] == m.degree);
    assert(buf.subrange(b + 31, b + 33) =~= be16(m.pieces.len() as u16));
    lemma_dec_u16_exact(buf, b + 31, m.pieces.len() as u16);
}

/// The codec round trip: decoding the canonical encoding of any validated
/// record gives back exactly that record.  Together with `decode`'s own
/// contract this pins the byte format: one record, one encoding, and back.
#[verifier::rlimit(100)]
pub proof fn lemma_codec_round_trip(m: SegmentModel)
    requires
        validated(m),
    ensures
        spec_decode(spec_encode(m)) == Some(m),
{
    lemma_be_lens();
    let hn = enc_name(m);
    let hf = enc_fixed(m);
    let pb = pieces_bytes(m.pieces);
    let s = spec_encode(m);
    let nl = m.name.len() as int;
    let cpp = spec_coeffs_per_piece(m.interpolation_kind, m.degree);
    let o3 = 3 + nl;
    let o21 = o3 + 33;
    lemma_pieces_bytes_len(m.pieces, cpp);
    assert(hn.len() == o3);
    assert(hf.len() == 33);
    assert(s.len() == o21 + pb.len());
    assert(s[0] == TAG_NAME);
    assert(dec_tag(s, 0, TAG_NAME) == Some(1int));
    assert(s.subrange(1, 3) =~= be16(nl as u16));
    lemma_dec_u16_exact(s, 1, nl as u16);
    assert(s.subrange(3, o3) =~= m.name);
    assert(dec_bytes(s, 3, nl) == Some((m.name, o3)));
    assert(s =~= hn + hf + pb);
    lemma_dec_fixed(hn, m, pb);
    assert(s =~= (hn + hf) + pb + Seq::<u8>::empty());
    lemma_dec_pieces_prefix(hn + hf, m.pieces, Seq::empty(), cpp as nat);
    assert(dec_pieces(s, o21, m.pieces.len() as nat, cpp as nat) == Some(
        (m.pieces, s.len() as int),
    ));
    let flag: u8 = if m.backward {
        1u8
    } else {
        0u8
    };
    assert(spec_kind_from_tag(spec_kind_tag(m.interpolation_kind)) == Some(m.interpolation_kind));
    assert(spec_distance_unit_from_tag(spec_distance_unit_tag(m.distance_unit)) == Some(
        m.distance_unit,
    ));
    assert(spec_time_unit_from_tag(spec_time_unit_tag(m.time_unit)) == Some(m.time_unit));
    let partial = SegmentModel {
        name: m.name,
        ref_epoch: Epoch {
            centuries: m.ref_epoch.centuries,
            nanoseconds: m.ref_epoch.nanoseconds,
        },
        backward: flag == 1,
        parent_ephemeris_hash: m.parent_ephemeris_hash,
        orientation_hash: m.orientation_hash,
        interpolation_kind: InterpolationKind::ChebyshevPositionOnly,
        distance_unit: DistanceUnit::Kilometer,
        time_unit: TimeUnit::Second,
        degree: 0,
        pieces: Seq::empty(),
    };
    assert(Epoch { centuries: m.ref_epoch.centuries, nanoseconds: m.ref_epoch.nanoseconds }
        == m.ref_epoch);
    assert((flag == 1) == m.backward);
    assert(pieces_ordered(m.pieces));
    assert(spec_decode_tail(s, o3 + 23, partial) == Some((m, s.len() as int)));
    assert(spec_decode_record(s, 0) == Some((m, s.len() as int)));
}

/// The record sequence a whole buffer holds: records back to back from the
/// start to the exact end of the buffer.
pub open spec fn spec_parse_all(buf: Seq<u8>, i: int) -> Option<Seq<SegmentModel>>
    decreases buf.len() - i,
{
    if i < 0 || i > buf.len() {
        None
    } else if i == buf.len() {
        Some(Seq::empty())
    } else {
        match spec_decode_record(buf, i) {
            Some((m, j)) => if i < j && j <= buf.len() {
                match spec_parse_all(buf, j) {
                    Some(rest) => Some(seq![m] + rest),
                    None => None,
                }
            } else {
                None
            },
            None => None,
        }
    }
}

/// The offset at which parsing a record sequence first fails: the failure
/// offset of the first record that does not decode.  The buffer length
/// when nothing fails.
pub open spec fn spec_parse_fail_offset(buf: Seq<u8>, i: int) -> int
    decreases buf.len() - i,
{
    if i < 0 || i >= buf.len() {
        buf.len() as int
    } else {
        match spec_decode_record(buf, i) {
            Some((m, j)) => if i < j && j <= buf.len() {
                spec_parse_fail_offset(buf, j)
            } else {
                buf.len() as int
            },
            None => spec_fail_offset(buf, i),
        }
    }
}

/// Reads every record of a kernel buffer, in order, to its exact end.
#[verifier::rlimit(100)]
pub fn parse_segments(buf: &[u8]) -> (r: Result<Vec<Ephemeris>, DecodeError>)
    ensures
        match r {
            Ok(v) => spec_parse_all(buf@, 0) == Some(v@.map_values(|e: Ephemeris| e@)),
            Err(er) => spec_parse_all(buf@, 0) is None && er.offset <= buf@.len() && er.offset
                == spec_parse_fail_offset(buf@, 0),
        },
{
    let mut out: Vec<Ephemeris> = Vec::new();
    let mut cur: usize = 0;
    while cur < buf.len()
        invariant
            cur <= buf@.len(),
            spec_parse_all(buf@, 0) == (match spec_parse_all(buf@, cur as int) {
                Some(rest) => Some(out@.map_values(|e: Ephemeris| e@) + rest),
                None => None::<Seq<SegmentModel>>,
            }),
            spec_parse_fail_offset(buf@, 0) == spec_parse_fail_offset(buf@, cur as int),
        decreases buf@.len() - cur,
    {
        let ghost pre = out@.map_values(|e: Ephemeris| e@);
        let (e, next) = match Ephemeris::decode_record(buf, cur) {
            Ok(v) => v,
            Err(er) => { return Err(er) },
        };
        let ghost em = e@;
        out.push(e);
        proof {
            assert(out@.map_values(|q: Ephemeris| q@) =~= pre + seq![em]);
            match spec_parse_all(buf@, next as int) {
                Some(rest) => {
                    assert((pre + seq![em]) + rest =~= pre + (seq![em] + rest));
                },
                None => {},
            }
        }
        cur = next;
    }
    proof {
        assert(spec_parse_all(buf@, cur as int) == Some(Seq::<SegmentModel>::empty()));
        assert(out@.map_values(|e: Ephemeris| e@) + Seq::<SegmentModel>::empty() =~= out@.map_values(
            |e: Ephemeris| e@,
        ));
    }
    Ok(out)
}

/// Canonical encoding is injective: two validated records with the same
/// bytes are the same record.
pub proof fn lemma_encode_injective(m1: SegmentModel, m2: SegmentModel)
    requires
        validated(m1),
        validated(m2),
        spec_encode(m1) == spec_encode(m2),
    ensures
        m1 == m2,
{
    lemma_codec_round_trip(m1);
    lemma_codec_round_trip(m2);
}

} // verus!

//! The ephemeris segment store: a parsed, indexed view over one or more
//! kernel buffers.
//!
//! A store maps each body hash — the hash of the segment name — to the
//! ordered list of records that describe that body's motion relative to its
//! parent.  Loading more kernels produces a new, extended store: a body's
//! existing records are never overwritten, only appended to.
use vstd::prelude::*;
use crate::codec::spec_decode_record;
use crate::codec::spec_parse_all;
use crate::codec::spec_parse_fail_offset;
use crate::epoch::Epoch;
use crate::errors::AniseError;
use crate::errors::DecodeError;
use crate::hashing::hash_name;
use crate::hashing::hash_of;
use crate::records::Ephemeris;
use crate::records::SegmentModel;
use crate::records::SplinePiece;
use crate::records::Splines;
use crate::records::BodyModel;
use crate::records::coeffs_per_piece;
use crate::records::spec_coeffs_per_piece;
use crate::records::encodable;
use crate::records::validated;

verus! {

/// One body's entry: its identity hash and its ordered records.
#[derive(Clone, Debug)]
pub struct BodyRecord {
    pub body_hash: u32,
    pub segments: Vec<Ephemeris>,
}

impl View for BodyRecord {
    type V = BodyModel;

    open spec fn view(&self) -> BodyModel {
        BodyModel {
            body_hash: self.body_hash,
            segments: self.segments@.map_values(|e: Ephemeris| e@),
        }
    }
}

/// The indexed, immutable-after-load store of every parsed record.
#[derive(Clone, Debug)]
pub struct Context {
    pub bodies: Vec<BodyRecord>,
}

impl View for Context {
    type V = Seq<BodyModel>;

    open spec fn view(&self) -> Seq<BodyModel> {
        self.bodies@.map_values(|b: BodyRecord| b@)
    }
}

/// A well-formed store: body hashes are unique, every body holds at least
/// one record, every record is validated, hashes to its body's hash, and
/// shares its body's name.
pub open spec fn ctx_wf(c: Seq<BodyModel>) -> bool {
    &&& forall|i: int, j: int|
        0 <= i < j < c.len() ==> (#[trigger] c[i]).body_hash != (#[trigger] c[j]).body_hash
    &&& forall|i: int| 0 <= i < c.len() ==> (#[trigger] c[i]).segments.len() >= 1
    &&& forall|i: int, k: int|
        0 <= i < c.len() && 0 <= k < c[i].segments.len() ==> {
            &&& validated(#[trigger] c[i].segments[k])
            &&& hash_of(c[i].segments[k].name) == c[i].body_hash
            &&& c[i].segments[k].name == c[i].segments[0].name
        }
}

/// Whether some body in the store carries this hash.
pub open spec fn has_body(c: Seq<BodyModel>, h: u32) -> bool {
    exists|i: int| 0 <= i < c.len() && (#[trigger] c[i]).body_hash == h
}

/// Appending one record to a store: a new body entry for a new hash, an
/// appended record for a known hash with the same name, and a reported
/// collision for a known hash with a different name.
pub open spec fn spec_append_segment(c: Seq<BodyModel>, m: SegmentModel) -> Result<
    Seq<BodyModel>,
    AniseError,
> {
    let h = hash_of(m.name);
    if !validated(m) {
        Err(AniseError::IntegrityError(h))
    } else if has_body(c, h) {
        let i = choose|i: int| 0 <= i < c.len() && (#[trigger] c[i]).body_hash == h;
        if c[i].segments.len() > 0 && c[i].segments[0].name != m.name {
            Err(AniseError::HashCollision(h))
        } else {
            Ok(
                c.update(
                    i,
                    BodyModel { body_hash: h, segments: c[i].segments.push(m) },
                ),
            )
        }
    } else {
        Ok(c.push(BodyModel { body_hash: h, segments: seq![m] }))
    }
}

/// Loading a parsed record sequence: each record appended in order, the
/// first failure reported.
pub open spec fn spec_load(c: Seq<BodyModel>, segs: Seq<SegmentModel>) -> Result<
    Seq<BodyModel>,
    AniseError,
>
    decreases segs.len(),
{
    if segs.len() == 0 {
        Ok(c)
    } else {
        match spec_append_segment(c, segs.first()) {
            Ok(c2) => spec_load(c2, segs.drop_first()),
            Err(e) => Err(e),
        }
    }
}

/// Appending a record to a well-formed store keeps it well formed, keeps
/// every body it had, and never shortens a body's record list.
pub proof fn lemma_append_wf(c: Seq<BodyModel>, m: SegmentModel)
    requires
        ctx_wf(c),
        spec_append_segment(c, m) is Ok,
    ensures
        ctx_wf(spec_append_segment(c, m)->Ok_0),
        forall|h: u32| has_body(c, h) ==> has_body(spec_append_segment(c, m)->Ok_0, h),
{
    let h = hash_of(m.name);
    let c2 = spec_append_segment(c, m)->Ok_0;
    assert forall|hh: u32| has_body(c, hh) implies has_body(c2, hh) by {
        let j = choose|j: int| 0 <= j < c.len() && (#[trigger] c[j]).body_hash == hh;
        assert(c2[j].body_hash == hh);
        assert(has_body(c2, hh));
    }
}

/// Loading a record sequence onto a well-formed store keeps it well formed
/// and keeps every body it had.
pub proof fn lemma_load_wf(c: Seq<BodyModel>, segs: Seq<SegmentModel>)
    requires
        ctx_wf(c),
        spec_load(c, segs) is Ok,
    ensures
        ctx_wf(spec_load(c, segs)->Ok_0),
        forall|h: u32| has_body(c, h) ==> has_body(spec_load(c, segs)->Ok_0, h),
    decreases segs.len(),
{
    if segs.len() == 0 {
    } else {
        let c2 = spec_append_segment(c, segs.first())->Ok_0;
        lemma_append_wf(c, segs.first());
        lemma_load_wf(c2, segs.drop_first());
    }
}

impl Context {
    /// A store with nothing loaded.
    pub fn empty() -> (c: Context)
        ensures
            c@ == Seq::<BodyModel>::empty(),
            ctx_wf(c@),
    {
        let c = Context { bodies: Vec::new() };
        proof {
            assert(c@ =~= Seq::<BodyModel>::empty());
        }
        c
    }

    /// The index of the body carrying this hash, if any is loaded.
    pub fn find_body(&self, h: u32) -> (r: Option<usize>)
        ensures
            match r {
                Some(i) => i < self@.len() && self@[i as int].body_hash == h,
                None => !has_body(self@, h),
            },
    {
        let mut i: usize = 0;
        while i < self.bodies.len()
            invariant
                i <= self@.len(),
                self@.len() == self.bodies@.len(),
                forall|j: int| 0 <= j < i ==> (#[trigger] self@[j]).body_hash != h,
            decreases self@.len() - i,
        {
            if self.bodies[i].body_hash == h {
                return Some(i);
            }
            i = i + 1;
        }
        None
    }
}

/// Byte-for-byte equality of two buffers.
fn eq_bytes(a: &[u8], b: &[u8]) -> (r: bool)
    ensures
        r == (a@ == b@),
{
    if a.len() != b.len() {
        proof {
            assert(a@ != b@);
        }
        return false;
    }
    let mut i: usize = 0;
    while i < a.len()
        invariant
            i <= a@.len(),
            a@.len() == b@.len(),
            forall|j: int| 0 <= j < i ==> a@[j] == b@[j],
        decreases a@.len() - i,
    {
        if a[i] != b[i] {
            proof {
                assert(a@ != b@);
            }
            return false;
        }
        i = i + 1;
    }
    proof {
        assert(a@ =~= b@);
    }
    true
}

/// Whether a record's payload makes sense: sized pieces, ordered and
/// non-overlapping non-empty windows, a well-formed epoch, encodable
/// lengths.
pub fn validate_segment(e: &Ephemeris) -> (r: bool)
    ensures
        r == validated(e@),
{
    if e.name.len() > 0xFFFF || e.splines.pieces.len() > 0xFFFF
        || e.ref_epoch.nanoseconds >= crate::epoch::NANOSECONDS_PER_CENTURY {
        return false;
    }
    let cpp = coeffs_per_piece(e.interpolation_kind, e.splines.degree);
    let n = e.splines.pieces.len();
    let mut i: usize = 0;
    while i < n
        invariant
            i <= n,
            n == e@.pieces.len(),
            cpp == spec_coeffs_per_piece(e@.interpolation_kind, e@.degree),
            e@.pieces == e.splines.pieces@.map_values(|p: SplinePiece| p@),
            forall|k: int|
                0 <= k < i ==> (#[trigger] e@.pieces[k]).coefficients.len() == cpp
                    && e@.pieces[k].window_start < e@.pieces[k].window_end,
            forall|k: int|
                0 <= k < i && k + 1 < n ==> (#[trigger] e@.pieces[k]).window_end <= e@.pieces[
                    k + 1
                ].window_start,
        decreases n - i,
    {
        let p = &e.splines.pieces[i];
        proof {
            assert(e@.pieces[i as int] == e.splines.pieces@[i as int]@);
        }
        if p.coefficients.len() != cpp as usize || p.window_start >= p.window_end {
            return false;
        }
        if i + 1 < n {
            proof {
                assert(e@.pieces[i + 1] == e.splines.pieces@[i + 1]@);
            }
            if e.splines.pieces[i + 1].window_start < p.window_end {
                return false;
            }
        }
        proof {
            if i + 1 < n {
                assert(e@.pieces[i as int].window_end <= e@.pieces[i + 1].window_start);
            }
        }
        i = i + 1;
    }
    true
}

impl Context {
    /// Appends one record: a new body for a new hash, one more record for a
    /// known hash with the same name, a reported collision otherwise.
    fn push_segment(&mut self, e: Ephemeris) -> (r: Result<(), AniseError>)
        requires
            ctx_wf(old(self)@),
        ensures
            match r {
                Ok(_) => spec_append_segment(old(self)@, e@) == Ok::<Seq<BodyModel>, AniseError>(
                    final(self)@,
                ) && ctx_wf(final(self)@),
                Err(er) => spec_append_segment(old(self)@, e@) == Err::<
                    Seq<BodyModel>,
                    AniseError,
                >(er) && final(self)@ == old(self)@,
            },
    {
        let h = hash_name(e.name.as_slice());
        if !validate_segment(&e) {
            return Err(AniseError::IntegrityError(h));
        }
        match self.find_body(h) {
            Some(i) => {
                proof {
                    let j = choose|j: int|
                        0 <= j < old(self)@.len() && (#[trigger] old(self)@[j]).body_hash == h;
                    assert(j == i);
                }
                if !eq_bytes(e.name.as_slice(), self.bodies[i].segments[0].name.as_slice()) {
                    return Err(AniseError::HashCollision(h));
                }
                let ghost pre = self@;
                let mut rec = self.bodies.remove(i);
                rec.segments.push(e);
                self.bodies.insert(i, rec);
                proof {
                    assert(self@ =~= pre.update(
                        i as int,
                        BodyModel {
                            body_hash: h,
                            segments: pre[i as int].segments.push(e@),
                        },
                    )) by {
                        assert(self@.len() == pre.len());
                        assert(forall|k: int|
                            0 <= k < pre.len() && k != i ==> self@[k] == (#[trigger] pre[k]));
                        assert(self@[i as int].segments =~= pre[i as int].segments.push(e@));
                        assert(self@[i as int] == BodyModel {
                            body_hash: h,
                            segments: pre[i as int].segments.push(e@),
                        });
                    }
                    lemma_append_wf(pre, e@);
                }
                Ok(())
            },
            None => {
                let ghost pre = self@;
                let ghost em = e@;
                let mut segments: Vec<Ephemeris> = Vec::new();
                segments.push(e);
                let rec = BodyRecord { body_hash: h, segments };
                proof {
                    assert(rec@.segments =~= seq![em]);
                    assert(rec@ == BodyModel { body_hash: h, segments: seq![em] });
                }
                let ghost rv = rec@;
                self.bodies.push(rec);
                proof {
                    assert(self@ =~= pre.push(rv));
                    lemma_append_wf(pre, em);
                }
                Ok(())
            },
        }
    }
}

/// An exact copy of a byte vector.
fn copy_bytes(a: &Vec<u8>) -> (r: Vec<u8>)
    ensures
        r@ == a@,
{
    let mut r: Vec<u8> = Vec::new();
    let mut i: usize = 0;
    while i < a.len()
        invariant
            i <= a@.len(),
            r@ == a@.subrange(0, i as int),
        decreases a@.len() - i,
    {
        r.push(a[i]);
        proof {
            assert(a@.subrange(0, i + 1) =~= a@.subrange(0, i as int).push(a@[i as int]));
        }
        i = i + 1;
    }
    proof {
        assert(a@.subrange(0, a@.len() as int) =~= a@);
    }
    r
}

/// An exact copy of a coefficient vector.
fn copy_coeffs(a: &Vec<u64>) -> (r: Vec<u64>)
    ensures
        r@ == a@,
{
    let mut r: Vec<u64> = Vec::new();
    let mut i: usize = 0;
    while i < a.len()
        invariant
            i <= a@.len(),
            r@ == a@.subrange(0, i as int),
        decreases a@.len() - i,
    {
        r.push(a[i]);
        proof {
            assert(a@.subrange(0, i + 1) =~= a@.subrange(0, i as int).push(a@[i as int]));
        }
        i = i + 1;
    }
    proof {
        assert(a@.subrange(0, a@.len() as int) =~= a@);
    }
    r
}

/// An exact copy of one record.
pub fn copy_ephemeris(e: &Ephemeris) -> (r: Ephemeris)
    ensures
        r@ == e@,
{
    let mut pieces: Vec<SplinePiece> = Vec::new();
    let mut i: usize = 0;
    while i < e.splines.pieces.len()
        invariant
            i <= e.splines.pieces@.len(),
            pieces@.map_values(|p: SplinePiece| p@) == e.splines.pieces@.map_values(
                |p: SplinePiece| p@,
            ).subrange(0, i as int),
        decreases e.splines.pieces@.len() - i,
    {
        let src = &e.splines.pieces[i];
        let ghost pre = pieces@.map_values(|p: SplinePiece| p@);
        pieces.push(
            SplinePiece {
                window_start: src.window_start,
                window_end: src.window_end,
                coefficients: copy_coeffs(&src.coefficients),
            },
        );
        proof {
            let all = e.splines.pieces@.map_values(|p: SplinePiece| p@);
            assert(pieces@.map_values(|p: SplinePiece| p@) =~= pre.push(all[i as int]));
            assert(all.subrange(0, i + 1) =~= all.subrange(0, i as int).push(all[i as int]));
        }
        i = i + 1;
    }
    proof {
        let all = e.splines.pieces@.map_values(|p: SplinePiece| p@);
        assert(all.subrange(0, all.len() as int) =~= all);
    }
    let r = Ephemeris {
        name: copy_bytes(&e.name),
        ref_epoch: e.ref_epoch,
        backward: e.backward,
        parent_ephemeris_hash: e.parent_ephemeris_hash,
        orientation_hash: e.orientation_hash,
        interpolation_kind: e.interpolation_kind,
        distance_unit: e.distance_unit,
        time_unit: e.time_unit,
        splines: Splines { degree: e.splines.degree, pieces },
    };
    r
}

/// Building a store from a sequence of kernel buffers, each parsed and
/// loaded in order; any failure yields nothing.
pub open spec fn spec_build(c: Seq<BodyModel>, buffers: Seq<Seq<u8>>) -> Option<Seq<BodyModel>>
    decreases buffers.len(),
{
    if buffers.len() == 0 {
        Some(c)
    } else {
        match spec_parse_all(buffers.first(), 0) {
            Some(segs) => match spec_load(c, segs) {
                Ok(c2) => spec_build(c2, buffers.drop_first()),
                Err(_) => None,
            },
            None => None,
        }
    }
}


/// A failing load reports a data-integrity error or a hash collision.
proof fn lemma_load_err_kind(c: Seq<BodyModel>, segs: Seq<SegmentModel>)
    requires
        spec_load(c, segs) is Err,
    ensures
        spec_load(c, segs)->Err_0 is IntegrityError || spec_load(c, segs)->Err_0 is HashCollision,
    decreases segs.len(),
{
    if segs.len() == 0 {
    } else {
        match spec_append_segment(c, segs.first()) {
            Ok(c2) => {
                lemma_load_err_kind(c2, segs.drop_first());
            },
            Err(_) => {},
        }
    }
}

/// One successful append step advances the pending-load equation.
proof fn lemma_load_step_ok(
    c0: Seq<BodyModel>,
    pre: Seq<BodyModel>,
    all: Seq<SegmentModel>,
    i: int,
    c2: Seq<BodyModel>,
)
    requires
        0 <= i < all.len(),
        spec_load(c0, all) == spec_load(pre, all.skip(i)),
        spec_append_segment(pre, all[i]) == Ok::<Seq<BodyModel>, AniseError>(c2),
    ensures
        spec_load(c0, all) == spec_load(c2, all.skip(i + 1)),
{
    assert(all.skip(i).first() == all[i]);
    assert(all.skip(i).drop_first() =~= all.skip(i + 1));
}

/// One failing append step settles the whole load.
proof fn lemma_load_step_err(
    c0: Seq<BodyModel>,
    pre: Seq<BodyModel>,
    all: Seq<SegmentModel>,
    i: int,
    er: AniseError,
)
    requires
        0 <= i < all.len(),
        spec_load(c0, all) == spec_load(pre, all.skip(i)),
        spec_append_segment(pre, all[i]) == Err::<Seq<BodyModel>, AniseError>(er),
    ensures
        spec_load(c0, all) == Err::<Seq<BodyModel>, AniseError>(er),
{
    assert(all.skip(i).first() == all[i]);
}

impl Context {
    /// An exact copy of this store: the new value shares nothing with the
    /// old one, so the old one stays valid and unchanged forever.
    pub fn duplicate(&self) -> (c: Context)
        ensures
            c@ == self@,
    {
        let mut bodies: Vec<BodyRecord> = Vec::new();
        let mut i: usize = 0;
        while i < self.bodies.len()
            invariant
                i <= self.bodies@.len(),
                bodies@.map_values(|b: BodyRecord| b@) == self@.subrange(0, i as int),
            decreases self.bodies@.len() - i,
        {
            let src = &self.bodies[i];
            let mut segments: Vec<Ephemeris> = Vec::new();
            let mut k: usize = 0;
            while k < src.segments.len()
                invariant
                    k <= src.segments@.len(),
                    segments@.map_values(|e: Ephemeris| e@) == src@.segments.subrange(
                        0,
                        k as int,
                    ),
                decreases src.segments@.len() - k,
            {
                let ghost pre = segments@.map_values(|e: Ephemeris| e@);
                segments.push(copy_ephemeris(&src.segments[k]));
                proof {
                    assert(segments@.map_values(|e: Ephemeris| e@) =~= pre.push(
                        src@.segments[k as int],
                    ));
                    assert(src@.segments.subrange(0, k + 1) =~= src@.segments.subrange(
                        0,
                        k as int,
                    ).push(src@.segments[k as int]));
                }
                k = k + 1;
            }
            proof {
                assert(src@.segments.subrange(0, src@.segments.len() as int) =~= src@.segments);
            }
            let ghost pre = bodies@.map_values(|b: BodyRecord| b@);
            let rec = BodyRecord { body_hash: src.body_hash, segments };
            proof {
                assert(rec@ == self@[i as int]);
            }
            bodies.push(rec);
            proof {
                assert(bodies@.map_values(|b: BodyRecord| b@) =~= pre.push(self@[i as int]));
                assert(self@.subrange(0, i + 1) =~= self@.subrange(0, i as int).push(
                    self@[i as int],
                ));
            }
            i = i + 1;
        }
        proof {
            assert(self@.subrange(0, self@.len() as int) =~= self@);
        }
        let c = Context { bodies };
        c
    }

    /// Loads one more kernel buffer, producing a new, extended store.
    ///
    /// Succeeds iff every record of the buffer decodes and validates and no
    /// hash collision arises; the new store keeps every body of the old one
    /// and extends, never overwrites, their record lists.
    #[verifier::rlimit(100)]
    pub fn load_additional(&self, buf: &[u8]) -> (r: Result<Context, AniseError>)
        requires
            ctx_wf(self@),
        ensures
            match r {
                Ok(c2) => {
                    &&& ctx_wf(c2@)
                    &&& spec_parse_all(buf@, 0) is Some
                    &&& spec_load(self@, spec_parse_all(buf@, 0)->Some_0) == Ok::<
                        Seq<BodyModel>,
                        AniseError,
                    >(c2@)
                    &&& forall|h: u32| has_body(self@, h) ==> has_body(c2@, h)
                },
                Err(e) => match spec_parse_all(buf@, 0) {
                    Some(segs) => spec_load(self@, segs) == Err::<Seq<BodyModel>, AniseError>(e),
                    None => e is MalformedRecord && e->MalformedRecord_0.offset <= buf@.len()
                        && e->MalformedRecord_0.offset == spec_parse_fail_offset(buf@, 0),
                },
            },
    {
        let segs = match crate::codec::parse_segments(buf) {
            Ok(v) => v,
            Err(de) => { return Err(AniseError::MalformedRecord(de)) },
        };
        let ghost all = segs@.map_values(|e: Ephemeris| e@);
        let mut ctx = self.duplicate();
        proof {
            assert(all.skip(0) =~= all);
        }
        let mut i: usize = 0;
        while i < segs.len()
            invariant
                i <= segs@.len(),
                all == segs@.map_values(|e: Ephemeris| e@),
                spec_parse_all(buf@, 0) == Some(all),
                ctx_wf(self@),
                ctx_wf(ctx@),
                spec_load(self@, all) == spec_load(ctx@, all.skip(i as int)),
            decreases segs@.len() - i,
        {
            let ghost pre = ctx@;
            let e = copy_ephemeris(&segs[i]);
            proof {
                assert(e@ == all[i as int]);
            }
            match ctx.push_segment(e) {
                Ok(_) => {
                    proof {
                        lemma_load_step_ok(self@, pre, all, i as int, ctx@);
                    }
                },
                Err(er) => {
                    proof {
                        lemma_load_step_err(self@, pre, all, i as int, er);
                    }
                    return Err(er);
                },
            }
            i = i + 1;
        }
        proof {
            assert(all.skip(all.len() as int) =~= Seq::<SegmentModel>::empty());
            lemma_load_wf(self@, all);
        }
        Ok(ctx)
    }


    /// Whether this store is well formed.  True of every store the library
    /// builds; lets a caller holding a store of unknown origin test the
    /// precondition of the query functions.
    #[verifier::rlimit(100)]
    pub fn is_well_formed(&self) -> (r: bool)
        ensures
            r == ctx_wf(self@),
    {
        let n = self.bodies.len();
        let mut i: usize = 0;
        while i < n
            invariant
                n == self@.len(),
                i <= n,
                forall|a: int, b: int|
                    0 <= a < b < n && a < i ==> (#[trigger] self@[a]).body_hash != (
                    #[trigger] self@[b]).body_hash,
            decreases n - i,
        {
            let mut j: usize = i + 1;
            while j < n
                invariant
                    n == self@.len(),
                    i < n,
                    i < j <= n,
                    forall|b: int|
                        i < b < j ==> (#[trigger] self@[b]).body_hash != self@[i as int].body_hash,
                decreases n - j,
            {
                if self.bodies[j].body_hash == self.bodies[i].body_hash {
                    proof {
                        assert(self@[j as int].body_hash == self@[i as int].body_hash);
                        assert(!ctx_wf(self@));
                    }
                    return false;
                }
                j = j + 1;
            }
            i = i + 1;
        }
        let mut bi: usize = 0;
        while bi < n
            invariant
                n == self@.len(),
                bi <= n,
                forall|a: int, b: int|
                    0 <= a < b < n ==> (#[trigger] self@[a]).body_hash != (
                    #[trigger] self@[b]).body_hash,
                forall|a: int| 0 <= a < bi ==> (#[trigger] self@[a]).segments.len() >= 1,
                forall|a: int, k: int|
                    0 <= a < bi && 0 <= k < self@[a].segments.len() ==> {
                        &&& validated(#[trigger] self@[a].segments[k])
                        &&& hash_of(self@[a].segments[k].name) == self@[a].body_hash
                        &&& self@[a].segments[k].name == self@[a].segments[0].name
                    },
            decreases n - bi,
        {
            let body = &self.bodies[bi];
            if body.segments.len() == 0 {
                return false;
            }
            let mut k: usize = 0;
            while k < body.segments.len()
                invariant
                    (bi as int) < self@.len(),
                    body@ == self@[bi as int],
                    body.segments@.len() == self@[bi as int].segments.len(),
                    body.segments@.len() >= 1,
                    k <= body.segments@.len(),
                    forall|q: int|
                        0 <= q < k ==> {
                            &&& validated(#[trigger] self@[bi as int].segments[q])
                            &&& hash_of(self@[bi as int].segments[q].name) == self@[
                                bi as int
                            ].body_hash
                            &&& self@[bi as int].segments[q].name == self@[
                                bi as int
                            ].segments[0].name
                        },
                decreases body.segments@.len() - k,
            {
                let seg = &body.segments[k];
                proof {
                    assert(seg@ == self@[bi as int].segments[k as int]);
                    assert(body.segments@[0]@ == self@[bi as int].segments[0]);
                }
                if !validate_segment(seg) {
                    return false;
                }
                if hash_name(seg.name.as_slice()) != body.body_hash {
                    return false;
                }
                if !eq_bytes(seg.name.as_slice(), body.segments[0].name.as_slice()) {
                    return false;
                }
                k = k + 1;
            }
            bi = bi + 1;
        }
        true
    }

    /// Builds a store from a set of kernel buffers, parsed and loaded in
    /// order onto an empty store.
    #[verifier::rlimit(100)]
    pub fn build_context(buffers: &Vec<Vec<u8>>) -> (r: Result<Context, AniseError>)
        ensures
            match r {
                Ok(c) => ctx_wf(c@) && spec_build(
                    Seq::empty(),
                    buffers@.map_values(|b: Vec<u8>| b@),
                ) == Some(c@),
                Err(e) => spec_build(Seq::empty(), buffers@.map_values(|b: Vec<u8>| b@)) is None
                    && (e is MalformedRecord || e is HashCollision || e is IntegrityError),
            },
    {
        let ghost views = buffers@.map_values(|b: Vec<u8>| b@);
        let mut ctx = Context::empty();
        proof {
            assert(views.skip(0) =~= views);
        }
        let mut i: usize = 0;
        while i < buffers.len()
            invariant
                i <= buffers@.len(),
                views == buffers@.map_values(|b: Vec<u8>| b@),
                ctx_wf(ctx@),
                spec_build(Seq::empty(), views) == spec_build(ctx@, views.skip(i as int)),
            decreases buffers@.len() - i,
        {
            proof {
                assert(views.skip(i as int).first() == views[i as int]);
                assert(views.skip(i as int).drop_first() =~= views.skip(i + 1));
            }
            let next = match ctx.load_additional(buffers[i].as_slice()) {
                Ok(c2) => c2,
                Err(e) => {
                    proof {
                        match spec_parse_all(views[i as int], 0) {
                            Some(segs) => {
                                lemma_load_err_kind(ctx@, segs);
                            },
                            None => {},
                        }
                        assert(spec_build(ctx@, views.skip(i as int)) is None);
                    }
                    return Err(e);
                },
            };
            ctx = next;
            i = i + 1;
        }
        proof {
            assert(views.skip(views.len() as int) =~= Seq::<Seq<u8>>::empty());
        }
        Ok(ctx)
    }
}

} // verus!

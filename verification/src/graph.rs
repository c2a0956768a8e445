//! The frame graph: parent-hash links between loaded bodies, the walk to a
//! root, and the combined translation path between two frames.
//!
//! Every loaded body names its parent by hash; a hash with no loaded body
//! is a root.  The parent walk is deterministic — a body's link is taken
//! from its first record — so two frames can be translated iff their walks
//! reach the same root.
use vstd::prelude::*;
use crate::epoch::Epoch;
use crate::errors::AniseError;
use crate::frames::RefFrame;
use crate::records::BodyModel;
use crate::coverage::covers;
use crate::coverage::query_offset_nanos;
use crate::coverage::window_contains;
use crate::records::SegmentModel;
use crate::records::spec_nanoseconds_per_time_unit;
use crate::records::validated;
use crate::store::Context;
use crate::store::ctx_wf;
use crate::store::has_body;

verus! {

/// The parent hash that the walk follows out of body `h`: the parent named
/// by the body's first record.  Meaningful only when `h` is loaded.
pub open spec fn parent_hash_of(c: Seq<BodyModel>, h: u32) -> u32 {
    let i = choose|i: int| 0 <= i < c.len() && (#[trigger] c[i]).body_hash == h;
    c[i].segments[0].parent_ephemeris_hash
}

/// One directed edge of the frame graph: `child` is loaded and its records
/// name `parent`.
pub open spec fn parent_linked(c: Seq<BodyModel>, child: u32, parent: u32) -> bool {
    has_body(c, child) && parent_hash_of(c, child) == parent
}

/// The root the deterministic parent walk from `h` reaches within `fuel`
/// body steps: the first hash with no loaded body.  Nothing if the fuel
/// runs out, which with fuel equal to the body count means the walk cycles.
pub open spec fn walk_root(c: Seq<BodyModel>, h: u32, fuel: nat) -> Option<u32>
    decreases fuel,
{
    if !has_body(c, h) {
        Some(h)
    } else if fuel == 0 {
        None
    } else {
        walk_root(c, parent_hash_of(c, h), (fuel - 1) as nat)
    }
}

/// Whether the parent walks of the two frames reach no shared root: they
/// end at different roots, or one of them never ends.
pub open spec fn no_common_root(c: Seq<BodyModel>, a: RefFrame, b: RefFrame) -> bool {
    match (walk_root(c, a.ephemeris_hash, c.len()), walk_root(c, b.ephemeris_hash, c.len())) {
        (Some(ra), Some(rb)) => ra != rb,
        _ => true,
    }
}

impl Context {
    /// The parent chain from `start` up to its root: `start`, then each
    /// parent in turn, ending at the first hash with no loaded body.
    ///
    /// Fails with an unresolved-frame error iff the walk does not reach a
    /// root within one step per loaded body, which means it cycles.
    pub fn ephemeris_chain(&self, start: u32) -> (r: Result<Vec<u32>, AniseError>)
        requires
            ctx_wf(self@),
        ensures
            match r {
                Ok(ch) => {
                    &&& ch@.len() >= 1
                    &&& ch@.first() == start
                    &&& forall|i: int|
                        0 <= i < ch@.len() - 1 ==> parent_linked(self@, #[trigger] ch@[i], ch@[i + 1])
                    &&& !has_body(self@, ch@.last())
                    &&& walk_root(self@, start, self@.len()) == Some(ch@.last())
                },
                Err(e) => e is UnresolvedFrame && walk_root(self@, start, self@.len()) is None,
            },
    {
        let mut ch: Vec<u32> = Vec::new();
        let mut cur: u32 = start;
        ch.push(start);
        let mut steps: usize = 0;
        let bound: usize = self.bodies.len();
        loop
            invariant
                ctx_wf(self@),
                bound == self@.len(),
                steps <= bound,
                ch@.len() >= 1,
                ch@.first() == start,
                ch@.last() == cur,
                forall|i: int|
                    0 <= i < ch@.len() - 1 ==> parent_linked(self@, #[trigger] ch@[i], ch@[i + 1]),
                walk_root(self@, start, bound as nat) == walk_root(
                    self@,
                    cur,
                    (bound - steps) as nat,
                ),
            decreases bound - steps,
        {
            match self.find_body(cur) {
                None => {
                    return Ok(ch);
                },
                Some(i) => {
                    if steps == bound {
                        return Err(AniseError::UnresolvedFrame(cur));
                    }
                    proof {
                        assert(self@[i as int].segments.len() >= 1);
                        let j = choose|j: int|
                            0 <= j < self@.len() && (#[trigger] self@[j]).body_hash == cur;
                        assert(j == i as int);
                    }
                    let parent = self.bodies[i].segments[0].parent_ephemeris_hash;
                    proof {
                        assert(self.bodies@[i as int]@.segments[0]
                            == self.bodies@[i as int].segments@[0]@);
                        assert(parent_hash_of(self@, cur) == parent);
                        assert(parent_linked(self@, cur, parent));
                    }
                    let ghost pre = ch@;
                    ch.push(parent);
                    proof {
                        assert(ch@ =~= pre.push(parent));
                    }
                    cur = parent;
                    steps = steps + 1;
                },
            }
        }
    }

    }
}

verus! {

/// A parent walk is deterministic: equal nodes step to equal nodes, so an
/// equality between two chain positions shifts forward.
proof fn lemma_chain_shift(c: Seq<BodyModel>, ch: Seq<u32>, p: int, q: int, m: int)
    requires
        forall|i: int| 0 <= i < ch.len() - 1 ==> parent_linked(c, #[trigger] ch[i], ch[i + 1]),
        0 <= p < q < ch.len(),
        0 <= m,
        q + m <= ch.len() - 1,
        ch[p] == ch[q],
    ensures
        ch[p + m] == ch[q + m],
    decreases m,
{
    if m > 0 {
        lemma_chain_shift(c, ch, p, q, m - 1);
        assert(parent_linked(c, ch[p + m - 1], ch[p + m]));
        assert(parent_linked(c, ch[q + m - 1], ch[q + m]));
    }
}

/// A chain that walks parent links and ends at a root never repeats a
/// node: a repeat would force the walk to loop and never reach the root.
proof fn lemma_chain_no_dup(c: Seq<BodyModel>, ch: Seq<u32>)
    requires
        ch.len() >= 1,
        forall|i: int| 0 <= i < ch.len() - 1 ==> parent_linked(c, #[trigger] ch[i], ch[i + 1]),
        !has_body(c, ch.last()),
    ensures
        forall|p: int, q: int| 0 <= p < q < ch.len() ==> ch[p] != ch[q],
{
    assert forall|p: int, q: int| 0 <= p < q < ch.len() implies ch[p] != ch[q] by {
        if ch[p] == ch[q] {
            let m = ch.len() - 1 - q;
            lemma_chain_shift(c, ch, p, q, m);
            assert(ch[p + m] == ch.last());
            assert(p + m < ch.len() - 1);
            assert(parent_linked(c, ch[p + m], ch[p + m + 1]));
            assert(has_body(c, ch.last()));
            assert(false);
        }
    }
}

/// An up-then-down path: it climbs parent links to position `m` and then
/// descends them, which is the shape of a chain pair joined at a common
/// ancestor.
pub open spec fn up_then_down(c: Seq<BodyModel>, path: Seq<u32>, m: int) -> bool {
    &&& 0 <= m < path.len()
    &&& forall|i: int| 0 <= i < m ==> parent_linked(c, #[trigger] path[i], path[i + 1])
    &&& forall|i: int| m <= i < path.len() - 1 ==> parent_linked(c, path[i + 1], #[trigger] path[i])
}

/// A path that climbs parent links to some position and then descends
/// them: the shape of two chains joined at a common ancestor.
pub open spec fn mountain_shaped(c: Seq<BodyModel>, path: Seq<u32>) -> bool {
    exists|m: int| up_then_down(c, path, m)
}

} // verus!

verus! {

/// The junction of two chains that share their last element: the first
/// position of the first chain whose hash occurs in the second, with the
/// first matching position there.
fn find_junction(chain_a: &Vec<u32>, chain_b: &Vec<u32>) -> (r: (usize, usize))
    requires
        chain_a@.len() >= 1,
        chain_b@.len() >= 1,
        chain_a@.last() == chain_b@.last(),
    ensures
        ({
            let (ia, ib) = r;
            &&& ia < chain_a@.len()
            &&& ib < chain_b@.len()
            &&& chain_a@[ia as int] == chain_b@[ib as int]
            &&& forall|j: int| 0 <= j < ib ==> chain_a@[ia as int] != #[trigger] chain_b@[j]
            &&& forall|i: int, j: int|
                0 <= i < ia && 0 <= j < chain_b@.len() ==> #[trigger] chain_a@[i]
                    != #[trigger] chain_b@[j]
        }),
{
    let len_a = chain_a.len();
    let len_b = chain_b.len();
    let mut ia: usize = 0;
    let mut ib: usize = 0;
    let mut found = false;
    while ia < len_a
        invariant_except_break
            !found,
        invariant
            len_a == chain_a@.len(),
            len_b == chain_b@.len(),
            len_a >= 1,
            len_b >= 1,
            chain_a@.last() == chain_b@.last(),
            ia <= len_a,
            forall|i: int, j: int|
                0 <= i < ia && 0 <= j < len_b ==> #[trigger] chain_a@[i] != #[trigger] chain_b@[j],
        ensures
            found ==> ia < len_a && ib < len_b && chain_a@[ia as int] == chain_b@[ib as int] && (
            forall|j: int| 0 <= j < ib ==> chain_a@[ia as int] != #[trigger] chain_b@[j]) && (forall|
                i: int,
                j: int,
            |
                0 <= i < ia && 0 <= j < len_b ==> #[trigger] chain_a@[i] != #[trigger] chain_b@[j]),
            !found ==> forall|i: int, j: int|
                0 <= i < len_a && 0 <= j < len_b ==> #[trigger] chain_a@[i] != #[trigger] chain_b@[j],
        decreases len_a - ia,
    {
        let mut jb: usize = 0;
        while jb < len_b
            invariant_except_break
                !found,
            invariant
                len_a == chain_a@.len(),
                len_b == chain_b@.len(),
                ia < len_a,
                jb <= len_b,
                forall|j: int| 0 <= j < jb ==> chain_a@[ia as int] != #[trigger] chain_b@[j],
            ensures
                found ==> ib < len_b && chain_a@[ia as int] == chain_b@[ib as int] && (forall|
                    j: int,
                | 0 <= j < ib ==> chain_a@[ia as int] != #[trigger] chain_b@[j]),
                !found ==> forall|j: int|
                    0 <= j < len_b ==> chain_a@[ia as int] != #[trigger] chain_b@[j],
            decreases len_b - jb,
        {
            if chain_a[ia] == chain_b[jb] {
                found = true;
                ib = jb;
                break;
            }
            jb = jb + 1;
        }
        if found {
            break;
        }
        ia = ia + 1;
    }
    if !found {
        proof {
            assert(chain_a@[len_a - 1] == chain_b@[len_b - 1]);
            assert(false);
        }
    }
    (ia, ib)
}

impl Context {
    /// The combined parent-chain path from `from` to `to` through their
    /// deepest common ancestor, as body hashes: `from`'s chain up to the
    /// ancestor, then `to`'s chain back down to `to`.  The path never
    /// repeats a node, and it climbs parent links to the ancestor and then
    /// descends them.
    ///
    /// Fails with an unresolved-frame error iff the two frames share no
    /// common root: their walks end at different roots, or one never ends.
    #[verifier::rlimit(100)]
    #[verifier::spinoff_prover]
    pub fn common_ephemeris_path(&self, from: RefFrame, to: RefFrame) -> (r: Result<
        Vec<u32>,
        AniseError,
    >)
        requires
            ctx_wf(self@),
        ensures
            match r {
                Ok(path) => {
                    &&& path@.len() >= 1
                    &&& path@.first() == from.ephemeris_hash
                    &&& path@.last() == to.ephemeris_hash
                    &&& forall|i: int|
                        0 <= i < path@.len() - 1 ==> parent_linked(
                            self@,
                            #[trigger] path@[i],
                            path@[i + 1],
                        ) || parent_linked(self@, path@[i + 1], path@[i])
                    &&& forall|i: int, j: int|
                        0 <= i < j < path@.len() ==> #[trigger] path@[i] != #[trigger] path@[j]
                    &&& mountain_shaped(self@, path@)
                    &&& !no_common_root(self@, from, to)
                },
                Err(e) => e is UnresolvedFrame && no_common_root(self@, from, to),
            },
    {
        let chain_a = match self.ephemeris_chain(from.ephemeris_hash) {
            Ok(v) => v,
            Err(e) => { return Err(e) },
        };
        let chain_b = match self.ephemeris_chain(to.ephemeris_hash) {
            Ok(v) => v,
            Err(e) => { return Err(e) },
        };
        let len_a = chain_a.len();
        let len_b = chain_b.len();
        if chain_a[len_a - 1] != chain_b[len_b - 1] {
            return Err(AniseError::UnresolvedFrame(to.ephemeris_hash));
        }
        proof {
            lemma_chain_no_dup(self@, chain_a@);
            lemma_chain_no_dup(self@, chain_b@);
        }
        let (ia, ib) = find_junction(&chain_a, &chain_b);
        let path = self.assemble_path(&chain_a, &chain_b, ia, ib);
        proof {
            assert(path@.first() == chain_a@.first());
            assert(path@.last() == chain_b@.first());
            assert(mountain_shaped(self@, path@)) by {
                assert(up_then_down(self@, path@, ia as int));
            }
        }
        Ok(path)
    }

    /// Joins a prefix of `from`'s chain with a reversed prefix of `to`'s
    /// chain at their shared node `chain_a[ia] == chain_b[ib]`, giving the
    /// duplicate-free up-then-down path.
    #[verifier::rlimit(100)]
    fn assemble_path(&self, chain_a: &Vec<u32>, chain_b: &Vec<u32>, ia: usize, ib: usize) -> (path:
        Vec<u32>)
        requires
            ia < chain_a@.len(),
            ib < chain_b@.len(),
            chain_a@[ia as int] == chain_b@[ib as int],
            forall|j: int| 0 <= j < ib ==> chain_a@[ia as int] != #[trigger] chain_b@[j],
            forall|i: int, j: int|
                0 <= i < ia && 0 <= j < chain_b@.len() ==> #[trigger] chain_a@[i]
                    != #[trigger] chain_b@[j],
            forall|p: int, q: int|
                0 <= p < q < chain_a@.len() ==> #[trigger] chain_a@[p] != #[trigger] chain_a@[q],
            forall|p: int, q: int|
                0 <= p < q < chain_b@.len() ==> #[trigger] chain_b@[p] != #[trigger] chain_b@[q],
            forall|i: int|
                0 <= i < chain_a@.len() - 1 ==> parent_linked(
                    self@,
                    #[trigger] chain_a@[i],
                    chain_a@[i + 1],
                ),
            forall|i: int|
                0 <= i < chain_b@.len() - 1 ==> parent_linked(
                    self@,
                    #[trigger] chain_b@[i],
                    chain_b@[i + 1],
                ),
        ensures
            path@.len() == ia + 1 + ib,
            path@[0] == chain_a@[0],
            path@.last() == chain_b@[0],
            forall|i: int|
                0 <= i < path@.len() - 1 ==> parent_linked(self@, #[trigger] path@[i], path@[i + 1])
                    || parent_linked(self@, path@[i + 1], path@[i]),
            forall|i: int, j: int|
                0 <= i < j < path@.len() ==> #[trigger] path@[i] != #[trigger] path@[j],
            up_then_down(self@, path@, ia as int),
    {
        let len_a = chain_a.len();
        let len_b = chain_b.len();
        let mut path: Vec<u32> = Vec::new();
        let mut k: usize = 0;
        while k <= ia
            invariant
                ia < len_a,
                len_a == chain_a@.len(),
                k <= ia + 1,
                path@ == chain_a@.subrange(0, k as int),
            decreases ia + 1 - k,
        {
            path.push(chain_a[k]);
            proof {
                assert(chain_a@.subrange(0, k + 1) =~= chain_a@.subrange(0, k as int).push(
                    chain_a@[k as int],
                ));
            }
            k = k + 1;
        }
        proof {
            assert(path@.len() == ia + 1);
            assert(forall|t: int| 0 <= t <= ia ==> path@[t] == #[trigger] chain_a@[t]);
            assert(forall|i: int|
                0 <= i < path@.len() - 1 ==> parent_linked(self@, #[trigger] path@[i], path@[i + 1]));
            assert(forall|p: int, q: int|
                0 <= p < q < path@.len() ==> #[trigger] path@[p] != #[trigger] path@[q]);
        }
        let mut j: usize = ib;
        while j > 0
            invariant
                ia < len_a,
                ib < len_b,
                j <= ib,
                len_a == chain_a@.len(),
                len_b == chain_b@.len(),
                chain_a@[ia as int] == chain_b@[ib as int],
                forall|jj: int| 0 <= jj < ib ==> chain_a@[ia as int] != #[trigger] chain_b@[jj],
                forall|i: int, jj: int|
                    0 <= i < ia && 0 <= jj < len_b ==> #[trigger] chain_a@[i]
                        != #[trigger] chain_b@[jj],
                forall|p: int, q: int|
                    0 <= p < q < len_a ==> #[trigger] chain_a@[p] != #[trigger] chain_a@[q],
                forall|p: int, q: int|
                    0 <= p < q < len_b ==> #[trigger] chain_b@[p] != #[trigger] chain_b@[q],
                forall|i: int|
                    0 <= i < chain_b@.len() - 1 ==> parent_linked(
                        self@,
                        #[trigger] chain_b@[i],
                        chain_b@[i + 1],
                    ),
                path@.len() == ia + 1 + (ib - j),
                forall|t: int| 0 <= t <= ia ==> path@[t] == #[trigger] chain_a@[t],
                forall|i: int|
                    0 <= i < ia ==> parent_linked(self@, #[trigger] path@[i], path@[i + 1]),
                forall|t: int| ia < t < path@.len() ==> path@[t] == chain_b@[ib - (t - ia)],
                forall|p: int, q: int|
                    0 <= p < q < path@.len() ==> #[trigger] path@[p] != #[trigger] path@[q],
            decreases j,
        {
            let ghost pre = path@;
            path.push(chain_b[j - 1]);
            proof {
                assert(path@ =~= pre.push(chain_b@[j - 1]));
                assert(forall|t: int| 0 <= t < pre.len() ==> path@[t] == #[trigger] pre[t]);
                assert forall|p: int, q: int|
                    0 <= p < q < path@.len() implies #[trigger] path@[p] != #[trigger] path@[q] by {
                    if q == path@.len() - 1 {
                        assert(path@[q] == chain_b@[j - 1]);
                        if p <= ia {
                            assert(path@[p] == chain_a@[p]);
                            if p < ia {
                                assert(chain_a@[p] != chain_b@[j - 1]);
                            } else {
                                assert(chain_a@[ia as int] != chain_b@[j - 1]);
                            }
                        } else {
                            assert(path@[p] == chain_b@[ib - (p - ia)]);
                            assert(j - 1 < ib - (p - ia) < len_b);
                            assert(chain_b@[j - 1] != chain_b@[ib - (p - ia)]);
                        }
                    }
                }
            }
            j = j - 1;
        }
        proof {
            assert(path@.last() == chain_b@[0]);
            assert(forall|i: int|
                0 <= i < ia ==> parent_linked(self@, #[trigger] path@[i], path@[i + 1]));
            assert forall|i: int|
                ia <= i < path@.len() - 1 implies parent_linked(
                self@,
                path@[i + 1],
                #[trigger] path@[i],
            ) by {
                let t = ib - (i + 1 - ia);
                assert(path@[i + 1] == chain_b@[t]);
                if i == ia {
                    assert(path@[i] == chain_a@[ia as int]);
                    assert(chain_a@[ia as int] == chain_b@[t + 1]);
                } else {
                    assert(path@[i] == chain_b@[t + 1]);
                }
                assert(parent_linked(self@, chain_b@[t], chain_b@[t + 1]));
            }
            assert(up_then_down(self@, path@, ia as int));
        }
        path
    }
}

/// One entry of a translation plan: which stored piece to evaluate, and
/// with which sign its state enters the fold.
///
/// Folding the plan with `+` for positive steps and `-` for negative ones
/// yields the state of `from` as seen from `to`: positive steps walk the
/// `from` side of the path up to the common ancestor, negative steps walk
/// the `to` side.
#[derive(Copy, Clone, Debug, PartialEq, Eq, Structural)]
pub struct TranslationStep {
    pub body_index: usize,
    pub segment_index: usize,
    pub piece_index: usize,
    pub positive: bool,
}

/// The piece of a record that answers an epoch: its window contains the
/// query offset, or it is the final piece and the offset falls exactly on
/// its inclusive end.
pub open spec fn piece_selected(m: SegmentModel, k: int, e: Epoch) -> bool {
    0 <= k < m.pieces.len() && (window_contains(m, k, e) || (k == m.pieces.len() - 1
        && query_offset_nanos(m, e) == m.pieces.last().window_end
        * spec_nanoseconds_per_time_unit(m.time_unit)))
}

/// A plan step is pinned completely: it names the body of `child`, that
/// body's first record covering the epoch, the piece of that record that
/// answers the epoch, and the record's stored parent, which is `parent`.
pub open spec fn valid_step(
    c: Seq<BodyModel>,
    st: TranslationStep,
    child: u32,
    parent: u32,
    e: Epoch,
) -> bool {
    &&& (st.body_index as int) < c.len()
    &&& c[st.body_index as int].body_hash == child
    &&& (st.segment_index as int) < c[st.body_index as int].segments.len()
    &&& covers(c[st.body_index as int].segments[st.segment_index as int], e)
    &&& (forall|j: int|
        0 <= j < st.segment_index as int ==> !covers(
            #[trigger] c[st.body_index as int].segments[j],
            e,
        ))
    &&& c[st.body_index as int].segments[st.segment_index as int].parent_ephemeris_hash == parent
    &&& piece_selected(c[st.body_index as int].segments[st.segment_index as int], st.piece_index as int, e)
}

/// Whether some record of the body carrying hash `h` covers the epoch.
pub open spec fn body_covers(c: Seq<BodyModel>, h: u32, e: Epoch) -> bool {
    exists|i: int, k: int|
        0 <= i < c.len() && c[i].body_hash == h && 0 <= k < c[i].segments.len() && covers(
            #[trigger] c[i].segments[k],
            e,
        )
}

/// Whether the first epoch-covering record of the body carrying hash `h`
/// names `parent` as its parent.
pub open spec fn first_covering_names(c: Seq<BodyModel>, h: u32, parent: u32, e: Epoch) -> bool {
    exists|i: int, k: int|
        {
            &&& 0 <= i < c.len()
            &&& c[i].body_hash == h
            &&& 0 <= k < c[i].segments.len()
            &&& covers(#[trigger] c[i].segments[k], e)
            &&& (forall|j: int| 0 <= j < k ==> !covers(#[trigger] c[i].segments[j], e))
            &&& c[i].segments[k].parent_ephemeris_hash == parent
        }
}

/// In a well-formed store the first covering record of a body is one
/// record, so it names one parent.
proof fn lemma_first_covering_unique(c: Seq<BodyModel>, bi: int, si: int, parent: u32, e: Epoch)
    requires
        ctx_wf(c),
        0 <= bi < c.len(),
        0 <= si < c[bi].segments.len(),
        covers(c[bi].segments[si], e),
        forall|j: int| 0 <= j < si ==> !covers(#[trigger] c[bi].segments[j], e),
        c[bi].segments[si].parent_ephemeris_hash == parent,
    ensures
        body_covers(c, c[bi].body_hash, e),
        forall|y: u32| y != parent ==> !first_covering_names(c, c[bi].body_hash, y, e),
{
    let h = c[bi].body_hash;
    assert(body_covers(c, h, e));
    assert forall|y: u32| y != parent implies !first_covering_names(c, h, y, e) by {
        if first_covering_names(c, h, y, e) {
            let (i, k) = choose|i: int, k: int|
                {
                    &&& 0 <= i < c.len()
                    &&& c[i].body_hash == h
                    &&& 0 <= k < c[i].segments.len()
                    &&& covers(#[trigger] c[i].segments[k], e)
                    &&& (forall|j: int| 0 <= j < k ==> !covers(#[trigger] c[i].segments[j], e))
                    &&& c[i].segments[k].parent_ephemeris_hash == y
                };
            if i < bi {
                assert(c[i].body_hash != c[bi].body_hash);
            }
            if bi < i {
                assert(c[bi].body_hash != c[i].body_hash);
            }
            assert(i == bi);
            if k < si {
                assert(!covers(c[bi].segments[k], e));
            }
            if si < k {
                assert(!covers(c[bi].segments[si], e));
            }
            assert(k == si);
            assert(false);
        }
    }
}

impl Context {
    /// The first record of `child`'s body that covers the epoch, with the
    /// answering piece and the record's stored parent hash.
    #[verifier::rlimit(100)]
    fn covering_step(&self, child: u32, epoch: &Epoch) -> (r: Result<
        (usize, usize, usize, u32),
        AniseError,
    >)
        requires
            ctx_wf(self@),
        ensures
            match r {
                Ok((bi, si, pi, parent)) => {
                    &&& (bi as int) < self@.len()
                    &&& self@[bi as int].body_hash == child
                    &&& (si as int) < self@[bi as int].segments.len()
                    &&& covers(self@[bi as int].segments[si as int], *epoch)
                    &&& (forall|j: int|
                        0 <= j < si as int ==> !covers(#[trigger] self@[bi as int].segments[j], *epoch))
                    &&& self@[bi as int].segments[si as int].parent_ephemeris_hash == parent
                    &&& piece_selected(self@[bi as int].segments[si as int], pi as int, *epoch)
                },
                Err(e) => {
                    ||| e == AniseError::UnresolvedFrame(child) && !has_body(self@, child)
                    ||| e == AniseError::OutOfCoverage(*epoch) && has_body(self@, child)
                        && !body_covers(self@, child, *epoch)
                },
            },
    {
        let bi = match self.find_body(child) {
            Some(i) => i,
            None => { return Err(AniseError::UnresolvedFrame(child)) },
        };
        let nsegs = self.bodies[bi].segments.len();
        let mut si: usize = 0;
        while si < nsegs
            invariant
                ctx_wf(self@),
                (bi as int) < self@.len(),
                self@[bi as int].body_hash == child,
                nsegs == self@[bi as int].segments.len(),
                si <= nsegs,
                forall|j: int| 0 <= j < si ==> !covers(#[trigger] self@[bi as int].segments[j], *epoch),
            decreases nsegs - si,
        {
            let seg = &self.bodies[bi].segments[si];
            proof {
                assert(seg@ == self@[bi as int].segments[si as int]);
                assert(validated(seg@));
            }
            match seg.piece_for_epoch(epoch) {
                Ok(pi) => {
                    return Ok((bi, si, pi, seg.parent_ephemeris_hash));
                },
                Err(_) => {},
            }
            si = si + 1;
        }
        proof {
            assert(has_body(self@, child));
            assert(!body_covers(self@, child, *epoch)) by {
                if body_covers(self@, child, *epoch) {
                    let (i, k) = choose|i: int, k: int|
                        0 <= i < self@.len() && self@[i].body_hash == child && 0 <= k < self@[
                            i
                        ].segments.len() && covers(#[trigger] self@[i].segments[k], *epoch);
                    if i < bi {
                        assert(self@[i].body_hash != self@[bi as int].body_hash);
                    }
                    if (bi as int) < i {
                        assert(self@[bi as int].body_hash != self@[i].body_hash);
                    }
                    assert(i == bi as int);
                    assert(false);
                }
            }
        }
        Err(AniseError::OutOfCoverage(*epoch))
    }

    /// The translation path from `from` to `to` together with the fully
    /// resolved evaluation plan at the epoch: for each path edge, the
    /// stored piece to evaluate and the sign of its contribution.
    ///
    /// Fails only when no common root links the frames, or a loaded body
    /// has no record covering the epoch, or a linked body's first covering
    /// record names a different parent than its chain link — each failure
    /// carries the matching error kind, as the contract states.
    pub fn translation_plan(&self, from: RefFrame, to: RefFrame, epoch: &Epoch) -> (r: Result<
        (Vec<u32>, Vec<TranslationStep>),
        AniseError,
    >)
        requires
            ctx_wf(self@),
        ensures
            match r {
                Ok((path, plan)) => {
                    &&& path@.len() >= 1
                    &&& path@.first() == from.ephemeris_hash
                    &&& path@.last() == to.ephemeris_hash
                    &&& plan@.len() == path@.len() - 1
                    &&& forall|k: int|
                        0 <= k < plan@.len() ==> {
                            if (#[trigger] plan@[k]).positive {
                                valid_step(self@, plan@[k], path@[k], path@[k + 1], *epoch)
                            } else {
                                valid_step(self@, plan@[k], path@[k + 1], path@[k], *epoch)
                            }
                        }
                },
                Err(e) => {
                    ||| e is UnresolvedFrame && no_common_root(self@, from, to)
                    ||| e == AniseError::OutOfCoverage(*epoch) && (exists|h: u32|
                        #[trigger] has_body(self@, h) && !body_covers(self@, h, *epoch))
                    ||| e is UnresolvedFrame && (exists|x: u32, y: u32|
                        #[trigger] parent_linked(self@, x, y) && body_covers(self@, x, *epoch)
                            && !first_covering_names(self@, x, y, *epoch))
                },
            },
    {
        let path = match self.common_ephemeris_path(from, to) {
            Ok(p) => p,
            Err(e) => { return Err(e) },
        };
        let mut plan: Vec<TranslationStep> = Vec::new();
        let n = path.len();
        let mut k: usize = 0;
        while k + 1 < n
            invariant
                ctx_wf(self@),
                n == path@.len(),
                n >= 1,
                k + 1 <= n,
                plan@.len() == k as nat,
                forall|i: int|
                    0 <= i < n - 1 ==> parent_linked(self@, #[trigger] path@[i], path@[i + 1])
                        || parent_linked(self@, path@[i + 1], path@[i]),
                forall|i: int|
                    0 <= i < plan@.len() ==> {
                        if (#[trigger] plan@[i]).positive {
                            valid_step(self@, plan@[i], path@[i], path@[i + 1], *epoch)
                        } else {
                            valid_step(self@, plan@[i], path@[i + 1], path@[i], *epoch)
                        }
                    },
            decreases n - k,
        {
            let a = path[k];
            let b = path[k + 1];
            let mut a_is_child = false;
            match self.find_body(a) {
                Some(i) => {
                    proof {
                        assert(self@[i as int].segments.len() >= 1);
                        let j = choose|j: int|
                            0 <= j < self@.len() && (#[trigger] self@[j]).body_hash == a;
                        if j < i as int {
                            assert(self@[j].body_hash != self@[i as int].body_hash);
                        }
                        if (i as int) < j {
                            assert(self@[i as int].body_hash != self@[j].body_hash);
                        }
                        assert(j == i as int);
                        assert(self.bodies@[i as int]@.segments[0] == self.bodies@[
                            i as int
                        ].segments@[0]@);
                    }
                    if self.bodies[i].segments[0].parent_ephemeris_hash == b {
                        a_is_child = true;
                        proof {
                            assert(parent_hash_of(self@, a) == b);
                            assert(parent_linked(self@, a, b));
                        }
                    } else {
                        proof {
                            assert(parent_hash_of(self@, a) != b);
                            assert(!parent_linked(self@, a, b));
                        }
                    }
                },
                None => {
                    proof {
                        assert(!parent_linked(self@, a, b));
                    }
                },
            }
            proof {
                assert(a_is_child == parent_linked(self@, a, b));
            }
            if a_is_child {
                match self.covering_step(a, epoch) {
                    Ok((bi, si, pi, parent)) => {
                        if parent != b {
                            proof {
                                lemma_first_covering_unique(
                                    self@,
                                    bi as int,
                                    si as int,
                                    parent,
                                    *epoch,
                                );
                                assert(parent_linked(self@, a, b) && body_covers(self@, a, *epoch)
                                    && !first_covering_names(self@, a, b, *epoch));
                            }
                            return Err(AniseError::UnresolvedFrame(a));
                        }
                        plan.push(
                            TranslationStep {
                                body_index: bi,
                                segment_index: si,
                                piece_index: pi,
                                positive: true,
                            },
                        );
                    },
                    Err(e) => {
                        proof {
                            assert(has_body(self@, a));
                            assert(has_body(self@, a) && !body_covers(self@, a, *epoch));
                        }
                        return Err(e);
                    },
                }
            } else {
                proof {
                    assert(parent_linked(self@, path@[k as int], path@[k + 1]) || parent_linked(
                        self@,
                        path@[k + 1],
                        path@[k as int],
                    ));
                    assert(parent_linked(self@, b, a));
                }
                match self.covering_step(b, epoch) {
                    Ok((bi, si, pi, parent)) => {
                        if parent != a {
                            proof {
                                lemma_first_covering_unique(
                                    self@,
                                    bi as int,
                                    si as int,
                                    parent,
                                    *epoch,
                                );
                                assert(parent_linked(self@, b, a) && body_covers(self@, b, *epoch)
                                    && !first_covering_names(self@, b, a, *epoch));
                            }
                            return Err(AniseError::UnresolvedFrame(b));
                        }
                        plan.push(
                            TranslationStep {
                                body_index: bi,
                                segment_index: si,
                                piece_index: pi,
                                positive: false,
                            },
                        );
                    },
                    Err(e) => {
                        proof {
                            assert(has_body(self@, b));
                            assert(has_body(self@, b) && !body_covers(self@, b, *epoch));
                        }
                        return Err(e);
                    },
                }
            }
            k = k + 1;
        }
        Ok((path, plan))
    }
}

} // verus!

//! Ranking: which models are candidates, and in which order they are tried.
//!
//! Utilizations, ratios and scores are double-precision numbers. They stand here
//! as their IEEE 754 bit patterns, which carry the total order that the ranking
//! uses.

use vstd::multiset::Multiset;
use vstd::prelude::*;
use vstd::seq_lib::{lemma_multiset_commutative, lemma_sorted_unique, to_multiset_build};
use vstd::utf8::encode_utf8;

use crate::models::{is_tee_eligible, tee_eligible, TeeAllowlist};
use crate::text::{bytes_le, same_text, text_at_most, text_le};

verus! {

/// The bit pattern of a double-precision number.
pub type Bits = u64;

/// The bit pattern of 1.0.
pub const ONE: u64 = 0x3ff0_0000_0000_0000;

/// The bit pattern of 0.0.
pub const ZERO: u64 = 0;

/// The place of a number in the IEEE 754 total order: numbers without a sign by
/// their bits, and below them those with a sign, in reverse.
pub open spec fn order_key(bits: Bits) -> int {
    if bits < 0x8000_0000_0000_0000 {
        bits as int
    } else {
        0x7fff_ffff_ffff_ffff - bits
    }
}

/// Whether `a` comes before `b` in the IEEE 754 total order.
fn double_before(a: Bits, b: Bits) -> (r: bool)
    ensures
        r == (order_key(a) < order_key(b)),
{
    let a_signed = a >= 0x8000_0000_0000_0000;
    let b_signed = b >= 0x8000_0000_0000_0000;
    if a_signed != b_signed {
        a_signed
    } else if a_signed {
        b < a
    } else {
        a < b
    }
}

/// What the utilization feed says of one chute.
#[derive(Debug)]
pub struct UtilizationRecord {
    pub name: String,
    pub active_instance_count: u64,
    pub utilization_current: Option<Bits>,
    pub utilization_5m: Option<Bits>,
    pub utilization_15m: Option<Bits>,
    pub utilization_1h: Option<Bits>,
    pub rate_limit_ratio_5m: Option<Bits>,
    pub rate_limit_ratio_15m: Option<Bits>,
    pub rate_limit_ratio_1h: Option<Bits>,
    pub scalable: bool,
    pub scale_allowance: Option<Bits>,
}

/// The numbers that a score is computed from, with nothing missing.
#[derive(Clone, Copy, Debug, PartialEq, Eq, Structural)]
pub struct ScoreInputs {
    pub active_instance_count: u64,
    pub utilization_5m: Bits,
    pub utilization_15m: Bits,
    pub utilization_1h: Bits,
    pub rate_limit_ratio_5m: Bits,
    pub rate_limit_ratio_15m: Bits,
    pub rate_limit_ratio_1h: Bits,
    pub scale_allowance: Bits,
}

pub open spec fn value_or(value: Option<Bits>, default: Bits) -> Bits {
    match value {
        Some(v) => v,
        None => default,
    }
}

impl UtilizationRecord {
    /// The utilization of the last five minutes: failing that the current one,
    /// and failing that a full load.
    pub open spec fn recent_utilization(&self) -> Bits {
        value_or(self.utilization_5m, value_or(self.utilization_current, ONE))
    }

    /// The inputs of the score: a missing signal is taken from the next shorter
    /// window, and a chute that cannot scale has no allowance.
    pub open spec fn inputs(&self) -> ScoreInputs {
        let u5 = self.recent_utilization();
        let u15 = value_or(self.utilization_15m, u5);
        let r5 = value_or(self.rate_limit_ratio_5m, ZERO);
        let r15 = value_or(self.rate_limit_ratio_15m, r5);
        ScoreInputs {
            active_instance_count: self.active_instance_count,
            utilization_5m: u5,
            utilization_15m: u15,
            utilization_1h: value_or(self.utilization_1h, u15),
            rate_limit_ratio_5m: r5,
            rate_limit_ratio_15m: r15,
            rate_limit_ratio_1h: value_or(self.rate_limit_ratio_1h, r15),
            scale_allowance: if self.scalable {
                value_or(self.scale_allowance, ZERO)
            } else {
                ZERO
            },
        }
    }

    /// The inputs of the score of this chute.
    pub fn score_inputs(&self) -> (r: ScoreInputs)
        ensures
            r == self.inputs(),
    {
        let current: u64 = self.utilization_current.unwrap_or(ONE);
        let u5: u64 = self.utilization_5m.unwrap_or(current);
        let u15: u64 = self.utilization_15m.unwrap_or(u5);
        let u1h: u64 = self.utilization_1h.unwrap_or(u15);
        let r5: u64 = self.rate_limit_ratio_5m.unwrap_or(ZERO);
        let r15: u64 = self.rate_limit_ratio_15m.unwrap_or(r5);
        let r1h: u64 = self.rate_limit_ratio_1h.unwrap_or(r15);
        ScoreInputs {
            active_instance_count: self.active_instance_count,
            utilization_5m: u5,
            utilization_15m: u15,
            utilization_1h: u1h,
            rate_limit_ratio_5m: r5,
            rate_limit_ratio_15m: r15,
            rate_limit_ratio_1h: r1h,
            scale_allowance: if self.scalable {
                self.scale_allowance.unwrap_or(ZERO)
            } else {
                ZERO
            },
        }
    }

    /// Whether the feed hides which chute this is.
    pub fn is_private_chute(&self) -> (r: bool)
        ensures
            r == private_chute(self.name@),
    {
        same_text(self.name.as_str(), "[private chute]")
    }
}

pub open spec fn private_chute(name: Seq<char>) -> bool {
    name == "[private chute]"@
}

/// A chute of the feed with its score.
#[derive(Debug)]
pub struct ScoredRecord {
    pub record: UtilizationRecord,
    pub score: Bits,
}

/// A model that requests can be sent to, with what its rank depends on.
#[derive(Clone, Debug)]
pub struct RankedCandidate {
    pub name: String,
    pub active_instance_count: u64,
    pub utilization_current: Bits,
    pub rate_limit_ratio_5m: Bits,
    pub score: Bits,
}

#[verifier::ext_equal]
pub struct RankedView {
    pub name: Seq<char>,
    pub active_instance_count: u64,
    pub utilization_current: Bits,
    pub rate_limit_ratio_5m: Bits,
    pub score: Bits,
}

impl View for RankedCandidate {
    type V = RankedView;

    open spec fn view(&self) -> RankedView {
        RankedView {
            name: self.name@,
            active_instance_count: self.active_instance_count,
            utilization_current: self.utilization_current,
            rate_limit_ratio_5m: self.rate_limit_ratio_5m,
            score: self.score,
        }
    }
}

pub open spec fn ranked_views(ranked: Seq<RankedCandidate>) -> Seq<RankedView> {
    Seq::new(ranked.len(), |i: int| ranked[i]@)
}

/// The candidate that a scored chute makes.
pub open spec fn candidate_of(scored: ScoredRecord) -> RankedView {
    let record = scored.record;
    RankedView {
        name: record.name@,
        active_instance_count: record.active_instance_count,
        utilization_current: value_or(record.utilization_current, record.recent_utilization()),
        rate_limit_ratio_5m: value_or(record.rate_limit_ratio_5m, ZERO),
        score: scored.score,
    }
}

impl RankedCandidate {
    /// The candidate that a scored chute makes.
    pub fn from_scored(scored: &ScoredRecord) -> (r: RankedCandidate)
        ensures
            r@ == candidate_of(*scored),
    {
        let inputs = scored.record.score_inputs();
        RankedCandidate {
            name: scored.record.name.clone(),
            active_instance_count: scored.record.active_instance_count,
            utilization_current: scored.record.utilization_current.unwrap_or(
                inputs.utilization_5m,
            ),
            rate_limit_ratio_5m: inputs.rate_limit_ratio_5m,
            score: scored.score,
        }
    }
}

/// Whether a chute is a candidate: it is not private, has an active instance, and
/// its model may be used.
pub open spec fn is_candidate(record: UtilizationRecord, allowlist: Set<Seq<char>>) -> bool {
    &&& !private_chute(record.name@)
    &&& record.active_instance_count > 0
    &&& tee_eligible(record.name@, allowlist)
}

/// The candidates among the chutes of the feed, in the order of the feed.
pub open spec fn candidates_of(
    records: Seq<ScoredRecord>,
    allowlist: Set<Seq<char>>,
) -> Seq<RankedView>
    decreases records.len(),
{
    if records.len() == 0 {
        Seq::empty()
    } else {
        let before = candidates_of(records.drop_last(), allowlist);
        if is_candidate(records.last().record, allowlist) {
            before.push(candidate_of(records.last()))
        } else {
            before
        }
    }
}

/// Whether `a` ranks no later than `b`: by the higher score, then by more active
/// instances, then by the lower utilization, then by the lower rate limit ratio,
/// and then by name.
pub open spec fn ranks_before(a: RankedView, b: RankedView) -> bool {
    if order_key(a.score) != order_key(b.score) {
        order_key(a.score) > order_key(b.score)
    } else if a.active_instance_count != b.active_instance_count {
        a.active_instance_count > b.active_instance_count
    } else if order_key(a.utilization_current) != order_key(b.utilization_current) {
        order_key(a.utilization_current) < order_key(b.utilization_current)
    } else if order_key(a.rate_limit_ratio_5m) != order_key(b.rate_limit_ratio_5m) {
        order_key(a.rate_limit_ratio_5m) < order_key(b.rate_limit_ratio_5m)
    } else {
        text_le(a.name, b.name)
    }
}

pub open spec fn is_ranking(ranked: Seq<RankedView>) -> bool {
    forall|i: int, j: int|
        0 <= i < j < ranked.len() ==> ranks_before(#[trigger] ranked[i], #[trigger] ranked[j])
}

/// Whether `ranked` is the ranking of the scored chutes of the feed: it holds
/// their candidates, each as often as the feed does, in ranking order.
pub open spec fn is_ranking_of(
    ranked: Seq<RankedView>,
    records: Seq<ScoredRecord>,
    allowlist: Set<Seq<char>>,
) -> bool {
    &&& is_ranking(ranked)
    &&& ranked.to_multiset() == candidates_of(records, allowlist).to_multiset()
}

proof fn lemma_bytes_total(a: Seq<u8>, b: Seq<u8>)
    ensures
        bytes_le(a, b) || bytes_le(b, a),
    decreases a.len(),
{
    if a.len() > 0 && b.len() > 0 && a[0] == b[0] {
        lemma_bytes_total(a.drop_first(), b.drop_first());
    }
}

proof fn lemma_bytes_transitive(a: Seq<u8>, b: Seq<u8>, c: Seq<u8>)
    requires
        bytes_le(a, b),
        bytes_le(b, c),
    ensures
        bytes_le(a, c),
    decreases a.len(),
{
    if a.len() > 0 && b.len() > 0 && c.len() > 0 && a[0] == b[0] && b[0] == c[0] {
        lemma_bytes_transitive(a.drop_first(), b.drop_first(), c.drop_first());
    }
}

proof fn lemma_bytes_antisymmetric(a: Seq<u8>, b: Seq<u8>)
    requires
        bytes_le(a, b),
        bytes_le(b, a),
    ensures
        a == b,
    decreases a.len(),
{
    if a.len() > 0 && b.len() > 0 {
        lemma_bytes_antisymmetric(a.drop_first(), b.drop_first());
        assert(a == seq![a[0]] + a.drop_first());
        assert(b == seq![b[0]] + b.drop_first());
    } else {
        assert(a == b);
    }
}

proof fn lemma_ranks_total(a: RankedView, b: RankedView)
    ensures
        ranks_before(a, b) || ranks_before(b, a),
{
    lemma_bytes_total(vstd::utf8::encode_utf8(a.name), vstd::utf8::encode_utf8(b.name));
}

proof fn lemma_ranks_transitive(a: RankedView, b: RankedView, c: RankedView)
    requires
        ranks_before(a, b),
        ranks_before(b, c),
    ensures
        ranks_before(a, c),
{
    if text_le(a.name, b.name) && text_le(b.name, c.name) {
        lemma_bytes_transitive(
            vstd::utf8::encode_utf8(a.name),
            vstd::utf8::encode_utf8(b.name),
            vstd::utf8::encode_utf8(c.name),
        );
    }
}

proof fn lemma_ranks_antisymmetric(a: RankedView, b: RankedView)
    requires
        ranks_before(a, b),
        ranks_before(b, a),
    ensures
        a == b,
{
    lemma_bytes_antisymmetric(vstd::utf8::encode_utf8(a.name), vstd::utf8::encode_utf8(b.name));
    vstd::utf8::encode_utf8_decode_utf8(a.name);
    vstd::utf8::encode_utf8_decode_utf8(b.name);
}

/// Whether `a` ranks no later than `b`.
fn comes_first(a: &RankedCandidate, b: &RankedCandidate) -> (r: bool)
    ensures
        r == ranks_before(a@, b@),
{
    if a.score != b.score {
        double_before(b.score, a.score)
    } else if a.active_instance_count != b.active_instance_count {
        a.active_instance_count > b.active_instance_count
    } else if a.utilization_current != b.utilization_current {
        double_before(a.utilization_current, b.utilization_current)
    } else if a.rate_limit_ratio_5m != b.rate_limit_ratio_5m {
        double_before(a.rate_limit_ratio_5m, b.rate_limit_ratio_5m)
    } else {
        text_at_most(a.name.as_str(), b.name.as_str())
    }
}

/// Turns a sequence round.
fn reversed(items: Vec<RankedCandidate>) -> (r: Vec<RankedCandidate>)
    ensures
        ranked_views(r@) == ranked_views(items@).reverse(),
{
    let mut rest = items;
    let ghost all = ranked_views(items@);
    let mut out: Vec<RankedCandidate> = Vec::new();
    while rest.len() > 0
        invariant
            rest@.len() + out@.len() == all.len(),
            ranked_views(rest@) == all.take(rest@.len() as int),
            ranked_views(out@) == all.reverse().take(out@.len() as int),
        decreases rest@.len(),
    {
        let ghost n = rest@.len();
        let ghost k = out@.len();
        let ghost before = rest@;
        if let Some(item) = rest.pop() {
            assert(item == before.last());
            assert(ranked_views(before)[n - 1] == item@);
            assert(all.reverse()[k as int] == item@);
            out.push(item);
            assert(ranked_views(rest@) == all.take(n - 1));
            assert(ranked_views(out@) == all.reverse().take(k as int + 1));
        }
    }
    assert(all.reverse().take(all.len() as int) == all.reverse());
    out
}

/// Merges two rankings into one.
fn merge(a: Vec<RankedCandidate>, b: Vec<RankedCandidate>) -> (r: Vec<RankedCandidate>)
    requires
        is_ranking(ranked_views(a@)),
        is_ranking(ranked_views(b@)),
    ensures
        is_ranking(ranked_views(r@)),
        ranked_views(r@).to_multiset() =~= ranked_views(a@).to_multiset().add(
            ranked_views(b@).to_multiset(),
        ),
{
    let ghost total = ranked_views(a@).to_multiset().add(ranked_views(b@).to_multiset());
    let mut left = a;
    let mut right = b;
    let mut taken: Vec<RankedCandidate> = Vec::new();
    proof {
        ranked_views(taken@).to_multiset_ensures();
        assert(ranked_views(taken@).to_multiset() =~= Multiset::empty());
    }
    while left.len() > 0 || right.len() > 0
        invariant
            is_ranking(ranked_views(left@)),
            is_ranking(ranked_views(right@)),
            is_ranking(ranked_views(taken@).reverse()),
            forall|i: int, j: int|
                0 <= i < left@.len() && 0 <= j < taken@.len() ==> ranks_before(
                    #[trigger] left@[i]@,
                    #[trigger] taken@[j]@,
                ),
            forall|i: int, j: int|
                0 <= i < right@.len() && 0 <= j < taken@.len() ==> ranks_before(
                    #[trigger] right@[i]@,
                    #[trigger] taken@[j]@,
                ),
            total =~= ranked_views(left@).to_multiset().add(
                ranked_views(right@).to_multiset(),
            ).add(ranked_views(taken@).to_multiset()),
        decreases left@.len() + right@.len(),
    {
        let ghost l = left@;
        let ghost r = right@;
        let ghost t = taken@;
        let from_right = if right.len() == 0 {
            false
        } else if left.len() == 0 {
            true
        } else {
            comes_first(&left[left.len() - 1], &right[right.len() - 1])
        };
        let popped = if from_right {
            right.pop()
        } else {
            left.pop()
        };
        if let Some(item) = popped {
            taken.push(item);
            proof {
                assert(ranked_views(taken@) == ranked_views(t).push(item@));
                to_multiset_build(ranked_views(t), item@);
                if from_right {
                    assert(ranked_views(r) == ranked_views(right@).push(item@));
                    to_multiset_build(ranked_views(right@), item@);
                } else {
                    assert(ranked_views(l) == ranked_views(left@).push(item@));
                    to_multiset_build(ranked_views(left@), item@);
                }
                lemma_last_of_two(ranked_views(l), ranked_views(r), from_right);
                assert forall|i: int| 0 <= i < left@.len() implies ranks_before(
                    #[trigger] left@[i]@,
                    item@,
                ) by {
                    assert(ranked_views(l)[i] == left@[i]@);
                }
                assert forall|i: int| 0 <= i < right@.len() implies ranks_before(
                    #[trigger] right@[i]@,
                    item@,
                ) by {
                    assert(ranked_views(r)[i] == right@[i]@);
                }
                let now = ranked_views(taken@).reverse();
                let then = ranked_views(t).reverse();
                assert(now == seq![item@] + then);
                assert forall|i: int, j: int| 0 <= i < j < now.len() implies ranks_before(
                    #[trigger] now[i],
                    #[trigger] now[j],
                ) by {
                    if i == 0 {
                        assert(now[j] == t[t.len() - j]@);
                        if from_right {
                            assert(r[r.len() - 1]@ == item@);
                        } else {
                            assert(l[l.len() - 1]@ == item@);
                        }
                    } else {
                        assert(now[i] == then[i - 1]);
                        assert(now[j] == then[j - 1]);
                    }
                }
                lemma_ranking_prefix(ranked_views(l), left@.len() as int);
                lemma_ranking_prefix(ranked_views(r), right@.len() as int);
                assert(ranked_views(left@) == ranked_views(l).take(left@.len() as int));
                assert(ranked_views(right@) == ranked_views(r).take(right@.len() as int));
                assert forall|i: int, j: int|
                    0 <= i < left@.len() && 0 <= j < taken@.len() implies ranks_before(
                    #[trigger] left@[i]@,
                    #[trigger] taken@[j]@,
                ) by {
                    assert(left@[i] == l[i]);
                    if j < t.len() {
                        assert(taken@[j] == t[j]);
                    }
                }
                assert forall|i: int, j: int|
                    0 <= i < right@.len() && 0 <= j < taken@.len() implies ranks_before(
                    #[trigger] right@[i]@,
                    #[trigger] taken@[j]@,
                ) by {
                    assert(right@[i] == r[i]);
                    if j < t.len() {
                        assert(taken@[j] == t[j]);
                    }
                }
            }
        }
    }
    proof {
        ranked_views(left@).to_multiset_ensures();
        ranked_views(right@).to_multiset_ensures();
        assert(ranked_views(left@).to_multiset() =~= Multiset::empty());
        assert(ranked_views(right@).to_multiset() =~= Multiset::empty());
        ranked_views(taken@).lemma_reverse_to_multiset();
    }
    reversed(taken)
}

proof fn lemma_ranking_prefix(ranked: Seq<RankedView>, n: int)
    requires
        is_ranking(ranked),
        0 <= n <= ranked.len(),
    ensures
        is_ranking(ranked.take(n)),
{
    let prefix = ranked.take(n);
    assert forall|i: int, j: int| 0 <= i < j < prefix.len() implies ranks_before(
        #[trigger] prefix[i],
        #[trigger] prefix[j],
    ) by {
        assert(prefix[i] == ranked[i]);
        assert(prefix[j] == ranked[j]);
    }
}

/// Of two rankings, the later of the two last elements ranks behind all others.
proof fn lemma_last_of_two(l: Seq<RankedView>, r: Seq<RankedView>, from_right: bool)
    requires
        is_ranking(l),
        is_ranking(r),
        from_right ==> r.len() > 0 && (l.len() == 0 || ranks_before(l.last(), r.last())),
        !from_right ==> l.len() > 0 && (r.len() == 0 || !ranks_before(l.last(), r.last())),
    ensures
        ({
            let item = if from_right {
                r.last()
            } else {
                l.last()
            };
            &&& forall|i: int|
                0 <= i < l.len() && (from_right || i < l.len() - 1) ==> ranks_before(
                    #[trigger] l[i],
                    item,
                )
            &&& forall|i: int|
                0 <= i < r.len() && (!from_right || i < r.len() - 1) ==> ranks_before(
                    #[trigger] r[i],
                    item,
                )
        }),
{
    if from_right {
        assert forall|i: int| 0 <= i < l.len() implies ranks_before(#[trigger] l[i], r.last()) by {
            if i < l.len() - 1 {
                lemma_ranks_transitive(l[i], l.last(), r.last());
            }
        }
    } else {
        if r.len() > 0 {
            lemma_ranks_total(l.last(), r.last());
        }
        assert forall|i: int| 0 <= i < r.len() implies ranks_before(#[trigger] r[i], l.last()) by {
            if i < r.len() - 1 {
                lemma_ranks_transitive(r[i], r.last(), l.last());
            }
        }
    }
}

fn sorted(items: Vec<RankedCandidate>) -> (r: Vec<RankedCandidate>)
    ensures
        is_ranking(ranked_views(r@)),
        ranked_views(r@).to_multiset() =~= ranked_views(items@).to_multiset(),
    decreases items@.len(),
{
    if items.len() < 2 {
        return items;
    }
    let half: usize = items.len() / 2;
    let mut front = items;
    let back = front.split_off(half);
    proof {
        let all = ranked_views(items@);
        assert(all == ranked_views(front@) + ranked_views(back@));
        lemma_multiset_commutative(ranked_views(front@), ranked_views(back@));
    }
    let a = sorted(front);
    let b = sorted(back);
    merge(a, b)
}

/// Puts candidates in their ranking order.
pub fn sort_ranked_candidates(ranked: &mut Vec<RankedCandidate>)
    ensures
        is_ranking(ranked_views(final(ranked)@)),
        ranked_views(final(ranked)@).to_multiset() =~= ranked_views(old(ranked)@).to_multiset(),
        final(ranked)@.len() == old(ranked)@.len(),
        forall|i: int, j: int|
            0 <= i < j < final(ranked)@.len() ==> order_key((#[trigger] final(ranked)@[i]).score)
                >= order_key((#[trigger] final(ranked)@[j]).score),
{
    let mut items: Vec<RankedCandidate> = Vec::new();
    std::mem::swap(&mut items, ranked);
    *ranked = sorted(items);
    proof {
        let views = ranked_views(ranked@);
        views.to_multiset_ensures();
        ranked_views(items@).to_multiset_ensures();
        assert forall|i: int, j: int| 0 <= i < j < ranked@.len() implies order_key(
            (#[trigger] ranked@[i]).score,
        ) >= order_key((#[trigger] ranked@[j]).score) by {
            assert(ranks_before(views[i], views[j]));
        }
    }
}

/// The candidates among the scored chutes of the feed, in their ranking order.
pub fn rank_candidates(records: Vec<ScoredRecord>, tee_allowlist: &TeeAllowlist) -> (r: Vec<
    RankedCandidate,
>)
    ensures
        is_ranking_of(ranked_views(r@), records@, tee_allowlist@),
        forall|i: int, j: int|
            0 <= i < j < r@.len() ==> order_key((#[trigger] r@[i]).score) >= order_key(
                (#[trigger] r@[j]).score,
            ),
{
    let mut ranked: Vec<RankedCandidate> = Vec::new();
    let mut i: usize = 0;
    assert(ranked_views(ranked@) == candidates_of(records@.take(0), tee_allowlist@));
    while i < records.len()
        invariant
            i <= records@.len(),
            ranked_views(ranked@) == candidates_of(records@.take(i as int), tee_allowlist@),
        decreases records@.len() - i,
    {
        let ghost before = ranked@;
        assert(records@.take(i + 1).drop_last() == records@.take(i as int));
        let record = &records[i].record;
        if !record.is_private_chute() && record.active_instance_count > 0 && is_tee_eligible(
            record.name.as_str(),
            tee_allowlist,
        ) {
            ranked.push(RankedCandidate::from_scored(&records[i]));
            assert(ranked_views(ranked@) == ranked_views(before).push(
                candidate_of(records@[i as int]),
            ));
        }
        i += 1;
    }
    assert(records@.take(records@.len() as int) == records@);
    sort_ranked_candidates(&mut ranked);
    ranked
}

/// The ranking order is total: of two candidates one ranks no later than the
/// other, only a candidate and itself rank the same, and the order is transitive.
pub proof fn ranking_order_is_total(a: RankedView, b: RankedView, c: RankedView)
    ensures
        ranks_before(a, b) || ranks_before(b, a),
        ranks_before(a, b) && ranks_before(b, a) ==> a == b,
        ranks_before(a, b) && ranks_before(b, c) ==> ranks_before(a, c),
{
    lemma_ranks_total(a, b);
    if ranks_before(a, b) && ranks_before(b, a) {
        lemma_ranks_antisymmetric(a, b);
    }
    if ranks_before(a, b) && ranks_before(b, c) {
        lemma_ranks_transitive(a, b, c);
    }
}

/// There is one ranking of given candidates: two that hold the same candidates
/// are the same.
pub proof fn ranking_is_unique(a: Seq<RankedView>, b: Seq<RankedView>)
    requires
        is_ranking(a),
        is_ranking(b),
        a.to_multiset() == b.to_multiset(),
    ensures
        a == b,
{
    let order = |x: RankedView, y: RankedView| ranks_before(x, y);
    assert forall|x: RankedView| #[trigger] order(x, x) by {
        lemma_ranks_total(x, x);
    }
    assert forall|x: RankedView, y: RankedView| #[trigger]
        order(x, y) && #[trigger] order(y, x) implies x == y by {
        lemma_ranks_antisymmetric(x, y);
    }
    assert forall|x: RankedView, y: RankedView, z: RankedView| #[trigger]
        order(x, y) && #[trigger] order(y, z) implies order(x, z) by {
        lemma_ranks_transitive(x, y, z);
    }
    assert forall|x: RankedView, y: RankedView| #[trigger] order(x, y) || #[trigger] order(y, x) by {
        lemma_ranks_total(x, y);
    }
    lemma_sorted_unique(a, b, order);
}

spec fn contribution(scored: ScoredRecord, allowlist: Set<Seq<char>>) -> Multiset<RankedView> {
    if is_candidate(scored.record, allowlist) {
        Multiset::singleton(candidate_of(scored))
    } else {
        Multiset::empty()
    }
}

proof fn lemma_contribution(records: Seq<ScoredRecord>, i: int, allowlist: Set<Seq<char>>)
    requires
        0 <= i < records.len(),
    ensures
        candidates_of(records, allowlist).to_multiset() =~= candidates_of(
            records.remove(i),
            allowlist,
        ).to_multiset().add(contribution(records[i], allowlist)),
    decreases records.len(),
{
    broadcast use to_multiset_build;

    let before = records.drop_last();
    if i == records.len() - 1 {
        assert(records.remove(i) == before);
    } else {
        lemma_contribution(before, i, allowlist);
        assert(records.remove(i).drop_last() == before.remove(i));
        assert(records.remove(i).last() == records.last());
    }
}

proof fn lemma_same_candidates(
    a: Seq<ScoredRecord>,
    b: Seq<ScoredRecord>,
    allowlist: Set<Seq<char>>,
)
    requires
        a.to_multiset() == b.to_multiset(),
    ensures
        candidates_of(a, allowlist).to_multiset() == candidates_of(b, allowlist).to_multiset(),
    decreases a.len(),
{
    a.to_multiset_ensures();
    b.to_multiset_ensures();
    if a.len() == 0 {
        assert(a == b);
    } else {
        let last = a.len() - 1;
        assert(a.contains(a[last]));
        assert(a.to_multiset().count(a[last]) > 0);
        let i = choose|i: int| 0 <= i < b.len() && b[i] == a[last];
        assert(a.remove(last).to_multiset() =~= b.remove(i).to_multiset());
        lemma_same_candidates(a.remove(last), b.remove(i), allowlist);
        lemma_contribution(a, last, allowlist);
        lemma_contribution(b, i, allowlist);
    }
}

/// The ranking depends on the chutes of the feed alone, and not on the order in
/// which the feed lists them.
pub proof fn ranking_ignores_feed_order(
    a: Seq<RankedView>,
    b: Seq<RankedView>,
    feed_a: Seq<ScoredRecord>,
    feed_b: Seq<ScoredRecord>,
    allowlist: Set<Seq<char>>,
)
    requires
        is_ranking_of(a, feed_a, allowlist),
        is_ranking_of(b, feed_b, allowlist),
        feed_a.to_multiset() == feed_b.to_multiset(),
    ensures
        a == b,
{
    lemma_same_candidates(feed_a, feed_b, allowlist);
    ranking_is_unique(a, b);
}

proof fn lemma_candidates_are(
    records: Seq<ScoredRecord>,
    allowlist: Set<Seq<char>>,
    candidate: RankedView,
)
    ensures
        candidates_of(records, allowlist).contains(candidate) <==> exists|i: int|
            0 <= i < records.len() && is_candidate((#[trigger] records[i]).record, allowlist)
                && candidate_of(records[i]) == candidate,
    decreases records.len(),
{
    if records.len() > 0 {
        let before = records.drop_last();
        let had = candidates_of(before, allowlist);
        let have = candidates_of(records, allowlist);
        lemma_candidates_are(before, allowlist, candidate);
        if have.contains(candidate) {
            if had.contains(candidate) {
                let i = choose|i: int|
                    0 <= i < before.len() && is_candidate((#[trigger] before[i]).record, allowlist)
                        && candidate_of(before[i]) == candidate;
                assert(records[i] == before[i]);
            } else {
                assert(candidate_of(records.last()) == candidate);
                assert(is_candidate(records[records.len() - 1].record, allowlist));
            }
        }
        if exists|i: int|
            0 <= i < records.len() && is_candidate((#[trigger] records[i]).record, allowlist)
                && candidate_of(records[i]) == candidate {
            let i = choose|i: int|
                0 <= i < records.len() && is_candidate((#[trigger] records[i]).record, allowlist)
                    && candidate_of(records[i]) == candidate;
            if i < before.len() {
                assert(before[i] == records[i]);
                let j = choose|j: int| 0 <= j < had.len() && had[j] == candidate;
                assert(have[j] == candidate);
            } else {
                assert(have[had.len() as int] == candidate);
            }
        }
    }
}

/// A model is ranked if and only if the feed has it as a chute that is not
/// private, has an active instance, and may be used.
pub proof fn ranked_models_are_the_eligible_ones(
    ranked: Seq<RankedView>,
    records: Seq<ScoredRecord>,
    allowlist: Set<Seq<char>>,
    name: Seq<char>,
)
    requires
        is_ranking_of(ranked, records, allowlist),
    ensures
        (exists|k: int| 0 <= k < ranked.len() && (#[trigger] ranked[k]).name == name) <==> (exists|
            i: int,
        |
            0 <= i < records.len() && is_candidate((#[trigger] records[i]).record, allowlist)
                && records[i].record.name@ == name),
{
    let candidates = candidates_of(records, allowlist);
    ranked.to_multiset_ensures();
    candidates.to_multiset_ensures();
    if exists|k: int| 0 <= k < ranked.len() && (#[trigger] ranked[k]).name == name {
        let k = choose|k: int| 0 <= k < ranked.len() && (#[trigger] ranked[k]).name == name;
        assert(ranked.contains(ranked[k]));
        assert(ranked.to_multiset().count(ranked[k]) > 0);
        lemma_candidates_are(records, allowlist, ranked[k]);
    }
    if exists|i: int|
        0 <= i < records.len() && is_candidate((#[trigger] records[i]).record, allowlist)
            && records[i].record.name@ == name {
        let i = choose|i: int|
            0 <= i < records.len() && is_candidate((#[trigger] records[i]).record, allowlist)
                && records[i].record.name@ == name;
        let candidate = candidate_of(records[i]);
        lemma_candidates_are(records, allowlist, candidate);
        assert(candidates.to_multiset().count(candidate) > 0);
        assert(ranked.contains(candidate));
        let k = choose|k: int| 0 <= k < ranked.len() && ranked[k] == candidate;
        assert(ranked[k].name == name);
    }
}

/// The first of the ranking ranks no later than any candidate of the feed.
pub proof fn best_candidate_comes_first(
    ranked: Seq<RankedView>,
    records: Seq<ScoredRecord>,
    allowlist: Set<Seq<char>>,
    i: int,
)
    requires
        is_ranking_of(ranked, records, allowlist),
        0 <= i < records.len(),
        is_candidate(records[i].record, allowlist),
    ensures
        ranked.len() > 0,
        ranks_before(ranked[0], candidate_of(records[i])),
{
    let candidate = candidate_of(records[i]);
    ranked.to_multiset_ensures();
    candidates_of(records, allowlist).to_multiset_ensures();
    lemma_candidates_are(records, allowlist, candidate);
    assert(candidates_of(records, allowlist).to_multiset().count(candidate) > 0);
    assert(ranked.contains(candidate));
    let k = choose|k: int| 0 <= k < ranked.len() && ranked[k] == candidate;
    if k == 0 {
        lemma_ranks_total(candidate, candidate);
    }
}

/// The IEEE 754 total order of bit patterns: those without a sign by their bits,
/// those with a sign below them and the other way round.
pub proof fn numbers_are_ordered_by_sign_and_size(a: Bits, b: Bits)
    ensures
        a < 0x8000_0000_0000_0000 && b < 0x8000_0000_0000_0000 ==> (order_key(a) < order_key(b)
            <==> a < b),
        a >= 0x8000_0000_0000_0000 && b >= 0x8000_0000_0000_0000 ==> (order_key(a) < order_key(b)
            <==> a > b),
        a >= 0x8000_0000_0000_0000 && b < 0x8000_0000_0000_0000 ==> order_key(a) < order_key(b),
        order_key(a) == order_key(b) ==> a == b,
{
}

/// The views of candidates are the candidates, one for one, with their fields.
pub proof fn candidate_views_are_the_candidates(ranked: Seq<RankedCandidate>, i: int)
    requires
        0 <= i < ranked.len(),
    ensures
        ranked_views(ranked).len() == ranked.len(),
        ranked_views(ranked)[i].name == ranked[i].name@,
        ranked_views(ranked)[i].active_instance_count == ranked[i].active_instance_count,
        ranked_views(ranked)[i].utilization_current == ranked[i].utilization_current,
        ranked_views(ranked)[i].rate_limit_ratio_5m == ranked[i].rate_limit_ratio_5m,
        ranked_views(ranked)[i].score == ranked[i].score,
{
}

/// In a ranking the higher score comes first, whatever the other fields are. Only
/// among equal scores do more active instances come first, only among equal counts
/// the lower utilization, only among equal utilizations the lower rate limit ratio,
/// and only then the name.
pub proof fn rankings_go_by_score_first(ranked: Seq<RankedView>, i: int, j: int)
    requires
        is_ranking(ranked),
        0 <= i < j < ranked.len(),
    ensures
        order_key(ranked[i].score) >= order_key(ranked[j].score),
        ranked[i].score == ranked[j].score ==> ranked[i].active_instance_count
            >= ranked[j].active_instance_count,
        ranked[i].score == ranked[j].score && ranked[i].active_instance_count
            == ranked[j].active_instance_count ==> order_key(ranked[i].utilization_current)
            <= order_key(ranked[j].utilization_current),
        ranked[i].score == ranked[j].score && ranked[i].active_instance_count
            == ranked[j].active_instance_count && ranked[i].utilization_current
            == ranked[j].utilization_current ==> order_key(ranked[i].rate_limit_ratio_5m)
            <= order_key(ranked[j].rate_limit_ratio_5m),
        ranked[i].score == ranked[j].score && ranked[i].active_instance_count
            == ranked[j].active_instance_count && ranked[i].utilization_current
            == ranked[j].utilization_current && ranked[i].rate_limit_ratio_5m
            == ranked[j].rate_limit_ratio_5m ==> bytes_le(
            encode_utf8(ranked[i].name),
            encode_utf8(ranked[j].name),
        ),
{
    assert(ranks_before(ranked[i], ranked[j]));
}

/// The ranking of the feed goes by score first, and by the tie-breakers in their
/// order.
pub proof fn feed_is_ranked_by_score_first(
    ranked: Seq<RankedView>,
    records: Seq<ScoredRecord>,
    allowlist: Set<Seq<char>>,
    i: int,
    j: int,
)
    requires
        is_ranking_of(ranked, records, allowlist),
        0 <= i < j < ranked.len(),
    ensures
        order_key(ranked[i].score) >= order_key(ranked[j].score),
        ranked[i].score == ranked[j].score ==> ranked[i].active_instance_count
            >= ranked[j].active_instance_count,
        ranked[i].score == ranked[j].score && ranked[i].active_instance_count
            == ranked[j].active_instance_count ==> order_key(ranked[i].utilization_current)
            <= order_key(ranked[j].utilization_current),
        ranked[i].score == ranked[j].score && ranked[i].active_instance_count
            == ranked[j].active_instance_count && ranked[i].utilization_current
            == ranked[j].utilization_current ==> order_key(ranked[i].rate_limit_ratio_5m)
            <= order_key(ranked[j].rate_limit_ratio_5m),
        ranked[i].score == ranked[j].score && ranked[i].active_instance_count
            == ranked[j].active_instance_count && ranked[i].utilization_current
            == ranked[j].utilization_current && ranked[i].rate_limit_ratio_5m
            == ranked[j].rate_limit_ratio_5m ==> bytes_le(
            encode_utf8(ranked[i].name),
            encode_utf8(ranked[j].name),
        ),
{
    rankings_go_by_score_first(ranked, i, j);
}

/// Every ranked candidate is a chute of the feed: one that is not private, has an
/// active instance and may be used, with the feed's count, utilization, rate limit
/// ratio and score.
pub proof fn ranked_candidates_come_from_the_feed(
    ranked: Seq<RankedView>,
    records: Seq<ScoredRecord>,
    allowlist: Set<Seq<char>>,
    k: int,
) -> (i: int)
    requires
        is_ranking_of(ranked, records, allowlist),
        0 <= k < ranked.len(),
    ensures
        0 <= i < records.len(),
        ranked[k].name == records[i].record.name@,
        ranked[k].name != "[private chute]"@,
        allowlist == Set::<Seq<char>>::empty() ==> ranked[k].name.len() >= 4
            && ranked[k].name.skip(ranked[k].name.len() - 4) == "-TEE"@,
        allowlist != Set::<Seq<char>>::empty() ==> allowlist.contains(ranked[k].name),
        ranked[k].active_instance_count == records[i].record.active_instance_count,
        ranked[k].active_instance_count > 0,
        ranked[k].score == records[i].score,
        records[i].record.utilization_current matches Some(u) ==> ranked[k].utilization_current
            == u,
        records[i].record.utilization_current is None ==> ranked[k].utilization_current == (
        match records[i].record.utilization_5m {
            Some(u) => u,
            None => 0x3ff0_0000_0000_0000u64,
        }),
        ranked[k].rate_limit_ratio_5m == (match records[i].record.rate_limit_ratio_5m {
            Some(ratio) => ratio,
            None => 0u64,
        }),
{
    reveal_strlit("-TEE");
    ranked.to_multiset_ensures();
    candidates_of(records, allowlist).to_multiset_ensures();
    assert(ranked.contains(ranked[k]));
    assert(ranked.to_multiset().count(ranked[k]) > 0);
    lemma_candidates_are(records, allowlist, ranked[k]);
    choose|i: int|
        0 <= i < records.len() && is_candidate((#[trigger] records[i]).record, allowlist)
            && candidate_of(records[i]) == ranked[k]
}

/// Every chute of the feed that is not private, has an active instance and may be
/// used is ranked, under its name and with its score.
pub proof fn eligible_chutes_are_ranked(
    ranked: Seq<RankedView>,
    records: Seq<ScoredRecord>,
    allowlist: Set<Seq<char>>,
    i: int,
) -> (k: int)
    requires
        is_ranking_of(ranked, records, allowlist),
        0 <= i < records.len(),
        records[i].record.name@ != "[private chute]"@,
        records[i].record.active_instance_count > 0,
        (allowlist == Set::<Seq<char>>::empty() && records[i].record.name@.len() >= 4
            && records[i].record.name@.skip(records[i].record.name@.len() - 4) == "-TEE"@)
            || allowlist.contains(records[i].record.name@),
    ensures
        0 <= k < ranked.len(),
        ranked[k].name == records[i].record.name@,
        ranked[k].active_instance_count == records[i].record.active_instance_count,
        ranked[k].score == records[i].score,
{
    reveal_strlit("-TEE");
    let candidates = candidates_of(records, allowlist);
    let candidate = candidate_of(records[i]);
    ranked.to_multiset_ensures();
    candidates.to_multiset_ensures();
    assert(is_candidate(records[i].record, allowlist));
    lemma_candidates_are(records, allowlist, candidate);
    assert(candidates.to_multiset().count(candidate) > 0);
    assert(ranked.contains(candidate));
    choose|k: int| 0 <= k < ranked.len() && ranked[k] == candidate
}

proof fn lemma_candidate_count(records: Seq<ScoredRecord>, allowlist: Set<Seq<char>>)
    ensures
        candidates_of(records, allowlist).len() == records.filter(
            |scored: ScoredRecord|
                scored.record.name@ != "[private chute]"@ && scored.record.active_instance_count > 0
                    && tee_eligible(scored.record.name@, allowlist),
        ).len(),
    decreases records.len(),
{
    reveal(Seq::filter);
    if records.len() > 0 {
        lemma_candidate_count(records.drop_last(), allowlist);
    }
}

/// A ranking has as many candidates as the feed has chutes that are not private,
/// have an active instance and may be used.
pub proof fn every_eligible_chute_is_ranked_once(
    ranked: Seq<RankedView>,
    records: Seq<ScoredRecord>,
    allowlist: Set<Seq<char>>,
)
    requires
        is_ranking_of(ranked, records, allowlist),
    ensures
        ranked.len() == records.filter(
            |scored: ScoredRecord|
                scored.record.name@ != "[private chute]"@ && scored.record.active_instance_count > 0
                    && tee_eligible(scored.record.name@, allowlist),
        ).len(),
{
    ranked.to_multiset_ensures();
    candidates_of(records, allowlist).to_multiset_ensures();
    lemma_candidate_count(records, allowlist);
}

/// A signal that the feed gives counts as it is. A missing utilization or rate
/// limit ratio is that of the next shorter window; of the shortest window, a
/// missing utilization is the current one or else a full load, and a missing ratio
/// is zero. The scale allowance counts only where the chute can scale.
pub proof fn missing_signals_come_from_shorter_windows(record: UtilizationRecord)
    ensures
        record.inputs().active_instance_count == record.active_instance_count,
        record.utilization_5m matches Some(u) ==> record.inputs().utilization_5m == u,
        record.utilization_5m is None ==> (record.utilization_current matches Some(u)
            ==> record.inputs().utilization_5m == u),
        record.utilization_5m is None && record.utilization_current is None
            ==> record.inputs().utilization_5m == 0x3ff0_0000_0000_0000u64,
        record.utilization_15m matches Some(u) ==> record.inputs().utilization_15m == u,
        record.utilization_15m is None ==> record.inputs().utilization_15m
            == record.inputs().utilization_5m,
        record.utilization_1h matches Some(u) ==> record.inputs().utilization_1h == u,
        record.utilization_1h is None ==> record.inputs().utilization_1h
            == record.inputs().utilization_15m,
        record.rate_limit_ratio_5m matches Some(ratio) ==> record.inputs().rate_limit_ratio_5m
            == ratio,
        record.rate_limit_ratio_5m is None ==> record.inputs().rate_limit_ratio_5m == 0u64,
        record.rate_limit_ratio_15m matches Some(ratio) ==> record.inputs().rate_limit_ratio_15m
            == ratio,
        record.rate_limit_ratio_15m is None ==> record.inputs().rate_limit_ratio_15m
            == record.inputs().rate_limit_ratio_5m,
        record.rate_limit_ratio_1h matches Some(ratio) ==> record.inputs().rate_limit_ratio_1h
            == ratio,
        record.rate_limit_ratio_1h is None ==> record.inputs().rate_limit_ratio_1h
            == record.inputs().rate_limit_ratio_15m,
        !record.scalable ==> record.inputs().scale_allowance == 0u64,
        record.scalable ==> (record.scale_allowance matches Some(allowance)
            ==> record.inputs().scale_allowance == allowance),
        record.scalable && record.scale_allowance is None ==> record.inputs().scale_allowance
            == 0u64,
{
}

/// A candidate holds what the feed says of its chute, and its score.
pub proof fn candidates_hold_what_the_feed_says(scored: ScoredRecord)
    ensures
        candidate_of(scored).name == scored.record.name@,
        candidate_of(scored).active_instance_count == scored.record.active_instance_count,
        candidate_of(scored).score == scored.score,
        scored.record.utilization_current matches Some(u) ==> candidate_of(
            scored,
        ).utilization_current == u,
        scored.record.utilization_current is None ==> candidate_of(scored).utilization_current == (
        match scored.record.utilization_5m {
            Some(u) => u,
            None => 0x3ff0_0000_0000_0000u64,
        }),
        candidate_of(scored).rate_limit_ratio_5m == (match scored.record.rate_limit_ratio_5m {
            Some(ratio) => ratio,
            None => 0u64,
        }),
{
}

} // verus!

//! The realization engine: turns a parsed sequence of terms into rolled
//! values against a pluggable source of randomness, applying advantage,
//! disadvantage, reroll and explode mechanics, and aggregates a total.
//!
//! Two policies, chosen here and pinned by the contracts: a single die
//! resolves in at most [`MAX_DIE_STEPS`] candidate draws, and when that
//! cap is reached the last candidate is kept as a best-effort result even
//! if it lay in reroll or explode range (a reroll threshold at or above
//! the highest reachable face would otherwise discard draws forever);
//! and accumulation uses saturating 64-bit addition, so an exploding die
//! that runs long sticks at the numeric limit instead of wrapping.

use vstd::prelude::*;

use crate::term::{CompoundExpression, RealizedCompoundExpression, RealizedTerm, Term, Value};

verus! {

// ---------------------------------------------------------------------------
// The randomness capability
// ---------------------------------------------------------------------------

/// The randomness capability the engine consumes. A source supplies one
/// die-face value per call; the engine places no requirement on the
/// distribution, so deterministic sequences are supported for testing.
pub trait Roller {
    /// Every value this source has produced so far, in order.
    spec fn history(&self) -> Seq<int>;

    /// Draws one value in `[1, faces]` and appends it to the history.
    fn roll(&mut self, faces: i32) -> (r: i32)
        requires
            faces >= 1,
        ensures
            1 <= r <= faces,
            final(self).history() == old(self).history().push(r as int),
    ;
}

/// The draw a fixed value list yields at `pos` for a die of `faces`
/// faces: the stored value clamped into `[1, faces]`, or 1 once the list
/// is exhausted.
pub open spec fn fixed_draw(values: Seq<i32>, pos: int, faces: int) -> int {
    let raw: int = if 0 <= pos < values.len() {
        values[pos] as int
    } else {
        1
    };
    if raw < 1 {
        1
    } else if raw > faces {
        faces
    } else {
        raw
    }
}

/// A deterministic randomness source: replays a fixed list of values in
/// order, clamping each into the requested range, and yields 1 once the
/// list is exhausted.
pub struct FixedRoller {
    values: Vec<i32>,
    pos: usize,
    past: Ghost<Seq<int>>,
}

impl FixedRoller {
    /// How many draws this source has taken from its list.
    pub closed spec fn spec_position(&self) -> usize {
        self.pos
    }

    /// The list of values this source replays.
    pub closed spec fn spec_values(&self) -> Seq<i32> {
        self.values@
    }

    /// A source that replays `values` in order.
    pub fn new(values: Vec<i32>) -> (r: FixedRoller)
        ensures
            r.history() == Seq::<int>::empty(),
            r.spec_position() == 0,
            r.spec_values() == values@,
    {
        FixedRoller { values, pos: 0, past: Ghost(Seq::empty()) }
    }

    /// How many draws this source has taken from its list.
    pub fn position(&self) -> (r: usize)
        ensures
            r == self.spec_position(),
    {
        self.pos
    }
}

impl Roller for FixedRoller {
    closed spec fn history(&self) -> Seq<int> {
        self.past@
    }

    /// Replays the next stored value, clamped into `[1, faces]`, or 1
    /// once the list is exhausted — so the whole draw sequence, and with
    /// it any realization, is a function of the stored list alone.
    fn roll(&mut self, faces: i32) -> (r: i32)
        ensures
            r as int == fixed_draw(
                old(self).spec_values(),
                old(self).spec_position() as int,
                faces as int,
            ),
            final(self).spec_values() == old(self).spec_values(),
            final(self).spec_position() == if old(self).spec_position()
                < old(self).spec_values().len() {
                old(self).spec_position() + 1
            } else {
                old(self).spec_position() as int
            },
    {
        let raw: i32 = if self.pos < self.values.len() {
            let v = self.values[self.pos];
            self.pos = self.pos + 1;
            v
        } else {
            1
        };
        let r: i32 = if raw < 1 {
            1
        } else if raw > faces {
            faces
        } else {
            raw
        };
        self.past = Ghost(self.past@.push(r as int));
        r
    }
}

// ---------------------------------------------------------------------------
// The draw-stream model
// ---------------------------------------------------------------------------

/// Addition that sticks at the 64-bit limits instead of wrapping.
pub open spec fn sat_add(a: int, b: int) -> int {
    if a + b > i64::MAX {
        i64::MAX as int
    } else if a + b < i64::MIN {
        i64::MIN as int
    } else {
        a + b
    }
}

/// Saturating 64-bit addition.
fn sat_add64(a: i64, b: i64) -> (r: i64)
    ensures
        r as int == sat_add(a as int, b as int),
{
    if b >= 0 {
        if a <= i64::MAX - b {
            a + b
        } else {
            i64::MAX
        }
    } else {
        if a >= i64::MIN - b {
            a + b
        } else {
            i64::MIN
        }
    }
}

/// How many draws one candidate takes: two under advantage or
/// disadvantage, one otherwise.
pub open spec fn draws_needed(adv: bool, dis: bool) -> int {
    if adv || dis {
        2
    } else {
        1
    }
}

/// The candidate value the leading draws of `draws` yield: the larger of
/// the first two under advantage, the smaller under disadvantage, the
/// first alone otherwise.
pub open spec fn cand_of(adv: bool, dis: bool, draws: Seq<int>) -> int
    recommends
        draws.len() >= draws_needed(adv, dis),
{
    if adv {
        if draws[0] >= draws[1] {
            draws[0]
        } else {
            draws[1]
        }
    } else if dis {
        if draws[0] <= draws[1] {
            draws[0]
        } else {
            draws[1]
        }
    } else {
        draws[0]
    }
}

/// The most candidate draws a single die may take before its resolution
/// is cut off with a best-effort result.
pub const MAX_DIE_STEPS: u32 = 1000000;

/// How one die resolves against a prefix of the draw stream `draws`,
/// having already accumulated `acc`, with `fuel` candidate draws left
/// before the cap: draw one candidate; at the last unit of fuel it is
/// kept unconditionally; otherwise a candidate at or above the explode
/// threshold is accumulated and rolls again, one at or below the reroll
/// threshold is discarded and drawn again, and any other candidate ends
/// the die at `acc + candidate`. Yields the die's value and the
/// unconsumed remainder of the stream, or `None` when the stream runs
/// out first.
pub open spec fn resolve_run(
    adv: bool,
    dis: bool,
    reroll: Option<i32>,
    explode: Option<i32>,
    draws: Seq<int>,
    acc: int,
    fuel: int,
) -> Option<(int, Seq<int>)>
    decreases draws.len(),
{
    let need = draws_needed(adv, dis);
    if draws.len() < need {
        None
    } else {
        let cand = cand_of(adv, dis, draws);
        let rest = draws.skip(need);
        if fuel <= 1 {
            Some((sat_add(acc, cand), rest))
        } else if explode matches Some(t) && cand >= t as int {
            resolve_run(adv, dis, reroll, explode, rest, sat_add(acc, cand), fuel - 1)
        } else if reroll matches Some(t) && cand <= t as int {
            resolve_run(adv, dis, reroll, explode, rest, acc, fuel - 1)
        } else {
            Some((sat_add(acc, cand), rest))
        }
    }
}

/// How `count` dice resolve in sequence against the stream, summing their
/// values onto `acc` left to right.
pub open spec fn dice_run(
    count: int,
    adv: bool,
    dis: bool,
    reroll: Option<i32>,
    explode: Option<i32>,
    draws: Seq<int>,
    acc: int,
) -> Option<(int, Seq<int>)>
    decreases count,
{
    if count <= 0 {
        Some((acc, draws))
    } else {
        match resolve_run(adv, dis, reroll, explode, draws, 0, MAX_DIE_STEPS as int) {
            Some(p) => dice_run(count - 1, adv, dis, reroll, explode, p.1, sat_add(acc, p.0)),
            None => None,
        }
    }
}

/// The model of one realized term: rolled value and theoretical bounds,
/// as unbounded integers.
pub ghost struct RealizedModel {
    /// The rolled or fixed value, sign-adjusted.
    pub realized: int,
    /// The theoretical minimum for the term.
    pub min: int,
    /// The theoretical maximum for the term.
    pub max: int,
}

/// The executable realized term, read as its model.
pub open spec fn model_of(rt: RealizedTerm) -> RealizedModel {
    RealizedModel { realized: rt.realized as int, min: rt.min as int, max: rt.max as int }
}

/// How one term realizes against a prefix of the stream. A fixed term is
/// its constant, with equal bounds and no draw, and sign inversion does
/// not apply to it. A dice term rolls `count` dice; inversion negates the
/// total and swaps the bounds' signs. The bounds ignore reroll and
/// explode amplification.
pub open spec fn term_run(t: Term, draws: Seq<int>) -> Option<(RealizedModel, Seq<int>)> {
    match t.value {
        Value::Fixed(n) => Some(
            (RealizedModel { realized: n as int, min: n as int, max: n as int }, draws),
        ),
        Value::Bounded(f) => match dice_run(
            t.count as int,
            t.advantage,
            t.disadvantage,
            t.reroll,
            t.explode,
            draws,
            0,
        ) {
            Some(p) => {
                let total = p.0;
                let m = if t.invert {
                    RealizedModel {
                        realized: -total,
                        min: -(t.count as int * f as int),
                        max: -(t.count as int),
                    }
                } else {
                    RealizedModel {
                        realized: total,
                        min: t.count as int,
                        max: t.count as int * f as int,
                    }
                };
                Some((m, p.1))
            },
            None => None,
        },
    }
}

/// The outcome of realizing a whole term sequence against a prefix of the
/// stream.
pub ghost struct RunResult {
    /// Left-to-right saturating sum of the realized values.
    pub sum: int,
    /// The realized terms, in order.
    pub terms: Seq<RealizedModel>,
    /// The unconsumed remainder of the stream.
    pub rest: Seq<int>,
}

/// How a term sequence realizes against the stream: each term in order,
/// each consuming the draws the one before it left over.
pub open spec fn compound_run(
    terms: Seq<Term>,
    draws: Seq<int>,
    acc: int,
    done: Seq<RealizedModel>,
) -> Option<RunResult>
    decreases terms.len(),
{
    if terms.len() == 0 {
        Some(RunResult { sum: acc, terms: done, rest: draws })
    } else {
        match term_run(terms[0], draws) {
            Some(p) => compound_run(
                terms.skip(1),
                p.1,
                sat_add(acc, p.0.realized),
                done.push(p.0),
            ),
            None => None,
        }
    }
}

/// Whether a term can be realized at all: a dice term that actually rolls
/// needs at least one face for a draw to exist.
pub open spec fn term_realizable(t: Term) -> bool {
    t.count > 0 ==> match t.value {
        Value::Fixed(n) => true,
        Value::Bounded(f) => f >= 1,
    }
}

/// Whether every term of the sequence can be realized.
pub open spec fn realizable(terms: Seq<Term>) -> bool {
    forall|k: int| 0 <= k < terms.len() ==> term_realizable(#[trigger] terms[k])
}

// ---------------------------------------------------------------------------
// Extending the stream does not change what was already resolved
// ---------------------------------------------------------------------------

/// Draws appended after a die has finished do not change its value: they
/// only lengthen the unconsumed remainder.
proof fn lemma_resolve_extend(
    adv: bool,
    dis: bool,
    reroll: Option<i32>,
    explode: Option<i32>,
    draws: Seq<int>,
    ext: Seq<int>,
    acc: int,
    fuel: int,
)
    requires
        resolve_run(adv, dis, reroll, explode, draws, acc, fuel) is Some,
    ensures
        resolve_run(adv, dis, reroll, explode, draws + ext, acc, fuel) == Some(
            (
                resolve_run(adv, dis, reroll, explode, draws, acc, fuel).unwrap().0,
                resolve_run(adv, dis, reroll, explode, draws, acc, fuel).unwrap().1 + ext,
            ),
        ),
    decreases draws.len(),
{
    let need = draws_needed(adv, dis);
    let all = draws + ext;
    assert(draws.len() >= need);
    assert(all[0] == draws[0]);
    if need == 2 {
        assert(all[1] == draws[1]);
    }
    assert(cand_of(adv, dis, all) == cand_of(adv, dis, draws));
    assert(all.skip(need) =~= draws.skip(need) + ext);
    let cand = cand_of(adv, dis, draws);
    if fuel <= 1 {
    } else if explode matches Some(t) && cand >= t as int {
        lemma_resolve_extend(
            adv,
            dis,
            reroll,
            explode,
            draws.skip(need),
            ext,
            sat_add(acc, cand),
            fuel - 1,
        );
    } else if reroll matches Some(t) && cand <= t as int {
        lemma_resolve_extend(adv, dis, reroll, explode, draws.skip(need), ext, acc, fuel - 1);
    }
}

/// Draws appended after `count` dice have finished do not change their
/// sum.
proof fn lemma_dice_extend(
    count: int,
    adv: bool,
    dis: bool,
    reroll: Option<i32>,
    explode: Option<i32>,
    draws: Seq<int>,
    ext: Seq<int>,
    acc: int,
)
    requires
        dice_run(count, adv, dis, reroll, explode, draws, acc) is Some,
    ensures
        dice_run(count, adv, dis, reroll, explode, draws + ext, acc) == Some(
            (
                dice_run(count, adv, dis, reroll, explode, draws, acc).unwrap().0,
                dice_run(count, adv, dis, reroll, explode, draws, acc).unwrap().1 + ext,
            ),
        ),
    decreases count,
{
    if count > 0 {
        let p = resolve_run(adv, dis, reroll, explode, draws, 0, MAX_DIE_STEPS as int).unwrap();
        lemma_resolve_extend(adv, dis, reroll, explode, draws, ext, 0, MAX_DIE_STEPS as int);
        lemma_dice_extend(count - 1, adv, dis, reroll, explode, p.1, ext, sat_add(acc, p.0));
    }
}

/// Draws appended after a term has finished do not change how it
/// realized.
proof fn lemma_term_extend(t: Term, draws: Seq<int>, ext: Seq<int>)
    requires
        term_run(t, draws) is Some,
    ensures
        term_run(t, draws + ext) == Some(
            (term_run(t, draws).unwrap().0, term_run(t, draws).unwrap().1 + ext),
        ),
{
    match t.value {
        Value::Fixed(n) => {},
        Value::Bounded(f) => {
            lemma_dice_extend(
                t.count as int,
                t.advantage,
                t.disadvantage,
                t.reroll,
                t.explode,
                draws,
                ext,
                0,
            );
        },
    }
}

/// Draws appended after a whole term sequence has finished do not change
/// its outcome: the sum and the realized terms stay the same, and only
/// the unconsumed remainder grows.
pub proof fn lemma_compound_extend(
    terms: Seq<Term>,
    draws: Seq<int>,
    ext: Seq<int>,
    acc: int,
    done: Seq<RealizedModel>,
)
    requires
        compound_run(terms, draws, acc, done) is Some,
    ensures
        compound_run(terms, draws + ext, acc, done) == Some(
            RunResult {
                sum: compound_run(terms, draws, acc, done).unwrap().sum,
                terms: compound_run(terms, draws, acc, done).unwrap().terms,
                rest: compound_run(terms, draws, acc, done).unwrap().rest + ext,
            },
        ),
    decreases terms.len(),
{
    if terms.len() > 0 {
        let p = term_run(terms[0], draws).unwrap();
        lemma_term_extend(terms[0], draws, ext);
        lemma_compound_extend(
            terms.skip(1),
            p.1,
            ext,
            sat_add(acc, p.0.realized),
            done.push(p.0),
        );
    }
}

/// Determinism of realization: against one underlying draw stream there
/// is only one prefix a term sequence can consume exactly, and so only
/// one outcome. Realizing the same parsed expression twice against the
/// same deterministic stream therefore always yields the same sum and
/// the same realized terms.
pub proof fn lemma_realization_deterministic(
    terms: Seq<Term>,
    stream: Seq<int>,
    c1: Seq<int>,
    c2: Seq<int>,
)
    requires
        c1.is_prefix_of(stream),
        c2.is_prefix_of(stream),
        compound_run(terms, c1, 0, Seq::empty()) matches Some(r1) && r1.rest.len() == 0,
        compound_run(terms, c2, 0, Seq::empty()) matches Some(r2) && r2.rest.len() == 0,
    ensures
        c1 == c2,
        compound_run(terms, c1, 0, Seq::empty()) == compound_run(terms, c2, 0, Seq::empty()),
{
    let e1 = stream.skip(c1.len() as int);
    let e2 = stream.skip(c2.len() as int);
    assert(c1 + e1 =~= stream);
    assert(c2 + e2 =~= stream);
    lemma_compound_extend(terms, c1, e1, 0, Seq::empty());
    lemma_compound_extend(terms, c2, e2, 0, Seq::empty());
    let full1 = compound_run(terms, stream, 0, Seq::empty());
    assert(full1.unwrap().rest =~= e1);
    assert(full1.unwrap().rest =~= e2);
    assert(c1.len() == c2.len());
    assert(c1 =~= c2);
}

// ---------------------------------------------------------------------------
// The engine
// ---------------------------------------------------------------------------

/// Draws one candidate value by the advantage/disadvantage rule: two
/// draws keeping the larger under advantage, two keeping the smaller
/// under disadvantage, and — the law this contract pins — exactly one
/// draw per resolution step when neither is set.
pub fn draw_candidate<R: Roller>(roller: &mut R, faces: i32, adv: bool, dis: bool) -> (r: i32)
    requires
        faces >= 1,
    ensures
        1 <= r <= faces,
        old(roller).history().is_prefix_of(final(roller).history()),
        !adv && !dis ==> final(roller).history() == old(roller).history().push(r as int),
        adv || dis ==> final(roller).history().len() == old(roller).history().len() + 2,
        ({
            let nd = final(roller).history().skip(old(roller).history().len() as int);
            nd.len() == draws_needed(adv, dis) && r as int == cand_of(adv, dis, nd) && forall|
                j: int,
            |
                0 <= j < nd.len() ==> 1 <= #[trigger] nd[j] <= faces
        }),
{
    let c1 = roller.roll(faces);
    if adv {
        let c2 = roller.roll(faces);
        let r: i32 = if c1 >= c2 {
            c1
        } else {
            c2
        };
        proof {
            let nd = final(roller).history().skip(old(roller).history().len() as int);
            assert(nd =~= seq![c1 as int, c2 as int]);
        }
        r
    } else if dis {
        let c2 = roller.roll(faces);
        let r: i32 = if c1 <= c2 {
            c1
        } else {
            c2
        };
        proof {
            let nd = final(roller).history().skip(old(roller).history().len() as int);
            assert(nd =~= seq![c1 as int, c2 as int]);
        }
        r
    } else {
        proof {
            let nd = final(roller).history().skip(old(roller).history().len() as int);
            assert(nd =~= seq![c1 as int]);
        }
        c1
    }
}

/// Resolves one die of `faces` faces: candidates at or above the explode
/// threshold accumulate and roll again, candidates at or below the
/// reroll threshold are discarded and drawn again, and the first other
/// candidate — or the candidate drawn at the step cap — ends the die.
/// The result is exactly what `resolve_run` prescribes for the draws
/// this call consumed, which it consumes entirely.
fn resolve_die<R: Roller>(
    roller: &mut R,
    faces: i32,
    adv: bool,
    dis: bool,
    reroll: Option<i32>,
    explode: Option<i32>,
) -> (r: i64)
    requires
        faces >= 1,
    ensures
        old(roller).history().is_prefix_of(final(roller).history()),
        ({
            let consumed = final(roller).history().skip(old(roller).history().len() as int);
            resolve_run(adv, dis, reroll, explode, consumed, 0, MAX_DIE_STEPS as int) == Some(
                (r as int, Seq::<int>::empty()),
            ) && forall|j: int| 0 <= j < consumed.len() ==> 1 <= #[trigger] consumed[j] <= faces
        }),
        r >= 0,
{
    let mut acc: i64 = 0;
    let mut fuel: u32 = MAX_DIE_STEPS;
    let ghost mut consumed: Seq<int> = Seq::empty();
    proof {
        assert forall|rest: Seq<int>| #[trigger]
            resolve_run(adv, dis, reroll, explode, consumed + rest, 0, MAX_DIE_STEPS as int)
                == resolve_run(adv, dis, reroll, explode, rest, acc as int, fuel as int) by {
            assert(consumed + rest =~= rest);
        }
    }
    loop
        invariant
            faces >= 1,
            acc >= 0,
            1 <= fuel <= MAX_DIE_STEPS,
            roller.history() == old(roller).history() + consumed,
            forall|j: int| 0 <= j < consumed.len() ==> 1 <= #[trigger] consumed[j] <= faces,
            forall|rest: Seq<int>| #[trigger]
                resolve_run(adv, dis, reroll, explode, consumed + rest, 0, MAX_DIE_STEPS as int)
                    == resolve_run(adv, dis, reroll, explode, rest, acc as int, fuel as int),
        decreases fuel,
    {
        let ghost pre = roller.history();
        let cand = draw_candidate(roller, faces, adv, dis);
        let ghost nd = roller.history().skip(pre.len() as int);
        proof {
            assert(pre =~= roller.history().subrange(0, pre.len() as int));
            assert(roller.history() =~= roller.history().subrange(0, pre.len() as int)
                + roller.history().skip(pre.len() as int));
            assert(roller.history() =~= old(roller).history() + (consumed + nd));
        }
        let explode_hit: bool = match explode {
            Some(t) => cand >= t,
            None => false,
        };
        let reroll_hit: bool = match reroll {
            Some(t) => cand <= t,
            None => false,
        };
        if fuel > 1 && explode_hit {
            let next = sat_add64(acc, cand as i64);
            proof {
                lemma_step(
                    adv,
                    dis,
                    reroll,
                    explode,
                    consumed,
                    nd,
                    acc as int,
                    next as int,
                    fuel as int,
                );
                consumed = consumed + nd;
            }
            acc = next;
            fuel = fuel - 1;
        } else if fuel > 1 && reroll_hit {
            proof {
                lemma_step(
                    adv,
                    dis,
                    reroll,
                    explode,
                    consumed,
                    nd,
                    acc as int,
                    acc as int,
                    fuel as int,
                );
                consumed = consumed + nd;
            }
            fuel = fuel - 1;
        } else {
            // Either a plain keeper, or the step cap cut resolution off.
            let r = sat_add64(acc, cand as i64);
            proof {
                assert(resolve_run(
                    adv,
                    dis,
                    reroll,
                    explode,
                    consumed + nd,
                    0,
                    MAX_DIE_STEPS as int,
                ) == resolve_run(adv, dis, reroll, explode, nd, acc as int, fuel as int));
                assert(nd.skip(draws_needed(adv, dis)) =~= Seq::<int>::empty());
                assert(roller.history().skip(old(roller).history().len() as int) =~= consumed
                    + nd);
            }
            return r;
        }
    }
}

/// One unfolding of `resolve_run` under a freshly consumed candidate:
/// carries the loop's fold property one step forward, for either the
/// explode or the reroll branch.
proof fn lemma_step(
    adv: bool,
    dis: bool,
    reroll: Option<i32>,
    explode: Option<i32>,
    consumed: Seq<int>,
    nd: Seq<int>,
    acc: int,
    acc2: int,
    fuel: int,
)
    requires
        nd.len() == draws_needed(adv, dis),
        fuel > 1,
        forall|rest: Seq<int>| #[trigger]
            resolve_run(adv, dis, reroll, explode, consumed + rest, 0, MAX_DIE_STEPS as int)
                == resolve_run(adv, dis, reroll, explode, rest, acc, fuel),
        ({
            let cand = cand_of(adv, dis, nd);
            if explode matches Some(t) && cand >= t as int {
                acc2 == sat_add(acc, cand)
            } else if reroll matches Some(t) && cand <= t as int {
                acc2 == acc
            } else {
                false
            }
        }),
    ensures
        forall|rest: Seq<int>| #[trigger]
            resolve_run(adv, dis, reroll, explode, (consumed + nd) + rest, 0, MAX_DIE_STEPS as int)
                == resolve_run(adv, dis, reroll, explode, rest, acc2, fuel - 1),
{
    assert forall|rest: Seq<int>| #[trigger]
        resolve_run(adv, dis, reroll, explode, (consumed + nd) + rest, 0, MAX_DIE_STEPS as int)
            == resolve_run(adv, dis, reroll, explode, rest, acc2, fuel - 1) by {
        assert((consumed + nd) + rest =~= consumed + (nd + rest));
        assert(resolve_run(adv, dis, reroll, explode, consumed + (nd + rest), 0, MAX_DIE_STEPS as int)
            == resolve_run(adv, dis, reroll, explode, nd + rest, acc, fuel));
        let all = nd + rest;
        assert(all[0] == nd[0]);
        if draws_needed(adv, dis) == 2 {
            assert(all[1] == nd[1]);
        }
        assert(cand_of(adv, dis, all) == cand_of(adv, dis, nd));
        assert(all.skip(draws_needed(adv, dis)) =~= rest);
    }
}

/// Realizes one term: a fixed term is its constant with equal bounds and
/// no draw; a dice term rolls `count` dice through the resolution loop
/// and sums them, negating the total and the bounds under inversion. The
/// result is exactly what `term_run` prescribes for the draws this call
/// consumed, which it consumes entirely.
pub fn realize_term<R: Roller>(t: &Term, roller: &mut R) -> (r: RealizedTerm)
    requires
        term_realizable(*t),
    ensures
        old(roller).history().is_prefix_of(final(roller).history()),
        ({
            let consumed = final(roller).history().skip(old(roller).history().len() as int);
            term_run(*t, consumed) == Some((model_of(r), Seq::<int>::empty())) && forall|j: int|
                0 <= j < consumed.len() ==> 1 <= #[trigger] consumed[j]
                    <= t.value.spec_magnitude()
        }),
{
    match t.value {
        Value::Fixed(n) => {
            proof {
                assert(roller.history().skip(old(roller).history().len() as int) =~= Seq::<
                    int,
                >::empty());
                assert(old(roller).history() =~= roller.history().subrange(
                    0,
                    old(roller).history().len() as int,
                ));
            }
            RealizedTerm { realized: n as i64, min: n as i64, max: n as i64 }
        },
        Value::Bounded(f) => {
            let mut total: i64 = 0;
            let mut k: u32 = 0;
            let ghost mut consumed: Seq<int> = Seq::empty();
            proof {
                assert forall|rest: Seq<int>| #[trigger]
                    dice_run(
                        t.count as int,
                        t.advantage,
                        t.disadvantage,
                        t.reroll,
                        t.explode,
                        consumed + rest,
                        0,
                    ) == dice_run(
                        t.count - k,
                        t.advantage,
                        t.disadvantage,
                        t.reroll,
                        t.explode,
                        rest,
                        total as int,
                    ) by {
                    assert(consumed + rest =~= rest);
                }
            }
            while k < t.count
                invariant
                    term_realizable(*t),
                    t.value == Value::Bounded(f),
                    k <= t.count,
                    total >= 0,
                    roller.history() == old(roller).history() + consumed,
                    forall|j: int| 0 <= j < consumed.len() ==> 1 <= #[trigger] consumed[j] <= f,
                    forall|rest: Seq<int>| #[trigger]
                        dice_run(
                            t.count as int,
                            t.advantage,
                            t.disadvantage,
                            t.reroll,
                            t.explode,
                            consumed + rest,
                            0,
                        ) == dice_run(
                            t.count - k,
                            t.advantage,
                            t.disadvantage,
                            t.reroll,
                            t.explode,
                            rest,
                            total as int,
                        ),
                decreases t.count - k,
            {
                let ghost pre = roller.history();
                let v = resolve_die(roller, f, t.advantage, t.disadvantage, t.reroll, t.explode);
                let ghost nd = roller.history().skip(pre.len() as int);
                let next = sat_add64(total, v);
                proof {
                    assert(pre =~= roller.history().subrange(0, pre.len() as int));
                    assert(roller.history() =~= roller.history().subrange(0, pre.len() as int)
                        + roller.history().skip(pre.len() as int));
                    assert(roller.history() =~= old(roller).history() + (consumed + nd));
                    assert forall|rest: Seq<int>| #[trigger]
                        dice_run(
                            t.count as int,
                            t.advantage,
                            t.disadvantage,
                            t.reroll,
                            t.explode,
                            (consumed + nd) + rest,
                            0,
                        ) == dice_run(
                            t.count - (k + 1),
                            t.advantage,
                            t.disadvantage,
                            t.reroll,
                            t.explode,
                            rest,
                            next as int,
                        ) by {
                        assert((consumed + nd) + rest =~= consumed + (nd + rest));
                        assert(dice_run(
                            t.count as int,
                            t.advantage,
                            t.disadvantage,
                            t.reroll,
                            t.explode,
                            consumed + (nd + rest),
                            0,
                        ) == dice_run(
                            t.count - k,
                            t.advantage,
                            t.disadvantage,
                            t.reroll,
                            t.explode,
                            nd + rest,
                            total as int,
                        ));
                        lemma_resolve_extend(
                            t.advantage,
                            t.disadvantage,
                            t.reroll,
                            t.explode,
                            nd,
                            rest,
                            0,
                            MAX_DIE_STEPS as int,
                        );
                        assert(Seq::<int>::empty() + rest =~= rest);
                    }
                    consumed = consumed + nd;
                }
                total = next;
                k = k + 1;
            }
            proof {
                assert(consumed + Seq::<int>::empty() =~= consumed);
                assert(dice_run(
                    t.count as int,
                    t.advantage,
                    t.disadvantage,
                    t.reroll,
                    t.explode,
                    consumed,
                    0,
                ) == Some((total as int, Seq::<int>::empty())));
                assert(roller.history().skip(old(roller).history().len() as int) =~= consumed);
                assert(old(roller).history() =~= roller.history().subrange(
                    0,
                    old(roller).history().len() as int,
                ));
                assert(0 <= (t.count as int) * (f as int)
                    && (t.count as int) * (f as int) < 9223372036854775807) by (nonlinear_arith)
                    requires
                        0 <= t.count as int <= 4294967295,
                        t.count as int == 0 || 1 <= f as int <= 2147483647,
                ;
            }
            let cf: i64 = (t.count as i64) * (f as i64);
            if t.invert {
                RealizedTerm { realized: -total, min: -cf, max: -(t.count as i64) }
            } else {
                RealizedTerm { realized: total, min: t.count as i64, max: cf }
            }
        },
    }
}

/// Realizes a whole parsed expression: each term in order, summing the
/// realized values left to right. The result is exactly what
/// `compound_run` prescribes for the draws this call consumed, which it
/// consumes entirely — so against a deterministic source the sum is
/// always the same (see `lemma_realization_deterministic`).
pub fn realize<R: Roller>(terms: &CompoundExpression, roller: &mut R) -> (r: RealizedCompoundExpression)
    requires
        realizable(terms@),
    ensures
        old(roller).history().is_prefix_of(final(roller).history()),
        ({
            let consumed = final(roller).history().skip(old(roller).history().len() as int);
            compound_run(terms@, consumed, 0, Seq::empty()) == Some(
                RunResult {
                    sum: r.sum as int,
                    terms: r.terms@.map_values(|rt: RealizedTerm| model_of(rt)),
                    rest: Seq::<int>::empty(),
                },
            ) && forall|j: int| 0 <= j < consumed.len() ==> 1 <= #[trigger] consumed[j]
        }),
        r.terms@.len() == terms@.len(),
{
    let mut sum: i64 = 0;
    let mut rts: Vec<RealizedTerm> = Vec::new();
    let mut k: usize = 0;
    let ghost mut consumed: Seq<int> = Seq::empty();
    proof {
        assert forall|rest: Seq<int>| #[trigger]
            compound_run(terms@, consumed + rest, 0, Seq::empty()) == compound_run(
                terms@.skip(k as int),
                rest,
                sum as int,
                rts@.map_values(|rt: RealizedTerm| model_of(rt)),
            ) by {
            assert(consumed + rest =~= rest);
            assert(terms@.skip(0) =~= terms@);
            assert(rts@.map_values(|rt: RealizedTerm| model_of(rt)) =~= Seq::<
                RealizedModel,
            >::empty());
        }
    }
    while k < terms.len()
        invariant
            realizable(terms@),
            k <= terms@.len(),
            rts@.len() == k,
            roller.history() == old(roller).history() + consumed,
            forall|j: int| 0 <= j < consumed.len() ==> 1 <= #[trigger] consumed[j],
            forall|rest: Seq<int>| #[trigger]
                compound_run(terms@, consumed + rest, 0, Seq::empty()) == compound_run(
                    terms@.skip(k as int),
                    rest,
                    sum as int,
                    rts@.map_values(|rt: RealizedTerm| model_of(rt)),
                ),
        decreases terms@.len() - k,
    {
        let t: Term = terms[k];
        proof {
            assert(term_realizable(terms@[k as int]));
        }
        let ghost pre = roller.history();
        let ghost done = rts@.map_values(|rt: RealizedTerm| model_of(rt));
        let rt = realize_term(&t, roller);
        let ghost nd = roller.history().skip(pre.len() as int);
        let next = sat_add64(sum, rt.realized);
        proof {
            assert(pre =~= roller.history().subrange(0, pre.len() as int));
            assert(roller.history() =~= roller.history().subrange(0, pre.len() as int)
                + roller.history().skip(pre.len() as int));
            assert(roller.history() =~= old(roller).history() + (consumed + nd));
            assert forall|rest: Seq<int>| #[trigger]
                compound_run(terms@, (consumed + nd) + rest, 0, Seq::empty()) == compound_run(
                    terms@.skip(k + 1),
                    rest,
                    next as int,
                    done.push(model_of(rt)),
                ) by {
                assert((consumed + nd) + rest =~= consumed + (nd + rest));
                assert(compound_run(terms@, consumed + (nd + rest), 0, Seq::empty())
                    == compound_run(terms@.skip(k as int), nd + rest, sum as int, done));
                assert(terms@.skip(k as int)[0] == terms@[k as int]);
                lemma_term_extend(terms@[k as int], nd, rest);
                assert(Seq::<int>::empty() + rest =~= rest);
                assert(terms@.skip(k as int).skip(1) =~= terms@.skip(k + 1));
            }
            consumed = consumed + nd;
        }
        sum = next;
        rts.push(rt);
        proof {
            assert(rts@.map_values(|x: RealizedTerm| model_of(x)) =~= done.push(model_of(rt)));
        }
        k = k + 1;
    }
    proof {
        assert(consumed + Seq::<int>::empty() =~= consumed);
        assert(terms@.skip(terms@.len() as int) =~= Seq::<Term>::empty());
        assert(roller.history().skip(old(roller).history().len() as int) =~= consumed);
        assert(old(roller).history() =~= roller.history().subrange(
            0,
            old(roller).history().len() as int,
        ));
    }
    RealizedCompoundExpression { sum, terms: rts }
}

/// Whether every term of the sequence can be realized: a dice term that
/// actually rolls needs at least one face.
pub fn check_realizable(terms: &CompoundExpression) -> (r: bool)
    ensures
        r == realizable(terms@),
{
    let mut k: usize = 0;
    while k < terms.len()
        invariant
            k <= terms@.len(),
            forall|j: int| 0 <= j < k ==> term_realizable(#[trigger] terms@[j]),
        decreases terms@.len() - k,
    {
        let t: Term = terms[k];
        if t.count > 0 {
            match t.value {
                Value::Fixed(_) => {},
                Value::Bounded(f) => {
                    if f < 1 {
                        proof {
                            assert(!term_realizable(terms@[k as int]));
                        }
                        return false;
                    }
                },
            }
        }
        k = k + 1;
    }
    true
}

/// Realizes a parsed expression after checking that it can be realized at
/// all. Yields `None`, drawing nothing, exactly when some dice term has
/// no face to draw from; otherwise realizes as `realize` does.
pub fn try_realize<R: Roller>(terms: &CompoundExpression, roller: &mut R) -> (r: Option<
    RealizedCompoundExpression,
>)
    ensures
        r is Some <==> realizable(terms@),
        r is None ==> final(roller).history() == old(roller).history(),
        ({
            let consumed = final(roller).history().skip(old(roller).history().len() as int);
            r matches Some(rc) ==> old(roller).history().is_prefix_of(final(roller).history())
                && compound_run(terms@, consumed, 0, Seq::empty()) == Some(
                RunResult {
                    sum: rc.sum as int,
                    terms: rc.terms@.map_values(|rt: RealizedTerm| model_of(rt)),
                    rest: Seq::<int>::empty(),
                },
            ) && (forall|j: int| 0 <= j < consumed.len() ==> 1 <= #[trigger] consumed[j])
        }),
{
    if check_realizable(terms) {
        Some(realize(terms, roller))
    } else {
        None
    }
}

} // verus!

//! The tokenizing state machine: converts a notation string into an
//! ordered sequence of terms in one linear pass, with no backtracking and
//! no lookahead beyond the current character. Term boundaries are inferred
//! purely from control characters encountered mid-scan.

use vstd::prelude::*;
use vstd::string::*;

use crate::error::Error;
use crate::term::{empty_term, CompoundExpression, Term, Value};

verus! {

// ---------------------------------------------------------------------------
// Decimal spans
// ---------------------------------------------------------------------------

/// Whether `c` is an ASCII decimal digit.
pub open spec fn is_digit_char(c: char) -> bool {
    '0' <= c && c <= '9'
}

/// The numeric value of a digit character.
pub open spec fn digit_val(c: char) -> int {
    c as int - '0' as int
}

/// Whether every character of `s` is an ASCII decimal digit.
pub open spec fn all_digits(s: Seq<char>) -> bool {
    forall|j: int| 0 <= j < s.len() ==> is_digit_char(#[trigger] s[j])
}

/// The value of a digit string read in base ten.
pub open spec fn dec_val(s: Seq<char>) -> int
    decreases s.len(),
{
    if s.len() == 0 {
        0
    } else {
        dec_val(s.drop_last()) * 10 + digit_val(s.last())
    }
}

/// Whether `s` parses as an unsigned decimal integer at all: non-empty and
/// made of digits only.
pub open spec fn is_dec(s: Seq<char>) -> bool {
    s.len() > 0 && all_digits(s)
}

proof fn lemma_dec_val_nonneg(s: Seq<char>)
    requires
        all_digits(s),
    ensures
        dec_val(s) >= 0,
    decreases s.len(),
{
    if s.len() > 0 {
        assert(all_digits(s.drop_last()));
        lemma_dec_val_nonneg(s.drop_last());
    }
}

/// A digit-string's value never shrinks as more digits are appended.
proof fn lemma_dec_val_prefix(s: Seq<char>, k: int)
    requires
        all_digits(s),
        0 <= k <= s.len(),
    ensures
        dec_val(s.take(k)) <= dec_val(s),
    decreases s.len() - k,
{
    if k < s.len() {
        let shorter = s.drop_last();
        assert(all_digits(shorter));
        assert(shorter.take(k) =~= s.take(k));
        lemma_dec_val_prefix(shorter, k);
        lemma_dec_val_nonneg(shorter);
        assert(dec_val(s) == dec_val(shorter) * 10 + digit_val(s.last()));
        assert(digit_val(s.last()) >= 0);
        assert(dec_val(shorter) * 10 >= dec_val(shorter)) by (nonlinear_arith)
            requires dec_val(shorter) >= 0;
    } else {
        assert(s.take(k) =~= s);
    }
}

/// Reads the span `s[from..to]` as an unsigned decimal integer.
/// Returns `None` exactly when the span is empty, holds a non-digit, or
/// overflows `u32`.
pub(crate) fn parse_dec_span(s: &str, from: usize, to: usize) -> (r: Option<u32>)
    requires
        from <= to <= s@.len(),
    ensures
        ({
            let span = s@.subrange(from as int, to as int);
            match r {
                Some(v) => is_dec(span) && dec_val(span) <= u32::MAX && v == dec_val(span),
                None => !(is_dec(span) && dec_val(span) <= u32::MAX),
            }
        }),
{
    let ghost span = s@.subrange(from as int, to as int);
    if from == to {
        return None;
    }
    let mut acc: u64 = 0;
    let mut j: usize = from;
    while j < to
        invariant
            from <= j <= to <= s@.len(),
            span == s@.subrange(from as int, to as int),
            all_digits(span.take(j - from)),
            acc == dec_val(span.take(j - from)),
            acc <= u32::MAX,
        decreases to - j,
    {
        let c = s.get_char(j);
        proof {
            assert(span[j - from] == s@[j as int]);
        }
        if !('0' <= c && c <= '9') {
            proof {
                assert(!is_digit_char(span[j - from]));
            }
            return None;
        }
        let d: u64 = (c as u32 - '0' as u32) as u64;
        let next: u64 = acc * 10 + d;
        proof {
            let t1 = span.take(j - from + 1);
            assert(t1.drop_last() =~= span.take(j - from));
            assert(t1.last() == span[j - from]);
            assert(dec_val(t1) == acc * 10 + digit_val(span[j - from]));
        }
        if next > u32::MAX as u64 {
            proof {
                let k = j - from + 1;
                if is_dec(span) && dec_val(span) <= u32::MAX {
                    lemma_dec_val_prefix(span, k);
                }
            }
            return None;
        }
        acc = next;
        j = j + 1;
    }
    proof {
        assert(span.take(to - from) =~= span);
    }
    Some(acc as u32)
}

/// Whether `s` parses as a `u32`: non-empty, digits only, in range.
pub open spec fn parses_u32(s: Seq<char>) -> bool {
    is_dec(s) && dec_val(s) <= u32::MAX
}

/// Whether `s` parses as a non-negative `i32`: non-empty, digits only, in
/// range.
pub open spec fn parses_i32(s: Seq<char>) -> bool {
    is_dec(s) && dec_val(s) <= i32::MAX
}

// ---------------------------------------------------------------------------
// Count/value pairs
// ---------------------------------------------------------------------------

/// Whether `c` is the dice separator.
pub open spec fn is_sep(c: char) -> bool {
    c == 'd' || c == 'D'
}

/// The index of the first dice separator in `s`, or `s.len()` if there is
/// none.
pub open spec fn first_sep(s: Seq<char>) -> int
    decreases s.len(),
{
    if s.len() == 0 {
        0
    } else if is_sep(s[0]) {
        0
    } else {
        1 + first_sep(s.skip(1))
    }
}

proof fn lemma_first_sep(s: Seq<char>)
    ensures
        0 <= first_sep(s) <= s.len(),
        forall|j: int| 0 <= j < first_sep(s) ==> !is_sep(#[trigger] s[j]),
        first_sep(s) < s.len() ==> is_sep(s[first_sep(s)]),
    decreases s.len(),
{
    if s.len() > 0 && !is_sep(s[0]) {
        lemma_first_sep(s.skip(1));
        assert forall|j: int| 0 <= j < first_sep(s) implies !is_sep(#[trigger] s[j]) by {
            if j > 0 {
                assert(s[j] == s.skip(1)[j - 1]);
            }
        }
    }
}

/// The spec-level error model: each parse failure, with the offending
/// character spans.
pub ghost enum ParseErr {
    /// A term span with the wrong number of dice separators.
    Malformed { span: Seq<char> },
    /// A numeric token that failed integer parsing, with the full span it
    /// stood in.
    BadInt { token: Seq<char>, span: Seq<char> },
}

/// Whether the executable error value carries exactly the substrings the
/// model prescribes.
pub open spec fn err_matches(e: Error, m: ParseErr) -> bool {
    match (e, m) {
        (Error::BadExpression(t), ParseErr::Malformed { span }) => t@ == span,
        (Error::BadInteger(t, s), ParseErr::BadInt { token, span }) => t@ == token && s@ == span,
        _ => false,
    }
}

/// A parsed count/value pair: the number of dice and the die size (or the
/// plain value, when no dice separator was present).
#[derive(Clone, Copy, Debug, PartialEq, Eq)]
pub struct ExpressionPair {
    /// The number of dice; defaults to 1 when the span has no separator.
    pub count: u32,
    /// The die size, or the whole span's value.
    pub value: i32,
}

/// What parsing a span as a count/value pair yields: split on the dice
/// separator; zero separators give count 1 and the whole span as value,
/// exactly one gives count and value from the two halves, more is
/// malformed. A half that fails integer parsing is an invalid-integer
/// error naming that half and the full span; the count is read first.
pub open spec fn pair_spec(span: Seq<char>) -> Result<ExpressionPair, ParseErr> {
    let p = first_sep(span);
    if p == span.len() {
        if parses_i32(span) {
            Ok(ExpressionPair { count: 1u32, value: dec_val(span) as i32 })
        } else {
            Err(ParseErr::BadInt { token: span, span })
        }
    } else {
        let left = span.take(p);
        let right = span.skip(p + 1);
        if first_sep(right) != right.len() {
            Err(ParseErr::Malformed { span })
        } else if !parses_u32(left) {
            Err(ParseErr::BadInt { token: left, span })
        } else if !parses_i32(right) {
            Err(ParseErr::BadInt { token: right, span })
        } else {
            Ok(ExpressionPair {
                count: dec_val(left) as u32,
                value: dec_val(right) as i32,
            })
        }
    }
}

/// Finds the first dice separator in `s[from..to]`, as an offset from
/// `from`; returns `to - from` if there is none.
fn find_sep(s: &str, from: usize, to: usize) -> (r: usize)
    requires
        from <= to <= s@.len(),
    ensures
        r == first_sep(s@.subrange(from as int, to as int)),
        from + r <= to,
    decreases to - from,
{
    let ghost span = s@.subrange(from as int, to as int);
    proof {
        lemma_first_sep(span);
    }
    if from == to {
        return 0;
    }
    let c = s.get_char(from);
    if c == 'd' || c == 'D' {
        0
    } else {
        proof {
            assert(span.skip(1) =~= s@.subrange(from + 1, to as int));
        }
        let rest: usize = find_sep(s, from + 1, to);
        1 + rest
    }
}

/// Reads `s[from..to]` as a non-negative `i32`, or reports the span
/// `errspan` as the enclosing context of an invalid-integer error.
fn parse_i32_span(s: &str, from: usize, to: usize, err_from: usize, err_to: usize) -> (r: Result<
    i32,
    Error,
>)
    requires
        from <= to <= s@.len(),
        err_from <= err_to <= s@.len(),
    ensures
        ({
            let span = s@.subrange(from as int, to as int);
            let errspan = s@.subrange(err_from as int, err_to as int);
            match r {
                Ok(v) => parses_i32(span) && v == dec_val(span),
                Err(e) => !parses_i32(span) && err_matches(
                    e,
                    ParseErr::BadInt { token: span, span: errspan },
                ),
            }
        }),
{
    match parse_dec_span(s, from, to) {
        Some(v) if v <= i32::MAX as u32 => Ok(v as i32),
        _ => {
            let token = s.substring_char(from, to);
            let errspan = s.substring_char(err_from, err_to);
            Err(Error::bad_integer(token, errspan))
        },
    }
}

/// Parses the span `s[from..to]` as a count/value pair, e.g. `2d6`.
/// The result is exactly what `pair_spec` prescribes for the span.
pub fn parse_expression(s: &str, from: usize, to: usize) -> (r: Result<ExpressionPair, Error>)
    requires
        from <= to <= s@.len(),
    ensures
        ({
            let span = s@.subrange(from as int, to as int);
            match r {
                Ok(pair) => pair_spec(span) == Ok::<ExpressionPair, ParseErr>(pair),
                Err(e) => pair_spec(span) matches Err(m) && err_matches(e, m),
            }
        }),
{
    let ghost span = s@.subrange(from as int, to as int);
    let p: usize = find_sep(s, from, to);
    if from + p == to {
        // No separator: the whole span is the value, count defaults to 1.
        match parse_i32_span(s, from, to, from, to) {
            Ok(v) => Ok(ExpressionPair { count: 1, value: v }),
            Err(e) => Err(e),
        }
    } else {
        let ghost left = span.take(p as int);
        let ghost right = span.skip(p + 1);
        proof {
            assert(left =~= s@.subrange(from as int, (from + p) as int));
            assert(right =~= s@.subrange(from + p + 1, to as int));
        }
        let q: usize = find_sep(s, from + p + 1, to);
        if from + p + 1 + q != to {
            // More than one separator: the span is malformed.
            let text = s.substring_char(from, to);
            return Err(Error::bad_expression(text));
        }
        let count: u32 = match parse_dec_span(s, from, from + p) {
            Some(c) => c,
            None => {
                let token = s.substring_char(from, from + p);
                let errspan = s.substring_char(from, to);
                return Err(Error::bad_integer(token, errspan));
            },
        };
        match parse_i32_span(s, from + p + 1, to, from, to) {
            Ok(v) => Ok(ExpressionPair { count, value: v }),
            Err(e) => Err(e),
        }
    }
}

// ---------------------------------------------------------------------------
// Cursor state
// ---------------------------------------------------------------------------

/// The internal cursor of the tokenizer: which kind of token is being
/// scanned, and the string offset where its span began.
#[derive(Clone, Copy, Debug, PartialEq, Eq)]
pub enum State {
    /// Found the non-emitting boundary token bang (`!`) at `idx`.
    Bang { idx: usize },
    /// Scanning digits intended as a plain (non-dice) numeric value,
    /// entered after a sign boundary.
    Base { idx: usize },
    /// Scanning digits intended as a count/size pair: the initial state,
    /// and the state after a dice separator or an
    /// advantage/disadvantage boundary (`a20` means the same die as
    /// `a1d20`).
    Bounded { idx: usize },
    /// Found the non-emitting boundary token reroll (`r`) at `idx`.
    Reroll { idx: usize },
}

impl State {
    /// The offset where the current span began.
    pub open spec fn spec_idx(&self) -> usize {
        match *self {
            State::Bang { idx } => idx,
            State::Base { idx } => idx,
            State::Bounded { idx } => idx,
            State::Reroll { idx } => idx,
        }
    }

    /// The offset where the current span began.
    pub fn idx(&self) -> (r: usize)
        ensures
            r == self.spec_idx(),
    {
        match self {
            State::Bang { idx } => *idx,
            State::Base { idx } => *idx,
            State::Bounded { idx } => *idx,
            State::Reroll { idx } => *idx,
        }
    }

    /// The same span reinterpreted as a count/size pair: the transition a
    /// dice separator makes, leaving the offset unchanged.
    pub fn into_bounded(self) -> (r: Self)
        ensures
            r == (State::Bounded { idx: self.spec_idx() }),
    {
        State::Bounded { idx: self.idx() }
    }
}

impl Default for State {
    /// The state at the start of input: a count/size span at offset 0.
    fn default() -> (r: Self)
        ensures
            r == (State::Bounded { idx: 0usize }),
    {
        State::Bounded { idx: 0 }
    }
}

// ---------------------------------------------------------------------------
// Finalizing a span against the in-progress term
// ---------------------------------------------------------------------------

/// What finalizing the span `s[st.idx()..end]` against the in-progress
/// term `t` yields, dispatched on the cursor kind: a count/size span sets
/// count and bounded value, a base span sets count and fixed value (both
/// are no-ops when empty), a reroll span sets the reroll threshold
/// (defaulting to 1 when empty), and a bang span sets the explode
/// threshold (defaulting to the term's current value magnitude).
pub open spec fn apply_spec(s: Seq<char>, st: State, end: int, t: Term) -> Result<Term, ParseErr>
    recommends
        st.spec_idx() <= end <= s.len(),
{
    let span = s.subrange(st.spec_idx() as int, end);
    match st {
        State::Bounded { .. } => if span.len() == 0 {
            Ok(t)
        } else {
            match pair_spec(span) {
                Ok(pair) => Ok(Term { count: pair.count, value: Value::Bounded(pair.value), ..t }),
                Err(m) => Err(m),
            }
        },
        State::Base { .. } => if span.len() == 0 {
            Ok(t)
        } else {
            match pair_spec(span) {
                Ok(pair) => Ok(Term { count: pair.count, value: Value::Fixed(pair.value), ..t }),
                Err(m) => Err(m),
            }
        },
        State::Reroll { .. } => if span.len() == 0 {
            Ok(Term { reroll: Some(1i32), ..t })
        } else if parses_i32(span) {
            Ok(Term { reroll: Some(dec_val(span) as i32), ..t })
        } else {
            Err(ParseErr::BadInt { token: span, span })
        },
        State::Bang { .. } => if span.len() == 0 {
            Ok(Term { explode: Some(t.value.spec_magnitude()), ..t })
        } else if parses_i32(span) {
            Ok(Term { explode: Some(dec_val(span) as i32), ..t })
        } else {
            Err(ParseErr::BadInt { token: span, span })
        },
    }
}

impl Term {
    /// Finalizes the span `s[state.idx()..end]` into this term, as
    /// `apply_spec` prescribes. On failure the term is left unspecified;
    /// the tokenizer aborts the whole parse in that case.
    pub fn apply_state(&mut self, s: &str, state: &State, end: usize) -> (r: Result<(), Error>)
        requires
            state.spec_idx() <= end <= s@.len(),
        ensures
            match r {
                Ok(()) => apply_spec(s@, *state, end as int, *old(self)) == Ok::<Term, ParseErr>(
                    *final(self),
                ),
                Err(e) => apply_spec(s@, *state, end as int, *old(self)) matches Err(m)
                    && err_matches(e, m),
            },
    {
        let from = state.idx();
        match state {
            State::Bounded { .. } => {
                if from == end {
                    Ok(())
                } else {
                    match parse_expression(s, from, end) {
                        Ok(pair) => {
                            self.count = pair.count;
                            self.value = Value::Bounded(pair.value);
                            Ok(())
                        },
                        Err(e) => Err(e),
                    }
                }
            },
            State::Base { .. } => {
                if from == end {
                    Ok(())
                } else {
                    match parse_expression(s, from, end) {
                        Ok(pair) => {
                            self.count = pair.count;
                            self.value = Value::Fixed(pair.value);
                            Ok(())
                        },
                        Err(e) => Err(e),
                    }
                }
            },
            State::Reroll { .. } => {
                if from == end {
                    self.reroll = Some(1);
                    Ok(())
                } else {
                    match parse_i32_span(s, from, end, from, end) {
                        Ok(v) => {
                            self.reroll = Some(v);
                            Ok(())
                        },
                        Err(e) => Err(e),
                    }
                }
            },
            State::Bang { .. } => {
                if from == end {
                    let m = self.value.magnitude();
                    self.explode = Some(m);
                    Ok(())
                } else {
                    match parse_i32_span(s, from, end, from, end) {
                        Ok(v) => {
                            self.explode = Some(v);
                            Ok(())
                        },
                        Err(e) => Err(e),
                    }
                }
            },
        }
    }
}

// ---------------------------------------------------------------------------
// The scan itself
// ---------------------------------------------------------------------------

/// Whether `c` marks an advantage boundary.
pub open spec fn is_adv_char(c: char) -> bool {
    c == 'a' || c == 'A'
}

/// Whether `c` marks a disadvantage boundary.
pub open spec fn is_dis_char(c: char) -> bool {
    c == 's' || c == 'S'
}

/// Whether `c` marks a reroll boundary.
pub open spec fn is_reroll_char(c: char) -> bool {
    c == 'r' || c == 'R'
}

/// One linear scan of `s` from position `i`, with cursor `st`, in-progress
/// term `cur` and the terms emitted so far. Advantage, disadvantage and
/// sign characters finalize the current span, emit the term unless it is
/// still empty, and start a fresh one — a count/size span after
/// advantage or disadvantage, a plain-value span after a sign; a dice
/// separator reinterprets the span without moving its start; reroll and
/// bang finalize without emitting. At end of input the in-progress term
/// is finalized and appended unconditionally, even when empty.
pub open spec fn scan(s: Seq<char>, i: int, st: State, cur: Term, out: Seq<Term>) -> Result<
    Seq<Term>,
    ParseErr,
>
    recommends
        0 <= i <= s.len(),
        st.spec_idx() <= i,
    decreases s.len() - i,
{
    if i >= s.len() {
        match apply_spec(s, st, s.len() as int, cur) {
            Ok(t) => Ok(out.push(t)),
            Err(m) => Err(m),
        }
    } else {
        let c = s[i];
        if is_adv_char(c) || is_dis_char(c) {
            match apply_spec(s, st, i, cur) {
                Ok(t) => scan(
                    s,
                    i + 1,
                    State::Bounded { idx: (i + 1) as usize },
                    Term {
                        advantage: is_adv_char(c),
                        disadvantage: is_dis_char(c),
                        ..empty_term()
                    },
                    if t.spec_is_empty() {
                        out
                    } else {
                        out.push(t)
                    },
                ),
                Err(m) => Err(m),
            }
        } else if c == '+' || c == '-' {
            match apply_spec(s, st, i, cur) {
                Ok(t) => scan(
                    s,
                    i + 1,
                    State::Base { idx: (i + 1) as usize },
                    Term { invert: c == '-', ..empty_term() },
                    if t.spec_is_empty() {
                        out
                    } else {
                        out.push(t)
                    },
                ),
                Err(m) => Err(m),
            }
        } else if is_sep(c) {
            scan(s, i + 1, State::Bounded { idx: st.spec_idx() }, cur, out)
        } else if is_reroll_char(c) {
            match apply_spec(s, st, i, cur) {
                Ok(t) => scan(s, i + 1, State::Reroll { idx: (i + 1) as usize }, t, out),
                Err(m) => Err(m),
            }
        } else if c == '!' {
            match apply_spec(s, st, i, cur) {
                Ok(t) => scan(s, i + 1, State::Bang { idx: (i + 1) as usize }, t, out),
                Err(m) => Err(m),
            }
        } else {
            scan(s, i + 1, st, cur, out)
        }
    }
}

/// What parsing a whole notation string yields: the scan started at the
/// beginning of the input, in the count/size state, with an empty term
/// and nothing emitted.
pub open spec fn parse_spec(s: Seq<char>) -> Result<Seq<Term>, ParseErr> {
    scan(s, 0, State::Bounded { idx: 0usize }, empty_term(), Seq::empty())
}

/// Parses a notation string into its ordered sequence of terms, in one
/// pass over the characters. The result is exactly what `parse_spec`
/// prescribes: the emitted terms on success, and on failure the error
/// carrying the substrings the scan model names.
pub fn parse(s: &str) -> (r: Result<CompoundExpression, Error>)
    ensures
        match r {
            Ok(terms) => parse_spec(s@) == Ok::<Seq<Term>, ParseErr>(terms@),
            Err(e) => parse_spec(s@) matches Err(m) && err_matches(e, m),
        },
{
    let n = s.unicode_len();
    let mut state = State::Bounded { idx: 0 };
    let mut out: Vec<Term> = Vec::new();
    let mut term = Term::default();
    let mut j: usize = 0;
    while j < n
        invariant
            n == s@.len(),
            j <= n,
            state.spec_idx() <= j,
            scan(s@, j as int, state, term, out@) == parse_spec(s@),
        decreases n - j,
    {
        let ghost pre_state = state;
        let ghost pre_term = term;
        let ghost pre_out = out@;
        let c = s.get_char(j);
        if c == 'a' || c == 'A' || c == 's' || c == 'S' {
            // Emitting boundary: finalize, emit unless empty, start fresh.
            match term.apply_state(s, &state, j) {
                Ok(()) => {},
                Err(e) => {
                    return Err(e);
                },
            }
            if !term.is_empty() {
                out.push(term);
            }
            term = Term::default();
            term.advantage = c == 'a' || c == 'A';
            term.disadvantage = c == 's' || c == 'S';
            state = State::Bounded { idx: j + 1 };
        } else if c == '+' || c == '-' {
            match term.apply_state(s, &state, j) {
                Ok(()) => {},
                Err(e) => {
                    return Err(e);
                },
            }
            if !term.is_empty() {
                out.push(term);
            }
            term = Term::default();
            term.invert = c == '-';
            state = State::Base { idx: j + 1 };
        } else if c == 'd' || c == 'D' {
            state = state.into_bounded();
        } else if c == 'r' || c == 'R' {
            // Non-emitting boundary: finalize only.
            match term.apply_state(s, &state, j) {
                Ok(()) => {},
                Err(e) => {
                    return Err(e);
                },
            }
            state = State::Reroll { idx: j + 1 };
        } else if c == '!' {
            match term.apply_state(s, &state, j) {
                Ok(()) => {},
                Err(e) => {
                    return Err(e);
                },
            }
            state = State::Bang { idx: j + 1 };
        }
        proof {
            assert(scan(s@, j as int, pre_state, pre_term, pre_out) == scan(
                s@,
                j + 1int,
                state,
                term,
                out@,
            ));
        }
        j = j + 1;
    }
    // End of input: finalize the last span and append unconditionally.
    match term.apply_state(s, &state, n) {
        Ok(()) => {},
        Err(e) => {
            return Err(e);
        },
    }
    out.push(term);
    Ok(out)
}

} // verus!

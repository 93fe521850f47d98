//! A pattern-based parser for a single dice expression such as `2d6r2!5`:
//! four fixed regular expressions pick out the leading
//! advantage/disadvantage marker with the count/size pair, a signed
//! modifier, and the reroll and explode thresholds. The matching itself
//! is done by the regex crate behind trusted wrappers; everything around
//! the calls is verified against exact models of the four patterns,
//! stated for ASCII input (the patterns' digit class also admits other
//! Unicode digits, about which these contracts stay silent).

use vstd::prelude::*;
use vstd::string::*;

use regex::Regex;

use crate::error::Error;
use crate::parser::{
    dec_val, err_matches, is_adv_char, is_dec, is_digit_char, is_dis_char, parse_dec_span,
    parses_i32, ParseErr,
};

verus! {

#[verifier::external_type_specification]
#[verifier::external_body]
pub struct ExRegex(Regex);

/// Whether the term is drawn with advantage (keep the larger of two
/// draws) or disadvantage (keep the smaller).
#[derive(Copy, Clone, Debug, PartialEq, Eq)]
pub enum Advantage {
    /// Keep the larger of two draws.
    Advantage,
    /// Keep the smaller of two draws.
    Disadvantage,
}

/// A reroll threshold: results at or below it are discarded and drawn
/// again.
#[derive(Copy, Clone, Debug, PartialEq, Eq)]
pub struct Reroll(pub i32);

/// An explode threshold: results at or above it are kept and draw again,
/// accumulating.
#[derive(Copy, Clone, Debug, PartialEq, Eq)]
pub struct Explode(pub i32);

/// A single parsed dice expression: count and die size, a signed flat
/// modifier, and the optional advantage/reroll/explode markers.
#[derive(Clone, Debug, PartialEq, Eq)]
pub struct Expression {
    /// The number of dice; 1 when the notation gave none.
    pub count: i32,
    /// The die size (number of faces).
    pub max: i32,
    /// A flat signed modifier; 0 when the notation gave none.
    pub modifier: i32,
    /// Advantage or disadvantage, when marked.
    pub advantage: Option<Advantage>,
    /// The reroll threshold, when marked.
    pub reroll: Option<Reroll>,
    /// The explode threshold, when marked.
    pub explode: Option<Explode>,
}

/// The expression all fields of which are still unset.
pub open spec fn default_expression() -> Expression {
    Expression { count: 0, max: 0, modifier: 0, advantage: None, reroll: None, explode: None }
}

impl Default for Expression {
    /// The expression all fields of which are still unset.
    fn default() -> (r: Self)
        ensures
            r == default_expression(),
    {
        Expression { count: 0, max: 0, modifier: 0, advantage: None, reroll: None, explode: None }
    }
}

// ---------------------------------------------------------------------------
// Models of the four fixed patterns
// ---------------------------------------------------------------------------

/// The length of the maximal run of ASCII digits starting at `i`.
pub open spec fn digit_run(s: Seq<char>, i: int) -> int
    decreases s.len() - i,
{
    if i < 0 || i >= s.len() || !is_digit_char(s[i]) {
        0
    } else {
        1 + digit_run(s, i + 1)
    }
}

/// The capture groups of the anchored pattern
/// `^([Aa]|[Ss])?(\d+d)?(\d+)`: the optional advantage marker, the
/// optional count digits with their trailing separator, and the size
/// digits.
pub ghost struct BoundedCaps {
    /// Group 1: the advantage or disadvantage character, as a
    /// one-character span.
    pub adv: Option<Seq<char>>,
    /// Group 2: the count digits including the trailing `d`.
    pub count: Option<Seq<char>>,
    /// Group 3: the size digits.
    pub size: Seq<char>,
}

/// What the anchored pattern `^([Aa]|[Ss])?(\d+d)?(\d+)` captures on an
/// ASCII haystack: an optional leading advantage/disadvantage letter,
/// then — when a digit run is followed by a lowercase `d` and another
/// digit — that run with its `d` as the count group, and finally a digit
/// run as the size group. No digit run at all means no match.
pub open spec fn bounded_model(s: Seq<char>) -> Option<BoundedCaps> {
    let has_adv = s.len() > 0 && (is_adv_char(s[0]) || is_dis_char(s[0]));
    let i: int = if has_adv {
        1
    } else {
        0
    };
    let r1 = digit_run(s, i);
    if r1 == 0 {
        None
    } else {
        let j = i + r1;
        let adv = if has_adv {
            Some(s.subrange(0, 1))
        } else {
            None
        };
        if j < s.len() && s[j] == 'd' && digit_run(s, j + 1) > 0 {
            Some(
                BoundedCaps {
                    adv,
                    count: Some(s.subrange(i, j + 1)),
                    size: s.subrange(j + 1, j + 1 + digit_run(s, j + 1)),
                },
            )
        } else {
            Some(BoundedCaps { adv, count: None, size: s.subrange(i, j) })
        }
    }
}

/// The position of the leftmost match of `[+-]\d+` in an ASCII haystack:
/// the first sign character directly followed by a digit; `s.len()` when
/// there is none.
pub open spec fn modifier_pos(s: Seq<char>, i: int) -> int
    decreases s.len() - i,
{
    if i < 0 || i >= s.len() {
        s.len() as int
    } else if (s[i] == '+' || s[i] == '-') && i + 1 < s.len() && is_digit_char(s[i + 1]) {
        i
    } else {
        modifier_pos(s, i + 1)
    }
}

/// What `([+-]\d+)` finds on an ASCII haystack: the leftmost sign
/// character followed by a digit, together with the whole digit run.
pub open spec fn modifier_model(s: Seq<char>) -> Option<Seq<char>> {
    let p = modifier_pos(s, 0);
    if p == s.len() {
        None
    } else {
        Some(s.subrange(p, p + 1 + digit_run(s, p + 1)))
    }
}

/// The position of the first occurrence of `c` at or after `i`, or
/// `s.len()` when there is none.
pub open spec fn char_pos(s: Seq<char>, c: char, i: int) -> int
    decreases s.len() - i,
{
    if i < 0 || i >= s.len() {
        s.len() as int
    } else if s[i] == c {
        i
    } else {
        char_pos(s, c, i + 1)
    }
}

/// What a threshold pattern — `r(\d+)?` or `!(\d+)?` — captures on an
/// ASCII haystack: nothing when the marker character is absent, an empty
/// capture when it has no digits after it, and otherwise the digit run.
pub open spec fn threshold_model(s: Seq<char>, marker: char) -> Option<Option<Seq<char>>> {
    let p = char_pos(s, marker, 0);
    if p == s.len() {
        None
    } else {
        let d = digit_run(s, p + 1);
        if d > 0 {
            Some(Some(s.subrange(p + 1, p + 1 + d)))
        } else {
            Some(None)
        }
    }
}

/// An optional owned string, read as its character view.
pub open spec fn opt_view(o: Option<String>) -> Option<Seq<char>> {
    match o {
        Some(x) => Some(x@),
        None => None,
    }
}

/// An optional threshold capture, read as its character view.
pub open spec fn opt2_view(o: Option<Option<String>>) -> Option<Option<Seq<char>>> {
    match o {
        Some(x) => Some(opt_view(x)),
        None => None,
    }
}

// ---------------------------------------------------------------------------
// The value model
// ---------------------------------------------------------------------------

/// The value a threshold capture yields: no capture is no threshold, an
/// empty capture is the given default, and a digit capture parses as a
/// non-negative `i32` or fails naming its text.
pub open spec fn threshold_value(capv: Option<Option<Seq<char>>>, default: i32) -> Result<
    Option<i32>,
    ParseErr,
> {
    match capv {
        None => Ok(None),
        Some(None) => Ok(Some(default)),
        Some(Some(txt)) => if parses_i32(txt) {
            Ok(Some(dec_val(txt) as i32))
        } else {
            Err(ParseErr::BadInt { token: txt, span: txt })
        },
    }
}

/// The value a signed modifier text yields: its digit part with the sign
/// applied, or an invalid-integer error naming the whole text when the
/// digits do not fit an `i32`.
pub open spec fn modifier_value(txt: Seq<char>) -> Result<i32, ParseErr> {
    let neg = txt[0] == '-';
    let digits = txt.skip(1);
    if !is_dec(digits) {
        Err(ParseErr::BadInt { token: txt, span: txt })
    } else if neg && dec_val(digits) <= 2147483648 {
        Ok((-dec_val(digits)) as i32)
    } else if !neg && dec_val(digits) <= 2147483647 {
        Ok(dec_val(digits) as i32)
    } else {
        Err(ParseErr::BadInt { token: txt, span: txt })
    }
}

/// What parsing a single dice expression yields on an ASCII input: no
/// anchored count/size match is malformed; otherwise the count digits
/// (defaulting to 1), the size, the signed modifier (defaulting to 0)
/// and the two thresholds are read in that order, each failed integer
/// aborting with the offending text. An empty reroll capture defaults
/// to 1; an empty explode capture defaults to the parsed size.
pub open spec fn expression_model(s: Seq<char>) -> Result<Expression, ParseErr> {
    match bounded_model(s) {
        None => Err(ParseErr::Malformed { span: s }),
        Some(bm) => {
            let count_r: Result<i32, ParseErr> = match bm.count {
                Some(cnt) => {
                    let tok = cnt.drop_last();
                    if parses_i32(tok) {
                        Ok(dec_val(tok) as i32)
                    } else {
                        Err(ParseErr::BadInt { token: tok, span: tok })
                    }
                },
                None => Ok(1),
            };
            match count_r {
                Err(m) => Err(m),
                Ok(count) => {
                    if !parses_i32(bm.size) {
                        Err(ParseErr::BadInt { token: bm.size, span: bm.size })
                    } else {
                        let max = dec_val(bm.size) as i32;
                        let modifier_r: Result<i32, ParseErr> = match modifier_model(s) {
                            Some(txt) => modifier_value(txt),
                            None => Ok(0),
                        };
                        match modifier_r {
                            Err(m) => Err(m),
                            Ok(modifier) => match threshold_value(threshold_model(s, 'r'), 1) {
                                Err(m) => Err(m),
                                Ok(rr) => match threshold_value(threshold_model(s, '!'), max) {
                                    Err(m) => Err(m),
                                    Ok(ex) => Ok(
                                        Expression {
                                            count,
                                            max,
                                            modifier,
                                            advantage: match bm.adv {
                                                Some(a) => Some(
                                                    if is_adv_char(a[0]) {
                                                        Advantage::Advantage
                                                    } else {
                                                        Advantage::Disadvantage
                                                    },
                                                ),
                                                None => None,
                                            },
                                            reroll: match rr {
                                                Some(v) => Some(Reroll(v)),
                                                None => None,
                                            },
                                            explode: match ex {
                                                Some(v) => Some(Explode(v)),
                                                None => None,
                                            },
                                        },
                                    ),
                                },
                            },
                        }
                    }
                },
            }
        },
    }
}

// ---------------------------------------------------------------------------
// The parser
// ---------------------------------------------------------------------------

/// A parser for single dice expressions, holding its four compiled
/// patterns. `new` is its only constructor, so every reachable value
/// carries exactly the patterns the capture wrappers' contracts
/// describe.
pub struct ExpressionParser {
    bounded_expression: Regex,
    modifier_expression: Regex,
    reroll_expression: Regex,
    explode_expression: Regex,
}

impl ExpressionParser {
    /// Compiles the four fixed patterns. Relies on `Regex::new`, which
    /// accepts each of these fixed, valid patterns.
    #[verifier::external_body]
    pub fn new() -> (r: Self) {
        ExpressionParser {
            bounded_expression: Regex::new(r"^([Aa]|[Ss])?(\d+d)?(\d+)").unwrap(),
            modifier_expression: Regex::new(r"([+-]\d+)").unwrap(),
            reroll_expression: Regex::new(r"r(\d+)?").unwrap(),
            explode_expression: Regex::new(r"!(\d+)?").unwrap(),
        }
    }

    /// Relies on `Regex::captures` with the anchored pattern
    /// `^([Aa]|[Ss])?(\d+d)?(\d+)` compiled in `new`: on ASCII input the
    /// groups are exactly what `bounded_model` prescribes; on any input
    /// group 1 is a single advantage/disadvantage letter and group 2 is
    /// at least one digit with its trailing separator.
    #[verifier::external_body]
    fn captures_bounded(&self, s: &str) -> (r: Option<(Option<String>, Option<String>, String)>)
        ensures
            r matches Some(g) && g.0 matches Some(a) ==> a@.len() == 1 && (is_adv_char(a@[0])
                || is_dis_char(a@[0])),
            r matches Some(g) && g.1 matches Some(c) ==> c@.len() >= 2,
            is_ascii(s) ==> match r {
                None => bounded_model(s@) is None,
                Some(g) => bounded_model(s@) matches Some(bm) && opt_view(g.0) == bm.adv
                    && opt_view(g.1) == bm.count && g.2@ == bm.size,
            },
    {
        match self.bounded_expression.captures(s) {
            None => None,
            Some(c) => {
                let g1 = c.get(1).map(|m| m.as_str().to_owned());
                let g2 = c.get(2).map(|m| m.as_str().to_owned());
                let g3 = match c.get(3) {
                    Some(m) => m.as_str().to_owned(),
                    None => String::new(),
                };
                Some((g1, g2, g3))
            },
        }
    }

    /// Relies on `Regex::find` with the pattern `([+-]\d+)` compiled in
    /// `new`: on ASCII input the leftmost match is exactly what
    /// `modifier_model` prescribes; on any input the text starts with a
    /// sign and has something after it.
    #[verifier::external_body]
    fn find_modifier(&self, s: &str) -> (r: Option<String>)
        ensures
            r matches Some(t) ==> t@.len() >= 2 && (t@[0] == '+' || t@[0] == '-'),
            is_ascii(s) ==> opt_view(r) == modifier_model(s@),
    {
        self.modifier_expression.find(s).map(|m| m.as_str().to_owned())
    }

    /// Relies on `Regex::captures` with the pattern `r(\d+)?` compiled
    /// in `new`: on ASCII input the capture is exactly what
    /// `threshold_model` prescribes for the marker `r`.
    #[verifier::external_body]
    fn captures_reroll(&self, s: &str) -> (r: Option<Option<String>>)
        ensures
            r matches Some(g) && g matches Some(t) ==> t@.len() >= 1,
            is_ascii(s) ==> opt2_view(r) == threshold_model(s@, 'r'),
    {
        match self.reroll_expression.captures(s) {
            None => None,
            Some(c) => Some(c.get(1).map(|m| m.as_str().to_owned())),
        }
    }

    /// Relies on `Regex::captures` with the pattern `!(\d+)?` compiled
    /// in `new`: on ASCII input the capture is exactly what
    /// `threshold_model` prescribes for the marker `!`.
    #[verifier::external_body]
    fn captures_explode(&self, s: &str) -> (r: Option<Option<String>>)
        ensures
            r matches Some(g) && g matches Some(t) ==> t@.len() >= 1,
            is_ascii(s) ==> opt2_view(r) == threshold_model(s@, '!'),
    {
        match self.explode_expression.captures(s) {
            None => None,
            Some(c) => Some(c.get(1).map(|m| m.as_str().to_owned())),
        }
    }

    /// Parses a single dice expression such as `a2d6r2!5-1`. On ASCII
    /// input the result is exactly what `expression_model` prescribes:
    /// the parsed expression, or the first failure with its offending
    /// text.
    pub fn parse(&self, expr: &str) -> (r: Result<Expression, Error>)
        ensures
            is_ascii(expr) ==> match r {
                Ok(e) => expression_model(expr@) == Ok::<Expression, ParseErr>(e),
                Err(e) => expression_model(expr@) matches Err(m) && err_matches(e, m),
            },
    {
        let mut expression = Expression::default();
        let (g1, g2, g3) = match self.captures_bounded(expr) {
            Some(caps) => caps,
            None => {
                return Err(Error::bad_expression(expr));
            },
        };
        match g1 {
            Some(a) => {
                let c = a.as_str().get_char(0);
                expression.advantage = Some(
                    if c == 'a' || c == 'A' {
                        Advantage::Advantage
                    } else {
                        Advantage::Disadvantage
                    },
                );
            },
            None => {},
        }
        match g2 {
            Some(cnt) => {
                let n2 = cnt.as_str().unicode_len();
                proof {
                    assert(cnt@.subrange(0, n2 as int - 1) =~= cnt@.drop_last());
                }
                match parse_dec_span(cnt.as_str(), 0, n2 - 1) {
                    Some(v) if v <= 2147483647u32 => {
                        expression.count = v as i32;
                    },
                    _ => {
                        let tok = cnt.as_str().substring_char(0, n2 - 1);
                        return Err(Error::bad_integer(tok, tok));
                    },
                }
            },
            None => {
                expression.count = 1;
            },
        }
        let n3 = g3.as_str().unicode_len();
        proof {
            assert(g3@.subrange(0, n3 as int) =~= g3@);
        }
        match parse_dec_span(g3.as_str(), 0, n3) {
            Some(v) if v <= 2147483647u32 => {
                expression.max = v as i32;
            },
            _ => {
                return Err(Error::bad_integer(g3.as_str(), g3.as_str()));
            },
        }
        match self.find_modifier(expr) {
            Some(txt) => {
                let nm = txt.as_str().unicode_len();
                let sign = txt.as_str().get_char(0);
                proof {
                    assert(txt@.subrange(1, nm as int) =~= txt@.skip(1));
                }
                let mag = parse_dec_span(txt.as_str(), 1, nm);
                let value: i32 = match mag {
                    Some(v) if sign == '-' && v <= 2147483647u32 => -(v as i32),
                    Some(v) if sign == '-' && v == 2147483648u32 => i32::MIN,
                    Some(v) if sign != '-' && v <= 2147483647u32 => v as i32,
                    _ => {
                        return Err(Error::bad_integer(txt.as_str(), txt.as_str()));
                    },
                };
                expression.modifier = value;
            },
            None => {},
        }
        match parse_threshold_token(self.captures_reroll(expr), 1) {
            Ok(rr) => {
                expression.reroll = match rr {
                    Some(v) => Some(Reroll(v)),
                    None => None,
                };
            },
            Err(e) => {
                return Err(e);
            },
        }
        match parse_threshold_token(self.captures_explode(expr), expression.max) {
            Ok(ex) => {
                expression.explode = match ex {
                    Some(v) => Some(Explode(v)),
                    None => None,
                };
            },
            Err(e) => {
                return Err(e);
            },
        }
        Ok(expression)
    }
}

/// Reads a threshold capture into its value: no capture is no threshold,
/// an empty capture is the default, and digits parse as a non-negative
/// `i32` or fail naming their text — exactly `threshold_value`.
fn parse_threshold_token(cap: Option<Option<String>>, default: i32) -> (r: Result<
    Option<i32>,
    Error,
>)
    ensures
        match r {
            Ok(v) => threshold_value(opt2_view(cap), default) == Ok::<Option<i32>, ParseErr>(v),
            Err(e) => threshold_value(opt2_view(cap), default) matches Err(m) && err_matches(e, m),
        },
{
    match cap {
        None => Ok(None),
        Some(None) => Ok(Some(default)),
        Some(Some(txt)) => {
            let n = txt.as_str().unicode_len();
            proof {
                assert(txt@.subrange(0, n as int) =~= txt@);
            }
            match parse_dec_span(txt.as_str(), 0, n) {
                Some(v) if v <= 2147483647u32 => Ok(Some(v as i32)),
                _ => Err(Error::bad_integer(txt.as_str(), txt.as_str())),
            }
        },
    }
}

} // verus!

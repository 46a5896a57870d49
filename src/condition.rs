//! Conditions over a token sequence: their grammar, their parser and their
//! evaluation against a current version.
//!
//! ```text
//! condition := IDENT comparator VERSION
//!            | VERSION comparator IDENT [comparator VERSION]
//! ```
//!
//! A version is a literal `a` or `a.b`, optionally followed by a `.`
//! punctuation token and a literal `c`. The identifier only marks a
//! position: its text is never read.
use vstd::prelude::*;
use vstd::string::*;
use crate::number::{all_digits, decimal, decimal_value, lemma_decimal_round_trip, parse_decimal};
use crate::version::{Cmp, Version, is_condition_true};

verus! {

/// One token of a condition. A `Group` is a delimited group of tokens,
/// kept as its text; the grammar has no place for one.
#[derive(Clone, Debug, PartialEq, Eq)]
pub enum Token {
    Ident(String),
    Literal(String),
    Punct(char),
    Group(String),
}

pub open spec fn punct_is(t: Token, c: char) -> bool {
    t matches Token::Punct(d) && d == c
}

impl Token {
    pub fn is_punct(&self, c: char) -> (r: bool)
        ensures
            r == punct_is(*self, c),
    {
        match self {
            Token::Punct(d) => *d == c,
            _ => false,
        }
    }
}

/// The kinds of failure of a condition.
#[derive(Clone, Copy, Debug, PartialEq, Eq, Structural)]
pub enum ErrorKind {
    MalformedVersionLiteral,
    UnexpectedToken,
    UnexpectedEndOfInput,
    UnknownComparator,
    VersionLookupFailure,
}

/// A failure, anchored at the index of the token it concerns, or at the
/// condition as a whole (`at == None`).
#[derive(Clone, Copy, Debug, PartialEq, Eq)]
pub struct ConditionError {
    pub kind: ErrorKind,
    pub at: Option<usize>,
}

pub open spec fn error_at(kind: ErrorKind, at: int) -> ConditionError {
    ConditionError { kind, at: Some(at as usize) }
}

pub open spec fn error_whole(kind: ErrorKind) -> ConditionError {
    ConditionError { kind, at: None }
}

/// `k` is the index of the first `.` in `s`.
pub open spec fn is_first_dot(s: Seq<char>, k: int) -> bool {
    &&& 0 <= k < s.len()
    &&& s[k] == '.'
    &&& forall|j: int| 0 <= j < k ==> s[j] != '.'
}

pub open spec fn first_dot(s: Seq<char>) -> Option<int> {
    if exists|k: int| is_first_dot(s, k) {
        Some(choose|k: int| is_first_dot(s, k))
    } else {
        None
    }
}

/// The version that starts with the literal text `text` (the token at index
/// `at`), where `i` indexes the token after that literal, and the index of
/// the first token after the version.
///
/// Without a `.`, the text is the major number. With one, the text before
/// the first `.` is the major number and the rest the minor number; a `.`
/// token after the literal must then be followed by the patch literal (a
/// missing one reads as 0). Every number is read as `u64::from_str` reads it.
pub open spec fn spec_parse_version(text: Seq<char>, at: int, s: Seq<Token>, i: int) -> Result<
    (Version, int),
    ConditionError,
> {
    let malformed = error_at(ErrorKind::MalformedVersionLiteral, at);
    match first_dot(text) {
        None => match decimal_value(text) {
            Some(major) => Ok((Version { major, minor: 0, patch: 0 }, i)),
            None => Err(malformed),
        },
        Some(d) => match (decimal_value(text.take(d)), decimal_value(text.skip(d + 1))) {
            (Some(major), Some(minor)) => {
                if i < s.len() && punct_is(s[i], '.') {
                    if i + 1 < s.len() {
                        match s[i + 1] {
                            Token::Literal(l) => match decimal_value(l@) {
                                Some(patch) => Ok((Version { major, minor, patch }, i + 2)),
                                None => Err(error_at(ErrorKind::MalformedVersionLiteral, i + 1)),
                            },
                            _ => Err(error_at(ErrorKind::MalformedVersionLiteral, i + 1)),
                        }
                    } else {
                        Ok((Version { major, minor, patch: 0 }, i + 1))
                    }
                } else {
                    Ok((Version { major, minor, patch: 0 }, i))
                }
            },
            _ => Err(malformed),
        },
    }
}

proof fn lemma_first_dot(s: Seq<char>, k: int)
    requires
        is_first_dot(s, k),
    ensures
        first_dot(s) == Some(k),
{
    let c = choose|c: int| is_first_dot(s, c);
    assert(is_first_dot(s, c));
    if c < k {
        assert(s[c] != '.');
    } else if c > k {
        assert(s[k] != '.');
    }
}

fn find_dot(text: &str) -> (r: Option<usize>)
    ensures
        match first_dot(text@) {
            Some(k) => r == Some(k as usize),
            None => r is None,
        },
{
    let n = text.unicode_len();
    let mut k: usize = 0;
    while k < n
        invariant
            k <= n == text@.len(),
            forall|j: int| 0 <= j < k ==> text@[j] != '.',
        decreases n - k,
    {
        if text.get_char(k) == '.' {
            proof {
                lemma_first_dot(text@, k as int);
            }
            return Some(k);
        }
        k = k + 1;
    }
    assert(!exists|c: int| is_first_dot(text@, c));
    None
}

/// Reads a version from the literal `first`, the token at index `first_at`,
/// and the tokens from `*pos` on, which indexes the token after `first`.
/// On success `*pos` moves past the version.
pub fn parse_version(first: &String, first_at: usize, tokens: &[Token], pos: &mut usize) -> (r:
    Result<Version, ConditionError>)
    requires
        *old(pos) <= tokens@.len(),
    ensures
        match spec_parse_version(first@, first_at as int, tokens@, *old(pos) as int) {
            Ok((v, j)) => r == Ok::<Version, ConditionError>(v) && *final(pos) == j,
            Err(e) => r == Err::<Version, ConditionError>(e),
        },
{
    let text = first.as_str();
    let n = text.unicode_len();
    let malformed = ConditionError { kind: ErrorKind::MalformedVersionLiteral, at: Some(first_at) };
    match find_dot(text) {
        None => {
            assert(text@.subrange(0, n as int) =~= text@);
            match parse_decimal(text, 0, n) {
                Some(major) => Ok(Version::new(major, 0, 0)),
                None => Err(malformed),
            }
        },
        Some(d) => {
            assert(text@.subrange(0, d as int) =~= text@.take(d as int));
            assert(text@.subrange(d + 1, n as int) =~= text@.skip(d + 1));
            let major = match parse_decimal(text, 0, d) {
                Some(m) => m,
                None => return Err(malformed),
            };
            let minor = match parse_decimal(text, d + 1, n) {
                Some(m) => m,
                None => return Err(malformed),
            };
            let i = *pos;
            if i < tokens.len() && tokens[i].is_punct('.') {
                *pos = i + 1;
                if i + 1 < tokens.len() {
                    match &tokens[i + 1] {
                        Token::Literal(lit) => {
                            let ls = lit.as_str();
                            let ln = ls.unicode_len();
                            assert(ls@.subrange(0, ln as int) =~= ls@);
                            match parse_decimal(ls, 0, ln) {
                                Some(patch) => {
                                    *pos = i + 2;
                                    Ok(Version::new(major, minor, patch))
                                },
                                None => Err(
                                    ConditionError {
                                        kind: ErrorKind::MalformedVersionLiteral,
                                        at: Some(i + 1),
                                    },
                                ),
                            }
                        },
                        _ => Err(
                            ConditionError {
                                kind: ErrorKind::MalformedVersionLiteral,
                                at: Some(i + 1),
                            },
                        ),
                    }
                } else {
                    Ok(Version::new(major, minor, 0))
                }
            } else {
                Ok(Version::new(major, minor, 0))
            }
        },
    }
}

/// The comparator that starts at index `i`, and the index after it:
/// `==`, `!=`, `<=`, `>=`, or a `<` or `>` that no `=` follows.
pub open spec fn spec_parse_cmp(s: Seq<Token>, i: int) -> Result<(Cmp, int), ConditionError> {
    if i >= s.len() {
        Err(error_whole(ErrorKind::UnexpectedEndOfInput))
    } else {
        match s[i] {
            Token::Punct(c) => {
                if c == '!' || c == '=' {
                    if i + 1 >= s.len() {
                        Err(error_at(ErrorKind::UnexpectedEndOfInput, i))
                    } else if punct_is(s[i + 1], '=') {
                        Ok(
                            (
                                if c == '!' {
                                    Cmp::NE
                                } else {
                                    Cmp::EQ
                                },
                                i + 2,
                            ),
                        )
                    } else {
                        Err(error_at(ErrorKind::UnexpectedToken, i + 1))
                    }
                } else if c == '<' || c == '>' {
                    if i + 1 < s.len() && punct_is(s[i + 1], '=') {
                        Ok(
                            (
                                if c == '<' {
                                    Cmp::LE
                                } else {
                                    Cmp::GE
                                },
                                i + 2,
                            ),
                        )
                    } else {
                        Ok(
                            (
                                if c == '<' {
                                    Cmp::LT
                                } else {
                                    Cmp::GT
                                },
                                i + 1,
                            ),
                        )
                    }
                } else {
                    Err(error_at(ErrorKind::UnknownComparator, i))
                }
            },
            _ => Err(error_at(ErrorKind::UnexpectedToken, i)),
        }
    }
}

/// An optional comparator at index `i`: none follows where the tokens end
/// before `i`; otherwise as `spec_parse_cmp`.
pub open spec fn spec_parse_optional_cmp(s: Seq<Token>, i: int) -> Result<
    Option<(Cmp, int)>,
    ConditionError,
> {
    if i >= s.len() {
        Ok(None)
    } else {
        match spec_parse_cmp(s, i) {
            Ok(p) => Ok(Some(p)),
            Err(e) => Err(e),
        }
    }
}

/// Reads a comparator at `*pos`. Where `emit_if_end` holds, the end of the
/// tokens is an error; where it does not, the comparator is optional and
/// `Ok(None)` says that none follows. `*pos` moves past a comparator that
/// is read, and stays where it was otherwise.
pub fn parse_cmp(tokens: &[Token], pos: &mut usize, emit_if_end: bool) -> (r: Result<
    Option<Cmp>,
    ConditionError,
>)
    requires
        *old(pos) <= tokens@.len(),
    ensures
        emit_if_end ==> match spec_parse_cmp(tokens@, *old(pos) as int) {
            Ok((c, j)) => r == Ok::<Option<Cmp>, ConditionError>(Some(c)) && *final(pos) == j,
            Err(e) => r == Err::<Option<Cmp>, ConditionError>(e),
        },
        !emit_if_end ==> match spec_parse_optional_cmp(tokens@, *old(pos) as int) {
            Ok(Some((c, j))) => r == Ok::<Option<Cmp>, ConditionError>(Some(c)) && *final(pos)
                == j,
            Ok(None) => r == Ok::<Option<Cmp>, ConditionError>(None),
            Err(e) => r == Err::<Option<Cmp>, ConditionError>(e),
        },
        !(r matches Ok(Some(_))) ==> *final(pos) == *old(pos),
{
    let i = *pos;
    if i >= tokens.len() {
        if emit_if_end {
            return Err(ConditionError { kind: ErrorKind::UnexpectedEndOfInput, at: None });
        } else {
            return Ok(None);
        }
    }
    match &tokens[i] {
        Token::Punct(op) => {
            let c = *op;
            if c == '!' || c == '=' {
                if i + 1 >= tokens.len() {
                    Err(ConditionError { kind: ErrorKind::UnexpectedEndOfInput, at: Some(i) })
                } else if tokens[i + 1].is_punct('=') {
                    *pos = i + 2;
                    Ok(
                        Some(
                            if c == '!' {
                                Cmp::NE
                            } else {
                                Cmp::EQ
                            },
                        ),
                    )
                } else {
                    Err(ConditionError { kind: ErrorKind::UnexpectedToken, at: Some(i + 1) })
                }
            } else if c == '<' || c == '>' {
                if i + 1 < tokens.len() && tokens[i + 1].is_punct('=') {
                    *pos = i + 2;
                    Ok(
                        Some(
                            if c == '<' {
                                Cmp::LE
                            } else {
                                Cmp::GE
                            },
                        ),
                    )
                } else {
                    *pos = i + 1;
                    Ok(
                        Some(
                            if c == '<' {
                                Cmp::LT
                            } else {
                                Cmp::GT
                            },
                        ),
                    )
                }
            } else {
                Err(ConditionError { kind: ErrorKind::UnknownComparator, at: Some(i) })
            }
        },
        _ => Err(ConditionError { kind: ErrorKind::UnexpectedToken, at: Some(i) }),
    }
}

/// A version with the comparator that joins it to the identifier.
#[derive(Clone, Copy, Debug, PartialEq, Eq, Structural)]
pub struct Bound {
    pub version: Version,
    pub cmp: Cmp,
}

/// A parsed condition. `left` is the bound written before the identifier
/// (`version cmp x`), `right` the one written after it (`x cmp version`).
/// The parser fills at least one of them.
#[derive(Clone, Copy, Debug, PartialEq, Eq, Structural)]
pub struct Condition {
    pub left: Option<Bound>,
    pub right: Option<Bound>,
}

impl Condition {
    pub open spec fn wf(self) -> bool {
        self.left is Some || self.right is Some
    }

    /// The condition holds of `current`: it has a bound, and each of its
    /// bounds holds with `current` in the identifier's place. One with no
    /// bound accepts nothing.
    pub open spec fn accepts(self, current: Version) -> bool {
        &&& self.wf()
        &&& (self.left matches Some(b) ==> b.cmp.holds(b.version, current))
        &&& (self.right matches Some(b) ==> b.cmp.holds(current, b.version))
    }

    /// Evaluates the condition with `current` in the identifier's place,
    /// the left bound before the right one.
    pub fn is_satisfied_by(&self, current: Version) -> (r: bool)
        ensures
            r == self.accepts(current),
    {
        match (self.left, self.right) {
            (Some(l), Some(r)) => is_condition_true(l.version, l.cmp, current)
                && is_condition_true(current, r.cmp, r.version),
            (Some(l), None) => is_condition_true(l.version, l.cmp, current),
            (None, Some(r)) => is_condition_true(current, r.cmp, r.version),
            (None, None) => false,
        }
    }
}

/// A version that must start with a literal at index `i`, and the index
/// after it. Where the tokens end before `i`, the error is anchored at
/// `end_at`.
pub open spec fn spec_version_at(s: Seq<Token>, i: int, end_at: Option<usize>) -> Result<
    (Version, int),
    ConditionError,
> {
    if i >= s.len() {
        Err(ConditionError { kind: ErrorKind::UnexpectedEndOfInput, at: end_at })
    } else {
        match s[i] {
            Token::Literal(l) => spec_parse_version(l@, i, s, i + 1),
            _ => Err(error_at(ErrorKind::UnexpectedToken, i)),
        }
    }
}

/// The condition that the tokens `s` write, or the first failure met
/// reading them from left to right. Tokens after a complete condition are
/// not read.
pub open spec fn spec_parse_condition(s: Seq<Token>) -> Result<Condition, ConditionError> {
    if s.len() == 0 {
        Err(error_whole(ErrorKind::UnexpectedEndOfInput))
    } else {
        match s[0] {
            Token::Ident(_) => match spec_parse_cmp(s, 1) {
                Err(e) => Err(e),
                Ok((cmp, j)) => match spec_version_at(s, j, Some(0usize)) {
                    Err(e) => Err(e),
                    Ok((version, _)) => Ok(
                        Condition { left: None, right: Some(Bound { version, cmp }) },
                    ),
                },
            },
            Token::Literal(l) => match spec_parse_version(l@, 0, s, 1) {
                Err(e) => Err(e),
                Ok((lv, j)) => match spec_parse_cmp(s, j) {
                    Err(e) => Err(e),
                    Ok((lc, k)) => {
                        if k >= s.len() {
                            Err(error_whole(ErrorKind::UnexpectedEndOfInput))
                        } else if s[k] !is Ident {
                            Err(error_at(ErrorKind::UnexpectedToken, k))
                        } else {
                            let left = Some(Bound { version: lv, cmp: lc });
                            match spec_parse_optional_cmp(s, k + 1) {
                                Err(e) => Err(e),
                                Ok(None) => Ok(Condition { left, right: None }),
                                Ok(Some((rc, m))) => match spec_version_at(s, m, None) {
                                    Err(e) => Err(e),
                                    Ok((rv, _)) => Ok(
                                        Condition {
                                            left,
                                            right: Some(Bound { version: rv, cmp: rc }),
                                        },
                                    ),
                                },
                            }
                        }
                    },
                },
            },
            _ => Err(error_at(ErrorKind::UnexpectedToken, 0)),
        }
    }
}

fn parse_version_at(tokens: &[Token], pos: &mut usize, end_at: Option<usize>) -> (r: Result<
    Version,
    ConditionError,
>)
    requires
        *old(pos) <= tokens@.len(),
    ensures
        match spec_version_at(tokens@, *old(pos) as int, end_at) {
            Ok((v, j)) => r == Ok::<Version, ConditionError>(v) && *final(pos) == j,
            Err(e) => r == Err::<Version, ConditionError>(e),
        },
{
    let i = *pos;
    if i >= tokens.len() {
        return Err(ConditionError { kind: ErrorKind::UnexpectedEndOfInput, at: end_at });
    }
    match &tokens[i] {
        Token::Literal(lit) => {
            *pos = i + 1;
            parse_version(lit, i, tokens, pos)
        },
        _ => Err(ConditionError { kind: ErrorKind::UnexpectedToken, at: Some(i) }),
    }
}

/// Parses a whole condition; see `spec_parse_condition`. A condition that
/// parses has at least one bound.
pub fn parse_condition(tokens: &[Token]) -> (r: Result<Condition, ConditionError>)
    ensures
        r == spec_parse_condition(tokens@),
        r matches Ok(c) ==> c.wf(),
{
    if tokens.len() == 0 {
        return Err(ConditionError { kind: ErrorKind::UnexpectedEndOfInput, at: None });
    }
    let mut pos: usize = 1;
    let left = match &tokens[0] {
        Token::Ident(_) => {
            let cmp = match parse_cmp(tokens, &mut pos, true) {
                Ok(Some(c)) => c,
                Ok(None) => return Err(
                    ConditionError { kind: ErrorKind::UnexpectedEndOfInput, at: None },
                ),
                Err(e) => return Err(e),
            };
            let version = match parse_version_at(tokens, &mut pos, Some(0)) {
                Ok(v) => v,
                Err(e) => return Err(e),
            };
            return Ok(Condition { left: None, right: Some(Bound { version, cmp }) });
        },
        Token::Literal(lit) => match parse_version(lit, 0, tokens, &mut pos) {
            Ok(v) => v,
            Err(e) => return Err(e),
        },
        _ => {
            return Err(ConditionError { kind: ErrorKind::UnexpectedToken, at: Some(0) });
        },
    };
    let left_cmp = match parse_cmp(tokens, &mut pos, true) {
        Ok(Some(c)) => c,
        Ok(None) => return Err(ConditionError { kind: ErrorKind::UnexpectedEndOfInput, at: None }),
        Err(e) => return Err(e),
    };
    let k = pos;
    if k >= tokens.len() {
        return Err(ConditionError { kind: ErrorKind::UnexpectedEndOfInput, at: None });
    }
    match &tokens[k] {
        Token::Ident(_) => {},
        _ => {
            return Err(ConditionError { kind: ErrorKind::UnexpectedToken, at: Some(k) });
        },
    }
    pos = k + 1;
    let left_bound = Some(Bound { version: left, cmp: left_cmp });
    let right_cmp = match parse_cmp(tokens, &mut pos, false) {
        Ok(Some(c)) => c,
        Ok(None) => return Ok(Condition { left: left_bound, right: None }),
        Err(e) => return Err(e),
    };
    let right = match parse_version_at(tokens, &mut pos, None) {
        Ok(v) => v,
        Err(e) => return Err(e),
    };
    Ok(Condition { left: left_bound, right: Some(Bound { version: right, cmp: right_cmp }) })
}

/// Decides whether the content guarded by the condition `args` is kept.
/// `current` is the version to compare against, `None` where it could not
/// be found. The condition is read first: its failure is the one returned
/// where both fail. The content is handed back, unchanged, only where the
/// condition parses, a current version is known and the condition accepts
/// it; `Ok(None)` says that it is discarded, and so it is on every error.
pub fn rust_version<T>(args: &[Token], current: Option<Version>, input: T) -> (r: Result<
    Option<T>,
    ConditionError,
>)
    ensures
        match spec_parse_condition(args@) {
            Err(e) => r == Err::<Option<T>, ConditionError>(e),
            Ok(c) => match current {
                None => r == Err::<Option<T>, ConditionError>(
                    error_whole(ErrorKind::VersionLookupFailure),
                ),
                Some(v) => r == Ok::<Option<T>, ConditionError>(
                    if c.accepts(v) {
                        Some(input)
                    } else {
                        None
                    },
                ),
            },
        },
{
    let condition = match parse_condition(args) {
        Ok(c) => c,
        Err(e) => return Err(e),
    };
    let current = match current {
        Some(v) => v,
        None => return Err(ConditionError { kind: ErrorKind::VersionLookupFailure, at: None }),
    };
    if condition.is_satisfied_by(current) {
        Ok(Some(input))
    } else {
        Ok(None)
    }
}

pub open spec fn literal_is(t: Token, text: Seq<char>) -> bool {
    t matches Token::Literal(l) && l@ == text
}

/// The text `a.b` of a literal.
pub open spec fn dotted(a: u64, b: u64) -> Seq<char> {
    decimal(a as nat) + seq!['.'] + decimal(b as nat)
}

proof fn lemma_no_dot(a: u64)
    ensures
        all_digits(decimal(a as nat)),
        forall|k: int| !is_first_dot(decimal(a as nat), k),
        forall|j: int| 0 <= j < decimal(a as nat).len() ==> decimal(a as nat)[j] != '.',
{
    lemma_decimal_round_trip(a);
    let t = decimal(a as nat);
    assert forall|j: int| 0 <= j < t.len() implies t[j] != '.' by {
        assert(crate::number::is_digit(t[j]));
    }
    assert forall|k: int| !is_first_dot(t, k) by {
        if 0 <= k < t.len() {
            assert(t[k] != '.');
        }
    }
}

/// A literal `a` reads as the version (a, 0, 0), a literal `a.b` that no
/// `.` token follows as (a, b, 0), and a literal `a.b` followed by the
/// tokens `.` and `c` as (a, b, c).
pub proof fn lemma_parse_version_forms(s: Seq<Token>, at: int, i: int, a: u64, b: u64, c: u64)
    requires
        0 <= i <= s.len(),
    ensures
        spec_parse_version(decimal(a as nat), at, s, i) == Ok::<(Version, int), ConditionError>(
            (Version { major: a, minor: 0, patch: 0 }, i),
        ),
        (i == s.len() || !punct_is(s[i], '.')) ==> spec_parse_version(dotted(a, b), at, s, i)
            == Ok::<(Version, int), ConditionError>(
            (Version { major: a, minor: b, patch: 0 }, i),
        ),
        (i + 1 < s.len() && punct_is(s[i], '.') && literal_is(s[i + 1], decimal(c as nat)))
            ==> spec_parse_version(dotted(a, b), at, s, i) == Ok::<
            (Version, int),
            ConditionError,
        >((Version { major: a, minor: b, patch: c }, i + 2)),
{
    lemma_no_dot(a);
    lemma_decimal_round_trip(a);
    lemma_decimal_round_trip(b);
    lemma_decimal_round_trip(c);
    let ta = decimal(a as nat);
    let t = dotted(a, b);
    let d = ta.len() as int;
    assert(t[d] == '.');
    assert forall|j: int| 0 <= j < d implies t[j] != '.' by {
        assert(t[j] == ta[j]);
    }
    lemma_first_dot(t, d);
    assert(t.take(d) =~= ta);
    assert(t.skip(d + 1) =~= decimal(b as nat));
}

/// `V <= x` and `x >= V` accept the same current versions, for every
/// version `V` = `a.b.c`, written as the tokens `a.b`, `.`, `c`.
pub proof fn lemma_lower_bound_either_side(
    before: Seq<Token>,
    after: Seq<Token>,
    a: u64,
    b: u64,
    c: u64,
    current: Version,
)
    requires
        before.len() == 6,
        literal_is(before[0], dotted(a, b)),
        punct_is(before[1], '.'),
        literal_is(before[2], decimal(c as nat)),
        punct_is(before[3], '<'),
        punct_is(before[4], '='),
        before[5] is Ident,
        after.len() == 6,
        after[0] is Ident,
        punct_is(after[1], '>'),
        punct_is(after[2], '='),
        literal_is(after[3], dotted(a, b)),
        punct_is(after[4], '.'),
        literal_is(after[5], decimal(c as nat)),
    ensures
        spec_parse_condition(before) is Ok,
        spec_parse_condition(after) is Ok,
        spec_parse_condition(before)->Ok_0.accepts(current) == spec_parse_condition(
            after,
        )->Ok_0.accepts(current),
        spec_parse_condition(after)->Ok_0.accepts(current) == !current.precedes(
            Version { major: a, minor: b, patch: c },
        ),
{
    lemma_parse_version_forms(before, 0, 1, a, b, c);
    lemma_parse_version_forms(after, 3, 4, a, b, c);
}

} // verus!

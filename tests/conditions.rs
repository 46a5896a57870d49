use rust_version_macro::condition::{
    parse_cmp, parse_condition, parse_version, rust_version, Bound, Condition, ConditionError,
    ErrorKind, Token,
};
use rust_version_macro::number::parse_decimal;
use rust_version_macro::version::{is_condition_true, Cmp, Version};

fn ident(s: &str) -> Token {
    Token::Ident(s.to_string())
}

fn lit(s: &str) -> Token {
    Token::Literal(s.to_string())
}

fn punct(c: char) -> Token {
    Token::Punct(c)
}

fn v(major: u64, minor: u64, patch: u64) -> Version {
    Version::new(major, minor, patch)
}

fn err(kind: ErrorKind, at: Option<usize>) -> ConditionError {
    ConditionError { kind, at }
}

fn kept(args: &[Token], current: Version) -> bool {
    match rust_version(args, Some(current), ()) {
        Ok(Some(())) => true,
        Ok(None) => false,
        Err(_) => false,
    }
}

fn version_of(first: &str, rest: &[Token]) -> Result<Version, ConditionError> {
    let mut tokens = vec![lit(first)];
    tokens.extend_from_slice(rest);
    let mut pos: usize = 1;
    parse_version(&first.to_string(), 0, &tokens, &mut pos)
}

#[test]
fn tests() {
    let current = v(1, 27, 2);
    // x == 0.0.0
    let never = [ident("x"), punct('='), punct('='), lit("0.0"), punct('.'), lit("0")];
    assert!(!kept(&never, current));
    // x > 1
    assert!(kept(&[ident("x"), punct('>'), lit("1")], current));
    // y > 1.20
    assert!(kept(&[ident("y"), punct('>'), lit("1.20")], current));
    // z >= 1.27.2
    let exact = [ident("z"), punct('>'), punct('='), lit("1.27"), punct('.'), lit("2")];
    assert!(kept(&exact, current));
    // 1.27.0 < x < 2.0.0
    let range = [
        lit("1.27"), punct('.'), lit("0"), punct('<'), ident("x"), punct('<'), lit("2.0"),
        punct('.'), lit("0"),
    ];
    assert!(kept(&range, current));
    // x < 1.27
    assert!(!kept(&[ident("x"), punct('<'), lit("1.27")], current));
    // x > 1.27
    let mut modified = false;
    if kept(&[ident("x"), punct('>'), lit("1.27")], current) {
        modified = true;
    }
    assert!(modified);
}

#[test]
fn can_interpret_conditions_correctly() {
    assert!(is_condition_true(v(0, 0, 0), Cmp::EQ, v(0, 0, 0)));
    assert!(is_condition_true(v(0, 1, 0), Cmp::LT, v(0, 1, 1)));
}

#[test]
fn version_literal_forms() {
    assert_eq!(version_of("1", &[]), Ok(v(1, 0, 0)));
    assert_eq!(version_of("1.2", &[]), Ok(v(1, 2, 0)));
    assert_eq!(version_of("1.2", &[punct('.'), lit("3")]), Ok(v(1, 2, 3)));
    assert_eq!(version_of("12.345", &[punct('.'), lit("6789")]), Ok(v(12, 345, 6789)));
    // a `.` with nothing after it reads as patch 0
    assert_eq!(version_of("1.2", &[punct('.')]), Ok(v(1, 2, 0)));
    // a token other than `.` after `a.b` is left for the caller
    let tokens = [lit("1.2"), punct('<'), ident("x")];
    let mut pos: usize = 1;
    assert_eq!(parse_version(&"1.2".to_string(), 0, &tokens, &mut pos), Ok(v(1, 2, 0)));
    assert_eq!(pos, 1);
    let tokens = [lit("1.2"), punct('.'), lit("3"), punct('<')];
    let mut pos: usize = 1;
    assert_eq!(parse_version(&"1.2".to_string(), 0, &tokens, &mut pos), Ok(v(1, 2, 3)));
    assert_eq!(pos, 3);
}

#[test]
fn version_literal_extremes() {
    let max = u64::MAX.to_string();
    assert_eq!(version_of(&max, &[]), Ok(v(u64::MAX, 0, 0)));
    assert_eq!(
        version_of("18446744073709551616", &[]),
        Err(err(ErrorKind::MalformedVersionLiteral, Some(0)))
    );
    assert_eq!(version_of("0.0", &[punct('.'), lit("0")]), Ok(v(0, 0, 0)));
    assert_eq!(version_of("+1.+2", &[punct('.'), lit("+3")]), Ok(v(1, 2, 3)));
}

#[test]
fn malformed_version_literals() {
    let m = ErrorKind::MalformedVersionLiteral;
    assert_eq!(version_of("", &[]), Err(err(m, Some(0))));
    assert_eq!(version_of("a", &[]), Err(err(m, Some(0))));
    assert_eq!(version_of(".1", &[]), Err(err(m, Some(0))));
    assert_eq!(version_of("1.", &[]), Err(err(m, Some(0))));
    assert_eq!(version_of("1.a", &[]), Err(err(m, Some(0))));
    assert_eq!(version_of("1.2.3", &[]), Err(err(m, Some(0))));
    assert_eq!(version_of("+", &[]), Err(err(m, Some(0))));
    assert_eq!(version_of("1u8", &[]), Err(err(m, Some(0))));
    assert_eq!(version_of("1.2", &[punct('.'), lit("x")]), Err(err(m, Some(2))));
    assert_eq!(version_of("1.2", &[punct('.'), ident("y")]), Err(err(m, Some(2))));
}

#[test]
fn decimal_reading() {
    let s = "v1234x";
    assert_eq!(parse_decimal(s, 1, 5), Some(1234));
    assert_eq!(parse_decimal(s, 0, 5), None);
    assert_eq!(parse_decimal(s, 1, 1), None);
    assert_eq!(parse_decimal("007", 0, 3), Some(7));
    assert_eq!(parse_decimal("18446744073709551615", 0, 20), Some(u64::MAX));
    assert_eq!(parse_decimal("99999999999999999999", 0, 20), None);
}

#[test]
fn comparators_read() {
    let cases: Vec<(Vec<Token>, Cmp, usize)> = vec![
        (vec![punct('='), punct('=')], Cmp::EQ, 2),
        (vec![punct('!'), punct('=')], Cmp::NE, 2),
        (vec![punct('<'), punct('=')], Cmp::LE, 2),
        (vec![punct('>'), punct('=')], Cmp::GE, 2),
        (vec![punct('<'), lit("1")], Cmp::LT, 1),
        (vec![punct('>'), lit("1")], Cmp::GT, 1),
        (vec![punct('>'), punct('>')], Cmp::GT, 1),
    ];
    for (tokens, cmp, end) in cases {
        let mut pos: usize = 0;
        assert_eq!(parse_cmp(&tokens, &mut pos, true), Ok(Some(cmp)));
        assert_eq!(pos, end);
    }
}

#[test]
fn comparator_errors() {
    let mut pos: usize = 0;
    assert_eq!(
        parse_cmp(&[], &mut pos, true),
        Err(err(ErrorKind::UnexpectedEndOfInput, None))
    );
    let mut pos: usize = 0;
    assert_eq!(parse_cmp(&[], &mut pos, false), Ok(None));
    let mut pos: usize = 0;
    assert_eq!(
        parse_cmp(&[punct('<')], &mut pos, true),
        Ok(Some(Cmp::LT))
    );
    assert_eq!(pos, 1);
    let mut pos: usize = 0;
    assert_eq!(parse_cmp(&[punct('>')], &mut pos, false), Ok(Some(Cmp::GT)));
    assert_eq!(pos, 1);
    let mut pos: usize = 1;
    assert_eq!(parse_cmp(&[punct('<')], &mut pos, false), Ok(None));
    assert_eq!(pos, 1);
    let mut pos: usize = 1;
    assert_eq!(
        parse_cmp(&[punct('<')], &mut pos, true),
        Err(err(ErrorKind::UnexpectedEndOfInput, None))
    );
    assert_eq!(pos, 1);
    let mut pos: usize = 0;
    assert_eq!(
        parse_cmp(&[punct('=')], &mut pos, false),
        Err(err(ErrorKind::UnexpectedEndOfInput, Some(0)))
    );
    let mut pos: usize = 0;
    assert_eq!(
        parse_cmp(&[punct('!'), punct('<')], &mut pos, true),
        Err(err(ErrorKind::UnexpectedToken, Some(1)))
    );
    let mut pos: usize = 0;
    assert_eq!(
        parse_cmp(&[punct('='), lit("1")], &mut pos, true),
        Err(err(ErrorKind::UnexpectedToken, Some(1)))
    );
    let mut pos: usize = 0;
    assert_eq!(
        parse_cmp(&[punct('%')], &mut pos, true),
        Err(err(ErrorKind::UnknownComparator, Some(0)))
    );
    assert_eq!(pos, 0);
    let mut pos: usize = 0;
    assert_eq!(
        parse_cmp(&[ident("x")], &mut pos, false),
        Err(err(ErrorKind::UnexpectedToken, Some(0)))
    );
}

#[test]
fn comparators_follow_tuple_order() {
    let versions = [v(0, 0, 0), v(0, 0, 1), v(0, 1, 0), v(1, 0, 0), v(1, 2, 3), v(1, 2, 4)];
    for l in versions.iter() {
        assert!(is_condition_true(*l, Cmp::EQ, *l));
        for r in versions.iter() {
            let lt = (l.major, l.minor, l.patch) < (r.major, r.minor, r.patch);
            let gt = (l.major, l.minor, l.patch) > (r.major, r.minor, r.patch);
            assert_eq!(is_condition_true(*l, Cmp::EQ, *r), l == r);
            assert_eq!(is_condition_true(*l, Cmp::NE, *r), l != r);
            assert_eq!(is_condition_true(*l, Cmp::LT, *r), lt);
            assert_eq!(is_condition_true(*l, Cmp::GT, *r), gt);
            assert_eq!(is_condition_true(*l, Cmp::LE, *r), !gt);
            assert_eq!(is_condition_true(*l, Cmp::GE, *r), !lt);
            let n = [Cmp::EQ, Cmp::LT, Cmp::GT]
                .iter()
                .filter(|c| is_condition_true(*l, **c, *r))
                .count();
            assert_eq!(n, 1);
        }
    }
}

#[test]
fn at_least_version() {
    let args = [ident("x"), punct('>'), punct('='), lit("1.2"), punct('.'), lit("3")];
    assert!(kept(&args, v(1, 3, 0)));
    assert!(!kept(&args, v(1, 2, 2)));
    assert!(kept(&args, v(1, 2, 3)));
}

#[test]
fn lower_bound_on_either_side() {
    let after = [ident("x"), punct('>'), punct('='), lit("1.2"), punct('.'), lit("3")];
    let before = [lit("1.2"), punct('.'), lit("3"), punct('<'), punct('='), ident("x")];
    let b = Bound { version: v(1, 2, 3), cmp: Cmp::LE };
    assert_eq!(parse_condition(&before), Ok(Condition { left: Some(b), right: None }));
    let a = Bound { version: v(1, 2, 3), cmp: Cmp::GE };
    assert_eq!(parse_condition(&after), Ok(Condition { left: None, right: Some(a) }));
    for major in 0..3u64 {
        for minor in 0..4u64 {
            for patch in 0..5u64 {
                let cur = v(major, minor, patch);
                assert_eq!(kept(&before, cur), kept(&after, cur));
            }
        }
    }
}

#[test]
fn strict_range() {
    let args = [
        lit("1.0"), punct('.'), lit("0"), punct('<'), ident("x"), punct('<'), lit("2.0"),
        punct('.'), lit("0"),
    ];
    assert!(kept(&args, v(1, 5, 0)));
    assert!(!kept(&args, v(2, 0, 0)));
    assert!(!kept(&args, v(1, 0, 0)));
    let lower = Bound { version: v(1, 0, 0), cmp: Cmp::LT };
    let upper = Bound { version: v(2, 0, 0), cmp: Cmp::LT };
    let c = Condition { left: Some(lower), right: Some(upper) };
    assert_eq!(parse_condition(&args), Ok(c));
}

#[test]
fn inverted_range_accepts_nothing() {
    let args = [lit("2"), punct('<'), ident("x"), punct('<'), lit("1")];
    assert!(parse_condition(&args).is_ok());
    for major in 0..4u64 {
        assert!(!kept(&args, v(major, 0, 0)));
        assert!(!kept(&args, v(major, 5, 1)));
    }
}

#[test]
fn unknown_operator_discards() {
    let args = [ident("x"), punct('>'), punct('>'), punct('>'), lit("1.0"), punct('.'), lit("0")];
    assert_eq!(parse_condition(&args), Err(err(ErrorKind::UnexpectedToken, Some(2))));
    assert_eq!(
        rust_version(&args, Some(v(5, 0, 0)), "content"),
        Err(err(ErrorKind::UnexpectedToken, Some(2)))
    );
    let args = [ident("x"), punct('%'), lit("1")];
    assert_eq!(parse_condition(&args), Err(err(ErrorKind::UnknownComparator, Some(1))));
}

#[test]
fn empty_condition_discards() {
    assert_eq!(parse_condition(&[]), Err(err(ErrorKind::UnexpectedEndOfInput, None)));
    assert_eq!(
        rust_version(&[], Some(v(1, 0, 0)), "content"),
        Err(err(ErrorKind::UnexpectedEndOfInput, None))
    );
}

#[test]
fn condition_errors() {
    let end = ErrorKind::UnexpectedEndOfInput;
    let unexpected = ErrorKind::UnexpectedToken;
    assert_eq!(parse_condition(&[ident("x")]), Err(err(end, None)));
    assert_eq!(parse_condition(&[ident("x"), punct('>'), punct('=')]), Err(err(end, Some(0))));
    assert_eq!(parse_condition(&[ident("x"), punct('>'), ident("y")]), Err(err(unexpected, Some(2))));
    assert_eq!(parse_condition(&[punct('>')]), Err(err(unexpected, Some(0))));
    assert_eq!(parse_condition(&[lit("1")]), Err(err(end, None)));
    assert_eq!(parse_condition(&[lit("1"), punct('<')]), Err(err(end, None)));
    assert_eq!(parse_condition(&[ident("x"), punct('<')]), Err(err(end, Some(0))));
    assert_eq!(parse_condition(&[lit("1"), punct('<'), punct('=')]), Err(err(end, None)));
    assert_eq!(parse_condition(&[lit("1"), punct('<'), lit("2")]), Err(err(unexpected, Some(2))));
    let open_upper = [lit("1"), punct('<'), ident("x"), punct('<'), punct('=')];
    assert_eq!(parse_condition(&open_upper), Err(err(end, None)));
    let bad_upper = [lit("1"), punct('<'), ident("x"), punct('<'), ident("y")];
    assert_eq!(parse_condition(&bad_upper), Err(err(unexpected, Some(4))));
    let bad_major = [ident("x"), punct('<'), lit("a.1")];
    assert_eq!(
        parse_condition(&bad_major),
        Err(err(ErrorKind::MalformedVersionLiteral, Some(2)))
    );
}

#[test]
fn trailing_lone_comparator_needs_a_version() {
    let args = [lit("1.0"), punct('.'), lit("0"), punct('<'), ident("x"), punct('<')];
    let end = err(ErrorKind::UnexpectedEndOfInput, None);
    assert_eq!(parse_condition(&args), Err(end));
    assert_eq!(rust_version(&args, Some(v(1, 5, 0)), "content"), Err(end));
    let args = [lit("1"), punct('<'), ident("x"), punct('>')];
    assert_eq!(parse_condition(&args), Err(end));
}

#[test]
fn version_lookup_failure_discards() {
    let args = [ident("x"), punct('>'), lit("1")];
    assert_eq!(
        rust_version(&args, None, "content"),
        Err(err(ErrorKind::VersionLookupFailure, None))
    );
    // a bad condition is reported before a missing version
    assert_eq!(
        rust_version(&[], None, "content"),
        Err(err(ErrorKind::UnexpectedEndOfInput, None))
    );
}

#[test]
fn kept_content_is_unchanged() {
    let args = [ident("x"), punct('!'), punct('='), lit("1.0")];
    assert_eq!(rust_version(&args, Some(v(1, 1, 0)), vec![1, 2, 3]), Ok(Some(vec![1, 2, 3])));
    assert_eq!(rust_version(&args, Some(v(1, 0, 0)), vec![1, 2, 3]), Ok(None));
}

#[test]
fn condition_without_bounds_accepts_nothing() {
    let c = Condition { left: None, right: None };
    assert!(!c.is_satisfied_by(v(1, 0, 0)));
}

#[test]
fn groups_are_not_versions() {
    let unexpected = ErrorKind::UnexpectedToken;
    let group = Token::Group("(1.0)".to_string());
    let args = [ident("x"), punct('>'), group.clone()];
    assert_eq!(parse_condition(&args), Err(err(unexpected, Some(2))));
    let args = [ident("x"), group.clone(), lit("1")];
    assert_eq!(parse_condition(&args), Err(err(unexpected, Some(1))));
    assert_eq!(parse_condition(&[group.clone()]), Err(err(unexpected, Some(0))));
    let args = [ident("x"), punct('>'), lit("1.0"), punct('.'), group];
    assert_eq!(parse_condition(&args), Err(err(ErrorKind::MalformedVersionLiteral, Some(4))));
}

use audionorm::level::Level;

fn text(s: &str) -> String {
    Level::parse(s).unwrap().to_text()
}

#[test]
fn parses_decimals() {
    assert_eq!(
        Level::parse("-23.40"),
        Some(Level::Finite { negative: true, mantissa: 2340, scale: 2 })
    );
    assert_eq!(
        Level::parse("+.5"),
        Some(Level::Finite { negative: false, mantissa: 5, scale: 1 })
    );
    assert_eq!(
        Level::parse("7."),
        Some(Level::Finite { negative: false, mantissa: 7, scale: 0 })
    );
    assert_eq!(Level::parse("-inf"), Some(Level::Infinite { negative: true }));
    assert_eq!(Level::parse("Infinity"), Some(Level::Infinite { negative: false }));
    assert_eq!(Level::parse("-nan"), Some(Level::NotANumber));
}

#[test]
fn parses_exponents() {
    assert_eq!(
        Level::parse("1.5e1"),
        Some(Level::Finite { negative: false, mantissa: 15, scale: 0 })
    );
    assert_eq!(
        Level::parse("-2.5E-3"),
        Some(Level::Finite { negative: true, mantissa: 25, scale: 4 })
    );
    assert_eq!(
        Level::parse("7e+2"),
        Some(Level::Finite { negative: false, mantissa: 700, scale: 0 })
    );
    assert_eq!(text("1e-2"), "0.01");
    assert_eq!(text("0e400"), "0");
}

#[test]
fn refuses_other_text() {
    for s in [
        "", "-", ".", "1.2.3", "e3", "1e", "1e+", "1e3.5", " 1", "1 ", "infinit", "12a",
        "99999999999999999999", "1e20", "1e9223372036854775808",
    ] {
        assert_eq!(Level::parse(s), None, "{s}");
    }
}

#[test]
fn writes_shortest_text() {
    assert_eq!(text("-23.40"), "-23.4");
    assert_eq!(text("7.0"), "7");
    assert_eq!(text("-2.0"), "-2");
    assert_eq!(text("0.0"), "0");
    assert_eq!(text("0.05"), "0.05");
    assert_eq!(text("120"), "120");
    assert_eq!(text("-0"), "-0");
    assert_eq!(text("-INF"), "-inf");
    assert_eq!(text("nan"), "NaN");
}

#[test]
fn subtracts_exactly() {
    let d = |a: &str, b: &str| {
        Level::parse(a)
            .unwrap()
            .minus(&Level::parse(b).unwrap())
            .map(|l| l.to_text())
    };
    assert_eq!(d("-23.0", "-3.1"), Some("-19.9".to_string()));
    assert_eq!(d("-1", "-1.00"), Some("0".to_string()));
    assert_eq!(d("0.5", "-0.25"), Some("0.75".to_string()));
    assert_eq!(d("-1", "-inf"), Some("inf".to_string()));
    assert_eq!(d("inf", "inf"), Some("NaN".to_string()));
    assert_eq!(d("18446744073709551615", "-1"), None);
}

use fang::pattern::{is_match, replace_all, PatternError};
use fang::{defang, refang};

#[test]
fn round_trip_gives_back_lines_that_did_not_look_defanged() {
    for plain in [
        "http://example.com",
        "https://example.com/a.b?c=d",
        "example@example.com",
        "192.168.1.1",
        "2001:0db8:85a3:0000:0000:8a2e:0370:7334",
        "2001:db8::1",
        "::ffff:192.168.1.1",
        "Contact: abuse@corp.com, C2: 5.5.5.5",
        "Ünïcödé.example.com",
        "C:/Users/test/file.txt",
        "[.:@]",
        "HTTP://EXAMPLE.COM",
        "foo::bar@example.com",
        "",
    ] {
        assert_eq!(refang(&defang(plain)), plain, "round trip of {:?}", plain);
    }
}

#[test]
fn round_trip_keeps_the_case_of_schemes() {
    assert_eq!(defang("HTTP://EXAMPLE.COM"), "HXXP[://]EXAMPLE[.]COM");
    assert_eq!(refang(&defang("HTTP://EXAMPLE.COM")), "HTTP://EXAMPLE.COM");
    assert_eq!(refang(&defang("HtTpS://x.y")), "HtTpS://x.y");
    assert_eq!(refang(&defang("http://[::1]/x")), "http://[::1]/x");
}

#[test]
fn refang_commutes_with_ascii_case() {
    for input in ["HxXp[://]Ab[.]Cd", "hxxps[://]e[@]f[:]g", "Ünï[.]cödé", "plain Text"] {
        assert_eq!(refang(&input.to_ascii_uppercase()), refang(input).to_ascii_uppercase());
        assert_eq!(refang(&input.to_ascii_lowercase()), refang(input).to_ascii_lowercase());
    }
}

#[test]
fn refang_leaves_text_that_was_never_defanged() {
    assert_eq!(refang("a.b:c@d http://x [x] hxp"), "a.b:c@d http://x [x] hxp");
}

#[test]
fn refang_peels_exactly_one_layer_of_each_bracket() {
    assert_eq!(refang("[[.]][[:]][[@]][[://]]"), "[.][:][@][://]");
    assert_eq!(refang(&defang("x[.]y")), "x[.]y");
}

#[test]
fn defang_leaves_text_with_nothing_to_defang() {
    assert_eq!(defang("no dots here, just words"), "no dots here, just words");
    assert_eq!(defang("HTTS and htp are not schemes"), "HTTS and htp are not schemes");
}

#[test]
fn a_pattern_that_does_not_compile_is_an_error() {
    assert_eq!(is_match("(", "x"), Err(PatternError::Rejected));
    assert_eq!(replace_all("[", "x", "y"), Err(PatternError::Rejected));
    assert_eq!(is_match("a+", "caab"), Ok(true));
    assert_eq!(replace_all("a+", "caab", "-"), Ok("c-b".to_string()));
}

use fang::rfang::{refang, replace_preserving_ascii_case};

#[test]
fn test_refang() {
    assert_eq!(refang("hxxp[://]example[.]com"), "http://example.com");
    assert_eq!(refang("hxxps[://]example[.]com"), "https://example.com");
    assert_eq!(refang("example[@]example[.]com"), "example@example.com");
    assert_eq!(refang("2001[:]0db8[:]85a3[:]0000[:]0000[:]8a2e[:]0370[:]7334"), "2001:0db8:85a3:0000:0000:8a2e:0370:7334");
    assert_eq!(refang("192[.]168[.]1[.]1"), "192.168.1.1")
}

/// Matched regardless of case, rewritten in the case it arrived in, so a
/// defanged "HTTP://..." comes back out as "HTTP://..." and not "http://".
#[test]
fn test_refang_is_case_insensitive() {
    assert_eq!(refang("HXXP[://]EXAMPLE[.]COM"), "HTTP://EXAMPLE.COM");
    assert_eq!(refang("Hxxps[://]Example[.]Com"), "Https://Example.Com");
    assert_eq!(refang("HxXpS[://]MiXeD[.]CoM"), "HtTpS://MiXeD.CoM");
}

#[test]
fn test_refang_leaves_multibyte_input_intact() {
    assert_eq!(refang("Ünïcödé[.]example[.]com"), "Ünïcödé.example.com");
}

#[test]
fn test_refang_replaces_every_occurrence() {
    assert_eq!(refang("hxxp[://]a[.]b hxxp[://]c[.]d"), "http://a.b http://c.d");
    assert_eq!(refang("[.][:][@][://]"), ".:@://");
}

/// Defanging twice nests the brackets; refanging peels off one layer.
#[test]
fn test_refang_unwraps_a_single_layer() {
    assert_eq!(refang("hxxp[[://]]already[[.]]defanged"), "http[://]already[.]defanged");
}

#[test]
fn test_refang_passes_through_uneventful_input() {
    assert_eq!(refang(""), "");
    assert_eq!(refang("nothing to refang"), "nothing to refang");
}

#[test]
fn test_replace_preserving_ascii_case() {
    assert_eq!(replace_preserving_ascii_case("hxxp", "hxxp", "http"), "http");
    assert_eq!(replace_preserving_ascii_case("HXXP", "hxxp", "http"), "HTTP");
    assert_eq!(replace_preserving_ascii_case("Hxxp", "hxxp", "http"), "Http");
    assert_eq!(replace_preserving_ascii_case("a hxxp b HXXP c", "hxxp", "http"), "a http b HTTP c");
    assert_eq!(replace_preserving_ascii_case("", "hxxp", "http"), "");
    assert_eq!(replace_preserving_ascii_case("hxx", "hxxp", "http"), "hxx");
    // Offsets land on character boundaries when a match sits between
    // multibyte characters.
    assert_eq!(replace_preserving_ascii_case("é!hxxp!é", "hxxp", "http"), "é!http!é");
}

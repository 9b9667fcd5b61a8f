use fang::dfang::{defang, has_email, has_ipv4, has_ipv6, replace_ignore_ascii_case};

#[test]
fn test_defang() {
    assert_eq!(defang("http://example.com"), "hxxp[://]example[.]com");
    assert_eq!(defang("https://example.com"), "hxxps[://]example[.]com");
    assert_eq!(defang("example@example.com"), "example[@]example[.]com");
    assert_eq!(defang("2001:0db8:85a3:0000:0000:8a2e:0370:7334"), "2001[:]0db8[:]85a3[:]0000[:]0000[:]8a2e[:]0370[:]7334");
    assert_eq!(defang("192.168.1.1"), "192[.]168[.]1[.]1")
}

#[test]
fn test_ipv4_matching() {
    assert!(has_ipv4("192.168.1.1"));
    assert!(has_ipv4("visit 192.168.1.1 now"));
    assert!(has_ipv4("255.255.255.255"));
    assert!(has_ipv4("01.02.03.04"));
    // Unanchored, so an address can start part way through a run of digits:
    // "999.1.1.1" matches because "99.1.1.1" does.
    assert!(has_ipv4("2550.1.1.1"));
    assert!(has_ipv4("999.1.1.1"));
    assert!(!has_ipv4("1.2550.1.1"));
    assert!(!has_ipv4("1.2.3"));
    assert!(!has_ipv4("example.com"));
    // No such rescue when every group is over 255 and three digits wide,
    // since a shorter octet would no longer end at a separator.
    assert!(!has_ipv4("256.256.256.256"));
    assert!(!has_ipv4("300.400.500.600"));
    assert!(!has_ipv4("999.999.999.999"));
}

#[test]
fn test_ipv6_matching() {
    assert!(has_ipv6("::"));
    assert!(has_ipv6("::1"));
    assert!(has_ipv6("fe80::1%eth0"));
    assert!(has_ipv6("1:2:3:4:5:6:7:8"));
    assert!(has_ipv6("1:2:3:4:5:6:7:8:9"));
    assert!(has_ipv6("12345::"));
    assert!(!has_ipv6("key: value"));
    assert!(!has_ipv6("C:/Users/test/file.txt"));
    assert!(!has_ipv6("1:2:3:4:5:6:7"));
}

#[test]
fn test_email_matching() {
    assert!(has_email("example@example.com"));
    assert!(has_email("mailto:user@example.com"));
    assert!(has_email("Example.User+tag@Sub.Example.CO.UK"));
    assert!(!has_email("user@localhost"));
    assert!(!has_email("@example.com"));
    // Labels may not start or end with a hyphen.
    assert!(!has_email("user@b-.com"));
    assert!(!has_email("user@-b.com"));
}

#[test]
fn test_defang_leaves_multibyte_input_intact() {
    assert_eq!(defang("Ünïcödé.example.com"), "Ünïcödé[.]example[.]com");
    assert_eq!(defang("日本.example.com"), "日本[.]example[.]com");
}

#[test]
fn test_defang_passes_through_uneventful_input() {
    assert_eq!(defang(""), "");
    assert_eq!(defang("nothing to defang"), "nothing to defang");
}

#[test]
fn test_replace_ignore_ascii_case() {
    assert_eq!(replace_ignore_ascii_case("http", "http", "hxxp"), "hxxp");
    assert_eq!(replace_ignore_ascii_case("HTTP", "http", "hxxp"), "hxxp");
    assert_eq!(replace_ignore_ascii_case("a http b HTTP c", "http", "hxxp"), "a hxxp b hxxp c");
    assert_eq!(replace_ignore_ascii_case("", "http", "hxxp"), "");
    assert_eq!(replace_ignore_ascii_case("htt", "http", "hxxp"), "htt");
    // Offsets land on character boundaries when a match sits between
    // multibyte characters.
    assert_eq!(replace_ignore_ascii_case("é!http!é", "http", "hxxp"), "é!hxxp!é");
}

#[test]
fn defang_keeps_the_case_of_schemes() {
    assert_eq!(defang("HTTP://EXAMPLE.COM"), "HXXP[://]EXAMPLE[.]COM");
    assert_eq!(defang("Http://Example.Com"), "Hxxp[://]Example[.]Com");
    assert_eq!(defang("HtTpS://MiXeD.CoM"), "HxXpS[://]MiXeD[.]CoM");
}

#[test]
fn defang_treats_every_kind_on_a_line() {
    assert_eq!(defang("::ffff:192.168.1.1"), "[:][:]ffff[:]192[.]168[.]1[.]1");
    assert_eq!(defang("a:b:c:d:e:f:1.2.3.4"), "a:b:c:d:e:f:1[.]2[.]3[.]4");
    assert_eq!(defang("http://192.168.1.1/path"), "hxxp[://]192[.]168[.]1[.]1/path");
    assert_eq!(defang("user@192.168.1.1"), "user[@]192[.]168[.]1[.]1");
    assert_eq!(defang("foo::bar@example.com"), "foo[:][:]bar[@]example[.]com");
    assert_eq!(
        defang("1:2:3:4:5:6:7:8@example.com"),
        "1[:]2[:]3[:]4[:]5[:]6[:]7[:]8[@]example[.]com"
    );
    // Colons go first on a line holding an IPv6 form.
    assert_eq!(defang("http://[::1]/x"), "hxxp[:]//[[:][:]1]/x");
}

#[test]
fn defang_breaks_every_scheme() {
    assert_eq!(defang("httphttp://a.com"), "hxxphxxp[://]a[.]com");
    assert_eq!(defang("http://a.com/redir?u=http://b.com"), "hxxp[://]a[.]com/redir?u=hxxp[://]b[.]com");
}

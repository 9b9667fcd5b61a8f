use fang::defangify::defangify;
use fang::dfang::{ioc_kind, IocKind};
use fang::refangify::refangify;

#[test]
fn ioc_kind_takes_the_first_kind_found() {
    assert_eq!(ioc_kind(true, true, true), IocKind::Ipv4);
    assert_eq!(ioc_kind(false, true, true), IocKind::Ipv6);
    assert_eq!(ioc_kind(false, false, true), IocKind::Email);
    assert_eq!(ioc_kind(false, false, false), IocKind::Url);
}

#[test]
fn defangify_handles_each_kind() {
    assert_eq!(defangify("192.168.1.1").unwrap(), "192[.]168[.]1[.]1");
    assert_eq!(defangify("fe80::1").unwrap(), "fe80[:][:]1");
    assert_eq!(defangify("example@example.com").unwrap(), "example[@]example[.]com");
    assert_eq!(defangify("HTTP://Example.com").unwrap(), "hxxp[://]Example[.]com");
    assert_eq!(defangify("nothing").unwrap(), "nothing");
}

#[test]
fn defangify_ipv4_outranks_the_rest() {
    assert_eq!(defangify("http://10.0.0.1/x").unwrap(), "http://10[.]0[.]0[.]1/x");
}

#[test]
fn refangify_undoes_each_token() {
    assert_eq!(refangify("hxxp[://]example[.]com").unwrap(), "http://example.com");
    assert_eq!(refangify("HXXP[://]a[@]b[:]c").unwrap(), "http://a@b:c");
    assert_eq!(refangify("").unwrap(), "");
}

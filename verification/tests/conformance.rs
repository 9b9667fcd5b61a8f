//! One corpus of defang/refang pairs, read in the refang direction.

use fang::refang;

/// (plain, defanged, what refang gives back when it isn't `plain`).
const CASES: &[(&str, &str, Option<&str>)] = &[
    ("http://example.com", "hxxp[://]example[.]com", None),
    ("https://example.com", "hxxps[://]example[.]com", None),
    ("HTTP://EXAMPLE.COM", "HXXP[://]EXAMPLE[.]COM", None),
    ("HtTpS://MiXeD.CoM", "HxXpS[://]MiXeD[.]CoM", None),
    ("example@example.com", "example[@]example[.]com", None),
    ("192.168.1.1", "192[.]168[.]1[.]1", None),
    (
        "2001:0db8:85a3:0000:0000:8a2e:0370:7334",
        "2001[:]0db8[:]85a3[:]0000[:]0000[:]8a2e[:]0370[:]7334",
        None,
    ),
    ("2001:db8::1", "2001[:]db8[:][:]1", None),
    ("::ffff:192.168.1.1", "[:][:]ffff[:]192[.]168[.]1[.]1", None),
    ("http://192.168.1.1/malware.exe", "hxxp[://]192[.]168[.]1[.]1/malware[.]exe", None),
    ("Contact: abuse@corp.com, C2: 5.5.5.5", "Contact: abuse[@]corp[.]com, C2: 5[.]5[.]5[.]5", None),
    ("Ünïcödé.example.com", "Ünïcödé[.]example[.]com", None),
    ("key: value", "key: value", None),
    ("C:/Users/test/file.txt", "C:/Users/test/file[.]txt", None),
    ("seen 10.0.0.5 at 12:30:45", "seen 10[.]0[.]0[.]5 at 12:30:45", None),
    ("nothing to defang", "nothing to defang", None),
    ("", "", None),
    ("hxxp[://]already[.]defanged", "hxxp[[://]]already[[.]]defanged", Some("http[://]already[.]defanged")),
    ("hxxp://evil.com", "hxxp[://]evil[.]com", Some("http://evil.com")),
    ("a[:]b", "a[:]b", Some("a:b")),
];

#[test]
fn refang_reads_back_every_token_defang_writes() {
    for (plain, defanged, recovered) in CASES {
        assert_eq!(refang(defanged), recovered.unwrap_or(plain), "refanging {:?}", defanged);
    }
}

#[test]
fn defang_writes_the_tokens_the_corpus_expects() {
    for (plain, defanged, _) in CASES {
        assert_eq!(fang::defang(plain), *defanged, "defanging {:?}", plain);
    }
}

/// Everything that doesn't already look defanged makes the round trip intact.
#[test]
fn the_round_trip_is_lossless_except_where_the_corpus_says_otherwise() {
    for (plain, _, _) in CASES.iter().filter(|c| c.2.is_none()) {
        assert_eq!(refang(&fang::defang(plain)), *plain);
    }
}

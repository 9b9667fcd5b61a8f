# fang

Defanging and refanging of IOCs: `defang` makes URLs, email and IP addresses
unclickable (`http://example.com` becomes `hxxp[://]example[.]com`), `refang`
gives them their teeth back. Both are verified with Verus against
specifications over character sequences.

- `src/text.rs`: ASCII character classes and the leftmost, non-overlapping
  replacement (`replace_spec`) that everything is built from.
- `src/dfang.rs`: recognising IPv4, IPv6 and email addresses, and `defang`,
  which defangs every IOC on a line: dots, `http` (kept in its case, so
  `HTTP://` gives `HXXP[://]`) and `://` always, colons when the line holds an
  IPv6 form, at signs when it holds an email address.
- `src/rfang.rs`: `refang`.
- `src/pattern.rs`, `src/defangify.rs`, `src/refangify.rs`: the same
  transformations done with the `regex` crate.
- `src/lemmas.rs`, `src/laws.rs`: facts about replacement, and the laws that
  relate the two directions (refanging undoes defanging, peels one layer of
  brackets, leaves plain text alone, commutes with ASCII case).
- `app/main.rs`: the command-line tools.

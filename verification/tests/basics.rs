use vk_dev::devcontainer::{Config, Customizations, OneOrMany};
use vk_dev::digest::{sha256_hex, to_hex};
use vk_dev::entries::{get, put_entry, take_out};
use vk_dev::envfile::parse_env_file;
use vk_dev::path::{lexical_join, lexical_normalize, HostPath};
use vk_dev::redact::{scrub, scrub_json, scrub_path, REDACTED};
use vk_dev::render::{arg, comment, utf8};
use vk_dev::shell::quote_word;
use vk_dev::text::{
    cut_at, cut_at_last, holds, is_before, join, lines, pad, parse_u64, parse_upto, quoted_list, replace, shorten,
    split, to_decimal, trim, words,
};
use vk_dev::translate::translate;
use vk_dev::units::{fmt_bytes, fmt_uptime, parse_duration};
use vk_dev::value::{
    as_json, from_json_value, from_toml, json_pretty, json_text, parse_json, parse_toml, sort_json, to_json_value,
    to_toml, toml_text, Json, Toml,
};
use vk_dev::vars::{env_vars, Vars};

fn p(s: &str) -> HostPath {
    HostPath::from_text(s)
}

fn all(v: &[&str]) -> Vec<String> {
    v.iter().map(|s| s.to_string()).collect()
}

#[test]
fn a_digest_is_lower_case_hexadecimal() {
    assert_eq!(to_hex(&vec![0, 15, 255]), "000fff");
    assert_eq!(sha256_hex(b"abc"), "ba7816bf8f01cfea414140de5dae2223b00361a396177a9cb410ff61f20015ad");
    assert_eq!(sha256_hex(b""), "e3b0c44298fc1c149afbf4c8996fb92427ae41e4649b934ca495991b7852b855");
}

#[test]
fn a_word_is_quoted_where_a_shell_would_split_or_expand_it() {
    assert_eq!(quote_word("plain-1.2/x"), "plain-1.2/x");
    assert_eq!(quote_word(""), "''");
    assert_eq!(quote_word("a b"), "'a b'");
    assert_eq!(quote_word("it's"), "'it'\\''s'");
    assert_eq!(quote_word("$(rm)"), "'$(rm)'");
    assert_eq!(arg("--env", "A=b c"), "  --env 'A=b c' \\\n");
}

#[test]
fn paths_fold_by_name_alone() {
    let fold = |s: &str| lexical_normalize(&p(s)).display();
    assert_eq!(fold("/a/./b//../c/"), "/a/c");
    assert_eq!(fold("/.."), "/");
    assert_eq!(fold("../../a"), "../../a");
    assert_eq!(fold(&fold("x/../../y/./z")), fold("x/../../y/./z"));
    assert_eq!(lexical_join(&p("/a/b"), &p("../c")).display(), "/a/c");
    assert_eq!(p("/a").join(&p("/b")).display(), "/b");
    assert_eq!(p("/a/b").strip_prefix(&p("/a")).unwrap().display(), "b");
    assert!(p("/ab").strip_prefix(&p("/a")).is_none());
    assert!(p("/a/b").starts_with(&p("/a/")) && !p("/ab").starts_with(&p("/a")));
    let up: Vec<String> = p("/a/b").ancestors().iter().map(|x| x.display()).collect();
    assert_eq!(up, ["/a/b", "/a", "/"]);
    assert_eq!(p("/a/b").file_name().unwrap(), b"b");
    assert!(p("/").parent().is_none());
}

#[test]
fn a_part_of_a_path_keeps_its_own_bytes() {
    let rest = |a: &str, b: &str| p(a).strip_prefix(&p(b)).map(|x| x.display());
    assert_eq!(rest("/w/a//c.yaml", "/w").as_deref(), Some("a//c.yaml"));
    assert_eq!(rest("/w//./a/./c/.//", "/w/").as_deref(), Some("a/./c"));
    assert_eq!(rest("//a", "/").as_deref(), Some("a"));
    assert_eq!(rest("/w/./", "/w").as_deref(), Some(""));
    assert_eq!(rest("./a//b/", "").as_deref(), Some("./a//b"));
    assert_eq!(rest("//a/", "").as_deref(), Some("//a"));
    assert_eq!(rest("./a/b", "./a").as_deref(), Some("b"));
    let up = |a: &str| p(a).parent().map(|x| x.display());
    assert_eq!(up("/a//b/./c/").as_deref(), Some("/a//b"));
    assert_eq!(up("//a").as_deref(), Some("/"));
    assert_eq!(up("./a").as_deref(), Some("."));
    assert_eq!(up("a").as_deref(), Some(""));
    assert_eq!(up("a/..").as_deref(), Some("a"));
    assert_eq!((up("/"), up("///."), up("")), (None, None, None));
    for (a, b) in [("/w/a//c.yaml", "/w"), ("//x/./y/", "/x"), ("a/./b//c", "a")] {
        let std = std::path::Path::new(a);
        assert_eq!(rest(a, b).unwrap(), std.strip_prefix(b).unwrap().to_str().unwrap());
        assert_eq!(up(a).unwrap(), std.parent().unwrap().to_str().unwrap());
    }
}

#[test]
fn a_path_that_is_no_text_is_shown_lossily_and_refused_as_text() {
    let odd = HostPath { bytes: b"/a/\xff".to_vec() };
    assert_eq!(odd.display(), "/a/\u{fffd}");
    assert!(odd.to_str().is_none());
    assert_eq!(p("/é").to_str().as_deref(), Some("/é"));
    assert!(utf8(&odd, "the workspace").is_err());
    assert_eq!(utf8(&p("/w"), "the workspace").unwrap(), "/w");
}

#[test]
fn a_comment_stays_a_comment() {
    for text in ["one\ntwo", "rm -rf /\r\nx", "a"] {
        assert!(comment(text).lines().all(|l| l.starts_with('#')), "{text:?}");
    }
}

#[test]
fn text_is_cut_and_joined() {
    assert_eq!(split("a,b,,c", ','), ["a", "b", "", "c"]);
    assert_eq!(split("", ','), [""]);
    assert_eq!(cut_at("k=v=w", '='), Some(("k".into(), "v=w".into())));
    assert_eq!(cut_at_last("k=v=w", '='), Some(("k=v".into(), "w".into())));
    assert_eq!(cut_at("kv", '='), None);
    assert_eq!(join(&all(&["a", "b"]), ", "), "a, b");
    assert_eq!(replace("aXbXX", "X", "--"), "a--b----");
    assert_eq!(trim("\u{a0} x \n"), "x");
    assert_eq!(words("  a  b\tc "), ["a", "b", "c"]);
    assert_eq!(lines("a\r\nb\n\nc"), ["a", "b", "", "c"]);
    assert_eq!(pad("é", 3), "é  ");
    assert_eq!(shorten("abcdef", 3), "abc");
    assert!(holds("abc", "bc") && holds("abc", "") && !holds("abc", "cb"));
    assert!(is_before("a", "b") && is_before("a", "aa") && !is_before("b", "a") && !is_before("a", "a"));
    assert_eq!(quoted_list(&all(&["a", "b\"c\n"])), "[\"a\", \"b\\\"c\\n\"]");
}

#[test]
fn numbers_are_read_in_decimal() {
    assert_eq!(to_decimal(0), "0");
    assert_eq!(to_decimal(18446744073709551615), "18446744073709551615");
    assert_eq!(parse_u64("18446744073709551615"), Some(18446744073709551615));
    assert_eq!(parse_u64("18446744073709551616"), None);
    assert_eq!(parse_u64(""), None);
    assert_eq!(parse_upto("70000", 65535), None);
    assert_eq!(parse_upto("65535", 65535), Some(65535));
}

#[test]
fn sizes_and_times_are_shown_in_their_units() {
    assert_eq!(fmt_bytes(1023), "1023 B");
    assert_eq!(fmt_bytes(2048), "2 KiB");
    assert_eq!(fmt_uptime(7200), "2h0m");
    // one too long to count is as long as can be counted
    assert_eq!(parse_duration("18446744073709551615h").unwrap(), 18446744073709551615);
    assert!(parse_duration("18446744073709551616").is_err());
}

#[test]
fn a_map_keeps_one_value_for_each_name_in_order() {
    let mut m: Vec<(String, String)> = vec![];
    for (k, v) in [("b", "1"), ("a", "2"), ("b", "3")] {
        put_entry(&mut m, k.to_string(), v.to_string());
    }
    assert_eq!(m, vec![("a".to_string(), "2".to_string()), ("b".to_string(), "3".to_string())]);
    assert_eq!(get(&m, "b").map(|s| s.as_str()), Some("3"));
    assert_eq!(take_out(&mut m, "a").as_deref(), Some("2"));
    assert_eq!(take_out(&mut m, "a"), None);
}

#[test]
fn a_json_value_is_read_and_written() {
    let v = parse_json(r#"{"b": [1, -2, 1.5], "a": {"y": null, "x": "é\n"}}"#).unwrap();
    assert_eq!(json_text(&v), "{\"b\":[1,-2,1.5],\"a\":{\"y\":null,\"x\":\"é\\n\"}}");
    assert_eq!(json_text(&sort_json(&v)), "{\"a\":{\"x\":\"é\\n\",\"y\":null},\"b\":[1,-2,1.5]}");
    assert_eq!(json_text(&from_json_value(to_json_value(&v))), json_text(&v));
    let one = Json::Object(vec![("k".into(), Json::Bool(true))]);
    assert_eq!(json_pretty(&one), "{\n  \"k\": true\n}");
    assert!(parse_json("{").is_err());
}

#[test]
fn a_configuration_value_is_read_and_written() {
    let t = parse_toml("b = 1\na = [\"x\", true, 1.5]\nd = 2024-01-02\n").unwrap();
    assert_eq!(t[0].0, "a");
    assert_eq!(toml_text(&t[0].1).unwrap(), "[\"x\", true, 1.5]");
    assert!(matches!(t[2].1, Toml::Date(toml::Value::Datetime(_), None)));
    assert_eq!(toml_text(&from_toml(to_toml(&t[0].1))).unwrap(), "[\"x\", true, 1.5]");
    assert_eq!(json_text(&as_json(&t[0].1).unwrap()), "[\"x\",true,1.5]");
    assert!(parse_toml("a = 1\na = 2\n").is_err());
    assert!(matches!(t[1].1, Toml::Integer(1)));
}

#[test]
fn a_secret_is_taken_out_of_whatever_holds_it() {
    let secrets = all(&["hunter2", "hunter2-long"]);
    let out = scrub(&secrets, "x=hunter2-long;y=hunter2");
    assert!(!out.contains("hunter2"), "{out}");
    assert_eq!(scrub(&all(&["s3"]), "a s3 b"), "a <redacted: --show-secrets prints it> b");
    assert_eq!(scrub(&secrets, "nothing"), "nothing");
    assert!(!scrub_path(&secrets, &p("/home/hunter2/x")).display().contains("hunter2"));
    let v = parse_json(r#"{"k": ["hunter2", 1]}"#).unwrap();
    assert!(!json_text(&scrub_json(&secrets, &v)).contains("hunter2"));
}

#[test]
fn quoted_values_are_taken_as_they_stand() {
    let one = |s: &str| parse_env_file(s).unwrap().remove(0).1;
    assert_eq!(one("A='x # y \\ \"z\"'\n"), "x # y \\ \"z\"");
    assert_eq!(one("A=\"x # y 'z'\"\n"), "x # y 'z'");
    assert_eq!(one("A=1\nA=2\n"), "2");
}

fn vars() -> Vars {
    Vars {
        workspace: p("/w/repo"),
        state: p("/s"),
        home: Some(p("/home/me")),
        uid: 1000,
        gid: 100,
        env: vec![("TOKEN".into(), Some("abc".into())), ("EMPTY".into(), Some(String::new()))],
        env_file: vec![("FILE".into(), "def".into())],
        missing: vec![],
        secrets: vec![],
    }
}

#[test]
fn variables_are_replaced_and_their_host_values_remembered() {
    let mut v = vars();
    let x = v.expand("plain $text").unwrap();
    assert_eq!((x.value.as_str(), x.sensitive), ("plain $text", false));
    let x = v.expand("${workspace}:${state}:${HOME}:${VK_UID}:${VK_GID}").unwrap();
    assert_eq!((x.value.as_str(), x.sensitive), ("/w/repo:/s:/home/me:1000:100", false));
    assert!(v.secrets.is_empty());
    let x = v.expand("a-${localEnv:TOKEN}-${localEnv:FILE}").unwrap();
    assert_eq!((x.value.as_str(), x.sensitive), ("a-abc-def", true));
    let kept: Vec<&str> = v.secrets.iter().map(|s| s.0.as_str()).collect();
    assert_eq!(kept, ["abc", "def"]);
    v.expand("${localEnv:NOT_SET}").unwrap();
    assert_eq!(v.missing.len(), 1);
    assert!(v.expand("${nonsense}").is_err());
    let set = env_vars(&vec![("A".into(), "${localEnv:TOKEN}".into())], &mut v).unwrap();
    assert_eq!((set[0].name.as_str(), set[0].value.as_str(), set[0].sensitive), ("A", "abc", true));
}

#[test]
fn every_key_of_an_import_is_carried_or_reported() {
    let mut c = Config { service: Some("s".into()), ..Config::default() };
    c.docker_compose_file = Some(OneOrMany::One("c.yaml".into()));
    c.customizations = Some(Customizations {
        virtkit: None,
        others: vec![("jetbrains".into(), Json::Object(vec![]))],
    });
    c.privileged = true;
    c.cap_add = true;
    c.wait_for = true;
    let d = translate(&c, &p("/w/.devcontainer.json"), &p("/w"), &None);
    let report = d.report();
    for key in ["compose", "service", "privileged", "capAdd", "waitFor", "customizations.jetbrains"] {
        assert!(d.items.iter().any(|i| i.key.starts_with(key)), "{key} in:\n{report}");
    }
}

#[test]
fn a_value_no_text_can_spell_is_not_written() {
    let never = toml::Value::Datetime(toml::value::Datetime { date: None, time: None, offset: None });
    assert!(toml_text(&Toml::Array(vec![Toml::Date(never, None)])).is_none());
    let lowest = toml::Value::Datetime(toml::value::Datetime {
        date: Some(toml::value::Date { year: 2024, month: 1, day: 2 }),
        time: Some(toml::value::Time { hour: 1, minute: 2, second: 3, nanosecond: 0 }),
        offset: Some(toml::value::Offset::Custom { minutes: i16::MIN }),
    });
    let v = from_toml(lowest);
    assert!(matches!(v, Toml::Date(_, Some(i16::MIN))));
    assert!(toml_text(&v).is_none() && as_json(&v).is_none());
    let t = parse_toml("a = [2024-01-02]\nb = [1979-05-27T00:32:00-07:00]\n").unwrap();
    assert_eq!(toml_text(&t[1].1).unwrap(), "[1979-05-27T00:32:00-07:00]");
    assert_eq!(toml_text(&t[0].1).unwrap(), "[2024-01-02]");
    assert_eq!(toml_text(&Toml::Text("a b".into())).unwrap(), "\"a b\"");
    assert_eq!(toml_text(&Toml::Text("a\"b".into())).unwrap(), "'a\"b'");
}

#[test]
fn an_empty_secret_is_taken_out_between_all_characters() {
    assert_eq!(replace("ab", "", "-"), "-a-b-");
    assert_eq!(replace("", "", "-"), "-");
    assert_eq!(scrub(&all(&[""]), ""), REDACTED);
    assert_eq!(scrub(&all(&[""]), "x"), format!("{REDACTED}x{REDACTED}"));
}

#[test]
fn a_comment_behind_nothing_leaves_an_empty_value() {
    let one = |s: &str| parse_env_file(s).unwrap().remove(0).1;
    assert_eq!(one("A= # c\n"), "");
    assert_eq!(one("A=\t# c\n"), "# c", "a comment is set off by a space");
    assert_eq!(one("A=#c\n"), "#c");
    assert_eq!(one("A= x # c\n"), "x");
    assert_eq!(one("A= 'x # c'\n"), "x # c");
}

#[test]
fn paths_are_joined_in_turn() {
    let fold = |a: &str, b: &str| lexical_join(&p(a), &p(b)).display();
    assert_eq!(fold("/w", "a/../b/c"), "/w/b/c");
    assert_eq!(lexical_join(&lexical_join(&p("/w"), &p("a/..")), &p("b/c")).display(), "/w/b/c");
    assert_eq!(fold("/w", "../../x"), "/x");
}

#[test]
fn an_expansion_that_fails_keeps_what_it_met() {
    let mut v = vars();
    assert!(v.expand("${localEnv:TOKEN}-${localEnv:GONE}-${nonsense}-${localEnv:FILE}").is_err());
    let kept: Vec<&str> = v.secrets.iter().map(|s| s.0.as_str()).collect();
    assert_eq!(kept, ["abc"]);
    assert_eq!(v.missing.len(), 1);
    v.expand("${localEnv:GONE}").unwrap();
    v.expand("${localEnv:OTHER}${localEnv:GONE}").unwrap();
    assert_eq!(v.missing.len(), 2, "one message per variable");
}

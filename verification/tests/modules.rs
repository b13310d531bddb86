use drt::modules::{brackets, discover, module_extension, name_for_path, program_load, quote, refuse_name, Modules};
use drt::paths::display;
use drt::tree::{dir, Node};

fn place(into: &mut Vec<(String, Node)>, path: &str, text: &str) {
    match path.split_once('/') {
        None => into.push((path.to_string(), Node::File(text.as_bytes().to_vec()))),
        Some((head, rest)) => {
            let at = into.iter().position(|(n, _)| n == head);
            let mut inner = match at {
                Some(i) => match into.remove(i).1 {
                    Node::Dir(v) => v,
                    _ => panic!("{head} is a file"),
                },
                None => Vec::new(),
            };
            place(&mut inner, rest, text);
            into.push((head.to_string(), dir(inner)));
        }
    }
}

fn node(files: &[(&str, &str)]) -> Node {
    let mut all = Vec::new();
    for (path, text) in files {
        place(&mut all, path.strip_prefix("/r/n/").unwrap(), text);
    }
    dir(all)
}

const ENTRY: &str = "/r/n/entry.dlua";

#[test]
fn a_module_beside_the_entry_is_found_and_the_entry_is_not() {
    let fs = node(&[
        ("/r/n/entry.dlua", "print('hi')\n"),
        ("/r/n/enc.dlua", "return {}\n"),
        ("/r/n/util/deep.dlua", "return {}\n"),
    ]);
    let found = discover(ENTRY, Some(&fs)).unwrap();
    assert_eq!(found.names(), vec!["enc", "util.deep"]);
}

#[test]
fn the_order_is_the_name_order_and_not_the_directory_order() {
    let fs = node(&[
        ("/r/n/entry.dlua", ""),
        ("/r/n/zebra.dlua", "return {}\n"),
        ("/r/n/alpha.dlua", "return {}\n"),
        ("/r/n/m/beta.dlua", "return {}\n"),
    ]);
    assert_eq!(
        discover(ENTRY, Some(&fs)).unwrap().names(),
        vec!["alpha", "m.beta", "zebra"]
    );
}

#[test]
fn a_program_with_nothing_beside_it_is_loaded_as_itself() {
    let fs = node(&[
        ("/r/n/entry.dlua", "print('hi')\n"),
        ("/r/n/app.json", "{}"),
        ("/r/n/notes.md", "# not a module"),
    ]);
    let loaded = program_load(ENTRY, Ok("print('hi')\n".to_string()), Some(&fs)).unwrap();
    assert_eq!(loaded.modules, 0);
    assert_eq!(loaded.source, "print('hi')\n", "the file's own source");
    assert_eq!(loaded.name, "entry.dlua", "under its own name");
}

#[test]
fn a_lua_beside_the_entry_is_a_module_too() {
    let fs = node(&[
        ("/r/n/entry.dlua", ""),
        ("/r/n/util.lua", "return {}\n"),
        ("/r/n/deep/helper.lua", "return {}\n"),
    ]);
    assert_eq!(
        discover(ENTRY, Some(&fs)).unwrap().names(),
        vec!["deep.helper", "util"]
    );
}

#[test]
fn a_lua_entry_is_not_a_module_of_its_own_either() {
    let fs = node(&[
        ("/r/n/supervisor.lua", "print('hi')\n"),
        ("/r/n/helper.lua", "return {}\n"),
    ]);
    let found = discover("/r/n/supervisor.lua", Some(&fs)).unwrap();
    assert_eq!(found.names(), vec!["helper"]);
}

#[test]
fn one_name_may_not_be_two_files() {
    let fs = node(&[
        ("/r/n/entry.dlua", ""),
        ("/r/n/enc.dlua", "return {}\n"),
        ("/r/n/enc.lua", "return {}\n"),
    ]);
    let e = discover(ENTRY, Some(&fs)).unwrap_err();
    assert!(e.contains("enc.dlua") && e.contains("enc.lua"), "{e}");
    assert!(e.contains("both the module `enc`"), "{e}");
}

#[test]
fn bytecode_beside_the_entry_is_refused_rather_than_ignored() {
    let fs = node(&[("/r/n/entry.dlua", ""), ("/r/n/util/enc.dluac", "\x1bLua")]);
    let e = discover(ENTRY, Some(&fs)).unwrap_err();
    assert!(e.contains("util/enc.dluac"), "{e}");
    assert!(e.contains("verifier"), "it says what is missing: {e}");
}

#[test]
fn a_file_whose_name_is_not_a_module_name_is_refused_by_name() {
    let fs = node(&[("/r/n/entry.dlua", ""), ("/r/n/my-helper.dlua", "return {}")]);
    let e = discover(ENTRY, Some(&fs)).unwrap_err();
    assert!(e.contains("my-helper"), "{e}");
}

#[test]
fn a_dot_inside_a_component_is_refused_because_it_would_be_ambiguous() {
    let fs = node(&[("/r/n/entry.dlua", ""), ("/r/n/my.helper.dlua", "return {}")]);
    let e = discover(ENTRY, Some(&fs)).unwrap_err();
    assert!(e.contains("my.helper"), "{e}");
}

#[test]
fn a_reserved_first_component_is_refused_on_disk_too() {
    let fs = node(&[("/r/n/entry.dlua", ""), ("/r/n/stdlib/relay.dlua", "return {}")]);
    let e = discover(ENTRY, Some(&fs)).unwrap_err();
    assert!(e.contains("reserved"), "{e}");
}

#[test]
fn the_name_rule_refuses_what_the_design_says_it_refuses() {
    for bad in [
        "",
        "..secret",
        "a..b",
        "/etc/x",
        "util/enc",
        ".leading",
        "trailing.",
        "has space",
        "stdlib",
        "stdlib.anything",
    ] {
        assert!(refuse_name(bad).is_some(), "should refuse {bad:?}");
    }
    for good in ["a", "enc", "util.enc", "db.claims", "a_b.c1", "stdlibx.y"] {
        assert!(refuse_name(good).is_none(), "should accept {good:?}");
    }
}

#[test]
fn a_module_holding_a_long_bracket_close_gets_a_deeper_one() {
    let (open, close) = brackets("local s = [[a]]\n").unwrap();
    assert_eq!((open.as_str(), close.as_str()), ("[=[", "]=]"));
    let (open, close) = brackets("local s = [=[a]=]\n").unwrap();
    assert_eq!((open.as_str(), close.as_str()), ("[[", "]]"));
    // An opening sequence inside is ordinary text and forces nothing.
    let (open, _) = brackets("local s = \"[==[\"\n").unwrap();
    assert_eq!(open, "[[");
}

#[test]
fn the_generated_chunk_holds_each_source_verbatim() {
    let fs = node(&[
        ("/r/n/entry.dlua", "return 1\n"),
        ("/r/n/m.dlua", "local s = [[a]]\nreturn s\n"),
    ]);
    let found = discover(ENTRY, Some(&fs)).unwrap();
    let chunk = found.bootstrap("return 1\n", "entry.dlua").unwrap();
    assert!(
        chunk.contains("[=[\nlocal s = [[a]]\nreturn s\n]=]"),
        "source embedded verbatim under a deeper bracket:\n{chunk}"
    );
}

#[test]
fn the_working_directory_is_shown_as_a_dot_and_not_as_nothing() {
    assert_eq!(display("."), ".");
    assert_eq!(display(""), ".");
    assert_eq!(display("a/b"), "a/b");
}

#[test]
fn quoting_escapes_what_would_end_a_lua_string() {
    assert_eq!(quote(r#"a"b\c"#), r#""a\"b\\c""#);
    assert_eq!(quote("a\nb"), r#""a\nb""#);
}

#[test]
fn a_source_that_is_not_text_is_refused() {
    let fs = dir(vec![
        ("entry.dlua".to_string(), Node::File(Vec::new())),
        ("enc.dlua".to_string(), Node::File(vec![0xff, 0xfe])),
    ]);
    let e = discover(ENTRY, Some(&fs)).unwrap_err();
    assert!(e.contains("enc.dlua"), "{e}");
}

#[test]
fn a_source_that_cannot_be_read_is_named() {
    let fs = dir(vec![
        ("entry.dlua".to_string(), Node::File(Vec::new())),
        ("enc.dlua".to_string(), Node::Unreadable("permission denied".to_string())),
    ]);
    assert_eq!(
        discover(ENTRY, Some(&fs)).unwrap_err(),
        "cannot read /r/n/enc.dlua: permission denied"
    );
    assert_eq!(
        program_load(ENTRY, Err("no such file".to_string()), None).unwrap_err(),
        "cannot read /r/n/entry.dlua: no such file"
    );
}

#[test]
fn a_path_becomes_a_name() {
    assert_eq!(name_for_path("util/enc.dlua"), Ok("util.enc".to_string()));
    assert_eq!(module_extension("a.dlua"), Some("dlua"));
    assert_eq!(module_extension("a.lua"), Some("lua"));
    assert_eq!(module_extension("a.json"), None);
}

#[test]
fn a_program_with_modules_is_loaded_as_a_chunk() {
    let fs = node(&[("/r/n/entry.dlua", "return 1\n"), ("/r/n/m.dlua", "return 2\n")]);
    let loaded = program_load(ENTRY, Ok("return 1\n".to_string()), Some(&fs)).unwrap();
    assert_eq!(loaded.modules, 1);
    assert!(loaded.source.contains("[[\nreturn 2\n]]"), "{}", loaded.source);
    assert!(loaded.source.contains("[[\nreturn 1\n]]"), "{}", loaded.source);
}

#[test]
fn a_source_between_its_brackets_reads_back_whole() {
    for source in ["return t[1]\n", "return t[1]", "x = [[a]] y[1]=", "]", "]=", "]]]="] {
        let (open, close) = brackets(source).unwrap();
        let text = format!("{open}{source}{close}");
        let body = &text[open.len()..];
        assert_eq!(&body[..body.find(&close).unwrap()], source);
    }
    assert_eq!(brackets("return t[1]").unwrap(), ("[=[".to_string(), "]=]".to_string()));
}

#[test]
fn a_control_character_is_told_from_the_digit_behind_it() {
    assert_eq!(quote("\u{1}2"), "\"\\0012\"");
    assert_eq!(quote("\u{c}"), "\"\\012\"");
    assert_eq!(quote("\u{1f}"), "\"\\031\"");
    assert_eq!(quote("\0"), "\"\\000\"");
}

#[test]
fn no_modules_are_the_default() {
    let none = Modules::default();
    assert!(none.is_empty());
    assert_eq!(none.dir, "");
}

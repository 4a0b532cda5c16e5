use mkfile::group::{find_group, BraceGroup};
use mkfile::{expand, expand_all, FileCreator};

fn texts(items: &[&str]) -> Vec<String> {
    items.iter().map(|s| s.to_string()).collect()
}

#[test]
fn expands_a_group_after_a_directory() {
    assert_eq!(
        expand("dir/{a,b,c}.txt"),
        texts(&["dir/a.txt", "dir/b.txt", "dir/c.txt"])
    );
}

#[test]
fn trims_the_items() {
    assert_eq!(expand("{a, b ,c}"), texts(&["a", "b", "c"]));
}

#[test]
fn a_token_without_braces_is_its_own_path() {
    assert_eq!(expand("prefix"), texts(&["prefix"]));
    assert_eq!(expand(""), texts(&[""]));
    assert_eq!(expand("dir/sub/file.txt"), texts(&["dir/sub/file.txt"]));
}

#[test]
fn only_the_first_group_is_expanded() {
    assert_eq!(
        expand("a{1,2}b{3,4}c"),
        texts(&["a/1b{3,4}c", "a/2b{3,4}c"])
    );
}

#[test]
fn the_suffix_keeps_all_that_follows() {
    assert_eq!(expand("{x,y}.tar.gz"), texts(&["x.tar.gz", "y.tar.gz"]));
    assert_eq!(expand("{a}}"), texts(&["a}"]));
    assert_eq!(expand("p/{a}{"), texts(&["p/a{"]));
    assert_eq!(expand("p/{a,b}\nrest"), texts(&["p/a\nrest", "p/b\nrest"]));
}

#[test]
fn a_lone_brace_is_an_ordinary_character() {
    assert_eq!(expand("a{b"), texts(&["a{b"]));
    assert_eq!(expand("a}b"), texts(&["a}b"]));
    assert_eq!(expand("{"), texts(&["{"]));
    assert_eq!(expand("}"), texts(&["}"]));
}

#[test]
fn a_closing_brace_before_the_opening_one_is_no_group() {
    assert_eq!(expand("}{"), texts(&["}{"]));
    assert_eq!(expand("a}b{c"), texts(&["a}b{c"]));
}

#[test]
fn a_closing_brace_in_the_prefix_stays_there() {
    assert_eq!(expand("a}b/{c,d}"), texts(&["a}b/c", "a}b/d"]));
    assert_eq!(expand("}{a}"), texts(&["}/a"]));
}

#[test]
fn an_opening_brace_among_the_items_stays_there() {
    assert_eq!(expand("{{a}"), texts(&["{a"]));
    assert_eq!(expand("a{b{c}d"), texts(&["a/b{cd"]));
}

#[test]
fn a_prefix_gains_a_separator_unless_it_ends_in_one() {
    assert_eq!(expand("dir{a,b}"), texts(&["dir/a", "dir/b"]));
    assert_eq!(expand("dir/{a,b}"), texts(&["dir/a", "dir/b"]));
    assert_eq!(expand("dir\\{a,b}"), texts(&["dir\\a", "dir\\b"]));
    assert_eq!(expand("/{a,b}"), texts(&["/a", "/b"]));
}

#[test]
fn an_empty_prefix_gains_nothing() {
    assert_eq!(expand("{a,b}.rs"), texts(&["a.rs", "b.rs"]));
}

#[test]
fn white_space_parts_items_as_commas_do() {
    assert_eq!(expand("{a b\tc,d\ne}"), texts(&["a", "b", "c", "d", "e"]));
    assert_eq!(expand("{a\u{3000}b\u{a0}c}"), texts(&["a", "b", "c"]));
    assert_eq!(
        expand("pkg/{__init__.py, core.py  util.py}"),
        texts(&["pkg/__init__.py", "pkg/core.py", "pkg/util.py"])
    );
}

#[test]
fn empty_items_are_dropped() {
    assert_eq!(expand("{,a,,b,}"), texts(&["a", "b"]));
    assert_eq!(expand("{ , ,a, }"), texts(&["a"]));
}

#[test]
fn a_group_without_items_gives_no_path() {
    assert_eq!(expand("{}"), Vec::<String>::new());
    assert_eq!(expand("{ }"), Vec::<String>::new());
    assert_eq!(expand("dir/{ , ,}.txt"), Vec::<String>::new());
    assert_eq!(expand("a{}b{c}"), Vec::<String>::new());
}

#[test]
fn characters_outside_ascii_pass_through() {
    assert_eq!(expand("día/{añ,ö}.txt"), texts(&["día/añ.txt", "día/ö.txt"]));
}

#[test]
fn finds_the_three_parts() {
    let g = find_group("dir/{a, b}.txt{x}").unwrap();
    assert_eq!(g.prefix, "dir/");
    assert_eq!(g.items_text, "a, b");
    assert_eq!(g.suffix, ".txt{x}");
    assert!(find_group("plain").is_none());
    assert!(find_group("}{").is_none());
    let empty = find_group("{}").unwrap();
    assert_eq!(empty.prefix, "");
    assert_eq!(empty.items_text, "");
    assert_eq!(empty.suffix, "");
}

#[test]
fn expands_a_group_given_by_its_parts() {
    let g = BraceGroup {
        prefix: "src".to_string(),
        items_text: "main.rs lib.rs".to_string(),
        suffix: ".bak".to_string(),
    };
    assert_eq!(g.expand(), texts(&["src/main.rs.bak", "src/lib.rs.bak"]));
}

#[test]
fn the_creator_expands_as_the_function_does() {
    let creator = FileCreator::new(false, false);
    assert_eq!(
        creator.parse_brace_expansion("dotenv/{__init__.py,core.py}"),
        texts(&["dotenv/__init__.py", "dotenv/core.py"])
    );
    assert_eq!(creator.parse_brace_expansion("prefix"), texts(&["prefix"]));
}

#[test]
fn expands_every_token_in_order() {
    let tokens = texts(&["one", "d/{a,b}", "{}", "a{b", "{x}.rs"]);
    assert_eq!(
        expand_all(&tokens),
        texts(&["one", "d/a", "d/b", "a{b", "x.rs"])
    );
}

#[test]
fn tokens_without_braces_are_their_own_paths() {
    let tokens = texts(&["a.txt", "b/c.txt", ""]);
    assert_eq!(expand_all(&tokens), tokens);
    assert_eq!(expand_all(&[]), Vec::<String>::new());
}

#[test]
fn white_space_is_what_the_standard_library_takes_for_it() {
    for code in 0u32..=0x10FFFF {
        if let Some(c) = char::from_u32(code) {
            assert_eq!(mkfile::text::is_white_space(c), c.is_whitespace(), "U+{:04X}", code);
        }
    }
}

#[test]
fn the_characters_of_a_string_go_and_come_back() {
    let chars = mkfile::text::chars_of("día/{a}");
    assert_eq!(chars, vec!['d', 'í', 'a', '/', '{', 'a', '}']);
    assert_eq!(mkfile::text::string_of(&chars), "día/{a}");
    assert!(mkfile::text::has_char("a{b", '{'));
    assert!(!mkfile::text::has_char("a{b", '}'));
    assert!(!mkfile::text::has_char("", 'a'));
}

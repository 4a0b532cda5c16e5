use mkfile::reconstruct_files;

fn strings(items: &[&str]) -> Vec<String> {
    items.iter().map(|s| s.to_string()).collect()
}

#[test]
fn rejoins_a_brace_group_that_the_shell_split() {
    let tokens = reconstruct_files(&strings(&["dir/{a,", "b}.txt"]));
    assert_eq!(tokens, strings(&["dir/{a, b}.txt"]));
}

#[test]
fn plain_arguments_come_back_unchanged() {
    let args = strings(&["file1.txt", "file2.py", "dir/sub/file3"]);
    assert_eq!(reconstruct_files(&args), args);
}

#[test]
fn no_arguments_give_no_tokens() {
    assert_eq!(reconstruct_files(&[]), Vec::<String>::new());
}

#[test]
fn empty_pieces_are_dropped() {
    let tokens = reconstruct_files(&strings(&["", "a", "", "b  c", " "]));
    assert_eq!(tokens, strings(&["a", "b", "c"]));
}

#[test]
fn a_space_inside_one_argument_parts_it() {
    let tokens = reconstruct_files(&strings(&["a b"]));
    assert_eq!(tokens, strings(&["a", "b"]));
}

#[test]
fn spaces_inside_braces_are_kept() {
    let tokens = reconstruct_files(&strings(&["x/{a", "b", "c}.rs", "y"]));
    assert_eq!(tokens, strings(&["x/{a b c}.rs", "y"]));
}

#[test]
fn an_unclosed_brace_swallows_every_later_space() {
    let tokens = reconstruct_files(&strings(&["first", "{a", "b", "c", "d"]));
    assert_eq!(tokens, strings(&["first", "{a b c d"]));
}

#[test]
fn any_closing_brace_ends_the_group() {
    let tokens = reconstruct_files(&strings(&["{a", "{b}", "c}", "d"]));
    assert_eq!(tokens, strings(&["{a {b}", "c}", "d"]));
}

#[test]
fn a_lone_closing_brace_is_an_ordinary_character() {
    let tokens = reconstruct_files(&strings(&["x}", "y"]));
    assert_eq!(tokens, strings(&["x}", "y"]));
}

#[test]
fn two_groups_in_a_row_are_two_tokens() {
    let tokens = reconstruct_files(&strings(&["{a,", "b}", "{c,", "d}"]));
    assert_eq!(tokens, strings(&["{a, b}", "{c, d}"]));
}

#[test]
fn other_white_space_does_not_part_tokens() {
    let tokens = reconstruct_files(&strings(&["a\tb", "c\nd"]));
    assert_eq!(tokens, strings(&["a\tb", "c\nd"]));
}

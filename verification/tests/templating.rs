use incronrs::template::{render, replace_all};

#[test]
fn replace_all_without_occurrence_is_identity() {
    assert_eq!(replace_all("echo hello", "$watched", "/src"), "echo hello");
}

#[test]
fn replace_all_replaces_every_occurrence() {
    assert_eq!(replace_all("a b a", "a", "xy"), "xy b xy");
}

#[test]
fn replace_all_scans_left_to_right_without_overlap() {
    assert_eq!(replace_all("aaa", "aa", "b"), "ba");
}

#[test]
fn replace_all_with_empty_pattern_changes_nothing() {
    assert_eq!(replace_all("abc", "", "x"), "abc");
}

#[test]
fn replace_all_can_grow_the_text() {
    assert_eq!(replace_all("$x$x", "$x", "long"), "longlong");
}

#[test]
fn render_without_tokens_is_identity() {
    assert_eq!(
        render("make build", "/src", "/src/a.txt", "Modify(Data(Any))"),
        "make build"
    );
}

#[test]
fn render_substitutes_all_three_tokens() {
    assert_eq!(
        render(
            "echo $event on $filename under $watched",
            "/src",
            "/src/a.txt",
            "Modify(Data(Any))"
        ),
        "echo Modify(Data(Any)) on /src/a.txt under /src"
    );
}

#[test]
fn render_substitutes_repeated_tokens() {
    assert_eq!(
        render("$watched:$watched", "/src", "/src/a.txt", "Modify"),
        "/src:/src"
    );
}

#[test]
fn render_passes_are_sequential() {
    // The watched root is substituted first; a token it introduces is
    // seen by the later passes.
    assert_eq!(render("$watched", "$event", "f", "Modify"), "Modify");
}

#[test]
fn render_leaves_unknown_tokens_alone() {
    assert_eq!(
        render("echo $unknown", "/src", "/src/a.txt", "Modify"),
        "echo $unknown"
    );
}

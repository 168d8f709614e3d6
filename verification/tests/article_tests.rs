use titlefit::article::extract_frontmatter;

fn lines(v: &[&str]) -> Vec<String> {
    v.iter().map(|s| s.to_string()).collect()
}

#[test]
fn frontmatter_is_the_block_between_the_fences() {
    let article = lines(&[
        "+++",
        "title = \"Principles of Technology Leadership\"",
        "[taxonomies]",
        "tags = [\"leadership\", \"ethics\"]",
        "+++",
        "The body of the article.",
    ]);
    let fm = extract_frontmatter(&article);
    assert_eq!(
        fm,
        "title = \"Principles of Technology Leadership\"\n[taxonomies]\ntags = [\"leadership\", \"ethics\"]"
    );
}

#[test]
fn leading_lines_before_the_first_fence_are_skipped() {
    let article = lines(&["byline", "+++", "title = \"x\"", "+++", "rest"]);
    assert_eq!(extract_frontmatter(&article), "title = \"x\"");
}

#[test]
fn an_article_without_fences_has_empty_frontmatter() {
    let article = lines(&["just", "prose"]);
    assert_eq!(extract_frontmatter(&article), "");
}

#[test]
fn an_unclosed_frontmatter_runs_to_the_end() {
    let article = lines(&["+++", "a = 1", "b = 2"]);
    assert_eq!(extract_frontmatter(&article), "a = 1\nb = 2");
}

use mcfmt::frontmatter::{find_frontmatter_block, split_frontmatter_and_content};

fn rejoin(text: &str) -> String {
    let (frontmatter, content) = split_frontmatter_and_content(text);
    let mut out = String::new();
    if let Some(f) = frontmatter {
        out.push_str(f);
    }
    out.push_str(content);
    out
}

#[test]
fn test_frontmatter() {
    let test_string = "---\ntitle: Valid Yaml Test\n---\nsomething that's not yaml";
    assert_eq!(find_frontmatter_block(test_string), Some((0, 31)));

    let (frontmatter, content) = split_frontmatter_and_content(test_string);
    assert_eq!(frontmatter.unwrap(), "---\ntitle: Valid Yaml Test\n---\n");
    assert_eq!(content, "something that's not yaml")
}

#[test]
fn no_opening_marker_is_all_body() {
    let text = "# Title\n---\nnot metadata\n---\n";
    assert_eq!(find_frontmatter_block(text), None);
    assert_eq!(split_frontmatter_and_content(text), (None, text));
}

#[test]
fn marker_must_be_the_very_first_line() {
    let text = "\n---\na: b\n---\nbody";
    assert_eq!(find_frontmatter_block(text), None);
    let text = " ---\na: b\n---\nbody";
    assert_eq!(find_frontmatter_block(text), None);
}

#[test]
fn unterminated_block_is_all_body() {
    let text = "---\ntitle: x\nno closing marker";
    assert_eq!(find_frontmatter_block(text), None);
    assert_eq!(split_frontmatter_and_content(text), (None, text));
}

#[test]
fn closing_marker_needs_its_line_feed() {
    let text = "---\ntitle: x\n---";
    assert_eq!(find_frontmatter_block(text), None);
    assert_eq!(split_frontmatter_and_content(text), (None, text));
}

#[test]
fn empty_and_short_texts_have_no_block() {
    assert_eq!(find_frontmatter_block(""), None);
    assert_eq!(find_frontmatter_block("---"), None);
    assert_eq!(find_frontmatter_block("---\n"), None);
    assert_eq!(find_frontmatter_block("---\n---"), None);
    assert_eq!(split_frontmatter_and_content(""), (None, ""));
}

#[test]
fn empty_block_is_found() {
    let text = "---\n---\nbody";
    assert_eq!(find_frontmatter_block(text), Some((0, 8)));
    assert_eq!(split_frontmatter_and_content(text), (Some("---\n---\n"), "body"));
}

#[test]
fn block_without_body() {
    let text = "---\na: 1\n---\n";
    assert_eq!(find_frontmatter_block(text), Some((0, 13)));
    assert_eq!(split_frontmatter_and_content(text), (Some(text), ""));
}

#[test]
fn first_closing_marker_wins() {
    let text = "---\na\n---\nb\n---\nc";
    assert_eq!(find_frontmatter_block(text), Some((0, 10)));
    assert_eq!(split_frontmatter_and_content(text), (Some("---\na\n---\n"), "b\n---\nc"));
}

#[test]
fn marker_inside_a_line_closes_nothing() {
    let text = "---\nabc---\nrest";
    assert_eq!(find_frontmatter_block(text), None);
    assert_eq!(split_frontmatter_and_content(text), (None, text));
    let text = "---\nkey: x---\nrest\n---\nbody";
    assert_eq!(find_frontmatter_block(text), Some((0, 23)));
    assert_eq!(
        split_frontmatter_and_content(text),
        (Some("---\nkey: x---\nrest\n---\n"), "body")
    );
}

#[test]
fn line_of_four_dashes_is_no_marker() {
    let text = "---\n----\nrest";
    assert_eq!(find_frontmatter_block(text), None);
    let text = "----\na\n---\nrest";
    assert_eq!(find_frontmatter_block(text), None);
    let text = "---\n----\n---\nrest";
    assert_eq!(find_frontmatter_block(text), Some((0, 13)));
}

#[test]
fn indented_marker_closes_nothing() {
    let text = "---\na\n ---\nrest";
    assert_eq!(find_frontmatter_block(text), None);
    assert_eq!(split_frontmatter_and_content(text), (None, text));
}

#[test]
fn offsets_count_bytes_not_characters() {
    let text = "---\ntitre: \u{e9}t\u{e9} \u{1f600}\n---\ncorps \u{4e2d}";
    let end = 4 + "titre: \u{e9}t\u{e9} \u{1f600}\n".len() + 4;
    assert_eq!(find_frontmatter_block(text), Some((0, end)));
    let (frontmatter, content) = split_frontmatter_and_content(text);
    assert_eq!(frontmatter, Some("---\ntitre: \u{e9}t\u{e9} \u{1f600}\n---\n"));
    assert_eq!(content, "corps \u{4e2d}");
}

#[test]
fn split_then_join_gives_the_text_back() {
    for text in [
        "",
        "plain",
        "---\n",
        "---\na\n---\n",
        "---\na\n---\nbody\n",
        "---\nunterminated",
        "---\n\u{e9}\n---\n\u{1f600}",
        "x---\na\n---\n",
        "---\nabc---\nrest",
        "---\nabc---\nrest\n---\n",
    ] {
        assert_eq!(rejoin(text), text);
    }
}

use react_docgen_core::jsdoc::{extract_jsdoc_tags, parse_jsdoc_text, JsDocIndex, OwnedComment};

const DOC: &str = "/**\n * Primary button.\n * Second line.\n * @default \"primary\"\n * @param {string} size The size\n */";

#[test]
fn description_is_the_text_before_the_first_tag() {
    assert_eq!(parse_jsdoc_text(DOC), "Primary button.\nSecond line.");
    assert_eq!(parse_jsdoc_text("/** One liner */"), "One liner");
    assert_eq!(parse_jsdoc_text("/** @deprecated */"), "");
    assert_eq!(parse_jsdoc_text("/**\n *\n * Spaced\n *\n */"), "Spaced");
}

#[test]
fn tags_are_keyed_by_name_with_params_by_prop() {
    let tags = extract_jsdoc_tags(DOC);
    assert_eq!(
        tags,
        vec![
            ("default".to_owned(), "\"primary\"".to_owned()),
            ("param:size".to_owned(), "The size".to_owned()),
        ]
    );
}

#[test]
fn a_later_tag_replaces_an_earlier_one() {
    let tags = extract_jsdoc_tags("/**\n * @default 1\n * @default 2\n * @deprecated\n */");
    assert_eq!(
        tags,
        vec![("default".to_owned(), "2".to_owned()), ("deprecated".to_owned(), String::new())]
    );
}

#[test]
fn param_without_description_and_param_without_type() {
    let tags = extract_jsdoc_tags("/** @param onClick */");
    assert_eq!(tags, vec![("param:onClick".to_owned(), String::new())]);
    let tags = extract_jsdoc_tags("/**\n * @param size  Large or small\n */");
    assert_eq!(tags, vec![("param:size".to_owned(), "Large or small".to_owned())]);
}

fn comment(start: u32, text: &str, is_block: bool) -> OwnedComment {
    OwnedComment { span_start: start, span_end: start + text.len() as u32, is_block, text: text.to_owned() }
}

#[test]
fn the_nearest_block_comment_before_a_declaration_documents_it() {
    // /** Button docs */ at 0..19, a line comment, then the declaration at 40.
    let mut index = JsDocIndex::new(vec![comment(0, "/** Button docs */", true), comment(20, "// note", false)]);
    assert_eq!(index.find_jsdoc(40), "Button docs");
}

#[test]
fn a_comment_too_far_away_documents_nothing() {
    let mut index = JsDocIndex::new(vec![comment(0, "/** Far away */", true)]);
    assert_eq!(index.find_jsdoc(15 + 121), "");
    assert_eq!(index.find_jsdoc(15 + 120), "Far away");
}

#[test]
fn a_claimed_comment_does_not_bleed_onto_a_sibling() {
    // `/** @deprecated */ a: string; b: string;` — b has no JSDoc of its own.
    let mut index = JsDocIndex::new(vec![comment(10, "/** @deprecated */", true)]);
    let (text, tags) = index.find_jsdoc_with_tags(30);
    assert_eq!(text, "");
    assert_eq!(tags, vec![("deprecated".to_owned(), String::new())]);
    let (text, tags) = index.find_jsdoc_with_tags(45);
    assert_eq!(text, "");
    assert!(tags.is_empty(), "the sibling must not inherit the claimed comment's tags");
    assert_eq!(index.consumed, vec![28]);
}

#[test]
fn an_empty_comment_is_not_claimed() {
    let mut index = JsDocIndex::new(vec![comment(0, "/** */", true)]);
    assert_eq!(index.find_jsdoc_with_tags(10), (String::new(), vec![]));
    assert!(index.consumed.is_empty());
}

#[test]
fn comments_after_the_declaration_are_not_considered() {
    let mut index = JsDocIndex::new(vec![comment(0, "/** First */", true), comment(50, "/** Second */", true)]);
    assert_eq!(index.find_jsdoc(20), "First");
    assert_eq!(index.find_jsdoc(70), "Second");
}

use parallelized_programming_language::preprocess::{classify, split_lines, Action, Directive, Preprocessor};

#[test]
fn define_line_is_classified() {
    assert_eq!(
        classify("  #define TWO 1 + 1  "),
        Directive::Define { name: "TWO".to_string(), value: "1 + 1".to_string() }
    );
    assert_eq!(classify("#define LONELY"), Directive::Ignored);
}

#[test]
fn include_line_is_classified() {
    assert_eq!(
        classify("#include   \"lib/util.ppl\" "),
        Directive::Include { path: "lib/util.ppl".to_string() }
    );
    assert_eq!(classify("#include util.ppl"), Directive::Ignored);
    assert_eq!(classify("#include \""), Directive::Ignored);
}

#[test]
fn other_lines_are_text() {
    assert_eq!(classify("1 + 2"), Directive::Text);
    assert_eq!(classify("#defineX 3"), Directive::Text);
    assert_eq!(classify(""), Directive::Text);
}

#[test]
fn macros_are_substituted_in_later_lines() {
    let mut pre = Preprocessor::new();
    assert_eq!(pre.feed("N + 1"), Action::Emit("N + 1".to_string()));
    assert_eq!(pre.feed("#define N 41"), Action::Skip);
    assert_eq!(pre.feed("N + 1"), Action::Emit("41 + 1".to_string()));
    assert_eq!(pre.feed("#define M N*2"), Action::Skip);
    // substitutions run in definition order, so `N` inside `M`'s value stays as written
    assert_eq!(pre.feed("M"), Action::Emit("N*2".to_string()));
    assert_eq!(pre.feed("M + N"), Action::Emit("N*2 + 41".to_string()));
}

#[test]
fn redefinition_replaces_the_value() {
    let mut pre = Preprocessor::new();
    let _ = pre.feed("#define X 1");
    let _ = pre.feed("#define Y 2");
    let _ = pre.feed("#define X 3");
    assert_eq!(pre.macros.len(), 2);
    assert_eq!(pre.feed("X + Y"), Action::Emit("3 + 2".to_string()));
}

#[test]
fn text_lines_keep_their_whitespace() {
    let mut pre = Preprocessor::new();
    assert_eq!(pre.feed("  7  "), Action::Emit("  7  ".to_string()));
    assert_eq!(pre.feed("#include \"a.ppl\""), Action::Include("a.ppl".to_string()));
}

#[test]
fn lines_are_split_like_str_lines() {
    let cases = ["", "a", "a\n", "a\r\nb\n", "a\n\nb", "x\r", "\n\n", "#define A 1\r\nA + A"];
    for text in cases {
        let expected: Vec<String> = text.lines().map(|l| l.to_string()).collect();
        assert_eq!(split_lines(text), expected, "splitting {:?}", text);
    }
    assert_eq!(split_lines("a\r\nb"), vec!["a".to_string(), "b".to_string()]);
}

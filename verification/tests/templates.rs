use smithy_routing::matching::{
    are_ambiguous, extract_labels, join_from, matches_path, shapes_meet, split_path,
    takes_precedence,
};
use smithy_routing::method::Method;
use smithy_routing::template::{
    name_is_bound, parse_segment, BuildError, OperationId, RouteTemplate, Segment, TemplateDefect,
};
use smithy_routing::text::{bytes_eq, contains_byte, copy_range, split_range};

fn defect_of(pattern: &str) -> TemplateDefect {
    match RouteTemplate::compile(Method::Get, pattern, OperationId(0)) {
        Err(BuildError::InvalidTemplate(defect)) => defect,
        other => panic!("expected a defect, got {:?}", other),
    }
}

fn segments_of(pattern: &str) -> Vec<Segment> {
    RouteTemplate::compile(Method::Get, pattern, OperationId(0))
        .expect("valid pattern")
        .segments()
        .clone()
}

fn lit(text: &str) -> Segment {
    Segment::Literal(text.as_bytes().to_vec())
}

fn label(name: &str) -> Segment {
    Segment::Label(name.as_bytes().to_vec())
}

fn greedy(name: &str) -> Segment {
    Segment::Greedy(name.as_bytes().to_vec())
}

fn pieces(parts: &[&str]) -> Vec<Vec<u8>> {
    parts.iter().map(|p| p.as_bytes().to_vec()).collect()
}

#[test]
fn greedy_label_followed_by_segment_is_refused() {
    assert_eq!(defect_of("/files/{path+}/tail"), TemplateDefect::GreedyNotLast);
    assert_eq!(defect_of("/{a+}/{b}"), TemplateDefect::GreedyNotLast);
    assert_eq!(defect_of("/{a+}/{b+}"), TemplateDefect::GreedyNotLast);
}

#[test]
fn greedy_label_at_the_end_compiles() {
    assert_eq!(segments_of("/files/{path+}"), vec![lit("files"), greedy("path")]);
    assert_eq!(segments_of("/{all+}"), vec![greedy("all")]);
}

#[test]
fn compile_reads_literals_and_labels() {
    assert_eq!(segments_of("/items/{id}"), vec![lit("items"), label("id")]);
    assert_eq!(segments_of("/a/b/c"), vec![lit("a"), lit("b"), lit("c")]);
    assert_eq!(segments_of("/"), Vec::<Segment>::new());
    assert_eq!(segments_of("/{a}/{b}"), vec![label("a"), label("b")]);
}

#[test]
fn compile_keeps_method_pattern_and_operation() {
    let t = RouteTemplate::compile(Method::Patch, "/things/{thing}", OperationId(42))
        .expect("valid pattern");
    assert_eq!(t.method(), Method::Patch);
    assert_eq!(t.pattern(), "/things/{thing}");
    assert_eq!(t.operation(), OperationId(42));
}

#[test]
fn pattern_must_begin_with_a_slash() {
    assert_eq!(defect_of(""), TemplateDefect::MissingLeadingSlash);
    assert_eq!(defect_of("items/{id}"), TemplateDefect::MissingLeadingSlash);
}

#[test]
fn empty_segments_are_refused() {
    assert_eq!(defect_of("//"), TemplateDefect::EmptySegment);
    assert_eq!(defect_of("/a//b"), TemplateDefect::EmptySegment);
    assert_eq!(defect_of("/a/"), TemplateDefect::EmptySegment);
}

#[test]
fn duplicate_label_names_are_refused() {
    assert_eq!(defect_of("/{id}/x/{id}"), TemplateDefect::DuplicateLabel);
    assert_eq!(defect_of("/{id}/{id+}"), TemplateDefect::DuplicateLabel);
}

#[test]
fn empty_label_names_are_refused() {
    assert_eq!(defect_of("/{}"), TemplateDefect::EmptyLabelName);
    assert_eq!(defect_of("/a/{+}"), TemplateDefect::EmptyLabelName);
}

#[test]
fn stray_braces_are_refused() {
    assert_eq!(defect_of("/a{b"), TemplateDefect::StrayBrace);
    assert_eq!(defect_of("/a}"), TemplateDefect::StrayBrace);
    assert_eq!(defect_of("/{a{b}"), TemplateDefect::StrayBrace);
    assert_eq!(defect_of("/{a}b"), TemplateDefect::StrayBrace);
    assert_eq!(defect_of("/{"), TemplateDefect::StrayBrace);
}

#[test]
fn first_defect_from_the_left_is_reported() {
    assert_eq!(defect_of("/{x+}//"), TemplateDefect::GreedyNotLast);
    assert_eq!(defect_of("//{x+}/y"), TemplateDefect::EmptySegment);
    assert_eq!(defect_of("/{x}/{}/{x}"), TemplateDefect::EmptyLabelName);
}

#[test]
fn parse_segment_reads_each_form() {
    assert_eq!(parse_segment(b"items"), Ok(lit("items")));
    assert_eq!(parse_segment(b"{id}"), Ok(label("id")));
    assert_eq!(parse_segment(b"{rest+}"), Ok(greedy("rest")));
    assert_eq!(parse_segment(b"{a+b}"), Ok(label("a+b")));
    assert_eq!(parse_segment(b""), Err(TemplateDefect::EmptySegment));
    assert_eq!(parse_segment(b"{}"), Err(TemplateDefect::EmptyLabelName));
    assert_eq!(parse_segment(b"}{"), Err(TemplateDefect::StrayBrace));
}

#[test]
fn name_is_bound_looks_at_labels_only() {
    let segments = vec![lit("id"), label("user"), greedy("rest")];
    assert!(name_is_bound(&segments, b"user"));
    assert!(name_is_bound(&segments, b"rest"));
    assert!(!name_is_bound(&segments, b"id"));
    assert!(!name_is_bound(&segments, b"other"));
}

#[test]
fn split_path_cuts_on_slashes() {
    assert_eq!(split_path(b"/a/b"), Some(pieces(&["a", "b"])));
    assert_eq!(split_path(b"/a/b/"), Some(pieces(&["a", "b"])));
    assert_eq!(split_path(b"/"), Some(pieces(&[])));
    assert_eq!(split_path(b"//"), Some(pieces(&[])));
    assert_eq!(split_path(b"/a//b"), Some(pieces(&["a", "", "b"])));
    assert_eq!(split_path(b"/a//"), Some(pieces(&["a", ""])));
    assert_eq!(split_path(b""), None);
    assert_eq!(split_path(b"a/b"), None);
}

#[test]
fn split_range_cuts_the_chosen_range() {
    assert_eq!(split_range(b"/a/b", 1, 4), pieces(&["a", "b"]));
    assert_eq!(split_range(b"/a/b", 0, 4), pieces(&["", "a", "b"]));
    assert_eq!(split_range(b"abc", 0, 3), pieces(&["abc"]));
    assert_eq!(split_range(b"abc", 1, 1), pieces(&[""]));
    assert_eq!(split_range(b"a/", 0, 2), pieces(&["a", ""]));
}

#[test]
fn byte_helpers() {
    assert!(bytes_eq(b"abc", b"abc"));
    assert!(!bytes_eq(b"abc", b"abd"));
    assert!(!bytes_eq(b"abc", b"ab"));
    assert!(bytes_eq(b"", b""));
    assert!(contains_byte(b"a/b", b'/'));
    assert!(!contains_byte(b"ab", b'/'));
    assert_eq!(copy_range(b"hello", 1, 4), b"ell".to_vec());
    assert_eq!(copy_range(b"hello", 2, 2), Vec::<u8>::new());
}

#[test]
fn matches_path_follows_the_segments() {
    let t = vec![lit("a"), label("x")];
    assert!(matches_path(&t, &pieces(&["a", "1"])));
    assert!(!matches_path(&t, &pieces(&["b", "1"])));
    assert!(!matches_path(&t, &pieces(&["a", ""])));
    assert!(!matches_path(&t, &pieces(&["a"])));
    assert!(!matches_path(&t, &pieces(&["a", "1", "2"])));
    let g = vec![lit("a"), greedy("rest")];
    assert!(matches_path(&g, &pieces(&["a", "1"])));
    assert!(matches_path(&g, &pieces(&["a", "1", "2", "3"])));
    assert!(!matches_path(&g, &pieces(&["a"])));
    assert!(!matches_path(&g, &pieces(&["a", "1", ""])));
    assert!(matches_path(&Vec::new(), &pieces(&[])));
}

#[test]
fn extract_labels_binds_in_template_order() {
    let t = vec![label("x"), lit("mid"), greedy("rest")];
    let got = extract_labels(&t, &pieces(&["1", "mid", "a", "b"]));
    assert_eq!(got.len(), 2);
    assert_eq!(got[0].name, b"x".to_vec());
    assert_eq!(got[0].value, b"1".to_vec());
    assert_eq!(got[1].name, b"rest".to_vec());
    assert_eq!(got[1].value, b"a/b".to_vec());
}

#[test]
fn join_from_joins_the_tail() {
    let p = pieces(&["a", "b", "c"]);
    assert_eq!(join_from(&p, 0), b"a/b/c".to_vec());
    assert_eq!(join_from(&p, 1), b"b/c".to_vec());
    assert_eq!(join_from(&p, 2), b"c".to_vec());
    assert_eq!(join_from(&p, 3), Vec::<u8>::new());
}

#[test]
fn precedence_goes_to_the_first_lone_literal() {
    assert!(takes_precedence(&vec![lit("a"), lit("b")], &vec![lit("a"), label("x")]));
    assert!(!takes_precedence(&vec![lit("a"), label("x")], &vec![lit("a"), lit("b")]));
    assert!(!takes_precedence(&vec![label("x")], &vec![label("y")]));
    assert!(!takes_precedence(&vec![label("x")], &vec![greedy("y")]));
    assert!(takes_precedence(&vec![lit("a"), label("x")], &vec![label("y"), lit("b")]));
    assert!(!takes_precedence(&vec![label("y"), lit("b")], &vec![lit("a"), label("x")]));
    assert!(takes_precedence(&vec![lit("a"), lit("b"), label("x")], &vec![lit("a"), greedy("r")]));
}

#[test]
fn shapes_meet_where_a_common_path_exists() {
    assert!(shapes_meet(&vec![lit("a"), label("x")], &vec![lit("a"), lit("b")]));
    assert!(!shapes_meet(&vec![lit("a"), label("x")], &vec![lit("b"), label("x")]));
    assert!(!shapes_meet(&vec![lit("a")], &vec![lit("a"), label("x")]));
    assert!(shapes_meet(&vec![lit("a"), greedy("r")], &vec![lit("a"), label("x"), lit("c")]));
    assert!(!shapes_meet(&vec![lit("a"), label("x"), greedy("r")], &vec![lit("a"), label("y")]));
    assert!(shapes_meet(&vec![greedy("r")], &vec![lit("a"), lit("b"), greedy("s")]));
    assert!(!shapes_meet(&vec![lit("x"), greedy("r")], &vec![lit("a"), lit("b"), greedy("s")]));
}

#[test]
fn ambiguity_needs_overlap_without_precedence() {
    assert!(are_ambiguous(&vec![lit("a"), label("x")], &vec![lit("a"), label("y")]));
    assert!(!are_ambiguous(&vec![lit("a"), label("x")], &vec![lit("a"), lit("fixed")]));
    assert!(are_ambiguous(&vec![lit("a"), label("x")], &vec![lit("a"), greedy("r")]));
    assert!(!are_ambiguous(&vec![lit("a"), label("x")], &vec![lit("b"), label("x")]));
    assert!(are_ambiguous(&vec![lit("a")], &vec![lit("a")]));
}

#[test]
fn method_names() {
    let all = [
        (Method::Get, "GET"),
        (Method::Post, "POST"),
        (Method::Put, "PUT"),
        (Method::Delete, "DELETE"),
        (Method::Patch, "PATCH"),
        (Method::Head, "HEAD"),
        (Method::Options, "OPTIONS"),
        (Method::Connect, "CONNECT"),
        (Method::Trace, "TRACE"),
    ];
    for (method, name) in all {
        assert_eq!(method.as_str(), name);
        assert_eq!(Method::from_name(name), Some(method));
    }
    assert_eq!(Method::from_name("get"), None);
    assert_eq!(Method::from_name(""), None);
    assert_eq!(Method::from_name("BREW"), None);
}

#[test]
fn defects_are_described() {
    assert_eq!(TemplateDefect::GreedyNotLast.describe(), "a segment follows a greedy label");
    assert_eq!(TemplateDefect::MissingLeadingSlash.describe(), "the pattern does not begin with '/'");
    assert_eq!(TemplateDefect::EmptySegment.describe(), "the pattern has an empty segment");
    assert_eq!(
        TemplateDefect::StrayBrace.describe(),
        "a brace stands inside a literal or a label name"
    );
    assert_eq!(TemplateDefect::EmptyLabelName.describe(), "a label has no name");
    assert_eq!(TemplateDefect::DuplicateLabel.describe(), "a label name is used twice");
    assert_eq!(
        BuildError::InvalidTemplate(TemplateDefect::DuplicateLabel).describe(),
        "invalid path template: a label name is used twice"
    );
}

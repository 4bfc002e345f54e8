use mdbook_tabbed::{
    copy_token, push_decimal, skip_tag, Tab, TabbedError, Tabbed, TagKind, Token, SCAFFOLD,
};

fn para(text: &str) -> Vec<Token> {
    vec![
        Token::Start(TagKind::Paragraph),
        Token::Text(text.to_string()),
        Token::End(TagKind::Paragraph),
    ]
}

fn block(key: u64, text: &str) -> Vec<Token> {
    vec![
        Token::Start(TagKind::Other(key)),
        Token::Text(text.to_string()),
        Token::End(TagKind::Other(key)),
    ]
}

fn doc(parts: Vec<Vec<Token>>) -> Vec<Token> {
    parts.into_iter().flatten().collect()
}

fn show(tokens: &[Token]) -> Vec<String> {
    tokens.iter().map(|t| format!("{:?}", t)).collect()
}

fn html(s: &str) -> String {
    format!("{:?}", Token::Html(s.to_string()))
}

fn run(events: &Vec<Token>) -> Vec<String> {
    let out = Tabbed::new().tabbed(events).expect("rewrite");
    let shown = show(&out);
    assert_eq!(shown.last().unwrap(), &html(SCAFFOLD));
    shown[..shown.len() - 1].to_vec()
}

#[test]
fn untouched_document_is_copied() {
    let events = doc(vec![para("hello"), block(1, "code"), para("=== "), para("== A")]);
    assert_eq!(run(&events), show(&events));
}

#[test]
fn empty_document_gets_only_scaffold() {
    assert!(run(&vec![]).is_empty());
}

#[test]
fn lone_tab_is_left_alone() {
    let events = doc(vec![para("=== \"A\""), block(1, "x"), para("after")]);
    assert_eq!(run(&events), show(&events));
}

#[test]
fn lone_tab_at_end_is_left_alone() {
    let events = doc(vec![para("=== \"A\""), block(1, "x")]);
    assert_eq!(run(&events), show(&events));
}

#[test]
fn two_tabs_then_paragraph() {
    let events = doc(vec![
        para("=== \"A\""),
        block(1, "x"),
        para("=== \"B\""),
        block(2, "y"),
        para("z"),
    ]);
    let mut expected = vec![
        html("<div class=\"tabbed-set\">"),
        html("<div class=\"tabbed-labels\">"),
        html("<input checked=\"true\" id=\"__tabbed_0_0\">"),
        html("<input id=\"__tabbed_0_1\">"),
        html("<label for=\"__tabbed_0_0\">\"A\"</label>"),
        html("<label for=\"__tabbed_0_1\">\"B\"</label>"),
        html("</div>"),
        html("<div class=\"tabbed-contents\">"),
        html("<div id=\"__tabbed_0_0_div\">"),
        format!("{:?}", Token::HardBreak),
    ];
    expected.extend(show(&block(1, "x")));
    expected.push(html("</div>"));
    expected.push(html("<div id=\"__tabbed_0_1_div\" style=\"display: none;\">"));
    expected.push(format!("{:?}", Token::HardBreak));
    expected.extend(show(&block(2, "y")));
    expected.push(html("</div>"));
    expected.push(html("</div>"));
    expected.push(html("</div>"));
    expected.push(format!("{:?}", Token::HardBreak));
    expected.extend(show(&para("z")));
    assert_eq!(run(&events), expected);
}

#[test]
fn three_tabs_one_set() {
    let events = doc(vec![
        para("=== A"),
        block(1, "a"),
        para("=== B"),
        block(1, "b"),
        para("=== C"),
        block(1, "c"),
    ]);
    let out = run(&events);
    let sets = out.iter().filter(|s| s.contains("tabbed-set")).count();
    assert_eq!(sets, 1);
    let inputs: Vec<&String> = out.iter().filter(|s| s.contains("<input")).collect();
    assert_eq!(inputs.len(), 3);
    for (j, s) in inputs.iter().enumerate() {
        assert!(s.contains(&format!("id=\\\"__tabbed_0_{}\\\"", j)));
        assert_eq!(s.contains("checked"), j == 0);
    }
    assert_eq!(out.iter().filter(|s| s.contains("<label")).count(), 3);
    let hidden = out.iter().filter(|s| s.contains("display: none;")).count();
    assert_eq!(hidden, 2);
}

#[test]
fn groups_are_numbered_in_order() {
    let events = doc(vec![
        para("=== A"),
        block(1, "a"),
        para("=== B"),
        block(1, "b"),
        para("between"),
        para("=== C"),
        block(1, "c"),
        para("=== D"),
        block(1, "d"),
    ]);
    let out = run(&events);
    assert_eq!(out.iter().filter(|s| s.contains("tabbed-set")).count(), 2);
    assert!(out.contains(&html("<input checked=\"true\" id=\"__tabbed_1_0\">")));
    assert!(out.contains(&html("<input id=\"__tabbed_1_1\">")));
    assert!(out.contains(&html("<label for=\"__tabbed_1_1\">D</label>")));
    assert!(out.contains(&format!("{:?}", Token::Text("between".to_string()))));
}

#[test]
fn content_keeps_nested_tokens() {
    let content = vec![
        Token::Start(TagKind::Other(5)),
        Token::Start(TagKind::Other(6)),
        Token::Text("item".to_string()),
        Token::Opaque(42),
        Token::End(TagKind::Other(6)),
        Token::End(TagKind::Other(5)),
    ];
    let events = doc(vec![para("=== A"), content.iter().map(copy_token).collect(), para("=== B"), block(1, "b")]);
    let out = run(&events);
    let shown = show(&content);
    let pos = out.windows(shown.len()).position(|w| w == &shown[..]);
    let pos = pos.expect("content kept");
    assert_eq!(out[pos - 2], html("<div id=\"__tabbed_0_0_div\">"));
    assert_eq!(out[pos + shown.len()], html("</div>"));
}

#[test]
fn unicode_title_is_kept() {
    let events = doc(vec![para("=== café"), block(1, "x"), para("=== 日本"), block(1, "y")]);
    let mut s: usize = 0;
    let tab = Tab::new(&events, &mut s).unwrap().unwrap();
    assert_eq!(tab.title, "café");
    assert_eq!((tab.start, tab.end), (3, 5));
    assert_eq!(s, 5);
    let out = run(&events);
    assert!(out.contains(&html("<label for=\"__tabbed_0_0\">café</label>")));
    assert!(out.contains(&html("<label for=\"__tabbed_0_1\">日本</label>")));
}

#[test]
fn short_marker_is_no_tab() {
    let events = doc(vec![para("=== "), block(1, "x")]);
    let mut s: usize = 0;
    assert!(matches!(Tab::new(&events, &mut s), Ok(None)));
    assert_eq!(s, 0);
    let events = doc(vec![para("==== A"), block(1, "x")]);
    assert!(matches!(Tab::new(&events, &mut s), Ok(None)));
    let events = doc(vec![para("=== A")]);
    assert!(matches!(Tab::new(&events, &mut s), Err(TabbedError::UnbalancedBlock(3))));
}

#[test]
fn unclosed_content_is_an_error() {
    let events = doc(vec![
        para("=== A"),
        block(1, "a"),
        para("=== B"),
        vec![Token::Start(TagKind::Other(1)), Token::Text("b".to_string())],
    ]);
    match Tabbed::new().tabbed(&events) {
        Err(e) => assert_eq!(e, TabbedError::UnbalancedBlock(9)),
        Ok(_) => panic!("expected an error"),
    }
}

#[test]
fn skip_tag_stops_at_first_closer_of_same_kind() {
    let events = vec![
        Token::Text("t".to_string()),
        Token::End(TagKind::Other(1)),
        Token::Start(TagKind::Other(1)),
        Token::Start(TagKind::Other(1)),
        Token::End(TagKind::Other(1)),
        Token::End(TagKind::Other(1)),
    ];
    let mut s: usize = 0;
    assert_eq!(skip_tag(&events, &mut s), Some((0, 4)));
    assert_eq!(s, 4);
    let mut s: usize = 5;
    assert_eq!(skip_tag(&events, &mut s), None);
    assert_eq!(s, 5);
}

#[test]
fn decimal_notation() {
    for (n, text) in [(0usize, "0"), (7, "7"), (10, "10"), (1234, "1234")] {
        let mut s = String::from("x");
        push_decimal(&mut s, n);
        assert_eq!(s, format!("x{}", text));
    }
}

#[test]
fn markup_of_controls_labels_and_wrappers() {
    let tab = Tab { title: "T".to_string(), start: 3, end: 5 };
    assert_eq!(format!("{:?}", tab.input(1, 10, false)), html("<input id=\"__tabbed_1_10\">"));
    assert_eq!(
        format!("{:?}", tab.input(11, 0, true)),
        html("<input checked=\"true\" id=\"__tabbed_11_0\">")
    );
    assert_eq!(format!("{:?}", tab.label(2, 3)), html("<label for=\"__tabbed_2_3\">T</label>"));
    assert_eq!(format!("{:?}", tab.content(0, 0, true)), html("<div id=\"__tabbed_0_0_div\">"));
    assert_eq!(
        format!("{:?}", tab.content(0, 1, false)),
        html("<div id=\"__tabbed_0_1_div\" style=\"display: none;\">")
    );
}

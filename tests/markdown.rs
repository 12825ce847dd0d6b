use scrap::markdown::{render_events, render_markdown, Color, MdEvent, MdTag, MdTagEnd, StyledLine};

fn text(l: &StyledLine) -> String {
    l.spans.iter().map(|s| s.text.as_str()).collect()
}

#[test]
fn blank_input_gives_one_placeholder() {
    for input in [" ", ""] {
        let lines = render_markdown(input, &vec![MdEvent::Text("ignored".to_string())]);
        assert_eq!(lines.len(), 1);
        assert_eq!(text(&lines[0]), "(empty note)");
        assert_eq!(lines[0].spans[0].style.fg, Some(Color::DarkGray));
    }
}

#[test]
fn table_renders_as_grid() {
    let cell = |t: &str| {
        vec![MdEvent::Start(MdTag::TableCell), MdEvent::Text(t.to_string()), MdEvent::End(MdTagEnd::TableCell)]
    };
    let mut ev = vec![MdEvent::Start(MdTag::Table), MdEvent::Start(MdTag::TableHead)];
    ev.extend(cell("A"));
    ev.extend(cell("B"));
    ev.push(MdEvent::End(MdTagEnd::TableHead));
    ev.push(MdEvent::Start(MdTag::TableRow));
    ev.extend(cell("1"));
    ev.extend(cell("2"));
    ev.push(MdEvent::End(MdTagEnd::TableRow));
    ev.push(MdEvent::End(MdTagEnd::Table));
    let lines = render_markdown("| A | B |\n|---|---|\n| 1 | 2 |", &ev);
    let rule = "─".repeat(14);
    assert_eq!(lines.len(), 6);
    assert_eq!(text(&lines[0]), format!("┌{}┬{}┐", rule, rule));
    assert_eq!(text(&lines[1]), "│      A       │      B       │");
    assert!(lines[1].spans[1].style.bold);
    assert_eq!(lines[1].spans[1].style.fg, Some(Color::Cyan));
    assert_eq!(text(&lines[2]), format!("├{}┼{}┤", rule, rule));
    assert_eq!(text(&lines[3]), "│      1       │      2       │");
    assert!(!lines[3].spans[1].style.bold);
    assert_eq!(text(&lines[4]), format!("└{}┴{}┘", rule, rule));
    assert!(lines[5].spans.is_empty());
}

#[test]
fn nested_styles_compose() {
    let ev = vec![
        MdEvent::Start(MdTag::Heading(2)),
        MdEvent::Text("Title".to_string()),
        MdEvent::End(MdTagEnd::Heading),
        MdEvent::Start(MdTag::Paragraph),
        MdEvent::Start(MdTag::Strong),
        MdEvent::Start(MdTag::Emphasis),
        MdEvent::Text("both".to_string()),
        MdEvent::End(MdTagEnd::Emphasis),
        MdEvent::End(MdTagEnd::Strong),
        MdEvent::Code("x".to_string()),
        MdEvent::Start(MdTag::Link("http://u".to_string())),
        MdEvent::Text("l".to_string()),
        MdEvent::End(MdTagEnd::Link),
        MdEvent::End(MdTagEnd::Paragraph),
    ];
    let lines = render_events(&ev);
    assert_eq!(lines.len(), 4);
    assert_eq!(text(&lines[0]), "Title");
    assert_eq!(lines[0].spans[0].style.fg, Some(Color::Green));
    assert!(lines[1].spans.is_empty());
    let p = &lines[2].spans;
    assert_eq!(p[0].text, "both");
    assert!(p[0].style.bold && p[0].style.italic);
    assert_eq!(p[1].text, "`x`");
    assert_eq!(p[1].style.fg, Some(Color::Magenta));
    assert_eq!(p[2].text, "l");
    assert!(p[2].style.underlined);
    assert_eq!(p[3].text, " (http://u)");
    assert_eq!(p[3].style.fg, Some(Color::DarkGray));
}

#[test]
fn code_blocks_lists_and_tasks() {
    let ev = vec![
        MdEvent::Start(MdTag::CodeBlock),
        MdEvent::Text("a\nb\n".to_string()),
        MdEvent::End(MdTagEnd::CodeBlock),
        MdEvent::Start(MdTag::Item),
        MdEvent::Text("item".to_string()),
        MdEvent::End(MdTagEnd::Item),
        MdEvent::Start(MdTag::Item),
        MdEvent::TaskListMarker(true),
        MdEvent::Text("done".to_string()),
        MdEvent::End(MdTagEnd::Item),
    ];
    let lines = render_events(&ev);
    let texts: Vec<String> = lines.iter().map(text).collect();
    assert_eq!(texts, vec!["    a", "    b", "", "  • item", "  ☑ done"]);
    assert_eq!(lines[0].spans[0].style.fg, Some(Color::Gray));
    assert_eq!(lines[4].spans[0].style.fg, Some(Color::Green));
}

#[test]
fn unclosed_markup_does_not_panic() {
    let ev = vec![MdEvent::End(MdTagEnd::Strong), MdEvent::End(MdTagEnd::Heading), MdEvent::Text("t".to_string())];
    let lines = render_events(&ev);
    assert_eq!(texts_of(&lines), vec!["", "t"]);
    assert_eq!(render_events(&vec![]).len(), 1);
}

fn texts_of(lines: &[StyledLine]) -> Vec<String> {
    lines.iter().map(text).collect()
}

#[test]
fn one_line_per_code_line_then_a_blank() {
    let ev = vec![
        MdEvent::Start(MdTag::CodeBlock),
        MdEvent::Text("a\n".to_string()),
        MdEvent::End(MdTagEnd::CodeBlock),
    ];
    let lines = render_markdown("```\na\n```", &ev);
    assert_eq!(texts_of(&lines), vec!["    a", ""]);
    let split = vec![
        MdEvent::Start(MdTag::CodeBlock),
        MdEvent::Text("x\n".to_string()),
        MdEvent::Text("y\n".to_string()),
        MdEvent::End(MdTagEnd::CodeBlock),
    ];
    assert_eq!(texts_of(&render_events(&split)), vec!["    x", "    y", ""]);
    let open = vec![MdEvent::Start(MdTag::CodeBlock), MdEvent::Text("z".to_string()), MdEvent::End(MdTagEnd::CodeBlock)];
    assert_eq!(texts_of(&render_events(&open)), vec!["    z", ""]);
}

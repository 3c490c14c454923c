use mido::render::mermaid::{classify, render, Drawing, Kind};

#[test]
fn kinds_split_borders_arrows_and_text() {
    let drawing = render("graph LR\n  A[Read] --> B[Render]\n", 80).unwrap();
    let kinds: Vec<Kind> = drawing.rows.iter().flatten().map(|(k, _)| *k).collect();
    assert!(
        kinds.contains(&Kind::Border) && kinds.contains(&Kind::Edge) && kinds.contains(&Kind::Text)
    );
}

#[test]
fn unknown_or_broken_input_falls_back() {
    assert!(render("zzzDiagram\n  a -> b\n", 80).is_none());
    assert!(render("", 80).is_none());
    assert!(render("graph TD\n", 80).is_none());
}

#[test]
fn text_is_cut_into_runs_and_blank_tail_rows_dropped() {
    let d = Drawing::from_text("┌─┐ ab  \n│x│──▶\n\n  \n");
    assert_eq!(d.rows.len(), 2);
    assert_eq!(
        d.rows[0],
        vec![(Kind::Border, "┌─┐".to_string()), (Kind::Text, " ab".to_string())]
    );
    assert_eq!(
        d.rows[1],
        vec![
            (Kind::Border, "│".to_string()),
            (Kind::Text, "x".to_string()),
            (Kind::Border, "│──".to_string()),
            (Kind::Edge, "▶".to_string()),
        ]
    );
    assert_eq!(d.plain(), vec!["┌─┐ ab".to_string(), "│x│──▶".to_string()]);
    assert_eq!(d.width(), 6);
    assert!(d.has_width());
}

#[test]
fn blank_text_draws_nothing() {
    let d = Drawing::from_text("\n   \n");
    assert!(d.rows.is_empty());
    assert_eq!(d.width(), 0);
    assert!(!d.has_width());
    assert!(Drawing::accept(Some("  \n".to_string())).is_none());
    assert!(Drawing::accept(None).is_none());
    assert_eq!(Drawing::accept(Some("a".to_string())).unwrap().plain(), vec!["a".to_string()]);
}

#[test]
fn characters_are_classified() {
    assert_eq!(classify('▼'), Kind::Edge);
    assert_eq!(classify('◇'), Kind::Edge);
    assert_eq!(classify('─'), Kind::Border);
    assert_eq!(classify('╿'), Kind::Border);
    assert_eq!(classify('a'), Kind::Text);
    assert_eq!(classify('→'), Kind::Text);
}

/// The drawing's rows as plain text; the diagram must render.
fn plain(source: &str) -> String {
    render(source, 80).expect("renders").plain().join("\n")
}

/// A drawing that names each of `labels`.
fn shows(text: &str, labels: &[&str]) {
    assert!(!text.trim().is_empty());
    for label in labels {
        assert!(text.contains(label), "{label} missing from\n{text}");
    }
}

#[test]
fn flowchart_top_down_with_branches_and_labels() {
    let text = plain(
        "graph TD\n  A[Start] --> B{Ready?}\n  B -->|yes| C(Go)\n  B -->|no| D[Wait]\n  D --> B\n  C --> E((Done))\n",
    );
    shows(&text, &["Start", "Ready?", "Go", "Wait", "Done"]);
}

#[test]
fn flowchart_left_right_chain_with_fan_out() {
    let text = plain("flowchart LR\n  In --> Parse --> Layout\n  Layout --> Paint & Print\n  Parse -.-> Cache\n");
    shows(&text, &["In", "Parse", "Layout", "Paint", "Print", "Cache"]);
}

#[test]
fn sequence_with_notes_blocks_and_numbers() {
    let text = plain(
        "sequenceDiagram\n  autonumber\n  participant A as Alice\n  participant B as Bob\n  A->>B: Hello Bob, how are you?\n  Note right of B: Bob thinks\n  loop every minute\n    B-->>A: Great!\n    A-xB: Ping\n  end\n  Note over A,B: The end\n",
    );
    shows(&text, &["Alice", "Bob"]);
}

#[test]
fn class_state_and_pie_render_too() {
    let class = plain("classDiagram\n  class Animal {\n    +String name\n    +speak()\n  }\n  Animal <|-- Dog\n");
    shows(&class, &["Animal", "Dog"]);
    let state = plain("stateDiagram-v2\n  [*] --> Idle\n  Idle --> Running : start\n  Running --> [*]\n");
    shows(&state, &["Idle", "Running"]);
    let pie = plain("pie title Pets\n  \"Dogs\" : 3\n  \"Cats\" : 2\n");
    shows(&pie, &["Dogs", "Cats"]);
}

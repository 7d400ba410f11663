use miniprinter::compose::compose;
use miniprinter::compose::Directive;
use miniprinter::model::CalendarDate;
use miniprinter::model::Clue;
use miniprinter::model::ClueList;
use miniprinter::model::ClueText;
use miniprinter::model::Direction;
use miniprinter::model::MiniCrossword;
use miniprinter::model::Puzzle;

fn clue(label: &str, text: &str) -> Clue {
    Clue {
        label: label.to_string(),
        text: vec![ClueText {
            plain: text.to_string(),
        }],
    }
}

fn sample_doc() -> MiniCrossword {
    MiniCrossword {
        body: vec![Puzzle {
            board: "<svg/>".to_string(),
            clue_lists: vec![
                ClueList {
                    clues: vec![0, 1],
                    name: Direction::Across,
                },
                ClueList {
                    clues: vec![2],
                    name: Direction::Down,
                },
            ],
            clues: vec![
                clue("1", "Capital of France"),
                clue("5", "Opposite of down"),
                clue("2", "Not odd"),
            ],
        }],
        constructors: vec!["Ada Lovelace".to_string(), "Alan Turing".to_string()],
        editor: "Grace Hopper".to_string(),
        publication_date: CalendarDate {
            year: 2024,
            month: 1,
            day: 1,
        },
    }
}

fn line(d: &Directive) -> &str {
    match d {
        Directive::Line(s) => s,
        _ => panic!("expected a text line"),
    }
}

#[test]
fn receipt_follows_the_directive_order() {
    let doc = sample_doc();
    let png = vec![1u8, 2, 3];
    let ds = compose(&doc, 32, png.clone()).expect("all clue references are in range");
    assert_eq!(line(&ds[0]), "The NYT Mini Crossword");
    assert_eq!(line(&ds[1]), "Monday, January 1, 2024");
    assert!(matches!(ds[2], Directive::Feed));
    match &ds[3] {
        Directive::Bitmap(b) => assert_eq!(b, &png),
        _ => panic!("expected the board bitmap"),
    }
    assert!(matches!(ds[4], Directive::Feed));
    assert!(matches!(ds[5], Directive::Feed));
    assert_eq!(line(&ds[6]), "Across:");
    assert_eq!(line(&ds[7]), "1: Capital of France");
    assert_eq!(line(&ds[8]), "5: Opposite of down");
    assert!(matches!(ds[9], Directive::Feed));
    assert_eq!(line(&ds[10]), "Down:");
    assert_eq!(line(&ds[11]), "2: Not odd");
    assert!(matches!(ds[12], Directive::Feed));
    assert_eq!(line(&ds[13]), "By Ada Lovelace and Alan Turing");
    assert_eq!(line(&ds[14]), "Edited by Grace Hopper");
    assert!(matches!(ds[15], Directive::Cut));
    assert_eq!(ds.len(), 16);
}

#[test]
fn long_clues_wrap_with_hanging_indent() {
    let doc = sample_doc();
    let ds = compose(&doc, 16, vec![]).expect("all clue references are in range");
    assert_eq!(line(&ds[6]), "Across:");
    assert_eq!(line(&ds[7]), "1: Capital of");
    assert_eq!(line(&ds[8]), "   France");
    assert_eq!(line(&ds[9]), "5: Opposite of");
    assert_eq!(line(&ds[10]), "   down");
}

#[test]
fn out_of_range_clue_reference_is_an_index_error() {
    // A group referencing position 99 on a clue sequence of length 5.
    let mut doc = sample_doc();
    doc.body[0].clues = vec![
        clue("1", "a"),
        clue("2", "b"),
        clue("3", "c"),
        clue("4", "d"),
        clue("5", "e"),
    ];
    doc.body[0].clue_lists = vec![
        ClueList {
            clues: vec![0, 1],
            name: Direction::Across,
        },
        ClueList {
            clues: vec![99, 2],
            name: Direction::Down,
        },
    ];
    match compose(&doc, 32, vec![]) {
        Ok(_) => panic!("an out-of-range reference must fail"),
        Err(e) => assert_eq!(e.index, 99),
    }
    // Nothing was produced: in particular no credit block and no cut
    // directive were emitted.
}

#[test]
fn constructor_credit_wraps_over_lines() {
    let mut doc = sample_doc();
    doc.constructors = vec![
        "Ada Lovelace".to_string(),
        "Alan Turing".to_string(),
        "Grace Hopper".to_string(),
    ];
    let ds = compose(&doc, 20, vec![]).expect("all clue references are in range");
    let lines: Vec<&str> = ds
        .iter()
        .filter_map(|d| match d {
            Directive::Line(s) => Some(s.as_str()),
            _ => None,
        })
        .collect();
    let by = lines
        .iter()
        .position(|l| l.starts_with("By "))
        .expect("a credit block is present");
    assert_eq!(lines[by], "By Ada Lovelace,");
    assert_eq!(lines[by + 1], "   Alan Turing, and");
    assert_eq!(lines[by + 2], "   Grace Hopper");
    assert_eq!(lines[by + 3], "Edited by Grace Hopper");
}

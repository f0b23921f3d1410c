//! Tests of the document codec: parsing, rendering, and their round trip
//! on concrete documents.

use fe_editor::document::{render_document, DocValue};
use fe_editor::parse::parse_document_text;
use fe_editor::ErrorKind;

fn table(pairs: Vec<(&str, DocValue)>) -> DocValue {
    DocValue::Table(pairs.into_iter().map(|(k, v)| (k.to_string(), v)).collect())
}

#[test]
fn parses_flat_integers() {
    let doc = parse_document_text("width = 15\nheight = 10\n").unwrap();
    match doc {
        DocValue::Table(ps) => {
            assert_eq!(ps.len(), 2);
            assert_eq!(ps[0].0, "width");
            assert!(matches!(ps[0].1, DocValue::Int(15)));
            assert_eq!(ps[1].0, "height");
            assert!(matches!(ps[1].1, DocValue::Int(10)));
        }
        _ => panic!("expected a table"),
    }
}

#[test]
fn parses_negative_and_extreme_integers() {
    let doc = parse_document_text("a = -3\nb = 9223372036854775807\nc = -9223372036854775808\n")
        .unwrap();
    match doc {
        DocValue::Table(ps) => {
            assert!(matches!(ps[0].1, DocValue::Int(-3)));
            assert!(matches!(ps[1].1, DocValue::Int(i64::MAX)));
            assert!(matches!(ps[2].1, DocValue::Int(i64::MIN)));
        }
        _ => panic!("expected a table"),
    }
}

#[test]
fn rejects_out_of_range_integer() {
    let err = parse_document_text("a = 9223372036854775808\n").unwrap_err();
    assert_eq!(err.kind, ErrorKind::Parse);
}

#[test]
fn parses_strings_with_escapes() {
    let doc = parse_document_text("name = \"a \\\"b\\\" \\\\ c\"\n").unwrap();
    match doc {
        DocValue::Table(ps) => match &ps[0].1 {
            DocValue::Str(s) => assert_eq!(s, "a \"b\" \\ c"),
            _ => panic!("expected a string"),
        },
        _ => panic!("expected a table"),
    }
}

#[test]
fn parses_arrays_and_inline_tables() {
    let doc = parse_document_text("xs = [1, 2, 3]\nys = [{x = 1, y = 2}, {x = 3, y = 4}]\n")
        .unwrap();
    match doc {
        DocValue::Table(ps) => {
            match &ps[0].1 {
                DocValue::Arr(es) => {
                    assert_eq!(es.len(), 3);
                    assert!(matches!(es[2], DocValue::Int(3)));
                }
                _ => panic!("expected an array"),
            }
            match &ps[1].1 {
                DocValue::Arr(es) => {
                    assert_eq!(es.len(), 2);
                    match &es[1] {
                        DocValue::Table(sps) => {
                            assert_eq!(sps[0].0, "x");
                            assert!(matches!(sps[0].1, DocValue::Int(3)));
                        }
                        _ => panic!("expected an inline table"),
                    }
                }
                _ => panic!("expected an array"),
            }
        }
        _ => panic!("expected a table"),
    }
}

#[test]
fn parses_sections() {
    let doc = parse_document_text("[Knight]\ndesc = \"mounted\"\n\n[\"Bow Man\"]\ndesc = \"x\"\n")
        .unwrap();
    match doc {
        DocValue::Table(ps) => {
            assert_eq!(ps.len(), 2);
            assert_eq!(ps[0].0, "Knight");
            match &ps[0].1 {
                DocValue::Table(sps) => match &sps[0].1 {
                    DocValue::Str(s) => assert_eq!(s, "mounted"),
                    _ => panic!("expected a string"),
                },
                _ => panic!("expected a section table"),
            }
            assert_eq!(ps[1].0, "Bow Man");
        }
        _ => panic!("expected a table"),
    }
}

#[test]
fn tolerates_a_trailing_separator_when_reading() {
    // The parser is permissive about formatting; only the renderer
    // guarantees that it never emits a trailing separator.
    let doc = parse_document_text("a = [1, 2,]\nb = {x = 1,}\n").unwrap();
    match doc {
        DocValue::Table(ps) => {
            assert!(matches!(&ps[0].1, DocValue::Arr(es) if es.len() == 2));
            assert!(matches!(&ps[1].1, DocValue::Table(sps) if sps.len() == 1));
        }
        _ => panic!("expected a table"),
    }
}

#[test]
fn tolerates_padding_and_blank_lines() {
    let doc = parse_document_text("\n  a\t =  7 \r\n\n b = \"c\"  \n\n").unwrap();
    match doc {
        DocValue::Table(ps) => {
            assert_eq!(ps.len(), 2);
            assert!(matches!(ps[0].1, DocValue::Int(7)));
        }
        _ => panic!("expected a table"),
    }
}

#[test]
fn rejects_malformed_text() {
    for bad in [
        "a = \n",
        "a 7\n",
        "= 7\n",
        "a = [1, 2\n",
        "a = [,]\n",
        "a = [1,, 2]\n",
        "a = \"unterminated\n",
        "[section\ndesc = \"x\"\n",
        "a = {x = 1",
        "a = {x 1}\n",
        "a = 7 trailing\n",
    ] {
        let err = parse_document_text(bad).unwrap_err();
        assert_eq!(err.kind, ErrorKind::Parse, "accepted: {bad:?}");
    }
}

#[test]
fn renders_lines_arrays_and_sections() {
    let doc = table(vec![
        ("width", DocValue::Int(2)),
        ("data", DocValue::Arr(vec![DocValue::Int(0), DocValue::Int(1)])),
        ("empty", DocValue::Arr(vec![])),
        (
            "Knight",
            table(vec![("desc", DocValue::Str("mounted".to_string()))]),
        ),
    ]);
    let text = render_document(&doc);
    assert_eq!(
        text,
        "width = 2\ndata = [0, 1]\nempty = []\n[Knight]\ndesc = \"mounted\"\n"
    );
}

#[test]
fn renders_quoted_keys_and_escaped_strings() {
    let doc = table(vec![(
        "odd key",
        DocValue::Str("q\"uote\\slash".to_string()),
    )]);
    let text = render_document(&doc);
    assert_eq!(text, "\"odd key\" = \"q\\\"uote\\\\slash\"\n");
}

#[test]
fn round_trips_documents_through_text() {
    let docs = vec![
        table(vec![("a", DocValue::Int(0))]),
        table(vec![
            ("width", DocValue::Int(15)),
            ("height", DocValue::Int(-10)),
            (
                "units",
                DocValue::Arr(vec![table(vec![
                    ("x", DocValue::Int(1)),
                    ("name", DocValue::Str("a b\\\"c".to_string())),
                ])]),
            ),
            ("empty", DocValue::Arr(vec![])),
        ]),
        table(vec![
            ("plain", DocValue::Str(String::new())),
            ("One", table(vec![("desc", DocValue::Str("first".to_string()))])),
            ("Two", table(vec![("desc", DocValue::Str("second".to_string()))])),
        ]),
    ];
    for doc in docs {
        let text = render_document(&doc);
        let back = parse_document_text(text.as_str()).unwrap();
        assert_eq!(back, doc, "through {text:?}");
    }
}

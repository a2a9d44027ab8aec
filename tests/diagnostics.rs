use gearbuild::{
    text_location, Diagnostic, Diagnostics, FixingSuggestion, Location, Severity, TextPoint,
    TextSpan,
};

#[test]
fn fixit_clang() {
    let txt = "fix-it:\"t.cpp\":{7:25-7:29}:\"Gamma\"";
    let fix: FixingSuggestion = txt.parse().unwrap();
    assert_eq!(
        fix,
        FixingSuggestion {
            file: "t.cpp".into(),
            span: TextSpan {
                start: TextPoint { line: 7, column: 25 },
                end: TextPoint { line: 7, column: 29 }
            },
            text: "Gamma".into()
        }
    );
}

#[test]
fn fixit_gcc() {
    let txt = "fix-it:\"test.c\":{45:3-45:21}:\"gtk_widget_show_all\"";
    let fix: FixingSuggestion = txt.parse().unwrap();
    assert_eq!(
        fix,
        FixingSuggestion {
            file: "test.c".into(),
            span: TextSpan {
                start: TextPoint { line: 45, column: 3 },
                end: TextPoint { line: 45, column: 21 }
            },
            text: "gtk_widget_show_all".into()
        }
    );
}

fn single(severity: Severity, message: &str, file: &str, line: u32, column: u32) -> Diagnostic {
    Diagnostic {
        severity,
        message: message.into(),
        locations: vec![Location {
            file: file.into(),
            span: None,
            point: Some(TextPoint { line, column }),
            label: None,
        }],
        ..Default::default()
    }
}

#[test]
fn gcc_le_6() {
    let msg = r#"examples/c/src/main.c:4:20: fatal error: common.h: No such file or directory
 #include "common.h"
                    ^
compilation terminated.

"#;
    let dia: Diagnostic = msg.parse().unwrap();
    assert_eq!(
        dia,
        single(Severity::Fatal, "common.h: No such file or directory", "examples/c/src/main.c", 4, 20)
    );
}

#[test]
fn gcc_ge_7() {
    let msg = r#"examples/c/src/main.c:4:10: fatal error: common.h: No such file or directory
 #include "common.h"
          ^~~~~~~~~~
compilation terminated.

"#;
    let dia: Diagnostic = msg.parse().unwrap();
    assert_eq!(
        dia,
        single(Severity::Fatal, "common.h: No such file or directory", "examples/c/src/main.c", 4, 10)
    );
}

#[test]
fn clang_ge_5() {
    let msg = r#"examples/c/src/main.c:4:10: fatal error: 'common.h' file not found
#include "common.h"
         ^~~~~~~~~~
1 error generated.

"#;
    let dia: Diagnostic = msg.parse().unwrap();
    assert_eq!(
        dia,
        single(Severity::Fatal, "'common.h' file not found", "examples/c/src/main.c", 4, 10)
    );
}

#[test]
fn diag_single() {
    let msg = r#"examples/c/src/main.c:4:10: fatal error: 'common.h' file not found
#include "common.h"
         ^~~~~~~~~~
examples/c/src/main.c:5:10: fatal error: 'bye.h' file not found
#include "bye.h"
         ^~~~~~~

examples/c/src/main.c:6:10: fatal error: 'hello.h' file not found
#include "hello.h"
         ^~~~~~~~~

3 errors generated.

"#;
    let dia: Diagnostics = msg.parse().unwrap();
    assert_eq!(
        dia,
        Diagnostics(vec![
            single(Severity::Fatal, "'common.h' file not found", "examples/c/src/main.c", 4, 10),
            single(Severity::Fatal, "'bye.h' file not found", "examples/c/src/main.c", 5, 10),
            single(Severity::Fatal, "'hello.h' file not found", "examples/c/src/main.c", 6, 10),
        ]),
    );
}

#[test]
fn diag_multiple() {
    let msg = r#"examples/c/src/main.c:4:10: fatal error: 'common.h' file not found
#include "common.h"
         ^~~~~~~~~~
1 error generated.

"#;
    let dia: Diagnostics = msg.parse().unwrap();
    assert_eq!(
        dia,
        Diagnostics(vec![single(
            Severity::Fatal,
            "'common.h' file not found",
            "examples/c/src/main.c",
            4,
            10
        )]),
    );
}

#[test]
fn caret_only() {
    let msg = "     ^";
    assert_eq!(text_location(msg).unwrap(), ("".to_string(), (Some(5), None)));
}

#[test]
fn span_only() {
    let msg = "   ~~~~~";
    assert_eq!(text_location(msg).unwrap(), ("".to_string(), (None, Some((3, 7)))));
}

#[test]
fn separated_span() {
    let msg = "   ~~  ~~~";
    assert_eq!(text_location(msg).unwrap(), ("".to_string(), (None, Some((3, 9)))));
}

#[test]
fn span_with_caret_at_end() {
    let msg = "    ~~~^";
    assert_eq!(text_location(msg).unwrap(), ("".to_string(), (Some(7), Some((4, 7)))));
}

#[test]
fn span_with_caret_at_start() {
    let msg = "    ^~~~~";
    assert_eq!(text_location(msg).unwrap(), ("".to_string(), (Some(4), Some((4, 8)))));
}

#[test]
fn span_with_caret_into() {
    let msg = "    ~~^~~~";
    assert_eq!(text_location(msg).unwrap(), ("".to_string(), (Some(6), Some((4, 9)))));
}

#[test]
fn separated_span_with_caret_into() {
    let msg = "    ~~ ^ ~~~";
    assert_eq!(text_location(msg).unwrap(), ("".to_string(), (Some(7), Some((4, 11)))));
}

#[test]
fn fixit_round_trip() {
    let fix = FixingSuggestion {
        file: "my dir/a:b.c".into(),
        span: TextSpan { start: TextPoint { line: 12, column: 0 }, end: TextPoint { line: 4294967295, column: 9 } },
        text: "say \"hi\" \\ there".into(),
    };
    let text = fix.to_text();
    assert_eq!(text, "fix-it:\"my\\ dir/a\\:b.c\":{12:0-4294967295:9}:\"say\\ \\\"hi\\\"\\ \\\\\\ there\"");
    let back: FixingSuggestion = text.parse().unwrap();
    assert_eq!(back, fix);
}

#[test]
fn fixit_rejects_trailing_text() {
    assert!("fix-it:\"a\":{1:2-3:4}:\"b\" x".parse::<FixingSuggestion>().is_err());
    assert!("fix-it:\"a\":{1:2-3:99999999999}:\"b\"".parse::<FixingSuggestion>().is_err());
}

#[test]
fn severity_words() {
    assert_eq!(Severity::parse("fatal error"), Severity::Fatal);
    assert_eq!(Severity::parse("internal compiler error"), Severity::Fatal);
    assert_eq!(Severity::parse("sorry, unimplemented"), Severity::Fatal);
    assert_eq!(Severity::parse("error"), Severity::Error);
    assert_eq!(Severity::parse("warning"), Severity::Warning);
    assert_eq!(Severity::parse("anachronism"), Severity::Fatal);
    assert_eq!(Severity::parse("note"), Severity::Note);
    assert_eq!(Severity::parse("remark"), Severity::Note);
    assert_eq!(Severity::parse("debug"), Severity::Fatal);
    assert_eq!(Severity::parse("warning: unused"), Severity::Warning);
    assert_eq!(Severity::parse("something else"), Severity::Fatal);
    assert_eq!(Severity::Warning.as_str(), "warning");
}

#[test]
fn failure_follows_worst_severity() {
    let none = Diagnostics(vec![]);
    assert_eq!(none.severity(), Severity::Debug);
    assert!(!none.is_failed());
    let warn = Diagnostics(vec![single(Severity::Warning, "w", "a.c", 1, 1), single(Severity::Note, "n", "a.c", 1, 1)]);
    assert_eq!(warn.severity(), Severity::Warning);
    assert!(!warn.is_failed());
    let err = Diagnostics(vec![single(Severity::Note, "n", "a.c", 1, 1), single(Severity::Error, "e", "a.c", 2, 1)]);
    assert_eq!(err.severity(), Severity::Error);
    assert!(err.is_failed());
}

#[test]
fn point_and_span_text() {
    let p: TextPoint = "3:14".parse().unwrap();
    assert_eq!(p, TextPoint { line: 3, column: 14 });
    let s: TextSpan = "3:14-15:9".parse().unwrap();
    assert_eq!(s.to_text().iter().collect::<String>(), "3:14-15:9");
    assert!("3:".parse::<TextPoint>().is_err());
}

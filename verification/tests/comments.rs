use rsmt2::conf::SolverConf;
use rsmt2::solver::Solver;
use rsmt2::text::split_lines;

fn solver() -> Solver<()> {
    Solver::new(SolverConf::new(Vec::new(), None), ())
}

fn only_comments(t: &str) -> bool {
    t.split('\n').all(|l| l.is_empty() || l.starts_with(";;"))
}

#[test]
fn comments_lines() {
    let mut s = solver();
    s.comments(&["first", "second"]);
    assert_eq!(s.pending(), ";; first\n;; second\n\n");
}

#[test]
fn comments_no_lines() {
    let mut s = solver();
    s.comments(&[]);
    assert_eq!(s.pending(), "\n");
}

#[test]
fn comment_sanitizes_newlines() {
    let mut s = solver();
    s.comment("a\n(exit)\nb");
    assert_eq!(s.pending(), ";; a\n;; (exit)\n;; b\n\n");
    assert!(only_comments(s.pending()));
}

#[test]
fn comment_crlf_and_trailing_newline() {
    let mut s = solver();
    s.comment("x\r\ny\n");
    assert_eq!(s.pending(), ";; x\n;; y\n\n");
}

#[test]
fn comment_empty_text() {
    let mut s = solver();
    s.comment("");
    assert_eq!(s.pending(), "\n");
}

#[test]
fn comment_empty_lines_kept() {
    let mut s = solver();
    s.comment("\n\nz");
    assert_eq!(s.pending(), ";; \n;; \n;; z\n\n");
    assert!(only_comments(s.pending()));
}

#[test]
fn comment_matches_std_lines() {
    for txt in ["a\nb", "a\r\nb\r\n", "\r", "a\r", "a\r\r\nb", "\n", "é\nü", ""] {
        let ours: Vec<String> = split_lines(txt);
        let std_lines: Vec<String> = txt.lines().map(|l| l.to_string()).collect();
        assert_eq!(ours, std_lines, "text {:?}", txt);
    }
}

#[test]
fn comment_equals_comments_of_lines() {
    let txt = "one\r\ntwo\nthree";
    let mut a = solver();
    a.comment(txt);
    let mut b = solver();
    let ls: Vec<&str> = txt.lines().collect();
    b.comments(&ls);
    assert_eq!(a.pending(), b.pending());
}

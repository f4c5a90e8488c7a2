use rsmt2::common::{write_u8, Logic};
use rsmt2::conf::SolverConf;
use rsmt2::solver::{ResetAction, Solver};

fn solver() -> Solver<()> {
    Solver::new(SolverConf::new(vec!["-in".to_string()], Some("check-sat-assuming".to_string())), ())
}

fn plain_solver() -> Solver<()> {
    Solver::new(SolverConf::new(Vec::new(), None), ())
}

#[test]
fn new_solver_has_no_output() {
    let s = solver();
    assert_eq!(s.pending(), "");
    assert_eq!(s.conf().options(), &vec!["-in".to_string()]);
    assert_eq!(s.conf().check_sat_assuming(), Some("check-sat-assuming"));
}

#[test]
fn reset_and_exit() {
    let mut s = solver();
    assert_eq!(s.reset(), ResetAction::Sent);
    s.exit();
    assert_eq!(s.pending(), "(reset)\n\n(exit)\n");
}

#[test]
fn reset_without_reset_command_asks_restart() {
    let mut conf = SolverConf::new(Vec::new(), None);
    assert!(conf.supports_reset());
    conf.set_reset_support(false);
    assert!(!conf.supports_reset());
    let mut s: Solver<()> = Solver::new(conf, ());
    s.check_sat();
    assert_eq!(s.reset(), ResetAction::Restart);
    assert_eq!(s.pending(), "(check-sat)\n\n");
    assert!(!s.conf().supports_reset());
}

#[test]
fn set_logic_prints_name() {
    let mut s = solver();
    s.set_logic(&Logic::QF_LIA);
    assert_eq!(s.pending(), "(set-logic QF_LIA)\n\n");
    let mut s = solver();
    s.set_logic(&Logic::AUFNIRA);
    assert_eq!(s.pending(), "(set-logic AUFNIRA)\n\n");
}

#[test]
fn options() {
    let mut s = solver();
    s.set_option(":random-seed", "7");
    assert_eq!(s.pending(), "(set-option :random-seed 7)\n\n");
    let mut s = solver();
    s.interactive_mode();
    s.print_success();
    s.print_unsat_core();
    assert_eq!(
        s.pending(),
        "(set-option :interactive-mode true)\n\n\
         (set-option :print-success true)\n\n\
         (set-option :produce-unsat-cores true)\n\n"
    );
}

#[test]
fn push_pop_decimal() {
    let mut s = solver();
    s.push(&0);
    s.push(&7);
    s.pop(&42);
    s.pop(&255);
    s.push(&100);
    assert_eq!(s.pending(), "(push 0)\n\n(push 7)\n\n(pop 42)\n\n(pop 255)\n\n(push 100)\n\n");
}

#[test]
fn write_u8_exact() {
    let mut w = String::from("x");
    write_u8(&mut w, 9);
    write_u8(&mut w, 10);
    write_u8(&mut w, 199);
    assert_eq!(w, "x910199");
}

#[test]
fn reset_assertions_and_queries() {
    let mut s = solver();
    s.reset_assertions();
    s.get_assertions();
    s.check_sat();
    s.get_assignment();
    s.get_model();
    s.get_unsat_assumptions();
    s.get_proof();
    s.get_unsat_core();
    assert_eq!(
        s.pending(),
        "(reset-assertions)\n\n(get-assertions)\n\n(check-sat)\n\n(get-assignment)\n\n\
         (get-model)\n\n(get-unsat-assumptions)\n\n(get-proof)\n\n(get-unsat-core)\n\n"
    );
}

#[test]
fn declare_sort_and_const() {
    let mut s = solver();
    s.declare_sort("Set", &1);
    s.declare_const("x", "Int");
    assert_eq!(s.pending(), "(declare-sort Set 1)\n\n(declare-const x Int)\n\n");
}

#[test]
fn define_sort_text() {
    let mut s = solver();
    s.define_sort("Pair", &["X", "Y"], "(Tuple X Y)");
    assert_eq!(s.pending(), "( define-sort Pair\n   ( X Y )\n   (Tuple X Y)\n)\n\n");
    let mut s = solver();
    let none: [&str; 0] = [];
    s.define_sort("I", &none, "Int");
    assert_eq!(s.pending(), "( define-sort I\n   ( )\n   Int\n)\n\n");
}

#[test]
fn declare_fun_text() {
    let mut s = solver();
    s.declare_fun(&"f", (), &["Int", "Bool"], "Real");
    assert_eq!(s.pending(), "(declare-fun f ( Int Bool ) Real)\n\n");
    let mut t = solver();
    t.ninfo_declare_fun(&"f", &["Int", "Bool"], "Real");
    assert_eq!(t.pending(), s.pending());
}

#[test]
fn define_fun_text() {
    let mut s = solver();
    s.define_fun("max", &[("a", "Int"), ("b", "Int")], "Int", "(ite (> a b) a b)");
    assert_eq!(s.pending(), "(define-fun max ( (a Int) (b Int) ) Int\n   (ite (> a b) a b)\n)\n\n");
}

#[test]
fn define_fun_rec_text() {
    let mut s = solver();
    s.define_fun_rec("f", &[("n", "Int")], "Int", "(f n)");
    assert_eq!(s.pending(), "(define-fun-rec f ( (n Int) ) Int\n   (f n)\n)\n\n");
}

#[test]
fn define_funs_rec_text() {
    let mut s = solver();
    let even_args: &[(&str, &str)] = &[("n", "Int")];
    let odd_args: &[(&str, &str)] = &[("m", "Int")];
    s.define_funs_rec(&[
        ("even", even_args, "Bool", "(odd n)"),
        ("odd", odd_args, "Bool", "(even m)"),
    ]);
    assert_eq!(
        s.pending(),
        "(define-funs-rec (\n   (even ( (n Int) ) Bool)\n   (odd ( (m Int) ) Bool)\n ) (\n   (odd n)\n   (even m)\n )\n)\n\n"
    );
}

#[test]
fn define_funs_rec_empty() {
    let mut s = solver();
    let funs: [(&str, &[(&str, &str)], &str, &str); 0] = [];
    s.define_funs_rec(&funs);
    assert_eq!(s.pending(), "(define-funs-rec (\n ) (\n )\n)\n\n");
}

#[test]
fn assert_has_no_trailing_newlines() {
    let mut s = solver();
    s.assert_expr(&"(> x 0)", ());
    assert_eq!(s.pending(), "(assert\n  (> x 0)\n)");
    let mut t = solver();
    t.ninfo_assert(&"(> x 0)");
    assert_eq!(t.pending(), s.pending());
}

#[test]
fn check_sat_assuming_text() {
    let mut s = solver();
    s.check_sat_assuming(&["a", "b"], ());
    assert_eq!(s.pending(), "(check-sat-assuming\n  a b\n)\n\n");
    let mut t = solver();
    t.ninfo_check_sat_assuming(&["a", "b"]);
    assert_eq!(t.pending(), s.pending());
}

#[test]
fn check_sat_assuming_uses_configured_name() {
    let mut s: Solver<()> =
        Solver::new(SolverConf::new(Vec::new(), Some("check-sat-with".to_string())), ());
    s.check_sat_assuming(&["p"], ());
    assert_eq!(s.pending(), "(check-sat-with\n  p\n)\n\n");
}

#[test]
fn unsupported_check_sat_assuming_is_visible() {
    let s = plain_solver();
    assert_eq!(s.conf().check_sat_assuming(), None);
}

#[test]
fn get_value_text() {
    let mut s = solver();
    s.get_value(&["x", "(+ x 1)"], ());
    assert_eq!(s.pending(), "(get-value (\n  x\n  (+ x 1)\n))\n\n");
    let mut t = solver();
    t.ninfo_get_value(&["x", "(+ x 1)"]);
    assert_eq!(t.pending(), s.pending());
}

#[test]
fn settings_and_info() {
    let mut s = solver();
    s.get_info(":name");
    s.get_option(":produce-models");
    s.set_info(":status sat");
    s.echo("hello");
    assert_eq!(
        s.pending(),
        "(get-info :name)\n\n(get-option :produce-models)\n\n(set-info :status sat)\n\n(echo \"hello\")\n\n"
    );
}

#[test]
fn echo_doubles_quotes() {
    let mut s = solver();
    s.echo("a\"b");
    assert_eq!(s.pending(), "(echo \"a\"\"b\")\n\n");
    let mut t = solver();
    t.echo("\"\"é");
    assert_eq!(t.pending(), "(echo \"\"\"\"\"é\")\n\n");
    let mut u = solver();
    u.echo("");
    assert_eq!(u.pending(), "(echo \"\")\n\n");
}

#[test]
fn take_output_empties() {
    let mut s = solver();
    s.check_sat();
    let t = s.take_output();
    assert_eq!(t, "(check-sat)\n\n");
    assert_eq!(s.pending(), "");
    s.get_model();
    assert_eq!(s.take_output(), "(get-model)\n\n");
}

#[test]
fn owned_strings_print() {
    let mut s = solver();
    let sym = String::from("y");
    s.declare_const(&sym, String::from("Bool"));
    assert_eq!(s.pending(), "(declare-const y Bool)\n\n");
}

#[test]
fn commands_in_order() {
    let mut s = solver();
    s.push(&1);
    s.ninfo_assert(&"p");
    s.check_sat();
    s.pop(&1);
    assert_eq!(s.pending(), "(push 1)\n\n(assert\n  p\n)(check-sat)\n\n(pop 1)\n\n");
}

#[test]
fn into_parts_gives_back_conf_and_parser() {
    let s: Solver<u32> = Solver::new(SolverConf::new(vec!["-q".to_string()], None), 17);
    assert_eq!(*s.parser(), 17);
    let (conf, parser) = s.into_parts();
    assert_eq!(conf.options(), &vec!["-q".to_string()]);
    assert_eq!(conf.check_sat_assuming(), None);
    assert_eq!(parser, 17);
}

#[test]
fn every_logic_name() {
    let all = [
        (Logic::QF_UF, "QF_UF"),
        (Logic::QF_LIA, "QF_LIA"),
        (Logic::QF_NIA, "QF_NIA"),
        (Logic::QF_LRA, "QF_LRA"),
        (Logic::QF_AUFLIA, "QF_AUFLIA"),
        (Logic::AUFLIA, "AUFLIA"),
        (Logic::AUFLIRA, "AUFLIRA"),
        (Logic::AUFNIRA, "AUFNIRA"),
        (Logic::LRA, "LRA"),
    ];
    for (logic, name) in all {
        let mut s = solver();
        s.set_logic(&logic);
        assert_eq!(s.pending(), format!("(set-logic {})\n\n", name));
    }
}

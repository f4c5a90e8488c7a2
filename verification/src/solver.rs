//! The solver: every SMT-LIB 2 command appends its text to the solver's
//! pending output.

use vstd::prelude::*;
use vstd::string::*;

use crate::common::{
    decimal, prefixed, sorted_vars, spaced, write_prefixed, write_sorted_vars, write_spaced, write_u8,
    Logic, PrintSmt2,
};
use crate::conf::SolverConf;
use crate::text::{
    comment_block, escape_quotes, lines, split_lines, write_comment_block, write_escaped,
};

verus! {

/// A solver as seen from the library: its configuration, its parser, and the
/// text of the commands written to it that the caller has not yet sent.
pub struct Solver<Parser> {
    conf: SolverConf,
    parser: Parser,
    out: String,
}

/// What a reset asks of the caller.
#[derive(Clone, Copy, Debug, PartialEq, Eq)]
pub enum ResetAction {
    /// The reset command was written; send it as any other command.
    Sent,
    /// The solver has no reset command: restart the solver process.
    Restart,
}

/// Text of `define-sort`.
pub open spec fn define_sort_text<S: PrintSmt2<()>, E: PrintSmt2<()>>(
    sort: S,
    args: Seq<E>,
    body: E,
) -> Seq<char> {
    "( define-sort "@ + sort.smt2(()) + "\n   ( "@ + spaced(args, ()) + ")\n   "@ + body.smt2(())
        + "\n)\n\n"@
}

/// Text of `declare-fun`.
pub open spec fn declare_fun_text<II, S: PrintSmt2<()>, I: PrintSmt2<II>>(
    symbol: I,
    info: II,
    args: Seq<S>,
    out: S,
) -> Seq<char> {
    "(declare-fun "@ + symbol.smt2(info) + " ( "@ + spaced(args, ()) + ") "@ + out.smt2(()) + ")\n\n"@
}

/// Text of `define-fun`.
pub open spec fn define_fun_text<S: PrintSmt2<()>, I: PrintSmt2<()>, E: PrintSmt2<()>>(
    symbol: I,
    args: Seq<(I, S)>,
    out: S,
    body: E,
) -> Seq<char> {
    "(define-fun "@ + symbol.smt2(()) + " ( "@ + sorted_vars(args) + ") "@ + out.smt2(()) + "\n   "@
        + body.smt2(()) + "\n)\n\n"@
}

/// The declaration of one function of a `define-funs-rec`.
pub open spec fn rec_signature<S: PrintSmt2<()>, I: PrintSmt2<()>>(
    symbol: I,
    args: Seq<(I, S)>,
    out: S,
) -> Seq<char> {
    "   ("@ + symbol.smt2(()) + " ( "@ + sorted_vars(args) + ") "@ + out.smt2(()) + ")\n"@
}

/// The signatures of the functions of a `define-funs-rec`, in order.
pub open spec fn rec_signatures<'a, S: PrintSmt2<()>, I: PrintSmt2<()>, E>(
    funs: Seq<(I, &'a [(I, S)], S, E)>,
) -> Seq<char>
    decreases funs.len(),
{
    if funs.len() == 0 {
        Seq::empty()
    } else {
        rec_signatures(funs.drop_last()) + rec_signature(funs.last().0, funs.last().1@, funs.last().2)
    }
}

/// The bodies of the functions of a `define-funs-rec`, in order.
pub open spec fn rec_bodies<'a, S, I, E: PrintSmt2<()>>(
    funs: Seq<(I, &'a [(I, S)], S, E)>,
) -> Seq<char>
    decreases funs.len(),
{
    if funs.len() == 0 {
        Seq::empty()
    } else {
        rec_bodies(funs.drop_last()) + "\n   "@ + funs.last().3.smt2(())
    }
}

/// Text of `define-funs-rec`.
pub open spec fn define_funs_rec_text<'a, S: PrintSmt2<()>, I: PrintSmt2<()>, E: PrintSmt2<()>>(
    funs: Seq<(I, &'a [(I, S)], S, E)>,
) -> Seq<char> {
    "(define-funs-rec (\n"@ + rec_signatures(funs) + " ) ("@ + rec_bodies(funs) + "\n )\n)\n\n"@
}

/// Text of `define-fun-rec`: the symbol, its sorted variables, its sort and
/// its body, as the standard writes a function definition.
pub open spec fn define_fun_rec_text<S: PrintSmt2<()>, I: PrintSmt2<()>, E: PrintSmt2<()>>(
    symbol: I,
    args: Seq<(I, S)>,
    out: S,
    body: E,
) -> Seq<char> {
    "(define-fun-rec "@ + symbol.smt2(()) + " ( "@ + sorted_vars(args) + ") "@ + out.smt2(()) + "\n   "@
        + body.smt2(()) + "\n)\n\n"@
}

/// Text of `assert`.
pub open spec fn assert_text<PI, E: PrintSmt2<PI>>(expr: E, info: PI) -> Seq<char> {
    "(assert\n  "@ + expr.smt2(info) + "\n)"@
}

/// Text of `check-sat-assuming`, where `cmd` is the solver's name for it.
pub open spec fn check_sat_assuming_text<PI, I: PrintSmt2<PI>>(
    cmd: Seq<char>,
    bool_vars: Seq<I>,
    info: PI,
) -> Seq<char> {
    "("@ + cmd + "\n "@ + prefixed(bool_vars, info, " "@) + "\n)\n\n"@
}

/// Text of `get-value`: the terms in one parenthesised list.
pub open spec fn get_value_text<PI, E: PrintSmt2<PI>>(exprs: Seq<E>, info: PI) -> Seq<char> {
    "(get-value ("@ + prefixed(exprs, info, "\n  "@) + "\n))\n\n"@
}

impl<Parser> Solver<Parser> {
    /// The text written to the solver and not yet taken.
    pub closed spec fn output(&self) -> Seq<char> {
        self.out@
    }

    /// The configuration of the solver.
    pub closed spec fn configuration(&self) -> SolverConf {
        self.conf
    }

    /// The parser of the solver.
    pub closed spec fn parser_value(&self) -> Parser {
        self.parser
    }

    /// `self` has the configuration and the parser of `before`.
    pub open spec fn keeps_setup(self, before: Self) -> bool {
        &&& self.configuration() == before.configuration()
        &&& self.parser_value() == before.parser_value()
    }

    /// `self` is `before` with `text` written at the end of its output.
    pub open spec fn appended(self, before: Self, text: Seq<char>) -> bool {
        &&& self.output() =~= before.output() + text
        &&& self.keeps_setup(before)
    }

    /// Whether the solver has a check-sat-assuming command.
    pub open spec fn supports_check_sat_assuming(&self) -> bool {
        self.configuration().assuming_command() is Some
    }

    /// Creates a solver with the given configuration and parser, and no
    /// output yet.
    pub fn new(conf: SolverConf, parser: Parser) -> (solver: Self)
        ensures
            solver.output() == Seq::<char>::empty(),
            solver.configuration() == conf,
            solver.parser_value() == parser,
    {
        Solver { conf, parser, out: String::new() }
    }

    /// The configuration of the solver.
    pub fn conf(&self) -> (conf: &SolverConf)
        ensures
            *conf == self.configuration(),
    {
        &self.conf
    }

    /// The parser of the solver.
    pub fn parser(&self) -> (parser: &Parser)
        ensures
            *parser == self.parser_value(),
    {
        &self.parser
    }

    /// Gives back the configuration and the parser of the solver.
    pub fn into_parts(self) -> (parts: (SolverConf, Parser))
        ensures
            parts.0 == self.configuration(),
            parts.1 == self.parser_value(),
    {
        (self.conf, self.parser)
    }

    /// The text written to the solver and not yet taken.
    pub fn pending(&self) -> (text: &str)
        ensures
            text@ == self.output(),
    {
        self.out.as_str()
    }

    /// Takes the text written so far, to be sent to the solver process; the
    /// output is empty afterwards.
    pub fn take_output(&mut self) -> (text: String)
        ensures
            text@ == old(self).output(),
            final(self).output() == Seq::<char>::empty(),
            final(self).keeps_setup(*old(self)),
    {
        let mut text = String::new();
        std::mem::swap(&mut text, &mut self.out);
        text
    }

    // Comments.

    /// Prints some lines as SMT-LIB 2 comments: each line becomes `;; line`,
    /// and an empty line ends the block.
    pub fn comments(&mut self, lines: &[&str])
        ensures
            final(self).appended(*old(self), comment_block(lines@.map_values(|l: &str| l@))),
    {
        write_comment_block(&mut self.out, lines);
        assert(lines@.map_values(|l: &str| <&str as PrintSmt2<()>>::smt2(&l, ())) =~= lines@.map_values(
            |l: &str| l@,
        ));
    }

    /// Prints some text as comments. Input is sanitized in case it contains
    /// newlines: every line of the text becomes a comment line of its own.
    pub fn comment(&mut self, txt: &str)
        ensures
            final(self).appended(*old(self), comment_block(lines(txt@))),
    {
        let ls = split_lines(txt);
        write_comment_block(&mut self.out, ls.as_slice());
        assert(ls@.map_values(|l: String| l.smt2(())) =~= ls@.map_values(|l: String| l@));
    }

    // Starting and terminating.

    /// Resets the underlying solver. A solver that understands the reset
    /// command gets it; otherwise nothing is written, and the answer asks the
    /// caller to restart the solver process.
    pub fn reset(&mut self) -> (action: ResetAction)
        ensures
            old(self).configuration().reset_supported() ==> action == ResetAction::Sent
                && final(self).appended(*old(self), "(reset)\n\n"@),
            !old(self).configuration().reset_supported() ==> action == ResetAction::Restart
                && final(self).appended(*old(self), Seq::empty()),
    {
        if self.conf.supports_reset() {
            self.out.append("(reset)\n\n");
            ResetAction::Sent
        } else {
            ResetAction::Restart
        }
    }

    /// Sets the logic.
    pub fn set_logic(&mut self, logic: &Logic)
        ensures
            final(self).appended(*old(self), "(set-logic "@ + logic.name() + ")\n\n"@),
    {
        self.out.append("(set-logic ");
        logic.to_smt2(&mut self.out, ());
        self.out.append(")\n\n");
    }

    /// Set option command.
    pub fn set_option(&mut self, option: &str, value: &str)
        ensures
            final(self).appended(
                *old(self),
                "(set-option "@ + option@ + " "@ + value@ + ")\n\n"@,
            ),
    {
        self.out.append("(set-option ");
        self.out.append(option);
        self.out.append(" ");
        self.out.append(value);
        self.out.append(")\n\n");
    }

    /// Activates interactive mode.
    pub fn interactive_mode(&mut self)
        ensures
            final(self).appended(
                *old(self),
                "(set-option "@ + ":interactive-mode"@ + " "@ + "true"@ + ")\n\n"@,
            ),
    {
        self.set_option(":interactive-mode", "true")
    }

    /// Activates print success.
    pub fn print_success(&mut self)
        ensures
            final(self).appended(
                *old(self),
                "(set-option "@ + ":print-success"@ + " "@ + "true"@ + ")\n\n"@,
            ),
    {
        self.set_option(":print-success", "true")
    }

    /// Activates unsat core production.
    pub fn print_unsat_core(&mut self)
        ensures
            final(self).appended(
                *old(self),
                "(set-option "@ + ":produce-unsat-cores"@ + " "@ + "true"@ + ")\n\n"@,
            ),
    {
        self.set_option(":produce-unsat-cores", "true")
    }

    /// Shuts the solver down.
    pub fn exit(&mut self)
        ensures
            final(self).appended(*old(self), "(exit)\n"@),
    {
        self.out.append("(exit)\n");
    }

    // Modifying the assertion stack.

    /// Pushes `n` layers on the assertion stack.
    pub fn push(&mut self, n: &u8)
        ensures
            final(self).appended(*old(self), "(push "@ + decimal(*n as nat) + ")\n\n"@),
    {
        self.out.append("(push ");
        write_u8(&mut self.out, *n);
        self.out.append(")\n\n");
    }

    /// Pops `n` layers off the assertion stack.
    pub fn pop(&mut self, n: &u8)
        ensures
            final(self).appended(*old(self), "(pop "@ + decimal(*n as nat) + ")\n\n"@),
    {
        self.out.append("(pop ");
        write_u8(&mut self.out, *n);
        self.out.append(")\n\n");
    }

    /// Resets the assertions in the solver.
    pub fn reset_assertions(&mut self)
        ensures
            final(self).appended(*old(self), "(reset-assertions)\n\n"@),
    {
        self.out.append("(reset-assertions)\n\n");
    }

    // Introducing new symbols.

    /// Declares a new sort.
    pub fn declare_sort<Sort: PrintSmt2<()>>(&mut self, sort: Sort, arity: &u8)
        ensures
            final(self).appended(
                *old(self),
                "(declare-sort "@ + sort.smt2(()) + " "@ + decimal(*arity as nat) + ")\n\n"@,
            ),
    {
        self.out.append("(declare-sort ");
        sort.to_smt2(&mut self.out, ());
        self.out.append(" ");
        write_u8(&mut self.out, *arity);
        self.out.append(")\n\n");
    }

    /// Defines a new sort.
    pub fn define_sort<Sort: PrintSmt2<()>, Expr: PrintSmt2<()>>(
        &mut self,
        sort: Sort,
        args: &[Expr],
        body: Expr,
    )
        ensures
            final(self).appended(*old(self), define_sort_text(sort, args@, body)),
    {
        self.out.append("( define-sort ");
        sort.to_smt2(&mut self.out, ());
        self.out.append("\n   ( ");
        write_spaced(&mut self.out, args, ());
        self.out.append(")\n   ");
        body.to_smt2(&mut self.out, ());
        self.out.append("\n)\n\n");
    }

    /// Declares a new function symbol.
    pub fn declare_fun<IdentPrintInfo, Sort: PrintSmt2<()>, Ident: PrintSmt2<IdentPrintInfo>>(
        &mut self,
        symbol: &Ident,
        info: IdentPrintInfo,
        args: &[Sort],
        out: Sort,
    )
        ensures
            final(self).appended(*old(self), declare_fun_text(*symbol, info, args@, out)),
    {
        self.out.append("(declare-fun ");
        symbol.to_smt2(&mut self.out, info);
        self.out.append(" ( ");
        write_spaced(&mut self.out, args, ());
        self.out.append(") ");
        out.to_smt2(&mut self.out, ());
        self.out.append(")\n\n");
    }

    /// Declares a new function symbol, no info version.
    pub fn ninfo_declare_fun<Sort: PrintSmt2<()>, Ident: PrintSmt2<()>>(
        &mut self,
        symbol: &Ident,
        args: &[Sort],
        out: Sort,
    )
        ensures
            final(self).appended(*old(self), declare_fun_text(*symbol, (), args@, out)),
    {
        self.declare_fun(symbol, (), args, out)
    }

    /// Declares a new constant.
    pub fn declare_const<Sort: PrintSmt2<()>, Ident: PrintSmt2<()>>(
        &mut self,
        symbol: Ident,
        out_sort: Sort,
    )
        ensures
            final(self).appended(
                *old(self),
                "(declare-const "@ + symbol.smt2(()) + " "@ + out_sort.smt2(()) + ")\n\n"@,
            ),
    {
        self.out.append("(declare-const ");
        symbol.to_smt2(&mut self.out, ());
        self.out.append(" ");
        out_sort.to_smt2(&mut self.out, ());
        self.out.append(")\n\n");
    }

    /// Defines a new function symbol.
    pub fn define_fun<Sort: PrintSmt2<()>, Ident: PrintSmt2<()>, Expr: PrintSmt2<()>>(
        &mut self,
        symbol: Ident,
        args: &[(Ident, Sort)],
        out: Sort,
        body: Expr,
    )
        ensures
            final(self).appended(*old(self), define_fun_text(symbol, args@, out, body)),
    {
        self.out.append("(define-fun ");
        symbol.to_smt2(&mut self.out, ());
        self.out.append(" ( ");
        write_sorted_vars(&mut self.out, args);
        self.out.append(") ");
        out.to_smt2(&mut self.out, ());
        self.out.append("\n   ");
        body.to_smt2(&mut self.out, ());
        self.out.append("\n)\n\n");
    }

    /// Defines some new (possibly mutually) recursive functions.
    pub fn define_funs_rec<Sort: PrintSmt2<()>, Ident: PrintSmt2<()>, Expr: PrintSmt2<()>>(
        &mut self,
        funs: &[(Ident, &[(Ident, Sort)], Sort, Expr)],
    )
        ensures
            final(self).appended(*old(self), define_funs_rec_text(funs@)),
    {
        let ghost start = self.out@;
        self.out.append("(define-funs-rec (\n");
        let ghost header = self.out@;
        let mut i: usize = 0;
        while i < funs.len()
            invariant
                i <= funs@.len(),
                header == start + "(define-funs-rec (\n"@,
                self.out@ == header + rec_signatures(funs@.take(i as int)),
                self.conf == old(self).conf,
                self.parser == old(self).parser,
            decreases funs@.len() - i,
        {
            let fun = &funs[i];
            self.out.append("   (");
            fun.0.to_smt2(&mut self.out, ());
            self.out.append(" ( ");
            write_sorted_vars(&mut self.out, fun.1);
            self.out.append(") ");
            fun.2.to_smt2(&mut self.out, ());
            self.out.append(")\n");
            assert(funs@.take(i + 1).drop_last() =~= funs@.take(i as int));
            i = i + 1;
        }
        assert(funs@.take(i as int) =~= funs@);
        self.out.append(" ) (");
        let ghost middle = self.out@;
        let mut j: usize = 0;
        while j < funs.len()
            invariant
                j <= funs@.len(),
                middle == start + "(define-funs-rec (\n"@ + rec_signatures(funs@) + " ) ("@,
                self.out@ == middle + rec_bodies(funs@.take(j as int)),
                self.conf == old(self).conf,
                self.parser == old(self).parser,
            decreases funs@.len() - j,
        {
            self.out.append("\n   ");
            funs[j].3.to_smt2(&mut self.out, ());
            assert(funs@.take(j + 1).drop_last() =~= funs@.take(j as int));
            j = j + 1;
        }
        assert(funs@.take(j as int) =~= funs@);
        self.out.append("\n )\n)\n\n");
    }

    /// Defines a new recursive function.
    pub fn define_fun_rec<Sort: PrintSmt2<()>, Ident: PrintSmt2<()>, Expr: PrintSmt2<()>>(
        &mut self,
        symbol: Ident,
        args: &[(Ident, Sort)],
        out: Sort,
        body: Expr,
    )
        ensures
            final(self).appended(*old(self), define_fun_rec_text(symbol, args@, out, body)),
    {
        self.out.append("(define-fun-rec ");
        symbol.to_smt2(&mut self.out, ());
        self.out.append(" ( ");
        write_sorted_vars(&mut self.out, args);
        self.out.append(") ");
        out.to_smt2(&mut self.out, ());
        self.out.append("\n   ");
        body.to_smt2(&mut self.out, ());
        self.out.append("\n)\n\n");
    }

    // Asserting and inspecting formulas.

    /// Asserts an expression with some print information.
    pub fn assert_expr<PrintInfo, Expr: PrintSmt2<PrintInfo>>(&mut self, expr: &Expr, info: PrintInfo)
        ensures
            final(self).appended(*old(self), assert_text(*expr, info)),
    {
        self.out.append("(assert\n  ");
        expr.to_smt2(&mut self.out, info);
        self.out.append("\n)");
    }

    /// Asserts an expression without any print info. `ninfo` = no info.
    pub fn ninfo_assert<Expr: PrintSmt2<()>>(&mut self, expr: &Expr)
        ensures
            final(self).appended(*old(self), assert_text(*expr, ())),
    {
        self.assert_expr(expr, ())
    }

    /// Get assertions command.
    pub fn get_assertions(&mut self)
        ensures
            final(self).appended(*old(self), "(get-assertions)\n\n"@),
    {
        self.out.append("(get-assertions)\n\n");
    }

    // Checking for satisfiability.

    /// Check-sat command.
    pub fn check_sat(&mut self)
        ensures
            final(self).appended(*old(self), "(check-sat)\n\n"@),
    {
        self.out.append("(check-sat)\n\n");
    }

    /// Check-sat assuming command, for a solver that supports it.
    pub fn check_sat_assuming<PrintInfo: Copy, Ident: PrintSmt2<PrintInfo>>(
        &mut self,
        bool_vars: &[Ident],
        info: PrintInfo,
    )
        requires
            old(self).supports_check_sat_assuming(),
        ensures
            final(self).appended(
                *old(self),
                check_sat_assuming_text(
                    old(self).configuration().assuming_command().unwrap(),
                    bool_vars@,
                    info,
                ),
            ),
    {
        match self.conf.check_sat_assuming() {
            Some(cmd) => {
                self.out.append("(");
                self.out.append(cmd);
                self.out.append("\n ");
                write_prefixed(&mut self.out, bool_vars, info, " ");
                self.out.append("\n)\n\n");
            },
            None => {},
        }
    }

    /// Check-sat assuming command, no info version.
    pub fn ninfo_check_sat_assuming<Ident: PrintSmt2<()>>(&mut self, bool_vars: &[Ident])
        requires
            old(self).supports_check_sat_assuming(),
        ensures
            final(self).appended(
                *old(self),
                check_sat_assuming_text(
                    old(self).configuration().assuming_command().unwrap(),
                    bool_vars@,
                    (),
                ),
            ),
    {
        self.check_sat_assuming(bool_vars, ())
    }

    // Inspecting models.

    /// Get value command.
    pub fn get_value<PrintInfo: Copy, Expr: PrintSmt2<PrintInfo>>(
        &mut self,
        exprs: &[Expr],
        info: PrintInfo,
    )
        ensures
            final(self).appended(*old(self), get_value_text(exprs@, info)),
    {
        self.out.append("(get-value (");
        write_prefixed(&mut self.out, exprs, info, "\n  ");
        self.out.append("\n))\n\n");
    }

    /// Get value command, no info version.
    pub fn ninfo_get_value<Expr: PrintSmt2<()>>(&mut self, exprs: &[Expr])
        ensures
            final(self).appended(*old(self), get_value_text(exprs@, ())),
    {
        self.get_value(exprs, ())
    }

    /// Get assignment command.
    pub fn get_assignment(&mut self)
        ensures
            final(self).appended(*old(self), "(get-assignment)\n\n"@),
    {
        self.out.append("(get-assignment)\n\n");
    }

    /// Get model command.
    pub fn get_model(&mut self)
        ensures
            final(self).appended(*old(self), "(get-model)\n\n"@),
    {
        self.out.append("(get-model)\n\n");
    }

    // Inspecting proofs.

    /// Get unsat assumptions command.
    pub fn get_unsat_assumptions(&mut self)
        ensures
            final(self).appended(*old(self), "(get-unsat-assumptions)\n\n"@),
    {
        self.out.append("(get-unsat-assumptions)\n\n");
    }

    /// Get proof command.
    pub fn get_proof(&mut self)
        ensures
            final(self).appended(*old(self), "(get-proof)\n\n"@),
    {
        self.out.append("(get-proof)\n\n");
    }

    /// Get unsat core command.
    pub fn get_unsat_core(&mut self)
        ensures
            final(self).appended(*old(self), "(get-unsat-core)\n\n"@),
    {
        self.out.append("(get-unsat-core)\n\n");
    }

    // Inspecting settings.

    /// Get info command.
    pub fn get_info(&mut self, flag: &str)
        ensures
            final(self).appended(*old(self), "(get-info "@ + flag@ + ")\n\n"@),
    {
        self.out.append("(get-info ");
        self.out.append(flag);
        self.out.append(")\n\n");
    }

    /// Get option command.
    pub fn get_option(&mut self, option: &str)
        ensures
            final(self).appended(*old(self), "(get-option "@ + option@ + ")\n\n"@),
    {
        self.out.append("(get-option ");
        self.out.append(option);
        self.out.append(")\n\n");
    }

    // Script information.

    /// Set info command.
    pub fn set_info(&mut self, attribute: &str)
        ensures
            final(self).appended(*old(self), "(set-info "@ + attribute@ + ")\n\n"@),
    {
        self.out.append("(set-info ");
        self.out.append(attribute);
        self.out.append(")\n\n");
    }

    /// Echo command: the text becomes an SMT-LIB 2 string literal, with every
    /// `"` doubled.
    pub fn echo(&mut self, text: &str)
        ensures
            final(self).appended(*old(self), "(echo \""@ + escape_quotes(text@) + "\")\n\n"@),
    {
        self.out.append("(echo \"");
        write_escaped(&mut self.out, text);
        self.out.append("\")\n\n");
    }
}

/// The texts, one after the other.
pub open spec fn concat_all(texts: Seq<Seq<char>>) -> Seq<char>
    decreases texts.len(),
{
    if texts.len() == 0 {
        Seq::empty()
    } else {
        concat_all(texts.drop_last()) + texts.last()
    }
}

/// Any number of commands written one after the other leave their texts in
/// the output in that order, after what was there, and keep the
/// configuration and the parser.
pub proof fn commands_in_order<P>(states: Seq<Solver<P>>, texts: Seq<Seq<char>>)
    requires
        states.len() == texts.len() + 1,
        forall|i: int|
            #![trigger texts[i]]
            0 <= i < texts.len() ==> states[i + 1].appended(states[i], texts[i]),
    ensures
        states.last().appended(states[0], concat_all(texts)),
    decreases texts.len(),
{
    if texts.len() > 0 {
        let n = texts.len() - 1;
        let ss = states.drop_last();
        let ts = texts.drop_last();
        assert forall|i: int| #![trigger ts[i]] 0 <= i < ts.len() implies ss[i + 1].appended(
            ss[i],
            ts[i],
        ) by {
            assert(texts[i] == ts[i]);
        }
        commands_in_order(ss, ts);
        assert(states[n + 1].appended(states[n], texts[n]));
        assert(states.drop_last().last() == states[n]);
    }
}

/// Whatever the calls in between (commands, resets, taking the output), the
/// configuration and the parser stay those the solver was made with.
pub proof fn setup_kept<P>(states: Seq<Solver<P>>)
    requires
        states.len() > 0,
        forall|i: int|
            #![trigger states[i + 1]]
            0 <= i < states.len() - 1 ==> states[i + 1].keeps_setup(states[i]),
    ensures
        states.last().keeps_setup(states[0]),
    decreases states.len(),
{
    if states.len() > 1 {
        let ss = states.drop_last();
        assert forall|i: int| #![trigger ss[i + 1]] 0 <= i < ss.len() - 1 implies ss[i + 1].keeps_setup(
            ss[i],
        ) by {
            assert(states[i + 1] == ss[i + 1]);
        }
        setup_kept(ss);
        let k: int = states.len() - 2;
        assert(states[k + 1].keeps_setup(states[k]));
    }
}

/// The declarations of a `define-funs-rec` for one function, and for a list
/// made of two parts: each function's declaration comes from that function
/// alone, in the order of the list.
pub proof fn rec_signatures_one_by_one<'a, S: PrintSmt2<()>, I: PrintSmt2<()>, E>(
    f: (I, &'a [(I, S)], S, E),
    a: Seq<(I, &'a [(I, S)], S, E)>,
    b: Seq<(I, &'a [(I, S)], S, E)>,
)
    ensures
        rec_signatures(seq![f]) == "   ("@ + f.0.smt2(()) + " ( "@ + sorted_vars(f.1@) + ") "@
            + f.2.smt2(()) + ")\n"@,
        rec_signatures(a + b) == rec_signatures(a) + rec_signatures(b),
    decreases b.len(),
{
    assert(seq![f].drop_last() =~= Seq::<(I, &'a [(I, S)], S, E)>::empty());
    assert(seq![f].last() == f);
    assert(rec_signatures(seq![f].drop_last()) == Seq::<char>::empty());
    assert(rec_signatures(seq![f]) =~= "   ("@ + f.0.smt2(()) + " ( "@ + sorted_vars(f.1@) + ") "@
        + f.2.smt2(()) + ")\n"@);
    if b.len() == 0 {
        assert(a + b =~= a);
        assert(rec_signatures(a) + rec_signatures(b) =~= rec_signatures(a));
    } else {
        assert((a + b).drop_last() =~= a + b.drop_last());
        assert((a + b).last() == b.last());
        rec_signatures_one_by_one(f, a, b.drop_last());
        assert(rec_signatures(a + b) =~= rec_signatures(a) + rec_signatures(b));
    }
}

/// The bodies of a `define-funs-rec` for one function, and for a list made of
/// two parts: each body comes from its own function, in the order of the list.
pub proof fn rec_bodies_one_by_one<'a, S, I, E: PrintSmt2<()>>(
    f: (I, &'a [(I, S)], S, E),
    a: Seq<(I, &'a [(I, S)], S, E)>,
    b: Seq<(I, &'a [(I, S)], S, E)>,
)
    ensures
        rec_bodies(seq![f]) == "\n   "@ + f.3.smt2(()),
        rec_bodies(a + b) == rec_bodies(a) + rec_bodies(b),
    decreases b.len(),
{
    assert(seq![f].drop_last() =~= Seq::<(I, &'a [(I, S)], S, E)>::empty());
    assert(seq![f].last() == f);
    assert(rec_bodies(seq![f].drop_last()) == Seq::<char>::empty());
    assert(rec_bodies(seq![f]) =~= "\n   "@ + f.3.smt2(()));
    if b.len() == 0 {
        assert(a + b =~= a);
        assert(rec_bodies(a) + rec_bodies(b) =~= rec_bodies(a));
    } else {
        assert((a + b).drop_last() =~= a + b.drop_last());
        assert((a + b).last() == b.last());
        rec_bodies_one_by_one(f, a, b.drop_last());
        assert(rec_bodies(a + b) =~= rec_bodies(a) + rec_bodies(b));
    }
}

/// Whatever the number of parameters, even none, `declare-fun` prints them
/// between ` ( ` and `) `, after the symbol and before the output sort.
pub proof fn declare_fun_brackets_parameters<II, S: PrintSmt2<()>, I: PrintSmt2<II>>(
    symbol: I,
    info: II,
    args: Seq<S>,
    out: S,
)
    ensures
        declare_fun_text(symbol, info, args, out) == "(declare-fun "@ + symbol.smt2(info) + " ( "@
            + spaced(args, ()) + ") "@ + out.smt2(()) + ")\n\n"@,
        declare_fun_text(symbol, info, Seq::<S>::empty(), out) == "(declare-fun "@ + symbol.smt2(
            info,
        ) + " ( "@ + ") "@ + out.smt2(()) + ")\n\n"@,
{
    assert("(declare-fun "@ + symbol.smt2(info) + " ( "@ + spaced(Seq::<S>::empty(), ()) + ") "@
        + out.smt2(()) + ")\n\n"@ =~= "(declare-fun "@ + symbol.smt2(info) + " ( "@ + ") "@
        + out.smt2(()) + ")\n\n"@);
}

/// Whatever the sort parameters, even none, `define-sort` prints them between
/// `( ` and `)`, after the sort and before the body.
pub proof fn define_sort_brackets_parameters<S: PrintSmt2<()>, E: PrintSmt2<()>>(
    sort: S,
    args: Seq<E>,
    body: E,
)
    ensures
        define_sort_text(sort, args, body) == "( define-sort "@ + sort.smt2(()) + "\n   ( "@
            + spaced(args, ()) + ")\n   "@ + body.smt2(()) + "\n)\n\n"@,
{
}

/// Whatever the parameters, even none, `define-fun` and `define-fun-rec`
/// print them as sorted variables between ` ( ` and `) `, after the symbol
/// and before the output sort and the body; the two differ only in their
/// keyword.
pub proof fn function_definitions_bracket_parameters<
    S: PrintSmt2<()>,
    I: PrintSmt2<()>,
    E: PrintSmt2<()>,
>(symbol: I, args: Seq<(I, S)>, out: S, body: E)
    ensures
        define_fun_text(symbol, args, out, body) == "(define-fun "@ + symbol.smt2(()) + " ( "@
            + sorted_vars(args) + ") "@ + out.smt2(()) + "\n   "@ + body.smt2(()) + "\n)\n\n"@,
        define_fun_rec_text(symbol, args, out, body) == "(define-fun-rec "@ + symbol.smt2(())
            + " ( "@ + sorted_vars(args) + ") "@ + out.smt2(()) + "\n   "@ + body.smt2(())
            + "\n)\n\n"@,
{
}

/// `define-funs-rec` prints all declarations in one parenthesised list, then
/// all bodies in another, whatever their number.
pub proof fn define_funs_rec_two_lists<'a, S: PrintSmt2<()>, I: PrintSmt2<()>, E: PrintSmt2<()>>(
    funs: Seq<(I, &'a [(I, S)], S, E)>,
)
    ensures
        define_funs_rec_text(funs) == "(define-funs-rec (\n"@ + rec_signatures(funs) + " ) ("@
            + rec_bodies(funs) + "\n )\n)\n\n"@,
{
}

/// `get-value` prints its terms, each on a line of its own, in one list
/// between `(` and `)`, whatever their number.
pub proof fn get_value_brackets_terms<PI, E: PrintSmt2<PI>>(exprs: Seq<E>, info: PI)
    ensures
        get_value_text(exprs, info) == "(get-value ("@ + prefixed(exprs, info, "\n  "@)
            + "\n))\n\n"@,
{
}

/// `check-sat-assuming` prints the solver's name for it, then every literal
/// after a space, whatever their number.
pub proof fn check_sat_assuming_lists_literals<PI, I: PrintSmt2<PI>>(
    cmd: Seq<char>,
    bool_vars: Seq<I>,
    info: PI,
)
    ensures
        check_sat_assuming_text(cmd, bool_vars, info) == "("@ + cmd + "\n "@ + prefixed(
            bool_vars,
            info,
            " "@,
        ) + "\n)\n\n"@,
{
}

} // verus!

//! Lines of a text, comments that hold them, and quoted string literals.

use vstd::prelude::*;
use vstd::string::*;

use crate::common::PrintSmt2;
use vstd::std_specs::iter::IteratorSpec;

verus! {

/// A line with one carriage return at its end removed, if it has one.
pub open spec fn strip_cr(line: Seq<char>) -> Seq<char> {
    if line.len() > 0 && line.last() == '\r' {
        line.drop_last()
    } else {
        line
    }
}

/// Reading `s` from the left: the lines that a newline has ended, each
/// without its line ending, and the text read since the last newline.
pub open spec fn split_state(s: Seq<char>) -> (Seq<Seq<char>>, Seq<char>)
    decreases s.len(),
{
    if s.len() == 0 {
        (Seq::empty(), Seq::empty())
    } else {
        let (done, cur) = split_state(s.drop_last());
        if s.last() == '\n' {
            (done.push(strip_cr(cur)), Seq::empty())
        } else {
            (done, cur.push(s.last()))
        }
    }
}

/// The lines of `s`: a line ends at `\n` or `\r\n`, which it does not hold;
/// the last line needs no line ending, and an empty text has no line.
pub open spec fn lines(s: Seq<char>) -> Seq<Seq<char>> {
    let (done, cur) = split_state(s);
    if cur.len() == 0 {
        done
    } else {
        done.push(cur)
    }
}

/// The comment lines `;; line` of the given lines, each ended by a newline.
pub open spec fn comment_lines(ls: Seq<Seq<char>>) -> Seq<char>
    decreases ls.len(),
{
    if ls.len() == 0 {
        Seq::empty()
    } else {
        comment_lines(ls.drop_last()) + ";; "@ + ls.last() + "\n"@
    }
}

/// The comment block for the given lines: their comment lines, then an
/// empty line.
pub open spec fn comment_block(ls: Seq<Seq<char>>) -> Seq<char> {
    comment_lines(ls) + "\n"@
}

/// Every line of `t` is either empty or starts with `;;`, so that the SMT-LIB
/// reader sees nothing but comments in it.
pub open spec fn only_comments(t: Seq<char>) -> bool {
    forall|i: int|
        #![trigger t[i]]
        0 <= i < t.len() && (i == 0 || t[i - 1] == '\n') ==> t[i] == '\n' || (t[i] == ';' && i
            + 1 < t.len() && t[i + 1] == ';')
}

/// Splits a text into its lines, as `lines` says.
pub fn split_lines(txt: &str) -> (ls: Vec<String>)
    ensures
        ls@.map_values(|l: String| l@) == lines(txt@),
{
    broadcast use vstd::string::group_string_axioms;

    let mut done: Vec<String> = Vec::new();
    let mut cur = String::new();
    let mut pending_cr: bool = false;
    let mut chars = txt.chars();
    let ghost mut i: int = 0;
    loop
        invariant
            0 <= i <= txt@.len(),
            IteratorSpec::remaining(&chars) == txt@.skip(i),
            done@.map_values(|l: String| l@) == split_state(txt@.take(i)).0,
            (if pending_cr { cur@.push('\r') } else { cur@ }) == split_state(txt@.take(i)).1,
            !pending_cr ==> cur@.len() == 0 || cur@.last() != '\r',
        ensures
            done@.map_values(|l: String| l@) == split_state(txt@).0,
            (if pending_cr { cur@.push('\r') } else { cur@ }) == split_state(txt@).1,
        decreases txt@.len() - i,
    {
        let c: char = match chars.next() {
            Some(c) => c,
            None => {
                assert(txt@.take(i) =~= txt@);
                break;
            },
        };
        assert(txt@.take(i + 1).drop_last() =~= txt@.take(i));
        assert(txt@.take(i + 1).last() == c);
        let ghost prev = split_state(txt@.take(i));
        assert(split_state(txt@.take(i + 1)) == (if c == '\n' {
            (prev.0.push(strip_cr(prev.1)), Seq::<char>::empty())
        } else {
            (prev.0, prev.1.push(c))
        }));
        let ghost before = done@.map_values(|l: String| l@);
        if c == '\n' {
            let ghost line = cur@;
            assert(strip_cr(prev.1) =~= line);
            done.push(cur);
            assert(done@.map_values(|l: String| l@) =~= before.push(line));
            cur = String::new();
            pending_cr = false;
        } else {
            if pending_cr {
                cur.push('\r');
            }
            if c == '\r' {
                pending_cr = true;
            } else {
                pending_cr = false;
                cur.push(c);
            }
        }
        proof {
            i = i + 1;
        }
        assert(txt@.skip(i - 1).drop_first() =~= txt@.skip(i));
    }
    if pending_cr {
        cur.push('\r');
    }
    let ghost before = done@.map_values(|l: String| l@);
    if !cur.as_str().is_empty() {
        let ghost line = cur@;
        done.push(cur);
        assert(done@.map_values(|l: String| l@) =~= before.push(line));
    }
    done
}

/// Writes the comment block of the printed lines.
pub fn write_comment_block<L: PrintSmt2<()>>(writer: &mut String, ls: &[L])
    ensures
        final(writer)@ == old(writer)@ + comment_block(ls@.map_values(|l: L| l.smt2(()))),
{
    let ghost start = writer@;
    let ghost texts = ls@.map_values(|l: L| l.smt2(()));
    let mut i: usize = 0;
    while i < ls.len()
        invariant
            i <= ls@.len(),
            texts == ls@.map_values(|l: L| l.smt2(())),
            writer@ == start + comment_lines(texts.take(i as int)),
        decreases ls@.len() - i,
    {
        writer.append(";; ");
        ls[i].to_smt2(writer, ());
        writer.append("\n");
        assert(texts.take(i + 1).drop_last() =~= texts.take(i as int));
        i = i + 1;
    }
    assert(texts.take(i as int) =~= texts);
    writer.append("\n");
}

/// `l` holds no newline.
pub open spec fn no_newline(l: Seq<char>) -> bool {
    forall|j: int| 0 <= j < l.len() ==> l[j] != '\n'
}

proof fn lemma_split_state_no_newline(s: Seq<char>)
    ensures
        forall|k: int|
            0 <= k < split_state(s).0.len() ==> no_newline(#[trigger] split_state(s).0[k]),
        no_newline(split_state(s).1),
    decreases s.len(),
{
    if s.len() > 0 {
        lemma_split_state_no_newline(s.drop_last());
        let (done, cur) = split_state(s.drop_last());
        if s.last() == '\n' {
            assert(no_newline(strip_cr(cur)));
            assert forall|k: int|
                0 <= k < split_state(s).0.len() implies no_newline(#[trigger] split_state(s).0[k]) by {
                if k < done.len() {
                    assert(split_state(s).0[k] == done[k]);
                }
            }
        } else {
            assert(no_newline(cur.push(s.last())));
        }
    }
}

/// No line of a text holds a newline.
pub proof fn lemma_lines_no_newline(s: Seq<char>)
    ensures
        forall|k: int| 0 <= k < lines(s).len() ==> no_newline(#[trigger] lines(s)[k]),
{
    lemma_split_state_no_newline(s);
    let (done, cur) = split_state(s);
    if cur.len() != 0 {
        assert forall|k: int| 0 <= k < lines(s).len() implies no_newline(#[trigger] lines(s)[k]) by {
            if k < done.len() {
                assert(lines(s)[k] == done[k]);
            }
        }
    }
}

proof fn lemma_comment_lines_only_comments(ls: Seq<Seq<char>>)
    requires
        forall|k: int| 0 <= k < ls.len() ==> no_newline(#[trigger] ls[k]),
    ensures
        only_comments(comment_lines(ls)),
        comment_lines(ls).len() == 0 || comment_lines(ls).last() == '\n',
    decreases ls.len(),
{
    if ls.len() > 0 {
        let a = comment_lines(ls.drop_last());
        let l = ls.last();
        assert(no_newline(l));
        assert forall|k: int| 0 <= k < ls.drop_last().len() implies no_newline(
            #[trigger] ls.drop_last()[k],
        ) by {
            assert(ls.drop_last()[k] == ls[k]);
        }
        lemma_comment_lines_only_comments(ls.drop_last());
        reveal_strlit(";; ");
        reveal_strlit("\n");
        let t = comment_lines(ls);
        assert(t =~= a + ";; "@ + l + "\n"@);
        assert(t.len() == a.len() + 3 + l.len() + 1);
        assert forall|i: int|
            #![trigger t[i]]
            0 <= i < t.len() && (i == 0 || t[i - 1] == '\n') implies t[i] == '\n' || (t[i] == ';'
                && i + 1 < t.len() && t[i + 1] == ';') by {
            if i < a.len() {
                assert(t[i] == a[i]);
                if i > 0 {
                    assert(t[i - 1] == a[i - 1]);
                }
                if i + 1 < a.len() {
                    assert(t[i + 1] == a[i + 1]);
                }
            } else if i == a.len() {
                assert(t[i] == ';');
                assert(t[i + 1] == ';');
            } else if i <= a.len() + 3 {
                assert(t[i - 1] != '\n');
            } else {
                assert(t[i - 1] == l[i - 1 - a.len() - 3]);
            }
        }
    }
}

/// Whatever the text, its comment block holds nothing but comment lines and
/// empty lines: no line of the text can reach the solver as a command.
pub proof fn comment_block_is_only_comments(txt: Seq<char>)
    ensures
        only_comments(comment_block(lines(txt))),
{
    let ls = lines(txt);
    lemma_lines_no_newline(txt);
    lemma_comment_lines_only_comments(ls);
    reveal_strlit("\n");
    let a = comment_lines(ls);
    let t = comment_block(ls);
    assert(t =~= a.push('\n'));
    assert forall|i: int|
        #![trigger t[i]]
        0 <= i < t.len() && (i == 0 || t[i - 1] == '\n') implies t[i] == '\n' || (t[i] == ';' && i
            + 1 < t.len() && t[i + 1] == ';') by {
        if i < a.len() {
            assert(t[i] == a[i]);
            if i > 0 {
                assert(t[i - 1] == a[i - 1]);
            }
            if i + 1 < a.len() {
                assert(t[i + 1] == a[i + 1]);
            }
        }
    }
}

/// The text of an SMT-LIB 2 string literal's contents: every `"` doubled.
pub open spec fn escape_quotes(t: Seq<char>) -> Seq<char>
    decreases t.len(),
{
    if t.len() == 0 {
        Seq::empty()
    } else if t.last() == '"' {
        escape_quotes(t.drop_last()).push('"').push('"')
    } else {
        escape_quotes(t.drop_last()).push(t.last())
    }
}

/// Writes `text` with every `"` doubled.
pub fn write_escaped(writer: &mut String, text: &str)
    ensures
        final(writer)@ == old(writer)@ + escape_quotes(text@),
{
    broadcast use vstd::string::group_string_axioms;

    let ghost start = writer@;
    let mut chars = text.chars();
    let ghost mut i: int = 0;
    loop
        invariant
            0 <= i <= text@.len(),
            IteratorSpec::remaining(&chars) == text@.skip(i),
            writer@ == start + escape_quotes(text@.take(i)),
        ensures
            writer@ == start + escape_quotes(text@),
        decreases text@.len() - i,
    {
        match chars.next() {
            Some(c) => {
                assert(text@.take(i + 1).drop_last() =~= text@.take(i));
                if c == '"' {
                    writer.push('"');
                    writer.push('"');
                } else {
                    writer.push(c);
                }
                proof {
                    i = i + 1;
                }
                assert(text@.skip(i - 1).drop_first() =~= text@.skip(i));
            },
            None => {
                assert(text@.take(i) =~= text@);
                break;
            },
        }
    }
}

/// Quoting leaves a text without `"` as it is.
pub proof fn escape_keeps_text_without_quotes(t: Seq<char>)
    requires
        forall|i: int| 0 <= i < t.len() ==> t[i] != '"',
    ensures
        escape_quotes(t) == t,
    decreases t.len(),
{
    if t.len() > 0 {
        escape_keeps_text_without_quotes(t.drop_last());
        assert(t.drop_last().push(t.last()) =~= t);
    }
}

/// Quoting turns one `"` into two.
pub proof fn escape_doubles_a_quote()
    ensures
        escape_quotes(seq!['"']) == seq!['"', '"'],
{
    let q = seq!['"'];
    assert(q.drop_last() =~= Seq::<char>::empty());
    assert(q.last() == '"');
    assert(escape_quotes(q.drop_last()) == Seq::<char>::empty());
    assert(Seq::<char>::empty().push('"').push('"') =~= seq!['"', '"']);
}

/// Quoting a text quotes its parts one after the other.
pub proof fn escape_of_concat(s: Seq<char>, t: Seq<char>)
    ensures
        escape_quotes(s + t) == escape_quotes(s) + escape_quotes(t),
    decreases t.len(),
{
    if t.len() == 0 {
        assert(s + t =~= s);
        assert(escape_quotes(s) + escape_quotes(t) =~= escape_quotes(s));
    } else {
        assert((s + t).drop_last() =~= s + t.drop_last());
        assert((s + t).last() == t.last());
        escape_of_concat(s, t.drop_last());
        if t.last() == '"' {
            assert(escape_quotes(s + t) =~= escape_quotes(s) + escape_quotes(t));
        } else {
            assert(escape_quotes(s + t) =~= escape_quotes(s) + escape_quotes(t));
        }
    }
}

proof fn lemma_split_state_without_newline(a: Seq<char>)
    requires
        forall|i: int| 0 <= i < a.len() ==> a[i] != '\n',
    ensures
        split_state(a) == (Seq::<Seq<char>>::empty(), a),
    decreases a.len(),
{
    if a.len() > 0 {
        lemma_split_state_without_newline(a.drop_last());
        assert(a.drop_last().push(a.last()) =~= a);
    }
}

proof fn lemma_split_state_after_line_end(x: Seq<char>, y: Seq<char>)
    requires
        split_state(x).1.len() == 0,
    ensures
        split_state(x + y) == (split_state(x).0 + split_state(y).0, split_state(y).1),
    decreases y.len(),
{
    if y.len() == 0 {
        assert(x + y =~= x);
        assert(split_state(x).0 + split_state(y).0 =~= split_state(x).0);
    } else {
        assert((x + y).drop_last() =~= x + y.drop_last());
        assert((x + y).last() == y.last());
        lemma_split_state_after_line_end(x, y.drop_last());
        let (d, c) = split_state(y.drop_last());
        if y.last() == '\n' {
            assert(split_state(x).0 + d.push(strip_cr(c)) =~= (split_state(x).0 + d).push(strip_cr(c)));
        }
    }
}

/// A text with no newline is one line, or none if it is empty.
pub proof fn lines_of_one_line(a: Seq<char>)
    requires
        forall|i: int| 0 <= i < a.len() ==> a[i] != '\n',
    ensures
        a.len() > 0 ==> lines(a) == seq![a],
        a.len() == 0 ==> lines(a) == Seq::<Seq<char>>::empty(),
{
    lemma_split_state_without_newline(a);
    if a.len() > 0 {
        assert(Seq::<Seq<char>>::empty().push(a) =~= seq![a]);
    }
}

/// A line ended by `\r\n`, or by `\n` when it does not end with `\r`, then
/// more text: the line without its line ending comes first, then the lines of
/// the rest; only one carriage return goes with the line ending.
pub proof fn lines_after_line_end(a: Seq<char>, b: Seq<char>)
    requires
        forall|i: int| 0 <= i < a.len() ==> a[i] != '\n',
    ensures
        a.len() == 0 || a.last() != '\r' ==> lines(a.push('\n') + b) == seq![a] + lines(b),
        lines(a.push('\r').push('\n') + b) == seq![a] + lines(b),
{
    lemma_split_state_without_newline(a);
    let x1 = a.push('\n');
    assert(x1.drop_last() =~= a);
    assert(split_state(x1) == (seq![strip_cr(a)], Seq::<char>::empty())) by {
        assert(Seq::<Seq<char>>::empty().push(strip_cr(a)) =~= seq![strip_cr(a)]);
    }
    lemma_split_state_after_line_end(x1, b);
    let (d1, c1) = split_state(b);
    if c1.len() != 0 {
        assert(seq![strip_cr(a)] + d1.push(c1) =~= (seq![strip_cr(a)] + d1).push(c1));
    }
    let ar = a.push('\r');
    assert forall|i: int| 0 <= i < ar.len() implies ar[i] != '\n' by {
        if i < a.len() {
            assert(ar[i] == a[i]);
        }
    }
    lemma_split_state_without_newline(ar);
    let x2 = ar.push('\n');
    assert(x2.drop_last() =~= ar);
    assert(strip_cr(ar) =~= a);
    assert(split_state(x2) == (seq![a], Seq::<char>::empty())) by {
        assert(Seq::<Seq<char>>::empty().push(strip_cr(ar)) =~= seq![a]);
    }
    lemma_split_state_after_line_end(x2, b);
    let (d, c) = split_state(b);
    if c.len() != 0 {
        assert(seq![a] + d.push(c) =~= (seq![a] + d).push(c));
    }
}

/// The comment lines of one line, and of a list made of two parts: each line
/// gets its own `;; ` and newline, in the order of the list.
pub proof fn comment_lines_one_by_one(l: Seq<char>, a: Seq<Seq<char>>, b: Seq<Seq<char>>)
    ensures
        comment_lines(seq![l]) == ";; "@ + l + "\n"@,
        comment_lines(a + b) == comment_lines(a) + comment_lines(b),
    decreases b.len(),
{
    assert(seq![l].drop_last() =~= Seq::<Seq<char>>::empty());
    assert(seq![l].last() == l);
    assert(comment_lines(seq![l].drop_last()) == Seq::<char>::empty());
    assert(comment_lines(seq![l]) =~= ";; "@ + l + "\n"@);
    if b.len() == 0 {
        assert(a + b =~= a);
        assert(comment_lines(a) + comment_lines(b) =~= comment_lines(a));
    } else {
        assert((a + b).drop_last() =~= a + b.drop_last());
        assert((a + b).last() == b.last());
        comment_lines_one_by_one(l, a, b.drop_last());
        assert(comment_lines(a + b) =~= comment_lines(a) + comment_lines(b));
    }
}

/// A comment block ends with one empty line after its comment lines; with no
/// line it is that empty line alone.
pub proof fn comment_block_ends_with_empty_line(ls: Seq<Seq<char>>)
    ensures
        comment_block(ls) == comment_lines(ls) + seq!['\n'],
        comment_block(Seq::<Seq<char>>::empty()) == seq!['\n'],
{
    reveal_strlit("\n");
    assert("\n"@ =~= seq!['\n']);
    assert(comment_lines(Seq::<Seq<char>>::empty()) + seq!['\n'] =~= seq!['\n']);
}

} // verus!

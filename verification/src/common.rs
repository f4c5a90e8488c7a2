//! Items shared by the printers: the printing trait, logics, numbers and lists.

use vstd::prelude::*;
use vstd::string::*;

verus! {

/// `String::push` appends one character at the end of the string, as its
/// documentation says; nothing else is claimed.
pub assume_specification[ String::push ](string: &mut String, ch: char)
    ensures
        final(string)@ == old(string)@.push(ch),
;

/// Something that prints itself as SMT-LIB 2 text, given some printing
/// information `Info`.
pub trait PrintSmt2<Info> {
    /// The text that `to_smt2` writes.
    spec fn smt2(&self, info: Info) -> Seq<char>;

    /// Writes the text of `self` at the end of `writer`.
    fn to_smt2(&self, writer: &mut String, info: Info)
        ensures
            final(writer)@ == old(writer)@ + self.smt2(info),
    ;
}

impl<Info> PrintSmt2<Info> for str {
    open spec fn smt2(&self, info: Info) -> Seq<char> {
        self@
    }

    fn to_smt2(&self, writer: &mut String, info: Info) {
        writer.append(self);
    }
}

impl<Info> PrintSmt2<Info> for String {
    open spec fn smt2(&self, info: Info) -> Seq<char> {
        self@
    }

    fn to_smt2(&self, writer: &mut String, info: Info) {
        writer.append(self.as_str());
    }
}

impl<'a, Info, T: PrintSmt2<Info> + ?Sized> PrintSmt2<Info> for &'a T {
    open spec fn smt2(&self, info: Info) -> Seq<char> {
        (**self).smt2(info)
    }

    fn to_smt2(&self, writer: &mut String, info: Info) {
        (**self).to_smt2(writer, info);
    }
}

/// The character of the decimal digit `d`.
pub open spec fn digit_char(d: nat) -> char {
    ((d + 48) as u8) as char
}

/// The decimal digits of `n`, most significant first, without leading zeros.
pub open spec fn decimal(n: nat) -> Seq<char>
    decreases n,
{
    if n < 10 {
        seq![digit_char(n)]
    } else {
        decimal(n / 10).push(digit_char(n % 10))
    }
}

fn push_digit(writer: &mut String, d: u8)
    requires
        d < 10,
    ensures
        final(writer)@ == old(writer)@.push(digit_char(d as nat)),
{
    let c: char = (d + 48) as char;
    writer.push(c);
}

/// Writes `n` in decimal at the end of `writer`.
pub fn write_u8(writer: &mut String, n: u8)
    ensures
        final(writer)@ == old(writer)@ + decimal(n as nat),
{
    proof {
        reveal_with_fuel(decimal, 3);
    }
    if n >= 100 {
        push_digit(writer, n / 100);
        push_digit(writer, (n / 10) % 10);
        push_digit(writer, n % 10);
        assert(decimal(n as nat) =~= seq![
            digit_char((n / 100) as nat),
            digit_char(((n / 10) % 10) as nat),
            digit_char((n % 10) as nat),
        ]);
    } else if n >= 10 {
        push_digit(writer, n / 10);
        push_digit(writer, n % 10);
        assert(decimal(n as nat) =~= seq![
            digit_char((n / 10) as nat),
            digit_char((n % 10) as nat),
        ]);
    } else {
        push_digit(writer, n);
    }
}

/// The items printed one after the other, each followed by one space.
pub open spec fn spaced<Info, T: PrintSmt2<Info>>(items: Seq<T>, info: Info) -> Seq<char>
    decreases items.len(),
{
    if items.len() == 0 {
        Seq::empty()
    } else {
        spaced(items.drop_last(), info) + items.last().smt2(info) + " "@
    }
}

/// The items printed one after the other, each preceded by `sep`.
pub open spec fn prefixed<Info, T: PrintSmt2<Info>>(
    items: Seq<T>,
    info: Info,
    sep: Seq<char>,
) -> Seq<char>
    decreases items.len(),
{
    if items.len() == 0 {
        Seq::empty()
    } else {
        prefixed(items.drop_last(), info, sep) + sep + items.last().smt2(info)
    }
}

/// Sorted variables `(x S) (y T) ...`, each pair followed by one space.
pub open spec fn sorted_vars<I: PrintSmt2<()>, S: PrintSmt2<()>>(args: Seq<(I, S)>) -> Seq<char>
    decreases args.len(),
{
    if args.len() == 0 {
        Seq::empty()
    } else {
        sorted_vars(args.drop_last()) + "("@ + args.last().0.smt2(()) + " "@ + args.last().1.smt2(
            (),
        ) + ") "@
    }
}

/// Writes every item, each followed by one space.
pub fn write_spaced<Info: Copy, T: PrintSmt2<Info>>(writer: &mut String, items: &[T], info: Info)
    ensures
        final(writer)@ == old(writer)@ + spaced(items@, info),
{
    let ghost start = writer@;
    let mut i: usize = 0;
    while i < items.len()
        invariant
            i <= items@.len(),
            writer@ == start + spaced(items@.take(i as int), info),
        decreases items@.len() - i,
    {
        items[i].to_smt2(writer, info);
        writer.append(" ");
        assert(items@.take(i + 1).drop_last() =~= items@.take(i as int));
        i = i + 1;
    }
    assert(items@.take(i as int) =~= items@);
}

/// Writes every item, each preceded by `sep`.
pub fn write_prefixed<Info: Copy, T: PrintSmt2<Info>>(
    writer: &mut String,
    items: &[T],
    info: Info,
    sep: &str,
)
    ensures
        final(writer)@ == old(writer)@ + prefixed(items@, info, sep@),
{
    let ghost start = writer@;
    let mut i: usize = 0;
    while i < items.len()
        invariant
            i <= items@.len(),
            writer@ == start + prefixed(items@.take(i as int), info, sep@),
        decreases items@.len() - i,
    {
        writer.append(sep);
        items[i].to_smt2(writer, info);
        assert(items@.take(i + 1).drop_last() =~= items@.take(i as int));
        i = i + 1;
    }
    assert(items@.take(i as int) =~= items@);
}

/// Writes sorted variables `(x S) (y T) ...`, each pair followed by one space.
pub fn write_sorted_vars<I: PrintSmt2<()>, S: PrintSmt2<()>>(writer: &mut String, args: &[(I, S)])
    ensures
        final(writer)@ == old(writer)@ + sorted_vars(args@),
{
    let ghost start = writer@;
    let mut i: usize = 0;
    while i < args.len()
        invariant
            i <= args@.len(),
            writer@ == start + sorted_vars(args@.take(i as int)),
        decreases args@.len() - i,
    {
        let arg = &args[i];
        writer.append("(");
        arg.0.to_smt2(writer, ());
        writer.append(" ");
        arg.1.to_smt2(writer, ());
        writer.append(") ");
        assert(args@.take(i + 1).drop_last() =~= args@.take(i as int));
        i = i + 1;
    }
    assert(args@.take(i as int) =~= args@);
}

/// The SMT-LIB 2 logics that a script can set.
#[allow(non_camel_case_types)]
#[derive(Clone, Copy, Debug, PartialEq, Eq)]
pub enum Logic {
    QF_UF,
    QF_LIA,
    QF_NIA,
    QF_LRA,
    QF_AUFLIA,
    AUFLIA,
    AUFLIRA,
    AUFNIRA,
    LRA,
}

impl Logic {
    /// The name of the logic in SMT-LIB 2.
    pub open spec fn name(self) -> Seq<char> {
        match self {
            Logic::QF_UF => "QF_UF"@,
            Logic::QF_LIA => "QF_LIA"@,
            Logic::QF_NIA => "QF_NIA"@,
            Logic::QF_LRA => "QF_LRA"@,
            Logic::QF_AUFLIA => "QF_AUFLIA"@,
            Logic::AUFLIA => "AUFLIA"@,
            Logic::AUFLIRA => "AUFLIRA"@,
            Logic::AUFNIRA => "AUFNIRA"@,
            Logic::LRA => "LRA"@,
        }
    }
}

impl<Info> PrintSmt2<Info> for Logic {
    open spec fn smt2(&self, info: Info) -> Seq<char> {
        self.name()
    }

    fn to_smt2(&self, writer: &mut String, info: Info) {
        match self {
            Logic::QF_UF => writer.append("QF_UF"),
            Logic::QF_LIA => writer.append("QF_LIA"),
            Logic::QF_NIA => writer.append("QF_NIA"),
            Logic::QF_LRA => writer.append("QF_LRA"),
            Logic::QF_AUFLIA => writer.append("QF_AUFLIA"),
            Logic::AUFLIA => writer.append("AUFLIA"),
            Logic::AUFLIRA => writer.append("AUFLIRA"),
            Logic::AUFNIRA => writer.append("AUFNIRA"),
            Logic::LRA => writer.append("LRA"),
        }
    }
}

/// No item, no text.
pub proof fn lists_of_nothing<Info, T: PrintSmt2<Info>, I: PrintSmt2<()>, S: PrintSmt2<()>>(
    info: Info,
    sep: Seq<char>,
)
    ensures
        spaced(Seq::<T>::empty(), info) == Seq::<char>::empty(),
        prefixed(Seq::<T>::empty(), info, sep) == Seq::<char>::empty(),
        sorted_vars(Seq::<(I, S)>::empty()) == Seq::<char>::empty(),
{
}

/// One item: its text then a space; after `sep` for `prefixed`; one sorted
/// variable `(x S) `.
pub proof fn lists_of_one<Info, T: PrintSmt2<Info>, I: PrintSmt2<()>, S: PrintSmt2<()>>(
    x: T,
    info: Info,
    sep: Seq<char>,
    var: (I, S),
)
    ensures
        spaced(seq![x], info) == x.smt2(info) + " "@,
        prefixed(seq![x], info, sep) == sep + x.smt2(info),
        sorted_vars(seq![var]) == "("@ + var.0.smt2(()) + " "@ + var.1.smt2(()) + ") "@,
{
    assert(seq![x].drop_last() =~= Seq::<T>::empty());
    assert(seq![x].last() == x);
    assert(spaced(seq![x].drop_last(), info) == Seq::<char>::empty());
    assert(prefixed(seq![x].drop_last(), info, sep) == Seq::<char>::empty());
    assert(seq![var].drop_last() =~= Seq::<(I, S)>::empty());
    assert(seq![var].last() == var);
    assert(sorted_vars(seq![var].drop_last()) == Seq::<char>::empty());
    assert(Seq::<char>::empty() + x.smt2(info) + " "@ =~= x.smt2(info) + " "@);
    assert(Seq::<char>::empty() + sep + x.smt2(info) =~= sep + x.smt2(info));
    assert(Seq::<char>::empty() + "("@ + var.0.smt2(()) + " "@ + var.1.smt2(()) + ") "@ =~= "("@
        + var.0.smt2(()) + " "@ + var.1.smt2(()) + ") "@);
}

/// The text of a list is the text of its first part then that of the rest.
pub proof fn spaced_of_concat<Info, T: PrintSmt2<Info>>(a: Seq<T>, b: Seq<T>, info: Info)
    ensures
        spaced(a + b, info) == spaced(a, info) + spaced(b, info),
    decreases b.len(),
{
    if b.len() == 0 {
        assert(a + b =~= a);
        assert(spaced(a, info) + spaced(b, info) =~= spaced(a, info));
    } else {
        assert((a + b).drop_last() =~= a + b.drop_last());
        assert((a + b).last() == b.last());
        spaced_of_concat(a, b.drop_last(), info);
        assert(spaced(a + b, info) =~= spaced(a, info) + spaced(b, info));
    }
}

/// The text of a list is the text of its first part then that of the rest.
pub proof fn prefixed_of_concat<Info, T: PrintSmt2<Info>>(
    a: Seq<T>,
    b: Seq<T>,
    info: Info,
    sep: Seq<char>,
)
    ensures
        prefixed(a + b, info, sep) == prefixed(a, info, sep) + prefixed(b, info, sep),
    decreases b.len(),
{
    if b.len() == 0 {
        assert(a + b =~= a);
        assert(prefixed(a, info, sep) + prefixed(b, info, sep) =~= prefixed(a, info, sep));
    } else {
        assert((a + b).drop_last() =~= a + b.drop_last());
        assert((a + b).last() == b.last());
        prefixed_of_concat(a, b.drop_last(), info, sep);
        assert(prefixed(a + b, info, sep) =~= prefixed(a, info, sep) + prefixed(b, info, sep));
    }
}

/// The text of a list is the text of its first part then that of the rest.
pub proof fn sorted_vars_of_concat<I: PrintSmt2<()>, S: PrintSmt2<()>>(
    a: Seq<(I, S)>,
    b: Seq<(I, S)>,
)
    ensures
        sorted_vars(a + b) == sorted_vars(a) + sorted_vars(b),
    decreases b.len(),
{
    if b.len() == 0 {
        assert(a + b =~= a);
        assert(sorted_vars(a) + sorted_vars(b) =~= sorted_vars(a));
    } else {
        assert((a + b).drop_last() =~= a + b.drop_last());
        assert((a + b).last() == b.last());
        sorted_vars_of_concat(a, b.drop_last());
        assert(sorted_vars(a + b) =~= sorted_vars(a) + sorted_vars(b));
    }
}

/// Digits of a number, read back.
pub open spec fn digits_value(ds: Seq<char>) -> int
    decreases ds.len(),
{
    if ds.len() == 0 {
        0
    } else {
        10 * digits_value(ds.drop_last()) + (ds.last() as int - '0' as int)
    }
}

/// The decimal text of `n` is made of digits `0` to `9`, starts with `0`
/// only for zero itself, and reads back as `n`.
pub proof fn decimal_reads_back(n: nat)
    ensures
        forall|i: int|
            0 <= i < decimal(n).len() ==> '0' <= #[trigger] decimal(n)[i] && decimal(n)[i] <= '9',
        decimal(n)[0] == '0' ==> n == 0,
        digits_value(decimal(n)) == n,
    decreases n,
{
    if n >= 10 {
        decimal_reads_back(n / 10);
        let d = decimal(n / 10);
        assert(decimal(n) == d.push(digit_char(n % 10)));
        assert(d.push(digit_char(n % 10)).drop_last() =~= d);
        assert(digit_char(n % 10) as int == n % 10 + 48) by {
            assert(((n % 10 + 48) as u8) as int == n % 10 + 48);
        }
        assert(decimal(n)[0] == d[0]);
        assert(decimal(n).drop_last() == d);
        assert(decimal(n).last() == digit_char(n % 10));
        assert(n == 10 * (n / 10) + n % 10);
        assert(digits_value(decimal(n)) == 10 * digits_value(d) + (digit_char(n % 10) as int
            - '0' as int));
    } else {
        assert(digit_char(n) as int == n + 48) by {
            assert(((n + 48) as u8) as int == n + 48);
        }
        assert(seq![digit_char(n)].drop_last() =~= Seq::<char>::empty());
        assert(digits_value(Seq::<char>::empty()) == 0);
        assert(digits_value(decimal(n)) == 10 * digits_value(Seq::<char>::empty()) + (digit_char(
            n,
        ) as int - '0' as int));
    }
}

} // verus!

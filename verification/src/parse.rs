//! Parsing of the solver's answers: one step of a parser reads the bytes
//! received so far and says whether an answer is complete.

use vstd::prelude::*;

verus! {

/// An answer of the solver that is not the one asked for.
#[derive(Clone, Copy, Debug, PartialEq, Eq)]
pub enum ResponseError {
    /// The solver does not support the command (`unsupported`).
    Unsupported,
    /// The solver could not decide satisfiability (`unknown`).
    Unknown,
}

/// Result of parsing an answer to a command that answers `success`.
pub type SuccessRes = Result<(), ResponseError>;

/// Result of parsing an answer to `check-sat`: `true` for `sat`, `false` for
/// `unsat`.
pub type CheckSatRes = Result<bool, ResponseError>;

/// What one step of a parser found in the bytes received so far.
#[derive(Debug, PartialEq, Eq)]
pub enum Step<T> {
    /// A complete answer: the number of bytes it took, and its value.
    Done(usize, T),
    /// The bytes so far begin an answer that is not complete yet.
    Incomplete,
    /// The bytes so far cannot begin an answer.
    Error,
}

/// Whitespace between answers: space, tab, line feed, carriage return.
pub open spec fn is_ws(b: u8) -> bool {
    b == ' ' as u8 || b == '\t' as u8 || b == '\n' as u8 || b == '\r' as u8
}

/// The number of whitespace bytes at the start of `s`.
pub open spec fn ws_len(s: Seq<u8>) -> nat
    decreases s.len(),
{
    if s.len() > 0 && is_ws(s[0]) {
        1 + ws_len(s.drop_first())
    } else {
        0
    }
}

/// The bytes of `success`.
pub open spec fn success_kw() -> Seq<u8> {
    seq!['s' as u8, 'u' as u8, 'c' as u8, 'c' as u8, 'e' as u8, 's' as u8, 's' as u8]
}

/// The bytes of `unsupported`.
pub open spec fn unsupported_kw() -> Seq<u8> {
    seq!['u' as u8, 'n' as u8, 's' as u8, 'u' as u8, 'p' as u8, 'p' as u8, 'o' as u8, 'r' as u8, 't' as u8, 'e' as u8, 'd' as u8]
}

/// The bytes of `sat`.
pub open spec fn sat_kw() -> Seq<u8> {
    seq!['s' as u8, 'a' as u8, 't' as u8]
}

/// The bytes of `unsat`.
pub open spec fn unsat_kw() -> Seq<u8> {
    seq!['u' as u8, 'n' as u8, 's' as u8, 'a' as u8, 't' as u8]
}

/// The bytes of `unknown`.
pub open spec fn unknown_kw() -> Seq<u8> {
    seq!['u' as u8, 'n' as u8, 'k' as u8, 'n' as u8, 'o' as u8, 'w' as u8, 'n' as u8]
}

/// The answer to a command that answers `success`, read from `s`: after any
/// whitespace, `success` or `unsupported`.
pub open spec fn success_step(s: Seq<u8>) -> Step<SuccessRes> {
    let k = ws_len(s);
    let rest = s.skip(k as int);
    if success_kw().is_prefix_of(rest) {
        Step::Done((k + success_kw().len()) as usize, Ok(()))
    } else if unsupported_kw().is_prefix_of(rest) {
        Step::Done((k + unsupported_kw().len()) as usize, Err(ResponseError::Unsupported))
    } else if rest.is_prefix_of(success_kw()) || rest.is_prefix_of(unsupported_kw()) {
        Step::Incomplete
    } else {
        Step::Error
    }
}

/// The answer to `check-sat`, read from `s`: after any whitespace, `sat`,
/// `unsat` or `unknown`.
pub open spec fn check_sat_step(s: Seq<u8>) -> Step<CheckSatRes> {
    let k = ws_len(s);
    let rest = s.skip(k as int);
    if sat_kw().is_prefix_of(rest) {
        Step::Done((k + sat_kw().len()) as usize, Ok(true))
    } else if unsat_kw().is_prefix_of(rest) {
        Step::Done((k + unsat_kw().len()) as usize, Ok(false))
    } else if unknown_kw().is_prefix_of(rest) {
        Step::Done((k + unknown_kw().len()) as usize, Err(ResponseError::Unknown))
    } else if rest.is_prefix_of(sat_kw()) || rest.is_prefix_of(unsat_kw()) || rest.is_prefix_of(
        unknown_kw(),
    ) {
        Step::Incomplete
    } else {
        Step::Error
    }
}

fn is_ws_byte(b: u8) -> (r: bool)
    ensures
        r == is_ws(b),
{
    b == ' ' as u8 || b == '\t' as u8 || b == '\n' as u8 || b == '\r' as u8
}

/// The number of whitespace bytes at the start of `input`.
fn skip_ws(input: &[u8]) -> (k: usize)
    ensures
        k == ws_len(input@),
{
    let mut i: usize = 0;
    assert(input@.skip(0) =~= input@);
    while i < input.len() && is_ws_byte(input[i])
        invariant
            i <= input@.len(),
            ws_len(input@) == i + ws_len(input@.skip(i as int)),
        decreases input@.len() - i,
    {
        assert(input@.skip(i as int).drop_first() =~= input@.skip(i + 1));
        i = i + 1;
    }
    i
}

/// Whether `kw` is a prefix of the bytes of `input` from `pos` on.
fn has_prefix_at(input: &[u8], pos: usize, kw: &[u8]) -> (r: bool)
    requires
        pos <= input@.len(),
    ensures
        r == kw@.is_prefix_of(input@.skip(pos as int)),
        r ==> pos + kw@.len() <= input.len(),
{
    let len: usize = input.len();
    if kw.len() > len - pos {
        return false;
    }
    let mut j: usize = 0;
    while j < kw.len()
        invariant
            len == input@.len(),
            pos <= input@.len(),
            j <= kw@.len(),
            kw@.len() <= input@.len() - pos,
            forall|m: int| 0 <= m < j ==> kw@[m] == input@[pos + m],
        decreases kw@.len() - j,
    {
        if kw[j] != input[pos + j] {
            assert(kw@[j as int] != input@.skip(pos as int)[j as int]);
            return false;
        }
        j = j + 1;
    }
    assert(kw@ =~= input@.skip(pos as int).subrange(0, kw@.len() as int));
    true
}

/// Whether the bytes of `input` from `pos` on are a prefix of `kw`.
fn is_prefix_at(input: &[u8], pos: usize, kw: &[u8]) -> (r: bool)
    requires
        pos <= input@.len(),
    ensures
        r == input@.skip(pos as int).is_prefix_of(kw@),
{
    let len: usize = input.len();
    let n: usize = len - pos;
    if n > kw.len() {
        return false;
    }
    let mut j: usize = 0;
    while j < n
        invariant
            len == input@.len(),
            pos <= input@.len(),
            n == input@.len() - pos,
            n <= kw@.len(),
            j <= n,
            forall|m: int| 0 <= m < j ==> kw@[m] == input@[pos + m],
        decreases n - j,
    {
        if kw[j] != input[pos + j] {
            assert(kw@.subrange(0, n as int)[j as int] != input@.skip(pos as int)[j as int]);
            return false;
        }
        j = j + 1;
    }
    assert(input@.skip(pos as int) =~= kw@.subrange(0, n as int));
    true
}

/// One step of the parser of answers to commands that answer `success`.
pub fn success(input: &[u8]) -> (r: Step<SuccessRes>)
    ensures
        r == success_step(input@),
{
    let succ: Vec<u8> = vec!['s' as u8, 'u' as u8, 'c' as u8, 'c' as u8, 'e' as u8, 's' as u8, 's' as u8];
    let unsupp: Vec<u8> = vec!['u' as u8, 'n' as u8, 's' as u8, 'u' as u8, 'p' as u8, 'p' as u8, 'o' as u8, 'r' as u8, 't' as u8, 'e' as u8, 'd' as u8];
    assert(succ@ =~= success_kw());
    assert(unsupp@ =~= unsupported_kw());
    let k = skip_ws(input);
    proof {
        lemma_ws_len_bound(input@);
    }
    if has_prefix_at(input, k, succ.as_slice()) {
        Step::Done(k + succ.len(), Ok(()))
    } else if has_prefix_at(input, k, unsupp.as_slice()) {
        Step::Done(k + unsupp.len(), Err(ResponseError::Unsupported))
    } else if is_prefix_at(input, k, succ.as_slice()) || is_prefix_at(input, k, unsupp.as_slice()) {
        Step::Incomplete
    } else {
        Step::Error
    }
}

/// One step of the parser of answers to `check-sat`.
pub fn check_sat(input: &[u8]) -> (r: Step<CheckSatRes>)
    ensures
        r == check_sat_step(input@),
{
    let sat: Vec<u8> = vec!['s' as u8, 'a' as u8, 't' as u8];
    let unsat: Vec<u8> = vec!['u' as u8, 'n' as u8, 's' as u8, 'a' as u8, 't' as u8];
    let unknown: Vec<u8> = vec!['u' as u8, 'n' as u8, 'k' as u8, 'n' as u8, 'o' as u8, 'w' as u8, 'n' as u8];
    assert(sat@ =~= sat_kw());
    assert(unsat@ =~= unsat_kw());
    assert(unknown@ =~= unknown_kw());
    let k = skip_ws(input);
    proof {
        lemma_ws_len_bound(input@);
    }
    if has_prefix_at(input, k, sat.as_slice()) {
        Step::Done(k + sat.len(), Ok(true))
    } else if has_prefix_at(input, k, unsat.as_slice()) {
        Step::Done(k + unsat.len(), Ok(false))
    } else if has_prefix_at(input, k, unknown.as_slice()) {
        Step::Done(k + unknown.len(), Err(ResponseError::Unknown))
    } else if is_prefix_at(input, k, sat.as_slice()) || is_prefix_at(input, k, unsat.as_slice())
        || is_prefix_at(input, k, unknown.as_slice()) {
        Step::Incomplete
    } else {
        Step::Error
    }
}

proof fn lemma_ws_len_bound(s: Seq<u8>)
    ensures
        ws_len(s) <= s.len(),
    decreases s.len(),
{
    if s.len() > 0 {
        lemma_ws_len_bound(s.drop_first());
    }
}

proof fn lemma_ws_len_append(s: Seq<u8>, t: Seq<u8>)
    requires
        ws_len(s) < s.len(),
    ensures
        ws_len(s + t) == ws_len(s),
        (s + t).skip(ws_len(s) as int) =~= s.skip(ws_len(s) as int) + t,
    decreases s.len(),
{
    if is_ws(s[0]) {
        assert((s + t).drop_first() =~= s.drop_first() + t);
        lemma_ws_len_append(s.drop_first(), t);
    }
    assert((s + t)[0] == s[0]);
}

proof fn lemma_prefix_long_rest(kw: Seq<u8>, r: Seq<u8>, t: Seq<u8>)
    requires
        kw.len() <= r.len(),
    ensures
        kw.is_prefix_of(r + t) == kw.is_prefix_of(r),
{
    assert((r + t).subrange(0, kw.len() as int) =~= r.subrange(0, kw.len() as int));
}

proof fn lemma_no_prefix_either_way(kw: Seq<u8>, r: Seq<u8>, t: Seq<u8>)
    requires
        !kw.is_prefix_of(r),
        !r.is_prefix_of(kw),
    ensures
        !kw.is_prefix_of(r + t),
        !(r + t).is_prefix_of(kw),
{
    if kw.len() <= r.len() {
        lemma_prefix_long_rest(kw, r, t);
    } else {
        if kw.is_prefix_of(r + t) {
            assert(r =~= kw.subrange(0, r.len() as int)) by {
                assert forall|i: int| 0 <= i < r.len() implies r[i] == kw.subrange(0, r.len() as int)[i] by {
                    assert((r + t)[i] == r[i]);
                    assert(kw[i] == (r + t).subrange(0, kw.len() as int)[i]);
                }
            }
        }
    }
    if (r + t).is_prefix_of(kw) {
        assert(r =~= kw.subrange(0, r.len() as int)) by {
            assert forall|i: int| 0 <= i < r.len() implies r[i] == kw.subrange(0, r.len() as int)[i] by {
                assert((r + t)[i] == r[i]);
                assert((r + t)[i] == kw.subrange(0, (r + t).len() as int)[i]);
            }
        }
    }
}

/// An answer to a command that answers `success`, once read or refused, stays
/// what it is whatever bytes arrive after it: only an incomplete answer
/// waits for more bytes.
pub proof fn success_step_stable(s: Seq<u8>, t: Seq<u8>)
    requires
        !(success_step(s) is Incomplete),
    ensures
        success_step(s + t) == success_step(s),
{
    let k = ws_len(s);
    lemma_ws_len_bound(s);
    let rest = s.skip(k as int);
    if rest.len() == 0 {
        assert(rest.is_prefix_of(success_kw()));
    }
    lemma_ws_len_append(s, t);
    let rest2 = (s + t).skip(k as int);
    assert(rest2 =~= rest + t);
    if success_kw().is_prefix_of(rest) {
        lemma_prefix_long_rest(success_kw(), rest, t);
    } else if unsupported_kw().is_prefix_of(rest) {
        lemma_prefix_long_rest(success_kw(), rest, t);
        lemma_prefix_long_rest(unsupported_kw(), rest, t);
    } else {
        lemma_no_prefix_either_way(success_kw(), rest, t);
        lemma_no_prefix_either_way(unsupported_kw(), rest, t);
    }
}

/// An answer to `check-sat`, once read or refused, stays what it is whatever
/// bytes arrive after it: only an incomplete answer waits for more bytes.
pub proof fn check_sat_step_stable(s: Seq<u8>, t: Seq<u8>)
    requires
        !(check_sat_step(s) is Incomplete),
    ensures
        check_sat_step(s + t) == check_sat_step(s),
{
    let k = ws_len(s);
    lemma_ws_len_bound(s);
    let rest = s.skip(k as int);
    if rest.len() == 0 {
        assert(rest.is_prefix_of(sat_kw()));
    }
    lemma_ws_len_append(s, t);
    let rest2 = (s + t).skip(k as int);
    assert(rest2 =~= rest + t);
    if sat_kw().is_prefix_of(rest) {
        lemma_prefix_long_rest(sat_kw(), rest, t);
    } else if unsat_kw().is_prefix_of(rest) {
        lemma_prefix_long_rest(sat_kw(), rest, t);
        lemma_prefix_long_rest(unsat_kw(), rest, t);
    } else if unknown_kw().is_prefix_of(rest) {
        lemma_prefix_long_rest(sat_kw(), rest, t);
        lemma_prefix_long_rest(unsat_kw(), rest, t);
        lemma_prefix_long_rest(unknown_kw(), rest, t);
    } else {
        lemma_no_prefix_either_way(sat_kw(), rest, t);
        lemma_no_prefix_either_way(unsat_kw(), rest, t);
        lemma_no_prefix_either_way(unknown_kw(), rest, t);
    }
}

/// Every byte of `w` is a space, a tab, a line feed or a carriage return.
pub open spec fn all_whitespace(w: Seq<u8>) -> bool {
    forall|i: int|
        0 <= i < w.len() ==> w[i] == ' ' as u8 || w[i] == '\t' as u8 || w[i] == '\n' as u8 || w[i]
            == '\r' as u8
}

proof fn lemma_ws_len_after_whitespace(w: Seq<u8>, s: Seq<u8>)
    requires
        all_whitespace(w),
    ensures
        ws_len(w + s) == w.len() + ws_len(s),
    decreases w.len(),
{
    if w.len() > 0 {
        assert((w + s)[0] == w[0]);
        assert((w + s).drop_first() =~= w.drop_first() + s);
        lemma_ws_len_after_whitespace(w.drop_first(), s);
    } else {
        assert(w + s =~= s);
    }
}

/// After whitespace `w`, the answer `kw` followed by anything, read as the
/// rest of the input.
proof fn lemma_rest_after_whitespace(w: Seq<u8>, kw: Seq<u8>, t: Seq<u8>)
    requires
        all_whitespace(w),
        kw.len() > 0,
        !is_ws(kw[0]),
    ensures
        ws_len(w + kw + t) == w.len(),
        (w + kw + t).skip(w.len() as int) =~= kw + t,
        kw.is_prefix_of(kw + t),
{
    assert(w + kw + t =~= w + (kw + t));
    lemma_ws_len_after_whitespace(w, kw + t);
    assert((kw + t)[0] == kw[0]);
    assert((kw + t).subrange(0, kw.len() as int) =~= kw);
}

/// Whatever whitespace comes first and whatever follows, `sat`, `unsat` and
/// `unknown` are read as the answers true, false and unknown, using the
/// whitespace and the word and nothing more.
pub proof fn check_sat_reads_words_after_whitespace(w: Seq<u8>, t: Seq<u8>)
    requires
        all_whitespace(w),
    ensures
        check_sat_step(w + seq!['s' as u8, 'a' as u8, 't' as u8] + t) == Step::Done(
            (w.len() + 3) as usize,
            Ok::<bool, ResponseError>(true),
        ),
        check_sat_step(w + seq!['u' as u8, 'n' as u8, 's' as u8, 'a' as u8, 't' as u8] + t)
            == Step::Done((w.len() + 5) as usize, Ok::<bool, ResponseError>(false)),
        check_sat_step(
            w + seq!['u' as u8, 'n' as u8, 'k' as u8, 'n' as u8, 'o' as u8, 'w' as u8, 'n' as u8]
                + t,
        ) == Step::Done((w.len() + 7) as usize, Err::<bool, ResponseError>(ResponseError::Unknown)),
{
    let sat = seq!['s' as u8, 'a' as u8, 't' as u8];
    let unsat = seq!['u' as u8, 'n' as u8, 's' as u8, 'a' as u8, 't' as u8];
    let unknown = seq!['u' as u8, 'n' as u8, 'k' as u8, 'n' as u8, 'o' as u8, 'w' as u8, 'n' as u8];
    assert(sat =~= sat_kw());
    assert(unsat =~= unsat_kw());
    assert(unknown =~= unknown_kw());
    lemma_rest_after_whitespace(w, sat, t);
    lemma_rest_after_whitespace(w, unsat, t);
    lemma_rest_after_whitespace(w, unknown, t);
    // A word that starts differently is no prefix.
    assert((unsat + t)[0] != sat_kw()[0]);
    assert(!sat_kw().is_prefix_of(unsat + t)) by {
        if sat_kw().is_prefix_of(unsat + t) {
            assert(sat_kw()[0] == (unsat + t).subrange(0, 3)[0]);
        }
    }
    assert((unknown + t)[0] != sat_kw()[0]);
    assert(!sat_kw().is_prefix_of(unknown + t)) by {
        if sat_kw().is_prefix_of(unknown + t) {
            assert(sat_kw()[0] == (unknown + t).subrange(0, 3)[0]);
        }
    }
    assert((unknown + t)[2] != unsat_kw()[2]);
    assert(!unsat_kw().is_prefix_of(unknown + t)) by {
        if unsat_kw().is_prefix_of(unknown + t) {
            assert(unsat_kw()[2] == (unknown + t).subrange(0, 5)[2]);
        }
    }
}

/// Whatever whitespace comes first and whatever follows, `success` and
/// `unsupported` are read as the answers success and unsupported, using the
/// whitespace and the word and nothing more.
pub proof fn success_reads_words_after_whitespace(w: Seq<u8>, t: Seq<u8>)
    requires
        all_whitespace(w),
    ensures
        success_step(
            w + seq!['s' as u8, 'u' as u8, 'c' as u8, 'c' as u8, 'e' as u8, 's' as u8, 's' as u8]
                + t,
        ) == Step::Done((w.len() + 7) as usize, Ok::<(), ResponseError>(())),
        success_step(
            w + seq![
                'u' as u8,
                'n' as u8,
                's' as u8,
                'u' as u8,
                'p' as u8,
                'p' as u8,
                'o' as u8,
                'r' as u8,
                't' as u8,
                'e' as u8,
                'd' as u8,
            ] + t,
        ) == Step::Done((w.len() + 11) as usize, Err::<(), ResponseError>(ResponseError::Unsupported)),
{
    let succ = seq!['s' as u8, 'u' as u8, 'c' as u8, 'c' as u8, 'e' as u8, 's' as u8, 's' as u8];
    let unsupp = seq![
        'u' as u8,
        'n' as u8,
        's' as u8,
        'u' as u8,
        'p' as u8,
        'p' as u8,
        'o' as u8,
        'r' as u8,
        't' as u8,
        'e' as u8,
        'd' as u8,
    ];
    assert(succ =~= success_kw());
    assert(unsupp =~= unsupported_kw());
    lemma_rest_after_whitespace(w, succ, t);
    lemma_rest_after_whitespace(w, unsupp, t);
    assert((unsupp + t)[0] != success_kw()[0]);
    assert(!success_kw().is_prefix_of(unsupp + t)) by {
        if success_kw().is_prefix_of(unsupp + t) {
            assert(success_kw()[0] == (unsupp + t).subrange(0, 7)[0]);
        }
    }
}

proof fn lemma_differ_at(kw: Seq<u8>, r: Seq<u8>, i: int)
    requires
        0 <= i < kw.len(),
        i < r.len(),
        kw[i] != r[i],
    ensures
        !kw.is_prefix_of(r),
        !r.is_prefix_of(kw),
{
    if kw.is_prefix_of(r) {
        assert(kw[i] == r.subrange(0, kw.len() as int)[i]);
    }
    if r.is_prefix_of(kw) {
        assert(r[i] == kw.subrange(0, r.len() as int)[i]);
    }
}

proof fn lemma_rest_is_word_start(w: Seq<u8>, p: Seq<u8>)
    requires
        all_whitespace(w),
        p.len() == 0 || !is_ws(p[0]),
    ensures
        ws_len(w + p) == w.len(),
        (w + p).skip(w.len() as int) =~= p,
{
    lemma_ws_len_after_whitespace(w, p);
}

/// After whitespace, a beginning of `sat`, `unsat` or `unknown` that is
/// shorter than the word is read as an answer not complete yet.
pub proof fn check_sat_waits_for_the_rest_of_a_word(w: Seq<u8>, p: Seq<u8>, kw: Seq<u8>)
    requires
        all_whitespace(w),
        kw == seq!['s' as u8, 'a' as u8, 't' as u8] || kw == seq![
            'u' as u8,
            'n' as u8,
            's' as u8,
            'a' as u8,
            't' as u8,
        ] || kw == seq!['u' as u8, 'n' as u8, 'k' as u8, 'n' as u8, 'o' as u8, 'w' as u8, 'n' as u8],
        p.len() < kw.len(),
        p =~= kw.subrange(0, p.len() as int),
    ensures
        check_sat_step(w + p) is Incomplete,
{
    if p.len() > 0 {
        assert(p[0] == kw[0]);
    }
    lemma_rest_is_word_start(w, p);
    assert(p.is_prefix_of(kw));
    if kw == unsat_kw() {
        if p.len() >= 3 {
            lemma_differ_at(sat_kw(), p, 0);
        }
    } else if kw =~= unknown_kw() {
        if p.len() >= 3 {
            lemma_differ_at(sat_kw(), p, 0);
        }
        if p.len() >= 5 {
            lemma_differ_at(unsat_kw(), p, 2);
        }
    }
}

/// After whitespace, a beginning of `success` or `unsupported` that is
/// shorter than the word is read as an answer not complete yet.
pub proof fn success_waits_for_the_rest_of_a_word(w: Seq<u8>, p: Seq<u8>, kw: Seq<u8>)
    requires
        all_whitespace(w),
        kw == seq!['s' as u8, 'u' as u8, 'c' as u8, 'c' as u8, 'e' as u8, 's' as u8, 's' as u8]
            || kw == seq![
            'u' as u8,
            'n' as u8,
            's' as u8,
            'u' as u8,
            'p' as u8,
            'p' as u8,
            'o' as u8,
            'r' as u8,
            't' as u8,
            'e' as u8,
            'd' as u8,
        ],
        p.len() < kw.len(),
        p =~= kw.subrange(0, p.len() as int),
    ensures
        success_step(w + p) is Incomplete,
{
    if p.len() > 0 {
        assert(p[0] == kw[0]);
    }
    lemma_rest_is_word_start(w, p);
    assert(p.is_prefix_of(kw));
    if kw != success_kw() {
        assert(kw =~= unsupported_kw());
        if p.len() >= 7 {
            lemma_differ_at(success_kw(), p, 0);
        }
    }
}

/// After whitespace, a byte that begins no answer word makes the answer
/// refused, whatever follows.
pub proof fn answers_refuse_other_first_bytes(w: Seq<u8>, c: u8, t: Seq<u8>)
    requires
        all_whitespace(w),
        c != ' ' as u8 && c != '\t' as u8 && c != '\n' as u8 && c != '\r' as u8,
        c != 's' as u8 && c != 'u' as u8,
    ensures
        check_sat_step(w + seq![c] + t) is Error,
        success_step(w + seq![c] + t) is Error,
{
    let r = seq![c] + t;
    assert(w + seq![c] + t =~= w + r);
    assert(r[0] == c);
    lemma_rest_is_word_start(w, r);
    lemma_differ_at(sat_kw(), r, 0);
    lemma_differ_at(unsat_kw(), r, 0);
    lemma_differ_at(unknown_kw(), r, 0);
    lemma_differ_at(success_kw(), r, 0);
    lemma_differ_at(unsupported_kw(), r, 0);
}

} // verus!

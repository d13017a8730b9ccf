//! Character-level pieces of the persisted text format: decimal
//! numbers and quoted strings, with printing, parsing, and proofs
//! that parsing undoes printing.

use vstd::prelude::*;

verus! {

pub open spec fn is_digit(c: char) -> bool {
    '0' as int <= c as int <= '9' as int
}

/// The numeric value of a digit character.
pub open spec fn digit_val(c: char) -> int {
    c as int - '0' as int
}

/// The digit character of a value below ten.
pub open spec fn digit_char(d: int) -> char {
    if d == 0 {
        '0'
    } else if d == 1 {
        '1'
    } else if d == 2 {
        '2'
    } else if d == 3 {
        '3'
    } else if d == 4 {
        '4'
    } else if d == 5 {
        '5'
    } else if d == 6 {
        '6'
    } else if d == 7 {
        '7'
    } else if d == 8 {
        '8'
    } else {
        '9'
    }
}

/// The decimal digits of `n`, most significant first.
pub open spec fn spec_nat_chars(n: nat) -> Seq<char>
    decreases n,
{
    if n < 10 {
        seq![digit_char(n as int)]
    } else {
        spec_nat_chars(n / 10) + seq![digit_char((n % 10) as int)]
    }
}

/// The value of a run of digit characters, most significant first.
pub open spec fn spec_digits_val(ds: Seq<char>) -> int
    decreases ds.len(),
{
    if ds.len() == 0 {
        0
    } else {
        spec_digits_val(ds.drop_last()) * 10 + digit_val(ds.last())
    }
}

/// Length of the digit run of `s` starting at `pos`.
pub open spec fn spec_digit_run_len(s: Seq<char>, pos: int) -> int
    decreases s.len() - pos,
{
    if 0 <= pos < s.len() && is_digit(s[pos]) {
        1 + spec_digit_run_len(s, pos + 1)
    } else {
        0
    }
}

/// What parsing a decimal number at `pos` yields: the value of the
/// maximal digit run, provided there is at least one digit and the
/// value is machine-representable.
pub open spec fn spec_parse_digits(s: Seq<char>, pos: int) -> Option<(int, int)> {
    let k = spec_digit_run_len(s, pos);
    if k == 0 {
        None
    } else {
        let v = spec_digits_val(s.subrange(pos, pos + k));
        if v > u128::MAX {
            None
        } else {
            Some((v, pos + k))
        }
    }
}

/// The digits of a number are digit characters, there is at least
/// one, and their value is the number again.
pub proof fn lemma_nat_chars(n: nat)
    ensures
        spec_nat_chars(n).len() >= 1,
        forall|i: int|
            0 <= i < spec_nat_chars(n).len() ==> is_digit(#[trigger] spec_nat_chars(n)[i]),
        spec_digits_val(spec_nat_chars(n)) == n,
    decreases n,
{
    if n < 10 {
        assert(spec_nat_chars(n) == seq![digit_char(n as int)]);
        assert(is_digit(digit_char(n as int)));
        assert(seq![digit_char(n as int)].drop_last() =~= Seq::<char>::empty());
        assert(spec_digits_val(Seq::<char>::empty()) == 0);
        assert(seq![digit_char(n as int)].last() == digit_char(n as int));
        assert(spec_digits_val(seq![digit_char(n as int)]) == digit_val(digit_char(n as int)));
        assert(digit_val(digit_char(n as int)) == n);
    } else {
        lemma_nat_chars(n / 10);
        let a = spec_nat_chars(n / 10);
        let d = digit_char((n % 10) as int);
        assert(spec_nat_chars(n) == a + seq![d]);
        assert((a + seq![d]).drop_last() =~= a);
        assert((a + seq![d]).last() == d);
        assert(digit_val(d) == n % 10);
        assert(spec_digits_val(a + seq![d]) == spec_digits_val(a) * 10 + n % 10);
        assert(spec_digits_val(a) * 10 + n % 10 == n) by {
            assert(spec_digits_val(a) == n / 10);
            assert(n / 10 * 10 + n % 10 == n) by (nonlinear_arith);
        }
        assert forall|i: int| 0 <= i < spec_nat_chars(n).len() implies is_digit(
            #[trigger] spec_nat_chars(n)[i],
        ) by {
            if i < a.len() {
                assert(spec_nat_chars(n)[i] == a[i]);
            } else {
                assert(spec_nat_chars(n)[i] == d);
            }
        }
    }
}

/// The digit run at a printed number ends exactly where the number's
/// digits end, provided no digit follows them.
pub proof fn lemma_digit_run_over(s: Seq<char>, pos: int, k: int)
    requires
        0 <= pos,
        0 <= k,
        pos + k <= s.len(),
        forall|i: int| pos <= i < pos + k ==> is_digit(#[trigger] s[i]),
        pos + k == s.len() || !is_digit(s[pos + k]),
    ensures
        spec_digit_run_len(s, pos) == k,
    decreases k,
{
    if k > 0 {
        assert(is_digit(s[pos]));
        lemma_digit_run_over(s, pos + 1, k - 1);
    } else {
        if pos < s.len() {
            assert(!is_digit(s[pos]));
        }
    }
}

/// Parsing the printed digits of `n`, followed by anything that does
/// not begin with a digit, yields `n` and stops right after them.
pub proof fn lemma_parse_print_digits(s: Seq<char>, pos: int, n: nat)
    requires
        0 <= pos,
        n <= u128::MAX,
        pos + spec_nat_chars(n).len() <= s.len(),
        s.subrange(pos, pos + spec_nat_chars(n).len() as int) == spec_nat_chars(n),
        pos + spec_nat_chars(n).len() == s.len() || !is_digit(
            s[pos + spec_nat_chars(n).len() as int],
        ),
    ensures
        spec_parse_digits(s, pos) == Some((n as int, pos + spec_nat_chars(n).len() as int)),
{
    let k = spec_nat_chars(n).len() as int;
    lemma_nat_chars(n);
    assert forall|i: int| pos <= i < pos + k implies is_digit(#[trigger] s[i]) by {
        assert(s[i] == s.subrange(pos, pos + k)[i - pos]);
    }
    lemma_digit_run_over(s, pos, k);
    assert(spec_digits_val(s.subrange(pos, pos + k)) == n);
}

/// Prints `n` in decimal, most significant digit first.
pub fn print_u128(n: u128) -> (r: Vec<char>)
    ensures
        r@ == spec_nat_chars(n as nat),
    decreases n,
{
    let d = (n % 10) as u8;
    let c: char = if d == 0 {
        '0'
    } else if d == 1 {
        '1'
    } else if d == 2 {
        '2'
    } else if d == 3 {
        '3'
    } else if d == 4 {
        '4'
    } else if d == 5 {
        '5'
    } else if d == 6 {
        '6'
    } else if d == 7 {
        '7'
    } else if d == 8 {
        '8'
    } else {
        '9'
    };
    proof {
        assert(c == digit_char((n % 10) as int));
    }
    if n < 10 {
        let mut r: Vec<char> = Vec::new();
        r.push(c);
        proof {
            assert(r@ =~= spec_nat_chars(n as nat));
        }
        r
    } else {
        let mut r = print_u128(n / 10);
        r.push(c);
        proof {
            assert(r@ =~= spec_nat_chars(n as nat));
        }
        r
    }
}


/// Parses the decimal number at `pos`: the value of the maximal
/// digit run, or `None` when no digit starts there or the value
/// overflows the machine range.
pub fn parse_digits(s: &Vec<char>, pos: usize) -> (r: Option<(u128, usize)>)
    requires
        pos <= s@.len(),
    ensures
        match r {
            Some((v, p)) => spec_parse_digits(s@, pos as int) == Some((v as int, p as int)) && pos
                < p <= s@.len(),
            None => (spec_parse_digits(s@, pos as int) is None),
        },
{
    let n = s.len();
    let mut i = pos;
    let mut acc: u128 = 0;
    let mut over = false;
    loop
        invariant
            pos <= i <= n,
            n == s@.len(),
            forall|j: int| pos <= j < i ==> is_digit(#[trigger] s@[j]),
            !over ==> acc == spec_digits_val(s@.subrange(pos as int, i as int)),
            over ==> spec_digits_val(s@.subrange(pos as int, i as int)) > u128::MAX,
            spec_digits_val(s@.subrange(pos as int, i as int)) >= 0,
        ensures
            pos <= i <= n,
            n == s@.len(),
            forall|j: int| pos <= j < i ==> is_digit(#[trigger] s@[j]),
            !over ==> acc == spec_digits_val(s@.subrange(pos as int, i as int)),
            over ==> spec_digits_val(s@.subrange(pos as int, i as int)) > u128::MAX,
            i == n || !is_digit(s@[i as int]),
        decreases n - i,
    {
        if i >= n {
            break ;
        }
        let c = s[i];
        let dv: Option<u8> = match c {
            '0' => Some(0),
            '1' => Some(1),
            '2' => Some(2),
            '3' => Some(3),
            '4' => Some(4),
            '5' => Some(5),
            '6' => Some(6),
            '7' => Some(7),
            '8' => Some(8),
            '9' => Some(9),
            _ => None,
        };
        let d: u128 = match dv {
            Some(d) => d as u128,
            None => {
                proof {
                    assert(!is_digit(s@[i as int]));
                }
                break ;
            },
        };
        proof {
            assert(d == digit_val(s@[i as int]));
        }
        let ghost prevv = spec_digits_val(s@.subrange(pos as int, i as int));
        proof {
            assert(is_digit(s@[i as int]));
            assert(s@.subrange(pos as int, i + 1).drop_last() =~= s@.subrange(
                pos as int,
                i as int,
            ));
            assert(s@.subrange(pos as int, i + 1).last() == s@[i as int]);
            assert(spec_digits_val(s@.subrange(pos as int, i + 1)) == prevv * 10 + d);
            assert(prevv * 10 >= prevv) by (nonlinear_arith)
                requires
                    prevv >= 0,
            ;
        }
        if over || acc > (u128::MAX - d) / 10 {
            proof {
                if !over {
                    assert(acc * 10 + d > u128::MAX) by (nonlinear_arith)
                        requires
                            acc > (u128::MAX - d as u128) / 10,
                            d <= 9,
                    ;
                }
            }
            over = true;
        } else {
            proof {
                assert(acc * 10 + d <= u128::MAX) by (nonlinear_arith)
                    requires
                        acc <= (u128::MAX - d as u128) / 10,
                        d <= 9,
                ;
            }
            acc = acc * 10 + d;
        }
        i = i + 1;
    }
    proof {
        lemma_digit_run_over(s@, pos as int, i - pos);
    }
    if i == pos {
        None
    } else if over {
        None
    } else {
        Some((acc, i))
    }
}

/// How one character is written inside a quoted string: quotes and
/// backslashes take a backslash in front, all else stands as itself.
pub open spec fn spec_escape_char(c: char) -> Seq<char> {
    if c == '"' || c == '\\' {
        seq!['\\', c]
    } else {
        seq![c]
    }
}

/// How a string's characters are written inside quotes.
pub open spec fn spec_escape(x: Seq<char>) -> Seq<char>
    decreases x.len(),
{
    if x.len() == 0 {
        Seq::empty()
    } else {
        spec_escape_char(x[0]) + spec_escape(x.drop_first())
    }
}

/// Escaping one more character appends its escape.
pub proof fn lemma_escape_push(x: Seq<char>, c: char)
    ensures
        spec_escape(x.push(c)) == spec_escape(x) + spec_escape_char(c),
    decreases x.len(),
{
    if x.len() == 0 {
        assert(x.push(c)[0] == c);
        assert(x.push(c).drop_first() =~= Seq::<char>::empty());
        assert(spec_escape(Seq::<char>::empty()) == Seq::<char>::empty());
        assert(spec_escape(x.push(c)) =~= spec_escape(x) + spec_escape_char(c));
    } else {
        assert(x.push(c)[0] == x[0]);
        assert(x.push(c).drop_first() =~= x.drop_first().push(c));
        lemma_escape_push(x.drop_first(), c);
        assert(spec_escape(x.push(c)) =~= spec_escape(x) + spec_escape_char(c));
    }
}

/// What parsing quoted-string content at `pos` yields: the characters
/// up to the closing quote, with escapes undone, and the position
/// right after the quote.
pub open spec fn spec_parse_str_content(s: Seq<char>, pos: int) -> Option<(Seq<char>, int)>
    decreases s.len() - pos,
{
    if pos < 0 || pos >= s.len() {
        None
    } else if s[pos] == '"' {
        Some((Seq::empty(), pos + 1))
    } else if s[pos] == '\\' {
        if pos + 1 < s.len() && (s[pos + 1] == '"' || s[pos + 1] == '\\') {
            match spec_parse_str_content(s, pos + 2) {
                Some((t, p)) => Some((seq![s[pos + 1]] + t, p)),
                None => None,
            }
        } else {
            None
        }
    } else {
        match spec_parse_str_content(s, pos + 1) {
            Some((t, p)) => Some((seq![s[pos]] + t, p)),
            None => None,
        }
    }
}

/// Parsing undoes escaping: string content written as the escape of
/// `x` followed by a closing quote reads back as `x`.
pub proof fn lemma_parse_print_str(s: Seq<char>, pos: int, x: Seq<char>)
    requires
        0 <= pos,
        pos + spec_escape(x).len() + 1 <= s.len(),
        s.subrange(pos, pos + spec_escape(x).len() + 1) == spec_escape(x) + seq!['"'],
    ensures
        spec_parse_str_content(s, pos) == Some((x, pos + spec_escape(x).len() + 1)),
    decreases x.len(),
{
    let e = spec_escape(x);
    let w = e + seq!['"'];
    let ln = e.len() + 1;
    assert forall|i: int| 0 <= i < ln implies s[pos + i] == w[i] by {
        assert(s.subrange(pos, pos + ln)[i] == s[pos + i]);
    }
    if x.len() == 0 {
        assert(w[0] == '"');
        assert(s[pos] == '"');
    } else {
        let c = x[0];
        let rest = x.drop_first();
        let er = spec_escape(rest);
        assert(e == spec_escape_char(c) + er);
        let ec = spec_escape_char(c);
        if c == '"' || c == '\\' {
            assert(ec == seq!['\\', c]);
            assert(w[0] == ec[0] && w[1] == ec[1]);
            assert(s[pos] == '\\');
            assert(s[pos + 1] == c);
            assert forall|i: int| 0 <= i < er.len() + 1 implies s[pos + 2 + i] == (er
                + seq!['"'])[i] by {
                assert(s[pos + (2 + i)] == w[2 + i]);
                if i < er.len() {
                    assert(w[2 + i] == e[2 + i]);
                    assert(e[2 + i] == er[i]);
                } else {
                    assert(w[2 + i] == '"');
                }
            }
            assert(s.subrange(pos + 2, pos + 2 + er.len() + 1) =~= er + seq!['"']) by {
                assert forall|i: int|
                    0 <= i < er.len() + 1 implies s.subrange(pos + 2, pos + 2 + er.len() + 1)[i]
                    == (er + seq!['"'])[i] by {
                    assert(s.subrange(pos + 2, pos + 2 + er.len() + 1)[i] == s[pos + 2 + i]);
                }
            }
            lemma_parse_print_str(s, pos + 2, rest);
            assert(seq![s[pos + 1]] + rest =~= x);
        } else {
            assert(ec == seq![c]);
            assert(w[0] == c);
            assert(s[pos] == c);
            assert(c != '"' && c != '\\');
            assert forall|i: int| 0 <= i < er.len() + 1 implies s[pos + 1 + i] == (er
                + seq!['"'])[i] by {
                assert(s[pos + (1 + i)] == w[1 + i]);
                if i < er.len() {
                    assert(w[1 + i] == e[1 + i]);
                    assert(e[1 + i] == er[i]);
                } else {
                    assert(w[1 + i] == '"');
                }
            }
            assert(s.subrange(pos + 1, pos + 1 + er.len() + 1) =~= er + seq!['"']) by {
                assert forall|i: int|
                    0 <= i < er.len() + 1 implies s.subrange(pos + 1, pos + 1 + er.len() + 1)[i]
                    == (er + seq!['"'])[i] by {
                    assert(s.subrange(pos + 1, pos + 1 + er.len() + 1)[i] == s[pos + 1 + i]);
                }
            }
            lemma_parse_print_str(s, pos + 1, rest);
            assert(seq![s[pos]] + rest =~= x);
        }
    }
}

/// Relies on `str::chars`, collected into a vector: the characters of
/// the string, in order.
#[verifier::external_body]
pub fn str_chars(s: &str) -> (r: Vec<char>)
    ensures
        r@ == s@,
{
    s.chars().collect()
}

/// Relies on `String::from_iter` over characters: the string whose
/// characters are exactly those of the vector, in order.
#[verifier::external_body]
pub fn chars_to_string(v: &Vec<char>) -> (r: String)
    ensures
        r@ == v@,
{
    v.iter().collect()
}

/// Appends the escaped form of `x` to `out`.
pub fn print_str_content(out: &mut Vec<char>, x: &String)
    ensures
        final(out)@ == old(out)@ + spec_escape(x@),
{
    let cs = str_chars(x.as_str());
    let n = cs.len();
    let ghost base = out@;
    for i in 0..n
        invariant
            n == cs@.len(),
            cs@ == x@,
            out@ == base + spec_escape(x@.take(i as int)),
    {
        let c = cs[i];
        proof {
            assert(x@.take(i + 1) =~= x@.take(i as int).push(c));
            lemma_escape_push(x@.take(i as int), c);
        }
        if c == '"' || c == '\\' {
            out.push('\\');
            out.push(c);
        } else {
            out.push(c);
        }
        proof {
            assert(out@ =~= base + spec_escape(x@.take(i + 1)));
        }
    }
    proof {
        assert(x@.take(n as int) =~= x@);
    }
}

/// Parses quoted-string content starting at `pos`, returning the
/// unescaped text and the position after the closing quote.
pub fn parse_str_content(s: &Vec<char>, pos: usize) -> (r: Option<(String, usize)>)
    requires
        pos <= s@.len(),
    ensures
        match r {
            Some((t, p)) => spec_parse_str_content(s@, pos as int) == Some((t@, p as int)) && pos
                < p <= s@.len(),
            None => (spec_parse_str_content(s@, pos as int) is None),
        },
{
    let n = s.len();
    let mut i = pos;
    let mut acc: Vec<char> = Vec::new();
    loop
        invariant
            pos <= i <= n,
            n == s@.len(),
            spec_parse_str_content(s@, pos as int) == match spec_parse_str_content(
                s@,
                i as int,
            ) {
                Some((t, p)) => Some((acc@ + t, p)),
                None => None::<(Seq<char>, int)>,
            },
        decreases n - i,
    {
        if i >= n {
            return None;
        }
        let c = s[i];
        if c == '"' {
            proof {
                assert(acc@ + Seq::<char>::empty() =~= acc@);
            }
            let t = chars_to_string(&acc);
            return Some((t, i + 1));
        } else if c == '\\' {
            if i + 1 < n {
                let e = s[i + 1];
                if e == '"' || e == '\\' {
                    let ghost oldacc = acc@;
                    acc.push(e);
                    proof {
                        assert forall|t: Seq<char>, p: int|
                            spec_parse_str_content(s@, i + 2) == Some((t, p)) implies oldacc + (
                        seq![s@[i + 1]] + t) =~= acc@ + t by {}
                        assert(spec_parse_str_content(s@, pos as int) == match
                            spec_parse_str_content(s@, i + 2) {
                            Some((t, p)) => Some((acc@ + t, p)),
                            None => None::<(Seq<char>, int)>,
                        });
                    }
                    i = i + 2;
                } else {
                    return None;
                }
            } else {
                return None;
            }
        } else {
            let ghost oldacc = acc@;
            acc.push(c);
            proof {
                assert forall|t: Seq<char>, p: int|
                    spec_parse_str_content(s@, i + 1) == Some((t, p)) implies oldacc + (seq![
                    s@[i as int]] + t) =~= acc@ + t by {}
                assert(spec_parse_str_content(s@, pos as int) == match spec_parse_str_content(
                    s@,
                    i + 1,
                ) {
                    Some((t, p)) => Some((acc@ + t, p)),
                    None => None::<(Seq<char>, int)>,
                });
            }
            i = i + 1;
        }
    }
}

/// Whether the text at `pos` begins with `lit`; if so, the position
/// right after it.
pub open spec fn spec_expect(s: Seq<char>, pos: int, lit: Seq<char>) -> Option<int> {
    if 0 <= pos && pos + lit.len() <= s.len() && s.subrange(pos, pos + lit.len() as int) == lit {
        Some(pos + lit.len() as int)
    } else {
        None
    }
}

/// Tests whether the text at `pos` begins with the literal `lit`.
pub fn expect_lit(s: &Vec<char>, pos: usize, pattern: &'static str) -> (r: Option<usize>)
    requires
        pos <= s@.len(),
    ensures
        r matches Some(p) ==> spec_expect(s@, pos as int, pattern@) == Some(p as int),
        r matches Some(p) ==> pos <= p <= s@.len(),
        r is None ==> (spec_expect(s@, pos as int, pattern@) is None),
{
    let cs = str_chars(pattern);
    let k = cs.len();
    let n = s.len();
    if k > n - pos {
        proof {
            assert(spec_expect(s@, pos as int, pattern@) is None);
        }
        return None;
    }
    for i in 0..k
        invariant
            k == cs@.len(),
            cs@ == pattern@,
            n == s@.len(),
            pos + k <= n,
            forall|j: int| 0 <= j < i ==> s@[pos + j] == #[trigger] cs@[j],
    {
        if s[pos + i] != cs[i] {
            proof {
                if spec_expect(s@, pos as int, pattern@) is Some {
                    assert(s@.subrange(pos as int, pos + pattern@.len() as int)[i as int] == pattern@[
                        i as int]);
                }
            }
            return None;
        }
    }
    proof {
        assert(s@.subrange(pos as int, pos + pattern@.len() as int) =~= pattern@);
    }
    Some(pos + k)
}

/// Appends the characters of `lit` to `out`.
pub fn push_lit(out: &mut Vec<char>, lit: &str)
    ensures
        final(out)@ == old(out)@ + lit@,
{
    let cs = str_chars(lit);
    let n = cs.len();
    for i in 0..n
        invariant
            n == cs@.len(),
            cs@ == lit@,
            out@ == old(out)@ + lit@.take(i as int),
    {
        out.push(cs[i]);
        proof {
            assert(out@ =~= old(out)@ + lit@.take(i + 1));
        }
    }
    proof {
        assert(old(out)@ + lit@.take(n as int) =~= old(out)@ + lit@);
    }
}

/// Appends the characters of `more` to `out`.
pub fn push_chars(out: &mut Vec<char>, more: &Vec<char>)
    ensures
        final(out)@ == old(out)@ + more@,
{
    let n = more.len();
    for i in 0..n
        invariant
            n == more@.len(),
            out@ == old(out)@ + more@.take(i as int),
    {
        out.push(more[i]);
        proof {
            assert(out@ =~= old(out)@ + more@.take(i + 1));
        }
    }
    proof {
        assert(old(out)@ + more@.take(n as int) =~= old(out)@ + more@);
    }
}
} // verus!

//! Text groundwork for the conversion engine: whitespace trimming,
//! splitting text into whitespace-separated tokens, joining tokens with
//! single spaces, and decimal rendering and parsing of integers.

use vstd::prelude::*;
use vstd::string::*;
use vstd::arithmetic::div_mod::lemma_fundamental_div_mod;

verus! {

broadcast use vstd::seq::group_seq_axioms, vstd::std_specs::vec::group_vec_axioms;

/// The characters treated as whitespace by trimming and splitting.
pub open spec fn is_space(c: char) -> bool {
    c == ' ' || c == '\t' || c == '\n' || c == '\r' || c == '\x0b' || c == '\x0c'
}

/// Executable test for the whitespace set.
pub fn space_char(c: char) -> (r: bool)
    ensures
        r == is_space(c),
{
    c == ' ' || c == '\t' || c == '\n' || c == '\r' || c == '\x0b' || c == '\x0c'
}

// ------------------------------------------------------------------
// Trimming

/// `s` without its leading whitespace.
pub open spec fn trim_front(s: Seq<char>) -> Seq<char>
    decreases s.len(),
{
    if s.len() > 0 && is_space(s[0]) {
        trim_front(s.drop_first())
    } else {
        s
    }
}

/// `s` without its trailing whitespace.
pub open spec fn trim_back(s: Seq<char>) -> Seq<char>
    decreases s.len(),
{
    if s.len() > 0 && is_space(s.last()) {
        trim_back(s.drop_last())
    } else {
        s
    }
}

/// `s` without leading and trailing whitespace.
pub open spec fn trim_ends(s: Seq<char>) -> Seq<char> {
    trim_back(trim_front(s))
}

/// Skipping a fully-whitespace prefix computes the front trim.
proof fn lemma_trim_front_skip(s: Seq<char>, a: int)
    requires
        0 <= a <= s.len(),
        forall|j: int| 0 <= j < a ==> is_space(s[j]),
        a == s.len() || !is_space(s[a]),
    ensures
        trim_front(s) == s.skip(a),
    decreases a,
{
    if a == 0 {
        assert(s.skip(0) =~= s);
    } else {
        assert(is_space(s[0]));
        lemma_trim_front_skip(s.drop_first(), a - 1);
        assert(s.drop_first().skip(a - 1) =~= s.skip(a));
    }
}

/// Taking everything before a fully-whitespace suffix computes the back trim.
proof fn lemma_trim_back_take(s: Seq<char>, b: int)
    requires
        0 <= b <= s.len(),
        forall|j: int| b <= j < s.len() ==> is_space(s[j]),
        b == 0 || !is_space(s[b - 1]),
    ensures
        trim_back(s) == s.take(b),
    decreases s.len(),
{
    if b == s.len() {
        if s.len() > 0 && is_space(s.last()) {
            assert(!is_space(s[b - 1]));
            assert(false);
        }
        assert(s.take(b) =~= s);
    } else {
        assert(is_space(s.last()));
        lemma_trim_back_take(s.drop_last(), b);
        assert(s.drop_last().take(b) =~= s.take(b));
    }
}

/// Trimming text that does not start or end with whitespace is the identity.
pub proof fn lemma_trim_ends_clean(s: Seq<char>)
    requires
        s.len() == 0 || (!is_space(s[0]) && !is_space(s.last())),
    ensures
        trim_ends(s) == s,
{
    lemma_trim_front_skip(s, 0);
    assert(s.skip(0) =~= s);
    lemma_trim_back_take(s, s.len() as int);
    assert(s.take(s.len() as int) =~= s);
}

/// `s` without its trailing whitespace, as a new string.
pub fn trim_trailing(s: &str) -> (r: String)
    ensures
        r@ == trim_back(s@),
{
    let n = s.unicode_len();
    let mut b = n;
    while b > 0 && space_char(s.get_char(b - 1))
        invariant
            b <= n,
            n as nat == s@.len(),
            forall|j: int| b <= j < n as int ==> is_space(s@[j]),
        decreases b,
    {
        b = b - 1;
    }
    proof {
        lemma_trim_back_take(s@, b as int);
    }
    s.substring_char(0, b).to_owned()
}

// ------------------------------------------------------------------
// Splitting and joining

/// Length of the maximal whitespace-free prefix of `s`.
pub open spec fn tok_len(s: Seq<char>) -> nat
    decreases s.len(),
{
    if s.len() == 0 || is_space(s[0]) {
        0
    } else {
        1 + tok_len(s.drop_first())
    }
}

pub proof fn lemma_tok_len_char(s: Seq<char>)
    ensures
        tok_len(s) <= s.len(),
        forall|j: int| 0 <= j < tok_len(s) ==> !is_space(s[j]),
        tok_len(s) < s.len() ==> is_space(s[tok_len(s) as int]),
    decreases s.len(),
{
    if s.len() > 0 && !is_space(s[0]) {
        lemma_tok_len_char(s.drop_first());
        assert(forall|j: int| 1 <= j < s.len() ==> s[j] == s.drop_first()[j - 1]);
    }
}

/// The whitespace-separated tokens of `s`, in order.
pub open spec fn split_ws(s: Seq<char>) -> Seq<Seq<char>>
    decreases s.len(),
    via split_ws_dec
{
    if s.len() == 0 {
        Seq::empty()
    } else if is_space(s[0]) {
        split_ws(s.drop_first())
    } else {
        split_ws(s.skip(tok_len(s) as int)).insert(0, s.take(tok_len(s) as int))
    }
}

#[via_fn]
proof fn split_ws_dec(s: Seq<char>) {
    lemma_tok_len_char(s);
}

/// The tokens joined with single spaces.
pub open spec fn join_sp(toks: Seq<Seq<char>>) -> Seq<char>
    decreases toks.len(),
{
    if toks.len() == 0 {
        Seq::empty()
    } else if toks.len() == 1 {
        toks[0]
    } else {
        toks[0] + seq![' '] + join_sp(toks.drop_first())
    }
}

/// A whitespace-free token at the front of the text runs to its end.
proof fn lemma_tok_len_concat(t: Seq<char>, r: Seq<char>)
    requires
        t.len() > 0,
        forall|j: int| 0 <= j < t.len() ==> !is_space(t[j]),
        r.len() == 0 || is_space(r[0]),
    ensures
        tok_len(t + r) == t.len(),
    decreases t.len(),
{
    let s = t + r;
    assert(!is_space(s[0]));
    assert(tok_len(s) == 1 + tok_len(s.drop_first()));
    if t.len() == 1 {
        assert(s.drop_first() =~= r);
        assert(tok_len(r) == 0);
    } else {
        assert(s.drop_first() =~= t.drop_first() + r);
        assert(t.drop_first().len() > 0);
        assert(forall|j: int| 0 <= j < t.drop_first().len() ==> t.drop_first()[j] == t[j + 1]);
        lemma_tok_len_concat(t.drop_first(), r);
    }
}

/// Splitting text that starts with a whitespace-free token yields that
/// token followed by the split of the rest.
pub proof fn lemma_split_concat(t: Seq<char>, r: Seq<char>)
    requires
        t.len() > 0,
        forall|j: int| 0 <= j < t.len() ==> !is_space(t[j]),
        r.len() == 0 || is_space(r[0]),
    ensures
        split_ws(t + r) == split_ws(r).insert(0, t),
{
    let s = t + r;
    lemma_tok_len_concat(t, r);
    assert(s.take(t.len() as int) =~= t);
    assert(s.skip(t.len() as int) =~= r);
}

/// Splitting puts back exactly what joining consumed: for tokens that are
/// non-empty and whitespace-free, `split_ws` inverts `join_sp`.
pub proof fn lemma_split_join(toks: Seq<Seq<char>>)
    requires
        forall|i: int|
            0 <= i < toks.len() ==> (#[trigger] toks[i]).len() > 0 && forall|j: int|
                0 <= j < toks[i].len() ==> !is_space(toks[i][j]),
    ensures
        split_ws(join_sp(toks)) == toks,
    decreases toks.len(),
{
    if toks.len() == 0 {
    } else if toks.len() == 1 {
        let t = toks[0];
        assert(t + Seq::<char>::empty() =~= t);
        lemma_split_concat(t, Seq::<char>::empty());
        assert(split_ws(join_sp(toks)) =~= toks);
    } else {
        let t = toks[0];
        let rest = toks.drop_first();
        let r = seq![' '] + join_sp(rest);
        assert(is_space(r[0]));
        assert(join_sp(toks) =~= t + r);
        lemma_split_concat(t, r);
        assert(r.drop_first() =~= join_sp(rest));
        lemma_split_join(rest);
        assert(split_ws(join_sp(toks)) =~= toks);
    }
}

/// The whitespace-separated tokens of `s`, each as a new string.
pub fn split_text(s: &str) -> (r: Vec<String>)
    ensures
        crate::value::texts_model(r@) == split_ws(s@),
{
    let n = s.unicode_len();
    let mut out: Vec<String> = Vec::new();
    let mut i: usize = 0;
    proof {
        assert(s@.skip(0) =~= s@);
        assert(crate::value::texts_model(out@) + split_ws(s@.skip(0)) =~= split_ws(s@));
    }
    while i < n
        invariant
            i <= n,
            n as nat == s@.len(),
            crate::value::texts_model(out@) + split_ws(s@.skip(i as int)) =~= split_ws(s@),
        decreases n - i,
    {
        if space_char(s.get_char(i)) {
            proof {
                assert(s@.skip(i as int).drop_first() =~= s@.skip(i as int + 1));
            }
            i = i + 1;
        } else {
            let start = i;
            let mut j = i + 1;
            while j < n && !space_char(s.get_char(j))
                invariant
                    start < j <= n,
                    n as nat == s@.len(),
                    forall|k: int| start as int <= k < j as int ==> !is_space(s@[k]),
                decreases n - j,
            {
                j = j + 1;
            }
            let tok = s.substring_char(start, j).to_owned();
            proof {
                let t = s@.subrange(start as int, j as int);
                let rest = s@.skip(j as int);
                assert(t + rest =~= s@.skip(start as int));
                lemma_split_concat(t, rest);
            }
            out.push(tok);
            proof {
                assert(crate::value::texts_model(out@) =~= crate::value::texts_model(
                    out@.drop_last(),
                ).push(s@.subrange(start as int, j as int)));
                assert(crate::value::texts_model(out@) + split_ws(s@.skip(j as int)) =~= split_ws(
                    s@,
                ));
            }
            i = j;
        }
    }
    proof {
        assert(s@.skip(n as int) =~= Seq::<char>::empty());
        assert(crate::value::texts_model(out@) + split_ws(s@.skip(n as int)) =~= crate::value::texts_model(out@));
    }
    out
}

/// Appending one token to a join appends a separator (unless the join was
/// empty) and the token.
pub proof fn lemma_join_push(ts: Seq<Seq<char>>, x: Seq<char>)
    ensures
        join_sp(ts.push(x)) == if ts.len() == 0 {
            x
        } else {
            join_sp(ts) + seq![' '] + x
        },
    decreases ts.len(),
{
    if ts.len() == 0 {
        assert(ts.push(x).len() == 1);
        assert(join_sp(ts.push(x)) == ts.push(x)[0]);
    } else if ts.len() == 1 {
        assert(ts.push(x).drop_first() =~= seq![x]);
        assert(join_sp(seq![x]) == seq![x][0]);
        assert(join_sp(ts.push(x)) =~= ts[0] + seq![' '] + x);
        assert(join_sp(ts) == ts[0]);
    } else {
        assert(ts.push(x).drop_first() =~= ts.drop_first().push(x));
        lemma_join_push(ts.drop_first(), x);
        assert(join_sp(ts.push(x)) =~= join_sp(ts) + seq![' '] + x);
    }
}

/// The given strings joined with single spaces.
pub fn join_texts(toks: &Vec<String>) -> (r: String)
    ensures
        r@ == join_sp(crate::value::texts_model(toks@)),
{
    let ghost model = crate::value::texts_model(toks@);
    let mut r = String::new();
    let mut i: usize = 0;
    while i < toks.len()
        invariant
            i <= toks.len(),
            model == crate::value::texts_model(toks@),
            r@ == join_sp(model.take(i as int)),
        decreases toks.len() - i,
    {
        if i > 0 {
            r.append(" ");
            proof {
                reveal_strlit(" ");
            }
        }
        r.append(toks[i].as_str());
        proof {
            assert(model.take(i as int).push(toks@[i as int]@) =~= model.take(i as int + 1));
            lemma_join_push(model.take(i as int), toks@[i as int]@);
            assert(" "@ =~= seq![' ']) by {
                reveal_strlit(" ");
            }
        }
        i = i + 1;
    }
    proof {
        assert(model.take(toks@.len() as int) =~= model);
    }
    r
}

// ------------------------------------------------------------------
// Decimal digits

pub open spec fn is_digit(c: char) -> bool {
    c == '0' || c == '1' || c == '2' || c == '3' || c == '4' || c == '5' || c == '6' || c == '7'
        || c == '8' || c == '9'
}

/// Numeric value of a digit character.
pub open spec fn digit_val(c: char) -> nat {
    if c == '0' {
        0
    } else if c == '1' {
        1
    } else if c == '2' {
        2
    } else if c == '3' {
        3
    } else if c == '4' {
        4
    } else if c == '5' {
        5
    } else if c == '6' {
        6
    } else if c == '7' {
        7
    } else if c == '8' {
        8
    } else {
        9
    }
}

/// Digit character for a value below ten.
pub open spec fn dec_digit(d: nat) -> char {
    if d == 0 {
        '0'
    } else if d == 1 {
        '1'
    } else if d == 2 {
        '2'
    } else if d == 3 {
        '3'
    } else if d == 4 {
        '4'
    } else if d == 5 {
        '5'
    } else if d == 6 {
        '6'
    } else if d == 7 {
        '7'
    } else if d == 8 {
        '8'
    } else {
        '9'
    }
}

pub fn char_is_digit(c: char) -> (r: bool)
    ensures
        r == is_digit(c),
{
    c == '0' || c == '1' || c == '2' || c == '3' || c == '4' || c == '5' || c == '6' || c == '7'
        || c == '8' || c == '9'
}

pub fn char_digit_val(c: char) -> (r: u64)
    requires
        is_digit(c),
    ensures
        r as nat == digit_val(c),
{
    if c == '0' {
        0
    } else if c == '1' {
        1
    } else if c == '2' {
        2
    } else if c == '3' {
        3
    } else if c == '4' {
        4
    } else if c == '5' {
        5
    } else if c == '6' {
        6
    } else if c == '7' {
        7
    } else if c == '8' {
        8
    } else {
        9
    }
}

/// One-character string for a digit value.
fn digit_str(d: u64) -> (r: &'static str)
    requires
        d < 10,
    ensures
        r@ =~= seq![dec_digit(d as nat)],
{
    proof {
        reveal_strlit("0");
        reveal_strlit("1");
        reveal_strlit("2");
        reveal_strlit("3");
        reveal_strlit("4");
        reveal_strlit("5");
        reveal_strlit("6");
        reveal_strlit("7");
        reveal_strlit("8");
        reveal_strlit("9");
    }
    if d == 0 {
        "0"
    } else if d == 1 {
        "1"
    } else if d == 2 {
        "2"
    } else if d == 3 {
        "3"
    } else if d == 4 {
        "4"
    } else if d == 5 {
        "5"
    } else if d == 6 {
        "6"
    } else if d == 7 {
        "7"
    } else if d == 8 {
        "8"
    } else {
        "9"
    }
}

// ------------------------------------------------------------------
// Decimal rendering

/// Decimal digit sequence of a natural number, most significant first.
pub open spec fn dec_seq(n: nat) -> Seq<char>
    decreases n,
{
    if n < 10 {
        seq![dec_digit(n)]
    } else {
        dec_seq(n / 10) + seq![dec_digit(n % 10)]
    }
}

/// Decimal rendering of an integer, with a leading minus sign when negative.
pub open spec fn int_text(x: int) -> Seq<char> {
    if x < 0 {
        seq!['-'] + dec_seq((-x) as nat)
    } else {
        dec_seq(x as nat)
    }
}

fn u64_dec(n: u64) -> (r: String)
    ensures
        r@ == dec_seq(n as nat),
    decreases n,
{
    if n < 10 {
        digit_str(n).to_owned()
    } else {
        let mut s = u64_dec(n / 10);
        s.append(digit_str(n % 10));
        s
    }
}

/// Decimal rendering of an integer as a string.
pub fn int_to_text(x: i64) -> (r: String)
    ensures
        r@ == int_text(x as int),
{
    if x >= 0 {
        u64_dec(x as u64)
    } else {
        let mag: u64 = ((-(x + 1)) as u64) + 1;
        proof {
            reveal_strlit("-");
            assert(mag as int == -(x as int));
        }
        let mut s = String::from_str("-");
        let digits = u64_dec(mag);
        s.append(digits.as_str());
        proof {
            assert(s@ =~= seq!['-'] + dec_seq(mag as nat));
        }
        s
    }
}

// ------------------------------------------------------------------
// Decimal parsing

/// Value of a digit sequence read most significant first.
pub open spec fn digits_val(s: Seq<char>) -> nat
    decreases s.len(),
{
    if s.len() == 0 {
        0
    } else {
        digits_val(s.drop_last()) * 10 + digit_val(s.last())
    }
}

pub open spec fn all_digits(s: Seq<char>) -> bool {
    forall|i: int| 0 <= i < s.len() ==> is_digit(s[i])
}

/// Signed-integer reading of text: trim whitespace at both ends, accept an
/// optional sign followed by one or more digits, and require the value to
/// fit a 64-bit signed integer.  Everything else reads as nothing.
pub open spec fn parse_int(s: Seq<char>) -> Option<int> {
    let t = trim_ends(s);
    if t.len() == 0 {
        Option::None
    } else {
        let neg = t[0] == '-';
        let ds = if t[0] == '-' || t[0] == '+' {
            t.drop_first()
        } else {
            t
        };
        if ds.len() == 0 || !all_digits(ds) {
            Option::None
        } else {
            let v: int = if neg {
                -(digits_val(ds) as int)
            } else {
                digits_val(ds) as int
            };
            if i64::MIN <= v <= i64::MAX {
                Option::Some(v)
            } else {
                Option::None
            }
        }
    }
}

/// Extending a digit prefix by one digit multiplies its value by ten and
/// adds the digit.
proof fn lemma_digits_take_step(s: Seq<char>, i: int)
    requires
        0 <= i < s.len(),
    ensures
        digits_val(s.take(i + 1)) == digits_val(s.take(i)) * 10 + digit_val(s[i]),
{
    assert(s.take(i + 1).drop_last() =~= s.take(i));
    assert(s.take(i + 1).last() == s[i]);
}

/// A prefix of a digit sequence never reads as a larger value.
proof fn lemma_digits_prefix_le(s: Seq<char>, i: int)
    requires
        0 <= i <= s.len(),
    ensures
        digits_val(s.take(i)) <= digits_val(s),
    decreases s.len() - i,
{
    if i == s.len() {
        assert(s.take(i) =~= s);
    } else {
        lemma_digits_take_step(s, i);
        lemma_digits_prefix_le(s, i + 1);
        assert(digits_val(s.take(i)) <= digits_val(s.take(i)) * 10 + digit_val(s[i]));
    }
}

/// Signed-integer reading of a string, exactly as `parse_int` describes.
pub fn parse_i64(s: &str) -> (r: Option<i64>)
    ensures
        parse_int(s@) is None ==> r is None,
        parse_int(s@) is Some ==> r is Some && r->0 as int == parse_int(s@)->0,
{
    let n = s.unicode_len();
    // trim
    let mut a: usize = 0;
    while a < n && space_char(s.get_char(a))
        invariant
            a <= n,
            n as nat == s@.len(),
            forall|j: int| 0 <= j < a as int ==> is_space(s@[j]),
        decreases n - a,
    {
        a = a + 1;
    }
    let mut b = n;
    while b > a && space_char(s.get_char(b - 1))
        invariant
            a <= b <= n,
            n as nat == s@.len(),
            forall|j: int| b <= j < n as int ==> is_space(s@[j]),
        decreases b,
    {
        b = b - 1;
    }
    let ghost t = trim_ends(s@);
    proof {
        lemma_trim_front_skip(s@, a as int);
        if b == a {
            lemma_trim_back_take(s@.skip(a as int), 0);
        } else {
            lemma_trim_back_take(s@.skip(a as int), b - a);
        }
        assert(t =~= s@.subrange(a as int, b as int));
    }
    if a == b {
        return None;
    }
    // sign
    let c0 = s.get_char(a);
    let neg = c0 == '-';
    let d0 = if c0 == '-' || c0 == '+' {
        a + 1
    } else {
        a
    };
    let ghost ds = if t[0] == '-' || t[0] == '+' {
        t.drop_first()
    } else {
        t
    };
    proof {
        assert(ds =~= s@.subrange(d0 as int, b as int));
    }
    if d0 == b {
        return None;
    }
    // digits
    let limit: u64 = if neg {
        9223372036854775808
    } else {
        9223372036854775807
    };
    let mut acc: u64 = 0;
    let mut i = d0;
    while i < b
        invariant
            a <= d0 <= i <= b <= n,
            d0 < b,
            n as nat == s@.len(),
            t == trim_ends(s@),
            t =~= s@.subrange(a as int, b as int),
            neg == (t[0] == '-'),
            d0 as int == if t[0] == '-' || t[0] == '+' {
                a as int + 1
            } else {
                a as int
            },
            ds == (if t[0] == '-' || t[0] == '+' {
                t.drop_first()
            } else {
                t
            }),
            ds =~= s@.subrange(d0 as int, b as int),
            all_digits(ds.take(i - d0)),
            acc <= limit,
            acc as nat == digits_val(ds.take(i - d0)),
            neg ==> limit == 9223372036854775808,
            !neg ==> limit == 9223372036854775807,
        decreases b - i,
    {
        let c = s.get_char(i);
        if !char_is_digit(c) {
            proof {
                assert(!is_digit(ds[i - d0]));
                assert(!all_digits(ds));
                assert(parse_int(s@) is None);
            }
            return None;
        }
        let d = char_digit_val(c);
        proof {
            lemma_digits_take_step(ds, i - d0);
            assert(ds.take(i - d0).push(ds[i - d0]) =~= ds.take(i - d0 + 1));
        }
        if acc > limit / 10 || (acc == limit / 10 && d > limit % 10) {
            // the digits read so far already exceed the representable range
            proof {
                lemma_fundamental_div_mod(limit as int, 10);
                assert(digits_val(ds.take(i - d0 + 1)) > limit as nat);
                lemma_digits_prefix_le(ds, i - d0 + 1);
                assert(digits_val(ds) > limit as nat);
                assert(parse_int(s@) is None);
            }
            return None;
        }
        acc = acc * 10 + d;
        i = i + 1;
    }
    proof {
        assert(ds.take(b - d0) =~= ds);
    }
    if neg {
        if acc == 9223372036854775808 {
            Some(i64::MIN)
        } else {
            Some(-(acc as i64))
        }
    } else {
        Some(acc as i64)
    }
}

// ------------------------------------------------------------------
// Round trip: rendering then parsing gives the number back

/// Every character of a decimal rendering is a digit, and there is at
/// least one.
pub proof fn lemma_dec_seq_digits(n: nat)
    ensures
        dec_seq(n).len() >= 1,
        all_digits(dec_seq(n)),
    decreases n,
{
    if n >= 10 {
        lemma_dec_seq_digits(n / 10);
    }
}

/// Reading a decimal rendering back gives the same number.
pub proof fn lemma_dec_seq_val(n: nat)
    ensures
        digits_val(dec_seq(n)) == n,
    decreases n,
{
    if n < 10 {
        let s = dec_seq(n);
        assert(s =~= seq![dec_digit(n)]);
        assert(s.drop_last() =~= Seq::<char>::empty());
        assert(digit_val(dec_digit(n)) == n);
        assert(s.last() == dec_digit(n));
        assert(digits_val(s) == digits_val(s.drop_last()) * 10 + digit_val(s.last()));
        assert(digits_val(s.drop_last()) == 0);
    } else {
        lemma_dec_seq_val(n / 10);
        let s = dec_seq(n);
        assert(s.len() > 0);
        assert(s.drop_last() =~= dec_seq(n / 10));
        assert(s.last() == dec_digit(n % 10));
        assert(digit_val(dec_digit(n % 10)) == n % 10);
        lemma_fundamental_div_mod(n as int, 10);
    }
}

/// Rendering an integer and parsing the text back yields the integer.
pub proof fn lemma_parse_int_text(x: int)
    requires
        i64::MIN <= x <= i64::MAX,
    ensures
        parse_int(int_text(x)) == Option::Some(x),
{
    let t = int_text(x);
    if x < 0 {
        let mag = (-x) as nat;
        lemma_dec_seq_digits(mag);
        assert(t[0] == '-');
        assert(t.last() == dec_seq(mag).last());
        assert(is_digit(t.last()));
        lemma_trim_ends_clean(t);
        assert(t.drop_first() =~= dec_seq(mag));
        lemma_dec_seq_val(mag);
    } else {
        let mag = x as nat;
        lemma_dec_seq_digits(mag);
        assert(t =~= dec_seq(mag));
        assert(is_digit(t[0]) && is_digit(t.last()));
        lemma_trim_ends_clean(t);
        assert(t[0] != '-' && t[0] != '+');
        lemma_dec_seq_val(mag);
    }
}

/// A decimal rendering is never empty and never contains whitespace.
pub proof fn lemma_int_text_token(x: int)
    ensures
        int_text(x).len() > 0,
        forall|j: int| 0 <= j < int_text(x).len() ==> !is_space(int_text(x)[j]),
{
    let t = int_text(x);
    if x < 0 {
        lemma_dec_seq_digits((-x) as nat);
        assert(forall|j: int|
            1 <= j < t.len() ==> is_digit(dec_seq((-x) as nat)[j - 1]) && t[j] == dec_seq(
                (-x) as nat,
            )[j - 1]);
    } else {
        lemma_dec_seq_digits(x as nat);
    }
}

} // verus!

//! The canonical text of a polynomial: a signed sum of monomials in
//! ascending order of index, such as `a + b - 2ab`.

use vstd::prelude::*;
use vstd::string::StringExecFns;
use crate::index::has_variable;
use crate::poly::coefficients;

verus! {

/// The letter that stands for variable `k`.
pub open spec fn letter(k: int) -> char {
    if k == 0 {
        'a'
    } else if k == 1 {
        'b'
    } else if k == 2 {
        'c'
    } else if k == 3 {
        'd'
    } else if k == 4 {
        'e'
    } else if k == 5 {
        'f'
    } else if k == 6 {
        'g'
    } else {
        'h'
    }
}

/// The letters of the variables below `v` that monomial `i` holds, in
/// ascending order of variable.
pub open spec fn letters(i: usize, v: nat) -> Seq<char>
    decreases v,
{
    if v == 0 {
        Seq::empty()
    } else if has_variable(i, (v - 1) as usize) {
        letters(i, (v - 1) as nat).push(letter(v - 1))
    } else {
        letters(i, (v - 1) as nat)
    }
}

/// The character of the decimal digit `d`.
pub open spec fn digit(d: int) -> char {
    if d == 0 {
        '0'
    } else if d == 1 {
        '1'
    } else if d == 2 {
        '2'
    } else if d == 3 {
        '3'
    } else if d == 4 {
        '4'
    } else if d == 5 {
        '5'
    } else if d == 6 {
        '6'
    } else if d == 7 {
        '7'
    } else if d == 8 {
        '8'
    } else {
        '9'
    }
}

/// The decimal numeral of `m`, without leading zeros.
pub open spec fn decimal(m: nat) -> Seq<char>
    decreases m,
{
    if m < 10 {
        seq![digit(m as int)]
    } else {
        decimal(m / 10).push(digit((m % 10) as int))
    }
}

/// The absolute value of `c`.
pub open spec fn magnitude(c: int) -> nat {
    if c < 0 {
        (-c) as nat
    } else {
        c as nat
    }
}

/// The sign in front of a term with coefficient `c`: the first term of a
/// text has a bare `-` or nothing, a later one ` - ` or ` + `.
pub open spec fn sign_text(c: int, leading: bool) -> Seq<char> {
    if leading {
        if c < 0 {
            seq!['-']
        } else {
            Seq::empty()
        }
    } else {
        if c < 0 {
            seq![' ', '-', ' ']
        } else {
            seq![' ', '+', ' ']
        }
    }
}

/// The text of the term with coefficient `c` and monomial `i`: its sign, its
/// magnitude unless that is a 1 in front of variables, and its letters.
pub open spec fn term_text(c: int, i: usize, v: nat, leading: bool) -> Seq<char> {
    let number = if magnitude(c) == 1 && i != 0 {
        Seq::empty()
    } else {
        decimal(magnitude(c))
    };
    sign_text(c, leading) + number + letters(i, v)
}

/// Whether the first `n` coefficients of `p` are all zero.
pub open spec fn no_terms(p: Seq<int>, n: nat) -> bool {
    forall|i: int| 0 <= i < n ==> p[i] == 0
}

/// The text of the first `n` terms of `p`, leaving out those with
/// coefficient zero.
pub open spec fn render_terms(p: Seq<int>, v: nat, n: nat) -> Seq<char>
    decreases n,
{
    if n == 0 {
        Seq::empty()
    } else if p[n - 1] == 0 {
        render_terms(p, v, (n - 1) as nat)
    } else {
        render_terms(p, v, (n - 1) as nat) + term_text(
            p[n - 1],
            (n - 1) as usize,
            v,
            no_terms(p, (n - 1) as nat),
        )
    }
}

/// The canonical text of polynomial `p` over `v` variables: its terms, or
/// `0` where it has none.
pub open spec fn render(p: Seq<int>, v: nat) -> Seq<char> {
    if no_terms(p, p.len()) {
        seq!['0']
    } else {
        render_terms(p, v, p.len())
    }
}

/// The letter of variable `k` as text.
fn letter_text(k: usize) -> (s: &'static str)
    requires
        k < 8,
    ensures
        s@ == seq![letter(k as int)],
{
    proof {
        reveal_strlit("a");
        reveal_strlit("b");
        reveal_strlit("c");
        reveal_strlit("d");
        reveal_strlit("e");
        reveal_strlit("f");
        reveal_strlit("g");
        reveal_strlit("h");
    }
    let s = if k == 0 {
        "a"
    } else if k == 1 {
        "b"
    } else if k == 2 {
        "c"
    } else if k == 3 {
        "d"
    } else if k == 4 {
        "e"
    } else if k == 5 {
        "f"
    } else if k == 6 {
        "g"
    } else {
        "h"
    };
    assert(s@ =~= seq![letter(k as int)]);
    s
}

/// The decimal digit `d` as text.
fn digit_text(d: u32) -> (s: &'static str)
    requires
        d < 10,
    ensures
        s@ == seq![digit(d as int)],
{
    proof {
        reveal_strlit("0");
        reveal_strlit("1");
        reveal_strlit("2");
        reveal_strlit("3");
        reveal_strlit("4");
        reveal_strlit("5");
        reveal_strlit("6");
        reveal_strlit("7");
        reveal_strlit("8");
        reveal_strlit("9");
    }
    let s = if d == 0 {
        "0"
    } else if d == 1 {
        "1"
    } else if d == 2 {
        "2"
    } else if d == 3 {
        "3"
    } else if d == 4 {
        "4"
    } else if d == 5 {
        "5"
    } else if d == 6 {
        "6"
    } else if d == 7 {
        "7"
    } else if d == 8 {
        "8"
    } else {
        "9"
    };
    assert(s@ =~= seq![digit(d as int)]);
    s
}

/// Appends the decimal numeral of `m`.
fn append_decimal(out: &mut String, m: u32)
    ensures
        final(out)@ == old(out)@ + decimal(m as nat),
    decreases m,
{
    if m >= 10 {
        append_decimal(out, m / 10);
    }
    out.append(digit_text(m % 10));
    assert(out@ =~= old(out)@ + decimal(m as nat));
}

/// Appends the letters of monomial `i`.
fn append_letters(out: &mut String, i: usize, v: usize)
    requires
        v <= 8,
    ensures
        final(out)@ == old(out)@ + letters(i, v as nat),
{
    let mut j: usize = 0;
    assert(out@ =~= old(out)@ + letters(i, 0));
    while j < v
        invariant
            j <= v <= 8,
            out@ == old(out)@ + letters(i, j as nat),
        decreases v - j,
    {
        if (i >> j) & 1 == 1 {
            out.append(letter_text(j));
        }
        j += 1;
        assert(out@ =~= old(out)@ + letters(i, j as nat));
    }
}

/// The absolute value of `c`.
fn magnitude_of(c: i32) -> (m: u32)
    ensures
        m == magnitude(c as int),
{
    if c < 0 {
        let wide: i64 = -(c as i64);
        wide as u32
    } else {
        c as u32
    }
}

/// Appends the term with coefficient `c` and monomial `i`.
fn append_term(out: &mut String, c: i32, i: usize, v: usize, leading: bool)
    requires
        v <= 8,
    ensures
        final(out)@ == old(out)@ + term_text(c as int, i, v as nat, leading),
{
    proof {
        reveal_strlit("-");
        reveal_strlit(" - ");
        reveal_strlit(" + ");
    }
    if leading {
        if c < 0 {
            out.append("-");
        }
    } else if c < 0 {
        out.append(" - ");
    } else {
        out.append(" + ");
    }
    assert(out@ =~= old(out)@ + sign_text(c as int, leading));
    let m = magnitude_of(c);
    if m != 1 || i == 0 {
        append_decimal(out, m);
    }
    append_letters(out, i, v);
    assert(out@ =~= old(out)@ + term_text(c as int, i, v as nat, leading));
}

/// Renders the polynomial with the given coefficients over `v` variables as
/// its canonical text.
pub fn format_polynomial(coeffs: &Vec<i32>, v: usize) -> (s: String)
    requires
        v <= 8,
    ensures
        s@ == render(coefficients(coeffs@), v as nat),
{
    let ghost p = coefficients(coeffs@);
    let mut out = String::new();
    let mut leading = true;
    let mut i: usize = 0;
    while i < coeffs.len()
        invariant
            v <= 8,
            i <= coeffs.len(),
            p == coefficients(coeffs@),
            leading == no_terms(p, i as nat),
            leading ==> out@.len() == 0,
            out@ == render_terms(p, v as nat, i as nat),
        decreases coeffs.len() - i,
    {
        let c = coeffs[i];
        if c != 0 {
            append_term(&mut out, c, i, v, leading);
            leading = false;
        }
        i += 1;
        proof {
            assert(p[i - 1] == c);
        }
    }
    if leading {
        proof {
            reveal_strlit("0");
        }
        out.append("0");
        assert(out@ =~= seq!['0']);
    }
    out
}

} // verus!

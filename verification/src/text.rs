//! Text-building blocks shared by the formatting code: decimal digit
//! strings, space padding to a column width, and the ordinal (codepoint)
//! lexicographic order on names.

use vstd::prelude::*;
use vstd::string::*;

verus! {

/// The decimal digit character for `d` (`0 <= d <= 9`).
pub open spec fn digit_char(d: int) -> char {
    if d == 0 {
        '0'
    } else if d == 1 {
        '1'
    } else if d == 2 {
        '2'
    } else if d == 3 {
        '3'
    } else if d == 4 {
        '4'
    } else if d == 5 {
        '5'
    } else if d == 6 {
        '6'
    } else if d == 7 {
        '7'
    } else if d == 8 {
        '8'
    } else {
        '9'
    }
}

/// The decimal rendering of `n`, most significant digit first, with no
/// leading zeros (except for `n == 0`, rendered as "0").
pub open spec fn dec_digits(n: nat) -> Seq<char>
    decreases n,
{
    if n < 10 {
        seq![digit_char(n as int)]
    } else {
        dec_digits(n / 10).push(digit_char((n % 10) as int))
    }
}

/// `n` space characters.
pub open spec fn spaces(n: nat) -> Seq<char>
    decreases n,
{
    if n == 0 {
        Seq::empty()
    } else {
        spaces((n - 1) as nat).push(' ')
    }
}

/// `s` left-aligned in a column of width `w`: the text itself followed by
/// as many spaces as are needed to reach `w` characters (none if the text
/// is already that wide).
pub open spec fn left_aligned(s: Seq<char>, w: nat) -> Seq<char> {
    if s.len() < w {
        s + spaces((w - s.len()) as nat)
    } else {
        s
    }
}

/// Lexicographic order on character sequences by codepoint: the order the
/// listing sorts names with. A proper prefix comes before its extensions.
pub open spec fn lex_le(a: Seq<char>, b: Seq<char>) -> bool
    decreases a.len(),
{
    if a.len() == 0 {
        true
    } else if b.len() == 0 {
        false
    } else if a[0] == b[0] {
        lex_le(a.skip(1), b.skip(1))
    } else {
        a[0] < b[0]
    }
}

pub proof fn lemma_lex_le_total(a: Seq<char>, b: Seq<char>)
    ensures
        lex_le(a, b) || lex_le(b, a),
    decreases a.len(),
{
    if a.len() == 0 || b.len() == 0 {
    } else if a[0] == b[0] {
        lemma_lex_le_total(a.skip(1), b.skip(1));
    } else {
        assert(a[0] < b[0] || b[0] < a[0]);
    }
}

pub proof fn lemma_lex_le_antisymmetric(a: Seq<char>, b: Seq<char>)
    requires
        lex_le(a, b),
        lex_le(b, a),
    ensures
        a == b,
    decreases a.len(),
{
    if a.len() == 0 {
        assert(b.len() == 0);
        assert(a =~= b);
    } else {
        assert(b.len() > 0);
        assert(a[0] == b[0]);
        lemma_lex_le_antisymmetric(a.skip(1), b.skip(1));
        assert(a =~= seq![a[0]] + a.skip(1));
        assert(b =~= seq![b[0]] + b.skip(1));
    }
}

pub proof fn lemma_lex_le_transitive(a: Seq<char>, b: Seq<char>, c: Seq<char>)
    requires
        lex_le(a, b),
        lex_le(b, c),
    ensures
        lex_le(a, c),
    decreases a.len(),
{
    if a.len() == 0 || b.len() == 0 || c.len() == 0 {
    } else if a[0] == b[0] && b[0] == c[0] {
        lemma_lex_le_transitive(a.skip(1), b.skip(1), c.skip(1));
    }
}

/// The digit `d` as a one-character string slice.
fn digit_str(d: u64) -> (r: &'static str)
    requires
        d < 10,
    ensures
        r@ == seq![digit_char(d as int)],
{
    proof {
        reveal_strlit("0");
        reveal_strlit("1");
        reveal_strlit("2");
        reveal_strlit("3");
        reveal_strlit("4");
        reveal_strlit("5");
        reveal_strlit("6");
        reveal_strlit("7");
        reveal_strlit("8");
        reveal_strlit("9");
    }
    let r: &'static str = if d == 0 {
        "0"
    } else if d == 1 {
        "1"
    } else if d == 2 {
        "2"
    } else if d == 3 {
        "3"
    } else if d == 4 {
        "4"
    } else if d == 5 {
        "5"
    } else if d == 6 {
        "6"
    } else if d == 7 {
        "7"
    } else if d == 8 {
        "8"
    } else {
        "9"
    };
    proof {
        assert(r@ =~= seq![digit_char(d as int)]);
    }
    r
}

/// Zero-padded rendering of the last two decimal digits of `n`.
pub open spec fn two_digits(n: nat) -> Seq<char> {
    seq![digit_char((n / 10 % 10) as int), digit_char((n % 10) as int)]
}

/// Renders the last two decimal digits of `n`, zero-padded.
pub fn u64_two_digits(n: u64) -> (s: String)
    ensures
        s@ == two_digits(n as nat),
{
    let mut s = String::from_str(digit_str(n / 10 % 10));
    s.append(digit_str(n % 10));
    proof {
        assert(s@ =~= two_digits(n as nat));
    }
    s
}

/// Renders `n` in decimal.
pub fn u64_to_string(n: u64) -> (s: String)
    ensures
        s@ == dec_digits(n as nat),
    decreases n,
{
    if n < 10 {
        String::from_str(digit_str(n))
    } else {
        let mut s = u64_to_string(n / 10);
        s.append(digit_str(n % 10));
        proof {
            assert(s@ =~= dec_digits(n as nat));
        }
        s
    }
}

/// Appends spaces to `s` until it is at least `w` characters wide.
pub fn pad_to(s: String, w: usize) -> (r: String)
    ensures
        r@ == left_aligned(s@, w as nat),
{
    let ghost orig = s@;
    let mut r = s;
    let mut n = r.as_str().unicode_len();
    if n >= w {
        return r;
    }
    proof {
        reveal_strlit(" ");
    }
    while n < w
        invariant
            n as nat == r@.len(),
            n <= w,
            left_aligned(r@, w as nat) == left_aligned(orig, w as nat),
        decreases w - n,
    {
        proof {
            lemma_left_aligned_push_space(r@, w as nat);
        }
        let ghost before = r@;
        r.append(" ");
        proof {
            reveal_strlit(" ");
            assert(r@ =~= before.push(' '));
        }
        n = n + 1;
    }
    r
}

proof fn lemma_left_aligned_push_space(s: Seq<char>, w: nat)
    requires
        s.len() < w,
    ensures
        left_aligned(s.push(' '), w) == left_aligned(s, w),
    decreases w - s.len(),
{
    lemma_spaces_unfold_front((w - s.len()) as nat);
    assert(s + spaces((w - s.len()) as nat) =~= s.push(' ') + spaces((w - s.len() - 1) as nat));
    if s.len() + 1 == w {
        assert(left_aligned(s.push(' '), w) == s.push(' '));
        assert(s.push(' ') + spaces(0) =~= s.push(' '));
    }
}

/// `spaces(n)` can also be built by putting one space in front.
proof fn lemma_spaces_unfold_front(n: nat)
    requires
        n > 0,
    ensures
        spaces(n) == seq![' '] + spaces((n - 1) as nat),
    decreases n,
{
    if n == 1 {
        assert(spaces(1) =~= seq![' '] + spaces(0));
    } else {
        lemma_spaces_unfold_front((n - 1) as nat);
        assert(spaces(n) == spaces((n - 1) as nat).push(' '));
        assert((seq![' '] + spaces((n - 2) as nat)).push(' ') =~= seq![' '] + spaces(
            (n - 1) as nat,
        ));
    }
}

/// Compares two names in the ordinal lexicographic order.
pub fn str_le(a: &str, b: &str) -> (r: bool)
    ensures
        r == lex_le(a@, b@),
{
    let alen = a.unicode_len();
    let blen = b.unicode_len();
    let mut i: usize = 0;
    proof {
        assert(a@.skip(0) =~= a@);
        assert(b@.skip(0) =~= b@);
    }
    while i < alen && i < blen
        invariant
            i <= alen,
            i <= blen,
            alen == a@.len(),
            blen == b@.len(),
            lex_le(a@, b@) == lex_le(a@.skip(i as int), b@.skip(i as int)),
        decreases alen - i,
    {
        let ca = a.get_char(i);
        let cb = b.get_char(i);
        if ca != cb {
            return ca < cb;
        }
        proof {
            assert(a@.skip(i as int).skip(1) =~= a@.skip(i + 1));
            assert(b@.skip(i as int).skip(1) =~= b@.skip(i + 1));
        }
        i = i + 1;
    }
    proof {
        if i == alen {
            assert(a@.skip(i as int).len() == 0);
        } else {
            assert(b@.skip(i as int).len() == 0);
            assert(a@.skip(i as int).len() > 0);
        }
    }
    alen <= blen
}

} // verus!

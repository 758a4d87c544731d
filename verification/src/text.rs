//! Putting numbers and names into words.

use vstd::prelude::*;
use vstd::string::*;

verus! {

/// The character for the decimal digit `d`.
pub open spec fn digit_char(d: nat) -> char {
    (48 + d) as char
}

/// `n` written out in decimal, most significant digit first.
pub open spec fn decimal_of(n: nat) -> Seq<char>
    decreases n,
{
    if n < 10 {
        seq![digit_char(n)]
    } else {
        decimal_of(n / 10) + seq![digit_char(n % 10)]
    }
}

/// `n` written out in decimal, with a minus sign in front when it is below
/// nothing.
pub open spec fn signed_decimal_of(n: int) -> Seq<char> {
    if n < 0 {
        seq!['-'] + decimal_of((-n) as nat)
    } else {
        decimal_of(n as nat)
    }
}

/// `c` in lower case, when it is a capital letter of the Latin alphabet.
pub open spec fn lower_char(c: char) -> char {
    if 'A' <= c <= 'Z' {
        ((c as int) + 32) as char
    } else {
        c
    }
}

/// `s` with every capital letter of the Latin alphabet in lower case.
pub open spec fn lowered(s: Seq<char>) -> Seq<char> {
    s.map_values(|c: char| lower_char(c))
}

/// The decimal digit `d`.
fn digit(d: u64) -> (s: &'static str)
    requires
        d < 10,
    ensures
        s@ == seq![digit_char(d as nat)],
{
    proof {
        reveal_strlit("0");
        reveal_strlit("1");
        reveal_strlit("2");
        reveal_strlit("3");
        reveal_strlit("4");
        reveal_strlit("5");
        reveal_strlit("6");
        reveal_strlit("7");
        reveal_strlit("8");
        reveal_strlit("9");
    }
    let s = match d {
        0 => "0",
        1 => "1",
        2 => "2",
        3 => "3",
        4 => "4",
        5 => "5",
        6 => "6",
        7 => "7",
        8 => "8",
        _ => "9",
    };
    assert(s@ =~= seq![digit_char(d as nat)]);
    s
}

/// `n` written out in decimal.
pub fn decimal(n: u64) -> (s: String)
    ensures
        s@ == decimal_of(n as nat),
    decreases n,
{
    if n < 10 {
        String::from_str(digit(n))
    } else {
        let front = decimal(n / 10);
        front.concat(digit(n % 10))
    }
}

/// `n` written out in decimal, with a minus sign when it is below nothing.
pub fn signed_decimal(n: i64) -> (s: String)
    ensures
        s@ == signed_decimal_of(n as int),
{
    if n < 0 {
        let size: u64 = (0i128 - n as i128) as u64;
        let digits = decimal(size);
        proof {
            reveal_strlit("-");
        }
        let minus = String::from_str("-");
        let s = minus.concat(digits.as_str());
        assert(s@ =~= signed_decimal_of(n as int));
        s
    } else {
        decimal(n as u64)
    }
}

/// The small letter for the capital letter `c`.
fn small_letter(c: char) -> (s: &'static str)
    requires
        'A' <= c <= 'Z',
    ensures
        s@ == seq![lower_char(c)],
{
    proof {
        reveal_strlit("a");
        reveal_strlit("b");
        reveal_strlit("c");
        reveal_strlit("d");
        reveal_strlit("e");
        reveal_strlit("f");
        reveal_strlit("g");
        reveal_strlit("h");
        reveal_strlit("i");
        reveal_strlit("j");
        reveal_strlit("k");
        reveal_strlit("l");
        reveal_strlit("m");
        reveal_strlit("n");
        reveal_strlit("o");
        reveal_strlit("p");
        reveal_strlit("q");
        reveal_strlit("r");
        reveal_strlit("s");
        reveal_strlit("t");
        reveal_strlit("u");
        reveal_strlit("v");
        reveal_strlit("w");
        reveal_strlit("x");
        reveal_strlit("y");
        reveal_strlit("z");
    }
    let s = match c {
        'A' => "a",
        'B' => "b",
        'C' => "c",
        'D' => "d",
        'E' => "e",
        'F' => "f",
        'G' => "g",
        'H' => "h",
        'I' => "i",
        'J' => "j",
        'K' => "k",
        'L' => "l",
        'M' => "m",
        'N' => "n",
        'O' => "o",
        'P' => "p",
        'Q' => "q",
        'R' => "r",
        'S' => "s",
        'T' => "t",
        'U' => "u",
        'V' => "v",
        'W' => "w",
        'X' => "x",
        'Y' => "y",
        _ => "z",
    };
    assert(s@ =~= seq![lower_char(c)]);
    s
}

/// `s` in lower case: every capital letter of the Latin alphabet swapped for
/// its small one, everything else left as it was.
pub(crate) fn to_lowercase(s: &str) -> (l: String)
    ensures
        l@ == lowered(s@),
{
    let n = s.unicode_len();
    let mut l = String::new();
    let mut i: usize = 0;
    while i < n
        invariant
            n == s@.len(),
            i <= n,
            l@ == lowered(s@.subrange(0, i as int)),
        decreases n - i,
    {
        let c = s.get_char(i);
        if 'A' <= c && c <= 'Z' {
            l.append(small_letter(c));
        } else {
            l.append(s.substring_char(i, i + 1));
        }
        proof {
            assert(s@.subrange(0, i + 1) =~= s@.subrange(0, i as int).push(c));
        }
        assert(l@ =~= lowered(s@.subrange(0, i + 1)));
        i += 1;
    }
    assert(s@.subrange(0, n as int) =~= s@);
    l
}

/// Joins `a` and `b` into one piece of text.
pub fn join(a: &str, b: &str) -> (s: String)
    ensures
        s@ == a@ + b@,
{
    String::from_str(a).concat(b)
}

/// Joins `a`, `b` and `c` into one piece of text.
pub fn join3(a: &str, b: &str, c: &str) -> (s: String)
    ensures
        s@ == a@ + b@ + c@,
{
    String::from_str(a).concat(b).concat(c)
}

/// Whether `a` and `b` are the same text.
pub fn same(a: &str, b: &str) -> (eq: bool)
    ensures
        eq == (a@ == b@),
{
    let n = a.unicode_len();
    if n != b.unicode_len() {
        return false;
    }
    let mut i: usize = 0;
    while i < n
        invariant
            n == a@.len(),
            n == b@.len(),
            i <= n,
            forall|j: int| 0 <= j < i ==> a@[j] == b@[j],
        decreases n - i,
    {
        if a.get_char(i) != b.get_char(i) {
            return false;
        }
        i += 1;
    }
    assert(a@ =~= b@);
    true
}

/// `a` and `b` have the same characters before position `i`.
pub open spec fn agree_before(a: Seq<char>, b: Seq<char>, i: int) -> bool {
    forall|k: int| 0 <= k < i ==> a[k] == b[k]
}

/// `a` sorts before `b`, as told at position `i`: they agree up to it, and
/// there `a` has either run out while `b` goes on, or has the smaller
/// character.
pub open spec fn lex_less_at(a: Seq<char>, b: Seq<char>, i: int) -> bool {
    &&& 0 <= i <= a.len()
    &&& i <= b.len()
    &&& agree_before(a, b, i)
    &&& ((i == a.len() && i < b.len()) || (i < a.len() && i < b.len() && (a[i] as int) < (b[i] as int)))
}

/// `a` sorts before `b`, character by character, the way text is ordered.
pub open spec fn lex_less(a: Seq<char>, b: Seq<char>) -> bool {
    exists|i: int| #[trigger] lex_less_at(a, b, i)
}

/// Nothing sorts both before and after something else.
pub proof fn lex_less_is_one_way(a: Seq<char>, b: Seq<char>)
    ensures
        !(lex_less(a, b) && lex_less(b, a)),
{
    if lex_less(a, b) && lex_less(b, a) {
        let i = choose|i: int| #[trigger] lex_less_at(a, b, i);
        let j = choose|j: int| #[trigger] lex_less_at(b, a, j);
        if i < j {
            assert(b[i] == a[i]);
        } else if j < i {
            assert(a[j] == b[j]);
        }
    }
}

/// What sorts before something that sorts before a third thing sorts before
/// that too.
pub proof fn lex_less_chains(a: Seq<char>, b: Seq<char>, c: Seq<char>)
    requires
        lex_less(a, b),
        lex_less(b, c),
    ensures
        lex_less(a, c),
{
    let i = choose|i: int| #[trigger] lex_less_at(a, b, i);
    let j = choose|j: int| #[trigger] lex_less_at(b, c, j);
    if i < j {
        assert(lex_less_at(a, c, i));
    } else if j < i {
        assert(a[j] == b[j]);
        assert(lex_less_at(a, c, j));
    } else {
        assert(lex_less_at(a, c, i));
    }
}

/// Whether `a` sorts before `b`.
pub fn before(a: &str, b: &str) -> (lt: bool)
    ensures
        lt == lex_less(a@, b@),
{
    let na = a.unicode_len();
    let nb = b.unicode_len();
    let mut i: usize = 0;
    while i < na && i < nb
        invariant
            na == a@.len(),
            nb == b@.len(),
            i <= na,
            i <= nb,
            agree_before(a@, b@, i as int),
        decreases na - i,
    {
        let x = a.get_char(i);
        let y = b.get_char(i);
        if x != y {
            let lt = x < y;
            proof {
                if lt {
                    assert(lex_less_at(a@, b@, i as int));
                } else {
                    assert(lex_less_at(b@, a@, i as int));
                    lex_less_is_one_way(a@, b@);
                }
            }
            return lt;
        }
        i += 1;
    }
    let lt = na < nb;
    proof {
        if lt {
            assert(lex_less_at(a@, b@, i as int));
        } else if lex_less(a@, b@) {
            let j = choose|j: int| #[trigger] lex_less_at(a@, b@, j);
            if j < i {
                assert(a@[j] == b@[j]);
            }
        }
    }
    lt
}

/// Two different pieces of text always sort one way or the other.
pub proof fn lex_less_is_total(a: Seq<char>, b: Seq<char>)
    requires
        a != b,
    ensures
        lex_less(a, b) || lex_less(b, a),
{
    lemma_sorted_from(a, b, 0);
}

/// Texts that agree before `i` either are the same, or sort one way or the
/// other.
proof fn lemma_sorted_from(a: Seq<char>, b: Seq<char>, i: int)
    requires
        0 <= i <= a.len(),
        i <= b.len(),
        agree_before(a, b, i),
    ensures
        a == b || lex_less(a, b) || lex_less(b, a),
    decreases a.len() - i,
{
    if i == a.len() && i == b.len() {
        assert(a =~= b);
    } else if i == a.len() {
        assert(lex_less_at(a, b, i));
    } else if i == b.len() {
        assert(lex_less_at(b, a, i));
    } else if a[i] != b[i] {
        if (a[i] as int) < (b[i] as int) {
            assert(lex_less_at(a, b, i));
        } else {
            assert((b[i] as int) < (a[i] as int));
            assert(lex_less_at(b, a, i));
        }
    } else {
        lemma_sorted_from(a, b, i + 1);
    }
}

/// Every number is written with at least one digit, and a number of ten or
/// more with at least two.
pub proof fn lemma_decimal_len(n: nat)
    ensures
        decimal_of(n).len() >= 1,
        n >= 10 ==> decimal_of(n).len() >= 2,
    decreases n,
{
    if n >= 10 {
        lemma_decimal_len(n / 10);
    }
}

/// Different numbers are written differently.
pub proof fn lemma_decimal_injective(a: nat, b: nat)
    requires
        decimal_of(a) == decimal_of(b),
    ensures
        a == b,
    decreases a + b,
{
    lemma_decimal_len(a);
    lemma_decimal_len(b);
    if a < 10 && b < 10 {
        assert(decimal_of(a)[0] == digit_char(a));
        assert(decimal_of(b)[0] == digit_char(b));
    } else if a >= 10 && b >= 10 {
        let (da, db) = (decimal_of(a), decimal_of(b));
        assert(da.len() == db.len());
        assert(da[da.len() - 1] == digit_char(a % 10));
        assert(db[db.len() - 1] == digit_char(b % 10));
        assert(da.drop_last() =~= decimal_of(a / 10));
        assert(db.drop_last() =~= decimal_of(b / 10));
        lemma_decimal_injective(a / 10, b / 10);
    }
}

} // verus!

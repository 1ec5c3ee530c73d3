//! Text helpers: decimal rendering of numbers and the case-sensitive order on names.
use vstd::prelude::*;

verus! {

/// The character of a decimal digit.
pub open spec fn digit_char(d: nat) -> char {
    if d == 0 {
        '0'
    } else if d == 1 {
        '1'
    } else if d == 2 {
        '2'
    } else if d == 3 {
        '3'
    } else if d == 4 {
        '4'
    } else if d == 5 {
        '5'
    } else if d == 6 {
        '6'
    } else if d == 7 {
        '7'
    } else if d == 8 {
        '8'
    } else {
        '9'
    }
}

/// The decimal representation of `n`, without leading zeros.
pub open spec fn decimal(n: nat) -> Seq<char>
    decreases n,
{
    if n < 10 {
        seq![digit_char(n)]
    } else {
        decimal(n / 10).push(digit_char(n % 10))
    }
}

fn digit_str(d: u32) -> (r: &'static str)
    requires
        d < 10,
    ensures
        r@ == seq![digit_char(d as nat)],
{
    proof {
        reveal_strlit("0");
        reveal_strlit("1");
        reveal_strlit("2");
        reveal_strlit("3");
        reveal_strlit("4");
        reveal_strlit("5");
        reveal_strlit("6");
        reveal_strlit("7");
        reveal_strlit("8");
        reveal_strlit("9");
    }
    let r = if d == 0 {
        "0"
    } else if d == 1 {
        "1"
    } else if d == 2 {
        "2"
    } else if d == 3 {
        "3"
    } else if d == 4 {
        "4"
    } else if d == 5 {
        "5"
    } else if d == 6 {
        "6"
    } else if d == 7 {
        "7"
    } else if d == 8 {
        "8"
    } else {
        "9"
    };
    assert(r@ =~= seq![digit_char(d as nat)]);
    r
}

/// Renders `n` in decimal.
pub fn decimal_string(n: u32) -> (r: String)
    ensures
        r@ == decimal(n as nat),
    decreases n,
{
    if n < 10 {
        String::from_str(digit_str(n))
    } else {
        let mut s = decimal_string(n / 10);
        s.append(digit_str(n % 10));
        s
    }
}

/// Case-sensitive lexicographic order on names, by character code; a prefix comes first.
pub open spec fn name_le(a: Seq<char>, b: Seq<char>) -> bool
    decreases a.len(),
{
    if a.len() == 0 {
        true
    } else if b.len() == 0 {
        false
    } else if a[0] != b[0] {
        a[0] < b[0]
    } else {
        name_le(a.drop_first(), b.drop_first())
    }
}

/// Any two names are ordered one way or the other.
pub proof fn lemma_name_le_total(a: Seq<char>, b: Seq<char>)
    ensures
        name_le(a, b) || name_le(b, a),
    decreases a.len(),
{
    if a.len() > 0 && b.len() > 0 && a[0] == b[0] {
        lemma_name_le_total(a.drop_first(), b.drop_first());
    }
}

/// The order on names is transitive.
pub proof fn lemma_name_le_transitive(a: Seq<char>, b: Seq<char>, c: Seq<char>)
    requires
        name_le(a, b),
        name_le(b, c),
    ensures
        name_le(a, c),
    decreases a.len(),
{
    if a.len() > 0 && b.len() > 0 && c.len() > 0 && a[0] == b[0] && b[0] == c[0] {
        lemma_name_le_transitive(a.drop_first(), b.drop_first(), c.drop_first());
    }
}

/// Whether `a` comes no later than `b` in the order on names.
pub fn name_precedes(a: &String, b: &String) -> (r: bool)
    ensures
        r == name_le(a@, b@),
{
    let la = a.as_str().unicode_len();
    let lb = b.as_str().unicode_len();
    let mut i: usize = 0;
    assert(a@.skip(0) =~= a@);
    assert(b@.skip(0) =~= b@);
    while i < la && i < lb
        invariant
            la == a@.len(),
            lb == b@.len(),
            i <= la,
            i <= lb,
            name_le(a@, b@) == name_le(a@.skip(i as int), b@.skip(i as int)),
        decreases la - i,
    {
        let ca = a.as_str().get_char(i);
        let cb = b.as_str().get_char(i);
        if ca != cb {
            return ca < cb;
        }
        assert(a@.skip(i as int).drop_first() =~= a@.skip(i + 1));
        assert(b@.skip(i as int).drop_first() =~= b@.skip(i + 1));
        i = i + 1;
    }
    la <= lb
}

} // verus!

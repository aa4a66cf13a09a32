//! Derived preset identifiers.
//!
//! A preset id is the documented concatenation
//! `bank_id "-" name "-" bank_number "-" program_number`, with the two
//! numbers rendered in decimal. Because a decimal numeral never holds a
//! dash, the two numeric fields can be peeled off a full id from the right,
//! which makes the derivation injective in `(name, bank, program)` for a
//! fixed bank id; that is what keeps ids collision-free inside one bank.

use vstd::prelude::*;

verus! {

/// The decimal digit character for `d`.
pub open spec fn digit_char(d: int) -> char {
    if d == 0 {
        '0'
    } else if d == 1 {
        '1'
    } else if d == 2 {
        '2'
    } else if d == 3 {
        '3'
    } else if d == 4 {
        '4'
    } else if d == 5 {
        '5'
    } else if d == 6 {
        '6'
    } else if d == 7 {
        '7'
    } else if d == 8 {
        '8'
    } else {
        '9'
    }
}

/// The decimal numeral of `n`, most significant digit first.
pub open spec fn u32_digits(n: nat) -> Seq<char>
    decreases n,
{
    if n < 10 {
        seq![digit_char(n as int)]
    } else {
        u32_digits(n / 10).push(digit_char((n % 10) as int))
    }
}

/// A decimal numeral is never empty and never holds a dash.
pub proof fn lemma_digits_form(n: nat)
    ensures
        u32_digits(n).len() >= 1,
        forall|i: int| 0 <= i < u32_digits(n).len() ==> u32_digits(n)[i] != '-',
    decreases n,
{
    if n >= 10 {
        lemma_digits_form(n / 10);
    }
}

proof fn lemma_digit_char_injective(d1: int, d2: int)
    requires
        0 <= d1 < 10,
        0 <= d2 < 10,
        digit_char(d1) == digit_char(d2),
    ensures
        d1 == d2,
{
}

/// Distinct numbers have distinct numerals.
pub proof fn lemma_digits_injective(a: nat, b: nat)
    requires
        u32_digits(a) == u32_digits(b),
    ensures
        a == b,
    decreases a,
{
    lemma_digits_form(a);
    lemma_digits_form(b);
    if a < 10 && b < 10 {
        assert(u32_digits(a)[0] == digit_char(a as int));
        assert(u32_digits(b)[0] == digit_char(b as int));
        lemma_digit_char_injective(a as int, b as int);
    } else if a < 10 {
        assert(u32_digits(b).len() >= 2) by {
            lemma_digits_form(b / 10);
        }
    } else if b < 10 {
        assert(u32_digits(a).len() >= 2) by {
            lemma_digits_form(a / 10);
        }
    } else {
        let sa = u32_digits(a / 10);
        let sb = u32_digits(b / 10);
        assert(u32_digits(a).len() == sa.len() + 1);
        assert(u32_digits(b).len() == sb.len() + 1);
        assert(u32_digits(a).last() == digit_char((a % 10) as int));
        assert(u32_digits(b).last() == digit_char((b % 10) as int));
        lemma_digit_char_injective((a % 10) as int, (b % 10) as int);
        assert(sa =~= sb) by {
            assert(sa.len() == sb.len());
            assert forall|i: int| 0 <= i < sa.len() implies sa[i] == sb[i] by {
                assert(sa.push(digit_char((a % 10) as int))[i] == sa[i]);
                assert(sb.push(digit_char((b % 10) as int))[i] == sb[i]);
                assert(u32_digits(a)[i] == u32_digits(b)[i]);
            }
        }
        lemma_digits_injective(a / 10, b / 10);
    }
}

/// The decimal rendering of a number, as executable code.
pub fn u32_to_string(n: u32) -> (s: String)
    ensures
        s@ == u32_digits(n as nat),
    decreases n,
{
    let d: u32 = n % 10;
    let digit: &str = digit_str(d);
    if n < 10 {
        digit.to_owned()
    } else {
        let mut s = u32_to_string(n / 10);
        s.append(digit);
        assert(s@ =~= u32_digits(n as nat));
        s
    }
}

fn digit_str(d: u32) -> (s: &'static str)
    requires
        d < 10,
    ensures
        s@ =~= seq![digit_char(d as int)],
{
    proof {
        reveal_strlit("0");
        reveal_strlit("1");
        reveal_strlit("2");
        reveal_strlit("3");
        reveal_strlit("4");
        reveal_strlit("5");
        reveal_strlit("6");
        reveal_strlit("7");
        reveal_strlit("8");
        reveal_strlit("9");
    }
    match d {
        0 => "0",
        1 => "1",
        2 => "2",
        3 => "3",
        4 => "4",
        5 => "5",
        6 => "6",
        7 => "7",
        8 => "8",
        _ => "9",
    }
}

/// The single dash that separates the fields of a derived id.
pub open spec fn dash() -> Seq<char> {
    seq!['-']
}

/// The derived preset id over the views of its four fields.
pub open spec fn preset_id_chars(
    bank_id: Seq<char>,
    name: Seq<char>,
    bank_number: u32,
    program_number: u32,
) -> Seq<char> {
    bank_id + dash() + name + dash() + u32_digits(bank_number as nat) + dash() + u32_digits(
        program_number as nat,
    )
}

/// Builds the derived preset id.
pub fn derive_preset_id(
    bank_id: &str,
    name: &str,
    bank_number: u32,
    program_number: u32,
) -> (s: String)
    ensures
        s@ == preset_id_chars(bank_id@, name@, bank_number, program_number),
{
    proof {
        reveal_strlit("-");
    }
    let mut s = bank_id.to_owned();
    s.append("-");
    s.append(name);
    s.append("-");
    let bank_digits = u32_to_string(bank_number);
    s.append(bank_digits.as_str());
    s.append("-");
    let program_digits = u32_to_string(program_number);
    s.append(program_digits.as_str());
    proof {
        assert(("-")@ =~= dash());
        assert(s@ =~= preset_id_chars(bank_id@, name@, bank_number, program_number));
    }
    s
}

/// If `s1 "-" t1` and `s2 "-" t2` are the same text and neither tail holds
/// a dash, the heads and the tails agree: the last dash-free field of a
/// dash-joined string is unambiguous.
pub proof fn lemma_dash_split_unique(s1: Seq<char>, t1: Seq<char>, s2: Seq<char>, t2: Seq<char>)
    requires
        forall|i: int| 0 <= i < t1.len() ==> t1[i] != '-',
        forall|i: int| 0 <= i < t2.len() ==> t2[i] != '-',
        s1 + dash() + t1 == s2 + dash() + t2,
    ensures
        s1 == s2,
        t1 == t2,
{
    let w = s1 + dash() + t1;
    assert(w.len() == s1.len() + 1 + t1.len());
    assert(w.len() == s2.len() + 1 + t2.len());
    assert(w[s1.len() as int] == '-');
    assert(w[s2.len() as int] == '-');
    if s1.len() < s2.len() {
        // the dash at s2.len() would land inside t1
        let j = s2.len() - s1.len() - 1;
        assert(w[s2.len() as int] == t1[j]);
        assert(false);
    }
    if s2.len() < s1.len() {
        let j = s1.len() - s2.len() - 1;
        assert(w[s1.len() as int] == t2[j]);
        assert(false);
    }
    assert(s1.len() == s2.len());
    let w2 = s2 + dash() + t2;
    assert(s1 =~= s2) by {
        assert forall|i: int| 0 <= i < s1.len() implies s1[i] == s2[i] by {
            assert(w[i] == (s1 + dash())[i]);
            assert((s1 + dash())[i] == s1[i]);
            assert(w2[i] == (s2 + dash())[i]);
            assert((s2 + dash())[i] == s2[i]);
        }
    }
    assert(t1 =~= t2) by {
        assert(t1.len() == t2.len());
        assert forall|i: int| 0 <= i < t1.len() implies t1[i] == t2[i] by {
            let j = s1.len() + 1 + i;
            assert(w[j] == t1[i]);
            assert(w2[j] == t2[i]);
        }
    }
}

/// Within one bank, the derived id determines the `(name, bank_number,
/// program_number)` triple: two different triples never collide.
pub proof fn lemma_preset_id_injective(
    bank_id: Seq<char>,
    name1: Seq<char>,
    bank1: u32,
    prog1: u32,
    name2: Seq<char>,
    bank2: u32,
    prog2: u32,
)
    requires
        preset_id_chars(bank_id, name1, bank1, prog1) == preset_id_chars(
            bank_id,
            name2,
            bank2,
            prog2,
        ),
    ensures
        name1 == name2,
        bank1 == bank2,
        prog1 == prog2,
{
    lemma_digits_form(bank1 as nat);
    lemma_digits_form(bank2 as nat);
    lemma_digits_form(prog1 as nat);
    lemma_digits_form(prog2 as nat);
    let h1 = bank_id + dash() + name1 + dash() + u32_digits(bank1 as nat);
    let h2 = bank_id + dash() + name2 + dash() + u32_digits(bank2 as nat);
    assert(h1 + dash() + u32_digits(prog1 as nat) =~= preset_id_chars(
        bank_id,
        name1,
        bank1,
        prog1,
    ));
    assert(h2 + dash() + u32_digits(prog2 as nat) =~= preset_id_chars(
        bank_id,
        name2,
        bank2,
        prog2,
    ));
    lemma_dash_split_unique(h1, u32_digits(prog1 as nat), h2, u32_digits(prog2 as nat));
    lemma_digits_injective(prog1 as nat, prog2 as nat);
    let g1 = bank_id + dash() + name1;
    let g2 = bank_id + dash() + name2;
    assert(g1 + dash() + u32_digits(bank1 as nat) =~= h1);
    assert(g2 + dash() + u32_digits(bank2 as nat) =~= h2);
    lemma_dash_split_unique(g1, u32_digits(bank1 as nat), g2, u32_digits(bank2 as nat));
    lemma_digits_injective(bank1 as nat, bank2 as nat);
    assert(name1 =~= name2) by {
        assert(name1.len() == name2.len());
        assert forall|i: int| 0 <= i < name1.len() implies name1[i] == name2[i] by {
            let j = bank_id.len() + 1 + i;
            assert(g1[j] == ((bank_id + dash()) + name1)[j]);
            assert(g1[j] == name1[i]);
            assert(g2[j] == ((bank_id + dash()) + name2)[j]);
            assert(g2[j] == name2[i]);
        }
    }
}

} // verus!

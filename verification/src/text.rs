//! Numbers as text.
use vstd::prelude::*;
use vstd::string::StringExecFns;

verus! {

/// One decimal digit.
pub open spec fn digit_char(d: int) -> char {
    (48 + d) as char
}

/// A number in decimal notation, without leading zeros.
pub open spec fn decimal(n: nat) -> Seq<char>
    decreases n,
{
    if n < 10 {
        seq![digit_char(n as int)]
    } else {
        decimal(n / 10).push(digit_char((n % 10) as int))
    }
}

/// A number in decimal notation, with a minus sign if it is negative.
pub open spec fn signed_decimal(n: int) -> Seq<char> {
    if n < 0 {
        seq!['-'] + decimal((-n) as nat)
    } else {
        decimal(n as nat)
    }
}

/// A number in decimal notation with a comma before every group of three
/// digits but the first.
pub open spec fn grouped(n: nat) -> Seq<char>
    decreases n,
{
    if n < 1000 {
        decimal(n)
    } else {
        grouped(n / 1000) + seq![
            ',',
            digit_char((n / 100 % 10) as int),
            digit_char((n / 10 % 10) as int),
            digit_char((n % 10) as int),
        ]
    }
}

fn push_digit(s: &mut String, d: u64)
    requires
        d < 10,
    ensures
        final(s)@ == old(s)@.push(digit_char(d as int)),
{
    proof {
        reveal_strlit("0");
        reveal_strlit("1");
        reveal_strlit("2");
        reveal_strlit("3");
        reveal_strlit("4");
        reveal_strlit("5");
        reveal_strlit("6");
        reveal_strlit("7");
        reveal_strlit("8");
        reveal_strlit("9");
    }
    let ghost before = s@;
    if d == 0 {
        s.append("0");
    } else if d == 1 {
        s.append("1");
    } else if d == 2 {
        s.append("2");
    } else if d == 3 {
        s.append("3");
    } else if d == 4 {
        s.append("4");
    } else if d == 5 {
        s.append("5");
    } else if d == 6 {
        s.append("6");
    } else if d == 7 {
        s.append("7");
    } else if d == 8 {
        s.append("8");
    } else {
        s.append("9");
    }
    assert(s@ =~= before.push(digit_char(d as int)));
}

/// Append a number in decimal notation.
pub fn push_decimal(s: &mut String, n: u64)
    ensures
        final(s)@ == old(s)@ + decimal(n as nat),
    decreases n,
{
    let ghost before = s@;
    if n >= 10 {
        push_decimal(s, n / 10);
    }
    push_digit(s, n % 10);
    assert(s@ =~= before + decimal(n as nat));
}

/// Append a number in decimal notation, with a minus sign if it is negative.
pub fn push_signed(s: &mut String, n: i64)
    ensures
        final(s)@ == old(s)@ + signed_decimal(n as int),
{
    let ghost before = s@;
    if n < 0 {
        s.append("-");
        proof {
            reveal_strlit("-");
        }
        push_decimal(s, (-(n as i128)) as u64);
    } else {
        push_decimal(s, n as u64);
    }
    assert(s@ =~= before + signed_decimal(n as int));
}

/// A number in decimal notation.
pub fn to_decimal(n: u64) -> (s: String)
    ensures
        s@ == decimal(n as nat),
{
    let mut s = String::new();
    push_decimal(&mut s, n);
    assert(s@ =~= decimal(n as nat));
    s
}

/// Group a number with thousands separators.
pub fn commas(n: u64) -> (s: String)
    ensures
        s@ == grouped(n as nat),
    decreases n,
{
    if n < 1000 {
        return to_decimal(n);
    }
    let mut s = commas(n / 1000);
    let ghost head = s@;
    s.append(",");
    push_digit(&mut s, n / 100 % 10);
    push_digit(&mut s, n / 10 % 10);
    push_digit(&mut s, n % 10);
    proof {
        reveal_strlit(",");
    }
    assert(s@ =~= grouped(n as nat));
    s
}

/// Separators only group: leaving them out gives the plain number.
pub proof fn law_commas_only_group(n: nat)
    ensures
        grouped(n).filter(|c: char| c != ',') == decimal(n),
    decreases n,
{
    let plain = |c: char| c != ',';
    if n < 1000 {
        lemma_digits_are_plain(n);
        lemma_filter_all(decimal(n), plain);
    } else {
        law_commas_only_group(n / 1000);
        let tail = seq![
            ',',
            digit_char((n / 100 % 10) as int),
            digit_char((n / 10 % 10) as int),
            digit_char((n % 10) as int),
        ];
        Seq::filter_distributes_over_add(grouped(n / 1000), tail, plain);
        lemma_filter_tail(
            (n / 100 % 10) as int,
            (n / 10 % 10) as int,
            (n % 10) as int,
        );
        assert(n / 10 / 10 == n / 100 && n / 100 / 10 == n / 1000);
        assert(decimal(n) == decimal(n / 10).push(digit_char((n % 10) as int)));
        assert(decimal(n / 10) == decimal(n / 100).push(digit_char((n / 10 % 10) as int)));
        assert(decimal(n / 100) == decimal(n / 1000).push(digit_char((n / 100 % 10) as int)));
        assert(grouped(n).filter(plain) =~= decimal(n));
    }
}

proof fn lemma_digits_are_plain(n: nat)
    ensures
        forall|i: int| 0 <= i < decimal(n).len() ==> #[trigger] decimal(n)[i] != ',',
    decreases n,
{
    if n >= 10 {
        let head = decimal(n / 10);
        lemma_digits_are_plain(n / 10);
        assert forall|i: int| 0 <= i < decimal(n).len() implies #[trigger] decimal(n)[i]
            != ',' by {
            if i < head.len() {
                assert(decimal(n)[i] == head[i]);
            }
        }
    }
}

proof fn lemma_filter_all(s: Seq<char>, keep: spec_fn(char) -> bool)
    requires
        forall|i: int| 0 <= i < s.len() ==> keep(#[trigger] s[i]),
    ensures
        s.filter(keep) == s,
    decreases s.len(),
{
    reveal(Seq::filter);
    if s.len() > 0 {
        assert forall|i: int| 0 <= i < s.drop_last().len() implies keep(
            #[trigger] s.drop_last()[i],
        ) by {
            assert(keep(s[i]));
        }
        lemma_filter_all(s.drop_last(), keep);
        assert(keep(s[s.len() - 1]));
        assert(s.drop_last().push(s.last()) =~= s);
    } else {
        assert(s.filter(keep) =~= s);
    }
}

proof fn lemma_filter_tail(a: int, b: int, c: int)
    requires
        0 <= a < 10,
        0 <= b < 10,
        0 <= c < 10,
    ensures
        seq![',', digit_char(a), digit_char(b), digit_char(c)].filter(|x: char| x != ',') == seq![
            digit_char(a),
            digit_char(b),
            digit_char(c),
        ],
{
    let plain = |x: char| x != ',';
    let digits = seq![digit_char(a), digit_char(b), digit_char(c)];
    let tail = seq![',', digit_char(a), digit_char(b), digit_char(c)];
    assert(tail =~= seq![','] + digits);
    Seq::filter_distributes_over_add(seq![','], digits, plain);
    lemma_filter_all(digits, plain);
    reveal_with_fuel(Seq::filter, 2);
    assert(seq![','].drop_last() =~= Seq::<char>::empty());
    assert(seq![','].filter(plain) =~= Seq::<char>::empty());
    assert(tail.filter(plain) =~= digits);
}

/// Numerals from one to ten; other numbers in decimal notation.
pub open spec fn roman_text(n: int) -> Seq<char> {
    if n == 1 {
        "I"@
    } else if n == 2 {
        "II"@
    } else if n == 3 {
        "III"@
    } else if n == 4 {
        "IV"@
    } else if n == 5 {
        "V"@
    } else if n == 6 {
        "VI"@
    } else if n == 7 {
        "VII"@
    } else if n == 8 {
        "VIII"@
    } else if n == 9 {
        "IX"@
    } else if n == 10 {
        "X"@
    } else {
        signed_decimal(n)
    }
}

/// Numerals from one to ten; other numbers in decimal notation.
pub fn roman(n: i32) -> (s: String)
    ensures
        s@ == roman_text(n as int),
{
    if n == 1 {
        "I".to_owned()
    } else if n == 2 {
        "II".to_owned()
    } else if n == 3 {
        "III".to_owned()
    } else if n == 4 {
        "IV".to_owned()
    } else if n == 5 {
        "V".to_owned()
    } else if n == 6 {
        "VI".to_owned()
    } else if n == 7 {
        "VII".to_owned()
    } else if n == 8 {
        "VIII".to_owned()
    } else if n == 9 {
        "IX".to_owned()
    } else if n == 10 {
        "X".to_owned()
    } else {
        let mut s = String::new();
        push_signed(&mut s, n as i64);
        assert(s@ =~= signed_decimal(n as int));
        s
    }
}

/// The number that a row of digits stands for.
pub open spec fn number_of(s: Seq<char>) -> int
    decreases s.len(),
{
    if s.len() == 0 {
        0
    } else {
        10 * number_of(s.drop_last()) + (s.last() as int - 48)
    }
}

/// Notation can be read back: a number's digits, all of them from 0 to 9 and
/// none leading in vain, stand for that number; a negative one has its sign in
/// front.
pub proof fn law_notation_reads_back(n: nat)
    ensures
        number_of(decimal(n)) == n,
        decimal(n).len() > 0,
        forall|i: int|
            0 <= i < decimal(n).len() ==> 48 <= #[trigger] decimal(n)[i] as int && decimal(n)[i] as int
                <= 57,
        n > 0 ==> decimal(n)[0] as int != 48,
        n == 0 ==> decimal(n).len() == 1,
        signed_decimal(n as int) == decimal(n),
        n > 0 ==> signed_decimal(-(n as int)) == seq!['-'] + decimal(n),
    decreases n,
{
    if n < 10 {
        assert(decimal(n).drop_last() =~= Seq::<char>::empty());
        assert(decimal(n).last() as int == 48 + n);
        assert(number_of(decimal(n).drop_last()) == 0);
    } else {
        law_notation_reads_back(n / 10);
        let head = decimal(n / 10);
        assert(decimal(n).drop_last() =~= head);
        assert(decimal(n)[0] == head[0]);
        assert forall|i: int| 0 <= i < decimal(n).len() implies 48 <= #[trigger] decimal(
            n,
        )[i] as int && decimal(n)[i] as int <= 57 by {
            if i < head.len() {
                assert(decimal(n)[i] == head[i]);
                assert(48 <= head[i] as int);
            }
        }
    }
}

/// Separators stand between groups of three: counted from the end, every fourth
/// character is a comma and no other is.
pub proof fn law_commas_stand_every_three(n: nat, i: int)
    requires
        0 <= i < grouped(n).len(),
    ensures
        grouped(n)[grouped(n).len() - 1 - i] == ',' <==> i % 4 == 3,
        grouped(n)[0] != ',',
    decreases n,
{
    if n < 1000 {
        lemma_digits_are_plain(n);
        lemma_few_digits(n);
        assert(grouped(n)[grouped(n).len() - 1 - i] == decimal(n)[decimal(n).len() - 1 - i]);
        assert(decimal(n)[0] != ',');
    } else {
        let head = grouped(n / 1000);
        let tail = seq![
            ',',
            digit_char((n / 100 % 10) as int),
            digit_char((n / 10 % 10) as int),
            digit_char((n % 10) as int),
        ];
        assert(grouped(n) == head + tail);
        lemma_grouped_len(n / 1000);
        law_commas_stand_every_three(n / 1000, 0);
        assert(grouped(n)[0] == head[0]);
        if i >= 4 {
            law_commas_stand_every_three(n / 1000, i - 4);
            assert(grouped(n)[grouped(n).len() - 1 - i] == head[head.len() - 1 - (i - 4)]);
        } else {
            assert(grouped(n)[grouped(n).len() - 1 - i] == tail[3 - i]);
        }
    }
}

proof fn lemma_few_digits(n: nat)
    requires
        n < 1000,
    ensures
        0 < decimal(n).len() <= 3,
{
    reveal_with_fuel(decimal, 4);
}

proof fn lemma_grouped_len(n: nat)
    ensures
        grouped(n).len() > 0,
    decreases n,
{
    if n < 1000 {
        lemma_few_digits(n);
    } else {
        lemma_grouped_len(n / 1000);
    }
}

/// What one letter of a numeral counts.
pub open spec fn letter_value(c: char) -> int {
    if c == 'X' {
        10
    } else if c == 'V' {
        5
    } else {
        1
    }
}

/// What a numeral counts: its letters added up, except that one before a greater
/// one is taken off.
pub open spec fn numeral_value(s: Seq<char>) -> int
    decreases s.len(),
{
    if s.len() == 0 {
        0
    } else if s.len() > 1 && letter_value(s[0]) < letter_value(s[1]) {
        numeral_value(s.drop_first()) - letter_value(s[0])
    } else {
        numeral_value(s.drop_first()) + letter_value(s[0])
    }
}

/// Numerals count what they stand for.
pub proof fn law_numerals_count(n: int)
    requires
        1 <= n <= 10,
    ensures
        numeral_value(roman_text(n)) == n,
{
    reveal_with_fuel(numeral_value, 6);
    reveal_strlit("I");
    reveal_strlit("II");
    reveal_strlit("III");
    reveal_strlit("IV");
    reveal_strlit("V");
    reveal_strlit("VI");
    reveal_strlit("VII");
    reveal_strlit("VIII");
    reveal_strlit("IX");
    reveal_strlit("X");
}

} // verus!

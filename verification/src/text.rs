//! Text: joining and decimal numbers.
use vstd::prelude::*;

verus! {

/// `head` followed by `tail`.
pub fn text_of(head: &str, tail: &str) -> (text: String)
    ensures
        text@ == head@ + tail@,
{
    let mut text = head.to_owned();
    text.append(tail);
    text
}

/// The decimal digit of `d`, where `d < 10`.
pub open spec fn digit(d: nat) -> char {
    (48 + d) as char
}

/// `n` in decimal.
pub open spec fn decimal(n: nat) -> Seq<char>
    decreases n,
{
    if n < 10 {
        seq![digit(n)]
    } else {
        decimal(n / 10).push(digit(n % 10))
    }
}

/// `n` in decimal, with a minus sign where it is negative.
pub open spec fn signed_decimal(n: int) -> Seq<char> {
    if n < 0 {
        "-"@ + decimal((-n) as nat)
    } else {
        decimal(n as nat)
    }
}

/// A number is known by its decimal.
pub proof fn lemma_decimal_injective(a: nat, b: nat)
    ensures
        decimal(a) == decimal(b) ==> a == b,
    decreases a,
{
    if decimal(a) == decimal(b) {
        lemma_decimal_shape(a);
        lemma_decimal_shape(b);
        let da = decimal(a);
        let db = decimal(b);
        assert(da.last() == db.last());
        if a >= 10 && b >= 10 {
            lemma_decimal_injective(a / 10, b / 10);
            assert(da.drop_last() =~= decimal(a / 10));
            assert(db.drop_last() =~= decimal(b / 10));
        } else if a >= 10 {
            lemma_decimal_shape(a / 10);
        } else if b >= 10 {
            lemma_decimal_shape(b / 10);
        }
    }
}

/// A decimal has at least one character, and all of them are digits.
pub proof fn lemma_decimal_shape(n: nat)
    ensures
        decimal(n).len() >= 1,
        forall|i: int| 0 <= i < decimal(n).len() ==> '0' <= #[trigger] decimal(n)[i] <= '9',
    decreases n,
{
    if n >= 10 {
        lemma_decimal_shape(n / 10);
    }
}

/// The digit of `d` as text.
fn digit_text(d: u64) -> (text: &'static str)
    requires
        d < 10,
    ensures
        text@ == seq![digit(d as nat)],
{
    proof {
        reveal_strlit("0");
        reveal_strlit("1");
        reveal_strlit("2");
        reveal_strlit("3");
        reveal_strlit("4");
        reveal_strlit("5");
        reveal_strlit("6");
        reveal_strlit("7");
        reveal_strlit("8");
        reveal_strlit("9");
    }
    match d {
        0 => "0",
        1 => "1",
        2 => "2",
        3 => "3",
        4 => "4",
        5 => "5",
        6 => "6",
        7 => "7",
        8 => "8",
        _ => "9",
    }
}

/// `n` in decimal.
pub fn decimal_text(n: u64) -> (text: String)
    ensures
        text@ == decimal(n as nat),
    decreases n,
{
    if n < 10 {
        digit_text(n).to_owned()
    } else {
        let mut text = decimal_text(n / 10);
        text.append(digit_text(n % 10));
        text
    }
}

/// `n` in decimal, with a minus sign where it is negative.
pub fn signed_decimal_text(n: i32) -> (text: String)
    ensures
        text@ == signed_decimal(n as int),
{
    if n < 0 {
        let size: i64 = -(n as i64);
        text_of("-", decimal_text(size as u64).as_str())
    } else {
        decimal_text(n as u64)
    }
}

/// The number that digits stand for.
pub open spec fn read_digits(text: Seq<char>) -> int
    decreases text.len(),
{
    if text.len() == 0 {
        0
    } else {
        10 * read_digits(text.drop_last()) + (text.last() as int - '0' as int)
    }
}

/// The number that digits stand for, below zero behind a minus sign.
pub open spec fn read_signed(text: Seq<char>) -> int {
    if text.len() > 0 && text[0] == '-' {
        -read_digits(text.skip(1))
    } else {
        read_digits(text)
    }
}

/// A decimal reads as the number, and does not start with a zero but for zero itself.
pub proof fn lemma_decimal_reads_back(n: nat)
    ensures
        read_digits(decimal(n)) == n,
        n > 0 ==> decimal(n)[0] != '0',
    decreases n,
{
    lemma_decimal_shape(n);
    if n >= 10 {
        lemma_decimal_reads_back(n / 10);
        lemma_decimal_shape(n / 10);
        assert(decimal(n).drop_last() =~= decimal(n / 10));
        assert(decimal(n)[0] == decimal(n / 10)[0]);
    } else {
        assert(decimal(n).drop_last() =~= Seq::<char>::empty());
        assert(read_digits(decimal(n).drop_last()) == 0);
    }
}

/// A signed decimal reads as the number.
pub proof fn lemma_signed_reads_back(n: int)
    ensures
        read_signed(signed_decimal(n)) == n,
{
    if n < 0 {
        reveal_strlit("-");
        lemma_decimal_reads_back((-n) as nat);
        assert(signed_decimal(n).skip(1) =~= decimal((-n) as nat));
    } else {
        lemma_decimal_reads_back(n as nat);
        lemma_decimal_shape(n as nat);
    }
}

/// What [`decimal_text`] and [`signed_decimal_text`] give for a number reads as the number.
pub proof fn lemma_texts_read_back(n: u64, text: String, m: i32, signed: String)
    requires
        call_ensures(decimal_text, (n,), text),
        call_ensures(signed_decimal_text, (m,), signed),
    ensures
        read_digits(text@) == n,
        read_signed(signed@) == m,
{
    lemma_decimal_reads_back(n as nat);
    lemma_signed_reads_back(m as int);
}

} // verus!

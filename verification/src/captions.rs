use vstd::prelude::*;

verus! {

/// The decimal digit `d` (below ten) as a character.
pub open spec fn digit(d: nat) -> char {
    if d == 0 {
        '0'
    } else if d == 1 {
        '1'
    } else if d == 2 {
        '2'
    } else if d == 3 {
        '3'
    } else if d == 4 {
        '4'
    } else if d == 5 {
        '5'
    } else if d == 6 {
        '6'
    } else if d == 7 {
        '7'
    } else if d == 8 {
        '8'
    } else {
        '9'
    }
}

/// The decimal notation of `n`, without leading zeros.
pub open spec fn decimal(n: nat) -> Seq<char>
    decreases n,
{
    if n < 10 {
        seq![digit(n)]
    } else {
        decimal(n / 10).push(digit(n % 10))
    }
}

/// Calls `String::push`: appends one character.
#[verifier::external_body]
fn push_char(s: &mut String, c: char)
    ensures
        final(s)@ == old(s)@.push(c),
{
    s.push(c);
}

fn digit_char(d: u32) -> (c: char)
    requires
        d < 10,
    ensures
        c == digit(d as nat),
{
    if d == 0 {
        '0'
    } else if d == 1 {
        '1'
    } else if d == 2 {
        '2'
    } else if d == 3 {
        '3'
    } else if d == 4 {
        '4'
    } else if d == 5 {
        '5'
    } else if d == 6 {
        '6'
    } else if d == 7 {
        '7'
    } else if d == 8 {
        '8'
    } else {
        '9'
    }
}

/// The decimal notation of `n`.
pub fn decimal_string(n: u32) -> (res: String)
    ensures
        res@ == decimal(n as nat),
    decreases n,
{
    if n < 10 {
        let mut s = String::new();
        push_char(&mut s, digit_char(n));
        s
    } else {
        let mut s = decimal_string(n / 10);
        push_char(&mut s, digit_char(n % 10));
        s
    }
}

/// The caption of an image size, as the list and the preview show it:
/// width, " × ", height.
pub fn dims_caption(width: u32, height: u32) -> (res: String)
    ensures
        res@ == decimal(width as nat) + " \u{d7} "@ + decimal(height as nat),
{
    let mut s = decimal_string(width);
    s.append(" \u{d7} ");
    let h = decimal_string(height);
    s.append(h.as_str());
    s
}

/// The notification sent after a wallpaper was applied.
pub fn change_notice(name: &str) -> (res: String)
    ensures
        res@ == "Changed to "@ + name@,
{
    let mut s = String::from_str("Changed to ");
    s.append(name);
    s
}

} // verus!
verus! {

/// The digit characters `0`..`9`.
pub open spec fn is_digit_char(c: char) -> bool {
    '0' <= c <= '9'
}

/// The number that a string of decimal digits denotes, read in base ten.
pub open spec fn digits_value(s: Seq<char>) -> int
    decreases s.len(),
{
    if s.len() == 0 {
        0
    } else {
        digits_value(s.drop_last()) * 10 + ((s.last() as int) - ('0' as int))
    }
}

proof fn lemma_digit_code(d: nat)
    requires
        d < 10,
    ensures
        digit(d) as int == ('0' as int) + d,
        is_digit_char(digit(d)),
{
}

/// `decimal(n)` is the decimal notation of `n`: a non-empty string of digit
/// characters that denotes `n` in base ten, with no leading zero unless `n`
/// is zero.
pub proof fn lemma_decimal_denotes(n: nat)
    ensures
        decimal(n).len() > 0,
        forall|i: int| 0 <= i < decimal(n).len() ==> is_digit_char(#[trigger] decimal(n)[i]),
        digits_value(decimal(n)) == n,
        decimal(n)[0] == '0' ==> n == 0,
    decreases n,
{
    if n < 10 {
        lemma_digit_code(n);
        assert(decimal(n).drop_last() =~= Seq::<char>::empty());
        assert(digits_value(Seq::<char>::empty()) == 0);
        assert(digits_value(decimal(n)) == digits_value(decimal(n).drop_last()) * 10 + ((digit(
            n,
        ) as int) - ('0' as int)));
    } else {
        let q = n / 10;
        let r = n % 10;
        lemma_decimal_denotes(q);
        lemma_digit_code(r);
        let s = decimal(q).push(digit(r));
        assert(s.drop_last() =~= decimal(q));
        assert(n == q * 10 + r);
        assert(decimal(n) == s);
        assert(digits_value(s) == digits_value(decimal(q)) * 10 + ((digit(r) as int) - ('0' as int)));
        assert(s[0] == decimal(q)[0]);
        assert forall|i: int| 0 <= i < s.len() implies is_digit_char(#[trigger] s[i]) by {
            if i < decimal(q).len() {
                assert(s[i] == decimal(q)[i]);
            }
        }
    }
}

} // verus!

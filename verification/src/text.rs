//! Decimal numbers and white space in text.
use vstd::prelude::*;

verus! {

/// The character that stands for the digit `d`.
pub open spec fn digit_char(d: nat) -> char {
    (('0' as nat) + d) as char
}

/// `n` in decimal, without leading zeros.
pub open spec fn decimal(n: nat) -> Seq<char>
    decreases n,
{
    if n < 10 {
        seq![digit_char(n)]
    } else {
        decimal(n / 10).push(digit_char(n % 10))
    }
}

/// `c` is one of the ten ASCII digits.
pub open spec fn is_digit(c: char) -> bool {
    '0' <= c && c <= '9'
}

pub open spec fn all_digits(s: Seq<char>) -> bool {
    forall|i: int| 0 <= i < s.len() ==> is_digit(#[trigger] s[i])
}

/// The number that the digits of `s` spell, the most significant digit first.
pub open spec fn digits_value(s: Seq<char>) -> nat
    decreases s.len(),
{
    if s.len() == 0 {
        0
    } else {
        digits_value(s.drop_last()) * 10 + (s.last() as nat - '0' as nat) as nat
    }
}

/// `s` without the plus sign that a number may start with.
pub open spec fn unsigned_part(s: Seq<char>) -> Seq<char> {
    if s.len() > 0 && s[0] == '+' {
        s.drop_first()
    } else {
        s
    }
}

/// What `s` reads as: an optional plus sign and then one or more digits, and nothing else.
pub open spec fn number_of(s: Seq<char>) -> Option<nat> {
    let digits = unsigned_part(s);
    if digits.len() > 0 && all_digits(digits) {
        Some(digits_value(digits))
    } else {
        None
    }
}

fn digit_text(d: usize) -> (res: &'static str)
    requires
        d < 10,
    ensures
        res@ == seq![digit_char(d as nat)],
{
    proof {
        reveal_strlit("0");
        reveal_strlit("1");
        reveal_strlit("2");
        reveal_strlit("3");
        reveal_strlit("4");
        reveal_strlit("5");
        reveal_strlit("6");
        reveal_strlit("7");
        reveal_strlit("8");
        reveal_strlit("9");
    }
    let res = match d {
        0 => "0",
        1 => "1",
        2 => "2",
        3 => "3",
        4 => "4",
        5 => "5",
        6 => "6",
        7 => "7",
        8 => "8",
        _ => "9",
    };
    assert(res@ =~= seq![digit_char(d as nat)]);
    res
}

/// Writes `n` in decimal at the end of `out`.
pub fn append_decimal(out: &mut String, n: usize)
    ensures
        final(out)@ == old(out)@ + decimal(n as nat),
    decreases n,
{
    if n >= 10 {
        append_decimal(out, n / 10);
    }
    out.append(digit_text(n % 10));
    assert(out@ =~= old(out)@ + decimal(n as nat));
}

/// The number that `s` reads as, where it fits in `usize`.
pub open spec fn usize_of(s: Seq<char>) -> Option<usize> {
    match number_of(s) {
        Some(n) => if n <= usize::MAX {
            Some(n as usize)
        } else {
            None
        },
        None => None,
    }
}

/// Reads a number. A plus sign may stand before the digits; nothing else may.
pub fn parse_usize(text: &str) -> (res: Option<usize>)
    ensures
        res == usize_of(text@),
{
    let mut value: Option<usize> = Some(0);
    let mut valid: bool = true;
    let mut any: bool = false;
    let mut first: bool = true;
    for c in it: text.chars()
        invariant
            it.seq() == text@,
            first == (it.index() == 0),
            any == (unsigned_part(text@.take(it.index())).len() > 0),
            valid == all_digits(unsigned_part(text@.take(it.index()))),
            valid ==> value == (if digits_value(unsigned_part(text@.take(it.index())))
                <= usize::MAX {
                Some(digits_value(unsigned_part(text@.take(it.index()))) as usize)
            } else {
                None
            }),
    {
        let ghost i = it.index();
        let ghost seen = unsigned_part(text@.take(i));
        let ghost now = unsigned_part(text@.take(i + 1));
        assert(text@.take(i + 1).drop_first() =~= text@.drop_first().take(i));
        if first && c == '+' {
            assert(now =~= seen);
        } else {
            assert(now =~= seen.push(c));
            assert(now.drop_last() =~= seen);
            assert(all_digits(now) == (all_digits(seen) && is_digit(c))) by {
                if all_digits(now) {
                    assert(is_digit(now[seen.len() as int]));
                    assert forall|k: int| 0 <= k < seen.len() implies is_digit(#[trigger] seen[k]) by {
                        assert(is_digit(now[k]));
                    }
                }
            }
            any = true;
            if '0' <= c && c <= '9' {
                let d: usize = (c as u32 - '0' as u32) as usize;
                value = match value {
                    Some(v) => match v.checked_mul(10) {
                        Some(tens) => tens.checked_add(d),
                        None => None,
                    },
                    None => None,
                };
            } else {
                valid = false;
            }
        }
        first = false;
    }
    assert(text@.take(text@.len() as int) =~= text@);
    if any && valid {
        value
    } else {
        None
    }
}

/// The decimal form of `n` is made of digits, and they spell `n`.
pub proof fn lemma_decimal(n: nat)
    ensures
        decimal(n).len() > 0,
        all_digits(decimal(n)),
        digits_value(decimal(n)) == n,
    decreases n,
{
    if n < 10 {
        assert(decimal(n).drop_last() =~= Seq::<char>::empty());
        assert(digits_value(Seq::<char>::empty()) == 0);
    } else {
        lemma_decimal(n / 10);
        assert(decimal(n).drop_last() =~= decimal(n / 10));
    }
}

/// A number that was written in decimal reads back as itself.
pub proof fn law_decimal_reads_back(n: usize)
    ensures
        usize_of(decimal(n as nat)) == Some(n),
{
    lemma_decimal(n as nat);
    assert(is_digit(decimal(n as nat)[0]));
    assert(unsigned_part(decimal(n as nat)) == decimal(n as nat));
}

/// What follows the same text in two equal texts is equal.
pub proof fn lemma_cancel_front(front: Seq<char>, a: Seq<char>, b: Seq<char>)
    requires
        front + a == front + b,
    ensures
        a == b,
{
    assert(a =~= (front + a).skip(front.len() as int));
    assert(b =~= (front + b).skip(front.len() as int));
}

/// Two numbers that are the same in decimal are equal, also where text that does not start
/// with a digit follows each of them; and then the same text follows.
pub proof fn law_decimal_is_delimited(m: nat, n: nat, after_m: Seq<char>, after_n: Seq<char>)
    requires
        after_m.len() > 0 ==> !is_digit(after_m[0]),
        after_n.len() > 0 ==> !is_digit(after_n[0]),
        decimal(m) + after_m == decimal(n) + after_n,
    ensures
        m == n,
        after_m == after_n,
{
    lemma_decimal(m);
    lemma_decimal(n);
    let dm = decimal(m);
    let dn = decimal(n);
    let whole = dm + after_m;
    if dm.len() < dn.len() {
        assert(whole[dm.len() as int] == after_m[0]);
        assert(is_digit(dn[dm.len() as int]));
    } else if dn.len() < dm.len() {
        assert((dn + after_n)[dn.len() as int] == after_n[0]);
        assert(is_digit(dm[dn.len() as int]));
    }
    assert(dm =~= whole.take(dm.len() as int));
    assert(dn =~= whole.take(dn.len() as int));
    assert(after_m =~= whole.skip(dm.len() as int));
    assert(after_n =~= (dn + after_n).skip(dn.len() as int));
}

/// `c` has the Unicode property White_Space.
pub open spec fn is_white_space(c: char) -> bool {
    ||| '\u{9}' <= c <= '\u{d}'
    ||| c == '\u{20}'
    ||| c == '\u{85}'
    ||| c == '\u{a0}'
    ||| c == '\u{1680}'
    ||| '\u{2000}' <= c <= '\u{200a}'
    ||| c == '\u{2028}'
    ||| c == '\u{2029}'
    ||| c == '\u{202f}'
    ||| c == '\u{205f}'
    ||| c == '\u{3000}'
}

/// Nothing but white space stands in `s`.
pub open spec fn is_blank(s: Seq<char>) -> bool {
    forall|i: int| 0 <= i < s.len() ==> is_white_space(#[trigger] s[i])
}

fn white_space(c: char) -> (res: bool)
    ensures
        res == is_white_space(c),
{
    ('\u{9}' <= c && c <= '\u{d}') || c == '\u{20}' || c == '\u{85}' || c == '\u{a0}' || c
        == '\u{1680}' || ('\u{2000}' <= c && c <= '\u{200a}') || c == '\u{2028}' || c == '\u{2029}'
        || c == '\u{202f}' || c == '\u{205f}' || c == '\u{3000}'
}

/// Whether `text` is empty or holds only white space.
pub fn blank(text: &str) -> (res: bool)
    ensures
        res == is_blank(text@),
        res == (forall|i: int| 0 <= i < text@.len() ==> is_white_space(#[trigger] text@[i])),
{
    for c in it: text.chars()
        invariant
            it.seq() == text@,
            forall|i: int| 0 <= i < it.index() ==> is_white_space(#[trigger] text@[i]),
    {
        if !white_space(c) {
            assert(!is_white_space(text@[it.index()]));
            return false;
        }
    }
    true
}

/// Whether two texts are the same, character by character.
pub fn same_text(a: &str, b: &str) -> (res: bool)
    ensures
        res == (a@ == b@),
{
    a.to_owned() == b.to_owned()
}

/// A digit is one character, and a digit more behind a number that is not zero stands for ten
/// times the number and that digit.
pub proof fn law_decimal_grows_by_digits(n: nat, d: nat)
    requires
        d < 10,
    ensures
        decimal(d) == seq![(48 + d) as char],
        n > 0 ==> decimal(10 * n + d) == decimal(n) + seq![(48 + d) as char],
{
    if n > 0 {
        assert((10 * n + d) / 10 == n);
        assert((10 * n + d) % 10 == d);
        assert(decimal(10 * n + d) =~= decimal(n) + seq![(48 + d) as char]);
    }
}

proof fn lemma_unsigned_part_push(s: Seq<char>, c: char)
    requires
        s.len() > 0,
    ensures
        unsigned_part(s.push(c)) == unsigned_part(s).push(c),
        digits_value(unsigned_part(s).push(c)) == digits_value(unsigned_part(s)) * 10 + (c as nat
            - '0' as nat) as nat,
        all_digits(unsigned_part(s).push(c)) == (all_digits(unsigned_part(s)) && is_digit(c)),
{
    let digits = unsigned_part(s);
    assert(unsigned_part(s.push(c)) =~= digits.push(c));
    assert(digits.push(c).drop_last() =~= digits);
    if all_digits(digits.push(c)) {
        assert(is_digit(digits.push(c)[digits.len() as int]));
        assert forall|k: int| 0 <= k < digits.len() implies is_digit(#[trigger] digits[k]) by {
            assert(is_digit(digits.push(c)[k]));
        }
    }
}

/// A number is read from left to right: one digit is its own value, and a digit more makes ten
/// times the number and that digit, where that still fits.
pub proof fn law_number_grows_by_digits(s: Seq<char>, c: char)
    requires
        48 <= c as u32 <= 57,
    ensures
        usize_of(seq![c]) == Some((c as u32 - 48) as usize),
        usize_of(s) matches Some(n) ==> usize_of(s.push(c)) == (if 10 * n + (c as u32 - 48)
            <= usize::MAX {
            Some((10 * n + (c as u32 - 48)) as usize)
        } else {
            None
        }),
{
    let one = seq![c];
    assert(one.drop_last() =~= Seq::<char>::empty());
    assert(digits_value(one.drop_last()) == 0);
    assert(unsigned_part(one) == one);
    if s.len() > 0 {
        lemma_unsigned_part_push(s, c);
    }
}

/// Nothing but digits makes a number, and one plus sign before them: what is not a number does not
/// become one by a character more, but a lone plus sign by a digit, and a number does not stay one
/// by a character that is no digit.
pub proof fn law_only_digits_make_a_number(s: Seq<char>, c: char)
    ensures
        usize_of(Seq::empty()) is None,
        !(48 <= c as u32 <= 57) ==> usize_of(s.push(c)) is None,
        usize_of(s) is None && usize_of(s.push(c)) is Some ==> s == Seq::<char>::empty() || s
            == seq!['+'],
        48 <= c as u32 <= 57 ==> usize_of(seq!['+', c]) == Some((c as u32 - 48) as usize),
{
    assert(unsigned_part(Seq::empty()) == Seq::<char>::empty());
    let whole = s.push(c);
    if s.len() > 0 {
        lemma_unsigned_part_push(s, c);
        if unsigned_part(s).len() == 0 {
            assert(s =~= seq!['+']);
        }
    } else {
        assert(whole =~= seq![c]);
        if !is_digit(c) {
            if c == '+' {
                assert(whole.drop_first() =~= Seq::<char>::empty());
            } else {
                assert(!is_digit(unsigned_part(whole)[0]));
            }
        }
        assert(s =~= Seq::<char>::empty());
    }
    if 48 <= c as u32 <= 57 {
        assert(seq!['+', c].drop_first() =~= seq![c]);
        law_number_grows_by_digits(s, c);
        assert(unsigned_part(seq![c]) == seq![c]);
    }
}

/// White space is what Unicode gives that property, by code point.
pub proof fn law_white_space_by_code_point(c: char)
    ensures
        is_white_space(c) == ({
            let point = c as u32;
            ||| 0x9 <= point <= 0xd
            ||| point == 0x20
            ||| point == 0x85
            ||| point == 0xa0
            ||| point == 0x1680
            ||| 0x2000 <= point <= 0x200a
            ||| point == 0x2028
            ||| point == 0x2029
            ||| point == 0x202f
            ||| point == 0x205f
            ||| point == 0x3000
        }),
{
}

/// A text is blank where its parts are, and a character where it is white space: how long a text
/// is and where a character stands in it makes no difference.
pub proof fn law_blank_by_parts(a: Seq<char>, b: Seq<char>, c: char)
    ensures
        is_blank(Seq::empty()),
        is_blank(seq![c]) == is_white_space(c),
        is_blank(a + b) == (is_blank(a) && is_blank(b)),
{
    if is_blank(seq![c]) {
        assert(is_white_space(seq![c][0]));
    }
    if is_blank(a + b) {
        assert forall|i: int| 0 <= i < a.len() implies is_white_space(#[trigger] a[i]) by {
            assert(a[i] == (a + b)[i]);
        }
        assert forall|i: int| 0 <= i < b.len() implies is_white_space(#[trigger] b[i]) by {
            assert(b[i] == (a + b)[a.len() + i]);
        }
    }
}

/// A text that holds any character that is not white space is not blank, and one that is not blank
/// holds such a character.
pub proof fn law_blank_holds_nothing_else(s: Seq<char>)
    ensures
        !is_blank(s) <==> exists|i: int| 0 <= i < s.len() && !is_white_space(#[trigger] s[i]),
{
}

} // verus!

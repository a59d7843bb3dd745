//! Numerals: reading numbers in base ten and sixteen, and writing them.
use vstd::prelude::*;
use vstd::slice::slice_subrange;

verus! {

/// The number that the character stands for in the given base, if it is a
/// digit of that base. Letters count in either case.
pub open spec fn digit_value(c: char, radix: nat) -> Option<nat> {
    let x = c as nat;
    let d: int = if 48 <= x <= 57 {
        x - 48
    } else if 97 <= x <= 122 {
        x - 87
    } else if 65 <= x <= 90 {
        x - 55
    } else {
        radix as int
    };
    if d < radix {
        Some(d as nat)
    } else {
        None
    }
}

/// The number that a run of digits stands for; `None` where one of the
/// characters is no digit.
pub open spec fn digits_value(s: Seq<char>, radix: nat) -> Option<nat>
    decreases s.len(),
{
    if s.len() == 0 {
        Some(0)
    } else {
        match (digits_value(s.drop_last(), radix), digit_value(s.last(), radix)) {
            (Some(high), Some(low)) => Some(high * radix + low),
            _ => None,
        }
    }
}

/// A numeral without a minus sign: an optional plus sign, then at least one
/// digit.
pub open spec fn unsigned_value(s: Seq<char>, radix: nat) -> Option<nat> {
    let digits = if s.len() > 0 && s[0] == '+' {
        s.skip(1)
    } else {
        s
    };
    if digits.len() == 0 {
        None
    } else {
        digits_value(digits, radix)
    }
}

/// An unsigned numeral whose number is at most `max`.
pub open spec fn bounded_value(s: Seq<char>, radix: nat, max: nat) -> Option<nat> {
    match unsigned_value(s, radix) {
        Some(v) => if v <= max {
            Some(v)
        } else {
            None
        },
        None => None,
    }
}

/// A numeral with an optional sign, then at least one digit.
pub open spec fn signed_value(s: Seq<char>, radix: nat) -> Option<int> {
    if s.len() > 0 && s[0] == '-' {
        if s.len() == 1 {
            None
        } else {
            match digits_value(s.skip(1), radix) {
                Some(v) => Some(-(v as int)),
                None => None,
            }
        }
    } else {
        match unsigned_value(s, radix) {
            Some(v) => Some(v as int),
            None => None,
        }
    }
}

/// The digit that stands for `d`, in lower case.
pub open spec fn digit_char(d: nat) -> char {
    seq!['0', '1', '2', '3', '4', '5', '6', '7', '8', '9', 'a', 'b', 'c', 'd', 'e', 'f'][d as int]
}

/// `n` in base sixteen, in exactly `width` digits: the lowest ones where `n`
/// has more, with zeros in front where it has fewer.
pub open spec fn hex(n: nat, width: nat) -> Seq<char>
    decreases width,
{
    if width == 0 {
        Seq::empty()
    } else {
        hex(n / 16, (width - 1) as nat).push(digit_char(n % 16))
    }
}

/// How many numbers `width` digits in base sixteen can tell apart.
pub open spec fn hex_room(width: nat) -> nat
    decreases width,
{
    if width == 0 {
        1
    } else {
        16 * hex_room((width - 1) as nat)
    }
}

/// `n` in base ten, without zeros in front.
pub open spec fn decimal(n: nat) -> Seq<char>
    decreases n,
{
    if n < 10 {
        seq![digit_char(n)]
    } else {
        decimal(n / 10).push(digit_char(n % 10))
    }
}

proof fn lemma_digit_char(d: nat, radix: nat)
    requires
        d < radix <= 16,
    ensures
        digit_value(digit_char(d), radix) == Some(d),
        digit_char(d) != '+',
        digit_char(d) != '-',
        digit_char(d) != '.',
        digit_char(d) != ':',
        digit_char(d) != '/',
        digit_char(d) != ',',
        digit_char(d) != '=',
{
}

/// Text written by `hex` has the width asked for and is made of digits alone.
pub proof fn hex_is_digits(n: nat, width: nat)
    ensures
        hex(n, width).len() == width,
        forall|i: int|
            #![trigger hex(n, width)[i]]
            0 <= i < width ==> {
                let c = hex(n, width)[i];
                c != '+' && c != '-' && c != '.' && c != ':' && c != '/' && c != ',' && c != '='
            },
    decreases width,
{
    if width > 0 {
        hex_is_digits(n / 16, (width - 1) as nat);
        lemma_digit_char(n % 16, 16);
    }
}

/// Reading what `hex` wrote gives the number back.
pub proof fn hex_reads_back(n: nat, width: nat)
    requires
        n < hex_room(width),
    ensures
        digits_value(hex(n, width), 16) == Some(n),
    decreases width,
{
    if width > 0 {
        hex_reads_back(n / 16, (width - 1) as nat);
        lemma_digit_char(n % 16, 16);
        assert(hex(n, width).drop_last() =~= hex(n / 16, (width - 1) as nat));
    }
}

/// Reading what `hex` wrote gives the number back, as an unsigned and as a
/// signed numeral.
pub proof fn hex_numeral_reads_back(n: nat, width: nat)
    requires
        width > 0,
        n < hex_room(width),
    ensures
        unsigned_value(hex(n, width), 16) == Some(n),
        signed_value(hex(n, width), 16) == Some(n as int),
{
    hex_is_digits(n, width);
    hex_reads_back(n, width);
    assert(hex(n, width)[0] != '+');
    assert(hex(n, width)[0] != '-');
}

/// Text written by `decimal` has at least one digit and no plus sign.
proof fn lemma_decimal_is_digits(n: nat)
    ensures
        decimal(n).len() > 0,
        decimal(n)[0] != '+',
    decreases n,
{
    if n < 10 {
        lemma_digit_char(n, 10);
    } else {
        lemma_decimal_is_digits(n / 10);
    }
}

proof fn lemma_decimal_value(n: nat)
    ensures
        digits_value(decimal(n), 10) == Some(n),
    decreases n,
{
    if n < 10 {
        lemma_digit_char(n, 10);
        assert(decimal(n).drop_last() =~= Seq::<char>::empty());
        assert(digits_value(decimal(n).drop_last(), 10) == Some(0nat));
    } else {
        lemma_decimal_value(n / 10);
        lemma_digit_char(n % 10, 10);
        assert(decimal(n).drop_last() =~= decimal(n / 10));
    }
}

/// Reading what `decimal` wrote gives the number back.
pub proof fn decimal_reads_back(n: nat)
    ensures
        unsigned_value(decimal(n), 10) == Some(n),
{
    lemma_decimal_is_digits(n);
    lemma_decimal_value(n);
}

proof fn lemma_digits_grow(s: Seq<char>, radix: nat, k: int)
    requires
        0 <= k <= s.len(),
        radix >= 1,
    ensures
        digits_value(s, radix) is Some ==> digits_value(s.take(k), radix) is Some,
        digits_value(s, radix) is Some ==> digits_value(s.take(k), radix)->0 <= digits_value(
            s,
            radix,
        )->0,
    decreases s.len() - k,
{
    if k == s.len() {
        assert(s.take(k) =~= s);
    } else {
        lemma_digits_grow(s, radix, k + 1);
        let longer = s.take(k + 1);
        assert(longer.drop_last() =~= s.take(k));
        if digits_value(longer, radix) is Some {
            let high = digits_value(s.take(k), radix)->0;
            assert(high <= high * radix) by (nonlinear_arith)
                requires
                    radix >= 1,
            ;
        }
    }
}

/// The number that the character stands for in the given base.
pub fn digit_of(c: char, radix: u32) -> (r: Option<u32>)
    requires
        radix <= 16,
    ensures
        match r {
            Some(d) => digit_value(c, radix as nat) == Some(d as nat) && d < radix,
            None => digit_value(c, radix as nat) is None,
        },
{
    let x = c as u32;
    let d: u32 = if 48 <= x && x <= 57 {
        x - 48
    } else if 97 <= x && x <= 122 {
        x - 87
    } else if 65 <= x && x <= 90 {
        x - 55
    } else {
        radix
    };
    if d < radix {
        Some(d)
    } else {
        None
    }
}

/// Reads a run of digits whose number is at most `max`.
pub fn parse_digits(chars: &[char], radix: u32, max: u32) -> (r: Option<u32>)
    requires
        1 <= radix <= 16,
    ensures
        match r {
            Some(v) => digits_value(chars@, radix as nat) == Some(v as nat) && v <= max,
            None => digits_value(chars@, radix as nat) matches Some(v) ==> v > max,
        },
{
    let mut value: u32 = 0;
    assert(chars@.take(0) =~= Seq::<char>::empty());
    for i in 0..chars.len()
        invariant
            1 <= radix <= 16,
            value <= max,
            digits_value(chars@.take(i as int), radix as nat) == Some(value as nat),
    {
        proof {
            lemma_digits_grow(chars@, radix as nat, i + 1);
            assert(chars@.take(i + 1).drop_last() =~= chars@.take(i as int));
            assert(value * radix <= 0xffff_ffff * 16) by (nonlinear_arith)
                requires
                    0 <= value <= 0xffff_ffff,
                    0 <= radix <= 16,
            ;
        }
        match digit_of(chars[i], radix) {
            None => {
                return None;
            },
            Some(d) => {
                let next: u64 = (value as u64) * (radix as u64) + (d as u64);
                if next > max as u64 {
                    return None;
                }
                value = next as u32;
            },
        }
    }
    assert(chars@.take(chars@.len() as int) =~= chars@);
    Some(value)
}

/// Reads an unsigned numeral whose number is at most `max`.
pub fn parse_bounded(chars: &[char], radix: u32, max: u32) -> (r: Option<u32>)
    requires
        1 <= radix <= 16,
    ensures
        match r {
            Some(v) => bounded_value(chars@, radix as nat, max as nat) == Some(v as nat) && v
                <= max,
            None => bounded_value(chars@, radix as nat, max as nat) is None,
        },
{
    let start: usize = if chars.len() > 0 && chars[0] == '+' {
        1
    } else {
        0
    };
    if start == chars.len() {
        return None;
    }
    let digits = slice_subrange(chars, start, chars.len());
    proof {
        if start == 1 {
            assert(digits@ =~= chars@.skip(1));
        } else {
            assert(digits@ =~= chars@);
        }
    }
    parse_digits(digits, radix, max)
}

/// Whether every character is a digit of the base.
pub fn all_digits(chars: &[char], radix: u32) -> (r: bool)
    requires
        1 <= radix <= 16,
    ensures
        r == digits_value(chars@, radix as nat) is Some,
{
    for i in 0..chars.len()
        invariant
            1 <= radix <= 16,
            forall|k: int| 0 <= k < i ==> digit_value(#[trigger] chars@[k], radix as nat) is Some,
    {
        if digit_of(chars[i], radix).is_none() {
            proof {
                lemma_digits_grow(chars@, radix as nat, i + 1);
                assert(chars@.take(i + 1).last() == chars@[i as int]);
            }
            return false;
        }
    }
    proof {
        lemma_all_digits(chars@, radix as nat);
    }
    true
}

/// Reads a signed numeral and gives its number where it lies between zero and
/// `max`.
pub fn parse_signed_bounded(chars: &[char], radix: u32, max: u32) -> (r: Option<Option<u32>>)
    requires
        1 <= radix <= 16,
    ensures
        match r {
            None => signed_value(chars@, radix as nat) is None,
            Some(None) => signed_value(chars@, radix as nat) matches Some(v) && !(0 <= v <= max),
            Some(Some(n)) => signed_value(chars@, radix as nat) == Some(n as int) && n <= max,
        },
{
    let minus = chars.len() > 0 && chars[0] == '-';
    let start: usize = if chars.len() > 0 && (chars[0] == '+' || chars[0] == '-') {
        1
    } else {
        0
    };
    if start == chars.len() {
        return None;
    }
    let digits = slice_subrange(chars, start, chars.len());
    proof {
        if start == 1 {
            assert(digits@ =~= chars@.skip(1));
        } else {
            assert(digits@ =~= chars@);
        }
    }
    if !all_digits(digits, radix) {
        return None;
    }
    match parse_digits(digits, radix, max) {
        None => Some(None),
        Some(n) => if minus && n > 0 {
            Some(None)
        } else {
            Some(Some(n))
        },
    }
}

proof fn lemma_all_digits(s: Seq<char>, radix: nat)
    requires
        forall|k: int| 0 <= k < s.len() ==> digit_value(#[trigger] s[k], radix) is Some,
    ensures
        digits_value(s, radix) is Some,
    decreases s.len(),
{
    if s.len() > 0 {
        assert forall|k: int| 0 <= k < s.len() - 1 implies digit_value(
            #[trigger] s.drop_last()[k],
            radix,
        ) is Some by {
            assert(s.drop_last()[k] == s[k]);
        }
        lemma_all_digits(s.drop_last(), radix);
        assert(s.last() == s[s.len() - 1]);
    }
}

/// The digit that stands for `d`.
pub fn digit_letter(d: u32) -> (r: char)
    requires
        d < 16,
    ensures
        r == digit_char(d as nat),
{
    let digits: [char; 16] = [
        '0', '1', '2', '3', '4', '5', '6', '7', '8', '9', 'a', 'b', 'c', 'd', 'e', 'f',
    ];
    digits[d as usize]
}

/// Writes `n` in base sixteen, in exactly `width` digits.
pub fn hex_text(n: u32, width: usize) -> (r: String)
    ensures
        r@ == hex(n as nat, width as nat),
    decreases width,
{
    if width == 0 {
        String::new()
    } else {
        let mut r = hex_text(n / 16, width - 1);
        r.push(digit_letter(n % 16));
        r
    }
}

/// Writes `n` in base ten.
pub fn decimal_text(n: u32) -> (r: String)
    ensures
        r@ == decimal(n as nat),
    decreases n,
{
    if n < 10 {
        let mut r = String::new();
        r.push(digit_letter(n));
        assert(r@ =~= decimal(n as nat));
        r
    } else {
        let mut r = decimal_text(n / 10);
        r.push(digit_letter(n % 10));
        r
    }
}

} // verus!

//! Names of the output files: `frame_0000.png`, `frame_0001.png`, and so on.

use vstd::prelude::*;
use vstd::string::*;

verus! {

/// The least number of digits in a file name.
pub const INDEX_WIDTH: usize = 4;

/// The character of a decimal digit.
pub open spec fn digit_char(digit: nat) -> char {
    if digit == 0 {
        '0'
    } else if digit == 1 {
        '1'
    } else if digit == 2 {
        '2'
    } else if digit == 3 {
        '3'
    } else if digit == 4 {
        '4'
    } else if digit == 5 {
        '5'
    } else if digit == 6 {
        '6'
    } else if digit == 7 {
        '7'
    } else if digit == 8 {
        '8'
    } else {
        '9'
    }
}

/// The decimal digits of `n`, most significant first, without leading zeros.
pub open spec fn decimal(n: nat) -> Seq<char>
    decreases n,
{
    if n < 10 {
        seq![digit_char(n)]
    } else {
        decimal(n / 10).push(digit_char(n % 10))
    }
}

/// The decimal digits of `n`, with zeros in front up to `width` digits.
pub open spec fn zero_padded(n: nat, width: nat) -> Seq<char> {
    let digits = decimal(n);
    if digits.len() >= width {
        digits
    } else {
        Seq::new((width - digits.len()) as nat, |i: int| '0') + digits
    }
}

/// The file name of output frame `index`.
pub open spec fn frame_file_name_spec(index: nat) -> Seq<char> {
    seq!['f', 'r', 'a', 'm', 'e', '_'] + zero_padded(index, INDEX_WIDTH as nat) + seq![
        '.',
        'p',
        'n',
        'g',
    ]
}

/// A number below `10^k` has at most `k` decimal digits, for `k` up to four,
/// and a number from 1000 on has at least four.
pub proof fn lemma_decimal_len(n: nat)
    ensures
        decimal(n).len() >= 1,
        n < 10 <==> decimal(n).len() == 1,
        10 <= n < 100 <==> decimal(n).len() == 2,
        100 <= n < 1000 <==> decimal(n).len() == 3,
        1000 <= n <==> decimal(n).len() >= 4,
    decreases n,
{
    if n >= 10 {
        lemma_decimal_len(n / 10);
    }
}

/// Whether the characters up to `k` agree and `a` then comes first: either
/// `a` ends at `k` and `b` goes on, or `a` has the smaller character there.
pub open spec fn parts_at(a: Seq<char>, b: Seq<char>, k: int) -> bool {
    &&& 0 <= k <= a.len()
    &&& k < b.len()
    &&& forall|i: int| 0 <= i < k ==> a[i] == b[i]
    &&& k < a.len() ==> (a[k] as int) < (b[k] as int)
}

/// Whether `a` sorts strictly before `b`, character by character.
pub open spec fn sorts_before(a: Seq<char>, b: Seq<char>) -> bool {
    exists|k: int| parts_at(a, b, k)
}

/// The digits of a number below ten thousand, most significant first.
pub open spec fn four_digits(n: nat) -> (nat, nat, nat, nat) {
    (n / 10 / 10 / 10, (n / 10 / 10) % 10, (n / 10) % 10, n % 10)
}

/// An index below ten thousand is written with exactly four digits.
pub proof fn lemma_four_digits(n: nat)
    requires
        n < 10000,
    ensures
        zero_padded(n, INDEX_WIDTH as nat) == seq![
            digit_char(four_digits(n).0),
            digit_char(four_digits(n).1),
            digit_char(four_digits(n).2),
            digit_char(four_digits(n).3),
        ],
{
    reveal_with_fuel(decimal, 4);
    lemma_decimal_len(n);
    assert(zero_padded(n, INDEX_WIDTH as nat) =~= seq![
        digit_char(four_digits(n).0),
        digit_char(four_digits(n).1),
        digit_char(four_digits(n).2),
        digit_char(four_digits(n).3),
    ]);
}

/// A smaller digit has the smaller character.
pub proof fn lemma_digit_order(x: nat, y: nat)
    requires
        x < y < 10,
    ensures
        (digit_char(x) as int) < (digit_char(y) as int),
{
}

/// Of two numbers below ten thousand the smaller one has the smaller digit
/// at the first place where their digits differ.
pub proof fn lemma_first_difference(x: nat, y: nat)
    requires
        x < y < 10000,
    ensures
        ({
            let (x3, x2, x1, x0) = four_digits(x);
            let (y3, y2, y1, y0) = four_digits(y);
            &&& x3 < 10 && x2 < 10 && x1 < 10 && x0 < 10
            &&& y3 < 10 && y2 < 10 && y1 < 10 && y0 < 10
            &&& x3 < y3 || (x3 == y3 && (x2 < y2 || (x2 == y2 && (x1 < y1 || (x1 == y1 && x0
                < y0)))))
        }),
{
}

/// The name of a frame below ten thousand: fourteen characters, the four
/// digits of the index after the first six.
pub proof fn lemma_name_characters(index: nat)
    requires
        index < 10000,
    ensures
        ({
            let name = frame_file_name_spec(index);
            let (d3, d2, d1, d0) = four_digits(index);
            &&& name.len() == 14
            &&& name.take(6) == seq!['f', 'r', 'a', 'm', 'e', '_']
            &&& name[6] == digit_char(d3)
            &&& name[7] == digit_char(d2)
            &&& name[8] == digit_char(d1)
            &&& name[9] == digit_char(d0)
        }),
{
    lemma_four_digits(index);
    let name = frame_file_name_spec(index);
    assert(name.take(6) =~= seq!['f', 'r', 'a', 'm', 'e', '_']);
}

proof fn lemma_sorts_at(a: Seq<char>, b: Seq<char>, k: int)
    requires
        a.len() == b.len(),
        6 <= k < a.len(),
        a.take(6) == b.take(6),
        forall|i: int| 6 <= i < k ==> a[i] == b[i],
        (a[k] as int) < (b[k] as int),
    ensures
        sorts_before(a, b),
{
    assert forall|i: int| 0 <= i < k implies a[i] == b[i] by {
        if i < 6 {
            assert(a.take(6)[i] == a[i]);
            assert(b.take(6)[i] == b[i]);
        }
    }
    assert(parts_at(a, b, k));
}

/// Below ten thousand frames the names sort as the frames do: the name of
/// an earlier frame comes strictly before the name of a later one, and both
/// have the same length.
pub proof fn lemma_names_sort_in_frame_order(earlier: nat, later: nat)
    requires
        earlier < later < 10000,
    ensures
        sorts_before(frame_file_name_spec(earlier), frame_file_name_spec(later)),
        frame_file_name_spec(earlier).len() == frame_file_name_spec(later).len(),
{
    lemma_name_characters(earlier);
    lemma_name_characters(later);
    lemma_first_difference(earlier, later);
    let a = frame_file_name_spec(earlier);
    let b = frame_file_name_spec(later);
    let (a3, a2, a1, a0) = four_digits(earlier);
    let (b3, b2, b1, b0) = four_digits(later);
    if a3 != b3 {
        lemma_digit_order(a3, b3);
        lemma_sorts_at(a, b, 6);
    } else if a2 != b2 {
        lemma_digit_order(a2, b2);
        lemma_sorts_at(a, b, 7);
    } else if a1 != b1 {
        lemma_digit_order(a1, b1);
        lemma_sorts_at(a, b, 8);
    } else {
        lemma_digit_order(a0, b0);
        lemma_sorts_at(a, b, 9);
    }
}

fn digit_str(digit: usize) -> (out: &'static str)
    requires
        digit < 10,
    ensures
        out@ == seq![digit_char(digit as nat)],
{
    proof {
        reveal_strlit("0");
        reveal_strlit("1");
        reveal_strlit("2");
        reveal_strlit("3");
        reveal_strlit("4");
        reveal_strlit("5");
        reveal_strlit("6");
        reveal_strlit("7");
        reveal_strlit("8");
        reveal_strlit("9");
    }
    let out = if digit == 0 {
        "0"
    } else if digit == 1 {
        "1"
    } else if digit == 2 {
        "2"
    } else if digit == 3 {
        "3"
    } else if digit == 4 {
        "4"
    } else if digit == 5 {
        "5"
    } else if digit == 6 {
        "6"
    } else if digit == 7 {
        "7"
    } else if digit == 8 {
        "8"
    } else {
        "9"
    };
    assert(out@ =~= seq![digit_char(digit as nat)]);
    out
}

fn push_decimal(name: &mut String, n: usize)
    ensures
        final(name)@ == old(name)@ + decimal(n as nat),
    decreases n,
{
    if n >= 10 {
        push_decimal(name, n / 10);
    }
    name.append(digit_str(n % 10));
    assert(name@ =~= old(name)@ + decimal(n as nat));
}

/// The file name of output frame `index`: `frame_`, the index in decimal
/// with zeros in front up to four digits, and `.png`.
pub fn frame_file_name(index: usize) -> (out: String)
    ensures
        out@ == frame_file_name_spec(index as nat),
{
    proof {
        reveal_strlit("frame_");
        reveal_strlit("000");
        reveal_strlit("00");
        reveal_strlit("0");
        reveal_strlit(".png");
        lemma_decimal_len(index as nat);
    }
    let mut name = String::from_str("frame_");
    if index < 10 {
        name.append("000");
    } else if index < 100 {
        name.append("00");
    } else if index < 1000 {
        name.append("0");
    }
    assert(name@ =~= seq!['f', 'r', 'a', 'm', 'e', '_'] + Seq::new(
        (name@.len() - 6) as nat,
        |i: int| '0',
    ));
    push_decimal(&mut name, index);
    name.append(".png");
    assert(name@ =~= frame_file_name_spec(index as nat));
    name
}

} // verus!

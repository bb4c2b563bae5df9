//! What holds of texts.

use vstd::prelude::*;

#[allow(unused_imports)]
use crate::text::{
    decimal, digit, hex, hex_digit, hex_digits, joined, left_aligned, lower, lower_char, right_aligned, trimmed,
    trimmed_end, trimmed_start, white_space,
};

verus! {

// ---------------------------------------------------------------------------
// Numbers
// ---------------------------------------------------------------------------

/// The number that decimal digits spell.
pub open spec fn number(s: Seq<char>) -> int
    decreases s.len(),
{
    if s.len() == 0 {
        0
    } else {
        10 * number(s.drop_last()) + (s.last() as int - '0' as int)
    }
}

/// A number in decimal is spelled with digits alone, without a leading zero, and
/// reads back as the number; so different numbers are spelled differently.
pub proof fn law_decimal_spells_the_number(n: nat)
    ensures
        number(decimal(n)) == n,
        decimal(n).len() > 0,
        forall|i: int| 0 <= i < decimal(n).len() ==> '0' <= #[trigger] decimal(n)[i] <= '9',
        n > 0 ==> decimal(n)[0] != '0',
        n < 10 <==> decimal(n).len() == 1,
    decreases n,
{
    reveal_with_fuel(number, 2);
    if n >= 10 {
        law_decimal_spells_the_number(n / 10);
        let front = decimal(n / 10);
        let all = decimal(n);
        assert(all.drop_last() =~= front);
        assert(all.last() == digit(n % 10));
        assert forall|i: int| 0 <= i < all.len() implies '0' <= #[trigger] all[i] <= '9' by {
            if i < front.len() {
                assert(all[i] == front[i]);
            }
        }
        assert(all[0] == front[0]);
    } else {
        assert(decimal(n).drop_last() =~= Seq::<char>::empty());
    }
}

/// The value of a hexadecimal digit.
pub open spec fn hex_value(c: char) -> int {
    if '0' <= c <= '9' {
        c as int - '0' as int
    } else {
        c as int - 'A' as int + 10
    }
}

/// The number that hexadecimal digits spell.
pub open spec fn hex_number(s: Seq<char>) -> int
    decreases s.len(),
{
    if s.len() == 0 {
        0
    } else {
        16 * hex_number(s.drop_last()) + hex_value(s.last())
    }
}

proof fn lemma_hex_digits(n: nat)
    ensures
        hex_number(hex_digits(n)) == n,
        hex_digits(n).len() > 0,
        n > 0 ==> hex_digits(n)[0] != '0',
    decreases n,
{
    reveal_with_fuel(hex_number, 2);
    if n >= 16 {
        lemma_hex_digits(n / 16);
        let all = hex_digits(n);
        assert(all.drop_last() =~= hex_digits(n / 16));
        assert(all.last() == hex_digit(n % 16));
        assert(all[0] == hex_digits(n / 16)[0]);
    } else {
        assert(hex_digits(n).drop_last() =~= Seq::<char>::empty());
    }
}

/// A number in hexadecimal reads back as the number, behind `0x` and without a
/// leading zero.
pub proof fn law_hex_spells_the_number(n: nat)
    ensures
        hex(n).len() > 2,
        hex(n)[0] == '0' && hex(n)[1] == 'x',
        hex_number(hex(n).skip(2)) == n,
        n > 0 ==> hex(n)[2] != '0',
{
    reveal_strlit("0x");
    lemma_hex_digits(n);
    assert(hex(n).skip(2) =~= hex_digits(n));
}

// ---------------------------------------------------------------------------
// Padding and joining
// ---------------------------------------------------------------------------

/// Whether a text is spaces alone.
pub open spec fn blank(s: Seq<char>) -> bool {
    forall|i: int| 0 <= i < s.len() ==> #[trigger] s[i] == ' '
}

/// A text in a column stands at its right or left end, with spaces to fill the
/// column and no more; a text that is longer is shown whole.
pub proof fn law_columns_are_filled(s: Seq<char>, width: nat)
    ensures
        right_aligned(s, width).len() == if s.len() < width {
            width
        } else {
            s.len()
        },
        left_aligned(s, width).len() == right_aligned(s, width).len(),
        right_aligned(s, width).skip(right_aligned(s, width).len() - s.len()) == s,
        blank(right_aligned(s, width).take(right_aligned(s, width).len() - s.len())),
        left_aligned(s, width).take(s.len() as int) == s,
        blank(left_aligned(s, width).skip(s.len() as int)),
{
    assert(right_aligned(s, width).skip(right_aligned(s, width).len() - s.len()) =~= s);
    assert(left_aligned(s, width).take(s.len() as int) =~= s);
}

/// Joined texts stand one after the other with the separator between, none in
/// front and none behind.
pub proof fn law_joined_texts(parts: Seq<Seq<char>>, last: Seq<char>, sep: Seq<char>)
    ensures
        joined(Seq::<Seq<char>>::empty(), sep).len() == 0,
        joined(seq![last], sep) == last,
        parts.len() > 0 ==> joined(parts.push(last), sep) == joined(parts, sep) + sep + last,
{
    assert(parts.push(last).drop_last() =~= parts);
}

// ---------------------------------------------------------------------------
// Trimming and letter case
// ---------------------------------------------------------------------------

/// Whether a text is white space alone.
pub open spec fn all_white(s: Seq<char>) -> bool {
    forall|i: int| 0 <= i < s.len() ==> white_space(#[trigger] s[i])
}

proof fn lemma_trimmed_start(s: Seq<char>) -> (k: int)
    ensures
        0 <= k <= s.len(),
        trimmed_start(s) == s.skip(k),
        all_white(s.take(k)),
        k < s.len() ==> !white_space(s[k]),
    decreases s.len(),
{
    if s.len() > 0 && white_space(s[0]) {
        let j = lemma_trimmed_start(s.drop_first());
        assert(s.drop_first().skip(j) =~= s.skip(j + 1));
        assert forall|i: int| 0 <= i < j + 1 implies white_space(#[trigger] s.take(j + 1)[i]) by {
            if i > 0 {
                assert(s.drop_first().take(j)[i - 1] == s[i]);
            }
        }
        if j + 1 < s.len() {
            assert(s.drop_first()[j] == s[j + 1]);
        }
        j + 1
    } else {
        assert(s.skip(0) =~= s);
        0
    }
}

proof fn lemma_trimmed_end(s: Seq<char>) -> (k: int)
    ensures
        0 <= k <= s.len(),
        trimmed_end(s) == s.take(k),
        all_white(s.skip(k)),
        k > 0 ==> !white_space(s[k - 1]),
    decreases s.len(),
{
    if s.len() > 0 && white_space(s.last()) {
        let j = lemma_trimmed_end(s.drop_last());
        assert(s.drop_last().take(j) =~= s.take(j));
        assert forall|i: int| 0 <= i < s.len() - j implies white_space(#[trigger] s.skip(j)[i]) by {
            if i + j < s.len() - 1 {
                assert(s.drop_last().skip(j)[i] == s[i + j]);
            }
        }
        j
    } else {
        assert(s.take(s.len() as int) =~= s);
        s.len() as int
    }
}

/// Trimming takes white space off both ends and nothing else: what is left is a
/// part of the text, begins and ends with something else, and what was taken off
/// is white space.
pub proof fn law_trimming_takes_white_space_off(s: Seq<char>)
    ensures
        exists|a: int, b: int| {
            &&& 0 <= a <= b <= s.len()
            &&& trimmed(s) == #[trigger] s.subrange(a, b)
            &&& all_white(s.take(a))
            &&& all_white(s.skip(b))
        },
        trimmed(s).len() > 0 ==> !white_space(trimmed(s)[0]) && !white_space(trimmed(s).last()),
        trimmed(s).len() == 0 <==> all_white(s),
{
    let a = lemma_trimmed_start(s);
    let mid = s.skip(a);
    let k = lemma_trimmed_end(mid);
    let b = a + k;
    assert(trimmed(s) =~= s.subrange(a, b));
    assert(mid.skip(k) =~= s.skip(b));
    if k > 0 {
        assert(trimmed(s)[0] == s[a]);
        assert(trimmed(s).last() == mid[k - 1]);
        assert(!white_space(s[a]));
        assert(!all_white(s)) by {
            if all_white(s) {
                assert(white_space(s[a]));
            }
        }
    } else {
        assert forall|i: int| 0 <= i < s.len() implies white_space(#[trigger] s[i]) by {
            if i < a {
                assert(s.take(a)[i] == s[i]);
            } else {
                assert(mid.skip(0)[i - a] == s[i]);
            }
        }
    }
}

/// The blanks that a keyboard gives are white space, and no letter, digit or sign
/// is.
pub proof fn law_white_space(c: char)
    ensures
        c == ' ' || c == '\t' || c == '\n' || c == '\r' ==> white_space(c),
        '!' <= c <= '~' ==> !white_space(c),
{
}

/// Lower case changes Latin capitals to their small letters, each in its place,
/// and nothing else.
pub proof fn law_lower_case(s: Seq<char>)
    ensures
        lower(s).len() == s.len(),
        forall|i: int|
            0 <= i < s.len() ==> if 'A' <= s[i] <= 'Z' {
                #[trigger] lower(s)[i] as int == s[i] as int - 'A' as int + 'a' as int
            } else {
                lower(s)[i] == s[i]
            },
{
    assert forall|i: int| 0 <= i < s.len() implies if 'A' <= s[i] <= 'Z' {
        #[trigger] lower(s)[i] as int == s[i] as int - 'A' as int + 'a' as int
    } else {
        lower(s)[i] == s[i]
    } by {
        assert(lower(s)[i] == lower_char(s[i]));
    }
}

} // verus!

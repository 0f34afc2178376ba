//! Text shown in the editor: digits, case folding, comparison and elision.

use vstd::prelude::*;
use vstd::string::*;

verus! {

/// The character of a decimal digit.
pub open spec fn digit(n: nat) -> char
    recommends
        n < 10,
{
    (48 + n) as char
}

/// `n` in decimal, without leading zeros.
pub open spec fn decimal_text(n: nat) -> Seq<char>
    decreases n,
{
    if n < 10 {
        seq![digit(n)]
    } else {
        decimal_text(n / 10).push(digit(n % 10))
    }
}

/// One digit as text.
fn digit_text(n: u64) -> (text: &'static str)
    requires
        n < 10,
    ensures
        text@ == seq![digit(n as nat)],
{
    proof {
        reveal_strlit("0");
        reveal_strlit("1");
        reveal_strlit("2");
        reveal_strlit("3");
        reveal_strlit("4");
        reveal_strlit("5");
        reveal_strlit("6");
        reveal_strlit("7");
        reveal_strlit("8");
        reveal_strlit("9");
    }
    if n == 0 {
        "0"
    } else if n == 1 {
        "1"
    } else if n == 2 {
        "2"
    } else if n == 3 {
        "3"
    } else if n == 4 {
        "4"
    } else if n == 5 {
        "5"
    } else if n == 6 {
        "6"
    } else if n == 7 {
        "7"
    } else if n == 8 {
        "8"
    } else {
        "9"
    }
}

/// Writes `n` in decimal.
pub fn decimal(n: u64) -> (text: String)
    ensures
        text@ == decimal_text(n as nat),
    decreases n,
{
    if n < 10 {
        String::from_str(digit_text(n))
    } else {
        let mut text: String = decimal(n / 10);
        text.append(digit_text(n % 10));
        proof {
            assert(decimal_text(n as nat / 10) + seq![digit(n as nat % 10)] =~= decimal_text(
                n as nat,
            ));
        }
        text
    }
}

/// The number that decimal digits spell.
pub open spec fn spelled(digits: Seq<char>) -> int
    decreases digits.len(),
{
    if digits.len() == 0 {
        0
    } else {
        10 * spelled(digits.drop_last()) + (digits.last() as int - '0' as int)
    }
}

/// What is written in decimal reads back: every character is a digit, they spell
/// the number, and the first is no zero unless the number is.
pub proof fn law_decimals_read_back(n: nat)
    ensures
        spelled(decimal_text(n)) == n,
        decimal_text(n).len() > 0,
        forall|i: int| 0 <= i < decimal_text(n).len() ==> '0' <= #[trigger] decimal_text(n)[i] <= '9',
        n > 0 ==> decimal_text(n)[0] != '0',
    decreases n,
{
    reveal_with_fuel(spelled, 2);
    if n >= 10 {
        law_decimals_read_back(n / 10);
        let shorter = decimal_text(n / 10);
        assert(decimal_text(n).drop_last() =~= shorter);
        assert(digit(n % 10) as int == 48 + n % 10);
        assert forall|i: int| 0 <= i < decimal_text(n).len() implies '0'
            <= #[trigger] decimal_text(n)[i] <= '9' by {
            if i < shorter.len() {
                assert(decimal_text(n)[i] == shorter[i]);
            }
        }
        assert(decimal_text(n)[0] == shorter[0]);
    } else {
        assert(digit(n) as int == 48 + n);
        assert(seq![digit(n)].drop_last() =~= Seq::<char>::empty());
    }
}

// ---------------------------------------------------------------------------
// Case
// ---------------------------------------------------------------------------

/// A text is ASCII if each of its characters is below 128.
pub proof fn law_ascii_texts(text: Seq<char>)
    ensures
        all_ascii(text) <==> forall|i: int| 0 <= i < text.len() ==> (#[trigger] text[i] as int)
            <= 127,
{
}

/// The small and the capital form of an ASCII letter are 32 code points apart,
/// and everything else is its own form.
pub proof fn law_ascii_case(c: char)
    requires
        (c as int) < 0x80,
    ensures
        97 <= c as int <= 122 ==> ascii_upper(c) as int == c as int - 32 && ascii_lower(
            ascii_upper(c),
        ) == c,
        65 <= c as int <= 90 ==> ascii_lower(c) as int == c as int + 32 && ascii_upper(
            ascii_lower(c),
        ) == c,
        !(97 <= c as int <= 122) ==> ascii_upper(c) == c,
        !(65 <= c as int <= 90) ==> ascii_lower(c) == c,
{
}

/// What `str::to_lowercase` makes of a text.
pub uninterp spec fn lowercase_text(text: Seq<char>) -> Seq<char>;

/// What `str::to_uppercase` makes of a text.
pub uninterp spec fn uppercase_text(text: Seq<char>) -> Seq<char>;

/// Whether every character is ASCII.
pub open spec fn all_ascii(text: Seq<char>) -> bool {
    forall|i: int| 0 <= i < text.len() ==> (#[trigger] text[i] as int) < 0x80
}

/// An ASCII letter in lower case; anything else as it is.
pub open spec fn ascii_lower(c: char) -> char {
    if 'A' <= c && c <= 'Z' {
        (c as int + 32) as char
    } else {
        c
    }
}

/// An ASCII letter in upper case; anything else as it is.
pub open spec fn ascii_upper(c: char) -> char {
    if 'a' <= c && c <= 'z' {
        (c as int - 32) as char
    } else {
        c
    }
}

/// Wraps `str::to_lowercase`, which maps a text by the Unicode tables alone. On
/// ASCII text it maps each letter `A` to `Z` to its small form and keeps the
/// rest.
#[verifier::external_body]
pub(crate) fn lowercase(text: &str) -> (lowered: String)
    ensures
        lowered@ == lowercase_text(text@),
        all_ascii(text@) ==> lowered@ == text@.map_values(|c: char| ascii_lower(c)),
{
    text.to_lowercase()
}

/// Wraps `str::to_uppercase`, which maps a text by the Unicode tables alone. On
/// ASCII text it maps each letter `a` to `z` to its capital and keeps the rest.
#[verifier::external_body]
pub(crate) fn uppercase(text: &str) -> (raised: String)
    ensures
        raised@ == uppercase_text(text@),
        all_ascii(text@) ==> raised@ == text@.map_values(|c: char| ascii_upper(c)),
{
    text.to_uppercase()
}

// ---------------------------------------------------------------------------
// Order
// ---------------------------------------------------------------------------

/// Whether `left` comes before `right` in code point order.
pub open spec fn precedes(left: Seq<char>, right: Seq<char>) -> bool
    decreases left.len(),
{
    if right.len() == 0 {
        false
    } else if left.len() == 0 {
        true
    } else if left[0] != right[0] {
        left[0] < right[0]
    } else {
        precedes(left.drop_first(), right.drop_first())
    }
}

/// The order is total.
pub proof fn lemma_precedes_total(a: Seq<char>, b: Seq<char>)
    ensures
        a == b ==> !precedes(a, b),
        precedes(a, b) ==> !precedes(b, a),
        a == b || precedes(a, b) || precedes(b, a),
    decreases a.len(),
{
    if a.len() == 0 && b.len() == 0 {
        assert(a =~= b);
    } else if a.len() > 0 && b.len() > 0 && a[0] == b[0] {
        lemma_precedes_total(a.drop_first(), b.drop_first());
        if a.drop_first() == b.drop_first() {
            assert(a =~= seq![a[0]] + a.drop_first());
            assert(b =~= seq![b[0]] + b.drop_first());
        }
    }
}

/// The order is transitive.
pub proof fn lemma_precedes_transitive(a: Seq<char>, b: Seq<char>, c: Seq<char>)
    requires
        precedes(a, b),
        precedes(b, c),
    ensures
        precedes(a, c),
    decreases a.len(),
{
    if a.len() > 0 && a[0] == b[0] && b[0] == c[0] {
        lemma_precedes_transitive(a.drop_first(), b.drop_first(), c.drop_first());
    }
}

/// Order is decided by the first character that differs, the smaller code point
/// coming first, and a text comes before every longer one that begins with it.
pub proof fn law_the_first_difference_decides(
    common: Seq<char>,
    a: char,
    b: char,
    left: Seq<char>,
    right: Seq<char>,
)
    ensures
        a != b ==> precedes(common + seq![a] + left, common + seq![b] + right) == ((a as int) < (
        b as int)),
        precedes(common, common + seq![b] + right),
        !precedes(common + seq![b] + right, common),
    decreases common.len(),
{
    let one = common + seq![a] + left;
    let other = common + seq![b] + right;
    if common.len() > 0 {
        let shorter = common.drop_first();
        law_the_first_difference_decides(shorter, a, b, left, right);
        assert(one.drop_first() =~= shorter + seq![a] + left);
        assert(other.drop_first() =~= shorter + seq![b] + right);
        assert(one[0] == common[0] && other[0] == common[0]);
    }
}

/// Compares two texts in code point order.
pub fn comes_before(left: &str, right: &str) -> (yes: bool)
    ensures
        yes == precedes(left@, right@),
{
    let left_length: usize = left.unicode_len();
    let right_length: usize = right.unicode_len();
    let mut i: usize = 0;
    assert(left@.skip(0) =~= left@);
    assert(right@.skip(0) =~= right@);
    while i < left_length && i < right_length
        invariant
            left_length == left@.len(),
            right_length == right@.len(),
            i <= left_length,
            i <= right_length,
            precedes(left@, right@) == precedes(left@.skip(i as int), right@.skip(i as int)),
        decreases left_length - i,
    {
        let a: char = left.get_char(i);
        let b: char = right.get_char(i);
        assert(left@.skip(i as int)[0] == a);
        assert(right@.skip(i as int)[0] == b);
        if a != b {
            return a < b;
        }
        assert(left@.skip(i as int).drop_first() =~= left@.skip(i + 1));
        assert(right@.skip(i as int).drop_first() =~= right@.skip(i + 1));
        i = i + 1;
    }
    i < right_length
}

/// Whether two texts are the same.
pub fn same(left: &str, right: &str) -> (yes: bool)
    ensures
        yes == (left@ == right@),
{
    let length: usize = left.unicode_len();
    if right.unicode_len() != length {
        return false;
    }
    let mut i: usize = 0;
    while i < length
        invariant
            length == left@.len(),
            length == right@.len(),
            i <= length,
            forall|k: int| 0 <= k < i ==> left@[k] == right@[k],
        decreases length - i,
    {
        if left.get_char(i) != right.get_char(i) {
            return false;
        }
        i = i + 1;
    }
    assert(left@ =~= right@);
    true
}

} // verus!

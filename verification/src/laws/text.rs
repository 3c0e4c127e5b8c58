//! Numbers, paths and outpoints as text.

use vstd::prelude::*;

use crate::text::{
    all_digits, contains_text, decimal, digit_value, digits_value, is_before, is_digit, join_path,
    joined, lemma_decimal_digits, occurs_at, parse_u64, path_of, text_before, u64_to_string,
    unsigned_part,
};
use crate::wallet::types::Outpoint;

verus! {

/// Whether a character is the digit of a number below ten.
pub open spec fn shows(c: char, n: int) -> bool {
    0 <= n < 10 && c as int == '0' as int + n
}

/// A number below ten is written as its digit, and any other one as its tenth followed by
/// its last digit.
pub proof fn numbers_are_written_in_decimal(n: u64, tenth: String, r: String)
    requires
        call_ensures(u64_to_string, ((n / 10) as u64,), tenth),
        call_ensures(u64_to_string, (n,), r),
    ensures
        r@.len() > 0,
        shows(r@.last(), n as int % 10),
        n < 10 ==> r@.len() == 1,
        n >= 10 ==> r@.drop_last() == tenth@,
{
    if n >= 10 {
        assert(r@.drop_last() =~= tenth@);
    }
}

/// A digit stands for its number, and one more digit makes ten times the number plus its
/// own, as long as that fits.
pub proof fn digits_are_read_one_by_one(
    s: &str,
    longer: &str,
    c: char,
    d: int,
    r: Option<u64>,
    r_longer: Option<u64>,
)
    requires
        longer@ == s@.push(c),
        shows(c, d),
        call_ensures(parse_u64, (s,), r),
        call_ensures(parse_u64, (longer,), r_longer),
    ensures
        s@.len() == 0 ==> r_longer == Some(d as u64),
        s@.len() == 1 && s@[0] == '+' ==> r_longer == Some(d as u64),
        r matches Some(n) ==> if 10 * n + d <= u64::MAX {
            r_longer == Some((10 * n + d) as u64)
        } else {
            r_longer is None
        },
        r is None && r_longer is Some ==> s@.len() == 0 || (s@.len() == 1 && s@[0] == '+'),
{
    let a = unsigned_part(s@);
    let b = unsigned_part(longer@);
    assert(b =~= a.push(c)) by {
        if s@.len() == 0 {
            assert(longer@[0] == c);
        } else {
            assert(longer@[0] == s@[0]);
        }
    }
    assert(b.drop_last() =~= a);
    assert(digit_value(c) == d);
    assert(digits_value(b) == digits_value(a) * 10 + d);
    if all_digits(a) {
        assert forall|i: int| 0 <= i < b.len() implies is_digit(#[trigger] b[i]) by {
            if i < a.len() {
                assert(b[i] == a[i]);
            }
        }
    } else {
        let i = choose|i: int| 0 <= i < a.len() && !is_digit(#[trigger] a[i]);
        assert(!is_digit(b[i]));
    }
    if a.len() == 0 {
        assert(digits_value(a) == 0);
    }
}

/// A text with a character that is no digit stands for no number, but for a plus sign that
/// it starts with. Neither does an empty text.
pub proof fn only_digits_are_numbers(s: &str, i: int, r: Option<u64>)
    requires
        call_ensures(parse_u64, (s,), r),
    ensures
        s@.len() == 0 ==> r is None,
        s@.len() == 1 && s@[0] == '+' ==> r is None,
        0 <= i < s@.len() && (s@[i] < '0' || s@[i] > '9') && (i > 0 || s@[i] != '+') ==> r is None,
{
    let a = unsigned_part(s@);
    if 0 <= i < s@.len() && (s@[i] < '0' || s@[i] > '9') && (i > 0 || s@[i] != '+') {
        if s@[0] == '+' {
            assert(a[i - 1] == s@[i]);
            assert(!is_digit(a[i - 1]));
        } else {
            assert(!is_digit(a[i]));
        }
    }
}

/// What is written of a number reads back as that number.
pub proof fn written_numbers_read_back(n: u64, text: String, s: &str, r: Option<u64>)
    requires
        call_ensures(u64_to_string, (n,), text),
        s@ == text@,
        call_ensures(parse_u64, (s,), r),
    ensures
        r == Some(n),
{
    lemma_decimal_digits(n as nat);
    assert(is_digit(decimal(n as nat)[0]));
}

/// The path of a name below a directory.
pub open spec fn below(base: Seq<char>, name: Seq<char>) -> Seq<char> {
    if name.len() > 0 && name[0] == '/' {
        name
    } else if base.len() > 0 && base.last() != '/' {
        base + seq!['/'] + name
    } else {
        base + name
    }
}

/// That path is the one that the library joins.
pub proof fn lemma_below(base: Seq<char>, name: Seq<char>)
    ensures
        path_of(base, name) == below(base, name),
{
    assert(base.push('/') =~= base + seq!['/']);
}

/// A path below a directory is the directory, one slash and the name. A name that starts
/// with a slash is a path of its own.
pub proof fn names_are_put_below_directories(base: &str, name: &str, r: String)
    requires
        call_ensures(join_path, (base, name), r),
    ensures
        name@.len() > 0 && name@[0] == '/' ==> r@ == name@,
        !(name@.len() > 0 && name@[0] == '/') ==> {
            &&& base@.len() == 0 ==> r@ == name@
            &&& base@.len() > 0 && base@.last() == '/' ==> r@ == base@ + name@
            &&& base@.len() > 0 && base@.last() != '/' ==> r@ == base@ + seq!['/'] + name@
        },
{
    if base@.len() == 0 {
        assert(base@ + name@ =~= name@);
    }
    assert(base@.push('/') =~= base@ + seq!['/']);
}

/// Texts are put one after the other.
pub proof fn texts_are_joined(a: &str, b: &str, r: String)
    requires
        call_ensures(joined, (a, b), r),
    ensures
        r@.len() == a@.len() + b@.len(),
        forall|i: int| 0 <= i < a@.len() ==> #[trigger] r@[i] == a@[i],
        forall|i: int| 0 <= i < b@.len() ==> r@[a@.len() + i] == #[trigger] b@[i],
{
}

/// Whether a text stands within another one at an index.
pub open spec fn stands_at(needle: Seq<char>, text: Seq<char>, i: int) -> bool {
    0 <= i <= text.len() - needle.len() && forall|k: int|
        0 <= k < needle.len() ==> #[trigger] needle[k] == text[i + k]
}

/// A text holds another one exactly where it is made of that one and what stands before
/// and after it.
pub proof fn texts_are_found_wherever_they_stand(
    text: &str,
    needle: &str,
    before: Seq<char>,
    after: Seq<char>,
    r: bool,
)
    requires
        call_ensures(contains_text, (text, needle), r),
    ensures
        text@ == before + needle@ + after ==> r,
        r ==> exists|i: int| stands_at(needle@, text@, i),
{
    if text@ == before + needle@ + after {
        let i = before.len() as int;
        assert(text@.subrange(i, i + needle@.len()) =~= needle@);
        assert(occurs_at(needle@, text@, i));
    }
    if r {
        let i = choose|i: int| #[trigger] occurs_at(needle@, text@, i);
        assert forall|k: int| 0 <= k < needle@.len() implies #[trigger] needle@[k] == text@[i
            + k] by {
            assert(text@.subrange(i, i + needle@.len())[k] == text@[i + k]);
        }
        assert(stands_at(needle@, text@, i));
    }
}

/// Whether two texts are the same up to an index, where the first one ends or has the
/// lesser character.
pub open spec fn part_at(a: Seq<char>, b: Seq<char>, i: int) -> bool {
    &&& 0 <= i <= a.len()
    &&& i < b.len()
    &&& forall|k: int| 0 <= k < i ==> #[trigger] a[k] == b[k]
    &&& i < a.len() ==> a[i] < b[i]
}

/// Whether a text comes before another one.
pub open spec fn is_ahead(a: Seq<char>, b: Seq<char>) -> bool {
    exists|i: int| part_at(a, b, i)
}

/// That order of texts is the one of the library.
pub proof fn lemma_parts(a: Seq<char>, b: Seq<char>)
    ensures
        text_before(a, b) <==> is_ahead(a, b),
    decreases a.len(),
{
    if a.len() > 0 && b.len() > 0 && a[0] == b[0] {
        let x = a.drop_first();
        let y = b.drop_first();
        lemma_parts(x, y);
        if text_before(a, b) {
            let i = choose|i: int| part_at(x, y, i);
            assert forall|k: int| 0 <= k < i + 1 implies #[trigger] a[k] == b[k] by {
                if k > 0 {
                    assert(x[k - 1] == y[k - 1]);
                }
            }
            assert(part_at(a, b, i + 1));
        }
        if exists|i: int| part_at(a, b, i) {
            let i = choose|i: int| part_at(a, b, i);
            assert(i > 0);
            assert forall|k: int| 0 <= k < i - 1 implies #[trigger] x[k] == y[k] by {
                assert(a[k + 1] == b[k + 1]);
            }
            assert(part_at(x, y, i - 1));
        }
    } else {
        if text_before(a, b) {
            assert(part_at(a, b, 0));
        }
        if exists|i: int| part_at(a, b, i) {
            let i = choose|i: int| part_at(a, b, i);
            if i > 0 {
                assert(a[0] == b[0]);
            }
        }
    }
}

/// A text comes before another one where it is the beginning of that one, or has the
/// lesser character at the first place at which they differ.
pub proof fn texts_are_ordered_by_their_characters(a: &str, b: &str, r: bool)
    requires
        call_ensures(is_before, (a, b), r),
    ensures
        r <==> is_ahead(a@, b@),
{
    lemma_parts(a@, b@);
}

/// An outpoint is shown as its transaction ID, a colon and its index.
pub proof fn outpoints_are_shown(o: Outpoint, index: String, r: String)
    requires
        call_ensures(u64_to_string, (o.vout as u64,), index),
        call_ensures(Outpoint::to_string, (&o,), r),
    ensures
        r@ == o.txid@ + seq![':'] + index@,
{
    assert(o.txid@.push(':') =~= o.txid@ + seq![':']);
}

} // verus!

//! Transaction IDs and outpoints.

use vstd::prelude::*;

use crate::chain::{
    check_txid, contains_output, hashed_order, holds_output, is_hex_digit, is_txid, lower_hex,
    outpoint_before, read_own_psbt, read_signed_psbt, same_output, sort_outpoints, strictly_ordered,
    transaction_of_text, PsbtContents,
};
use crate::error::{InternalError, WalletError};
use crate::laws::text::part_at;
use crate::text::text_before;
use crate::wallet::types::Outpoint;

verus! {

/// The number that a hexadecimal digit stands for, in either case, and no number for any
/// other character.
pub open spec fn nibble(c: char) -> int {
    if '0' <= c <= '9' {
        c as int - '0' as int
    } else if 'a' <= c <= 'f' {
        c as int - 'a' as int + 10
    } else if 'A' <= c <= 'F' {
        c as int - 'A' as int + 10
    } else {
        -1
    }
}

/// Whether a text is a transaction ID: the digits of 32 bytes.
pub open spec fn is_id(s: Seq<char>) -> bool {
    s.len() == 2 * 32 && forall|i: int| 0 <= i < 64 ==> nibble(#[trigger] s[i]) >= 0
}

/// The byte of a transaction ID, counted from its end, which is where they are hashed
/// first.
pub open spec fn byte_at(s: Seq<char>, i: int) -> int {
    16 * nibble(s[62 - 2 * i]) + nibble(s[63 - 2 * i])
}

/// A text is taken for a transaction ID exactly where it is one.
pub proof fn transaction_ids_are_recognised(s: &str, r: bool)
    requires
        call_ensures(check_txid, (s,), r),
    ensures
        r <==> is_id(s@),
{
    lemma_ids(s@);
}

/// Transaction IDs are recognised by their digits.
pub proof fn lemma_ids(s: Seq<char>)
    ensures
        is_txid(s) <==> is_id(s),
{
    assert forall|c: char| #[trigger] is_hex_digit(c) <==> nibble(c) >= 0 by {}
    if is_txid(s) {
        assert forall|i: int| 0 <= i < 64 implies nibble(#[trigger] s[i]) >= 0 by {
            assert(is_hex_digit(s[i]));
        }
    }
    if is_id(s) {
        assert forall|i: int| 0 <= i < 64 implies is_hex_digit(#[trigger] s[i]) by {
            assert(nibble(s[i]) >= 0);
        }
    }
}

/// Whether two outpoints are those of one output: the index is the same, and so are the
/// transaction IDs but for the case of their digits.
pub open spec fn is_same(a: Outpoint, b: Outpoint) -> bool {
    a.vout == b.vout && forall|i: int|
        0 <= i < 64 ==> nibble(#[trigger] a.txid@[i]) == nibble(b.txid@[i])
}

/// Whether the transaction ID of an outpoint has the lesser byte at a place, and the same
/// bytes as another one at all places nearer to the end.
pub open spec fn is_less_at(a: Outpoint, b: Outpoint, i: int) -> bool {
    &&& 0 <= i < 32
    &&& byte_at(a.txid@, i) < byte_at(b.txid@, i)
    &&& forall|k: int| 0 <= k < i ==> #[trigger] byte_at(a.txid@, k) == byte_at(b.txid@, k)
}

/// Whether an outpoint comes before another one: by the bytes of the transaction IDs from
/// the last to the first, then by the index.
pub open spec fn comes_first(a: Outpoint, b: Outpoint) -> bool {
    (exists|i: int| #[trigger] is_less_at(a, b, i)) || (a.vout < b.vout && forall|i: int|
        0 <= i < 64 ==> nibble(#[trigger] a.txid@[i]) == nibble(b.txid@[i]))
}

proof fn lemma_lower(a: char, b: char)
    requires
        nibble(a) >= 0,
        nibble(b) >= 0,
    ensures
        lower_hex(a) == lower_hex(b) <==> nibble(a) == nibble(b),
        lower_hex(a) < lower_hex(b) <==> nibble(a) < nibble(b),
{
}

/// That two transaction IDs are the same can be told by their digits.
pub proof fn lemma_same(a: Seq<char>, b: Seq<char>)
    requires
        is_id(a),
        is_id(b),
    ensures
        hashed_order(a) == hashed_order(b) <==> forall|i: int|
            0 <= i < 64 ==> nibble(#[trigger] a[i]) == nibble(b[i]),
{
    let x = hashed_order(a);
    let y = hashed_order(b);
    if x == y {
        assert forall|i: int| 0 <= i < 64 implies nibble(#[trigger] a[i]) == nibble(b[i]) by {
            let j = 62 - 2 * (i / 2) + i % 2;
            assert(62 - 2 * (j / 2) + j % 2 == i);
            assert(x[j] == y[j]);
            assert(nibble(b[i]) >= 0);
            lemma_lower(a[i], b[i]);
        }
    }
    if forall|i: int| 0 <= i < 64 ==> nibble(#[trigger] a[i]) == nibble(b[i]) {
        assert forall|j: int| 0 <= j < 64 implies x[j] == y[j] by {
            let i = 62 - 2 * (j / 2) + j % 2;
            assert(nibble(a[i]) == nibble(b[i]));
            assert(nibble(b[i]) >= 0);
            lemma_lower(a[i], b[i]);
        }
        assert(x =~= y);
    }
}

/// That order of outpoints is the one of the library.
pub proof fn lemma_first(a: Outpoint, b: Outpoint)
    requires
        is_id(a.txid@),
        is_id(b.txid@),
        outpoint_before(a@, b@),
    ensures
        comes_first(a, b),
{
    let x = hashed_order(a.txid@);
    let y = hashed_order(b.txid@);
    lemma_same(a.txid@, b.txid@);
    if text_before(x, y) {
        crate::laws::text::lemma_parts(x, y);
        let j = choose|j: int| part_at(x, y, j);
        let i = j / 2;
        let s = a.txid@;
        let t = b.txid@;
        assert(0 <= j < 64);
        assert forall|k: int| 0 <= k < i implies #[trigger] byte_at(s, k) == byte_at(t, k) by {
            assert(x[2 * k] == y[2 * k]);
            assert(x[2 * k + 1] == y[2 * k + 1]);
            assert(nibble(s[62 - 2 * k]) >= 0 && nibble(s[63 - 2 * k]) >= 0);
            assert(nibble(t[62 - 2 * k]) >= 0 && nibble(t[63 - 2 * k]) >= 0);
            lemma_lower(s[62 - 2 * k], t[62 - 2 * k]);
            lemma_lower(s[63 - 2 * k], t[63 - 2 * k]);
        }
        assert(nibble(s[62 - 2 * i]) >= 0 && nibble(s[63 - 2 * i]) >= 0);
        assert(nibble(t[62 - 2 * i]) >= 0 && nibble(t[63 - 2 * i]) >= 0);
        lemma_lower(s[62 - 2 * i], t[62 - 2 * i]);
        lemma_lower(s[63 - 2 * i], t[63 - 2 * i]);
        assert(x[j] < y[j]);
        if j % 2 == 1 {
            assert(x[2 * i] == y[2 * i]);
            assert(j == 2 * i + 1);
        } else {
            assert(j == 2 * i);
            assert(nibble(s[62 - 2 * i]) < nibble(t[62 - 2 * i]));
            assert(nibble(s[63 - 2 * i]) < 16);
        }
        assert(is_less_at(a, b, i));
    }
}

/// A list of outpoints holds an output exactly where one of them is an outpoint of it.
pub proof fn outputs_are_found_in_lists(outpoints: Vec<Outpoint>, o: Outpoint, r: bool)
    requires
        forall|i: int| 0 <= i < outpoints@.len() ==> is_id((#[trigger] outpoints@[i]).txid@),
        is_id(o.txid@),
        call_ensures(contains_output, (&outpoints, &o), r),
    ensures
        r <==> exists|i: int| 0 <= i < outpoints@.len() && is_same(#[trigger] outpoints@[i], o),
{
    assert forall|i: int| 0 <= i < outpoints@.len() implies same_output(
        (#[trigger] outpoints@[i])@,
        o@,
    ) == is_same(outpoints@[i], o) by {
        lemma_same(outpoints@[i].txid@, o.txid@);
    }
    if r {
        let i = choose|i: int|
            0 <= i < outpoints@.len() && same_output((#[trigger] outpoints@[i])@, o@);
        assert(is_same(outpoints@[i], o));
    }
    if exists|i: int| 0 <= i < outpoints@.len() && is_same(#[trigger] outpoints@[i], o) {
        let i = choose|i: int| 0 <= i < outpoints@.len() && is_same(#[trigger] outpoints@[i], o);
        assert(same_output(outpoints@[i]@, o@));
    }
}

/// Whether a list of outpoints has one of an output.
pub open spec fn has_same(outpoints: Seq<Outpoint>, o: Outpoint) -> bool {
    exists|i: int| 0 <= i < outpoints.len() && is_same(#[trigger] outpoints[i], o)
}

/// Outpoints that are put in order are the given ones, each output once, by the bytes of
/// the transaction IDs from the last to the first and then by the index.
pub proof fn outpoints_are_put_in_order(outpoints: Vec<Outpoint>, r: Vec<Outpoint>)
    requires
        forall|i: int| 0 <= i < outpoints@.len() ==> is_id((#[trigger] outpoints@[i]).txid@),
        call_ensures(sort_outpoints, (&outpoints,), r),
    ensures
        forall|i: int| 0 <= i < r@.len() ==> outpoints@.contains(#[trigger] r@[i]),
        forall|i: int| 0 <= i < outpoints@.len() ==> has_same(r@, #[trigger] outpoints@[i]),
        forall|i: int, j: int|
            0 <= i < j < r@.len() ==> comes_first(#[trigger] r@[i], #[trigger] r@[j]),
        forall|i: int, j: int|
            0 <= i < j < r@.len() ==> !is_same(#[trigger] r@[i], #[trigger] r@[j]),
{
    assert forall|i: int| 0 <= i < r@.len() implies is_id((#[trigger] r@[i]).txid@) by {
        assert(outpoints@.contains(r@[i]));
    }
    assert forall|i: int| 0 <= i < outpoints@.len() implies has_same(
        r@,
        #[trigger] outpoints@[i],
    ) by {
        let o = outpoints@[i];
        assert(same_output(o@, o@));
        assert(holds_output(outpoints@, o@));
        assert(holds_output(r@, o@));
        let k = choose|k: int| 0 <= k < r@.len() && same_output((#[trigger] r@[k])@, o@);
        lemma_same(r@[k].txid@, o.txid@);
        assert(is_same(r@[k], o));
    }
    assert forall|i: int, j: int| 0 <= i < j < r@.len() implies comes_first(
        #[trigger] r@[i],
        #[trigger] r@[j],
    ) && !is_same(r@[i], r@[j]) by {
        assert(strictly_ordered(r@));
        assert(outpoint_before(r@[i]@, r@[j]@));
        lemma_first(r@[i], r@[j]);
        if is_same(r@[i], r@[j]) && exists|k: int| #[trigger] is_less_at(r@[i], r@[j], k) {
            let k = choose|k: int| #[trigger] is_less_at(r@[i], r@[j], k);
            assert(nibble(r@[i].txid@[62 - 2 * k]) == nibble(r@[j].txid@[62 - 2 * k]));
            assert(nibble(r@[i].txid@[63 - 2 * k]) == nibble(r@[j].txid@[63 - 2 * k]));
        }
    }
}

/// A signed PSBT and one that the wallet prepared are read alike: the text is kept, and
/// what is told of the transaction is what the text holds.
pub proof fn a_psbt_is_read_from_its_text(
    text: &str,
    signed: Result<PsbtContents, WalletError>,
    own: Result<PsbtContents, WalletError>,
)
    requires
        call_ensures(read_signed_psbt, (text,), signed),
        call_ensures(read_own_psbt, (text,), own),
    ensures
        signed is Ok <==> transaction_of_text(text@) is Some,
        own is Ok <==> signed is Ok,
        signed matches Err(e) ==> e is InvalidPsbt,
        own matches Err(e) ==> (e matches WalletError::Internal(InternalError::PsbtParse(_))),
        signed matches Ok(a) ==> (own matches Ok(b) && {
            &&& transaction_of_text(text@) matches Some(tx)
            &&& a.text@ == text@
            &&& b.text@ == text@
            &&& a.txid@ == tx.0
            &&& b.txid@ == tx.0
            &&& a.inputs@.len() == tx.1.len()
            &&& b.inputs@.len() == tx.1.len()
            &&& forall|i: int|
                0 <= i < tx.1.len() ==> {
                    &&& (#[trigger] tx.1[i]).0 == a.inputs@[i].txid@
                    &&& tx.1[i].1 == a.inputs@[i].vout
                    &&& tx.1[i].0 == b.inputs@[i].txid@
                    &&& tx.1[i].1 == b.inputs@[i].vout
                }
            &&& a.output_values@ == tx.2
            &&& b.output_values@ == tx.2
        }),
{
    if signed is Ok {
        let a = signed->Ok_0;
        let b = own->Ok_0;
        let tx = transaction_of_text(text@)->0;
        assert(a@.2 == tx.1 && b@.2 == tx.1);
        assert(a@.2.len() == a.inputs@.len());
        assert(b@.2.len() == b.inputs@.len());
        assert forall|i: int| 0 <= i < tx.1.len() implies {
            &&& (#[trigger] tx.1[i]).0 == a.inputs@[i].txid@
            &&& tx.1[i].1 == a.inputs@[i].vout
            &&& tx.1[i].0 == b.inputs@[i].txid@
            &&& tx.1[i].1 == b.inputs@[i].vout
        } by {
            assert(a@.2[i] == a.inputs@[i]@);
            assert(b@.2[i] == b.inputs@[i]@);
        }
    }
}

} // verus!

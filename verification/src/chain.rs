//! Bitcoin data: transaction IDs, addresses and partially signed transactions.

use std::str::FromStr;

use bitcoin::hashes::hex::ToHex;
use bitcoin::util::psbt::PartiallySignedTransaction;
use bitcoin::{Address, Txid};
use vstd::prelude::*;

use crate::error::{InternalError, WalletError};
use crate::text::{is_before, lemma_before_irreflexive, lemma_before_transitive, text_before};
use crate::wallet::types::Outpoint;

verus! {

/// Whether a character is a hexadecimal digit.
pub open spec fn is_hex_digit(c: char) -> bool {
    ('0' <= c && c <= '9') || ('a' <= c && c <= 'f') || ('A' <= c && c <= 'F')
}

/// A hexadecimal digit in lower case.
pub open spec fn lower_hex(c: char) -> char {
    if 'A' <= c && c <= 'F' {
        ((c as u32) + 32) as char
    } else {
        c
    }
}

/// Whether a text is a transaction ID: 64 hexadecimal digits.
pub open spec fn is_txid(s: Seq<char>) -> bool {
    s.len() == 64 && forall|i: int| 0 <= i < 64 ==> is_hex_digit(#[trigger] s[i])
}

/// The bytes of a transaction ID in the order in which they are hashed, in lower
/// case hexadecimal. Its text shows the bytes the other way round.
pub open spec fn hashed_order(s: Seq<char>) -> Seq<char> {
    Seq::new(64, |i: int| lower_hex(s[62 - 2 * (i / 2) + i % 2]))
}

/// Tells whether a text is a transaction ID.
pub fn check_txid(s: &str) -> (r: bool)
    ensures
        r == is_txid(s@),
{
    if s.unicode_len() != 64 {
        return false;
    }
    let mut i: usize = 0;
    while i < 64
        invariant
            i <= 64,
            s@.len() == 64,
            forall|k: int| 0 <= k < i ==> is_hex_digit(#[trigger] s@[k]),
        decreases 64 - i,
    {
        let c: char = s.get_char(i);
        if !(('0' <= c && c <= '9') || ('a' <= c && c <= 'f') || ('A' <= c && c <= 'F')) {
            assert(!is_hex_digit(s@[i as int]));
            return false;
        }
        i += 1;
    }
    true
}

/// Calls `Txid::from_str` and gives the bytes of what it reads, in hexadecimal.
/// Every text of 64 hexadecimal digits is read, and its pairs of digits are the
/// bytes from the last to the first.
#[verifier::external_body]
fn txid_bytes(txid: &str) -> (r: String)
    requires
        is_txid(txid@),
    ensures
        r@ == hashed_order(txid@),
{
    bitcoin::hashes::Hash::into_inner(Txid::from_str(txid).unwrap()).to_hex()
}

/// Whether the first of two outpoints comes first: transaction IDs are ordered
/// by their bytes as hashed, outputs of one transaction by their index.
pub open spec fn outpoint_before(a: (Seq<char>, u32), b: (Seq<char>, u32)) -> bool {
    let x = hashed_order(a.0);
    let y = hashed_order(b.0);
    text_before(x, y) || (x == y && a.1 < b.1)
}

/// Whether two outpoints are those of one output, whatever the case of the
/// digits of their transaction IDs.
pub open spec fn same_output(a: (Seq<char>, u32), b: (Seq<char>, u32)) -> bool {
    hashed_order(a.0) == hashed_order(b.0) && a.1 == b.1
}

/// An outpoint with the digits of its transaction ID in lower case.
pub open spec fn canonical(o: (Seq<char>, u32)) -> (Seq<char>, u32) {
    (o.0.map_values(|c: char| lower_hex(c)), o.1)
}

/// Whether all transaction IDs in a list of outpoints are valid.
pub open spec fn all_valid(outpoints: Seq<Outpoint>) -> bool {
    forall|i: int| 0 <= i < outpoints.len() ==> is_txid((#[trigger] outpoints[i]).txid@)
}

/// Whether outpoints stand in their order, each of them once.
pub open spec fn strictly_ordered(outpoints: Seq<Outpoint>) -> bool {
    forall|i: int, j: int|
        0 <= i < j < outpoints.len() ==> outpoint_before(
            (#[trigger] outpoints[i])@,
            (#[trigger] outpoints[j])@,
        )
}

/// Whether a list of outpoints holds a given output.
pub open spec fn holds_output(outpoints: Seq<Outpoint>, o: (Seq<char>, u32)) -> bool {
    exists|i: int| 0 <= i < outpoints.len() && same_output((#[trigger] outpoints[i])@, o)
}

/// Tells whether a list of outpoints holds a given output.
pub fn contains_output(outpoints: &Vec<Outpoint>, o: &Outpoint) -> (r: bool)
    requires
        all_valid(outpoints@),
        is_txid(o.txid@),
    ensures
        r == holds_output(outpoints@, o@),
{
    let mut i: usize = 0;
    while i < outpoints.len()
        invariant
            i <= outpoints.len(),
            all_valid(outpoints@),
            is_txid(o.txid@),
            forall|k: int| 0 <= k < i ==> !same_output((#[trigger] outpoints@[k])@, o@),
        decreases outpoints.len() - i,
    {
        assert(is_txid(outpoints@[i as int].txid@));
        match side(&outpoints[i], o) {
            Side::Same => {
                return true;
            },
            _ => {},
        }
        i += 1;
    }
    false
}

/// How two outpoints stand to each other.
enum Side {
    Before,
    Same,
    After,
}

fn side(a: &Outpoint, b: &Outpoint) -> (r: Side)
    requires
        is_txid(a.txid@),
        is_txid(b.txid@),
    ensures
        r is Before <==> outpoint_before(a@, b@),
        r is Same <==> same_output(a@, b@),
        r is After <==> outpoint_before(b@, a@),
{
    let x: String = txid_bytes(a.txid.as_str());
    let y: String = txid_bytes(b.txid.as_str());
    proof {
        lemma_before_irreflexive(x@);
        if text_before(x@, y@) && text_before(y@, x@) {
            lemma_before_transitive(x@, y@, x@);
        }
    }
    if x == y {
        if a.vout < b.vout {
            Side::Before
        } else if a.vout == b.vout {
            Side::Same
        } else {
            Side::After
        }
    } else if is_before(x.as_str(), y.as_str()) {
        Side::Before
    } else {
        proof {
            crate::text::lemma_before_total(x@, y@);
        }
        Side::After
    }
}

proof fn lemma_outpoint_before_transitive(
    a: (Seq<char>, u32),
    b: (Seq<char>, u32),
    c: (Seq<char>, u32),
)
    requires
        outpoint_before(a, b) || same_output(a, b),
        outpoint_before(b, c) || same_output(b, c),
        outpoint_before(a, b) || outpoint_before(b, c),
    ensures
        outpoint_before(a, c),
{
    let x = hashed_order(a.0);
    let y = hashed_order(b.0);
    let z = hashed_order(c.0);
    if text_before(x, y) && text_before(y, z) {
        lemma_before_transitive(x, y, z);
    }
}

/// The outpoints of a list, with the digits of their transaction IDs in lower case.
pub open spec fn canonical_views(outpoints: Seq<Outpoint>) -> Seq<(Seq<char>, u32)> {
    outpoints.map_values(|o: Outpoint| canonical(o@))
}

/// An ordered list of outputs with one more in its place, unless it is there.
pub open spec fn with_output(list: Seq<(Seq<char>, u32)>, o: (Seq<char>, u32)) -> Seq<
    (Seq<char>, u32),
>
    decreases list.len(),
{
    if list.len() == 0 {
        seq![o]
    } else if same_output(list[0], o) {
        list
    } else if outpoint_before(o, list[0]) {
        seq![o] + list
    } else {
        seq![list[0]] + with_output(list.drop_first(), o)
    }
}

/// The outputs that outpoints point at, in their order and each of them once, with the
/// digits of their transaction IDs in lower case.
pub open spec fn ordered_outputs(outpoints: Seq<Outpoint>) -> Seq<(Seq<char>, u32)>
    decreases outpoints.len(),
{
    if outpoints.len() == 0 {
        Seq::empty()
    } else {
        with_output(ordered_outputs(outpoints.drop_last()), canonical(outpoints.last()@))
    }
}

proof fn lemma_canonical(o: (Seq<char>, u32))
    requires
        o.0.len() == 64,
    ensures
        hashed_order(canonical(o).0) == hashed_order(o.0),
{
    assert forall|i: int| 0 <= i < 64 implies hashed_order(canonical(o).0)[i] == hashed_order(
        o.0,
    )[i] by {
        assert(0 <= 62 - 2 * (i / 2) + i % 2 < 64);
    }
    assert(hashed_order(canonical(o).0) =~= hashed_order(o.0));
}

proof fn lemma_with_output(list: Seq<(Seq<char>, u32)>, o: (Seq<char>, u32), at: int)
    requires
        0 <= at <= list.len(),
        forall|k: int| 0 <= k < at ==> outpoint_before(#[trigger] list[k], o),
        at < list.len() ==> same_output(list[at], o) || outpoint_before(o, list[at]),
    ensures
        with_output(list, o) == if at < list.len() && same_output(list[at], o) {
            list
        } else {
            list.insert(at, o)
        },
    decreases list.len(),
{
    if at > 0 {
        let tail = list.drop_first();
        assert(outpoint_before(list[0], o));
        lemma_before_irreflexive(hashed_order(o.0));
        if outpoint_before(o, list[0]) {
            lemma_outpoint_before_transitive(o, list[0], o);
        }
        assert forall|k: int| 0 <= k < at - 1 implies outpoint_before(#[trigger] tail[k], o) by {
            assert(tail[k] == list[k + 1]);
        }
        lemma_with_output(tail, o, at - 1);
        if at < list.len() && same_output(list[at], o) {
            assert(seq![list[0]] + tail =~= list);
        } else {
            assert(seq![list[0]] + tail.insert(at - 1, o) =~= list.insert(at, o));
        }
    } else if list.len() == 0 {
        assert(seq![o] =~= list.insert(0, o));
    } else if outpoint_before(o, list[0]) {
        lemma_before_irreflexive(hashed_order(o.0));
        assert(seq![o] + list =~= list.insert(0, o));
    }
}

proof fn lemma_placed(before: Seq<Outpoint>, o: Outpoint, at: int)
    requires
        all_valid(before),
        is_txid(o.txid@),
        0 <= at <= before.len(),
        forall|k: int| 0 <= k < at ==> outpoint_before((#[trigger] before[k])@, o@),
        at < before.len() ==> same_output(before[at]@, o@) || outpoint_before(o@, before[at]@),
    ensures
        with_output(canonical_views(before), canonical(o@)) == canonical_views(
            if at < before.len() && same_output(before[at]@, o@) {
                before
            } else {
                before.insert(at, o)
            },
        ),
{
    let list = canonical_views(before);
    lemma_canonical(o@);
    assert forall|k: int| 0 <= k < before.len() implies hashed_order((#[trigger] list[k]).0)
        == hashed_order(before[k]@.0) && list[k].1 == before[k]@.1 by {
        assert(is_txid(before[k].txid@));
        lemma_canonical(before[k]@);
    }
    assert forall|k: int| 0 <= k < at implies outpoint_before(
        #[trigger] list[k],
        canonical(o@),
    ) by {
        assert(outpoint_before(before[k]@, o@));
    }
    if at < before.len() {
        assert(hashed_order(list[at].0) == hashed_order(before[at]@.0));
    }
    lemma_with_output(list, canonical(o@), at);
    assert(canonical_views(before.insert(at, o)) =~= list.insert(at, canonical(o@)));
}

/// Puts an outpoint into its place in an ordered list, unless it is there.
fn insert_outpoint(list: &mut Vec<Outpoint>, o: Outpoint)
    requires
        strictly_ordered(old(list)@),
        all_valid(old(list)@),
        is_txid(o.txid@),
    ensures
        strictly_ordered(final(list)@),
        all_valid(final(list)@),
        forall|q: (Seq<char>, u32)|
            #[trigger] holds_output(final(list)@, q) <==> holds_output(old(list)@, q)
                || same_output(o@, q),
        forall|i: int|
            0 <= i < final(list)@.len() ==> #[trigger] final(list)@[i] == o
                || old(list)@.contains(final(list)@[i]),
        canonical_views(final(list)@) == with_output(
            canonical_views(old(list)@),
            canonical(o@),
        ),
{
    let ghost before = list@;
    let mut i: usize = 0;
    while i < list.len()
        invariant
            i <= list.len(),
            list@ == before,
            before == old(list)@,
            strictly_ordered(before),
            all_valid(before),
            is_txid(o.txid@),
            forall|k: int| 0 <= k < i ==> outpoint_before((#[trigger] before[k])@, o@),
        decreases list.len() - i,
    {
        assert(is_txid(before[i as int].txid@));
        match side(&list[i], &o) {
            Side::Before => {},
            Side::Same => {
                proof {
                    assert forall|q: (Seq<char>, u32)| same_output(o@, q) implies holds_output(
                        before,
                        q,
                    ) by {
                        assert(same_output(before[i as int]@, q));
                    }
                    lemma_placed(before, o, i as int);
                }
                return;
            },
            Side::After => {
                proof {
                    assert forall|k: int| i < k < before.len() implies outpoint_before(
                        o@,
                        (#[trigger] before[k])@,
                    ) by {
                        lemma_outpoint_before_transitive(o@, before[i as int]@, before[k]@);
                    }
                }
                list.insert(i, o);
                proof {
                    lemma_inserted(before, i as int, o, list@);
                    lemma_before_irreflexive(hashed_order(o@.0));
                    lemma_placed(before, o, i as int);
                }
                return;
            },
        }
        i += 1;
    }
    list.push(o);
    proof {
        assert(list@ =~= before.insert(before.len() as int, o));
        lemma_inserted(before, before.len() as int, o, list@);
        lemma_placed(before, o, before.len() as int);
    }
}

proof fn lemma_inserted(before: Seq<Outpoint>, at: int, o: Outpoint, after: Seq<Outpoint>)
    requires
        0 <= at <= before.len(),
        after == before.insert(at, o),
        strictly_ordered(before),
        all_valid(before),
        is_txid(o.txid@),
        forall|k: int| 0 <= k < at ==> outpoint_before((#[trigger] before[k])@, o@),
        forall|k: int| at <= k < before.len() ==> outpoint_before(o@, (#[trigger] before[k])@),
    ensures
        strictly_ordered(after),
        all_valid(after),
        forall|q: (Seq<char>, u32)|
            #[trigger] holds_output(after, q) <==> holds_output(before, q) || same_output(o@, q),
        forall|i: int|
            0 <= i < after.len() ==> #[trigger] after[i] == o || before.contains(after[i]),
{
    assert forall|i: int| 0 <= i < after.len() implies #[trigger] after[i] == o
        || before.contains(after[i]) by {
        if i < at {
            assert(after[i] == before[i]);
        } else if i > at {
            assert(after[i] == before[i - 1]);
        }
    }
    assert forall|q: (Seq<char>, u32)| #[trigger] holds_output(after, q) <==> holds_output(
        before,
        q,
    ) || same_output(o@, q) by {
        if holds_output(before, q) {
            let k = choose|k: int|
                0 <= k < before.len() && same_output((#[trigger] before[k])@, q);
            if k < at {
                assert(after[k] == before[k]);
            } else {
                assert(after[k + 1] == before[k]);
            }
        }
        if same_output(o@, q) {
            assert(after[at] == o);
        }
    }
}

/// Orders outpoints and drops those that repeat.
pub fn sort_outpoints(outpoints: &Vec<Outpoint>) -> (r: Vec<Outpoint>)
    requires
        all_valid(outpoints@),
    ensures
        strictly_ordered(r@),
        all_valid(r@),
        forall|q: (Seq<char>, u32)|
            #[trigger] holds_output(r@, q) <==> holds_output(outpoints@, q),
        forall|i: int| 0 <= i < r@.len() ==> outpoints@.contains(#[trigger] r@[i]),
        canonical_views(r@) == ordered_outputs(outpoints@),
{
    let mut list: Vec<Outpoint> = Vec::new();
    let mut i: usize = 0;
    assert(canonical_views(list@) =~= Seq::<(Seq<char>, u32)>::empty());
    while i < outpoints.len()
        invariant
            i <= outpoints.len(),
            all_valid(outpoints@),
            canonical_views(list@) == ordered_outputs(outpoints@.take(i as int)),
            strictly_ordered(list@),
            all_valid(list@),
            forall|q: (Seq<char>, u32)|
                #[trigger] holds_output(list@, q) <==> holds_output(
                    outpoints@.take(i as int),
                    q,
                ),
            forall|k: int| 0 <= k < list@.len() ==> outpoints@.contains(#[trigger] list@[k]),
        decreases outpoints.len() - i,
    {
        let ghost before = list@;
        let ghost head = outpoints@.take(i as int);
        assert(is_txid(outpoints@[i as int].txid@));
        insert_outpoint(&mut list, outpoints[i].clone());
        proof {
            let o = outpoints@[i as int];
            let longer = outpoints@.take(i + 1);
            assert(longer =~= head.push(o));
            assert(longer.drop_last() =~= head);
            assert forall|q: (Seq<char>, u32)| #[trigger] holds_output(list@, q)
                <==> holds_output(longer, q) by {
                assert(holds_output(list@, q) <==> holds_output(before, q) || same_output(
                    o@,
                    q,
                ));
                assert(longer[i as int] == o);
                if holds_output(head, q) {
                    let k = choose|k: int|
                        0 <= k < head.len() && same_output((#[trigger] head[k])@, q);
                    assert(longer[k] == head[k]);
                }
                if holds_output(longer, q) {
                    let k = choose|k: int|
                        0 <= k < longer.len() && same_output((#[trigger] longer[k])@, q);
                    if k < i {
                        assert(head[k] == longer[k]);
                    }
                }
            }
        }
        i += 1;
    }
    assert(outpoints@.take(i as int) =~= outpoints@);
    list
}

/// The views of a list of outpoints.
pub open spec fn views(outpoints: Seq<Outpoint>) -> Seq<(Seq<char>, u32)> {
    outpoints.map_values(|o: Outpoint| o@)
}

/// The script that a bitcoin address stands for, if the text is one.
pub uninterp spec fn script_of_address(address: Seq<char>) -> Option<Seq<u8>>;

/// Calls `Address::from_str` and `Address::script_pubkey` on what it gives. The
/// script is fixed by the text.
#[verifier::external_body]
pub(crate) fn read_address(address: &str) -> (r: Result<Vec<u8>, bitcoin::util::address::Error>)
    ensures
        r matches Ok(script) ==> script_of_address(address@) == Some(script@),
        r is Err ==> script_of_address(address@) is None,
{
    Address::from_str(address).map(|a| a.script_pubkey().to_bytes())
}

/// What a partially signed transaction holds.
#[derive(Debug, PartialEq, Eq)]
pub struct PsbtContents {
    /// The PSBT itself, as the text that was given
    pub text: String,
    /// ID of the transaction
    pub txid: String,
    /// The outpoints that the transaction spends
    pub inputs: Vec<Outpoint>,
    /// The satoshis of the outputs of the transaction
    pub output_values: Vec<u64>,
}

/// What a PSBT holds: its text, the ID of its transaction, the outpoints that it
/// spends and the satoshis of its outputs.
pub type PsbtView = (Seq<char>, Seq<char>, Seq<(Seq<char>, u32)>, Seq<u64>);

impl View for PsbtContents {
    type V = PsbtView;

    open spec fn view(&self) -> PsbtView {
        (self.text@, self.txid@, views(self.inputs@), self.output_values@)
    }
}

/// The transaction of the PSBT in a text, if there is one: its ID, the outpoints that it
/// spends and the satoshis of its outputs.
pub uninterp spec fn transaction_of_text(text: Seq<char>) -> Option<
    (Seq<char>, Seq<(Seq<char>, u32)>, Seq<u64>),
>;

/// Calls `PartiallySignedTransaction::from_str` and `extract_tx` on what it gives. The
/// transaction is fixed by the text.
#[verifier::external_body]
fn parse_psbt(text: &str) -> (r: Result<
    (String, Vec<Outpoint>, Vec<u64>),
    bitcoin::util::psbt::PsbtParseError,
>)
    ensures
        r matches Ok(t) ==> transaction_of_text(text@) == Some((t.0@, views(t.1@), t.2@)),
        r is Err ==> transaction_of_text(text@) is None,
{
    let tx = PartiallySignedTransaction::from_str(text)?.extract_tx();
    let inputs = tx.input.iter().map(|i| i.previous_output);
    let inputs = inputs.map(|o| Outpoint { txid: o.txid.to_string(), vout: o.vout });
    let values = tx.output.iter().map(|o| o.value);
    Ok((tx.txid().to_string(), inputs.collect(), values.collect()))
}

/// What the PSBT in a text holds, if there is one.
pub open spec fn psbt_of_text(text: Seq<char>) -> Option<PsbtView> {
    match transaction_of_text(text) {
        None => None,
        Some(t) => Some((text, t.0, t.1, t.2)),
    }
}

fn read_psbt(text: &str) -> (r: Result<PsbtContents, bitcoin::util::psbt::PsbtParseError>)
    ensures
        r matches Ok(psbt) ==> psbt_of_text(text@) == Some(psbt@),
        r is Err ==> psbt_of_text(text@) is None,
{
    match parse_psbt(text) {
        Err(e) => Err(e),
        Ok((txid, inputs, output_values)) => Ok(
            PsbtContents { text: text.to_owned(), txid, inputs, output_values },
        ),
    }
}

/// Reads a PSBT that the user signed.
pub fn read_signed_psbt(text: &str) -> (r: Result<PsbtContents, WalletError>)
    ensures
        r is Ok <==> psbt_of_text(text@) is Some,
        r matches Ok(psbt) ==> psbt_of_text(text@) == Some(psbt@),
        r is Err ==> (r matches Err(WalletError::InvalidPsbt(_))),
{
    match read_psbt(text) {
        Ok(psbt) => Ok(psbt),
        Err(e) => Err(WalletError::InvalidPsbt(e)),
    }
}

/// The text that is kept of a PSBT reads back as the same PSBT.
pub proof fn a_kept_psbt_reads_back(text: Seq<char>)
    ensures
        psbt_of_text(text) matches Some(psbt) ==> psbt_of_text(psbt.0) == Some(psbt),
{
}

/// Reads a PSBT that the wallet itself prepared.
pub fn read_own_psbt(text: &str) -> (r: Result<PsbtContents, WalletError>)
    ensures
        r is Ok <==> psbt_of_text(text@) is Some,
        r matches Ok(psbt) ==> psbt_of_text(text@) == Some(psbt@),
        r is Err ==> (r matches Err(WalletError::Internal(InternalError::PsbtParse(_)))),
{
    match read_psbt(text) {
        Ok(psbt) => Ok(psbt),
        Err(e) => Err(WalletError::Internal(InternalError::PsbtParse(e))),
    }
}

} // verus!

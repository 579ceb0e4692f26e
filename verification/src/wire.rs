//! The wire text of blocks and of what they hold.
//!
//! A block travels as compact JSON: objects with their fields in a fixed
//! order, numbers in decimal, and hashes, signatures and addresses as lists
//! of byte values. Each decoder accepts the encoding of a value and nothing
//! else.

use crate::block::{tx_models, Block, BlockModel};
use crate::input::Input;
use crate::json::{
    ascii, bytes_json, decimal, ends_number, expect_text, json_array, lead, lemma_array_part,
    lemma_lead_of_prefix, lemma_matches_byte, lemma_matches_concat, matches_at, parse_bytes_json,
    parse_number, push_bytes_json, push_decimal, push_text, CLOSE, COMMA, OPEN,
};
use crate::output::Output;
use crate::transactions::{Tx, TxModel};
use vstd::prelude::*;

verus! {

/// The byte `{`.
pub const BRACE: u8 = 123;

/// A type of values that have a wire text.
pub trait Wire: Sized {
    /// The mathematical value of an item.
    type Model;

    /// The value of an item.
    spec fn model(&self) -> Self::Model;

    /// The wire text of a value.
    spec fn json(value: Self::Model) -> Seq<u8>;

    /// Every wire text opens with a brace. That tells an item from the end
    /// of a list.
    proof fn lemma_opens_with_brace(value: Self::Model)
        ensures
            Self::json(value).len() >= 1,
            Self::json(value)[0] == BRACE,
    ;

    /// Appends the wire text of the item to `out`.
    fn push(&self, out: &mut Vec<u8>)
        ensures
            final(out)@ == old(out)@ + Self::json(self.model()),
    ;

    /// Reads the wire text of an item at `pos`. Returns the item and the
    /// position after it. An item is returned exactly when the wire text of
    /// a value stands at `pos`, and then it is the item with that value.
    fn parse(s: &[u8], pos: usize) -> (parsed: Option<(Self, usize)>)
        requires
            pos <= s.len(),
        ensures
            parsed matches Some((item, end)) ==> matches_at(
                s@,
                pos as int,
                Self::json(item.model()),
            ) && end == pos + Self::json(item.model()).len(),
            forall|value: Self::Model| #[trigger]
                matches_at(s@, pos as int, Self::json(value)) ==> (parsed matches Some((item, end))
                    && item.model() == value && end == pos + Self::json(value).len()),
    ;
}

/// The values of a row of items.
pub open spec fn models<T: Wire>(items: Seq<T>) -> Seq<T::Model> {
    Seq::new(items.len(), |i: int| items[i].model())
}

/// The wire texts of a row of values.
pub open spec fn jsons<T: Wire>(values: Seq<T::Model>) -> Seq<Seq<u8>> {
    Seq::new(values.len(), |i: int| T::json(values[i]))
}

/// The wire text of a row of values: the list of their wire texts.
pub open spec fn list_json<T: Wire>(values: Seq<T::Model>) -> Seq<u8> {
    json_array(jsons::<T>(values))
}

/// Appends a row of items to `out`, as a list.
pub fn push_list<T: Wire>(out: &mut Vec<u8>, items: &Vec<T>)
    ensures
        final(out)@ == old(out)@ + list_json::<T>(models(items@)),
{
    let n = items.len();
    out.push(OPEN);
    if n == 0 {
        out.push(CLOSE);
        assert(out@ =~= old(out)@ + list_json::<T>(models(items@)));
        return ;
    }
    let ghost parts = jsons::<T>(models(items@));
    let mut i: usize = 0;
    while i < n - 1
        invariant
            n == items@.len(),
            n >= 1,
            i <= n - 1,
            parts == jsons::<T>(models(items@)),
            out@ == old(out)@ + seq![OPEN] + lead(parts, i as int),
        decreases n - i,
    {
        items[i].push(out);
        out.push(COMMA);
        assert(out@ =~= old(out)@ + seq![OPEN] + lead(parts, i + 1));
        i += 1;
    }
    items[n - 1].push(out);
    out.push(CLOSE);
    assert(out@ =~= old(out)@ + list_json::<T>(models(items@)));
}

/// Reads a list of items at `pos`. Returns the items and the position after
/// the list. Items are returned exactly when the list of some values stands
/// at `pos`, and then they are the items with those values.
pub fn parse_list<T: Wire>(s: &[u8], pos: usize) -> (parsed: Option<(Vec<T>, usize)>)
    requires
        pos <= s.len(),
    ensures
        parsed matches Some((items, end)) ==> matches_at(
            s@,
            pos as int,
            list_json::<T>(models(items@)),
        ) && end == pos + list_json::<T>(models(items@)).len(),
        forall|values: Seq<T::Model>| #[trigger]
            matches_at(s@, pos as int, list_json::<T>(values)) ==> (parsed matches Some(
                (items, end),
            ) && models(items@) == values && end == pos + list_json::<T>(values).len()),
{
    assert forall|values: Seq<T::Model>| #[trigger]
        matches_at(s@, pos as int, list_json::<T>(values)) implies pos + 1 < s.len()
        && s@[pos as int] == OPEN && (values.len() == 0 <==> s@[pos + 1] == CLOSE) by {
        let parts = jsons::<T>(values);
        lemma_matches_byte(s@, pos as int, json_array(parts), 0);
        if values.len() == 0 {
            lemma_matches_byte(s@, pos as int, json_array(parts), 1);
        } else {
            lemma_array_part(s@, pos as int, parts, 0);
            T::lemma_opens_with_brace(values[0]);
            lemma_matches_byte(s@, pos + 1, T::json(values[0]), 0);
        }
    }
    if pos >= s.len() || s[pos] != OPEN || pos + 1 >= s.len() {
        return None;
    }
    let mut found: Vec<T> = Vec::new();
    if s[pos + 1] == CLOSE {
        proof {
            assert(s@.subrange(pos as int, pos + 2) =~= seq![OPEN, CLOSE]);
            assert(jsons::<T>(models(found@)) =~= Seq::<Seq<u8>>::empty());
            assert forall|values: Seq<T::Model>| #[trigger]
                matches_at(s@, pos as int, list_json::<T>(values)) implies models(found@)
                == values by {
                assert(values =~= models(found@));
            }
        }
        return Some((found, pos + 2));
    }
    let mut p: usize = pos + 1;
    let mut end: usize = pos + 1;
    assert(s@.subrange(pos as int, pos + 1) =~= seq![OPEN]);
    loop
        invariant_except_break
            pos < p < s.len(),
            p == pos + 1 + lead(jsons::<T>(models(found@)), found@.len() as int).len(),
            matches_at(
                s@,
                pos as int,
                seq![OPEN] + lead(jsons::<T>(models(found@)), found@.len() as int),
            ),
            forall|values: Seq<T::Model>| #[trigger]
                matches_at(s@, pos as int, list_json::<T>(values)) ==> values.len() > found@.len()
                    && values.take(found@.len() as int) == models(found@),
        ensures
            end == pos + list_json::<T>(models(found@)).len(),
            matches_at(s@, pos as int, list_json::<T>(models(found@))),
            forall|values: Seq<T::Model>| #[trigger]
                matches_at(s@, pos as int, list_json::<T>(values)) ==> values == models(found@),
        decreases s.len() - p,
    {
        let ghost k = found@.len() as int;
        let ghost before = models(found@);
        let parsed = T::parse(s, p);
        proof {
            assert forall|values: Seq<T::Model>| #[trigger]
                matches_at(s@, pos as int, list_json::<T>(values)) implies (parsed matches Some(
                (item, after),
            ) && item.model() == values[k] && after == p + T::json(values[k]).len()) && p + T::json(
                values[k],
            ).len() < s.len() && s@[p + T::json(values[k]).len()] == (if k + 1 < values.len() {
                COMMA
            } else {
                CLOSE
            }) by {
                let theirs = jsons::<T>(values);
                lemma_array_part(s@, pos as int, theirs, k);
                assert(theirs.take(k) =~= jsons::<T>(before).take(k));
                lemma_lead_of_prefix(theirs, jsons::<T>(before), k);
                assert(matches_at(s@, p as int, T::json(values[k])));
            }
        }
        let (item, q) = match parsed {
            Some(pair) => pair,
            None => {
                return None;
            },
        };
        if q >= s.len() || (s[q] != COMMA && s[q] != CLOSE) {
            return None;
        }
        let last = s[q] == CLOSE;
        let ghost value = item.model();
        found.push(item);
        proof {
            assert(models(found@) =~= before.push(value));
            let mine = jsons::<T>(models(found@));
            let sep = s@[q as int];
            assert(mine.take(k) =~= jsons::<T>(before).take(k));
            lemma_lead_of_prefix(mine, jsons::<T>(before), k);
            assert(mine[k] == T::json(value));
            assert(s@.subrange(q as int, q + 1) =~= seq![sep]);
            lemma_matches_concat(s@, pos as int, seq![OPEN] + lead(mine, k), T::json(value));
            lemma_matches_concat(
                s@,
                pos as int,
                seq![OPEN] + lead(mine, k) + T::json(value),
                seq![sep],
            );
            assert forall|values: Seq<T::Model>| #[trigger]
                matches_at(s@, pos as int, list_json::<T>(values)) implies values.take(k + 1)
                == models(found@) && (last <==> k + 1 == values.len()) by {
                assert(values.take(k) == before);
                assert(values.take(k + 1) =~= values.take(k).push(values[k]));
            }
            let read = seq![OPEN] + lead(mine, k) + T::json(value) + seq![sep];
            if last {
                assert(mine.last() == T::json(value));
                assert(read =~= json_array(mine));
                assert forall|values: Seq<T::Model>| #[trigger]
                    matches_at(s@, pos as int, list_json::<T>(values)) implies values == models(
                    found@,
                ) by {
                    assert(values.take(k + 1) =~= values);
                }
            } else {
                assert(read =~= seq![OPEN] + lead(mine, k + 1));
            }
        }
        if last {
            end = q + 1;
            break ;
        }
        if q + 1 >= s.len() {
            proof {
                assert forall|values: Seq<T::Model>| #[trigger]
                    matches_at(s@, pos as int, list_json::<T>(values)) implies false by {
                    let theirs = jsons::<T>(values);
                    lemma_array_part(s@, pos as int, theirs, k + 1);
                    assert(theirs.take(k + 1) =~= jsons::<T>(models(found@)).take(k + 1));
                    lemma_lead_of_prefix(theirs, jsons::<T>(models(found@)), k + 1);
                }
            }
            return None;
        }
        p = q + 1;
    }
    Some((found, end))
}

/// The wire text of an output.
#[verifier::opaque]
pub open spec fn output_json(output: Output) -> Seq<u8> {
    ascii("{\"amount\":"@) + decimal(output.amount as nat) + ascii(",\"address\":"@) + bytes_json(
        output.address@,
    ) + ascii("}"@)
}


/// Where the parts of an output's wire text stand.
proof fn lemma_output_layout(s: Seq<u8>, pos: int, output: Output)
    ensures
        matches_at(s, pos, output_json(output)) <==> ({
            let amount = decimal(output.amount as nat);
            let address = bytes_json(output.address@);
            &&& matches_at(s, pos, ascii("{\"amount\":"@))
            &&& matches_at(s, pos + 10, amount)
            &&& ends_number(s, pos + 10 + amount.len())
            &&& matches_at(s, pos + 10 + amount.len(), ascii(",\"address\":"@))
            &&& matches_at(s, pos + 10 + amount.len() + 11, address)
            &&& matches_at(s, pos + 10 + amount.len() + 11 + address.len(), ascii("}"@))
        }),
        output_json(output).len() == ({
            let amount = decimal(output.amount as nat);
            let address = bytes_json(output.address@);
            10 + amount.len() + 11 + address.len() + 1
        }),
{
    reveal(output_json);
    reveal_strlit("{\"amount\":");
    reveal_strlit(",\"address\":");
    reveal_strlit("}");
    let a = ascii("{\"amount\":"@);
    let b = decimal(output.amount as nat);
    let c = ascii(",\"address\":"@);
    let d = bytes_json(output.address@);
    let e = ascii("}"@);
    lemma_matches_concat(s, pos, a + b + c + d, e);
    lemma_matches_concat(s, pos, a + b + c, d);
    lemma_matches_concat(s, pos, a + b, c);
    lemma_matches_concat(s, pos, a, b);
    if matches_at(s, pos + 10 + b.len(), c) {
        lemma_matches_byte(s, pos + 10 + b.len(), c, 0);
    }
}


impl Wire for Output {
    type Model = Output;

    open spec fn model(&self) -> Output {
        *self
    }

    open spec fn json(value: Output) -> Seq<u8> {
        output_json(value)
    }

    proof fn lemma_opens_with_brace(value: Output) {
        reveal(output_json);
        reveal_strlit("{\"amount\":");
    }

    fn push(&self, out: &mut Vec<u8>) {
        proof {
            reveal_strlit("{\"amount\":");
            reveal_strlit(",\"address\":");
            reveal_strlit("}");
        }
        push_text(out, "{\"amount\":");
        push_decimal(out, self.amount);
        push_text(out, ",\"address\":");
        push_bytes_json(out, self.address.as_slice());
        push_text(out, "}");
        assert(out@ =~= old(out)@ + output_json(*self)) by {
            reveal(output_json);
        }
    }

    fn parse(s: &[u8], pos: usize) -> (parsed: Option<(Output, usize)>) {
        proof {
            reveal_strlit("{\"amount\":");
            reveal_strlit(",\"address\":");
            reveal_strlit("}");
        }
        let opened = expect_text(s, pos, "{\"amount\":");
        assert forall|output: Output| #[trigger]
            matches_at(s@, pos as int, output_json(output)) implies opened is Some by {
            lemma_output_layout(s@, pos as int, output);
        }
        let pos1 = match opened {
            Some(p) => p,
            None => {
                return None;
            },
        };
        let number = parse_number(s, pos1);
        assert forall|output: Output| #[trigger]
            matches_at(s@, pos as int, output_json(output)) implies number == Some(
            (output.amount, (pos1 + decimal(output.amount as nat).len()) as usize),
        ) by {
            lemma_output_layout(s@, pos as int, output);
            assert(matches_at(s@, pos1 as int, decimal(output.amount as nat)));
        }
        let (amount, pos2) = match number {
            Some(pair) => pair,
            None => {
                return None;
            },
        };
        let keyed = expect_text(s, pos2, ",\"address\":");
        assert forall|output: Output| #[trigger]
            matches_at(s@, pos as int, output_json(output)) implies keyed is Some by {
            lemma_output_layout(s@, pos as int, output);
        }
        let pos3 = match keyed {
            Some(p) => p,
            None => {
                return None;
            },
        };
        let list = parse_bytes_json::<32>(s, pos3);
        assert forall|output: Output| #[trigger]
            matches_at(s@, pos as int, output_json(output)) implies list == Some(
            (output.address, (pos3 + bytes_json(output.address@).len()) as usize),
        ) by {
            lemma_output_layout(s@, pos as int, output);
            assert(matches_at(s@, pos3 as int, bytes_json(output.address@)));
        }
        let (address, pos4) = match list {
            Some(pair) => pair,
            None => {
                return None;
            },
        };
        let closed = expect_text(s, pos4, "}");
        assert forall|output: Output| #[trigger]
            matches_at(s@, pos as int, output_json(output)) implies closed is Some by {
            lemma_output_layout(s@, pos as int, output);
        }
        let pos5 = match closed {
            Some(p) => p,
            None => {
                return None;
            },
        };
        let output = Output { amount, address };
        proof {
            lemma_output_layout(s@, pos as int, output);
            assert forall|other: Output| #[trigger]
                matches_at(s@, pos as int, output_json(other)) implies other == output by {
                lemma_output_layout(s@, pos as int, other);
                assert(other.address == address);
            }
        }
        Some((output, pos5))
    }
}

/// The wire text of an input.
#[verifier::opaque]
pub open spec fn input_json(input: Input) -> Seq<u8> {
    ascii("{\"txid\":"@) + bytes_json(input.txid@) + ascii(",\"signature\":"@) + bytes_json(
        input.signature@,
    ) + ascii("}"@)
}


/// Where the parts of an input's wire text stand.
proof fn lemma_input_layout(s: Seq<u8>, pos: int, input: Input)
    ensures
        matches_at(s, pos, input_json(input)) <==> ({
            let txid = bytes_json(input.txid@);
            let signature = bytes_json(input.signature@);
            &&& matches_at(s, pos, ascii("{\"txid\":"@))
            &&& matches_at(s, pos + 8, txid)
            &&& matches_at(s, pos + 8 + txid.len(), ascii(",\"signature\":"@))
            &&& matches_at(s, pos + 8 + txid.len() + 13, signature)
            &&& matches_at(s, pos + 8 + txid.len() + 13 + signature.len(), ascii("}"@))
        }),
        input_json(input).len() == ({
            let txid = bytes_json(input.txid@);
            let signature = bytes_json(input.signature@);
            8 + txid.len() + 13 + signature.len() + 1
        }),
{
    reveal(input_json);
    reveal_strlit("{\"txid\":");
    reveal_strlit(",\"signature\":");
    reveal_strlit("}");
    let a = ascii("{\"txid\":"@);
    let b = bytes_json(input.txid@);
    let c = ascii(",\"signature\":"@);
    let d = bytes_json(input.signature@);
    let e = ascii("}"@);
    lemma_matches_concat(s, pos, a + b + c + d, e);
    lemma_matches_concat(s, pos, a + b + c, d);
    lemma_matches_concat(s, pos, a + b, c);
    lemma_matches_concat(s, pos, a, b);
}


impl Wire for Input {
    type Model = Input;

    open spec fn model(&self) -> Input {
        *self
    }

    open spec fn json(value: Input) -> Seq<u8> {
        input_json(value)
    }

    proof fn lemma_opens_with_brace(value: Input) {
        reveal(input_json);
        reveal_strlit("{\"txid\":");
    }

    fn push(&self, out: &mut Vec<u8>) {
        proof {
            reveal_strlit("{\"txid\":");
            reveal_strlit(",\"signature\":");
            reveal_strlit("}");
        }
        push_text(out, "{\"txid\":");
        push_bytes_json(out, self.txid.as_slice());
        push_text(out, ",\"signature\":");
        push_bytes_json(out, self.signature.as_slice());
        push_text(out, "}");
        assert(out@ =~= old(out)@ + input_json(*self)) by {
            reveal(input_json);
        }
    }

    fn parse(s: &[u8], pos: usize) -> (parsed: Option<(Input, usize)>) {
        proof {
            reveal_strlit("{\"txid\":");
            reveal_strlit(",\"signature\":");
            reveal_strlit("}");
        }
        let opened = expect_text(s, pos, "{\"txid\":");
        assert forall|input: Input| #[trigger]
            matches_at(s@, pos as int, input_json(input)) implies opened is Some by {
            lemma_input_layout(s@, pos as int, input);
        }
        let pos1 = match opened {
            Some(p) => p,
            None => {
                return None;
            },
        };
        let first = parse_bytes_json::<32>(s, pos1);
        assert forall|input: Input| #[trigger]
            matches_at(s@, pos as int, input_json(input)) implies first == Some(
            (input.txid, (pos1 + bytes_json(input.txid@).len()) as usize),
        ) by {
            lemma_input_layout(s@, pos as int, input);
            assert(matches_at(s@, pos1 as int, bytes_json(input.txid@)));
        }
        let (txid, pos2) = match first {
            Some(pair) => pair,
            None => {
                return None;
            },
        };
        let keyed = expect_text(s, pos2, ",\"signature\":");
        assert forall|input: Input| #[trigger]
            matches_at(s@, pos as int, input_json(input)) implies keyed is Some by {
            lemma_input_layout(s@, pos as int, input);
        }
        let pos3 = match keyed {
            Some(p) => p,
            None => {
                return None;
            },
        };
        let second = parse_bytes_json::<64>(s, pos3);
        assert forall|input: Input| #[trigger]
            matches_at(s@, pos as int, input_json(input)) implies second == Some(
            (input.signature, (pos3 + bytes_json(input.signature@).len()) as usize),
        ) by {
            lemma_input_layout(s@, pos as int, input);
            assert(matches_at(s@, pos3 as int, bytes_json(input.signature@)));
        }
        let (signature, pos4) = match second {
            Some(pair) => pair,
            None => {
                return None;
            },
        };
        let closed = expect_text(s, pos4, "}");
        assert forall|input: Input| #[trigger]
            matches_at(s@, pos as int, input_json(input)) implies closed is Some by {
            lemma_input_layout(s@, pos as int, input);
        }
        let pos5 = match closed {
            Some(p) => p,
            None => {
                return None;
            },
        };
        let input = Input { txid, signature };
        proof {
            lemma_input_layout(s@, pos as int, input);
            assert forall|other: Input| #[trigger]
                matches_at(s@, pos as int, input_json(other)) implies other == input by {
                lemma_input_layout(s@, pos as int, other);
                assert(other.txid == txid);
                assert(other.signature == signature);
            }
        }
        Some((input, pos5))
    }
}

/// The wire text of a transaction.
#[verifier::opaque]
pub open spec fn tx_json(tx: TxModel) -> Seq<u8> {
    ascii("{\"txid\":"@) + bytes_json(tx.txid@) + ascii(",\"inputs\":"@) + list_json::<Input>(
        tx.inputs,
    ) + ascii(",\"outputs\":"@) + list_json::<Output>(tx.outputs) + ascii("}"@)
}


/// Where the parts of a transaction's wire text stand.
proof fn lemma_tx_layout(s: Seq<u8>, pos: int, tx: TxModel)
    ensures
        matches_at(s, pos, tx_json(tx)) <==> ({
            let txid = bytes_json(tx.txid@);
            let inputs = list_json::<Input>(tx.inputs);
            let outputs = list_json::<Output>(tx.outputs);
            &&& matches_at(s, pos, ascii("{\"txid\":"@))
            &&& matches_at(s, pos + 8, txid)
            &&& matches_at(s, pos + 8 + txid.len(), ascii(",\"inputs\":"@))
            &&& matches_at(s, pos + 8 + txid.len() + 10, inputs)
            &&& matches_at(s, pos + 8 + txid.len() + 10 + inputs.len(), ascii(",\"outputs\":"@))
            &&& matches_at(s, pos + 8 + txid.len() + 10 + inputs.len() + 11, outputs)
            &&& matches_at(
                s,
                pos + 8 + txid.len() + 10 + inputs.len() + 11 + outputs.len(),
                ascii("}"@),
            )
        }),
        tx_json(tx).len() == ({
            let txid = bytes_json(tx.txid@);
            let inputs = list_json::<Input>(tx.inputs);
            let outputs = list_json::<Output>(tx.outputs);
            8 + txid.len() + 10 + inputs.len() + 11 + outputs.len() + 1
        }),
{
    reveal(tx_json);
    reveal_strlit("{\"txid\":");
    reveal_strlit(",\"inputs\":");
    reveal_strlit(",\"outputs\":");
    reveal_strlit("}");
    let a = ascii("{\"txid\":"@);
    let b = bytes_json(tx.txid@);
    let c = ascii(",\"inputs\":"@);
    let d = list_json::<Input>(tx.inputs);
    let e = ascii(",\"outputs\":"@);
    let f = list_json::<Output>(tx.outputs);
    let g = ascii("}"@);
    lemma_matches_concat(s, pos, a + b + c + d + e + f, g);
    lemma_matches_concat(s, pos, a + b + c + d + e, f);
    lemma_matches_concat(s, pos, a + b + c + d, e);
    lemma_matches_concat(s, pos, a + b + c, d);
    lemma_matches_concat(s, pos, a + b, c);
    lemma_matches_concat(s, pos, a, b);
}


impl Wire for Tx {
    type Model = TxModel;

    open spec fn model(&self) -> TxModel {
        self@
    }

    open spec fn json(value: TxModel) -> Seq<u8> {
        tx_json(value)
    }

    proof fn lemma_opens_with_brace(value: TxModel) {
        reveal(tx_json);
        reveal_strlit("{\"txid\":");
    }

    fn push(&self, out: &mut Vec<u8>) {
        proof {
            reveal_strlit("{\"txid\":");
            reveal_strlit(",\"inputs\":");
            reveal_strlit(",\"outputs\":");
            reveal_strlit("}");
        }
        push_text(out, "{\"txid\":");
        push_bytes_json(out, self.txid.as_slice());
        push_text(out, ",\"inputs\":");
        push_list(out, &self.inputs);
        push_text(out, ",\"outputs\":");
        push_list(out, &self.outputs);
        push_text(out, "}");
        assert(out@ =~= old(out)@ + tx_json(self@)) by {
            reveal(tx_json);
            assert(models::<Input>(self.inputs@) =~= self@.inputs);
            assert(models::<Output>(self.outputs@) =~= self@.outputs);
        }
    }

    fn parse(s: &[u8], pos: usize) -> (parsed: Option<(Tx, usize)>) {
        proof {
            reveal_strlit("{\"txid\":");
            reveal_strlit(",\"inputs\":");
            reveal_strlit(",\"outputs\":");
            reveal_strlit("}");
        }
        let opened = expect_text(s, pos, "{\"txid\":");
        assert forall|model: TxModel| #[trigger]
            matches_at(s@, pos as int, tx_json(model)) implies opened is Some by {
            lemma_tx_layout(s@, pos as int, model);
        }
        let pos1 = match opened {
            Some(p) => p,
            None => {
                return None;
            },
        };
        let id = parse_bytes_json::<32>(s, pos1);
        assert forall|model: TxModel| #[trigger]
            matches_at(s@, pos as int, tx_json(model)) implies id == Some(
            (model.txid, (pos1 + bytes_json(model.txid@).len()) as usize),
        ) by {
            lemma_tx_layout(s@, pos as int, model);
            assert(matches_at(s@, pos1 as int, bytes_json(model.txid@)));
        }
        let (txid, pos2) = match id {
            Some(pair) => pair,
            None => {
                return None;
            },
        };
        let keyed = expect_text(s, pos2, ",\"inputs\":");
        assert forall|model: TxModel| #[trigger]
            matches_at(s@, pos as int, tx_json(model)) implies keyed is Some by {
            lemma_tx_layout(s@, pos as int, model);
        }
        let pos3 = match keyed {
            Some(p) => p,
            None => {
                return None;
            },
        };
        let spent = parse_list::<Input>(s, pos3);
        assert(spent matches Some((found, end)) ==> models::<Input>(found@) =~= found@);
        assert forall|model: TxModel| #[trigger]
            matches_at(s@, pos as int, tx_json(model)) implies (spent matches Some((found, end))
            && found@ == model.inputs && end == pos3 + list_json::<Input>(model.inputs).len()) by {
            lemma_tx_layout(s@, pos as int, model);
            assert(matches_at(s@, pos3 as int, list_json::<Input>(model.inputs)));
        }
        let (inputs, pos4) = match spent {
            Some(pair) => pair,
            None => {
                return None;
            },
        };
        let keyed = expect_text(s, pos4, ",\"outputs\":");
        assert forall|model: TxModel| #[trigger]
            matches_at(s@, pos as int, tx_json(model)) implies keyed is Some by {
            lemma_tx_layout(s@, pos as int, model);
        }
        let pos5 = match keyed {
            Some(p) => p,
            None => {
                return None;
            },
        };
        let paid = parse_list::<Output>(s, pos5);
        assert(paid matches Some((found, end)) ==> models::<Output>(found@) =~= found@);
        assert forall|model: TxModel| #[trigger]
            matches_at(s@, pos as int, tx_json(model)) implies (paid matches Some((found, end))
            && found@ == model.outputs && end == pos5 + list_json::<Output>(
            model.outputs,
        ).len()) by {
            lemma_tx_layout(s@, pos as int, model);
            assert(matches_at(s@, pos5 as int, list_json::<Output>(model.outputs)));
        }
        let (outputs, pos6) = match paid {
            Some(pair) => pair,
            None => {
                return None;
            },
        };
        let closed = expect_text(s, pos6, "}");
        assert forall|model: TxModel| #[trigger]
            matches_at(s@, pos as int, tx_json(model)) implies closed is Some by {
            lemma_tx_layout(s@, pos as int, model);
        }
        let pos7 = match closed {
            Some(p) => p,
            None => {
                return None;
            },
        };
        let tx = Tx { txid, inputs, outputs };
        proof {
            lemma_tx_layout(s@, pos as int, tx@);
            assert forall|model: TxModel| #[trigger]
                matches_at(s@, pos as int, tx_json(model)) implies tx@ == model by {
                lemma_tx_layout(s@, pos as int, model);
                assert(model.txid == txid);
            }
        }
        Some((tx, pos7))
    }
}

/// The opening of a block's wire text: the index, the hash and the previous
/// hash, up to the key of the transactions.
#[verifier::opaque]
pub open spec fn head_json(index: u32, hash: [u8; 32], previous_hash: [u8; 32]) -> Seq<u8> {
    ascii("{\"index\":"@) + decimal(index as nat) + ascii(",\"hash\":"@) + bytes_json(hash@)
        + ascii(",\"previous_hash\":"@) + bytes_json(previous_hash@)
        + ascii(",\"transactions\":"@)
}

/// Appends the opening of a block's wire text to `out`.
fn push_head(out: &mut Vec<u8>, index: u32, hash: [u8; 32], previous_hash: [u8; 32])
    ensures
        final(out)@ == old(out)@ + head_json(index, hash, previous_hash),
{
    proof {
        reveal_strlit("{\"index\":");
        reveal_strlit(",\"hash\":");
        reveal_strlit(",\"previous_hash\":");
        reveal_strlit(",\"transactions\":");
    }
    push_text(out, "{\"index\":");
    push_decimal(out, index as u64);
    push_text(out, ",\"hash\":");
    push_bytes_json(out, hash.as_slice());
    push_text(out, ",\"previous_hash\":");
    push_bytes_json(out, previous_hash.as_slice());
    push_text(out, ",\"transactions\":");
    assert(out@ =~= old(out)@ + head_json(index, hash, previous_hash)) by {
        reveal(head_json);
    }
}

/// Where the parts of this text stand, and what follows its numbers.
proof fn lemma_head_layout(
    s: Seq<u8>,
    pos: int,
    index: u32,
    hash: [u8; 32],
    previous_hash: [u8; 32],
)
    ensures
        ({
            let index_text = decimal(index as nat);
            let hash_text = bytes_json(hash@);
            let previous_hash_text = bytes_json(previous_hash@);
            let at1 = pos + 9;
            let at2 = at1 + index_text.len();
            let at3 = at2 + 8;
            let at4 = at3 + hash_text.len();
            let at5 = at4 + 17;
            let at6 = at5 + previous_hash_text.len();
            let at7 = at6 + 16;
            &&& matches_at(s, pos, head_json(index, hash, previous_hash)) <==> {
                &&& matches_at(s, pos, ascii("{\"index\":"@))
                &&& matches_at(s, at1, index_text)
                &&& matches_at(s, at2, ascii(",\"hash\":"@))
                &&& matches_at(s, at3, hash_text)
                &&& matches_at(s, at4, ascii(",\"previous_hash\":"@))
                &&& matches_at(s, at5, previous_hash_text)
                &&& matches_at(s, at6, ascii(",\"transactions\":"@))
            }
            &&& matches_at(s, pos, head_json(index, hash, previous_hash)) ==> {
                &&& ends_number(s, at2)
            }
            &&& pos + head_json(index, hash, previous_hash).len() == at7
        }),
{
    reveal(head_json);
    reveal_strlit("{\"index\":");
    reveal_strlit(",\"hash\":");
    reveal_strlit(",\"previous_hash\":");
    reveal_strlit(",\"transactions\":");
    let a = ascii("{\"index\":"@);
    let b = decimal(index as nat);
    let c = ascii(",\"hash\":"@);
    let d = bytes_json(hash@);
    let e = ascii(",\"previous_hash\":"@);
    let f = bytes_json(previous_hash@);
    let g = ascii(",\"transactions\":"@);
    lemma_matches_concat(s, pos, a + b + c + d + e + f, g);
    lemma_matches_concat(s, pos, a + b + c + d + e, f);
    lemma_matches_concat(s, pos, a + b + c + d, e);
    lemma_matches_concat(s, pos, a + b + c, d);
    lemma_matches_concat(s, pos, a + b, c);
    lemma_matches_concat(s, pos, a, b);
    if matches_at(s, pos, head_json(index, hash, previous_hash)) {
        lemma_matches_byte(s, pos + (a + b).len(), c, 0);
    }
}

/// Reads the opening of a block's wire text at `pos`. Returns the index, the
/// hash and the previous hash, and the position after the opening.
fn parse_head(s: &[u8], pos: usize) -> (parsed: Option<((u32, [u8; 32], [u8; 32]), usize)>)
    requires
        pos <= s.len(),
    ensures
        parsed matches Some(((index, hash, previous_hash), end)) ==> matches_at(
            s@,
            pos as int,
            head_json(index, hash, previous_hash),
        ) && end == pos + head_json(index, hash, previous_hash).len(),
        forall|index: u32, hash: [u8; 32], previous_hash: [u8; 32]| #[trigger]
            matches_at(s@, pos as int, head_json(index, hash, previous_hash)) ==> parsed == Some(
                (
                    (index, hash, previous_hash),
                    (pos + head_json(index, hash, previous_hash).len()) as usize,
                ),
            ),
{
    proof {
        reveal_strlit("{\"index\":");
        reveal_strlit(",\"hash\":");
        reveal_strlit(",\"previous_hash\":");
        reveal_strlit(",\"transactions\":");
    }
    let key = expect_text(s, pos, "{\"index\":");
    assert forall|index: u32, hash: [u8; 32], previous_hash: [u8; 32]| #[trigger]
        matches_at(s@, pos as int, head_json(index, hash, previous_hash)) implies key is Some by {
        lemma_head_layout(s@, pos as int, index, hash, previous_hash);
    }
    let pos1 = match key {
        Some(p) => p,
        None => {
            return None;
        },
    };
    let number = parse_number(s, pos1);
    assert forall|index: u32, hash: [u8; 32], previous_hash: [u8; 32]| #[trigger]
        matches_at(s@, pos as int, head_json(index, hash, previous_hash)) implies number == Some(
        (index as u64, (pos1 + decimal(index as nat).len()) as usize),
    ) by {
        lemma_head_layout(s@, pos as int, index, hash, previous_hash);
        assert(matches_at(s@, pos1 as int, decimal((index as u64) as nat)));
    }
    let (read_index, pos2) = match number {
        Some(pair) => pair,
        None => {
            return None;
        },
    };
    if read_index > 0xffff_ffff {
        return None;
    }
    let read_index = read_index as u32;
    let key = expect_text(s, pos2, ",\"hash\":");
    assert forall|index: u32, hash: [u8; 32], previous_hash: [u8; 32]| #[trigger]
        matches_at(s@, pos as int, head_json(index, hash, previous_hash)) implies key is Some by {
        lemma_head_layout(s@, pos as int, index, hash, previous_hash);
    }
    let pos3 = match key {
        Some(p) => p,
        None => {
            return None;
        },
    };
    let list = parse_bytes_json::<32>(s, pos3);
    assert forall|index: u32, hash: [u8; 32], previous_hash: [u8; 32]| #[trigger]
        matches_at(s@, pos as int, head_json(index, hash, previous_hash)) implies list == Some(
        (hash, (pos3 + bytes_json(hash@).len()) as usize),
    ) by {
        lemma_head_layout(s@, pos as int, index, hash, previous_hash);
        assert(matches_at(s@, pos3 as int, bytes_json(hash@)));
    }
    let (read_hash, pos4) = match list {
        Some(pair) => pair,
        None => {
            return None;
        },
    };
    let key = expect_text(s, pos4, ",\"previous_hash\":");
    assert forall|index: u32, hash: [u8; 32], previous_hash: [u8; 32]| #[trigger]
        matches_at(s@, pos as int, head_json(index, hash, previous_hash)) implies key is Some by {
        lemma_head_layout(s@, pos as int, index, hash, previous_hash);
    }
    let pos5 = match key {
        Some(p) => p,
        None => {
            return None;
        },
    };
    let list = parse_bytes_json::<32>(s, pos5);
    assert forall|index: u32, hash: [u8; 32], previous_hash: [u8; 32]| #[trigger]
        matches_at(s@, pos as int, head_json(index, hash, previous_hash)) implies list == Some(
        (previous_hash, (pos5 + bytes_json(previous_hash@).len()) as usize),
    ) by {
        lemma_head_layout(s@, pos as int, index, hash, previous_hash);
        assert(matches_at(s@, pos5 as int, bytes_json(previous_hash@)));
    }
    let (read_previous_hash, pos6) = match list {
        Some(pair) => pair,
        None => {
            return None;
        },
    };
    let key = expect_text(s, pos6, ",\"transactions\":");
    assert forall|index: u32, hash: [u8; 32], previous_hash: [u8; 32]| #[trigger]
        matches_at(s@, pos as int, head_json(index, hash, previous_hash)) implies key is Some by {
        lemma_head_layout(s@, pos as int, index, hash, previous_hash);
    }
    let pos7 = match key {
        Some(p) => p,
        None => {
            return None;
        },
    };
    proof {
        lemma_head_layout(s@, pos as int, read_index, read_hash, read_previous_hash);
        assert forall|index: u32, hash: [u8; 32], previous_hash: [u8; 32]| #[trigger]
        matches_at(s@, pos as int, head_json(index, hash, previous_hash)) implies (
            index,
            hash,
            previous_hash,
        ) == (read_index, read_hash, read_previous_hash) by {
            lemma_head_layout(s@, pos as int, index, hash, previous_hash);
        }
    }
    Some(((read_index, read_hash, read_previous_hash), pos7))
}

/// The end of a block's wire text: the time, the nonce and the target, from
/// the comma after the transactions to the closing brace.
#[verifier::opaque]
pub open spec fn tail_json(time: u64, nonce: u64, target: u64) -> Seq<u8> {
    ascii(",\"time\":"@) + decimal(time as nat) + ascii(",\"nonce\":"@) + decimal(nonce as nat)
        + ascii(",\"target\":"@) + decimal(target as nat) + ascii("}"@)
}

/// Appends the end of a block's wire text to `out`.
fn push_tail(out: &mut Vec<u8>, time: u64, nonce: u64, target: u64)
    ensures
        final(out)@ == old(out)@ + tail_json(time, nonce, target),
{
    proof {
        reveal_strlit(",\"time\":");
        reveal_strlit(",\"nonce\":");
        reveal_strlit(",\"target\":");
        reveal_strlit("}");
    }
    push_text(out, ",\"time\":");
    push_decimal(out, time);
    push_text(out, ",\"nonce\":");
    push_decimal(out, nonce);
    push_text(out, ",\"target\":");
    push_decimal(out, target);
    push_text(out, "}");
    assert(out@ =~= old(out)@ + tail_json(time, nonce, target)) by {
        reveal(tail_json);
    }
}

/// Where the parts of this text stand, and what follows its numbers.
proof fn lemma_tail_layout(s: Seq<u8>, pos: int, time: u64, nonce: u64, target: u64)
    ensures
        ({
            let time_text = decimal(time as nat);
            let nonce_text = decimal(nonce as nat);
            let target_text = decimal(target as nat);
            let at1 = pos + 8;
            let at2 = at1 + time_text.len();
            let at3 = at2 + 9;
            let at4 = at3 + nonce_text.len();
            let at5 = at4 + 10;
            let at6 = at5 + target_text.len();
            let at7 = at6 + 1;
            &&& matches_at(s, pos, tail_json(time, nonce, target)) <==> {
                &&& matches_at(s, pos, ascii(",\"time\":"@))
                &&& matches_at(s, at1, time_text)
                &&& matches_at(s, at2, ascii(",\"nonce\":"@))
                &&& matches_at(s, at3, nonce_text)
                &&& matches_at(s, at4, ascii(",\"target\":"@))
                &&& matches_at(s, at5, target_text)
                &&& matches_at(s, at6, ascii("}"@))
            }
            &&& matches_at(s, pos, tail_json(time, nonce, target)) ==> {
                &&& ends_number(s, at2)
                &&& ends_number(s, at4)
                &&& ends_number(s, at6)
            }
            &&& pos + tail_json(time, nonce, target).len() == at7
        }),
{
    reveal(tail_json);
    reveal_strlit(",\"time\":");
    reveal_strlit(",\"nonce\":");
    reveal_strlit(",\"target\":");
    reveal_strlit("}");
    let a = ascii(",\"time\":"@);
    let b = decimal(time as nat);
    let c = ascii(",\"nonce\":"@);
    let d = decimal(nonce as nat);
    let e = ascii(",\"target\":"@);
    let f = decimal(target as nat);
    let g = ascii("}"@);
    lemma_matches_concat(s, pos, a + b + c + d + e + f, g);
    lemma_matches_concat(s, pos, a + b + c + d + e, f);
    lemma_matches_concat(s, pos, a + b + c + d, e);
    lemma_matches_concat(s, pos, a + b + c, d);
    lemma_matches_concat(s, pos, a + b, c);
    lemma_matches_concat(s, pos, a, b);
    if matches_at(s, pos, tail_json(time, nonce, target)) {
        lemma_matches_byte(s, pos + (a + b).len(), c, 0);
        lemma_matches_byte(s, pos + (a + b + c + d).len(), e, 0);
        lemma_matches_byte(s, pos + (a + b + c + d + e + f).len(), g, 0);
    }
}

/// Reads the end of a block's wire text at `pos`. Returns the time, the nonce
/// and the target, and the position after the closing brace.
fn parse_tail(s: &[u8], pos: usize) -> (parsed: Option<((u64, u64, u64), usize)>)
    requires
        pos <= s.len(),
    ensures
        parsed matches Some(((time, nonce, target), end)) ==> matches_at(
            s@,
            pos as int,
            tail_json(time, nonce, target),
        ) && end == pos + tail_json(time, nonce, target).len(),
        forall|time: u64, nonce: u64, target: u64| #[trigger]
            matches_at(s@, pos as int, tail_json(time, nonce, target)) ==> parsed == Some(
                ((time, nonce, target), (pos + tail_json(time, nonce, target).len()) as usize),
            ),
{
    proof {
        reveal_strlit(",\"time\":");
        reveal_strlit(",\"nonce\":");
        reveal_strlit(",\"target\":");
        reveal_strlit("}");
    }
    let key = expect_text(s, pos, ",\"time\":");
    assert forall|time: u64, nonce: u64, target: u64| #[trigger]
        matches_at(s@, pos as int, tail_json(time, nonce, target)) implies key is Some by {
        lemma_tail_layout(s@, pos as int, time, nonce, target);
    }
    let pos1 = match key {
        Some(p) => p,
        None => {
            return None;
        },
    };
    let number = parse_number(s, pos1);
    assert forall|time: u64, nonce: u64, target: u64| #[trigger]
        matches_at(s@, pos as int, tail_json(time, nonce, target)) implies number == Some(
        (time as u64, (pos1 + decimal(time as nat).len()) as usize),
    ) by {
        lemma_tail_layout(s@, pos as int, time, nonce, target);
        assert(matches_at(s@, pos1 as int, decimal((time as u64) as nat)));
    }
    let (read_time, pos2) = match number {
        Some(pair) => pair,
        None => {
            return None;
        },
    };
    let key = expect_text(s, pos2, ",\"nonce\":");
    assert forall|time: u64, nonce: u64, target: u64| #[trigger]
        matches_at(s@, pos as int, tail_json(time, nonce, target)) implies key is Some by {
        lemma_tail_layout(s@, pos as int, time, nonce, target);
    }
    let pos3 = match key {
        Some(p) => p,
        None => {
            return None;
        },
    };
    let number = parse_number(s, pos3);
    assert forall|time: u64, nonce: u64, target: u64| #[trigger]
        matches_at(s@, pos as int, tail_json(time, nonce, target)) implies number == Some(
        (nonce as u64, (pos3 + decimal(nonce as nat).len()) as usize),
    ) by {
        lemma_tail_layout(s@, pos as int, time, nonce, target);
        assert(matches_at(s@, pos3 as int, decimal((nonce as u64) as nat)));
    }
    let (read_nonce, pos4) = match number {
        Some(pair) => pair,
        None => {
            return None;
        },
    };
    let key = expect_text(s, pos4, ",\"target\":");
    assert forall|time: u64, nonce: u64, target: u64| #[trigger]
        matches_at(s@, pos as int, tail_json(time, nonce, target)) implies key is Some by {
        lemma_tail_layout(s@, pos as int, time, nonce, target);
    }
    let pos5 = match key {
        Some(p) => p,
        None => {
            return None;
        },
    };
    let number = parse_number(s, pos5);
    assert forall|time: u64, nonce: u64, target: u64| #[trigger]
        matches_at(s@, pos as int, tail_json(time, nonce, target)) implies number == Some(
        (target as u64, (pos5 + decimal(target as nat).len()) as usize),
    ) by {
        lemma_tail_layout(s@, pos as int, time, nonce, target);
        assert(matches_at(s@, pos5 as int, decimal((target as u64) as nat)));
    }
    let (read_target, pos6) = match number {
        Some(pair) => pair,
        None => {
            return None;
        },
    };
    let key = expect_text(s, pos6, "}");
    assert forall|time: u64, nonce: u64, target: u64| #[trigger]
        matches_at(s@, pos as int, tail_json(time, nonce, target)) implies key is Some by {
        lemma_tail_layout(s@, pos as int, time, nonce, target);
    }
    let pos7 = match key {
        Some(p) => p,
        None => {
            return None;
        },
    };
    proof {
        lemma_tail_layout(s@, pos as int, read_time, read_nonce, read_target);
        assert forall|time: u64, nonce: u64, target: u64| #[trigger]
        matches_at(s@, pos as int, tail_json(time, nonce, target)) implies (
            time,
            nonce,
            target,
        ) == (read_time, read_nonce, read_target) by {
            lemma_tail_layout(s@, pos as int, time, nonce, target);
        }
    }
    Some(((read_time, read_nonce, read_target), pos7))
}

/// The wire text of a block.
#[verifier::opaque]
pub open spec fn block_json(block: BlockModel) -> Seq<u8> {
    head_json(block.index, block.hash, block.previous_hash) + list_json::<Tx>(
        block.transactions,
    ) + tail_json(block.time, block.nonce, block.target)
}


/// Where the parts of a block's wire text stand.
proof fn lemma_block_layout(s: Seq<u8>, pos: int, block: BlockModel)
    ensures
        matches_at(s, pos, block_json(block)) <==> ({
            let head = head_json(block.index, block.hash, block.previous_hash);
            let txs = list_json::<Tx>(block.transactions);
            let tail = tail_json(block.time, block.nonce, block.target);
            &&& matches_at(s, pos, head)
            &&& matches_at(s, pos + head.len(), txs)
            &&& matches_at(s, pos + head.len() + txs.len(), tail)
        }),
        block_json(block).len() == head_json(block.index, block.hash, block.previous_hash).len()
            + list_json::<Tx>(block.transactions).len() + tail_json(
            block.time,
            block.nonce,
            block.target,
        ).len(),
{
    reveal(block_json);
    let a = head_json(block.index, block.hash, block.previous_hash);
    let b = list_json::<Tx>(block.transactions);
    let c = tail_json(block.time, block.nonce, block.target);
    lemma_matches_concat(s, pos, a + b, c);
    lemma_matches_concat(s, pos, a, b);
}


impl Wire for Block {
    type Model = BlockModel;

    open spec fn model(&self) -> BlockModel {
        self@
    }

    open spec fn json(value: BlockModel) -> Seq<u8> {
        block_json(value)
    }

    proof fn lemma_opens_with_brace(value: BlockModel) {
        reveal(block_json);
        reveal(head_json);
        reveal_strlit("{\"index\":");
    }

    fn push(&self, out: &mut Vec<u8>) {
        push_head(out, self.index, self.hash, self.previous_hash);
        push_list(out, &self.transactions);
        push_tail(out, self.time, self.nonce, self.target);
        assert(out@ =~= old(out)@ + block_json(self@)) by {
            reveal(block_json);
            assert(models::<Tx>(self.transactions@) =~= self@.transactions);
        }
    }

    fn parse(s: &[u8], pos: usize) -> (parsed: Option<(Block, usize)>) {
        let head = parse_head(s, pos);
        assert forall|model: BlockModel| #[trigger]
            matches_at(s@, pos as int, block_json(model)) implies head == Some(
            (
                (model.index, model.hash, model.previous_hash),
                (pos + head_json(model.index, model.hash, model.previous_hash).len()) as usize,
            ),
        ) by {
            lemma_block_layout(s@, pos as int, model);
        }
        let ((index, hash, previous_hash), pos1) = match head {
            Some(pair) => pair,
            None => {
                return None;
            },
        };
        let list = parse_list::<Tx>(s, pos1);
        assert(list matches Some((found, end)) ==> models::<Tx>(found@) =~= tx_models(found@));
        assert forall|model: BlockModel| #[trigger]
            matches_at(s@, pos as int, block_json(model)) implies (list matches Some((found, after))
            && tx_models(found@) == model.transactions && after == pos1 + list_json::<Tx>(
            model.transactions,
        ).len()) by {
            lemma_block_layout(s@, pos as int, model);
            assert(matches_at(s@, pos1 as int, list_json::<Tx>(model.transactions)));
        }
        let (transactions, pos2) = match list {
            Some(pair) => pair,
            None => {
                return None;
            },
        };
        let tail = parse_tail(s, pos2);
        assert forall|model: BlockModel| #[trigger]
            matches_at(s@, pos as int, block_json(model)) implies tail == Some(
            (
                (model.time, model.nonce, model.target),
                (pos2 + tail_json(model.time, model.nonce, model.target).len()) as usize,
            ),
        ) by {
            lemma_block_layout(s@, pos as int, model);
            assert(matches_at(s@, pos2 as int, tail_json(model.time, model.nonce, model.target)));
        }
        let ((time, nonce, target), pos3) = match tail {
            Some(pair) => pair,
            None => {
                return None;
            },
        };
        let block = Block { index, hash, previous_hash, transactions, time, nonce, target };
        proof {
            lemma_block_layout(s@, pos as int, block@);
            assert forall|model: BlockModel| #[trigger]
                matches_at(s@, pos as int, block_json(model)) implies block@ == model && pos3 == pos
                + block_json(model).len() by {
                lemma_block_layout(s@, pos as int, model);
            }
        }
        Some((block, pos3))
    }
}

/// Why a payload is not a block.
#[derive(Clone, Copy, Debug, PartialEq, Eq, Structural)]
pub enum DecodeError {
    /// The payload does not start with the wire text of any block.
    Malformed,
    /// The payload starts with the wire text of a block, and goes on.
    TrailingBytes,
}

/// Whether `payload` starts with the wire text of some block.
pub open spec fn starts_with_block(payload: Seq<u8>) -> bool {
    exists|block: BlockModel| #[trigger] matches_at(payload, 0, block_json(block))
}

/// Whether `payload` is the wire text of some block.
pub open spec fn is_block_json(payload: Seq<u8>) -> bool {
    exists|block: BlockModel| payload == #[trigger] block_json(block)
}

impl Block {
    /// The wire text of the block.
    pub fn to_json(&self) -> (payload: Vec<u8>)
        ensures
            payload@ == block_json(self@),
    {
        let mut payload: Vec<u8> = Vec::new();
        self.push(&mut payload);
        assert(payload@ =~= block_json(self@));
        payload
    }

    /// Decodes a payload. It is a block exactly when it is the wire text of
    /// one, and then it is that block: decoding undoes encoding.
    pub fn from_json(payload: &[u8]) -> (decoded: Result<Block, DecodeError>)
        ensures
            decoded matches Ok(block) ==> payload@ == block_json(block@),
            forall|model: BlockModel|
                payload@ == #[trigger] block_json(model) ==> (decoded matches Ok(block) && block@
                    == model),
            decoded is Ok <==> is_block_json(payload@),
            decoded == Err::<Block, DecodeError>(DecodeError::Malformed) <==> !starts_with_block(
                payload@,
            ),
    {
        let parsed = Block::parse(payload, 0);
        proof {
            assert forall|model: BlockModel|
                payload@ == #[trigger] block_json(model) implies matches_at(
                payload@,
                0,
                Block::json(model),
            ) by {
                assert(payload@.subrange(0, payload@.len() as int) =~= payload@);
            }
            assert forall|model: BlockModel| #[trigger]
                matches_at(payload@, 0, block_json(model)) implies matches_at(
                payload@,
                0,
                Block::json(model),
            ) by {}
        }
        match parsed {
            Some((block, end)) => {
                if end == payload.len() {
                    assert(payload@.subrange(0, end as int) =~= payload@);
                    Ok(block)
                } else {
                    Err(DecodeError::TrailingBytes)
                }
            },
            None => Err(DecodeError::Malformed),
        }
    }
}

} // verus!

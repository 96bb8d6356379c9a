//! The human-readable text of each refusal: the message the chain gives for
//! a `ChainError`, with numbers in decimal and byte arrays and outpoints as
//! Rust's `Debug` formatting shows them.
use vstd::prelude::*;

use crate::blockchain::blockchain::ChainError;
use crate::transaction::transaction::OutPoint;

verus! {

/// The text of one decimal digit.
pub open spec fn digit_text(d: nat) -> Seq<char> {
    if d == 0 {
        "0"@
    } else if d == 1 {
        "1"@
    } else if d == 2 {
        "2"@
    } else if d == 3 {
        "3"@
    } else if d == 4 {
        "4"@
    } else if d == 5 {
        "5"@
    } else if d == 6 {
        "6"@
    } else if d == 7 {
        "7"@
    } else if d == 8 {
        "8"@
    } else {
        "9"@
    }
}

/// A number written in decimal, without leading zeros.
pub open spec fn decimal_text(n: nat) -> Seq<char>
    decreases n,
{
    if n < 10 {
        digit_text(n)
    } else {
        decimal_text(n / 10) + digit_text(n % 10)
    }
}

/// The bytes in decimal, separated by `", "`.
pub open spec fn byte_items_text(b: Seq<u8>) -> Seq<char>
    decreases b.len(),
{
    if b.len() == 0 {
        Seq::empty()
    } else if b.len() == 1 {
        decimal_text(b[0] as nat)
    } else {
        byte_items_text(b.drop_last()) + ", "@ + decimal_text(b.last() as nat)
    }
}

/// A byte array as `Debug` shows it: `[1, 2, 3]`.
pub open spec fn byte_list_text(b: Seq<u8>) -> Seq<char> {
    "["@ + byte_items_text(b) + "]"@
}

/// An outpoint as its derived `Debug` shows it.
pub open spec fn outpoint_text(op: OutPoint) -> Seq<char> {
    "OutPoint { txid: "@ + byte_list_text(op.txid@) + ", index: "@ + decimal_text(op.index as nat)
        + " }"@
}

fn append_digit(s: &mut String, d: u8)
    requires
        d < 10,
    ensures
        final(s)@ == old(s)@ + digit_text(d as nat),
{
    if d == 0 {
        s.append("0");
    } else if d == 1 {
        s.append("1");
    } else if d == 2 {
        s.append("2");
    } else if d == 3 {
        s.append("3");
    } else if d == 4 {
        s.append("4");
    } else if d == 5 {
        s.append("5");
    } else if d == 6 {
        s.append("6");
    } else if d == 7 {
        s.append("7");
    } else if d == 8 {
        s.append("8");
    } else {
        s.append("9");
    }
}

fn append_decimal(s: &mut String, n: u128)
    ensures
        final(s)@ == old(s)@ + decimal_text(n as nat),
    decreases n,
{
    if n < 10 {
        append_digit(s, n as u8);
    } else {
        append_decimal(s, n / 10);
        append_digit(s, (n % 10) as u8);
        assert(final(s)@ =~= old(s)@ + decimal_text(n as nat)) by {
            assert(decimal_text(n as nat) == decimal_text((n / 10) as nat) + digit_text(
                (n % 10) as nat,
            ));
        }
    }
}

fn append_byte_list(s: &mut String, b: &[u8])
    ensures
        final(s)@ == old(s)@ + byte_list_text(b@),
{
    s.append("[");
    let ghost start = s@;
    let mut i: usize = 0;
    while i < b.len()
        invariant
            i <= b@.len(),
            s@ == start + byte_items_text(b@.subrange(0, i as int)),
        decreases b@.len() - i,
    {
        let ghost before = s@;
        if i > 0 {
            s.append(", ");
        }
        append_decimal(s, b[i] as u128);
        assert(b@.subrange(0, i + 1).drop_last() =~= b@.subrange(0, i as int));
        assert(s@ =~= start + byte_items_text(b@.subrange(0, i + 1)));
        i = i + 1;
    }
    assert(b@.subrange(0, b@.len() as int) =~= b@);
    s.append("]");
    assert(s@ =~= old(s)@ + byte_list_text(b@));
}

fn append_outpoint(s: &mut String, op: &OutPoint)
    ensures
        final(s)@ == old(s)@ + outpoint_text(*op),
{
    s.append("OutPoint { txid: ");
    append_byte_list(s, op.txid.as_slice());
    s.append(", index: ");
    append_decimal(s, op.index as u128);
    s.append(" }");
    assert(s@ =~= old(s)@ + outpoint_text(*op));
}

impl ChainError {
    /// The message that describes the refusal.
    pub open spec fn message_text(self) -> Seq<char> {
        match self {
            ChainError::GenesisNotFirst => "Cannot add genesis block to non-empty chain"@,
            ChainError::EmptyChain => "Cannot add block to empty chain"@,
            ChainError::InvalidPrevHash { expected, got } => "Invalid prev_block_hash: expected "@
                + byte_list_text(expected@) + ", got "@ + byte_list_text(got@),
            ChainError::InvalidIndex { expected_index, got_index } => "Invalid block index: expected "@
                + decimal_text(expected_index as nat) + ", got "@ + decimal_text(got_index as nat),
            ChainError::Unsigned => "Block must be signed"@,
            ChainError::InvalidSignature => "Invalid block signature"@,
            ChainError::HashMismatch => "Block hash mismatch"@,
            ChainError::NoTransactions => "Block must contain at least one transaction"@,
            ChainError::InvalidStructure(msg) => msg@,
            ChainError::DuplicateInput(op) => "Duplicate input: "@ + outpoint_text(op),
            ChainError::UtxoNotFound(op) => "UTXO not found: "@ + outpoint_text(op),
            ChainError::RecipientMismatch(i) => "Public key does not match UTXO recipient for input "@
                + decimal_text(i as nat),
            ChainError::InvalidInputSignature(i) => "Invalid signature for input "@ + decimal_text(
                i as nat,
            ),
            ChainError::InsufficientInputs { inputs, outputs } => "Invalid transaction: inputs ("@
                + decimal_text(inputs as nat) + ") < outputs ("@ + decimal_text(outputs as nat)
                + ")"@,
        }
    }

    /// The message that describes the refusal, as text.
    pub fn message(&self) -> (s: String)
        ensures
            s@ == self.message_text(),
    {
        match self {
            ChainError::GenesisNotFirst => String::from_str(
                "Cannot add genesis block to non-empty chain",
            ),
            ChainError::EmptyChain => String::from_str("Cannot add block to empty chain"),
            ChainError::InvalidPrevHash { expected, got } => {
                let mut s = String::from_str("Invalid prev_block_hash: expected ");
                append_byte_list(&mut s, expected.as_slice());
                s.append(", got ");
                append_byte_list(&mut s, got.as_slice());
                s
            },
            ChainError::InvalidIndex { expected_index, got_index } => {
                let mut s = String::from_str("Invalid block index: expected ");
                append_decimal(&mut s, *expected_index as u128);
                s.append(", got ");
                append_decimal(&mut s, *got_index as u128);
                s
            },
            ChainError::Unsigned => String::from_str("Block must be signed"),
            ChainError::InvalidSignature => String::from_str("Invalid block signature"),
            ChainError::HashMismatch => String::from_str("Block hash mismatch"),
            ChainError::NoTransactions => String::from_str(
                "Block must contain at least one transaction",
            ),
            ChainError::InvalidStructure(msg) => String::from_str(msg),
            ChainError::DuplicateInput(op) => {
                let mut s = String::from_str("Duplicate input: ");
                append_outpoint(&mut s, op);
                s
            },
            ChainError::UtxoNotFound(op) => {
                let mut s = String::from_str("UTXO not found: ");
                append_outpoint(&mut s, op);
                s
            },
            ChainError::RecipientMismatch(i) => {
                let mut s = String::from_str("Public key does not match UTXO recipient for input ");
                append_decimal(&mut s, *i as u128);
                s
            },
            ChainError::InvalidInputSignature(i) => {
                let mut s = String::from_str("Invalid signature for input ");
                append_decimal(&mut s, *i as u128);
                s
            },
            ChainError::InsufficientInputs { inputs, outputs } => {
                let mut s = String::from_str("Invalid transaction: inputs (");
                append_decimal(&mut s, *inputs);
                s.append(") < outputs (");
                append_decimal(&mut s, *outputs as u128);
                s.append(")");
                s
            },
        }
    }
}

} // verus!

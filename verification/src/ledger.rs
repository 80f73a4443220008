//! Transfer requests and their validation.
//!
//! A transfer of zero units is invalid; any other is acknowledged with a
//! message naming the sender, the receiver and the amount.

use vstd::prelude::*;
use vstd::string::StringExecFns;

verus! {

/// A transfer request.
#[derive(Debug)]
pub struct Transaction {
    /// Who sends the units.
    pub sender: String,
    /// Who receives them.
    pub receiver: String,
    /// How many units move.
    pub amount: u64,
}

/// Acknowledgement of a processed transfer.
#[derive(Debug)]
pub struct TransactionResponse {
    /// Outcome tag.
    pub status: String,
    /// Human-readable acknowledgement.
    pub message: String,
}

/// Why a transfer was refused.
#[derive(Clone, Copy, Debug, PartialEq, Eq, Structural)]
pub enum AppError {
    /// The request violates the transfer rules.
    InvalidTransaction,
}

/// The decimal digit character for `d`.
pub open spec fn digit_char(d: int) -> char {
    if d == 0 {
        '0'
    } else if d == 1 {
        '1'
    } else if d == 2 {
        '2'
    } else if d == 3 {
        '3'
    } else if d == 4 {
        '4'
    } else if d == 5 {
        '5'
    } else if d == 6 {
        '6'
    } else if d == 7 {
        '7'
    } else if d == 8 {
        '8'
    } else {
        '9'
    }
}

/// The decimal digits of `n`, most significant first.
pub open spec fn spec_digits(n: nat) -> Seq<char>
    decreases n,
{
    if n < 10 {
        seq![digit_char(n as int)]
    } else {
        spec_digits(n / 10) + seq![digit_char((n % 10) as int)]
    }
}

/// The acknowledgement text for a successful transfer.
pub open spec fn spec_message(sender: Seq<char>, receiver: Seq<char>, amount: u64) -> Seq<char> {
    "Transaction from "@ + sender + " to "@ + receiver + " of "@ + spec_digits(amount as nat)
        + " units is successful"@
}

/// The one-character string for the decimal digit `d`.
fn digit_str(d: u64) -> (s: &'static str)
    requires
        d < 10,
    ensures
        s@ == seq![digit_char(d as int)],
{
    proof {
        reveal_strlit("0");
        reveal_strlit("1");
        reveal_strlit("2");
        reveal_strlit("3");
        reveal_strlit("4");
        reveal_strlit("5");
        reveal_strlit("6");
        reveal_strlit("7");
        reveal_strlit("8");
        reveal_strlit("9");
    }
    match d {
        0 => "0",
        1 => "1",
        2 => "2",
        3 => "3",
        4 => "4",
        5 => "5",
        6 => "6",
        7 => "7",
        8 => "8",
        _ => "9",
    }
}

/// The decimal text of `n`.
pub fn u64_to_string(n: u64) -> (s: String)
    ensures
        s@ == spec_digits(n as nat),
    decreases n,
{
    if n < 10 {
        digit_str(n).to_owned()
    } else {
        let mut s = u64_to_string(n / 10);
        s.append(digit_str(n % 10));
        s
    }
}

/// Validate and acknowledge a transfer: refused exactly when the amount
/// is zero, otherwise acknowledged with the canonical message.
pub fn process_transaction(sender: String, receiver: String, amount: u64) -> (r: Result<
    TransactionResponse,
    AppError,
>)
    ensures
        r is Err <==> amount == 0,
        r is Err ==> r->Err_0 == AppError::InvalidTransaction,
        r is Ok ==> (r->Ok_0).status@ == "success"@,
        r is Ok ==> (r->Ok_0).message@ == spec_message(sender@, receiver@, amount),
{
    if amount == 0 {
        return Err(AppError::InvalidTransaction);
    }
    let mut message = "Transaction from ".to_owned();
    message.append(sender.as_str());
    message.append(" to ");
    message.append(receiver.as_str());
    message.append(" of ");
    let amount_text = u64_to_string(amount);
    message.append(amount_text.as_str());
    message.append(" units is successful");
    proof {
        assert(message@ =~= spec_message(sender@, receiver@, amount));
    }
    Ok(TransactionResponse { status: "success".to_owned(), message })
}

} // verus!

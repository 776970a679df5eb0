//! Admission control and gas-data assembly of the sponsor service.
//!
//! A client transaction is admitted only when its sender passes the
//! blacklist predicate, its kind is programmable, and every command in it is
//! one the sponsor supports.  The same checks run when gas is requested and
//! again when the completed transaction comes back for the sponsor's
//! signature, so neither call can be bypassed.

use vstd::prelude::*;
use crate::coin::{Address, CoinRef};
use crate::errors::Error;

verus! {

/// The target of a Move call: package address and the module and function
/// names within it.
pub struct MoveCallTarget {
    pub package: Vec<u8>,
    pub module: Vec<u8>,
    pub function: Vec<u8>,
}

/// One command of a programmable transaction, reduced to what admission
/// reads.
pub enum TxCommand {
    MoveCall(MoveCallTarget),
    SplitCoins,
    MergeCoins,
    TransferObjects,
    Publish,
    MakeMoveVec,
    Upgrade,
}

/// The kind of a transaction: a programmable command list, or any of the
/// system kinds the sponsor refuses.
pub enum TxKind {
    Programmable(Vec<TxCommand>),
    Other,
}

/// The gas section of a transaction: payment coins, their owner, the fee
/// price and the budget.
pub struct GasData {
    pub payment: Vec<CoinRef>,
    pub owner: Address,
    pub price: u64,
    pub budget: u64,
}

/// The sponsor's structural view of a client transaction.
pub struct TransactionData {
    pub sender: Address,
    pub kind: TxKind,
    pub gas_data: GasData,
}

/// Whether this sender is barred from the service.  The default policy bars
/// nobody.
pub open spec fn spec_blacklisted(sender: Address) -> bool {
    false
}

/// Whether the sponsor supports this Move call.  The default policy supports
/// every call.
pub open spec fn spec_move_call_supported(target: MoveCallTarget) -> bool {
    true
}

/// Whether one gas budget stays inside the sponsor's policy.  The default
/// policy accepts every budget.
pub open spec fn spec_budget_ok(budget: u64) -> bool {
    true
}

/// Whether a gas section stays inside the sponsor's budget policy: its
/// budget is all the policy reads.
pub open spec fn spec_budget_within_limits(gas_data: GasData) -> bool {
    spec_budget_ok(gas_data.budget)
}

/// Whether the sponsor supports one command: Move calls by the call
/// predicate; splits, merges and transfers always; publishing, upgrades and
/// vector building never.
pub open spec fn spec_command_supported(cmd: TxCommand) -> bool {
    match cmd {
        TxCommand::MoveCall(target) => spec_move_call_supported(target),
        TxCommand::SplitCoins => true,
        TxCommand::MergeCoins => true,
        TxCommand::TransferObjects => true,
        TxCommand::Publish => false,
        TxCommand::MakeMoveVec => false,
        TxCommand::Upgrade => false,
    }
}

/// Whether a transaction passes admission: sender not barred, kind
/// programmable, every command supported.
pub open spec fn spec_tx_supported(tx: TransactionData) -> bool {
    &&& !spec_blacklisted(tx.sender)
    &&& match tx.kind {
        TxKind::Programmable(cmds) => forall|i: int|
            0 <= i < cmds@.len() ==> spec_command_supported(#[trigger] cmds@[i]),
        TxKind::Other => false,
    }
}

/// Full admission: the structural check and the budget policy together.
pub open spec fn spec_admissible(tx: TransactionData) -> bool {
    spec_tx_supported(tx) && spec_budget_within_limits(tx.gas_data)
}

/// Whether this sender is barred from the service.
pub fn is_blacklisted(sender: &Address) -> (r: bool)
    ensures
        r == spec_blacklisted(*sender),
{
    false
}

/// Whether the sponsor supports this Move call.
pub fn is_move_call_supported(target: &MoveCallTarget) -> (r: bool)
    ensures
        r == spec_move_call_supported(*target),
{
    true
}

/// Whether a gas section stays inside the sponsor's budget policy.
pub fn is_gas_budget_within_limits(gas_data: &GasData) -> (r: bool)
    ensures
        r == spec_budget_within_limits(*gas_data),
{
    true
}

/// Runs the structural admission check.
pub fn is_tx_supported(tx: &TransactionData) -> (r: bool)
    ensures
        r == spec_tx_supported(*tx),
{
    if is_blacklisted(&tx.sender) {
        return false;
    }
    let cmds = match &tx.kind {
        TxKind::Programmable(cmds) => cmds,
        TxKind::Other => {
            return false;
        },
    };
    let n = cmds.len();
    let mut i: usize = 0;
    while i < n
        invariant
            tx.kind matches TxKind::Programmable(c) && c == *cmds,
            !spec_blacklisted(tx.sender),
            n == cmds@.len(),
            i <= n,
            forall|j: int| 0 <= j < i ==> spec_command_supported(#[trigger] cmds@[j]),
        decreases n - i,
    {
        match &cmds[i] {
            TxCommand::MoveCall(target) => {
                if !is_move_call_supported(target) {
                    return false;
                }
            },
            TxCommand::SplitCoins => {},
            TxCommand::MergeCoins => {},
            TxCommand::TransferObjects => {},
            TxCommand::Publish => {
                return false;
            },
            TxCommand::MakeMoveVec => {
                return false;
            },
            TxCommand::Upgrade => {
                return false;
            },
        }
        i = i + 1;
    }
    true
}

/// Admission never looks at the gas section's contents: two transactions
/// that differ only there are admitted or refused together.  In particular a
/// transaction whose gas request was accepted is still accepted when it
/// comes back completed, with the sponsor's gas data filled in.
pub proof fn lemma_admission_monotone(tx1: TransactionData, tx2: TransactionData)
    requires
        tx1.sender == tx2.sender,
        tx1.kind == tx2.kind,
    ensures
        spec_admissible(tx1) == spec_admissible(tx2),
{
}

/// The chain's mandatory domain separator for transaction signatures: scope,
/// version and application identifier bytes.
pub open spec fn spec_intent_message(tx_bytes: Seq<u8>) -> Seq<u8> {
    seq![0u8, 0u8, 0u8] + tx_bytes
}

/// Wraps serialized transaction bytes in the signing intent: the payload the
/// wallet actually signs.
pub fn intent_message(tx_bytes: &Vec<u8>) -> (r: Vec<u8>)
    ensures
        r@ == spec_intent_message(tx_bytes@),
{
    let mut r: Vec<u8> = Vec::new();
    r.push(0);
    r.push(0);
    r.push(0);
    let n = tx_bytes.len();
    let mut i: usize = 0;
    while i < n
        invariant
            n == tx_bytes@.len(),
            i <= n,
            r@ =~= seq![0u8, 0u8, 0u8] + tx_bytes@.take(i as int),
        decreases n - i,
    {
        r.push(tx_bytes[i]);
        i = i + 1;
    }
    assert(tx_bytes@.take(n as int) =~= tx_bytes@);
    r
}

} // verus!

use vstd::prelude::*;
use vstd::bytes::{spec_u64_to_le_bytes, u64_to_le_bytes};
use vstd::utf8::encode_utf8;
use crate::error::TransactionError;
use crate::signing::{
    sign, signature_verifies, spec_key_decompresses, spec_public_key_of, spec_signature_verifies,
};

verus! {

/// A transfer request as a client signed it, before the ledger has looked at it.
#[derive(Debug)]
pub struct VerificationTask {
    pub sender_name: String,
    pub receiver_name: String,
    pub amount: u64,
    pub timestamp: i64,
    pub signature: [u8; 64],
    pub sequence: u64,
    pub sender_pubkey: [u8; 32],
}

/// The bytes a sender signs for a transfer: the sender's name, the receiver's
/// name, then amount, timestamp and sequence as 8-byte little-endian numbers
/// (the timestamp in two's complement).
pub open spec fn spec_transfer_message(
    sender_name: Seq<u8>,
    receiver_name: Seq<u8>,
    amount: u64,
    timestamp: i64,
    sequence: u64,
) -> Seq<u8> {
    sender_name + receiver_name + spec_u64_to_le_bytes(amount) + spec_u64_to_le_bytes(
        timestamp as u64,
    ) + spec_u64_to_le_bytes(sequence)
}

fn append_bytes(out: &mut Vec<u8>, bytes: &[u8])
    ensures
        final(out)@ == old(out)@ + bytes@,
{
    let mut i: usize = 0;
    while i < bytes.len()
        invariant
            0 <= i <= bytes@.len(),
            out@ == old(out)@ + bytes@.take(i as int),
        decreases bytes@.len() - i,
    {
        out.push(bytes[i]);
        i += 1;
        assert(bytes@.take(i as int) =~= bytes@.take(i - 1) + seq![bytes@[i - 1]]);
    }
    assert(bytes@.take(bytes@.len() as int) =~= bytes@);
}

/// The message signed for a transfer (see `spec_transfer_message`).
pub fn transfer_message(
    sender_name: &str,
    receiver_name: &str,
    amount: u64,
    timestamp: i64,
    sequence: u64,
) -> (m: Vec<u8>)
    ensures
        m@ == spec_transfer_message(
            encode_utf8(sender_name@),
            encode_utf8(receiver_name@),
            amount,
            timestamp,
            sequence,
        ),
{
    let mut message: Vec<u8> = Vec::new();
    append_bytes(&mut message, sender_name.as_bytes());
    append_bytes(&mut message, receiver_name.as_bytes());
    let a = u64_to_le_bytes(amount);
    append_bytes(&mut message, a.as_slice());
    let t = u64_to_le_bytes(timestamp as u64);
    append_bytes(&mut message, t.as_slice());
    let s = u64_to_le_bytes(sequence);
    append_bytes(&mut message, s.as_slice());
    message
}

/// Whether the task carries a valid signature by its sender's key over its
/// transfer message.
pub open spec fn spec_task_signed(task: VerificationTask) -> bool {
    let m = spec_transfer_message(
        encode_utf8(task.sender_name@),
        encode_utf8(task.receiver_name@),
        task.amount,
        task.timestamp,
        task.sequence,
    );
    spec_key_decompresses(task.sender_pubkey@) && spec_signature_verifies(
        task.sender_pubkey@,
        m,
        task.signature@,
    )
}

/// Checks the task's signature; a task whose key does not decode or whose
/// signature does not verify is refused with `InvalidSignature`.
pub fn verify_tx(task: VerificationTask) -> (r: Result<VerificationTask, TransactionError>)
    ensures
        r == (if spec_task_signed(task) {
            Ok(task)
        } else {
            Err(TransactionError::InvalidSignature)
        }),
{
    let message = transfer_message(
        task.sender_name.as_str(),
        task.receiver_name.as_str(),
        task.amount,
        task.timestamp,
        task.sequence,
    );
    if signature_verifies(&task.sender_pubkey, message.as_slice(), &task.signature) {
        Ok(task)
    } else {
        Err(TransactionError::InvalidSignature)
    }
}

/// The signature a sender with this secret key puts on a transfer: over the
/// transfer message (see `spec_transfer_message`).
pub fn sign_transfer(
    secret: &[u8; 32],
    sender_name: &str,
    receiver_name: &str,
    amount: u64,
    timestamp: i64,
    sequence: u64,
) -> (signature: [u8; 64])
    ensures
        spec_signature_verifies(
            spec_public_key_of(secret@),
            spec_transfer_message(
                encode_utf8(sender_name@),
                encode_utf8(receiver_name@),
                amount,
                timestamp,
                sequence,
            ),
            signature@,
        ),
{
    let message = transfer_message(sender_name, receiver_name, amount, timestamp, sequence);
    sign(secret, message.as_slice())
}

/// A transfer signed with a wallet's secret key, carrying that wallet's
/// public key (which decodes, as every derived public key does), passes the
/// signature check unchanged.
pub proof fn law_signed_transfer_verifies(task: VerificationTask, secret: Seq<u8>)
    requires
        task.sender_pubkey@ == spec_public_key_of(secret),
        spec_key_decompresses(task.sender_pubkey@),
        spec_signature_verifies(
            spec_public_key_of(secret),
            spec_transfer_message(
                encode_utf8(task.sender_name@),
                encode_utf8(task.receiver_name@),
                task.amount,
                task.timestamp,
                task.sequence,
            ),
            task.signature@,
        ),
    ensures
        spec_task_signed(task),
{
}

} // verus!

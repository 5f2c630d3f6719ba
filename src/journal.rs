//! Fixed-layout binary codec for the public output of a trial proof.
//!
//! Layout: `solution_hash (32) || trial_id (32) || round_id (4, big-endian) || is_valid (1)`.
use vstd::prelude::*;

verus! {

/// Length in bytes of an encoded journal.
pub const JOURNAL_LEN: usize = 69;

/// Public output of a trial proof: what the proof commits to.
#[derive(Debug, Clone, Copy)]
pub struct TrialOutput {
    pub solution_hash: [u8; 32],
    pub trial_id: [u8; 32],
    pub round_id: u32,
    pub is_valid: bool,
}

/// Why a byte buffer is not a journal.
#[derive(Debug, Clone, Copy, PartialEq, Eq, Structural)]
pub enum JournalError {
    /// Fewer than 69 bytes.
    TooShort,
    /// A field lies outside the buffer; every field lies within the first
    /// 69 bytes, so a buffer that is long enough never gives it.
    Malformed,
}

/// The four big-endian bytes of `x`.
pub open spec fn u32_be(x: u32) -> Seq<u8> {
    seq![(x >> 24u32) as u8, (x >> 16u32) as u8, (x >> 8u32) as u8, x as u8]
}

/// The integer whose big-endian bytes are `a b c d`.
pub open spec fn u32_from_be(a: u8, b: u8, c: u8, d: u8) -> u32 {
    ((a as u32) << 24u32) | ((b as u32) << 16u32) | ((c as u32) << 8u32) | (d as u32)
}

/// The canonical encoding of a journal.
pub open spec fn journal_bytes(j: TrialOutput) -> Seq<u8> {
    j.solution_hash@ + j.trial_id@ + u32_be(j.round_id) + seq![if j.is_valid { 1u8 } else { 0u8 }]
}

/// `j` is what the first 69 bytes of `b` say.
pub open spec fn decodes_to(b: Seq<u8>, j: TrialOutput) -> bool {
    &&& b.len() >= JOURNAL_LEN
    &&& j.solution_hash@ == b.subrange(0, 32)
    &&& j.trial_id@ == b.subrange(32, 64)
    &&& j.round_id == u32_from_be(b[64], b[65], b[66], b[67])
    &&& j.is_valid == (b[68] == 1u8)
}

proof fn lemma_u32_be_round_trip(x: u32)
    ensures
        u32_from_be(u32_be(x)[0], u32_be(x)[1], u32_be(x)[2], u32_be(x)[3]) == x,
{
    assert(((((x >> 24u32) as u8) as u32) << 24u32) | ((((x >> 16u32) as u8) as u32) << 16u32)
        | ((((x >> 8u32) as u8) as u32) << 8u32) | ((x as u8) as u32) == x) by (bit_vector);
}

/// Decoding an encoded journal gives back that journal, and only that one.
pub proof fn lemma_journal_round_trip(j: TrialOutput, k: TrialOutput)
    ensures
        journal_bytes(j).len() == JOURNAL_LEN,
        decodes_to(journal_bytes(j), j),
        decodes_to(journal_bytes(j), k) ==> k == j,
{
    let b = journal_bytes(j);
    lemma_u32_be_round_trip(j.round_id);
    assert(b.subrange(0, 32) =~= j.solution_hash@);
    assert(b.subrange(32, 64) =~= j.trial_id@);
    if decodes_to(b, k) {
        assert(k.solution_hash@ == j.solution_hash@);
        assert(k.trial_id@ == j.trial_id@);
        vstd::array::axiom_array_ext_equal(k.solution_hash, j.solution_hash);
        vstd::array::axiom_array_ext_equal(k.trial_id, j.trial_id);
    }
}

/// Copies `b[start .. start + 32]` into an array.
fn take_32(b: &[u8], start: usize) -> (r: [u8; 32])
    requires
        start + 32 <= b.len(),
    ensures
        r@ == b@.subrange(start as int, start + 32),
{
    let mut r = [0u8; 32];
    let mut i: usize = 0;
    while i < 32
        invariant
            i <= 32,
            start + 32 <= b.len(),
            r@.len() == 32,
            forall|k: int| 0 <= k < i ==> r@[k] == b@[start + k],
        decreases 32 - i,
    {
        r[i] = b[start + i];
        i = i + 1;
    }
    assert(r@ =~= b@.subrange(start as int, start + 32));
    r
}

/// Decodes the journal held by the first 69 bytes of `b`.
pub fn decode_journal(b: &[u8]) -> (r: Result<TrialOutput, JournalError>)
    ensures
        b@.len() < JOURNAL_LEN <==> r == Err::<TrialOutput, JournalError>(JournalError::TooShort),
        b@.len() >= JOURNAL_LEN ==> r is Ok && decodes_to(b@, r->Ok_0),
{
    if b.len() < JOURNAL_LEN {
        return Err(JournalError::TooShort);
    }
    let solution_hash = take_32(b, 0);
    let trial_id = take_32(b, 32);
    let round_id = ((b[64] as u32) << 24u32) | ((b[65] as u32) << 16u32) | ((b[66] as u32) << 8u32)
        | (b[67] as u32);
    let is_valid = b[68] == 1u8;
    Ok(TrialOutput { solution_hash, trial_id, round_id, is_valid })
}

/// Appends the bytes of `a` to `out`.
fn push_all(out: &mut Vec<u8>, a: &[u8])
    ensures
        final(out)@ == old(out)@ + a@,
{
    let mut i: usize = 0;
    while i < a.len()
        invariant
            i <= a@.len(),
            out@ == old(out)@ + a@.subrange(0, i as int),
        decreases a@.len() - i,
    {
        out.push(a[i]);
        i = i + 1;
        assert(a@.subrange(0, i as int) =~= a@.subrange(0, i - 1) + seq![a@[i - 1]]);
    }
    assert(a@.subrange(0, a@.len() as int) =~= a@);
}

/// Encodes a journal in its 69-byte canonical layout.
pub fn encode_journal(j: &TrialOutput) -> (r: Vec<u8>)
    ensures
        r@ == journal_bytes(*j),
{
    let mut r: Vec<u8> = Vec::new();
    push_all(&mut r, &j.solution_hash);
    push_all(&mut r, &j.trial_id);
    r.push((j.round_id >> 24u32) as u8);
    r.push((j.round_id >> 16u32) as u8);
    r.push((j.round_id >> 8u32) as u8);
    r.push(j.round_id as u8);
    r.push(if j.is_valid { 1u8 } else { 0u8 });
    assert(r@ =~= journal_bytes(*j));
    r
}

} // verus!

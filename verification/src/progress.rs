use vstd::prelude::*;
use std::time::Instant;
use crate::text::decimal;

verus! {

#[verifier::external_type_specification]
#[verifier::external_body]
pub struct ExInstant(Instant);

/// The current instant, from `std::time::Instant::now`; nothing is stated of the value,
/// which comes from the machine's clock.
#[verifier::external_body]
fn now() -> Instant {
    Instant::now()
}

/// Transfer statistics
#[derive(Debug)]
pub struct TransferStats {
    pub total_bytes: u64,
    pub transferred_bytes: u64,
    pub files_completed: usize,
    pub total_files: usize,
    pub start_time: Option<Instant>,
}

impl Default for TransferStats {
    fn default() -> (r: Self)
        ensures
            r.total_bytes == 0,
            r.transferred_bytes == 0,
            r.files_completed == 0,
            r.total_files == 0,
            r.start_time is None,
    {
        TransferStats { total_bytes: 0, transferred_bytes: 0, files_completed: 0, total_files: 0, start_time: None }
    }
}

impl TransferStats {
    /// Empty statistics whose clock starts now.
    pub fn new() -> (r: Self)
        ensures
            r.total_bytes == 0,
            r.transferred_bytes == 0,
            r.files_completed == 0,
            r.total_files == 0,
            r.start_time is Some,
    {
        TransferStats { start_time: Some(now()), ..Default::default() }
    }

    /// Statistics of one file of `bytes` bytes downloaded in full; the clock starts now.
    pub fn single_file(bytes: u64) -> (r: Self)
        ensures
            r.total_bytes == bytes,
            r.transferred_bytes == bytes,
            r.files_completed == 1,
            r.total_files == 1,
            r.start_time is Some,
    {
        TransferStats {
            total_files: 1,
            files_completed: 1,
            total_bytes: bytes,
            transferred_bytes: bytes,
            start_time: Some(now()),
        }
    }

    /// Count one more file completed with `bytes` bytes transferred.
    pub fn record_completed(&mut self, bytes: u64)
        requires
            old(self).transferred_bytes + bytes <= u64::MAX,
            old(self).files_completed < usize::MAX,
        ensures
            final(self).transferred_bytes == old(self).transferred_bytes + bytes,
            final(self).files_completed == old(self).files_completed + 1,
            final(self).total_bytes == old(self).total_bytes,
            final(self).total_files == old(self).total_files,
            final(self).start_time == old(self).start_time,
    {
        self.transferred_bytes = self.transferred_bytes + bytes;
        self.files_completed = self.files_completed + 1;
    }
}

/// How many of the per-file outcomes are successes.
pub open spec fn completed_count(outcomes: Seq<Result<u64, String>>) -> nat
    decreases outcomes.len(),
{
    if outcomes.len() == 0 {
        0
    } else {
        completed_count(outcomes.drop_last()) + if outcomes.last() is Ok { 1nat } else { 0nat }
    }
}

/// The bytes transferred by the successful per-file outcomes.
pub open spec fn completed_bytes(outcomes: Seq<Result<u64, String>>) -> nat
    decreases outcomes.len(),
{
    if outcomes.len() == 0 {
        0
    } else {
        completed_bytes(outcomes.drop_last()) + match outcomes.last() {
            Ok(b) => b as nat,
            Err(_) => 0nat,
        }
    }
}

proof fn lemma_completed_prefix(outcomes: Seq<Result<u64, String>>, k: int)
    requires
        0 <= k <= outcomes.len(),
    ensures
        completed_count(outcomes.subrange(0, k)) <= completed_count(outcomes),
        completed_bytes(outcomes.subrange(0, k)) <= completed_bytes(outcomes),
    decreases outcomes.len(),
{
    if k < outcomes.len() {
        assert(outcomes.drop_last().subrange(0, k) =~= outcomes.subrange(0, k));
        lemma_completed_prefix(outcomes.drop_last(), k);
    } else {
        assert(outcomes.subrange(0, k) =~= outcomes);
    }
}

impl TransferStats {
    /// Tally the outcomes of the per-file downloads of a directory: each success counts
    /// as one completed file and adds its bytes; failures count for nothing.
    pub fn record_outcomes(&mut self, outcomes: &Vec<Result<u64, String>>)
        requires
            old(self).transferred_bytes + completed_bytes(outcomes@) <= u64::MAX,
            old(self).files_completed + completed_count(outcomes@) <= usize::MAX,
        ensures
            final(self).transferred_bytes == old(self).transferred_bytes + completed_bytes(outcomes@),
            final(self).files_completed == old(self).files_completed + completed_count(outcomes@),
            final(self).total_bytes == old(self).total_bytes,
            final(self).total_files == old(self).total_files,
            final(self).start_time == old(self).start_time,
    {
        let mut i: usize = 0;
        while i < outcomes.len()
            invariant
                i <= outcomes@.len(),
                old(self).transferred_bytes + completed_bytes(outcomes@) <= u64::MAX,
                old(self).files_completed + completed_count(outcomes@) <= usize::MAX,
                self.transferred_bytes == old(self).transferred_bytes + completed_bytes(outcomes@.subrange(0, i as int)),
                self.files_completed == old(self).files_completed + completed_count(outcomes@.subrange(0, i as int)),
                self.total_bytes == old(self).total_bytes,
                self.total_files == old(self).total_files,
                self.start_time == old(self).start_time,
            decreases outcomes@.len() - i,
        {
            proof {
                assert(outcomes@.subrange(0, i + 1).drop_last() =~= outcomes@.subrange(0, i as int));
                lemma_completed_prefix(outcomes@, i + 1);
            }
            if let Ok(bytes) = &outcomes[i] {
                self.record_completed(*bytes);
            }
            i += 1;
        }
        assert(outcomes@.subrange(0, i as int) =~= outcomes@);
    }
}

/// The text that `indicatif::HumanBytes` displays for a byte count (binary prefixes,
/// two decimals, as `1.46 KiB`).
pub uninterp spec fn human_bytes(bytes: u64) -> Seq<char>;

/// Human-readable byte count, as displayed by `indicatif::HumanBytes`: below 1024 the
/// plain count followed by ` B` (as `15 B`), above with a binary prefix.
#[verifier::external_body]
pub fn format_bytes(bytes: u64) -> (r: String)
    ensures
        r@ == human_bytes(bytes),
        bytes < 1024 ==> r@ == decimal(bytes as nat) + seq![' ', 'B'],
{
    indicatif::HumanBytes(bytes).to_string()
}

} // verus!

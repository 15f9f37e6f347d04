//! What one worker does: it takes its share of the candidates, and checks
//! each of them against the archive.

use crate::finder_errors::{FinderError, FinderErrorView};
use crate::password_finder::Strategy;
use crate::password_gen::PasswordGenerator;
use crate::password_reader::DictionaryReader;
use crate::zip_utils::{
    archive_fault, archive_source, attempt, entry_holds_aes_frame, holds_aes_frame, open_archive,
    probe_raw, probe_with_password, raw_entry, short_entry_error, short_entry_text, AesInfo,
    AesInfoView, Attempt, AttemptView, RawEntry,
};
use hmac::digest::InvalidLength;
use hmac::Hmac;
use sha1::Sha1;
use std::io::Cursor;
use vstd::arithmetic::div_mod::{lemma_fundamental_div_mod, lemma_fundamental_div_mod_converse};
use vstd::prelude::*;
use vstd::string::*;
use vstd::utf8::encode_utf8;
use zip::ZipArchive;

verus! {

/// Where the candidates come from: a generator or a dictionary.
pub enum CandidateSource {
    Generated(PasswordGenerator),
    Dictionary(DictionaryReader),
}

impl CandidateSource {
    /// The source that is held is well formed.
    pub open spec fn wf(&self) -> bool {
        match self {
            CandidateSource::Generated(generator) => generator.wf(),
            CandidateSource::Dictionary(reader) => reader.wf(),
        }
    }

    /// The candidates that are still to come.
    pub open spec fn pending(&self) -> Seq<Seq<char>> {
        match self {
            CandidateSource::Generated(generator) => generator.pending(),
            CandidateSource::Dictionary(reader) => reader.pending(),
        }
    }

    /// The next candidate, or `None` when there is none left.
    pub fn next(&mut self) -> (candidate: Option<String>)
        requires
            old(self).wf(),
        ensures
            final(self).wf(),
            match candidate {
                Some(word) => old(self).pending().len() > 0 && word@ == old(self).pending()[0]
                    && final(self).pending() == old(self).pending().skip(1),
                None => old(self).pending().len() == 0 && final(self).pending() == old(
                    self,
                ).pending(),
            },
    {
        match self {
            CandidateSource::Generated(generator) => generator.next(),
            CandidateSource::Dictionary(reader) => reader.next(),
        }
    }
}

/// Of `s`, the element at `skip` and from there on every `step`-th one.
pub open spec fn stride<T>(s: Seq<T>, skip: nat, step: nat) -> Seq<T>
    decreases s.len(),
{
    if s.len() == 0 {
        Seq::empty()
    } else if skip == 0 {
        seq![s[0]] + stride(s.drop_first(), (step - 1) as nat, step)
    } else {
        stride(s.drop_first(), (skip - 1) as nat, step)
    }
}

/// The share of worker `index` of `worker_count`: the elements of `s`
/// whose place, counted from zero, leaves the remainder `index - 1` when
/// divided by `worker_count`. A single worker has all of `s`, and an index
/// that names none of several workers has nothing.
pub open spec fn shard_of<T>(s: Seq<T>, worker_count: nat, index: nat) -> Seq<T> {
    if worker_count <= 1 {
        s
    } else if 1 <= index <= worker_count {
        stride(s, (index - 1) as nat, worker_count)
    } else {
        Seq::empty()
    }
}

/// The shares of all workers put together again: at each place the
/// element that the share of that place's worker holds for it.
pub open spec fn interleaved<T>(s: Seq<T>, worker_count: nat) -> Seq<T> {
    Seq::new(
        s.len(),
        |j: int|
            shard_of(s, worker_count, (j % (worker_count as int) + 1) as nat)[j / (
            worker_count as int)],
    )
}

/// The `m`-th element of a stride is the element of `s` at `skip + m *
/// step`, and the stride has an `m`-th element exactly where `s` reaches
/// that far.
pub proof fn lemma_stride_at<T>(s: Seq<T>, skip: nat, step: nat, m: int)
    requires
        step >= 1,
        0 <= m,
    ensures
        m < stride(s, skip, step).len() <==> skip + m * step < s.len(),
        m < stride(s, skip, step).len() ==> stride(s, skip, step)[m] == s[skip + m * step],
    decreases s.len(),
{
    assert(0 <= m * step) by (nonlinear_arith)
        requires
            0 <= m,
            step >= 1,
    ;
    if s.len() > 0 {
        let rest = s.drop_first();
        if skip == 0 {
            if m > 0 {
                lemma_stride_at(rest, (step - 1) as nat, step, m - 1);
                assert((m - 1) * step == m * step - step) by (nonlinear_arith);
                assert(m * step >= step) by (nonlinear_arith)
                    requires
                        m >= 1,
                        step >= 1,
                ;
                if m < stride(s, skip, step).len() {
                    assert(rest[step - 1 + (m - 1) * step] == s[m * step]);
                }
            }
        } else {
            lemma_stride_at(rest, (skip - 1) as nat, step, m);
            if m < stride(s, skip, step).len() {
                assert(rest[skip - 1 + m * step] == s[skip + m * step]);
            }
        }
    }
}

/// Taking every element is taking the sequence.
pub proof fn lemma_stride_of_one<T>(s: Seq<T>)
    ensures
        stride(s, 0, 1) == s,
    decreases s.len(),
{
    if s.len() > 0 {
        lemma_stride_of_one(s.drop_first());
        assert(seq![s[0]] + s.drop_first() == s);
    }
}

/// Every element of `s` is in the share of exactly the worker that its
/// place names, at the place in that share that its own place names.
pub proof fn lemma_shards_cover<T>(s: Seq<T>, worker_count: nat, j: int)
    requires
        worker_count >= 1,
        0 <= j < s.len(),
    ensures
        0 <= j % (worker_count as int) < worker_count,
        0 <= j / (worker_count as int) < shard_of(
            s,
            worker_count,
            (j % (worker_count as int) + 1) as nat,
        ).len(),
        shard_of(s, worker_count, (j % (worker_count as int) + 1) as nat)[j / (
        worker_count as int)] == s[j],
{
    let n = worker_count as int;
    lemma_fundamental_div_mod(j, n);
    assert(0 <= j % n < n && 0 <= j / n) by (nonlinear_arith)
        requires
            0 <= j,
            n >= 1,
    ;
    if worker_count > 1 {
        assert(n * (j / n) == (j / n) * n) by (nonlinear_arith);
        lemma_stride_at(s, (j % n) as nat, worker_count, j / n);
    } else {
        assert(j % 1 == 0 && j / 1 == j);
    }
}

/// The element at place `m` of the share of worker `index` is the element
/// of `s` at place `m * worker_count + index - 1`: a place that no other
/// share holds, and that lies behind those of the earlier elements of the
/// share.
pub proof fn lemma_shard_element<T>(s: Seq<T>, worker_count: nat, index: nat, m: int)
    requires
        worker_count >= 1,
        1 <= index <= worker_count,
        0 <= m < shard_of(s, worker_count, index).len(),
    ensures
        0 <= m * worker_count + index - 1 < s.len(),
        shard_of(s, worker_count, index)[m] == s[m * worker_count + index - 1],
        (m * worker_count + index - 1) % (worker_count as int) == index - 1,
        (m * worker_count + index - 1) / (worker_count as int) == m,
{
    let n = worker_count as int;
    assert(0 <= m * n) by (nonlinear_arith)
        requires
            0 <= m,
            n >= 1,
    ;
    lemma_fundamental_div_mod_converse(m * n + index - 1, n, m, index - 1);
    if worker_count > 1 {
        lemma_stride_at(s, (index - 1) as nat, worker_count, m);
    } else {
        assert(m * 1 == m);
    }
}

/// The shares of the workers, put together in the order of the places,
/// are the sequence that was shared out.
pub proof fn lemma_shards_interleave<T>(s: Seq<T>, worker_count: nat)
    requires
        worker_count >= 1,
    ensures
        interleaved(s, worker_count) == s,
{
    assert forall|j: int| 0 <= j < s.len() implies interleaved(s, worker_count)[j] == s[j] by {
        lemma_shards_cover(s, worker_count, j);
    }
    assert(interleaved(s, worker_count) =~= s);
}

/// A source of candidates, cut down to the share of one worker.
pub struct ShardedSource {
    source: CandidateSource,
    step: usize,
    skip: usize,
    shared_out: bool,
}

impl ShardedSource {
    /// The source is well formed, and the share takes one candidate of
    /// every `step`, with `step` at least one.
    pub closed spec fn wf(&self) -> bool {
        &&& self.source.wf()
        &&& self.step >= 1
    }

    /// The candidates of this share that are still to come.
    pub closed spec fn pending(&self) -> Seq<Seq<char>> {
        if self.shared_out {
            stride(self.source.pending(), self.skip as nat, self.step as nat)
        } else {
            Seq::empty()
        }
    }

    /// The next candidate of this share, or `None` when there is none
    /// left.
    pub fn next(&mut self) -> (candidate: Option<String>)
        requires
            old(self).wf(),
        ensures
            final(self).wf(),
            match candidate {
                Some(word) => old(self).pending().len() > 0 && word@ == old(self).pending()[0]
                    && final(self).pending() == old(self).pending().skip(1),
                None => old(self).pending().len() == 0 && final(self).pending() == old(
                    self,
                ).pending(),
            },
    {
        if !self.shared_out {
            return None;
        }
        loop
            invariant
                self.wf(),
                self.shared_out,
                self.pending() == old(self).pending(),
            decreases self.source.pending().len(),
        {
            let ghost before = self.source.pending();
            match self.source.next() {
                None => {
                    return None;
                },
                Some(word) => {
                    assert(before.skip(1) == before.drop_first());
                    if self.skip == 0 {
                        self.skip = self.step - 1;
                        assert(old(self).pending().skip(1) == self.pending());
                        return Some(word);
                    }
                    self.skip = self.skip - 1;
                },
            }
        }
    }
}

/// The share of worker `index` of `worker_count` of the candidates of
/// `passwords`. With one worker, or none, the share is everything; an
/// index that names none of several workers has nothing.
pub fn filter_for_worker_index(
    passwords: CandidateSource,
    worker_count: usize,
    index: usize,
) -> (share: ShardedSource)
    requires
        passwords.wf(),
    ensures
        share.wf(),
        share.pending() == shard_of(passwords.pending(), worker_count as nat, index as nat),
{
    if worker_count <= 1 {
        proof {
            lemma_stride_of_one(passwords.pending());
        }
        ShardedSource { source: passwords, step: 1, skip: 0, shared_out: true }
    } else if 1 <= index && index <= worker_count {
        ShardedSource { source: passwords, step: worker_count, skip: index - 1, shared_out: true }
    } else {
        ShardedSource { source: passwords, step: worker_count, skip: 0, shared_out: false }
    }
}

/// `digest::InvalidLength`, the error of a keyed function that is given
/// a key of a length that it does not take.
#[verifier::external_type_specification]
#[verifier::external_body]
pub struct ExInvalidLength(InvalidLength);

/// The number of rounds of the key derivation.
pub const KEY_DERIVATION_ROUNDS: u32 = 1000;

/// The number of candidates per worker after which a worker looks at the
/// stop flag.
pub const CANDIDATES_PER_CHECK: u64 = 500;

/// The `length` bytes that PBKDF2 with HMAC-SHA1 derives from `password`
/// and `salt` in `rounds` rounds, or `None` where it derives none.
pub uninterp spec fn derived_key(
    password: Seq<u8>,
    salt: Seq<u8>,
    rounds: u32,
    length: nat,
) -> Option<Seq<u8>>;

/// `pbkdf2::pbkdf2` with `Hmac<Sha1>`: fills `derived`, whatever it held,
/// with the key derived from `password` and `salt`. It counts the blocks
/// of its output in a `u32`.
#[verifier::external_body]
pub(crate) fn pbkdf2_hmac_sha1(
    password: &[u8],
    salt: &[u8],
    rounds: u32,
    derived: &mut Vec<u8>,
) -> (r: Result<(), InvalidLength>)
    requires
        old(derived)@.len() <= u32::MAX,
    ensures
        final(derived)@.len() == old(derived)@.len(),
        match r {
            Ok(_) => derived_key(password@, salt@, rounds, old(derived)@.len()) == Some(
                final(derived)@,
            ),
            Err(_) => derived_key(password@, salt@, rounds, old(derived)@.len()) is None,
        },
{
    pbkdf2::pbkdf2::<Hmac<Sha1>>(password, salt, rounds, derived.as_mut_slice())
}

/// What the check of one candidate ends in.
pub enum Verdict {
    /// The candidate is not the password.
    Rejected,
    /// The candidate opens the entry, and the entry came out whole.
    Confirmed,
    /// The check could not be made: the worker cannot go on.
    Fatal { reason: String },
}

/// `Verdict` by the contents of its fields.
pub enum VerdictView {
    Rejected,
    Confirmed,
    Fatal { reason: Seq<char> },
}

impl View for Verdict {
    type V = VerdictView;

    open spec fn view(&self) -> VerdictView {
        match self {
            Verdict::Rejected => VerdictView::Rejected,
            Verdict::Confirmed => VerdictView::Confirmed,
            Verdict::Fatal { reason } => VerdictView::Fatal { reason: reason@ },
        }
    }
}

/// The last two bytes of `key` are the verification value.
pub open spec fn tail_matches(key: Seq<u8>, verification_value: Seq<u8>) -> bool {
    key.len() >= 2 && key.subrange(key.len() - 2, key.len() as int) == verification_value
}

/// The message of a worker that met an error of the archive.
pub open spec fn unexpected_error_text(reason: Seq<char>) -> Seq<char> {
    "Unexpected error "@ + reason
}

/// The message of a worker whose key derivation failed.
pub open spec fn derivation_failed_text() -> Seq<char> {
    "PBKDF2 should not fail"@
}

/// What is made of an attempt to read the entry with a password: the
/// password is confirmed where the entry has an enclosed name, was read
/// without error, and gave as many bytes as the archive declares for it.
/// `named` says whether the name of the entry is enclosed.
pub open spec fn judged(outcome: AttemptView, named: bool) -> VerdictView {
    match outcome {
        AttemptView::Opened { size, read } => if named && read == Some(size as usize) && size
            <= usize::MAX {
            VerdictView::Confirmed
        } else {
            VerdictView::Rejected
        },
        AttemptView::InvalidPassword => VerdictView::Rejected,
        AttemptView::Failed { reason } => VerdictView::Fatal {
            reason: unexpected_error_text(reason),
        },
    }
}

/// What the check of the candidate `word` against the entry `file_number`
/// of the archive that `bytes` hold ends in, where `named` says whether
/// the name of the entry is enclosed. With AES the key is derived first,
/// and the archive is only asked where the key ends in the verification
/// value.
pub open spec fn candidate_verdict(
    bytes: Seq<u8>,
    file_number: usize,
    aes: Option<AesInfoView>,
    named: bool,
    word: Seq<char>,
) -> VerdictView {
    let password = encode_utf8(word);
    match aes {
        Some(info) => match derived_key(
            password,
            info.salt,
            KEY_DERIVATION_ROUNDS,
            info.derived_key_length as nat,
        ) {
            Some(key) => if tail_matches(key, info.verification_value) {
                judged(attempt(bytes, file_number, password), named)
            } else {
                VerdictView::Rejected
            },
            None => VerdictView::Fatal { reason: derivation_failed_text() },
        },
        None => judged(attempt(bytes, file_number, password), named),
    }
}

/// Whether the last two bytes of `key` are `verification_value`.
pub fn verification_tail_matches(key: &Vec<u8>, verification_value: &[u8; 2]) -> (matches: bool)
    ensures
        matches == tail_matches(key@, verification_value@),
{
    let len: usize = key.len();
    if len < 2 {
        return false;
    }
    let matches = key[len - 2] == verification_value[0] && key[len - 1] == verification_value[1];
    proof {
        let tail = key@.subrange(len - 2, len as int);
        assert(tail[0] == key@[len - 2] && tail[1] == key@[len - 1]);
        if matches {
            assert(tail =~= verification_value@);
        }
    }
    matches
}

/// What is made of an attempt to read the entry with a password, where
/// `named` says whether the name of the entry is enclosed.
pub fn judge_attempt(outcome: Attempt, named: bool) -> (verdict: Verdict)
    ensures
        verdict@ == judged(outcome@, named),
{
    match outcome {
        Attempt::Opened { size, read } => {
            if !named {
                return Verdict::Rejected;
            }
            match read {
                Some(count) => {
                    if count as u64 == size {
                        Verdict::Confirmed
                    } else {
                        Verdict::Rejected
                    }
                },
                None => Verdict::Rejected,
            }
        },
        Attempt::InvalidPassword => Verdict::Rejected,
        Attempt::Failed { reason } => {
            let mut message = String::from_str("Unexpected error ");
            message.append(reason.as_str());
            Verdict::Fatal { reason: message }
        },
    }
}

/// The views of the strings of `found`.
pub open spec fn words_of(found: Seq<String>) -> Seq<Seq<char>> {
    Seq::new(found.len(), |i: int| found[i]@)
}

/// Of `candidates`, in their order, those that the check confirms.
pub open spec fn confirmed_among(
    bytes: Seq<u8>,
    file_number: usize,
    aes: Option<AesInfoView>,
    named: bool,
    candidates: Seq<Seq<char>>,
) -> Seq<Seq<char>>
    decreases candidates.len(),
{
    if candidates.len() == 0 {
        Seq::empty()
    } else {
        let before = confirmed_among(bytes, file_number, aes, named, candidates.drop_last());
        if candidate_verdict(bytes, file_number, aes, named, candidates.last()) is Confirmed {
            before.push(candidates.last())
        } else {
            before
        }
    }
}

/// Where a worker stands.
#[derive(Clone, Copy, Debug, PartialEq, Eq, Structural)]
pub enum WorkerState {
    /// It checks candidates.
    Running,
    /// It has seen the stop flag and is about to end.
    Draining,
    /// It has ended: its candidates are exhausted, or it was stopped.
    Done,
    /// It met an error and cannot go on.
    Failed,
}

/// What a worker did in one batch.
pub struct BatchReport {
    /// The candidates that were confirmed, in their order.
    pub found: Vec<String>,
    /// How many candidates were checked.
    pub processed: u64,
    /// By how much the progress shown to the user advances.
    pub progress: Option<u64>,
    /// Why the worker cannot go on, where it cannot.
    pub fatal: Option<String>,
    /// The last candidate that was checked.
    pub last_candidate: Option<String>,
}

/// One worker: its share of the candidates, its own handle on the
/// archive, and the buffers that it reuses from one candidate to the next.
pub struct Worker {
    index: usize,
    worker_count: usize,
    candidates: ShardedSource,
    archive: ZipArchive<Cursor<Vec<u8>>>,
    file_number: usize,
    entry_named: bool,
    aes_info: Option<AesInfo>,
    derived_key: Vec<u8>,
    extraction_buffer: Vec<u8>,
    batching_delta: u64,
    state: WorkerState,
}

/// The AES parameters ask for a key that holds the verification value and
/// that the key derivation can count.
pub open spec fn derivable(aes_info: Option<AesInfo>) -> bool {
    aes_info matches Some(info) ==> 2 <= info.derived_key_length <= u32::MAX
}

fn zeroed(length: usize) -> (buffer: Vec<u8>)
    ensures
        buffer@.len() == length,
{
    let mut buffer: Vec<u8> = Vec::new();
    let mut i: usize = 0;
    while i < length
        invariant
            i <= length,
            buffer@.len() == i,
        decreases length - i,
    {
        buffer.push(0u8);
        i = i + 1;
    }
    buffer
}

impl Worker {
    /// What the fields hold together.
    pub closed spec fn wf(&self) -> bool {
        &&& self.candidates.wf()
        &&& self.worker_count >= 1
        &&& self.batching_delta == self.worker_count * CANDIDATES_PER_CHECK
        &&& self.batching_delta * self.worker_count <= u64::MAX
        &&& derivable(self.aes_info)
        &&& self.aes_info matches Some(info) ==> self.derived_key@.len() == info.derived_key_length
    }

    /// The data of the entry can hold what its AES mode, if it has one,
    /// puts around the encrypted bytes.
    pub closed spec fn entry_fits(&self) -> bool {
        holds_aes_frame(raw_entry(archive_source(self.archive), self.file_number))
    }

    /// The candidates of this worker that are still to be checked.
    pub closed spec fn pending(&self) -> Seq<Seq<char>> {
        self.candidates.pending()
    }

    /// The bytes of the archive that this worker reads.
    pub closed spec fn archive_bytes(&self) -> Seq<u8> {
        archive_source(self.archive)
    }

    /// The number of the entry that this worker reads.
    pub closed spec fn entry(&self) -> usize {
        self.file_number
    }

    /// Whether the name of the entry is enclosed, as the archive said
    /// when this worker was made.
    pub closed spec fn named(&self) -> bool {
        self.entry_named
    }

    /// The AES parameters that this worker checks against, if any.
    pub closed spec fn aes(&self) -> Option<AesInfoView> {
        match self.aes_info {
            Some(info) => Some(info@),
            None => None,
        }
    }

    /// The number of candidates of a full batch.
    pub closed spec fn batch_size(&self) -> u64 {
        self.batching_delta
    }

    /// Whether this is the first worker: the one that reports progress.
    pub closed spec fn first(&self) -> bool {
        self.index == 1
    }

    /// The number of workers that share the candidates.
    pub closed spec fn workers(&self) -> usize {
        self.worker_count
    }

    /// Where this worker stands.
    pub closed spec fn spec_state(&self) -> WorkerState {
        self.state
    }

    /// What the check of `word` by this worker ends in.
    pub open spec fn verdict_of(&self, word: Seq<char>) -> VerdictView {
        candidate_verdict(self.archive_bytes(), self.entry(), self.aes(), self.named(), word)
    }

    /// Whether the name of the entry is enclosed, as the archive said
    /// when this worker was made.
    #[verifier::when_used_as_spec(named)]
    pub fn entry_is_named(&self) -> (named: bool)
        ensures
            named == self.named(),
    {
        self.entry_named
    }

    /// Where this worker stands.
    #[verifier::when_used_as_spec(spec_state)]
    pub fn state(&self) -> (state: WorkerState)
        ensures
            state == self.spec_state(),
    {
        self.state
    }

    /// Checks one candidate: with AES the derived key first, and then,
    /// where that does not rule the candidate out, the entry itself.
    pub fn check_candidate(&mut self, password: &String) -> (verdict: Verdict)
        requires
            old(self).wf(),
            old(self).entry_fits(),
        ensures
            final(self).wf(),
            final(self).entry_fits(),
            verdict@ == old(self).verdict_of(password@),
            final(self).pending() == old(self).pending(),
            final(self).archive_bytes() == old(self).archive_bytes(),
            final(self).entry() == old(self).entry(),
            final(self).aes() == old(self).aes(),
            final(self).named() == old(self).named(),
            final(self).batch_size() == old(self).batch_size(),
            final(self).first() == old(self).first(),
            final(self).workers() == old(self).workers(),
            final(self).spec_state() == old(self).spec_state(),
    {
        let password_bytes = password.as_str().as_bytes();
        if let Some(info) = &self.aes_info {
            match pbkdf2_hmac_sha1(
                password_bytes,
                info.salt.as_slice(),
                KEY_DERIVATION_ROUNDS,
                &mut self.derived_key,
            ) {
                Ok(_) => {},
                Err(_) => {
                    return Verdict::Fatal { reason: String::from_str("PBKDF2 should not fail") };
                },
            }
            if !verification_tail_matches(&self.derived_key, &info.verification_value) {
                return Verdict::Rejected;
            }
        }
        let outcome = probe_with_password(
            &mut self.archive,
            self.file_number,
            password_bytes,
            &mut self.extraction_buffer,
        );
        self.extraction_buffer.clear();
        judge_attempt(outcome, self.entry_named)
    }
    /// Checks the next candidates of this worker, a full batch of them
    /// unless they run out or an error ends the work, and says what came
    /// of it. A worker that is not running checks nothing.
    pub fn run_batch(&mut self) -> (report: BatchReport)
        requires
            old(self).wf(),
            old(self).entry_fits(),
        ensures
            final(self).wf(),
            final(self).entry_fits(),
            final(self).archive_bytes() == old(self).archive_bytes(),
            final(self).entry() == old(self).entry(),
            final(self).aes() == old(self).aes(),
            final(self).named() == old(self).named(),
            final(self).batch_size() == old(self).batch_size(),
            final(self).first() == old(self).first(),
            final(self).workers() == old(self).workers(),
            report.processed <= old(self).batch_size(),
            report.processed <= old(self).pending().len(),
            final(self).pending() == old(self).pending().skip(report.processed as int),
            words_of(report.found@) == confirmed_among(
                old(self).archive_bytes(),
                old(self).entry(),
                old(self).aes(),
                old(self).named(),
                old(self).pending().take(report.processed as int),
            ),
            forall|i: int|
                0 <= i < report.processed - 1 ==> !(old(self).verdict_of(
                    #[trigger] old(self).pending()[i],
                ) is Fatal),
            old(self).spec_state() != WorkerState::Running ==> report.processed == 0
                && report.fatal is None && final(self).spec_state() == old(self).spec_state(),
            old(self).spec_state() == WorkerState::Running ==> match report.fatal {
                Some(reason) => {
                    &&& report.processed >= 1
                    &&& old(self).verdict_of(old(self).pending()[report.processed - 1]) == (
                    VerdictView::Fatal { reason: reason@ })
                    &&& final(self).spec_state() == WorkerState::Failed
                },
                None => {
                    &&& report.processed >= 1 ==> !(old(self).verdict_of(
                        old(self).pending()[report.processed - 1],
                    ) is Fatal)
                    &&& report.processed == old(self).batch_size() || report.processed == old(
                        self,
                    ).pending().len()
                    &&& final(self).spec_state() == if report.processed < old(self).batch_size() {
                        WorkerState::Done
                    } else {
                        WorkerState::Running
                    }
                },
            },
            report.progress == if report.fatal is None && old(self).spec_state()
                == WorkerState::Running && report.processed == old(self).batch_size() && old(
                self,
            ).first() {
                Some((old(self).batch_size() * old(self).workers()) as u64)
            } else {
                None
            },
            match report.last_candidate {
                Some(word) => report.processed >= 1 && word@ == old(self).pending()[report.processed
                    - 1],
                None => report.processed == 0,
            },
    {
        let ghost all = self.pending();
        let ghost bytes = self.archive_bytes();
        let ghost entry = self.entry();
        let ghost aes = self.aes();
        let ghost named = self.named();
        let mut report = BatchReport {
            found: Vec::new(),
            processed: 0,
            progress: None,
            fatal: None,
            last_candidate: None,
        };
        assert(words_of(report.found@) =~= Seq::<Seq<char>>::empty());
        assert(all.take(0) =~= Seq::<Seq<char>>::empty());
        assert(all.skip(0) == all);
        if self.state != WorkerState::Running {
            return report;
        }
        while report.processed < self.batching_delta
            invariant
                self.wf(),
                self.entry_fits(),
                self.archive_bytes() == bytes,
                self.entry() == entry,
                self.aes() == aes,
                self.named() == named,
                named == old(self).named(),
                self.batch_size() == old(self).batch_size(),
                self.first() == old(self).first(),
                self.workers() == old(self).workers(),
                self.state == WorkerState::Running,
                old(self).spec_state() == WorkerState::Running,
                all == old(self).pending(),
                bytes == old(self).archive_bytes(),
                entry == old(self).entry(),
                aes == old(self).aes(),
                report.processed <= self.batching_delta,
                report.processed <= all.len(),
                self.pending() == all.skip(report.processed as int),
                words_of(report.found@) == confirmed_among(
                    bytes,
                    entry,
                    aes,
                    named,
                    all.take(report.processed as int),
                ),
                forall|i: int|
                    0 <= i < report.processed ==> !(candidate_verdict(
                        bytes,
                        entry,
                        aes,
                        named,
                        #[trigger] all[i],
                    ) is Fatal),
                report.fatal is None,
                report.progress is None,
                match report.last_candidate {
                    Some(word) => report.processed >= 1 && word@ == all[report.processed - 1],
                    None => report.processed == 0,
                },
            decreases self.batching_delta - report.processed,
        {
            let ghost done = report.processed as int;
            match self.candidates.next() {
                None => {
                    self.state = WorkerState::Done;
                    return report;
                },
                Some(password) => {
                    let verdict = self.check_candidate(&password);
                    report.processed = report.processed + 1;
                    proof {
                        assert(all.skip(done)[0] == all[done]);
                        assert(all.skip(done).skip(1) == all.skip(done + 1));
                        assert(all.take(done + 1).drop_last() == all.take(done));
                        assert(all.take(done + 1).last() == all[done]);
                    }
                    match verdict {
                        Verdict::Rejected => {},
                        Verdict::Confirmed => {
                            let ghost before = report.found@;
                            report.found.push(password.clone());
                            assert(words_of(report.found@) =~= words_of(before).push(password@));
                        },
                        Verdict::Fatal { reason } => {
                            self.state = WorkerState::Failed;
                            report.fatal = Some(reason);
                            report.last_candidate = Some(password);
                            return report;
                        },
                    }
                    report.last_candidate = Some(password);
                },
            }
        }
        if self.index == 1 {
            report.progress = Some(self.batching_delta * (self.worker_count as u64));
        }
        report
    }

    /// Takes note of the stop flag: a running worker that sees it set
    /// starts to drain.
    pub fn poll_stop(&mut self, stop_requested: bool) -> (state: WorkerState)
        requires
            old(self).wf(),
        ensures
            final(self).wf(),
            final(self).entry_fits() == old(self).entry_fits(),
            state == final(self).spec_state(),
            state == if old(self).spec_state() == WorkerState::Running && stop_requested {
                WorkerState::Draining
            } else {
                old(self).spec_state()
            },
            final(self).pending() == old(self).pending(),
            final(self).archive_bytes() == old(self).archive_bytes(),
            final(self).entry() == old(self).entry(),
            final(self).aes() == old(self).aes(),
            final(self).named() == old(self).named(),
            final(self).batch_size() == old(self).batch_size(),
            final(self).first() == old(self).first(),
            final(self).workers() == old(self).workers(),
    {
        if self.state == WorkerState::Running && stop_requested {
            self.state = WorkerState::Draining;
        }
        self.state
    }

    /// Ends the draining: a worker that drains is done.
    pub fn finish(&mut self) -> (state: WorkerState)
        requires
            old(self).wf(),
        ensures
            final(self).wf(),
            final(self).entry_fits() == old(self).entry_fits(),
            state == final(self).spec_state(),
            state == if old(self).spec_state() == WorkerState::Draining {
                WorkerState::Done
            } else {
                old(self).spec_state()
            },
            final(self).pending() == old(self).pending(),
            final(self).archive_bytes() == old(self).archive_bytes(),
            final(self).entry() == old(self).entry(),
            final(self).aes() == old(self).aes(),
            final(self).named() == old(self).named(),
            final(self).batch_size() == old(self).batch_size(),
            final(self).first() == old(self).first(),
            final(self).workers() == old(self).workers(),
    {
        if self.state == WorkerState::Draining {
            self.state = WorkerState::Done;
        }
        self.state
    }
}

/// What a worker that was made holds: its share of the candidates, the
/// archive, the entry and the AES parameters that it was given, and a
/// running state. An entry whose data cannot hold its AES frame gives no
/// worker, and neither do bytes that are no archive.
pub open spec fn enlisted(
    r: Result<Worker, FinderError>,
    index: usize,
    worker_count: usize,
    archive: Seq<u8>,
    file_number: usize,
    aes_info: Option<AesInfo>,
    strategy: Strategy,
) -> bool {
    match r {
        Ok(worker) => {
            &&& archive_fault(archive) is None
            &&& holds_aes_frame(raw_entry(archive, file_number))
            &&& worker.wf()
            &&& worker.entry_fits()
            &&& worker.pending() == shard_of(
                strategy.candidates(),
                worker_count as nat,
                index as nat,
            )
            &&& worker.archive_bytes() == archive
            &&& worker.entry() == file_number
            &&& worker.aes() == match aes_info {
                Some(info) => Some(info@),
                None => None,
            }
            &&& worker.batch_size() == worker_count * CANDIDATES_PER_CHECK
            &&& worker.first() == (index == 1)
            &&& worker.workers() == worker_count
            &&& worker.spec_state() == WorkerState::Running
        },
        Err(error) => match archive_fault(archive) {
            Some(text) => error@ == (FinderErrorView::InvalidZip { message: text }),
            None => !holds_aes_frame(raw_entry(archive, file_number)) && error@ == (
            FinderErrorView::InvalidZip { message: short_entry_text(file_number) }),
        },
    }
}

/// The worker `index` of `worker_count`, which takes whether the name of
/// the entry is enclosed from `named` where that is given, and else from
/// what the archive says.
pub(crate) fn enlist(
    index: usize,
    worker_count: usize,
    archive: Vec<u8>,
    file_number: usize,
    aes_info: Option<AesInfo>,
    strategy: &Strategy,
    named: Option<bool>,
) -> (r: Result<Worker, FinderError>)
    requires
        strategy.wf(),
        worker_count >= 1,
        worker_count * CANDIDATES_PER_CHECK * worker_count <= u64::MAX,
        derivable(aes_info),
    ensures
        enlisted(r, index, worker_count, archive@, file_number, aes_info, *strategy),
        r matches Ok(worker) ==> named matches Some(flag) ==> worker.named() == flag,
{
    let mut opened = match open_archive(archive) {
        Ok(opened) => opened,
        Err(text) => {
            return Err(FinderError::invalid_zip_error(text));
        },
    };
    let raw = probe_raw(&mut opened, file_number);
    if !entry_holds_aes_frame(&raw) {
        return Err(short_entry_error(file_number));
    }
    let entry_named = match named {
        Some(flag) => flag,
        None => match raw {
            RawEntry::Found { aes_key_length, compressed_size, named } => named,
            RawEntry::Unreadable => false,
        },
    };
    let candidates = filter_for_worker_index(strategy.source(), worker_count, index);
    let derived_key = match &aes_info {
        Some(info) => zeroed(info.derived_key_length),
        None => Vec::new(),
    };
    assert(worker_count * CANDIDATES_PER_CHECK <= u64::MAX) by (nonlinear_arith)
        requires
            worker_count * CANDIDATES_PER_CHECK * worker_count <= u64::MAX,
            worker_count >= 1,
            CANDIDATES_PER_CHECK >= 0,
    ;
    Ok(
        Worker {
            index,
            worker_count,
            candidates,
            archive: opened,
            file_number,
            entry_named,
            aes_info,
            derived_key,
            extraction_buffer: Vec::new(),
            batching_delta: (worker_count as u64) * CANDIDATES_PER_CHECK,
            state: WorkerState::Running,
        },
    )
}

/// The worker `index` of `worker_count` for the entry `file_number` of
/// the archive that `archive` holds: it opens the archive for itself,
/// asks it whether the name of the entry is enclosed, and takes its share
/// of the candidates of `strategy`.
pub fn password_checker(
    index: usize,
    worker_count: usize,
    archive: Vec<u8>,
    file_number: usize,
    aes_info: Option<AesInfo>,
    strategy: &Strategy,
) -> (r: Result<Worker, FinderError>)
    requires
        strategy.wf(),
        worker_count >= 1,
        worker_count * CANDIDATES_PER_CHECK * worker_count <= u64::MAX,
        derivable(aes_info),
    ensures
        enlisted(r, index, worker_count, archive@, file_number, aes_info, *strategy),
{
    enlist(index, worker_count, archive, file_number, aes_info, strategy, None)
}

/// A candidate that is among the confirmed ones of `candidates` is one of
/// them, and the check confirms it.
pub proof fn lemma_confirmed_among(
    bytes: Seq<u8>,
    file_number: usize,
    aes: Option<AesInfoView>,
    named: bool,
    candidates: Seq<Seq<char>>,
    i: int,
)
    requires
        0 <= i < confirmed_among(bytes, file_number, aes, named, candidates).len(),
    ensures
        candidates.contains(confirmed_among(bytes, file_number, aes, named, candidates)[i]),
        candidate_verdict(
            bytes,
            file_number,
            aes,
            named,
            confirmed_among(bytes, file_number, aes, named, candidates)[i],
        ) is Confirmed,
    decreases candidates.len(),
{
    if candidates.len() > 0 {
        let front = candidates.drop_last();
        let before = confirmed_among(bytes, file_number, aes, named, front);
        if i < before.len() {
            lemma_confirmed_among(bytes, file_number, aes, named, front, i);
            let j = choose|j: int| 0 <= j < front.len() && front[j] == before[i];
            assert(candidates[j] == before[i]);
        } else {
            assert(candidates[candidates.len() - 1] == candidates.last());
        }
    }
}

/// Where none of `candidates` is among the confirmed ones, the check
/// confirms none of them.
pub proof fn lemma_none_confirmed(
    bytes: Seq<u8>,
    file_number: usize,
    aes: Option<AesInfoView>,
    named: bool,
    candidates: Seq<Seq<char>>,
    i: int,
)
    requires
        confirmed_among(bytes, file_number, aes, named, candidates).len() == 0,
        0 <= i < candidates.len(),
    ensures
        !(candidate_verdict(bytes, file_number, aes, named, candidates[i]) is Confirmed),
    decreases candidates.len(),
{
    if i < candidates.len() - 1 {
        lemma_none_confirmed(bytes, file_number, aes, named, candidates.drop_last(), i);
    }
}

/// A candidate that the check confirms opened an entry whose name is
/// enclosed and which gave, read to its end without error, as many bytes
/// as the archive declares for it; and with AES the key derived from the
/// candidate ends in the verification value that the entry stores.
pub proof fn lemma_confirmed_reads_whole_entry(
    bytes: Seq<u8>,
    file_number: usize,
    aes: Option<AesInfoView>,
    named: bool,
    word: Seq<char>,
)
    requires
        candidate_verdict(bytes, file_number, aes, named, word) is Confirmed,
    ensures
        named,
        attempt(bytes, file_number, encode_utf8(word)) matches AttemptView::Opened { size, read }
            && read == Some(size as usize) && size <= usize::MAX,
        aes matches Some(info) ==> derived_key(
            encode_utf8(word),
            info.salt,
            KEY_DERIVATION_ROUNDS,
            info.derived_key_length as nat,
        ) matches Some(key) && tail_matches(key, info.verification_value),
{
}

/// Where the key derived from a candidate ends in the verification value
/// that the entry stores, or the entry is not encrypted with AES, the
/// check of the candidate is what the attempt on the archive gives: the
/// candidate is handed to the archive.
pub proof fn lemma_matching_tail_reaches_archive(
    bytes: Seq<u8>,
    file_number: usize,
    aes: Option<AesInfoView>,
    named: bool,
    word: Seq<char>,
)
    requires
        aes matches Some(info) ==> derived_key(
            encode_utf8(word),
            info.salt,
            KEY_DERIVATION_ROUNDS,
            info.derived_key_length as nat,
        ) matches Some(key) && tail_matches(key, info.verification_value),
    ensures
        candidate_verdict(bytes, file_number, aes, named, word) == judged(
            attempt(bytes, file_number, encode_utf8(word)),
            named,
        ),
{
}

} // verus!

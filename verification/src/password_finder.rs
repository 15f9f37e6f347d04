//! The search as a whole: where the candidates come from, how many there
//! are, how the workers take turns at them, and what the coordinator makes
//! of what the workers report.

use crate::args::Arguments;
use crate::charsets::{
    charset_from_choice, chosen_symbols, lemma_increasing_is_distinct, same_symbols,
    strictly_increasing, FileText,
};
use crate::finder_errors::{FinderError, FinderErrorView};
use crate::password_gen::{
    check_start, checked_password_generator_count, password_generator_count,
    password_generator_iter, start_refusal,
};
use crate::password_reader::{
    dictionary_lines, password_dictionary_reader_iter, password_reader_count, record_count,
};
use crate::password_worker::{
    candidate_verdict, enlist, lemma_confirmed_among, lemma_none_confirmed, lemma_shard_element,
    lemma_shards_cover, shard_of, words_of, CandidateSource, VerdictView, Worker, WorkerState,
    CANDIDATES_PER_CHECK,
};
use crate::search_space::{count_between, is_charset, place, search_space, word_over};
use crate::zip_utils::{
    aes_entry, archive_fault, archive_parses, entry_name, plain_entry, raw_entry, validate_zip,
    validated, AesInfoView,
};
use vstd::prelude::*;
use vstd::slice::slice_to_vec;
use vstd::string::*;

verus! {

/// Where the candidates come from.
#[derive(Clone, Debug)]
pub enum Strategy {
    /// A dictionary: the bytes of the file that holds it.
    PasswordFile(Vec<u8>),
    /// The enumeration of the words over `charset` of the lengths
    /// `min_password_len..=max_password_len`, from `starting_password` on
    /// where one is given.
    GenPasswords {
        charset: Vec<char>,
        min_password_len: usize,
        max_password_len: usize,
        starting_password: Option<String>,
    },
}

impl Strategy {
    /// A generation strategy names an alphabet, a space that can be
    /// counted in `usize`, and a starting password, if any, that lies in
    /// that space.
    pub open spec fn wf(&self) -> bool {
        match self {
            Strategy::PasswordFile(content) => true,
            Strategy::GenPasswords {
                charset,
                min_password_len,
                max_password_len,
                starting_password,
            } => {
                &&& is_charset(charset@)
                &&& count_between(
                    charset@.len(),
                    *min_password_len as int,
                    *max_password_len as int,
                ) <= usize::MAX
                &&& match starting_password {
                    Some(start) => word_over(charset@, start@) && *min_password_len <= start@.len()
                        <= *max_password_len,
                    None => true,
                }
            },
        }
    }

    /// The candidates of the search, in their order.
    pub open spec fn candidates(&self) -> Seq<Seq<char>> {
        match self {
            Strategy::PasswordFile(content) => dictionary_lines(content@),
            Strategy::GenPasswords {
                charset,
                min_password_len,
                max_password_len,
                starting_password,
            } => search_space(charset@, *min_password_len as nat, *max_password_len as nat).skip(
                match starting_password {
                    Some(start) => place(charset@, *min_password_len as nat, start@) as int,
                    None => 0,
                },
            ),
        }
    }

    /// The number of candidates that is shown as the length of the
    /// search: the records of a dictionary, or the whole space of a
    /// generation, whether or not it starts at a given password.
    pub open spec fn announced_total(&self) -> nat {
        match self {
            Strategy::PasswordFile(content) => record_count(content@),
            Strategy::GenPasswords {
                charset,
                min_password_len,
                max_password_len,
                starting_password,
            } => count_between(charset@.len(), *min_password_len as int, *max_password_len as int),
        }
    }

    /// Whether a generation strategy names an alphabet, a space that can
    /// be counted in `usize`, and a starting password, if any, that lies
    /// in that space. A dictionary is always in order.
    pub fn check(&self) -> (ok: bool)
        ensures
            ok == self.wf(),
    {
        match self {
            Strategy::PasswordFile(content) => true,
            Strategy::GenPasswords {
                charset,
                min_password_len,
                max_password_len,
                starting_password,
            } => {
                if charset.len() == 0 || !has_no_duplicates(charset) {
                    return false;
                }
                if checked_password_generator_count(
                    charset.len(),
                    *min_password_len,
                    *max_password_len,
                ).is_none() {
                    return false;
                }
                match starting_password {
                    Some(start) => check_start(
                        charset,
                        *min_password_len,
                        *max_password_len,
                        start.as_str(),
                    ).is_ok(),
                    None => true,
                }
            },
        }
    }

    /// A source of its own over the candidates of this strategy.
    pub fn source(&self) -> (source: CandidateSource)
        requires
            self.wf(),
        ensures
            source.wf(),
            source.pending() == self.candidates(),
    {
        match self {
            Strategy::PasswordFile(content) => CandidateSource::Dictionary(
                password_dictionary_reader_iter(slice_to_vec(content.as_slice())),
            ),
            Strategy::GenPasswords {
                charset,
                min_password_len,
                max_password_len,
                starting_password,
            } => {
                let start = match starting_password {
                    Some(start) => Some(start.clone()),
                    None => None,
                };
                CandidateSource::Generated(
                    password_generator_iter(
                        charset.as_slice(),
                        *min_password_len,
                        *max_password_len,
                        start,
                    ),
                )
            },
        }
    }

    /// The number of candidates that is shown as the length of the
    /// search.
    pub fn total_password_count(&self) -> (total: usize)
        requires
            self.wf(),
        ensures
            total == self.announced_total(),
    {
        match self {
            Strategy::PasswordFile(content) => password_reader_count(content.as_slice()),
            Strategy::GenPasswords {
                charset,
                min_password_len,
                max_password_len,
                starting_password,
            } => password_generator_count(charset.len(), *min_password_len, *max_password_len),
        }
    }
}

/// Whether no symbol stands twice in `symbols`.
pub fn has_no_duplicates(symbols: &Vec<char>) -> (distinct: bool)
    ensures
        distinct == symbols@.no_duplicates(),
{
    let mut i: usize = 0;
    while i < symbols.len()
        invariant
            i <= symbols@.len(),
            forall|a: int, b: int| 0 <= a < b < i ==> symbols@[a] != symbols@[b],
        decreases symbols.len() - i,
    {
        let mut j: usize = 0;
        while j < i
            invariant
                j <= i < symbols@.len(),
                forall|a: int| 0 <= a < j ==> symbols@[a] != symbols@[i as int],
            decreases i - j,
        {
            if symbols[j] == symbols[i] {
                return false;
            }
            j = j + 1;
        }
        i = i + 1;
    }
    true
}

/// Whether `worker_count` workers can count their batches, and the first
/// of them the progress of all, in a `u64`.
pub fn batching_fits(worker_count: usize) -> (fits: bool)
    ensures
        fits == (worker_count * CANDIDATES_PER_CHECK * worker_count <= u64::MAX),
{
    let fits = worker_count <= 100_000_000;
    proof {
        if fits {
            assert(worker_count * 500 * worker_count <= 0xFFFF_FFFF_FFFF_FFFF) by (nonlinear_arith)
                requires
                    0 <= worker_count <= 100_000_000,
            ;
        }
    }
    if fits {
        return true;
    }
    let count: u64 = worker_count as u64;
    match count.checked_mul(CANDIDATES_PER_CHECK) {
        Some(batch) => {
            let fits = batch.checked_mul(count).is_some();
            fits
        },
        None => {
            assert(worker_count * CANDIDATES_PER_CHECK * worker_count > u64::MAX)
                by (nonlinear_arith)
                requires
                    worker_count * CANDIDATES_PER_CHECK > u64::MAX,
                    worker_count >= 1,
            ;
            false
        },
    }
}

/// The message for an alphabet without symbols.
pub open spec fn empty_charset_text() -> Seq<char> {
    "the charset is empty"@
}

/// The message for a space that cannot be counted.
pub open spec fn uncountable_space_text() -> Seq<char> {
    "the search space is too large to be counted"@
}

/// Why a generation over `charset` is refused, if it is: the alphabet is
/// empty, the space cannot be counted in `usize`, or the enumeration
/// cannot start at the starting password.
pub open spec fn generation_refusal(
    charset: Seq<char>,
    min_password_len: usize,
    max_password_len: usize,
    starting_password: Option<String>,
) -> Option<Seq<char>> {
    if charset.len() == 0 {
        Some(empty_charset_text())
    } else if count_between(charset.len(), min_password_len as int, max_password_len as int)
        > usize::MAX {
        Some(uncountable_space_text())
    } else {
        match starting_password {
            Some(start) => start_refusal(charset, min_password_len, max_password_len, start@),
            None => None,
        }
    }
}

/// The strategy that the accepted arguments ask for: the dictionary where
/// one is named, and else the generation over the alphabet chosen, in the
/// order of its codes and without duplicates. `dictionary` holds the bytes
/// of the dictionary, and `charset_file_text` what was read of the charset
/// file, where the arguments name one. A generation is refused where the
/// alphabet cannot be had, and for the reasons of `generation_refusal`.
pub fn strategy_for(
    arguments: &Arguments,
    dictionary: Vec<u8>,
    charset_file_text: Option<&FileText>,
) -> (r: Result<Strategy, FinderError>)
    ensures
        r matches Ok(strategy) ==> strategy.wf(),
        arguments.password_dictionary is Some ==> (r matches Ok(Strategy::PasswordFile(content))
            && content@ == dictionary@),
        arguments.password_dictionary is None ==> match chosen_symbols(
            arguments.charset_choice,
            match charset_file_text {
                Some(text) => Some(*text),
                None => None,
            },
        ) {
            Err(failure) => r matches Err(error) && error@ == failure,
            Ok(symbols) => exists|alphabet: Seq<char>|
                {
                    &&& strictly_increasing(alphabet)
                    &&& same_symbols(alphabet, symbols)
                    &&& match generation_refusal(
                        alphabet,
                        arguments.min_password_len,
                        arguments.max_password_len,
                        arguments.starting_password,
                    ) {
                        Some(reason) => r matches Err(FinderError::CliArgumentError { message })
                            && message@ == reason,
                        None => r matches Ok(
                            Strategy::GenPasswords {
                                charset,
                                min_password_len,
                                max_password_len,
                                starting_password,
                            },
                        ) && charset@ == alphabet && min_password_len
                            == arguments.min_password_len && max_password_len
                            == arguments.max_password_len && starting_password
                            == arguments.starting_password,
                    }
                },
        },
{
    if arguments.password_dictionary.is_some() {
        return Ok(Strategy::PasswordFile(dictionary));
    }
    let charset = match charset_from_choice(&arguments.charset_choice, charset_file_text) {
        Ok(charset) => charset,
        Err(error) => {
            return Err(error);
        },
    };
    let ghost alphabet = charset@;
    proof {
        lemma_increasing_is_distinct(charset@);
    }
    if charset.len() == 0 {
        return Err(
            FinderError::CliArgumentError { message: String::from_str("the charset is empty") },
        );
    }
    if checked_password_generator_count(
        charset.len(),
        arguments.min_password_len,
        arguments.max_password_len,
    ).is_none() {
        return Err(
            FinderError::CliArgumentError {
                message: String::from_str("the search space is too large to be counted"),
            },
        );
    }
    let starting_password = match &arguments.starting_password {
        Some(start) => {
            match check_start(
                &charset,
                arguments.min_password_len,
                arguments.max_password_len,
                start.as_str(),
            ) {
                Ok(_) => {},
                Err(error) => {
                    return Err(error);
                },
            }
            Some(start.clone())
        },
        None => None,
    };
    Ok(
        Strategy::GenPasswords {
            charset,
            min_password_len: arguments.min_password_len,
            max_password_len: arguments.max_password_len,
            starting_password,
        },
    )
}

/// How a search ended.
enum SearchOutcome {
    /// A candidate was confirmed.
    Found(String),
    /// Every candidate was checked and rejected.
    Exhausted,
    /// A worker could not go on.
    Failed { reason: String },
}

/// What is left for a worker to do: its pending candidates, and one step
/// more while it runs.
spec fn left(worker: Worker) -> nat {
    worker.pending().len() + if worker.spec_state() == WorkerState::Running {
        1nat
    } else {
        0nat
    }
}

/// What is left for all of `crew` to do.
spec fn total_left(crew: Seq<Worker>) -> nat
    decreases crew.len(),
{
    if crew.len() == 0 {
        0
    } else {
        total_left(crew.drop_last()) + left(crew.last())
    }
}

proof fn lemma_total_left_update(crew: Seq<Worker>, i: int, worker: Worker)
    requires
        0 <= i < crew.len(),
    ensures
        total_left(crew.update(i, worker)) == total_left(crew) - left(crew[i]) + left(worker),
    decreases crew.len(),
{
    let after = crew.update(i, worker);
    if i == crew.len() - 1 {
        assert(after.drop_last() == crew.drop_last());
    } else {
        lemma_total_left_update(crew.drop_last(), i, worker);
        assert(after.drop_last() == crew.drop_last().update(i, worker));
    }
}

/// A worker on the archive `bytes` that has checked and rejected the
/// first candidates of `share`, has the others pending, and runs, or is
/// done with nothing pending.
spec fn on_track(
    worker: Worker,
    bytes: Seq<u8>,
    file_number: usize,
    aes: Option<AesInfoView>,
    named: bool,
    share: Seq<Seq<char>>,
) -> bool {
    &&& worker.wf()
    &&& worker.entry_fits()
    &&& worker.archive_bytes() == bytes
    &&& worker.entry() == file_number
    &&& worker.aes() == aes
    &&& worker.named() == named
    &&& worker.batch_size() >= 1
    &&& worker.pending().len() <= share.len()
    &&& worker.pending() == share.skip(share.len() - worker.pending().len())
    &&& forall|j: int|
        0 <= j < share.len() - worker.pending().len() ==> candidate_verdict(
            bytes,
            file_number,
            aes,
            named,
            #[trigger] share[j],
        ) is Rejected
    &&& worker.spec_state() == WorkerState::Running || (worker.spec_state() == WorkerState::Done
        && worker.pending().len() == 0)
}

/// Lets the workers of `crew` check their candidates, a batch each in
/// turn, until one of them confirms a candidate or cannot go on, or all of
/// them are done.
fn search(
    crew: &mut Vec<Worker>,
    Ghost(bytes): Ghost<Seq<u8>>,
    Ghost(file_number): Ghost<usize>,
    Ghost(aes): Ghost<Option<AesInfoView>>,
    Ghost(named): Ghost<bool>,
    Ghost(candidates): Ghost<Seq<Seq<char>>>,
) -> (outcome: SearchOutcome)
    requires
        forall|i: int|
            0 <= i < old(crew)@.len() ==> on_track(
                #[trigger] old(crew)@[i],
                bytes,
                file_number,
                aes,
                named,
                shard_of(candidates, old(crew)@.len(), (i + 1) as nat),
            ),
    ensures
        match outcome {
            SearchOutcome::Found(password) => candidates.contains(password@) && candidate_verdict(
                bytes,
                file_number,
                aes,
                named,
                password@,
            ) is Confirmed,
            SearchOutcome::Exhausted => old(crew)@.len() > 0 ==> forall|j: int|
                0 <= j < candidates.len() ==> candidate_verdict(
                    bytes,
                    file_number,
                    aes,
                    named,
                    #[trigger] candidates[j],
                ) is Rejected,
            SearchOutcome::Failed { reason } => exists|j: int|
                0 <= j < candidates.len() && candidate_verdict(
                    bytes,
                    file_number,
                    aes,
                    named,
                    #[trigger] candidates[j],
                ) == (VerdictView::Fatal { reason: reason@ }),
        },
        old(crew)@.len() == 0 ==> outcome is Exhausted,
{
    let count: usize = crew.len();
    loop
        invariant
            crew@.len() == count,
            old(crew)@.len() == count,
            forall|i: int|
                0 <= i < count ==> on_track(
                    #[trigger] crew@[i],
                    bytes,
                    file_number,
                    aes,
                    named,
                    shard_of(candidates, count as nat, (i + 1) as nat),
                ),
        decreases total_left(crew@),
    {
        let ghost at_start = total_left(crew@);
        let mut any_running = false;
        let mut i: usize = 0;
        while i < count
            invariant
                i <= count,
                crew@.len() == count,
                old(crew)@.len() == count,
                forall|i: int|
                    0 <= i < count ==> on_track(
                        #[trigger] crew@[i],
                        bytes,
                        file_number,
                        aes,
                        named,
                        shard_of(candidates, count as nat, (i + 1) as nat),
                    ),
                total_left(crew@) <= at_start,
                any_running ==> total_left(crew@) < at_start,
                !any_running ==> forall|j: int|
                    0 <= j < i ==> (#[trigger] crew@[j]).spec_state() == WorkerState::Done,
            decreases count - i,
        {
            if crew[i].state() == WorkerState::Running {
                let ghost before = crew@;
                let ghost share = shard_of(candidates, count as nat, (i + 1) as nat);
                let ghost done = share.len() - before[i as int].pending().len();
                let report = crew[i].run_batch();
                proof {
                    let worker = crew@[i as int];
                    let seen = report.processed as int;
                    assert(crew@ == before.update(i as int, worker));
                    lemma_total_left_update(before, i as int, worker);
                    assert(share.skip(done).skip(seen) == share.skip(done + seen));
                    assert forall|j: int| 0 <= j < seen implies share[done + j] == before[i as int].pending()[j] by {
                        assert(share.skip(done)[j] == share[done + j]);
                    }
                    assert forall|k: int|
                        0 <= k < count implies on_track(
                        #[trigger] crew@[k],
                        bytes,
                        file_number,
                        aes,
                        named,
                        shard_of(candidates, count as nat, (k + 1) as nat),
                    ) || k == i by {
                        if k != i {
                            assert(crew@[k] == before[k]);
                        }
                    }
                }
                if report.found.len() > 0 {
                    let password = report.found[0].clone();
                    proof {
                        let seen_candidates = before[i as int].pending().take(
                            report.processed as int,
                        );
                        assert(words_of(report.found@)[0] == password@);
                        lemma_confirmed_among(bytes, file_number, aes, named, seen_candidates, 0);
                        let j = choose|j: int|
                            0 <= j < seen_candidates.len() && seen_candidates[j] == password@;
                        assert(share[done + j] == password@);
                        if count > 1 {
                            lemma_shard_element(candidates, count as nat, (i + 1) as nat, done + j);
                        }
                    }
                    return SearchOutcome::Found(password);
                }
                match report.fatal {
                    Some(reason) => {
                        proof {
                            let j = report.processed - 1;
                            assert(share[done + j] == before[i as int].pending()[j]);
                            if count > 1 {
                                lemma_shard_element(
                                    candidates,
                                    count as nat,
                                    (i + 1) as nat,
                                    done + j,
                                );
                            }
                        }
                        return SearchOutcome::Failed { reason };
                    },
                    None => {},
                }
                proof {
                    let seen = report.processed as int;
                    let seen_candidates = before[i as int].pending().take(seen);
                    assert(words_of(report.found@).len() == 0);
                    assert forall|j: int|
                        0 <= j < share.len() - crew@[i as int].pending().len() implies candidate_verdict(
                        bytes,
                        file_number,
                        aes,
                        named,
                        #[trigger] share[j],
                    ) is Rejected by {
                        if j >= done {
                            let k = j - done;
                            assert(seen_candidates[k] == share[j]);
                            lemma_none_confirmed(bytes, file_number, aes, named, seen_candidates, k);
                        }
                    }
                }
                any_running = true;
            }
            i = i + 1;
        }
        if !any_running {
            proof {
                if count > 0 {
                    assert forall|j: int| 0 <= j < candidates.len() implies candidate_verdict(
                        bytes,
                        file_number,
                        aes,
                        named,
                        #[trigger] candidates[j],
                    ) is Rejected by {
                        lemma_shards_cover(candidates, count as nat, j);
                        let owner = j % (count as int);
                        let share = shard_of(candidates, count as nat, (owner + 1) as nat);
                        assert(crew@[owner].spec_state() == WorkerState::Done);
                        assert(on_track(crew@[owner], bytes, file_number, aes, named, share));
                        assert(candidate_verdict(
                            bytes,
                            file_number,
                            aes,
                            named,
                            share[j / (count as int)],
                        ) is Rejected);
                    }
                }
            }
            return SearchOutcome::Exhausted;
        }
    }
}

/// What a search that got to its candidates ends in, where `named` says
/// whether the name of the entry is enclosed: a candidate that the check
/// confirms; or nothing, and then the check rejects every candidate; or
/// the error of a candidate whose check could not be made.
pub open spec fn searched(
    r: Result<Option<String>, FinderError>,
    archive: Seq<u8>,
    file_number: usize,
    aes: Option<AesInfoView>,
    named: bool,
    workers: usize,
    candidates: Seq<Seq<char>>,
) -> bool {
    match r {
        Ok(Some(password)) => candidates.contains(password@) && candidate_verdict(
            archive,
            file_number,
            aes,
            named,
            password@,
        ) is Confirmed,
        Ok(None) => workers > 0 ==> forall|j: int|
            0 <= j < candidates.len() ==> candidate_verdict(
                archive,
                file_number,
                aes,
                named,
                #[trigger] candidates[j],
            ) is Rejected,
        Err(error) => error@ matches FinderErrorView::InvalidZip { message } && exists|j: int|
            0 <= j < candidates.len() && candidate_verdict(
                archive,
                file_number,
                aes,
                named,
                #[trigger] candidates[j],
            ) == (VerdictView::Fatal { reason: message }),
    }
}

/// The flag that was taken, or `false` where none was.
spec fn taken(named: Option<bool>) -> bool {
    match named {
        Some(flag) => flag,
        None => false,
    }
}

/// Searches the password of the entry `file_number` of the archive that
/// `archive` holds among the candidates of `strategy`, which it shares out
/// to `workers` workers that take turns. The entry is validated first.
/// Whether the name of the entry is enclosed is asked once, and holds for
/// all workers. The first candidate that a worker confirms is the result;
/// without workers nothing is searched.
pub fn password_finder(
    archive: Vec<u8>,
    workers: usize,
    file_number: usize,
    strategy: &Strategy,
) -> (r: Result<Option<String>, FinderError>)
    requires
        strategy.wf(),
        workers * CANDIDATES_PER_CHECK * workers <= u64::MAX,
    ensures
        archive_fault(archive@) matches Some(text) ==> r matches Err(error) && error@ == (
        FinderErrorView::InvalidZip { message: text }),
        archive_parses(archive@) ==> match validated(
            file_number,
            raw_entry(archive@, file_number),
            aes_entry(archive@, file_number),
            entry_name(archive@, file_number),
            plain_entry(archive@, file_number),
        ) {
            Err(refusal) => r matches Err(error) && error@ == refusal,
            Ok(entry) => exists|named: bool| #[trigger]
                searched(
                    r,
                    archive@,
                    file_number,
                    entry.aes_info,
                    named,
                    workers,
                    strategy.candidates(),
                ),
        },
        archive_parses(archive@) && workers == 0 && validated(
            file_number,
            raw_entry(archive@, file_number),
            aes_entry(archive@, file_number),
            entry_name(archive@, file_number),
            plain_entry(archive@, file_number),
        ) is Ok ==> r matches Ok(None),
{
    let entry = match validate_zip(slice_to_vec(archive.as_slice()), file_number) {
        Ok(entry) => entry,
        Err(error) => {
            return Err(error);
        },
    };
    let ghost aes = entry@.aes_info;
    let mut named: Option<bool> = None;
    let mut crew: Vec<Worker> = Vec::new();
    let mut index: usize = 1;
    assert(workers <= 200_000_000) by (nonlinear_arith)
        requires
            workers * 500 * workers <= 0xFFFF_FFFF_FFFF_FFFF,
    ;
    while index <= workers
        invariant
            1 <= index <= workers + 1,
            workers <= 200_000_000,
            strategy.wf(),
            workers * CANDIDATES_PER_CHECK * workers <= u64::MAX,
            archive_parses(archive@),
            validated(
                file_number,
                raw_entry(archive@, file_number),
                aes_entry(archive@, file_number),
                entry_name(archive@, file_number),
                plain_entry(archive@, file_number),
            ) is Ok,
            entry@.aes_info == aes,
            entry.aes_info matches Some(info) ==> 34 <= info.derived_key_length <= 66,
            crew@.len() == index - 1,
            index > 1 ==> named is Some,
            forall|i: int|
                0 <= i < crew@.len() ==> on_track(
                    #[trigger] crew@[i],
                    archive@,
                    file_number,
                    aes,
                    taken(named),
                    shard_of(strategy.candidates(), workers as nat, (i + 1) as nat),
                ),
        decreases workers + 1 - index,
    {
        let aes_info = match &entry.aes_info {
            Some(info) => Some(info.duplicate()),
            None => None,
        };
        match enlist(
            index,
            workers,
            slice_to_vec(archive.as_slice()),
            file_number,
            aes_info,
            strategy,
            named,
        ) {
            Ok(worker) => {
                proof {
                    let share = shard_of(strategy.candidates(), workers as nat, index as nat);
                    assert(share.skip(0) == share);
                    assert(workers * CANDIDATES_PER_CHECK >= 1) by (nonlinear_arith)
                        requires
                            workers >= 1,
                            CANDIDATES_PER_CHECK >= 1,
                    ;
                }
                named = Some(worker.entry_is_named());
                crew.push(worker);
            },
            Err(error) => {
                return Err(error);
            },
        }
        index = index + 1;
    }
    let r = match search(
        &mut crew,
        Ghost(archive@),
        Ghost(file_number),
        Ghost(aes),
        Ghost(taken(named)),
        Ghost(strategy.candidates()),
    ) {
        SearchOutcome::Found(password) => Ok(Some(password)),
        SearchOutcome::Exhausted => Ok(None),
        SearchOutcome::Failed { reason } => Err(FinderError::invalid_zip_error(reason)),
    };
    assert(searched(r, archive@, file_number, aes, taken(named), workers, strategy.candidates()));
    r
}

/// What reaches the coordinator of a search from its workers.
pub enum Signal {
    /// A worker has confirmed a candidate.
    PasswordFound(String),
    /// All workers have ended.
    WorkersGone,
}

/// What the coordinator has to do next.
#[derive(Clone, Copy, Debug, PartialEq, Eq, Structural)]
pub enum Order {
    /// Set the stop flag and wait for the workers to end.
    StopWorkers,
    /// Nothing is left to do.
    Rest,
}

/// The coordinator of a search: it waits for the first signal, and what
/// that signal brings is the result of the search.
pub struct Coordinator {
    result: Option<String>,
    finished: bool,
}

impl Coordinator {
    /// The password that was found, if the search has ended with one.
    pub closed spec fn result(&self) -> Option<Seq<char>> {
        match self.result {
            Some(password) => Some(password@),
            None => None,
        }
    }

    /// Whether the search has ended.
    pub closed spec fn finished(&self) -> bool {
        self.finished
    }

    /// A coordinator that waits for the first signal.
    pub fn new() -> (coordinator: Self)
        ensures
            !coordinator.finished(),
            coordinator.result() is None,
    {
        Coordinator { result: None, finished: false }
    }

    /// Takes a signal. The first one ends the search, with the password
    /// that it brings or with none; the result is never replaced.
    pub fn on_signal(&mut self, signal: Signal) -> (order: Order)
        ensures
            final(self).finished(),
            old(self).finished() ==> final(self).result() == old(self).result() && order
                == Order::Rest,
            !old(self).finished() ==> match signal {
                Signal::PasswordFound(password) => final(self).result() == Some(password@)
                    && order == Order::StopWorkers,
                Signal::WorkersGone => final(self).result() is None && order == Order::Rest,
            },
    {
        if self.finished {
            return Order::Rest;
        }
        self.finished = true;
        match signal {
            Signal::PasswordFound(password) => {
                self.result = Some(password);
                Order::StopWorkers
            },
            Signal::WorkersGone => {
                self.result = None;
                Order::Rest
            },
        }
    }

    /// The result of the search: the password that was found, or `None`
    /// where the search has not ended or has ended without one.
    pub fn into_result(self) -> (password: Option<String>)
        ensures
            match password {
                Some(found) => self.result() == Some(found@),
                None => self.result() is None,
            },
    {
        self.result
    }
}

} // verus!

//! Squashing the file on view into a commit, and moving on to the next.
//!
//! `but` is asked one thing at a time: each [`SquashStep`] says what to run, and
//! answering it gives the next step.

use vstd::prelude::*;
use vstd::utf8::{encode_utf8, encode_utf8_decode_utf8, encode_utf8_valid_utf8};

use crate::text::{decode, decoded, is_space, is_white_space};

verus! {

/// The fewest digits of a commit hash.
pub const SHORTEST_HASH: usize = 7;

/// Whether `c` is a digit of a commit hash.
pub open spec fn is_hash_digit(c: char) -> bool {
    '0' <= c <= '9' || 'a' <= c <= 'f'
}

/// Whether the characters from `i` to `j` are a word, with white space or an end
/// of the text on either side.
pub open spec fn is_word(text: Seq<char>, i: int, j: int) -> bool {
    &&& 0 <= i < j <= text.len()
    &&& forall|k: int| i <= k < j ==> !is_white_space(#[trigger] text[k])
    &&& i == 0 || is_white_space(text[i - 1])
    &&& j == text.len() || is_white_space(text[j])
}

/// Whether the characters from `i` to `j` show a commit: a word that is a hash.
pub open spec fn shows_commit(text: Seq<char>, i: int, j: int) -> bool {
    &&& is_word(text, i, j)
    &&& j - i >= SHORTEST_HASH
    &&& forall|k: int| i <= k < j ==> is_hash_digit(#[trigger] text[k])
}

/// Whether `commit` is the first commit that `text` shows.
pub open spec fn is_first_commit(text: Seq<char>, commit: Seq<char>) -> bool {
    exists|i: int, j: int|
        {
            &&& #[trigger] shows_commit(text, i, j)
            &&& commit == text.subrange(i, j)
            &&& forall|a: int, b: int| #[trigger] shows_commit(text, a, b) ==> i <= a
        }
}

/// Whether `text` shows no commit.
pub open spec fn shows_no_commit(text: Seq<char>) -> bool {
    forall|i: int, j: int| !#[trigger] shows_commit(text, i, j)
}

/// The first commit that the output of `but status` shows.
pub fn first_commit(status: &str) -> (commit: Option<String>)
    ensures
        match commit {
            Some(commit) => is_first_commit(status@, commit@),
            None => shows_no_commit(status@),
        },
{
    let ghost text = status@;
    let mut word = String::new();
    let mut digits: usize = 0;
    let mut is_hash = true;
    let ghost mut start: int = 0;
    for c in it: status.chars()
        invariant
            text == status@,
            it.seq() == text,
            0 <= start <= it.index() <= text.len(),
            word@ == text.subrange(start, it.index() as int),
            digits == (if word@.len() < SHORTEST_HASH {
                word@.len() as int
            } else {
                SHORTEST_HASH as int
            }),
            is_hash == (forall|k: int| start <= k < it.index() ==> is_hash_digit(#[trigger] text[k])),
            forall|k: int| start <= k < it.index() ==> !is_white_space(#[trigger] text[k]),
            start == 0 || is_white_space(text[start - 1]),
            forall|a: int, b: int| #[trigger] shows_commit(text, a, b) ==> start <= a,
    {
        let ghost end = it.index() as int;
        assert(text[end] == c);
        if is_space(c) {
            if is_hash && digits == SHORTEST_HASH {
                assert(shows_commit(text, start, end));
                return Some(word);
            }
            proof {
                assert forall|a: int, b: int| #[trigger] shows_commit(text, a, b) implies end + 1
                    <= a by {
                    lemma_word_from(text, start, end, a, b);
                }
                start = end + 1;
            }
            word = String::new();
            digits = 0;
            is_hash = true;
            proof {
                assert(word@ =~= text.subrange(start, end + 1));
            }
        } else {
            word.push(c);
            if digits < SHORTEST_HASH {
                digits = digits + 1;
            }
            if !is_hash_char(c) {
                is_hash = false;
            }
            proof {
                assert(word@ =~= text.subrange(start, end + 1));
            }
        }
    }
    let ghost end = text.len() as int;
    if is_hash && digits == SHORTEST_HASH {
        assert(shows_commit(text, start, end));
        return Some(word);
    }
    proof {
        assert forall|a: int, b: int| !#[trigger] shows_commit(text, a, b) by {
            if shows_commit(text, a, b) {
                lemma_word_from(text, start, end, a, b);
            }
        }
    }
    None
}

/// A word that begins at or after `start`, where there is no white space from
/// there to `end`, begins at `start` and ends at `end`, or begins after `end`.
proof fn lemma_word_from(text: Seq<char>, start: int, end: int, a: int, b: int)
    requires
        0 <= start <= end <= text.len(),
        forall|k: int| start <= k < end ==> !is_white_space(#[trigger] text[k]),
        end == text.len() || is_white_space(text[end]),
        is_word(text, a, b),
        start <= a,
    ensures
        (a == start && b == end) || end < a,
{
    if a <= end {
        if a == end {
            assert(!is_white_space(text[a]));
        } else {
            if a > start {
                assert(is_white_space(text[a - 1]));
            }
            if b < end {
                assert(is_white_space(text[b]));
            } else if b > end {
                assert(!is_white_space(text[end]));
            }
        }
    }
}

/// Whether `c` is a digit of a commit hash.
fn is_hash_char(c: char) -> (is: bool)
    ensures
        is == is_hash_digit(c),
{
    ('0' <= c && c <= '9') || ('a' <= c && c <= 'f')
}

/// Why a file could not be squashed.
#[derive(Clone, Copy, Debug, Eq, PartialEq, Structural)]
pub enum SquashError {
    /// There is no file with that index.
    UnknownFile,
    /// `but status` has failed.
    NoStatus,
    /// `but status` shows no commit.
    NoCommit,
    /// Squashing has failed.
    NotSquashed,
}

impl SquashError {
    /// The HTTP status that tells the page of the error.
    pub fn status_code(self) -> (code: u16)
        ensures
            code == (if self == SquashError::UnknownFile {
                404u16
            } else {
                500u16
            }),
    {
        match self {
            SquashError::UnknownFile => 404,
            _ => 500,
        }
    }
}

/// What to run next, or what came out.
#[derive(Debug)]
pub enum SquashStep {
    /// Run `but status`.
    ShowStatus(PendingStatus),
    /// Squash the file into a commit.
    Squash(PendingSquash),
    /// The file is squashed; the next one to view has this index.
    Squashed { next: usize },
    /// The file is not squashed.
    Failed(SquashError),
}

/// A file that is to be squashed.
#[derive(Debug)]
pub struct PendingStatus {
    index: usize,
    count: usize,
}

/// A file that is to be squashed, and the commit that it goes into.
#[derive(Debug)]
pub struct PendingSquash {
    index: usize,
    count: usize,
    commit: String,
}

impl PendingStatus {
    /// The index of the file.
    pub closed spec fn file(self) -> nat {
        self.index as nat
    }

    /// The number of files.
    pub closed spec fn files(self) -> nat {
        self.count as nat
    }

    #[verifier::type_invariant]
    spec fn well_formed(self) -> bool {
        self.index < self.count
    }
}

impl PendingSquash {
    /// The index of the file.
    pub closed spec fn file(self) -> nat {
        self.index as nat
    }

    /// The number of files.
    pub closed spec fn files(self) -> nat {
        self.count as nat
    }

    /// The commit.
    pub closed spec fn target(self) -> Seq<char> {
        self.commit@
    }

    #[verifier::type_invariant]
    spec fn well_formed(self) -> bool {
        self.index < self.count
    }
}

/// The file to view after the one at `index`: the next one, or the last one again.
pub open spec fn next_file(index: nat, count: nat) -> nat {
    if index + 1 < count {
        index + 1
    } else {
        index
    }
}

/// Whether `step` is the first step of squashing the file at `index` of `count` files.
pub open spec fn is_first_step(step: SquashStep, index: nat, count: nat) -> bool {
    if index < count {
        step matches SquashStep::ShowStatus(pending) && pending.file() == index && pending.files()
            == count
    } else {
        step == SquashStep::Failed(SquashError::UnknownFile)
    }
}

/// Whether `step` is the step after `but status`, which has written `status`, or has
/// failed.
pub open spec fn follows_status(
    step: SquashStep,
    index: nat,
    count: nat,
    status: Option<Seq<u8>>,
) -> bool {
    match status {
        None => step == SquashStep::Failed(SquashError::NoStatus),
        Some(written) => if shows_no_commit(decoded(written)) {
            step == SquashStep::Failed(SquashError::NoCommit)
        } else {
            step matches SquashStep::Squash(pending) && pending.file() == index && pending.files()
                == count && is_first_commit(decoded(written), pending.target())
        },
    }
}

/// Whether `step` is the step after the attempt to squash a file.
pub open spec fn follows_attempt(
    step: SquashStep,
    index: nat,
    count: nat,
    squashed: bool,
) -> bool {
    if squashed {
        step matches SquashStep::Squashed { next } && next == next_file(index, count)
    } else {
        step == SquashStep::Failed(SquashError::NotSquashed)
    }
}

/// The first step of squashing the file at `index` of `count` files.
pub fn squash_file(index: usize, count: usize) -> (step: SquashStep)
    ensures
        index < count ==> (step matches SquashStep::ShowStatus(pending) && pending.file() == index
            && pending.files() == count),
        index >= count ==> step == SquashStep::Failed(SquashError::UnknownFile),
        is_first_step(step, index as nat, count as nat),
{
    if index < count {
        SquashStep::ShowStatus(PendingStatus { index, count })
    } else {
        SquashStep::Failed(SquashError::UnknownFile)
    }
}

impl PendingStatus {
    /// The step after `but status`, which has written `status`, or has failed.
    pub fn answer(self, status: Option<&[u8]>) -> (step: SquashStep)
        ensures
            status is None ==> step == SquashStep::Failed(SquashError::NoStatus),
            status matches Some(written) ==> (if shows_no_commit(decoded(written@)) {
                step == SquashStep::Failed(SquashError::NoCommit)
            } else {
                step matches SquashStep::Squash(pending) && pending.file() == self.file()
                    && pending.files() == self.files() && is_first_commit(
                    decoded(written@),
                    pending.target(),
                )
            }),
            follows_status(
                step,
                self.file(),
                self.files(),
                match status {
                    Some(written) => Some(written@),
                    None => None,
                },
            ),
    {
        proof {
            use_type_invariant(&self);
        }
        match status {
            None => SquashStep::Failed(SquashError::NoStatus),
            Some(written) => match first_commit(decode(written).as_str()) {
                Some(commit) => SquashStep::Squash(
                    PendingSquash { index: self.index, count: self.count, commit },
                ),
                None => SquashStep::Failed(SquashError::NoCommit),
            },
        }
    }
}

impl PendingSquash {
    /// The index of the file.
    pub fn index(&self) -> (index: usize)
        ensures
            index == self.file(),
            index < self.files(),
    {
        proof {
            use_type_invariant(self);
        }
        self.index
    }

    /// The commit.
    pub fn commit(&self) -> (commit: &str)
        ensures
            commit@ == self.target(),
    {
        self.commit.as_str()
    }

    /// The step after the attempt to squash the file.
    pub fn answer(self, squashed: bool) -> (step: SquashStep)
        ensures
            squashed ==> (step matches SquashStep::Squashed { next } && next == next_file(
                self.file(),
                self.files(),
            )),
            !squashed ==> step == SquashStep::Failed(SquashError::NotSquashed),
            follows_attempt(step, self.file(), self.files(), squashed),
    {
        proof {
            use_type_invariant(&self);
        }
        if !squashed {
            SquashStep::Failed(SquashError::NotSquashed)
        } else if self.count - self.index > 1 {
            SquashStep::Squashed { next: self.index + 1 }
        } else {
            SquashStep::Squashed { next: self.index }
        }
    }
}

/// The next file is one of the files, and it is the one after the file that was
/// on view unless that was the last.
pub proof fn lemma_next_file_exists(index: nat, count: nat)
    requires
        index < count,
    ensures
        next_file(index, count) < count,
        index + 1 < count ==> next_file(index, count) == index + 1,
        index + 1 == count ==> next_file(index, count) == index,
{
}

/// No text shows two different first commits.
pub proof fn lemma_first_commit_is_unique(text: Seq<char>, a: Seq<char>, b: Seq<char>)
    requires
        is_first_commit(text, a),
        is_first_commit(text, b),
    ensures
        a == b,
{
    let (i, j) = choose|i: int, j: int|
        {
            &&& #[trigger] shows_commit(text, i, j)
            &&& a == text.subrange(i, j)
            &&& forall|x: int, y: int| #[trigger] shows_commit(text, x, y) ==> i <= x
        };
    let (k, l) = choose|k: int, l: int|
        {
            &&& #[trigger] shows_commit(text, k, l)
            &&& b == text.subrange(k, l)
            &&& forall|x: int, y: int| #[trigger] shows_commit(text, x, y) ==> k <= x
        };
    assert(i == k);
    lemma_word_from(text, i, j, k, l);
}

/// A word of hash digits, seven or more, that white space separates from what is
/// around it is the first commit of a text that shows none before it.
pub proof fn lemma_separate_hash_is_first_commit(
    before: Seq<char>,
    space: char,
    hash: Seq<char>,
    after: Seq<char>,
)
    requires
        shows_no_commit(before),
        is_white_space(space),
        hash.len() >= 7,
        forall|i: int|
            0 <= i < hash.len() ==> ('0' <= #[trigger] hash[i] <= '9' || 'a' <= hash[i] <= 'f'),
        after.len() > 0 ==> is_white_space(after[0]),
    ensures
        is_first_commit(before.push(space) + hash + after, hash),
{
    let text = before.push(space) + hash + after;
    let i = before.len() as int + 1;
    let j = i + hash.len();
    assert forall|k: int| i <= k < j implies is_hash_digit(#[trigger] text[k]) && !is_white_space(
        text[k],
    ) by {
        assert(text[k] == hash[k - i]);
    }
    assert(text[i - 1] == space);
    assert(j < text.len() ==> text[j] == after[0]);
    assert(shows_commit(text, i, j));
    assert(text.subrange(i, j) =~= hash);
    assert forall|a: int, b: int| #[trigger] shows_commit(text, a, b) implies i <= a by {
        if a < i {
            if b <= i - 1 {
                assert forall|k: int| a <= k < b implies is_hash_digit(#[trigger] before[k])
                    && !is_white_space(before[k]) by {
                    assert(text[k] == before[k]);
                }
                if a > 0 {
                    assert(text[a - 1] == before[a - 1]);
                }
                if b < before.len() {
                    assert(text[b] == before[b]);
                }
                assert(shows_commit(before, a, b));
            } else {
                assert(is_white_space(text[i - 1]));
            }
        }
    }
}

/// A word is passed over where it is shorter than seven characters, or holds one that
/// is no digit of a hash: a text shows no commit where none of its words is one, and
/// a word alone is a commit only as a whole.
pub proof fn lemma_other_words_are_no_commits(word: Seq<char>, a: int, b: int)
    requires
        forall|i: int| 0 <= i < word.len() ==> !is_white_space(#[trigger] word[i]),
    ensures
        word.len() < 7 ==> shows_no_commit(word),
        (exists|i: int|
            0 <= i < word.len() && !('0' <= #[trigger] word[i] <= '9' || 'a' <= word[i] <= 'f'))
            ==> shows_no_commit(word),
        shows_commit(word, a, b) ==> a == 0 && b == word.len(),
{
    assert forall|i: int, j: int| #[trigger] shows_commit(word, i, j) implies i == 0 && j
        == word.len() by {
        lemma_word_from(word, 0, word.len() as int, i, j);
    }
}

/// White space shows no commit, and neither do texts that show none with white space
/// between them.
pub proof fn lemma_separate_texts_show_no_commit(left: Seq<char>, space: char, right: Seq<char>)
    requires
        shows_no_commit(left),
        is_white_space(space),
        shows_no_commit(right),
    ensures
        shows_no_commit(left.push(space) + right),
        shows_no_commit(Seq::empty()),
{
    let text = left.push(space) + right;
    let i = left.len() as int;
    assert(text[i] == space);
    assert forall|a: int, b: int| !#[trigger] shows_commit(text, a, b) by {
        if shows_commit(text, a, b) {
            if b <= i {
                assert forall|k: int| a <= k < b implies is_hash_digit(#[trigger] left[k])
                    && !is_white_space(left[k]) by {
                    assert(text[k] == left[k]);
                }
                if a > 0 {
                    assert(text[a - 1] == left[a - 1]);
                }
                if b < i {
                    assert(text[b] == left[b]);
                }
                assert(shows_commit(left, a, b));
            } else if a <= i {
                assert(!is_white_space(text[i]));
            } else {
                assert forall|k: int| a - i - 1 <= k < b - i - 1 implies is_hash_digit(
                    #[trigger] right[k],
                ) && !is_white_space(right[k]) by {
                    assert(text[k + i + 1] == right[k]);
                }
                if a > i + 1 {
                    assert(text[a - 1] == right[a - i - 2]);
                }
                if b < text.len() {
                    assert(text[b] == right[b - i - 1]);
                }
                assert(shows_commit(right, a - i - 1, b - i - 1));
            }
        }
    }
}

/// Every file can be squashed, and nothing else: the status is asked for, for the file
/// with that index.
pub proof fn lemma_every_file_can_be_squashed(step: SquashStep, index: nat, count: nat)
    requires
        is_first_step(step, index, count),
    ensures
        index < count <==> step is ShowStatus,
        step matches SquashStep::ShowStatus(pending) ==> pending.file() == index && pending.files()
            == count,
        index >= count ==> step == SquashStep::Failed(SquashError::UnknownFile),
{
}

/// The file is squashed into the first commit that the status shows, whatever else the
/// status holds.
pub proof fn lemma_squashed_into_first_commit(
    step: SquashStep,
    index: nat,
    count: nat,
    before: Seq<char>,
    space: char,
    hash: Seq<char>,
    after: Seq<char>,
)
    requires
        shows_no_commit(before),
        is_white_space(space),
        hash.len() >= 7,
        forall|i: int|
            0 <= i < hash.len() ==> ('0' <= #[trigger] hash[i] <= '9' || 'a' <= hash[i] <= 'f'),
        after.len() > 0 ==> is_white_space(after[0]),
        follows_status(
            step,
            index,
            count,
            Some(encode_utf8(before.push(space) + hash + after)),
        ),
    ensures
        step is Squash,
        step->Squash_0.file() == index,
        step->Squash_0.files() == count,
        step->Squash_0.target() == hash,
{
    let text = before.push(space) + hash + after;
    encode_utf8_valid_utf8(text);
    encode_utf8_decode_utf8(text);
    lemma_separate_hash_is_first_commit(before, space, hash, after);
    assert(!shows_no_commit(text));
    lemma_first_commit_is_unique(text, hash, step->Squash_0.target());
}

/// Nothing is squashed where the status shows no commit, or where there is none.
pub proof fn lemma_nothing_squashed_without_commit(
    step: SquashStep,
    index: nat,
    count: nat,
    text: Seq<char>,
)
    ensures
        follows_status(step, index, count, None) ==> step == SquashStep::Failed(
            SquashError::NoStatus,
        ),
        shows_no_commit(text) && follows_status(step, index, count, Some(encode_utf8(text)))
            ==> step == SquashStep::Failed(SquashError::NoCommit),
{
    encode_utf8_valid_utf8(text);
    encode_utf8_decode_utf8(text);
}

/// After a file is squashed, the next one is on view, or the last one stays; a file
/// that is not squashed is an error.
pub proof fn lemma_advances_after_squash(step: SquashStep, index: nat, count: nat, squashed: bool)
    requires
        index < count,
        follows_attempt(step, index, count, squashed),
    ensures
        squashed <==> step is Squashed,
        step matches SquashStep::Squashed { next } ==> next < count && (next == index + 1 || (next
            == index && index + 1 == count)),
        !squashed ==> step == SquashStep::Failed(SquashError::NotSquashed),
{
}

} // verus!

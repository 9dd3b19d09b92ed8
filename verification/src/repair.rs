//! The repair step: finds damaged files in a repository's metadata before
//! anything reads history from it.

use crate::text::{
    chars_of, contains_text, find_char, occurs_in, piece_end, slice_of, starts_with_text,
    text_of, texts_of, trimmed, trimmed_of,
};
use vstd::prelude::*;

verus! {

/// What reading a file as text gave.
#[derive(Debug, Clone)]
pub enum FileRead {
    /// The file could not be read as text.
    Unreadable,
    /// The file's content.
    Text(String),
}

/// One loose reference file: its path below the repository and what reading
/// it gave.
#[derive(Debug, Clone)]
pub struct RefFile {
    pub path: String,
    pub read: FileRead,
}

/// What the consistency checker printed.
#[derive(Debug, Clone)]
pub struct CheckerOutput {
    pub stderr: String,
    pub stdout: String,
}

/// What the repair step reads of a repository.
#[derive(Debug, Clone)]
pub struct RepoSnapshot {
    /// Whether the metadata directory exists.
    pub has_git_dir: bool,
    /// The last-fetch marker, where the file exists.
    pub fetch_head: Option<FileRead>,
    /// The loose reference files, in the order of the scan.
    pub refs: Vec<RefFile>,
    /// The consistency checker's output, where it could be run.
    pub checker: Option<CheckerOutput>,
}

/// What the repair step found and did.
#[derive(Debug, Clone)]
pub struct RepairResult {
    pub fixed_fetch_head: bool,
    pub removed_corrupted_refs: Vec<String>,
    pub fsck_errors: Vec<String>,
    pub needs_attention: bool,
}

/// Why the repair step did not run.
#[derive(Debug, Clone, Copy, PartialEq, Eq, Structural)]
pub enum RepairError {
    /// The path holds no repository.
    NotARepository,
}

/// The text that a read gave, where it gave one.
pub open spec fn text_read(read: FileRead) -> Option<Seq<char>> {
    match read {
        FileRead::Unreadable => None,
        FileRead::Text(t) => Some(t@),
    }
}

/// A hexadecimal digit.
pub open spec fn is_hex_digit(c: char) -> bool {
    ('0' <= c && c <= '9') || ('a' <= c && c <= 'f') || ('A' <= c && c <= 'F')
}

/// The prefix of a symbolic reference.
pub open spec fn symbolic_prefix() -> Seq<char> {
    seq!['r', 'e', 'f', ':']
}

/// The content of a sound reference file: a symbolic reference, or 40 or 64
/// hexadecimal digits.
pub open spec fn valid_ref_content(content: Seq<char>) -> bool {
    content.len() > 0 && (symbolic_prefix().is_prefix_of(content) || ((content.len() == 40
        || content.len() == 64) && forall|i: int|
        0 <= i < content.len() ==> is_hex_digit(#[trigger] content[i])))
}

/// The last-fetch marker is damaged: unreadable, empty, or holding a null
/// character.
pub open spec fn fetch_marker_damaged(read: FileRead) -> bool {
    match read {
        FileRead::Unreadable => true,
        FileRead::Text(t) => t@.len() == 0 || t@.contains('\0'),
    }
}

/// A reference file is damaged: unreadable, or its content without the
/// surrounding whitespace is not that of a sound reference.
pub open spec fn ref_damaged(read: FileRead) -> bool {
    match read {
        FileRead::Unreadable => true,
        FileRead::Text(t) => !valid_ref_content(trimmed_of(t@)),
    }
}

/// Whether a character is a hexadecimal digit.
pub fn hex_digit(c: char) -> (hex: bool)
    ensures
        hex == is_hex_digit(c),
{
    ('0' <= c && c <= '9') || ('a' <= c && c <= 'f') || ('A' <= c && c <= 'F')
}

/// Whether the content is that of a sound reference file: not empty, and
/// either beginning with `"ref:"` or made of 40 or 64 hexadecimal digits.
pub fn is_valid_ref_content(content: &str) -> (valid: bool)
    ensures
        valid == valid_ref_content(content@),
{
    proof {
        reveal_strlit("ref:");
        assert("ref:"@ =~= symbolic_prefix());
    }
    let chars = chars_of(content);
    if chars.len() == 0 {
        return false;
    }
    let prefix = chars_of("ref:");
    if starts_with_text(&chars, &prefix) {
        return true;
    }
    if chars.len() != 40 && chars.len() != 64 {
        return false;
    }
    let mut i: usize = 0;
    while i < chars.len()
        invariant
            i <= chars.len(),
            chars@ == content@,
            !symbolic_prefix().is_prefix_of(content@),
            forall|j: int| 0 <= j < i ==> is_hex_digit(#[trigger] chars[j]),
        decreases chars.len() - i,
    {
        if !hex_digit(chars[i]) {
            return false;
        }
        i = i + 1;
    }
    true
}

/// Whether the characters hold `c`.
pub fn holds_char(chars: &Vec<char>, c: char) -> (found: bool)
    ensures
        found == chars@.contains(c),
{
    let mut i: usize = 0;
    while i < chars.len()
        invariant
            i <= chars.len(),
            forall|j: int| 0 <= j < i ==> chars[j] != c,
        decreases chars.len() - i,
    {
        if chars[i] == c {
            return true;
        }
        i = i + 1;
    }
    false
}

/// Whether the last-fetch marker is damaged.
pub fn is_fetch_head_corrupted(read: &FileRead) -> (damaged: bool)
    ensures
        damaged == fetch_marker_damaged(*read),
{
    match read {
        FileRead::Unreadable => true,
        FileRead::Text(t) => {
            let chars = chars_of(t.as_str());
            chars.len() == 0 || holds_char(&chars, '\0')
        },
    }
}

/// Whether a reference file is damaged.
pub fn is_ref_corrupted(read: &FileRead) -> (damaged: bool)
    ensures
        damaged == ref_damaged(*read),
{
    match read {
        FileRead::Unreadable => true,
        FileRead::Text(t) => {
            let content = trimmed(t.as_str());
            !is_valid_ref_content(content.as_str())
        },
    }
}

impl RepairResult {
    /// Whether the step repaired anything.
    pub open spec fn repaired(&self) -> bool {
        self.fixed_fetch_head || self.removed_corrupted_refs@.len() > 0
    }

    /// Whether the step repaired anything: the marker, or at least one
    /// reference.
    pub fn has_fixes(&self) -> (fixes: bool)
        ensures
            fixes == self.repaired(),
    {
        self.fixed_fetch_head || self.removed_corrupted_refs.len() > 0
    }
}

/// The line that begins at `from`, without its line feed and without the
/// carriage return before that line feed.
pub open spec fn line_at(text: Seq<char>, from: int) -> Seq<char> {
    let end = piece_end(text, '\n', from);
    if end < text.len() && end > from && text[end - 1] == '\r' {
        text.subrange(from, end - 1)
    } else {
        text.subrange(from, end)
    }
}

/// The lines of the text from position `from` on.
pub open spec fn lines_from(text: Seq<char>, from: int) -> Seq<Seq<char>>
    decreases text.len() - from,
{
    if from < 0 || from >= text.len() {
        Seq::empty()
    } else {
        let end = piece_end(text, '\n', from);
        if end < from {
            Seq::empty()
        } else if end >= text.len() {
            seq![line_at(text, from)]
        } else {
            seq![line_at(text, from)] + lines_from(text, end + 1)
        }
    }
}

/// The lines of a text. Lines end at a line feed; a carriage return right
/// before it belongs to the line ending. A text that ends with a line
/// ending has no empty last line.
pub open spec fn lines_of(text: Seq<char>) -> Seq<Seq<char>> {
    lines_from(text, 0)
}

/// The lines of a text.
pub fn split_lines(text: &str) -> (lines: Vec<String>)
    ensures
        texts_of(lines@) == lines_of(text@),
{
    let chars = chars_of(text);
    let ghost whole = text@;
    let mut lines: Vec<String> = Vec::new();
    let mut from: usize = 0;
    proof {
        assert(texts_of(lines@) =~= Seq::<Seq<char>>::empty());
    }
    while from < chars.len()
        invariant
            from <= chars.len(),
            chars@ == whole,
            lines_of(whole) == texts_of(lines@) + lines_from(whole, from as int),
        decreases chars.len() - from,
    {
        let end = find_char(&chars, '\n', from);
        let stop = if end < chars.len() && end > from && chars[end - 1] == '\r' {
            end - 1
        } else {
            end
        };
        let line = text_of(&slice_of(&chars, from, stop));
        proof {
            assert(line@ == line_at(whole, from as int));
        }
        let ghost before = texts_of(lines@);
        lines.push(line);
        proof {
            assert(texts_of(lines@) =~= before.push(line@));
            assert(before + (seq![line@] + lines_from(whole, end + 1)) =~= before.push(line@)
                + lines_from(whole, end + 1));
            assert(before + seq![line@] =~= before.push(line@));
        }
        if end == chars.len() {
            from = end;
        } else {
            from = end + 1;
        }
        proof {
            if end == chars.len() {
                assert(seq![line@] =~= seq![line@] + lines_from(whole, end as int));
            }
        }
    }
    proof {
        assert(lines_from(whole, from as int) =~= Seq::<Seq<char>>::empty());
        assert(texts_of(lines@) + Seq::<Seq<char>>::empty()
            =~= texts_of(lines@));
    }
    lines
}

/// A line of the checker's output that reports an error.
pub open spec fn is_complaint(line: Seq<char>) -> bool {
    occurs_in(line, seq!['e', 'r', 'r', 'o', 'r', ':']) || occurs_in(
        line,
        seq!['f', 'a', 't', 'a', 'l', ':'],
    )
}

/// The lines that report an error, in order.
pub open spec fn complaints_among(lines: Seq<Seq<char>>) -> Seq<Seq<char>>
    decreases lines.len(),
{
    if lines.len() == 0 {
        Seq::empty()
    } else if is_complaint(lines.last()) {
        complaints_among(lines.drop_last()).push(lines.last())
    } else {
        complaints_among(lines.drop_last())
    }
}

/// What the checker reported: the complaints on its error stream, then
/// those on its output stream; nothing where it did not run.
pub open spec fn complaints_of(checker: Option<CheckerOutput>) -> Seq<Seq<char>> {
    match checker {
        Some(output) => complaints_among(lines_of(output.stderr@)) + complaints_among(
            lines_of(output.stdout@),
        ),
        None => Seq::empty(),
    }
}

/// The paths of the damaged reference files, in order.
pub open spec fn damaged_refs(refs: Seq<RefFile>) -> Seq<Seq<char>>
    decreases refs.len(),
{
    if refs.len() == 0 {
        Seq::empty()
    } else if ref_damaged(refs.last().read) {
        damaged_refs(refs.drop_last()).push(refs.last().path@)
    } else {
        damaged_refs(refs.drop_last())
    }
}

/// The reference files that are not damaged, in order.
pub open spec fn sound_refs(refs: Seq<RefFile>) -> Seq<RefFile>
    decreases refs.len(),
{
    if refs.len() == 0 {
        Seq::empty()
    } else if ref_damaged(refs.last().read) {
        sound_refs(refs.drop_last())
    } else {
        sound_refs(refs.drop_last()).push(refs.last())
    }
}

/// The last-fetch marker exists and is damaged.
pub open spec fn marker_needs_fix(fetch_head: Option<FileRead>) -> bool {
    fetch_head is Some && fetch_marker_damaged(fetch_head->0)
}

/// The repair step has something to fix: the marker, or at least one
/// reference file.
pub open spec fn repair_needed(fetch_head: Option<FileRead>, refs: Seq<RefFile>) -> bool {
    marker_needs_fix(fetch_head) || damaged_refs(refs).len() > 0
}

/// The repository once the damaged files are deleted.
pub open spec fn snapshot_after_repair(snapshot: RepoSnapshot) -> (Option<FileRead>, Seq<RefFile>) {
    (
        if marker_needs_fix(snapshot.fetch_head) {
            None
        } else {
            snapshot.fetch_head
        },
        sound_refs(snapshot.refs@),
    )
}

/// Whether a line of the checker's output reports an error: it holds
/// `"error:"` or `"fatal:"`.
pub fn is_fsck_complaint(line: &str) -> (complaint: bool)
    ensures
        complaint == is_complaint(line@),
{
    proof {
        reveal_strlit("error:");
        reveal_strlit("fatal:");
        assert("error:"@ =~= seq!['e', 'r', 'r', 'o', 'r', ':']);
        assert("fatal:"@ =~= seq!['f', 'a', 't', 'a', 'l', ':']);
    }
    let chars = chars_of(line);
    contains_text(&chars, &chars_of("error:")) || contains_text(&chars, &chars_of("fatal:"))
}

/// Adds the complaints among the lines of `output` to `found`.
pub fn collect_complaints(found: &mut Vec<String>, output: &str)
    ensures
        texts_of(final(found)@) == texts_of(old(found)@) + complaints_among(lines_of(output@)),
{
    let lines = split_lines(output);
    let ghost all = texts_of(lines@);
    let ghost start = texts_of(found@);
    let mut i: usize = 0;
    proof {
        assert(start + complaints_among(all.take(0)) =~= start);
    }
    while i < lines.len()
        invariant
            i <= lines.len(),
            all == texts_of(lines@),
            texts_of(found@) == start + complaints_among(all.take(i as int)),
        decreases lines.len() - i,
    {
        proof {
            let next = all.take(i + 1);
            assert(next.drop_last() =~= all.take(i as int));
            assert(next.last() == lines[i as int]@);
        }
        if is_fsck_complaint(lines[i].as_str()) {
            let ghost before = texts_of(found@);
            found.push(lines[i].clone());
            proof {
                assert(texts_of(found@) =~= before.push(lines[i as int]@));
                assert(before.push(lines[i as int]@) =~= start + complaints_among(
                    all.take(i as int),
                ).push(lines[i as int]@));
            }
        }
        i = i + 1;
    }
    proof {
        assert(all.take(i as int) =~= all);
    }
}

/// The paths of the damaged reference files, in the order of the scan.
pub fn check_and_fix_refs(refs: &Vec<RefFile>) -> (removed: Vec<String>)
    ensures
        texts_of(removed@) == damaged_refs(refs@),
{
    let mut removed: Vec<String> = Vec::new();
    let mut i: usize = 0;
    proof {
        assert(texts_of(removed@) =~= damaged_refs(refs@.take(0)));
    }
    while i < refs.len()
        invariant
            i <= refs.len(),
            texts_of(removed@) == damaged_refs(refs@.take(i as int)),
        decreases refs.len() - i,
    {
        proof {
            let next = refs@.take(i + 1);
            assert(next.drop_last() =~= refs@.take(i as int));
            assert(next.last() == refs[i as int]);
        }
        if is_ref_corrupted(&refs[i].read) {
            let ghost before = texts_of(removed@);
            removed.push(refs[i].path.clone());
            proof {
                assert(texts_of(removed@) =~= before.push(refs[i as int].path@));
            }
        }
        i = i + 1;
    }
    proof {
        assert(refs@.take(i as int) =~= refs@);
    }
    removed
}

/// Decides what the repair step does to a repository: which damaged files
/// are to be deleted, and what the consistency checker reported. Fails only
/// where the repository's metadata directory is missing.
pub fn repair_repository(snapshot: &RepoSnapshot) -> (outcome: Result<RepairResult, RepairError>)
    ensures
        !snapshot.has_git_dir ==> outcome == Err::<RepairResult, RepairError>(
            RepairError::NotARepository,
        ),
        snapshot.has_git_dir ==> outcome is Ok && {
            let result = outcome->Ok_0;
            &&& result.fixed_fetch_head == marker_needs_fix(snapshot.fetch_head)
            &&& texts_of(result.removed_corrupted_refs@) == damaged_refs(snapshot.refs@)
            &&& texts_of(result.fsck_errors@) == complaints_of(snapshot.checker)
            &&& result.needs_attention == (complaints_of(snapshot.checker).len() > 0)
            &&& result.repaired() == repair_needed(snapshot.fetch_head, snapshot.refs@)
        },
{
    if !snapshot.has_git_dir {
        return Err(RepairError::NotARepository);
    }
    let fixed_fetch_head = match &snapshot.fetch_head {
        Some(read) => is_fetch_head_corrupted(read),
        None => false,
    };
    let removed_corrupted_refs = check_and_fix_refs(&snapshot.refs);
    let mut fsck_errors: Vec<String> = Vec::new();
    proof {
        assert(texts_of(fsck_errors@) =~= Seq::<Seq<char>>::empty());
    }
    match &snapshot.checker {
        Some(output) => {
            collect_complaints(&mut fsck_errors, output.stderr.as_str());
            collect_complaints(&mut fsck_errors, output.stdout.as_str());
            proof {
                assert(texts_of(fsck_errors@) =~= complaints_of(snapshot.checker));
            }
        },
        None => {},
    }
    let needs_attention = fsck_errors.len() > 0;
    Ok(RepairResult { fixed_fetch_head, removed_corrupted_refs, fsck_errors, needs_attention })
}

/// No sound reference file is damaged, and a list without damaged files is
/// kept whole.
pub proof fn lemma_sound_refs(refs: Seq<RefFile>)
    ensures
        damaged_refs(sound_refs(refs)).len() == 0,
        damaged_refs(refs).len() == 0 ==> sound_refs(refs) == refs,
        sound_refs(sound_refs(refs)) == sound_refs(refs),
    decreases refs.len(),
{
    if refs.len() > 0 {
        let init = refs.drop_last();
        lemma_sound_refs(init);
        if !ref_damaged(refs.last().read) {
            let kept = sound_refs(init).push(refs.last());
            assert(kept.drop_last() =~= sound_refs(init));
            if damaged_refs(refs).len() == 0 {
                assert(sound_refs(refs) =~= refs);
            }
        }
    }
}

/// Repair is idempotent. Once the damaged files of a repository are
/// deleted, a second run finds nothing to fix; and a run on a repository
/// without damaged files reports no fixes and leaves it as it is, so that
/// every later run reports none either.
pub proof fn repair_is_idempotent(snapshot: RepoSnapshot)
    ensures
        !repair_needed(snapshot_after_repair(snapshot).0, snapshot_after_repair(snapshot).1),
        !repair_needed(snapshot.fetch_head, snapshot.refs@) ==> snapshot_after_repair(snapshot)
            == (snapshot.fetch_head, snapshot.refs@),
{
    lemma_sound_refs(snapshot.refs@);
}

} // verus!

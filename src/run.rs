//! The decisions of a run: what follows a scan, what an answer to the
//! prompt means, the new path of each file, and the tally of the renames.
use vstd::prelude::*;
use crate::extension::{renamed, with_extension};
use crate::scan::RelPath;

verus! {

/// What a run does next.
#[derive(PartialEq, Eq, Structural, Clone, Copy, Debug)]
pub enum Next {
    /// Nothing matched: report it and end with success.
    ReportNone,
    /// List the files and ask whether to go on.
    Prompt,
    /// Rename every file that the scan found.
    Rename,
    /// The user declined: report it and end with success, renaming nothing.
    ReportCancelled,
}

/// What a scan that found `found` files leads to: nothing to do when it
/// found none; otherwise the prompt, unless confirmation is skipped.
pub fn after_scan(found: usize, skip_confirmation: bool) -> (r: Next)
    ensures
        found == 0 ==> r == Next::ReportNone,
        found > 0 && !skip_confirmation ==> r == Next::Prompt,
        found > 0 && skip_confirmation ==> r == Next::Rename,
{
    if found == 0 {
        Next::ReportNone
    } else if skip_confirmation {
        Next::Rename
    } else {
        Next::Prompt
    }
}

/// The text without the white space at its two ends.
pub uninterp spec fn trimmed(s: Seq<char>) -> Seq<char>;

/// The text in lowercase, as Unicode defines it.
pub uninterp spec fn lowercased(s: Seq<char>) -> Seq<char>;

/// Relies on `str::trim`: white space removed at both ends, which depends on
/// the text alone; an empty text stays empty.
#[verifier::external_body]
fn trim(s: &str) -> (r: &str)
    ensures
        r@ == trimmed(s@),
        s@.len() == 0 ==> r@.len() == 0,
{
    s.trim()
}

/// Relies on `str::to_lowercase`: the lowercase form, which depends on the
/// text alone; an empty text stays empty.
#[verifier::external_body]
fn to_lowercase(s: &str) -> (r: String)
    ensures
        r@ == lowercased(s@),
        s@.len() == 0 ==> r@.len() == 0,
{
    s.to_lowercase()
}

/// Whether an answer, already trimmed and in lowercase, is the one
/// affirmative answer `y`.
pub fn answer_is_yes(answer: &str) -> (r: bool)
    ensures
        r == (answer@ == seq!['y']),
{
    if answer.unicode_len() == 1 && answer.get_char(0) == 'y' {
        assert(answer@ =~= seq!['y']);
        true
    } else {
        false
    }
}

/// What an answer to the prompt leads to: the renames when, trimmed and in
/// lowercase, it is `y`; otherwise the run is cancelled and nothing is
/// renamed.
pub fn after_answer(input: &str) -> (r: Next)
    ensures
        r == (if lowercased(trimmed(input@)) == seq!['y'] { Next::Rename } else { Next::ReportCancelled }),
{
    let t = trim(input);
    let low = to_lowercase(t);
    if answer_is_yes(low.as_str()) {
        Next::Rename
    } else {
        Next::ReportCancelled
    }
}

/// The path with its last component given the extension `ext`.
pub open spec fn target_of(p: Seq<Seq<char>>, ext: Seq<char>) -> Seq<Seq<char>> {
    p.drop_last().push(with_extension(p.last(), ext))
}

/// The new path of a file: the same directories, and its name with the
/// extension replaced by `to_ext` (or removed, where `to_ext` is empty).
pub fn target_path(p: &RelPath, to_ext: &str) -> (r: RelPath)
    requires
        p.len() > 0,
    ensures
        r.deep_view() == target_of(p.deep_view(), to_ext@),
{
    let n = p.len() - 1;
    let mut r: RelPath = Vec::new();
    let mut i: usize = 0;
    while i < n
        invariant
            n == p.len() - 1,
            0 <= i <= n,
            r.deep_view() =~= p.deep_view().subrange(0, i as int),
        decreases n - i,
    {
        let ghost before = r.deep_view();
        r.push(p[i].clone());
        assert(r.deep_view() =~= before.push(p.deep_view()[i as int]));
        i = i + 1;
    }
    let ghost before = r.deep_view();
    r.push(renamed(p[n].as_str(), to_ext));
    assert(r.deep_view() =~= before.push(with_extension(p.deep_view().last(), to_ext@)));
    r
}

/// The new path of each file, in the order given.
pub fn targets(files: &Vec<RelPath>, to_ext: &str) -> (r: Vec<RelPath>)
    requires
        forall|i: int| 0 <= i < files.len() ==> #[trigger] files[i].len() > 0,
    ensures
        r.len() == files.len(),
        forall|i: int| 0 <= i < files.len()
            ==> #[trigger] r[i].deep_view() == target_of(files[i].deep_view(), to_ext@),
{
    let mut r: Vec<RelPath> = Vec::new();
    let mut i: usize = 0;
    while i < files.len()
        invariant
            0 <= i <= files.len(),
            forall|k: int| 0 <= k < files.len() ==> #[trigger] files[k].len() > 0,
            r.len() == i,
            forall|k: int| 0 <= k < i ==> #[trigger] r[k].deep_view() == target_of(files[k].deep_view(), to_ext@),
        decreases files.len() - i,
    {
        r.push(target_path(&files[i], to_ext));
        i = i + 1;
    }
    r
}

/// How many of the outcomes are successes.
pub open spec fn successes(outcomes: Seq<bool>) -> nat
    decreases outcomes.len(),
{
    if outcomes.len() == 0 {
        0
    } else {
        successes(outcomes.drop_last()) + if outcomes.last() { 1nat } else { 0nat }
    }
}

proof fn lemma_successes_bound(outcomes: Seq<bool>)
    ensures
        successes(outcomes) <= outcomes.len(),
    decreases outcomes.len(),
{
    if outcomes.len() > 0 {
        lemma_successes_bound(outcomes.drop_last());
    }
}

/// The number of files renamed, from the outcome of each rename in turn
/// (`true` for success); a failure does not stop the count.
pub fn count_renamed(outcomes: &Vec<bool>) -> (r: usize)
    ensures
        r == successes(outcomes@),
{
    let mut count: usize = 0;
    let mut i: usize = 0;
    while i < outcomes.len()
        invariant
            0 <= i <= outcomes.len(),
            count == successes(outcomes@.subrange(0, i as int)),
        decreases outcomes.len() - i,
    {
        assert(outcomes@.subrange(0, i + 1).drop_last() =~= outcomes@.subrange(0, i as int));
        proof { lemma_successes_bound(outcomes@.subrange(0, i as int)); }
        if outcomes[i] {
            count = count + 1;
        }
        i = i + 1;
    }
    assert(outcomes@.subrange(0, outcomes.len() as int) =~= outcomes@);
    count
}

/// How the final tally reads.
#[derive(PartialEq, Eq, Structural, Clone, Copy, Debug)]
pub enum Summary {
    /// No file was renamed.
    NoneRenamed,
    /// Exactly one file was renamed.
    One,
    /// The given number of files, more than one, were renamed.
    Many(usize),
}

/// The tally for `count` renamed files, singular for exactly one.
pub fn summary(count: usize) -> (r: Summary)
    ensures
        count == 0 ==> r == Summary::NoneRenamed,
        count == 1 ==> r == Summary::One,
        count > 1 ==> r == Summary::Many(count),
{
    if count == 0 {
        Summary::NoneRenamed
    } else if count == 1 {
        Summary::One
    } else {
        Summary::Many(count)
    }
}

} // verus!

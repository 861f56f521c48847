//! The files that are sent along with a prompt.

use crate::chat::notice::Notice;
#[allow(unused_imports)]
use crate::chat::notice::Told;
use crate::text::{concat, contains, join, same};
#[allow(unused_imports)]
use crate::text::{has_part, joined, texts};
use vstd::prelude::*;

verus! {

/// A file of the context.
#[derive(Debug)]
pub struct Files {
    pub path: String,
    pub content: String,
}

impl Clone for Files {
    fn clone(&self) -> (r: Files)
        ensures
            r == *self,
    {
        Files { path: self.path.clone(), content: self.content.clone() }
    }
}

/// A file as it is sent along.
pub open spec fn quoted(file: Files) -> Seq<char> {
    file.path@ + "\n```\n"@ + file.content@ + "```"@
}

/// The files as they are sent along.
pub open spec fn all_quoted(files: Seq<Files>) -> Seq<Seq<char>> {
    files.map_values(|f: Files| quoted(f))
}

/// A prompt with the files behind it.
pub open spec fn contextual(files: Seq<Files>, input: Seq<char>) -> Seq<char> {
    if files.len() == 0 {
        input
    } else {
        input + "\n"@ + joined(all_quoted(files), "\n"@)
    }
}

/// Create input with local context
pub fn create_contextual_input(files: &Vec<Files>, input: &str) -> (r: String)
    ensures
        r@ == contextual(files@, input@),
{
    if files.len() == 0 {
        return input.to_owned();
    }
    let mut parts: Vec<String> = Vec::new();
    let ghost want = all_quoted(files@);
    assert(texts(parts@) =~= want.take(0));
    for i in 0..files.len()
        invariant
            want == all_quoted(files@),
            texts(parts@) == want.take(i as int),
    {
        let ghost before = parts@;
        let start = concat(files[i].path.as_str(), "\n```\n");
        let middle = concat(start.as_str(), files[i].content.as_str());
        parts.push(concat(middle.as_str(), "```"));
        assert(texts(parts@) =~= texts(before).push(want[i as int]));
        assert(want.take(i + 1) =~= want.take(i as int).push(want[i as int]));
    }
    assert(want.take(files@.len() as int) =~= want);
    let start = concat(input, "\n");
    concat(start.as_str(), join(&parts, "\n").as_str())
}

/// The paths of the files.
pub open spec fn paths(files: Seq<Files>) -> Seq<Seq<char>> {
    files.map_values(|f: Files| f.path@)
}

/// The paths of the files, in order.
pub fn file_paths(files: &Vec<Files>) -> (r: Vec<String>)
    ensures
        texts(r@) == paths(files@),
{
    let mut r: Vec<String> = Vec::new();
    assert(texts(r@) =~= paths(files@).take(0));
    for i in 0..files.len()
        invariant
            texts(r@) == paths(files@).take(i as int),
    {
        let ghost before = r@;
        r.push(files[i].path.clone());
        assert(texts(r@) =~= texts(before).push(paths(files@)[i as int]));
        assert(paths(files@).take(i + 1) =~= paths(files@).take(i as int).push(
            paths(files@)[i as int],
        ));
    }
    assert(paths(files@).take(files@.len() as int) =~= paths(files@));
    r
}

// ---------------------------------------------------------------------
// Adding
// ---------------------------------------------------------------------

/// `files` with the new ones behind it whose path is not there yet.
pub open spec fn merged(files: Seq<Files>, more: Seq<Files>) -> Seq<Files>
    decreases more.len(),
{
    if more.len() == 0 {
        files
    } else {
        let rest = merged(files, more.drop_last());
        if paths(rest).contains(more.last().path@) {
            rest
        } else {
            rest.push(more.last())
        }
    }
}

fn has_path(files: &Vec<Files>, path: &str) -> (r: bool)
    ensures
        r == paths(files@).contains(path@),
{
    for i in 0..files.len()
        invariant
            forall|j: int| 0 <= j < i ==> (#[trigger] files@[j]).path@ != path@,
    {
        if same(files[i].path.as_str(), path) {
            assert(paths(files@)[i as int] == path@);
            return true;
        }
    }
    assert forall|j: int| 0 <= j < paths(files@).len() implies paths(files@)[j] != path@ by {
        assert(files@[j].path@ != path@);
    }
    false
}

/// Remove duplicates and add new files
pub fn add_files(files: &mut Vec<Files>, more: &Vec<Files>)
    ensures
        final(files)@ == merged(old(files)@, more@),
{
    let ghost start = files@;
    assert(more@.take(0) =~= Seq::<Files>::empty());
    for i in 0..more.len()
        invariant
            files@ == merged(start, more@.take(i as int)),
    {
        assert(more@.take(i + 1).drop_last() =~= more@.take(i as int));
        if !has_path(files, more[i].path.as_str()) {
            files.push(more[i].clone());
        }
    }
    assert(more@.take(more@.len() as int) =~= more@);
}

/// The error for a path that is not there.
pub fn missing_path(path: &str) -> (r: String)
    ensures
        r@ == "Path does not exist: "@ + path@,
{
    concat("Path does not exist: ", path)
}

/// What is told after files were added.
pub fn added_notice(path: &str) -> (r: Notice)
    ensures
        r@ == Told::Success("Added '"@ + path@ + "' to context"@),
{
    Notice::Success(concat(concat("Added '", path).as_str(), "' to context"))
}

// ---------------------------------------------------------------------
// Removing
// ---------------------------------------------------------------------

/// The files whose path does not contain the text.
pub open spec fn without(files: Seq<Files>, path: Seq<char>) -> Seq<Files>
    decreases files.len(),
{
    if files.len() == 0 {
        Seq::empty()
    } else {
        let rest = without(files.drop_last(), path);
        if has_part(files.last().path@, path) {
            rest
        } else {
            rest.push(files.last())
        }
    }
}

/// What is told after files were removed.
pub open spec fn removal_told(removed: bool, path: Seq<char>) -> Told {
    if removed {
        Told::Success("Removed files matching '"@ + path + "' from context"@)
    } else {
        Told::Warning("No files matching '"@ + path + "' found in context"@)
    }
}

/// Remove a path from the context. Whether any file went is returned.
pub fn remove_files(files: &mut Vec<Files>, path: &str) -> (r: bool)
    ensures
        final(files)@ == without(old(files)@, path@),
        r == (final(files)@.len() < old(files)@.len()),
{
    let ghost all = files@;
    let mut kept: Vec<Files> = Vec::new();
    assert(all.take(0) =~= Seq::<Files>::empty());
    for i in 0..files.len()
        invariant
            all == files@,
            kept@ == without(all.take(i as int), path@),
    {
        assert(all.take(i + 1).drop_last() =~= all.take(i as int));
        if !contains(files[i].path.as_str(), path) {
            kept.push(files[i].clone());
        }
    }
    assert(all.take(all.len() as int) =~= all);
    let removed = kept.len() < files.len();
    *files = kept;
    removed
}

pub fn removal_notice(removed: bool, path: &str) -> (r: Notice)
    ensures
        r@ == removal_told(removed, path@),
{
    if removed {
        Notice::Success(
            concat(concat("Removed files matching '", path).as_str(), "' from context"),
        )
    } else {
        Notice::Warning(concat(concat("No files matching '", path).as_str(), "' found in context"))
    }
}

// ---------------------------------------------------------------------
// Laws
// ---------------------------------------------------------------------

/// No two files of the context have one path.
pub open spec fn distinct_paths(files: Seq<Files>) -> bool {
    forall|i: int, j: int|
        0 <= i < j < files.len() ==> (#[trigger] files[i]).path@ != (#[trigger] files[j]).path@
}

/// Adding files never puts a path into the context twice, and takes nothing
/// out of it.
pub proof fn adding_files_keeps_paths_distinct(files: Seq<Files>, more: Seq<Files>)
    requires
        distinct_paths(files),
    ensures
        distinct_paths(merged(files, more)),
        merged(files, more).len() >= files.len(),
        merged(files, more).take(files.len() as int) == files,
    decreases more.len(),
{
    if more.len() == 0 {
        assert(files.take(files.len() as int) =~= files);
    } else {
        let rest = merged(files, more.drop_last());
        adding_files_keeps_paths_distinct(files, more.drop_last());
        let all = merged(files, more);
        assert(all.take(files.len() as int) =~= rest.take(files.len() as int));
        if !paths(rest).contains(more.last().path@) {
            assert forall|i: int, j: int| 0 <= i < j < all.len() implies (#[trigger] all[i]).path@
                != (#[trigger] all[j]).path@ by {
                if j == rest.len() {
                    assert(paths(rest)[i] == rest[i].path@);
                }
            }
        }
    }
}

/// Adding the same files again changes nothing.
pub proof fn adding_files_twice_changes_nothing(files: Seq<Files>, more: Seq<Files>)
    ensures
        merged(merged(files, more), more) == merged(files, more),
{
    let all = merged(files, more);
    lemma_merged_has(files, more);
    lemma_merged_known(all, more);
}

proof fn lemma_merged_has(files: Seq<Files>, more: Seq<Files>)
    ensures
        forall|i: int|
            0 <= i < more.len() ==> paths(merged(files, more)).contains(
                (#[trigger] more[i]).path@,
            ),
    decreases more.len(),
{
    if more.len() > 0 {
        let rest = merged(files, more.drop_last());
        let all = merged(files, more);
        lemma_merged_has(files, more.drop_last());
        assert forall|i: int| 0 <= i < more.len() implies paths(all).contains(
            (#[trigger] more[i]).path@,
        ) by {
            if i < more.len() - 1 {
                assert(more.drop_last()[i] == more[i]);
                assert(paths(rest).contains(more[i].path@));
                let k = choose|k: int| 0 <= k < paths(rest).len() && paths(rest)[k] == more[i].path@;
                assert(paths(all)[k] == more[i].path@);
            } else if !paths(rest).contains(more.last().path@) {
                assert(paths(all)[all.len() - 1] == more[i].path@);
            }
        }
    }
}

proof fn lemma_merged_known(all: Seq<Files>, more: Seq<Files>)
    requires
        forall|i: int| 0 <= i < more.len() ==> paths(all).contains((#[trigger] more[i]).path@),
    ensures
        merged(all, more) == all,
    decreases more.len(),
{
    if more.len() > 0 {
        assert(forall|i: int| 0 <= i < more.drop_last().len() ==> more.drop_last()[i] == more[i]);
        lemma_merged_known(all, more.drop_last());
        assert(paths(all).contains(more[more.len() - 1].path@));
    }
}

/// After removing, exactly the files whose path does not contain the text are
/// left.
pub proof fn removing_leaves_what_does_not_match(files: Seq<Files>, path: Seq<char>, f: Files)
    ensures
        without(files, path).contains(f) <==> files.contains(f) && !has_part(f.path@, path),
    decreases files.len(),
{
    if files.len() > 0 {
        let before = files.drop_last();
        let rest = without(before, path);
        let all = without(files, path);
        removing_leaves_what_does_not_match(before, path, f);
        if files.contains(f) && !has_part(f.path@, path) {
            let k = choose|k: int| 0 <= k < files.len() && files[k] == f;
            if k < before.len() {
                assert(before[k] == f);
                let j = choose|j: int| 0 <= j < rest.len() && rest[j] == f;
                assert(all[j] == f);
            } else {
                assert(all[all.len() - 1] == f);
            }
        }
        if all.contains(f) {
            let k = choose|k: int| 0 <= k < all.len() && all[k] == f;
            if k < rest.len() {
                assert(rest[k] == f);
                let j = choose|j: int| 0 <= j < before.len() && before[j] == f;
                assert(files[j] == f);
            } else {
                assert(files[files.len() - 1] == f);
            }
        }
    }
}

} // verus!

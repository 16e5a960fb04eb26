//! Properties of loading that hold across calls and inputs.
use crate::path_order::{file_paths, WalkEntry};
use crate::rules::{
    directory_rules, file_rules, files_rules, source_rules, sources_error, sources_rules,
    DirectoryListing, LoadError, Rule, Source,
};
use vstd::prelude::*;

verus! {

/// The number of rules that the files of a list yield when each is loaded on its own.
pub open spec fn total_rule_count(fs: Seq<crate::rules::FileContents>) -> int
    decreases fs.len(),
{
    if fs.len() == 0 {
        0
    } else {
        total_rule_count(fs.drop_last()) + match file_rules(fs.last()) {
            Some(rs) => rs.len() as int,
            None => 0,
        }
    }
}

/// Loading a list of files together gives as many rules as loading each file
/// on its own and adding up the counts; and each of them loads on its own.
pub proof fn law_count_is_sum_of_files(fs: Seq<crate::rules::FileContents>)
    requires
        files_rules(fs) is Some,
    ensures
        files_rules(fs)->0.len() == total_rule_count(fs),
        forall|i: int| 0 <= i < fs.len() ==> (#[trigger] file_rules(fs[i])) is Some,
    decreases fs.len(),
{
    if fs.len() > 0 {
        law_count_is_sum_of_files(fs.drop_last());
        assert forall|i: int| 0 <= i < fs.len() implies (#[trigger] file_rules(fs[i])) is Some by {
            if i < fs.len() - 1 {
                assert(fs.drop_last()[i] == fs[i]);
            }
        }
    }
}

/// A directory whose walk found no rule file yields an empty collection, not
/// an error.
pub proof fn law_empty_directory(entries: Seq<WalkEntry>, dir: DirectoryListing)
    requires
        forall|i: int| 0 <= i < entries.len() ==> (#[trigger] entries[i]).is_dir,
        dir.files is Ok,
        dir.files->Ok_0@.len() == 0,
    ensures
        file_paths(entries).len() == 0,
        directory_rules(dir) == Some(Seq::<Rule>::empty()),
    decreases entries.len(),
{
    if entries.len() > 0 {
        assert forall|i: int| 0 <= i < entries.drop_last().len() implies (
        #[trigger] entries.drop_last()[i]).is_dir by {
            assert(entries.drop_last()[i] == entries[i]);
        }
        law_empty_directory(entries.drop_last(), dir);
        assert(entries.last() == entries[entries.len() - 1]);
    }
}

/// Where the first `i` sources load together, each of them loads on its own.
proof fn lemma_loaded_prefix(ss: Seq<Source>, i: int, j: int)
    requires
        0 <= j < i <= ss.len(),
        sources_rules(ss.take(i)) is Some,
    ensures
        source_rules(ss[j]) is Some,
    decreases i,
{
    assert(ss.take(i).drop_last() =~= ss.take(i - 1));
    if j < i - 1 {
        lemma_loaded_prefix(ss, i - 1, j);
    } else {
        assert(ss.take(i).last() == ss[j]);
    }
}

/// A list of sources in which one path is neither a file nor a directory does
/// not load; where the sources before it all load, the error is that path's
/// invalid input, and no collection is returned.
pub proof fn law_fail_fast(ss: Seq<Source>, k: int, e: LoadError)
    requires
        0 <= k < ss.len(),
        ss[k] is Other,
        sources_rules(ss.take(k)) is Some,
        sources_error(ss, e),
    ensures
        sources_rules(ss) is None,
        e is InvalidInput,
        e->InvalidInput_path@ == ss[k]->Other_path@,
{
    lemma_sources_fail_at(ss, k);
    let i = choose|i: int|
        0 <= i < ss.len() && #[trigger] sources_rules(ss.take(i)) is Some
            && crate::rules::source_error(ss[i], e);
    if i < k {
        lemma_loaded_prefix(ss, k, i);
        lemma_error_means_no_rules(ss[i], e);
    } else if i > k {
        lemma_loaded_prefix(ss, i, k);
    }
}

/// A source that has an error yields no rules.
proof fn lemma_error_means_no_rules(s: Source, e: LoadError)
    requires
        crate::rules::source_error(s, e),
    ensures
        source_rules(s) is None,
{
    match s {
        Source::Directory(d) => {
            if d.files is Ok {
                let fs = d.files->Ok_0@;
                let i = choose|i: int|
                    0 <= i < fs.len() && #[trigger] files_rules(fs.take(i)) is Some
                        && crate::rules::file_error(fs[i], e);
                crate::rules::lemma_files_prefix_fails(fs, i);
            }
        },
        _ => {},
    }
}

proof fn lemma_sources_fail_at(ss: Seq<Source>, k: int)
    requires
        0 <= k < ss.len(),
        source_rules(ss[k]) is None,
    ensures
        sources_rules(ss) is None,
    decreases ss.len(),
{
    if k < ss.len() - 1 {
        assert(ss.drop_last()[k] == ss[k]);
        lemma_sources_fail_at(ss.drop_last(), k);
    }
}

} // verus!

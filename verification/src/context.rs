use vstd::prelude::*;
use vstd::string::StrSliceExecFns;
use vstd::string::StringExecFns;

use crate::text::spec_truncate;
use crate::text::truncate_to_n_tokens;

verus! {

/// The default bound on the context's whitespace-delimited tokens.
pub const MAX_DIFF_TOKENS: usize = 20000;

/// The staged changes as read from the version-control collaborator:
/// the changed paths, in order, and the full diff text.
pub struct ChangeSet {
    pub paths: Vec<String>,
    pub raw_diff: String,
}

/// The changed paths laid out one per line, each line ended by a newline.
pub open spec fn spec_path_lines(paths: Seq<Seq<char>>) -> Seq<char>
    decreases paths.len(),
{
    if paths.len() == 0 {
        Seq::empty()
    } else {
        paths[0] + seq!['\n'] + spec_path_lines(paths.drop_first())
    }
}

/// The combined context text laid before the model: a header, the changed
/// paths, a blank line, and the diff.
pub open spec fn spec_context(paths: Seq<Seq<char>>, diff: Seq<char>) -> Seq<char> {
    "Changed files:\n"@ + spec_path_lines(paths) + "\nDiff:\n"@ + diff
}

impl ChangeSet {
    /// Builds a change set from its two parts.
    pub fn new(paths: Vec<String>, raw_diff: String) -> (r: ChangeSet)
        ensures
            r.paths.deep_view() == paths.deep_view(),
            r.raw_diff@ == raw_diff@,
    {
        ChangeSet { paths, raw_diff }
    }

    /// Whether nothing is staged; reported as a warning, never fatal here.
    pub fn is_empty(&self) -> (r: bool)
        ensures
            r == (self.raw_diff@.len() == 0),
    {
        self.raw_diff.as_str().is_empty()
    }

    /// Assembles the bounded context: the combined text truncated to `limit`
    /// whitespace-delimited tokens.
    pub fn assemble_context(&self, limit: usize) -> (r: String)
        ensures
            r@ == spec_truncate(spec_context(self.paths.deep_view(), self.raw_diff@), limit as nat),
    {
        let mut combined = String::from_str("Changed files:\n");
        let ghost paths_view = self.paths.deep_view();
        let mut i: usize = 0;
        while i < self.paths.len()
            invariant
                i <= self.paths@.len(),
                paths_view == self.paths.deep_view(),
                paths_view.len() == self.paths@.len(),
                forall|j: int| 0 <= j < paths_view.len() ==> paths_view[j] == self.paths@[j]@,
                combined@ == "Changed files:\n"@ + spec_path_lines(paths_view.take(i as int)),
            decreases self.paths@.len() - i,
        {
            combined.append(self.paths[i].as_str());
            combined.append("\n");
            proof {
                reveal_strlit("\n");
                assert("\n"@ =~= seq!['\n']);
                lemma_path_lines_push(paths_view.take(i as int), paths_view[i as int]);
                assert(paths_view.take(i as int).push(paths_view[i as int]) =~= paths_view.take(
                    i as int + 1,
                ));
                assert(combined@ =~= "Changed files:\n"@ + spec_path_lines(
                    paths_view.take(i as int + 1),
                ));
            }
            i = i + 1;
        }
        combined.append("\nDiff:\n");
        combined.append(self.raw_diff.as_str());
        proof {
            assert(paths_view.take(i as int) =~= paths_view);
            assert(combined@ =~= spec_context(paths_view, self.raw_diff@));
        }
        truncate_to_n_tokens(combined.as_str(), limit)
    }
}

/// Laying out one more path appends that line.
proof fn lemma_path_lines_push(paths: Seq<Seq<char>>, p: Seq<char>)
    ensures
        spec_path_lines(paths.push(p)) == spec_path_lines(paths) + p + seq!['\n'],
    decreases paths.len(),
{
    if paths.len() == 0 {
        assert(paths.push(p).drop_first() =~= Seq::<Seq<char>>::empty());
        assert(spec_path_lines(Seq::<Seq<char>>::empty()) == Seq::<char>::empty());
        assert(spec_path_lines(paths.push(p)) =~= p + seq!['\n']);
        assert(spec_path_lines(paths) + p + seq!['\n'] =~= p + seq!['\n']);
    } else {
        lemma_path_lines_push(paths.drop_first(), p);
        assert(paths.push(p).drop_first() =~= paths.drop_first().push(p));
        assert(paths[0] + seq!['\n'] + (spec_path_lines(paths.drop_first()) + p + seq!['\n']) =~= (
        paths[0] + seq!['\n'] + spec_path_lines(paths.drop_first())) + p + seq!['\n']);
    }
}

} // verus!

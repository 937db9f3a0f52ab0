use vstd::prelude::*;
use vstd::string::StringExecFns;

verus! {

/// A structured commit message: the one and only shape the remote model is
/// permitted to return. The title must be non-empty; the description may be
/// any text.
pub struct CommitProposal {
    pub title: String,
    pub description: String,
}

/// A proposal is well-formed when its title is non-empty.
pub open spec fn proposal_wf(p: &CommitProposal) -> bool {
    p.title@.len() > 0
}

/// The rendered commit message: title, blank line, description.
pub open spec fn spec_render(title: Seq<char>, description: Seq<char>) -> Seq<char> {
    title + seq!['\n', '\n'] + description
}

impl CommitProposal {
    /// Builds a proposal from its two fields.
    pub fn new(title: String, description: String) -> (r: CommitProposal)
        ensures
            r.title@ == title@,
            r.description@ == description@,
    {
        CommitProposal { title, description }
    }

    /// Renders the message exactly as the commit operation receives it.
    pub fn to_string(&self) -> (r: String)
        ensures
            r@ == spec_render(self.title@, self.description@),
    {
        let mut out = self.title.clone();
        out.append("\n\n");
        out.append(self.description.as_str());
        proof {
            reveal_strlit("\n\n");
            assert("\n\n"@ =~= seq!['\n', '\n']);
        }
        out
    }
}

} // verus!

//! Why two or three trees could not be merged.
use vstd::prelude::*;

verus! {

/// Why a merge failed.
#[derive(Debug, PartialEq, Eq)]
pub enum MergeError {
    /// Unordered merging of nodes of two different kinds.
    NodesWithDifferentKinds(String, String),
    /// A leaf met an inner node.
    MergingTerminalWithNonTerminal,
    /// A combination of matchings that ordered merging has no rule for:
    /// whether the two children are matched with each other, and whether
    /// the left child has a match in the right tree and in the base, and
    /// the right child in the left tree and in the base.
    InvalidMatchingConfiguration(bool, bool, bool, bool, bool),
}

/// The mathematical value of a merge error.
pub enum MergeErrorView {
    NodesWithDifferentKinds(Seq<char>, Seq<char>),
    MergingTerminalWithNonTerminal,
    InvalidMatchingConfiguration(bool, bool, bool, bool, bool),
}

impl View for MergeError {
    type V = MergeErrorView;

    open spec fn view(&self) -> MergeErrorView {
        match self {
            MergeError::NodesWithDifferentKinds(a, b) => MergeErrorView::NodesWithDifferentKinds(
                a@,
                b@,
            ),
            MergeError::MergingTerminalWithNonTerminal => MergeErrorView::MergingTerminalWithNonTerminal,
            MergeError::InvalidMatchingConfiguration(a, b, c, d, e) => {
                MergeErrorView::InvalidMatchingConfiguration(*a, *b, *c, *d, *e)
            },
        }
    }
}

pub open spec fn bool_text(b: bool) -> Seq<char> {
    if b {
        "true"@
    } else {
        "false"@
    }
}

/// The message that describes an error.
pub open spec fn error_message(e: MergeErrorView) -> Seq<char> {
    match e {
        MergeErrorView::MergingTerminalWithNonTerminal => "Merging terminal with non-terminal"@,
        MergeErrorView::InvalidMatchingConfiguration(a, b, c, d, e) => "Invalid matching configuration: "@
            + bool_text(a) + ", "@ + bool_text(b) + ", "@ + bool_text(c) + ", "@ + bool_text(d)
            + ", "@ + bool_text(e),
        MergeErrorView::NodesWithDifferentKinds(a, b) => "Tried to merge node of kind \""@ + a
            + "\" with node of kind \""@ + b + "\""@,
    }
}

fn push_bool(acc: &mut String, b: bool)
    ensures
        final(acc)@ == old(acc)@ + bool_text(b),
{
    proof {
        reveal_strlit("true");
        reveal_strlit("false");
    }
    if b {
        acc.append("true");
    } else {
        acc.append("false");
    }
}

impl MergeError {
    /// The message that describes the error.
    pub fn to_string(&self) -> (res: String)
        ensures
            res@ == error_message(self@),
    {
        proof {
            reveal_strlit("Merging terminal with non-terminal");
            reveal_strlit("Invalid matching configuration: ");
            reveal_strlit(", ");
            reveal_strlit("Tried to merge node of kind \"");
            reveal_strlit("\" with node of kind \"");
            reveal_strlit("\"");
        }
        match self {
            MergeError::MergingTerminalWithNonTerminal => String::from_str(
                "Merging terminal with non-terminal",
            ),
            MergeError::InvalidMatchingConfiguration(a, b, c, d, e) => {
                let mut acc = String::from_str("Invalid matching configuration: ");
                push_bool(&mut acc, *a);
                acc.append(", ");
                push_bool(&mut acc, *b);
                acc.append(", ");
                push_bool(&mut acc, *c);
                acc.append(", ");
                push_bool(&mut acc, *d);
                acc.append(", ");
                push_bool(&mut acc, *e);
                acc
            },
            MergeError::NodesWithDifferentKinds(a, b) => {
                let mut acc = String::from_str("Tried to merge node of kind \"");
                acc.append(a.as_str());
                acc.append("\" with node of kind \"");
                acc.append(b.as_str());
                acc.append("\"");
                acc
            },
        }
    }
}

} // verus!

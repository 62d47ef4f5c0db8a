//! Merging leaves: their texts are merged line by line by `diffy`.
use crate::merge::merge_error::MergeError;
use crate::merge::merged_cst_node::{MergedCSTNode, MergedTree};
use crate::merge::spec::merged_text;
use crate::model::Terminal;
use vstd::prelude::*;

verus! {

/// What `diffy::merge` gives for an ancestor text and two descendants: the
/// merged text when the changes do not overlap, or the text with conflict
/// markers otherwise. It depends on the three texts alone.
pub uninterp spec fn diffy_merge(ancestor: Seq<char>, ours: Seq<char>, theirs: Seq<char>) -> Result<
    Seq<char>,
    Seq<char>,
>;

/// `diffy::merge`: a three-way merge of texts, line by line. Its result is
/// left to the name `diffy_merge`; nothing more of it is claimed.
#[verifier::external_body]
pub(crate) fn three_way_merge(ancestor: &str, ours: &str, theirs: &str) -> (res: Result<
    String,
    String,
>)
    ensures
        diffy_merge(ancestor@, ours@, theirs@) == (match res {
            Ok(s) => Ok::<Seq<char>, Seq<char>>(s@),
            Err(s) => Err::<Seq<char>, Seq<char>>(s@),
        }),
{
    diffy::merge(ancestor, ours, theirs)
}

/// The text of a three-way merge of texts, with conflict markers where the
/// changes overlap.
pub fn merge_texts(ancestor: &str, ours: &str, theirs: &str) -> (res: String)
    ensures
        res@ == merged_text(diffy_merge(ancestor@, ours@, theirs@)),
{
    match three_way_merge(ancestor, ours, theirs) {
        Ok(value) => value,
        Err(value) => value,
    }
}

/// Merging two leaves with their common ancestor, if there is one: equal
/// leaves merge to the left one; otherwise their texts are merged with the
/// ancestor's text, or with an empty text when there is none, under the
/// left leaf's kind.
pub fn merge_terminals(base: Option<&Terminal>, left: &Terminal, right: &Terminal) -> (res: Result<
    MergedCSTNode,
    MergeError,
>)
    ensures
        res is Ok,
        res matches Ok(t) ==> t@ == (if left.value@ == right.value@ {
            MergedTree::Terminal { kind: left.kind@, value: left.value@ }
        } else {
            MergedTree::Terminal {
                kind: left.kind@,
                value: merged_text(
                    diffy_merge(
                        match base {
                            Some(b) => b.value@,
                            None => Seq::empty(),
                        },
                        left.value@,
                        right.value@,
                    ),
                ),
            }
        }),
{
    if left.value == right.value {
        return Ok(MergedCSTNode::from_terminal(left));
    }
    let ancestor: &str = match base {
        Some(b) => b.value.as_str(),
        None => "",
    };
    proof {
        reveal_strlit("");
        assert(ancestor@ == (match base {
            Some(b) => b.value@,
            None => Seq::<char>::empty(),
        }));
    }
    let value = merge_texts(ancestor, left.value.as_str(), right.value.as_str());
    Ok(MergedCSTNode::Terminal { kind: left.kind.clone(), value })
}

} // verus!

//! Running the tool: merging three versions of a file, or comparing two.
use crate::matching::calculate_matchings;
use crate::matching::matching_configuration::MatchingConfiguration;
use crate::matching::matchings::{lookup, MatchingEntry};
use crate::matching::spec::{spec_matchings, within_matching_limits};
use crate::merge::laws::lemma_merge_well_formed;
use crate::merge::merge_error::{error_message, MergeError, MergeErrorView};
use crate::merge::merged_cst_node::{spec_display, spec_has_conflict};
use crate::merge::spec::spec_merge;
use crate::merge::try_merge;
use crate::model::{forest_size, tree_size, CSTNode, Language};
use crate::parsing::{parse_string, parses_to, spec_parse_outcome, ParserConfiguration};
use vstd::prelude::*;
use vstd::string::StringSliceAdditionalSpecFns;

verus! {

broadcast use vstd::std_specs::vec::group_vec_axioms, vstd::seq::group_seq_axioms;

/// Why running the tool failed.
#[derive(Debug)]
pub enum ExecutionError {
    /// A file could not be parsed.
    ParsingError(&'static str),
    /// The trees could not be merged.
    MergeError(MergeError),
    /// The trees are beyond the sizes that matching handles.
    TreesTooLarge,
    /// Merging reached a pair of children that cannot be merged: a child
    /// matched with a node outside the other parent's children, or matched
    /// children whose own merge failed inside an unordered merge.
    Unmergeable,
}

/// The merged text, and whether it holds conflicts.
#[derive(Debug)]
pub enum ExecutionResult {
    WithConflicts(String),
    WithoutConflicts(String),
}

impl ExecutionError {
    /// The message that describes the error.
    pub fn to_string(&self) -> (res: String)
        ensures
            match self {
                ExecutionError::ParsingError(e) => res@ == "Parsing error occurred: "@ + e@,
                ExecutionError::MergeError(e) => res@ == "Merge error occurred: "@
                    + error_message(e@),
                ExecutionError::TreesTooLarge => res@ == "The syntax trees are too large to match"@,
                ExecutionError::Unmergeable => res@ == "The syntax trees could not be merged"@,
            },
    {
        proof {
            reveal_strlit("Parsing error occurred: ");
            reveal_strlit("Merge error occurred: ");
        }
        match self {
            ExecutionError::ParsingError(e) => {
                let mut acc = String::from_str("Parsing error occurred: ");
                acc.append(e);
                acc
            },
            ExecutionError::MergeError(e) => {
                let mut acc = String::from_str("Merge error occurred: ");
                let message = e.to_string();
                acc.append(message.as_str());
                acc
            },
            ExecutionError::TreesTooLarge => String::from_str(
                "The syntax trees are too large to match",
            ),
            ExecutionError::Unmergeable => String::from_str("The syntax trees could not be merged"),
        }
    }
}

impl ExecutionResult {
    /// The merged text.
    pub fn to_string(&self) -> (res: String)
        ensures
            match self {
                ExecutionResult::WithConflicts(v) => res@ == v@,
                ExecutionResult::WithoutConflicts(v) => res@ == v@,
            },
    {
        match self {
            ExecutionResult::WithConflicts(v) => v.clone(),
            ExecutionResult::WithoutConflicts(v) => v.clone(),
        }
    }
}

/// The language of a name: `java` is Java.
pub fn get_language_from_name(name: &str) -> (res: Result<Language, &'static str>)
    ensures
        name@ == "java"@ ==> res == Ok::<Language, &'static str>(Language::Java),
        name@ != "java"@ ==> (res matches Err(e) && e@ == "Invalid language provided"@),
{
    let given = String::from_str(name);
    let java = String::from_str("java");
    if given == java {
        Ok(Language::Java)
    } else {
        Err("Invalid language provided")
    }
}

/// The language of a file extension: `java` is Java.
pub fn get_language_from_extension(extension: &str) -> (res: Option<Language>)
    ensures
        extension@ == "java"@ ==> res == Some(Language::Java),
        extension@ != "java"@ ==> res is None,
{
    let given = String::from_str(extension);
    let java = String::from_str("java");
    if given == java {
        Some(Language::Java)
    } else {
        None
    }
}

/// The number of nodes of the tree, or `cap` when there are at least that
/// many.
fn tree_size_capped(node: &CSTNode, cap: u64) -> (res: u64)
    requires
        cap >= 1,
    ensures
        res == (if tree_size(*node) < cap {
            tree_size(*node)
        } else {
            cap as nat
        }),
    decreases node,
{
    match node {
        CSTNode::Terminal(_) => 1,
        CSTNode::NonTerminal(n) => {
            let mut total: u64 = 1;
            let mut i: usize = 0;
            while i < n.children.len()
                invariant
                    *node == CSTNode::NonTerminal(*n),
                    cap >= 1,
                    i <= n.children@.len(),
                    total == (if 1 + forest_size(n.children@.take(i as int)) < cap {
                        1 + forest_size(n.children@.take(i as int))
                    } else {
                        cap as nat
                    }),
                decreases n.children@.len() - i,
            {
                proof {
                    let t = n.children@.take(i + 1);
                    assert(t.drop_last() =~= n.children@.take(i as int));
                    assert(t.last() == n.children@[i as int]);
                    assert(decreases_to!(*node => node->NonTerminal_0));
                    assert(decreases_to!(node->NonTerminal_0 => node->NonTerminal_0.children));
                    assert(decreases_to!(node->NonTerminal_0.children => n.children@));
                    assert(decreases_to!(n.children@ => n.children@[i as int]));
                }
                let part = tree_size_capped(&n.children[i], cap);
                if total >= cap || part >= cap - total {
                    total = cap;
                } else {
                    total = total + part;
                }
                i = i + 1;
            }
            assert(n.children@.take(i as int) =~= n.children@);
            total
        },
    }
}

/// Whether the two trees are small enough to be matched.
pub fn fits_matching_limits(left: &CSTNode, right: &CSTNode) -> (res: bool)
    ensures
        res == within_matching_limits(*left, *right),
{
    let cap: u64 = 4294967296;
    let a = tree_size_capped(left, cap);
    let b = tree_size_capped(right, cap);
    let s: u128 = a as u128 + b as u128;
    assert(s * s <= 8589934592 * 8589934592) by (nonlinear_arith)
        requires
            s <= 8589934592,
    ;
    let square: u128 = s * s;
    let fits = square <= usize::MAX as u128;
    proof {
        let ta = tree_size(*left) as int;
        let tb = tree_size(*right) as int;
        let t = ta + tb;
        assert(s <= t);
        if a == cap || b == cap {
            assert(s >= 4294967296);
            assert(s * s >= 4294967296 * 4294967296) by (nonlinear_arith)
                requires
                    s >= 4294967296,
            ;
            assert(t * t >= s * s) by (nonlinear_arith)
                requires
                    0 <= s <= t,
            ;
            assert(usize::MAX <= 0xffff_ffff_ffff_ffff);
            assert(!fits);
        } else {
            assert(s == t);
        }
    }
    fits
}

/// The value that `merge_parsed_trees` gives for three parsed trees.
pub open spec fn spec_merge_parsed(
    base: CSTNode,
    left: CSTNode,
    right: CSTNode,
    cfg: MatchingConfiguration,
) -> Result<(bool, Seq<char>), ExecutionErrorView> {
    if !within_matching_limits(left, base) || !within_matching_limits(right, base)
        || !within_matching_limits(left, right) {
        Err(ExecutionErrorView::TreesTooLarge)
    } else {
        match spec_merge(
            base,
            left,
            right,
            spec_matchings(left, base, cfg),
            spec_matchings(right, base, cfg),
            spec_matchings(left, right, cfg),
        ) {
            None => Err(ExecutionErrorView::Unmergeable),
            Some(Err(e)) => Err(ExecutionErrorView::MergeError(e)),
            Some(Ok(t)) => Ok((spec_has_conflict(t), spec_display(t))),
        }
    }
}

/// The value of an execution error.
pub enum ExecutionErrorView {
    ParsingError(Seq<char>),
    MergeError(MergeErrorView),
    TreesTooLarge,
    Unmergeable,
}

impl View for ExecutionError {
    type V = ExecutionErrorView;

    open spec fn view(&self) -> ExecutionErrorView {
        match self {
            ExecutionError::ParsingError(e) => ExecutionErrorView::ParsingError(e@),
            ExecutionError::MergeError(e) => ExecutionErrorView::MergeError(e@),
            ExecutionError::TreesTooLarge => ExecutionErrorView::TreesTooLarge,
            ExecutionError::Unmergeable => ExecutionErrorView::Unmergeable,
        }
    }
}

/// Whether the result has conflicts, and its text.
pub open spec fn result_value(r: Result<ExecutionResult, ExecutionError>) -> Result<
    (bool, Seq<char>),
    ExecutionErrorView,
> {
    match r {
        Ok(ExecutionResult::WithConflicts(v)) => Ok((true, v@)),
        Ok(ExecutionResult::WithoutConflicts(v)) => Ok((false, v@)),
        Err(e) => Err(e@),
    }
}

/// Merges three parsed trees: the matchings between left and base, right
/// and base, and left and right are calculated with the language's
/// configuration, the trees are merged, and the merged text is given with
/// whether it holds conflicts.
pub fn merge_parsed_trees(
    base_tree: &CSTNode,
    left_tree: &CSTNode,
    right_tree: &CSTNode,
    matching_configuration: &MatchingConfiguration,
) -> (res: Result<ExecutionResult, ExecutionError>)
    ensures
        result_value(res) == spec_merge_parsed(
            *base_tree,
            *left_tree,
            *right_tree,
            *matching_configuration,
        ),
{
    if !fits_matching_limits(left_tree, base_tree) || !fits_matching_limits(right_tree, base_tree)
        || !fits_matching_limits(left_tree, right_tree) {
        return Err(ExecutionError::TreesTooLarge);
    }
    let matchings_left_base = calculate_matchings(left_tree, base_tree, matching_configuration);
    let matchings_right_base = calculate_matchings(right_tree, base_tree, matching_configuration);
    let matchings_left_right = calculate_matchings(left_tree, right_tree, matching_configuration);
    let merged = match try_merge(
        base_tree,
        left_tree,
        right_tree,
        &matchings_left_base,
        &matchings_right_base,
        &matchings_left_right,
    ) {
        None => {
            return Err(ExecutionError::Unmergeable);
        },
        Some(Err(e)) => {
            return Err(ExecutionError::MergeError(e));
        },
        Some(Ok(t)) => t,
    };
    proof {
        lemma_merge_well_formed(
            *base_tree,
            *left_tree,
            *right_tree,
            matchings_left_base@,
            matchings_right_base@,
            matchings_left_right@,
        );
    }
    let text = merged.to_string();
    if merged.has_conflict() {
        Ok(ExecutionResult::WithConflicts(text))
    } else {
        Ok(ExecutionResult::WithoutConflicts(text))
    }
}

/// What running the tool gives for three texts, once their parses are
/// known: the first text of base, left and right that fails to parse gives
/// its parsing error; otherwise the merge of the three parsed trees.
pub open spec fn spec_run_scenario(
    language: Language,
    base: Seq<char>,
    left: Seq<char>,
    right: Seq<char>,
    pc: ParserConfiguration,
    res: Result<(bool, Seq<char>), ExecutionErrorView>,
) -> bool {
    match (
        spec_parse_outcome(base, pc),
        spec_parse_outcome(left, pc),
        spec_parse_outcome(right, pc),
    ) {
        (Err(m), _, _) => res == Err::<(bool, Seq<char>), ExecutionErrorView>(
            ExecutionErrorView::ParsingError(m),
        ),
        (Ok(_), Err(m), _) => res == Err::<(bool, Seq<char>), ExecutionErrorView>(
            ExecutionErrorView::ParsingError(m),
        ),
        (Ok(_), Ok(_), Err(m)) => res == Err::<(bool, Seq<char>), ExecutionErrorView>(
            ExecutionErrorView::ParsingError(m),
        ),
        (Ok(_), Ok(_), Ok(_)) => exists|mc: MatchingConfiguration, bt: CSTNode, lt: CSTNode, rt: CSTNode|
            #![trigger spec_merge_parsed(bt, lt, rt, mc)]
            {
                &&& mc.configures(language)
                &&& parses_to(bt, base, pc)
                &&& parses_to(lt, left, pc)
                &&& parses_to(rt, right, pc)
                &&& res == spec_merge_parsed(bt, lt, rt, mc)
            },
    }
}

/// Runs the tool on a merge scenario. When the base equals one parent, the
/// other parent is the result, without conflicts. Otherwise the three texts
/// are parsed with the language's grammar, the first that fails to parse
/// gives its parsing error, and the parsed trees are merged by
/// `merge_parsed_trees`.
pub fn run_tool_on_merge_scenario(language: Language, base: &str, left: &str, right: &str) -> (res:
    Result<ExecutionResult, ExecutionError>)
    ensures
        base@ == left@ ==> result_value(res) == Ok::<(bool, Seq<char>), ExecutionErrorView>(
            (false, right@),
        ),
        base@ != left@ && base@ == right@ ==> result_value(res) == Ok::<
            (bool, Seq<char>),
            ExecutionErrorView,
        >((false, left@)),
        base@ != left@ && base@ != right@ ==> exists|pc: ParserConfiguration|
            #![trigger pc.configures(language)]
            pc.configures(language) && spec_run_scenario(
                language,
                base@,
                left@,
                right@,
                pc,
                result_value(res),
            ),
{
    let base_text = String::from_str(base);
    let left_text = String::from_str(left);
    let right_text = String::from_str(right);
    if base_text == left_text {
        return Ok(ExecutionResult::WithoutConflicts(right_text));
    }
    if base_text == right_text {
        return Ok(ExecutionResult::WithoutConflicts(left_text));
    }
    let parser_configuration = ParserConfiguration::from(language);
    let base_tree = match parse_string(base, &parser_configuration) {
        Ok(t) => t,
        Err(e) => {
            let res = Err(ExecutionError::ParsingError(e));
            assert(spec_run_scenario(language, base@, left@, right@, parser_configuration, result_value(res)));
            return res;
        },
    };
    let left_tree = match parse_string(left, &parser_configuration) {
        Ok(t) => t,
        Err(e) => {
            let res = Err(ExecutionError::ParsingError(e));
            assert(spec_run_scenario(language, base@, left@, right@, parser_configuration, result_value(res)));
            return res;
        },
    };
    let right_tree = match parse_string(right, &parser_configuration) {
        Ok(t) => t,
        Err(e) => {
            let res = Err(ExecutionError::ParsingError(e));
            assert(spec_run_scenario(language, base@, left@, right@, parser_configuration, result_value(res)));
            return res;
        },
    };
    let matching_configuration = MatchingConfiguration::from(language);
    let res = merge_parsed_trees(&base_tree, &left_tree, &right_tree, &matching_configuration);
    assert(result_value(res) == spec_merge_parsed(
        base_tree,
        left_tree,
        right_tree,
        matching_configuration,
    ));
    assert(spec_run_scenario(language, base@, left@, right@, parser_configuration, result_value(res)));
    res
}

/// The entry that the matchings of two parsed trees hold for the two
/// roots, or an entry of score zero that is not perfect when they hold
/// none.
pub open spec fn spec_diff_parsed(left: CSTNode, right: CSTNode, cfg: MatchingConfiguration) -> Result<
    MatchingEntry,
    ExecutionErrorView,
> {
    if !within_matching_limits(left, right) {
        Err(ExecutionErrorView::TreesTooLarge)
    } else {
        match lookup(spec_matchings(left, right, cfg), left.spec_id(), right.spec_id()) {
            Some(e) => Ok(e),
            None => Ok(MatchingEntry { score: 0, is_perfect_match: false }),
        }
    }
}

pub open spec fn entry_result_value(r: Result<MatchingEntry, ExecutionError>) -> Result<
    MatchingEntry,
    ExecutionErrorView,
> {
    match r {
        Ok(e) => Ok(e),
        Err(e) => Err(e@),
    }
}

/// Compares two parsed trees: the entry that their matchings hold for the
/// two roots.
pub fn diff_parsed_trees(
    left_tree: &CSTNode,
    right_tree: &CSTNode,
    matching_configuration: &MatchingConfiguration,
) -> (res: Result<MatchingEntry, ExecutionError>)
    ensures
        entry_result_value(res) == spec_diff_parsed(
            *left_tree,
            *right_tree,
            *matching_configuration,
        ),
{
    if !fits_matching_limits(left_tree, right_tree) {
        return Err(ExecutionError::TreesTooLarge);
    }
    let matchings_left_right = calculate_matchings(left_tree, right_tree, matching_configuration);
    match matchings_left_right.get_matching_entry(left_tree, right_tree) {
        Some(e) => Ok(e),
        None => Ok(MatchingEntry::default()),
    }
}

/// What comparing two texts gives, once their parses are known: the first
/// of left and right that fails to parse gives its parsing error;
/// otherwise the comparison of the two parsed trees.
pub open spec fn spec_run_diff(
    language: Language,
    left: Seq<char>,
    right: Seq<char>,
    pc: ParserConfiguration,
    res: Result<MatchingEntry, ExecutionErrorView>,
) -> bool {
    match (spec_parse_outcome(left, pc), spec_parse_outcome(right, pc)) {
        (Err(m), _) => res == Err::<MatchingEntry, ExecutionErrorView>(
            ExecutionErrorView::ParsingError(m),
        ),
        (Ok(_), Err(m)) => res == Err::<MatchingEntry, ExecutionErrorView>(
            ExecutionErrorView::ParsingError(m),
        ),
        (Ok(_), Ok(_)) => exists|mc: MatchingConfiguration, lt: CSTNode, rt: CSTNode|
            #![trigger spec_diff_parsed(lt, rt, mc)]
            {
                &&& mc.configures(language)
                &&& parses_to(lt, left, pc)
                &&& parses_to(rt, right, pc)
                &&& res == spec_diff_parsed(lt, rt, mc)
            },
    }
}

/// Runs the tool on two files: both are parsed with the language's grammar,
/// the first that fails to parse gives its parsing error, and the parsed
/// trees are compared by `diff_parsed_trees`.
pub fn run_diff_on_files(language: Language, left: &str, right: &str) -> (res: Result<
    MatchingEntry,
    ExecutionError,
>)
    ensures
        exists|pc: ParserConfiguration|
            #![trigger pc.configures(language)]
            pc.configures(language) && spec_run_diff(
                language,
                left@,
                right@,
                pc,
                entry_result_value(res),
            ),
{
    let parser_configuration = ParserConfiguration::from(language);
    let left_tree = match parse_string(left, &parser_configuration) {
        Ok(t) => t,
        Err(e) => {
            let res = Err(ExecutionError::ParsingError(e));
            assert(spec_run_diff(language, left@, right@, parser_configuration, entry_result_value(res)));
            return res;
        },
    };
    let right_tree = match parse_string(right, &parser_configuration) {
        Ok(t) => t,
        Err(e) => {
            let res = Err(ExecutionError::ParsingError(e));
            assert(spec_run_diff(language, left@, right@, parser_configuration, entry_result_value(res)));
            return res;
        },
    };
    let matching_configuration = MatchingConfiguration::from(language);
    let res = diff_parsed_trees(&left_tree, &right_tree, &matching_configuration);
    assert(entry_result_value(res) == spec_diff_parsed(left_tree, right_tree, matching_configuration));
    assert(spec_run_diff(language, left@, right@, parser_configuration, entry_result_value(res)));
    res
}

} // verus!

//! What matching needs to know about a language.
use crate::matching_handlers::{spec_java_matching_handlers, MatchingHandlers};
use crate::model::{CSTNode, Language};
use vstd::prelude::*;

verus! {

/// Node kinds that only delimit, node kinds that carry a label that
/// identifies them among their siblings, and the language's handlers.
pub struct MatchingConfiguration {
    pub delimiters: Vec<String>,
    pub kinds_with_label: Vec<String>,
    pub handlers: MatchingHandlers,
}

impl Default for MatchingConfiguration {
    /// The configuration for Java.
    fn default() -> (res: Self)
        ensures
            res.configures(Language::Java),
    {
        MatchingConfiguration::from(Language::Java)
    }
}

impl MatchingConfiguration {
    pub open spec fn spec_delimiters(&self) -> Seq<Seq<char>> {
        self.delimiters@.map_values(|s: String| s@)
    }

    pub open spec fn spec_kinds_with_label(&self) -> Seq<Seq<char>> {
        self.kinds_with_label@.map_values(|s: String| s@)
    }

    /// Every child that is not a delimiter is of a kind that has a label.
    pub open spec fn spec_all_children_labeled(&self, node: CSTNode) -> bool {
        forall|i: int|
            0 <= i < node.spec_children().len() && !self.spec_delimiters().contains(
                #[trigger] node.spec_children()[i].spec_kind(),
            ) ==> self.spec_kinds_with_label().contains(node.spec_children()[i].spec_kind())
    }

    /// This is the configuration of the language: for Java, the delimiters
    /// `{`, `}` and `;`, the kinds of declarations that carry a name, and the
    /// Java handlers.
    pub open spec fn configures(&self, language: Language) -> bool {
        language == Language::Java ==> {
            &&& self.spec_delimiters() == seq!["{"@, "}"@, ";"@]
            &&& self.spec_kinds_with_label() == seq![
                "compact_constructor_declaration"@,
                "constructor_declaration"@,
                "field_declaration"@,
                "method_declaration"@,
                "import_declaration"@,
                "class_declaration"@,
                "interface_declaration"@,
            ]
            &&& self.handlers@ == spec_java_matching_handlers()
        }
    }

    /// The configuration for a language.
    pub fn from(language: Language) -> (res: Self)
        ensures
            res.configures(language),
    {
        match language {
            Language::Java => {
                let mut delimiters: Vec<String> = Vec::new();
                delimiters.push(String::from_str("{"));
                delimiters.push(String::from_str("}"));
                delimiters.push(String::from_str(";"));
                let mut kinds_with_label: Vec<String> = Vec::new();
                kinds_with_label.push(String::from_str("compact_constructor_declaration"));
                kinds_with_label.push(String::from_str("constructor_declaration"));
                kinds_with_label.push(String::from_str("field_declaration"));
                kinds_with_label.push(String::from_str("method_declaration"));
                kinds_with_label.push(String::from_str("import_declaration"));
                kinds_with_label.push(String::from_str("class_declaration"));
                kinds_with_label.push(String::from_str("interface_declaration"));
                let res = MatchingConfiguration {
                    delimiters,
                    kinds_with_label,
                    handlers: MatchingHandlers::from(language),
                };
                assert(res.spec_delimiters() =~= seq!["{"@, "}"@, ";"@]);
                assert(res.spec_kinds_with_label() =~= seq![
                    "compact_constructor_declaration"@,
                    "constructor_declaration"@,
                    "field_declaration"@,
                    "method_declaration"@,
                    "import_declaration"@,
                    "class_declaration"@,
                    "interface_declaration"@,
                ]);
                res
            },
        }
    }

    fn is_listed(list: &Vec<String>, kind: &str) -> (res: bool)
        ensures
            res == list@.map_values(|s: String| s@).contains(kind@),
    {
        let wanted = String::from_str(kind);
        let ghost v = list@.map_values(|s: String| s@);
        let mut i: usize = 0;
        while i < list.len()
            invariant
                i <= list@.len(),
                wanted@ == kind@,
                v == list@.map_values(|s: String| s@),
                forall|k: int| 0 <= k < i ==> v[k] != kind@,
            decreases list@.len() - i,
        {
            if list[i] == wanted {
                assert(v[i as int] == kind@);
                return true;
            }
            i = i + 1;
        }
        false
    }

    /// Whether every child of `node` that is not a delimiter has a label.
    pub fn all_children_labeled(&self, node: &CSTNode) -> (res: bool)
        ensures
            res == self.spec_all_children_labeled(*node),
    {
        match node {
            CSTNode::Terminal(_) => true,
            CSTNode::NonTerminal(n) => {
                let mut i: usize = 0;
                while i < n.children.len()
                    invariant
                        i <= n.children@.len(),
                        node.spec_children() == n.children@,
                        forall|k: int|
                            0 <= k < i && !self.spec_delimiters().contains(
                                #[trigger] n.children@[k].spec_kind(),
                            ) ==> self.spec_kinds_with_label().contains(n.children@[k].spec_kind()),
                    decreases n.children@.len() - i,
                {
                    let kind = n.children[i].kind();
                    if !Self::is_listed(&self.delimiters, kind) && !Self::is_listed(
                        &self.kinds_with_label,
                        kind,
                    ) {
                        return false;
                    }
                    i = i + 1;
                }
                true
            },
        }
    }
}

} // verus!

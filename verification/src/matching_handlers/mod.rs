//! Language-specific scores for matching two nodes of the same kind.
pub mod java;

use crate::matching_handlers::java::{
    compute_matching_score_for_class_like_declaration,
    compute_matching_score_for_field_declaration,
    compute_matching_score_for_import_declaration,
    compute_matching_score_for_method_declaration, get_default_java_matching_handlers,
    spec_class_like_score, spec_field_score, spec_import_score, spec_method_score,
};
use crate::model::{CSTNode, Language};
use vstd::prelude::*;

verus! {

/// A way of scoring two nodes of one kind.
#[derive(Clone, Copy, Debug, PartialEq, Eq, Structural)]
pub enum MatchingHandler {
    FieldDeclaration,
    MethodDeclaration,
    ClassLikeDeclaration,
    ImportDeclaration,
}

pub open spec fn spec_handler_score(h: MatchingHandler, left: CSTNode, right: CSTNode) -> nat {
    match h {
        MatchingHandler::FieldDeclaration => spec_field_score(left, right),
        MatchingHandler::MethodDeclaration => spec_method_score(left, right),
        MatchingHandler::ClassLikeDeclaration => spec_class_like_score(left, right),
        MatchingHandler::ImportDeclaration => spec_import_score(left, right),
    }
}

impl MatchingHandler {
    /// The score that the handler gives to two nodes.
    pub fn apply(&self, left: &CSTNode, right: &CSTNode) -> (res: usize)
        ensures
            res == spec_handler_score(*self, *left, *right),
    {
        match self {
            MatchingHandler::FieldDeclaration => compute_matching_score_for_field_declaration(
                left,
                right,
            ),
            MatchingHandler::MethodDeclaration => compute_matching_score_for_method_declaration(
                left,
                right,
            ),
            MatchingHandler::ClassLikeDeclaration =>
                compute_matching_score_for_class_like_declaration(left, right),
            MatchingHandler::ImportDeclaration => compute_matching_score_for_import_declaration(
                left,
                right,
            ),
        }
    }
}

/// The Java handlers: fields by their identifier, methods and constructors
/// by identifier and argument types.
pub open spec fn spec_java_matching_handlers() -> Seq<(Seq<char>, MatchingHandler)> {
    seq![
        ("field_declaration"@, MatchingHandler::FieldDeclaration),
        ("method_declaration"@, MatchingHandler::MethodDeclaration),
        ("constructor_declaration"@, MatchingHandler::MethodDeclaration),
    ]
}

/// The handlers registered for node kinds.
pub struct MatchingHandlers {
    matching_handlers: Vec<(String, MatchingHandler)>,
}

pub open spec fn handler_key_index(s: Seq<(Seq<char>, MatchingHandler)>, key: Seq<char>) -> Option<
    int,
>
    decreases s.len(),
{
    if s.len() == 0 {
        None
    } else {
        match handler_key_index(s.drop_last(), key) {
            Some(i) => Some(i),
            None => if s.last().0 == key {
                Some(s.len() - 1)
            } else {
                None
            },
        }
    }
}

/// The handler registered for a kind.
pub open spec fn handler_for(s: Seq<(Seq<char>, MatchingHandler)>, key: Seq<char>) -> Option<
    MatchingHandler,
> {
    match handler_key_index(s, key) {
        Some(i) => Some(s[i].1),
        None => None,
    }
}

/// Registering replaces the handler of a kind that already has one.
pub open spec fn spec_register(
    s: Seq<(Seq<char>, MatchingHandler)>,
    key: Seq<char>,
    h: MatchingHandler,
) -> Seq<(Seq<char>, MatchingHandler)> {
    match handler_key_index(s, key) {
        Some(i) => s.update(i, (key, h)),
        None => s.push((key, h)),
    }
}

/// The score of two nodes: zero for nodes of different kinds, otherwise the
/// score of the handler registered for their kind, if any.
pub open spec fn spec_compute_score(
    s: Seq<(Seq<char>, MatchingHandler)>,
    left: CSTNode,
    right: CSTNode,
) -> Option<nat> {
    if left.spec_kind() != right.spec_kind() {
        Some(0)
    } else {
        match handler_for(s, left.spec_kind()) {
            Some(h) => Some(spec_handler_score(h, left, right)),
            None => None,
        }
    }
}

proof fn lemma_handler_key_step(s: Seq<(Seq<char>, MatchingHandler)>, key: Seq<char>, i: int)
    requires
        0 <= i < s.len(),
    ensures
        handler_key_index(s.take(i + 1), key) == (match handler_key_index(s.take(i), key) {
            Some(k) => Some(k),
            None => if s[i].0 == key {
                Some(i)
            } else {
                None
            },
        }),
{
    assert(s.take(i + 1).drop_last() =~= s.take(i));
}

proof fn lemma_handler_key_bounds(s: Seq<(Seq<char>, MatchingHandler)>, key: Seq<char>)
    ensures
        handler_key_index(s, key) matches Some(i) ==> 0 <= i < s.len() && s[i].0 == key,
    decreases s.len(),
{
    if s.len() > 0 {
        lemma_handler_key_bounds(s.drop_last(), key);
    }
}

proof fn lemma_handler_key_found(s: Seq<(Seq<char>, MatchingHandler)>, key: Seq<char>, i: int)
    requires
        0 <= i < s.len(),
        handler_key_index(s.take(i + 1), key) == Some(i),
    ensures
        handler_key_index(s, key) == Some(i),
    decreases s.len(),
{
    if s.len() > i + 1 {
        assert(s.drop_last().take(i + 1) =~= s.take(i + 1));
        lemma_handler_key_found(s.drop_last(), key, i);
    } else {
        assert(s.take(i + 1) =~= s);
    }
}

impl View for MatchingHandlers {
    type V = Seq<(Seq<char>, MatchingHandler)>;

    closed spec fn view(&self) -> Seq<(Seq<char>, MatchingHandler)> {
        self.matching_handlers@.map_values(|p: (String, MatchingHandler)| (p.0@, p.1))
    }
}

impl Default for MatchingHandlers {
    /// No handler.
    fn default() -> (res: Self)
        ensures
            res@ == Seq::<(Seq<char>, MatchingHandler)>::empty(),
    {
        MatchingHandlers::new()
    }
}

impl MatchingHandlers {
    /// No handler.
    pub fn new() -> (res: Self)
        ensures
            res@ == Seq::<(Seq<char>, MatchingHandler)>::empty(),
    {
        let res = MatchingHandlers { matching_handlers: Vec::new() };
        assert(res@ =~= Seq::<(Seq<char>, MatchingHandler)>::empty());
        res
    }

    fn index_of(&self, key: &str) -> (res: Option<usize>)
        ensures
            res matches Some(i) ==> handler_key_index(self@, key@) == Some(i as int),
            res is None ==> handler_key_index(self@, key@) is None,
    {
        let wanted = String::from_str(key);
        let mut i: usize = 0;
        while i < self.matching_handlers.len()
            invariant
                i <= self@.len(),
                self@.len() == self.matching_handlers@.len(),
                wanted@ == key@,
                handler_key_index(self@.take(i as int), key@) is None,
            decreases self@.len() - i,
        {
            proof {
                lemma_handler_key_step(self@, key@, i as int);
            }
            if self.matching_handlers[i].0 == wanted {
                proof {
                    lemma_handler_key_found(self@, key@, i as int);
                }
                return Some(i);
            }
            i = i + 1;
        }
        assert(self@.take(i as int) =~= self@);
        None
    }

    /// Registers `value` for the node kind `key`.
    pub fn register(&mut self, key: &str, value: MatchingHandler)
        ensures
            final(self)@ == spec_register(old(self)@, key@, value),
    {
        let k = String::from_str(key);
        proof {
            lemma_handler_key_bounds(self@, key@);
            assert(self@.len() == self.matching_handlers@.len());
        }
        match self.index_of(key) {
            Some(i) => {
                self.matching_handlers.set(i, (k, value));
                assert(self@ =~= spec_register(old(self)@, key@, value));
            },
            None => {
                self.matching_handlers.push((k, value));
                assert(self@ =~= spec_register(old(self)@, key@, value));
            },
        }
    }

    /// The score of two nodes; `None` when no handler is registered for
    /// their kind.
    pub fn compute_matching_score(&self, left: &CSTNode, right: &CSTNode) -> (res: Option<usize>)
        ensures
            match spec_compute_score(self@, *left, *right) {
                Some(v) => res == Some(v as usize),
                None => res is None,
            },
    {
        if !left.same_kind(right) {
            return Some(0);
        }
        proof {
            lemma_handler_key_bounds(self@, left.spec_kind());
            assert(self@.len() == self.matching_handlers@.len());
        }
        match self.index_of(left.kind()) {
            Some(i) => {
                proof {
                    assert(self@[i as int].1 == self.matching_handlers@[i as int].1);
                }
                let handler = self.matching_handlers[i].1;
                Some(handler.apply(left, right))
            },
            None => None,
        }
    }

    /// The handlers for a language.
    pub fn from(language: Language) -> (res: Self)
        ensures
            language == Language::Java ==> res@ == spec_java_matching_handlers(),
    {
        match language {
            Language::Java => get_default_java_matching_handlers(),
        }
    }
}

} // verus!

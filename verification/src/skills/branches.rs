//! The places at which the control flow of a source file branches.
use crate::skills::declarations;
use crate::skills::declarations::kind_list;
use crate::skills::graph::{BranchDescriptor, BranchModel};
use crate::skills::syntax;
use crate::skills::syntax::{field_or_fallback, SourceLanguage, SyntaxNode, Tree};
use crate::text;
use crate::text::same;
use vstd::prelude::*;

verus! {

pub fn branch(kind: &str, condition: &str) -> (res: BranchDescriptor)
    ensures
        res.deep_view() == (BranchModel { kind: kind@, condition: condition@ }),
{
    BranchDescriptor { kind: kind.to_owned(), condition: condition.to_owned() }
}

/// A branch whose condition is that of the field or of a child of one of the kinds, or else the
/// given text.
pub open spec fn branch_on(
    node: Tree,
    kind: Seq<char>,
    field: Seq<char>,
    kinds: Seq<Seq<char>>,
    default: Seq<char>,
) -> Option<BranchModel> {
    Some(
        BranchModel {
            kind,
            condition: match syntax::field_or_kind(node, field, kinds) {
                Some(condition) => condition,
                None => default,
            },
        },
    )
}

pub open spec fn plain_branch(kind: Seq<char>, condition: Seq<char>) -> Option<BranchModel> {
    Some(BranchModel { kind, condition })
}

pub open spec fn script_branch(node: Tree) -> Option<BranchModel> {
    if node.kind == "if_statement"@ {
        branch_on(node, "if"@, "condition"@, seq![], "if"@)
    } else if node.kind == "switch_statement"@ {
        branch_on(node, "switch"@, "value"@, seq![], "switch"@)
    } else if node.kind == "conditional_expression"@ {
        branch_on(node, "ternary"@, "condition"@, seq![], "ternary"@)
    } else if node.kind == "try_statement"@ {
        plain_branch("try"@, "try/catch"@)
    } else if node.kind == "for_statement"@ || node.kind == "while_statement"@ || node.kind
        == "do_statement"@ {
        branch_on(node, node.kind, "condition"@, seq![], node.kind)
    } else {
        None
    }
}

pub open spec fn python_branch(node: Tree) -> Option<BranchModel> {
    if node.kind == "if_statement"@ {
        branch_on(
            node,
            "if"@,
            "condition"@,
            seq!["comparison_operator"@, "boolean_operator"@],
            "if"@,
        )
    } else if node.kind == "for_statement"@ {
        branch_on(node, "for_statement"@, "right"@, seq!["in"@], "for"@)
    } else if node.kind == "while_statement"@ {
        branch_on(node, "while_statement"@, "condition"@, seq![], "while"@)
    } else if node.kind == "try_statement"@ {
        plain_branch("try"@, "try/except"@)
    } else if node.kind == "conditional_expression"@ {
        branch_on(node, "ternary"@, "condition"@, seq![], "ternary"@)
    } else if node.kind == "match_statement"@ {
        branch_on(node, "match"@, "subject"@, seq![], "match"@)
    } else {
        None
    }
}

pub open spec fn go_branch(node: Tree) -> Option<BranchModel> {
    if node.kind == "if_statement"@ {
        branch_on(node, "if"@, "condition"@, seq!["expression"@], "if"@)
    } else if node.kind == "expression_switch_statement"@ || node.kind
        == "type_switch_statement"@ {
        branch_on(node, "switch"@, "value"@, seq!["expression"@], "switch"@)
    } else if node.kind == "select_statement"@ {
        plain_branch("select"@, "select"@)
    } else if node.kind == "for_statement"@ {
        branch_on(node, "for_statement"@, "condition"@, seq!["expression"@], "for"@)
    } else {
        None
    }
}

pub open spec fn rust_branch(node: Tree) -> Option<BranchModel> {
    if node.kind == "if_expression"@ {
        branch_on(node, "if"@, "condition"@, seq!["condition"@], "if"@)
    } else if node.kind == "match_expression"@ {
        branch_on(node, "match"@, "value"@, seq!["expression"@], "match"@)
    } else if node.kind == "for_expression"@ {
        branch_on(
            node,
            "for_statement"@,
            "value"@,
            seq!["iterator"@, "expression"@],
            "for"@,
        )
    } else if node.kind == "while_expression"@ {
        branch_on(node, "while_statement"@, "condition"@, seq!["expression"@], "while"@)
    } else if node.kind == "loop_expression"@ {
        plain_branch("loop"@, "loop"@)
    } else if node.kind == "try_expression"@ {
        plain_branch("try"@, "try"@)
    } else {
        None
    }
}

/// The branch at the node, if the language branches there.
pub open spec fn branch_at(node: Tree, language: SourceLanguage) -> Option<BranchModel> {
    match language {
        SourceLanguage::Python => python_branch(node),
        SourceLanguage::Go => go_branch(node),
        SourceLanguage::Rust => rust_branch(node),
        _ => script_branch(node),
    }
}

pub open spec fn as_list(found: Option<BranchModel>) -> Seq<BranchModel> {
    match found {
        Some(b) => seq![b],
        None => Seq::empty(),
    }
}

/// The branches at and below the node, from the top down.
pub open spec fn branches(node: Tree, language: SourceLanguage) -> Seq<BranchModel>
    decreases node,
{
    as_list(branch_at(node, language)) + branches_below(node.children, language)
}

pub open spec fn branches_below(children: Seq<Tree>, language: SourceLanguage) -> Seq<BranchModel>
    decreases children,
{
    if children.len() == 0 {
        Seq::empty()
    } else if children.last().named {
        branches_below(children.drop_last(), language) + branches(children.last(), language)
    } else {
        branches_below(children.drop_last(), language)
    }
}

fn read_branch(
    node: &SyntaxNode,
    kind: &str,
    field: &str,
    kinds: Vec<&'static str>,
    default: &str,
) -> (res: Option<BranchDescriptor>)
    ensures
        res.deep_view() == branch_on(
            node@,
            kind@,
            field@,
            Seq::new(kinds@.len(), |i: int| kinds@[i]@),
            default@,
        ),
{
    let list: Vec<String> = kind_list(kinds);
    match field_or_fallback(node, field, list.as_slice()) {
        Some(condition) => Some(branch(kind, condition.as_str())),
        None => Some(branch(kind, default)),
    }
}

fn script_branch_of(node: &SyntaxNode) -> (res: Option<BranchDescriptor>)
    ensures
        res.deep_view() == script_branch(node@),
{
    let none: Vec<&'static str> = Vec::new();
    assert(Seq::new(none@.len(), |i: int| none@[i]@) =~= seq![]);
    let kind = node.kind.as_str();
    if same(kind, "if_statement") {
        read_branch(node, "if", "condition", none, "if")
    } else if same(kind, "switch_statement") {
        read_branch(node, "switch", "value", none, "switch")
    } else if same(kind, "conditional_expression") {
        read_branch(node, "ternary", "condition", none, "ternary")
    } else if same(kind, "try_statement") {
        Some(branch("try", "try/catch"))
    } else if same(kind, "for_statement") || same(kind, "while_statement") || same(
        kind,
        "do_statement",
    ) {
        read_branch(node, kind, "condition", none, kind)
    } else {
        None
    }
}

fn python_branch_of(node: &SyntaxNode) -> (res: Option<BranchDescriptor>)
    ensures
        res.deep_view() == python_branch(node@),
{
    let none: Vec<&'static str> = Vec::new();
    assert(Seq::new(none@.len(), |i: int| none@[i]@) =~= seq![]);
    let kind = node.kind.as_str();
    if same(kind, "if_statement") {
        let operators: Vec<&'static str> = vec!["comparison_operator", "boolean_operator"];
        assert(Seq::new(operators@.len(), |i: int| operators@[i]@) =~= seq![
            "comparison_operator"@,
            "boolean_operator"@,
        ]);
        read_branch(node, "if", "condition", operators, "if")
    } else if same(kind, "for_statement") {
        let kinds: Vec<&'static str> = vec!["in"];
        assert(Seq::new(kinds@.len(), |i: int| kinds@[i]@) =~= seq!["in"@]);
        read_branch(node, "for_statement", "right", kinds, "for")
    } else if same(kind, "while_statement") {
        read_branch(node, "while_statement", "condition", none, "while")
    } else if same(kind, "try_statement") {
        Some(branch("try", "try/except"))
    } else if same(kind, "conditional_expression") {
        read_branch(node, "ternary", "condition", none, "ternary")
    } else if same(kind, "match_statement") {
        read_branch(node, "match", "subject", none, "match")
    } else {
        None
    }
}

fn go_branch_of(node: &SyntaxNode) -> (res: Option<BranchDescriptor>)
    ensures
        res.deep_view() == go_branch(node@),
{
    let expression: Vec<&'static str> = vec!["expression"];
    assert(Seq::new(expression@.len(), |i: int| expression@[i]@) =~= seq!["expression"@]);
    let kind = node.kind.as_str();
    if same(kind, "if_statement") {
        read_branch(node, "if", "condition", expression, "if")
    } else if same(kind, "expression_switch_statement") || same(kind, "type_switch_statement") {
        read_branch(node, "switch", "value", expression, "switch")
    } else if same(kind, "select_statement") {
        Some(branch("select", "select"))
    } else if same(kind, "for_statement") {
        read_branch(node, "for_statement", "condition", expression, "for")
    } else {
        None
    }
}

fn rust_branch_of(node: &SyntaxNode) -> (res: Option<BranchDescriptor>)
    ensures
        res.deep_view() == rust_branch(node@),
{
    let expression: Vec<&'static str> = vec!["expression"];
    assert(Seq::new(expression@.len(), |i: int| expression@[i]@) =~= seq!["expression"@]);
    let kind = node.kind.as_str();
    if same(kind, "if_expression") {
        let kinds: Vec<&'static str> = vec!["condition"];
        assert(Seq::new(kinds@.len(), |i: int| kinds@[i]@) =~= seq!["condition"@]);
        read_branch(node, "if", "condition", kinds, "if")
    } else if same(kind, "match_expression") {
        read_branch(node, "match", "value", expression, "match")
    } else if same(kind, "for_expression") {
        let kinds: Vec<&'static str> = vec!["iterator", "expression"];
        assert(Seq::new(kinds@.len(), |i: int| kinds@[i]@) =~= seq![
            "iterator"@,
            "expression"@,
        ]);
        read_branch(node, "for_statement", "value", kinds, "for")
    } else if same(kind, "while_expression") {
        read_branch(node, "while_statement", "condition", expression, "while")
    } else if same(kind, "loop_expression") {
        Some(branch("loop", "loop"))
    } else if same(kind, "try_expression") {
        Some(branch("try", "try"))
    } else {
        None
    }
}

pub fn extract_branch(node: &SyntaxNode, language: SourceLanguage) -> (res: Option<
    BranchDescriptor,
>)
    ensures
        res.deep_view() == branch_at(node@, language),
{
    match language {
        SourceLanguage::Python => python_branch_of(node),
        SourceLanguage::Go => go_branch_of(node),
        SourceLanguage::Rust => rust_branch_of(node),
        _ => script_branch_of(node),
    }
}

/// Adds the branches at and below the node.
pub fn collect_branches(
    node: &SyntaxNode,
    language: SourceLanguage,
    output: &mut Vec<BranchDescriptor>,
)
    ensures
        final(output).deep_view() == old(output).deep_view() + branches(node@, language),
    decreases node,
{
    let ghost start = output.deep_view();
    let ghost head = as_list(branch_at(node@, language));
    if let Some(found) = extract_branch(node, language) {
        output.push(found);
        assert(output.deep_view() =~= start + head);
    } else {
        assert(output.deep_view() =~= start + head);
    }
    let ghost all = node@.children;
    let mut i: usize = 0;
    assert(all.take(0) =~= Seq::empty());
    assert(start + head + Seq::empty() =~= start + head);
    while i < node.children.len()
        invariant
            i <= node.children.len(),
            all == node@.children,
            output.deep_view() == start + head + branches_below(all.take(i as int), language),
        decreases node.children.len() - i,
    {
        let child = &node.children[i];
        proof {
            assert(all.take(i as int + 1).drop_last() == all.take(i as int));
            assert(all.take(i as int + 1).last() == child@);
            assert(decreases_to!(*node => node.children));
            assert(decreases_to!(node.children => node.children@));
            assert(decreases_to!(node.children@ => node.children@[i as int]));
        }
        if child.named {
            collect_branches(child, language, output);
            assert(start + head + branches_below(all.take(i as int), language) + branches(
                child@,
                language,
            ) =~= start + head + (branches_below(all.take(i as int), language) + branches(
                child@,
                language,
            )));
        }
        i += 1;
    }
    assert(all.take(all.len() as int) == all);
    assert(start + head + branches_below(all, language) =~= start + (head + branches_below(
        all,
        language,
    )));
}

// ---------------------------------------------------------------------------
// Laws
// ---------------------------------------------------------------------------
/// The positions lead from the top down, through named children, to the node.
pub open spec fn leads_down(top: Tree, path: Seq<int>, node: Tree) -> bool
    decreases path.len(),
{
    if path.len() == 0 {
        node == top
    } else {
        &&& 0 <= path[0] < top.children.len()
        &&& top.children[path[0]].named
        &&& leads_down(top.children[path[0]], path.drop_first(), node)
    }
}

/// The branch is that of a node at or below the top.
pub open spec fn is_branch_of(
    top: Tree,
    path: Seq<int>,
    node: Tree,
    language: SourceLanguage,
    branch: BranchModel,
) -> bool {
    &&& leads_down(top, path, node)
    &&& branch_at(node, language) == Some(branch)
}

/// A branch is found exactly where some node at or below the top branches so.
pub proof fn lemma_branches(top: Tree, language: SourceLanguage)
    ensures
        forall|branch: BranchModel| #[trigger]
            branches(top, language).contains(branch) <==> exists|path: Seq<int>, node: Tree|
                is_branch_of(top, path, node, language, branch),
    decreases top,
{
    let head = as_list(branch_at(top, language));
    let below = branches_below(top.children, language);
    let all = branches(top, language);
    lemma_branches_below(top.children, language);
    assert forall|branch: BranchModel| #[trigger]
        all.contains(branch) <==> exists|path: Seq<int>, node: Tree|
            is_branch_of(top, path, node, language, branch) by {
        if all.contains(branch) {
            let k = choose|k: int| 0 <= k < all.len() && all[k] == branch;
            if k < head.len() {
                assert(head[k] == branch);
                assert(is_branch_of(top, Seq::<int>::empty(), top, language, branch));
            } else {
                assert(below[k - head.len()] == branch);
                assert(below.contains(branch));
                let (i, path, node) = choose|i: int, path: Seq<int>, node: Tree|
                    is_branch_below(top.children, i, path, node, language, branch);
                assert(is_branch_below(top.children, i, path, node, language, branch));
                let longer = seq![i] + path;
                assert(longer.drop_first() =~= path);
                assert(is_branch_of(top, longer, node, language, branch));
            }
        }
        if exists|path: Seq<int>, node: Tree| is_branch_of(top, path, node, language, branch) {
            let (path, node) = choose|path: Seq<int>, node: Tree|
                is_branch_of(top, path, node, language, branch);
            if path.len() == 0 {
                assert(head[0] == branch);
                assert(all[0] == branch);
            } else {
                assert(is_branch_below(
                    top.children,
                    path[0],
                    path.drop_first(),
                    node,
                    language,
                    branch,
                ));
                assert(below.contains(branch));
                let k = choose|k: int| 0 <= k < below.len() && below[k] == branch;
                assert(all[k + head.len()] == branch);
            }
        }
    }
}

/// The branch is that of a node at or below the named child at the position.
pub open spec fn is_branch_below(
    children: Seq<Tree>,
    i: int,
    path: Seq<int>,
    node: Tree,
    language: SourceLanguage,
    branch: BranchModel,
) -> bool {
    &&& 0 <= i < children.len()
    &&& children[i].named
    &&& is_branch_of(children[i], path, node, language, branch)
}

proof fn lemma_branches_below(children: Seq<Tree>, language: SourceLanguage)
    ensures
        forall|branch: BranchModel| #[trigger]
            branches_below(children, language).contains(branch) <==> exists|
                i: int,
                path: Seq<int>,
                node: Tree,
            |
                is_branch_below(children, i, path, node, language, branch),
    decreases children,
{
    let all = branches_below(children, language);
    if children.len() > 0 {
        let rest = children.drop_last();
        let last = children.last();
        let before = branches_below(rest, language);
        lemma_branches_below(rest, language);
        lemma_branches(last, language);
        assert forall|branch: BranchModel| #[trigger]
            all.contains(branch) <==> exists|i: int, path: Seq<int>, node: Tree|
                is_branch_below(children, i, path, node, language, branch) by {
            if all.contains(branch) {
                let k = choose|k: int| 0 <= k < all.len() && all[k] == branch;
                if k < before.len() {
                    assert(before[k] == branch);
                    assert(before.contains(branch));
                    let (i, path, node) = choose|i: int, path: Seq<int>, node: Tree|
                        is_branch_below(rest, i, path, node, language, branch);
                    assert(is_branch_below(rest, i, path, node, language, branch));
                    assert(is_branch_below(children, i, path, node, language, branch));
                } else {
                    let found = branches(last, language);
                    assert(found[k - before.len()] == branch);
                    assert(found.contains(branch));
                    let (path, node) = choose|path: Seq<int>, node: Tree|
                        is_branch_of(last, path, node, language, branch);
                    assert(is_branch_below(
                        children,
                        children.len() - 1,
                        path,
                        node,
                        language,
                        branch,
                    ));
                }
            }
            if exists|i: int, path: Seq<int>, node: Tree|
                is_branch_below(children, i, path, node, language, branch) {
                let (i, path, node) = choose|i: int, path: Seq<int>, node: Tree|
                    is_branch_below(children, i, path, node, language, branch);
                if i < rest.len() {
                    assert(is_branch_below(rest, i, path, node, language, branch));
                    assert(before.contains(branch));
                    let k = choose|k: int| 0 <= k < before.len() && before[k] == branch;
                    assert(all[k] == branch);
                } else {
                    let found = branches(last, language);
                    assert(is_branch_of(last, path, node, language, branch));
                    assert(found.contains(branch));
                    let k = choose|k: int| 0 <= k < found.len() && found[k] == branch;
                    assert(all[k + before.len()] == branch);
                }
            }
        }
    }
}

/// The node is one that chooses between paths by a condition.
pub open spec fn is_conditional(kind: Seq<char>, language: SourceLanguage) -> bool {
    if language == SourceLanguage::Rust {
        kind == "if_expression"@
    } else {
        kind == "if_statement"@
    }
}

/// A conditional is a branch on the condition that its node gives.
pub proof fn lemma_conditional_branches(node: Tree, language: SourceLanguage, i: int)
    requires
        is_conditional(node.kind, language),
        declarations::fills(node, "condition"@, i),
        node.children[i].text is Some,
        !text::is_blank(node.children[i].text->0),
    ensures
        branch_at(node, language) == Some(
            BranchModel { kind: "if"@, condition: text::trimmed(node.children[i].text->0) },
        ),
{
    let kinds = match language {
        SourceLanguage::Python => seq!["comparison_operator"@, "boolean_operator"@],
        SourceLanguage::Go => seq!["expression"@],
        SourceLanguage::Rust => seq!["condition"@],
        _ => seq![],
    };
    syntax::lemma_field_comes_first(node, "condition"@, kinds, i);
}

/// A node that names what it chooses by: a switch or a match.
pub open spec fn chooses_by(
    kind: Seq<char>,
    language: SourceLanguage,
    field: Seq<char>,
    name: Seq<char>,
) -> bool {
    match language {
        SourceLanguage::Python => kind == "match_statement"@ && field == "subject"@ && name
            == "match"@,
        SourceLanguage::Go => (kind == "expression_switch_statement"@ || kind
            == "type_switch_statement"@) && field == "value"@ && name == "switch"@,
        SourceLanguage::Rust => kind == "match_expression"@ && field == "value"@ && name
            == "match"@,
        _ => kind == "switch_statement"@ && field == "value"@ && name == "switch"@,
    }
}

/// A switch or a match is a branch on the value that its node gives.
pub proof fn lemma_choice_branches(
    node: Tree,
    language: SourceLanguage,
    field: Seq<char>,
    name: Seq<char>,
    i: int,
)
    requires
        chooses_by(node.kind, language, field, name),
        declarations::fills(node, field, i),
        node.children[i].text is Some,
        !text::is_blank(node.children[i].text->0),
    ensures
        branch_at(node, language) == Some(
            BranchModel { kind: name, condition: text::trimmed(node.children[i].text->0) },
        ),
{
    lemma_kinds_differ();
    let kinds = if language == SourceLanguage::Go || language == SourceLanguage::Rust {
        seq!["expression"@]
    } else {
        seq![]
    };
    syntax::lemma_field_comes_first(node, field, kinds, i);
}

/// A loop that runs while a condition holds is a branch on it.
pub proof fn lemma_loop_branches(node: Tree, language: SourceLanguage, i: int)
    requires
        node.kind == if language == SourceLanguage::Rust {
            "while_expression"@
        } else if language == SourceLanguage::Go {
            "for_statement"@
        } else {
            "while_statement"@
        },
        declarations::fills(node, "condition"@, i),
        node.children[i].text is Some,
        !text::is_blank(node.children[i].text->0),
    ensures
        branch_at(node, language) == Some(
            BranchModel {
                kind: if language == SourceLanguage::Go {
                    "for_statement"@
                } else {
                    "while_statement"@
                },
                condition: text::trimmed(node.children[i].text->0),
            },
        ),
{
    lemma_kinds_differ();
    let kinds = if language == SourceLanguage::Go || language == SourceLanguage::Rust {
        seq!["expression"@]
    } else {
        seq![]
    };
    syntax::lemma_field_comes_first(node, "condition"@, kinds, i);
}

/// Where the language branches without a condition, the branch is named after the construct.
pub proof fn lemma_plain_branches(node: Tree, language: SourceLanguage)
    ensures
        node.kind == "try_statement"@ && language == SourceLanguage::Python ==> branch_at(
            node,
            language,
        ) == Some(BranchModel { kind: "try"@, condition: "try/except"@ }),
        node.kind == "try_statement"@ && language.is_script() ==> branch_at(node, language)
            == Some(BranchModel { kind: "try"@, condition: "try/catch"@ }),
        node.kind == "select_statement"@ && language == SourceLanguage::Go ==> branch_at(
            node,
            language,
        ) == Some(BranchModel { kind: "select"@, condition: "select"@ }),
        node.kind == "loop_expression"@ && language == SourceLanguage::Rust ==> branch_at(
            node,
            language,
        ) == Some(BranchModel { kind: "loop"@, condition: "loop"@ }),
        node.kind == "try_expression"@ && language == SourceLanguage::Rust ==> branch_at(
            node,
            language,
        ) == Some(BranchModel { kind: "try"@, condition: "try"@ }),
{
    lemma_kinds_differ();
}

proof fn lemma_kinds_differ()
    ensures
        "if_statement"@.len() == 12,
        "if_expression"@.len() == 13,
        "switch_statement"@.len() == 16,
        "conditional_expression"@.len() == 22,
        "try_statement"@.len() == 13,
        "for_statement"@.len() == 13,
        "for_statement"@[0] == 'f',
        "try_statement"@[0] == 't',
        "while_statement"@.len() == 15,
        "do_statement"@.len() == 12,
        "match_statement"@.len() == 15,
        "match_statement"@[0] == 'm',
        "while_statement"@[0] == 'w',
        "expression_switch_statement"@.len() == 27,
        "type_switch_statement"@.len() == 21,
        "select_statement"@.len() == 16,
        "match_expression"@.len() == 16,
        "for_expression"@.len() == 14,
        "for_expression"@[0] == 'f',
        "while_expression"@.len() == 16,
        "loop_expression"@.len() == 15,
        "try_expression"@.len() == 14,
        "try_expression"@[0] == 't',
        "match_expression"@[0] == 'm',
        "while_expression"@[0] == 'w',
{
    reveal_strlit("if_statement");
    reveal_strlit("if_expression");
    reveal_strlit("switch_statement");
    reveal_strlit("conditional_expression");
    reveal_strlit("try_statement");
    reveal_strlit("for_statement");
    reveal_strlit("while_statement");
    reveal_strlit("do_statement");
    reveal_strlit("match_statement");
    reveal_strlit("expression_switch_statement");
    reveal_strlit("type_switch_statement");
    reveal_strlit("select_statement");
    reveal_strlit("match_expression");
    reveal_strlit("for_expression");
    reveal_strlit("while_expression");
    reveal_strlit("loop_expression");
    reveal_strlit("try_expression");
}

} // verus!

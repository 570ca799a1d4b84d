//! The syntax tree that parsing builds.

use vstd::prelude::*;

verus! {

/// The type of a variable.
#[derive(Debug, PartialEq, Eq)]
pub enum VariableType {
    U128,
    U8,
    Address,
    String,
    Bool,
    Array(Box<VariableType>),
}

/// A node of the syntax tree. The nodes from `Function` on are what the
/// bodies of procedures will be made of; no rule of the grammar builds them yet.
#[derive(Debug, PartialEq, Eq)]
pub enum ASTNode {
    /// A number, as decimal text.
    Number(String),
    StringLiteral(String),
    Comment(String),
    Array(Vec<ASTNode>),
    Address(String),
    /// A whole program: its blocks in the order they were written.
    Root(Vec<ASTNode>),
    Define { version: Option<String>, schemes: Vec<ASTNode> },
    Schemes(Vec<ASTNode>),
    Scheme { preset: String, params: Vec<(String, ASTNode)> },
    State(Vec<ASTNode>),
    StateVariableDeclaration { name: String, var_type: VariableType },
    Consts(Vec<ASTNode>),
    ConstDeclaration { name: String, var_type: VariableType, value: Box<ASTNode> },
    Procedures(Vec<ASTNode>),
    Function {
        name: String,
        public: bool,
        mutates: bool,
        params: Vec<(String, VariableType)>,
        body: Vec<ASTNode>,
    },
    LocalVariableDeclaration { name: String, var_type: VariableType, value: Box<ASTNode> },
    LocalVariableAssignment { name: String, value: Box<ASTNode> },
    Return(Box<ASTNode>),
    If { condition: Box<ASTNode>, body: Vec<ASTNode>, else_body: Vec<ASTNode> },
    While { condition: Box<ASTNode>, body: Vec<ASTNode> },
    Call { name: String, args: Vec<ASTNode> },
}

/// A node as a mathematical value: the same variants, with texts as
/// sequences of characters and lists as sequences.
pub enum AstView {
    Number(Seq<char>),
    StringLiteral(Seq<char>),
    Comment(Seq<char>),
    Array(Seq<AstView>),
    Address(Seq<char>),
    Root(Seq<AstView>),
    Define { version: Option<Seq<char>>, schemes: Seq<AstView> },
    Schemes(Seq<AstView>),
    Scheme { preset: Seq<char>, params: Seq<(Seq<char>, AstView)> },
    State(Seq<AstView>),
    StateVariableDeclaration { name: Seq<char>, var_type: VariableType },
    Consts(Seq<AstView>),
    ConstDeclaration { name: Seq<char>, var_type: VariableType, value: Box<AstView> },
    Procedures(Seq<AstView>),
    Function {
        name: Seq<char>,
        public: bool,
        mutates: bool,
        params: Seq<(Seq<char>, VariableType)>,
        body: Seq<AstView>,
    },
    LocalVariableDeclaration { name: Seq<char>, var_type: VariableType, value: Box<AstView> },
    LocalVariableAssignment { name: Seq<char>, value: Box<AstView> },
    Return(Box<AstView>),
    If { condition: Box<AstView>, body: Seq<AstView>, else_body: Seq<AstView> },
    While { condition: Box<AstView>, body: Seq<AstView> },
    Call { name: Seq<char>, args: Seq<AstView> },
}

/// An optional text as a mathematical value.
pub open spec fn text_view(text: Option<String>) -> Option<Seq<char>> {
    match text {
        Some(s) => Some(s@),
        None => None,
    }
}

/// Typed names as mathematical values.
pub open spec fn typed_names_view(list: Seq<(String, VariableType)>) -> Seq<
    (Seq<char>, VariableType),
> {
    Seq::new(list.len(), |i: int| (list[i].0@, list[i].1))
}

impl ASTNode {
    /// This node as a mathematical value.
    pub open spec fn view(&self) -> AstView
        decreases self,
    {
        match self {
            ASTNode::Number(text) => AstView::Number(text@),
            ASTNode::StringLiteral(text) => AstView::StringLiteral(text@),
            ASTNode::Comment(text) => AstView::Comment(text@),
            ASTNode::Array(items) => AstView::Array(
                Seq::new(
                    items@.len(),
                    |i: int|
                        if 0 <= i < items@.len() {
                            items@[i].view()
                        } else {
                            arbitrary()
                        },
                ),
            ),
            ASTNode::Address(text) => AstView::Address(text@),
            ASTNode::Root(items) => AstView::Root(
                Seq::new(
                    items@.len(),
                    |i: int|
                        if 0 <= i < items@.len() {
                            items@[i].view()
                        } else {
                            arbitrary()
                        },
                ),
            ),
            ASTNode::Define { version, schemes } => AstView::Define {
                version: text_view(*version),
                schemes: Seq::new(
                    schemes@.len(),
                    |i: int|
                        if 0 <= i < schemes@.len() {
                            schemes@[i].view()
                        } else {
                            arbitrary()
                        },
                ),
            },
            ASTNode::Schemes(items) => AstView::Schemes(
                Seq::new(
                    items@.len(),
                    |i: int|
                        if 0 <= i < items@.len() {
                            items@[i].view()
                        } else {
                            arbitrary()
                        },
                ),
            ),
            ASTNode::Scheme { preset, params } => AstView::Scheme {
                preset: preset@,
                params: Seq::new(
                    params@.len(),
                    |i: int|
                        if 0 <= i < params@.len() {
                            (params@[i].0@, params@[i].1.view())
                        } else {
                            arbitrary()
                        },
                ),
            },
            ASTNode::State(items) => AstView::State(
                Seq::new(
                    items@.len(),
                    |i: int|
                        if 0 <= i < items@.len() {
                            items@[i].view()
                        } else {
                            arbitrary()
                        },
                ),
            ),
            ASTNode::StateVariableDeclaration { name, var_type } => {
                AstView::StateVariableDeclaration { name: name@, var_type: *var_type }
            },
            ASTNode::Consts(items) => AstView::Consts(
                Seq::new(
                    items@.len(),
                    |i: int|
                        if 0 <= i < items@.len() {
                            items@[i].view()
                        } else {
                            arbitrary()
                        },
                ),
            ),
            ASTNode::ConstDeclaration { name, var_type, value } => AstView::ConstDeclaration {
                name: name@,
                var_type: *var_type,
                value: Box::new(value.view()),
            },
            ASTNode::Procedures(items) => AstView::Procedures(
                Seq::new(
                    items@.len(),
                    |i: int|
                        if 0 <= i < items@.len() {
                            items@[i].view()
                        } else {
                            arbitrary()
                        },
                ),
            ),
            ASTNode::Function { name, public, mutates, params, body } => AstView::Function {
                name: name@,
                public: *public,
                mutates: *mutates,
                params: typed_names_view(params@),
                body: Seq::new(
                    body@.len(),
                    |i: int|
                        if 0 <= i < body@.len() {
                            body@[i].view()
                        } else {
                            arbitrary()
                        },
                ),
            },
            ASTNode::LocalVariableDeclaration { name, var_type, value } => {
                AstView::LocalVariableDeclaration {
                    name: name@,
                    var_type: *var_type,
                    value: Box::new(value.view()),
                }
            },
            ASTNode::LocalVariableAssignment { name, value } => AstView::LocalVariableAssignment {
                name: name@,
                value: Box::new(value.view()),
            },
            ASTNode::Return(value) => AstView::Return(Box::new(value.view())),
            ASTNode::If { condition, body, else_body } => AstView::If {
                condition: Box::new(condition.view()),
                body: Seq::new(
                    body@.len(),
                    |i: int|
                        if 0 <= i < body@.len() {
                            body@[i].view()
                        } else {
                            arbitrary()
                        },
                ),
                else_body: Seq::new(
                    else_body@.len(),
                    |i: int|
                        if 0 <= i < else_body@.len() {
                            else_body@[i].view()
                        } else {
                            arbitrary()
                        },
                ),
            },
            ASTNode::While { condition, body } => AstView::While {
                condition: Box::new(condition.view()),
                body: Seq::new(
                    body@.len(),
                    |i: int|
                        if 0 <= i < body@.len() {
                            body@[i].view()
                        } else {
                            arbitrary()
                        },
                ),
            },
            ASTNode::Call { name, args } => AstView::Call {
                name: name@,
                args: Seq::new(
                    args@.len(),
                    |i: int|
                        if 0 <= i < args@.len() {
                            args@[i].view()
                        } else {
                            arbitrary()
                        },
                ),
            },
        }
    }
}

/// A list of nodes as mathematical values.
pub open spec fn nodes_view(nodes: Seq<ASTNode>) -> Seq<AstView> {
    Seq::new(nodes.len(), |i: int| nodes[i].view())
}

/// A list of named nodes as mathematical values.
pub open spec fn named_nodes_view(list: Seq<(String, ASTNode)>) -> Seq<(Seq<char>, AstView)> {
    Seq::new(list.len(), |i: int| (list[i].0@, list[i].1.view()))
}

/// The lists inside the nodes that parsing builds are viewed item by item.
pub proof fn lemma_view_of_lists(node: ASTNode)
    ensures
        node matches ASTNode::Array(items) ==> node.view() == AstView::Array(nodes_view(items@)),
        node matches ASTNode::Root(items) ==> node.view() == AstView::Root(nodes_view(items@)),
        node matches ASTNode::Schemes(items) ==> node.view() == AstView::Schemes(
            nodes_view(items@),
        ),
        node matches ASTNode::State(items) ==> node.view() == AstView::State(nodes_view(items@)),
        node matches ASTNode::Consts(items) ==> node.view() == AstView::Consts(
            nodes_view(items@),
        ),
        node matches ASTNode::Procedures(items) ==> node.view() == AstView::Procedures(
            nodes_view(items@),
        ),
        node matches ASTNode::Define { version, schemes } ==> node.view() == (AstView::Define {
            version: text_view(version),
            schemes: nodes_view(schemes@),
        }),
        node matches ASTNode::Scheme { preset, params } ==> node.view() == (AstView::Scheme {
            preset: preset@,
            params: named_nodes_view(params@),
        }),
{
    match node {
        ASTNode::Array(items) => {
            assert(node.view()->Array_0 =~= nodes_view(items@));
        },
        ASTNode::Root(items) => {
            assert(node.view()->Root_0 =~= nodes_view(items@));
        },
        ASTNode::Schemes(items) => {
            assert(node.view()->Schemes_0 =~= nodes_view(items@));
        },
        ASTNode::State(items) => {
            assert(node.view()->State_0 =~= nodes_view(items@));
        },
        ASTNode::Consts(items) => {
            assert(node.view()->Consts_0 =~= nodes_view(items@));
        },
        ASTNode::Procedures(items) => {
            assert(node.view()->Procedures_0 =~= nodes_view(items@));
        },
        ASTNode::Define { version, schemes } => {
            assert(node.view()->Define_schemes =~= nodes_view(schemes@));
        },
        ASTNode::Scheme { preset, params } => {
            assert(node.view()->Scheme_params =~= named_nodes_view(params@));
        },
        _ => {},
    }
}

} // verus!
